//! Accessibility metadata stored per entity for the external accessibility
//! collaborator: roles, live regions, names, text values, label links and
//! default actions. The role, live-region and action types are accesskit's
//! own; this module only stores and hands back such values, it never
//! inspects them.
//!
//! Every setter treats a dead or stale identifier as not-alive and does
//! nothing, so a write through a stale id can never land at a reused slot
//! and become observable through the live entity now there. Each setter
//! touches exactly one table entry: the entity store, the tree, the style
//! tables and every other metadata record are unchanged.

use vstd::prelude::*;
use crate::context::Context;
use crate::entity::Entity;

verus! {

/// accesskit's node role, stored opaquely per entity.
#[verifier::external_type_specification]
#[verifier::external_body]
pub struct ExRole(accesskit::Role);

/// accesskit's live-region politeness, stored opaquely per entity.
#[verifier::external_type_specification]
#[verifier::external_body]
pub struct ExLive(accesskit::Live);

/// accesskit's action kind, stored opaquely per entity as the node's
/// default action.
#[verifier::external_type_specification]
#[verifier::external_body]
pub struct ExAction(accesskit::Action);

impl Context {
    /// Records the accessibility role of `e`; a no-op for a dead or stale
    /// identifier.
    pub fn role(&mut self, e: Entity, role: accesskit::Role)
        requires
            old(self).wf(),
        ensures
            final(self).wf(),
            old(self).core_unchanged(*final(self)),
            final(self).names == old(self).names,
            final(self).text_value == old(self).text_value,
            final(self).labelled_by == old(self).labelled_by,
            final(self).live == old(self).live,
            final(self).default_action == old(self).default_action,
            forall|j: int|
                j != e.index_spec() as int ==> final(self).roles.get_spec(j) == old(
                    self,
                ).roles.get_spec(j),
            old(self).entities.is_alive_spec(e) ==> final(self).roles.get_spec(
                e.index_spec() as int,
            ) == Some(role),
            !old(self).entities.is_alive_spec(e) ==> *final(self) == *old(self),
    {
        if !self.entities.is_alive(e) {
            return ;
        }
        proof {
            crate::entity::lemma_alive_implies_index_alive(self.entities, e);
            crate::entity::lemma_store_bounds(self.entities);
        }
        self.roles.insert(e.index(), role);
    }

    /// Records the accessibility name of `e`; a no-op for a dead or stale
    /// identifier.
    pub fn name(&mut self, e: Entity, name: String)
        requires
            old(self).wf(),
        ensures
            final(self).wf(),
            old(self).core_unchanged(*final(self)),
            final(self).roles == old(self).roles,
            final(self).text_value == old(self).text_value,
            final(self).labelled_by == old(self).labelled_by,
            final(self).live == old(self).live,
            final(self).default_action == old(self).default_action,
            forall|j: int|
                j != e.index_spec() as int ==> final(self).names.get_spec(j) == old(
                    self,
                ).names.get_spec(j),
            old(self).entities.is_alive_spec(e) ==> final(self).names.get_spec(
                e.index_spec() as int,
            ) == Some(name),
            !old(self).entities.is_alive_spec(e) ==> *final(self) == *old(self),
    {
        if !self.entities.is_alive(e) {
            return ;
        }
        proof {
            crate::entity::lemma_alive_implies_index_alive(self.entities, e);
            crate::entity::lemma_store_bounds(self.entities);
        }
        self.names.insert(e.index(), name);
    }

    /// Records the live-region politeness of `e`; a no-op for a dead or
    /// stale identifier.
    pub fn live(&mut self, e: Entity, live: accesskit::Live)
        requires
            old(self).wf(),
        ensures
            final(self).wf(),
            old(self).core_unchanged(*final(self)),
            final(self).roles == old(self).roles,
            final(self).names == old(self).names,
            final(self).text_value == old(self).text_value,
            final(self).labelled_by == old(self).labelled_by,
            final(self).default_action == old(self).default_action,
            forall|j: int|
                j != e.index_spec() as int ==> final(self).live.get_spec(j) == old(
                    self,
                ).live.get_spec(j),
            old(self).entities.is_alive_spec(e) ==> final(self).live.get_spec(
                e.index_spec() as int,
            ) == Some(live),
            !old(self).entities.is_alive_spec(e) ==> *final(self) == *old(self),
    {
        if !self.entities.is_alive(e) {
            return ;
        }
        proof {
            crate::entity::lemma_alive_implies_index_alive(self.entities, e);
            crate::entity::lemma_store_bounds(self.entities);
        }
        self.live.insert(e.index(), live);
    }

    /// Records which entity labels `e`; a no-op for a dead or stale
    /// identifier.
    pub fn labelled_by(&mut self, e: Entity, label: Entity)
        requires
            old(self).wf(),
        ensures
            final(self).wf(),
            old(self).core_unchanged(*final(self)),
            final(self).roles == old(self).roles,
            final(self).names == old(self).names,
            final(self).text_value == old(self).text_value,
            final(self).live == old(self).live,
            final(self).default_action == old(self).default_action,
            forall|j: int|
                j != e.index_spec() as int ==> final(self).labelled_by.get_spec(j) == old(
                    self,
                ).labelled_by.get_spec(j),
            old(self).entities.is_alive_spec(e) ==> final(self).labelled_by.get_spec(
                e.index_spec() as int,
            ) == Some(label),
            !old(self).entities.is_alive_spec(e) ==> *final(self) == *old(self),
    {
        if !self.entities.is_alive(e) {
            return ;
        }
        proof {
            crate::entity::lemma_alive_implies_index_alive(self.entities, e);
            crate::entity::lemma_store_bounds(self.entities);
        }
        self.labelled_by.insert(e.index(), label);
    }

    /// Records the textual value of `e`; a no-op for a dead or stale
    /// identifier.
    pub fn text_value(&mut self, e: Entity, value: String)
        requires
            old(self).wf(),
        ensures
            final(self).wf(),
            old(self).core_unchanged(*final(self)),
            final(self).roles == old(self).roles,
            final(self).names == old(self).names,
            final(self).labelled_by == old(self).labelled_by,
            final(self).live == old(self).live,
            final(self).default_action == old(self).default_action,
            forall|j: int|
                j != e.index_spec() as int ==> final(self).text_value.get_spec(j) == old(
                    self,
                ).text_value.get_spec(j),
            old(self).entities.is_alive_spec(e) ==> final(self).text_value.get_spec(
                e.index_spec() as int,
            ) == Some(value),
            !old(self).entities.is_alive_spec(e) ==> *final(self) == *old(self),
    {
        if !self.entities.is_alive(e) {
            return ;
        }
        proof {
            crate::entity::lemma_alive_implies_index_alive(self.entities, e);
            crate::entity::lemma_store_bounds(self.entities);
        }
        self.text_value.insert(e.index(), value);
    }

    /// Records the default action of `e` (what today's accesskit calls an
    /// `Action`, standing where its older action-verb type stood); a no-op
    /// for a dead or stale identifier.
    pub fn default_action_verb(&mut self, e: Entity, action: accesskit::Action)
        requires
            old(self).wf(),
        ensures
            final(self).wf(),
            old(self).core_unchanged(*final(self)),
            final(self).roles == old(self).roles,
            final(self).names == old(self).names,
            final(self).text_value == old(self).text_value,
            final(self).labelled_by == old(self).labelled_by,
            final(self).live == old(self).live,
            forall|j: int|
                j != e.index_spec() as int ==> final(self).default_action.get_spec(j) == old(
                    self,
                ).default_action.get_spec(j),
            old(self).entities.is_alive_spec(e) ==> final(self).default_action.get_spec(
                e.index_spec() as int,
            ) == Some(action),
            !old(self).entities.is_alive_spec(e) ==> *final(self) == *old(self),
    {
        if !self.entities.is_alive(e) {
            return ;
        }
        proof {
            crate::entity::lemma_alive_implies_index_alive(self.entities, e);
            crate::entity::lemma_store_bounds(self.entities);
        }
        self.default_action.insert(e.index(), action);
    }
}

} // verus!
