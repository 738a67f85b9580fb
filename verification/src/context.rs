//! The owning context of the UI core: the entity store, the tree, and every
//! per-entity style and metadata table, mutated only between pipeline passes.
//!
//! Destroying an entity removes its whole subtree from the tree, frees every
//! entity in it, and clears each of their style and metadata records, so no
//! table keeps a record referencing a destroyed entity.

use vstd::prelude::*;
use crate::entity::Entity;
use crate::entity::EntityManager;
use crate::style::AttributeStore;
use crate::style::Color;
use crate::style::SparseSet;
use crate::style::Units;
use crate::tree::Tree;

verus! {

/// The shared state all passes operate on.
pub struct Context {
    pub entities: EntityManager,
    pub tree: Tree,
    pub classes: SparseSet<Vec<String>>,
    pub background_color: AttributeStore<Color>,
    pub width: AttributeStore<Units>,
    pub height: AttributeStore<Units>,
    pub font_size: AttributeStore<u32>,
    pub names: SparseSet<String>,
    pub text_value: SparseSet<String>,
    pub labelled_by: SparseSet<Entity>,
    pub roles: SparseSet<accesskit::Role>,
    pub live: SparseSet<accesskit::Live>,
    pub default_action: SparseSet<accesskit::Action>,
}

impl Context {
    /// The stores agree: every tree record sits at a live entity slot.
    pub open spec fn wf(self) -> bool {
        &&& self.entities.wf()
        &&& self.tree.wf()
        &&& forall|j: int| #[trigger] self.tree.in_tree(j) ==> self.entities.index_alive(j)
    }

    /// No style or metadata table holds a record for slot `i`.
    pub open spec fn no_records_for(self, i: int) -> bool {
        &&& self.classes.get_spec(i) is None
        &&& self.background_color.inline_spec(i) is None
        &&& self.width.inline_spec(i) is None
        &&& self.height.inline_spec(i) is None
        &&& self.font_size.inline_spec(i) is None
        &&& self.names.get_spec(i) is None
        &&& self.text_value.get_spec(i) is None
        &&& self.labelled_by.get_spec(i) is None
        &&& self.roles.get_spec(i) is None
        &&& self.live.get_spec(i) is None
        &&& self.default_action.get_spec(i) is None
    }

    /// Every style and metadata record of slot `i` is the same in both.
    pub open spec fn records_unchanged(self, other: Context, i: int) -> bool {
        &&& other.classes.get_spec(i) == self.classes.get_spec(i)
        &&& other.background_color.inline_spec(i) == self.background_color.inline_spec(i)
        &&& other.width.inline_spec(i) == self.width.inline_spec(i)
        &&& other.height.inline_spec(i) == self.height.inline_spec(i)
        &&& other.font_size.inline_spec(i) == self.font_size.inline_spec(i)
        &&& other.names.get_spec(i) == self.names.get_spec(i)
        &&& other.text_value.get_spec(i) == self.text_value.get_spec(i)
        &&& other.labelled_by.get_spec(i) == self.labelled_by.get_spec(i)
        &&& other.roles.get_spec(i) == self.roles.get_spec(i)
        &&& other.live.get_spec(i) == self.live.get_spec(i)
        &&& other.default_action.get_spec(i) == self.default_action.get_spec(i)
    }

    /// The sweep's frame at slot `n`: slots of the doomed subtree already
    /// passed are freed and cleared, every other slot is untouched.
    pub open spec fn sweep_frame(pre: Context, cur: Context, i: int, j: int, n: int) -> bool {
        &&& (0 <= n < j && pre.tree.in_subtree(i, n) ==> !cur.entities.index_alive(n)
            && cur.no_records_for(n))
        &&& (!(0 <= n < j && pre.tree.in_subtree(i, n)) ==> cur.entities.index_alive(n)
            == pre.entities.index_alive(n) && pre.records_unchanged(cur, n))
    }

    /// Entity store, tree and style tables are the same in both: only the
    /// accessibility metadata tables may differ.
    pub open spec fn core_unchanged(self, other: Context) -> bool {
        &&& other.entities == self.entities
        &&& other.tree == self.tree
        &&& other.classes == self.classes
        &&& other.background_color == self.background_color
        &&& other.width == self.width
        &&& other.height == self.height
        &&& other.font_size == self.font_size
    }

    /// A fresh context holding only the root entity, returned beside it.
    pub fn new() -> (r: (Context, Entity))
        ensures
            r.0.wf(),
            r.0.entities.slot_count() == 1,
            r.0.entities.is_alive_spec(r.1),
            r.0.tree.in_tree(r.1.index_spec() as int),
            r.0.tree.parent_spec(r.1.index_spec() as int) is None,
    {
        let mut entities = EntityManager::new();
        let root = entities.create();
        let mut tree = Tree::new();
        let ghost tree0 = tree;
        let ok = tree.add_root(root.index());
        proof {
            crate::entity::lemma_store_bounds(entities);
            assert(root.index_spec() < u32::MAX);
            assert(!tree0.in_tree(root.index_spec() as int));
            assert(ok);
            assert forall|j: int| #[trigger] tree.in_tree(j) implies entities.index_alive(j) by {
                if j != root.index_spec() as int {
                    assert(tree0.node_unchanged(tree, j));
                    assert(!tree0.in_tree(j));
                }
            }
        }
        let cx = Context {
            entities,
            tree,
            classes: SparseSet::new(),
            background_color: AttributeStore::new(Color::rgba(0, 0, 0, 0)),
            width: AttributeStore::new(Units::Auto),
            height: AttributeStore::new(Units::Auto),
            font_size: AttributeStore::new(16),
            names: SparseSet::new(),
            text_value: SparseSet::new(),
            labelled_by: SparseSet::new(),
            roles: SparseSet::new(),
            live: SparseSet::new(),
            default_action: SparseSet::new(),
        };
        (cx, root)
    }

    /// Whether `e` refers to a live entity; stale identifiers are dead.
    pub fn is_alive(&self, e: Entity) -> (r: bool)
        requires
            self.wf(),
        ensures
            r == self.entities.is_alive_spec(e),
    {
        self.entities.is_alive(e)
    }

    /// Creates a new entity as the last child of `parent`. Returns `None`
    /// (changing nothing observable) if `parent` is dead or outside the
    /// tree.
    pub fn create(&mut self, parent: Entity) -> (r: Option<Entity>)
        requires
            old(self).wf(),
            old(self).entities.slot_count() < u32::MAX as nat,
        ensures
            final(self).wf(),
            r is Some == (old(self).entities.is_alive_spec(parent) && old(self).tree.in_tree(
                parent.index_spec() as int,
            )),
            r is Some ==> {
                let e = r->Some_0;
                &&& final(self).entities.is_alive_spec(e)
                &&& !old(self).entities.is_alive_spec(e)
                &&& !old(self).entities.index_alive(e.index_spec() as int)
                &&& final(self).entities.index_alive(e.index_spec() as int)
                &&& final(self).tree.in_tree(e.index_spec() as int)
                &&& final(self).tree.parent_spec(e.index_spec() as int) == Some(parent.index_spec())
                &&& final(self).tree.children_spec(parent.index_spec() as int) == old(self).tree.children_spec(parent.index_spec() as int).push(e.index_spec())
                &&& final(self).tree.in_tree(parent.index_spec() as int)
                &&& final(self).tree.parent_spec(parent.index_spec() as int) == old(self).tree.parent_spec(parent.index_spec() as int)
                &&& final(self).tree.children_spec(e.index_spec() as int) == Seq::<u32>::empty()
                &&& forall|e2: Entity|
                    old(self).entities.is_alive_spec(e2) ==> final(self).entities.is_alive_spec(e2)
                        && e2 != e && e2.index_spec() != e.index_spec()
                &&& forall|j: int|
                    j != parent.index_spec() as int && j != e.index_spec() as int ==> old(self).tree.node_unchanged(final(self).tree, j)
            },
            r is None ==> final(self).entities == old(self).entities && final(self).tree == old(self).tree,
            old(self).entities.slot_count() <= final(self).entities.slot_count() <= old(self).entities.slot_count() + 1,
            final(self).classes == old(self).classes,
            final(self).background_color == old(self).background_color,
            final(self).width == old(self).width,
            final(self).height == old(self).height,
            final(self).font_size == old(self).font_size,
            final(self).names == old(self).names,
            final(self).text_value == old(self).text_value,
            final(self).labelled_by == old(self).labelled_by,
            final(self).roles == old(self).roles,
            final(self).live == old(self).live,
            final(self).default_action == old(self).default_action,
    {
        if !self.entities.is_alive(parent) || !self.tree.contains(parent.index()) {
            return Option::None;
        }
        let e = self.entities.create();
        proof {
            crate::entity::lemma_store_bounds(self.entities);
            if old(self).tree.in_tree(e.index_spec() as int) {
                assert(old(self).entities.index_alive(e.index_spec() as int));
            }
            assert(e.index_spec() < self.entities.slot_count());
        }
        let ok = self.tree.add_child(parent.index(), e.index());
        proof {
            assert(ok);
            assert forall|e2: Entity|
                old(self).entities.is_alive_spec(e2) implies e2.index_spec()
                != e.index_spec() by {
                crate::entity::lemma_alive_implies_index_alive(old(self).entities, e2);
            }
            assert forall|j: int| #[trigger] self.tree.in_tree(j) implies self.entities.index_alive(
                j,
            ) by {
                if j != e.index_spec() as int {
                    if j != parent.index_spec() as int {
                        assert(old(self).tree.node_unchanged(self.tree, j));
                    }
                    assert(old(self).tree.in_tree(j));
                    assert(old(self).entities.index_alive(j));
                }
            }
        }
        Option::Some(e)
    }

    /// Destroys `e` and its whole subtree: every entity in it is freed, its
    /// tree records erased, and every style and metadata record of each
    /// cleared. Destroying a dead or stale identifier is a no-op.
    #[verifier::rlimit(100)]
    #[verifier::spinoff_prover]
    pub fn destroy(&mut self, e: Entity)
        requires
            old(self).wf(),
        ensures
            final(self).wf(),
            !final(self).entities.is_alive_spec(e),
            !old(self).entities.is_alive_spec(e) ==> *final(self) == *old(self),
            old(self).entities.is_alive_spec(e) ==> !final(self).entities.index_alive(
                e.index_spec() as int,
            ) && !final(self).tree.in_tree(e.index_spec() as int) && final(self).no_records_for(
                e.index_spec() as int,
            ),
            old(self).entities.is_alive_spec(e) ==> forall|j: int|
                old(self).tree.in_subtree(e.index_spec() as int, j) ==> !final(self).tree.in_tree(
                    j,
                ) && !final(self).entities.index_alive(j) && final(self).no_records_for(j),
            old(self).entities.is_alive_spec(e) ==> forall|j: int|
                old(self).tree.in_tree(j) && !old(self).tree.in_subtree(e.index_spec() as int, j)
                    ==> final(self).tree.in_tree(j) && final(self).tree.parent_spec(j) == old(
                    self,
                ).tree.parent_spec(j),
            old(self).entities.is_alive_spec(e) ==> forall|j: int|
                j != e.index_spec() as int && !old(self).tree.in_subtree(e.index_spec() as int, j)
                    ==> final(self).entities.index_alive(j) == old(self).entities.index_alive(j)
                    && old(self).records_unchanged(*final(self), j),
    {
        if !self.entities.is_alive(e) {
            return ;
        }
        let i = e.index();
        let len = self.tree.len();
        proof {
            crate::tree::lemma_tree_bounds(self.tree);
        }
        let ghost pre = *self;
        let mut j: usize = 0;
        while j < len
            invariant
                pre == *old(self),
                pre.wf(),
                self.tree == pre.tree,
                self.entities.wf(),
                self.entities.slot_count() == pre.entities.slot_count(),
                len == pre.tree.len_spec(),
                len <= u32::MAX as usize,
                j <= len,
                forall|n: int| #[trigger] Context::sweep_frame(pre, *self, i as int, j as int, n),
                forall|e2: Entity|
                    #![trigger pre.entities.is_alive_spec(e2)]
                    !(0 <= e2.index_spec() < j && pre.tree.in_subtree(
                        i as int,
                        e2.index_spec() as int,
                    )) ==> self.entities.is_alive_spec(e2) == pre.entities.is_alive_spec(e2),
            decreases len - j,
        {
            let ghost head = *self;
            let hit = self.tree.is_in_subtree(i, j as u32);
            if hit {
                let d = j as u32;
                self.entities.destroy_index(d);
                self.classes.remove(d);
                self.background_color.clear_inline(d);
                self.width.clear_inline(d);
                self.height.clear_inline(d);
                self.font_size.clear_inline(d);
                self.names.remove(d);
                self.text_value.remove(d);
                self.labelled_by.remove(d);
                self.roles.remove(d);
                self.live.remove(d);
                self.default_action.remove(d);
            }
            j += 1;
            proof {
                assert forall|n: int| n != j - 1 implies head.records_unchanged(*self, n)
                    && self.entities.index_alive(n) == head.entities.index_alive(n) by {
                    assert(self.entities.index_alive(n) == head.entities.index_alive(n));
                    assert(self.classes.get_spec(n) == head.classes.get_spec(n));
                    assert(self.background_color.inline_spec(n) == head.background_color.inline_spec(
                        n,
                    ));
                    assert(self.width.inline_spec(n) == head.width.inline_spec(n));
                    assert(self.height.inline_spec(n) == head.height.inline_spec(n));
                    assert(self.font_size.inline_spec(n) == head.font_size.inline_spec(n));
                    assert(self.names.get_spec(n) == head.names.get_spec(n));
                    assert(self.text_value.get_spec(n) == head.text_value.get_spec(n));
                    assert(self.labelled_by.get_spec(n) == head.labelled_by.get_spec(n));
                    assert(self.roles.get_spec(n) == head.roles.get_spec(n));
                    assert(self.live.get_spec(n) == head.live.get_spec(n));
                }
                if hit {
                    assert(!self.entities.index_alive(j - 1));
                    assert(self.no_records_for(j - 1));
                }
                assert forall|n: int| #[trigger] Context::sweep_frame(
                    pre,
                    *self,
                    i as int,
                    j as int,
                    n,
                ) by {
                    assert(Context::sweep_frame(pre, head, i as int, j as int - 1, n));
                    if 0 <= n < j && pre.tree.in_subtree(i as int, n) {
                        if n == j - 1 {
                        } else {
                            assert(!head.entities.index_alive(n) && head.no_records_for(n));
                            assert(head.records_unchanged(*self, n));
                        }
                    } else {
                        assert(head.entities.index_alive(n) == pre.entities.index_alive(n));
                        assert(pre.records_unchanged(head, n));
                        assert(head.records_unchanged(*self, n));
                    }
                }
                assert forall|e2: Entity|
                    !(0 <= e2.index_spec() < j + 1 && pre.tree.in_subtree(
                        i as int,
                        e2.index_spec() as int,
                    )) implies self.entities.is_alive_spec(e2) == pre.entities.is_alive_spec(
                    e2,
                ) by {
                    assert(head.entities.is_alive_spec(e2) == pre.entities.is_alive_spec(e2));
                    if e2.index_spec() != j as u32 {
                        assert(self.entities.is_alive_spec(e2) == head.entities.is_alive_spec(e2));
                    }
                }
            }
        }
        let ghost sweeped = *self;
        self.tree.remove(i);
        let ghost mid = *self;
        self.entities.destroy_index(i);
        self.classes.remove(i);
        self.background_color.clear_inline(i);
        self.width.clear_inline(i);
        self.height.clear_inline(i);
        self.font_size.clear_inline(i);
        self.names.remove(i);
        self.text_value.remove(i);
        self.labelled_by.remove(i);
        self.roles.remove(i);
        self.live.remove(i);
        self.default_action.remove(i);
        proof {
            assert forall|j2: int| #[trigger] self.tree.in_tree(j2) implies self
                .entities.index_alive(j2) by {
                assert(Context::sweep_frame(pre, sweeped, i as int, len as int, j2));
                assert(pre.tree.in_tree(j2) && !pre.tree.in_subtree(i as int, j2));
                if pre.tree.in_tree(i as int) {
                    crate::tree::lemma_in_subtree_self(pre.tree, i as int);
                }
                assert(j2 != i as int);
                assert(mid.entities.index_alive(j2) == pre.entities.index_alive(j2));
                assert(pre.entities.index_alive(j2));
            }
            assert forall|j2: int|
                #![trigger pre.tree.in_subtree(i as int, j2)]
                pre.tree.in_subtree(i as int, j2) implies !self.tree.in_tree(j2)
                && !self.entities.index_alive(j2) && self.no_records_for(j2) by {
                if j2 == i as int {
                } else {
                    crate::tree::lemma_in_subtree_members(pre.tree, i as int, j2);
                    assert(pre.tree.in_tree(j2));
                    crate::tree::lemma_in_tree_bounds(pre.tree, j2);
                    assert(0 <= j2 < len);
                    assert(Context::sweep_frame(pre, sweeped, i as int, len as int, j2));
                    assert(!mid.entities.index_alive(j2) && mid.no_records_for(j2));
                    assert(mid.records_unchanged(*self, j2));
                }
            }
            assert forall|j2: int|
                #![trigger pre.tree.in_subtree(i as int, j2)]
                j2 != i as int && !pre.tree.in_subtree(i as int, j2) implies self
                .entities.index_alive(j2) == pre.entities.index_alive(j2) && pre.records_unchanged(
                *self,
                j2,
            ) by {
                assert(Context::sweep_frame(pre, sweeped, i as int, len as int, j2));
                assert(mid.entities.index_alive(j2) == pre.entities.index_alive(j2));
                assert(pre.records_unchanged(mid, j2));
                assert(mid.records_unchanged(*self, j2));
            }
        }
    }
}

} // verus!
