//! Lens-based data binding: observer reactivity from model data to views.
//!
//! A [`Lens`] is a pure accessor path into a model value; lenses compose
//! with [`Then`], short-circuiting to `None` when an intermediate optional
//! projection is absent. A [`Binding`] ties a lens to an entity and stores
//! the last observed value; an update pass recomputes each lens and reports
//! exactly the entities whose observed value actually changed, judged by the
//! [`Data`] "same value" comparison, so a binding fires at most once per
//! actual change per pass and never when the value is unchanged. A pass
//! holds the binding set exclusively, so a rebuild callback cannot re-enter
//! the pass that invoked it and re-dirty its own source: the cycle a runtime
//! recursion guard would detect is ruled out by construction.

use vstd::prelude::*;
use crate::style::Color;
use crate::style::Units;

verus! {

/// A value with a "same value" comparison used to suppress redundant binding
/// updates. The provided implementations are exact structural equality;
/// a type whose exact comparison is too costly may implement a documented
/// cheaper approximation instead.
pub trait Data: Sized {
    /// What the comparison means.
    spec fn same_spec(self, other: Self) -> bool;

    /// Whether the two values count as the same.
    fn same(&self, other: &Self) -> (r: bool)
        ensures
            r == self.same_spec(*other),
    ;
}

impl Data for u32 {
    open spec fn same_spec(self, other: u32) -> bool {
        self == other
    }

    fn same(&self, other: &u32) -> bool {
        *self == *other
    }
}

impl Data for i64 {
    open spec fn same_spec(self, other: i64) -> bool {
        self == other
    }

    fn same(&self, other: &i64) -> bool {
        *self == *other
    }
}

impl Data for usize {
    open spec fn same_spec(self, other: usize) -> bool {
        self == other
    }

    fn same(&self, other: &usize) -> bool {
        *self == *other
    }
}

impl Data for bool {
    open spec fn same_spec(self, other: bool) -> bool {
        self == other
    }

    fn same(&self, other: &bool) -> bool {
        *self == *other
    }
}

impl Data for String {
    open spec fn same_spec(self, other: String) -> bool {
        self@ == other@
    }

    fn same(&self, other: &String) -> bool {
        self.eq(other)
    }
}

impl Data for Color {
    open spec fn same_spec(self, other: Color) -> bool {
        self == other
    }

    fn same(&self, other: &Color) -> bool {
        *self == *other
    }
}

impl Data for Units {
    open spec fn same_spec(self, other: Units) -> bool {
        self == other
    }

    fn same(&self, other: &Units) -> bool {
        *self == *other
    }
}

impl Data for (u32, bool) {
    open spec fn same_spec(self, other: (u32, bool)) -> bool {
        self == other
    }

    fn same(&self, other: &(u32, bool)) -> bool {
        self.0 == other.0 && self.1 == other.1
    }
}

/// A pure, composable accessor path into a model value. `get` never has
/// side effects; `None` is the absent sentinel for optional projections.
pub trait Lens: Sized {
    type Source;

    type Target;

    /// The value the lens focuses on, if present.
    spec fn view_spec(self, s: Self::Source) -> Option<Self::Target>;

    /// Reads the focused value out of the model.
    fn get(&self, s: &Self::Source) -> (r: Option<Self::Target>)
        ensures
            r == self.view_spec(*s),
    ;
}

/// Composition of two lenses: `Then(a, b)` focuses through `a`, then `b`.
#[derive(Clone, Copy)]
pub struct Then<A, B> {
    pub a: A,
    pub b: B,
}

impl<A: Lens, B: Lens<Source = A::Target>> Lens for Then<A, B> {
    type Source = A::Source;

    type Target = B::Target;

    open spec fn view_spec(self, s: A::Source) -> Option<B::Target> {
        match self.a.view_spec(s) {
            Option::Some(mid) => self.b.view_spec(mid),
            Option::None => Option::None,
        }
    }

    fn get(&self, s: &A::Source) -> (r: Option<B::Target>) {
        match self.a.get(s) {
            Option::Some(mid) => self.b.get(&mid),
            Option::None => Option::None,
        }
    }
}

/// Lens composition is exactly function composition with short-circuiting:
/// `Then(a, b)` yields `b` of `a`'s focus when the intermediate is present,
/// and the absent sentinel otherwise.
pub proof fn lemma_then_composes<A: Lens, B: Lens<Source = A::Target>>(
    l: Then<A, B>,
    s: A::Source,
)
    ensures
        l.a.view_spec(s) is Some ==> l.view_spec(s) == l.b.view_spec(l.a.view_spec(s)->Some_0),
        l.a.view_spec(s) is None ==> l.view_spec(s) is None,
{
}

/// The length of a list model: a lens from `Vec<i64>` to its length.
#[derive(Clone, Copy)]
pub struct LenLens {}

impl Lens for LenLens {
    type Source = Vec<i64>;

    type Target = usize;

    open spec fn view_spec(self, s: Vec<i64>) -> Option<usize> {
        Option::Some(s@.len() as usize)
    }

    fn get(&self, s: &Vec<i64>) -> (r: Option<usize>) {
        Option::Some(s.len())
    }
}

/// An index into a list model: absent when out of bounds.
#[derive(Clone, Copy)]
pub struct IndexLens {
    pub index: usize,
}

impl Lens for IndexLens {
    type Source = Vec<i64>;

    type Target = i64;

    open spec fn view_spec(self, s: Vec<i64>) -> Option<i64> {
        if self.index < s@.len() {
            Option::Some(s@[self.index as int])
        } else {
            Option::None
        }
    }

    fn get(&self, s: &Vec<i64>) -> (r: Option<i64>) {
        if self.index < s.len() {
            Option::Some(s[self.index])
        } else {
            Option::None
        }
    }
}

/// Whether a list length is even: a mapping lens over a length observation.
#[derive(Clone, Copy)]
pub struct EvenLens {}

impl Lens for EvenLens {
    type Source = usize;

    type Target = bool;

    open spec fn view_spec(self, s: usize) -> Option<bool> {
        Option::Some(s % 2 == 0)
    }

    fn get(&self, s: &usize) -> (r: Option<bool>) {
        Option::Some(*s % 2 == 0)
    }
}

/// Whether a number is nonnegative: a mapping lens over one list element.
#[derive(Clone, Copy)]
pub struct NonNegativeLens {}

impl Lens for NonNegativeLens {
    type Source = i64;

    type Target = bool;

    open spec fn view_spec(self, s: i64) -> Option<bool> {
        Option::Some(s >= 0)
    }

    fn get(&self, s: &i64) -> (r: Option<bool>) {
        Option::Some(*s >= 0)
    }
}

/// Whether two observations count as the same: both absent, or both present
/// and equal under the `Data` comparison.
pub open spec fn same_observation<T: Data>(a: Option<T>, b: Option<T>) -> bool {
    match (a, b) {
        (Option::Some(x), Option::Some(y)) => x.same_spec(y),
        (Option::None, Option::None) => true,
        _ => false,
    }
}

/// One binding: the observed entity, the lens, and the last observed value.
pub struct Binding<L: Lens> {
    pub entity: u32,
    pub lens: L,
    pub last: Option<L::Target>,
}

impl<L: Lens> Binding<L> {
    /// Whether this binding must rebuild for the given model state.
    pub open spec fn fires_spec(self, model: L::Source) -> bool where L::Target: Data {
        !same_observation(self.last, self.lens.view_spec(model))
    }
}

/// The entities of the bindings in `bs[k..]` that fire for `model`, in
/// registration order.
pub open spec fn fired_entities<L: Lens>(bs: Seq<Binding<L>>, model: L::Source, k: int) -> Seq<
    u32,
> where L::Target: Data
    decreases bs.len() - k,
{
    if k < 0 || k >= bs.len() {
        Seq::empty()
    } else if bs[k].fires_spec(model) {
        seq![bs[k].entity] + fired_entities(bs, model, k + 1)
    } else {
        fired_entities(bs, model, k + 1)
    }
}

/// The registered bindings over one model type, updated together each
/// reactive pass.
pub struct BindingSet<L: Lens> {
    bindings: Vec<Binding<L>>,
}

impl<L: Lens + Copy> BindingSet<L> where L::Target: Data {
    pub closed spec fn bindings_spec(self) -> Seq<Binding<L>> {
        self.bindings@
    }

    pub fn new() -> (r: BindingSet<L>)
        ensures
            r.bindings_spec() == Seq::<Binding<L>>::empty(),
    {
        BindingSet { bindings: Vec::new() }
    }

    /// Registers a binding for `lens` on `entity`, snapshotting the current
    /// model value so that an unchanged model never fires it.
    pub fn register(&mut self, entity: u32, lens: L, model: &L::Source)
        ensures
            final(self).bindings_spec() == old(self).bindings_spec().push(
                Binding { entity, lens, last: lens.view_spec(*model) },
            ),
    {
        let last = lens.get(model);
        self.bindings.push(Binding { entity, lens, last });
    }

    /// One reactive pass: recomputes every lens against `model`, updates
    /// each stored observation, and returns exactly the entities whose
    /// observed value changed, in registration order. A binding whose value
    /// is the same fires nothing.
    pub fn run_pass(&mut self, model: &L::Source) -> (fired: Vec<u32>)
        ensures
            fired@ == fired_entities(old(self).bindings_spec(), *model, 0),
            final(self).bindings_spec().len() == old(self).bindings_spec().len(),
            forall|j: int|
                0 <= j < old(self).bindings_spec().len() ==> {
                    &&& (#[trigger] final(self).bindings_spec()[j]).entity == old(
                        self,
                    ).bindings_spec()[j].entity
                    &&& final(self).bindings_spec()[j].lens == old(self).bindings_spec()[j].lens
                    &&& final(self).bindings_spec()[j].last == old(self).bindings_spec()[j]
                        .lens.view_spec(*model)
                },
    {
        let mut fired: Vec<u32> = Vec::new();
        let n = self.bindings.len();
        let mut j: usize = 0;
        while j < n
            invariant
                n == self.bindings@.len(),
                n == old(self).bindings_spec().len(),
                j <= n,
                forall|m: int|
                    j <= m < n ==> self.bindings@[m] == old(self).bindings_spec()[m],
                forall|m: int|
                    0 <= m < j ==> {
                        &&& (#[trigger] self.bindings@[m]).entity == old(self).bindings_spec()[m]
                            .entity
                        &&& self.bindings@[m].lens == old(self).bindings_spec()[m].lens
                        &&& self.bindings@[m].last == old(self).bindings_spec()[m].lens.view_spec(
                            *model,
                        )
                    },
                fired@ + fired_entities(old(self).bindings_spec(), *model, j as int)
                    == fired_entities(old(self).bindings_spec(), *model, 0),
            decreases n - j,
        {
            let b = &self.bindings[j];
            let entity = b.entity;
            let lens = b.lens;
            let fresh = lens.get(model);
            let changed = match (&b.last, &fresh) {
                (Option::Some(x), Option::Some(y)) => !x.same(y),
                (Option::None, Option::None) => false,
                _ => true,
            };
            let ghost before = fired@;
            if changed {
                fired.push(entity);
            }
            self.bindings.set(j, Binding { entity, lens, last: fresh });
            proof {
                let obs = old(self).bindings_spec();
                assert(obs[j as int].fires_spec(*model) == changed);
                assert(fired_entities(obs, *model, j as int) == (if changed {
                    seq![obs[j as int].entity] + fired_entities(obs, *model, j as int + 1)
                } else {
                    fired_entities(obs, *model, j as int + 1)
                }));
                if changed {
                    assert(before + (seq![obs[j as int].entity] + fired_entities(
                        obs,
                        *model,
                        j as int + 1,
                    )) =~= fired@ + fired_entities(obs, *model, j as int + 1));
                }
            }
            j += 1;
        }
        proof {
            assert(fired_entities(old(self).bindings_spec(), *model, n as int)
                =~= Seq::<u32>::empty());
            assert(fired@ + Seq::<u32>::empty() =~= fired@);
        }
        fired
    }
}

/// A binding whose lens yields a value the `Data` comparison counts as the
/// same as its stored observation does not fire its rebuild.
pub proof fn lemma_same_value_does_not_fire<L: Lens>(b: Binding<L>, model: L::Source)
    where L::Target: Data
    requires
        same_observation(b.last, b.lens.view_spec(model)),
    ensures
        !b.fires_spec(model),
{
}

} // verus!
