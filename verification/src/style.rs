//! Sparse per-entity style storage with a two-tier override model and
//! inherited resolution.
//!
//! Each attribute kind keeps one sparse table from entity index to value.
//! Resolution for one entity is two-tier: a directly set inline value always
//! beats the stylesheet rule layer, where the last rule whose class the
//! entity carries wins. `get_inherited` walks the ancestor chain applying the
//! same two-tier lookup at each level and falls back to the attribute's
//! compiled default at the root. Lengths and percentages are whole units
//! (device pixels, whole percent), so resolution is exact integer arithmetic.

use vstd::prelude::*;
use crate::tree::Tree;

verus! {

/// An RGBA colour, one byte per channel.
#[derive(Clone, Copy, PartialEq, Eq, Structural, Debug)]
pub struct Color {
    pub r: u8,
    pub g: u8,
    pub b: u8,
    pub a: u8,
}

impl Color {
    /// A fully opaque colour from its three channels.
    pub fn rgb(r: u8, g: u8, b: u8) -> (c: Color)
        ensures
            c == (Color { r, g, b, a: 255u8 }),
    {
        Color { r, g, b, a: 255 }
    }

    pub fn rgba(r: u8, g: u8, b: u8, a: u8) -> (c: Color)
        ensures
            c == (Color { r, g, b, a }),
    {
        Color { r, g, b, a }
    }
}

/// A layout length: whole pixels, whole percent of the parent, a stretch
/// factor, or automatic.
#[derive(Clone, Copy, PartialEq, Eq, Structural, Debug)]
pub enum Units {
    Pixels(i64),
    Percentage(i64),
    Stretch(i64),
    Auto,
}

/// One stylesheet rule: a class selector and the value it sets.
pub struct StyleRule<V> {
    pub class: String,
    pub value: V,
}

/// A sparse table from entity index to a value, absence meaning "unset".
pub struct SparseSet<V> {
    entries: Vec<Option<V>>,
}

impl<V> SparseSet<V> {
    /// The stored value for index `i`, if any.
    pub closed spec fn get_spec(self, i: int) -> Option<V> {
        if 0 <= i < self.entries@.len() {
            self.entries@[i]
        } else {
            Option::None
        }
    }

    pub fn new() -> (r: SparseSet<V>)
        ensures
            forall|i: int| r.get_spec(i) is None,
    {
        SparseSet { entries: Vec::new() }
    }

    /// Stores `v` for index `i`, replacing any earlier value. Returns false
    /// (and stores nothing) only for the one reserved index.
    pub fn insert(&mut self, i: u32, v: V) -> (r: bool)
        ensures
            r == (i < u32::MAX),
            r ==> final(self).get_spec(i as int) == Some(v),
            !r ==> final(self).get_spec(i as int) == old(self).get_spec(i as int),
            forall|j: int| j != i as int ==> final(self).get_spec(j) == old(self).get_spec(j),
    {
        if i == u32::MAX {
            return false;
        }
        let idx = i as usize;
        while self.entries.len() <= idx
            invariant
                idx < u32::MAX as usize,
                forall|j: int|
                    0 <= j < self.entries@.len() && 0 <= j < old(self).entries@.len()
                        ==> self.entries@[j] == old(self).entries@[j],
                forall|j: int|
                    old(self).entries@.len() <= j < self.entries@.len() ==> self.entries@[j]
                        is None,
                self.entries@.len() >= old(self).entries@.len(),
            decreases idx + 1 - self.entries.len(),
        {
            self.entries.push(Option::None);
        }
        self.entries.set(idx, Option::Some(v));
        true
    }

    /// Clears any value for index `i`; absent entries are left alone.
    pub fn remove(&mut self, i: u32)
        ensures
            final(self).get_spec(i as int) is None,
            forall|j: int| j != i as int ==> final(self).get_spec(j) == old(self).get_spec(j),
    {
        let idx = i as usize;
        if idx < self.entries.len() {
            self.entries.set(idx, Option::None);
        }
    }

    /// Borrows the value for index `i`, if one is stored.
    pub fn get(&self, i: u32) -> (r: Option<&V>)
        ensures
            match r {
                Option::Some(v) => self.get_spec(i as int) == Some(*v),
                Option::None => self.get_spec(i as int) is None,
            },
    {
        let idx = i as usize;
        if idx < self.entries.len() {
            match &self.entries[idx] {
                Option::Some(v) => Option::Some(v),
                Option::None => Option::None,
            }
        } else {
            Option::None
        }
    }

    /// Whether a value is stored for index `i`.
    pub fn contains(&self, i: u32) -> (r: bool)
        ensures
            r == (self.get_spec(i as int) is Some),
    {
        match self.get(i) {
            Option::Some(_) => true,
            Option::None => false,
        }
    }
}

/// The class names of one entity as sequences of characters.
pub open spec fn class_view(cl: Option<Vec<String>>) -> Seq<Seq<char>> {
    match cl {
        Option::Some(v) => v@.map_values(|s: String| s@),
        Option::None => Seq::empty(),
    }
}

/// Whether exactly the one class `name` is recorded.
pub open spec fn single_class(cl: Option<Vec<String>>, name: Seq<char>) -> bool {
    match cl {
        Option::Some(v) => v@.len() == 1 && v@[0]@ == name,
        Option::None => false,
    }
}

/// Whether `cls` holds the class name `c`.
pub fn contains_class(cls: &Vec<String>, c: &String) -> (r: bool)
    ensures
        r == cls@.map_values(|s: String| s@).contains(c@),
{
    let ghost mapped = cls@.map_values(|s: String| s@);
    let mut k: usize = 0;
    while k < cls.len()
        invariant
            mapped == cls@.map_values(|s: String| s@),
            k <= cls.len(),
            forall|m: int| 0 <= m < k ==> mapped[m] != c@,
        decreases cls.len() - k,
    {
        if cls[k].eq(c) {
            proof {
                assert(mapped[k as int] == c@);
            }
            return true;
        }
        k += 1;
    }
    proof {
        if mapped.contains(c@) {
            let m = choose|m: int| 0 <= m < mapped.len() && mapped[m] == c@;
            assert(false);
        }
    }
    false
}

/// One attribute kind: an inline table, a stylesheet rule layer, and a
/// compiled default. Inline always overrides the rule layer; among matching
/// rules the last added wins.
pub struct AttributeStore<V> {
    inline: SparseSet<V>,
    rules: Vec<StyleRule<V>>,
    default: V,
}

impl<V: Copy> AttributeStore<V> {
    /// The inline (directly set) value of entity `i`, if any.
    pub closed spec fn inline_spec(self, i: int) -> Option<V> {
        self.inline.get_spec(i)
    }

    /// The compiled default returned when no level of the cascade applies.
    pub closed spec fn default_spec(self) -> V {
        self.default
    }

    pub closed spec fn rules_len(self) -> nat {
        self.rules@.len()
    }

    /// The rule layer in order of addition.
    pub closed spec fn rules_spec(self) -> Seq<StyleRule<V>> {
        self.rules@
    }

    /// The value set by the last rule among the first `k` whose class is in
    /// `cls`, if any.
    pub closed spec fn rule_value_upto(self, cls: Seq<Seq<char>>, k: int) -> Option<V>
        decreases k,
    {
        if k <= 0 || k > self.rules@.len() {
            Option::None
        } else if cls.contains(self.rules@[k - 1].class@) {
            Option::Some(self.rules@[k - 1].value)
        } else {
            self.rule_value_upto(cls, k - 1)
        }
    }

    /// Two-tier resolution for one entity: its inline value if set, else the
    /// rule layer's value for its classes.
    pub open spec fn two_tier_spec(self, i: int, cls: Seq<Seq<char>>) -> Option<V> {
        match self.inline_spec(i) {
            Option::Some(v) => Option::Some(v),
            Option::None => self.rule_value_upto(cls, self.rules_len() as int),
        }
    }

    /// The first level of the chain `chain[k..]` whose two-tier resolution
    /// yields a value, if any.
    pub closed spec fn chain_value(
        self,
        classes: SparseSet<Vec<String>>,
        chain: Seq<u32>,
        k: int,
    ) -> Option<V>
        decreases chain.len() - k,
    {
        if k < 0 || k >= chain.len() {
            Option::None
        } else {
            match self.two_tier_spec(
                chain[k] as int,
                class_view(classes.get_spec(chain[k] as int)),
            ) {
                Option::Some(v) => Option::Some(v),
                Option::None => self.chain_value(classes, chain, k + 1),
            }
        }
    }

    /// An attribute store with no inline values and no rules.
    pub fn new(default: V) -> (r: AttributeStore<V>)
        ensures
            forall|i: int| r.inline_spec(i) is None,
            r.rules_len() == 0,
            r.default_spec() == default,
            forall|i: int, cls: Seq<Seq<char>>| r.two_tier_spec(i, cls) is None,
    {
        AttributeStore { inline: SparseSet::new(), rules: Vec::new(), default }
    }

    /// Sets the inline value of entity `i`, which overrides every rule.
    pub fn set_inline(&mut self, i: u32, v: V) -> (r: bool)
        ensures
            r == (i < u32::MAX),
            r ==> final(self).inline_spec(i as int) == Some(v),
            !r ==> final(self).inline_spec(i as int) == old(self).inline_spec(i as int),
            forall|j: int| j != i as int ==> final(self).inline_spec(j) == old(self).inline_spec(j),
            final(self).rules_spec() == old(self).rules_spec(),
            final(self).default_spec() == old(self).default_spec(),
    {
        self.inline.insert(i, v)
    }

    /// Clears the inline value of entity `i`.
    pub fn clear_inline(&mut self, i: u32)
        ensures
            final(self).inline_spec(i as int) is None,
            forall|j: int| j != i as int ==> final(self).inline_spec(j) == old(self).inline_spec(j),
            final(self).rules_spec() == old(self).rules_spec(),
            final(self).default_spec() == old(self).default_spec(),
    {
        self.inline.remove(i);
    }

    /// Appends a stylesheet rule; later rules override earlier ones.
    pub fn add_rule(&mut self, class: String, value: V)
        ensures
            final(self).rules_spec() == old(self).rules_spec().push(StyleRule { class, value }),
            forall|j: int| final(self).inline_spec(j) == old(self).inline_spec(j),
            final(self).default_spec() == old(self).default_spec(),
    {
        self.rules.push(StyleRule { class, value });
    }

    /// Two-tier lookup for entity `e` (no inheritance): inline first, then
    /// the last matching rule for `e`'s classes.
    pub fn get(&self, e: u32, classes: &SparseSet<Vec<String>>) -> (r: Option<V>)
        ensures
            r == self.two_tier_spec(e as int, class_view(classes.get_spec(e as int))),
    {
        match self.inline.get(e) {
            Option::Some(v) => {
                return Option::Some(*v);
            },
            Option::None => {},
        }
        let empty_cls: Vec<String> = Vec::new();
        let cls: &Vec<String> = match classes.get(e) {
            Option::Some(c) => c,
            Option::None => &empty_cls,
        };
        let ghost clsv = class_view(classes.get_spec(e as int));
        proof {
            assert(cls@.map_values(|s: String| s@) =~= clsv);
        }
        let mut res: Option<V> = Option::None;
        let mut j: usize = 0;
        while j < self.rules.len()
            invariant
                clsv == cls@.map_values(|s: String| s@),
                j <= self.rules@.len(),
                res == self.rule_value_upto(clsv, j as int),
            decreases self.rules@.len() - j,
        {
            if contains_class(cls, &self.rules[j].class) {
                res = Option::Some(self.rules[j].value);
            }
            j += 1;
        }
        res
    }

    /// Resolution with inheritance: walks from `e` up its ancestor chain
    /// applying the two-tier lookup at each level, and returns the compiled
    /// default if the root is reached with no value found.
    pub fn get_inherited(
        &self,
        tree: &Tree,
        classes: &SparseSet<Vec<String>>,
        e: u32,
    ) -> (r: V)
        requires
            tree.wf(),
        ensures
            ({
                let chain = seq![e] + (if tree.in_tree(e as int) {
                    tree.ancestors_spec(e as int)
                } else {
                    Seq::<u32>::empty()
                });
                r == match self.chain_value(*classes, chain, 0) {
                    Option::Some(v) => v,
                    Option::None => self.default_spec(),
                }
            }),
    {
        let anc = tree.ancestors_of(e);
        let ghost chain = seq![e] + (if tree.in_tree(e as int) {
            tree.ancestors_spec(e as int)
        } else {
            Seq::<u32>::empty()
        });
        proof {
            assert(chain == seq![e] + anc@);
            assert(chain[0] == e);
            assert(chain.len() == anc@.len() + 1);
        }
        match self.get(e, classes) {
            Option::Some(v) => {
                proof {
                    assert(self.chain_value(*classes, chain, 0) == Some(v));
                }
                return v;
            },
            Option::None => {},
        }
        let mut k: usize = 0;
        while k < anc.len()
            invariant
                chain == seq![e] + anc@,
                anc@ == (if tree.in_tree(e as int) {
                    tree.ancestors_spec(e as int)
                } else {
                    Seq::<u32>::empty()
                }),
                chain.len() == anc@.len() + 1,
                k <= anc.len(),
                self.chain_value(*classes, chain, 0) == self.chain_value(
                    *classes,
                    chain,
                    k as int + 1,
                ),
            decreases anc.len() - k,
        {
            proof {
                assert(chain[k as int + 1] == anc@[k as int]);
            }
            match self.get(anc[k], classes) {
                Option::Some(v) => {
                    proof {
                        assert(self.chain_value(*classes, chain, k as int + 1) == Some(v));
                    }
                    return v;
                },
                Option::None => {},
            }
            k += 1;
        }
        proof {
            assert(self.chain_value(*classes, chain, anc@.len() as int + 1) is None);
        }
        self.default
    }
}


/// The numeric value of one ASCII hex digit, or -1 for any other byte.
pub open spec fn hex_val(b: u8) -> int {
    if 48 <= b <= 57 {
        b - 48
    } else if 97 <= b <= 102 {
        b - 87
    } else if 65 <= b <= 70 {
        b - 55
    } else {
        -1
    }
}

fn hex_digit(b: u8) -> (r: i32)
    ensures
        r == hex_val(b),
{
    if 48 <= b && b <= 57 {
        b as i32 - 48
    } else if 97 <= b && b <= 102 {
        b as i32 - 87
    } else if 65 <= b && b <= 70 {
        b as i32 - 55
    } else {
        -1
    }
}

/// Whether the bytes are a well-formed colour declaration value: a `#`
/// followed by exactly six hex digits.
pub open spec fn valid_hex_color(bytes: Seq<u8>) -> bool {
    &&& bytes.len() == 7
    &&& bytes[0] == 35
    &&& forall|k: int| 1 <= k < 7 ==> hex_val(#[trigger] bytes[k]) >= 0
}

/// The colour a well-formed `#rrggbb` declaration denotes.
pub open spec fn hex_color_spec(bytes: Seq<u8>) -> Color {
    Color {
        r: (hex_val(bytes[1]) * 16 + hex_val(bytes[2])) as u8,
        g: (hex_val(bytes[3]) * 16 + hex_val(bytes[4])) as u8,
        b: (hex_val(bytes[5]) * 16 + hex_val(bytes[6])) as u8,
        a: 255,
    }
}

/// Parses one stylesheet colour value of the form `#rrggbb`. A malformed
/// value yields `None`, never an error.
pub fn parse_hex_color(bytes: &Vec<u8>) -> (r: Option<Color>)
    ensures
        r is Some <==> valid_hex_color(bytes@),
        r is Some ==> r->Some_0 == hex_color_spec(bytes@),
{
    if bytes.len() != 7 || bytes[0] != 35 {
        return Option::None;
    }
    let d1 = hex_digit(bytes[1]);
    let d2 = hex_digit(bytes[2]);
    let d3 = hex_digit(bytes[3]);
    let d4 = hex_digit(bytes[4]);
    let d5 = hex_digit(bytes[5]);
    let d6 = hex_digit(bytes[6]);
    if d1 < 0 || d2 < 0 || d3 < 0 || d4 < 0 || d5 < 0 || d6 < 0 {
        proof {
            if valid_hex_color(bytes@) {
                assert(hex_val(bytes@[1]) >= 0);
                assert(hex_val(bytes@[2]) >= 0);
                assert(hex_val(bytes@[3]) >= 0);
                assert(hex_val(bytes@[4]) >= 0);
                assert(hex_val(bytes@[5]) >= 0);
                assert(hex_val(bytes@[6]) >= 0);
            }
        }
        return Option::None;
    }
    proof {
        assert forall|k: int| 1 <= k < 7 implies hex_val(#[trigger] bytes@[k]) >= 0 by {
            assert(hex_val(bytes@[1]) == d1 && hex_val(bytes@[2]) == d2 && hex_val(bytes@[3])
                == d3 && hex_val(bytes@[4]) == d4 && hex_val(bytes@[5]) == d5 && hex_val(bytes@[6])
                == d6);
        }
    }
    Option::Some(
        Color {
            r: (d1 * 16 + d2) as u8,
            g: (d3 * 16 + d4) as u8,
            b: (d5 * 16 + d6) as u8,
            a: 255,
        },
    )
}

impl AttributeStore<Color> {
    /// Takes one parsed stylesheet declaration `class -> #rrggbb` into the
    /// rule layer. A malformed colour is reported by the false return and
    /// skipped, never fatal.
    pub fn add_parsed_rule(&mut self, class: String, value: &Vec<u8>) -> (r: bool)
        ensures
            r == valid_hex_color(value@),
            r ==> final(self).rules_spec() == old(self).rules_spec().push(
                StyleRule { class, value: hex_color_spec(value@) },
            ),
            !r ==> final(self).rules_spec() == old(self).rules_spec(),
            forall|j: int| final(self).inline_spec(j) == old(self).inline_spec(j),
            final(self).default_spec() == old(self).default_spec(),
    {
        match parse_hex_color(value) {
            Option::Some(color) => {
                self.add_rule(class, color);
                true
            },
            Option::None => false,
        }
    }
}

/// A value at the head of the chain decides inherited resolution: when the
/// entity at the front resolves two-tier to a value, the whole chain does.
pub proof fn lemma_chain_value_head<V: Copy>(
    store: AttributeStore<V>,
    classes: SparseSet<Vec<String>>,
    chain: Seq<u32>,
    v: V,
)
    requires
        chain.len() > 0,
        store.two_tier_spec(chain[0] as int, class_view(classes.get_spec(chain[0] as int)))
            == Some(v),
    ensures
        store.chain_value(classes, chain, 0) == Some(v),
{
}

/// An inline value on the entity itself decides inherited resolution
/// outright: with the entity at the head of its chain, neither the rule
/// layer nor any ancestor can override it.
pub proof fn lemma_inline_wins_inherited<V: Copy>(
    store: AttributeStore<V>,
    classes: SparseSet<Vec<String>>,
    chain: Seq<u32>,
    v: V,
)
    requires
        chain.len() > 0,
        store.inline_spec(chain[0] as int) == Some(v),
    ensures
        store.chain_value(classes, chain, 0) == Some(v),
{
    lemma_inline_overrides_rules(
        store,
        chain[0] as int,
        class_view(classes.get_spec(chain[0] as int)),
        v,
    );
    lemma_chain_value_head(store, classes, chain, v);
}

/// If no level of the chain carries a value for this attribute, inherited
/// resolution finds nothing and falls back to the compiled default.
pub proof fn lemma_chain_without_values_is_none<V: Copy>(
    store: AttributeStore<V>,
    classes: SparseSet<Vec<String>>,
    chain: Seq<u32>,
    k: int,
)
    requires
        forall|m: int|
            0 <= m < chain.len() ==> store.two_tier_spec(
                #[trigger] chain[m] as int,
                class_view(classes.get_spec(chain[m] as int)),
            ) is None,
    ensures
        store.chain_value(classes, chain, k) is None,
    decreases chain.len() - k,
{
    if 0 <= k < chain.len() {
        lemma_chain_without_values_is_none(store, classes, chain, k + 1);
    }
}

/// An inline value on the entity itself wins over every rule: the two-tier
/// resolution of an entity with an inline value is exactly that value.
pub proof fn lemma_inline_overrides_rules<V: Copy>(
    store: AttributeStore<V>,
    i: int,
    cls: Seq<Seq<char>>,
    v: V,
)
    requires
        store.inline_spec(i) == Some(v),
    ensures
        store.two_tier_spec(i, cls) == Some(v),
{
}

} // verus!
