//! The fixed-order per-frame passes: style cascade, layout, animation tick,
//! accessibility sync. Each pass is idempotent when its inputs are
//! unchanged, and a pass never observes state of a later pass in the same
//! tick: `tick` runs them in the fixed order below, the cascade resolving
//! fully before layout begins.

use vstd::prelude::*;
use crate::context::Context;
use crate::events::BoundingBox;
use crate::style::Color;
use crate::style::SparseSet;
use crate::style::Units;

verus! {

/// A time-driven interpolation of one integer style value.
pub struct Animation {
    pub entity: u32,
    pub from_value: i32,
    pub to_value: i32,
    pub elapsed: u32,
    pub duration: u32,
}

impl Animation {
    pub open spec fn wf(self) -> bool {
        1 <= self.duration <= 1000000
    }

    /// The interpolated value at the animation's current time: linear
    /// between the endpoints, held at the end value once finished.
    pub open spec fn sample_spec(self) -> int {
        let t = if self.elapsed > self.duration {
            self.duration as int
        } else {
            self.elapsed as int
        };
        if self.to_value >= self.from_value {
            self.from_value + (self.to_value - self.from_value) * t / (self.duration as int)
        } else {
            self.from_value - (self.from_value - self.to_value) * t / (self.duration as int)
        }
    }

    /// The current interpolated value.
    pub fn sample(&self) -> (r: i64)
        requires
            self.wf(),
        ensures
            r == self.sample_spec(),
    {
        let t: i64 = if self.elapsed > self.duration {
            self.duration as i64
        } else {
            self.elapsed as i64
        };
        let from = self.from_value as i64;
        let to = self.to_value as i64;
        proof {
            assert(-4294967296 <= to - from <= 4294967296 && 0 <= t <= 1000000);
            assert((to - from) * t <= 4294967296000000 && (to - from) * t
                >= -4294967296000000) by (nonlinear_arith)
                requires
                    -4294967296 <= to - from <= 4294967296,
                    0 <= t <= 1000000,
            ;
            assert((from - to) * t <= 4294967296000000 && (from - to) * t
                >= -4294967296000000) by (nonlinear_arith)
                requires
                    -4294967296 <= from - to <= 4294967296,
                    0 <= t <= 1000000,
            ;
        }
        if to >= from {
            from + (to - from) * t / (self.duration as i64)
        } else {
            from - (from - to) * t / (self.duration as i64)
        }
    }

    /// Whether the animation has reached its end.
    pub fn is_done(&self) -> (r: bool)
        ensures
            r == (self.elapsed >= self.duration),
    {
        self.elapsed >= self.duration
    }

    /// Advances the animation by `dt`, saturating at its duration.
    pub fn tick(&mut self, dt: u32)
        ensures
            final(self).entity == old(self).entity,
            final(self).from_value == old(self).from_value,
            final(self).to_value == old(self).to_value,
            final(self).duration == old(self).duration,
            final(self).elapsed == (if old(self).elapsed as int + dt as int
                > old(self).duration as int {
                old(self).duration as int
            } else {
                old(self).elapsed as int + dt as int
            }),
    {
        let sum: u64 = self.elapsed as u64 + dt as u64;
        if sum > self.duration as u64 {
            self.elapsed = self.duration;
        } else {
            self.elapsed = self.elapsed + dt;
        }
    }
}

/// One layout length resolved against the parent's extent: pixels stand for
/// themselves, a percentage is taken of the parent, stretch and automatic
/// lengths take the caller's fallback. An unsatisfiable (negative) computed
/// size is clamped to zero, never an error.
pub open spec fn resolve_size_spec(u: Units, parent: int, fallback: int) -> int {
    match u {
        Units::Pixels(p) => if p < 0 {
            0
        } else {
            p as int
        },
        Units::Percentage(p) => {
            let pc = if p < 0 {
                0
            } else if p > 1000 {
                1000
            } else {
                p as int
            };
            parent * pc / 100
        },
        Units::Stretch(_) => if fallback < 0 {
            0
        } else {
            fallback
        },
        Units::Auto => if fallback < 0 {
            0
        } else {
            fallback
        },
    }
}

/// Resolves one length against the parent extent, clamping to zero.
pub fn resolve_size(u: Units, parent: i32, fallback: i32) -> (r: i64)
    requires
        parent >= 0,
    ensures
        r == resolve_size_spec(u, parent as int, fallback as int),
        r >= 0,
{
    match u {
        Units::Pixels(p) => if p < 0 {
            0
        } else {
            p
        },
        Units::Percentage(p) => {
            let pc: i64 = if p < 0 {
                0
            } else if p > 1000 {
                1000
            } else {
                p
            };
            proof {
                assert(0 <= (parent as i64) * pc <= 2147483647000) by (nonlinear_arith)
                    requires
                        0 <= parent as i64 <= 2147483647,
                        0 <= pc <= 1000,
                ;
            }
            (parent as i64) * pc / 100
        },
        Units::Stretch(_) => if fallback < 0 {
            0i64
        } else {
            fallback as i64
        },
        Units::Auto => if fallback < 0 {
            0i64
        } else {
            fallback as i64
        },
    }
}

/// The sum of the clamped heights of the first `k` child sizes.
pub open spec fn stacked_offset(sizes: Seq<(i32, i32)>, k: int) -> int
    decreases k,
{
    if k <= 0 || k > sizes.len() {
        0
    } else {
        stacked_offset(sizes, k - 1) + (if sizes[k - 1].1 < 0 {
            0
        } else {
            sizes[k - 1].1 as int
        })
    }
}

/// Stacks child boxes top to bottom inside the parent box: child `k` keeps
/// the parent's left edge, its clamped size, and sits below the clamped
/// heights of its earlier siblings. Positions saturate at the i32 range
/// instead of wrapping.
pub fn stack_vertical(parent: BoundingBox, sizes: &Vec<(i32, i32)>) -> (r: Vec<BoundingBox>)
    requires
        sizes@.len() <= 100000,
    ensures
        r@.len() == sizes@.len(),
        forall|k: int|
            0 <= k < sizes@.len() ==> {
                let b = #[trigger] r@[k];
                &&& b.x == parent.x
                &&& b.w == (if sizes@[k].0 < 0 {
                    0
                } else {
                    sizes@[k].0
                })
                &&& b.h == (if sizes@[k].1 < 0 {
                    0
                } else {
                    sizes@[k].1
                })
                &&& b.y as int == (if parent.y + stacked_offset(sizes@, k) > i32::MAX as int {
                    i32::MAX as int
                } else {
                    parent.y + stacked_offset(sizes@, k)
                })
            },
{
    let mut out: Vec<BoundingBox> = Vec::new();
    let mut offset: i64 = 0;
    let mut k: usize = 0;
    while k < sizes.len()
        invariant
            out@.len() == k,
            sizes@.len() <= 100000,
            k <= sizes@.len(),
            offset == stacked_offset(sizes@, k as int),
            0 <= offset <= k * (i32::MAX as i64),
            forall|m: int|
                0 <= m < k ==> {
                    let b = #[trigger] out@[m];
                    &&& b.x == parent.x
                    &&& b.w == (if sizes@[m].0 < 0 {
                        0
                    } else {
                        sizes@[m].0
                    })
                    &&& b.h == (if sizes@[m].1 < 0 {
                        0
                    } else {
                        sizes@[m].1
                    })
                    &&& b.y as int == (if parent.y + stacked_offset(sizes@, m) > i32::MAX as int {
                        i32::MAX as int
                    } else {
                        parent.y + stacked_offset(sizes@, m)
                    })
                },
        decreases sizes@.len() - k,
    {
        let (w, h) = sizes[k];
        let wc: i32 = if w < 0 {
            0
        } else {
            w
        };
        let hc: i32 = if h < 0 {
            0
        } else {
            h
        };
        let ypos: i64 = parent.y as i64 + offset;
        let y: i32 = if ypos > i32::MAX as i64 {
            i32::MAX
        } else {
            ypos as i32
        };
        out.push(BoundingBox { x: parent.x, y, w: wc, h: hc });
        offset = offset + hc as i64;
        k = k + 1;
    }
    out
}

/// The recorded accessibility name of slot `j`, or empty when none is set.
pub open spec fn name_or_empty(cx: Context, j: int) -> Seq<char> {
    match cx.names.get_spec(j) {
        Option::Some(s) => s@,
        Option::None => Seq::empty(),
    }
}

/// The accessibility summaries of every tree node among the first `j`
/// slots, in index order: one `(index, name)` entry per present node.
pub open spec fn access_summaries(cx: Context, j: int) -> Seq<(u32, Seq<char>)>
    decreases j,
{
    if j <= 0 {
        Seq::empty()
    } else {
        access_summaries(cx, j - 1) + (if cx.tree.in_tree(j - 1) {
            seq![(((j - 1) as u32), name_or_empty(cx, j - 1))]
        } else {
            Seq::empty()
        })
    }
}

/// The per-frame pipeline state: the resolved style cache, the committed
/// layout boxes, and the running animations.
pub struct Pipeline {
    pub resolved_color: SparseSet<Color>,
    pub boxes: SparseSet<BoundingBox>,
    pub animations: Vec<Animation>,
}

impl Pipeline {
    pub open spec fn wf(self) -> bool {
        forall|k: int| 0 <= k < self.animations@.len() ==> (#[trigger] self.animations@[k]).wf()
    }

    pub fn new() -> (r: Pipeline)
        ensures
            r.wf(),
            r.animations@.len() == 0,
    {
        Pipeline { resolved_color: SparseSet::new(), boxes: SparseSet::new(), animations: Vec::new() }
    }

    /// Starts an animation; it takes effect from the next tick's cascade.
    pub fn animate(&mut self, a: Animation)
        requires
            old(self).wf(),
            a.wf(),
        ensures
            final(self).wf(),
            final(self).animations@ == old(self).animations@.push(a),
            final(self).resolved_color == old(self).resolved_color,
            final(self).boxes == old(self).boxes,
    {
        self.animations.push(a);
    }

    /// Pass 1, style cascade: recomputes the resolved background colour of
    /// every tree node by the full two-tier-plus-inheritance resolution.
    /// Idempotent: the result depends only on the context's style state.
    pub fn cascade(&mut self, cx: &Context)
        requires
            cx.wf(),
        ensures
            final(self).animations@ == old(self).animations@,
            final(self).boxes == old(self).boxes,
            forall|j: int|
                0 <= j < cx.tree.len_spec() && cx.tree.in_tree(j) ==> final(self).resolved_color.get_spec(j) == Some(
                    ({
                        let chain = seq![j as u32] + cx.tree.ancestors_spec(j);
                        match cx.background_color.chain_value(cx.classes, chain, 0) {
                            Option::Some(v) => v,
                            Option::None => cx.background_color.default_spec(),
                        }
                    }),
                ),
    {
        let len = self.tree_len(cx);
        let mut j: usize = 0;
        while j < len
            invariant
                cx.wf(),
                len == cx.tree.len_spec(),
                len <= u32::MAX as usize,
                j <= len,
                self.animations@ == old(self).animations@,
                self.boxes == old(self).boxes,
                forall|n: int|
                    0 <= n < j && cx.tree.in_tree(n) ==> self.resolved_color.get_spec(n) == Some(
                        ({
                            let chain = seq![n as u32] + cx.tree.ancestors_spec(n);
                            match cx.background_color.chain_value(cx.classes, chain, 0) {
                                Option::Some(v) => v,
                                Option::None => cx.background_color.default_spec(),
                            }
                        }),
                    ),
            decreases len - j,
        {
            if cx.tree.contains(j as u32) {
                let v = cx.background_color.get_inherited(&cx.tree, &cx.classes, j as u32);
                self.resolved_color.insert(j as u32, v);
            }
            j += 1;
        }
    }

    fn tree_len(&self, cx: &Context) -> (r: usize)
        requires
            cx.wf(),
        ensures
            r == cx.tree.len_spec(),
            r <= u32::MAX as usize,
    {
        proof {
            crate::tree::lemma_tree_bounds(cx.tree);
        }
        cx.tree.len()
    }

    /// Pass 2, layout: recomputes the committed box of every tree node from
    /// its resolved width and height against the window extent. Sizes are
    /// exact; unsatisfiable sizes clamp to zero.
    pub fn layout(&mut self, cx: &Context, window_w: i32, window_h: i32)
        requires
            cx.wf(),
            0 <= window_w,
            0 <= window_h,
        ensures
            final(self).animations@ == old(self).animations@,
            final(self).resolved_color == old(self).resolved_color,
            forall|j: int|
                0 <= j < cx.tree.len_spec() && cx.tree.in_tree(j) ==> ((#[trigger] final(self).boxes.get_spec(j)) matches Some(b) && (b.w as int == clamp_i32(
                    resolve_size_spec(width_of(cx, j), window_w as int, window_w as int),
                ) && b.h as int == clamp_i32(
                    resolve_size_spec(height_of(cx, j), window_h as int, window_h as int),
                ) && b.w >= 0 && b.h >= 0 && b.x == 0 && b.y == 0)),
    {
        let len = self.tree_len(cx);
        let mut j: usize = 0;
        while j < len
            invariant
                cx.wf(),
                len == cx.tree.len_spec(),
                len <= u32::MAX as usize,
                j <= len,
                0 <= window_w,
                0 <= window_h,
                self.animations@ == old(self).animations@,
                self.resolved_color == old(self).resolved_color,
                forall|n: int|
                    0 <= n < j && cx.tree.in_tree(n) ==> ((#[trigger] self.boxes.get_spec(n))
                        matches Some(b) && (b.w as int == clamp_i32(
                        resolve_size_spec(width_of(cx, n), window_w as int, window_w as int),
                    ) && b.h as int == clamp_i32(
                        resolve_size_spec(height_of(cx, n), window_h as int, window_h as int),
                    ) && b.w >= 0 && b.h >= 0 && b.x == 0 && b.y == 0)),
            decreases len - j,
        {
            if cx.tree.contains(j as u32) {
                let wu = cx.width.get_inherited(&cx.tree, &cx.classes, j as u32);
                let hu = cx.height.get_inherited(&cx.tree, &cx.classes, j as u32);
                proof {
                    assert(wu == width_of(cx, j as int));
                    assert(hu == height_of(cx, j as int));
                }
                let w = resolve_size(wu, window_w, window_w);
                let h = resolve_size(hu, window_h, window_h);
                let wc: i32 = if w > i32::MAX as i64 {
                    i32::MAX
                } else {
                    w as i32
                };
                let hc: i32 = if h > i32::MAX as i64 {
                    i32::MAX
                } else {
                    h as i32
                };
                self.boxes.insert(j as u32, BoundingBox { x: 0, y: 0, w: wc, h: hc });
            }
            j += 1;
        }
    }

    /// Pass 3, animation tick: advances every running interpolation by `dt`;
    /// entities under a live animation get their colour marked for the next
    /// cascade by the caller.
    pub fn animation_tick(&mut self, dt: u32)
        requires
            old(self).wf(),
        ensures
            final(self).wf(),
            final(self).resolved_color == old(self).resolved_color,
            final(self).boxes == old(self).boxes,
            final(self).animations@.len() == old(self).animations@.len(),
            forall|k: int|
                0 <= k < old(self).animations@.len() ==> {
                    let a = old(self).animations@[k];
                    let b = #[trigger] final(self).animations@[k];
                    &&& b.entity == a.entity
                    &&& b.from_value == a.from_value
                    &&& b.to_value == a.to_value
                    &&& b.duration == a.duration
                    &&& b.elapsed == (if a.elapsed as int + dt as int > a.duration as int {
                        a.duration as int
                    } else {
                        a.elapsed as int + dt as int
                    })
                },
    {
        let n = self.animations.len();
        let mut k: usize = 0;
        while k < n
            invariant
                n == self.animations@.len(),
                n == old(self).animations@.len(),
                k <= n,
                self.resolved_color == old(self).resolved_color,
                self.boxes == old(self).boxes,
                forall|m: int| k <= m < n ==> self.animations@[m] == old(self).animations@[m],
                forall|m: int|
                    0 <= m < k ==> {
                        let a = old(self).animations@[m];
                        let b = #[trigger] self.animations@[m];
                        &&& b.entity == a.entity
                        &&& b.from_value == a.from_value
                        &&& b.to_value == a.to_value
                        &&& b.duration == a.duration
                        &&& b.elapsed == (if a.elapsed as int + dt as int > a.duration as int {
                            a.duration as int
                        } else {
                            a.elapsed as int + dt as int
                        })
                    },
                forall|m: int|
                    0 <= m < n ==> (#[trigger] old(self).animations@[m]).wf(),
            decreases n - k,
        {
            let a = &self.animations[k];
            let mut updated = Animation {
                entity: a.entity,
                from_value: a.from_value,
                to_value: a.to_value,
                elapsed: a.elapsed,
                duration: a.duration,
            };
            updated.tick(dt);
            self.animations.set(k, updated);
            k += 1;
        }
    }

    /// Pass 4, accessibility sync: collects, for the external accessibility
    /// collaborator, exactly one summary per tree node — its index and its
    /// recorded name (empty when none is set) — in index order, no node
    /// missing and none invented.
    pub fn accessibility_sync(&self, cx: &Context) -> (r: Vec<(u32, String)>)
        requires
            cx.wf(),
        ensures
            r@.map_values(|p: (u32, String)| (p.0, p.1@)) == access_summaries(
                *cx,
                cx.tree.len_spec() as int,
            ),
    {
        let len = self.tree_len(cx);
        let mut out: Vec<(u32, String)> = Vec::new();
        let mut j: usize = 0;
        proof {
            assert(out@.map_values(|p: (u32, String)| (p.0, p.1@)) =~= access_summaries(*cx, 0));
        }
        while j < len
            invariant
                cx.wf(),
                len == cx.tree.len_spec(),
                len <= u32::MAX as usize,
                j <= len,
                out@.map_values(|p: (u32, String)| (p.0, p.1@)) == access_summaries(
                    *cx,
                    j as int,
                ),
            decreases len - j,
        {
            let ghost before = out@;
            if cx.tree.contains(j as u32) {
                let name = match cx.names.get(j as u32) {
                    Option::Some(s) => s.clone(),
                    Option::None => String::new(),
                };
                proof {
                    assert(name@ == name_or_empty(*cx, j as int));
                }
                out.push((j as u32, name));
            }
            proof {
                assert(out@.map_values(|p: (u32, String)| (p.0, p.1@)) =~= access_summaries(
                    *cx,
                    j as int + 1,
                ));
            }
            j += 1;
        }
        out
    }

    /// One frame: the passes in their fixed order — style cascade, layout,
    /// animation tick, accessibility sync — each running to completion
    /// before the next begins. Returns the accessibility summaries.
    pub fn tick(&mut self, cx: &Context, window_w: i32, window_h: i32, dt: u32) -> (r: Vec<
        (u32, String),
    >)
        requires
            old(self).wf(),
            cx.wf(),
            0 <= window_w,
            0 <= window_h,
        ensures
            final(self).wf(),
            forall|j: int|
                0 <= j < cx.tree.len_spec() && cx.tree.in_tree(j) ==> final(self).resolved_color.get_spec(j) == Some(
                    ({
                        let chain = seq![j as u32] + cx.tree.ancestors_spec(j);
                        match cx.background_color.chain_value(cx.classes, chain, 0) {
                            Option::Some(v) => v,
                            Option::None => cx.background_color.default_spec(),
                        }
                    }),
                ),
            forall|j: int|
                0 <= j < cx.tree.len_spec() && cx.tree.in_tree(j) ==> ((#[trigger] final(self).boxes.get_spec(j)) matches Some(b) && (b.w >= 0 && b.h >= 0)),
            final(self).animations@.len() == old(self).animations@.len(),
            r@.map_values(|p: (u32, String)| (p.0, p.1@)) == access_summaries(
                *cx,
                cx.tree.len_spec() as int,
            ),
    {
        self.cascade(cx);
        self.layout(cx, window_w, window_h);
        self.animation_tick(dt);
        self.accessibility_sync(cx)
    }
}

/// The resolved width units of node `j` (two-tier plus inheritance).
pub open spec fn width_of(cx: &Context, j: int) -> Units {
    let chain = seq![j as u32] + (if cx.tree.in_tree(j) {
        cx.tree.ancestors_spec(j)
    } else {
        Seq::<u32>::empty()
    });
    match cx.width.chain_value(cx.classes, chain, 0) {
        Option::Some(v) => v,
        Option::None => cx.width.default_spec(),
    }
}

/// The resolved height units of node `j` (two-tier plus inheritance).
pub open spec fn height_of(cx: &Context, j: int) -> Units {
    let chain = seq![j as u32] + (if cx.tree.in_tree(j) {
        cx.tree.ancestors_spec(j)
    } else {
        Seq::<u32>::empty()
    });
    match cx.height.chain_value(cx.classes, chain, 0) {
        Option::Some(v) => v,
        Option::None => cx.height.default_spec(),
    }
}

/// A nonnegative length clamped into the i32 range.
pub open spec fn clamp_i32(v: int) -> int {
    if v > i32::MAX as int {
        i32::MAX as int
    } else {
        v
    }
}

} // verus!
