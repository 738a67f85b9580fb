//! Parent/child/sibling relationships over entity slots.
//!
//! The tree is an arena keyed by entity index: each occupied slot records its
//! optional parent and its ordered list of children, so sibling order is
//! exactly insertion order. A ghost depth per node underwrites termination of
//! ancestor walks. Removal detaches a node and erases its entire subtree;
//! operations on absent nodes are defensive no-ops, never panics.

use vstd::prelude::*;

verus! {

/// One relationship record: optional parent, ordered children, ghost depth.
pub struct TreeNode {
    parent: Option<u32>,
    children: Vec<u32>,
    depth: Ghost<int>,
}

/// Arena of tree relationship records, keyed by entity index.
pub struct Tree {
    nodes: Vec<Option<TreeNode>>,
}

impl Tree {
    /// Number of slots the arena covers.
    pub closed spec fn len_spec(self) -> nat {
        self.nodes@.len()
    }

    /// Whether slot `i` holds a tree record.
    pub closed spec fn in_tree(self, i: int) -> bool {
        0 <= i < self.nodes@.len() && self.nodes@[i] is Some
    }

    /// The recorded parent of slot `i`.
    pub closed spec fn parent_spec(self, i: int) -> Option<u32> {
        self.nodes@[i]->Some_0.parent
    }

    /// The ordered children of slot `i`.
    pub closed spec fn children_spec(self, i: int) -> Seq<u32> {
        self.nodes@[i]->Some_0.children@
    }

    /// Distance from the root, tracked as ghost state for termination.
    pub closed spec fn depth_spec(self, i: int) -> int {
        self.nodes@[i]->Some_0.depth@
    }

    /// Structural consistency: parent and child links agree in both
    /// directions, children are distinct, and depths step by one.
    pub closed spec fn wf(self) -> bool {
        &&& self.nodes@.len() <= u32::MAX as nat
        &&& forall|i: int|
            #![trigger self.parent_spec(i)]
            self.in_tree(i) && self.parent_spec(i) is Some ==> {
                let p = self.parent_spec(i)->Some_0 as int;
                &&& self.in_tree(p)
                &&& self.children_spec(p).contains(i as u32)
                &&& self.depth_spec(i) == self.depth_spec(p) + 1
            }
        &&& forall|p: int, j: int|
            #![trigger self.children_spec(p)[j]]
            self.in_tree(p) && 0 <= j < self.children_spec(p).len() ==> {
                let c = self.children_spec(p)[j] as int;
                &&& self.in_tree(c)
                &&& self.parent_spec(c) == Some(p as u32)
            }
        &&& forall|p: int, j: int, k: int|
            self.in_tree(p) && 0 <= j < self.children_spec(p).len() && 0 <= k
                < self.children_spec(p).len() && j != k ==> #[trigger] self.children_spec(p)[j]
                != #[trigger] self.children_spec(p)[k]
        &&& forall|i: int| #![trigger self.depth_spec(i)] self.in_tree(i) ==> self.depth_spec(i) >= 0
    }

    /// Membership of `j` in the subtree rooted at `r`, following parent links.
    pub closed spec fn in_subtree(self, r: int, j: int) -> bool
        decreases self.depth_spec(j),
        when self.wf()
    {
        if !self.in_tree(j) {
            false
        } else if j == r {
            true
        } else {
            match self.parent_spec(j) {
                Option::None => false,
                Option::Some(p) => self.in_subtree(r, p as int),
            }
        }
    }

    /// Two trees hold the same record (or the same absence) at slot `j`.
    pub open spec fn node_unchanged(self, other: Tree, j: int) -> bool {
        &&& other.in_tree(j) == self.in_tree(j)
        &&& self.in_tree(j) ==> {
            &&& other.parent_spec(j) == self.parent_spec(j)
            &&& other.children_spec(j) == self.children_spec(j)
            &&& other.depth_spec(j) == self.depth_spec(j)
        }
    }

    /// An empty arena.
    pub fn new() -> (r: Tree)
        ensures
            r.wf(),
            r.len_spec() == 0,
            forall|i: int| !r.in_tree(i),
    {
        Tree { nodes: Vec::new() }
    }

    pub fn len(&self) -> (r: usize)
        ensures
            r == self.len_spec(),
    {
        self.nodes.len()
    }

    /// Whether slot `i` currently holds a record.
    pub fn contains(&self, i: u32) -> (r: bool)
        ensures
            r == self.in_tree(i as int),
    {
        let idx = i as usize;
        idx < self.nodes.len() && self.nodes[idx].is_some()
    }

    /// Extends the arena with empty slots so that slot `n - 1` exists.
    fn grow(&mut self, n: usize)
        requires
            old(self).wf(),
            n <= u32::MAX as usize,
        ensures
            final(self).wf(),
            final(self).len_spec() >= n,
            final(self).len_spec() >= old(self).len_spec(),
            forall|j: int| #[trigger] old(self).node_unchanged(*final(self), j),
    {
        while self.nodes.len() < n
            invariant
                self.wf(),
                self.len_spec() >= old(self).len_spec(),
                n <= u32::MAX as usize,
                forall|j: int| #[trigger] old(self).node_unchanged(*self, j),
            decreases n - self.nodes.len(),
        {
            let ghost head = *self;
            self.nodes.push(Option::None);
            proof {
                lemma_frame(head, *self, -1, -1);
                lemma_wf_unchanged(head, *self);
                assert forall|j: int| #[trigger] old(self).node_unchanged(*self, j) by {
                    assert(old(self).node_unchanged(head, j));
                    assert(head.node_unchanged(*self, j));
                }
            }
        }
    }

    /// Installs `i` as a root record (no parent, no children). Returns false
    /// without changing anything if the slot is already occupied.
    pub fn add_root(&mut self, i: u32) -> (r: bool)
        requires
            old(self).wf(),
        ensures
            final(self).wf(),
            r == (!old(self).in_tree(i as int) && i < u32::MAX),
            r ==> final(self).in_tree(i as int) && final(self).parent_spec(i as int) is None
                && final(self).children_spec(i as int) == Seq::<u32>::empty(),
            forall|j: int| j != i as int ==> old(self).node_unchanged(*final(self), j),
            !r ==> forall|j: int| old(self).node_unchanged(*final(self), j),
    {
        if i == u32::MAX || self.contains(i) {
            return false;
        }
        self.grow(i as usize + 1);
        let ghost pre = *self;
        self.nodes.set(
            i as usize,
            Option::Some(TreeNode { parent: Option::None, children: Vec::new(), depth: Ghost(0) }),
        );
        proof {
            assert(self.children_spec(i as int) =~= Seq::<u32>::empty());
            let fin = *self;
            assert(old(self).node_unchanged(pre, i as int));
            assert(!pre.in_tree(i as int));
            lemma_frame(pre, fin, i as int, -1);
            assert forall|n: int|
                fin.in_tree(n) && fin.parent_spec(n) is Some implies {
                let q = fin.parent_spec(n)->Some_0 as int;
                &&& fin.in_tree(q)
                &&& fin.children_spec(q).contains(n as u32)
                &&& fin.depth_spec(n) == fin.depth_spec(q) + 1
            } by {
                assert(pre.node_unchanged(fin, n));
                assert(pre.in_tree(n) && pre.parent_spec(n) is Some);
                let q = pre.parent_spec(n)->Some_0 as int;
                assert(pre.children_spec(q).contains(n as u32));
                assert(q != i as int);
                assert(pre.node_unchanged(fin, q));
                assert(pre.depth_spec(n) == pre.depth_spec(q) + 1);
            }
            assert forall|q: int, j: int|
                #![trigger fin.children_spec(q)[j]]
                fin.in_tree(q) && 0 <= j < fin.children_spec(q).len() implies {
                let cc = fin.children_spec(q)[j] as int;
                &&& fin.in_tree(cc)
                &&& fin.parent_spec(cc) == Some(q as u32)
            } by {
                assert(q != i as int);
                assert(pre.node_unchanged(fin, q));
                assert(pre.children_spec(q)[j] as int != i as int);
                assert(pre.node_unchanged(fin, pre.children_spec(q)[j] as int));
            }
            assert forall|q: int, j: int, k: int|
                fin.in_tree(q) && 0 <= j < fin.children_spec(q).len() && 0 <= k
                    < fin.children_spec(q).len() && j != k implies #[trigger] fin.children_spec(
                q,
            )[j] != #[trigger] fin.children_spec(q)[k] by {
                if q == i as int {
                    assert(fin.children_spec(q).len() == 0);
                } else {
                    assert(pre.node_unchanged(fin, q));
                    assert(pre.children_spec(q)[j] != pre.children_spec(q)[k]);
                }
            }
            assert forall|n: int| fin.in_tree(n) implies #[trigger] fin.depth_spec(n) >= 0 by {
                if n != i as int {
                    assert(pre.node_unchanged(fin, n));
                    assert(pre.depth_spec(n) >= 0);
                }
            }
            assert forall|j: int| j != i as int implies #[trigger] old(self).node_unchanged(
                fin,
                j,
            ) by {
                assert(old(self).node_unchanged(pre, j));
                assert(pre.node_unchanged(fin, j));
            }
        }
        true
    }

    /// Appends `c` as the last child of `p`. Returns false without changing
    /// anything unless `p` is present and `c` is absent.
    pub fn add_child(&mut self, p: u32, c: u32) -> (r: bool)
        requires
            old(self).wf(),
        ensures
            final(self).wf(),
            r == (old(self).in_tree(p as int) && !old(self).in_tree(c as int) && c < u32::MAX),
            r ==> {
                &&& final(self).in_tree(c as int)
                &&& final(self).parent_spec(c as int) == Some(p)
                &&& final(self).children_spec(c as int) == Seq::<u32>::empty()
                &&& final(self).children_spec(p as int) == old(self).children_spec(p as int).push(c)
                &&& final(self).parent_spec(p as int) == old(self).parent_spec(p as int)
                &&& final(self).in_tree(p as int)
            },
            forall|j: int|
                j != p as int && j != c as int ==> old(self).node_unchanged(*final(self), j),
            !r ==> forall|j: int| old(self).node_unchanged(*final(self), j),
    {
        if c == u32::MAX || !self.contains(p) || self.contains(c) {
            return false;
        }
        self.grow(c as usize + 1);
        let ghost pre = *self;
        proof {
            assert(old(self).node_unchanged(pre, p as int));
            assert(old(self).node_unchanged(pre, c as int));
            assert(pre.in_tree(p as int) && !pre.in_tree(c as int));
        }
        let pidx = p as usize;
        let pparent = self.parent_of(p);
        let mut pkids = self.children_of(p);
        let ghost pdepth = pre.depth_spec(p as int);
        pkids.push(c);
        self.nodes.set(
            pidx,
            Option::Some(TreeNode { parent: pparent, children: pkids, depth: Ghost(pdepth) }),
        );
        self.nodes.set(
            c as usize,
            Option::Some(
                TreeNode { parent: Option::Some(p), children: Vec::new(), depth: Ghost(pdepth + 1) },
            ),
        );
        proof {
            assert(self.children_spec(c as int) =~= Seq::<u32>::empty());
            assert(self.children_spec(p as int) =~= pre.children_spec(p as int).push(c));
            let fin = *self;
            lemma_frame(pre, fin, p as int, c as int);
            assert(fin.parent_spec(p as int) == pre.parent_spec(p as int));
            assert(fin.depth_spec(p as int) == pre.depth_spec(p as int));
            assert forall|i: int|
                fin.in_tree(i) && fin.parent_spec(i) is Some implies {
                let q = fin.parent_spec(i)->Some_0 as int;
                &&& fin.in_tree(q)
                &&& fin.children_spec(q).contains(i as u32)
                &&& fin.depth_spec(i) == fin.depth_spec(q) + 1
            } by {
                if i == c as int {
                    assert(fin.children_spec(p as int)[pre.children_spec(p as int).len() as int]
                        == c);
                } else {
                    if i != p as int {
                        assert(pre.node_unchanged(fin, i));
                    }
                    assert(pre.in_tree(i) && pre.parent_spec(i) is Some);
                    let q = pre.parent_spec(i)->Some_0 as int;
                    assert(pre.in_tree(q));
                    assert(pre.children_spec(q).contains(i as u32));
                    assert(pre.depth_spec(i) == pre.depth_spec(q) + 1);
                    let k = choose|k: int|
                        0 <= k < pre.children_spec(q).len() && pre.children_spec(q)[k] == i as u32;
                    if q != p as int && q != c as int {
                        assert(pre.node_unchanged(fin, q));
                    }
                    assert(fin.children_spec(q)[k] == i as u32);
                }
            }
            assert forall|q: int, j: int|
                #![trigger fin.children_spec(q)[j]]
                fin.in_tree(q) && 0 <= j < fin.children_spec(q).len() implies {
                let cc = fin.children_spec(q)[j] as int;
                &&& fin.in_tree(cc)
                &&& fin.parent_spec(cc) == Some(q as u32)
            } by {
                if q == p as int && j == pre.children_spec(p as int).len() {
                } else {
                    if q != p as int && q != c as int {
                        assert(pre.node_unchanged(fin, q));
                    }
                    assert(fin.children_spec(q)[j] == pre.children_spec(q)[j]);
                    assert(pre.in_tree(pre.children_spec(q)[j] as int));
                    assert(pre.children_spec(q)[j] as int != c as int);
                    if pre.children_spec(q)[j] as int != p as int {
                        assert(pre.node_unchanged(fin, pre.children_spec(q)[j] as int));
                    }
                }
            }
            assert forall|q: int, j: int, k: int|
                fin.in_tree(q) && 0 <= j < fin.children_spec(q).len() && 0 <= k
                    < fin.children_spec(q).len() && j != k implies #[trigger] fin.children_spec(
                q,
            )[j] != #[trigger] fin.children_spec(q)[k] by {
                if q == p as int {
                    let n = pre.children_spec(p as int).len() as int;
                    if j < n && k < n {
                        assert(fin.children_spec(q)[j] == pre.children_spec(q)[j]);
                        assert(fin.children_spec(q)[k] == pre.children_spec(q)[k]);
                        assert(pre.children_spec(q)[j] != pre.children_spec(q)[k]);
                    } else if j == n {
                        assert(fin.children_spec(q)[j] == c);
                        assert(fin.children_spec(q)[k] == pre.children_spec(q)[k]);
                        assert(pre.in_tree(pre.children_spec(q)[k] as int));
                        assert(!pre.in_tree(c as int));
                    } else {
                        assert(k == n);
                        assert(fin.children_spec(q)[k] == c);
                        assert(fin.children_spec(q)[j] == pre.children_spec(q)[j]);
                        assert(pre.in_tree(pre.children_spec(q)[j] as int));
                        assert(!pre.in_tree(c as int));
                    }
                } else if q == c as int {
                    assert(fin.children_spec(q).len() == 0);
                } else {
                    assert(pre.node_unchanged(fin, q));
                    assert(fin.children_spec(q) == pre.children_spec(q));
                    assert(pre.children_spec(q)[j] != pre.children_spec(q)[k]);
                }
            }
            assert forall|n: int| fin.in_tree(n) implies #[trigger] fin.depth_spec(n) >= 0 by {
                if n == c as int {
                    assert(fin.depth_spec(n) == pdepth + 1);
                    assert(pre.depth_spec(p as int) >= 0);
                } else if n != p as int {
                    assert(pre.node_unchanged(fin, n));
                    assert(pre.depth_spec(n) >= 0);
                } else {
                    assert(pre.depth_spec(p as int) >= 0);
                }
            }
            assert forall|j: int| j != p as int && j != c as int implies #[trigger] old(
                self,
            ).node_unchanged(fin, j) by {
                assert(old(self).node_unchanged(pre, j));
                assert(pre.node_unchanged(fin, j));
            }
        }
        true
    }

    /// The recorded parent of `i`, or `None` for a root or an absent slot.
    pub fn parent_of(&self, i: u32) -> (r: Option<u32>)
        ensures
            r == if self.in_tree(i as int) {
                self.parent_spec(i as int)
            } else {
                Option::<u32>::None
            },
    {
        let idx = i as usize;
        if idx < self.nodes.len() {
            match &self.nodes[idx] {
                Option::Some(node) => node.parent,
                Option::None => Option::None,
            }
        } else {
            Option::None
        }
    }


    /// Ancestors of `i` in leaf-to-root order: parent first, root last.
    pub closed spec fn ancestors_spec(self, i: int) -> Seq<u32>
        decreases self.depth_spec(i),
    {
        if self.in_tree(i) {
            match self.parent_spec(i) {
                Option::None => Seq::empty(),
                Option::Some(p) => {
                    if self.in_tree(p as int) && self.depth_spec(i) >= 1 && self.depth_spec(
                        p as int,
                    ) == self.depth_spec(i) - 1 {
                        seq![p] + self.ancestors_spec(p as int)
                    } else {
                        Seq::empty()
                    }
                },
            }
        } else {
            Seq::empty()
        }
    }

    /// The ancestor chain of `i`, nearest first (empty for roots and for
    /// absent slots).
    pub fn ancestors_of(&self, i: u32) -> (r: Vec<u32>)
        requires
            self.wf(),
        ensures
            r@ == if self.in_tree(i as int) {
                self.ancestors_spec(i as int)
            } else {
                Seq::<u32>::empty()
            },
    {
        let mut out: Vec<u32> = Vec::new();
        if !self.contains(i) {
            return out;
        }
        let mut cur = i;
        proof {
            assert(out@ + self.ancestors_spec(i as int) =~= self.ancestors_spec(i as int));
        }
        loop
            invariant
                self.wf(),
                self.in_tree(cur as int),
                self.ancestors_spec(i as int) == out@ + self.ancestors_spec(cur as int),
            decreases self.depth_spec(cur as int),
        {
            match self.parent_of(cur) {
                Option::None => {
                    proof {
                        assert(self.in_tree(cur as int) && self.parent_spec(cur as int) is None);
                        assert(self.ancestors_spec(cur as int) =~= Seq::<u32>::empty());
                        assert(out@ + Seq::<u32>::empty() =~= out@);
                    }
                    return out;
                },
                Option::Some(p) => {
                    let ghost pre_out = out@;
                    out.push(p);
                    proof {
                        assert(self.ancestors_spec(cur as int) == seq![p] + self.ancestors_spec(
                            p as int,
                        ));
                        assert(pre_out + (seq![p] + self.ancestors_spec(p as int)) =~= out@
                            + self.ancestors_spec(p as int));
                    }
                    cur = p;
                },
            }
        }
    }

    /// The first child of `i`, if any.
    pub fn first_child(&self, i: u32) -> (r: Option<u32>)
        ensures
            r == if self.in_tree(i as int) && self.children_spec(i as int).len() > 0 {
                Option::Some(self.children_spec(i as int)[0])
            } else {
                Option::<u32>::None
            },
    {
        let idx = i as usize;
        if idx < self.nodes.len() {
            match &self.nodes[idx] {
                Option::Some(node) => {
                    if node.children.len() > 0 {
                        Option::Some(node.children[0])
                    } else {
                        Option::None
                    }
                },
                Option::None => Option::None,
            }
        } else {
            Option::None
        }
    }

    /// The sibling that follows `i` in its parent's child order, if any.
    pub fn next_sibling(&self, i: u32) -> (r: Option<u32>)
        requires
            self.wf(),
        ensures
            self.in_tree(i as int) && self.parent_spec(i as int) is Some ==> {
                let kids = self.children_spec(self.parent_spec(i as int)->Some_0 as int);
                let k = kids.index_of(i);
                r == if k + 1 < kids.len() {
                    Option::Some(kids[k + 1])
                } else {
                    Option::<u32>::None
                }
            },
            !(self.in_tree(i as int) && self.parent_spec(i as int) is Some) ==> r is None,
    {
        let p = match self.parent_of(i) {
            Option::Some(p) => p,
            Option::None => {
                return Option::None;
            },
        };
        let kids = self.children_of(p);
        let ghost kseq = self.children_spec(p as int);
        let mut k: usize = 0;
        while k < kids.len()
            invariant
                self.wf(),
                self.in_tree(i as int),
                self.parent_spec(i as int) == Some(p),
                kids@ == kseq,
                kseq == self.children_spec(p as int),
                k <= kids.len(),
                forall|m: int| 0 <= m < k ==> kseq[m] != i,
            decreases kids.len() - k,
        {
            if kids[k] == i {
                proof {
                    assert(kseq.contains(i));
                    assert(kseq.index_of(i) == k as int);
                }
                if k + 1 < kids.len() {
                    return Option::Some(kids[k + 1]);
                } else {
                    return Option::None;
                }
            }
            k += 1;
        }
        proof {
            assert(self.children_spec(p as int).contains(i));
            let m = choose|m: int| 0 <= m < kseq.len() && kseq[m] == i;
            assert(false);
        }
        Option::None
    }

    /// Whether `j` lies in the subtree rooted at `r`, by walking parents.
    pub fn is_in_subtree(&self, r: u32, j: u32) -> (res: bool)
        requires
            self.wf(),
        ensures
            res == self.in_subtree(r as int, j as int),
    {
        if !self.contains(j) {
            return false;
        }
        let mut cur = j;
        loop
            invariant
                self.wf(),
                self.in_tree(cur as int),
                self.in_subtree(r as int, j as int) == self.in_subtree(r as int, cur as int),
            decreases self.depth_spec(cur as int),
        {
            if cur == r {
                return true;
            }
            match self.parent_of(cur) {
                Option::None => {
                    return false;
                },
                Option::Some(p) => {
                    cur = p;
                },
            }
        }
    }

    /// Unlinks `i` from its parent, making it a root; its subtree is kept.
    fn detach(&mut self, i: u32)
        requires
            old(self).wf(),
            old(self).in_tree(i as int),
        ensures
            final(self).wf(),
            final(self).len_spec() == old(self).len_spec(),
            forall|j: int| final(self).in_tree(j) == old(self).in_tree(j),
            forall|j: int|
                old(self).in_tree(j) ==> final(self).depth_spec(j) == old(self).depth_spec(j),
            final(self).in_tree(i as int),
            final(self).parent_spec(i as int) is None,
            final(self).children_spec(i as int) == old(self).children_spec(i as int),
            old(self).parent_spec(i as int) is None ==> forall|j: int|
                old(self).node_unchanged(*final(self), j),
            old(self).parent_spec(i as int) is Some ==> {
                let pa = old(self).parent_spec(i as int)->Some_0 as int;
                let kids = old(self).children_spec(pa);
                &&& final(self).children_spec(pa) == kids.remove(kids.index_of(i))
                &&& final(self).parent_spec(pa) == old(self).parent_spec(pa)
                &&& forall|j: int|
                    j != i as int && j != pa ==> old(self).node_unchanged(*final(self), j)
            },
    {
        let pa = match self.parent_of(i) {
            Option::Some(pa) => pa,
            Option::None => {
                let ghost fin = *self;
                proof {
                    lemma_frame(fin, fin, -1, -1);
                }
                return ;
            },
        };
        let ghost orig = *self;
        let mut kids = self.children_of(pa);
        let ghost kseq = orig.children_spec(pa as int);
        proof {
            assert(orig.children_spec(i as int).contains(i) == orig.children_spec(
                i as int,
            ).contains(i));
            assert(orig.children_spec(pa as int).contains(i));
        }
        let mut k: usize = 0;
        let klen = kids.len();
        while k < klen && kids[k] != i
            invariant
                kids@ == kseq,
                klen == kids.len(),
                k <= klen,
                kseq.contains(i),
                forall|m: int| 0 <= m < k ==> kseq[m] != i,
            decreases klen - k,
        {
            k += 1;
        }
        proof {
            if k >= klen {
                let m = choose|m: int| 0 <= m < kseq.len() && kseq[m] == i;
                assert(false);
            }
            assert(kseq[k as int] == i);
            let ghost kc = kseq.index_of(i);
            assert(0 <= kc < kseq.len() && kseq[kc] == i);
            assert(orig.children_spec(pa as int)[kc] == orig.children_spec(pa as int)[k as int]);
            assert(kc == k as int);
        }
        kids.remove(k);
        let pa_parent = self.parent_of(pa);
        let ghost pa_depth = orig.depth_spec(pa as int);
        self.nodes.set(
            pa as usize,
            Option::Some(TreeNode { parent: pa_parent, children: kids, depth: Ghost(pa_depth) }),
        );
        let i_kids = self.children_of(i);
        proof {
            assert(i_kids@ == orig.children_spec(i as int));
        }
        let ghost i_depth = orig.depth_spec(i as int);
        self.nodes.set(
            i as usize,
            Option::Some(TreeNode { parent: Option::None, children: i_kids, depth: Ghost(i_depth) }),
        );
        proof {
            let fin = *self;
            lemma_frame(orig, fin, pa as int, i as int);
            assert(i as int != pa as int);
            assert(fin.children_spec(pa as int) =~= kseq.remove(k as int));
            assert(fin.children_spec(i as int) == orig.children_spec(i as int));
            assert(fin.parent_spec(i as int) is None);
            assert forall|m: int|
                0 <= m < fin.children_spec(pa as int).len() implies fin.children_spec(pa as int)[m]
                == (if m < k as int {
                kseq[m]
            } else {
                kseq[m + 1]
            }) by {}
            assert forall|n: int|
                fin.in_tree(n) && fin.parent_spec(n) is Some implies {
                let q = fin.parent_spec(n)->Some_0 as int;
                &&& fin.in_tree(q)
                &&& fin.children_spec(q).contains(n as u32)
                &&& fin.depth_spec(n) == fin.depth_spec(q) + 1
            } by {
                if n != i as int && n != pa as int {
                    assert(orig.node_unchanged(fin, n));
                }
                assert(orig.in_tree(n) && orig.parent_spec(n) is Some);
                let q = orig.parent_spec(n)->Some_0 as int;
                assert(orig.in_tree(q));
                assert(orig.children_spec(q).contains(n as u32));
                assert(orig.depth_spec(n) == orig.depth_spec(q) + 1);
                if q != i as int && q != pa as int {
                    assert(orig.node_unchanged(fin, q));
                } else if q == pa as int {
                    let m = choose|m: int|
                        0 <= m < kseq.len() && kseq[m] == n as u32;
                    assert(n as u32 != i);
                    assert(m != k as int);
                    if m < k as int {
                        assert(fin.children_spec(q)[m] == n as u32);
                    } else {
                        assert(fin.children_spec(q)[m - 1] == n as u32);
                    }
                }
            }
            assert forall|q: int, j: int|
                #![trigger fin.children_spec(q)[j]]
                fin.in_tree(q) && 0 <= j < fin.children_spec(q).len() implies {
                let cc = fin.children_spec(q)[j] as int;
                &&& fin.in_tree(cc)
                &&& fin.parent_spec(cc) == Some(q as u32)
            } by {
                if q != i as int && q != pa as int {
                    assert(orig.node_unchanged(fin, q));
                }
                let v = fin.children_spec(q)[j];
                let ghost jo = if q == pa as int && j >= k as int {
                    j + 1
                } else {
                    j
                };
                assert(orig.children_spec(q)[jo] == v);
                assert(orig.in_tree(v as int));
                assert(orig.parent_spec(v as int) == Some(q as u32));
                assert(v != i);
                if v as int != pa as int {
                    assert(orig.node_unchanged(fin, v as int));
                }
            }
            assert forall|q: int, j: int, m: int|
                fin.in_tree(q) && 0 <= j < fin.children_spec(q).len() && 0 <= m
                    < fin.children_spec(q).len() && j != m implies #[trigger] fin.children_spec(
                q,
            )[j] != #[trigger] fin.children_spec(q)[m] by {
                if q != i as int && q != pa as int {
                    assert(orig.node_unchanged(fin, q));
                    assert(orig.children_spec(q)[j] != orig.children_spec(q)[m]);
                } else if q == pa as int {
                    let ghost jo = if j >= k as int {
                        j + 1
                    } else {
                        j
                    };
                    let ghost mo = if m >= k as int {
                        m + 1
                    } else {
                        m
                    };
                    assert(fin.children_spec(q)[j] == kseq[jo]);
                    assert(fin.children_spec(q)[m] == kseq[mo]);
                    assert(kseq[jo] != kseq[mo]);
                } else {
                    assert(fin.children_spec(q) == orig.children_spec(q));
                    assert(orig.children_spec(q)[j] != orig.children_spec(q)[m]);
                }
            }
            assert forall|n: int| fin.in_tree(n) implies #[trigger] fin.depth_spec(n) >= 0 by {
                if n != i as int && n != pa as int {
                    assert(orig.node_unchanged(fin, n));
                }
                assert(orig.depth_spec(n) >= 0);
                assert(fin.depth_spec(n) == orig.depth_spec(n));
            }
            assert forall|j: int|
                old(self).in_tree(j) implies fin.depth_spec(j) == old(self).depth_spec(j) by {
                if j != i as int && j != pa as int {
                    assert(orig.node_unchanged(fin, j));
                }
            }
        }
    }


    /// Removes `i` and its entire subtree: `i` is unlinked from its parent,
    /// and every record in the subtree is erased. Every node outside the
    /// subtree keeps its record, the parent losing exactly the one child.
    /// Removing an absent node is a no-op returning false.
    pub fn remove(&mut self, i: u32) -> (r: bool)
        requires
            old(self).wf(),
        ensures
            final(self).wf(),
            final(self).len_spec() == old(self).len_spec(),
            r == old(self).in_tree(i as int),
            !r ==> forall|j: int| old(self).node_unchanged(*final(self), j),
            !final(self).in_tree(i as int),
            forall|j: int| old(self).in_subtree(i as int, j) ==> !final(self).in_tree(j),
            forall|j: int|
                #[trigger] final(self).in_tree(j) ==> old(self).in_tree(j) && !old(
                    self,
                ).in_subtree(i as int, j),
            forall|j: int|
                old(self).in_tree(j) && !old(self).in_subtree(i as int, j) ==> {
                    &&& final(self).in_tree(j)
                    &&& final(self).parent_spec(j) == old(self).parent_spec(j)
                    &&& final(self).depth_spec(j) == old(self).depth_spec(j)
                },
            r && old(self).parent_spec(i as int) is Some ==> {
                let pa = old(self).parent_spec(i as int)->Some_0 as int;
                let kids = old(self).children_spec(pa);
                final(self).children_spec(pa) == kids.remove(kids.index_of(i))
            },
            forall|j: int|
                old(self).in_tree(j) && !old(self).in_subtree(i as int, j) && (old(
                    self,
                ).parent_spec(i as int) is Some ==> j != old(self).parent_spec(
                    i as int,
                )->Some_0 as int) ==> final(self).children_spec(j) == old(self).children_spec(j),
    {
        if !self.contains(i) {
            proof {
                lemma_frame(*self, *self, -1, -1);
                assert(old(self).node_unchanged(*self, i as int));
                assert forall|j: int| !old(self).in_subtree(i as int, j) by {
                    if old(self).in_subtree(i as int, j) {
                        lemma_in_subtree_implies_depth_bound(*old(self), i as int, j);
                    }
                }
            }
            return false;
        }
        let ghost orig = *self;
        self.detach(i);
        let ghost mid = *self;
        proof {
            assert forall|n: int|
                n != i as int && #[trigger] orig.in_tree(n) implies orig.parent_spec(n)
                == mid.parent_spec(n) by {
                if orig.parent_spec(i as int) is Some {
                    let pa = orig.parent_spec(i as int)->Some_0 as int;
                    if n != pa {
                        assert(orig.node_unchanged(mid, n));
                    }
                } else {
                    assert(orig.node_unchanged(mid, n));
                }
            }
            assert forall|j: int| mid.in_subtree(i as int, j) == orig.in_subtree(
                i as int,
                j,
            ) by {
                lemma_in_subtree_reparent(orig, mid, i as int, j);
            }
        }
        let len = self.nodes.len();
        let mut mask: Vec<bool> = Vec::new();
        let mut j: usize = 0;
        while j < len
            invariant
                *self == mid,
                mid.wf(),
                len == mid.nodes@.len(),
                mask@.len() == j,
                j <= len,
                forall|n: int| 0 <= n < j ==> mask@[n] == mid.in_subtree(i as int, n),
            decreases len - j,
        {
            let hit = self.is_in_subtree(i, j as u32);
            mask.push(hit);
            j += 1;
        }
        let mut k: usize = 0;
        while k < len
            invariant
                mid.wf(),
                len == mid.nodes@.len(),
                self.nodes@.len() == len,
                mask@.len() == len,
                k <= len,
                forall|n: int| 0 <= n < len ==> mask@[n] == mid.in_subtree(i as int, n),
                forall|n: int|
                    0 <= n < k ==> self.nodes@[n] == (if mask@[n] {
                        Option::<TreeNode>::None
                    } else {
                        mid.nodes@[n]
                    }),
                forall|n: int| k <= n < len ==> self.nodes@[n] == mid.nodes@[n],
            decreases len - k,
        {
            if mask[k] {
                self.nodes.set(k, Option::None);
            }
            k += 1;
        }
        proof {
            let fin = *self;
            assert forall|n: int| #[trigger] fin.in_tree(n) implies mid.in_tree(n)
                && !mid.in_subtree(i as int, n) && fin.nodes@[n] == mid.nodes@[n] by {
                assert(!mask@[n]);
            }
            assert forall|n: int|
                mid.in_tree(n) && !mid.in_subtree(i as int, n) implies #[trigger] fin.in_tree(n)
                && fin.parent_spec(n) == mid.parent_spec(n) && fin.children_spec(n)
                == mid.children_spec(n) && fin.depth_spec(n) == mid.depth_spec(n) by {
                assert(!mask@[n]);
                assert(fin.nodes@[n] == mid.nodes@[n]);
            }
            assert(mid.in_subtree(i as int, i as int));
            assert(!fin.in_tree(i as int));
            assert forall|n: int|
                fin.in_tree(n) && fin.parent_spec(n) is Some implies {
                let q = fin.parent_spec(n)->Some_0 as int;
                &&& fin.in_tree(q)
                &&& fin.children_spec(q).contains(n as u32)
                &&& fin.depth_spec(n) == fin.depth_spec(q) + 1
            } by {
                assert(mid.in_tree(n) && !mid.in_subtree(i as int, n));
                let q = mid.parent_spec(n)->Some_0 as int;
                assert(mid.in_tree(q));
                assert(mid.children_spec(q).contains(n as u32));
                if mid.in_subtree(i as int, q) {
                    assert(mid.in_subtree(i as int, n));
                }
                assert(!mask@[q]);
                assert(fin.nodes@[q] == mid.nodes@[q]);
            }
            assert forall|q: int, m: int|
                #![trigger fin.children_spec(q)[m]]
                fin.in_tree(q) && 0 <= m < fin.children_spec(q).len() implies {
                let cc = fin.children_spec(q)[m] as int;
                &&& fin.in_tree(cc)
                &&& fin.parent_spec(cc) == Some(q as u32)
            } by {
                assert(mid.in_tree(q) && !mid.in_subtree(i as int, q));
                let cc = mid.children_spec(q)[m] as int;
                assert(mid.in_tree(cc));
                assert(mid.parent_spec(cc) == Some(q as u32));
                if cc == i as int {
                    assert(mid.parent_spec(i as int) is None);
                    assert(false);
                }
                if mid.in_subtree(i as int, cc) {
                    assert(mid.in_subtree(i as int, q));
                }
                assert(!mask@[cc]);
                assert(fin.nodes@[cc] == mid.nodes@[cc]);
            }
            assert forall|q: int, m1: int, m2: int|
                fin.in_tree(q) && 0 <= m1 < fin.children_spec(q).len() && 0 <= m2
                    < fin.children_spec(q).len() && m1 != m2 implies #[trigger] fin.children_spec(
                q,
            )[m1] != #[trigger] fin.children_spec(q)[m2] by {
                assert(mid.in_tree(q));
                assert(fin.children_spec(q) == mid.children_spec(q));
                assert(mid.children_spec(q)[m1] != mid.children_spec(q)[m2]);
            }
            assert forall|n: int| fin.in_tree(n) implies #[trigger] fin.depth_spec(n) >= 0 by {
                assert(mid.in_tree(n));
                assert(fin.depth_spec(n) == mid.depth_spec(n));
                assert(mid.depth_spec(n) >= 0);
            }
            if orig.parent_spec(i as int) is Some {
                let pa = orig.parent_spec(i as int)->Some_0 as int;
                assert(orig.depth_spec(i as int) == orig.depth_spec(pa) + 1);
                if mid.in_subtree(i as int, pa) {
                    lemma_in_subtree_implies_depth_bound(mid, i as int, pa);
                    assert(mid.depth_spec(pa) >= mid.depth_spec(i as int));
                    assert(false);
                }
                assert(!mask@[pa]);
                assert(fin.nodes@[pa] == mid.nodes@[pa]);
                assert(fin.children_spec(pa) == mid.children_spec(pa));
            }
            assert forall|j2: int|
                orig.in_tree(j2) && !orig.in_subtree(i as int, j2) implies {
                &&& fin.in_tree(j2)
                &&& fin.parent_spec(j2) == orig.parent_spec(j2)
                &&& fin.depth_spec(j2) == orig.depth_spec(j2)
            } by {
                assert(j2 != i as int);
                assert(mid.in_tree(j2) && !mid.in_subtree(i as int, j2));
                if orig.parent_spec(i as int) is Some {
                    let pa = orig.parent_spec(i as int)->Some_0 as int;
                    if j2 != pa {
                        assert(orig.node_unchanged(mid, j2));
                    }
                } else {
                    assert(orig.node_unchanged(mid, j2));
                }
            }
            assert forall|j2: int|
                orig.in_tree(j2) && !orig.in_subtree(i as int, j2) && (orig.parent_spec(
                    i as int,
                ) is Some ==> j2 != orig.parent_spec(i as int)->Some_0 as int) implies #[trigger] fin
                .children_spec(j2) == orig.children_spec(j2) by {
                assert(mid.in_tree(j2) && !mid.in_subtree(i as int, j2));
                if orig.parent_spec(i as int) is Some {
                    assert(orig.node_unchanged(mid, j2));
                } else {
                    assert(orig.node_unchanged(mid, j2));
                }
            }
        }
        true
    }


    /// Pre-order traversal sequence from `n`, bounded by `fuel` levels of
    /// descent: the node itself, then each child's traversal in order.
    pub closed spec fn preorder_spec(self, n: int, fuel: nat) -> Seq<u32>
        decreases fuel, 0nat, 0nat,
    {
        if fuel == 0 || !self.in_tree(n) {
            Seq::empty()
        } else {
            seq![n as u32] + self.preorder_kids(self.children_spec(n), 0, (fuel - 1) as nat)
        }
    }

    /// Concatenated pre-order traversals of `kids[k..]`.
    pub closed spec fn preorder_kids(self, kids: Seq<u32>, k: int, fuel: nat) -> Seq<u32>
        decreases fuel, 1nat, kids.len() - k,
    {
        if k < 0 || k >= kids.len() {
            Seq::empty()
        } else {
            self.preorder_spec(kids[k] as int, fuel) + self.preorder_kids(kids, k + 1, fuel)
        }
    }

    /// Post-order traversal sequence from `n`: each child's traversal in
    /// order, then the node itself.
    pub closed spec fn postorder_spec(self, n: int, fuel: nat) -> Seq<u32>
        decreases fuel, 0nat, 0nat,
    {
        if fuel == 0 || !self.in_tree(n) {
            Seq::empty()
        } else {
            self.postorder_kids(self.children_spec(n), 0, (fuel - 1) as nat).push(n as u32)
        }
    }

    /// Concatenated post-order traversals of `kids[k..]`.
    pub closed spec fn postorder_kids(self, kids: Seq<u32>, k: int, fuel: nat) -> Seq<u32>
        decreases fuel, 1nat, kids.len() - k,
    {
        if k < 0 || k >= kids.len() {
            Seq::empty()
        } else {
            self.postorder_spec(kids[k] as int, fuel) + self.postorder_kids(kids, k + 1, fuel)
        }
    }

    /// Snapshot pre-order traversal of the subtree of `root`: parents before
    /// children, siblings in insertion order. The traversal is computed
    /// against the structure at call time; later mutation of the tree does
    /// not affect the returned sequence.
    pub fn iter_preorder(&self, root: u32) -> (r: Vec<u32>)
        requires
            self.wf(),
        ensures
            r@ == self.preorder_spec(root as int, self.len_spec()),
    {
        let mut out: Vec<u32> = Vec::new();
        let fuel = self.nodes.len();
        self.preorder_rec(root, fuel, &mut out);
        out
    }

    fn preorder_rec(&self, n: u32, fuel: usize, out: &mut Vec<u32>)
        requires
            self.wf(),
        ensures
            final(out)@ == old(out)@ + self.preorder_spec(n as int, fuel as nat),
        decreases fuel,
    {
        if fuel == 0 || !self.contains(n) {
            proof {
                assert(old(out)@ + self.preorder_spec(n as int, fuel as nat) =~= old(out)@);
            }
            return ;
        }
        out.push(n);
        let kids = self.children_of(n);
        let ghost kseq = self.children_spec(n as int);
        let ghost subfuel = (fuel - 1) as nat;
        proof {
            assert(out@ + self.preorder_kids(kseq, 0, subfuel) =~= old(out)@ + self.preorder_spec(
                n as int,
                fuel as nat,
            ));
        }
        let mut k: usize = 0;
        while k < kids.len()
            invariant
                self.wf(),
                kids@ == kseq,
                kseq == self.children_spec(n as int),
                k <= kids.len(),
                out@ + self.preorder_kids(kseq, k as int, subfuel) == old(out)@
                    + self.preorder_spec(n as int, fuel as nat),
                fuel >= 1,
                subfuel == (fuel - 1) as nat,
            decreases kids.len() - k,
        {
            let ghost before = out@;
            self.preorder_rec(kids[k], fuel - 1, out);
            proof {
                assert(self.preorder_kids(kseq, k as int, subfuel) == self.preorder_spec(
                    kseq[k as int] as int,
                    subfuel,
                ) + self.preorder_kids(kseq, k as int + 1, subfuel));
                assert(out@ + self.preorder_kids(kseq, k as int + 1, subfuel) =~= before
                    + self.preorder_kids(kseq, k as int, subfuel));
            }
            k += 1;
        }
        proof {
            assert(self.preorder_kids(kseq, k as int, subfuel) =~= Seq::<u32>::empty());
            assert(out@ + Seq::<u32>::empty() =~= out@);
        }
    }

    /// Snapshot post-order traversal of the subtree of `root`: children
    /// before parents, siblings in insertion order.
    pub fn iter_postorder(&self, root: u32) -> (r: Vec<u32>)
        requires
            self.wf(),
        ensures
            r@ == self.postorder_spec(root as int, self.len_spec()),
    {
        let mut out: Vec<u32> = Vec::new();
        let fuel = self.nodes.len();
        self.postorder_rec(root, fuel, &mut out);
        out
    }

    fn postorder_rec(&self, n: u32, fuel: usize, out: &mut Vec<u32>)
        requires
            self.wf(),
        ensures
            final(out)@ == old(out)@ + self.postorder_spec(n as int, fuel as nat),
        decreases fuel,
    {
        if fuel == 0 || !self.contains(n) {
            proof {
                assert(old(out)@ + self.postorder_spec(n as int, fuel as nat) =~= old(out)@);
            }
            return ;
        }
        let kids = self.children_of(n);
        let ghost kseq = self.children_spec(n as int);
        let ghost subfuel = (fuel - 1) as nat;
        let mut k: usize = 0;
        proof {
            assert(out@ + self.postorder_kids(kseq, 0, subfuel) =~= old(out)@
                + self.postorder_kids(kseq, 0, subfuel));
        }
        while k < kids.len()
            invariant
                self.wf(),
                kids@ == kseq,
                kseq == self.children_spec(n as int),
                k <= kids.len(),
                out@ + self.postorder_kids(kseq, k as int, subfuel) == old(out)@
                    + self.postorder_kids(kseq, 0, subfuel),
                fuel >= 1,
                subfuel == (fuel - 1) as nat,
            decreases kids.len() - k,
        {
            let ghost before = out@;
            self.postorder_rec(kids[k], fuel - 1, out);
            proof {
                assert(self.postorder_kids(kseq, k as int, subfuel) == self.postorder_spec(
                    kseq[k as int] as int,
                    subfuel,
                ) + self.postorder_kids(kseq, k as int + 1, subfuel));
                assert(out@ + self.postorder_kids(kseq, k as int + 1, subfuel) =~= before
                    + self.postorder_kids(kseq, k as int, subfuel));
            }
            k += 1;
        }
        out.push(n);
        proof {
            assert(self.postorder_kids(kseq, k as int, subfuel) =~= Seq::<u32>::empty());
            assert(out@ =~= old(out)@ + self.postorder_kids(kseq, 0, subfuel).push(n));
            assert(self.postorder_spec(n as int, fuel as nat) == self.postorder_kids(
                kseq,
                0,
                subfuel,
            ).push(n));
        }
    }

    /// A copy of the ordered children of `i` (empty for an absent slot).
    pub fn children_of(&self, i: u32) -> (r: Vec<u32>)
        ensures
            r@ == if self.in_tree(i as int) {
                self.children_spec(i as int)
            } else {
                Seq::<u32>::empty()
            },
    {
        let idx = i as usize;
        if idx < self.nodes.len() {
            match &self.nodes[idx] {
                Option::Some(node) => {
                    let r = node.children.clone();
                    proof {
                        assert(r@ =~= self.children_spec(i as int));
                    }
                    r
                },
                Option::None => Vec::new(),
            }
        } else {
            Vec::new()
        }
    }
}


/// If two arenas agree on every slot except (at most) `a` and `b`, every
/// other slot's record is unchanged between them.
proof fn lemma_frame(t1: Tree, t2: Tree, a: int, b: int)
    requires
        t2.nodes@.len() >= t1.nodes@.len(),
        forall|j: int|
            0 <= j < t1.nodes@.len() && j != a && j != b ==> t2.nodes@[j] == t1.nodes@[j],
        forall|j: int|
            t1.nodes@.len() <= j < t2.nodes@.len() && j != a && j != b ==> !(#[trigger] t2.nodes@[j]
                is Some),
    ensures
        forall|j: int| j != a && j != b ==> #[trigger] t1.node_unchanged(t2, j),
{
    assert forall|j: int| j != a && j != b implies #[trigger] t1.node_unchanged(t2, j) by {
        if 0 <= j < t1.nodes@.len() {
            assert(t2.nodes@[j] == t1.nodes@[j]);
            assert(t2.in_tree(j) == t1.in_tree(j));
            if t1.in_tree(j) {
                assert(t2.parent_spec(j) == t1.parent_spec(j));
                assert(t2.children_spec(j) == t1.children_spec(j));
                assert(t2.depth_spec(j) == t1.depth_spec(j));
            }
        } else if t1.nodes@.len() <= j < t2.nodes@.len() {
            assert(!t2.in_tree(j));
            assert(!t1.in_tree(j));
        } else {
            assert(!t1.in_tree(j) && !t2.in_tree(j));
        }
    }
}


/// Subtree membership does not depend on the root's own parent link: two
/// well-formed arenas with the same occupancy and depths, differing in parent
/// links at most at `r`, agree on membership in `r`'s subtree.
proof fn lemma_in_subtree_reparent(t1: Tree, t2: Tree, r: int, j: int)
    requires
        t1.wf(),
        t2.wf(),
        forall|n: int| t1.in_tree(n) == t2.in_tree(n),
        forall|n: int|
            n != r && #[trigger] t1.in_tree(n) ==> t1.parent_spec(n) == t2.parent_spec(n),
        forall|n: int| #[trigger] t1.in_tree(n) ==> t1.depth_spec(n) == t2.depth_spec(n),
    ensures
        t1.in_subtree(r, j) == t2.in_subtree(r, j),
    decreases
            (if t1.in_tree(j) {
                t1.depth_spec(j)
            } else {
                0
            }),
{
    if !t1.in_tree(j) {
        assert(!t1.in_subtree(r, j));
        assert(!t2.in_subtree(r, j));
    } else if j == r {
    } else {
        assert(t1.parent_spec(j) == t2.parent_spec(j));
        match t1.parent_spec(j) {
            Option::None => {},
            Option::Some(p) => {
                assert(t1.in_tree(p as int));
                assert(t1.depth_spec(p as int) == t1.depth_spec(j) - 1);
                lemma_in_subtree_reparent(t1, t2, r, p as int);
            },
        }
    }
}

/// A well-formed arena never exceeds the identifier space.
pub proof fn lemma_tree_bounds(t: Tree)
    requires
        t.wf(),
    ensures
        t.len_spec() <= u32::MAX as nat,
{
}

/// The defining equation of the ancestor chain at a root: a node without a
/// parent has no ancestors.
pub proof fn lemma_ancestors_of_root(t: Tree, i: int)
    requires
        t.wf(),
        t.in_tree(i),
        t.parent_spec(i) is None,
    ensures
        t.ancestors_spec(i) == Seq::<u32>::empty(),
{
    assert(t.ancestors_spec(i) =~= Seq::<u32>::empty());
}

/// The defining equation of the ancestor chain at a child: its ancestors are
/// its parent followed by the parent's ancestors.
pub proof fn lemma_ancestors_of_child(t: Tree, i: int)
    requires
        t.wf(),
        t.in_tree(i),
        t.parent_spec(i) is Some,
    ensures
        t.ancestors_spec(i) == seq![t.parent_spec(i)->Some_0] + t.ancestors_spec(
            t.parent_spec(i)->Some_0 as int,
        ),
{
    let p = t.parent_spec(i)->Some_0;
    assert(t.in_tree(p as int));
    assert(t.depth_spec(i) == t.depth_spec(p as int) + 1);
}

/// Child links are real edges: each child of a present node is itself
/// present and points back at that node as its parent.
pub proof fn lemma_child_edges(t: Tree, p: int, k: int)
    requires
        t.wf(),
        t.in_tree(p),
        0 <= k < t.children_spec(p).len(),
    ensures
        t.in_tree(t.children_spec(p)[k] as int),
        t.parent_spec(t.children_spec(p)[k] as int) == Some(p as u32),
{
}

/// A tree record exists only within the arena's bounds.
pub proof fn lemma_in_tree_bounds(t: Tree, j: int)
    requires
        t.in_tree(j),
    ensures
        0 <= j < t.len_spec(),
{
}

/// The root of a subtree is one of its members.
pub proof fn lemma_in_subtree_self(t: Tree, r: int)
    requires
        t.wf(),
        t.in_tree(r),
    ensures
        t.in_subtree(r, r),
{
}

/// Subtree membership implies both ends are in the tree.
pub proof fn lemma_in_subtree_members(t: Tree, r: int, j: int)
    requires
        t.wf(),
        t.in_subtree(r, j),
    ensures
        t.in_tree(j),
        t.in_tree(r),
{
    lemma_in_subtree_implies_depth_bound(t, r, j);
}

/// A member of the subtree of `r` sits at or below `r`'s depth.
proof fn lemma_in_subtree_implies_depth_bound(t: Tree, r: int, j: int)
    requires
        t.wf(),
        t.in_subtree(r, j),
    ensures
        t.in_tree(j),
        t.in_tree(r),
        t.depth_spec(j) >= t.depth_spec(r),
    decreases
            (if t.in_tree(j) {
                t.depth_spec(j)
            } else {
                0
            }),
{
    if j != r {
        match t.parent_spec(j) {
            Option::None => {},
            Option::Some(p) => {
                lemma_in_subtree_implies_depth_bound(t, r, p as int);
            },
        }
    }
}

/// A well-formed arena stays well-formed when no slot's record changed.
proof fn lemma_wf_unchanged(t1: Tree, t2: Tree)
    requires
        t1.wf(),
        t2.nodes@.len() <= u32::MAX as nat,
        forall|j: int| #[trigger] t1.node_unchanged(t2, j),
    ensures
        t2.wf(),
{
    assert forall|i: int|
        #![trigger t2.parent_spec(i)]
        t2.in_tree(i) && t2.parent_spec(i) is Some implies {
        let q = t2.parent_spec(i)->Some_0 as int;
        &&& t2.in_tree(q)
        &&& t2.children_spec(q).contains(i as u32)
        &&& t2.depth_spec(i) == t2.depth_spec(q) + 1
    } by {
        assert(t1.node_unchanged(t2, i));
        assert(t1.in_tree(i));
        let q = t1.parent_spec(i)->Some_0 as int;
        assert(t1.node_unchanged(t2, q));
        assert(t1.in_tree(q));
        assert(t1.children_spec(q).contains(i as u32));
        assert(t1.depth_spec(i) == t1.depth_spec(q) + 1);
    }
    assert forall|q: int, j: int|
        #![trigger t2.children_spec(q)[j]]
        t2.in_tree(q) && 0 <= j < t2.children_spec(q).len() implies {
        let c = t2.children_spec(q)[j] as int;
        &&& t2.in_tree(c)
        &&& t2.parent_spec(c) == Some(q as u32)
    } by {
        assert(t1.node_unchanged(t2, q));
        assert(t1.in_tree(q));
        let c = t1.children_spec(q)[j] as int;
        assert(t1.in_tree(c));
        assert(t1.parent_spec(c) == Some(q as u32));
        assert(t1.node_unchanged(t2, c));
    }
    assert forall|q: int, j: int, k: int|
        t2.in_tree(q) && 0 <= j < t2.children_spec(q).len() && 0 <= k < t2.children_spec(
            q,
        ).len() && j != k implies #[trigger] t2.children_spec(q)[j] != #[trigger] t2.children_spec(
        q,
    )[k] by {
        assert(t1.node_unchanged(t2, q));
        assert(t1.in_tree(q));
        assert(t1.children_spec(q)[j] != t1.children_spec(q)[k]);
    }
    assert forall|i: int| t2.in_tree(i) implies #[trigger] t2.depth_spec(i) >= 0 by {
        assert(t1.node_unchanged(t2, i));
        assert(t1.in_tree(i));
        assert(t1.depth_spec(i) >= 0);
    }
}

} // verus!
