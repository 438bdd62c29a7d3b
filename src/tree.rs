//! An owned, index-addressed snapshot of the window tree, and the walk that
//! visits every node of it once, parent before children.

use vstd::prelude::*;
use vstd::set_lib::lemma_len_subset;

verus! {

/// What a node of the window tree stands for.
#[derive(Clone, Copy, Debug, PartialEq, Eq, Structural)]
pub enum NodeKind {
    Root,
    Output,
    Workspace,
    Con,
    FloatingCon,
    Dockarea,
    /// A kind that this library does not know.
    Other,
}

/// The attributes of one node that the governor reads.
#[derive(Clone, Copy, Debug, PartialEq, Eq)]
pub struct WindowNode {
    pub kind: NodeKind,
    pub pid: Option<i32>,
    pub visible: Option<bool>,
}

/// A tree held in a flat table: node `0` is the root, and each node lists
/// the indices of its children, in order.
pub struct WindowTree {
    nodes: Vec<WindowNode>,
    children: Vec<Vec<usize>>,
}

impl WindowTree {
    /// Number of nodes.
    pub closed spec fn size(self) -> int {
        self.nodes@.len() as int
    }

    /// The node at index `i`.
    pub closed spec fn node_at(self, i: int) -> WindowNode {
        self.nodes@[i]
    }

    /// The children of node `i`, in order.
    pub closed spec fn kids(self, i: int) -> Seq<usize> {
        self.children@[i]@
    }

    pub open spec fn valid_slot(self, i: int, k: int) -> bool {
        0 <= i < self.size() && 0 <= k < self.kids(i).len()
    }

    /// The `k`-th child of node `i`.
    pub open spec fn child(self, i: int, k: int) -> int {
        self.kids(i)[k] as int
    }

    /// Node `j` is a child of node `i`.
    pub open spec fn is_parent(self, i: int, j: int) -> bool {
        exists|k: int| self.valid_slot(i, k) && #[trigger] self.child(i, k) == j
    }

    /// Node `j` is listed as a child of some node.
    pub open spec fn has_parent(self, j: int) -> bool {
        exists|i: int| #[trigger] self.is_parent(i, j)
    }

    pub closed spec fn tables_agree(self) -> bool {
        self.children@.len() == self.nodes@.len()
    }

    /// A tree: a child stands after its parent in the table, every node but
    /// the root is listed as a child exactly once, and the root never is.
    pub open spec fn wf(self) -> bool {
        &&& self.tables_agree()
        &&& self.size() > 0
        &&& forall|i: int, k: int|
            #[trigger] self.valid_slot(i, k) ==> i < self.child(i, k) < self.size()
        &&& forall|i1: int, k1: int, i2: int, k2: int|
            self.valid_slot(i1, k1) && self.valid_slot(i2, k2) && #[trigger] self.child(i1, k1)
                == #[trigger] self.child(i2, k2) ==> i1 == i2 && k1 == k2
        &&& forall|j: int| 0 < j < self.size() ==> #[trigger] self.has_parent(j)
    }

    /// The nodes of the subtree at `i` in preorder: `i`, then the subtree of
    /// each child in turn.
    pub open spec fn preorder(self, i: int) -> Seq<usize>
        decreases self.size() - i, self.kids(i).len() + 1,
    {
        if 0 <= i < self.size() {
            seq![i as usize] + self.forest(i, 0)
        } else {
            seq![]
        }
    }

    /// The preorders of the children of `i` from the `k`-th on, one after
    /// the other.
    pub open spec fn forest(self, i: int, k: int) -> Seq<usize>
        decreases self.size() - i, self.kids(i).len() - k,
    {
        if 0 <= i && 0 <= k < self.kids(i).len() && i < self.child(i, k) < self.size() {
            self.preorder(self.child(i, k)) + self.forest(i, k + 1)
        } else {
            seq![]
        }
    }

    /// What is left to walk from `stack`: the subtree at its top first.
    spec fn pending(self, stack: Seq<usize>) -> Seq<usize>
        decreases stack.len(),
    {
        if stack.len() == 0 {
            seq![]
        } else {
            self.preorder(stack.last() as int) + self.pending(stack.drop_last())
        }
    }

    /// `order` lists every node of the tree exactly once, the root first,
    /// and each parent before each of its children.
    pub open spec fn is_walk(self, order: Seq<usize>) -> bool {
        &&& order.len() == self.size()
        &&& order.no_duplicates()
        &&& forall|a: int| 0 <= a < order.len() ==> #[trigger] order[a] < self.size()
        &&& forall|j: usize| j < self.size() ==> #[trigger] order.contains(j)
        &&& order[0] == 0
        &&& forall|a: int, b: int|
            0 <= a < order.len() && 0 <= b < order.len() && self.is_parent(
                #[trigger] order[a] as int,
                #[trigger] order[b] as int,
            ) ==> a < b
    }

    /// A tree of one node.
    pub fn new(root: WindowNode) -> (t: Self)
        ensures
            t.wf(),
            t.size() == 1,
            t.node_at(0) == root,
            t.kids(0).len() == 0,
    {
        let mut children: Vec<Vec<usize>> = Vec::new();
        children.push(Vec::new());
        let mut nodes: Vec<WindowNode> = Vec::new();
        nodes.push(root);
        let t = WindowTree { nodes, children };
        assert forall|i: int, k: int| #[trigger] t.valid_slot(i, k) implies false by {}
        t
    }

    /// Appends `node` as the last child of `parent`, and returns its index;
    /// `None`, and the tree unchanged, where `parent` is no node or the
    /// table is full.
    pub fn add_child(&mut self, parent: usize, node: WindowNode) -> (r: Option<usize>)
        requires
            old(self).wf(),
        ensures
            final(self).wf(),
            r is None <==> (parent >= old(self).size() || old(self).size() >= usize::MAX),
            r is None ==> final(self).size() == old(self).size() && (forall|i: int|
                0 <= i < old(self).size() ==> final(self).node_at(i) == old(self).node_at(i)
                    && final(self).kids(i) == old(self).kids(i)),
            r matches Some(j) ==> {
                &&& j == old(self).size()
                &&& final(self).size() == old(self).size() + 1
                &&& final(self).node_at(j as int) == node
                &&& final(self).kids(j as int).len() == 0
                &&& final(self).kids(parent as int) == old(self).kids(parent as int).push(j)
                &&& forall|i: int|
                    0 <= i < old(self).size() ==> final(self).node_at(i) == old(self).node_at(i)
                &&& forall|i: int|
                    0 <= i < old(self).size() && i != parent ==> final(self).kids(i) == old(
                        self,
                    ).kids(i)
            },
    {
        let n = self.nodes.len();
        if parent >= n || n == usize::MAX {
            return None;
        }
        let ghost pre = *self;
        let mut list = self.children.remove(parent);
        list.push(n);
        self.children.insert(parent, list);
        self.children.push(Vec::new());
        self.nodes.push(node);
        proof {
            let post = *self;
            assert forall|i: int| 0 <= i < pre.size() && i != parent implies post.kids(i)
                == pre.kids(i) by {
                assert(post.children@[i] == pre.children@[i]);
            }
            assert(post.kids(parent as int) == pre.kids(parent as int).push(n));
            assert forall|i: int, k: int| #[trigger] post.valid_slot(i, k) implies i < post.child(
                i,
                k,
            ) < post.size() by {
                if i != parent {
                    assert(pre.valid_slot(i, k));
                } else if k < pre.kids(i).len() {
                    assert(pre.valid_slot(i, k));
                }
            }
            assert forall|i1: int, k1: int, i2: int, k2: int|
                post.valid_slot(i1, k1) && post.valid_slot(i2, k2) && #[trigger] post.child(i1, k1)
                    == #[trigger] post.child(i2, k2) implies i1 == i2 && k1 == k2 by {
                let new1 = i1 == parent && k1 == pre.kids(parent as int).len();
                let new2 = i2 == parent && k2 == pre.kids(parent as int).len();
                if !new1 {
                    assert(pre.valid_slot(i1, k1));
                    assert(post.child(i1, k1) == pre.child(i1, k1));
                }
                if !new2 {
                    assert(pre.valid_slot(i2, k2));
                    assert(post.child(i2, k2) == pre.child(i2, k2));
                }
                if !new1 && !new2 {
                    assert(pre.child(i1, k1) == pre.child(i2, k2));
                }
            }
            assert forall|j: int| 0 < j < post.size() implies #[trigger] post.has_parent(j) by {
                if j == n {
                    let k = pre.kids(parent as int).len() as int;
                    assert(post.valid_slot(parent as int, k) && post.child(parent as int, k) == j);
                    assert(post.is_parent(parent as int, j));
                } else {
                    assert(pre.has_parent(j));
                    let i = choose|i: int| #[trigger] pre.is_parent(i, j);
                    let k = choose|k: int| pre.valid_slot(i, k) && #[trigger] pre.child(i, k) == j;
                    assert(post.valid_slot(i, k) && post.child(i, k) == j);
                    assert(post.is_parent(i, j));
                }
            }
        }
        Some(n)
    }

    /// Number of nodes.
    pub fn len(&self) -> (r: usize)
        ensures
            r == self.size(),
    {
        self.nodes.len()
    }

    /// The node at index `i`.
    pub fn node(&self, i: usize) -> (r: WindowNode)
        requires
            i < self.size(),
        ensures
            r == self.node_at(i as int),
    {
        self.nodes[i]
    }

    /// The children of node `i`, in order.
    pub fn children_of(&self, i: usize) -> (r: &Vec<usize>)
        requires
            self.wf(),
            i < self.size(),
        ensures
            r@ == self.kids(i as int),
    {
        &self.children[i]
    }

    /// What holds between steps of the walk: `order` is what was visited,
    /// `stack` what waits, and `seen` the nodes of both.
    spec fn walk_inv(self, order: Seq<usize>, stack: Seq<usize>, seen: Set<usize>) -> bool {
        &&& order.no_duplicates()
        &&& stack.no_duplicates()
        &&& seen.finite()
        &&& seen.len() == order.len() + stack.len()
        &&& forall|x: usize| #[trigger] seen.contains(x) ==> x < self.size()
        &&& forall|x: usize|
            #![trigger seen.contains(x)]
            #![trigger order.contains(x)]
            #![trigger stack.contains(x)]
            seen.contains(x) <==> (order.contains(x) || stack.contains(x))
        &&& forall|x: usize| #[trigger] stack.contains(x) ==> !order.contains(x)
        &&& order.len() == 0 ==> stack == seq![0usize]
        &&& order.len() > 0 ==> order[0] == 0
        &&& forall|a: int, b: int|
            0 <= a < order.len() && 0 <= b < order.len() && self.is_parent(
                #[trigger] order[a] as int,
                #[trigger] order[b] as int,
            ) ==> a < b
        &&& forall|b: int|
            0 <= b < order.len() && #[trigger] order[b] != 0 ==> exists|a: int|
                0 <= a < b && self.is_parent(#[trigger] order[a] as int, order[b] as int)
        &&& forall|s: int|
            0 <= s < stack.len() && #[trigger] stack[s] != 0 ==> exists|a: int|
                0 <= a < order.len() && self.is_parent(
                    #[trigger] order[a] as int,
                    stack[s] as int,
                )
        &&& forall|a: int, k: int|
            0 <= a < order.len() && self.valid_slot(#[trigger] order[a] as int, k)
                ==> seen.contains(#[trigger] self.child(order[a] as int, k) as usize)
    }

    /// Walks the tree depth-first from the root: the result is the tree's
    /// preorder, which lists every node once, the root first, each parent
    /// before its children and siblings in their order.
    pub fn walk_order(&self) -> (order: Vec<usize>)
        requires
            self.wf(),
        ensures
            self.is_walk(order@),
            order@ == self.preorder(0),
    {
        let n = self.nodes.len();
        let mut order: Vec<usize> = Vec::new();
        let mut stack: Vec<usize> = Vec::new();
        stack.push(0);
        let ghost mut seen: Set<usize> = set![0usize];
        proof {
            assert(stack@.drop_last() =~= Seq::<usize>::empty());
            assert(stack@.last() == 0);
            assert(self.pending(stack@.drop_last()) =~= Seq::<usize>::empty());
            assert(self.pending(stack@) =~= self.preorder(0));
            assert(seen.len() == 1) by {
                assert(seen =~= Set::<usize>::empty().insert(0usize));
            }
            assert forall|x: usize| #[trigger] seen.contains(x) <==> stack@.contains(x) by {
                if x == 0 {
                    assert(stack@[0] == x);
                }
            }
        }
        while stack.len() > 0
            invariant
                self.wf(),
                n == self.size(),
                self.walk_inv(order@, stack@, seen),
                order@.len() + stack@.len() <= n,
                order@ + self.pending(stack@) == self.preorder(0),
            decreases n - order@.len(),
        {
            let ghost o0 = order@;
            let ghost s0 = stack@;
            let ghost seen0 = seen;
            let t = stack.pop().unwrap();
            let ghost base = stack@;
            proof {
                assert(s0 =~= base.push(t));
                assert(s0.drop_last() =~= base);
                assert(self.pending(s0) == self.preorder(t as int) + self.pending(base));
                assert(s0.contains(t));
                assert(!o0.contains(t));
                assert(!base.contains(t)) by {
                    if base.contains(t) {
                        let s = choose|s: int| 0 <= s < base.len() && base[s] == t;
                        assert(s0[s] == s0[s0.len() - 1]);
                    }
                }
            }
            order.push(t);
            let ch = &self.children[t];
            let clen = ch.len();
            proof {
                assert(ch@ == self.kids(t as int));
                assert forall|k: int| 0 <= k < clen implies !seen0.contains(#[trigger] ch@[k]) by {
                    let c = ch@[k];
                    assert(self.valid_slot(t as int, k));
                    assert(self.is_parent(t as int, c as int));
                    assert(t < c);
                    if o0.contains(c) {
                        let b = choose|b: int| 0 <= b < o0.len() && o0[b] == c;
                        let a = choose|a: int|
                            0 <= a < b && self.is_parent(#[trigger] o0[a] as int, o0[b] as int);
                        self.lemma_one_parent(o0[a] as int, t as int, c as int);
                        assert(o0.contains(t));
                    }
                    if s0.contains(c) {
                        let s = choose|s: int| 0 <= s < s0.len() && s0[s] == c;
                        let a = choose|a: int|
                            0 <= a < o0.len() && self.is_parent(#[trigger] o0[a] as int, s0[s] as int);
                        self.lemma_one_parent(o0[a] as int, t as int, c as int);
                        assert(o0.contains(t));
                    }
                }
            }
            let mut j: usize = clen;
            while j > 0
                invariant
                    self.wf(),
                    n == self.size(),
                    t < n,
                    ch@ == self.kids(t as int),
                    clen == ch@.len(),
                    j <= clen,
                    stack@.len() == base.len() + (clen - j),
                    forall|m: int| 0 <= m < base.len() ==> stack@[m] == base[m],
                    forall|s: int|
                        base.len() <= s < stack@.len() ==> #[trigger] stack@[s] == ch@[clen - 1 - (s
                            - base.len())],
                    stack@.no_duplicates(),
                    seen.finite(),
                    seen.len() == seen0.len() + (clen - j),
                    forall|x: usize| #[trigger] stack@.contains(x) ==> seen.contains(x),
                    forall|x: usize|
                        #[trigger] seen.contains(x) <==> (seen0.contains(x) || exists|k: int|
                            j <= k < clen && ch@[k] == x),
                    forall|k: int| 0 <= k < clen ==> !seen0.contains(#[trigger] ch@[k]),
                    self.pending(stack@) == self.forest(t as int, j as int) + self.pending(base),
                decreases j,
            {
                j = j - 1;
                let c = ch[j];
                proof {
                    assert(!seen.contains(c)) by {
                        if seen.contains(c) {
                            if !seen0.contains(c) {
                                let k = choose|k: int| j + 1 <= k < clen && ch@[k] == c;
                                assert(self.valid_slot(t as int, k));
                                assert(self.valid_slot(t as int, j as int));
                                assert(self.child(t as int, k) == self.child(t as int, j as int));
                            }
                        }
                    }
                }
                let ghost sp = stack@;
                let ghost seen_prev = seen;
                stack.push(c);
                proof {
                    seen = seen.insert(c);
                    assert(stack@ == sp.push(c));
                    assert(stack@.drop_last() =~= sp);
                    assert(self.valid_slot(t as int, j as int));
                    assert(self.child(t as int, j as int) == c);
                    assert(self.forest(t as int, j as int) == self.preorder(c as int) + self.forest(
                        t as int,
                        j + 1,
                    ));
                    assert(self.pending(stack@) =~= self.forest(t as int, j as int) + self.pending(
                        base,
                    ));
                    assert(!sp.contains(c));
                    assert forall|x: usize| #[trigger] stack@.contains(x) implies seen.contains(x) by {
                        if x != c {
                            let s = choose|s: int| 0 <= s < stack@.len() && stack@[s] == x;
                            assert(sp[s] == x);
                            assert(sp.contains(x));
                        }
                    }
                    assert(stack@.no_duplicates()) by {
                        assert forall|a: int, b: int|
                            0 <= a < stack@.len() && 0 <= b < stack@.len() && a != b implies stack@[a]
                            != stack@[b] by {
                            if a < sp.len() && b < sp.len() {
                                assert(sp[a] != sp[b]);
                            } else if a < sp.len() {
                                assert(sp.contains(sp[a]));
                            } else if b < sp.len() {
                                assert(sp.contains(sp[b]));
                            }
                        }
                    }
                    assert forall|x: usize| #[trigger] seen.contains(x) <==> (seen0.contains(x)
                        || exists|k: int| j <= k < clen && ch@[k] == x) by {
                        if x == c {
                            assert(ch@[j as int] == x);
                        } else if exists|k: int| j <= k < clen && ch@[k] == x {
                            let k = choose|k: int| j <= k < clen && ch@[k] == x;
                            assert(k != j);
                            assert(seen_prev.contains(x));
                        }
                    }
                }
            }
            proof {
                assert(self.pending(stack@) == self.forest(t as int, 0) + self.pending(base));
                assert(self.preorder(t as int) == seq![t] + self.forest(t as int, 0));
                assert(order@ + self.pending(stack@) =~= o0 + self.pending(s0));
                self.lemma_walk_step(o0, s0, seen0, base, t, ch@, order@, stack@, seen);
                lemma_set_bound(seen, n as nat);
            }
        }
        proof {
            assert(order@ + self.pending(stack@) =~= order@);
            assert forall|j: usize| j < n implies #[trigger] order@.contains(j) by {
                self.lemma_closed_walk_covers(order@, j as int);
            }
            lemma_range_set(n as nat);
            let all = Set::new(|x: usize| x < n);
            assert(all.subset_of(seen));
            lemma_len_subset(all, seen);
        }
        order
    }

    /// Taking `t` off the stack, walking it and stacking its children keeps
    /// the walk's invariant.
    proof fn lemma_walk_step(
        self,
        o0: Seq<usize>,
        s0: Seq<usize>,
        seen0: Set<usize>,
        base: Seq<usize>,
        t: usize,
        ch: Seq<usize>,
        order: Seq<usize>,
        stack: Seq<usize>,
        seen: Set<usize>,
    )
        requires
            self.wf(),
            self.walk_inv(o0, s0, seen0),
            s0 == base.push(t),
            !o0.contains(t),
            !base.contains(t),
            order == o0.push(t),
            ch == self.kids(t as int),
            stack.len() == base.len() + ch.len(),
            forall|m: int| 0 <= m < base.len() ==> stack[m] == base[m],
            forall|s: int|
                base.len() <= s < stack.len() ==> #[trigger] stack[s] == ch[ch.len() - 1 - (s
                    - base.len())],
            stack.no_duplicates(),
            seen.finite(),
            seen.len() == seen0.len() + ch.len(),
            forall|x: usize|
                #[trigger] seen.contains(x) <==> (seen0.contains(x) || exists|k: int|
                    0 <= k < ch.len() && ch[k] == x),
            forall|k: int| 0 <= k < ch.len() ==> !seen0.contains(#[trigger] ch[k]),
        ensures
            self.walk_inv(order, stack, seen),
    {
        let lo = o0.len() as int;
        assert(s0.contains(t)) by {
            assert(s0[s0.len() - 1] == t);
        }
        assert(t < self.size());
        assert forall|k: int| 0 <= k < ch.len() implies t < #[trigger] ch[k] < self.size() by {
            assert(self.valid_slot(t as int, k));
        }
        // where an element of the new stack comes from
        assert forall|x: usize| #[trigger] stack.contains(x) <==> (base.contains(x) || exists|k: int|
            0 <= k < ch.len() && ch[k] == x) by {
            if stack.contains(x) {
                let s = choose|s: int| 0 <= s < stack.len() && stack[s] == x;
                if s >= base.len() {
                    assert(ch[ch.len() - 1 - (s - base.len())] == x);
                } else {
                    assert(base[s] == x);
                }
            }
            if base.contains(x) {
                let s = choose|s: int| 0 <= s < base.len() && base[s] == x;
                assert(stack[s] == x);
            }
            if exists|k: int| 0 <= k < ch.len() && ch[k] == x {
                let k = choose|k: int| 0 <= k < ch.len() && ch[k] == x;
                let s = base.len() + (ch.len() - 1 - k);
                assert(stack[s] == x);
            }
        }
        assert forall|x: usize| #[trigger] base.contains(x) implies s0.contains(x) by {
            let s = choose|s: int| 0 <= s < base.len() && base[s] == x;
            assert(s0[s] == x);
        }
        assert forall|x: usize| #[trigger] order.contains(x) <==> (o0.contains(x) || x == t) by {
            if order.contains(x) {
                let a = choose|a: int| 0 <= a < order.len() && order[a] == x;
                if a < lo {
                    assert(o0[a] == x);
                }
            }
            if o0.contains(x) {
                let a = choose|a: int| 0 <= a < o0.len() && o0[a] == x;
                assert(order[a] == x);
            }
            if x == t {
                assert(order[lo] == x);
            }
        }
        assert forall|x: usize| #[trigger] s0.contains(x) <==> (base.contains(x) || x == t) by {
            if s0.contains(x) {
                let s = choose|s: int| 0 <= s < s0.len() && s0[s] == x;
                if s < base.len() {
                    assert(base[s] == x);
                }
            }
        }
        assert(order.no_duplicates()) by {
            assert forall|a: int, b: int|
                0 <= a < order.len() && 0 <= b < order.len() && a != b implies order[a]
                != order[b] by {
                if a < lo && b < lo {
                    assert(o0[a] != o0[b]);
                } else if a < lo {
                    assert(o0.contains(order[a]));
                } else if b < lo {
                    assert(o0.contains(order[b]));
                }
            }
        }
        assert forall|x: usize| #[trigger] stack.contains(x) implies !order.contains(x) by {
            if base.contains(x) {
                assert(s0.contains(x));
            } else {
                let k = choose|k: int| 0 <= k < ch.len() && ch[k] == x;
                assert(!seen0.contains(ch[k]));
            }
        }
        assert forall|a: int, b: int|
            0 <= a < order.len() && 0 <= b < order.len() && self.is_parent(
                #[trigger] order[a] as int,
                #[trigger] order[b] as int,
            ) implies a < b by {
            if a < lo && b < lo {
                assert(o0[a] == order[a] && o0[b] == order[b]);
            } else if a == lo && b == lo {
                let k = choose|k: int| self.valid_slot(t as int, k) && #[trigger] self.child(t as int, k) == t;
            } else if a == lo {
                assert(o0[b] == order[b]);
                let k = choose|k: int| self.valid_slot(t as int, k) && #[trigger] self.child(t as int, k) == o0[b];
                let a2 = choose|a2: int|
                    0 <= a2 < b && self.is_parent(#[trigger] o0[a2] as int, o0[b] as int);
                self.lemma_one_parent(o0[a2] as int, t as int, o0[b] as int);
                assert(o0.contains(t));
            }
        }
        assert forall|b: int| 0 <= b < order.len() && #[trigger] order[b] != 0 implies exists|a: int|
            0 <= a < b && self.is_parent(#[trigger] order[a] as int, order[b] as int) by {
            if b < lo {
                assert(o0[b] == order[b]);
                let a = choose|a: int|
                    0 <= a < b && self.is_parent(#[trigger] o0[a] as int, o0[b] as int);
                assert(order[a] == o0[a]);
            } else {
                let s = s0.len() - 1;
                assert(s0[s] == t);
                let a = choose|a: int|
                    0 <= a < o0.len() && self.is_parent(#[trigger] o0[a] as int, s0[s] as int);
                assert(order[a] == o0[a]);
            }
        }
        assert forall|s: int| 0 <= s < stack.len() && #[trigger] stack[s] != 0 implies exists|a: int|
            0 <= a < order.len() && self.is_parent(#[trigger] order[a] as int, stack[s] as int) by {
            if s < base.len() {
                assert(s0[s] == stack[s]);
                let a = choose|a: int|
                    0 <= a < o0.len() && self.is_parent(#[trigger] o0[a] as int, s0[s] as int);
                assert(order[a] == o0[a]);
            } else {
                let k = ch.len() - 1 - (s - base.len());
                assert(stack[s] == ch[k]);
                assert(self.valid_slot(t as int, k) && self.child(t as int, k) == stack[s]);
                assert(order[lo] == t);
                assert(self.is_parent(order[lo] as int, stack[s] as int));
            }
        }
        assert forall|a: int, k: int|
            0 <= a < order.len() && self.valid_slot(#[trigger] order[a] as int, k) implies seen.contains(
                #[trigger] self.child(order[a] as int, k) as usize,
            ) by {
            if a < lo {
                assert(o0[a] == order[a]);
                assert(seen0.contains(self.child(o0[a] as int, k) as usize));
            } else {
                assert(ch[k] == self.child(t as int, k));
            }
        }
        if o0.len() == 0 {
            assert(base.len() == 0);
        } else {
            assert(order[0] == o0[0]);
        }
    }

    /// A node has one parent at most.
    proof fn lemma_one_parent(self, i1: int, i2: int, j: int)
        requires
            self.wf(),
            self.is_parent(i1, j),
            self.is_parent(i2, j),
        ensures
            i1 == i2,
    {
        let k1 = choose|k: int| self.valid_slot(i1, k) && #[trigger] self.child(i1, k) == j;
        let k2 = choose|k: int| self.valid_slot(i2, k) && #[trigger] self.child(i2, k) == j;
        assert(self.child(i1, k1) == self.child(i2, k2));
    }

    /// Where the children of every walked node were walked, and the root
    /// was, every node was.
    proof fn lemma_closed_walk_covers(self, order: Seq<usize>, j: int)
        requires
            self.wf(),
            order.contains(0usize),
            forall|a: int, k: int|
                0 <= a < order.len() && self.valid_slot(#[trigger] order[a] as int, k)
                    ==> order.contains(#[trigger] self.child(order[a] as int, k) as usize),
            0 <= j < self.size(),
        ensures
            order.contains(j as usize),
        decreases j,
    {
        if j > 0 {
            assert(self.has_parent(j));
            let i = choose|i: int| #[trigger] self.is_parent(i, j);
            let k = choose|k: int| self.valid_slot(i, k) && #[trigger] self.child(i, k) == j;
            self.lemma_closed_walk_covers(order, i);
            let a = choose|a: int| 0 <= a < order.len() && order[a] == i as usize;
            assert(self.valid_slot(order[a] as int, k));
        }
    }
}

/// A set of indices below `n` has at most `n` elements.
proof fn lemma_set_bound(s: Set<usize>, n: nat)
    requires
        s.finite(),
        forall|x: usize| #[trigger] s.contains(x) ==> x < n,
    ensures
        s.len() <= n,
    decreases n,
{
    if n == 0 {
        assert(s =~= Set::<usize>::empty());
    } else {
        let s2 = s.remove((n - 1) as usize);
        lemma_set_bound(s2, (n - 1) as nat);
    }
}

/// The indices below `n` are `n` in number.
proof fn lemma_range_set(n: nat)
    requires
        n <= usize::MAX,
    ensures
        Set::new(|x: usize| x < n).finite(),
        Set::new(|x: usize| x < n).len() == n,
    decreases n,
{
    if n > 0 {
        lemma_range_set((n - 1) as nat);
        let lo = Set::new(|x: usize| x < n - 1);
        assert(Set::new(|x: usize| x < n) =~= lo.insert((n - 1) as usize));
    } else {
        assert(Set::new(|x: usize| x < n) =~= Set::<usize>::empty());
    }
}

} // verus!
