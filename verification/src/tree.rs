//! The entity tree, kept as its own pre-order traversal.

use crate::entity::Entity;
use vstd::prelude::*;

verus! {

/// One entry of the traversal: an entity and how far below the root it sits.
#[derive(Clone, Copy, Debug, PartialEq, Eq, Structural)]
pub struct Node {
    pub entity: Entity,
    pub depth: usize,
}

/// Why a structural change was refused.
#[derive(Clone, Copy, Debug, PartialEq, Eq, Structural)]
pub enum TreeError {
    /// The entity named is not in the tree.
    NotFound,
    /// The entity to insert is already in the tree, or is the null sentinel.
    Occupied,
    /// The root cannot be removed.
    Root,
}

/// A traversal describes a tree: it starts with the root at depth 0, every
/// later entry lies at most one level below the entry before it, and no
/// entity occurs twice.
pub open spec fn well_formed(s: Seq<Node>) -> bool {
    &&& s.len() >= 1
    &&& s[0] == (Node { entity: Entity::root(), depth: 0 })
    &&& forall|i: int, j: int|
        0 <= i && j == i + 1 && j < s.len() ==> descends(#[trigger] s[i], #[trigger] s[j])
    &&& forall|i: int| 0 <= i < s.len() ==> (#[trigger] s[i]).entity != Entity::null()
    &&& forall|i: int, j: int|
        0 <= i < j < s.len() ==> (#[trigger] s[i]).entity != (#[trigger] s[j]).entity
}

/// Whether `b` may follow `a` in a traversal: it lies below the root and at
/// most one level below `a`.
pub open spec fn descends(a: Node, b: Node) -> bool {
    1 <= b.depth <= a.depth + 1
}

/// Whether `e` occurs in the traversal.
pub open spec fn occurs(s: Seq<Node>, e: Entity) -> bool {
    exists|i: int| 0 <= i < s.len() && (#[trigger] s[i]).entity == e
}

/// The position of `e` in the traversal.
pub open spec fn position(s: Seq<Node>, e: Entity) -> int {
    choose|i: int| 0 <= i < s.len() && (#[trigger] s[i]).entity == e
}

/// The nearest position at or before `j` that lies above depth `d`, or -1.
pub open spec fn nearest_above(s: Seq<Node>, j: int, d: int) -> int
    decreases j + 1,
{
    if j < 0 || j >= s.len() {
        -1
    } else if s[j].depth < d {
        j
    } else {
        nearest_above(s, j - 1, d)
    }
}

/// The position of the parent of the entry at `i`, or -1 for the root.
pub open spec fn parent_position(s: Seq<Node>, i: int) -> int {
    if 0 <= i < s.len() {
        nearest_above(s, i - 1, s[i].depth as int)
    } else {
        -1
    }
}

/// The first position at or after `k` that does not lie below depth `d`, or
/// the length of the traversal.
pub open spec fn block_end(s: Seq<Node>, k: int, d: int) -> int
    decreases s.len() - k,
{
    if k < 0 || k >= s.len() {
        s.len() as int
    } else if s[k].depth <= d {
        k
    } else {
        block_end(s, k + 1, d)
    }
}

/// One past the last position of the subtree rooted at `i`.
pub open spec fn subtree_end(s: Seq<Node>, i: int) -> int {
    if 0 <= i < s.len() {
        block_end(s, i + 1, s[i].depth as int)
    } else {
        s.len() as int
    }
}

/// The positions from `i` up to the root: `i`, its parent, its parent's
/// parent, and so on.
pub open spec fn chain(s: Seq<Node>, i: int) -> Seq<int>
    decreases i + 1,
    via chain_decreases
{
    if i <= 0 || i >= s.len() {
        seq![0int]
    } else {
        seq![i] + chain(s, parent_position(s, i))
    }
}

#[via_fn]
proof fn chain_decreases(s: Seq<Node>, i: int) {
    if 0 < i < s.len() {
        lemma_nearest_above(s, i - 1, s[i].depth as int);
    }
}

/// The entities at the given positions.
pub open spec fn entities_at(s: Seq<Node>, at: Seq<int>) -> Seq<Entity> {
    Seq::new(at.len(), |k: int| s[at[k]].entity)
}

/// The ancestor chain of `e`, itself included, from `e` up to the root;
/// empty where `e` is not in the tree.
pub open spec fn ancestors(s: Seq<Node>, e: Entity) -> Seq<Entity> {
    if occurs(s, e) {
        entities_at(s, chain(s, position(s, e)))
    } else {
        Seq::empty()
    }
}

/// The entities of the traversal, in order.
pub open spec fn entities(s: Seq<Node>) -> Seq<Entity> {
    Seq::new(s.len(), |k: int| s[k].entity)
}

/// The children of the entry whose subtree starts just before `k` and lies
/// below depth `d`: the entries exactly one level below, in order.
pub open spec fn children_from(s: Seq<Node>, k: int, d: int) -> Seq<Entity>
    decreases s.len() - k,
{
    if k < 0 || k >= s.len() || s[k].depth <= d {
        Seq::empty()
    } else if s[k].depth == d + 1 {
        seq![s[k].entity] + children_from(s, k + 1, d)
    } else {
        children_from(s, k + 1, d)
    }
}

/// The children of `e` in order; empty where `e` is not in the tree.
pub open spec fn children(s: Seq<Node>, e: Entity) -> Seq<Entity> {
    if occurs(s, e) {
        children_from(s, position(s, e) + 1, s[position(s, e)].depth as int)
    } else {
        Seq::empty()
    }
}

/// The traversal without the positions from `i` up to `j`.
pub open spec fn without_block(s: Seq<Node>, i: int, j: int) -> Seq<Node> {
    s.subrange(0, i) + s.subrange(j, s.len() as int)
}

pub proof fn lemma_position(s: Seq<Node>, i: int)
    requires
        well_formed(s),
        0 <= i < s.len(),
    ensures
        occurs(s, s[i].entity),
        position(s, s[i].entity) == i,
{
    let p = position(s, s[i].entity);
    if p < i {
        assert(s[p].entity != s[i].entity);
    } else if i < p {
        assert(s[i].entity != s[p].entity);
    }
}

/// No entry lies deeper than its position.
pub proof fn lemma_depth_bound(s: Seq<Node>, i: int)
    requires
        well_formed(s),
        0 <= i < s.len(),
    ensures
        s[i].depth <= i,
    decreases i,
{
    if i > 0 {
        lemma_depth_bound(s, i - 1);
        assert(descends(s[i - 1], s[i]));
    }
}

/// What `nearest_above` finds: a position above depth `d`, with nothing
/// above that depth after it.
pub proof fn lemma_nearest_above(s: Seq<Node>, j: int, d: int)
    requires
        -1 <= j < s.len(),
    ensures
        -1 <= nearest_above(s, j, d) <= j,
        nearest_above(s, j, d) >= 0 ==> s[nearest_above(s, j, d)].depth < d,
        forall|k: int| nearest_above(s, j, d) < k <= j ==> (#[trigger] s[k]).depth >= d,
    decreases j + 1,
{
    if j >= 0 && s[j].depth >= d {
        lemma_nearest_above(s, j - 1, d);
    }
}

/// Every entry but the root has a parent, which lies exactly one level above.
pub proof fn lemma_parent(s: Seq<Node>, i: int)
    requires
        well_formed(s),
        1 <= i < s.len(),
    ensures
        0 <= parent_position(s, i) < i,
        s[parent_position(s, i)].depth + 1 == s[i].depth,
{
    let d = s[i].depth as int;
    lemma_nearest_above(s, i - 1, d);
    let p = nearest_above(s, i - 1, d);
    assert(descends(s[i - 1], s[i]));
    if p < 0 {
        assert(s[0].depth >= d);
    } else {
        assert(s[p + 1].depth >= d);
        assert(descends(s[p], s[p + 1]));
    }
}

/// What `block_end` finds: everything from `k` up to it lies below depth
/// `d`, and the entry at it, if any, does not.
pub proof fn lemma_block_end(s: Seq<Node>, k: int, d: int)
    requires
        0 <= k <= s.len(),
    ensures
        k <= block_end(s, k, d) <= s.len(),
        block_end(s, k, d) < s.len() ==> s[block_end(s, k, d)].depth <= d,
        forall|m: int| k <= m < block_end(s, k, d) ==> (#[trigger] s[m]).depth > d,
    decreases s.len() - k,
{
    if k < s.len() && s[k].depth > d {
        lemma_block_end(s, k + 1, d);
    }
}

/// The parent of `e`; none for the root and for an entity not in the tree.
pub open spec fn parent(s: Seq<Node>, e: Entity) -> Option<Entity> {
    if occurs(s, e) && e != Entity::root() {
        Some(s[parent_position(s, position(s, e))].entity)
    } else {
        None
    }
}

/// The tree of live entities. Its view is the pre-order traversal, each
/// entity with its depth.
pub struct Tree {
    nodes: Vec<Node>,
}

impl View for Tree {
    type V = Seq<Node>;

    closed spec fn view(&self) -> Seq<Node> {
        self.nodes@
    }
}

impl Tree {
    pub open spec fn wf(&self) -> bool {
        well_formed(self@)
    }

    /// A tree that holds the root alone.
    pub fn new() -> (t: Tree)
        ensures
            t.wf(),
            t@ == seq![Node { entity: Entity::root(), depth: 0 }],
    {
        let mut nodes: Vec<Node> = Vec::new();
        nodes.push(Node { entity: Entity::root(), depth: 0 });
        Tree { nodes }
    }

    /// The number of entities in the tree.
    pub fn len(&self) -> (n: usize)
        ensures
            n == self@.len(),
    {
        self.nodes.len()
    }

    fn find(&self, e: Entity) -> (r: Option<usize>)
        ensures
            match r {
                Some(i) => i < self@.len() && self@[i as int].entity == e,
                None => !occurs(self@, e),
            },
    {
        let mut i: usize = 0;
        while i < self.nodes.len()
            invariant
                i <= self.nodes.len(),
                forall|k: int| 0 <= k < i ==> (#[trigger] self.nodes@[k]).entity != e,
            decreases self.nodes.len() - i,
        {
            if self.nodes[i].entity == e {
                return Some(i);
            }
            i += 1;
        }
        None
    }

    fn parent_index(&self, i: usize) -> (p: usize)
        requires
            self.wf(),
            1 <= i < self@.len(),
        ensures
            p == parent_position(self@, i as int),
            p < i,
    {
        let d: usize = self.nodes[i].depth;
        assert(descends(self@[i - 1], self@[i as int]));
        let mut j: usize = i - 1;
        while self.nodes[j].depth >= d
            invariant
                self.wf(),
                j < i < self.nodes.len(),
                d == self.nodes@[i as int].depth,
                d >= 1,
                nearest_above(self@, j as int, d as int) == nearest_above(
                    self@,
                    i - 1,
                    d as int,
                ),
            decreases j,
        {
            j -= 1;
        }
        j
    }

    fn subtree_bound(&self, i: usize) -> (k: usize)
        requires
            i < self@.len(),
        ensures
            k == subtree_end(self@, i as int),
            i < k <= self@.len(),
    {
        let n: usize = self.nodes.len();
        let d: usize = self.nodes[i].depth;
        let mut k: usize = i + 1;
        while k < n && self.nodes[k].depth > d
            invariant
                n == self.nodes.len(),
                i < k <= n,
                block_end(self@, k as int, d as int) == block_end(self@, i + 1, d as int),
            decreases self.nodes.len() - k,
        {
            k += 1;
        }
        k
    }

    /// Whether `e` is in the tree.
    pub fn contains(&self, e: Entity) -> (b: bool)
        ensures
            b == occurs(self@, e),
    {
        self.find(e).is_some()
    }

    /// A snapshot of the pre-order traversal. The tree may change while
    /// the snapshot is walked.
    pub fn iter(&self) -> (v: Vec<Entity>)
        ensures
            v@ == entities(self@),
    {
        let mut out: Vec<Entity> = Vec::new();
        let mut k: usize = 0;
        while k < self.nodes.len()
            invariant
                k <= self.nodes.len(),
                out@ == entities(self@.subrange(0, k as int)),
            decreases self.nodes.len() - k,
        {
            out.push(self.nodes[k].entity);
            k += 1;
            assert(out@ =~= entities(self@.subrange(0, k as int)));
        }
        assert(self@.subrange(0, k as int) =~= self@);
        out
    }

    /// The parent of `e`.
    pub fn parent_of(&self, e: Entity) -> (r: Option<Entity>)
        requires
            self.wf(),
        ensures
            r == parent(self@, e),
    {
        match self.find(e) {
            None => None,
            Some(i) => {
                proof {
                    lemma_position(self@, i as int);
                }
                if i == 0 {
                    None
                } else {
                    let p = self.parent_index(i);
                    Some(self.nodes[p].entity)
                }
            },
        }
    }

    /// The ancestor chain of `e`, from `e` itself up to the root.
    pub fn ancestors(&self, e: Entity) -> (v: Vec<Entity>)
        requires
            self.wf(),
        ensures
            v@ == ancestors(self@, e),
    {
        let mut out: Vec<Entity> = Vec::new();
        match self.find(e) {
            None => out,
            Some(i) => {
                proof {
                    lemma_position(self@, i as int);
                }
                let mut cur: usize = i;
                while cur > 0
                    invariant
                        self.wf(),
                        cur < self.nodes.len(),
                        out@ + entities_at(self@, chain(self@, cur as int)) == entities_at(
                            self@,
                            chain(self@, i as int),
                        ),
                    decreases cur,
                {
                    let p = self.parent_index(cur);
                    proof {
                        assert(out@.push(self@[cur as int].entity) + entities_at(
                            self@,
                            chain(self@, p as int),
                        ) =~= out@ + entities_at(self@, chain(self@, cur as int)));
                    }
                    out.push(self.nodes[cur].entity);
                    cur = p;
                }
                proof {
                    assert(out@.push(self@[0].entity) =~= out@ + entities_at(
                        self@,
                        chain(self@, 0),
                    ));
                }
                out.push(self.nodes[0].entity);
                out
            },
        }
    }

    /// The children of `e`, in order.
    pub fn children_of(&self, e: Entity) -> (v: Vec<Entity>)
        requires
            self.wf(),
        ensures
            v@ == children(self@, e),
    {
        let mut out: Vec<Entity> = Vec::new();
        match self.find(e) {
            None => out,
            Some(i) => {
                proof {
                    lemma_position(self@, i as int);
                }
                let n: usize = self.nodes.len();
                let d: usize = self.nodes[i].depth;
                let mut k: usize = i + 1;
                while k < n && self.nodes[k].depth > d
                    invariant
                        n == self.nodes.len(),
                        i < k <= n,
                        out@ + children_from(self@, k as int, d as int) == children_from(
                            self@,
                            i + 1,
                            d as int,
                        ),
                    decreases self.nodes.len() - k,
                {
                    proof {
                        if self@[k as int].depth == d + 1 {
                            assert(out@.push(self@[k as int].entity) + children_from(
                                self@,
                                k + 1,
                                d as int,
                            ) =~= out@ + children_from(self@, k as int, d as int));
                        }
                    }
                    if self.nodes[k].depth - 1 == d {
                        out.push(self.nodes[k].entity);
                    }
                    k += 1;
                }
                assert(out@ + children_from(self@, k as int, d as int) =~= out@);
                out
            },
        }
    }

    /// The entity on top under the pointer: the last entity of the
    /// traversal, which is the order of painting, whose bounds hold the
    /// pointer. `inside[k]` says whether the bounds of the entity at
    /// position `k` of the traversal do; positions that `inside` does not
    /// reach count as outside.
    pub fn hit(&self, inside: &Vec<bool>) -> (r: Option<Entity>)
        ensures
            r == topmost(self@, inside@),
            match r {
                Some(e) => exists|k: int|
                    0 <= k < self@.len() && k < inside@.len() && inside@[k] && (
                    #[trigger] self@[k]).entity == e && forall|m: int|
                        k < m < self@.len() && m < inside@.len() ==> !#[trigger] inside@[m],
                None => forall|m: int|
                    0 <= m < self@.len() && m < inside@.len() ==> !#[trigger] inside@[m],
            },
    {
        let n: usize = if inside.len() < self.nodes.len() {
            inside.len()
        } else {
            self.nodes.len()
        };
        let mut found: Option<Entity> = None;
        let mut k: usize = 0;
        while k < n
            invariant
                k <= n,
                n <= inside.len(),
                n <= self.nodes.len(),
                found == topmost_upto(self@, inside@, k as int),
                match found {
                    Some(e) => exists|j: int|
                        0 <= j < k && inside@[j] && (#[trigger] self@[j]).entity == e && forall|
                            m: int,
                        |
                            j < m < k ==> !#[trigger] inside@[m],
                    None => forall|m: int| 0 <= m < k ==> !#[trigger] inside@[m],
                },
            decreases n - k,
        {
            if inside[k] {
                found = Some(self.nodes[k].entity);
            }
            k += 1;
        }
        found
    }

    /// Makes `child` the last child of `parent`.
    ///
    /// Refused with `NotFound` where `parent` is not in the tree, and with
    /// `Occupied` where `child` is the null sentinel or already in the tree;
    /// the tree is then unchanged.
    pub fn insert(&mut self, parent: Entity, child: Entity) -> (r: Result<(), TreeError>)
        requires
            old(self).wf(),
        ensures
            final(self).wf(),
            r == insert_outcome(old(self)@, parent, child),
            r.is_ok() ==> final(self)@ == with_child(old(self)@, parent, child),
            r.is_err() ==> final(self)@ == old(self)@,
    {
        match self.find(parent) {
            None => Err(TreeError::NotFound),
            Some(i) => {
                if child.is_null() || self.contains(child) {
                    return Err(TreeError::Occupied);
                }
                let end = self.subtree_bound(i);
                proof {
                    lemma_position(self@, i as int);
                    lemma_depth_bound(self@, i as int);
                    lemma_with_child(self@, i as int, child);
                }
                let depth: usize = self.nodes[i].depth + 1;
                self.nodes.insert(end, Node { entity: child, depth });
                Ok(())
            },
        }
    }

    /// Takes `e` and all its descendants out of the tree and returns them
    /// in traversal order.
    ///
    /// Refused with `NotFound` where `e` is not in the tree, and with `Root`
    /// for the root; the tree is then unchanged.
    pub fn remove(&mut self, e: Entity) -> (r: Result<Vec<Entity>, TreeError>)
        requires
            old(self).wf(),
        ensures
            final(self).wf(),
            match r {
                Ok(gone) => {
                    &&& occurs(old(self)@, e)
                    &&& e != Entity::root()
                    &&& gone@ == subtree(old(self)@, e)
                    &&& !gone@.contains(Entity::root())
                    &&& final(self)@ == without_subtree(old(self)@, e)
                },
                Err(err) => {
                    &&& final(self)@ == old(self)@
                    &&& err == TreeError::NotFound <==> !occurs(old(self)@, e)
                    &&& err == TreeError::Root <==> e == Entity::root()
                    &&& err != TreeError::Occupied
                },
            },
    {
        match self.find(e) {
            None => Err(TreeError::NotFound),
            Some(i) => {
                proof {
                    lemma_position(self@, i as int);
                    lemma_position(self@, 0);
                }
                if i == 0 {
                    return Err(TreeError::Root);
                }
                let end = self.subtree_bound(i);
                proof {
                    lemma_without_block(self@, i as int);
                }
                let mut tail = self.nodes.split_off(end);
                let block = self.nodes.split_off(i);
                self.nodes.append(&mut tail);
                assert(self.nodes@ =~= without_block(old(self)@, i as int, end as int));
                assert(block@ =~= old(self)@.subrange(i as int, end as int));
                let mut gone: Vec<Entity> = Vec::new();
                let mut k: usize = 0;
                while k < block.len()
                    invariant
                        k <= block.len(),
                        gone@ == entities(block@.subrange(0, k as int)),
                    decreases block.len() - k,
                {
                    gone.push(block[k].entity);
                    k += 1;
                    assert(gone@ =~= entities(block@.subrange(0, k as int)));
                }
                assert(block@.subrange(0, k as int) =~= block@);
                assert(!gone@.contains(Entity::root())) by {
                    if gone@.contains(Entity::root()) {
                        let j = choose|j: int| 0 <= j < gone@.len() && gone@[j] == Entity::root();
                        assert(old(self)@[i + j].entity == old(self)@[0].entity);
                    }
                }
                Ok(gone)
            },
        }
    }
}

/// The last entity among the first `n` of the traversal that `inside` marks.
pub open spec fn topmost_upto(s: Seq<Node>, inside: Seq<bool>, n: int) -> Option<Entity>
    decreases n,
{
    if n <= 0 {
        None
    } else if n <= s.len() && n <= inside.len() && inside[n - 1] {
        Some(s[n - 1].entity)
    } else {
        topmost_upto(s, inside, n - 1)
    }
}

/// The last entity of the traversal that `inside` marks.
pub open spec fn topmost(s: Seq<Node>, inside: Seq<bool>) -> Option<Entity> {
    topmost_upto(s, inside, if inside.len() < s.len() { inside.len() as int } else { s.len() as int })
}

/// What `insert` answers: whether the new child can be placed.
pub open spec fn insert_outcome(s: Seq<Node>, parent: Entity, child: Entity) -> Result<
    (),
    TreeError,
> {
    if !occurs(s, parent) {
        Err(TreeError::NotFound)
    } else if child == Entity::null() || occurs(s, child) {
        Err(TreeError::Occupied)
    } else {
        Ok(())
    }
}

/// The traversal with `child` added after the subtree of `parent`, one
/// level below `parent`.
pub open spec fn with_child(s: Seq<Node>, parent: Entity, child: Entity) -> Seq<Node> {
    let i = position(s, parent);
    s.insert(subtree_end(s, i), Node { entity: child, depth: (s[i].depth + 1) as usize })
}

/// The entities of the subtree rooted at `e`, in traversal order.
pub open spec fn subtree(s: Seq<Node>, e: Entity) -> Seq<Entity> {
    let i = position(s, e);
    entities(s.subrange(i, subtree_end(s, i)))
}

/// The traversal without the subtree rooted at `e`.
pub open spec fn without_subtree(s: Seq<Node>, e: Entity) -> Seq<Node> {
    let i = position(s, e);
    without_block(s, i, subtree_end(s, i))
}

/// Adding a new entity below the entry at `i` leaves a tree.
pub proof fn lemma_with_child(s: Seq<Node>, i: int, child: Entity)
    requires
        well_formed(s),
        0 <= i < s.len(),
        child != Entity::null(),
        !occurs(s, child),
        s[i].depth < usize::MAX,
    ensures
        well_formed(with_child(s, s[i].entity, child)),
{
    lemma_position(s, i);
    let d = s[i].depth as int;
    lemma_block_end(s, i + 1, d);
    let end = subtree_end(s, i);
    let t = with_child(s, s[i].entity, child);
    assert(s[end - 1].depth >= d);
    assert forall|k: int, m: int| 0 <= k && m == k + 1 && m < t.len() implies descends(
        #[trigger] t[k],
        #[trigger] t[m],
    ) by {
        if m < end {
            assert(descends(s[k], s[m]));
        } else if m == end {
            assert(t[k] == s[end - 1]);
        } else if k == end {
            assert(t[m] == s[end]);
            assert(s[end].depth >= 1) by {
                assert(descends(s[end - 1], s[end]));
            }
        } else {
            assert(t[k] == s[k - 1]);
            assert(t[m] == s[k]);
            assert(descends(s[k - 1], s[k]));
        }
    }
    assert forall|a: int, b: int| 0 <= a < b < t.len() implies (#[trigger] t[a]).entity != (
    #[trigger] t[b]).entity by {
        let a0 = if a < end { a } else { a - 1 };
        let b0 = if b < end { b } else { b - 1 };
        if a != end && b != end {
            assert(s[a0].entity != s[b0].entity);
        } else if a == end {
            assert(s[b0].entity != child);
        } else {
            assert(s[a0].entity != child);
        }
    }
}

/// Taking the subtree at `i` out of a tree leaves a tree.
pub proof fn lemma_without_block(s: Seq<Node>, i: int)
    requires
        well_formed(s),
        1 <= i < s.len(),
    ensures
        well_formed(without_block(s, i, subtree_end(s, i))),
{
    let d = s[i].depth as int;
    lemma_block_end(s, i + 1, d);
    let end = subtree_end(s, i);
    let t = without_block(s, i, end);
    assert forall|k: int, m: int| 0 <= k && m == k + 1 && m < t.len() implies descends(
        #[trigger] t[k],
        #[trigger] t[m],
    ) by {
        if m < i {
            assert(descends(s[k], s[m]));
        } else if m == i {
            assert(t[m] == s[end]);
            assert(t[k] == s[i - 1]);
            assert(descends(s[i - 1], s[i]));
            assert(descends(s[end - 1], s[end]));
        } else {
            assert(t[k] == s[k + end - i]);
            assert(t[m] == s[m + end - i]);
            assert(descends(s[k + end - i], s[m + end - i]));
        }
    }
    assert forall|a: int, b: int| 0 <= a < b < t.len() implies (#[trigger] t[a]).entity != (
    #[trigger] t[b]).entity by {
        let a0 = if a < i { a } else { a + end - i };
        let b0 = if b < i { b } else { b + end - i };
        assert(s[a0].entity != s[b0].entity);
    }
}

/// A chain starts at its own position and ends at the root.
pub proof fn lemma_chain_ends(s: Seq<Node>, i: int)
    requires
        well_formed(s),
        0 <= i < s.len(),
    ensures
        chain(s, i).len() >= 1,
        chain(s, i)[0] == i,
        chain(s, i).last() == 0,
        forall|k: int| 0 <= k < chain(s, i).len() ==> 0 <= #[trigger] chain(s, i)[k] <= i,
    decreases i,
{
    if i > 0 {
        lemma_parent(s, i);
        lemma_chain_ends(s, parent_position(s, i));
    }
}

/// The subtree of the entry at `i` holds exactly the entries whose chain
/// of ancestors passes through `i`.
pub proof fn lemma_subtree_is_descendants(s: Seq<Node>, i: int, k: int)
    requires
        well_formed(s),
        0 <= i < s.len(),
        0 <= k < s.len(),
    ensures
        (i <= k < subtree_end(s, i)) <==> chain(s, k).contains(i),
    decreases k,
{
    let d = s[i].depth as int;
    let end = subtree_end(s, i);
    lemma_block_end(s, i + 1, d);
    lemma_chain_ends(s, k);
    if k < i {
        if chain(s, k).contains(i) {
            let j = choose|j: int| 0 <= j < chain(s, k).len() && chain(s, k)[j] == i;
            assert(chain(s, k)[j] <= k);
        }
    } else if k == i {
        assert(chain(s, k)[0] == i);
    } else {
        let p = parent_position(s, k);
        lemma_parent(s, k);
        lemma_nearest_above(s, k - 1, s[k].depth as int);
        lemma_subtree_is_descendants(s, i, p);
        let rest = chain(s, p);
        assert(chain(s, k) =~= seq![k] + rest);
        assert(chain(s, k).contains(i) <==> rest.contains(i)) by {
            if rest.contains(i) {
                let j = choose|j: int| 0 <= j < rest.len() && rest[j] == i;
                assert(chain(s, k)[j + 1] == i);
            }
            if chain(s, k).contains(i) {
                let j = choose|j: int| 0 <= j < chain(s, k).len() && chain(s, k)[j] == i;
                assert(j > 0);
                assert(rest[j - 1] == i);
            }
        }
        if i <= k < end {
            assert(s[k].depth > d);
            if p < i {
                assert(s[i].depth >= s[k].depth);
            }
        }
        if i <= p < end && k >= end {
            assert(s[end].depth <= d);
            if p > i {
                assert(s[p].depth > d);
            }
            if end < k {
                assert(s[end].depth >= s[k].depth);
            }
        }
    }
}

/// Whether `x` is in the tree and its chain of ancestors leads to the root.
pub open spec fn reachable(s: Seq<Node>, x: Entity) -> bool {
    occurs(s, x) && ancestors(s, x).len() > 0 && ancestors(s, x).last() == Entity::root()
}

/// Every entity in the tree is reachable from the root, and its chain of
/// ancestors starts with the entity itself.
pub proof fn lemma_all_reachable(s: Seq<Node>, x: Entity)
    requires
        well_formed(s),
        occurs(s, x),
    ensures
        reachable(s, x),
        ancestors(s, x)[0] == x,
{
    lemma_chain_ends(s, position(s, x));
}

/// The ancestors of `x` include `e` exactly where the chain of positions of
/// `x` passes through the position of `e`.
pub proof fn lemma_ancestor_positions(s: Seq<Node>, x: Entity, e: Entity)
    requires
        well_formed(s),
        occurs(s, x),
        occurs(s, e),
    ensures
        ancestors(s, x).contains(e) <==> chain(s, position(s, x)).contains(position(s, e)),
{
    let c = chain(s, position(s, x));
    let a = ancestors(s, x);
    let i = position(s, e);
    lemma_chain_ends(s, position(s, x));
    if c.contains(i) {
        let j = choose|j: int| 0 <= j < c.len() && c[j] == i;
        assert(a[j] == e);
    }
    if a.contains(e) {
        let j = choose|j: int| 0 <= j < a.len() && a[j] == e;
        lemma_position(s, c[j]);
        assert(c[j] == i);
    }
}

/// Removal cuts the subtree off: an entity of the tree is gone afterwards
/// exactly where `e` was among its ancestors (itself included), it is then
/// one of the entities handed back and is no longer reachable from the
/// root; what is left is a tree.
pub proof fn lemma_remove_cuts_subtree(s: Seq<Node>, e: Entity, x: Entity)
    requires
        well_formed(s),
        occurs(s, e),
        e != Entity::root(),
        occurs(s, x),
    ensures
        well_formed(without_subtree(s, e)),
        ancestors(s, x).contains(e) <==> !occurs(without_subtree(s, e), x),
        ancestors(s, x).contains(e) <==> subtree(s, e).contains(x),
        ancestors(s, x).contains(e) ==> !reachable(without_subtree(s, e), x),
        !ancestors(s, x).contains(e) ==> reachable(without_subtree(s, e), x),
{
    let i = position(s, e);
    let k = position(s, x);
    let end = subtree_end(s, i);
    let t = without_subtree(s, e);
    lemma_position(s, 0);
    lemma_block_end(s, i + 1, s[i].depth as int);
    lemma_without_block(s, i);
    lemma_ancestor_positions(s, x, e);
    lemma_subtree_is_descendants(s, i, k);
    let sub = subtree(s, e);
    if i <= k < end {
        assert(sub[k - i] == x);
        if occurs(t, x) {
            let j = choose|j: int| 0 <= j < t.len() && (#[trigger] t[j]).entity == x;
            let j0 = if j < i { j } else { j + end - i };
            assert(t[j] == s[j0]);
            lemma_position(s, j0);
        }
    } else {
        let j = if k < i { k } else { k - (end - i) };
        assert(t[j] == s[k]);
        assert(occurs(t, x));
        lemma_all_reachable(t, x);
        if sub.contains(x) {
            let m = choose|m: int| 0 <= m < sub.len() && sub[m] == x;
            lemma_position(s, i + m);
        }
    }
}

/// Where the entry at `a` lies above depth `d` and nothing between `a` and
/// `j` does, `nearest_above` finds `a`.
pub proof fn lemma_nearest_is(s: Seq<Node>, a: int, j: int, d: int)
    requires
        0 <= a <= j < s.len(),
        s[a].depth < d,
        forall|m: int| a < m <= j ==> (#[trigger] s[m]).depth >= d,
    ensures
        nearest_above(s, j, d) == a,
    decreases j - a,
{
    if a < j {
        lemma_nearest_is(s, a, j - 1, d);
    }
}

/// An inserted child has the entity it was inserted under as its parent,
/// and comes last in that entity's subtree.
pub proof fn lemma_insert_places_child(s: Seq<Node>, p: Entity, c: Entity)
    requires
        well_formed(s),
        occurs(s, p),
        c != Entity::null(),
        !occurs(s, c),
        s[position(s, p)].depth < usize::MAX,
    ensures
        well_formed(with_child(s, p, c)),
        occurs(with_child(s, p, c), c),
        parent(with_child(s, p, c), c) == Some(p),
        subtree(with_child(s, p, c), p) == subtree(s, p).push(c),
{
    let i = position(s, p);
    let d = s[i].depth as int;
    let end = subtree_end(s, i);
    let t = with_child(s, p, c);
    lemma_position(s, i);
    lemma_position(s, 0);
    lemma_with_child(s, i, c);
    lemma_block_end(s, i + 1, d);
    assert(t[end].entity == c);
    lemma_position(t, end);
    assert(t[i] == s[i]);
    lemma_position(t, i);
    assert forall|m: int| i < m <= end - 1 implies (#[trigger] t[m]).depth >= d + 1 by {
        assert(t[m] == s[m]);
    }
    lemma_nearest_is(t, i, end - 1, d + 1);
    lemma_block_end(t, i + 1, d);
    assert(subtree_end(t, i) == end + 1) by {
        let e2 = subtree_end(t, i);
        if e2 <= end {
            if e2 < end {
                assert(t[e2] == s[e2]);
            }
        } else if e2 > end + 1 {
            assert(t[end + 1] == s[end]);
        }
    }
    assert(subtree(t, p) =~= subtree(s, p).push(c));
}

/// Removal leaves the rest of the tree as it was: every entity that stays
/// keeps its parent.
pub proof fn lemma_remove_keeps_parents(s: Seq<Node>, e: Entity, x: Entity)
    requires
        well_formed(s),
        occurs(s, e),
        e != Entity::root(),
        occurs(without_subtree(s, e), x),
    ensures
        occurs(s, x),
        parent(without_subtree(s, e), x) == parent(s, x),
{
    let i = position(s, e);
    let end = subtree_end(s, i);
    let t = without_subtree(s, e);
    lemma_position(s, 0);
    lemma_block_end(s, i + 1, s[i].depth as int);
    lemma_without_block(s, i);
    let j = position(t, x);
    let k = if j < i { j } else { j + end - i };
    assert(t[j] == s[k]);
    lemma_position(s, k);
    lemma_position(t, j);
    if k > 0 {
        let d = s[k].depth as int;
        let p = parent_position(s, k);
        lemma_parent(s, k);
        lemma_nearest_above(s, k - 1, d);
        if i <= p < end {
            assert(s[end].depth >= d);
            if p > i {
                assert(s[p].depth > s[i].depth);
            }
        }
        let q = if p < i { p } else { p - (end - i) };
        assert(t[q] == s[p]);
        assert forall|m: int| q < m <= j - 1 implies (#[trigger] t[m]).depth >= d by {
            let m0 = if m < i { m } else { m + end - i };
            assert(t[m] == s[m0]);
        }
        lemma_nearest_is(t, q, j - 1, d);
    } else {
        assert(j == 0);
    }
}

/// Insertion leaves the rest of the tree as it was: every entity that was
/// there keeps its parent.
pub proof fn lemma_insert_keeps_parents(s: Seq<Node>, p: Entity, c: Entity, x: Entity)
    requires
        well_formed(s),
        occurs(s, p),
        c != Entity::null(),
        !occurs(s, c),
        s[position(s, p)].depth < usize::MAX,
        occurs(s, x),
    ensures
        occurs(with_child(s, p, c), x),
        parent(with_child(s, p, c), x) == parent(s, x),
{
    let i = position(s, p);
    let di = s[i].depth as int;
    let end = subtree_end(s, i);
    let t = with_child(s, p, c);
    lemma_position(s, i);
    lemma_position(s, 0);
    lemma_with_child(s, i, c);
    lemma_block_end(s, i + 1, di);
    let k = position(s, x);
    let j = if k < end { k } else { k + 1 };
    assert(t[j] == s[k]);
    lemma_position(t, j);
    if k > 0 {
        let d = s[k].depth as int;
        let a = parent_position(s, k);
        lemma_parent(s, k);
        lemma_nearest_above(s, k - 1, d);
        let q = if a < end { a } else { a + 1 };
        assert(t[q] == s[a]);
        assert forall|m: int| q < m <= j - 1 implies (#[trigger] t[m]).depth >= d by {
            if m < end {
                assert(t[m] == s[m]);
            } else if m == end {
                assert(s[end].depth <= di);
                if end < k {
                    assert(s[end].depth >= d);
                }
            } else {
                assert(t[m] == s[m - 1]);
            }
        }
        lemma_nearest_is(t, q, j - 1, d);
    }
}

/// What `children_from` collects: the entities exactly one level below
/// depth `d` between `k` and the end of the block.
pub proof fn lemma_children_from(s: Seq<Node>, k: int, d: int, x: Entity)
    requires
        0 <= k <= s.len(),
    ensures
        children_from(s, k, d).contains(x) <==> exists|m: int|
            k <= m < block_end(s, k, d) && (#[trigger] s[m]).depth == d + 1 && s[m].entity == x,
    decreases s.len() - k,
{
    let here = children_from(s, k, d);
    if k < s.len() && s[k].depth > d {
        lemma_children_from(s, k + 1, d, x);
        let rest = children_from(s, k + 1, d);
        let end = block_end(s, k, d);
        assert(end == block_end(s, k + 1, d));
        lemma_block_end(s, k + 1, d);
        let found = exists|m: int|
            k <= m < end && (#[trigger] s[m]).depth == d + 1 && s[m].entity == x;
        let found_later = exists|m: int|
            k + 1 <= m < end && (#[trigger] s[m]).depth == d + 1 && s[m].entity == x;
        let first = s[k].depth == d + 1 && s[k].entity == x;
        assert(found <==> (first || found_later)) by {
            if found {
                let m = choose|m: int|
                    k <= m < end && (#[trigger] s[m]).depth == d + 1 && s[m].entity == x;
                if m != k {
                    assert(k + 1 <= m < end && s[m].depth == d + 1 && s[m].entity == x);
                }
            }
            if found_later {
                let m = choose|m: int|
                    k + 1 <= m < end && (#[trigger] s[m]).depth == d + 1 && s[m].entity == x;
                assert(k <= m < end && s[m].depth == d + 1 && s[m].entity == x);
            }
            if first {
                assert(k <= k < end && s[k].depth == d + 1 && s[k].entity == x);
            }
        }
        assert(here.contains(x) <==> (first || rest.contains(x))) by {
            if s[k].depth == d + 1 {
                assert(here =~= seq![s[k].entity] + rest);
                if here.contains(x) {
                    let j = choose|j: int| 0 <= j < here.len() && here[j] == x;
                    if j > 0 {
                        assert(rest[j - 1] == x);
                    }
                }
                if rest.contains(x) {
                    let j = choose|j: int| 0 <= j < rest.len() && rest[j] == x;
                    assert(here[j + 1] == x);
                }
                if first {
                    assert(here[0] == x);
                }
            } else {
                assert(here == rest);
            }
        }
    } else {
        assert(here =~= Seq::<Entity>::empty());
        assert(block_end(s, k, d) == k || block_end(s, k, d) == s.len());
    }
}

/// The children of an entity are exactly the entities whose parent it is.
pub proof fn lemma_children_have_parent(s: Seq<Node>, p: Entity, x: Entity)
    requires
        well_formed(s),
        occurs(s, p),
    ensures
        children(s, p).contains(x) <==> parent(s, x) == Some(p),
{
    let i = position(s, p);
    let d = s[i].depth as int;
    let end = subtree_end(s, i);
    lemma_position(s, i);
    lemma_position(s, 0);
    lemma_block_end(s, i + 1, d);
    lemma_children_from(s, i + 1, d, x);
    if children(s, p).contains(x) {
        let m = choose|m: int|
            i + 1 <= m < end && (#[trigger] s[m]).depth == d + 1 && s[m].entity == x;
        lemma_position(s, m);
        lemma_nearest_is(s, i, m - 1, d + 1);
    }
    if parent(s, x) == Some(p) {
        let m = position(s, x);
        lemma_position(s, m);
        lemma_parent(s, m);
        lemma_position(s, parent_position(s, m));
        assert(parent_position(s, m) == i);
        lemma_subtree_is_descendants(s, i, m);
        lemma_chain_ends(s, i);
        assert(chain(s, m) =~= seq![m] + chain(s, i));
        assert(chain(s, m)[1] == i);
        assert(i + 1 <= m < end && s[m].depth == d + 1 && s[m].entity == x);
    }
}

} // verus!
