//! The mathematical model shared by every tree of stack frames.
//!
//! A tree is the sequence of its frames in the order in which they were first seen. The frame at
//! position `i` of the sequence has index `i + 1`; index `0` is the root. A frame names its
//! instruction pointer and the index of its parent.
use vstd::prelude::*;

verus! {

/// One frame of a tree: an instruction pointer reached from a parent frame.
pub struct Frame {
    /// Instruction pointer of the frame.
    pub ip: u64,
    /// Index of the frame that called into this one, `0` for the root.
    pub parent: nat,
}

/// A tree in which every parent precedes its children and no frame occurs twice.
pub open spec fn tree_ok(tree: Seq<Frame>) -> bool {
    &&& forall|k: int| 0 <= k < tree.len() ==> (#[trigger] tree[k]).parent <= k
    &&& tree.no_duplicates()
}

/// The index of `frame`, which occurs in `tree`.
pub open spec fn index_in(tree: Seq<Frame>, frame: Frame) -> nat {
    (tree.index_of(frame) + 1) as nat
}

/// Look up `frame`, adding it at the end where it is new: the tree afterwards and its index.
pub open spec fn intern(tree: Seq<Frame>, frame: Frame) -> (Seq<Frame>, nat) {
    if tree.contains(frame) {
        (tree, index_in(tree, frame))
    } else {
        (tree.push(frame), tree.len() + 1)
    }
}

/// Intern a whole chain of instruction pointers, outermost first, below `parent`.
pub open spec fn intern_path(tree: Seq<Frame>, parent: nat, ips: Seq<u64>) -> (Seq<Frame>, nat)
    decreases ips.len(),
{
    if ips.len() == 0 {
        (tree, parent)
    } else {
        let (next, index) = intern(tree, Frame { ip: ips[0], parent });
        intern_path(next, index, ips.drop_first())
    }
}

/// The instruction pointers from the root to the frame with index `index`.
pub open spec fn path(tree: Seq<Frame>, index: nat) -> Seq<u64>
    decreases index,
{
    if 0 < index <= tree.len() && tree[index - 1].parent < index {
        path(tree, tree[index - 1].parent).push(tree[index - 1].ip)
    } else {
        Seq::empty()
    }
}

/// The frame with index `index` is `ancestor` or lies below it.
pub open spec fn under(tree: Seq<Frame>, ancestor: nat, index: nat) -> bool
    decreases index,
{
    index == ancestor || (0 < index <= tree.len() && tree[index - 1].parent < index && under(
        tree,
        ancestor,
        tree[index - 1].parent,
    ))
}

/// `later` extends `earlier` by further frames.
pub open spec fn extends(earlier: Seq<Frame>, later: Seq<Frame>) -> bool {
    earlier.len() <= later.len() && later.take(earlier.len() as int) == earlier
}

/// Ancestors have smaller or equal indices.
pub proof fn lemma_under_bound(tree: Seq<Frame>, ancestor: nat, index: nat)
    requires
        under(tree, ancestor, index),
    ensures
        ancestor <= index,
    decreases index,
{
    if index != ancestor {
        lemma_under_bound(tree, ancestor, tree[index - 1].parent);
    }
}

/// What lies below a child lies below its parent.
pub proof fn lemma_under_child(tree: Seq<Frame>, child: nat, index: nat)
    requires
        tree_ok(tree),
        0 < child <= tree.len(),
        under(tree, child, index),
    ensures
        under(tree, tree[child - 1].parent, index),
    decreases index,
{
    if index != child {
        lemma_under_child(tree, child, tree[index - 1].parent);
    } else {
        assert(under(tree, tree[child - 1].parent, tree[child - 1].parent));
    }
}

/// Two children of one parent have nothing in common below them.
pub proof fn lemma_under_disjoint(tree: Seq<Frame>, one: nat, other: nat, index: nat)
    requires
        tree_ok(tree),
        0 < one <= tree.len(),
        0 < other <= tree.len(),
        one != other,
        tree[one - 1].parent == tree[other - 1].parent,
        under(tree, one, index),
    ensures
        !under(tree, other, index),
    decreases index,
{
    let parent = tree[one - 1].parent;
    if under(tree, other, index) {
        if index == one {
            lemma_under_bound(tree, other, parent);
        } else if index == other {
            lemma_under_bound(tree, one, parent);
        } else {
            lemma_under_disjoint(tree, one, other, tree[index - 1].parent);
        }
    }
}

/// `under` reads no frame past the index it is asked about.
pub proof fn lemma_under_extends(earlier: Seq<Frame>, later: Seq<Frame>, ancestor: nat, index: nat)
    requires
        tree_ok(earlier),
        extends(earlier, later),
        index <= earlier.len(),
    ensures
        under(earlier, ancestor, index) == under(later, ancestor, index),
    decreases index,
{
    if index > 0 {
        assert(later[index - 1] == later.take(earlier.len() as int)[index - 1]);
        lemma_under_extends(earlier, later, ancestor, earlier[index - 1].parent);
    }
}

/// `path` reads no frame past the index it is asked about.
pub proof fn lemma_path_extends(earlier: Seq<Frame>, later: Seq<Frame>, index: nat)
    requires
        tree_ok(earlier),
        extends(earlier, later),
        index <= earlier.len(),
    ensures
        path(earlier, index) == path(later, index),
    decreases index,
{
    if index > 0 {
        assert(later[index - 1] == later.take(earlier.len() as int)[index - 1]);
        lemma_path_extends(earlier, later, earlier[index - 1].parent);
    }
}

/// A frame is interned at an index within the tree, and interning keeps the tree well-formed.
pub proof fn lemma_intern(tree: Seq<Frame>, frame: Frame)
    requires
        tree_ok(tree),
        frame.parent <= tree.len(),
    ensures
        ({
            let (next, index) = intern(tree, frame);
            &&& tree_ok(next)
            &&& extends(tree, next)
            &&& 0 < index <= next.len()
            &&& next[index - 1] == frame
            &&& next.len() <= tree.len() + 1
        }),
{
    let (next, index) = intern(tree, frame);
    if tree.contains(frame) {
        assert(extends(tree, next)) by {
            assert(next.take(tree.len() as int) =~= tree);
        }
    } else {
        assert(next.take(tree.len() as int) =~= tree);
        assert forall|i: int, j: int|
            0 <= i < next.len() && 0 <= j < next.len() && i != j implies next[i] != next[j] by {
            if i == tree.len() {
                assert(tree.contains(tree[j]));
            } else if j == tree.len() {
                assert(tree.contains(tree[i]));
            }
        }
    }
}

/// In a well-formed tree a frame has one index only.
pub proof fn lemma_index_unique(tree: Seq<Frame>, index: nat)
    requires
        tree_ok(tree),
        0 < index <= tree.len(),
    ensures
        tree.contains(tree[index - 1]),
        index_in(tree, tree[index - 1]) == index,
{
    let frame = tree[index - 1];
    assert(tree.contains(frame));
    let k = tree.index_of(frame);
    assert(0 <= k < tree.len() && tree[k] == frame);
}

/// Extension is transitive.
pub proof fn lemma_extends_trans(one: Seq<Frame>, two: Seq<Frame>, three: Seq<Frame>)
    requires
        extends(one, two),
        extends(two, three),
    ensures
        extends(one, three),
{
    assert(three.take(one.len() as int) =~= three.take(two.len() as int).take(one.len() as int));
}

/// What was a tree before its last frames were added was well-formed too.
pub proof fn lemma_take_ok(tree: Seq<Frame>, len: nat)
    requires
        tree_ok(tree),
        len <= tree.len(),
    ensures
        tree_ok(tree.take(len as int)),
        extends(tree.take(len as int), tree),
{
    assert forall|k: int| 0 <= k < len implies (#[trigger] tree.take(len as int)[k]).parent <= k by {
        assert(tree.take(len as int)[k] == tree[k]);
    }
}

/// Interning a chain extends the tree by at most the chain, below the given parent only.
pub proof fn lemma_intern_path(tree: Seq<Frame>, parent: nat, ips: Seq<u64>)
    requires
        tree_ok(tree),
        parent <= tree.len(),
    ensures
        ({
            let (full, index) = intern_path(tree, parent, ips);
            &&& tree_ok(full)
            &&& extends(tree, full)
            &&& index <= full.len()
            &&& full.len() <= tree.len() + ips.len()
            &&& under(full, parent, index)
            &&& forall|k: int|
                tree.len() <= k < full.len() ==> under(full, parent, (#[trigger] full[k]).parent)
            &&& path(full, index) == path(tree, parent) + ips
        }),
    decreases ips.len(),
{
    if ips.len() == 0 {
        assert(tree.take(tree.len() as int) =~= tree);
        assert(path(tree, parent) + ips =~= path(tree, parent));
    } else {
        let frame = Frame { ip: ips[0], parent };
        let (next, child) = intern(tree, frame);
        let rest = ips.drop_first();
        let (full, index) = intern_path(next, child, rest);
        lemma_intern(tree, frame);
        lemma_intern_path(next, child, rest);
        lemma_extends_trans(tree, next, full);
        assert(full[child - 1] == full.take(next.len() as int)[child - 1]);
        assert(full[child - 1] == frame);
        lemma_under_child(full, child, index);
        assert forall|k: int| tree.len() <= k < full.len() implies under(
            full,
            parent,
            (#[trigger] full[k]).parent,
        ) by {
            if k < next.len() {
                assert(full[k] == full.take(next.len() as int)[k]);
                assert(full[k] == frame);
            } else {
                lemma_under_child(full, child, full[k].parent);
            }
        }
        lemma_path_extends(tree, next, parent);
        assert(path(next, child) == path(tree, parent).push(ips[0]));
        assert(path(tree, parent).push(ips[0]) + rest =~= path(tree, parent) + ips);
    }
}

} // verus!
