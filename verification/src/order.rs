//! The processing order is a total order, and putting a list in order.

use vstd::prelude::*;
use vstd::relations::{sorted_by, total_ordering};
use vstd::seq_lib::{lemma_sorted_unique, to_multiset_insert, to_multiset_remove};
use crate::paths::{
    bytes_rank, compare_paths, path_bytes, path_depth, path_le, path_rank, segment_rank, segments,
    segments_rank, Rank, Segment,
};

verus! {

/// The rank seen from the other side.
pub open spec fn flipped(r: Rank) -> Rank {
    match r {
        Rank::Before => Rank::After,
        Rank::Same => Rank::Same,
        Rank::After => Rank::Before,
    }
}

/// Byte strings rank the same exactly when they are equal.
pub proof fn lemma_bytes_rank_same(a: Seq<u8>, b: Seq<u8>)
    ensures
        bytes_rank(a, b) == Rank::Same <==> a == b,
    decreases a.len(),
{
    if a.len() > 0 && b.len() > 0 {
        lemma_bytes_rank_same(a.drop_first(), b.drop_first());
        if a[0] == b[0] && a.drop_first() == b.drop_first() {
            assert(a =~= seq![a[0]] + a.drop_first());
            assert(b =~= seq![b[0]] + b.drop_first());
        }
    } else if a.len() == 0 && b.len() == 0 {
        assert(a =~= b);
    }
}

/// Ranking byte strings the other way round gives the flipped rank.
pub proof fn lemma_bytes_rank_flip(a: Seq<u8>, b: Seq<u8>)
    ensures
        bytes_rank(b, a) == flipped(bytes_rank(a, b)),
    decreases a.len(),
{
    if a.len() > 0 && b.len() > 0 {
        lemma_bytes_rank_flip(a.drop_first(), b.drop_first());
    }
}

/// Dictionary order on byte strings carries over a middle term, and
/// strictly so where either step is strict.
pub proof fn lemma_bytes_rank_chain(a: Seq<u8>, b: Seq<u8>, c: Seq<u8>)
    requires
        bytes_rank(a, b) != Rank::After,
        bytes_rank(b, c) != Rank::After,
    ensures
        bytes_rank(a, c) != Rank::After,
        bytes_rank(a, b) == Rank::Before || bytes_rank(b, c) == Rank::Before ==> bytes_rank(a, c)
            == Rank::Before,
    decreases a.len(),
{
    if a.len() > 0 && b.len() > 0 && c.len() > 0 {
        if a[0] == b[0] && b[0] == c[0] {
            lemma_bytes_rank_chain(a.drop_first(), b.drop_first(), c.drop_first());
        }
    }
}

/// Segments rank the same exactly when they are equal.
pub proof fn lemma_segment_rank_same(a: Segment, b: Segment)
    ensures
        segment_rank(a, b) == Rank::Same <==> a == b,
{
    match (a, b) {
        (Segment::Name(x), Segment::Name(y)) => {
            lemma_bytes_rank_same(x, y);
        },
        _ => {},
    }
}

/// Ranking segments the other way round gives the flipped rank.
pub proof fn lemma_segment_rank_flip(a: Segment, b: Segment)
    ensures
        segment_rank(b, a) == flipped(segment_rank(a, b)),
{
    match (a, b) {
        (Segment::Name(x), Segment::Name(y)) => {
            lemma_bytes_rank_flip(x, y);
        },
        _ => {},
    }
}

/// The order on segments carries over a middle term, and strictly so
/// where either step is strict.
pub proof fn lemma_segment_rank_chain(a: Segment, b: Segment, c: Segment)
    requires
        segment_rank(a, b) != Rank::After,
        segment_rank(b, c) != Rank::After,
    ensures
        segment_rank(a, c) != Rank::After,
        segment_rank(a, b) == Rank::Before || segment_rank(b, c) == Rank::Before ==> segment_rank(
            a,
            c,
        ) == Rank::Before,
{
    match (a, b, c) {
        (Segment::Name(x), Segment::Name(y), Segment::Name(z)) => {
            lemma_bytes_rank_chain(x, y, z);
        },
        _ => {},
    }
}

/// Sequences of segments rank the same exactly when they are equal.
pub proof fn lemma_segments_rank_same(a: Seq<Segment>, b: Seq<Segment>)
    ensures
        segments_rank(a, b) == Rank::Same <==> a == b,
    decreases a.len(),
{
    if a.len() > 0 && b.len() > 0 {
        lemma_segment_rank_same(a[0], b[0]);
        lemma_segments_rank_same(a.drop_first(), b.drop_first());
        if a[0] == b[0] && a.drop_first() == b.drop_first() {
            assert(a =~= seq![a[0]] + a.drop_first());
            assert(b =~= seq![b[0]] + b.drop_first());
        }
    } else if a.len() == 0 && b.len() == 0 {
        assert(a =~= b);
    }
}

/// Ranking sequences of segments the other way round gives the flipped rank.
pub proof fn lemma_segments_rank_flip(a: Seq<Segment>, b: Seq<Segment>)
    ensures
        segments_rank(b, a) == flipped(segments_rank(a, b)),
    decreases a.len(),
{
    if a.len() > 0 && b.len() > 0 {
        lemma_segment_rank_flip(a[0], b[0]);
        lemma_segments_rank_flip(a.drop_first(), b.drop_first());
    }
}

/// Dictionary order on sequences of segments carries over a middle term,
/// and strictly so where either step is strict.
pub proof fn lemma_segments_rank_chain(a: Seq<Segment>, b: Seq<Segment>, c: Seq<Segment>)
    requires
        segments_rank(a, b) != Rank::After,
        segments_rank(b, c) != Rank::After,
    ensures
        segments_rank(a, c) != Rank::After,
        segments_rank(a, b) == Rank::Before || segments_rank(b, c) == Rank::Before
            ==> segments_rank(a, c) == Rank::Before,
    decreases a.len(),
{
    if a.len() > 0 && b.len() > 0 && c.len() > 0 {
        lemma_segment_rank_chain(a[0], b[0], c[0]);
        lemma_segment_rank_same(a[0], b[0]);
        lemma_segment_rank_same(b[0], c[0]);
        lemma_segment_rank_same(a[0], c[0]);
        if segment_rank(a[0], b[0]) == Rank::Same && segment_rank(b[0], c[0]) == Rank::Same {
            lemma_segments_rank_chain(a.drop_first(), b.drop_first(), c.drop_first());
        }
    }
}

/// Two paths rank the same only when they are the same bytes: the order
/// never leaves two different paths tied.
pub proof fn lemma_path_rank_same(a: Seq<u8>, b: Seq<u8>)
    ensures
        path_rank(a, b) == Rank::Same <==> a == b,
{
    lemma_bytes_rank_same(a, b);
    lemma_segments_rank_same(segments(a), segments(b));
}

/// Ranking paths the other way round gives the flipped rank.
pub proof fn lemma_path_rank_flip(a: Seq<u8>, b: Seq<u8>)
    ensures
        path_rank(b, a) == flipped(path_rank(a, b)),
{
    lemma_bytes_rank_flip(a, b);
    lemma_segments_rank_flip(segments(a), segments(b));
}

/// The processing order carries over a middle term, and strictly so
/// where either step is strict.
pub proof fn lemma_path_rank_chain(a: Seq<u8>, b: Seq<u8>, c: Seq<u8>)
    requires
        path_rank(a, b) != Rank::After,
        path_rank(b, c) != Rank::After,
    ensures
        path_rank(a, c) != Rank::After,
        path_rank(a, b) == Rank::Before || path_rank(b, c) == Rank::Before ==> path_rank(a, c)
            == Rank::Before,
{
    if path_depth(a) == path_depth(b) && path_depth(b) == path_depth(c) {
        lemma_segments_rank_chain(segments(a), segments(b), segments(c));
        if segments_rank(segments(a), segments(b)) == Rank::Same && segments_rank(
            segments(b),
            segments(c),
        ) == Rank::Same {
            lemma_segments_rank_same(segments(a), segments(b));
            lemma_segments_rank_same(segments(b), segments(c));
            lemma_segments_rank_same(segments(a), segments(c));
            lemma_bytes_rank_chain(a, b, c);
        }
    }
}

/// The processing order as a relation.
pub open spec fn path_order() -> spec_fn(Seq<u8>, Seq<u8>) -> bool {
    |a: Seq<u8>, b: Seq<u8>| path_le(a, b)
}

/// The processing order is total: any two paths are ranked, each path
/// ranks no later than itself, two paths that rank no later than each
/// other are one path, and the order carries over a middle term.
pub proof fn lemma_path_order_total()
    ensures
        total_ordering(path_order()),
{
    let r = path_order();
    assert forall|a: Seq<u8>| #[trigger] r(a, a) by {
        lemma_path_rank_same(a, a);
    }
    assert forall|a: Seq<u8>, b: Seq<u8>| #[trigger] r(a, b) && #[trigger] r(b, a) implies a
        == b by {
        lemma_path_rank_flip(a, b);
        lemma_path_rank_same(a, b);
    }
    assert forall|a: Seq<u8>, b: Seq<u8>, c: Seq<u8>| #[trigger]
        r(a, b) && #[trigger] r(b, c) implies r(a, c) by {
        lemma_path_rank_chain(a, b, c);
    }
    assert forall|a: Seq<u8>, b: Seq<u8>| #[trigger] r(a, b) || #[trigger] r(b, a) by {
        lemma_path_rank_flip(a, b);
    }
}

/// The list is in processing order: each path ranks no later than all
/// that follow it.
pub open spec fn in_order(paths: Seq<Seq<u8>>) -> bool {
    forall|i: int, j: int| 0 <= i < j < paths.len() ==> path_le(#[trigger] paths[i], #[trigger] paths[j])
}

/// In an ordered list a path stands before every deeper path, and of two
/// paths of one depth the earlier has the segments that come first in
/// dictionary order, or the same segments.
pub proof fn lemma_order_by_depth_then_path(paths: Seq<Seq<u8>>, i: int, j: int)
    requires
        in_order(paths),
        0 <= i < paths.len(),
        0 <= j < paths.len(),
    ensures
        path_depth(paths[i]) < path_depth(paths[j]) ==> i < j,
        i < j ==> path_depth(paths[i]) <= path_depth(paths[j]),
        i < j && path_depth(paths[i]) == path_depth(paths[j]) ==> segments_rank(
            segments(paths[i]),
            segments(paths[j]),
        ) != Rank::After,
{
    if j < i {
        assert(path_le(paths[j], paths[i]));
    }
    if i < j {
        assert(path_le(paths[i], paths[j]));
    }
}

/// However the same paths are listed, putting them in order gives the
/// same list: the order does not depend on the order of discovery.
pub proof fn lemma_order_is_unique(first: Seq<Seq<u8>>, second: Seq<Seq<u8>>)
    requires
        in_order(first),
        in_order(second),
        first.to_multiset() == second.to_multiset(),
    ensures
        first == second,
{
    lemma_path_order_total();
    assert(sorted_by(first, path_order()));
    assert(sorted_by(second, path_order()));
    lemma_sorted_unique(first, second, path_order());
}

/// A value that is filed under a path.
pub trait Located {
    /// The bytes of the path under which the value is filed.
    spec fn location(&self) -> Seq<u8>;

    /// The path under which the value is filed.
    fn path(&self) -> (p: &str)
        ensures
            path_bytes(p@) == self.location(),
    ;
}

impl Located for String {
    open spec fn location(&self) -> Seq<u8> {
        path_bytes(self@)
    }

    fn path(&self) -> (p: &str) {
        self.as_str()
    }
}

/// The paths under which the values are filed, in order.
pub open spec fn locations<T: Located>(items: Seq<T>) -> Seq<Seq<u8>> {
    Seq::new(items.len(), |i: int| items[i].location())
}

/// Moving the value at `from` down to `to` keeps the first `from + 1`
/// values in order, where all before `to` rank no later than it and it
/// ranks before all that it passes.
proof fn lemma_move_keeps_order<T: Located>(items: Seq<T>, from: int, to: int)
    requires
        0 <= to <= from < items.len(),
        in_order(locations(items.take(from))),
        to > 0 ==> path_le(items[to - 1].location(), items[from].location()),
        forall|k: int| to <= k < from ==> path_rank(items[from].location(), #[trigger] items[k].location()) == Rank::Before,
    ensures
        in_order(locations(items.remove(from).insert(to, items[from]).take(from + 1))),
{
    let before = locations(items.take(from));
    let moved = items.remove(from).insert(to, items[from]);
    let after = locations(moved.take(from + 1));
    assert forall|a: int, b: int| 0 <= a < b < after.len() implies path_le(
        #[trigger] after[a],
        #[trigger] after[b],
    ) by {
        if b < to {
            assert(after[a] == before[a] && after[b] == before[b]);
        } else if b == to {
            assert(after[a] == before[a]);
            assert(after[b] == items[from].location());
            if a < to - 1 {
                assert(path_le(before[a], before[to - 1]));
                lemma_path_rank_chain(before[a], before[to - 1], after[b]);
            }
        } else if a < to {
            assert(after[a] == before[a] && after[b] == before[b - 1]);
        } else if a == to {
            assert(after[a] == items[from].location());
            assert(after[b] == items[b - 1].location());
        } else {
            assert(after[a] == before[a - 1] && after[b] == before[b - 1]);
        }
    }
}

/// Moving one member of a sequence to another place leaves the same
/// members in it.
proof fn lemma_move_keeps_members<A>(s: Seq<A>, from: int, to: int)
    requires
        0 <= to <= from < s.len(),
    ensures
        s.remove(from).insert(to, s[from]).to_multiset() == s.to_multiset(),
{
    to_multiset_remove(s, from);
    to_multiset_insert(s.remove(from), to, s[from]);
    assert(s.to_multiset().contains(s[from])) by {
        s.to_multiset_ensures();
    }
    assert(s.to_multiset().remove(s[from]).insert(s[from]) =~= s.to_multiset());
}

/// Moving a value within the list leaves the same paths in it.
proof fn lemma_move_keeps_locations<T: Located>(items: Seq<T>, from: int, to: int)
    requires
        0 <= to <= from < items.len(),
    ensures
        locations(items.remove(from).insert(to, items[from])).to_multiset() == locations(
            items,
        ).to_multiset(),
{
    let paths = locations(items);
    let moved = locations(items.remove(from).insert(to, items[from]));
    assert(moved =~= paths.remove(from).insert(to, paths[from]));
    lemma_move_keeps_members(paths, from, to);
}

/// Puts the values in processing order of their paths.
pub fn sort_located<T: Located>(items: &mut Vec<T>)
    ensures
        final(items)@.to_multiset() == old(items)@.to_multiset(),
        locations(final(items)@).to_multiset() == locations(old(items)@).to_multiset(),
        in_order(locations(final(items)@)),
{
    let n = items.len();
    let mut i: usize = 0;
    while i < n
        invariant
            i <= n,
            items@.len() == n,
            items@.to_multiset() == old(items)@.to_multiset(),
            locations(items@).to_multiset() == locations(old(items)@).to_multiset(),
            in_order(locations(items@.take(i as int))),
        decreases n - i,
    {
        let mut to: usize = i;
        while to > 0 && comes_before(items[i].path(), items[to - 1].path())
            invariant
                to <= i < n,
                items@.len() == n,
                forall|k: int|
                    to <= k < i ==> path_rank(
                        items@[i as int].location(),
                        #[trigger] items@[k].location(),
                    ) == Rank::Before,
            decreases to,
        {
            to -= 1;
        }
        proof {
            let s = items@;
            if to > 0 {
                lemma_path_rank_flip(s[i as int].location(), s[to - 1].location());
            }
            lemma_move_keeps_order(s, i as int, to as int);
            lemma_move_keeps_members(s, i as int, to as int);
            lemma_move_keeps_locations(s, i as int, to as int);
        }
        let moved = items.remove(i);
        items.insert(to, moved);
        i += 1;
    }
    assert(items@.take(n as int) == items@);
}

/// Whether `a` is processed before `b`.
pub fn comes_before(a: &str, b: &str) -> (before: bool)
    ensures
        before == (path_rank(path_bytes(a@), path_bytes(b@)) == Rank::Before),
{
    match compare_paths(a, b) {
        Rank::Before => true,
        _ => false,
    }
}

/// Sorts paths by depth, the shallowest first, and among paths of one
/// depth by their segments in dictionary order.
pub fn sort_paths_by_depth(paths: &mut Vec<String>)
    ensures
        final(paths)@.to_multiset() == old(paths)@.to_multiset(),
        locations(final(paths)@).to_multiset() == locations(old(paths)@).to_multiset(),
        in_order(locations(final(paths)@)),
{
    sort_located(paths)
}

} // verus!
