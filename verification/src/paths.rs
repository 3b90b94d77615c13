//! Paths as the ordering policy reads them.
//!
//! A path is taken as the bytes of its text and read the way Unix paths
//! are: `/` separates, repeated and trailing separators count for nothing,
//! and a `.` is dropped unless it opens a relative path. What is left is a
//! sequence of segments; its length is the depth of the path.

use vstd::prelude::*;
use vstd::string::StringSliceAdditionalSpecFns;

verus! {

/// The byte that separates segments.
pub const SLASH: u8 = 47;

/// The byte of which `.` and `..` are made.
pub const DOT: u8 = 46;

/// One segment of a path.
pub enum Segment {
    /// The leading `/` of an absolute path.
    Root,
    /// A leading `.` of a relative path.
    Current,
    /// A `..`.
    Parent,
    /// Any other name, by its bytes.
    Name(Seq<u8>),
}

/// The stretches of `text` that the separators cut it into, empty ones
/// included; there is always one more than there are separators.
pub open spec fn pieces(text: Seq<u8>) -> Seq<Seq<u8>>
    decreases text.len(),
{
    if text.len() == 0 {
        seq![Seq::empty()]
    } else {
        let before = pieces(text.drop_last());
        if text.last() == SLASH {
            before.push(Seq::empty())
        } else {
            before.drop_last().push(before.last().push(text.last()))
        }
    }
}

/// Whether a piece stands for a segment of its own: it is neither empty
/// nor a lone `.`.
pub open spec fn counts(piece: Seq<u8>) -> bool {
    piece.len() > 0 && !(piece.len() == 1 && piece[0] == DOT)
}

/// The segment that a counting piece stands for.
pub open spec fn named(piece: Seq<u8>) -> Segment {
    if piece.len() == 2 && piece[0] == DOT && piece[1] == DOT {
        Segment::Parent
    } else {
        Segment::Name(piece)
    }
}

/// The segments of the pieces that count, in order.
pub open spec fn named_segments(parts: Seq<Seq<u8>>) -> Seq<Segment>
    decreases parts.len(),
{
    if parts.len() == 0 {
        Seq::empty()
    } else if counts(parts.last()) {
        named_segments(parts.drop_last()).push(named(parts.last()))
    } else {
        named_segments(parts.drop_last())
    }
}

/// Whether the path is absolute.
pub open spec fn has_root(text: Seq<u8>) -> bool {
    text.len() > 0 && text[0] == SLASH
}

/// Whether the path opens with a `.` segment: it is `.` or starts with `./`.
pub open spec fn has_leading_dot(text: Seq<u8>) -> bool {
    text.len() > 0 && text[0] == DOT && (text.len() == 1 || text[1] == SLASH)
}

/// What opens the path before its named segments, if anything.
pub open spec fn lead(text: Seq<u8>) -> Seq<Segment> {
    if has_root(text) {
        seq![Segment::Root]
    } else if has_leading_dot(text) {
        seq![Segment::Current]
    } else {
        Seq::empty()
    }
}

/// The segments of a path.
pub open spec fn segments(text: Seq<u8>) -> Seq<Segment> {
    lead(text) + named_segments(pieces(text))
}

/// The depth of a path: how many segments it has.
pub open spec fn path_depth(text: Seq<u8>) -> nat {
    segments(text).len()
}

/// Whether the path ends in a file of the given name: its last segment
/// is that name.
pub open spec fn names_file(path: Seq<u8>, name: Seq<u8>) -> bool {
    segments(path).len() > 0 && segments(path).last() == Segment::Name(name)
}

/// The bytes that stand for a path given as text.
pub open spec fn path_bytes(path: Seq<char>) -> Seq<u8> {
    vstd::utf8::encode_utf8(path)
}

/// How one thing stands to another in an order.
#[derive(Clone, Copy, PartialEq, Eq, Debug, Structural)]
pub enum Rank {
    /// The first comes before the second.
    Before,
    /// Neither comes before the other.
    Same,
    /// The first comes after the second.
    After,
}

/// Byte strings in dictionary order: the first byte that differs decides,
/// and a string comes before each of its extensions.
pub open spec fn bytes_rank(a: Seq<u8>, b: Seq<u8>) -> Rank
    decreases a.len(),
{
    if a.len() == 0 {
        if b.len() == 0 {
            Rank::Same
        } else {
            Rank::Before
        }
    } else if b.len() == 0 {
        Rank::After
    } else if a[0] < b[0] {
        Rank::Before
    } else if a[0] > b[0] {
        Rank::After
    } else {
        bytes_rank(a.drop_first(), b.drop_first())
    }
}

/// The place of a segment's kind among the kinds: root, `.`, `..`, name.
pub open spec fn kind_place(s: Segment) -> int {
    match s {
        Segment::Root => 0,
        Segment::Current => 1,
        Segment::Parent => 2,
        Segment::Name(_) => 3,
    }
}

/// Segments by kind, and names among themselves in dictionary order.
pub open spec fn segment_rank(a: Segment, b: Segment) -> Rank {
    if kind_place(a) < kind_place(b) {
        Rank::Before
    } else if kind_place(a) > kind_place(b) {
        Rank::After
    } else {
        match (a, b) {
            (Segment::Name(x), Segment::Name(y)) => bytes_rank(x, y),
            _ => Rank::Same,
        }
    }
}

/// Sequences of segments in dictionary order.
pub open spec fn segments_rank(a: Seq<Segment>, b: Seq<Segment>) -> Rank
    decreases a.len(),
{
    if a.len() == 0 {
        if b.len() == 0 {
            Rank::Same
        } else {
            Rank::Before
        }
    } else if b.len() == 0 {
        Rank::After
    } else {
        match segment_rank(a[0], b[0]) {
            Rank::Same => segments_rank(a.drop_first(), b.drop_first()),
            decided => decided,
        }
    }
}

/// The processing order of paths: the shallower path first; at equal
/// depth the one whose segments come first in dictionary order; and
/// between two spellings of the same segments the one whose bytes do.
pub open spec fn path_rank(a: Seq<u8>, b: Seq<u8>) -> Rank {
    if path_depth(a) < path_depth(b) {
        Rank::Before
    } else if path_depth(a) > path_depth(b) {
        Rank::After
    } else {
        match segments_rank(segments(a), segments(b)) {
            Rank::Same => bytes_rank(a, b),
            decided => decided,
        }
    }
}

/// `a` is processed no later than `b`.
pub open spec fn path_le(a: Seq<u8>, b: Seq<u8>) -> bool {
    path_rank(a, b) != Rank::After
}

/// Which kind of segment a span marks.
#[derive(Clone, Copy, PartialEq, Eq, Structural)]
enum SpanKind {
    Root,
    Current,
    Parent,
    Name,
}

/// A segment found in a text, as the range of bytes that spells it.
#[derive(Clone, Copy)]
struct Span {
    kind: SpanKind,
    start: usize,
    end: usize,
}

impl Span {
    /// The range lies within a text of `len` bytes.
    spec fn within(self, len: nat) -> bool {
        self.start <= self.end <= len
    }

    /// The segment that the span marks in `text`.
    spec fn segment(self, text: Seq<u8>) -> Segment {
        match self.kind {
            SpanKind::Root => Segment::Root,
            SpanKind::Current => Segment::Current,
            SpanKind::Parent => Segment::Parent,
            SpanKind::Name => Segment::Name(text.subrange(self.start as int, self.end as int)),
        }
    }
}

/// The spans mark exactly the segments `expected`, in order.
spec fn marks(text: Seq<u8>, spans: Seq<Span>, expected: Seq<Segment>) -> bool {
    &&& spans.len() == expected.len()
    &&& forall|k: int|
        0 <= k < spans.len() ==> (#[trigger] spans[k]).within(text.len()) && spans[k].segment(text)
            == expected[k]
}

/// Reading one more byte either opens a new piece or lengthens the last.
proof fn lemma_pieces_step(text: Seq<u8>, i: int)
    requires
        0 <= i < text.len(),
    ensures
        pieces(text.take(i)).len() > 0,
        text[i] == SLASH ==> pieces(text.take(i + 1)) == pieces(text.take(i)).push(Seq::empty()),
        text[i] != SLASH ==> pieces(text.take(i + 1)) == pieces(text.take(i)).drop_last().push(
            pieces(text.take(i)).last().push(text[i]),
        ),
{
    lemma_pieces_nonempty(text.take(i));
    assert(text.take(i + 1).drop_last() == text.take(i));
    assert(text.take(i + 1).last() == text[i]);
}

/// Every text has at least one piece.
pub proof fn lemma_pieces_nonempty(text: Seq<u8>)
    ensures
        pieces(text).len() > 0,
    decreases text.len(),
{
    if text.len() > 0 {
        lemma_pieces_nonempty(text.drop_last());
    }
}

/// The parts put together again, with a separator between neighbours.
pub open spec fn rejoined(parts: Seq<Seq<u8>>) -> Seq<u8>
    decreases parts.len(),
{
    if parts.len() == 0 {
        Seq::empty()
    } else if parts.len() == 1 {
        parts[0]
    } else {
        rejoined(parts.drop_last()) + seq![SLASH] + parts.last()
    }
}

/// The pieces of a text are what lies between its separators: none holds
/// a separator, and put together again with separators between them they
/// give the text back.
pub proof fn lemma_pieces_rejoin(text: Seq<u8>)
    ensures
        rejoined(pieces(text)) == text,
        forall|k: int| 0 <= k < pieces(text).len() ==> !(#[trigger] pieces(text)[k]).contains(SLASH),
    decreases text.len(),
{
    if text.len() == 0 {
        assert(rejoined(pieces(text)) =~= text);
    } else {
        let before = pieces(text.drop_last());
        let last = text.last();
        lemma_pieces_rejoin(text.drop_last());
        lemma_pieces_nonempty(text.drop_last());
        if last == SLASH {
            let now = before.push(Seq::empty());
            assert(now.drop_last() == before);
            assert(rejoined(now) =~= text.drop_last().push(last));
            assert(text.drop_last().push(last) =~= text);
            assert forall|k: int| 0 <= k < now.len() implies !(#[trigger] now[k]).contains(
                SLASH,
            ) by {
                if k < before.len() {
                    assert(now[k] == before[k]);
                }
            }
        } else {
            let grown = before.last().push(last);
            let now = before.drop_last().push(grown);
            assert(now.drop_last() == before.drop_last());
            assert(rejoined(now) =~= rejoined(before).push(last));
            assert(text.drop_last().push(last) =~= text);
            assert forall|k: int| 0 <= k < now.len() implies !(#[trigger] now[k]).contains(
                SLASH,
            ) by {
                if k < now.len() - 1 {
                    assert(now[k] == before[k]);
                } else {
                    assert(!before.last().contains(SLASH));
                    assert forall|t: int| 0 <= t < grown.len() implies grown[t] != SLASH by {
                        if t < before.last().len() {
                            assert(before.last()[t] == grown[t]);
                            assert(before.last().contains(grown[t]));
                        }
                    }
                }
            }
        }
    }
}

/// Adds the span of the piece `text[start..end]` if that piece counts.
fn close_piece(text: &[u8], start: usize, end: usize, spans: &mut Vec<Span>)
    requires
        start <= end <= text@.len(),
    ensures
        counts(text@.subrange(start as int, end as int)) ==> final(spans)@ == old(spans)@.push(
            final(spans)@.last(),
        ) && final(spans)@.last().within(text@.len()) && final(spans)@.last().segment(text@)
            == named(text@.subrange(start as int, end as int)),
        !counts(text@.subrange(start as int, end as int)) ==> final(spans)@ == old(spans)@,
{
    let ghost piece = text@.subrange(start as int, end as int);
    let len = end - start;
    if len == 0 {
        return ;
    }
    assert(piece[0] == text@[start as int]);
    if len == 1 && text[start] == DOT {
        return ;
    }
    if len == 2 && text[start] == DOT && text[start + 1] == DOT {
        assert(piece[1] == text@[start + 1]);
        spans.push(Span { kind: SpanKind::Parent, start, end });
    } else {
        if len == 2 {
            assert(piece[1] == text@[start + 1]);
        }
        spans.push(Span { kind: SpanKind::Name, start, end });
    }
}

/// Finds the segments of a path.
fn parse(text: &[u8]) -> (spans: Vec<Span>)
    ensures
        marks(text@, spans@, segments(text@)),
{
    let mut spans: Vec<Span> = Vec::new();
    let n = text.len();
    if n > 0 && text[0] == SLASH {
        spans.push(Span { kind: SpanKind::Root, start: 0, end: 1 });
    } else if n > 0 && text[0] == DOT && (n == 1 || text[1] == SLASH) {
        spans.push(Span { kind: SpanKind::Current, start: 0, end: 1 });
    }
    let mut start: usize = 0;
    let mut i: usize = 0;
    while i < n
        invariant
            n == text@.len(),
            start <= i <= n,
            pieces(text@.take(i as int)).len() > 0,
            pieces(text@.take(i as int)).last() == text@.subrange(start as int, i as int),
            marks(
                text@,
                spans@,
                lead(text@) + named_segments(pieces(text@.take(i as int)).drop_last()),
            ),
        decreases n - i,
    {
        proof {
            lemma_pieces_step(text@, i as int);
        }
        let ghost before = pieces(text@.take(i as int));
        if text[i] == SLASH {
            close_piece(text, start, i, &mut spans);
            assert(before.push(Seq::empty()).drop_last() == before);
            start = i + 1;
            assert(text@.subrange(start as int, start as int) == Seq::<u8>::empty());
        } else {
            assert(before.drop_last().push(before.last().push(text@[i as int])).drop_last()
                == before.drop_last());
            assert(text@.subrange(start as int, i as int).push(text@[i as int]) == text@.subrange(
                start as int,
                i + 1,
            ));
        }
        i += 1;
    }
    assert(text@.take(n as int) == text@);
    close_piece(text, start, n, &mut spans);
    spans
}

/// The depth of a path: the number of its segments.
pub fn get_path_depth(path: &str) -> (depth: usize)
    ensures
        depth == path_depth(path_bytes(path@)),
{
    parse(path.as_bytes()).len()
}

/// Ranks the bytes `a[a_start..a_end]` against `b[b_start..b_end]`.
fn rank_bytes(a: &[u8], a_start: usize, a_end: usize, b: &[u8], b_start: usize, b_end: usize) -> (r:
    Rank)
    requires
        a_start <= a_end <= a@.len(),
        b_start <= b_end <= b@.len(),
    ensures
        r == bytes_rank(
            a@.subrange(a_start as int, a_end as int),
            b@.subrange(b_start as int, b_end as int),
        ),
{
    let mut i = a_start;
    let mut j = b_start;
    while i < a_end && j < b_end
        invariant
            a_start <= i <= a_end <= a@.len(),
            b_start <= j <= b_end <= b@.len(),
            bytes_rank(
                a@.subrange(a_start as int, a_end as int),
                b@.subrange(b_start as int, b_end as int),
            ) == bytes_rank(
                a@.subrange(i as int, a_end as int),
                b@.subrange(j as int, b_end as int),
            ),
        decreases a_end - i,
    {
        let ghost rest_a = a@.subrange(i as int, a_end as int);
        let ghost rest_b = b@.subrange(j as int, b_end as int);
        assert(rest_a[0] == a@[i as int] && rest_b[0] == b@[j as int]);
        if a[i] < b[j] {
            return Rank::Before;
        }
        if a[i] > b[j] {
            return Rank::After;
        }
        assert(rest_a.drop_first() == a@.subrange(i + 1, a_end as int));
        assert(rest_b.drop_first() == b@.subrange(j + 1, b_end as int));
        i += 1;
        j += 1;
    }
    assert(i == a_end ==> a@.subrange(i as int, a_end as int).len() == 0);
    assert(j == b_end ==> b@.subrange(j as int, b_end as int).len() == 0);
    if i == a_end {
        if j == b_end {
            Rank::Same
        } else {
            Rank::Before
        }
    } else {
        Rank::After
    }
}

/// Ranks one marked segment against another.
fn rank_span(a: &[u8], x: Span, b: &[u8], y: Span) -> (r: Rank)
    requires
        x.within(a@.len()),
        y.within(b@.len()),
    ensures
        r == segment_rank(x.segment(a@), y.segment(b@)),
{
    match (x.kind, y.kind) {
        (SpanKind::Name, SpanKind::Name) => rank_bytes(a, x.start, x.end, b, y.start, y.end),
        (SpanKind::Name, _) => Rank::After,
        (_, SpanKind::Name) => Rank::Before,
        (SpanKind::Parent, SpanKind::Parent) => Rank::Same,
        (SpanKind::Parent, _) => Rank::After,
        (_, SpanKind::Parent) => Rank::Before,
        (SpanKind::Current, SpanKind::Current) => Rank::Same,
        (SpanKind::Current, _) => Rank::After,
        (_, SpanKind::Current) => Rank::Before,
        (SpanKind::Root, SpanKind::Root) => Rank::Same,
    }
}

/// Ranks the marked segments of one path against those of another.
fn rank_spans(a: &[u8], xs: &Vec<Span>, b: &[u8], ys: &Vec<Span>) -> (r: Rank)
    requires
        marks(a@, xs@, segments(a@)),
        marks(b@, ys@, segments(b@)),
    ensures
        r == segments_rank(segments(a@), segments(b@)),
{
    let mut k: usize = 0;
    assert(segments(a@).skip(0) == segments(a@));
    assert(segments(b@).skip(0) == segments(b@));
    while k < xs.len() && k < ys.len()
        invariant
            k <= xs@.len(),
            k <= ys@.len(),
            marks(a@, xs@, segments(a@)),
            marks(b@, ys@, segments(b@)),
            segments_rank(segments(a@), segments(b@)) == segments_rank(
                segments(a@).skip(k as int),
                segments(b@).skip(k as int),
            ),
        decreases xs@.len() - k,
    {
        let ghost rest_a = segments(a@).skip(k as int);
        let ghost rest_b = segments(b@).skip(k as int);
        assert(rest_a[0] == segments(a@)[k as int] && rest_b[0] == segments(b@)[k as int]);
        assert(rest_a.drop_first() == segments(a@).skip(k + 1));
        assert(rest_b.drop_first() == segments(b@).skip(k + 1));
        let decided = rank_span(a, xs[k], b, ys[k]);
        match decided {
            Rank::Same => {},
            _ => {
                return decided;
            },
        }
        k += 1;
    }
    if k == xs.len() {
        if k == ys.len() {
            Rank::Same
        } else {
            Rank::Before
        }
    } else {
        Rank::After
    }
}

/// Ranks two paths in the processing order.
pub fn compare_paths(a: &str, b: &str) -> (r: Rank)
    ensures
        r == path_rank(path_bytes(a@), path_bytes(b@)),
{
    let text_a = a.as_bytes();
    let text_b = b.as_bytes();
    let spans_a = parse(text_a);
    let spans_b = parse(text_b);
    if spans_a.len() < spans_b.len() {
        Rank::Before
    } else if spans_a.len() > spans_b.len() {
        Rank::After
    } else {
        match rank_spans(text_a, &spans_a, text_b, &spans_b) {
            Rank::Same => {
                assert(text_a@.subrange(0, text_a@.len() as int) == text_a@);
                assert(text_b@.subrange(0, text_b@.len() as int) == text_b@);
                rank_bytes(text_a, 0, text_a.len(), text_b, 0, text_b.len())
            },
            decided => decided,
        }
    }
}

/// Whether two stretches of bytes hold the same bytes.
fn same_bytes(a: &[u8], a_start: usize, a_end: usize, b: &[u8]) -> (same: bool)
    requires
        a_start <= a_end <= a@.len(),
    ensures
        same == (a@.subrange(a_start as int, a_end as int) == b@),
{
    if a_end - a_start != b.len() {
        return false;
    }
    let n = b.len();
    let mut k: usize = 0;
    while k < n
        invariant
            k <= n,
            n == b@.len(),
            a_end - a_start == n,
            a_end <= a@.len(),
            forall|t: int| 0 <= t < k ==> a@[a_start + t] == b@[t],
        decreases n - k,
    {
        if a[a_start + k] != b[k] {
            assert(a@.subrange(a_start as int, a_end as int)[k as int] != b@[k as int]);
            return false;
        }
        k += 1;
    }
    assert(a@.subrange(a_start as int, a_end as int) =~= b@);
    true
}

/// Whether the path ends in a file of the given name.
pub fn file_name_is(path: &str, name: &str) -> (is: bool)
    ensures
        is == names_file(path_bytes(path@), path_bytes(name@)),
{
    let text = path.as_bytes();
    let spans = parse(text);
    if spans.len() == 0 {
        return false;
    }
    let last = spans[spans.len() - 1];
    match last.kind {
        SpanKind::Name => same_bytes(text, last.start, last.end, name.as_bytes()),
        _ => false,
    }
}

} // verus!
