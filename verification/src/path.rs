//! The grammar of path texts, as Unix-like systems have it: `/` separates
//! segments, a leading `/` marks an absolute path, the segment `..` names the
//! parent directory, and empty segments and the segment `.` name nothing.
//! Every other character, the backslash too, is part of a name.
//!
//! A text is read into its segments, the segments that are names make a
//! walk, and a walk is written out as an absolute path in normal form. The
//! laws at the end say that reading undoes writing, and where in a text a
//! parent marker can stand.

use crate::text::append_range;
use vstd::prelude::*;

verus! {

/// The segment that names the parent directory.
pub open spec fn parent_marker() -> Seq<char> {
    seq!['.', '.']
}

/// The segment that names the directory it stands in.
pub open spec fn current_marker() -> Seq<char> {
    seq!['.']
}

/// Whether `p` starts at the filesystem root.
pub open spec fn is_absolute(p: Seq<char>) -> bool {
    p.len() > 0 && p[0] == '/'
}

/// The pieces of `p` between its separators, empty ones included: a text with
/// `n` separators has `n + 1` segments.
pub open spec fn segments(p: Seq<char>) -> Seq<Seq<char>>
    decreases p.len(),
{
    if p.len() == 0 {
        seq![Seq::empty()]
    } else {
        let before = segments(p.drop_last());
        if p.last() == '/' {
            before.push(Seq::empty())
        } else {
            before.drop_last().push(before.last().push(p.last()))
        }
    }
}

/// Whether some segment of `p`, wherever it stands, is the parent marker.
pub open spec fn has_parent_segment(p: Seq<char>) -> bool {
    segments(p).contains(parent_marker())
}

/// Whether the parent marker stands at place `i` of `p` as a whole segment:
/// between two separators, or between a separator and an end of the text, or
/// as all of the text.
pub open spec fn parent_marker_at(p: Seq<char>, i: int) -> bool {
    &&& 0 <= i && i + 2 <= p.len()
    &&& p[i] == '.' && p[i + 1] == '.'
    &&& (i == 0 || p[i - 1] == '/')
    &&& (i + 2 == p.len() || p[i + 2] == '/')
}

/// Whether a segment names an entry: it is neither empty nor the current marker.
pub open spec fn is_name(segment: Seq<char>) -> bool {
    segment.len() > 0 && segment != current_marker()
}

/// `is_name` as a predicate value.
pub open spec fn name_filter() -> spec_fn(Seq<char>) -> bool {
    |segment: Seq<char>| is_name(segment)
}

/// The names that `p` walks through, in order.
pub open spec fn names(p: Seq<char>) -> Seq<Seq<char>> {
    segments(p).filter(name_filter())
}

/// Every name preceded by a separator; empty for no names.
pub open spec fn joined(names: Seq<Seq<char>>) -> Seq<char>
    decreases names.len(),
{
    if names.len() == 0 {
        Seq::empty()
    } else {
        joined(names.drop_last()) + seq!['/'] + names.last()
    }
}

/// The absolute path text that walks from the root through `names`.
pub open spec fn absolute_text(names: Seq<Seq<char>>) -> Seq<char> {
    if names.len() == 0 {
        seq!['/']
    } else {
        joined(names)
    }
}

/// Whether `p` can stand for a resolved directory: absolute, and free of
/// parent markers.
pub open spec fn is_anchored(p: Seq<char>) -> bool {
    is_absolute(p) && !has_parent_segment(p)
}

/// Where the last segment of `p` starts: behind its last separator, or at
/// the front where it has none.
pub open spec fn tail_start(p: Seq<char>) -> int
    decreases p.len(),
{
    if p.len() == 0 {
        0
    } else if p.last() == '/' {
        p.len() as int
    } else {
        tail_start(p.drop_last())
    }
}

/// Whether `name` can be one step of a walk: it names an entry, holds no
/// separator and is not the parent marker.
pub open spec fn is_step(name: Seq<char>) -> bool {
    is_name(name) && !name.contains('/') && name != parent_marker()
}

/// Whether every one of `walk` can be a step.
pub open spec fn is_walk(walk: Seq<Seq<char>>) -> bool {
    forall|k: int| 0 <= k < walk.len() ==> is_step(#[trigger] walk[k])
}

/// Whether `path` is the path of `root` or of something below it, written in
/// normal form: absolute, without parent markers, and with nothing between
/// its separators but names.
pub open spec fn is_inside(root: Seq<Seq<char>>, path: Seq<char>) -> bool {
    &&& is_anchored(path)
    &&& path == absolute_text(names(path))
    &&& root.is_prefix_of(names(path))
}

/// The texts held by a list of character vectors.
pub open spec fn texts(parts: Seq<Vec<char>>) -> Seq<Seq<char>> {
    Seq::new(parts.len(), |i: int| parts[i]@)
}

/// Decides `is_absolute`.
pub fn starts_at_root(p: &Vec<char>) -> (b: bool)
    ensures
        b == is_absolute(p@),
{
    p.len() > 0 && p[0] == '/'
}

/// Whether two character vectors hold the same text.
pub fn same_text(a: &Vec<char>, b: &Vec<char>) -> (same: bool)
    ensures
        same == (a@ == b@),
{
    if a.len() != b.len() {
        return false;
    }
    let mut i: usize = 0;
    while i < a.len()
        invariant
            i <= a.len(),
            a.len() == b.len(),
            a@.take(i as int) == b@.take(i as int),
        decreases a.len() - i,
    {
        if a[i] != b[i] {
            return false;
        }
        assert(a@.take(i as int + 1) == a@.take(i as int).push(a@[i as int]));
        assert(b@.take(i as int + 1) == b@.take(i as int).push(b@[i as int]));
        i += 1;
    }
    assert(a@.take(a.len() as int) == a@);
    assert(b@.take(b.len() as int) == b@);
    true
}

/// Decides whether `segment` is the parent marker.
pub fn is_parent_marker(segment: &Vec<char>) -> (b: bool)
    ensures
        b == (segment@ == parent_marker()),
{
    let b = segment.len() == 2 && segment[0] == '.' && segment[1] == '.';
    assert(b ==> segment@ =~= parent_marker());
    b
}

/// Decides `is_name`.
pub fn holds_name(segment: &Vec<char>) -> (b: bool)
    ensures
        b == is_name(segment@),
{
    let b = segment.len() > 0 && !(segment.len() == 1 && segment[0] == '.');
    assert(segment.len() == 1 && segment[0] == '.' ==> segment@ =~= current_marker());
    b
}

/// Cuts `p` at every separator.
pub fn split(p: &Vec<char>) -> (parts: Vec<Vec<char>>)
    ensures
        texts(parts@) == segments(p@),
{
    let mut closed: Vec<Vec<char>> = Vec::new();
    let mut open: Vec<char> = Vec::new();
    let mut i: usize = 0;
    assert(p@.take(0) == Seq::<char>::empty());
    assert(texts(closed@).push(open@) =~= segments(p@.take(0)));
    while i < p.len()
        invariant
            i <= p.len(),
            texts(closed@).push(open@) == segments(p@.take(i as int)),
        decreases p.len() - i,
    {
        let c = p[i];
        proof {
            lemma_segments_push(p@.take(i as int), c);
            assert(p@.take(i as int + 1) == p@.take(i as int).push(c));
            assert(texts(closed@).push(open@).drop_last() == texts(closed@));
        }
        if c == '/' {
            proof {
                lemma_texts_push(closed@, open);
            }
            closed.push(open);
            open = Vec::new();
        } else {
            open.push(c);
        }
        i += 1;
    }
    proof {
        lemma_texts_push(closed@, open);
        assert(p@.take(p.len() as int) == p@);
    }
    closed.push(open);
    closed
}

/// Finds where the last segment of `p` starts.
pub fn last_segment_start(p: &Vec<char>) -> (start: usize)
    ensures
        start == tail_start(p@),
{
    let mut i: usize = p.len();
    assert(p@.take(i as int) == p@);
    while i > 0 && p[i - 1] != '/'
        invariant
            i <= p.len(),
            tail_start(p@) == tail_start(p@.take(i as int)),
        decreases i,
    {
        assert(p@.take(i as int).drop_last() == p@.take(i as int - 1));
        i -= 1;
    }
    i
}

/// Decides whether one of `parts` is the parent marker.
pub fn any_parent_marker(parts: &Vec<Vec<char>>) -> (found: bool)
    ensures
        found == texts(parts@).contains(parent_marker()),
{
    let mut i: usize = 0;
    while i < parts.len()
        invariant
            i <= parts.len(),
            forall|k: int| 0 <= k < i ==> texts(parts@)[k] != parent_marker(),
        decreases parts.len() - i,
    {
        if is_parent_marker(&parts[i]) {
            assert(texts(parts@)[i as int] == parent_marker());
            return true;
        }
        i += 1;
    }
    false
}

/// Keeps the parts that name an entry.
pub fn keep_names(parts: Vec<Vec<char>>) -> (kept: Vec<Vec<char>>)
    ensures
        texts(kept@) == texts(parts@).filter(name_filter()),
{
    let ghost all = texts(parts@);
    let mut kept: Vec<Vec<char>> = Vec::new();
    assert(all.take(0).filter(name_filter()) =~= texts(kept@)) by {
        reveal(Seq::filter);
    }
    for part in it: parts
        invariant
            texts(it.seq()) == all,
            texts(kept@) == all.take(it.index() as int).filter(name_filter()),
    {
        proof {
            let n = it.index() as int;
            assert(all[n] == part@);
            assert(all.take(n + 1).drop_last() == all.take(n));
            reveal(Seq::filter);
            lemma_texts_push(kept@, part);
        }
        if holds_name(&part) {
            kept.push(part);
        }
    }
    assert(all.take(all.len() as int) == all);
    kept
}

/// Writes out the absolute path that walks through `names`.
pub fn render(names: &Vec<Vec<char>>) -> (text: Vec<char>)
    ensures
        text@ == absolute_text(texts(names@)),
{
    let mut text: Vec<char> = Vec::new();
    if names.len() == 0 {
        text.push('/');
        assert(text@ =~= seq!['/']);
        return text;
    }
    let ghost all = texts(names@);
    let mut i: usize = 0;
    while i < names.len()
        invariant
            i <= names.len(),
            all == texts(names@),
            text@ == joined(all.take(i as int)),
        decreases names.len() - i,
    {
        let name = &names[i];
        text.push('/');
        append_range(&mut text, name, 0, name.len());
        proof {
            assert(name@.subrange(0, name.len() as int) == name@);
            assert(all.take(i as int + 1).drop_last() == all.take(i as int));
            assert(all.take(i as int + 1).last() == name@);
        }
        i += 1;
    }
    assert(all.take(names.len() as int) == all);
    text
}

/// Appends copies of the first `count` of `from` to `into`.
pub(crate) fn append_copies(into: &mut Vec<Vec<char>>, from: &Vec<Vec<char>>, count: usize)
    requires
        count <= from.len(),
    ensures
        texts(final(into)@) == texts(old(into)@) + texts(from@).take(count as int),
{
    let ghost before = texts(into@);
    let mut i: usize = 0;
    assert(texts(into@) =~= before + texts(from@).take(0));
    while i < count
        invariant
            i <= count <= from.len(),
            texts(into@) == before + texts(from@).take(i as int),
        decreases count - i,
    {
        let source = &from[i];
        let mut copy: Vec<char> = Vec::new();
        append_range(&mut copy, source, 0, source.len());
        proof {
            assert(copy@ =~= source@);
            lemma_texts_push(into@, copy);
            assert(before + texts(from@).take(i as int + 1) =~= (before + texts(from@).take(
                i as int,
            )).push(copy@));
        }
        into.push(copy);
        i += 1;
    }
}

/// Decides whether `path` begins with all of `prefix`, name by name.
pub fn begins_with(path: &Vec<Vec<char>>, prefix: &Vec<Vec<char>>) -> (b: bool)
    ensures
        b == texts(prefix@).is_prefix_of(texts(path@)),
{
    if prefix.len() > path.len() {
        return false;
    }
    let ghost head = texts(path@).subrange(0, prefix.len() as int);
    let mut i: usize = 0;
    while i < prefix.len()
        invariant
            i <= prefix.len() <= path.len(),
            head == texts(path@).subrange(0, prefix.len() as int),
            forall|k: int| 0 <= k < i ==> texts(prefix@)[k] == head[k],
        decreases prefix.len() - i,
    {
        if !same_text(&prefix[i], &path[i]) {
            assert(texts(prefix@)[i as int] != head[i as int]);
            return false;
        }
        i += 1;
    }
    assert(texts(prefix@) =~= head);
    true
}

/// Every text has a segment, if only an empty one.
pub proof fn lemma_segments_nonempty(p: Seq<char>)
    ensures
        segments(p).len() >= 1,
    decreases p.len(),
{
    if p.len() > 0 {
        lemma_segments_nonempty(p.drop_last());
    }
}

/// How the segments grow when one character is appended.
pub proof fn lemma_segments_push(p: Seq<char>, c: char)
    ensures
        segments(p).len() >= 1,
        c == '/' ==> segments(p.push(c)) == segments(p).push(Seq::empty()),
        c != '/' ==> segments(p.push(c)) == segments(p).drop_last().push(segments(p).last().push(c)),
{
    lemma_segments_nonempty(p);
    assert(p.push(c).drop_last() == p);
}

/// The last segment is what follows the last separator.
pub proof fn lemma_tail_start(p: Seq<char>)
    ensures
        0 <= tail_start(p) <= p.len(),
        tail_start(p) == 0 || p[tail_start(p) - 1] == '/',
        forall|j: int| tail_start(p) <= j < p.len() ==> p[j] != '/',
        segments(p).len() >= 1,
        segments(p).last() == p.skip(tail_start(p)),
    decreases p.len(),
{
    if p.len() == 0 {
        assert(segments(p).last() =~= p.skip(0));
    } else {
        let q = p.drop_last();
        lemma_tail_start(q);
        if p.last() == '/' {
            assert(segments(p).last() =~= p.skip(p.len() as int));
        } else {
            assert(q.skip(tail_start(q)).push(p.last()) =~= p.skip(tail_start(p)));
            assert forall|j: int| tail_start(p) <= j < p.len() implies p[j] != '/' by {
                if j < q.len() {
                    assert(q[j] == p[j]);
                }
            }
        }
    }
}

/// No segment holds a separator.
pub proof fn lemma_segments_hold_no_separator(p: Seq<char>)
    ensures
        forall|k: int, j: int|
            0 <= k < segments(p).len() && 0 <= j < segments(p)[k].len() ==> #[trigger] segments(
                p,
            )[k][j] != '/',
    decreases p.len(),
{
    if p.len() > 0 {
        let q = p.drop_last();
        lemma_segments_hold_no_separator(q);
        lemma_segments_nonempty(q);
        let before = segments(q);
        assert forall|k: int, j: int|
            0 <= k < segments(p).len() && 0 <= j < segments(p)[k].len() implies #[trigger] segments(
            p,
        )[k][j] != '/' by {
            if k < before.len() - 1 {
                assert(segments(p)[k] == before[k]);
            } else if p.last() != '/' && k == before.len() - 1 {
                if j < before.last().len() {
                    assert(segments(p)[k][j] == before[k][j]);
                }
            }
        }
    }
}

/// A text without separator is its own and only segment.
pub proof fn lemma_segments_of_plain(x: Seq<char>)
    requires
        !x.contains('/'),
    ensures
        segments(x) == seq![x],
    decreases x.len(),
{
    if x.len() == 0 {
        assert(x =~= Seq::empty());
    } else {
        let init = x.drop_last();
        assert(x.last() == x[x.len() - 1]);
        assert forall|j: int| 0 <= j < init.len() implies init[j] != '/' by {
            assert(init[j] == x[j]);
        }
        lemma_segments_of_plain(init);
        assert(x.last() != '/');
        assert(seq![init].drop_last() =~= Seq::<Seq<char>>::empty());
        assert(seq![init].last().push(x.last()) =~= x);
        assert(segments(x) =~= seq![x]);
    }
}

/// The segments of two texts joined by a separator are those of the first
/// followed by those of the second.
pub proof fn lemma_segments_join(a: Seq<char>, b: Seq<char>)
    ensures
        segments(a + seq!['/'] + b) == segments(a) + segments(b),
    decreases b.len(),
{
    lemma_segments_nonempty(a);
    if b.len() == 0 {
        assert(a + seq!['/'] + b == a.push('/'));
        lemma_segments_push(a, '/');
        assert(segments(a).push(Seq::empty()) =~= segments(a) + segments(b));
    } else {
        let init = b.drop_last();
        let c = b.last();
        lemma_segments_join(a, init);
        lemma_segments_nonempty(init);
        assert(a + seq!['/'] + b == (a + seq!['/'] + init).push(c));
        assert(b == init.push(c));
        lemma_segments_push(a + seq!['/'] + init, c);
        lemma_segments_push(init, c);
        let whole = segments(a) + segments(init);
        if c == '/' {
            assert(whole.push(Seq::empty()) =~= segments(a) + segments(init).push(Seq::empty()));
        } else {
            assert(whole.last() == segments(init).last());
            assert(whole.drop_last() =~= segments(a) + segments(init).drop_last());
            assert(whole.drop_last().push(whole.last().push(c)) =~= segments(a) + segments(
                init,
            ).drop_last().push(segments(init).last().push(c)));
        }
    }
}

/// The last segment is the parent marker exactly where the text ends in one.
proof fn lemma_parent_marker_at_end(p: Seq<char>)
    ensures
        segments(p).len() >= 1,
        segments(p).last() == parent_marker() <==> parent_marker_at(p, p.len() - 2),
{
    lemma_tail_start(p);
    let start = tail_start(p);
    let tail = p.skip(start);
    if tail == parent_marker() {
        assert(tail.len() == 2);
        assert(tail[0] == '.' && tail[1] == '.');
    }
    if parent_marker_at(p, p.len() - 2) {
        let i = p.len() - 2;
        if start > i {
            assert(p[start - 1] == '/');
        }
        if start < i {
            assert(p[i - 1] == '/');
        }
        assert(tail =~= parent_marker());
    }
}

/// Among the segments that a separator has closed there is a parent marker
/// exactly where one stands in the text in front of a separator.
proof fn lemma_closed_parent_segments(p: Seq<char>)
    ensures
        segments(p).len() >= 1,
        segments(p).drop_last().contains(parent_marker()) <==> exists|i: int|
            parent_marker_at(p, i) && i + 2 < p.len(),
    decreases p.len(),
{
    lemma_segments_nonempty(p);
    let closed = segments(p).drop_last();
    if p.len() == 0 {
        assert(closed.len() == 0);
    } else {
        let q = p.drop_last();
        let c = p.last();
        lemma_closed_parent_segments(q);
        lemma_parent_marker_at_end(q);
        assert(p == q.push(c));
        lemma_segments_push(q, c);
        let before = segments(q);
        if c == '/' {
            assert(closed =~= before);
            if closed.contains(parent_marker()) {
                let k = choose|k: int| 0 <= k < closed.len() && closed[k] == parent_marker();
                if k < before.len() - 1 {
                    assert(before.drop_last()[k] == parent_marker());
                    let i = choose|i: int| parent_marker_at(q, i) && i + 2 < q.len();
                    assert(parent_marker_at(p, i) && i + 2 < p.len());
                } else {
                    let i = q.len() - 2;
                    assert(parent_marker_at(p, i) && i + 2 < p.len());
                }
            }
            if exists|i: int| parent_marker_at(p, i) && i + 2 < p.len() {
                let i = choose|i: int| parent_marker_at(p, i) && i + 2 < p.len();
                if i + 2 < q.len() {
                    assert(parent_marker_at(q, i) && i + 2 < q.len());
                    let k = choose|k: int|
                        0 <= k < before.drop_last().len() && before.drop_last()[k]
                            == parent_marker();
                    assert(closed[k] == parent_marker());
                } else {
                    assert(parent_marker_at(q, q.len() - 2));
                    assert(closed[before.len() - 1] == parent_marker());
                }
            }
        } else {
            assert(closed =~= before.drop_last());
            if exists|i: int| parent_marker_at(q, i) && i + 2 < q.len() {
                let i = choose|i: int| parent_marker_at(q, i) && i + 2 < q.len();
                assert(parent_marker_at(p, i) && i + 2 < p.len());
            }
            if exists|i: int| parent_marker_at(p, i) && i + 2 < p.len() {
                let i = choose|i: int| parent_marker_at(p, i) && i + 2 < p.len();
                assert(parent_marker_at(q, i) && i + 2 < q.len());
            }
        }
    }
}

/// A text has a parent marker among its segments exactly where one stands in
/// it as a whole segment: at the front, in the middle or at the end.
pub proof fn lemma_parent_segment_places(p: Seq<char>)
    ensures
        has_parent_segment(p) <==> exists|i: int| parent_marker_at(p, i),
{
    lemma_closed_parent_segments(p);
    lemma_parent_marker_at_end(p);
    let all = segments(p);
    let closed = all.drop_last();
    if all.contains(parent_marker()) {
        let k = choose|k: int| 0 <= k < all.len() && all[k] == parent_marker();
        if k < all.len() - 1 {
            assert(closed[k] == parent_marker());
            let i = choose|i: int| parent_marker_at(p, i) && i + 2 < p.len();
            assert(parent_marker_at(p, i));
        } else {
            assert(parent_marker_at(p, p.len() - 2));
        }
    }
    if exists|i: int| parent_marker_at(p, i) {
        let i = choose|i: int| parent_marker_at(p, i);
        if i + 2 < p.len() {
            let k = choose|k: int| 0 <= k < closed.len() && closed[k] == parent_marker();
            assert(all[k] == parent_marker());
        } else {
            assert(all[all.len() - 1] == parent_marker());
        }
    }
}

/// The names of a text without parent markers can all be steps.
pub proof fn lemma_names_are_steps(p: Seq<char>)
    requires
        !has_parent_segment(p),
    ensures
        is_walk(names(p)),
{
    let all = segments(p);
    let walk = names(p);
    lemma_segments_hold_no_separator(p);
    assert forall|k: int| 0 <= k < walk.len() implies is_step(#[trigger] walk[k]) by {
        all.lemma_filter_pred(name_filter(), k);
        assert(walk.contains(walk[k]));
        all.lemma_filter_contains_rev(name_filter(), walk[k]);
        let at = choose|at: int| 0 <= at < all.len() && all[at] == walk[k];
        assert forall|j: int| 0 <= j < walk[k].len() implies walk[k][j] != '/' by {
            assert(all[at][j] != '/');
        }
    }
}

/// A parent marker takes two characters.
pub proof fn lemma_parent_segment_takes_room(p: Seq<char>)
    requires
        has_parent_segment(p),
    ensures
        p.len() >= 2,
{
    lemma_parent_segment_places(p);
}

/// One walk after another is a walk.
pub proof fn lemma_walks_add_up(first: Seq<Seq<char>>, second: Seq<Seq<char>>)
    requires
        is_walk(first),
        is_walk(second),
    ensures
        is_walk(first + second),
{
    let whole = first + second;
    assert forall|k: int| 0 <= k < whole.len() implies is_step(#[trigger] whole[k]) by {
        if k < first.len() {
            assert(whole[k] == first[k]);
        } else {
            assert(whole[k] == second[k - first.len()]);
        }
    }
}

/// A stretch of a walk is a walk.
pub proof fn lemma_walk_in_part(walk: Seq<Seq<char>>, from: int, to: int)
    requires
        is_walk(walk),
        0 <= from <= to <= walk.len(),
    ensures
        is_walk(walk.subrange(from, to)),
{
    let part = walk.subrange(from, to);
    assert forall|k: int| 0 <= k < part.len() implies is_step(#[trigger] part[k]) by {
        assert(part[k] == walk[from + k]);
    }
}

/// Filtering keeps all of a walk.
proof fn lemma_walk_passes_filter(walk: Seq<Seq<char>>)
    requires
        is_walk(walk),
    ensures
        walk.filter(name_filter()) == walk,
    decreases walk.len(),
{
    reveal(Seq::filter);
    if walk.len() > 0 {
        let init = walk.drop_last();
        lemma_walk_in_part(walk, 0, walk.len() - 1);
        lemma_walk_passes_filter(init);
        assert(is_step(walk[walk.len() - 1]));
        assert(init.push(walk.last()) =~= walk);
    }
}

/// The segments of a joined walk are an empty segment, for what stands in
/// front of the first separator, and then its steps.
pub proof fn lemma_segments_of_joined(walk: Seq<Seq<char>>)
    requires
        is_walk(walk),
    ensures
        segments(joined(walk)) == seq![Seq::<char>::empty()] + walk,
    decreases walk.len(),
{
    if walk.len() == 0 {
        assert(segments(joined(walk)) =~= seq![Seq::<char>::empty()] + walk);
    } else {
        let init = walk.drop_last();
        lemma_walk_in_part(walk, 0, walk.len() - 1);
        lemma_segments_of_joined(init);
        assert(is_step(walk[walk.len() - 1]));
        lemma_segments_join(joined(init), walk.last());
        lemma_segments_of_plain(walk.last());
        assert(seq![Seq::<char>::empty()] + init + seq![walk.last()] =~= seq![
            Seq::<char>::empty(),
        ] + walk);
    }
}

/// Empty segments in front of a walk leave its names as they are.
proof fn lemma_names_behind_blanks(lead: Seq<Seq<char>>, walk: Seq<Seq<char>>)
    requires
        is_walk(walk),
        forall|k: int| 0 <= k < lead.len() ==> lead[k].len() == 0,
    ensures
        (lead + walk).filter(name_filter()) == walk,
    decreases lead.len(),
{
    Seq::filter_distributes_over_add(lead, walk, name_filter());
    lemma_walk_passes_filter(walk);
    lemma_blanks_are_filtered(lead);
    assert(Seq::<Seq<char>>::empty() + walk =~= walk);
}

/// Nothing is left of empty segments when the names are kept.
proof fn lemma_blanks_are_filtered(lead: Seq<Seq<char>>)
    requires
        forall|k: int| 0 <= k < lead.len() ==> lead[k].len() == 0,
    ensures
        lead.filter(name_filter()) == Seq::<Seq<char>>::empty(),
    decreases lead.len(),
{
    reveal(Seq::filter);
    if lead.len() > 0 {
        let init = lead.drop_last();
        assert forall|k: int| 0 <= k < init.len() implies init[k].len() == 0 by {
            assert(init[k] == lead[k]);
        }
        lemma_blanks_are_filtered(init);
        assert(lead[lead.len() - 1].len() == 0);
    }
}

/// The text of a walk with at least one step starts with a separator.
proof fn lemma_joined_starts_with_separator(walk: Seq<Seq<char>>)
    requires
        walk.len() > 0,
    ensures
        joined(walk).len() > 0,
        joined(walk)[0] == '/',
    decreases walk.len(),
{
    let init = walk.drop_last();
    if init.len() > 0 {
        lemma_joined_starts_with_separator(init);
    } else {
        assert(joined(init) =~= Seq::<char>::empty());
    }
}

/// The segments of the text of a walk: its steps, behind the empty segment
/// that stands in front of the first separator. The text of the empty walk is
/// one separator between two empty segments.
proof fn lemma_segments_of_absolute_text(walk: Seq<Seq<char>>) -> (lead: Seq<Seq<char>>)
    requires
        is_walk(walk),
    ensures
        segments(absolute_text(walk)) == lead + walk,
        forall|k: int| 0 <= k < lead.len() ==> lead[k].len() == 0,
        is_absolute(absolute_text(walk)),
{
    let blank = Seq::<char>::empty();
    if walk.len() == 0 {
        assert(absolute_text(walk) =~= blank + seq!['/'] + blank);
        lemma_segments_join(blank, blank);
        lemma_segments_of_plain(blank);
        assert(seq![blank] + seq![blank] =~= seq![blank, blank] + walk);
        seq![blank, blank]
    } else {
        lemma_segments_of_joined(walk);
        lemma_joined_starts_with_separator(walk);
        seq![blank]
    }
}

/// The text of a walk has no parent marker among its segments.
proof fn lemma_absolute_text_is_anchored(walk: Seq<Seq<char>>)
    requires
        is_walk(walk),
    ensures
        is_anchored(absolute_text(walk)),
{
    let all = segments(absolute_text(walk));
    let lead = lemma_segments_of_absolute_text(walk);
    if all.contains(parent_marker()) {
        let k = choose|k: int| 0 <= k < all.len() && all[k] == parent_marker();
        if k < lead.len() {
            assert(all[k] == lead[k]);
        } else {
            assert(all[k] == walk[k - lead.len()]);
        }
    }
}

/// Written out and read again, a walk is what it was: its text is absolute,
/// has no parent marker, and has the steps of the walk as its names.
pub proof fn lemma_names_of_absolute_text(walk: Seq<Seq<char>>)
    requires
        is_walk(walk),
    ensures
        is_anchored(absolute_text(walk)),
        names(absolute_text(walk)) == walk,
        is_inside(walk, absolute_text(walk)),
{
    lemma_absolute_text_is_anchored(walk);
    let lead = lemma_segments_of_absolute_text(walk);
    lemma_names_behind_blanks(lead, walk);
    assert(walk.is_prefix_of(walk));
}

/// The texts of a list that grew by one are the texts of the list and the
/// text of the one.
pub proof fn lemma_texts_push(parts: Seq<Vec<char>>, part: Vec<char>)
    ensures
        texts(parts.push(part)) == texts(parts).push(part@),
{
    assert(texts(parts.push(part)) =~= texts(parts).push(part@));
}

} // verus!
