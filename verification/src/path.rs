//! Paths as the library sees them: an optional root and a list of
//! segments, with the normalization of user-supplied relative paths.
use vstd::prelude::*;

use crate::text::{
    append_str, chars_of, push_char, string_of_range, trim_end_by, trim_slash_bounds, trim_slashes,
    trim_start_by,
};

verus! {

/// A path: whether it starts at the filesystem root, and its segments.
#[derive(Clone, Debug, PartialEq, Eq)]
pub struct MediaPath {
    pub absolute: bool,
    pub segments: Vec<String>,
}

/// The mathematical value of a [`MediaPath`].
pub struct PathModel {
    pub absolute: bool,
    pub segments: Seq<Seq<char>>,
}

impl View for MediaPath {
    type V = PathModel;

    open spec fn view(&self) -> PathModel {
        PathModel { absolute: self.absolute, segments: self.segments@.map_values(|s: String| s@) }
    }
}

/// The text `..`.
pub open spec fn parent_marker() -> Seq<char> {
    seq!['.', '.']
}

/// The text `.`.
pub open spec fn current_marker() -> Seq<char> {
    seq!['.']
}

/// A segment that names an entry: not empty, not `.` and not `..`.
pub open spec fn is_normal_segment(p: Seq<char>) -> bool {
    p.len() > 0 && p != current_marker() && p != parent_marker() && !p.contains('/')
}

/// The pieces of `s` between slashes (`str::split('/')`): one more piece
/// than there are slashes, empty pieces included.
pub open spec fn split_slash(s: Seq<char>) -> Seq<Seq<char>>
    decreases s.len(),
{
    if s.len() == 0 {
        seq![Seq::empty()]
    } else {
        let p = split_slash(s.drop_last());
        if s.last() == '/' {
            p.push(Seq::empty())
        } else {
            p.update(p.len() - 1, p.last().push(s.last()))
        }
    }
}

/// The pieces that `Path::components` keeps of a relative path: all but the
/// empty pieces and `.`.
pub open spec fn keep_components(ps: Seq<Seq<char>>) -> Seq<Seq<char>>
    decreases ps.len(),
{
    if ps.len() == 0 {
        Seq::empty()
    } else {
        let k = keep_components(ps.drop_last());
        if ps.last().len() > 0 && ps.last() != current_marker() {
            k.push(ps.last())
        } else {
            k
        }
    }
}

/// Whether some piece is `..`.
pub open spec fn has_parent_marker(ps: Seq<Seq<char>>) -> bool {
    exists|k: int| 0 <= k < ps.len() && ps[k] == parent_marker()
}

/// What a request path normalizes to: after removing the slashes at both
/// ends, the path is refused when one of its pieces is `..`; otherwise its
/// segments are the pieces that are neither empty nor `.`.
pub open spec fn normalized_segments(raw: Seq<char>) -> Option<Seq<Seq<char>>> {
    let pieces = split_slash(trim_slashes(raw));
    if has_parent_marker(pieces) {
        None
    } else {
        Some(keep_components(pieces))
    }
}

/// The segments joined with `/`.
pub open spec fn join_segments(segs: Seq<Seq<char>>) -> Seq<char>
    decreases segs.len(),
{
    if segs.len() == 0 {
        Seq::empty()
    } else if segs.len() == 1 {
        segs[0]
    } else {
        join_segments(segs.drop_last()) + seq!['/'] + segs.last()
    }
}

/// The text of a path, as `Path::to_string_lossy` shows a path made of these
/// components.
pub open spec fn path_text(p: PathModel) -> Seq<char> {
    if p.absolute {
        seq!['/'] + join_segments(p.segments)
    } else {
        join_segments(p.segments)
    }
}

/// `dir.join(name)` for a single segment.
pub open spec fn child_model(dir: PathModel, name: Seq<char>) -> PathModel {
    PathModel { absolute: dir.absolute, segments: dir.segments.push(name) }
}

/// `base.join(rel)`: a relative path is appended, an absolute one replaces.
pub open spec fn join_model(base: PathModel, rel: PathModel) -> PathModel {
    if rel.absolute {
        rel
    } else {
        PathModel { absolute: base.absolute, segments: base.segments + rel.segments }
    }
}

/// The segments of the path's parent (`Path::parent`), or the segments
/// themselves when there are none.
pub open spec fn parent_or_self(segs: Seq<Seq<char>>) -> Seq<Seq<char>> {
    if segs.len() > 0 {
        segs.drop_last()
    } else {
        segs
    }
}

proof fn lemma_split_slash_nonempty(s: Seq<char>)
    ensures
        split_slash(s).len() >= 1,
    decreases s.len(),
{
    if s.len() > 0 {
        lemma_split_slash_nonempty(s.drop_last());
    }
}

proof fn lemma_keep_components_normal(ps: Seq<Seq<char>>)
    requires
        !has_parent_marker(ps),
        forall|k: int| 0 <= k < ps.len() ==> !(#[trigger] ps[k]).contains('/'),
    ensures
        forall|k: int|
            0 <= k < keep_components(ps).len() ==> is_normal_segment(
                #[trigger] keep_components(ps)[k],
            ),
    decreases ps.len(),
{
    if ps.len() > 0 {
        let q = ps.drop_last();
        assert forall|k: int| 0 <= k < q.len() implies !(#[trigger] q[k]).contains('/') by {
            assert(q[k] == ps[k]);
        }
        if has_parent_marker(q) {
            let k = choose|k: int| 0 <= k < q.len() && q[k] == parent_marker();
            assert(ps[k] == parent_marker());
        }
        lemma_keep_components_normal(q);
        let last = ps[ps.len() - 1];
        assert(ps.last() == last);
        assert(last != parent_marker());
        assert(!last.contains('/'));
        let kq = keep_components(q);
        let kp = keep_components(ps);
        assert forall|k: int| 0 <= k < kp.len() implies is_normal_segment(#[trigger] kp[k]) by {
            if k < kq.len() {
                assert(kp[k] == kq[k]);
            }
        }
    }
}

pub proof fn lemma_split_slash_no_slash(s: Seq<char>)
    ensures
        forall|k: int|
            0 <= k < split_slash(s).len() ==> !(#[trigger] split_slash(s)[k]).contains('/'),
    decreases s.len(),
{
    if s.len() > 0 {
        let p = split_slash(s.drop_last());
        lemma_split_slash_no_slash(s.drop_last());
        lemma_split_slash_nonempty(s.drop_last());
        if s.last() != '/' {
            let last = p.last().push(s.last());
            assert(!last.contains('/')) by {
                if last.contains('/') {
                    let i = choose|i: int| 0 <= i < last.len() && last[i] == '/';
                    if i < last.len() - 1 {
                        assert(p[p.len() - 1][i] == '/');
                    }
                }
            }
            assert forall|k: int|
                0 <= k < split_slash(s).len() implies !(#[trigger] split_slash(s)[k]).contains(
                '/',
            ) by {
                if k < p.len() - 1 {
                    assert(split_slash(s)[k] == p[k]);
                }
            }
        } else {
            assert forall|k: int|
                0 <= k < split_slash(s).len() implies !(#[trigger] split_slash(s)[k]).contains(
                '/',
            ) by {
                if k < p.len() {
                    assert(split_slash(s)[k] == p[k]);
                } else {
                    assert(split_slash(s)[k] =~= Seq::<char>::empty());
                }
            }
        }
    }
}

/// Every segment of a normalized path names an entry: it is never empty,
/// `.`, `..`, and holds no `/`.
pub proof fn lemma_normalized_segments_are_normal(raw: Seq<char>)
    ensures
        normalized_segments(raw) matches Some(segs) ==> forall|k: int|
            0 <= k < segs.len() ==> is_normal_segment(#[trigger] segs[k]),
{
    let pieces = split_slash(trim_slashes(raw));
    if !has_parent_marker(pieces) {
        lemma_split_slash_no_slash(trim_slashes(raw));
        lemma_keep_components_normal(pieces);
    }
}

proof fn lemma_split_append(s: Seq<char>, t: Seq<char>)
    requires
        !t.contains('/'),
    ensures
        split_slash(s + t) == split_slash(s).update(
            split_slash(s).len() - 1,
            split_slash(s).last() + t,
        ),
    decreases t.len(),
{
    lemma_split_slash_nonempty(s);
    let p = split_slash(s);
    if t.len() == 0 {
        assert(s + t =~= s);
        assert(p.last() + t =~= p.last());
        assert(p.update(p.len() - 1, p.last()) =~= p);
    } else {
        let u = t.drop_last();
        assert(!u.contains('/')) by {
            if u.contains('/') {
                let i = choose|i: int| 0 <= i < u.len() && u[i] == '/';
                assert(t[i] == '/');
            }
        }
        lemma_split_append(s, u);
        assert((s + t).drop_last() =~= s + u);
        assert((s + t).last() == t.last());
        assert(t.last() != '/') by {
            assert(t[t.len() - 1] == t.last());
        }
        let q = split_slash(s + u);
        assert(q.last() == p.last() + u);
        assert(q.update(q.len() - 1, q.last().push(t.last())) =~= p.update(
            p.len() - 1,
            p.last() + t,
        )) by {
            assert((p.last() + u).push(t.last()) =~= p.last() + t);
        }
    }
}

pub proof fn lemma_split_join(segs: Seq<Seq<char>>)
    requires
        segs.len() >= 1,
        forall|k: int| 0 <= k < segs.len() ==> !(#[trigger] segs[k]).contains('/'),
    ensures
        split_slash(join_segments(segs)) == segs,
    decreases segs.len(),
{
    if segs.len() == 1 {
        lemma_split_append(Seq::empty(), segs[0]);
        assert(Seq::<char>::empty() + segs[0] =~= segs[0]);
        assert(split_slash(Seq::<char>::empty()) =~= seq![Seq::<char>::empty()]);
        assert(Seq::<char>::empty() + segs[0] =~= segs[0]);
        assert(seq![Seq::<char>::empty()].update(0, Seq::<char>::empty() + segs[0]) =~= segs);
    } else {
        let init = segs.drop_last();
        assert forall|k: int| 0 <= k < init.len() implies !(#[trigger] init[k]).contains('/') by {
            assert(init[k] == segs[k]);
        }
        lemma_split_join(init);
        let a = join_segments(init) + seq!['/'];
        assert(!segs.last().contains('/')) by {
            assert(segs[segs.len() - 1] == segs.last());
        }
        lemma_split_append(a, segs.last());
        assert(a.drop_last() =~= join_segments(init));
        assert(a.last() == '/');
        assert(split_slash(a) == init.push(Seq::empty()));
        assert(Seq::<char>::empty() + segs.last() =~= segs.last());
        assert(init.push(Seq::empty()).update(init.len() as int, Seq::<char>::empty() + segs.last())
            =~= segs);
    }
}

proof fn lemma_join_ends(segs: Seq<Seq<char>>)
    requires
        segs.len() >= 1,
        forall|k: int| 0 <= k < segs.len() ==> (#[trigger] segs[k]).len() > 0,
    ensures
        join_segments(segs).len() > 0,
        join_segments(segs)[0] == segs[0][0],
        join_segments(segs).last() == segs.last().last(),
    decreases segs.len(),
{
    if segs.len() > 1 {
        let init = segs.drop_last();
        assert forall|k: int| 0 <= k < init.len() implies (#[trigger] init[k]).len() > 0 by {
            assert(init[k] == segs[k]);
        }
        lemma_join_ends(init);
        assert(init[0] == segs[0]);
        assert(segs[segs.len() - 1].len() > 0);
    }
}

proof fn lemma_keep_normal(segs: Seq<Seq<char>>)
    requires
        forall|k: int| 0 <= k < segs.len() ==> is_normal_segment(#[trigger] segs[k]),
    ensures
        keep_components(segs) == segs,
    decreases segs.len(),
{
    if segs.len() > 0 {
        let init = segs.drop_last();
        assert forall|k: int| 0 <= k < init.len() implies is_normal_segment(#[trigger] init[k]) by {
            assert(init[k] == segs[k]);
        }
        lemma_keep_normal(init);
        assert(is_normal_segment(segs[segs.len() - 1]));
        assert(init.push(segs.last()) =~= segs);
    }
}

/// Normalizing is idempotent: the text of a normalized path, normalized
/// again, gives the same segments.
pub proof fn lemma_normalize_idempotent(raw: Seq<char>)
    ensures
        normalized_segments(raw) matches Some(segs) ==> normalized_segments(join_segments(segs))
            == Some(segs),
{
    lemma_normalized_segments_are_normal(raw);
    if let Some(segs) = normalized_segments(raw) {
        let j = join_segments(segs);
        if segs.len() == 0 {
            assert(trim_slashes(j) =~= Seq::<char>::empty());
            assert(split_slash(Seq::<char>::empty()) =~= seq![Seq::<char>::empty()]);
            assert(!has_parent_marker(seq![Seq::<char>::empty()])) by {
                if has_parent_marker(seq![Seq::<char>::empty()]) {
                    assert(seq![Seq::<char>::empty()][0] == parent_marker());
                    assert(parent_marker().len() == 2);
                }
            }
            assert(keep_components(seq![Seq::<char>::empty()]) =~= Seq::<Seq<char>>::empty()) by {
                assert(seq![Seq::<char>::empty()].drop_last() =~= Seq::<Seq<char>>::empty());
                assert(keep_components(Seq::<Seq<char>>::empty()) == Seq::<Seq<char>>::empty());
                assert(seq![Seq::<char>::empty()].last().len() == 0);
            }
        } else {
            assert forall|k: int| 0 <= k < segs.len() implies (#[trigger] segs[k]).len() > 0 && !segs[k].contains('/') by {
                assert(is_normal_segment(segs[k]));
            }
            lemma_join_ends(segs);
            assert(segs[0][0] != '/') by {
                assert(!segs[0].contains('/'));
            }
            assert(segs.last().last() != '/') by {
                assert(segs[segs.len() - 1] == segs.last());
                assert(!segs.last().contains('/'));
                assert(segs.last()[segs.last().len() - 1] == segs.last().last());
            }
            let p = |c: char| c == '/';
            assert(trim_start_by(j, p) == j);
            assert(trim_end_by(j, p) == j);
            assert(trim_slashes(j) == j);
            lemma_split_join(segs);
            assert(!has_parent_marker(segs)) by {
                if has_parent_marker(segs) {
                    let k = choose|k: int| 0 <= k < segs.len() && segs[k] == parent_marker();
                    assert(is_normal_segment(segs[k]));
                }
            }
            lemma_keep_normal(segs);
        }
    }
}

fn is_dot_piece(cs: &Vec<char>, from: usize, to: usize) -> (r: (bool, bool))
    requires
        from <= to <= cs@.len(),
    ensures
        r.0 == (cs@.subrange(from as int, to as int) == current_marker()),
        r.1 == (cs@.subrange(from as int, to as int) == parent_marker()),
{
    let piece = Ghost(cs@.subrange(from as int, to as int));
    assert(piece@.len() == to - from);
    let one = to - from == 1 && cs[from] == '.';
    let two = to - from == 2 && cs[from] == '.' && cs[from + 1] == '.';
    proof {
        if one {
            assert(piece@ =~= current_marker());
        }
        if two {
            assert(piece@ =~= parent_marker());
        }
        if piece@ == current_marker() {
            assert(piece@[0] == '.');
        }
        if piece@ == parent_marker() {
            assert(piece@[0] == '.' && piece@[1] == '.');
        }
    }
    (one, two)
}

proof fn lemma_split_step(s: Seq<char>, i: int, done: Seq<Seq<char>>, start: int)
    requires
        0 <= start <= i < s.len(),
        split_slash(s.take(i)) == done.push(s.subrange(start, i)),
    ensures
        s[i] == '/' ==> split_slash(s.take(i + 1)) == done.push(s.subrange(start, i)).push(
            s.subrange(i + 1, i + 1),
        ),
        s[i] != '/' ==> split_slash(s.take(i + 1)) == done.push(s.subrange(start, i + 1)),
{
    let t = s.take(i + 1);
    assert(t.drop_last() == s.take(i));
    assert(t.last() == s[i]);
    if s[i] == '/' {
        assert(s.subrange(i + 1, i + 1) =~= Seq::<char>::empty());
    } else {
        let p = done.push(s.subrange(start, i));
        assert(s.subrange(start, i).push(s[i]) =~= s.subrange(start, i + 1));
        assert(p.update(p.len() - 1, p.last().push(s[i])) =~= done.push(s.subrange(start, i + 1)));
    }
}

/// One step of [`keep_components`]: `piece` is kept when it is neither empty
/// nor `.`.
pub open spec fn keep_step(kept: Seq<Seq<char>>, piece: Seq<char>) -> Seq<Seq<char>> {
    if piece.len() > 0 && piece != current_marker() {
        kept.push(piece)
    } else {
        kept
    }
}

/// Ends the piece `cs[start..end]`: says whether it is `..`, and adds it to
/// `segs` unless it is empty or `.`.
fn close_piece(cs: &Vec<char>, start: usize, end: usize, segs: &mut Vec<String>) -> (is_parent:
    bool)
    requires
        start <= end <= cs@.len(),
    ensures
        is_parent == (cs@.subrange(start as int, end as int) == parent_marker()),
        final(segs)@.map_values(|s: String| s@) == keep_step(
            old(segs)@.map_values(|s: String| s@),
            cs@.subrange(start as int, end as int),
        ),
{
    let (dot, dotdot) = is_dot_piece(cs, start, end);
    let ghost before = segs@;
    if !dot && end > start {
        let seg = string_of_range(cs.as_slice(), start, end);
        segs.push(seg);
        assert(segs@.map_values(|s: String| s@) =~= before.map_values(|s: String| s@).push(seg@));
    }
    dotdot
}

/// Normalizes a path taken from a request: slashes at both ends are
/// dropped, as are empty and `.` pieces; a `..` piece makes the path
/// invalid (`None`).
pub fn normalize_segments(raw: &str) -> (r: Option<Vec<String>>)
    ensures
        r matches Some(v) ==> normalized_segments(raw@) == Some(v@.map_values(|s: String| s@)),
        r is None ==> normalized_segments(raw@) is None,
{
    let cs = chars_of(raw);
    let (a, b) = trim_slash_bounds(&cs);
    let ghost t = cs@.subrange(a as int, b as int);
    let mut segs: Vec<String> = Vec::new();
    let ghost mut done: Seq<Seq<char>> = Seq::empty();
    let mut start: usize = a;
    let mut i: usize = a;
    proof {
        assert(t.take(0) =~= Seq::<char>::empty());
        assert(t.subrange(0, 0) =~= Seq::<char>::empty());
        assert(segs@.map_values(|s: String| s@) =~= keep_components(done));
    }
    while i < b
        invariant
            a <= start <= i <= b <= cs@.len(),
            cs@ == raw@,
            t == cs@.subrange(a as int, b as int),
            t == trim_slashes(raw@),
            split_slash(t.take(i - a)) == done.push(t.subrange(start - a, i - a)),
            !has_parent_marker(done),
            segs@.map_values(|s: String| s@) == keep_components(done),
        decreases b - i,
    {
        proof {
            lemma_split_step(t, i - a, done, start - a);
            assert(t[i - a] == cs@[i as int]);
        }
        if cs[i] == '/' {
            let ghost piece = t.subrange(start - a, i - a);
            assert(piece == cs@.subrange(start as int, i as int));
            let ghost old_done = done;
            let is_parent = close_piece(&cs, start, i, &mut segs);
            if is_parent {
                proof {
                    lemma_split_prefix(t, i - a + 1);
                    lemma_split_slash_nonempty(t);
                    assert(split_slash(t)[done.len() as int] == piece);
                }
                return None;
            }
            proof {
                done = done.push(piece);
                assert(done.drop_last() == old_done);
                assert forall|k: int| 0 <= k < done.len() implies done[k] != parent_marker() by {
                    if k < old_done.len() {
                        assert(done[k] == old_done[k]);
                    }
                }
                assert(t.subrange(i - a + 1, i - a + 1) =~= Seq::<char>::empty());
            }
            start = i + 1;
        }
        i = i + 1;
    }
    let ghost piece = t.subrange(start - a, i - a);
    assert(piece == cs@.subrange(start as int, b as int));
    assert(t.take(i - a) == t);
    let ghost old_done = done;
    let is_parent = close_piece(&cs, start, b, &mut segs);
    if is_parent {
        assert(split_slash(t)[done.len() as int] == piece);
        return None;
    }
    proof {
        done = done.push(piece);
        assert(done.drop_last() == old_done);
        assert forall|k: int| 0 <= k < done.len() implies done[k] != parent_marker() by {
            if k < old_done.len() {
                assert(done[k] == old_done[k]);
            }
        }
    }
    Some(segs)
}

proof fn lemma_split_prefix(s: Seq<char>, j: int)
    requires
        0 <= j <= s.len(),
    ensures
        split_slash(s).len() >= split_slash(s.take(j)).len(),
        forall|k: int|
            0 <= k < split_slash(s.take(j)).len() - 1 ==> #[trigger] split_slash(s)[k]
                == split_slash(s.take(j))[k],
    decreases s.len() - j,
{
    lemma_split_slash_nonempty(s);
    lemma_split_slash_nonempty(s.take(j));
    if j < s.len() {
        lemma_split_prefix(s.drop_last(), j);
        assert(s.drop_last().take(j) == s.take(j));
        lemma_split_slash_nonempty(s.drop_last());
        let p = split_slash(s.drop_last());
        assert forall|k: int| 0 <= k < p.len() - 1 implies #[trigger] split_slash(s)[k] == p[k] by {
        }
    } else {
        assert(s.take(j) == s);
    }
}

/// The text of a path's segments joined with `/`.
pub fn join_segments_text(segs: &Vec<String>) -> (r: String)
    ensures
        r@ == join_segments(segs@.map_values(|s: String| s@)),
{
    let ghost m = segs@.map_values(|s: String| s@);
    let mut r = String::new();
    let mut i: usize = 0;
    while i < segs.len()
        invariant
            i <= segs@.len(),
            m == segs@.map_values(|s: String| s@),
            r@ == join_segments(m.take(i as int)),
        decreases segs@.len() - i,
    {
        proof {
            assert(m.take(i + 1).drop_last() == m.take(i as int));
            assert(m.take(i + 1).last() == segs@[i as int]@);
        }
        if i > 0 {
            push_char(&mut r, '/');
        } else {
            assert(m.take(1)[0] == segs@[0]@);
            assert(r@ =~= Seq::<char>::empty());
        }
        append_str(&mut r, segs[i].as_str());
        i = i + 1;
    }
    assert(m.take(segs@.len() as int) == m);
    r
}

impl MediaPath {
    /// A copy of the path.
    pub fn duplicate(&self) -> (r: MediaPath)
        ensures
            r@ == self@,
    {
        let r = MediaPath { absolute: self.absolute, segments: self.segments.clone() };
        assert(r@.segments =~= self@.segments);
        r
    }

    /// The empty relative path.
    pub fn empty() -> (r: MediaPath)
        ensures
            !r@.absolute,
            r@.segments == Seq::<Seq<char>>::empty(),
    {
        let r = MediaPath { absolute: false, segments: Vec::new() };
        assert(r@.segments =~= Seq::<Seq<char>>::empty());
        r
    }

    /// `self.join(rel)`.
    pub fn join(&self, rel: &MediaPath) -> (r: MediaPath)
        ensures
            r@ == join_model(self@, rel@),
    {
        if rel.absolute {
            return MediaPath { absolute: true, segments: rel.segments.clone() };
        }
        let mut segments = self.segments.clone();
        let mut i: usize = 0;
        while i < rel.segments.len()
            invariant
                i <= rel.segments@.len(),
                segments@ == self.segments@ + rel.segments@.take(i as int),
            decreases rel.segments@.len() - i,
        {
            segments.push(rel.segments[i].clone());
            assert(rel.segments@.take(i + 1) == rel.segments@.take(i as int).push(rel.segments@[i as int]));
            i = i + 1;
        }
        let r = MediaPath { absolute: self.absolute, segments };
        assert(rel.segments@.take(rel.segments@.len() as int) == rel.segments@);
        assert(r@.segments =~= self@.segments + rel@.segments);
        r
    }

    /// `self.join(name)` for a single segment.
    pub fn child(&self, name: &str) -> (r: MediaPath)
        ensures
            r@ == child_model(self@, name@),
    {
        let mut segments = self.segments.clone();
        segments.push(String::from_str(name));
        let r = MediaPath { absolute: self.absolute, segments };
        assert(r@.segments =~= self@.segments.push(name@));
        r
    }

    /// The text of the path (`/` before the segments of an absolute path,
    /// the segments joined by `/`).
    pub fn to_text(&self) -> (r: String)
        ensures
            r@ == path_text(self@),
    {
        let body = join_segments_text(&self.segments);
        if self.absolute {
            let mut r = String::new();
            push_char(&mut r, '/');
            append_str(&mut r, body.as_str());
            r
        } else {
            body
        }
    }

    /// The last segment (`Path::file_name`), if any.
    pub fn file_name(&self) -> (r: Option<&String>)
        ensures
            self@.segments.len() == 0 ==> r is None,
            self@.segments.len() > 0 ==> (r matches Some(n) && n@ == self@.segments.last()),
    {
        if self.segments.len() == 0 {
            None
        } else {
            Some(&self.segments[self.segments.len() - 1])
        }
    }

    /// The parent path (`Path::parent`), or the path itself when it has no
    /// segments.
    pub fn parent_or_self(&self) -> (r: MediaPath)
        ensures
            r@.absolute == self@.absolute,
            r@.segments == parent_or_self(self@.segments),
    {
        let mut segments = self.segments.clone();
        if segments.len() > 0 {
            segments.pop();
        }
        let r = MediaPath { absolute: self.absolute, segments };
        assert(r@.segments =~= parent_or_self(self@.segments));
        r
    }

    /// Reads a path from its text: absolute when it starts with `/`, its
    /// segments being the pieces between slashes that are neither empty nor
    /// `.`.
    pub fn from_text(s: &str) -> (r: MediaPath)
        ensures
            r@.absolute == (s@.len() > 0 && s@[0] == '/'),
            r@.segments == keep_components(split_slash(s@)),
    {
        let cs = chars_of(s);
        let n = cs.len();
        let mut segs: Vec<String> = Vec::new();
        let ghost mut done: Seq<Seq<char>> = Seq::empty();
        let mut start: usize = 0;
        let mut i: usize = 0;
        proof {
            assert(cs@.take(0) =~= Seq::<char>::empty());
            assert(cs@.subrange(0, 0) =~= Seq::<char>::empty());
            assert(segs@.map_values(|s: String| s@) =~= keep_components(done));
        }
        while i < n
            invariant
                start <= i <= n == cs@.len(),
                cs@ == s@,
                split_slash(cs@.take(i as int)) == done.push(cs@.subrange(start as int, i as int)),
                segs@.map_values(|s: String| s@) == keep_components(done),
            decreases n - i,
        {
            proof {
                lemma_split_step(cs@, i as int, done, start as int);
            }
            if cs[i] == '/' {
                let ghost piece = cs@.subrange(start as int, i as int);
                let ghost old_done = done;
                let _ = close_piece(&cs, start, i, &mut segs);
                proof {
                    done = done.push(piece);
                    assert(done.drop_last() == old_done);
                    assert(cs@.subrange(i + 1, i + 1) =~= Seq::<char>::empty());
                }
                start = i + 1;
            }
            i = i + 1;
        }
        let ghost piece = cs@.subrange(start as int, n as int);
        let ghost old_done = done;
        assert(cs@.take(n as int) == cs@);
        let _ = close_piece(&cs, start, n, &mut segs);
        proof {
            done = done.push(piece);
            assert(done.drop_last() == old_done);
        }
        let absolute = n > 0 && cs[0] == '/';
        MediaPath { absolute, segments: segs }
    }
}

} // verus!
