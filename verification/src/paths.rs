//! From a request path to the file under the static root that it names.
//!
//! A request path is taken apart at its separators. Walking the segments from
//! the root down, a name goes one level deeper, `..` goes one level up, and an
//! empty segment or `.` stays. A path is served only if no step of that walk
//! leaves the static root.

use vstd::prelude::*;
use vstd::string::*;
use crate::text::chars_of;

verus! {

/// The directory under which every served file lies.
pub const STATIC_ROOT: &'static str = "static";

/// The file that the path `/` stands for.
pub const DEFAULT_DOCUMENT: &'static str = "static/form.html";

/// The path that names the default document.
pub const ROOT_PATH: &'static str = "/";

/// The segments of `path`: what stands between its separators. A path with
/// `n` separators has `n + 1` segments, some of them possibly empty.
pub open spec fn segments(path: Seq<char>) -> Seq<Seq<char>>
    decreases path.len(),
{
    if path.len() == 0 {
        seq![Seq::empty()]
    } else {
        let before = segments(path.drop_last());
        if path.last() == '/' {
            before.push(Seq::empty())
        } else {
            before.drop_last().push(before.last().push(path.last()))
        }
    }
}

/// How many levels a segment goes down; -1 for the parent directory.
pub open spec fn climb(segment: Seq<char>) -> int {
    if segment =~= seq!['.', '.'] {
        -1
    } else if segment.len() == 0 || segment =~= seq!['.'] {
        0
    } else {
        1
    }
}

/// The level, relative to where the walk began, after all of `segs`.
pub open spec fn depth(segs: Seq<Seq<char>>) -> int
    decreases segs.len(),
{
    if segs.len() == 0 {
        0
    } else {
        depth(segs.drop_last()) + climb(segs.last())
    }
}

/// Some step of the walk along `segs` ends above the place where it began.
pub open spec fn climbs_out(segs: Seq<Seq<char>>) -> bool {
    exists|k: int| 0 <= k <= segs.len() && depth(#[trigger] segs.take(k)) < 0
}

/// The relative path `rest`, taken from the static root, leaves the root.
pub open spec fn leaves_root(rest: Seq<char>) -> bool {
    climbs_out(segments(rest))
}

/// The file that `request_path` names, if it names one under the static
/// root. `/` names the default document. Any other path must begin with a
/// separator; what follows it is joined onto the static root, unless it
/// begins with a separator itself or leaves the root.
pub open spec fn location(request_path: Seq<char>) -> Option<Seq<char>> {
    if request_path == ROOT_PATH@ {
        Some(DEFAULT_DOCUMENT@)
    } else if request_path.len() == 0 || request_path[0] != '/' {
        None
    } else {
        let rest = request_path.skip(1);
        if rest[0] == '/' || leaves_root(rest) {
            None
        } else {
            Some(STATIC_ROOT@ + request_path)
        }
    }
}

/// The file to serve for `request_path`, given whether its location is on
/// disk: the location, if there is one and it exists.
pub open spec fn resolved(request_path: Seq<char>, on_disk: bool) -> Option<Seq<char>> {
    if on_disk {
        location(request_path)
    } else {
        None
    }
}

/// Every character of `segment` is a dot.
spec fn all_dots(segment: Seq<char>) -> bool {
    forall|i: int| 0 <= i < segment.len() ==> #[trigger] segment[i] == '.'
}

proof fn lemma_all_dots_push(segment: Seq<char>, c: char)
    ensures
        all_dots(segment.push(c)) == (all_dots(segment) && c == '.'),
{
    let more = segment.push(c);
    if all_dots(more) {
        assert(more[segment.len() as int] == '.');
        assert forall|i: int| 0 <= i < segment.len() implies #[trigger] segment[i] == '.' by {
            assert(more[i] == segment[i]);
        }
    }
}

/// What the scan of a path knows after some of its characters.
struct Walk {
    /// Level after the segments that are complete.
    level: usize,
    /// Whether a complete segment has led above the start.
    out: bool,
    /// Length of the segment that is being read.
    len: usize,
    /// Whether the segment that is being read is made of dots only.
    dots: bool,
}

impl Walk {
    /// The walk has read exactly `seen`.
    spec fn fits(&self, seen: Seq<char>) -> bool {
        let segs = segments(seen);
        &&& self.out == climbs_out(segs.drop_last())
        &&& !self.out ==> self.level == depth(segs.drop_last())
        &&& self.len == segs.last().len()
        &&& self.len <= seen.len()
        &&& self.level <= seen.len() - self.len
        &&& self.dots == all_dots(segs.last())
    }

    /// How many levels the segment that is being read goes down.
    spec fn pending(&self) -> int {
        if self.dots && self.len == 2 {
            -1
        } else if self.len == 0 || (self.dots && self.len == 1) {
            0
        } else {
            1
        }
    }
}

proof fn lemma_segments_nonempty(path: Seq<char>)
    ensures
        segments(path).len() >= 1,
    decreases path.len(),
{
    if path.len() > 0 {
        lemma_segments_nonempty(path.drop_last());
    }
}

/// Adding a segment adds one step to the walk.
proof fn lemma_climbs_out_push(segs: Seq<Seq<char>>, segment: Seq<char>)
    ensures
        climbs_out(segs.push(segment)) == (climbs_out(segs) || depth(segs) + climb(segment) < 0),
{
    let more = segs.push(segment);
    assert(more.drop_last() =~= segs);
    assert(more.take(more.len() as int) =~= more);
    assert(segs.take(segs.len() as int) =~= segs);
    assert forall|k: int| 0 <= k <= segs.len() implies #[trigger] more.take(k) == segs.take(k) by {
        assert(more.take(k) =~= segs.take(k));
    }
    if climbs_out(segs) {
        let k = choose|k: int| 0 <= k <= segs.len() && depth(#[trigger] segs.take(k)) < 0;
        assert(depth(more.take(k)) < 0);
    }
    if depth(segs) + climb(segment) < 0 {
        assert(depth(more.take(more.len() as int)) < 0);
    }
    if climbs_out(more) {
        let k = choose|k: int| 0 <= k <= more.len() && depth(#[trigger] more.take(k)) < 0;
        if k <= segs.len() {
            assert(depth(segs.take(k)) < 0);
        }
    }
}

/// What a walk that fits says of its last segment is what `climb` says.
proof fn lemma_pending_is_climb(walk: Walk, seen: Seq<char>)
    requires
        walk.fits(seen),
    ensures
        walk.pending() == climb(segments(seen).last()),
{
    let last = segments(seen).last();
    if walk.dots && walk.len == 2 {
        assert(last =~= seq!['.', '.']);
    } else if walk.dots && walk.len == 1 {
        assert(last =~= seq!['.']);
    } else if walk.len == 2 {
        let i = choose|i: int| 0 <= i < last.len() && #[trigger] last[i] != '.';
        assert(seq!['.', '.'][i] == '.');
    } else if walk.len == 1 {
        let i = choose|i: int| 0 <= i < last.len() && #[trigger] last[i] != '.';
        assert(seq!['.'][i] == '.');
    }
}

/// Whether the relative path that `chars` holds from index 1 on leaves the
/// static root.
fn escapes(chars: &Vec<char>) -> (out: bool)
    requires
        chars.len() >= 1,
    ensures
        out == leaves_root(chars@.skip(1)),
{
    let ghost rest = chars@.skip(1);
    let mut walk = Walk { level: 0, out: false, len: 0, dots: true };
    let mut i: usize = 1;
    proof {
        assert(rest.take(0) =~= Seq::<char>::empty());
        assert(segments(Seq::<char>::empty()).drop_last() =~= Seq::<Seq<char>>::empty());
        assert(!climbs_out(Seq::<Seq<char>>::empty())) by {
            assert forall|k: int| 0 <= k <= 0 implies depth(
                #[trigger] Seq::<Seq<char>>::empty().take(k),
            ) >= 0 by {
                assert(Seq::<Seq<char>>::empty().take(k) =~= Seq::<Seq<char>>::empty());
            }
        }
    }
    while i < chars.len()
        invariant
            1 <= i <= chars.len(),
            rest == chars@.skip(1),
            walk.fits(rest.take(i - 1)),
        decreases chars.len() - i,
    {
        let c = chars[i];
        proof {
            let seen = rest.take(i - 1);
            let next = rest.take(i as int);
            assert(next.drop_last() =~= seen);
            assert(next.last() == c);
            lemma_segments_nonempty(seen);
            lemma_pending_is_climb(walk, seen);
            if c == '/' {
                assert(segments(next).drop_last() =~= segments(seen));
                assert(segments(seen) =~= segments(seen).drop_last().push(segments(seen).last()));
                lemma_climbs_out_push(segments(seen).drop_last(), segments(seen).last());
            } else {
                assert(segments(next).drop_last() =~= segments(seen).drop_last());
                lemma_all_dots_push(segments(seen).last(), c);
            }
        }
        if c == '/' {
            if !walk.out {
                if walk.dots && walk.len == 2 {
                    if walk.level == 0 {
                        walk.out = true;
                    } else {
                        walk.level = walk.level - 1;
                    }
                } else if !(walk.len == 0 || (walk.dots && walk.len == 1)) {
                    walk.level = walk.level + 1;
                }
            }
            walk.len = 0;
            walk.dots = true;
        } else {
            walk.len = walk.len + 1;
            walk.dots = walk.dots && c == '.';
        }
        i += 1;
    }
    proof {
        let seen = rest.take(i - 1);
        assert(seen =~= rest);
        lemma_segments_nonempty(rest);
        lemma_pending_is_climb(walk, rest);
        assert(segments(rest) =~= segments(rest).drop_last().push(segments(rest).last()));
        lemma_climbs_out_push(segments(rest).drop_last(), segments(rest).last());
    }
    walk.out || (walk.dots && walk.len == 2 && walk.level == 0)
}

/// The file under the static root that `request_path` names, if it names
/// one. The disk is not looked at.
pub fn static_location(request_path: &str) -> (found: Option<String>)
    ensures
        match found {
            Some(path) => location(request_path@) == Some(path@),
            None => location(request_path@) is None,
        },
{
    proof {
        reveal_strlit("/");
    }
    let chars = chars_of(request_path);
    if chars.len() == 0 || chars[0] != '/' {
        return None;
    }
    if chars.len() == 1 {
        assert(request_path@ =~= ROOT_PATH@);
        return Some(DEFAULT_DOCUMENT.to_owned());
    }
    if chars[1] == '/' || escapes(&chars) {
        return None;
    }
    Some(String::from_str(STATIC_ROOT).concat(request_path))
}

/// The file to serve for `request_path`: its location under the static
/// root, if it has one and `on_disk` says that the location exists.
pub fn sanitize_path(request_path: &str, on_disk: bool) -> (found: Option<String>)
    ensures
        match found {
            Some(path) => resolved(request_path@, on_disk) == Some(path@),
            None => resolved(request_path@, on_disk) is None,
        },
{
    if on_disk {
        static_location(request_path)
    } else {
        None
    }
}

/// The path `/` names the default document, and is served as that whenever
/// the document is on disk.
pub proof fn lemma_root_names_default_document()
    ensures
        location(ROOT_PATH@) == Some(DEFAULT_DOCUMENT@),
        resolved(ROOT_PATH@, true) == Some(DEFAULT_DOCUMENT@),
{
}

/// A walk can only end above its start if one of its segments is the parent
/// directory.
pub proof fn lemma_climbing_out_takes_parent(segs: Seq<Seq<char>>)
    requires
        climbs_out(segs),
    ensures
        exists|i: int| 0 <= i < segs.len() && #[trigger] segs[i] == seq!['.', '.'],
    decreases segs.len(),
{
    let k = choose|k: int| 0 <= k <= segs.len() && depth(#[trigger] segs.take(k)) < 0;
    if segs.len() == 0 {
        assert(segs.take(k) =~= segs);
    } else {
        let front = segs.drop_last();
        if k == segs.len() {
            assert(segs.take(k) =~= segs);
            if climb(segs.last()) == -1 {
                assert(segs[segs.len() - 1] == seq!['.', '.']);
            } else {
                assert(front.take(front.len() as int) =~= front);
                assert(climbs_out(front));
                lemma_climbing_out_takes_parent(front);
                let i = choose|i: int| 0 <= i < front.len() && #[trigger] front[i] == seq!['.', '.'];
                assert(segs[i] == seq!['.', '.']);
            }
        } else {
            assert(front.take(k) =~= segs.take(k));
            assert(climbs_out(front));
            lemma_climbing_out_takes_parent(front);
            let i = choose|i: int| 0 <= i < front.len() && #[trigger] front[i] == seq!['.', '.'];
            assert(segs[i] == seq!['.', '.']);
        }
    }
}

/// No request path whose parent-directory segments lead out of the static
/// root names a file, on disk or not.
pub proof fn lemma_escape_rejected(request_path: Seq<char>, on_disk: bool)
    requires
        leaves_root(request_path.skip(1)),
    ensures
        location(request_path) is None,
        resolved(request_path, on_disk) is None,
{
    reveal_strlit("/");
    if request_path == ROOT_PATH@ {
        let rest = request_path.skip(1);
        assert(rest =~= Seq::<char>::empty());
        let segs = segments(rest);
        assert(segs =~= seq![Seq::<char>::empty()]);
        let k = choose|k: int| 0 <= k <= segs.len() && depth(#[trigger] segs.take(k)) < 0;
        assert(segs.take(1).drop_last() =~= segs.take(0));
        assert(segs.take(0).len() == 0);
        assert(depth(segs.take(0)) == 0);
        assert(segs.take(1).last() == segs[0]);
        assert(depth(segs.take(1)) == 0);
        assert(false);
    }
}

/// A relative path without a separator that is not the parent directory
/// stays under the root.
proof fn lemma_plain_name_stays(name: Seq<char>)
    requires
        forall|i: int| 0 <= i < name.len() ==> #[trigger] name[i] != '/',
        name != seq!['.', '.'],
    ensures
        !leaves_root(name),
{
    lemma_single_segment(name);
    let segs = segments(name);
    assert(segs =~= seq![name]);
    assert(climb(name) >= 0);
    assert forall|k: int| 0 <= k <= segs.len() implies depth(#[trigger] segs.take(k)) >= 0 by {
        assert(depth(segs.take(0)) == 0);
        if k == 1 {
            assert(segs.take(1).drop_last() =~= segs.take(0));
            assert(segs.take(1).last() == name);
            assert(depth(segs.take(1)) == depth(segs.take(0)) + climb(name));
        }
    }
}

/// A path without a separator is its own single segment.
proof fn lemma_single_segment(name: Seq<char>)
    requires
        forall|i: int| 0 <= i < name.len() ==> #[trigger] name[i] != '/',
    ensures
        segments(name) == seq![name],
    decreases name.len(),
{
    if name.len() == 0 {
        assert(name =~= Seq::<char>::empty());
    } else {
        let front = name.drop_last();
        assert forall|i: int| 0 <= i < front.len() implies #[trigger] front[i] != '/' by {
            assert(front[i] == name[i]);
        }
        lemma_single_segment(front);
        assert(name.last() == name[name.len() - 1]);
        assert(seq![front].drop_last().push(front.push(name.last())) =~= seq![name]) by {
            assert(front.push(name.last()) =~= name);
        }
    }
}

/// Every location that is handed out lies under the static root: it is the
/// root, a separator, and a relative path that never leaves the root.
pub proof fn lemma_location_under_root(request_path: Seq<char>)
    requires
        location(request_path) is Some,
    ensures
        ({
            let file = location(request_path).unwrap();
            let prefix = STATIC_ROOT@.push('/');
            &&& file.len() >= prefix.len()
            &&& file.take(prefix.len() as int) == prefix
            &&& !leaves_root(file.skip(prefix.len() as int))
        }),
{
    reveal_strlit("/");
    reveal_strlit("static");
    reveal_strlit("static/form.html");
    let file = location(request_path).unwrap();
    let prefix = STATIC_ROOT@.push('/');
    if request_path == ROOT_PATH@ {
        assert(file.take(prefix.len() as int) =~= prefix);
        let name = file.skip(prefix.len() as int);
        assert(name =~= seq!['f', 'o', 'r', 'm', '.', 'h', 't', 'm', 'l']);
        lemma_plain_name_stays(name);
    } else {
        assert(file.take(prefix.len() as int) =~= prefix);
        assert(file.skip(prefix.len() as int) =~= request_path.skip(1));
    }
}

} // verus!
