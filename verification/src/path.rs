//! Which file a request may name.
//!
//! The operating system knows what paths stand for; this module decides which
//! names are taken at all, how the steps of a path are put together where the
//! path does not exist yet, and whether a path lies beneath the served
//! directory.

use crate::error::{ErrorView, TftpError};
use crate::text::{chars_of, has_prefix, starts_with, text_from};
use vstd::prelude::*;
use vstd::string::*;

verus! {

/// A name with a slash in place of every backslash.
pub open spec fn slashed(s: Seq<char>) -> Seq<char> {
    Seq::new(
        s.len(),
        |i: int|
            if s[i] == '\\' {
                '/'
            } else {
                s[i]
            },
    )
}

/// Whether a name with slashes cannot be taken: whether it opens with a slash
/// or holds a colon.
pub open spec fn escapes(s: Seq<char>) -> bool {
    ||| s.len() > 0 && s[0] == '/'
    ||| exists|i: int| 0 <= i < s.len() && #[trigger] s[i] == ':'
}

/// The path beneath the served directory that a requested name stands for.
pub open spec fn cleaned(s: Seq<char>) -> Result<Seq<char>, ErrorView> {
    if escapes(slashed(s)) {
        Err(ErrorView::Protocol("path escape denied"@))
    } else {
        Ok(slashed(s))
    }
}

/// The path beneath the served directory that a requested name stands for:
/// the name with slashes for backslashes, unless it is absolute or holds a
/// colon.
pub fn clean_filename(name: &str) -> (r: Result<String, TftpError>)
    ensures
        match r {
            Ok(s) => cleaned(name@) == Ok::<Seq<char>, ErrorView>(s@),
            Err(e) => cleaned(name@) == Err::<Seq<char>, ErrorView>(e@),
        },
{
    let v = chars_of(name);
    if v.len() > 0 && (v[0] == '/' || v[0] == '\\') {
        assert(slashed(name@)[0] == '/');
        return Err(TftpError::protocol("path escape denied"));
    }
    let mut out = String::new();
    let mut i: usize = 0;
    while i < v.len()
        invariant
            i <= v.len(),
            v@ == name@,
            out@ == slashed(name@).take(i as int),
            forall|j: int| 0 <= j < i ==> #[trigger] slashed(name@)[j] != ':',
        decreases v.len() - i,
    {
        if v[i] == ':' {
            assert(slashed(name@)[i as int] == ':');
            return Err(TftpError::protocol("path escape denied"));
        }
        if v[i] == '\\' {
            proof {
                reveal_strlit("/");
            }
            out.append("/");
        } else {
            out.append(name.substring_char(i, i + 1));
        }
        assert(out@ =~= slashed(name@).take(i + 1));
        i = i + 1;
    }
    assert(out@ =~= slashed(name@));
    Ok(out)
}

/// A name that is taken holds neither backslash nor colon and opens with no
/// slash; one that needs no change is taken as it is.
pub proof fn cleaned_names_are_relative(s: Seq<char>)
    ensures
        cleaned(s) matches Ok(t) ==> {
            &&& t.len() == s.len()
            &&& t.len() > 0 ==> t[0] != '/'
            &&& forall|i: int| 0 <= i < t.len() ==> #[trigger] t[i] != '\\' && t[i] != ':'
            &&& cleaned(t) == Ok::<Seq<char>, ErrorView>(t)
        },
{
    if let Ok(t) = cleaned(s) {
        assert(slashed(t) =~= t);
    }
}

/// A kind of step in a path.
#[derive(Debug, Clone, Copy, PartialEq, Eq, Structural)]
pub enum Step {
    /// A drive or a share.
    Prefix,
    /// The root of the file system.
    Root,
    /// The current directory.
    Current,
    /// The directory above.
    Parent,
    /// A name.
    Normal,
}

/// Whether a step can be undone by one to the directory above.
pub open spec fn undoable(step: Step) -> bool {
    step != Step::Prefix && step != Step::Root
}

/// The places of the steps that are left of a path when every step to the
/// directory above undoes the step before it, as far as that can be undone.
pub open spec fn collapsed(steps: Seq<Step>) -> Seq<usize>
    decreases steps.len(),
{
    if steps.len() == 0 {
        Seq::empty()
    } else {
        let before = collapsed(steps.drop_last());
        if steps.last() != Step::Parent {
            before.push((steps.len() - 1) as usize)
        } else if before.len() > 0 && undoable(steps[before.last() as int]) {
            before.drop_last()
        } else {
            before
        }
    }
}

/// The places are in order, within the path, and none is a step to the
/// directory above.
pub proof fn collapsed_has_no_parent(steps: Seq<Step>)
    requires
        steps.len() <= usize::MAX,
    ensures
        forall|i: int|
            0 <= i < collapsed(steps).len() ==> (#[trigger] collapsed(steps)[i]) < steps.len()
                && steps[collapsed(steps)[i] as int] != Step::Parent,
        forall|i: int, j: int|
            0 <= i < j < collapsed(steps).len() ==> #[trigger] collapsed(steps)[i]
                < #[trigger] collapsed(steps)[j],
        collapsed(steps).len() <= steps.len(),
    decreases steps.len(),
{
    if steps.len() > 0 {
        let front = steps.drop_last();
        let before = collapsed(front);
        collapsed_has_no_parent(front);
        assert forall|i: int| 0 <= i < before.len() implies (#[trigger] before[i]) < steps.len() - 1
            && steps[before[i] as int] != Step::Parent by {
            assert(front[before[i] as int] == steps[before[i] as int]);
        }
    }
}

/// A path without a step to the directory above keeps all its steps.
pub proof fn plain_paths_stay_whole(steps: Seq<Step>)
    requires
        steps.len() <= usize::MAX,
        forall|i: int| 0 <= i < steps.len() ==> #[trigger] steps[i] != Step::Parent,
    ensures
        collapsed(steps) == Seq::new(steps.len(), |i: int| i as usize),
    decreases steps.len(),
{
    if steps.len() > 0 {
        let front = steps.drop_last();
        assert forall|i: int| 0 <= i < front.len() implies #[trigger] front[i] != Step::Parent by {
            assert(front[i] == steps[i]);
        }
        plain_paths_stay_whole(front);
        assert(steps[steps.len() - 1] != Step::Parent);
    }
    assert(collapsed(steps) =~= Seq::new(steps.len(), |i: int| i as usize));
}

/// How many directories below its start a path without root ends, where each
/// step to the directory above counts against one that goes down.
pub open spec fn depth(steps: Seq<Step>) -> int
    decreases steps.len(),
{
    if steps.len() == 0 {
        0
    } else if steps.last() == Step::Parent {
        depth(steps.drop_last()) - 1
    } else {
        depth(steps.drop_last()) + 1
    }
}

/// Whether a path goes nowhere above its start: it has no root of its own, and
/// none of its beginnings ends above.
pub open spec fn stays_below(steps: Seq<Step>) -> bool {
    &&& forall|i: int| 0 <= i < steps.len() ==> undoable(#[trigger] steps[i])
    &&& forall|j: int| 0 <= j <= steps.len() ==> depth(#[trigger] steps.take(j)) >= 0
}

/// A path that goes nowhere above its start keeps every step of the directory
/// that it is joined to.
pub proof fn paths_that_stay_below_keep_the_root(root: Seq<Step>, rest: Seq<Step>)
    requires
        root.len() + rest.len() <= usize::MAX,
        forall|i: int| 0 <= i < root.len() ==> #[trigger] root[i] != Step::Parent,
        stays_below(rest),
    ensures
        collapsed(root + rest).len() == root.len() + depth(rest),
        forall|i: int| 0 <= i < root.len() ==> #[trigger] collapsed(root + rest)[i] == i,
        forall|i: int|
            root.len() <= i < collapsed(root + rest).len() ==> #[trigger] collapsed(root + rest)[i]
                >= root.len(),
    decreases rest.len(),
{
    let all = root + rest;
    if rest.len() == 0 {
        assert(all =~= root);
        plain_paths_stay_whole(root);
    } else {
        let front = rest.drop_last();
        assert(all.drop_last() =~= root + front);
        assert forall|i: int| 0 <= i < front.len() implies undoable(#[trigger] front[i]) by {
            assert(front[i] == rest[i]);
        }
        assert forall|j: int| 0 <= j <= front.len() implies depth(#[trigger] front.take(j)) >= 0 by {
            assert(front.take(j) =~= rest.take(j));
        }
        paths_that_stay_below_keep_the_root(root, front);
        assert(rest.take(rest.len() as int) =~= rest);
        assert(depth(rest) >= 0);
        let before = collapsed(root + front);
        collapsed_has_no_parent(root + front);
        if rest.last() == Step::Parent {
            assert(before.len() > root.len());
            let last = before[before.len() - 1] as int;
            assert(root.len() <= last < root.len() + front.len());
            assert(all[last] == rest[last - root.len()]);
            assert(undoable(rest[last - root.len()]));
        }
    }
}

/// The places of the steps that are left of a path when every step to the
/// directory above undoes the step before it.
pub fn collapse(steps: &Vec<Step>) -> (kept: Vec<usize>)
    ensures
        kept@ == collapsed(steps@),
{
    let mut kept: Vec<usize> = Vec::new();
    let mut i: usize = 0;
    assert(kept@ =~= collapsed(steps@.take(0)));
    while i < steps.len()
        invariant
            i <= steps.len(),
            kept@ == collapsed(steps@.take(i as int)),
        decreases steps.len() - i,
    {
        let ghost front = steps@.take(i as int);
        proof {
            collapsed_has_no_parent(front);
            assert(steps@.take(i + 1).drop_last() =~= front);
            if kept@.len() > 0 {
                assert(kept@[kept@.len() - 1] < i);
                assert(steps@.take(i + 1)[kept@.last() as int] == steps@[kept@.last() as int]);
            }
        }
        if steps[i] != Step::Parent {
            kept.push(i);
        } else if kept.len() > 0 {
            let last: usize = kept[kept.len() - 1];
            if steps[last] != Step::Prefix && steps[last] != Step::Root {
                kept.pop();
                assert(kept@ =~= collapsed(front).drop_last());
            }
        }
        i = i + 1;
    }
    assert(steps@.take(i as int) =~= steps@);
    kept
}

/// A part of a path: the kind of the step, and its name in the encoding of the
/// operating system where it has one.
#[derive(Debug, PartialEq, Eq)]
pub struct Segment {
    pub step: Step,
    pub name: Vec<u8>,
}

/// The content of a [`Segment`].
pub struct SegmentView {
    pub step: Step,
    pub name: Seq<u8>,
}

impl View for Segment {
    type V = SegmentView;

    open spec fn view(&self) -> SegmentView {
        SegmentView { step: self.step, name: self.name@ }
    }
}

/// The content of a path.
pub open spec fn segments(v: Seq<Segment>) -> Seq<SegmentView> {
    Seq::new(v.len(), |i: int| v[i]@)
}

/// Whether a path is `root` or lies beneath it.
pub open spec fn beneath(root: Seq<SegmentView>, path: Seq<SegmentView>) -> bool {
    root.len() <= path.len() && path.take(root.len() as int) == root
}

fn same_segment(a: &Segment, b: &Segment) -> (r: bool)
    ensures
        r == (a@ == b@),
{
    if a.step != b.step || a.name.len() != b.name.len() {
        return false;
    }
    let mut i: usize = 0;
    while i < a.name.len()
        invariant
            i <= a.name.len(),
            a.name@.len() == b.name@.len(),
            forall|j: int| 0 <= j < i ==> a.name@[j] == #[trigger] b.name@[j],
        decreases a.name.len() - i,
    {
        if a.name[i] != b.name[i] {
            return false;
        }
        i = i + 1;
    }
    assert(a.name@ =~= b.name@);
    true
}

/// Lets a path pass that is `root` or lies beneath it.
fn confine(root: &Vec<Segment>, path: &Vec<Segment>) -> (r: Result<(), TftpError>)
    ensures
        match r {
            Ok(()) => beneath(segments(root@), segments(path@)),
            Err(e) => !beneath(segments(root@), segments(path@)) && e@ == ErrorView::Protocol(
                "path escape denied"@,
            ),
        },
{
    if root.len() > path.len() {
        return Err(TftpError::protocol("path escape denied"));
    }
    let mut i: usize = 0;
    while i < root.len()
        invariant
            i <= root.len() <= path.len(),
            forall|j: int| 0 <= j < i ==> segments(root@)[j] == #[trigger] segments(path@)[j],
        decreases root.len() - i,
    {
        if !same_segment(&root[i], &path[i]) {
            assert(segments(path@).take(root@.len() as int)[i as int] != segments(root@)[i as int]);
            return Err(TftpError::protocol("path escape denied"));
        }
        i = i + 1;
    }
    assert(segments(path@).take(root@.len() as int) =~= segments(root@));
    Ok(())
}

/// Which of its two forms a path is used in.
#[derive(Debug, Clone, Copy, PartialEq, Eq, Structural)]
pub enum PathChoice {
    /// The form that the operating system resolved it to.
    Resolved,
    /// The served directory with the requested name joined to it.
    Joined,
}

/// Decides on a requested path: `root` is the served directory and `resolved`
/// what the path stands for, both in plain form, and `exists` says whether
/// there is something at `resolved`. A path that is neither `root` nor beneath
/// it is denied; one that exists is used in its resolved form.
pub fn sanitize_path(root: &Vec<Segment>, resolved: &Vec<Segment>, exists: bool) -> (r: Result<
    PathChoice,
    TftpError,
>)
    ensures
        match r {
            Ok(choice) => beneath(segments(root@), segments(resolved@)) && choice == (if exists {
                PathChoice::Resolved
            } else {
                PathChoice::Joined
            }),
            Err(e) => !beneath(segments(root@), segments(resolved@)) && e@ == ErrorView::Protocol(
                "path escape denied"@,
            ),
        },
{
    match confine(root, resolved) {
        Err(e) => Err(e),
        Ok(()) => Ok(
            if exists {
                PathChoice::Resolved
            } else {
                PathChoice::Joined
            },
        ),
    }
}

/// Lying beneath is transitive, and every path lies beneath itself.
pub proof fn beneath_is_an_order(
    a: Seq<SegmentView>,
    b: Seq<SegmentView>,
    c: Seq<SegmentView>,
)
    ensures
        beneath(a, a),
        beneath(a, b) && beneath(b, c) ==> beneath(a, c),
        beneath(a, b) && beneath(b, a) ==> a == b,
        beneath(a, a + b),
{
    assert(a.take(a.len() as int) =~= a);
    assert((a + b).take(a.len() as int) =~= a);
    if beneath(a, b) && beneath(b, c) {
        assert(c.take(a.len() as int) =~= c.take(b.len() as int).take(a.len() as int));
    }
    if beneath(a, b) && beneath(b, a) {
        assert(b.take(a.len() as int) =~= b);
    }
}

/// The plain form of a verbatim path of Windows: what follows `\\?\`, with two
/// backslashes in place of `UNC\`. A path that is not verbatim has none.
pub open spec fn plain_form(s: Seq<char>) -> Option<Seq<char>> {
    if has_prefix(s, "\\\\?\\"@) {
        let rest = s.skip(4);
        if has_prefix(rest, "UNC\\"@) {
            Some("\\\\"@ + rest.skip(4))
        } else {
            Some(rest)
        }
    } else {
        None
    }
}

/// The plain form of a verbatim path of Windows, if it is one.
pub fn strip_verbatim(s: &str) -> (r: Option<String>)
    ensures
        match r {
            Some(t) => plain_form(s@) == Some(t@),
            None => plain_form(s@) is None,
        },
{
    proof {
        reveal_strlit("\\\\?\\");
        reveal_strlit("UNC\\");
    }
    if starts_with(s, "\\\\?\\") {
        let rest = text_from(s, 4);
        if starts_with(rest, "UNC\\") {
            Some("\\\\".to_owned().concat(text_from(rest, 4)))
        } else {
            Some(rest.to_owned())
        }
    } else {
        None
    }
}

} // verus!
