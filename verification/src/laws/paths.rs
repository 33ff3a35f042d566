//! Laws of paths: which names are taken, what is left of a path, and what lies
//! beneath the served directory.

use crate::error::{ErrorView, TftpError};
use crate::path::{
    beneath, clean_filename, collapse, collapsed, collapsed_has_no_parent, sanitize_path,
    segments, strip_verbatim, undoable, PathChoice, Segment, SegmentView, Step,
};
use crate::text::has_prefix;
use vstd::prelude::*;
use vstd::string::*;

verus! {

/// A name is denied exactly where it opens with a slash or a backslash or holds
/// a colon; any other is taken, with a slash for each backslash.
pub proof fn names_are_taken_or_denied(name: &str, r: Result<String, TftpError>)
    requires
        call_ensures(clean_filename, (name,), r),
    ensures
        r is Err <==> (name@.len() > 0 && (name@[0] == '/' || name@[0] == '\\')) || exists|i: int|
            0 <= i < name@.len() && #[trigger] name@[i] == ':',
        r matches Err(e) ==> e@ == ErrorView::Protocol("path escape denied"@),
        r matches Ok(s) ==> s@.len() == name@.len() && forall|i: int|
            0 <= i < name@.len() ==> #[trigger] s@[i] == (if name@[i] == '\\' {
                '/'
            } else {
                name@[i]
            }),
{
    let t = crate::path::slashed(name@);
    if exists|i: int| 0 <= i < t.len() && #[trigger] t[i] == ':' {
        let i = choose|i: int| 0 <= i < t.len() && #[trigger] t[i] == ':';
        assert(name@[i] == ':');
    }
    if exists|i: int| 0 <= i < name@.len() && #[trigger] name@[i] == ':' {
        let i = choose|i: int| 0 <= i < name@.len() && #[trigger] name@[i] == ':';
        assert(t[i] == ':');
    }
}

/// What is left of a path, step by step: nothing of an empty one; a step that
/// does not go up stays; a step up takes the last one that is left away, unless
/// nothing is left or that is the root or a prefix.
pub proof fn steps_up_undo_the_last_step(steps: Seq<Step>, step: Step)
    requires
        steps.len() < usize::MAX,
    ensures
        collapsed(Seq::empty()) == Seq::<usize>::empty(),
        step != Step::Parent ==> collapsed(steps.push(step)) == collapsed(steps).push(
            steps.len() as usize,
        ),
        ({
            let left = collapsed(steps);
            let after = collapsed(steps.push(Step::Parent));
            &&& left.len() == 0 ==> after == left
            &&& left.len() > 0 ==> {
                let top = steps[left.last() as int];
                &&& left.last() < steps.len()
                &&& top == Step::Root || top == Step::Prefix ==> after == left
                &&& top != Step::Root && top != Step::Prefix ==> after == left.drop_last()
            }
        }),
{
    assert(steps.push(step).drop_last() =~= steps);
    assert(steps.push(Step::Parent).drop_last() =~= steps);
    collapsed_has_no_parent(steps);
    if collapsed(steps).len() > 0 {
        let last = collapsed(steps)[collapsed(steps).len() - 1];
        assert(steps.push(Step::Parent)[last as int] == steps[last as int]);
    }
}

/// The places that are left are those of the collapsed path.
pub proof fn paths_are_collapsed(steps: &Vec<Step>, kept: Vec<usize>, s: Step)
    requires
        call_ensures(collapse, (steps,), kept),
    ensures
        kept@ == collapsed(steps@),
        undoable(s) <==> s == Step::Current || s == Step::Parent || s == Step::Normal,
{
}

/// A path is let through exactly where it is the served directory or continues
/// it; then it is used as resolved where it exists, and as joined where not.
pub proof fn paths_beneath_the_root_pass(
    root: &Vec<Segment>,
    path: &Vec<Segment>,
    exists_there: bool,
    r: Result<PathChoice, TftpError>,
    rest: Seq<SegmentView>,
)
    requires
        call_ensures(sanitize_path, (root, path, exists_there), r),
    ensures
        segments(path@) == segments(root@) + rest ==> r == Ok::<PathChoice, TftpError>(
            if exists_there {
                PathChoice::Resolved
            } else {
                PathChoice::Joined
            },
        ),
        r is Ok ==> path@.len() >= root@.len() && forall|i: int|
            0 <= i < root@.len() ==> (#[trigger] path@[i]).step == root@[i].step && path@[i].name@
                == root@[i].name@,
        r matches Err(e) ==> e@ == ErrorView::Protocol("path escape denied"@),
{
    let a = segments(root@);
    let b = segments(path@);
    if b == a + rest {
        assert(b.take(a.len() as int) =~= a);
    }
    if r is Ok {
        assert forall|i: int| 0 <= i < root@.len() implies (#[trigger] path@[i]).step
            == root@[i].step && path@[i].name@ == root@[i].name@ by {
            assert(b.take(a.len() as int)[i] == b[i]);
            assert(a[i] == root@[i]@ && b[i] == path@[i]@);
        }
    }
}

/// Lying beneath is continuing the directory.
pub proof fn beneath_is_continuing(
    root: Seq<SegmentView>,
    path: Seq<SegmentView>,
    rest: Seq<SegmentView>,
)
    ensures
        beneath(root, root + rest),
        beneath(root, path) ==> path == root + path.skip(root.len() as int),
{
    assert((root + rest).take(root.len() as int) =~= root);
    if beneath(root, path) {
        assert(path =~= path.take(root.len() as int) + path.skip(root.len() as int));
    }
}

/// A verbatim path of Windows loses its mark, and a share gets two backslashes
/// in place of its own; any other path has no plain form.
pub proof fn verbatim_marks_are_taken_off(s: &str, rest: Seq<char>, r: Option<String>)
    requires
        call_ensures(strip_verbatim, (s,), r),
    ensures
        s@ == seq!['\\', '\\', '?', '\\', 'U', 'N', 'C', '\\'] + rest ==> (r matches Some(t) && t@
            == seq!['\\', '\\'] + rest),
        s@ == seq!['\\', '\\', '?', '\\'] + rest && !(rest.len() >= 4 && rest[0] == 'U' && rest[1]
            == 'N' && rest[2] == 'C' && rest[3] == '\\') ==> (r matches Some(t) && t@ == rest),
        r is Some ==> s@.len() >= 4 && s@[0] == '\\' && s@[1] == '\\' && s@[2] == '?' && s@[3]
            == '\\',
{
    reveal_strlit("\\\\?\\");
    reveal_strlit("UNC\\");
    reveal_strlit("\\\\");
    let mark = "\\\\?\\"@;
    let unc = "UNC\\"@;
    assert("\\\\"@ =~= seq!['\\', '\\']);
    if has_prefix(s@, mark) {
        assert forall|i: int| 0 <= i < 4 implies #[trigger] s@[i] == mark[i] by {
            assert(s@.subrange(0, 4)[i] == s@[i]);
        }
        assert(s@[0] == mark[0] && s@[1] == mark[1] && s@[2] == mark[2] && s@[3] == mark[3]);
    }
    let after = s@.skip(4);
    if s@ == seq!['\\', '\\', '?', '\\', 'U', 'N', 'C', '\\'] + rest {
        assert(s@.subrange(0, 4) =~= mark);
        assert(after.subrange(0, 4) =~= unc);
        assert(after.skip(4) =~= rest);
    }
    if s@ == seq!['\\', '\\', '?', '\\'] + rest {
        assert(s@.subrange(0, 4) =~= mark);
        assert(after =~= rest);
        if has_prefix(rest, unc) {
            assert(rest.subrange(0, 4)[0] == unc[0] && rest.subrange(0, 4)[1] == unc[1]
                && rest.subrange(0, 4)[2] == unc[2] && rest.subrange(0, 4)[3] == unc[3]);
        }
    }
}

} // verus!
