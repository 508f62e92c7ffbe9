//! Deciding from the start of a comment whether it is a tagged issue.
use vstd::prelude::*;
use crate::bytes::{is_ws, skip_ws, trim_start, upper, upper_byte, lemma_trim_lo};

verus! {

/// The tag that marks a comment as an issue.
#[allow(non_camel_case_types)]
#[derive(Debug, Clone, Copy, PartialEq, Eq, Structural)]
pub enum IssueKind {
    FIXME,
    TODO,
}

/// A comment shorter than this, once stripped, is never an issue.
pub const LABEL_WINDOW: usize = 7;

/// How many bytes of one leading comment marker (`//`, `/*` or `*`) `t` starts with.
pub open spec fn marker_len(t: Seq<u8>) -> int {
    if t.len() >= 2 && t[0] == 47u8 && (t[1] == 47u8 || t[1] == 42u8) {
        2
    } else if t.len() >= 1 && t[0] == 42u8 {
        1
    } else {
        0
    }
}

/// The comment text with leading whitespace and one leading marker removed.
pub open spec fn stripped(t: Seq<u8>) -> Seq<u8> {
    let u = trim_start(t);
    u.subrange(marker_len(u), u.len() as int)
}

/// `FIXME` in ASCII.
pub open spec fn fixme_tag() -> Seq<u8> {
    seq![70u8, 73u8, 88u8, 77u8, 69u8]
}

/// `TODO` in ASCII.
pub open spec fn todo_tag() -> Seq<u8> {
    seq![84u8, 79u8, 68u8, 79u8]
}

/// Whether `t` starts with `tag`, ignoring ASCII case.
pub open spec fn starts_with_upper(t: Seq<u8>, tag: Seq<u8>) -> bool {
    t.len() >= tag.len() && forall|k: int| 0 <= k < tag.len() ==> upper(#[trigger] t[k]) == tag[k]
}

/// The kind of issue a comment text announces, if any.
pub open spec fn kind_of(t: Seq<u8>) -> Option<IssueKind> {
    let u = stripped(t);
    if u.len() < LABEL_WINDOW {
        None
    } else if starts_with_upper(u, fixme_tag()) {
        Some(IssueKind::FIXME)
    } else if starts_with_upper(u, todo_tag()) {
        Some(IssueKind::TODO)
    } else {
        None
    }
}

/// A comment text of at most six bytes is never an issue.
pub proof fn lemma_short_text_is_no_issue(t: Seq<u8>)
    requires
        t.len() <= 6,
    ensures
        kind_of(t) is None,
{
    lemma_trim_lo(t, 0, t.len() as int);
}

/// A text of at least seven bytes that starts with `FIXME`, in any case, is
/// a `FIXME` issue; one that starts with `TODO` is a `TODO` issue.
pub proof fn lemma_tagged_text_is_issue(t: Seq<u8>)
    requires
        t.len() >= 7,
    ensures
        starts_with_upper(t, fixme_tag()) ==> kind_of(t) == Some(IssueKind::FIXME),
        starts_with_upper(t, todo_tag()) ==> kind_of(t) == Some(IssueKind::TODO),
{
    if starts_with_upper(t, fixme_tag()) || starts_with_upper(t, todo_tag()) {
        assert(upper(t[0]) == 70u8 || upper(t[0]) == 84u8);
        assert(!is_ws(t[0]));
        assert(trim_start(t) =~= t);
        assert(stripped(t) =~= t);
        if starts_with_upper(t, todo_tag()) {
            assert(upper(t[0]) == 84u8);
            assert(!starts_with_upper(t, fixme_tag()));
        }
    }
}

/// Classifies the comment text `txt`: `FIXME` is tried before `TODO`, both
/// without regard to case, and a text of fewer than seven bytes once stripped
/// is no issue.
pub fn classify(txt: &[u8]) -> (r: Option<IssueKind>)
    ensures
        r == kind_of(txt@),
{
    let r = classify_span(txt, 0, txt.len());
    assert(txt@.subrange(0, txt@.len() as int) =~= txt@);
    r
}

/// Classifies the text `s[lo..hi]`.
pub fn classify_span(s: &[u8], lo: usize, hi: usize) -> (r: Option<IssueKind>)
    requires
        lo <= hi <= s@.len(),
    ensures
        r == kind_of(s@.subrange(lo as int, hi as int)),
{
    let ghost t = s@.subrange(lo as int, hi as int);
    let p = skip_ws(s, lo, hi);
    proof {
        lemma_trim_lo(t, 0, t.len() as int);
    }
    let ghost u = trim_start(t);
    assert(u =~= s@.subrange(p as int, hi as int));
    let m: usize = if hi - p >= 2 && s[p] == 47u8 && (s[p + 1] == 47u8 || s[p + 1] == 42u8) {
        2
    } else if hi - p >= 1 && s[p] == 42u8 {
        1
    } else {
        0
    };
    assert(m == marker_len(u));
    let q = p + m;
    assert(stripped(t) =~= s@.subrange(q as int, hi as int));
    if hi - q < LABEL_WINDOW {
        return None;
    }
    if upper_byte(s[q]) == 70u8 && upper_byte(s[q + 1]) == 73u8 && upper_byte(s[q + 2]) == 88u8
        && upper_byte(s[q + 3]) == 77u8 && upper_byte(s[q + 4]) == 69u8 {
        assert(starts_with_upper(stripped(t), fixme_tag()));
        return Some(IssueKind::FIXME);
    }
    assert(!starts_with_upper(stripped(t), fixme_tag())) by {
        let v = stripped(t);
        if starts_with_upper(v, fixme_tag()) {
            assert(upper(v[0]) == fixme_tag()[0]);
            assert(upper(v[1]) == fixme_tag()[1]);
            assert(upper(v[2]) == fixme_tag()[2]);
            assert(upper(v[3]) == fixme_tag()[3]);
            assert(upper(v[4]) == fixme_tag()[4]);
        }
    }
    if upper_byte(s[q]) == 84u8 && upper_byte(s[q + 1]) == 79u8 && upper_byte(s[q + 2]) == 68u8
        && upper_byte(s[q + 3]) == 79u8 {
        assert(starts_with_upper(stripped(t), todo_tag()));
        return Some(IssueKind::TODO);
    }
    assert(!starts_with_upper(stripped(t), todo_tag())) by {
        let v = stripped(t);
        if starts_with_upper(v, todo_tag()) {
            assert(upper(v[0]) == todo_tag()[0]);
            assert(upper(v[1]) == todo_tag()[1]);
            assert(upper(v[2]) == todo_tag()[2]);
            assert(upper(v[3]) == todo_tag()[3]);
        }
    }
    None
}

} // verus!
