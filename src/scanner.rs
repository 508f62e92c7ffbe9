//! One forward pass over the input that finds line and block comments.
use vstd::prelude::*;
use crate::bytes::{is_ws, skip_ws, skip_ws_back, trim_hi, trim_lo, lemma_trim_hi, lemma_trim_lo};

verus! {

/// Whether a comment was written `// ...` or `/* ... */`.
#[derive(Debug, Clone, Copy, PartialEq, Eq, Structural)]
pub enum CommentForm {
    Line,
    Block,
}

/// A comment found in the input: its form, the span `start..end` of its
/// trimmed body in the input bytes, and the zero-based line it starts on.
#[derive(Debug, Clone, Copy, PartialEq, Eq, Structural)]
pub struct Comment {
    pub form: CommentForm,
    pub start: usize,
    pub end: usize,
    pub line: usize,
}

impl Comment {
    /// The span lies in an input of `n` bytes and the line number is no
    /// greater than the offset at which the span starts.
    pub open spec fn wf(self, n: int) -> bool {
        self.line <= self.start <= self.end <= n
    }

    /// The comment's body.
    pub open spec fn body(self, s: Seq<u8>) -> Seq<u8> {
        s.subrange(self.start as int, self.end as int)
    }
}

/// Where the scanner stands between two bytes.
#[derive(Debug, Clone, Copy, PartialEq, Eq, Structural)]
pub enum ScanState {
    Idle,
    /// Inside a line comment whose `//` stands at `start`, on line `line`.
    InLine { start: usize, line: usize },
    /// Inside a block comment whose `/*` stands at `start`, on line `line`.
    InBlock { start: usize, line: usize },
}

/// The span of `s[a..b]` once whitespace is trimmed from both ends.
pub open spec fn trimmed_span(s: Seq<u8>, a: int, b: int) -> (int, int) {
    let p = a + trim_lo(s.subrange(a, b), 0, b - a);
    (p, p + trim_hi(s.subrange(p, b), 0, b - p))
}

/// The comment whose body is `s[a..b]`, trimmed.
pub open spec fn comment_of(s: Seq<u8>, form: CommentForm, a: int, b: int, line: int) -> Comment {
    let sp = trimmed_span(s, a, b);
    Comment { form, start: sp.0 as usize, end: sp.1 as usize, line: line as usize }
}

/// The comments found from offset `i` on, in state `st`, with `cur` the
/// current zero-based line.
pub open spec fn scan_from(s: Seq<u8>, i: int, st: ScanState, cur: int) -> Seq<Comment>
    decreases s.len() - i,
{
    if i < 0 || i >= s.len() {
        seq![]
    } else {
        match st {
            ScanState::Idle => {
                if s[i] == 47u8 {
                    if i + 1 < s.len() {
                        if s[i + 1] == 47u8 {
                            scan_from(s, i + 2, ScanState::InLine { start: i as usize, line: cur as usize }, cur)
                        } else if s[i + 1] == 42u8 {
                            scan_from(s, i + 2, ScanState::InBlock { start: i as usize, line: cur as usize }, cur)
                        } else if s[i + 1] == 10u8 {
                            scan_from(s, i + 2, ScanState::Idle, cur + 1)
                        } else {
                            scan_from(s, i + 2, ScanState::Idle, cur)
                        }
                    } else {
                        seq![]
                    }
                } else if s[i] == 10u8 {
                    scan_from(s, i + 1, ScanState::Idle, cur + 1)
                } else {
                    scan_from(s, i + 1, ScanState::Idle, cur)
                }
            },
            ScanState::InLine { start, line } => {
                if s[i] == 10u8 {
                    seq![comment_of(s, CommentForm::Line, start + 2, i, line as int)]
                        + scan_from(s, i + 1, ScanState::Idle, cur + 1)
                } else {
                    scan_from(s, i + 1, st, cur)
                }
            },
            ScanState::InBlock { start, line } => {
                if s[i] == 42u8 && i + 1 < s.len() && s[i + 1] == 47u8 {
                    seq![comment_of(s, CommentForm::Block, start + 2, i, line as int)]
                        + scan_from(s, i + 2, ScanState::Idle, cur)
                } else if s[i] == 10u8 {
                    scan_from(s, i + 1, st, cur + 1)
                } else {
                    scan_from(s, i + 1, st, cur)
                }
            },
        }
    }
}

/// All comments of `s`, in input order.
pub open spec fn comments_of(s: Seq<u8>) -> Seq<Comment> {
    scan_from(s, 0, ScanState::Idle, 0)
}

/// The comment's body lies in `s` and has no whitespace at either end.
pub open spec fn body_is_trimmed(s: Seq<u8>, c: Comment) -> bool {
    &&& c.start <= c.end <= s.len()
    &&& c.start < c.end ==> !is_ws(s[c.start as int]) && !is_ws(s[c.end - 1])
}

proof fn lemma_trimmed_span(s: Seq<u8>, a: int, b: int)
    requires
        0 <= a <= b <= s.len(),
    ensures
        a <= trimmed_span(s, a, b).0 <= trimmed_span(s, a, b).1 <= b,
        trimmed_span(s, a, b).0 < trimmed_span(s, a, b).1 ==> !is_ws(s[trimmed_span(s, a, b).0])
            && !is_ws(s[trimmed_span(s, a, b).1 - 1]),
{
    let t = s.subrange(a, b);
    lemma_trim_lo(t, 0, b - a);
    let p = a + trim_lo(t, 0, b - a);
    let u = s.subrange(p, b);
    lemma_trim_hi(u, 0, b - p);
}

/// Whether `st` is a state that the scanner can be in at offset `i`.
pub open spec fn state_fits(st: ScanState, i: int) -> bool {
    match st {
        ScanState::Idle => true,
        ScanState::InLine { start, line } => start + 2 <= i,
        ScanState::InBlock { start, line } => start + 2 <= i,
    }
}

proof fn lemma_scan_from_trimmed(s: Seq<u8>, i: int, st: ScanState, cur: int)
    requires
        s.len() <= usize::MAX,
        0 <= i,
        state_fits(st, i),
    ensures
        forall|m: int| 0 <= m < scan_from(s, i, st, cur).len()
            ==> body_is_trimmed(s, #[trigger] scan_from(s, i, st, cur)[m]),
    decreases s.len() - i,
{
    if i < s.len() {
        match st {
            ScanState::Idle => {
                if s[i] == 47u8 {
                    if i + 1 < s.len() {
                        if s[i + 1] == 47u8 {
                            lemma_scan_from_trimmed(s, i + 2, ScanState::InLine { start: i as usize, line: cur as usize }, cur);
                            assert(scan_from(s, i, st, cur) == scan_from(s, i + 2, ScanState::InLine { start: i as usize, line: cur as usize }, cur));
                        } else if s[i + 1] == 42u8 {
                            lemma_scan_from_trimmed(s, i + 2, ScanState::InBlock { start: i as usize, line: cur as usize }, cur);
                            assert(scan_from(s, i, st, cur) == scan_from(s, i + 2, ScanState::InBlock { start: i as usize, line: cur as usize }, cur));
                        } else if s[i + 1] == 10u8 {
                            lemma_scan_from_trimmed(s, i + 2, ScanState::Idle, cur + 1);
                            assert(scan_from(s, i, st, cur) == scan_from(s, i + 2, ScanState::Idle, cur + 1));
                        } else {
                            lemma_scan_from_trimmed(s, i + 2, ScanState::Idle, cur);
                            assert(scan_from(s, i, st, cur) == scan_from(s, i + 2, ScanState::Idle, cur));
                        }
                    }
                } else if s[i] == 10u8 {
                    lemma_scan_from_trimmed(s, i + 1, ScanState::Idle, cur + 1);
                    assert(scan_from(s, i, st, cur) == scan_from(s, i + 1, ScanState::Idle, cur + 1));
                } else {
                    lemma_scan_from_trimmed(s, i + 1, ScanState::Idle, cur);
                    assert(scan_from(s, i, st, cur) == scan_from(s, i + 1, ScanState::Idle, cur));
                }
            },
            ScanState::InLine { start, line } => {
                if s[i] == 10u8 {
                    lemma_trimmed_span(s, start + 2, i);
                    lemma_scan_from_trimmed(s, i + 1, ScanState::Idle, cur + 1);
                    let r = scan_from(s, i, st, cur);
                    let rest = scan_from(s, i + 1, ScanState::Idle, cur + 1);
                    assert forall|m: int| 0 <= m < r.len() implies body_is_trimmed(s, #[trigger] r[m]) by {
                        if m > 0 {
                            assert(r[m] == rest[m - 1]);
                        }
                    }
                } else {
                    lemma_scan_from_trimmed(s, i + 1, st, cur);
                    assert(scan_from(s, i, st, cur) == scan_from(s, i + 1, st, cur));
                }
            },
            ScanState::InBlock { start, line } => {
                if s[i] == 42u8 && i + 1 < s.len() && s[i + 1] == 47u8 {
                    lemma_trimmed_span(s, start + 2, i);
                    lemma_scan_from_trimmed(s, i + 2, ScanState::Idle, cur);
                    let r = scan_from(s, i, st, cur);
                    let rest = scan_from(s, i + 2, ScanState::Idle, cur);
                    assert forall|m: int| 0 <= m < r.len() implies body_is_trimmed(s, #[trigger] r[m]) by {
                        if m > 0 {
                            assert(r[m] == rest[m - 1]);
                        }
                    }
                } else if s[i] == 10u8 {
                    lemma_scan_from_trimmed(s, i + 1, st, cur + 1);
                    assert(scan_from(s, i, st, cur) == scan_from(s, i + 1, st, cur + 1));
                } else {
                    lemma_scan_from_trimmed(s, i + 1, st, cur);
                    assert(scan_from(s, i, st, cur) == scan_from(s, i + 1, st, cur));
                }
            },
        }
    }
}

/// Every comment body that the scanner reports lies in the input and has
/// no whitespace at either end.
pub proof fn lemma_comment_bodies_trimmed(s: Seq<u8>)
    requires
        s.len() <= usize::MAX,
    ensures
        forall|m: int| 0 <= m < comments_of(s).len() ==> body_is_trimmed(s, #[trigger] comments_of(s)[m]),
{
    lemma_scan_from_trimmed(s, 0, ScanState::Idle, 0);
}

/// The trimmed span of `s[a..b]`.
fn trim_span(s: &[u8], a: usize, b: usize) -> (r: (usize, usize))
    requires
        a <= b <= s@.len(),
    ensures
        r.0 == trimmed_span(s@, a as int, b as int).0,
        r.1 == trimmed_span(s@, a as int, b as int).1,
        a <= r.0 <= r.1 <= b,
{
    let p = skip_ws(s, a, b);
    let q = skip_ws_back(s, p, b);
    (p, q)
}

/// Finds the comments of `input`, in order, with their starting lines.
/// A line comment ends at the next newline; one that the input ends
/// inside is not reported, nor is an unterminated block comment.
pub fn scan(input: &[u8]) -> (r: Vec<Comment>)
    ensures
        r@ == comments_of(input@),
        forall|k: int| 0 <= k < r@.len() ==> (#[trigger] r@[k]).wf(input@.len() as int),
{
    let n = input.len();
    let mut out: Vec<Comment> = Vec::new();
    let mut st = ScanState::Idle;
    let mut i: usize = 0;
    let mut cur: usize = 0;
    while i < n
        invariant
            n == input@.len(),
            i <= n,
            cur <= i,
            comments_of(input@) == out@ + scan_from(input@, i as int, st, cur as int),
            forall|k: int| 0 <= k < out@.len() ==> (#[trigger] out@[k]).wf(n as int),
            match st {
                ScanState::Idle => true,
                ScanState::InLine { start, line } => line <= start && start + 2 <= i,
                ScanState::InBlock { start, line } => line <= start && start + 2 <= i,
            },
        decreases n - i,
    {
        let b = input[i];
        let ghost old_out = out@;
        match st {
            ScanState::Idle => {
                if b == 47u8 {
                    if i + 1 < n {
                        let nx = input[i + 1];
                        if nx == 47u8 {
                            st = ScanState::InLine { start: i, line: cur };
                        } else if nx == 42u8 {
                            st = ScanState::InBlock { start: i, line: cur };
                        } else if nx == 10u8 {
                            cur = cur + 1;
                        }
                        i = i + 2;
                    } else {
                        i = n;
                    }
                } else {
                    if b == 10u8 {
                        cur = cur + 1;
                    }
                    i = i + 1;
                }
            },
            ScanState::InLine { start, line } => {
                if b == 10u8 {
                    let sp = trim_span(input, start + 2, i);
                    let c = Comment { form: CommentForm::Line, start: sp.0, end: sp.1, line };
                    out.push(c);
                    assert(out@ == old_out + seq![c]);
                    st = ScanState::Idle;
                    cur = cur + 1;
                }
                i = i + 1;
            },
            ScanState::InBlock { start, line } => {
                if b == 42u8 && i + 1 < n && input[i + 1] == 47u8 {
                    let sp = trim_span(input, start + 2, i);
                    let c = Comment { form: CommentForm::Block, start: sp.0, end: sp.1, line };
                    out.push(c);
                    assert(out@ == old_out + seq![c]);
                    st = ScanState::Idle;
                    i = i + 2;
                } else {
                    if b == 10u8 {
                        cur = cur + 1;
                    }
                    i = i + 1;
                }
            },
        }
    }
    assert(out@ + seq![] =~= out@);
    out
}

} // verus!
