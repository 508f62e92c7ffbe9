//! Turning the comments of an input into issues.
use vstd::prelude::*;
use crate::bytes::{append_span, count_nl, count_newlines, is_ws, skip_ws_back, trim_end, lemma_trim_hi};
use crate::classify::{classify_span, kind_of, lemma_short_text_is_no_issue, IssueKind};
use crate::scanner::{body_is_trimmed, comments_of, lemma_comment_bodies_trimmed, scan, Comment, CommentForm};
use vstd::string::StringSliceAdditionalSpecFns;

verus! {

/// What an issue says: its kind, its text, the lines it spans and the
/// file it was found in.
pub struct IssueView {
    pub kind: IssueKind,
    pub text: Seq<u8>,
    pub line_begin: int,
    pub line_end: int,
    pub file_name: Seq<char>,
}

/// Whether comment `j` carries on the run of line comments before it: it is
/// a line comment on the line right after comment `j - 1`, and untagged.
pub open spec fn continues(s: Seq<u8>, cs: Seq<Comment>, j: int) -> bool {
    &&& cs[j].form == CommentForm::Line
    &&& cs[j].line == cs[j - 1].line + 1
    &&& kind_of(cs[j].body(s)) is None
}

/// One past the last comment of the run that comment `j` belongs to, the
/// run being followed from `j` on.
pub open spec fn run_end(s: Seq<u8>, cs: Seq<Comment>, j: int) -> int
    decreases cs.len() - j,
{
    if 0 <= j && j + 1 < cs.len() && continues(s, cs, j + 1) {
        run_end(s, cs, j + 1)
    } else {
        j + 1
    }
}

/// The bodies of comments `k..e`, joined by newlines.
pub open spec fn joined(s: Seq<u8>, cs: Seq<Comment>, k: int, e: int) -> Seq<u8>
    decreases e - k,
{
    if e <= k + 1 {
        cs[k].body(s)
    } else {
        joined(s, cs, k, e - 1) + seq![10u8] + cs[e - 1].body(s)
    }
}

/// The issue that tagged comment `k` opens.
pub open spec fn issue_at(s: Seq<u8>, cs: Seq<Comment>, k: int, kind: IssueKind, file: Seq<char>) -> IssueView {
    let c = cs[k];
    if c.form == CommentForm::Block {
        IssueView {
            kind,
            text: trim_end(c.body(s)),
            line_begin: c.line as int,
            line_end: c.line + count_nl(c.body(s)),
            file_name: file,
        }
    } else {
        let e = run_end(s, cs, k);
        IssueView {
            kind,
            text: trim_end(joined(s, cs, k, e)),
            line_begin: c.line as int,
            line_end: cs[e - 1].line as int,
            file_name: file,
        }
    }
}

/// The issues opened by the tagged comments among `cs[k..]`, in order.
pub open spec fn issues_from(s: Seq<u8>, cs: Seq<Comment>, k: int, file: Seq<char>) -> Seq<IssueView>
    decreases cs.len() - k,
{
    if k < 0 || k >= cs.len() {
        seq![]
    } else {
        match kind_of(cs[k].body(s)) {
            Some(kind) => seq![issue_at(s, cs, k, kind, file)] + issues_from(s, cs, k + 1, file),
            None => issues_from(s, cs, k + 1, file),
        }
    }
}

/// The issues of the input `s`, read from the file named `file`.
pub open spec fn issues_of(s: Seq<u8>, file: Seq<char>) -> Seq<IssueView> {
    issues_from(s, comments_of(s), 0, file)
}

/// Extraction is a function of the input alone: the same text and file
/// name always give the same issues.
pub proof fn lemma_extraction_is_pure(s1: Seq<u8>, s2: Seq<u8>, f1: Seq<char>, f2: Seq<char>)
    requires
        s1 == s2,
        f1 == f2,
    ensures
        issues_of(s1, f1) == issues_of(s2, f2),
{
}

/// The text is not empty and has no whitespace at either end.
pub open spec fn text_is_trimmed(t: Seq<u8>) -> bool {
    t.len() > 0 && !is_ws(t[0]) && !is_ws(t.last())
}

proof fn lemma_trim_end_headed(x: Seq<u8>)
    requires
        x.len() > 0,
        !is_ws(x[0]),
    ensures
        text_is_trimmed(trim_end(x)),
        trim_end(x)[0] == x[0],
{
    lemma_trim_hi(x, 0, x.len() as int);
}

proof fn lemma_run_end_bounds(s: Seq<u8>, cs: Seq<Comment>, j: int)
    requires
        0 <= j < cs.len(),
    ensures
        j < run_end(s, cs, j) <= cs.len(),
    decreases cs.len() - j,
{
    if j + 1 < cs.len() && continues(s, cs, j + 1) {
        lemma_run_end_bounds(s, cs, j + 1);
    }
}

/// The run that a tagged line comment opens holds, after it, only untagged
/// line comments, each on the line right after the one before: a block
/// comment, a line gap or a newly tagged comment always ends it.
pub proof fn lemma_run_holds_untagged_lines(s: Seq<u8>, cs: Seq<Comment>, k: int)
    requires
        0 <= k < cs.len(),
    ensures
        k < run_end(s, cs, k) <= cs.len(),
        forall|j: int| k < j < run_end(s, cs, k) ==> {
            &&& (#[trigger] cs[j]).form == CommentForm::Line
            &&& kind_of(cs[j].body(s)) is None
            &&& cs[j].line == cs[j - 1].line + 1
        },
    decreases cs.len() - k,
{
    lemma_run_end_bounds(s, cs, k);
    if k + 1 < cs.len() && continues(s, cs, k + 1) {
        lemma_run_holds_untagged_lines(s, cs, k + 1);
        let e = run_end(s, cs, k);
        assert(e == run_end(s, cs, k + 1));
        assert forall|j: int| k < j < e implies {
            &&& (#[trigger] cs[j]).form == CommentForm::Line
            &&& kind_of(cs[j].body(s)) is None
            &&& cs[j].line == cs[j - 1].line + 1
        } by {
            if j == k + 1 {
                assert(continues(s, cs, k + 1));
            }
        }
    } else {
        assert(run_end(s, cs, k) == k + 1);
    }
}

proof fn lemma_joined_head(s: Seq<u8>, cs: Seq<Comment>, k: int, e: int)
    requires
        0 <= k < e <= cs.len(),
    ensures
        joined(s, cs, k, e).len() >= cs[k].body(s).len(),
        forall|x: int| 0 <= x < cs[k].body(s).len() ==> joined(s, cs, k, e)[x] == cs[k].body(s)[x],
    decreases e - k,
{
    if e > k + 1 {
        lemma_joined_head(s, cs, k, e - 1);
    }
}

proof fn lemma_issues_from_trimmed(s: Seq<u8>, cs: Seq<Comment>, k: int, file: Seq<char>)
    requires
        forall|m: int| 0 <= m < cs.len() ==> body_is_trimmed(s, #[trigger] cs[m]),
    ensures
        forall|m: int| 0 <= m < issues_from(s, cs, k, file).len()
            ==> text_is_trimmed(#[trigger] issues_from(s, cs, k, file)[m].text),
    decreases cs.len() - k,
{
    if 0 <= k < cs.len() {
        lemma_issues_from_trimmed(s, cs, k + 1, file);
        let c = cs[k];
        if let Some(kind) = kind_of(c.body(s)) {
            assert(body_is_trimmed(s, c));
            if c.body(s).len() <= 6 {
                lemma_short_text_is_no_issue(c.body(s));
            }
            let it = issue_at(s, cs, k, kind, file);
            if c.form == CommentForm::Block {
                lemma_trim_end_headed(c.body(s));
            } else {
                let e = run_end(s, cs, k);
                lemma_run_end_bounds(s, cs, k);
                lemma_joined_head(s, cs, k, e);
                lemma_trim_end_headed(joined(s, cs, k, e));
            }
            assert(text_is_trimmed(it.text));
            let r = issues_from(s, cs, k, file);
            let rest = issues_from(s, cs, k + 1, file);
            assert forall|m: int| 0 <= m < r.len() implies text_is_trimmed(#[trigger] r[m].text) by {
                if m > 0 {
                    assert(r[m] == rest[m - 1]);
                }
            }
        }
    }
}

/// The text of every issue is not empty and has no whitespace at either
/// end.
pub proof fn lemma_issue_text_trimmed(s: Seq<u8>, file: Seq<char>)
    requires
        s.len() <= usize::MAX,
    ensures
        forall|m: int| 0 <= m < issues_of(s, file).len() ==> text_is_trimmed(#[trigger] issues_of(s, file)[m].text),
{
    lemma_comment_bodies_trimmed(s);
    lemma_issues_from_trimmed(s, comments_of(s), 0, file);
}

/// One issue: its text is `txt_len` bytes of the list's buffer from `txt_start`.
#[derive(Debug)]
pub struct Issue {
    kind: IssueKind,
    txt_start: usize,
    txt_len: usize,
    file_name: String,
    line_beg: usize,
    line_end: usize,
}

/// The issues of one input, with the buffer that holds their texts.
#[derive(Debug)]
pub struct IssueList {
    txt_buf: Vec<u8>,
    issues: Vec<Issue>,
}

impl Issue {
    pub closed spec fn view_in(self, buf: Seq<u8>) -> IssueView {
        IssueView {
            kind: self.kind,
            text: buf.subrange(self.txt_start as int, self.txt_start + self.txt_len),
            line_begin: self.line_beg as int,
            line_end: self.line_end as int,
            file_name: self.file_name@,
        }
    }

    pub closed spec fn fits(self, n: int) -> bool {
        self.txt_start + self.txt_len <= n
    }
}

impl View for IssueList {
    type V = Seq<IssueView>;

    closed spec fn view(&self) -> Seq<IssueView> {
        self.issues@.map_values(|i: Issue| i.view_in(self.txt_buf@))
    }
}

impl IssueList {
    /// Every issue's text lies inside the buffer.
    pub closed spec fn wf(&self) -> bool {
        forall|k: int| 0 <= k < self.issues@.len() ==> (#[trigger] self.issues@[k]).fits(self.txt_buf@.len() as int)
    }

    /// The number of issues.
    pub fn len(&self) -> (r: usize)
        ensures
            r == self@.len(),
    {
        self.issues.len()
    }

    /// The kind of issue `i`.
    pub fn kind(&self, i: usize) -> (r: IssueKind)
        requires
            i < self@.len(),
        ensures
            r == self@[i as int].kind,
    {
        self.issues[i].kind
    }

    /// The first line of issue `i`.
    pub fn line_begin(&self, i: usize) -> (r: usize)
        requires
            i < self@.len(),
        ensures
            r == self@[i as int].line_begin,
    {
        self.issues[i].line_beg
    }

    /// The last line of issue `i`.
    pub fn line_end(&self, i: usize) -> (r: usize)
        requires
            i < self@.len(),
        ensures
            r == self@[i as int].line_end,
    {
        self.issues[i].line_end
    }

    /// The name of the file that issue `i` was found in.
    pub fn file_name(&self, i: usize) -> (r: &str)
        requires
            i < self@.len(),
        ensures
            r@ == self@[i as int].file_name,
    {
        self.issues[i].file_name.as_str()
    }

    /// A copy of the text of issue `i`.
    pub fn text(&self, i: usize) -> (r: Vec<u8>)
        requires
            self.wf(),
            i < self@.len(),
        ensures
            r@ == self@[i as int].text,
    {
        let a = self.issues[i].txt_start;
        let l = self.issues[i].txt_len;
        assert(self.issues@[i as int].fits(self.txt_buf@.len() as int));
        let n = self.txt_buf.len();
        assert(a + l <= n);
        let mut out: Vec<u8> = Vec::new();
        append_span(&mut out, self.txt_buf.as_slice(), a, a + l);
        out
    }
}

/// Builds the issues of the input `s` from its comments `cs`: each tagged
/// comment opens an issue, and a tagged line comment takes in the untagged
/// line comments on the lines right after it.
pub fn merge(s: &[u8], cs: &Vec<Comment>, file_name: &str) -> (r: IssueList)
    requires
        forall|k: int| 0 <= k < cs@.len() ==> (#[trigger] cs@[k]).wf(s@.len() as int),
    ensures
        r.wf(),
        r@ == issues_from(s@, cs@, 0, file_name@),
{
    let ghost sv = s@;
    let ghost csv = cs@;
    let ghost file = file_name@;
    let n = cs.len();
    let mut buf: Vec<u8> = Vec::new();
    let mut issues: Vec<Issue> = Vec::new();
    let mut k: usize = 0;
    while k < n
        invariant
            n == cs@.len(),
            k <= n,
            sv == s@,
            csv == cs@,
            file == file_name@,
            forall|m: int| 0 <= m < cs@.len() ==> (#[trigger] cs@[m]).wf(s@.len() as int),
            forall|m: int| 0 <= m < issues@.len() ==> (#[trigger] issues@[m]).fits(buf@.len() as int),
            issues@.map_values(|i: Issue| i.view_in(buf@)) + issues_from(sv, csv, k as int, file)
                == issues_from(sv, csv, 0, file),
        decreases n - k,
    {
        let c = cs[k];
        let ghost before = issues@.map_values(|i: Issue| i.view_in(buf@));
        match classify_span(s, c.start, c.end) {
            None => {
                k = k + 1;
            },
            Some(kind) => {
                let off = buf.len();
                let ghost buf0 = buf@;
                append_span(&mut buf, s, c.start, c.end);
                let mut j: usize = k + 1;
                let mut line_end: usize = c.line;
                if c.form == CommentForm::Line {
                    assert(buf@ =~= buf0 + joined(sv, csv, k as int, j as int));
                    while j < n && cs[j].form == CommentForm::Line && cs[j].line > 0
                        && cs[j].line - 1 == cs[j - 1].line
                        && classify_span(s, cs[j].start, cs[j].end).is_none()
                        invariant
                            n == cs@.len(),
                            k < j <= n,
                            sv == s@,
                            csv == cs@,
                            file == file_name@,
                            c == csv[k as int],
                            forall|m: int| 0 <= m < cs@.len() ==> (#[trigger] cs@[m]).wf(s@.len() as int),
                            off == buf0.len(),
                            buf@ == buf0 + joined(sv, csv, k as int, j as int),
                            run_end(sv, csv, k as int) == run_end(sv, csv, j - 1),
                            issues_from(sv, csv, k + 1, file) == issues_from(sv, csv, j as int, file),
                            line_end == csv[j - 1].line,
                        decreases n - j,
                    {
                        let d = cs[j];
                        proof {
                            assert(continues(sv, csv, j as int));
                            assert(buf0 + joined(sv, csv, k as int, j + 1)
                                =~= buf0 + joined(sv, csv, k as int, j as int) + seq![10u8] + d.body(sv));
                        }
                        buf.push(10u8);
                        append_span(&mut buf, s, d.start, d.end);
                        line_end = d.line;
                        j = j + 1;
                    }
                    assert(run_end(sv, csv, j - 1) == j);
                } else {
                    let nl = count_newlines(s, c.start, c.end);
                    line_end = c.line + nl;
                    assert(buf@ =~= buf0 + c.body(sv));
                }
                proof {
                    assert forall|m: int| 0 <= m < issues@.len() implies (#[trigger] issues@[m]).fits(buf@.len() as int) by {
                        assert(issues@[m].fits(buf0.len() as int));
                    }
                }
                let stop = skip_ws_back(buf.as_slice(), off, buf.len());
                let tlen = stop - off;
                let it = Issue {
                    kind,
                    txt_start: off,
                    txt_len: tlen,
                    file_name: file_name.to_owned(),
                    line_beg: c.line,
                    line_end,
                };
                issues.push(it);
                proof {
                    let x = buf@.subrange(off as int, buf@.len() as int);
                    assert(buf@.subrange(off as int, off + tlen) =~= trim_end(x));
                    if c.form == CommentForm::Line {
                        assert(x =~= joined(sv, csv, k as int, j as int));
                    } else {
                        assert(x =~= c.body(sv));
                    }
                    let after = issues@.map_values(|i: Issue| i.view_in(buf@));
                    assert forall|m: int| 0 <= m < before.len() implies after[m] == before[m] by {
                        assert(issues@[m].fits(buf0.len() as int));
                        assert(buf@.subrange(issues@[m].txt_start as int, issues@[m].txt_start + issues@[m].txt_len)
                            =~= buf0.subrange(issues@[m].txt_start as int, issues@[m].txt_start + issues@[m].txt_len));
                    }
                    assert(after[before.len() as int] == issue_at(sv, csv, k as int, kind, file));
                    assert(after =~= before + seq![issue_at(sv, csv, k as int, kind, file)]);
                    assert(after + issues_from(sv, csv, j as int, file)
                        =~= before + issues_from(sv, csv, k as int, file));
                }
                k = j;
            },
        }
    }
    assert(issues@.map_values(|i: Issue| i.view_in(buf@)) + issues_from(sv, csv, n as int, file)
        =~= issues@.map_values(|i: Issue| i.view_in(buf@)));
    IssueList { txt_buf: buf, issues }
}

/// Finds the issues in `input`, read from the file named `file_name`.
pub fn extract_issues(input: &str, file_name: &str) -> (r: IssueList)
    ensures
        r.wf(),
        r@ == issues_of(input.spec_bytes(), file_name@),
{
    let s = input.as_bytes();
    let cs = scan(s);
    merge(s, &cs, file_name)
}

} // verus!
