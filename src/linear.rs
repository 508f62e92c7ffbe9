//! What the tool exchanges with the issue tracker: label lookup, new
//! issues, and the identifiers that created issues come back with.
use vstd::prelude::*;
use vstd::string::*;
use crate::classify::IssueKind;
use crate::config::LabelNames;

verus! {

/// A label that the tracker knows, by id and name.
#[derive(Debug, Clone)]
pub struct IssueLabel {
    pub id: String,
    pub name: String,
}

/// The tracker's labels, as a label listing returns them.
#[derive(Debug)]
pub struct IssueLabelConnection {
    pub nodes: Vec<IssueLabel>,
}

/// The answer to a label listing.
#[derive(Debug)]
pub struct ListIssuesQuery {
    pub issue_labels: IssueLabelConnection,
}

/// The tracker label chosen for one kind of issue.
#[derive(Debug, Clone)]
pub struct Label {
    pub kind: IssueKind,
    pub label_id: String,
}

/// Why no label could be chosen.
#[derive(Debug, Clone, Copy, PartialEq, Eq, Structural)]
pub enum LabelError {
    /// The tracker has no label with the name set for this kind.
    Missing(IssueKind),
}

/// An issue to be filed.
#[derive(Debug, Clone)]
pub struct NewIssue {
    pub label_id: String,
    pub description: String,
    pub title: Option<String>,
    pub team_id: String,
}

/// The first index from `i` on of a label named `name`, or the length when
/// there is none.
pub open spec fn first_named(labels: Seq<IssueLabel>, name: Seq<char>, i: int) -> int
    decreases labels.len() - i,
{
    if i < 0 || i >= labels.len() {
        labels.len() as int
    } else if labels[i].name@ == name {
        i
    } else {
        first_named(labels, name, i + 1)
    }
}

proof fn lemma_first_named_bounds(labels: Seq<IssueLabel>, name: Seq<char>, i: int)
    requires
        0 <= i <= labels.len(),
    ensures
        i <= first_named(labels, name, i) <= labels.len(),
    decreases labels.len() - i,
{
    if i < labels.len() && labels[i].name@ != name {
        lemma_first_named_bounds(labels, name, i + 1);
    }
}

/// Finds the first label named `name`.
fn find_named(labels: &Vec<IssueLabel>, name: &String) -> (r: usize)
    ensures
        r == first_named(labels@, name@, 0),
{
    let mut i: usize = 0;
    while i < labels.len()
        invariant
            i <= labels@.len(),
            first_named(labels@, name@, i as int) == first_named(labels@, name@, 0),
        decreases labels@.len() - i,
    {
        if labels[i].name == *name {
            return i;
        }
        i = i + 1;
    }
    i
}

/// Chooses, for `FIXME` and then `TODO`, the first of the tracker's labels
/// whose name is the one set for that kind. Fails on the first kind that
/// has no such label.
pub fn select_labels(names: &LabelNames, available: &Vec<IssueLabel>) -> (r: Result<Vec<Label>, LabelError>)
    ensures
        ({
            let a = available@;
            let f = first_named(a, names.name_for(IssueKind::FIXME), 0);
            let t = first_named(a, names.name_for(IssueKind::TODO), 0);
            match r {
                Ok(v) => f < a.len() && t < a.len() && v@.len() == 2
                    && v@[0].kind == IssueKind::FIXME && v@[0].label_id == a[f].id
                    && v@[1].kind == IssueKind::TODO && v@[1].label_id == a[t].id,
                Err(e) => if f == a.len() {
                    e == LabelError::Missing(IssueKind::FIXME)
                } else {
                    t == a.len() && e == LabelError::Missing(IssueKind::TODO)
                },
            }
        }),
{
    proof {
        lemma_first_named_bounds(available@, names.name_for(IssueKind::FIXME), 0);
        lemma_first_named_bounds(available@, names.name_for(IssueKind::TODO), 0);
    }
    let f = find_named(available, &names.fixme);
    if f == available.len() {
        return Err(LabelError::Missing(IssueKind::FIXME));
    }
    let t = find_named(available, &names.todo);
    if t == available.len() {
        return Err(LabelError::Missing(IssueKind::TODO));
    }
    let mut v: Vec<Label> = Vec::new();
    v.push(Label { kind: IssueKind::FIXME, label_id: available[f].id.clone() });
    v.push(Label { kind: IssueKind::TODO, label_id: available[t].id.clone() });
    Ok(v)
}

/// The tracker's identifier of a created issue: a project prefix and a
/// number, written `<prefix>-<number>`.
#[derive(Debug, Clone)]
pub struct IssueIdentifier {
    prefix: String,
    num: u32,
}

/// Why a text is no issue identifier.
#[derive(Debug, Clone, Copy, PartialEq, Eq, Structural)]
pub enum IdentifierError {
    /// The text holds no `-`.
    NoDash,
    /// What follows the first `-` is no number that fits in 32 bits.
    InvalidNumber,
}

pub open spec fn is_digit(c: char) -> bool {
    48 <= (c as u32) <= 57
}

/// The value of a sequence of decimal digits.
pub open spec fn digits_value(d: Seq<char>) -> nat
    decreases d.len(),
{
    if d.len() == 0 {
        0
    } else {
        digits_value(d.drop_last()) * 10 + ((d.last() as u32) - 48) as nat
    }
}

/// The digits of a number text, after an optional leading `+`.
pub open spec fn number_digits(t: Seq<char>) -> Seq<char> {
    if t.len() > 0 && t[0] == '+' {
        t.drop_first()
    } else {
        t
    }
}

/// Whether `t` is a decimal number, with an optional leading `+`, that fits in 32 bits.
pub open spec fn is_u32_text(t: Seq<char>) -> bool {
    let d = number_digits(t);
    &&& d.len() > 0
    &&& forall|k: int| 0 <= k < d.len() ==> is_digit(#[trigger] d[k])
    &&& digits_value(d) <= u32::MAX
}

/// The index of the first `-` in `s` from `i` on, or the length when there is none.
pub open spec fn dash_from(s: Seq<char>, i: int) -> int
    decreases s.len() - i,
{
    if i < 0 || i >= s.len() {
        s.len() as int
    } else if s[i] == '-' {
        i
    } else {
        dash_from(s, i + 1)
    }
}

/// The prefix and number that the text `s` names, or why it names none.
pub open spec fn identifier_of(s: Seq<char>) -> Result<(Seq<char>, u32), IdentifierError> {
    let d = dash_from(s, 0);
    let rest = s.subrange(d + 1, s.len() as int);
    if d >= s.len() {
        Err(IdentifierError::NoDash)
    } else if !is_u32_text(rest) {
        Err(IdentifierError::InvalidNumber)
    } else {
        Ok((s.subrange(0, d), digits_value(number_digits(rest)) as u32))
    }
}

proof fn lemma_dash_bounds(s: Seq<char>, i: int)
    requires
        0 <= i <= s.len(),
    ensures
        i <= dash_from(s, i) <= s.len(),
        dash_from(s, i) < s.len() ==> s[dash_from(s, i)] == '-',
    decreases s.len() - i,
{
    if i < s.len() && s[i] != '-' {
        lemma_dash_bounds(s, i + 1);
    }
}

proof fn lemma_digits_prefix_le(d: Seq<char>, m: int)
    requires
        0 <= m <= d.len(),
        forall|k: int| 0 <= k < d.len() ==> is_digit(#[trigger] d[k]),
    ensures
        digits_value(d.subrange(0, m)) <= digits_value(d),
    decreases d.len(),
{
    if m < d.len() {
        let e = d.drop_last();
        assert(e.subrange(0, m) =~= d.subrange(0, m));
        assert forall|k: int| 0 <= k < e.len() implies is_digit(#[trigger] e[k]) by {
            assert(e[k] == d[k]);
        }
        lemma_digits_prefix_le(e, m);
    } else {
        assert(d.subrange(0, m) =~= d);
    }
}

impl View for IssueIdentifier {
    type V = (Seq<char>, u32);

    closed spec fn view(&self) -> (Seq<char>, u32) {
        (self.prefix@, self.num)
    }
}

impl IssueIdentifier {
    /// The project prefix.
    pub fn prefix(&self) -> (r: &str)
        ensures
            r@ == self@.0,
    {
        self.prefix.as_str()
    }

    /// The issue number.
    pub fn num(&self) -> (r: u32)
        ensures
            r == self@.1,
    {
        self.num
    }

    /// Reads `<prefix>-<number>`: the prefix is all before the first `-`,
    /// and all after it must be a decimal number that fits in 32 bits,
    /// with an optional leading `+`.
    pub fn parse(s: &str) -> (r: Result<IssueIdentifier, IdentifierError>)
        ensures
            match r {
                Ok(id) => identifier_of(s@) == Ok::<(Seq<char>, u32), IdentifierError>(id@),
                Err(e) => identifier_of(s@) == Err::<(Seq<char>, u32), IdentifierError>(e),
            },
    {
        let n = s.unicode_len();
        let ghost sv = s@;
        proof {
            lemma_dash_bounds(sv, 0);
        }
        let mut d: usize = 0;
        while d < n && s.get_char(d) != '-'
            invariant
                n == sv.len(),
                sv == s@,
                d <= n,
                dash_from(sv, d as int) == dash_from(sv, 0),
            decreases n - d,
        {
            d = d + 1;
        }
        if d == n {
            return Err(IdentifierError::NoDash);
        }
        let ghost rest = sv.subrange(d + 1, n as int);
        let ghost digits = number_digits(rest);
        let mut j: usize = d + 1;
        if j < n && s.get_char(j) == '+' {
            j = j + 1;
        }
        let first = j;
        assert(digits =~= sv.subrange(first as int, n as int));
        if j == n {
            return Err(IdentifierError::InvalidNumber);
        }
        let mut v: u64 = 0;
        while j < n
            invariant
                n == sv.len(),
                sv == s@,
                d < first <= j <= n,
                dash_from(sv, 0) == d as int,
                rest == sv.subrange(d + 1, n as int),
                digits == number_digits(rest),
                digits == sv.subrange(first as int, n as int),
                forall|k: int| first <= k < j ==> is_digit(#[trigger] sv[k]),
                v == digits_value(sv.subrange(first as int, j as int)),
                v <= u32::MAX,
            decreases n - j,
        {
            let c = s.get_char(j);
            if !((c as u32) >= 48 && (c as u32) <= 57) {
                assert(!is_digit(digits[j - first]));
                return Err(IdentifierError::InvalidNumber);
            }
            assert(sv.subrange(first as int, j + 1).drop_last() =~= sv.subrange(first as int, j as int));
            v = v * 10 + ((c as u32) - 48) as u64;
            if v > 4294967295u64 {
                proof {
                    if forall|k: int| 0 <= k < digits.len() ==> is_digit(#[trigger] digits[k]) {
                        assert(digits.subrange(0, j + 1 - first) =~= sv.subrange(first as int, j + 1));
                        lemma_digits_prefix_le(digits, j + 1 - first);
                    }
                }
                return Err(IdentifierError::InvalidNumber);
            }
            j = j + 1;
        }
        assert(digits.subrange(0, digits.len() as int) =~= digits);
        assert(sv.subrange(first as int, j as int) =~= digits);
        let prefix = s.substring_char(0, d).to_owned();
        Ok(IssueIdentifier { prefix, num: v as u32 })
    }
}

impl std::str::FromStr for IssueIdentifier {
    type Err = IdentifierError;

    /// Reads `<prefix>-<number>` as [`IssueIdentifier::parse`] does.
    fn from_str(s: &str) -> Result<IssueIdentifier, IdentifierError> {
        IssueIdentifier::parse(s)
    }
}

/// Why filing an issue gave no identifier.
#[derive(Debug, Clone, Copy, PartialEq, Eq, Structural)]
pub enum CreateError {
    /// The tracker reported no created issue.
    NotCreated,
    /// The tracker's identifier could not be read.
    BadIdentifier(IdentifierError),
}

/// The outcome of filing one issue, from the identifier that the tracker
/// returned for it, if any.
pub fn creation_outcome(identifier: Option<&str>) -> (r: Result<IssueIdentifier, CreateError>)
    ensures
        match identifier {
            None => r == Err::<IssueIdentifier, CreateError>(CreateError::NotCreated),
            Some(t) => match r {
                Ok(id) => identifier_of(t@) == Ok::<(Seq<char>, u32), IdentifierError>(id@),
                Err(e) => exists|ie: IdentifierError| e == CreateError::BadIdentifier(ie)
                    && identifier_of(t@) == Err::<(Seq<char>, u32), IdentifierError>(ie),
            },
        },
{
    match identifier {
        None => Err(CreateError::NotCreated),
        Some(t) => match IssueIdentifier::parse(t) {
            Ok(id) => Ok(id),
            Err(ie) => Err(CreateError::BadIdentifier(ie)),
        },
    }
}

} // verus!
