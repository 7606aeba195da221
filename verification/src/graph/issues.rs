//! Validation issues and the text they carry.
use crate::text::{push_decimal, push_str};
use vstd::prelude::*;

verus! {

/// The severity of a validation issue.
#[derive(Debug, Clone, Copy, PartialEq, Eq)]
pub enum Severity {
    /// A problem that makes the deployment invalid.
    Error,
    /// A non-fatal advisory.
    Warning,
}

impl Severity {
    /// The canonical lowercase spelling.
    pub fn as_str(self) -> (s: &'static str)
        ensures
            s@ == (match self {
                Severity::Error => "error"@,
                Severity::Warning => "warning"@,
            }),
    {
        match self {
            Severity::Error => "error",
            Severity::Warning => "warning",
        }
    }

    /// Whether this is the error severity.
    pub fn is_error(self) -> (b: bool)
        ensures
            b == (self == Severity::Error),
    {
        match self {
            Severity::Error => true,
            Severity::Warning => false,
        }
    }
}

/// A single validation issue.
#[derive(Debug, Clone, PartialEq, Eq)]
pub struct GraphIssue {
    /// Severity.
    pub severity: Severity,
    /// Stable machine-readable code (kebab-case).
    pub code: String,
    /// Dotted/pathy location the issue relates to.
    pub path: String,
    /// Human-readable description.
    pub message: String,
}

/// The text of an issue.
pub struct IssueView {
    /// Severity.
    pub severity: Severity,
    /// Code.
    pub code: Seq<char>,
    /// Location.
    pub path: Seq<char>,
    /// Description.
    pub message: Seq<char>,
}

/// The view of an issue.
pub open spec fn issue_view(i: GraphIssue) -> IssueView {
    IssueView { severity: i.severity, code: i.code@, path: i.path@, message: i.message@ }
}

/// The views of a list of issues.
pub open spec fn issue_views(v: Seq<GraphIssue>) -> Seq<IssueView> {
    v.map_values(|i: GraphIssue| issue_view(i))
}

/// Whether some issue is an error.
pub open spec fn has_error(issues: Seq<IssueView>) -> bool {
    exists|k: int| 0 <= k < issues.len() && issues[k].severity == Severity::Error
}

/// An error in either part is an error of the whole.
pub proof fn lemma_error_concat(a: Seq<IssueView>, b: Seq<IssueView>)
    ensures
        has_error(a + b) == (has_error(a) || has_error(b)),
{
    if has_error(a) {
        let k = choose|k: int| 0 <= k < a.len() && a[k].severity == Severity::Error;
        assert((a + b)[k] == a[k]);
    }
    if has_error(b) {
        let k = choose|k: int| 0 <= k < b.len() && b[k].severity == Severity::Error;
        assert((a + b)[a.len() + k] == b[k]);
    }
    if has_error(a + b) {
        let k = choose|k: int| 0 <= k < (a + b).len() && (a + b)[k].severity == Severity::Error;
        if k < a.len() {
            assert(a[k] == (a + b)[k]);
        } else {
            assert(b[k - a.len()] == (a + b)[k]);
        }
    }
}

/// An error-severity issue.
pub open spec fn err(code: Seq<char>, path: Seq<char>, message: Seq<char>) -> IssueView {
    IssueView { severity: Severity::Error, code, path, message }
}

/// The `missing-field` error at `path`.
pub open spec fn missing(path: Seq<char>) -> IssueView {
    err("missing-field"@, path, "is required"@)
}

/// Record an error.
pub fn error(issues: &mut Vec<GraphIssue>, code: &str, path: String, message: String)
    ensures
        issue_views(final(issues)@) == issue_views(old(issues)@).push(err(code@, path@, message@)),
{
    let ghost old_views = issue_views(issues@);
    issues.push(GraphIssue { severity: Severity::Error, code: code.to_owned(), path, message });
    assert(issue_views(issues@) =~= old_views.push(err(code@, path@, message@)));
}

/// `prefix[index]suffix`.
pub open spec fn indexed(prefix: Seq<char>, index: nat, suffix: Seq<char>) -> Seq<char> {
    prefix + "["@ + crate::text::decimal_chars(index) + "]"@ + suffix
}

/// Build `prefix[index]suffix`.
pub fn indexed_path(prefix: &str, index: usize, suffix: &str) -> (s: String)
    ensures
        s@ == indexed(prefix@, index as nat, suffix@),
{
    let mut s = prefix.to_owned();
    push_str(&mut s, "[");
    push_decimal(&mut s, index as u64);
    push_str(&mut s, "]");
    push_str(&mut s, suffix);
    s
}

/// Concatenate three pieces.
pub fn concat3(a: &str, b: &str, c: &str) -> (s: String)
    ensures
        s@ == a@ + b@ + c@,
{
    let mut s = a.to_owned();
    push_str(&mut s, b);
    push_str(&mut s, c);
    s
}

/// Concatenate five pieces.
pub fn concat5(a: &str, b: &str, c: &str, d: &str, e: &str) -> (s: String)
    ensures
        s@ == a@ + b@ + c@ + d@ + e@,
{
    let mut s = a.to_owned();
    push_str(&mut s, b);
    push_str(&mut s, c);
    push_str(&mut s, d);
    push_str(&mut s, e);
    s
}

} // verus!
