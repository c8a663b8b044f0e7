use vstd::prelude::*;

use crate::issue::{format_issue, issue_text, IssueBean};
use crate::text::{comma_pieces, comma_split_trimmed, join, join_seq, views};

verus! {

/// A JQL search request.
#[derive(Debug, PartialEq)]
pub struct SearchRequest {
    pub jql: String,
    /// The fields to return; all when missing.
    pub fields: Option<Vec<String>>,
    /// The fields to expand.
    pub expand: Vec<String>,
}

/// The fields that a search expands when none are named.
pub open spec fn default_search_expand() -> Seq<Seq<char>> {
    seq!["transitions"@, "changelog"@, "subtasks"@, "description"@]
}

/// Builds a search request: the comma-separated field and expand lists are
/// split and each item trimmed; the expand list defaults to transitions,
/// changelog, subtasks and description.
pub fn build_search_request(jql: String, fields: Option<String>, expand: Option<String>) -> (r: SearchRequest)
    ensures
        r.jql@ == jql@,
        match r.fields {
            Some(f) => fields is Some && views(f@) == comma_pieces(fields->0@),
            None => fields is None,
        },
        views(r.expand@) == match expand {
            Some(e) => comma_pieces(e@),
            None => default_search_expand(),
        },
{
    let fields = match fields {
        Some(f) => Some(comma_split_trimmed(f.as_str())),
        None => None,
    };
    let expand = match expand {
        Some(e) => comma_split_trimmed(e.as_str()),
        None => {
            let mut v: Vec<String> = Vec::new();
            v.push("transitions".to_owned());
            v.push("changelog".to_owned());
            v.push("subtasks".to_owned());
            v.push("description".to_owned());
            assert(views(v@) =~= default_search_expand());
            v
        },
    };
    SearchRequest { jql, fields, expand }
}

/// The texts of the issues `issues`.
pub open spec fn issue_texts(issues: Seq<IssueBean>) -> Seq<Seq<char>>
    decreases issues.len(),
{
    if issues.len() == 0 {
        Seq::<Seq<char>>::empty()
    } else {
        issue_texts(issues.drop_last()).push(issue_text(issues.last()))
    }
}

/// The answer of the search tool: the issues separated by rules, or a note
/// that there are none.
pub open spec fn search_results_text(issues: Seq<IssueBean>) -> Seq<char> {
    if issues.len() == 0 {
        "No issues found."@
    } else {
        join_seq(issue_texts(issues), "\n---\n\n"@)
    }
}

/// Formats the answer of the search tool.
pub fn format_search_results(issues: &Vec<IssueBean>) -> (r: String)
    ensures
        r@ == search_results_text(issues@),
{
    let n = issues.len();
    if n == 0 {
        return "No issues found.".to_owned();
    }
    let mut texts: Vec<String> = Vec::new();
    let mut i: usize = 0;
    assert(issues@.take(0) =~= Seq::<IssueBean>::empty());
    assert(views(texts@) =~= Seq::<Seq<char>>::empty());
    while i < n
        invariant
            n == issues@.len(),
            i <= n,
            views(texts@) == issue_texts(issues@.take(i as int)),
        decreases n - i,
    {
        assert(issues@.take(i + 1).drop_last() =~= issues@.take(i as int));
        assert(issues@.take(i + 1).last() == issues@[i as int]);
        let t = format_issue(&issues[i]);
        let ghost before = views(texts@);
        texts.push(t);
        assert(views(texts@) =~= before.push(t@));
        i = i + 1;
    }
    assert(issues@.take(n as int) =~= issues@);
    join(&texts, "\n---\n\n")
}

} // verus!
