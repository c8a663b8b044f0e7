use vstd::prelude::*;

use crate::issue::{format_issue, issue_text, TransitionBean};
use crate::json::{
    json_single, json_str, jv, jv_items, jv_members, lemma_jv_members_len, push_item, push_member,
    str_or, Json, JsonV,
};
use crate::text::{
    comma_items, comma_list, decimal, join, join_seq, line_nonempty, line_some, lowercase,
    opt_ref, opt_view, push_decimal_i64, push_decimal_u64, push_line_nonempty, push_line_some,
    to_lowercase, views,
};

verus! {

/// A Jira user, as far as the tools read one.
pub struct UserBean {
    pub name: Option<String>,
    pub display_name: Option<String>,
    pub email_address: Option<String>,
}

/// A comment on an issue.
pub struct CommentJsonBean {
    pub id: Option<String>,
    pub self_: Option<String>,
    pub author: Option<UserBean>,
    pub created: Option<String>,
    pub updated: Option<String>,
    pub body: Option<String>,
}

/// A page of comments on an issue.
pub struct CommentsBean {
    pub total: Option<i32>,
    pub comments: Option<Vec<CommentJsonBean>>,
}

/// The text of a comment: author, creation time, update time when it differs,
/// and a non-empty body.
pub open spec fn comment_text(c: CommentJsonBean) -> Seq<char> {
    (match c.author {
        Some(a) => "Author: "@ + str_or(opt_view(a.display_name), "Unknown"@) + "\n"@,
        None => Seq::<char>::empty(),
    }) + line_some("Created: "@, opt_view(c.created)) + (match c.updated {
        Some(u) => if u@ != str_or(opt_view(c.created), ""@) {
            "Updated: "@ + u@ + "\n"@
        } else {
            Seq::<char>::empty()
        },
        None => Seq::<char>::empty(),
    }) + line_nonempty("Body:\n"@, opt_view(c.body))
}

/// Formats a comment.
pub fn format_comment(comment: &CommentJsonBean) -> (r: String)
    ensures
        r@ == comment_text(*comment),
{
    let mut out = String::new();
    if let Some(author) = &comment.author {
        let name: &str = match &author.display_name {
            Some(n) => n.as_str(),
            None => "Unknown",
        };
        out.append("Author: ");
        out.append(name);
        out.append("\n");
    }
    push_line_some(&mut out, "Created: ", opt_ref(&comment.created));
    if let Some(updated) = &comment.updated {
        let created: &str = match &comment.created {
            Some(c) => c.as_str(),
            None => "",
        };
        if !crate::text::str_eq(updated.as_str(), created) {
            out.append("Updated: ");
            out.append(updated.as_str());
            out.append("\n");
        }
    }
    push_line_nonempty(&mut out, "Body:\n", opt_ref(&comment.body));
    assert(out@ =~= comment_text(*comment));
    out
}

/// What the issue tool asks for when it reads an issue.
#[derive(Debug, PartialEq)]
pub struct IssueQuery {
    /// The fields to expand.
    pub expand: String,
    /// How many comments to show; 0 shows all.
    pub comment_limit: u32,
    /// The page size to ask comments for; none asks for all.
    pub max_results: Option<String>,
}

/// Plans the reads of the issue tool: the fields to expand default to
/// transitions, changelog, subtasks, description and comments, the comment
/// limit to 10, and a limit of 0 asks for every comment.
pub fn plan_issue_query(expand: Option<String>, comment_limit: Option<u32>) -> (r: IssueQuery)
    ensures
        r.expand@ == match expand {
            Some(e) => e@,
            None => "transitions,changelog,subtasks,description,comment"@,
        },
        r.comment_limit == match comment_limit {
            Some(l) => l,
            None => 10u32,
        },
        r.comment_limit == 0 ==> r.max_results is None,
        r.comment_limit != 0 ==> opt_view(r.max_results) == Some(decimal(r.comment_limit as int)),
{
    let expand = match expand {
        Some(e) => e,
        None => "transitions,changelog,subtasks,description,comment".to_owned(),
    };
    let limit: u32 = match comment_limit {
        Some(l) => l,
        None => 10,
    };
    let max_results = if limit == 0 {
        None
    } else {
        let mut m = String::new();
        push_decimal_u64(&mut m, limit as u64);
        Some(m)
    };
    IssueQuery { expand, comment_limit: limit, max_results }
}

/// `limit` read as an `i32`, as `as` converts it: values above `i32::MAX` wrap
/// around to negative numbers.
pub open spec fn limit_as_i32(limit: u32) -> int {
    if limit <= i32::MAX {
        limit as int
    } else {
        limit - 0x1_0000_0000
    }
}

/// The comments, each followed by a separator line.
pub open spec fn comment_items(cs: Seq<CommentJsonBean>) -> Seq<char>
    decreases cs.len(),
{
    if cs.len() == 0 {
        Seq::<char>::empty()
    } else {
        comment_items(cs.drop_last()) + comment_text(cs.last()) + "---\n"@
    }
}

/// The comment section of the issue tool for a comment limit and a page of
/// comments: nothing without comments, else a header that tells how many are
/// shown (and of how many, when the limit cut them) and the comments.
pub open spec fn comments_section(limit: u32, page: CommentsBean) -> Seq<char> {
    let total: int = match page.total {
        Some(t) => t as int,
        None => 0,
    };
    let cs = match page.comments {
        Some(v) => v@,
        None => Seq::<CommentJsonBean>::empty(),
    };
    if cs.len() == 0 {
        Seq::<char>::empty()
    } else {
        (if limit > 0 && total > limit_as_i32(limit) {
            "\n--- Comments (showing "@ + decimal(cs.len() as int) + " of "@ + decimal(total)
                + ") ---\n"@
        } else {
            "\n--- Comments ("@ + decimal(cs.len() as int) + ") ---\n"@
        }) + comment_items(cs)
    }
}

/// Formats the comment section of the issue tool.
pub fn format_comments_section(limit: u32, page: &CommentsBean) -> (r: String)
    ensures
        r@ == comments_section(limit, *page),
{
    let total: i32 = match page.total {
        Some(t) => t,
        None => 0,
    };
    let mut out = String::new();
    if let Some(cs) = &page.comments {
        let n = cs.len();
        if n > 0 {
            let limit_i32: i32 = if limit <= 2147483647 {
                limit as i32
            } else {
                (limit as i64 - 0x1_0000_0000i64) as i32
            };
            if limit > 0 && total > limit_i32 {
                out.append("\n--- Comments (showing ");
                push_decimal_u64(&mut out, n as u64);
                out.append(" of ");
                push_decimal_i64(&mut out, total as i64);
                out.append(") ---\n");
            } else {
                out.append("\n--- Comments (");
                push_decimal_u64(&mut out, n as u64);
                out.append(") ---\n");
            }
            let ghost start = out@;
            let mut i: usize = 0;
            assert(cs@.take(0) =~= Seq::<CommentJsonBean>::empty());
            while i < n
                invariant
                    n == cs@.len(),
                    i <= n,
                    out@ == start + comment_items(cs@.take(i as int)),
                decreases n - i,
            {
                assert(cs@.take(i + 1).drop_last() =~= cs@.take(i as int));
                assert(cs@.take(i + 1).last() == cs@[i as int]);
                let c = format_comment(&cs[i]);
                out.append(c.as_str());
                out.append("---\n");
                i = i + 1;
            }
            assert(cs@.take(n as int) =~= cs@);
        }
    } else {
        assert(comments_section(limit, *page) =~= Seq::<char>::empty());
    }
    out
}

/// The answer of the issue tool: the issue, then its comments when reading
/// them succeeded.
pub open spec fn issue_report(issue: crate::issue::IssueBean, limit: u32, comments: Option<CommentsBean>) -> Seq<char> {
    issue_text(issue) + match comments {
        Some(page) => comments_section(limit, page),
        None => Seq::<char>::empty(),
    }
}

/// Formats the answer of the issue tool; `comments` is `None` when reading the
/// comments failed.
pub fn format_issue_report(
    issue: &crate::issue::IssueBean,
    limit: u32,
    comments: &Option<CommentsBean>,
) -> (r: String)
    ensures
        r@ == issue_report(*issue, limit, *comments),
{
    let mut out = format_issue(issue);
    if let Some(page) = comments {
        let c = format_comments_section(limit, page);
        out.append(c.as_str());
    }
    assert(out@ =~= issue_report(*issue, limit, *comments));
    out
}


/// The parameters of the issue creation tool.
pub struct CreateIssueParams {
    pub project_key: String,
    pub summary: String,
    pub issue_type: String,
    pub description: Option<String>,
    pub assignee: Option<String>,
    pub priority: Option<String>,
    pub components: Option<String>,
    pub labels: Option<String>,
    pub parent_key: Option<String>,
}

/// The parameters of the issue update tool.
pub struct UpdateIssueParams {
    pub issue_id_or_key: String,
    pub summary: Option<String>,
    pub description: Option<String>,
    pub assignee: Option<String>,
    pub priority: Option<String>,
    pub components: Option<String>,
    pub labels: Option<String>,
    pub status: Option<String>,
}

/// An object `{key: text}`.
pub open spec fn keyed(key: Seq<char>, text: Seq<char>) -> JsonV {
    JsonV::Object(seq![(key, JsonV::Str(text))])
}

/// Objects `{"name": item}` for each item.
pub open spec fn name_objects(items: Seq<Seq<char>>) -> Seq<JsonV>
    decreases items.len(),
{
    if items.len() == 0 {
        Seq::<JsonV>::empty()
    } else {
        name_objects(items.drop_last()).push(keyed("name"@, items.last()))
    }
}

/// String values for each item.
pub open spec fn string_values(items: Seq<Seq<char>>) -> Seq<JsonV>
    decreases items.len(),
{
    if items.len() == 0 {
        Seq::<JsonV>::empty()
    } else {
        string_values(items.drop_last()).push(JsonV::Str(items.last()))
    }
}

/// The member `(key, value)` when `value` is present.
pub open spec fn member(key: Seq<char>, value: Option<JsonV>) -> Seq<(Seq<char>, JsonV)> {
    match value {
        Some(v) => seq![(key, v)],
        None => Seq::<(Seq<char>, JsonV)>::empty(),
    }
}

/// `{"name": text}` for an optional text.
pub open spec fn opt_named(v: Option<String>) -> Option<JsonV> {
    match v {
        Some(t) => Some(keyed("name"@, t@)),
        None => None,
    }
}

/// A string value for an optional text.
pub open spec fn opt_string(v: Option<String>) -> Option<JsonV> {
    match v {
        Some(t) => Some(JsonV::Str(t@)),
        None => None,
    }
}

/// The component list of a comma-separated text; with `keep_empty`, an empty
/// list is kept too.
pub open spec fn opt_components(v: Option<String>, keep_empty: bool) -> Option<JsonV> {
    match v {
        Some(t) => {
            let items = comma_items(t@);
            if keep_empty || items.len() > 0 {
                Some(JsonV::Array(name_objects(items)))
            } else {
                None
            }
        },
        None => None,
    }
}

/// The label list of a comma-separated text; with `keep_empty`, an empty list
/// is kept too.
pub open spec fn opt_labels(v: Option<String>, keep_empty: bool) -> Option<JsonV> {
    match v {
        Some(t) => {
            let items = comma_items(t@);
            if keep_empty || items.len() > 0 {
                Some(JsonV::Array(string_values(items)))
            } else {
                None
            }
        },
        None => None,
    }
}

/// The fields that the creation tool sends for a new issue.
pub open spec fn create_fields(p: CreateIssueParams) -> Seq<(Seq<char>, JsonV)> {
    seq![
        ("project"@, keyed("key"@, p.project_key@)),
        ("summary"@, JsonV::Str(p.summary@)),
        ("issuetype"@, keyed("name"@, p.issue_type@)),
    ] + member("description"@, opt_string(p.description)) + member(
        "assignee"@,
        opt_named(p.assignee),
    ) + member("priority"@, opt_named(p.priority)) + member(
        "components"@,
        opt_components(p.components, false),
    ) + member("labels"@, opt_labels(p.labels, false)) + member(
        "parent"@,
        match p.parent_key {
            Some(k) => Some(keyed("key"@, k@)),
            None => None,
        },
    )
}

/// The assignee value the update tool sends for the assignee it is given.
pub open spec fn assignee_value(v: Option<String>) -> Option<JsonV> {
    match v {
        Some(x) => if x@.len() == 0 {
            Some(JsonV::Null)
        } else {
            Some(keyed("name"@, x@))
        },
        None => None,
    }
}

/// The fields that the update tool sends; an empty assignee unassigns.
pub open spec fn update_fields(p: UpdateIssueParams) -> Seq<(Seq<char>, JsonV)> {
    member("summary"@, opt_string(p.summary)) + member("description"@, opt_string(p.description))
        + member("assignee"@, assignee_value(p.assignee)) + member("priority"@, opt_named(p.priority)) + member(
        "components"@,
        opt_components(p.components, true),
    ) + member("labels"@, opt_labels(p.labels, true))
}

/// An array of objects `{"name": item}`.
fn name_array(items: &Vec<String>) -> (r: Json)
    ensures
        jv(r) == JsonV::Array(name_objects(views(items@))),
{
    let mut a: Vec<Json> = Vec::new();
    let n = items.len();
    let mut i: usize = 0;
    assert(views(items@).take(0) =~= Seq::<Seq<char>>::empty());
    assert(a@.subrange(0, 0) =~= a@);
    while i < n
        invariant
            n == items@.len(),
            i <= n,
            jv_items(a@) == name_objects(views(items@).take(i as int)),
        decreases n - i,
    {
        assert(views(items@).take(i + 1).drop_last() =~= views(items@).take(i as int));
        let o = json_single("name", json_str(items[i].as_str()));
        push_item(&mut a, o);
        i = i + 1;
    }
    assert(views(items@).take(n as int) =~= views(items@));
    Json::Array(a)
}

/// An array of strings.
fn string_array(items: &Vec<String>) -> (r: Json)
    ensures
        jv(r) == JsonV::Array(string_values(views(items@))),
{
    let mut a: Vec<Json> = Vec::new();
    let n = items.len();
    let mut i: usize = 0;
    assert(views(items@).take(0) =~= Seq::<Seq<char>>::empty());
    while i < n
        invariant
            n == items@.len(),
            i <= n,
            jv_items(a@) == string_values(views(items@).take(i as int)),
        decreases n - i,
    {
        assert(views(items@).take(i + 1).drop_last() =~= views(items@).take(i as int));
        push_item(&mut a, json_str(items[i].as_str()));
        i = i + 1;
    }
    assert(views(items@).take(n as int) =~= views(items@));
    Json::Array(a)
}

fn push_opt_member(es: &mut Vec<(String, Json)>, key: &str, value: Option<Json>)
    ensures
        jv_members(final(es)@) == jv_members(old(es)@) + member(
            key@,
            match value {
                Some(v) => Some(jv(v)),
                None => None,
            },
        ),
{
    match value {
        Some(v) => {
            push_member(es, key, v);
            assert(jv_members(es@) =~= jv_members(old(es)@) + seq![(key@, jv(v))]);
        },
        None => {
            assert(jv_members(es@) =~= jv_members(old(es)@) + Seq::<(Seq<char>, JsonV)>::empty());
        },
    }
}

fn named_value(v: &Option<String>) -> (r: Option<Json>)
    ensures
        match r {
            Some(x) => Some(jv(x)),
            None => None,
        } == opt_named(*v),
{
    match v {
        Some(t) => Some(json_single("name", json_str(t.as_str()))),
        None => None,
    }
}

fn string_value(v: &Option<String>) -> (r: Option<Json>)
    ensures
        match r {
            Some(x) => Some(jv(x)),
            None => None,
        } == opt_string(*v),
{
    match v {
        Some(t) => Some(json_str(t.as_str())),
        None => None,
    }
}

fn components_value(v: &Option<String>, keep_empty: bool) -> (r: Option<Json>)
    ensures
        match r {
            Some(x) => Some(jv(x)),
            None => None,
        } == opt_components(*v, keep_empty),
{
    match v {
        Some(t) => {
            let items = comma_list(t.as_str());
            if keep_empty || items.len() > 0 {
                Some(name_array(&items))
            } else {
                None
            }
        },
        None => None,
    }
}

fn labels_value(v: &Option<String>, keep_empty: bool) -> (r: Option<Json>)
    ensures
        match r {
            Some(x) => Some(jv(x)),
            None => None,
        } == opt_labels(*v, keep_empty),
{
    match v {
        Some(t) => {
            let items = comma_list(t.as_str());
            if keep_empty || items.len() > 0 {
                Some(string_array(&items))
            } else {
                None
            }
        },
        None => None,
    }
}

/// The fields that the creation tool sends for a new issue: project, summary
/// and type, then whichever of description, assignee, priority, components,
/// labels and parent are given; blank list items are left out, and an empty
/// list is not sent.
pub fn create_issue_fields(p: &CreateIssueParams) -> (r: Vec<(String, Json)>)
    ensures
        jv_members(r@) == create_fields(*p),
{
    let mut es: Vec<(String, Json)> = Vec::new();
    assert(jv_members(es@) =~= Seq::<(Seq<char>, JsonV)>::empty());
    push_member(&mut es, "project", json_single("key", json_str(p.project_key.as_str())));
    push_member(&mut es, "summary", json_str(p.summary.as_str()));
    push_member(&mut es, "issuetype", json_single("name", json_str(p.issue_type.as_str())));
    let ghost head = jv_members(es@);
    push_opt_member(&mut es, "description", string_value(&p.description));
    push_opt_member(&mut es, "assignee", named_value(&p.assignee));
    push_opt_member(&mut es, "priority", named_value(&p.priority));
    push_opt_member(&mut es, "components", components_value(&p.components, false));
    push_opt_member(&mut es, "labels", labels_value(&p.labels, false));
    let parent = match &p.parent_key {
        Some(k) => Some(json_single("key", json_str(k.as_str()))),
        None => None,
    };
    push_opt_member(&mut es, "parent", parent);
    assert(jv_members(es@) =~= create_fields(*p));
    es
}

/// The fields that the update tool sends: whichever of summary, description,
/// assignee, priority, components and labels are given; an empty assignee is
/// sent as `null`, and component and label lists are sent even when empty.
pub fn update_issue_fields(p: &UpdateIssueParams) -> (r: Vec<(String, Json)>)
    ensures
        jv_members(r@) == update_fields(*p),
{
    let mut es: Vec<(String, Json)> = Vec::new();
    assert(jv_members(es@) =~= Seq::<(Seq<char>, JsonV)>::empty());
    push_opt_member(&mut es, "summary", string_value(&p.summary));
    push_opt_member(&mut es, "description", string_value(&p.description));
    let assignee = match &p.assignee {
        Some(a) => if a.as_str().is_empty() {
            Some(Json::Null)
        } else {
            Some(json_single("name", json_str(a.as_str())))
        },
        None => None,
    };
    push_opt_member(&mut es, "assignee", assignee);
    push_opt_member(&mut es, "priority", named_value(&p.priority));
    push_opt_member(&mut es, "components", components_value(&p.components, true));
    push_opt_member(&mut es, "labels", labels_value(&p.labels, true));
    assert(jv_members(es@) =~= update_fields(*p));
    es
}


/// Whether the fields `fs` hold a member named `key`.
pub open spec fn sends(fs: Seq<(Seq<char>, JsonV)>, key: Seq<char>) -> bool {
    exists|k: int| 0 <= k < fs.len() && (#[trigger] fs[k]).0 == key
}

proof fn lemma_sends_member(key: Seq<char>, value: Option<JsonV>, name: Seq<char>)
    ensures
        sends(member(key, value), name) <==> (value is Some && key == name),
{
    if value is Some && key == name {
        assert(member(key, value)[0].0 == name);
    }
}

proof fn lemma_sends_concat(a: Seq<(Seq<char>, JsonV)>, b: Seq<(Seq<char>, JsonV)>, name: Seq<char>)
    ensures
        sends(a + b, name) <==> (sends(a, name) || sends(b, name)),
{
    if sends(a, name) {
        let k = choose|k: int| 0 <= k < a.len() && (#[trigger] a[k]).0 == name;
        assert((a + b)[k] == a[k]);
    }
    if sends(b, name) {
        let k = choose|k: int| 0 <= k < b.len() && (#[trigger] b[k]).0 == name;
        assert((a + b)[a.len() + k] == b[k]);
    }
    if sends(a + b, name) {
        let k = choose|k: int| 0 <= k < (a + b).len() && (#[trigger] (a + b)[k]).0 == name;
        if k < a.len() {
            assert(a[k] == (a + b)[k]);
        } else {
            assert(b[k - a.len()] == (a + b)[k]);
        }
    }
}

proof fn lemma_update_sends(p: UpdateIssueParams, n: Seq<char>)
    ensures
        sends(update_fields(p), n) <==> ((n == "summary"@ && p.summary is Some) || (n == "description"@
            && p.description is Some) || (n == "assignee"@ && p.assignee is Some) || (n
            == "priority"@ && p.priority is Some) || (n == "components"@ && p.components is Some) || (
        n == "labels"@ && p.labels is Some)),
{
    let a = member("summary"@, opt_string(p.summary));
    let b = member("description"@, opt_string(p.description));
    let c = member("assignee"@, assignee_value(p.assignee));
    let d = member("priority"@, opt_named(p.priority));
    let e = member("components"@, opt_components(p.components, true));
    let f = member("labels"@, opt_labels(p.labels, true));
    assert(update_fields(p) == a + b + c + d + e + f);
    lemma_sends_concat(a, b, n);
    lemma_sends_concat(a + b, c, n);
    lemma_sends_concat(a + b + c, d, n);
    lemma_sends_concat(a + b + c + d, e, n);
    lemma_sends_concat(a + b + c + d + e, f, n);
    lemma_sends_member("summary"@, opt_string(p.summary), n);
    lemma_sends_member("description"@, opt_string(p.description), n);
    lemma_sends_member("assignee"@, assignee_value(p.assignee), n);
    lemma_sends_member("priority"@, opt_named(p.priority), n);
    lemma_sends_member("components"@, opt_components(p.components, true), n);
    lemma_sends_member("labels"@, opt_labels(p.labels, true), n);
}

proof fn lemma_update_assignee(p: UpdateIssueParams, k: int)
    requires
        0 <= k < update_fields(p).len(),
        update_fields(p)[k].0 == "assignee"@,
    ensures
        update_fields(p)[k].1 == JsonV::Null <==> p.assignee->0@.len() == 0,
{
    reveal_strlit("summary");
    reveal_strlit("description");
    reveal_strlit("assignee");
    reveal_strlit("priority");
    reveal_strlit("components");
    reveal_strlit("labels");
    let a = member("summary"@, opt_string(p.summary));
    let b = member("description"@, opt_string(p.description));
    let c = member("assignee"@, assignee_value(p.assignee));
    let d = member("priority"@, opt_named(p.priority));
    let e = member("components"@, opt_components(p.components, true));
    let f = member("labels"@, opt_labels(p.labels, true));
    let fs = update_fields(p);
    assert(fs == a + b + c + d + e + f);
    let ab = a + b;
    let abc = ab + c;
    let abcd = abc + d;
    let abcde = abcd + e;
    if k < a.len() {
        assert(fs[k] == a[k]);
        assert(a[k].0 == "summary"@);
        assert(a[k].0.len() != "assignee"@.len());
    } else if k < ab.len() {
        assert(fs[k] == b[k - a.len()]);
        assert(b[k - a.len()].0 == "description"@);
        assert("description"@[0] != "assignee"@[0]);
    } else if k < abc.len() {
        assert(fs[k] == c[k - ab.len()]);
    } else if k < abcd.len() {
        assert(fs[k] == d[k - abc.len()]);
        assert(d[k - abc.len()].0 == "priority"@);
        assert("priority"@[0] != "assignee"@[0]);
    } else if k < abcde.len() {
        assert(fs[k] == e[k - abcd.len()]);
        assert(e[k - abcd.len()].0 == "components"@);
        assert("components"@[0] != "assignee"@[0]);
    } else {
        assert(fs[k] == f[k - abcde.len()]);
        assert(f[k - abcde.len()].0 == "labels"@);
        assert("labels"@[0] != "assignee"@[0]);
    }
}

/// The update tool changes only the fields it is given: it sends summary,
/// description, assignee, priority, components and labels exactly when each
/// is given, and it sends the assignee as `null`, which unassigns, exactly
/// when the given assignee is empty.
pub proof fn law_update_sends_only_given_fields(p: UpdateIssueParams)
    ensures
        sends(update_fields(p), "summary"@) <==> p.summary is Some,
        sends(update_fields(p), "description"@) <==> p.description is Some,
        sends(update_fields(p), "assignee"@) <==> p.assignee is Some,
        sends(update_fields(p), "priority"@) <==> p.priority is Some,
        sends(update_fields(p), "components"@) <==> p.components is Some,
        sends(update_fields(p), "labels"@) <==> p.labels is Some,
        forall|k: int|
            0 <= k < update_fields(p).len() && (#[trigger] update_fields(p)[k]).0 == "assignee"@ ==> (
            update_fields(p)[k].1 == JsonV::Null <==> p.assignee->0@.len() == 0),
{
    reveal_strlit("summary");
    reveal_strlit("description");
    reveal_strlit("assignee");
    reveal_strlit("priority");
    reveal_strlit("components");
    reveal_strlit("labels");
    assert("summary"@.len() == 7 && "description"@.len() == 11 && "labels"@.len() == 6);
    assert("assignee"@.len() == 8 && "priority"@.len() == 8 && "components"@.len() == 10);
    assert("assignee"@[0] != "priority"@[0]);
    lemma_update_sends(p, "summary"@);
    lemma_update_sends(p, "description"@);
    lemma_update_sends(p, "assignee"@);
    lemma_update_sends(p, "priority"@);
    lemma_update_sends(p, "components"@);
    lemma_update_sends(p, "labels"@);
    assert forall|k: int|
        0 <= k < update_fields(p).len() && (#[trigger] update_fields(p)[k]).0 == "assignee"@ implies (
        update_fields(p)[k].1 == JsonV::Null <==> p.assignee->0@.len() == 0) by {
        lemma_update_assignee(p, k);
    }
}

/// Whether the fields `fs` hold the member `key` with the value `v`.
pub open spec fn has_member(fs: Seq<(Seq<char>, JsonV)>, key: Seq<char>, v: JsonV) -> bool {
    exists|k: int| 0 <= k < fs.len() && #[trigger] fs[k] == (key, v)
}

/// An array of the objects `{"name": item}`, one for each item, in order.
pub open spec fn name_object_array(items: Seq<Seq<char>>) -> JsonV {
    JsonV::Array(Seq::new(items.len(), |i: int| JsonV::Object(seq![("name"@, JsonV::Str(items[i]))])))
}

/// An array of the items as plain strings, in order.
pub open spec fn string_array_of(items: Seq<Seq<char>>) -> JsonV {
    JsonV::Array(Seq::new(items.len(), |i: int| JsonV::Str(items[i])))
}

proof fn lemma_name_objects_each(items: Seq<Seq<char>>)
    ensures
        JsonV::Array(name_objects(items)) == name_object_array(items),
    decreases items.len(),
{
    reveal_strlit("name");
    if items.len() > 0 {
        lemma_name_objects_each(items.drop_last());
    }
    assert(name_objects(items) =~= Seq::new(
        items.len(),
        |i: int| JsonV::Object(seq![("name"@, JsonV::Str(items[i]))]),
    ));
}

proof fn lemma_string_values_each(items: Seq<Seq<char>>)
    ensures
        JsonV::Array(string_values(items)) == string_array_of(items),
    decreases items.len(),
{
    if items.len() > 0 {
        lemma_string_values_each(items.drop_last());
    }
    assert(string_values(items) =~= Seq::new(items.len(), |i: int| JsonV::Str(items[i])));
}

proof fn lemma_has_member_concat(a: Seq<(Seq<char>, JsonV)>, b: Seq<(Seq<char>, JsonV)>, key: Seq<char>, v: JsonV)
    ensures
        has_member(a, key, v) ==> has_member(a + b, key, v),
        has_member(b, key, v) ==> has_member(a + b, key, v),
{
    if has_member(a, key, v) {
        let k = choose|k: int| 0 <= k < a.len() && #[trigger] a[k] == (key, v);
        assert((a + b)[k] == a[k]);
    }
    if has_member(b, key, v) {
        let k = choose|k: int| 0 <= k < b.len() && #[trigger] b[k] == (key, v);
        assert((a + b)[a.len() + k] == b[k]);
    }
}

proof fn lemma_has_member_single(key: Seq<char>, v: JsonV)
    ensures
        has_member(member(key, Some(v)), key, v),
{
    assert(member(key, Some(v))[0] == (key, v));
}

/// The update tool sends components as objects `{"name": item}` and labels
/// as plain strings, one for each item of the comma-separated list, in order
/// (an empty list too, which clears them).
pub proof fn law_update_list_values(p: UpdateIssueParams)
    ensures
        p.components is Some ==> has_member(
            update_fields(p),
            "components"@,
            name_object_array(comma_items(p.components->0@)),
        ),
        p.labels is Some ==> has_member(
            update_fields(p),
            "labels"@,
            string_array_of(comma_items(p.labels->0@)),
        ),
{
    let a = member("summary"@, opt_string(p.summary));
    let b = member("description"@, opt_string(p.description));
    let c = member("assignee"@, assignee_value(p.assignee));
    let d = member("priority"@, opt_named(p.priority));
    let e = member("components"@, opt_components(p.components, true));
    let f = member("labels"@, opt_labels(p.labels, true));
    assert(update_fields(p) == a + b + c + d + e + f);
    if p.components is Some {
        let items = comma_items(p.components->0@);
        lemma_name_objects_each(items);
        lemma_has_member_single("components"@, name_object_array(items));
        lemma_has_member_concat(a + b + c + d, e, "components"@, name_object_array(items));
        lemma_has_member_concat(a + b + c + d + e, f, "components"@, name_object_array(items));
    }
    if p.labels is Some {
        let items = comma_items(p.labels->0@);
        lemma_string_values_each(items);
        lemma_has_member_single("labels"@, string_array_of(items));
        lemma_has_member_concat(a + b + c + d + e, f, "labels"@, string_array_of(items));
    }
}

/// The creation tool sends components as objects `{"name": item}` and labels
/// as plain strings, one for each item of the comma-separated list, in order,
/// when the list has items; an empty list is not sent.
pub proof fn law_create_list_values(p: CreateIssueParams)
    ensures
        p.components is Some && comma_items(p.components->0@).len() > 0 ==> has_member(
            create_fields(p),
            "components"@,
            name_object_array(comma_items(p.components->0@)),
        ),
        p.labels is Some && comma_items(p.labels->0@).len() > 0 ==> has_member(
            create_fields(p),
            "labels"@,
            string_array_of(comma_items(p.labels->0@)),
        ),
        (p.components is None || comma_items(p.components->0@).len() == 0) ==> !sends(
            create_fields(p),
            "components"@,
        ),
        (p.labels is None || comma_items(p.labels->0@).len() == 0) ==> !sends(
            create_fields(p),
            "labels"@,
        ),
{
    let h = seq![
        ("project"@, keyed("key"@, p.project_key@)),
        ("summary"@, JsonV::Str(p.summary@)),
        ("issuetype"@, keyed("name"@, p.issue_type@)),
    ];
    let b = member("description"@, opt_string(p.description));
    let c = member("assignee"@, opt_named(p.assignee));
    let d = member("priority"@, opt_named(p.priority));
    let e = member("components"@, opt_components(p.components, false));
    let f = member("labels"@, opt_labels(p.labels, false));
    let g = member(
        "parent"@,
        match p.parent_key {
            Some(k) => Some(keyed("key"@, k@)),
            None => None,
        },
    );
    assert(create_fields(p) == h + b + c + d + e + f + g);
    if p.components is Some && comma_items(p.components->0@).len() > 0 {
        let items = comma_items(p.components->0@);
        lemma_name_objects_each(items);
        lemma_has_member_single("components"@, name_object_array(items));
        lemma_has_member_concat(h + b + c + d, e, "components"@, name_object_array(items));
        lemma_has_member_concat(h + b + c + d + e, f, "components"@, name_object_array(items));
        lemma_has_member_concat(h + b + c + d + e + f, g, "components"@, name_object_array(items));
    }
    if p.labels is Some && comma_items(p.labels->0@).len() > 0 {
        let items = comma_items(p.labels->0@);
        lemma_string_values_each(items);
        lemma_has_member_single("labels"@, string_array_of(items));
        lemma_has_member_concat(h + b + c + d + e, f, "labels"@, string_array_of(items));
        lemma_has_member_concat(h + b + c + d + e + f, g, "labels"@, string_array_of(items));
    }
    reveal_strlit("project");
    reveal_strlit("summary");
    reveal_strlit("issuetype");
    reveal_strlit("description");
    reveal_strlit("assignee");
    reveal_strlit("priority");
    reveal_strlit("components");
    reveal_strlit("labels");
    reveal_strlit("parent");
    assert("components"@.len() == 10 && "labels"@.len() == 6 && "project"@.len() == 7);
    assert("summary"@.len() == 7 && "issuetype"@.len() == 9 && "description"@.len() == 11);
    assert("assignee"@.len() == 8 && "priority"@.len() == 8 && "parent"@.len() == 6);
    assert("labels"@[0] != "parent"@[0]);
    let names = seq!["components"@, "labels"@];
    assert forall|i: int| 0 <= i < 2 implies (sends(create_fields(p), #[trigger] names[i]) ==> sends(e, names[i]) || sends(f, names[i])) by {
        let n = names[i];
        lemma_sends_concat(h, b, n);
        lemma_sends_concat(h + b, c, n);
        lemma_sends_concat(h + b + c, d, n);
        lemma_sends_concat(h + b + c + d, e, n);
        lemma_sends_concat(h + b + c + d + e, f, n);
        lemma_sends_concat(h + b + c + d + e + f, g, n);
        lemma_sends_member("description"@, opt_string(p.description), n);
        lemma_sends_member("assignee"@, opt_named(p.assignee), n);
        lemma_sends_member("priority"@, opt_named(p.priority), n);
        lemma_sends_member("components"@, opt_components(p.components, false), n);
        lemma_sends_member("labels"@, opt_labels(p.labels, false), n);
        lemma_sends_member("parent"@, match p.parent_key {
            Some(k) => Some(keyed("key"@, k@)),
            None => None,
        }, n);
        if sends(h, n) {
            let k = choose|k: int| 0 <= k < h.len() && (#[trigger] h[k]).0 == n;
            assert(k == 0 || k == 1 || k == 2);
        }
    }
    assert(names[0] == "components"@);
    assert(names[1] == "labels"@);
    lemma_sends_member("components"@, opt_components(p.components, false), "components"@);
    lemma_sends_member("labels"@, opt_labels(p.labels, false), "components"@);
    lemma_sends_member("components"@, opt_components(p.components, false), "labels"@);
    lemma_sends_member("labels"@, opt_labels(p.labels, false), "labels"@);
}

/// Whether a transition is named `target` once both are lower-cased.
pub open spec fn named_as(t: TransitionBean, target: Seq<char>) -> bool {
    match t.name {
        Some(n) => lowercase(n@) == lowercase(target),
        None => false,
    }
}

/// The names of the transitions that have one.
pub open spec fn transition_names(ts: Seq<TransitionBean>) -> Seq<Seq<char>>
    decreases ts.len(),
{
    if ts.len() == 0 {
        Seq::<Seq<char>>::empty()
    } else {
        let p = transition_names(ts.drop_last());
        match ts.last().name {
            Some(n) => p.push(n@),
            None => p,
        }
    }
}

/// The answer of the update tool when no transition has the requested name.
pub open spec fn unknown_status_message(target: Seq<char>, ts: Seq<TransitionBean>) -> Seq<char> {
    "Unknown status '"@ + target + "'. Available transitions: "@ + join_seq(
        transition_names(ts),
        ", "@,
    )
}

/// Finds the transition to the status `target`, ignoring case: the identifier
/// of the first transition so named (empty when it has none), or, when none
/// is, the message that lists the available transitions.
pub fn find_transition(transitions: &Vec<TransitionBean>, target: &str) -> (r: Result<String, String>)
    ensures
        match r {
            Ok(id) => exists|i: int|
                0 <= i < transitions@.len() && named_as(transitions@[i], target@) && (forall|j: int|
                    0 <= j < i ==> !named_as(#[trigger] transitions@[j], target@)) && id@ == str_or(
                    opt_view(transitions@[i].id),
                    ""@,
                ),
            Err(msg) => (forall|i: int|
                0 <= i < transitions@.len() ==> !named_as(#[trigger] transitions@[i], target@))
                && msg@ == unknown_status_message(target@, transitions@),
        },
{
    let target_lower = to_lowercase(target);
    let n = transitions.len();
    let mut i: usize = 0;
    while i < n
        invariant
            n == transitions@.len(),
            i <= n,
            target_lower@ == lowercase(target@),
            forall|j: int| 0 <= j < i ==> !named_as(#[trigger] transitions@[j], target@),
        decreases n - i,
    {
        let t = &transitions[i];
        if let Some(name) = &t.name {
            let l = to_lowercase(name.as_str());
            if crate::text::str_eq(l.as_str(), target_lower.as_str()) {
                let id = match &t.id {
                    Some(x) => x.clone(),
                    None => "".to_owned(),
                };
                assert(named_as(transitions@[i as int], target@));
                return Ok(id);
            }
        }
        i = i + 1;
    }
    let mut names: Vec<String> = Vec::new();
    let mut k: usize = 0;
    assert(transitions@.take(0) =~= Seq::<TransitionBean>::empty());
    assert(views(names@) =~= Seq::<Seq<char>>::empty());
    while k < n
        invariant
            n == transitions@.len(),
            k <= n,
            views(names@) == transition_names(transitions@.take(k as int)),
        decreases n - k,
    {
        assert(transitions@.take(k + 1).drop_last() =~= transitions@.take(k as int));
        assert(transitions@.take(k + 1).last() == transitions@[k as int]);
        if let Some(name) = &transitions[k].name {
            let ghost before = views(names@);
            names.push(name.clone());
            assert(views(names@) =~= before.push(name@));
        }
        k = k + 1;
    }
    assert(transitions@.take(n as int) =~= transitions@);
    let mut msg = "Unknown status '".to_owned();
    msg.append(target);
    msg.append("'. Available transitions: ");
    let j = join(&names, ", ");
    msg.append(j.as_str());
    Err(msg)
}

/// The answer of the update tool after the status transition (to the named
/// status, if one was made) and the field update (if one was made).
pub open spec fn update_message(issue: Seq<char>, transitioned: Option<Seq<char>>, fields_updated: bool) -> Seq<char> {
    let results = (match transitioned {
        Some(s) => seq!["Status transitioned to '"@ + s + "'."@],
        None => Seq::<Seq<char>>::empty(),
    }) + if fields_updated {
        seq!["Fields updated successfully."@]
    } else {
        Seq::<Seq<char>>::empty()
    };
    if results.len() == 0 {
        "No fields provided to update."@
    } else {
        "Issue "@ + issue + ". "@ + join_seq(results, " "@)
    }
}

/// Formats the answer of the update tool.
pub fn format_update_message(issue: &str, transitioned: Option<&str>, fields_updated: bool) -> (r: String)
    ensures
        r@ == update_message(
            issue@,
            match transitioned {
                Some(s) => Some(s@),
                None => None,
            },
            fields_updated,
        ),
{
    let mut results: Vec<String> = Vec::new();
    if let Some(s) = transitioned {
        let mut m = "Status transitioned to '".to_owned();
        m.append(s);
        m.append("'.");
        results.push(m);
    }
    if fields_updated {
        results.push("Fields updated successfully.".to_owned());
    }
    let ghost gt = match transitioned {
        Some(s) => Some(s@),
        None => None,
    };
    assert(views(results@) =~= (match gt {
        Some(s) => seq!["Status transitioned to '"@ + s + "'."@],
        None => Seq::<Seq<char>>::empty(),
    }) + if fields_updated {
        seq!["Fields updated successfully."@]
    } else {
        Seq::<Seq<char>>::empty()
    });
    if results.len() == 0 {
        "No fields provided to update.".to_owned()
    } else {
        let mut out = "Issue ".to_owned();
        out.append(issue);
        out.append(". ");
        let j = join(&results, " ");
        out.append(j.as_str());
        out
    }
}

/// Whether `i` is the position of the first transition named `target`.
pub open spec fn first_named(ts: Seq<TransitionBean>, target: Seq<char>, i: int) -> bool {
    &&& 0 <= i < ts.len()
    &&& named_as(ts[i], target)
    &&& forall|j: int| 0 <= j < i ==> !named_as(#[trigger] ts[j], target)
}

/// The transition to the status `target`: the identifier of the first
/// transition so named (empty when it has none), or, when none is, the
/// message that lists the available transitions.
pub open spec fn transition_choice(ts: Seq<TransitionBean>, target: Seq<char>) -> Result<Seq<char>, Seq<char>> {
    if exists|i: int| first_named(ts, target, i) {
        let i = choose|i: int| first_named(ts, target, i);
        Ok(str_or(opt_view(ts[i].id), ""@))
    } else {
        Err(unknown_status_message(target, ts))
    }
}

proof fn lemma_first_named_unique(ts: Seq<TransitionBean>, target: Seq<char>, i: int, k: int)
    requires
        first_named(ts, target, i),
        first_named(ts, target, k),
    ensures
        i == k,
{
    if i < k {
        assert(!named_as(ts[i], target));
    } else if k < i {
        assert(!named_as(ts[k], target));
    }
}

/// A reply that the update tool hands to its next step: nothing yet, the
/// transitions of the issue, the answer to the transition request, or the
/// answer to the field edit. A failed request carries its message.
pub enum UpdateReply {
    Start,
    Transitions(Result<Vec<TransitionBean>, String>),
    Transitioned(Result<(), String>),
    Edited(Result<(), String>),
}

/// What the update tool does next: read the issue's transitions, make the
/// transition with the given identifier, send the field edit, or answer.
#[derive(Debug, PartialEq)]
pub enum UpdateAction {
    ReadTransitions,
    Transition(String),
    EditFields(Vec<(String, Json)>),
    Answer(String),
}

/// The mathematical value of an action of the update tool.
pub enum UpdateActionV {
    ReadTransitions,
    Transition(Seq<char>),
    EditFields(Seq<(Seq<char>, JsonV)>),
    Answer(Seq<char>),
}

/// The mathematical value of `a`.
pub open spec fn action_view(a: UpdateAction) -> UpdateActionV {
    match a {
        UpdateAction::ReadTransitions => UpdateActionV::ReadTransitions,
        UpdateAction::Transition(id) => UpdateActionV::Transition(id@),
        UpdateAction::EditFields(es) => UpdateActionV::EditFields(jv_members(es@)),
        UpdateAction::Answer(t) => UpdateActionV::Answer(t@),
    }
}

/// The answer of a tool whose Jira request failed with the message `e`.
pub open spec fn error_answer(e: Seq<char>) -> Seq<char> {
    "Error: "@ + e
}

/// The status that the update tool is asked to move the issue to.
pub open spec fn status_view(p: UpdateIssueParams) -> Option<Seq<char>> {
    opt_view(p.status)
}

/// The step after the status transition (or without one): send the fields
/// given, or, with none, answer.
pub open spec fn after_transition(p: UpdateIssueParams) -> UpdateActionV {
    if update_fields(p).len() > 0 {
        UpdateActionV::EditFields(update_fields(p))
    } else {
        UpdateActionV::Answer(update_message(p.issue_id_or_key@, status_view(p), false))
    }
}

/// The next step of the update tool after `reply`: the status transition
/// comes first (reading the transitions, then making the one named), the
/// field edit after it, and a failed request, or a status that no transition
/// names, ends the run with its answer.
pub open spec fn update_next(p: UpdateIssueParams, reply: UpdateReply) -> UpdateActionV {
    match reply {
        UpdateReply::Start => if p.status is Some {
            UpdateActionV::ReadTransitions
        } else {
            after_transition(p)
        },
        UpdateReply::Transitions(Err(e)) => UpdateActionV::Answer(error_answer(e@)),
        UpdateReply::Transitions(Ok(ts)) => match p.status {
            Some(s) => match transition_choice(ts@, s@) {
                Ok(id) => UpdateActionV::Transition(id),
                Err(m) => UpdateActionV::Answer(m),
            },
            None => after_transition(p),
        },
        UpdateReply::Transitioned(Err(e)) => UpdateActionV::Answer(error_answer(e@)),
        UpdateReply::Transitioned(Ok(())) => after_transition(p),
        UpdateReply::Edited(Err(e)) => UpdateActionV::Answer(error_answer(e@)),
        UpdateReply::Edited(Ok(())) => UpdateActionV::Answer(
            update_message(p.issue_id_or_key@, status_view(p), true),
        ),
    }
}

fn error_text(e: &String) -> (r: String)
    ensures
        r@ == error_answer(e@),
{
    let mut m = "Error: ".to_owned();
    m.append(e.as_str());
    m
}

fn after_transition_step(p: &UpdateIssueParams) -> (r: UpdateAction)
    ensures
        action_view(r) == after_transition(*p),
{
    let fs = update_issue_fields(p);
    proof {
        lemma_jv_members_len(fs@);
    }
    if fs.len() > 0 {
        UpdateAction::EditFields(fs)
    } else {
        let status: Option<&str> = match &p.status {
            Some(s) => Some(s.as_str()),
            None => None,
        };
        UpdateAction::Answer(format_update_message(p.issue_id_or_key.as_str(), status, false))
    }
}

/// Decides the next step of the update tool from the last reply (see
/// `update_next`).
pub fn update_step(p: &UpdateIssueParams, reply: UpdateReply) -> (r: UpdateAction)
    ensures
        action_view(r) == update_next(*p, reply),
{
    match reply {
        UpdateReply::Start => if p.status.is_some() {
            UpdateAction::ReadTransitions
        } else {
            after_transition_step(p)
        },
        UpdateReply::Transitions(Err(e)) => UpdateAction::Answer(error_text(&e)),
        UpdateReply::Transitions(Ok(ts)) => match &p.status {
            Some(s) => match find_transition(&ts, s.as_str()) {
                Ok(id) => {
                    proof {
                        let i = choose|i: int|
                            0 <= i < ts@.len() && named_as(ts@[i], s@) && (forall|j: int|
                                0 <= j < i ==> !named_as(#[trigger] ts@[j], s@)) && id@ == str_or(
                                opt_view(ts@[i].id),
                                ""@,
                            );
                        assert(first_named(ts@, s@, i));
                        let k = choose|k: int| first_named(ts@, s@, k);
                        lemma_first_named_unique(ts@, s@, i, k);
                    }
                    UpdateAction::Transition(id)
                },
                Err(m) => {
                    proof {
                        assert(!exists|i: int| first_named(ts@, s@, i));
                    }
                    UpdateAction::Answer(m)
                },
            },
            None => after_transition_step(p),
        },
        UpdateReply::Transitioned(Err(e)) => UpdateAction::Answer(error_text(&e)),
        UpdateReply::Transitioned(Ok(())) => after_transition_step(p),
        UpdateReply::Edited(Err(e)) => UpdateAction::Answer(error_text(&e)),
        UpdateReply::Edited(Ok(())) => {
            let status: Option<&str> = match &p.status {
                Some(s) => Some(s.as_str()),
                None => None,
            };
            UpdateAction::Answer(format_update_message(p.issue_id_or_key.as_str(), status, true))
        },
    }
}

/// The update tool keeps its order: it reads transitions first exactly when
/// a status is asked for; it makes a transition only after reading the
/// transitions and finding one named as asked; it sends the field edit only
/// when fields are given, and, when a status is asked for, only after the
/// transition succeeded; and a status that no transition names ends
/// the run with an answer, before any edit.
pub proof fn law_update_order(p: UpdateIssueParams, reply: UpdateReply)
    ensures
        update_next(p, UpdateReply::Start) is ReadTransitions <==> p.status is Some,
        update_next(p, reply) is Transition ==> (reply matches UpdateReply::Transitions(Ok(ts)) && (
        p.status matches Some(s) && transition_choice(ts@, s@) is Ok)),
        update_next(p, reply) is EditFields ==> update_fields(p).len() > 0 && (p.status is None
            || reply matches UpdateReply::Transitioned(Ok(_))),
        (reply matches UpdateReply::Transitions(Ok(ts)) && (p.status matches Some(s)
            && transition_choice(ts@, s@) is Err)) ==> update_next(p, reply) is Answer,
{
}

/// An optional text, empty when missing.
pub open spec fn or_empty(v: Option<String>) -> Seq<char> {
    match v {
        Some(s) => s@,
        None => Seq::<char>::empty(),
    }
}

fn append_or_empty(out: &mut String, v: &Option<String>)
    ensures
        final(out)@ == old(out)@ + or_empty(*v),
{
    if let Some(s) = v {
        out.append(s.as_str());
    }
}

/// A confirmation: a title line and three labelled lines, the last without a
/// line break; missing values show empty.
pub open spec fn confirmation(
    title: Seq<char>,
    l1: Seq<char>,
    v1: Option<String>,
    l2: Seq<char>,
    v2: Option<String>,
    l3: Seq<char>,
    v3: Option<String>,
) -> Seq<char> {
    title + "\n"@ + l1 + or_empty(v1) + "\n"@ + l2 + or_empty(v2) + "\n"@ + l3 + or_empty(v3)
}

/// Formats a confirmation.
pub fn format_confirmation(
    title: &str,
    l1: &str,
    v1: &Option<String>,
    l2: &str,
    v2: &Option<String>,
    l3: &str,
    v3: &Option<String>,
) -> (r: String)
    ensures
        r@ == confirmation(title@, l1@, *v1, l2@, *v2, l3@, *v3),
{
    let mut out = title.to_owned();
    out.append("\n");
    out.append(l1);
    append_or_empty(&mut out, v1);
    out.append("\n");
    out.append(l2);
    append_or_empty(&mut out, v2);
    out.append("\n");
    out.append(l3);
    append_or_empty(&mut out, v3);
    out
}

/// The answer of the creation tool for the created issue's key, identifier and
/// address.
pub fn format_created_issue(key: &Option<String>, id: &Option<String>, url: &Option<String>) -> (r: String)
    ensures
        r@ == confirmation("Issue created successfully."@, "Key: "@, *key, "ID: "@, *id, "URL: "@, *url),
{
    format_confirmation("Issue created successfully.", "Key: ", key, "ID: ", id, "URL: ", url)
}

/// The answer of the comment tool for the added comment.
pub fn format_added_comment(comment: &CommentJsonBean) -> (r: String)
    ensures
        r@ == confirmation(
            "Comment added successfully."@,
            "ID: "@,
            comment.id,
            "Created: "@,
            comment.created,
            "URL: "@,
            comment.self_,
        ),
{
    format_confirmation(
        "Comment added successfully.",
        "ID: ",
        &comment.id,
        "Created: ",
        &comment.created,
        "URL: ",
        &comment.self_,
    )
}

/// One line of the transition listing.
pub open spec fn transition_line(t: TransitionBean) -> Seq<char> {
    "- "@ + str_or(opt_view(t.name), "?"@) + " (ID: "@ + str_or(opt_view(t.id), "?"@) + ") → "@
        + str_or(
        match t.to {
            Some(s) => opt_view(s.name),
            None => None,
        },
        "?"@,
    ) + "\n"@
}

/// The lines of the transition listing.
pub open spec fn transition_lines(ts: Seq<TransitionBean>) -> Seq<char>
    decreases ts.len(),
{
    if ts.len() == 0 {
        Seq::<char>::empty()
    } else {
        transition_lines(ts.drop_last()) + transition_line(ts.last())
    }
}

/// The transition listing of an issue.
pub open spec fn transitions_listing(issue: Seq<char>, ts: Seq<TransitionBean>) -> Seq<char> {
    if ts.len() == 0 {
        "No transitions available for "@ + issue + "."@
    } else {
        "Available transitions for "@ + issue + ":\n"@ + transition_lines(ts)
    }
}

fn push_transition_line(out: &mut String, t: &TransitionBean)
    ensures
        final(out)@ == old(out)@ + transition_line(*t),
{
    let name: &str = match &t.name {
        Some(n) => n.as_str(),
        None => "?",
    };
    let id: &str = match &t.id {
        Some(n) => n.as_str(),
        None => "?",
    };
    let to: &str = match &t.to {
        Some(s) => match &s.name {
            Some(n) => n.as_str(),
            None => "?",
        },
        None => "?",
    };
    out.append("- ");
    out.append(name);
    out.append(" (ID: ");
    out.append(id);
    out.append(") → ");
    out.append(to);
    out.append("\n");
}

/// Formats the transition listing of an issue.
pub fn format_transitions(issue: &str, transitions: &Vec<TransitionBean>) -> (r: String)
    ensures
        r@ == transitions_listing(issue@, transitions@),
{
    let n = transitions.len();
    if n == 0 {
        let mut out = "No transitions available for ".to_owned();
        out.append(issue);
        out.append(".");
        return out;
    }
    let mut out = "Available transitions for ".to_owned();
    out.append(issue);
    out.append(":\n");
    let ghost start = out@;
    let mut i: usize = 0;
    assert(transitions@.take(0) =~= Seq::<TransitionBean>::empty());
    while i < n
        invariant
            n == transitions@.len(),
            i <= n,
            out@ == start + transition_lines(transitions@.take(i as int)),
        decreases n - i,
    {
        assert(transitions@.take(i + 1).drop_last() =~= transitions@.take(i as int));
        assert(transitions@.take(i + 1).last() == transitions@[i as int]);
        push_transition_line(&mut out, &transitions[i]);
        i = i + 1;
    }
    assert(transitions@.take(n as int) =~= transitions@);
    out
}

} // verus!
