use vstd::prelude::*;

use crate::adf::{adf_markdown, render_adf};
use crate::json::{
    as_array, as_i64, as_str, deref_opt, entries_get, entry_lookup, get, get_str, json_get,
    json_get_str, opt_as_array, opt_as_i64, opt_as_str, opt_get, opt_json_get, opt_present,
    present, str_or, Json,
};
use crate::text::{
    decimal, join, join_seq, line_nonempty, line_some, opt_ref, opt_view, push_decimal_i64,
    push_line_nonempty, push_line_some, ref_view, str_eq, trim, trim_seq, views,
};

verus! {

/// The status a workflow transition leads to.
pub struct StatusBean {
    pub name: Option<String>,
}

/// A workflow transition of an issue.
pub struct TransitionBean {
    pub id: Option<String>,
    pub name: Option<String>,
    pub to: Option<StatusBean>,
}

/// One changed field in an entry of an issue's history.
pub struct ChangeItemBean {
    pub field: Option<String>,
    pub to_string: Option<String>,
}

/// One entry of an issue's history.
pub struct ChangeHistoryBean {
    pub items: Option<Vec<ChangeItemBean>>,
}

/// The history of an issue.
pub struct ChangelogBean {
    pub histories: Option<Vec<ChangeHistoryBean>>,
}

/// An issue as the Jira REST API returns it: its fields are kept as the JSON
/// members of the `fields` object.
pub struct IssueBean {
    pub key: Option<String>,
    pub id: Option<String>,
    pub self_: Option<String>,
    pub fields: Option<Vec<(String, Json)>>,
    pub transitions: Option<Vec<TransitionBean>>,
    pub changelog: Option<ChangelogBean>,
}

/// A user as `"Display Name (email)"`, or the display name alone when there is
/// no e-mail address.
pub open spec fn user_text(user: Json) -> Seq<char> {
    let display_name = str_or(get_str(user, "displayName"@), ""@);
    let email = str_or(get_str(user, "emailAddress"@), ""@);
    if email.len() == 0 {
        display_name
    } else {
        display_name + " ("@ + email + ")"@
    }
}

/// Formats a user object.
pub fn format_user(user: &Json) -> (r: String)
    ensures
        r@ == user_text(*user),
{
    let display_name: &str = match json_get_str(user, "displayName") {
        Some(s) => s.as_str(),
        None => "",
    };
    let email: &str = match json_get_str(user, "emailAddress") {
        Some(s) => s.as_str(),
        None => "",
    };
    let mut r = display_name.to_owned();
    if !email.is_empty() {
        r.append(" (");
        r.append(email);
        r.append(")");
    }
    r
}

/// The description of an issue: trimmed plain text, or a rendered document.
#[verifier::opaque]
pub open spec fn sec_description(f: Seq<(String, Json)>) -> Seq<char> {
    match entry_lookup(f, "description"@) {
        Some(Json::Str(s)) => {
            let t = trim_seq(s@);
            if t.len() > 0 {
                "Description:\n"@ + t + "\n"@
            } else {
                Seq::<char>::empty()
            }
        },
        Some(Json::Object(es)) => {
            let r = adf_markdown(Json::Object(es));
            if r.len() > 0 {
                "Description:\n"@ + r + "\n"@
            } else {
                Seq::<char>::empty()
            }
        },
        _ => Seq::<char>::empty(),
    }
}

fn push_description(out: &mut String, f: &Vec<(String, Json)>)
    ensures
        final(out)@ == old(out)@ + sec_description(f@),
{
    reveal(sec_description);
    match entries_get(f, "description") {
        Some(Json::Str(s)) => {
            let t = trim(s.as_str());
            if !t.as_str().is_empty() {
                out.append("Description:\n");
                out.append(t.as_str());
                out.append("\n");
            }
        },
        Some(d) => {
            if let Json::Object(_) = d {
                let r = render_adf(d);
                if !r.as_str().is_empty() {
                    out.append("Description:\n");
                    out.append(r.as_str());
                    out.append("\n");
                }
            }
        },
        None => {},
    }
}

/// The name and description lines of an object member such as `issuetype`.
#[verifier::opaque]
pub open spec fn sec_named(label: Seq<char>, desc_label: Seq<char>, v: Option<Json>) -> Seq<char> {
    line_some(label, as_str(opt_get(v, "name"@))) + line_nonempty(
        desc_label,
        as_str(opt_get(v, "description"@)),
    )
}

fn push_named(out: &mut String, label: &str, desc_label: &str, v: Option<&Json>)
    ensures
        final(out)@ == old(out)@ + sec_named(label@, desc_label@, deref_opt(v)),
{
    reveal(sec_named);
    push_line_some(out, label, opt_as_str(opt_json_get(v, "name")));
    push_line_nonempty(out, desc_label, opt_as_str(opt_json_get(v, "description")));
}

/// The priority line; an absent or `null` priority reads as none.
#[verifier::opaque]
pub open spec fn sec_priority(f: Seq<(String, Json)>) -> Seq<char> {
    let p = entry_lookup(f, "priority"@);
    if present(p) {
        line_some("Priority: "@, as_str(opt_get(p, "name"@)))
    } else {
        "Priority: None\n"@
    }
}

fn push_priority(out: &mut String, f: &Vec<(String, Json)>)
    ensures
        final(out)@ == old(out)@ + sec_priority(f@),
{
    reveal(sec_priority);
    let p = entries_get(f, "priority");
    if opt_present(p) {
        push_line_some(out, "Priority: ", opt_as_str(opt_json_get(p, "name")));
    } else {
        out.append("Priority: None\n");
    }
}

/// The resolution lines; the description is shown only with a name.
#[verifier::opaque]
pub open spec fn sec_resolution(f: Seq<(String, Json)>) -> Seq<char> {
    let r = entry_lookup(f, "resolution"@);
    match as_str(opt_get(r, "name"@)) {
        Some(n) => "Resolution: "@ + n + "\n"@ + line_nonempty(
            "Resolution Description: "@,
            as_str(opt_get(r, "description"@)),
        ),
        None => Seq::<char>::empty(),
    }
}

fn push_resolution(out: &mut String, f: &Vec<(String, Json)>)
    ensures
        final(out)@ == old(out)@ + sec_resolution(f@),
{
    reveal(sec_resolution);
    let r = entries_get(f, "resolution");
    if let Some(n) = opt_as_str(opt_json_get(r, "name")) {
        out.append("Resolution: ");
        out.append(n.as_str());
        out.append("\n");
        push_line_nonempty(out, "Resolution Description: ", opt_as_str(opt_json_get(r, "description")));
    }
}

/// A person line: the user when present and not `null`, else `absent`.
#[verifier::opaque]
pub open spec fn sec_person(label: Seq<char>, v: Option<Json>, absent: Seq<char>) -> Seq<char> {
    if present(v) {
        label + user_text(v.unwrap()) + "\n"@
    } else {
        absent
    }
}

fn push_person(out: &mut String, label: &str, v: Option<&Json>, absent: &str)
    ensures
        final(out)@ == old(out)@ + sec_person(label@, deref_opt(v), absent@),
{
    reveal(sec_person);
    match v {
        Some(u) => {
            if opt_present(v) {
                out.append(label);
                let t = format_user(u);
                out.append(t.as_str());
                out.append("\n");
            } else {
                out.append(absent);
            }
        },
        None => out.append(absent),
    }
}

/// The date lines.
#[verifier::opaque]
pub open spec fn sec_dates(f: Seq<(String, Json)>) -> Seq<char> {
    line_nonempty("Created: "@, as_str(entry_lookup(f, "created"@))) + line_nonempty(
        "Updated: "@,
        as_str(entry_lookup(f, "updated"@)),
    ) + line_nonempty("Last Viewed: "@, as_str(entry_lookup(f, "lastViewed"@))) + line_nonempty(
        "Status Category Change Date: "@,
        as_str(entry_lookup(f, "statuscategorychangedate"@)),
    )
}

fn push_dates(out: &mut String, f: &Vec<(String, Json)>)
    ensures
        final(out)@ == old(out)@ + sec_dates(f@),
{
    reveal(sec_dates);
    push_line_nonempty(out, "Created: ", opt_as_str(entries_get(f, "created")));
    push_line_nonempty(out, "Updated: ", opt_as_str(entries_get(f, "updated")));
    push_line_nonempty(out, "Last Viewed: ", opt_as_str(entries_get(f, "lastViewed")));
    push_line_nonempty(
        out,
        "Status Category Change Date: ",
        opt_as_str(entries_get(f, "statuscategorychangedate")),
    );
}

/// `" (text)"` when the text is present.
pub open spec fn paren_some(v: Option<Seq<char>>) -> Seq<char> {
    match v {
        Some(s) => " ("@ + s + ")"@,
        None => Seq::<char>::empty(),
    }
}

/// `" (text)"` when the text is present and not empty.
pub open spec fn paren_nonempty(v: Option<Seq<char>>) -> Seq<char> {
    match v {
        Some(s) => if s.len() > 0 {
            " ("@ + s + ")"@
        } else {
            Seq::<char>::empty()
        },
        None => Seq::<char>::empty(),
    }
}

fn push_paren_some(out: &mut String, v: Option<&String>)
    ensures
        final(out)@ == old(out)@ + paren_some(ref_view(v)),
{
    if let Some(s) = v {
        out.append(" (");
        out.append(s.as_str());
        out.append(")");
    }
}

fn push_paren_nonempty(out: &mut String, v: Option<&String>)
    ensures
        final(out)@ == old(out)@ + paren_nonempty(ref_view(v)),
{
    if let Some(s) = v {
        if !s.as_str().is_empty() {
            out.append(" (");
            out.append(s.as_str());
            out.append(")");
        }
    }
}

/// `before` and the text, when the text is present and not empty.
pub open spec fn tail_nonempty(before: Seq<char>, v: Option<Seq<char>>) -> Seq<char> {
    match v {
        Some(s) => if s.len() > 0 {
            before + s
        } else {
            Seq::<char>::empty()
        },
        None => Seq::<char>::empty(),
    }
}

fn push_tail_nonempty(out: &mut String, before: &str, v: Option<&String>)
    ensures
        final(out)@ == old(out)@ + tail_nonempty(before@, ref_view(v)),
{
    if let Some(s) = v {
        if !s.as_str().is_empty() {
            out.append(before);
            out.append(s.as_str());
        }
    }
}

/// The project line.
#[verifier::opaque]
pub open spec fn sec_project(f: Seq<(String, Json)>) -> Seq<char> {
    let p = entry_lookup(f, "project"@);
    match as_str(opt_get(p, "name"@)) {
        Some(n) => "Project: "@ + n + paren_some(as_str(opt_get(p, "key"@))) + "\n"@,
        None => Seq::<char>::empty(),
    }
}

fn push_project(out: &mut String, f: &Vec<(String, Json)>)
    ensures
        final(out)@ == old(out)@ + sec_project(f@),
{
    reveal(sec_project);
    let p = entries_get(f, "project");
    if let Some(n) = opt_as_str(opt_json_get(p, "name")) {
        out.append("Project: ");
        out.append(n.as_str());
        push_paren_some(out, opt_as_str(opt_json_get(p, "key")));
        out.append("\n");
    }
}

/// The parent line.
#[verifier::opaque]
pub open spec fn sec_parent(f: Seq<(String, Json)>) -> Seq<char> {
    let p = entry_lookup(f, "parent"@);
    match as_str(opt_get(p, "key"@)) {
        Some(k) => "Parent: "@ + k + tail_nonempty(
            " - "@,
            as_str(opt_get(opt_get(p, "fields"@), "summary"@)),
        ) + "\n"@,
        None => Seq::<char>::empty(),
    }
}

fn push_parent(out: &mut String, f: &Vec<(String, Json)>)
    ensures
        final(out)@ == old(out)@ + sec_parent(f@),
{
    reveal(sec_parent);
    let p = entries_get(f, "parent");
    if let Some(k) = opt_as_str(opt_json_get(p, "key")) {
        out.append("Parent: ");
        out.append(k.as_str());
        push_tail_nonempty(out, " - ", opt_as_str(opt_json_get(opt_json_get(p, "fields"), "summary")));
        out.append("\n");
    }
}

/// A count line: `label`, the number, `suffix`, when the number is present and,
/// if `positive_only`, above zero.
#[verifier::opaque]
pub open spec fn count_line(label: Seq<char>, suffix: Seq<char>, v: Option<i64>, positive_only: bool) -> Seq<char> {
    match v {
        Some(n) => if !positive_only || n > 0 {
            label + decimal(n as int) + suffix
        } else {
            Seq::<char>::empty()
        },
        None => Seq::<char>::empty(),
    }
}

fn push_count(out: &mut String, label: &str, suffix: &str, v: Option<i64>, positive_only: bool)
    ensures
        final(out)@ == old(out)@ + count_line(label@, suffix@, v, positive_only),
{
    reveal(count_line);
    if let Some(n) = v {
        if !positive_only || n > 0 {
            out.append(label);
            push_decimal_i64(out, n);
            out.append(suffix);
        }
    }
}


/// The string items of an array, in order.
pub open spec fn string_items(a: Seq<Json>) -> Seq<Seq<char>>
    decreases a.len(),
{
    if a.len() == 0 {
        Seq::<Seq<char>>::empty()
    } else {
        let p = string_items(a.drop_last());
        match a.last() {
            Json::Str(s) => p.push(s@),
            _ => p,
        }
    }
}

/// The labels line.
#[verifier::opaque]
pub open spec fn sec_labels(f: Seq<(String, Json)>) -> Seq<char> {
    match as_array(entry_lookup(f, "labels"@)) {
        Some(a) => {
            let l = string_items(a);
            if l.len() > 0 {
                "Labels: "@ + join_seq(l, ", "@) + "\n"@
            } else {
                Seq::<char>::empty()
            }
        },
        None => Seq::<char>::empty(),
    }
}

fn push_labels(out: &mut String, f: &Vec<(String, Json)>)
    ensures
        final(out)@ == old(out)@ + sec_labels(f@),
{
    reveal(sec_labels);
    if let Some(a) = opt_as_array(entries_get(f, "labels")) {
        let n = a.len();
        let mut labels: Vec<String> = Vec::new();
        let mut i: usize = 0;
        assert(a@.take(0) =~= Seq::<Json>::empty());
        assert(views(labels@) =~= Seq::<Seq<char>>::empty());
        while i < n
            invariant
                n == a@.len(),
                i <= n,
                views(labels@) == string_items(a@.take(i as int)),
            decreases n - i,
        {
            assert(a@.take(i + 1).drop_last() =~= a@.take(i as int));
            assert(a@.take(i + 1).last() == a@[i as int]);
            if let Json::Str(s) = &a[i] {
                labels.push(s.clone());
                assert(views(labels@) =~= string_items(a@.take(i as int)).push(s@));
            }
            i = i + 1;
        }
        assert(a@.take(n as int) =~= a@);
        if labels.len() > 0 {
            out.append("Labels: ");
            let j = join(&labels, ", ");
            out.append(j.as_str());
            out.append("\n");
        }
    }
}

/// One item of a list of named things: its name and description.
pub open spec fn named_item(c: Json) -> Seq<char> {
    match get_str(c, "name"@) {
        Some(n) => "- "@ + n + paren_nonempty(get_str(c, "description"@)) + "\n"@,
        None => Seq::<char>::empty(),
    }
}

/// The items of a list of named things.
pub open spec fn named_items(a: Seq<Json>) -> Seq<char>
    decreases a.len(),
{
    if a.len() == 0 {
        Seq::<char>::empty()
    } else {
        named_items(a.drop_last()) + named_item(a.last())
    }
}

/// A titled list of named things, such as the components of an issue.
#[verifier::opaque]
pub open spec fn sec_named_list(title: Seq<char>, v: Option<Json>) -> Seq<char> {
    match as_array(v) {
        Some(a) => if a.len() > 0 {
            title + named_items(a)
        } else {
            Seq::<char>::empty()
        },
        None => Seq::<char>::empty(),
    }
}

fn push_named_list(out: &mut String, title: &str, v: Option<&Json>)
    ensures
        final(out)@ == old(out)@ + sec_named_list(title@, deref_opt(v)),
{
    reveal(sec_named_list);
    if let Some(a) = opt_as_array(v) {
        let n = a.len();
        if n > 0 {
            out.append(title);
            let ghost start = out@;
            let mut i: usize = 0;
            assert(a@.take(0) =~= Seq::<Json>::empty());
            while i < n
                invariant
                    n == a@.len(),
                    i <= n,
                    out@ == start + named_items(a@.take(i as int)),
                decreases n - i,
            {
                assert(a@.take(i + 1).drop_last() =~= a@.take(i as int));
                assert(a@.take(i + 1).last() == a@[i as int]);
                if let Some(name) = json_get_str(&a[i], "name") {
                    out.append("- ");
                    out.append(name.as_str());
                    push_paren_nonempty(out, json_get_str(&a[i], "description"));
                    out.append("\n");
                }
                i = i + 1;
            }
            assert(a@.take(n as int) =~= a@);
        }
    }
}

/// One subtask: its key, summary and status.
pub open spec fn subtask_item(st: Json) -> Seq<char> {
    match get_str(st, "key"@) {
        Some(k) => {
            let fl = get(st, "fields"@);
            "- "@ + k + tail_nonempty(": "@, as_str(opt_get(fl, "summary"@))) + match as_str(
                opt_get(opt_get(fl, "status"@), "name"@),
            ) {
                Some(n) => " ["@ + n + "]"@,
                None => Seq::<char>::empty(),
            } + "\n"@
        },
        None => Seq::<char>::empty(),
    }
}

/// The subtask items.
pub open spec fn subtask_items(a: Seq<Json>) -> Seq<char>
    decreases a.len(),
{
    if a.len() == 0 {
        Seq::<char>::empty()
    } else {
        subtask_items(a.drop_last()) + subtask_item(a.last())
    }
}

/// The subtasks section.
#[verifier::opaque]
pub open spec fn sec_subtasks(f: Seq<(String, Json)>) -> Seq<char> {
    match as_array(entry_lookup(f, "subtasks"@)) {
        Some(a) => if a.len() > 0 {
            "Subtasks:\n"@ + subtask_items(a)
        } else {
            Seq::<char>::empty()
        },
        None => Seq::<char>::empty(),
    }
}

fn push_subtask(out: &mut String, st: &Json)
    ensures
        final(out)@ == old(out)@ + subtask_item(*st),
{
    if let Some(k) = json_get_str(st, "key") {
        let fl = json_get(st, "fields");
        out.append("- ");
        out.append(k.as_str());
        push_tail_nonempty(out, ": ", opt_as_str(opt_json_get(fl, "summary")));
        if let Some(n) = opt_as_str(opt_json_get(opt_json_get(fl, "status"), "name")) {
            out.append(" [");
            out.append(n.as_str());
            out.append("]");
        }
        out.append("\n");
    }
}

fn push_subtasks(out: &mut String, f: &Vec<(String, Json)>)
    ensures
        final(out)@ == old(out)@ + sec_subtasks(f@),
{
    reveal(sec_subtasks);
    if let Some(a) = opt_as_array(entries_get(f, "subtasks")) {
        let n = a.len();
        if n > 0 {
            out.append("Subtasks:\n");
            let ghost start = out@;
            let mut i: usize = 0;
            assert(a@.take(0) =~= Seq::<Json>::empty());
            while i < n
                invariant
                    n == a@.len(),
                    i <= n,
                    out@ == start + subtask_items(a@.take(i as int)),
                decreases n - i,
            {
                assert(a@.take(i + 1).drop_last() =~= a@.take(i as int));
                assert(a@.take(i + 1).last() == a@[i as int]);
                push_subtask(out, &a[i]);
                i = i + 1;
            }
            assert(a@.take(n as int) =~= a@);
        }
    }
}

/// One side of an issue link: the relation named by the link type (or `dir`
/// itself), the linked key and its summary.
pub open spec fn link_side(link: Json, side_key: Seq<char>, dir: Seq<char>) -> Seq<char> {
    let side = get(link, side_key);
    let label = str_or(as_str(opt_get(get(link, "type"@), dir)), dir);
    match as_str(opt_get(side, "key"@)) {
        Some(k) => "- "@ + label + " "@ + k + tail_nonempty(
            ": "@,
            as_str(opt_get(opt_get(side, "fields"@), "summary"@)),
        ) + "\n"@,
        None => Seq::<char>::empty(),
    }
}

/// Both sides of an issue link, outward first.
pub open spec fn link_item(link: Json) -> Seq<char> {
    link_side(link, "outwardIssue"@, "outward"@) + link_side(link, "inwardIssue"@, "inward"@)
}

/// The link items.
pub open spec fn link_items(a: Seq<Json>) -> Seq<char>
    decreases a.len(),
{
    if a.len() == 0 {
        Seq::<char>::empty()
    } else {
        link_items(a.drop_last()) + link_item(a.last())
    }
}

/// The issue links section.
#[verifier::opaque]
pub open spec fn sec_links(f: Seq<(String, Json)>) -> Seq<char> {
    match as_array(entry_lookup(f, "issuelinks"@)) {
        Some(a) => if a.len() > 0 {
            "Issue Links:\n"@ + link_items(a)
        } else {
            Seq::<char>::empty()
        },
        None => Seq::<char>::empty(),
    }
}

fn push_link_side(out: &mut String, link: &Json, side_key: &str, dir: &str)
    ensures
        final(out)@ == old(out)@ + link_side(*link, side_key@, dir@),
{
    let side = json_get(link, side_key);
    if let Some(k) = opt_as_str(opt_json_get(side, "key")) {
        let label: &str = match opt_as_str(opt_json_get(json_get(link, "type"), dir)) {
            Some(l) => l.as_str(),
            None => dir,
        };
        out.append("- ");
        out.append(label);
        out.append(" ");
        out.append(k.as_str());
        push_tail_nonempty(out, ": ", opt_as_str(opt_json_get(opt_json_get(side, "fields"), "summary")));
        out.append("\n");
    }
}

fn push_links(out: &mut String, f: &Vec<(String, Json)>)
    ensures
        final(out)@ == old(out)@ + sec_links(f@),
{
    reveal(sec_links);
    if let Some(a) = opt_as_array(entries_get(f, "issuelinks")) {
        let n = a.len();
        if n > 0 {
            out.append("Issue Links:\n");
            let ghost start = out@;
            let mut i: usize = 0;
            assert(a@.take(0) =~= Seq::<Json>::empty());
            while i < n
                invariant
                    n == a@.len(),
                    i <= n,
                    out@ == start + link_items(a@.take(i as int)),
                decreases n - i,
            {
                assert(a@.take(i + 1).drop_last() =~= a@.take(i as int));
                assert(a@.take(i + 1).last() == a@[i as int]);
                push_link_side(out, &a[i], "outwardIssue", "outward");
                push_link_side(out, &a[i], "inwardIssue", "inward");
                i = i + 1;
            }
            assert(a@.take(n as int) =~= a@);
        }
    }
}

/// The name of an attachment: its file name if it has the member, else its
/// title, else `"unknown"`.
pub open spec fn attachment_name(att: Json) -> Seq<char> {
    match get(att, "filename"@) {
        Some(v) => str_or(as_str(Some(v)), "unknown"@),
        None => str_or(get_str(att, "title"@), "unknown"@),
    }
}

/// One attachment line.
pub open spec fn attachment_item(att: Json) -> Seq<char> {
    "- "@ + attachment_name(att) + " (ID: "@ + str_or(get_str(att, "id"@), ""@) + ", Type: "@
        + str_or(get_str(att, "mimeType"@), ""@) + ", Size: "@ + decimal(
        match as_i64(get(att, "size"@)) {
            Some(n) => n as int,
            None => 0,
        },
    ) + " bytes)\n"@
}

/// The attachment items.
pub open spec fn attachment_items(a: Seq<Json>) -> Seq<char>
    decreases a.len(),
{
    if a.len() == 0 {
        Seq::<char>::empty()
    } else {
        attachment_items(a.drop_last()) + attachment_item(a.last())
    }
}

/// The attachments section.
#[verifier::opaque]
pub open spec fn sec_attachments(f: Seq<(String, Json)>) -> Seq<char> {
    match as_array(entry_lookup(f, "attachment"@)) {
        Some(a) => if a.len() > 0 {
            "Attachments:\n"@ + attachment_items(a)
        } else {
            Seq::<char>::empty()
        },
        None => Seq::<char>::empty(),
    }
}

fn attachment_name_exec(att: &Json) -> (r: &str)
    ensures
        r@ == attachment_name(*att),
{
    match json_get(att, "filename") {
        Some(v) => match opt_as_str(Some(v)) {
            Some(s) => s.as_str(),
            None => "unknown",
        },
        None => match json_get_str(att, "title") {
            Some(s) => s.as_str(),
            None => "unknown",
        },
    }
}

fn push_attachment(out: &mut String, att: &Json)
    ensures
        final(out)@ == old(out)@ + attachment_item(*att),
{
    let name = attachment_name_exec(att);
    let id: &str = match json_get_str(att, "id") {
        Some(s) => s.as_str(),
        None => "",
    };
    let mime: &str = match json_get_str(att, "mimeType") {
        Some(s) => s.as_str(),
        None => "",
    };
    let size: i64 = match opt_as_i64(json_get(att, "size")) {
        Some(n) => n,
        None => 0,
    };
    out.append("- ");
    out.append(name);
    out.append(" (ID: ");
    out.append(id);
    out.append(", Type: ");
    out.append(mime);
    out.append(", Size: ");
    push_decimal_i64(out, size);
    out.append(" bytes)\n");
}

fn push_attachments(out: &mut String, f: &Vec<(String, Json)>)
    ensures
        final(out)@ == old(out)@ + sec_attachments(f@),
{
    reveal(sec_attachments);
    if let Some(a) = opt_as_array(entries_get(f, "attachment")) {
        let n = a.len();
        if n > 0 {
            out.append("Attachments:\n");
            let ghost start = out@;
            let mut i: usize = 0;
            assert(a@.take(0) =~= Seq::<Json>::empty());
            while i < n
                invariant
                    n == a@.len(),
                    i <= n,
                    out@ == start + attachment_items(a@.take(i as int)),
                decreases n - i,
            {
                assert(a@.take(i + 1).drop_last() =~= a@.take(i as int));
                assert(a@.take(i + 1).last() == a@[i as int]);
                push_attachment(out, &a[i]);
                i = i + 1;
            }
            assert(a@.take(n as int) =~= a@);
        }
    }
}


/// Summary, description, type and status.
#[verifier::opaque]
pub open spec fn fields_part1(f: Seq<(String, Json)>) -> Seq<char> {
    line_nonempty("Summary: "@, as_str(entry_lookup(f, "summary"@))) + sec_description(f) + sec_named(
        "Type: "@,
        "Type Description: "@,
        entry_lookup(f, "issuetype"@),
    ) + sec_named("Status: "@, "Status Description: "@, entry_lookup(f, "status"@))
}

/// Priority, resolution, resolution date and reporter.
#[verifier::opaque]
pub open spec fn fields_part2(f: Seq<(String, Json)>) -> Seq<char> {
    sec_priority(f) + sec_resolution(f) + line_nonempty(
        "Resolution Date: "@,
        as_str(entry_lookup(f, "resolutiondate"@)),
    ) + sec_person("Reporter: "@, entry_lookup(f, "reporter"@), "Reporter: Unassigned\n"@)
}

/// Assignee, creator and dates.
#[verifier::opaque]
pub open spec fn fields_part3(f: Seq<(String, Json)>) -> Seq<char> {
    sec_person("Assignee: "@, entry_lookup(f, "assignee"@), "Assignee: Unassigned\n"@)
        + sec_person("Creator: "@, entry_lookup(f, "creator"@), ""@) + sec_dates(f)
}

/// Project, parent, work ratio and labels.
#[verifier::opaque]
pub open spec fn fields_part4(f: Seq<(String, Json)>) -> Seq<char> {
    sec_project(f) + sec_parent(f) + count_line(
        "Work Ratio: "@,
        "\n"@,
        as_i64(entry_lookup(f, "workratio"@)),
        true,
    ) + sec_labels(f)
}

/// Components, versions and security level.
#[verifier::opaque]
pub open spec fn fields_part5(f: Seq<(String, Json)>) -> Seq<char> {
    sec_named_list("Components:\n"@, entry_lookup(f, "components"@)) + sec_named_list(
        "Fix Versions:\n"@,
        entry_lookup(f, "fixVersions"@),
    ) + sec_named_list("Affected Versions:\n"@, entry_lookup(f, "versions"@)) + line_some(
        "Security Level: "@,
        as_str(opt_get(entry_lookup(f, "security"@), "name"@)),
    )
}

/// Subtasks, links, watchers and votes.
#[verifier::opaque]
pub open spec fn fields_part6(f: Seq<(String, Json)>) -> Seq<char> {
    sec_subtasks(f) + sec_links(f) + count_line(
        "Watchers: "@,
        "\n"@,
        as_i64(opt_get(entry_lookup(f, "watches"@), "watchCount"@)),
        false,
    ) + count_line("Votes: "@, "\n"@, as_i64(opt_get(entry_lookup(f, "votes"@), "votes"@)), false)
}

/// Attachments, comment count and worklog count.
#[verifier::opaque]
pub open spec fn fields_part7(f: Seq<(String, Json)>) -> Seq<char> {
    sec_attachments(f) + count_line(
        "Comments: "@,
        " total\n"@,
        as_i64(opt_get(entry_lookup(f, "comment"@), "total"@)),
        true,
    ) + count_line(
        "Worklogs: "@,
        " entries\n"@,
        as_i64(opt_get(entry_lookup(f, "worklog"@), "total"@)),
        true,
    )
}

/// The lines drawn from an issue's fields.
#[verifier::opaque]
pub open spec fn fields_text(f: Seq<(String, Json)>) -> Seq<char> {
    fields_part1(f) + fields_part2(f) + fields_part3(f) + fields_part4(f) + fields_part5(f)
        + fields_part6(f) + fields_part7(f)
}

fn push_fields_part1(out: &mut String, f: &Vec<(String, Json)>)
    ensures
        final(out)@ == old(out)@ + fields_part1(f@),
{
    reveal(fields_part1);
    let ghost o = out@;
    push_line_nonempty(out, "Summary: ", opt_as_str(entries_get(f, "summary")));
    push_description(out, f);
    push_named(out, "Type: ", "Type Description: ", entries_get(f, "issuetype"));
    push_named(out, "Status: ", "Status Description: ", entries_get(f, "status"));
    assert(out@ =~= o + fields_part1(f@));
}

fn push_fields_part2(out: &mut String, f: &Vec<(String, Json)>)
    ensures
        final(out)@ == old(out)@ + fields_part2(f@),
{
    reveal(fields_part2);
    let ghost o = out@;
    push_priority(out, f);
    push_resolution(out, f);
    push_line_nonempty(out, "Resolution Date: ", opt_as_str(entries_get(f, "resolutiondate")));
    push_person(out, "Reporter: ", entries_get(f, "reporter"), "Reporter: Unassigned\n");
    assert(out@ =~= o + fields_part2(f@));
}

fn push_fields_part3(out: &mut String, f: &Vec<(String, Json)>)
    ensures
        final(out)@ == old(out)@ + fields_part3(f@),
{
    reveal(fields_part3);
    let ghost o = out@;
    push_person(out, "Assignee: ", entries_get(f, "assignee"), "Assignee: Unassigned\n");
    push_person(out, "Creator: ", entries_get(f, "creator"), "");
    push_dates(out, f);
    assert(out@ =~= o + fields_part3(f@));
}

fn push_fields_part4(out: &mut String, f: &Vec<(String, Json)>)
    ensures
        final(out)@ == old(out)@ + fields_part4(f@),
{
    reveal(fields_part4);
    let ghost o = out@;
    push_project(out, f);
    push_parent(out, f);
    push_count(out, "Work Ratio: ", "\n", opt_as_i64(entries_get(f, "workratio")), true);
    push_labels(out, f);
    assert(out@ =~= o + fields_part4(f@));
}

fn push_fields_part5(out: &mut String, f: &Vec<(String, Json)>)
    ensures
        final(out)@ == old(out)@ + fields_part5(f@),
{
    reveal(fields_part5);
    let ghost o = out@;
    push_named_list(out, "Components:\n", entries_get(f, "components"));
    push_named_list(out, "Fix Versions:\n", entries_get(f, "fixVersions"));
    push_named_list(out, "Affected Versions:\n", entries_get(f, "versions"));
    push_line_some(out, "Security Level: ", opt_as_str(opt_json_get(entries_get(f, "security"), "name")));
    assert(out@ =~= o + fields_part5(f@));
}

fn push_fields_part6(out: &mut String, f: &Vec<(String, Json)>)
    ensures
        final(out)@ == old(out)@ + fields_part6(f@),
{
    reveal(fields_part6);
    let ghost o = out@;
    push_subtasks(out, f);
    push_links(out, f);
    push_count(out, "Watchers: ", "\n", opt_as_i64(opt_json_get(entries_get(f, "watches"), "watchCount")), false);
    push_count(out, "Votes: ", "\n", opt_as_i64(opt_json_get(entries_get(f, "votes"), "votes")), false);
    assert(out@ =~= o + fields_part6(f@));
}

fn push_fields_part7(out: &mut String, f: &Vec<(String, Json)>)
    ensures
        final(out)@ == old(out)@ + fields_part7(f@),
{
    reveal(fields_part7);
    let ghost o = out@;
    push_attachments(out, f);
    push_count(out, "Comments: ", " total\n", opt_as_i64(opt_json_get(entries_get(f, "comment"), "total")), true);
    push_count(out, "Worklogs: ", " entries\n", opt_as_i64(opt_json_get(entries_get(f, "worklog"), "total")), true);
    assert(out@ =~= o + fields_part7(f@));
}

fn push_fields(out: &mut String, f: &Vec<(String, Json)>)
    ensures
        final(out)@ == old(out)@ + fields_text(f@),
{
    reveal(fields_text);
    let ghost o = out@;
    push_fields_part1(out, f);
    push_fields_part2(out, f);
    push_fields_part3(out, f);
    push_fields_part4(out, f);
    push_fields_part5(out, f);
    push_fields_part6(out, f);
    push_fields_part7(out, f);
    assert(out@ =~= o + fields_text(f@));
}

/// One available transition: its name and identifier, when it has both.
pub open spec fn transition_item(t: TransitionBean) -> Seq<char> {
    match (t.name, t.id) {
        (Some(n), Some(i)) => "- "@ + n@ + " (ID: "@ + i@ + ")\n"@,
        _ => Seq::<char>::empty(),
    }
}

/// The available transition items.
pub open spec fn transition_items(ts: Seq<TransitionBean>) -> Seq<char>
    decreases ts.len(),
{
    if ts.len() == 0 {
        Seq::<char>::empty()
    } else {
        transition_items(ts.drop_last()) + transition_item(ts.last())
    }
}

/// The available transitions section.
#[verifier::opaque]
pub open spec fn sec_transitions(ts: Option<Vec<TransitionBean>>) -> Seq<char> {
    match ts {
        Some(v) => if v@.len() > 0 {
            "\nAvailable Transitions:\n"@ + transition_items(v@)
        } else {
            Seq::<char>::empty()
        },
        None => Seq::<char>::empty(),
    }
}

fn push_transitions(out: &mut String, ts: &Option<Vec<TransitionBean>>)
    ensures
        final(out)@ == old(out)@ + sec_transitions(*ts),
{
    reveal(sec_transitions);
    if let Some(v) = ts {
        let n = v.len();
        if n > 0 {
            out.append("\nAvailable Transitions:\n");
            let ghost start = out@;
            let mut i: usize = 0;
            assert(v@.take(0) =~= Seq::<TransitionBean>::empty());
            while i < n
                invariant
                    n == v@.len(),
                    i <= n,
                    out@ == start + transition_items(v@.take(i as int)),
                decreases n - i,
            {
                assert(v@.take(i + 1).drop_last() =~= v@.take(i as int));
                assert(v@.take(i + 1).last() == v@[i as int]);
                let t = &v[i];
                if let (Some(name), Some(id)) = (&t.name, &t.id) {
                    out.append("- ");
                    out.append(name.as_str());
                    out.append(" (ID: ");
                    out.append(id.as_str());
                    out.append(")\n");
                }
                i = i + 1;
            }
            assert(v@.take(n as int) =~= v@);
        }
    }
}

/// The story point estimate after the changes `items`, starting from `cur`:
/// each non-empty new value of the field "Story point estimate" replaces it.
pub open spec fn story_point_items(cur: Seq<char>, items: Seq<ChangeItemBean>) -> Seq<char>
    decreases items.len(),
{
    if items.len() == 0 {
        cur
    } else {
        let c = story_point_items(cur, items.drop_last());
        let it = items.last();
        if opt_view(it.field) == Some("Story point estimate"@) {
            match it.to_string {
                Some(v) => if v@.len() > 0 {
                    v@
                } else {
                    c
                },
                None => c,
            }
        } else {
            c
        }
    }
}

/// The changed items of a history entry.
pub open spec fn history_items(h: ChangeHistoryBean) -> Seq<ChangeItemBean> {
    match h.items {
        Some(v) => v@,
        None => Seq::<ChangeItemBean>::empty(),
    }
}

/// The last story point estimate set in the history `hs`, or empty.
pub open spec fn story_point(hs: Seq<ChangeHistoryBean>) -> Seq<char>
    decreases hs.len(),
{
    if hs.len() == 0 {
        Seq::<char>::empty()
    } else {
        story_point_items(story_point(hs.drop_last()), history_items(hs.last()))
    }
}

/// The story point estimate line.
#[verifier::opaque]
pub open spec fn sec_story_point(cl: Option<ChangelogBean>) -> Seq<char> {
    match cl {
        Some(c) => match c.histories {
            Some(h) => {
                let v = story_point(h@);
                if v.len() > 0 {
                    "Story Point Estimate: "@ + v + "\n"@
                } else {
                    Seq::<char>::empty()
                }
            },
            None => Seq::<char>::empty(),
        },
        None => Seq::<char>::empty(),
    }
}

fn last_story_point(hs: &Vec<ChangeHistoryBean>) -> (r: String)
    ensures
        r@ == story_point(hs@),
{
    let mut sp = String::new();
    let n = hs.len();
    let mut i: usize = 0;
    assert(hs@.take(0) =~= Seq::<ChangeHistoryBean>::empty());
    while i < n
        invariant
            n == hs@.len(),
            i <= n,
            sp@ == story_point(hs@.take(i as int)),
        decreases n - i,
    {
        assert(hs@.take(i + 1).drop_last() =~= hs@.take(i as int));
        assert(hs@.take(i + 1).last() == hs@[i as int]);
        let ghost before = sp@;
        if let Some(items) = &hs[i].items {
            let m = items.len();
            let mut j: usize = 0;
            assert(items@.take(0) =~= Seq::<ChangeItemBean>::empty());
            while j < m
                invariant
                    m == items@.len(),
                    j <= m,
                    sp@ == story_point_items(before, items@.take(j as int)),
                decreases m - j,
            {
                assert(items@.take(j + 1).drop_last() =~= items@.take(j as int));
                assert(items@.take(j + 1).last() == items@[j as int]);
                let it = &items[j];
                if let Some(field) = &it.field {
                    if str_eq(field.as_str(), "Story point estimate") {
                        if let Some(v) = &it.to_string {
                            if !v.as_str().is_empty() {
                                sp = v.clone();
                            }
                        }
                    }
                }
                j = j + 1;
            }
            assert(items@.take(m as int) =~= items@);
        } else {
            assert(history_items(hs@[i as int]) =~= Seq::<ChangeItemBean>::empty());
        }
        i = i + 1;
    }
    assert(hs@.take(n as int) =~= hs@);
    sp
}

/// Whether a changed item sets the story point estimate to a non-empty value.
pub open spec fn sets_story_point(it: ChangeItemBean) -> bool {
    opt_view(it.field) == Some("Story point estimate"@) && match it.to_string {
        Some(v) => v@.len() > 0,
        None => false,
    }
}

/// The changed items of all history entries, in order.
pub open spec fn changelog_items(hs: Seq<ChangeHistoryBean>) -> Seq<ChangeItemBean>
    decreases hs.len(),
{
    if hs.len() == 0 {
        Seq::<ChangeItemBean>::empty()
    } else {
        changelog_items(hs.drop_last()) + history_items(hs.last())
    }
}

proof fn lemma_story_point_items_append(cur: Seq<char>, a: Seq<ChangeItemBean>, b: Seq<ChangeItemBean>)
    ensures
        story_point_items(cur, a + b) == story_point_items(story_point_items(cur, a), b),
    decreases b.len(),
{
    if b.len() == 0 {
        assert(a + b =~= a);
    } else {
        lemma_story_point_items_append(cur, a, b.drop_last());
        assert((a + b).drop_last() =~= a + b.drop_last());
        assert((a + b).last() == b.last());
    }
}

proof fn lemma_story_point_flat(hs: Seq<ChangeHistoryBean>)
    ensures
        story_point(hs) == story_point_items(Seq::<char>::empty(), changelog_items(hs)),
    decreases hs.len(),
{
    if hs.len() > 0 {
        lemma_story_point_flat(hs.drop_last());
        lemma_story_point_items_append(
            Seq::<char>::empty(),
            changelog_items(hs.drop_last()),
            history_items(hs.last()),
        );
    }
}

proof fn lemma_story_point_items_last(cur: Seq<char>, items: Seq<ChangeItemBean>)
    ensures
        (forall|k: int| 0 <= k < items.len() ==> !sets_story_point(#[trigger] items[k]))
            ==> story_point_items(cur, items) == cur,
        forall|k: int|
            0 <= k < items.len() && sets_story_point(#[trigger] items[k]) && (forall|j: int|
                k < j < items.len() ==> !sets_story_point(#[trigger] items[j]))
                ==> story_point_items(cur, items) == items[k].to_string->0@,
    decreases items.len(),
{
    if items.len() > 0 {
        let p = items.drop_last();
        lemma_story_point_items_last(cur, p);
        assert forall|k: int|
            0 <= k < items.len() && sets_story_point(#[trigger] items[k]) && (forall|j: int|
                k < j < items.len() ==> !sets_story_point(#[trigger] items[j]))
                implies story_point_items(cur, items) == items[k].to_string->0@ by {
            if k < items.len() - 1 {
                assert(!sets_story_point(items[items.len() - 1]));
                assert(p[k] == items[k]);
                assert forall|j: int| k < j < p.len() implies !sets_story_point(#[trigger] p[j]) by {
                    assert(p[j] == items[j]);
                }
            }
        }
        if forall|k: int| 0 <= k < items.len() ==> !sets_story_point(#[trigger] items[k]) {
            assert forall|k: int| 0 <= k < p.len() implies !sets_story_point(#[trigger] p[k]) by {
                assert(p[k] == items[k]);
            }
            assert(!sets_story_point(items[items.len() - 1]));
        }
    }
}

/// The story point estimate shown for an issue is the last non-empty value
/// that its changelog sets for it, across all history entries; with none,
/// no estimate is shown.
pub proof fn law_story_point_last_value_wins(hs: Seq<ChangeHistoryBean>)
    ensures
        (forall|k: int|
            0 <= k < changelog_items(hs).len() ==> !sets_story_point(#[trigger] changelog_items(hs)[k]))
            ==> story_point(hs).len() == 0,
        forall|k: int|
            0 <= k < changelog_items(hs).len() && sets_story_point(#[trigger] changelog_items(hs)[k])
                && (forall|j: int|
                k < j < changelog_items(hs).len() ==> !sets_story_point(
                    #[trigger] changelog_items(hs)[j],
                )) ==> story_point(hs) == changelog_items(hs)[k].to_string->0@,
{
    lemma_story_point_flat(hs);
    lemma_story_point_items_last(Seq::<char>::empty(), changelog_items(hs));
}

/// The text of an issue, as the issue tools show it.
pub open spec fn issue_text(issue: IssueBean) -> Seq<char> {
    line_some("Key: "@, opt_view(issue.key)) + line_some("ID: "@, opt_view(issue.id)) + line_some(
        "URL: "@,
        opt_view(issue.self_),
    ) + match issue.fields {
        Some(f) => fields_text(f@),
        None => Seq::<char>::empty(),
    } + sec_transitions(issue.transitions) + sec_story_point(issue.changelog)
}

/// Formats an issue: its identity, the fields it has, its available
/// transitions and its story point estimate.
pub fn format_issue(issue: &IssueBean) -> (r: String)
    ensures
        r@ == issue_text(*issue),
{
    reveal(sec_story_point);
    let mut out = String::new();
    push_line_some(&mut out, "Key: ", opt_ref(&issue.key));
    push_line_some(&mut out, "ID: ", opt_ref(&issue.id));
    push_line_some(&mut out, "URL: ", opt_ref(&issue.self_));
    let ghost a = out@;
    if let Some(f) = &issue.fields {
        push_fields(&mut out, f);
    }
    let ghost b = out@;
    push_transitions(&mut out, &issue.transitions);
    let ghost c = out@;
    if let Some(cl) = &issue.changelog {
        if let Some(h) = &cl.histories {
            let sp = last_story_point(h);
            if !sp.as_str().is_empty() {
                out.append("Story Point Estimate: ");
                out.append(sp.as_str());
                out.append("\n");
            }
        }
    }
    assert(out@ =~= issue_text(*issue));
    out
}


/// The key of the issue on side `side` of a link.
pub open spec fn linked_key(link: Json, side: Seq<char>) -> Option<Seq<char>> {
    as_str(opt_get(get(link, side), "key"@))
}

/// The name that a link's type gives direction `dir`.
pub open spec fn relation_name(link: Json, dir: Seq<char>) -> Option<Seq<char>> {
    as_str(opt_get(get(link, "type"@), dir))
}

/// Each side of an issue link that names an issue gives one line, which
/// starts with `"- "`, the name the link type gives that direction (or the
/// direction itself when it gives none), a space and the linked key; the
/// outward line comes first, then the inward one; a side without a key gives
/// nothing. In particular an inward issue is labelled with the type's inward
/// name and an outward one with its outward name.
pub proof fn law_link_lines(link: Json, side: Seq<char>, dir: Seq<char>)
    ensures
        linked_key(link, side) is None ==> link_side(link, side, dir).len() == 0,
        linked_key(link, side) is Some ==> link_side(link, side, dir).take(
            3 + str_or(relation_name(link, dir), dir).len() as int + linked_key(link, side)->0.len() as int,
        ) == "- "@ + str_or(relation_name(link, dir), dir) + " "@ + linked_key(link, side)->0,
        linked_key(link, side) is Some ==> link_side(link, side, dir).last() == '\n',
        link_item(link) == link_side(link, "outwardIssue"@, "outward"@) + link_side(
            link,
            "inwardIssue"@,
            "inward"@,
        ),
{
    if linked_key(link, side) is Some {
        let label = str_or(relation_name(link, dir), dir);
        let k = linked_key(link, side)->0;
        let head = "- "@ + label + " "@ + k;
        let t = tail_nonempty(": "@, as_str(opt_get(opt_get(get(link, side), "fields"@), "summary"@)));
        reveal_strlit("- ");
        reveal_strlit(" ");
        reveal_strlit("\n");
        assert(link_side(link, side, dir) == head + t + "\n"@);
        assert((head + t + "\n"@).take(head.len() as int) =~= head);
    }
}

/// A list of one link gives the section title and that link's lines.
pub proof fn law_single_link_section(f: Seq<(String, Json)>, link: Json)
    requires
        as_array(entry_lookup(f, "issuelinks"@)) == Some(seq![link]),
    ensures
        sec_links(f) == "Issue Links:\n"@ + link_item(link),
{
    reveal(sec_links);
    let a = seq![link];
    assert(a.drop_last() =~= Seq::<Json>::empty());
    assert(a.last() == link);
    assert(link_items(a.drop_last()) == Seq::<char>::empty());
    assert(link_items(a) =~= link_item(link));
    assert(a.len() > 0);
}

} // verus!
