use vstd::prelude::*;

use crate::issue_tool::{or_empty, UserBean};
use crate::json::{json_str, jv, jv_members, push_member, Json, JsonV};

verus! {

/// The plain answer of the current-user tool.
pub open spec fn current_user_text(user: UserBean) -> Seq<char> {
    "Your name on Jira is "@ + or_empty(user.display_name)
}

/// Formats the plain answer of the current-user tool.
pub fn format_current_user(user: &UserBean) -> (r: String)
    ensures
        r@ == current_user_text(*user),
{
    let mut out = "Your name on Jira is ".to_owned();
    if let Some(d) = &user.display_name {
        out.append(d.as_str());
    }
    out
}

/// The structured answer of the current-user tool: display name, e-mail
/// address and user name, empty when missing.
pub open spec fn current_user_object(user: UserBean) -> JsonV {
    JsonV::Object(
        seq![
            ("display_name"@, JsonV::Str(or_empty(user.display_name))),
            ("email"@, JsonV::Str(or_empty(user.email_address))),
            ("name"@, JsonV::Str(or_empty(user.name))),
        ],
    )
}

fn text_or_empty(v: &Option<String>) -> (r: Json)
    ensures
        jv(r) == JsonV::Str(or_empty(*v)),
{
    match v {
        Some(s) => json_str(s.as_str()),
        None => Json::Str(String::new()),
    }
}

/// Builds the structured answer of the current-user tool.
pub fn current_user_json(user: &UserBean) -> (r: Json)
    ensures
        jv(r) == current_user_object(*user),
{
    let mut es: Vec<(String, Json)> = Vec::new();
    assert(jv_members(es@) =~= Seq::<(Seq<char>, JsonV)>::empty());
    push_member(&mut es, "display_name", text_or_empty(&user.display_name));
    push_member(&mut es, "email", text_or_empty(&user.email_address));
    push_member(&mut es, "name", text_or_empty(&user.name));
    let r = Json::Object(es);
    assert(jv_members(es@) =~= seq![
        ("display_name"@, JsonV::Str(or_empty(user.display_name))),
        ("email"@, JsonV::Str(or_empty(user.email_address))),
        ("name"@, JsonV::Str(or_empty(user.name))),
    ]);
    r
}

} // verus!
