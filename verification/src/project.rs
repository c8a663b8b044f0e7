use vstd::prelude::*;

use crate::text::{line_nonempty, line_some, opt_ref, opt_view, push_line_nonempty, push_line_some};

verus! {

/// A Jira project, as far as the project tool reads it.
pub struct ProjectBean {
    pub key: Option<String>,
    pub id: Option<String>,
    pub name: Option<String>,
    pub description: Option<String>,
    pub archived: Option<bool>,
}

/// A Jira project type.
pub struct ProjectTypeBean {
    pub key: Option<String>,
    pub formatted_key: Option<String>,
    pub color: Option<String>,
}

/// The text of a project: key, identifier, name, a non-empty description and
/// whether it is archived.
pub open spec fn project_text(p: ProjectBean) -> Seq<char> {
    line_some("Key: "@, opt_view(p.key)) + line_some("ID: "@, opt_view(p.id)) + line_some(
        "Name: "@,
        opt_view(p.name),
    ) + line_nonempty("Description: "@, opt_view(p.description)) + if p.archived == Some(true) {
        "Archived: true\n"@
    } else {
        Seq::<char>::empty()
    }
}

/// Formats a project.
pub fn format_project(project: &ProjectBean) -> (r: String)
    ensures
        r@ == project_text(*project),
{
    let mut out = String::new();
    push_line_some(&mut out, "Key: ", opt_ref(&project.key));
    push_line_some(&mut out, "ID: ", opt_ref(&project.id));
    push_line_some(&mut out, "Name: ", opt_ref(&project.name));
    push_line_nonempty(&mut out, "Description: ", opt_ref(&project.description));
    if project.archived == Some(true) {
        out.append("Archived: true\n");
    }
    assert(out@ =~= project_text(*project));
    out
}

/// The text of a project type: key, formatted key and a non-empty colour.
pub open spec fn project_type_text(t: ProjectTypeBean) -> Seq<char> {
    line_some("Key: "@, opt_view(t.key)) + line_some("Formatted Key: "@, opt_view(t.formatted_key))
        + line_nonempty("Color: "@, opt_view(t.color))
}

/// Formats a project type.
pub fn format_project_type(project_type: &ProjectTypeBean) -> (r: String)
    ensures
        r@ == project_type_text(*project_type),
{
    let mut out = String::new();
    push_line_some(&mut out, "Key: ", opt_ref(&project_type.key));
    push_line_some(&mut out, "Formatted Key: ", opt_ref(&project_type.formatted_key));
    push_line_nonempty(&mut out, "Color: ", opt_ref(&project_type.color));
    assert(out@ =~= project_type_text(*project_type));
    out
}

} // verus!
