use jira_mcp_server::issue::IssueBean;
use jira_mcp_server::issue_tool::UserBean;
use jira_mcp_server::json::{json_get_i64, json_get_str, json_get_truncated, json_is_null, Json, JsonNumber};
use jira_mcp_server::project::{format_project, format_project_type, ProjectBean, ProjectTypeBean};
use jira_mcp_server::search::{build_search_request, format_search_results, SearchRequest};
use jira_mcp_server::server::{Jira, ServerBuilder, Transport};
use jira_mcp_server::user::{current_user_json, format_current_user};

fn some(x: &str) -> Option<String> {
    Some(x.to_string())
}

fn strings(xs: &[&str]) -> Vec<String> {
    xs.iter().map(|x| x.to_string()).collect()
}

#[test]
fn project_text() {
    let p = ProjectBean { key: some("P"), id: some("1"), name: some("Proj"), description: some(""), archived: Some(true) };
    assert_eq!(format_project(&p), "Key: P\nID: 1\nName: Proj\nArchived: true\n");
    let q = ProjectBean { key: None, id: None, name: None, description: some("About"), archived: Some(false) };
    assert_eq!(format_project(&q), "Description: About\n");
}

#[test]
fn project_type_text() {
    let t = ProjectTypeBean { key: some("software"), formatted_key: some("Software"), color: some("") };
    assert_eq!(format_project_type(&t), "Key: software\nFormatted Key: Software\n");
    let u = ProjectTypeBean { key: None, formatted_key: None, color: some("#fff") };
    assert_eq!(format_project_type(&u), "Color: #fff\n");
}

#[test]
fn search_request_defaults_expand() {
    assert_eq!(
        build_search_request("project = P".to_string(), None, None),
        SearchRequest {
            jql: "project = P".to_string(),
            fields: None,
            expand: strings(&["transitions", "changelog", "subtasks", "description"]),
        }
    );
}

#[test]
fn search_request_splits_lists_and_keeps_blank_items() {
    let r = build_search_request("x".to_string(), some("summary, status"), some(" a ,,b"));
    assert_eq!(r.fields, Some(strings(&["summary", "status"])));
    assert_eq!(r.expand, strings(&["a", "", "b"]));
}

fn keyed_issue(key: &str) -> IssueBean {
    IssueBean { key: some(key), id: None, self_: None, fields: None, transitions: None, changelog: None }
}

#[test]
fn search_results_text() {
    assert_eq!(format_search_results(&vec![]), "No issues found.");
    assert_eq!(format_search_results(&vec![keyed_issue("P-1")]), "Key: P-1\n");
    assert_eq!(
        format_search_results(&vec![keyed_issue("P-1"), keyed_issue("P-2")]),
        "Key: P-1\n\n---\n\nKey: P-2\n"
    );
}

#[test]
fn current_user_text() {
    let u = UserBean { name: some("ann"), display_name: some("Ann Lee"), email_address: None };
    assert_eq!(format_current_user(&u), "Your name on Jira is Ann Lee");
    let nobody = UserBean { name: None, display_name: None, email_address: None };
    assert_eq!(format_current_user(&nobody), "Your name on Jira is ");
}

#[test]
fn current_user_structured() {
    let u = UserBean { name: some("ann"), display_name: some("Ann Lee"), email_address: None };
    assert_eq!(
        current_user_json(&u),
        Json::Object(vec![
            ("display_name".to_string(), Json::Str("Ann Lee".to_string())),
            ("email".to_string(), Json::Str(String::new())),
            ("name".to_string(), Json::Str("ann".to_string())),
        ])
    );
}

#[test]
fn server_builder_keeps_connection_settings() {
    let b = ServerBuilder::stdio_server();
    assert_eq!(b.transport, Transport::Stdio);
    let server = b.build("https://jira.example.com/rest".to_string(), "tok".to_string());
    assert_eq!(server.transport, Transport::Stdio);
    assert_eq!(server.handler.base_url(), "https://jira.example.com/rest");
    assert_eq!(server.handler.token(), "tok");
}

#[test]
fn client_error_response_is_prefixed() {
    let j = Jira::new("u".to_string(), "t".to_string());
    assert_eq!(j.jira_client_error_response("404 Not Found"), "Error: 404 Not Found");
}

#[test]
fn json_lookup_takes_the_first_member() {
    let v = Json::Object(vec![
        ("a".to_string(), Json::Str("one".to_string())),
        ("a".to_string(), Json::Str("two".to_string())),
        ("n".to_string(), Json::Number(JsonNumber { int: None, truncated: 2 })),
        ("z".to_string(), Json::Null),
    ]);
    assert_eq!(json_get_str(&v, "a").map(|x| x.as_str()), Some("one"));
    assert_eq!(json_get_str(&v, "n"), None);
    assert_eq!(json_get_i64(&v, "n"), None);
    assert_eq!(json_get_truncated(&v, "n"), Some(2));
    assert_eq!(json_get_str(&Json::Null, "a"), None);
    assert!(json_is_null(&Json::Null));
    assert!(!json_is_null(&v));
}
