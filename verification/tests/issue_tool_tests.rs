use jira_mcp_server::issue::{IssueBean, StatusBean, TransitionBean};
use jira_mcp_server::issue_tool::{
    create_issue_fields, find_transition, format_added_comment, format_comment,
    format_comments_section, format_created_issue, format_issue_report, format_transitions,
    format_update_message, plan_issue_query, update_issue_fields, CommentJsonBean, CommentsBean,
    CreateIssueParams, IssueQuery, UpdateAction, UpdateIssueParams, UpdateReply, UserBean,
    update_step,
};
use jira_mcp_server::json::Json;

fn s(x: &str) -> Json {
    Json::Str(x.to_string())
}

fn obj(members: Vec<(&str, Json)>) -> Json {
    Json::Object(members.into_iter().map(|(k, v)| (k.to_string(), v)).collect())
}

fn members(ms: Vec<(&str, Json)>) -> Vec<(String, Json)> {
    ms.into_iter().map(|(k, v)| (k.to_string(), v)).collect()
}

fn some(x: &str) -> Option<String> {
    Some(x.to_string())
}

fn comment(author: Option<Option<&str>>, created: Option<&str>, updated: Option<&str>, body: Option<&str>) -> CommentJsonBean {
    CommentJsonBean {
        id: None,
        self_: None,
        author: author.map(|d| UserBean { name: None, display_name: d.map(|x| x.to_string()), email_address: None }),
        created: created.map(|x| x.to_string()),
        updated: updated.map(|x| x.to_string()),
        body: body.map(|x| x.to_string()),
    }
}

fn transition(id: Option<&str>, name: Option<&str>, to: Option<&str>) -> TransitionBean {
    TransitionBean {
        id: id.map(|x| x.to_string()),
        name: name.map(|x| x.to_string()),
        to: to.map(|t| StatusBean { name: Some(t.to_string()) }),
    }
}

#[test]
fn comment_shows_author_dates_and_body() {
    let c = comment(Some(Some("Ann")), Some("c1"), Some("u1"), Some("Hello"));
    assert_eq!(format_comment(&c), "Author: Ann\nCreated: c1\nUpdated: u1\nBody:\nHello\n");
}

#[test]
fn comment_hides_unchanged_update_and_empty_body() {
    let c = comment(Some(None), Some("c1"), Some("c1"), Some(""));
    assert_eq!(format_comment(&c), "Author: Unknown\nCreated: c1\n");
    let d = comment(None, None, Some("u2"), None);
    assert_eq!(format_comment(&d), "Updated: u2\n");
    let e = comment(None, None, Some(""), None);
    assert_eq!(format_comment(&e), "");
}

#[test]
fn issue_query_defaults() {
    assert_eq!(
        plan_issue_query(None, None),
        IssueQuery {
            expand: "transitions,changelog,subtasks,description,comment".to_string(),
            comment_limit: 10,
            max_results: some("10"),
        }
    );
}

#[test]
fn comment_limit_zero_fetches_all() {
    let q = plan_issue_query(some("changelog"), Some(0));
    assert_eq!(q.expand, "changelog");
    assert_eq!(q.comment_limit, 0);
    assert_eq!(q.max_results, None);
    assert_eq!(plan_issue_query(None, Some(25)).max_results, some("25"));
}

#[test]
fn comments_section_headers() {
    let cs = vec![
        comment(Some(Some("A")), Some("t1"), None, Some("one")),
        comment(Some(Some("B")), Some("t2"), None, Some("two")),
    ];
    let page = CommentsBean { total: Some(5), comments: Some(cs) };
    let items = "Author: A\nCreated: t1\nBody:\none\n---\nAuthor: B\nCreated: t2\nBody:\ntwo\n---\n";
    assert_eq!(
        format_comments_section(2, &page),
        format!("\n--- Comments (showing 2 of 5) ---\n{}", items)
    );
    assert_eq!(format_comments_section(0, &page), format!("\n--- Comments (2) ---\n{}", items));
    assert_eq!(format_comments_section(5, &page), format!("\n--- Comments (2) ---\n{}", items));
}

#[test]
fn comments_section_is_empty_without_comments() {
    assert_eq!(format_comments_section(10, &CommentsBean { total: Some(3), comments: Some(vec![]) }), "");
    assert_eq!(format_comments_section(10, &CommentsBean { total: None, comments: None }), "");
}

#[test]
fn issue_report_appends_comments_when_read() {
    let issue = IssueBean {
        key: some("P-1"),
        id: None,
        self_: None,
        fields: None,
        transitions: None,
        changelog: None,
    };
    let page = CommentsBean { total: None, comments: Some(vec![comment(None, None, None, Some("hi"))]) };
    assert_eq!(
        format_issue_report(&issue, 10, &Some(page)),
        "Key: P-1\n\n--- Comments (1) ---\nBody:\nhi\n---\n"
    );
    assert_eq!(format_issue_report(&issue, 10, &None), "Key: P-1\n");
}

fn create_params() -> CreateIssueParams {
    CreateIssueParams {
        project_key: "P".to_string(),
        summary: "S".to_string(),
        issue_type: "Bug".to_string(),
        description: None,
        assignee: None,
        priority: None,
        components: None,
        labels: None,
        parent_key: None,
    }
}

#[test]
fn create_fields_minimal() {
    assert_eq!(
        create_issue_fields(&create_params()),
        members(vec![
            ("project", obj(vec![("key", s("P"))])),
            ("summary", s("S")),
            ("issuetype", obj(vec![("name", s("Bug"))])),
        ])
    );
}

#[test]
fn create_fields_full() {
    let p = CreateIssueParams {
        description: some("D"),
        assignee: some("bob"),
        priority: some("High"),
        components: some(" api , ,ui "),
        labels: some(" , "),
        parent_key: some("P-1"),
        ..create_params()
    };
    assert_eq!(
        create_issue_fields(&p),
        members(vec![
            ("project", obj(vec![("key", s("P"))])),
            ("summary", s("S")),
            ("issuetype", obj(vec![("name", s("Bug"))])),
            ("description", s("D")),
            ("assignee", obj(vec![("name", s("bob"))])),
            ("priority", obj(vec![("name", s("High"))])),
            ("components", Json::Array(vec![obj(vec![("name", s("api"))]), obj(vec![("name", s("ui"))])])),
            ("parent", obj(vec![("key", s("P-1"))])),
        ])
    );
}

fn update_params() -> UpdateIssueParams {
    UpdateIssueParams {
        issue_id_or_key: "P-1".to_string(),
        summary: None,
        description: None,
        assignee: None,
        priority: None,
        components: None,
        labels: None,
        status: None,
    }
}

#[test]
fn update_fields_nothing_given() {
    assert_eq!(update_issue_fields(&update_params()), members(vec![]));
}

#[test]
fn update_fields_empty_assignee_unassigns() {
    let p = UpdateIssueParams {
        summary: some("New"),
        assignee: some(""),
        components: some(""),
        labels: some("x, y,"),
        status: some("Done"),
        ..update_params()
    };
    assert_eq!(
        update_issue_fields(&p),
        members(vec![
            ("summary", s("New")),
            ("assignee", Json::Null),
            ("components", Json::Array(vec![])),
            ("labels", Json::Array(vec![s("x"), s("y")])),
        ])
    );
    let q = UpdateIssueParams { assignee: some("amy"), description: some(""), priority: some("Low"), ..update_params() };
    assert_eq!(
        update_issue_fields(&q),
        members(vec![
            ("description", s("")),
            ("assignee", obj(vec![("name", s("amy"))])),
            ("priority", obj(vec![("name", s("Low"))])),
        ])
    );
}

#[test]
fn find_transition_ignores_case() {
    let ts = vec![
        transition(Some("1"), Some("To Do"), None),
        transition(Some("2"), Some("In Progress"), None),
        transition(None, Some("Done"), None),
        transition(Some("4"), None, None),
        transition(Some("5"), Some("in progress"), None),
    ];
    assert_eq!(find_transition(&ts, "in PROGRESS"), Ok("2".to_string()));
    assert_eq!(find_transition(&ts, "DONE"), Ok(String::new()));
}

#[test]
fn find_transition_unknown_status() {
    let ts = vec![
        transition(Some("1"), Some("To Do"), None),
        transition(Some("4"), None, None),
        transition(Some("3"), Some("Done"), None),
    ];
    assert_eq!(
        find_transition(&ts, "Closed"),
        Err("Unknown status 'Closed'. Available transitions: To Do, Done".to_string())
    );
    assert_eq!(
        find_transition(&vec![], "Closed"),
        Err("Unknown status 'Closed'. Available transitions: ".to_string())
    );
}

#[test]
fn update_messages() {
    assert_eq!(
        format_update_message("P-1", Some("Done"), true),
        "Issue P-1. Status transitioned to 'Done'. Fields updated successfully."
    );
    assert_eq!(format_update_message("P-1", None, true), "Issue P-1. Fields updated successfully.");
    assert_eq!(format_update_message("P-1", Some("Done"), false), "Issue P-1. Status transitioned to 'Done'.");
    assert_eq!(format_update_message("P-1", None, false), "No fields provided to update.");
}

#[test]
fn confirmations() {
    assert_eq!(
        format_created_issue(&some("P-9"), &some("10009"), &None),
        "Issue created successfully.\nKey: P-9\nID: 10009\nURL: "
    );
    let c = CommentJsonBean {
        id: some("77"),
        self_: some("https://j/c/77"),
        created: some("2024-05-01"),
        ..comment(None, None, None, Some("ignored"))
    };
    assert_eq!(
        format_added_comment(&c),
        "Comment added successfully.\nID: 77\nCreated: 2024-05-01\nURL: https://j/c/77"
    );
}

#[test]
fn transitions_listing() {
    let ts = vec![
        transition(Some("11"), Some("Start"), Some("In Progress")),
        transition(None, None, None),
    ];
    assert_eq!(
        format_transitions("P-1", &ts),
        "Available transitions for P-1:\n- Start (ID: 11) → In Progress\n- ? (ID: ?) → ?\n"
    );
    assert_eq!(format_transitions("P-1", &vec![]), "No transitions available for P-1.");
}

#[test]
fn comment_limit_beyond_i32_wraps_when_compared() {
    let page = CommentsBean { total: Some(5), comments: Some(vec![comment(None, None, None, Some("a"))]) };
    assert_eq!(
        format_comments_section(3_000_000_000, &page),
        "\n--- Comments (showing 1 of 5) ---\nBody:\na\n---\n"
    );
    assert_eq!(
        format_comments_section(2_147_483_647, &page),
        "\n--- Comments (1) ---\nBody:\na\n---\n"
    );
}

#[test]
fn update_step_transitions_first_then_edits() {
    let p = UpdateIssueParams { summary: some("New"), status: some("done"), ..update_params() };
    assert_eq!(update_step(&p, UpdateReply::Start), UpdateAction::ReadTransitions);
    let ts = vec![transition(Some("1"), Some("To Do"), None), transition(Some("3"), Some("Done"), None)];
    assert_eq!(update_step(&p, UpdateReply::Transitions(Ok(ts))), UpdateAction::Transition("3".to_string()));
    assert_eq!(
        update_step(&p, UpdateReply::Transitioned(Ok(()))),
        UpdateAction::EditFields(members(vec![("summary", s("New"))]))
    );
    assert_eq!(
        update_step(&p, UpdateReply::Edited(Ok(()))),
        UpdateAction::Answer("Issue P-1. Status transitioned to 'done'. Fields updated successfully.".to_string())
    );
}

#[test]
fn update_step_stops_on_unknown_status_or_failure() {
    let p = UpdateIssueParams { summary: some("New"), status: some("Closed"), ..update_params() };
    let ts = vec![transition(Some("1"), Some("To Do"), None)];
    assert_eq!(
        update_step(&p, UpdateReply::Transitions(Ok(ts))),
        UpdateAction::Answer("Unknown status 'Closed'. Available transitions: To Do".to_string())
    );
    assert_eq!(
        update_step(&p, UpdateReply::Transitions(Err("500 boom".to_string()))),
        UpdateAction::Answer("Error: 500 boom".to_string())
    );
    assert_eq!(
        update_step(&p, UpdateReply::Transitioned(Err("409 conflict".to_string()))),
        UpdateAction::Answer("Error: 409 conflict".to_string())
    );
    assert_eq!(
        update_step(&p, UpdateReply::Edited(Err("400 bad".to_string()))),
        UpdateAction::Answer("Error: 400 bad".to_string())
    );
}

#[test]
fn update_step_without_status_or_fields() {
    let only_fields = UpdateIssueParams { labels: some("a"), ..update_params() };
    assert_eq!(
        update_step(&only_fields, UpdateReply::Start),
        UpdateAction::EditFields(members(vec![("labels", Json::Array(vec![s("a")]))]))
    );
    assert_eq!(
        update_step(&update_params(), UpdateReply::Start),
        UpdateAction::Answer("No fields provided to update.".to_string())
    );
    let only_status = UpdateIssueParams { status: some("Done"), ..update_params() };
    assert_eq!(
        update_step(&only_status, UpdateReply::Transitioned(Ok(()))),
        UpdateAction::Answer("Issue P-1. Status transitioned to 'Done'.".to_string())
    );
}
