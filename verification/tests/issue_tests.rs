use jira_mcp_server::issue::{
    format_issue, format_user, ChangeHistoryBean, ChangeItemBean, ChangelogBean, IssueBean,
    StatusBean, TransitionBean,
};
use jira_mcp_server::json::{Json, JsonNumber};

fn s(x: &str) -> Json {
    Json::Str(x.to_string())
}

fn num(n: i64) -> Json {
    Json::Number(JsonNumber { int: Some(n), truncated: n })
}

fn obj(members: Vec<(&str, Json)>) -> Json {
    Json::Object(members.into_iter().map(|(k, v)| (k.to_string(), v)).collect())
}

fn fields(members: Vec<(&str, Json)>) -> Option<Vec<(String, Json)>> {
    Some(members.into_iter().map(|(k, v)| (k.to_string(), v)).collect())
}

fn bare_issue() -> IssueBean {
    IssueBean { key: None, id: None, self_: None, fields: None, transitions: None, changelog: None }
}

fn change(field: &str, to: Option<&str>) -> ChangeItemBean {
    ChangeItemBean { field: Some(field.to_string()), to_string: to.map(|t| t.to_string()) }
}

#[test]
fn format_user_with_and_without_email() {
    let with = obj(vec![("displayName", s("Ann")), ("emailAddress", s("ann@x.io"))]);
    let without = obj(vec![("displayName", s("Ann")), ("emailAddress", s(""))]);
    assert_eq!(format_user(&with), "Ann (ann@x.io)");
    assert_eq!(format_user(&without), "Ann");
    assert_eq!(format_user(&Json::Null), "");
}

#[test]
fn issue_without_fields_shows_identity_only() {
    let issue = IssueBean {
        key: Some("P-1".to_string()),
        id: Some("1001".to_string()),
        self_: Some("https://j/rest/api/2/issue/1001".to_string()),
        ..bare_issue()
    };
    assert_eq!(
        format_issue(&issue),
        "Key: P-1\nID: 1001\nURL: https://j/rest/api/2/issue/1001\n"
    );
}

#[test]
fn empty_fields_show_defaults() {
    let issue = IssueBean { fields: fields(vec![]), ..bare_issue() };
    assert_eq!(
        format_issue(&issue),
        "Priority: None\nReporter: Unassigned\nAssignee: Unassigned\n"
    );
}

#[test]
fn full_issue_lists_every_section_in_order() {
    let f = fields(vec![
        ("summary", s("Fix bug")),
        ("description", s("  Some text  ")),
        ("issuetype", obj(vec![("name", s("Bug")), ("description", s(""))])),
        ("status", obj(vec![("name", s("Open")), ("description", s("Not started"))])),
        ("priority", Json::Null),
        ("resolution", obj(vec![("name", s("Fixed")), ("description", s("Done right"))])),
        ("resolutiondate", s("2024-02-01")),
        ("reporter", obj(vec![("displayName", s("Ann")), ("emailAddress", s("ann@x.io"))])),
        ("creator", obj(vec![("displayName", s("Ann"))])),
        ("created", s("2024-01-01")),
        ("updated", s("")),
        ("lastViewed", s("2024-01-03")),
        ("project", obj(vec![("name", s("Proj")), ("key", s("P"))])),
        ("parent", obj(vec![("key", s("P-1")), ("fields", obj(vec![("summary", s("Epic"))]))])),
        ("workratio", num(25)),
        ("labels", Json::Array(vec![s("a"), num(1), s("b")])),
        (
            "components",
            Json::Array(vec![
                obj(vec![("name", s("API")), ("description", s("rest"))]),
                obj(vec![("name", s("UI"))]),
                obj(vec![("id", s("9"))]),
            ]),
        ),
        ("fixVersions", Json::Array(vec![obj(vec![("name", s("1.0"))])])),
        ("versions", Json::Array(vec![obj(vec![("name", s("0.9")), ("description", s("old"))])])),
        ("security", obj(vec![("name", s("Internal"))])),
        (
            "subtasks",
            Json::Array(vec![obj(vec![
                ("key", s("P-3")),
                ("fields", obj(vec![("summary", s("sub")), ("status", obj(vec![("name", s("Done"))]))])),
            ])]),
        ),
        (
            "issuelinks",
            Json::Array(vec![
                obj(vec![
                    ("type", obj(vec![("outward", s("blocks")), ("inward", s("is blocked by"))])),
                    ("outwardIssue", obj(vec![("key", s("P-4")), ("fields", obj(vec![("summary", s("other"))]))])),
                ]),
                obj(vec![("inwardIssue", obj(vec![("key", s("P-5"))]))]),
            ]),
        ),
        ("watches", obj(vec![("watchCount", num(3))])),
        ("votes", obj(vec![("votes", num(0))])),
        (
            "attachment",
            Json::Array(vec![
                obj(vec![
                    ("filename", s("a.png")),
                    ("id", s("10")),
                    ("mimeType", s("image/png")),
                    ("size", num(2048)),
                ]),
                obj(vec![("title", s("T"))]),
                obj(vec![]),
            ]),
        ),
        ("comment", obj(vec![("total", num(2))])),
        ("worklog", obj(vec![("total", num(0))])),
    ]);
    let issue = IssueBean {
        key: Some("P-2".to_string()),
        id: Some("1002".to_string()),
        self_: None,
        fields: f,
        transitions: Some(vec![
            TransitionBean { id: Some("11".to_string()), name: Some("Start".to_string()), to: None },
            TransitionBean { id: None, name: Some("NoId".to_string()), to: None },
        ]),
        changelog: Some(ChangelogBean {
            histories: Some(vec![
                ChangeHistoryBean { items: Some(vec![change("Story point estimate", Some("3"))]) },
                ChangeHistoryBean {
                    items: Some(vec![
                        change("Story point estimate", Some("5")),
                        change("Story point estimate", Some("")),
                        change("status", Some("8")),
                    ]),
                },
                ChangeHistoryBean { items: None },
            ]),
        }),
    };
    let expected = "Key: P-2\n\
ID: 1002\n\
Summary: Fix bug\n\
Description:\nSome text\n\
Type: Bug\n\
Status: Open\n\
Status Description: Not started\n\
Priority: None\n\
Resolution: Fixed\n\
Resolution Description: Done right\n\
Resolution Date: 2024-02-01\n\
Reporter: Ann (ann@x.io)\n\
Assignee: Unassigned\n\
Creator: Ann\n\
Created: 2024-01-01\n\
Last Viewed: 2024-01-03\n\
Project: Proj (P)\n\
Parent: P-1 - Epic\n\
Work Ratio: 25\n\
Labels: a, b\n\
Components:\n- API (rest)\n- UI\n\
Fix Versions:\n- 1.0\n\
Affected Versions:\n- 0.9 (old)\n\
Security Level: Internal\n\
Subtasks:\n- P-3: sub [Done]\n\
Issue Links:\n- blocks P-4: other\n- inward P-5\n\
Watchers: 3\n\
Votes: 0\n\
Attachments:\n\
- a.png (ID: 10, Type: image/png, Size: 2048 bytes)\n\
- T (ID: , Type: , Size: 0 bytes)\n\
- unknown (ID: , Type: , Size: 0 bytes)\n\
Comments: 2 total\n\
\nAvailable Transitions:\n- Start (ID: 11)\n\
Story Point Estimate: 5\n";
    assert_eq!(format_issue(&issue), expected);
}

#[test]
fn adf_description_is_rendered() {
    let desc = obj(vec![
        ("type", s("doc")),
        (
            "content",
            Json::Array(vec![obj(vec![
                ("type", s("paragraph")),
                ("content", Json::Array(vec![obj(vec![("type", s("text")), ("text", s("Rendered"))])])),
            ])]),
        ),
    ]);
    let issue = IssueBean {
        fields: fields(vec![
            ("description", desc),
            ("priority", obj(vec![("name", s("High"))])),
            ("assignee", obj(vec![("displayName", s("Bob"))])),
            ("reporter", Json::Null),
        ]),
        ..bare_issue()
    };
    assert_eq!(
        format_issue(&issue),
        "Description:\nRendered\nPriority: High\nReporter: Unassigned\nAssignee: Bob\n"
    );
}

#[test]
fn blank_description_and_empty_lists_are_skipped() {
    let issue = IssueBean {
        fields: fields(vec![
            ("summary", s("")),
            ("description", s("   ")),
            ("labels", Json::Array(vec![])),
            ("components", Json::Array(vec![])),
            ("workratio", num(0)),
            ("comment", obj(vec![("total", num(0))])),
            ("worklog", obj(vec![("total", num(4))])),
        ]),
        transitions: Some(vec![]),
        changelog: Some(ChangelogBean { histories: Some(vec![]) }),
        ..bare_issue()
    };
    assert_eq!(
        format_issue(&issue),
        "Priority: None\nReporter: Unassigned\nAssignee: Unassigned\nWorklogs: 4 entries\n"
    );
}

#[test]
fn story_point_estimate_last_value_wins() {
    let issue = IssueBean {
        changelog: Some(ChangelogBean {
            histories: Some(vec![
                ChangeHistoryBean { items: Some(vec![change("Story point estimate", Some("2"))]) },
                ChangeHistoryBean { items: Some(vec![change("Story point estimate", Some("13"))]) },
                ChangeHistoryBean { items: Some(vec![change("Story point estimate", None)]) },
            ]),
        }),
        ..bare_issue()
    };
    assert_eq!(format_issue(&issue), "Story Point Estimate: 13\n");
}

#[test]
fn transition_target_status_is_not_listed_in_issue() {
    let issue = IssueBean {
        transitions: Some(vec![TransitionBean {
            id: Some("21".to_string()),
            name: Some("Close".to_string()),
            to: Some(StatusBean { name: Some("Closed".to_string()) }),
        }]),
        ..bare_issue()
    };
    assert_eq!(format_issue(&issue), "\nAvailable Transitions:\n- Close (ID: 21)\n");
}
