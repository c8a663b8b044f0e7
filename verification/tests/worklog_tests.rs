use jira_mcp_server::issue_tool::UserBean;
use jira_mcp_server::json::{Json, JsonNumber};
use jira_mcp_server::worklog::{
    answer_worklogs, build_author_filter, chunk_ids, format_added_worklog, format_worklog,
    no_worklogs_since, page_step, parse_timestamp_ms, parse_worklog_range, select_worklogs,
    plan_worklog_details, timestamp_from_readings, timestamp_in_range, worklog_request, worklog_to_json, PageStep, Worklog,
    WorklogAnswer, WorklogChangeBean, WorklogChangedSinceBean,
};

fn some(x: &str) -> Option<String> {
    Some(x.to_string())
}

fn user(name: Option<&str>, display: Option<&str>) -> UserBean {
    UserBean { name: name.map(|x| x.to_string()), display_name: display.map(|x| x.to_string()), email_address: None }
}

fn blank() -> Worklog {
    Worklog {
        id: None,
        issue_id: None,
        author: None,
        time_spent: None,
        time_spent_seconds: None,
        started: None,
        created: None,
        updated: None,
        comment: None,
    }
}

fn full() -> Worklog {
    Worklog {
        id: some("5"),
        issue_id: some("1001"),
        author: Some(user(Some("ann"), Some("Ann Lee"))),
        time_spent: some("1h"),
        time_spent_seconds: Some(3600),
        started: some("2024-01-15T09:00:00.000+0000"),
        created: some("2024-01-15T10:00:00.000+0000"),
        updated: some("2024-01-15T11:00:00.000+0000"),
        comment: some("Paired on the fix"),
    }
}

const PARSE_HINT: &str = "' as a timestamp. Use a Unix timestamp (ms or s) or an ISO 8601 date/datetime string.";

#[test]
fn timestamp_milliseconds_are_kept() {
    assert_eq!(parse_timestamp_ms("1700000000000"), Ok(1700000000000));
    assert_eq!(parse_timestamp_ms("10000000000"), Ok(10000000000));
}

#[test]
fn timestamp_seconds_are_scaled() {
    assert_eq!(parse_timestamp_ms("1700000000"), Ok(1700000000000));
    assert_eq!(parse_timestamp_ms("  9999999999 "), Ok(9999999999000));
    assert_eq!(parse_timestamp_ms("-5"), Ok(-5000));
    assert_eq!(parse_timestamp_ms("+7"), Ok(7000));
}

#[test]
fn timestamp_rfc3339() {
    assert_eq!(parse_timestamp_ms("2026-03-25T13:00:00+00:00"), Ok(1774443600000));
    assert_eq!(parse_timestamp_ms("2026-03-25T13:00:00 +00:00"), Ok(1774443600000));
    assert_eq!(parse_timestamp_ms("2026-03-25T13:00:00 -02:00"), Ok(1774450800000));
    assert_eq!(parse_timestamp_ms("2026-03-25T13:00:00Z"), Ok(1774443600000));
}

#[test]
fn timestamp_without_zone_is_utc() {
    assert_eq!(parse_timestamp_ms("2026-03-25T13:00:00"), Ok(1774443600000));
    assert_eq!(parse_timestamp_ms("2026-03-25T13:00"), Ok(1774443600000));
    assert_eq!(parse_timestamp_ms("2026-03-25 13:00:00"), Ok(1774443600000));
    assert_eq!(parse_timestamp_ms("2026-03-25 13:00"), Ok(1774443600000));
    assert_eq!(parse_timestamp_ms("2026-03-25"), Ok(1774396800000));
    assert_eq!(parse_timestamp_ms(" 2026-03-25\n"), Ok(1774396800000));
}

#[test]
fn timestamp_error_names_the_input() {
    assert_eq!(parse_timestamp_ms("yesterday"), Err(format!("Cannot parse 'yesterday{}", PARSE_HINT)));
    assert_eq!(parse_timestamp_ms(" 2026-13-45 "), Err(format!("Cannot parse ' 2026-13-45 {}", PARSE_HINT)));
    assert_eq!(parse_timestamp_ms(""), Err(format!("Cannot parse '{}", PARSE_HINT)));
}

#[test]
fn timestamp_from_readings_takes_the_first_reading() {
    assert_eq!(timestamp_from_readings("x", Some(12), &vec![Some(1)]), Ok(12000));
    assert_eq!(timestamp_from_readings("x", None, &vec![None, Some(4), Some(5)]), Ok(4));
    assert_eq!(timestamp_from_readings("x", None, &vec![None]), Err(format!("Cannot parse 'x{}", PARSE_HINT)));
}

#[test]
fn worklog_range_reads_both_ends() {
    assert_eq!(parse_worklog_range("1700000000", None), Ok((1700000000000, None)));
    assert_eq!(
        parse_worklog_range("1700000000", Some("2026-03-25")),
        Ok((1700000000000, Some(1774396800000)))
    );
    assert_eq!(parse_worklog_range("bad", Some("worse")), Err(format!("Cannot parse 'bad{}", PARSE_HINT)));
    assert_eq!(parse_worklog_range("1", Some("worse")), Err(format!("Cannot parse 'worse{}", PARSE_HINT)));
}

fn page(ids: Vec<Option<i64>>, last: Option<bool>, is_last: Option<bool>, until: Option<i64>) -> WorklogChangedSinceBean {
    WorklogChangedSinceBean {
        values: Some(ids.into_iter().map(|w| WorklogChangeBean { worklog_id: w, updated_time: Some(100) }).collect()),
        last_page: last,
        is_last_page: is_last,
        until,
    }
}

#[test]
fn page_step_collects_ids_and_follows_the_cursor() {
    let p = page(vec![Some(1), None, Some(3)], None, Some(false), Some(500));
    assert_eq!(page_step(&p, None), PageStep { ids: vec![1, 3], next_since: Some(500) });
    assert_eq!(page_step(&p, Some(501)).next_since, Some(500));
}

#[test]
fn page_step_stops() {
    let p = page(vec![Some(1)], None, None, Some(500));
    assert_eq!(page_step(&p, Some(500)).next_since, None);
    assert_eq!(page_step(&page(vec![], Some(true), None, Some(9)), None).next_since, None);
    assert_eq!(page_step(&page(vec![], Some(false), Some(true), Some(9)), None).next_since, None);
    assert_eq!(page_step(&page(vec![Some(2)], None, None, None), None), PageStep { ids: vec![2], next_since: None });
    let empty = WorklogChangedSinceBean { values: None, last_page: None, is_last_page: None, until: Some(3) };
    assert_eq!(page_step(&empty, None), PageStep { ids: vec![], next_since: Some(3) });
}

#[test]
fn ids_are_read_in_batches_of_a_thousand() {
    let ids: Vec<i64> = (0..2500).collect();
    let batches = chunk_ids(&ids);
    assert_eq!(batches.len(), 3);
    assert_eq!(batches[0], (0..1000).collect::<Vec<i64>>());
    assert_eq!(batches[1], (1000..2000).collect::<Vec<i64>>());
    assert_eq!(batches[2], (2000..2500).collect::<Vec<i64>>());
    assert_eq!(batches.concat(), ids);
    assert_eq!(chunk_ids(&vec![]), Vec::<Vec<i64>>::new());
    assert_eq!(chunk_ids(&(0..1000).collect()).len(), 1);
}

#[test]
fn author_filter_is_lower_cased() {
    assert_eq!(
        build_author_filter(&some("Ann"), &Some(vec!["BOB".to_string(), "Émile".to_string()])),
        vec!["ann".to_string(), "bob".to_string(), "émile".to_string()]
    );
    assert_eq!(build_author_filter(&None, &None), Vec::<String>::new());
}

fn crew() -> Vec<Worklog> {
    vec![
        Worklog { id: some("1"), author: Some(user(Some("ann"), Some("Ann Lee"))), ..blank() },
        Worklog { id: some("2"), author: Some(user(Some("bob"), None)), ..blank() },
        Worklog { id: some("3"), author: None, ..blank() },
        Worklog { id: some("4"), author: Some(user(None, Some("Carla"))), ..blank() },
    ]
}

#[test]
fn author_filter_matches_name_or_display_name() {
    let ws = crew();
    assert_eq!(select_worklogs(&ws, &vec![]), vec![0, 1, 2, 3]);
    assert_eq!(select_worklogs(&ws, &vec!["ann lee".to_string()]), vec![0]);
    assert_eq!(select_worklogs(&ws, &vec!["carla".to_string(), "bob".to_string()]), vec![1, 3]);
    assert_eq!(select_worklogs(&ws, &vec!["nobody".to_string()]), Vec::<usize>::new());
    assert_eq!(select_worklogs(&ws, &build_author_filter(&some("ANN"), &None)), vec![0]);
}

#[test]
fn worklog_text() {
    assert_eq!(
        format_worklog(&full()),
        "ID: 5\nIssue ID: 1001\nAuthor: Ann Lee\nTime Spent: 1h\nTime Spent (seconds): 3600\n\
Started: 2024-01-15T09:00:00.000+0000\nCreated: 2024-01-15T10:00:00.000+0000\n\
Updated: 2024-01-15T11:00:00.000+0000\nComment: Paired on the fix\n"
    );
    let w = Worklog { author: Some(user(Some("x"), None)), comment: some(""), ..blank() };
    assert_eq!(format_worklog(&w), "Author: Unknown\n");
    assert_eq!(format_worklog(&blank()), "");
}

fn members(ms: Vec<(&str, Json)>) -> Json {
    Json::Object(ms.into_iter().map(|(k, v)| (k.to_string(), v)).collect())
}

fn s(x: &str) -> Json {
    Json::Str(x.to_string())
}

#[test]
fn worklog_json_has_sorted_keys_and_nulls() {
    assert_eq!(
        worklog_to_json(&full()),
        members(vec![
            ("author", s("Ann Lee")),
            ("comment", s("Paired on the fix")),
            ("created", s("2024-01-15T10:00:00.000+0000")),
            ("id", s("5")),
            ("issue_id", s("1001")),
            ("started", s("2024-01-15T09:00:00.000+0000")),
            ("time_spent", s("1h")),
            ("time_spent_seconds", Json::Number(JsonNumber { int: Some(3600), truncated: 3600 })),
            ("updated", s("2024-01-15T11:00:00.000+0000")),
        ])
    );
    let w = Worklog { author: Some(user(Some("x"), None)), ..blank() };
    assert_eq!(
        worklog_to_json(&w),
        members(vec![
            ("author", Json::Null),
            ("comment", Json::Null),
            ("created", Json::Null),
            ("id", Json::Null),
            ("issue_id", Json::Null),
            ("started", Json::Null),
            ("time_spent", Json::Null),
            ("time_spent_seconds", Json::Null),
            ("updated", Json::Null),
        ])
    );
}

#[test]
fn answer_without_details() {
    assert_eq!(
        answer_worklogs(3, &vec![], &vec![], false),
        WorklogAnswer::Text("No worklog details returned for 3 IDs.".to_string())
    );
}

#[test]
fn answer_without_matching_author() {
    assert_eq!(
        answer_worklogs(4, &crew(), &vec!["zed".to_string()], true),
        WorklogAnswer::Text("No worklogs matched the specified author filter.".to_string())
    );
}

#[test]
fn answer_as_text_joins_with_rules() {
    assert_eq!(
        answer_worklogs(4, &crew(), &vec!["bob".to_string(), "carla".to_string()], false),
        WorklogAnswer::Text("ID: 2\nAuthor: Unknown\n\n---\nID: 4\nAuthor: Carla\n".to_string())
    );
}

#[test]
fn answer_as_json_array() {
    let ws = vec![full()];
    assert_eq!(
        answer_worklogs(1, &ws, &vec![], true),
        WorklogAnswer::Structured(Json::Array(vec![worklog_to_json(&full())]))
    );
}

#[test]
fn worklog_messages() {
    assert_eq!(no_worklogs_since("1700000000"), "No worklogs updated since 1700000000.");
    assert_eq!(
        format_added_worklog(&Worklog { id: some("9"), time_spent: some("2h"), ..blank() }),
        "Worklog added successfully.\nID: 9\nTime Spent: 2h\nStarted: "
    );
}

#[test]
fn worklog_request_carries_the_given_values() {
    let w = worklog_request("1h 30m".to_string(), some("2024-01-15T09:00:00.000+0000"), None);
    assert_eq!(w.time_spent, some("1h 30m"));
    assert_eq!(w.started, some("2024-01-15T09:00:00.000+0000"));
    assert_eq!(w.comment, None);
    assert!(w.id.is_none() && w.author.is_none() && w.time_spent_seconds.is_none());
}

#[test]
fn timestamps_whose_milliseconds_overflow_are_out_of_range() {
    assert!(timestamp_in_range("-9223372036854775"));
    assert!(!timestamp_in_range(" -9223372036854776"));
    assert!(timestamp_in_range("99999999999999999"));
    assert!(timestamp_in_range("2026-03-25"));
    assert_eq!(parse_timestamp_ms("-9223372036854775"), Ok(-9223372036854775000));
}

fn change(id: Option<i64>, updated: Option<i64>) -> WorklogChangeBean {
    WorklogChangeBean { worklog_id: id, updated_time: updated }
}

#[test]
fn page_step_drops_changes_at_or_after_until() {
    let p = WorklogChangedSinceBean {
        values: Some(vec![
            change(Some(1), Some(399)),
            change(Some(2), Some(400)),
            change(Some(3), Some(450)),
            change(Some(4), None),
            change(None, Some(10)),
            change(Some(5), Some(-7)),
        ]),
        last_page: None,
        is_last_page: None,
        until: Some(500),
    };
    assert_eq!(page_step(&p, Some(400)), PageStep { ids: vec![1, 5], next_since: None });
    assert_eq!(page_step(&p, None), PageStep { ids: vec![1, 2, 3, 4, 5], next_since: Some(500) });
    assert_eq!(page_step(&p, Some(1000)).ids, vec![1, 2, 3, 5]);
}

#[test]
fn no_ids_means_no_detail_requests() {
    assert_eq!(plan_worklog_details("2026-03-25", &vec![]), Err("No worklogs updated since 2026-03-25.".to_string()));
    let ids: Vec<i64> = (0..1500).collect();
    let batches = plan_worklog_details("x", &ids).unwrap();
    assert_eq!(batches.len(), 2);
    assert_eq!(batches.concat(), ids);
}
