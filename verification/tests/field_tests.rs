use jira_mcp_server::field::{
    field_search_query, format_fields_text, select_fields, FieldBean, FieldSchema,
};

fn some(x: &str) -> Option<String> {
    Some(x.to_string())
}

fn field(id: Option<&str>, name: Option<&str>, custom: Option<bool>) -> FieldBean {
    FieldBean {
        id: id.map(|x| x.to_string()),
        name: name.map(|x| x.to_string()),
        custom,
        schema: None,
        clause_names: None,
    }
}

fn sample() -> Vec<FieldBean> {
    vec![
        FieldBean {
            schema: Some(FieldSchema { type_: some("number"), items: None, custom: some("com.x:float") }),
            clause_names: Some(vec!["cf[100]".to_string(), "Story Points".to_string()]),
            ..field(Some("customfield_100"), Some("Story Points"), Some(true))
        },
        FieldBean {
            schema: Some(FieldSchema { type_: some("string"), items: None, custom: None }),
            clause_names: Some(vec!["summary".to_string()]),
            ..field(Some("summary"), Some("Summary"), Some(false))
        },
        FieldBean { clause_names: Some(vec![]), ..field(Some("assignee"), Some("assignee"), Some(false)) },
        FieldBean {
            schema: Some(FieldSchema { type_: None, items: None, custom: None }),
            ..field(Some("x"), None, None)
        },
    ]
}

#[test]
fn search_query_is_trimmed_and_lower_cased() {
    assert_eq!(field_search_query(Some("  Story ")), some("story"));
    assert_eq!(field_search_query(Some("   ")), None);
    assert_eq!(field_search_query(None), None);
}

#[test]
fn fields_sort_system_first_then_by_name() {
    assert_eq!(select_fields(&sample(), false, None), vec![3, 2, 1, 0]);
}

#[test]
fn fields_filter_custom_only() {
    assert_eq!(select_fields(&sample(), true, None), vec![0]);
}

#[test]
fn fields_filter_by_search_on_name_id_and_clause() {
    let fs = sample();
    assert_eq!(select_fields(&fs, false, Some(" STORY ")), vec![0]);
    assert_eq!(select_fields(&fs, false, Some("SUMM")), vec![1]);
    assert_eq!(select_fields(&fs, false, Some("cf[")), vec![0]);
    assert_eq!(select_fields(&fs, false, Some("x")), vec![3]);
    assert_eq!(select_fields(&fs, false, Some("  ")), vec![3, 2, 1, 0]);
    assert_eq!(select_fields(&fs, true, Some("summary")), Vec::<usize>::new());
}

#[test]
fn equal_names_keep_their_order() {
    let fs = vec![
        field(Some("b"), Some("alpha"), None),
        field(Some("a"), Some("Alpha"), Some(false)),
        field(Some("c"), Some("ALPHA"), None),
        field(Some("z"), Some("Beta"), Some(true)),
        field(Some("y"), Some("beta"), Some(true)),
    ];
    assert_eq!(select_fields(&fs, false, None), vec![0, 1, 2, 3, 4]);
    let reversed: Vec<FieldBean> = fs.into_iter().rev().collect();
    assert_eq!(select_fields(&reversed, false, None), vec![2, 3, 4, 0, 1]);
}

#[test]
fn fields_listing_text() {
    let fs = sample();
    let order = select_fields(&fs, false, None);
    assert_eq!(
        format_fields_text(&fs, &order),
        "Fields (4):\n\n\
- ? (id: x, custom: no)\n\
- assignee (id: assignee, custom: no)\n\
- Summary (id: summary, custom: no)\n    schema: type=string\n    clauseNames: summary\n\
- Story Points (id: customfield_100, custom: yes)\n    schema: type=number, custom=com.x:float\n    clauseNames: cf[100], Story Points\n"
    );
}

#[test]
fn schema_with_items() {
    let fs = vec![FieldBean {
        schema: Some(FieldSchema { type_: some("array"), items: some("string"), custom: None }),
        ..field(None, Some("Labels"), Some(false))
    }];
    assert_eq!(
        format_fields_text(&fs, &vec![0]),
        "Fields (1):\n\n- Labels (id: ?, custom: no)\n    schema: type=array, items=string\n"
    );
}

#[test]
fn no_fields_found() {
    assert_eq!(format_fields_text(&sample(), &vec![]), "No fields found.\n");
}
