use jira_mcp_server::adf::{render_adf, render_adf_node};
use jira_mcp_server::json::{Json, JsonNumber};

fn s(x: &str) -> Json {
    Json::Str(x.to_string())
}

fn num(n: i64) -> Json {
    Json::Number(JsonNumber { int: Some(n), truncated: n })
}

fn float(truncated: i64) -> Json {
    Json::Number(JsonNumber { int: None, truncated })
}

fn obj(members: Vec<(&str, Json)>) -> Json {
    Json::Object(members.into_iter().map(|(k, v)| (k.to_string(), v)).collect())
}

fn node(kind: &str, content: Vec<Json>) -> Json {
    obj(vec![("type", s(kind)), ("content", Json::Array(content))])
}

fn text(t: &str) -> Json {
    obj(vec![("type", s("text")), ("text", s(t))])
}

fn para(t: &str) -> Json {
    node("paragraph", vec![text(t)])
}

fn doc(content: Vec<Json>) -> Json {
    node("doc", content)
}

#[test]
fn null_document_renders_empty() {
    assert_eq!(render_adf(&Json::Null), "");
}

#[test]
fn paragraphs_are_separated_and_trimmed() {
    let d = doc(vec![para("Hello"), para("World")]);
    assert_eq!(render_adf(&d), "Hello\n\nWorld");
}

#[test]
fn marks_wrap_in_order() {
    let t = obj(vec![
        ("type", s("text")),
        ("text", s("x")),
        (
            "marks",
            Json::Array(vec![
                obj(vec![("type", s("strong"))]),
                obj(vec![("type", s("em"))]),
                obj(vec![("type", s("code"))]),
                obj(vec![("type", s("strike"))]),
                obj(vec![("type", s("underline"))]),
                obj(vec![("type", s("link"))]),
            ]),
        ),
    ]);
    let d = doc(vec![node("paragraph", vec![t])]);
    assert_eq!(render_adf(&d), "__~~`***x***`~~__");
}

#[test]
fn heading_levels() {
    let h2 = obj(vec![
        ("type", s("heading")),
        ("attrs", obj(vec![("level", num(2))])),
        ("content", Json::Array(vec![text("Title")])),
    ]);
    let h_default = node("heading", vec![text("Plain")]);
    let h_float = obj(vec![
        ("type", s("heading")),
        ("attrs", obj(vec![("level", float(3))])),
        ("content", Json::Array(vec![text("Three")])),
    ]);
    assert_eq!(render_adf(&doc(vec![h2])), "## Title");
    assert_eq!(render_adf(&doc(vec![h_default])), "# Plain");
    assert_eq!(render_adf(&doc(vec![h_float])), "### Three");
}

#[test]
fn bullet_and_ordered_lists() {
    let bullets = node(
        "bulletList",
        vec![node("listItem", vec![para("a")]), node("listItem", vec![para("b")])],
    );
    let ordered = node(
        "orderedList",
        vec![node("listItem", vec![para("a")]), node("listItem", vec![para("b")])],
    );
    assert_eq!(render_adf(&doc(vec![bullets])), "- a\n\n- b");
    assert_eq!(render_adf(&doc(vec![ordered])), "1. a\n\n2. b");
}

#[test]
fn nested_list_is_indented() {
    let inner = node("bulletList", vec![node("listItem", vec![para("b")])]);
    let outer = node("bulletList", vec![node("listItem", vec![para("a"), inner])]);
    assert_eq!(render_adf(&doc(vec![outer])), "- a\n\n  - b");
}

#[test]
fn list_item_outside_list_has_no_marker() {
    let item = node("listItem", vec![para("loose")]);
    assert_eq!(render_adf(&doc(vec![item])), "loose");
}

#[test]
fn blockquote_prefixes_each_line() {
    let p = node(
        "paragraph",
        vec![text("line1"), obj(vec![("type", s("hardBreak"))]), text("line2")],
    );
    let q = node("blockquote", vec![p]);
    assert_eq!(render_adf(&doc(vec![q, para("after")])), "> line1\n> line2\n\nafter");
}

#[test]
fn code_block_with_language() {
    let c = obj(vec![
        ("type", s("codeBlock")),
        ("attrs", obj(vec![("language", s("rust"))])),
        ("content", Json::Array(vec![text("fn x() {}")])),
    ]);
    assert_eq!(render_adf(&doc(vec![c])), "```rust\nfn x() {}```");
}

#[test]
fn rule_renders_dashes() {
    let d = doc(vec![para("a"), obj(vec![("type", s("rule"))]), para("b")]);
    assert_eq!(render_adf(&d), "a\n\n---\n\nb");
}

#[test]
fn table_rows_and_cells() {
    let row = node(
        "tableRow",
        vec![node("tableHeader", vec![para("A")]), node("tableCell", vec![para("B")])],
    );
    let table = node("table", vec![row]);
    assert_eq!(render_adf(&doc(vec![table])), "[Table Content]\n| A\n\n | B\n\n |");
}

#[test]
fn media_variants() {
    let full = obj(vec![
        ("type", s("media")),
        (
            "attrs",
            obj(vec![
                ("id", s("abc")),
                ("type", s("file")),
                ("alt", s("pic")),
                ("width", num(100)),
                ("height", float(50)),
            ]),
        ),
    ]);
    let typed = obj(vec![("type", s("media")), ("attrs", obj(vec![("type", s("file"))]))]);
    let bare = obj(vec![("type", s("media")), ("attrs", obj(vec![]))]);
    let no_attrs = obj(vec![("type", s("media"))]);
    let half_size = obj(vec![
        ("type", s("media")),
        ("attrs", obj(vec![("width", num(10)), ("id", s("z"))])),
    ]);
    assert_eq!(render_adf(&doc(vec![node("mediaSingle", vec![full])])), "[Media: pic (100x50) | id=abc]");
    assert_eq!(render_adf(&doc(vec![node("mediaGroup", vec![typed])])), "[Media: file]");
    assert_eq!(render_adf(&doc(vec![bare])), "[Media]");
    assert_eq!(render_adf(&doc(vec![no_attrs])), "[Media/Image]");
    assert_eq!(render_adf(&doc(vec![half_size])), "[Media | id=z]");
}

#[test]
fn inline_nodes() {
    let mention = obj(vec![("type", s("mention")), ("attrs", obj(vec![("text", s("Bob"))]))]);
    let emoji = obj(vec![("type", s("emoji")), ("attrs", obj(vec![("shortName", s(":smile:"))]))]);
    let card = obj(vec![("type", s("inlineCard")), ("attrs", obj(vec![("url", s("https://x.io"))]))]);
    let silent = obj(vec![("type", s("mention"))]);
    let p = node("paragraph", vec![mention, text(" "), emoji, text(" "), card, silent]);
    assert_eq!(render_adf(&doc(vec![p])), "@Bob :smile: https://x.io");
}

#[test]
fn unknown_nodes_render_their_children() {
    let d = doc(vec![node("panel", vec![para("inside")]), obj(vec![("type", num(5))])]);
    assert_eq!(render_adf(&d), "inside");
}

#[test]
fn non_object_document_renders_empty() {
    assert_eq!(render_adf(&s("plain")), "");
    assert_eq!(render_adf(&Json::Array(vec![para("x")])), "");
}

#[test]
fn rendered_document_has_no_surrounding_white_space() {
    let d = doc(vec![para("  padded  "), obj(vec![("type", s("rule"))])]);
    let r = render_adf(&d);
    assert_eq!(r, "padded  \n\n---");
    assert_eq!(r.trim(), r);
}

#[test]
fn node_rendering_only_appends() {
    let mut out = "before|".to_string();
    render_adf_node(&para("x"), &mut out, 0, "");
    assert_eq!(out, "before|x\n\n");
    render_adf_node(&Json::Null, &mut out, 3, "- ");
    assert_eq!(out, "before|x\n\n");
}

#[test]
fn containers_render_as_their_children() {
    for kind in ["doc", "tableHeader", "tableCell", "mediaSingle", "mediaGroup", "unknownKind"] {
        let mut out = String::new();
        render_adf_node(&node(kind, vec![para("a"), para("b")]), &mut out, 1, "- ");
        assert_eq!(out, "a\n\nb\n\n");
    }
    let mut out = String::new();
    render_adf_node(&obj(vec![("type", s("doc"))]), &mut out, 0, "");
    assert_eq!(out, "");
}
