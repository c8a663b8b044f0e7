use vstd::prelude::*;

use crate::json::{
    as_array, as_str, as_truncated, get, get_str, json_get, json_get_array, json_get_str,
    json_get_truncated, json_is_null, lemma_get_decreases, opt_get, str_or, Json,
};
use crate::text::{
    is_white_space, law_trimmed_has_no_surrounding_space, decimal, push_decimal_i64, push_decimal_u64, split, split_seq, str_eq, trim, trim_seq, views,
};

verus! {

/// How the children of a node are laid out.
#[derive(Clone, Copy)]
pub enum Layout {
    /// One after the other, each with the list prefix of the parent.
    Plain,
    /// Numbered: the child at index `i` gets the prefix `"{i+1}. "`.
    Numbered,
    /// As table cells: each child is followed by `" | "`.
    Cells,
}

/// `text` wrapped in the Markdown markers of a mark of kind `kind`.
pub open spec fn mark_wrap(text: Seq<char>, kind: Seq<char>) -> Seq<char> {
    if kind == "strong"@ {
        "**"@ + text + "**"@
    } else if kind == "em"@ {
        "*"@ + text + "*"@
    } else if kind == "code"@ {
        "`"@ + text + "`"@
    } else if kind == "strike"@ {
        "~~"@ + text + "~~"@
    } else if kind == "underline"@ {
        "__"@ + text + "__"@
    } else {
        text
    }
}

/// `text` with each mark of `marks` applied in turn, the first innermost.
pub open spec fn apply_marks(text: Seq<char>, marks: Seq<Json>) -> Seq<char>
    decreases marks.len(),
{
    if marks.len() == 0 {
        text
    } else {
        mark_wrap(
            apply_marks(text, marks.drop_last()),
            str_or(get_str(marks.last(), "type"@), ""@),
        )
    }
}

/// `count` copies of `c`.
pub open spec fn repeat_char(c: char, count: nat) -> Seq<char> {
    Seq::new(count, |i: int| c)
}

/// The level of a heading: its `attrs.level` cut to an integer and held
/// within `0..=usize::MAX`, or 1 when it has none.
pub open spec fn heading_level(node: Json) -> nat {
    match as_truncated(opt_get(get(node, "attrs"@), "level"@)) {
        Some(t) => if t < 0 {
            0
        } else if t > usize::MAX {
            usize::MAX as nat
        } else {
            t as nat
        },
        None => 1,
    }
}

/// The depth of the children of a list item: one more, wrapping at
/// `usize::MAX` as unchecked `usize` addition does.
pub open spec fn next_depth(depth: nat) -> nat {
    if depth >= usize::MAX {
        0
    } else {
        depth + 1
    }
}

/// The opening of the text of a `media` node: its alternative text, else its
/// type, else nothing.
pub open spec fn media_head(a: Json) -> Seq<char> {
    let ty = str_or(get_str(a, "type"@), ""@);
    let alt = str_or(get_str(a, "alt"@), ""@);
    if alt.len() > 0 {
        "[Media: "@ + alt
    } else if ty.len() > 0 {
        "[Media: "@ + ty
    } else {
        "[Media"@
    }
}

/// The size part of the text of a `media` node, when it has both a width and
/// a height.
pub open spec fn media_size(a: Json) -> Seq<char> {
    match (as_truncated(get(a, "width"@)), as_truncated(get(a, "height"@))) {
        (Some(w), Some(h)) => " ("@ + decimal(w as int) + "x"@ + decimal(h as int) + ")"@,
        _ => Seq::<char>::empty(),
    }
}

/// The identifier part of the text of a `media` node.
pub open spec fn media_id(a: Json) -> Seq<char> {
    let id = str_or(get_str(a, "id"@), ""@);
    if id.len() > 0 {
        " | id="@ + id
    } else {
        Seq::<char>::empty()
    }
}

/// The text of a `media` node with attributes `attrs`.
pub open spec fn media_text(attrs: Option<Json>) -> Seq<char> {
    match attrs {
        None => "[Media/Image]"@,
        Some(a) => media_head(a) + media_size(a) + media_id(a) + "]"@,
    }
}

/// `text` behind `before`, or nothing when `text` is missing.
pub open spec fn tagged(before: Seq<char>, text: Option<Seq<char>>) -> Seq<char> {
    match text {
        Some(t) => before + t,
        None => Seq::<char>::empty(),
    }
}

/// Each line behind `"> "` and followed by a line break.
pub open spec fn quote_lines(lines: Seq<Seq<char>>) -> Seq<char>
    decreases lines.len(),
{
    if lines.len() == 0 {
        Seq::<char>::empty()
    } else {
        quote_lines(lines.drop_last()) + "> "@ + lines.last() + "\n"@
    }
}

/// The Markdown of the nodes `nodes`, laid out by `layout`, at list depth
/// `depth` with list prefix `prefix`.
pub open spec fn render_seq(nodes: Seq<Json>, depth: nat, prefix: Seq<char>, layout: Layout) -> Seq<char>
    decreases nodes, 0nat,
{
    if nodes.len() == 0 {
        Seq::<char>::empty()
    } else {
        let i = nodes.len() - 1;
        let init = render_seq(nodes.subrange(0, i), depth, prefix, layout);
        let p = match layout {
            Layout::Numbered => decimal(i + 1) + ". "@,
            _ => prefix,
        };
        let item = render_node(nodes[i], depth, p);
        match layout {
            Layout::Cells => init + item + " | "@,
            _ => init + item,
        }
    }
}

/// The Markdown of the children of `node`, laid out by `layout`.
pub open spec fn render_kids(node: Json, depth: nat, prefix: Seq<char>, layout: Layout) -> Seq<char>
    decreases node, 0nat,
{
    match get(node, "content"@) {
        Some(Json::Array(a)) => {
            proof {
                lemma_array_member_decreases(node, "content"@);
            }
            render_seq(a@, depth, prefix, layout)
        },
        _ => Seq::<char>::empty(),
    }
}

/// The Markdown of one node of an Atlassian Document Format tree, at list
/// depth `depth` with list prefix `prefix`.
pub open spec fn render_node(node: Json, depth: nat, prefix: Seq<char>) -> Seq<char>
    decreases node, 1nat,
{
    if node == Json::Null {
        Seq::<char>::empty()
    } else {
        let t = str_or(get_str(node, "type"@), ""@);
        let attrs = get(node, "attrs"@);
        if t == "paragraph"@ {
            render_kids(node, depth, prefix, Layout::Plain) + "\n\n"@
        } else if t == "text"@ {
            apply_marks(
                str_or(get_str(node, "text"@), ""@),
                match as_array(get(node, "marks"@)) {
                    Some(m) => m,
                    None => Seq::<Json>::empty(),
                },
            )
        } else if t == "hardBreak"@ {
            "\n"@
        } else if t == "heading"@ {
            repeat_char('#', heading_level(node)) + " "@ + render_kids(node,
                depth,
                prefix,
                Layout::Plain,
            ) + "\n\n"@
        } else if t == "bulletList"@ {
            render_kids(node, depth, "- "@, Layout::Plain)
        } else if t == "orderedList"@ {
            render_kids(node, depth, prefix, Layout::Numbered)
        } else if t == "listItem"@ {
            (if prefix.len() > 0 {
                repeat_char(' ', 2 * depth) + prefix
            } else {
                Seq::<char>::empty()
            }) + render_kids(node, next_depth(depth), ""@, Layout::Plain)
        } else if t == "codeBlock"@ {
            "```"@ + str_or(as_str(opt_get(attrs, "language"@)), ""@) + "\n"@ + render_kids(node,
                depth,
                prefix,
                Layout::Plain,
            ) + "```\n\n"@
        } else if t == "blockquote"@ {
            quote_lines(split_seq(trim_seq(render_kids(node, depth, prefix, Layout::Plain)), '\n'))
                + "\n"@
        } else if t == "rule"@ {
            "---\n\n"@
        } else if t == "table"@ {
            "\n[Table Content]\n"@ + render_kids(node, depth, prefix, Layout::Plain) + "\n"@
        } else if t == "tableRow"@ {
            "| "@ + render_kids(node, depth, prefix, Layout::Cells) + "\n"@
        } else if t == "media"@ {
            media_text(attrs)
        } else if t == "mention"@ {
            tagged("@"@, as_str(opt_get(attrs, "text"@)))
        } else if t == "emoji"@ {
            str_or(as_str(opt_get(attrs, "shortName"@)), Seq::<char>::empty())
        } else if t == "inlineCard"@ {
            str_or(as_str(opt_get(attrs, "url"@)), Seq::<char>::empty())
        } else {
            render_kids(node, depth, prefix, Layout::Plain)
        }
    }
}

/// The items of an array member lie inside the value that holds it.
pub proof fn lemma_array_member_decreases(node: Json, key: Seq<char>)
    ensures
        get(node, key) matches Some(Json::Array(a)) ==> decreases_to!(node => a@),
{
    lemma_get_decreases(node, key);
    if let Some(Json::Array(a)) = get(node, key) {
        assert(decreases_to!(Json::Array(a) => a));
        assert(decreases_to!(a => a@));
    }
}


/// Appends `count` copies of `c` to `out`.
fn push_repeat(out: &mut String, c: char, count: usize)
    ensures
        final(out)@ == old(out)@ + repeat_char(c, count as nat),
{
    let mut i: usize = 0;
    while i < count
        invariant
            i <= count,
            out@ == old(out)@ + repeat_char(c, i as nat),
        decreases count - i,
    {
        out.push(c);
        i = i + 1;
        assert(repeat_char(c, i as nat) =~= repeat_char(c, (i - 1) as nat).push(c));
    }
}

/// Appends two spaces for each level of `depth` to `out`.
fn push_indent(out: &mut String, depth: usize)
    ensures
        final(out)@ == old(out)@ + repeat_char(' ', 2 * depth as nat),
{
    let mut i: usize = 0;
    while i < depth
        invariant
            i <= depth,
            out@ == old(out)@ + repeat_char(' ', 2 * i as nat),
        decreases depth - i,
    {
        out.push(' ');
        out.push(' ');
        i = i + 1;
        assert(repeat_char(' ', 2 * i as nat) =~= repeat_char(' ', 2 * (i - 1) as nat).push(
            ' ',
        ).push(' '));
    }
}

/// `text` wrapped in the Markdown markers of a mark of kind `kind`.
fn wrap_mark(text: String, kind: &str) -> (r: String)
    ensures
        r@ == mark_wrap(text@, kind@),
{
    let marker: &str = if str_eq(kind, "strong") {
        "**"
    } else if str_eq(kind, "em") {
        "*"
    } else if str_eq(kind, "code") {
        "`"
    } else if str_eq(kind, "strike") {
        "~~"
    } else if str_eq(kind, "underline") {
        "__"
    } else {
        return text;
    };
    let mut r = marker.to_owned();
    r.append(text.as_str());
    r.append(marker);
    r
}

/// The text of a `text` node with its marks applied.
fn marked_text(node: &Json) -> (r: String)
    ensures
        r@ == apply_marks(
            str_or(get_str(*node, "text"@), ""@),
            match as_array(get(*node, "marks"@)) {
                Some(m) => m,
                None => Seq::<Json>::empty(),
            },
        ),
{
    let mut text: String = match json_get_str(node, "text") {
        Some(s) => s.clone(),
        None => "".to_owned(),
    };
    let ghost raw = text@;
    match json_get_array(node, "marks") {
        Some(marks) => {
            let n = marks.len();
            let mut i: usize = 0;
            assert(marks@.take(0) =~= Seq::<Json>::empty());
            while i < n
                invariant
                    n == marks@.len(),
                    i <= n,
                    text@ == apply_marks(raw, marks@.take(i as int)),
                decreases n - i,
            {
                let kind: &str = match json_get_str(&marks[i], "type") {
                    Some(k) => k.as_str(),
                    None => "",
                };
                text = wrap_mark(text, kind);
                i = i + 1;
                assert(marks@.take(i as int).drop_last() =~= marks@.take(i - 1));
            }
            assert(marks@.take(n as int) =~= marks@);
        },
        None => {},
    }
    text
}

/// Appends the opening of the text of a `media` node to `out`.
fn push_media_head(out: &mut String, attrs: &Json)
    ensures
        final(out)@ == old(out)@ + media_head(*attrs),
{
    let ty: &str = match json_get_str(attrs, "type") {
        Some(s) => s.as_str(),
        None => "",
    };
    let alt: &str = match json_get_str(attrs, "alt") {
        Some(s) => s.as_str(),
        None => "",
    };
    if !alt.is_empty() {
        out.append("[Media: ");
        out.append(alt);
    } else if !ty.is_empty() {
        out.append("[Media: ");
        out.append(ty);
    } else {
        out.append("[Media");
    }
}

/// Appends the size part of the text of a `media` node to `out`.
fn push_media_size(out: &mut String, attrs: &Json)
    ensures
        final(out)@ == old(out)@ + media_size(*attrs),
{
    match (json_get_truncated(attrs, "width"), json_get_truncated(attrs, "height")) {
        (Some(w), Some(h)) => {
            out.append(" (");
            push_decimal_i64(out, w);
            out.append("x");
            push_decimal_i64(out, h);
            out.append(")");
        },
        _ => {},
    }
}

/// The text of a `media` node whose attributes are `attrs`.
fn media_exec(attrs: &Json) -> (r: String)
    ensures
        r@ == media_text(Some(*attrs)),
{
    let mut r = String::new();
    push_media_head(&mut r, attrs);
    push_media_size(&mut r, attrs);
    let id: &str = match json_get_str(attrs, "id") {
        Some(s) => s.as_str(),
        None => "",
    };
    if !id.is_empty() {
        r.append(" | id=");
        r.append(id);
    }
    r.append("]");
    r
}

/// The string attribute `key` of `node`.
fn attr_str<'a>(node: &'a Json, key: &str) -> (r: Option<&'a String>)
    ensures
        r matches Some(s) ==> as_str(opt_get(get(*node, "attrs"@), key@)) == Some(s@),
        r is None ==> as_str(opt_get(get(*node, "attrs"@), key@)) is None,
{
    match json_get(node, "attrs") {
        Some(a) => json_get_str(a, key),
        None => None,
    }
}

/// Appends the Markdown of the children of `node` to `out`.
fn render_children(node: &Json, out: &mut String, depth: usize, prefix: &str, layout: Layout)
    ensures
        final(out)@ == old(out)@ + render_kids(*node, depth as nat, prefix@, layout),
    decreases node, 0nat,
{
    match json_get_array(node, "content") {
        Some(arr) => {
            proof {
                lemma_array_member_decreases(*node, "content"@);
            }
            let n = arr.len();
            let mut i: usize = 0;
            assert(arr@.subrange(0, 0) =~= Seq::<Json>::empty());
            while i < n
                invariant
                    n == arr@.len(),
                    i <= n,
                    decreases_to!(*node => arr@),
                    out@ == old(out)@ + render_seq(
                        arr@.subrange(0, i as int),
                        depth as nat,
                        prefix@,
                        layout,
                    ),
                decreases n - i,
            {
                let ghost before = out@;
                assert(arr@.subrange(0, i + 1).subrange(0, i as int) =~= arr@.subrange(0, i as int));
                assert(arr@.subrange(0, i + 1)[i as int] == arr@[i as int]);
                assert(decreases_to!(*node => arr@[i as int]));
                match layout {
                    Layout::Numbered => {
                        let mut p = String::new();
                        push_decimal_u64(&mut p, (i + 1) as u64);
                        p.append(". ");
                        render_adf_node(&arr[i], out, depth, p.as_str());
                    },
                    Layout::Plain => {
                        render_adf_node(&arr[i], out, depth, prefix);
                    },
                    Layout::Cells => {
                        render_adf_node(&arr[i], out, depth, prefix);
                        out.append(" | ");
                    },
                }
                i = i + 1;
            }
            assert(arr@.subrange(0, n as int) =~= arr@);
        },
        None => {},
    }
}

/// Appends the Markdown of `node` to `out`, at list depth `depth` with list
/// prefix `prefix`; what `out` held before stays as it was.
#[verifier::rlimit(60)]
pub fn render_adf_node(node: &Json, out: &mut String, depth: usize, prefix: &str)
    ensures
        final(out)@ == old(out)@ + render_node(*node, depth as nat, prefix@),
    decreases node, 1nat,
{
    if json_is_null(node) {
        return;
    }
    let t: &str = match json_get_str(node, "type") {
        Some(s) => s.as_str(),
        None => "",
    };
    let ghost o = out@;
    let ghost want = render_node(*node, depth as nat, prefix@);
    if str_eq(t, "paragraph") {
        render_children(node, out, depth, prefix, Layout::Plain);
        out.append("\n\n");
        assert(out@ =~= o + want);
    } else if str_eq(t, "text") {
        let text = marked_text(node);
        out.append(text.as_str());
        assert(out@ =~= o + want);
    } else if str_eq(t, "hardBreak") {
        out.append("\n");
        assert(out@ =~= o + want);
    } else if str_eq(t, "heading") {
        let level: usize = match json_get(node, "attrs") {
            Some(a) => match json_get_truncated(a, "level") {
                Some(v) => if v < 0 {
                    0
                } else if (v as u64) > (usize::MAX as u64) {
                    usize::MAX
                } else {
                    v as usize
                },
                None => 1,
            },
            None => 1,
        };
        push_repeat(out, '#', level);
        out.append(" ");
        render_children(node, out, depth, prefix, Layout::Plain);
        out.append("\n\n");
        assert(out@ =~= o + want);
    } else if str_eq(t, "bulletList") {
        render_children(node, out, depth, "- ", Layout::Plain);
        assert(out@ =~= o + want);
    } else if str_eq(t, "orderedList") {
        render_children(node, out, depth, prefix, Layout::Numbered);
        assert(out@ =~= o + want);
    } else if str_eq(t, "listItem") {
        if !prefix.is_empty() {
            push_indent(out, depth);
            out.append(prefix);
        }
        let next: usize = if depth == usize::MAX {
            0
        } else {
            depth + 1
        };
        render_children(node, out, next, "", Layout::Plain);
        assert(out@ =~= o + want);
    } else if str_eq(t, "codeBlock") {
        let language: &str = match attr_str(node, "language") {
            Some(s) => s.as_str(),
            None => "",
        };
        out.append("```");
        out.append(language);
        out.append("\n");
        render_children(node, out, depth, prefix, Layout::Plain);
        out.append("```\n\n");
        assert(out@ =~= o + want);
    } else if str_eq(t, "blockquote") {
        let mut inner = String::new();
        render_children(node, &mut inner, depth, prefix, Layout::Plain);
        let trimmed = trim(inner.as_str());
        let lines = split(trimmed.as_str(), '\n');
        let n = lines.len();
        let mut i: usize = 0;
        let ghost start = out@;
        assert(views(lines@).take(0) =~= Seq::<Seq<char>>::empty());
        while i < n
            invariant
                n == lines@.len(),
                i <= n,
                out@ == start + quote_lines(views(lines@).take(i as int)),
            decreases n - i,
        {
            out.append("> ");
            out.append(lines[i].as_str());
            out.append("\n");
            i = i + 1;
            assert(views(lines@).take(i as int).drop_last() =~= views(lines@).take(i - 1));
        }
        assert(views(lines@).take(n as int) =~= views(lines@));
        out.append("\n");
        assert(out@ =~= o + want);
    } else if str_eq(t, "rule") {
        out.append("---\n\n");
        assert(out@ =~= o + want);
    } else if str_eq(t, "table") {
        out.append("\n[Table Content]\n");
        render_children(node, out, depth, prefix, Layout::Plain);
        out.append("\n");
        assert(out@ =~= o + want);
    } else if str_eq(t, "tableRow") {
        out.append("| ");
        render_children(node, out, depth, prefix, Layout::Cells);
        out.append("\n");
        assert(out@ =~= o + want);
    } else if str_eq(t, "media") {
        match json_get(node, "attrs") {
            None => out.append("[Media/Image]"),
            Some(a) => {
                let m = media_exec(a);
                out.append(m.as_str());
            },
        }
        assert(out@ =~= o + want);
    } else if str_eq(t, "mention") {
        if let Some(text) = attr_str(node, "text") {
            out.append("@");
            out.append(text.as_str());
        }
        assert(out@ =~= o + want);
    } else if str_eq(t, "emoji") {
        if let Some(short_name) = attr_str(node, "shortName") {
            out.append(short_name.as_str());
        }
        assert(out@ =~= o + want);
    } else if str_eq(t, "inlineCard") {
        if let Some(url) = attr_str(node, "url") {
            out.append(url.as_str());
        }
        assert(out@ =~= o + want);
    } else {
        render_children(node, out, depth, prefix, Layout::Plain);
    }
}

/// The text of an Atlassian Document Format tree rendered as Markdown, without
/// leading or trailing white space; empty for `null`.
pub open spec fn adf_markdown(node: Json) -> Seq<char> {
    if node == Json::Null {
        Seq::<char>::empty()
    } else {
        trim_seq(render_node(node, 0, ""@))
    }
}

/// Renders an Atlassian Document Format tree as Markdown.
pub fn render_adf(node: &Json) -> (r: String)
    ensures
        r@ == adf_markdown(*node),
{
    if json_is_null(node) {
        return String::new();
    }
    let mut out = String::new();
    render_adf_node(node, &mut out, 0, "");
    trim(out.as_str())
}


/// A rendered document neither starts nor ends with white space, and `null`
/// renders as nothing.
pub proof fn law_rendered_document_is_trimmed(node: Json)
    ensures
        adf_markdown(node).len() > 0 ==> !is_white_space(adf_markdown(node)[0])
            && !is_white_space(adf_markdown(node).last()),
        node == Json::Null ==> adf_markdown(node).len() == 0,
{
    law_trimmed_has_no_surrounding_space(render_node(node, 0, ""@));
}


/// Whether the renderer gives nodes of kind `t` a form of their own.
pub open spec fn own_form(t: Seq<char>) -> bool {
    ||| t == "paragraph"@
    ||| t == "text"@
    ||| t == "hardBreak"@
    ||| t == "heading"@
    ||| t == "bulletList"@
    ||| t == "orderedList"@
    ||| t == "listItem"@
    ||| t == "codeBlock"@
    ||| t == "blockquote"@
    ||| t == "rule"@
    ||| t == "table"@
    ||| t == "tableRow"@
    ||| t == "media"@
    ||| t == "mention"@
    ||| t == "emoji"@
    ||| t == "inlineCard"@
}

/// `null` renders as nothing, and a node of a kind without a form of its own
/// (no kind, a kind that is not text, or one the renderer does not know)
/// renders as its children, one after the other, at the same depth and with
/// the same list prefix: as a document holding them does.
pub proof fn law_other_kinds_render_children(node: Json, depth: nat, prefix: Seq<char>)
    ensures
        render_node(Json::Null, depth, prefix).len() == 0,
        node != Json::Null && !own_form(str_or(get_str(node, "type"@), ""@)) ==> render_node(
            node,
            depth,
            prefix,
        ) == render_kids(node, depth, prefix, Layout::Plain),
{
}

/// Documents, table headers and cells and media wrappers have no form of
/// their own: they render as their children.
pub proof fn law_containers_render_children()
    ensures
        !own_form("doc"@),
        !own_form("tableHeader"@),
        !own_form("tableCell"@),
        !own_form("mediaSingle"@),
        !own_form("mediaGroup"@),
{
    reveal_strlit("doc");
    reveal_strlit("tableHeader");
    reveal_strlit("tableCell");
    reveal_strlit("mediaSingle");
    reveal_strlit("mediaGroup");
    reveal_strlit("paragraph");
    reveal_strlit("text");
    reveal_strlit("hardBreak");
    reveal_strlit("heading");
    reveal_strlit("bulletList");
    reveal_strlit("orderedList");
    reveal_strlit("listItem");
    reveal_strlit("codeBlock");
    reveal_strlit("blockquote");
    reveal_strlit("rule");
    reveal_strlit("table");
    reveal_strlit("tableRow");
    reveal_strlit("media");
    reveal_strlit("mention");
    reveal_strlit("emoji");
    reveal_strlit("inlineCard");
    assert("doc"@.len() == 3);
    assert("tableHeader"@[0] == 't' && "orderedList"@[0] == 'o' && "tableHeader"@.len() == 11);
    assert("tableCell"@.len() == 9 && "tableCell"@[0] == 't');
    assert("paragraph"@[0] == 'p' && "hardBreak"@[0] == 'h' && "codeBlock"@[0] == 'c');
    assert("mediaSingle"@.len() == 11 && "mediaSingle"@[0] == 'm');
    assert("mediaGroup"@.len() == 10 && "mediaGroup"@[0] == 'm');
    assert("bulletList"@[0] == 'b' && "blockquote"@[0] == 'b' && "inlineCard"@[0] == 'i');
}


/// A line of a quoted block: `"> "`, the line and a line break.
pub open spec fn quoted(line: Seq<char>) -> Seq<char> {
    "> "@ + line + "\n"@
}

proof fn lemma_quote_lines_each(lines: Seq<Seq<char>>)
    ensures
        quote_lines(lines) == lines.map_values(|l: Seq<char>| quoted(l)).flatten(),
    decreases lines.len(),
{
    if lines.len() > 0 {
        lemma_quote_lines_each(lines.drop_last());
        let f = |l: Seq<char>| quoted(l);
        assert(lines.map_values(f) =~= lines.drop_last().map_values(f).push(quoted(lines.last())));
        lines.drop_last().map_values(f).lemma_flatten_push(quoted(lines.last()));
    } else {
        assert(lines.map_values(|l: Seq<char>| quoted(l)) =~= Seq::<Seq<char>>::empty());
    }
}

/// A quoted block keeps every line of its trimmed inner rendering, blank
/// lines included: it is one `"> "` line for each `'\n'`-separated piece of
/// that text, in order, and then a blank line.
pub proof fn law_blockquote_quotes_every_line(node: Json, depth: nat, prefix: Seq<char>)
    requires
        node != Json::Null,
        str_or(get_str(node, "type"@), ""@) == "blockquote"@,
    ensures
        render_node(node, depth, prefix) == split_seq(
            trim_seq(render_kids(node, depth, prefix, Layout::Plain)),
            '\n',
        ).map_values(|l: Seq<char>| quoted(l)).flatten() + "\n"@,
        split_seq(trim_seq(render_kids(node, depth, prefix, Layout::Plain)), '\n').map_values(
            |l: Seq<char>| quoted(l),
        ).len() == split_seq(trim_seq(render_kids(node, depth, prefix, Layout::Plain)), '\n').len(),
{
    reveal_strlit("blockquote");
    reveal_strlit("paragraph");
    reveal_strlit("text");
    reveal_strlit("hardBreak");
    reveal_strlit("heading");
    reveal_strlit("bulletList");
    reveal_strlit("orderedList");
    reveal_strlit("listItem");
    reveal_strlit("codeBlock");
    assert("blockquote"@.len() == 10 && "blockquote"@[0] == 'b' && "blockquote"@[1] == 'l');
    assert("bulletList"@.len() == 10 && "bulletList"@[1] == 'u');
    assert("paragraph"@.len() == 9 && "text"@.len() == 4 && "hardBreak"@.len() == 9);
    assert("heading"@.len() == 7 && "orderedList"@.len() == 11 && "listItem"@.len() == 8);
    assert("codeBlock"@.len() == 9);
    lemma_quote_lines_each(split_seq(trim_seq(render_kids(node, depth, prefix, Layout::Plain)), '\n'));
}

} // verus!
