use vstd::prelude::*;

use crate::json::str_or;
use crate::text::{
    chars_of, contains_seq, decimal, join, join_seq, lowercase, opt_view, push_decimal_u64,
    str_contains, to_lowercase, trim, trim_seq, views,
};

verus! {

/// The schema of a field.
pub struct FieldSchema {
    pub type_: Option<String>,
    pub items: Option<String>,
    pub custom: Option<String>,
}

/// The metadata of a Jira field, as far as the field tool reads it.
pub struct FieldBean {
    pub id: Option<String>,
    pub name: Option<String>,
    pub custom: Option<bool>,
    pub schema: Option<FieldSchema>,
    pub clause_names: Option<Vec<String>>,
}

/// The search text that the field tool filters by: the given text trimmed and
/// lower-cased, or nothing when it is missing or blank.
pub open spec fn search_query(search: Option<Seq<char>>) -> Option<Seq<char>> {
    match search {
        Some(s) => {
            let t = trim_seq(s);
            if t.len() > 0 {
                Some(lowercase(t))
            } else {
                None
            }
        },
        None => None,
    }
}

/// Whether a field is a custom field.
pub open spec fn is_custom(f: FieldBean) -> bool {
    f.custom == Some(true)
}

/// Whether an optional text contains `q` once lower-cased.
pub open spec fn hits(text: Option<Seq<char>>, q: Seq<char>) -> bool {
    match text {
        Some(t) => contains_seq(lowercase(t), q),
        None => false,
    }
}

/// Whether a field's name, identifier or one of its clause names contains `q`,
/// ignoring case.
pub open spec fn field_matches(f: FieldBean, q: Seq<char>) -> bool {
    ||| hits(opt_view(f.name), q)
    ||| hits(opt_view(f.id), q)
    ||| match f.clause_names {
        Some(cs) => exists|k: int| 0 <= k < cs@.len() && hits(Some(#[trigger] cs@[k]@), q),
        None => false,
    }
}

/// Whether the field tool keeps a field.
pub open spec fn field_kept(f: FieldBean, custom_only: bool, q: Option<Seq<char>>) -> bool {
    &&& (!custom_only || is_custom(f))
    &&& match q {
        Some(q) => field_matches(f, q),
        None => true,
    }
}

/// Whether `a` comes before `b` in the order of `String::cmp`: the order of
/// their characters' code points, a proper prefix first.
pub open spec fn lex_lt(a: Seq<char>, b: Seq<char>) -> bool
    decreases a.len(),
{
    if b.len() == 0 {
        false
    } else if a.len() == 0 {
        true
    } else if a[0] != b[0] {
        a[0] < b[0]
    } else {
        lex_lt(a.drop_first(), b.drop_first())
    }
}

/// The name a field is sorted by: its name lower-cased, empty when it has none.
pub open spec fn sort_name(f: FieldBean) -> Seq<char> {
    lowercase(str_or(opt_view(f.name), ""@))
}

/// Whether field `a` sorts strictly before field `b`: system fields before
/// custom ones, then by lower-cased name.
pub open spec fn key_lt(a: FieldBean, b: FieldBean) -> bool {
    ||| (!is_custom(a) && is_custom(b))
    ||| (is_custom(a) == is_custom(b) && lex_lt(sort_name(a), sort_name(b)))
}

/// Whether the field at position `i` comes before the one at position `j` in
/// the stable sort: by key, and by position among equal keys.
pub open spec fn sorted_before(fields: Seq<FieldBean>, i: int, j: int) -> bool {
    ||| key_lt(fields[i], fields[j])
    ||| (!key_lt(fields[j], fields[i]) && i < j)
}

/// The positions that the field tool lists, in the order it lists them: every
/// kept field once, sorted stably by key.
pub open spec fn is_field_selection(
    fields: Seq<FieldBean>,
    custom_only: bool,
    q: Option<Seq<char>>,
    order: Seq<usize>,
) -> bool {
    &&& forall|k: int| 0 <= k < order.len() ==> #[trigger] order[k] < fields.len()
    &&& forall|k: int|
        0 <= k < order.len() ==> field_kept(fields[#[trigger] order[k] as int], custom_only, q)
    &&& forall|i: int|
        0 <= i < fields.len() && field_kept(fields[i], custom_only, q) ==> exists|k: int|
            0 <= k < order.len() && #[trigger] order[k] == i
    &&& forall|a: int, b: int|
        0 <= a < b < order.len() ==> sorted_before(
            fields,
            #[trigger] order[a] as int,
            #[trigger] order[b] as int,
        )
}


proof fn lemma_lex_irreflexive(a: Seq<char>)
    ensures
        !lex_lt(a, a),
    decreases a.len(),
{
    if a.len() > 0 {
        lemma_lex_irreflexive(a.drop_first());
    }
}

proof fn lemma_lex_total(a: Seq<char>, b: Seq<char>)
    ensures
        a == b || lex_lt(a, b) || lex_lt(b, a),
    decreases a.len(),
{
    if a.len() > 0 && b.len() > 0 && a[0] == b[0] {
        let (a1, b1) = (a.drop_first(), b.drop_first());
        lemma_lex_total(a1, b1);
        if a1 == b1 {
            assert(a.len() == b.len());
            assert forall|k: int| 0 <= k < a.len() implies a[k] == b[k] by {
                if k > 0 {
                    assert(a[k] == a1[k - 1]);
                    assert(b[k] == b1[k - 1]);
                }
            }
            assert(a =~= b);
        }
    } else if a.len() == 0 && b.len() == 0 {
        assert(a =~= b);
    }
}

proof fn lemma_lex_transitive(a: Seq<char>, b: Seq<char>, c: Seq<char>)
    requires
        lex_lt(a, b),
        lex_lt(b, c),
    ensures
        lex_lt(a, c),
    decreases a.len(),
{
    if a.len() > 0 && b.len() > 0 && c.len() > 0 && a[0] == b[0] && b[0] == c[0] {
        lemma_lex_transitive(a.drop_first(), b.drop_first(), c.drop_first());
    }
}

/// A key below `y` stays below anything not below `y`.
proof fn lemma_key_lt_below(x: FieldBean, y: FieldBean, z: FieldBean)
    requires
        key_lt(x, y),
        !key_lt(z, y),
    ensures
        key_lt(x, z),
{
    lemma_lex_total(sort_name(y), sort_name(z));
    if is_custom(x) == is_custom(y) && lex_lt(sort_name(x), sort_name(y)) {
        if is_custom(y) == is_custom(z) && lex_lt(sort_name(y), sort_name(z)) {
            lemma_lex_transitive(sort_name(x), sort_name(y), sort_name(z));
        }
    }
}

proof fn lemma_key_lt_transitive(x: FieldBean, y: FieldBean, z: FieldBean)
    requires
        key_lt(x, y),
        key_lt(y, z),
    ensures
        key_lt(x, z),
{
    if is_custom(x) == is_custom(y) && is_custom(y) == is_custom(z) {
        lemma_lex_transitive(sort_name(x), sort_name(y), sort_name(z));
    }
}

proof fn lemma_key_lt_irreflexive(x: FieldBean)
    ensures
        !key_lt(x, x),
{
    lemma_lex_irreflexive(sort_name(x));
}

/// Whether `a` sorts before `b` by `lex_lt`.
fn lex_lt_exec(a: &Vec<char>, b: &Vec<char>) -> (r: bool)
    ensures
        r == lex_lt(a@, b@),
{
    let n = a.len();
    let m = b.len();
    let mut i: usize = 0;
    assert(a@.skip(0) =~= a@);
    assert(b@.skip(0) =~= b@);
    while i < n && i < m && a[i] == b[i]
        invariant
            n == a@.len(),
            m == b@.len(),
            i <= n,
            i <= m,
            lex_lt(a@, b@) == lex_lt(a@.skip(i as int), b@.skip(i as int)),
        decreases n - i,
    {
        assert(a@.skip(i as int).drop_first() =~= a@.skip(i + 1));
        assert(b@.skip(i as int).drop_first() =~= b@.skip(i + 1));
        i = i + 1;
    }
    if i == m {
        false
    } else if i == n {
        true
    } else {
        assert(a@.skip(i as int)[0] == a@[i as int]);
        assert(b@.skip(i as int)[0] == b@[i as int]);
        a[i] < b[i]
    }
}

/// The lower-cased name a field is sorted by.
fn sort_name_exec(f: &FieldBean) -> (r: Vec<char>)
    ensures
        r@ == sort_name(*f),
{
    let name: &str = match &f.name {
        Some(n) => n.as_str(),
        None => "",
    };
    let l = to_lowercase(name);
    chars_of(l.as_str())
}

/// Whether an optional text contains `q` once lower-cased.
fn hits_exec(text: &Option<String>, q: &str) -> (r: bool)
    ensures
        r == hits(opt_view(*text), q@),
{
    match text {
        Some(t) => {
            let l = to_lowercase(t.as_str());
            str_contains(l.as_str(), q)
        },
        None => false,
    }
}

/// Whether a field's name, identifier or a clause name contains `q`.
#[verifier::loop_isolation(false)]
fn field_matches_exec(f: &FieldBean, q: &str) -> (r: bool)
    ensures
        r == field_matches(*f, q@),
{
    if hits_exec(&f.name, q) || hits_exec(&f.id, q) {
        return true;
    }
    match &f.clause_names {
        Some(cs) => {
            let n = cs.len();
            let mut k: usize = 0;
            while k < n
                invariant
                    n == cs@.len(),
                    k <= n,
                    forall|j: int| 0 <= j < k ==> !hits(Some(#[trigger] cs@[j]@), q@),
                decreases n - k,
            {
                let l = to_lowercase(cs[k].as_str());
                if str_contains(l.as_str(), q) {
                    assert(hits(Some(cs@[k as int]@), q@));
                    return true;
                }
                k = k + 1;
            }
            false
        },
        None => false,
    }
}

/// The search text that the field tool filters by.
pub fn field_search_query(search: Option<&str>) -> (r: Option<String>)
    ensures
        match r {
            Some(q) => search_query(
                match search {
                    Some(s) => Some(s@),
                    None => None,
                },
            ) == Some(q@),
            None => search_query(
                match search {
                    Some(s) => Some(s@),
                    None => None,
                },
            ) is None,
        },
{
    match search {
        Some(s) => {
            let t = trim(s);
            if t.as_str().is_empty() {
                None
            } else {
                Some(to_lowercase(t.as_str()))
            }
        },
        None => None,
    }
}

/// Chooses the fields to list: custom fields only when `custom_only`, only
/// those matching the search text when there is one (see `search_query`), and
/// sorts them stably, system fields first, then by lower-cased name. The
/// result holds their positions in `fields`.
pub fn select_fields(fields: &Vec<FieldBean>, custom_only: bool, search: Option<&str>) -> (order: Vec<usize>)
    ensures
        is_field_selection(
            fields@,
            custom_only,
            search_query(
                match search {
                    Some(s) => Some(s@),
                    None => None,
                },
            ),
            order@,
        ),
{
    let q = field_search_query(search);
    let ghost gq = search_query(
        match search {
            Some(s) => Some(s@),
            None => None,
        },
    );
    let n = fields.len();
    let mut order: Vec<usize> = Vec::new();
    let mut i: usize = 0;
    while i < n
        invariant
            n == fields@.len(),
            i <= n,
            match q {
                Some(qs) => gq == Some(qs@),
                None => gq is None,
            },
            forall|k: int| 0 <= k < order@.len() ==> #[trigger] order@[k] < i,
            forall|k: int|
                0 <= k < order@.len() ==> field_kept(fields@[#[trigger] order@[k] as int], custom_only, gq),
            forall|j: int|
                0 <= j < i && field_kept(fields@[j], custom_only, gq) ==> exists|k: int|
                    0 <= k < order@.len() && #[trigger] order@[k] == j,
            forall|a: int, b: int|
                0 <= a < b < order@.len() ==> sorted_before(
                    fields@,
                    #[trigger] order@[a] as int,
                    #[trigger] order@[b] as int,
                ),
        decreases n - i,
    {
        let f = &fields[i];
        let custom_ok = !custom_only || f.custom == Some(true);
        let search_ok = match &q {
            Some(qs) => field_matches_exec(f, qs.as_str()),
            None => true,
        };
        if custom_ok && search_ok {
            let name_i = sort_name_exec(f);
            let custom_i = f.custom == Some(true);
            let m = order.len();
            let mut p: usize = 0;
            while p < m
                invariant
                    n == fields@.len(),
                    i < n,
                    m == order@.len(),
                    p <= m,
                    name_i@ == sort_name(fields@[i as int]),
                    custom_i == is_custom(fields@[i as int]),
                    forall|k: int| 0 <= k < order@.len() ==> #[trigger] order@[k] < i,
                    forall|k: int|
                        0 <= k < p ==> !key_lt(fields@[i as int], fields@[#[trigger] order@[k] as int]),
                ensures
                    p <= m,
                    p < m ==> key_lt(fields@[i as int], fields@[order@[p as int] as int]),
                    forall|k: int|
                        0 <= k < p ==> !key_lt(fields@[i as int], fields@[#[trigger] order@[k] as int]),
                decreases m - p,
            {
                let g = &fields[order[p]];
                let name_g = sort_name_exec(g);
                let custom_g = g.custom == Some(true);
                let lt = (!custom_i && custom_g) || (custom_i == custom_g && lex_lt_exec(&name_i, &name_g));
                if lt {
                    break;
                }
                p = p + 1;
            }
            let ghost old_order = order@;
            proof {
                assert forall|k: int| p <= k < old_order.len() implies key_lt(
                    fields@[i as int],
                    fields@[#[trigger] old_order[k] as int],
                ) by {
                    if k > p {
                        assert(sorted_before(fields@, old_order[p as int] as int, old_order[k] as int));
                        if !key_lt(fields@[old_order[p as int] as int], fields@[old_order[k] as int]) {
                            lemma_key_lt_below(
                                fields@[i as int],
                                fields@[old_order[p as int] as int],
                                fields@[old_order[k] as int],
                            );
                        } else {
                            lemma_key_lt_transitive(
                                fields@[i as int],
                                fields@[old_order[p as int] as int],
                                fields@[old_order[k] as int],
                            );
                        }
                    }
                }
            }
            order.insert(p, i);
            proof {
                assert forall|a: int, b: int| 0 <= a < b < order@.len() implies sorted_before(
                    fields@,
                    #[trigger] order@[a] as int,
                    #[trigger] order@[b] as int,
                ) by {
                    if b < p {
                        assert(order@[a] == old_order[a] && order@[b] == old_order[b]);
                    } else if b == p {
                        assert(order@[a] == old_order[a]);
                    } else if a < p {
                        assert(order@[a] == old_order[a] && order@[b] == old_order[b - 1]);
                    } else if a == p {
                        assert(order@[b] == old_order[b - 1]);
                    } else {
                        assert(order@[a] == old_order[a - 1] && order@[b] == old_order[b - 1]);
                    }
                }
                assert forall|j: int|
                    0 <= j < i + 1 && field_kept(fields@[j], custom_only, gq) implies exists|k: int|
                    0 <= k < order@.len() && #[trigger] order@[k] == j by {
                    if j == i {
                        assert(order@[p as int] == i);
                    } else {
                        let k = choose|k: int| 0 <= k < old_order.len() && #[trigger] old_order[k] == j;
                        if k < p {
                            assert(order@[k] == j);
                        } else {
                            assert(order@[k + 1] == j);
                        }
                    }
                }
                assert forall|k: int| 0 <= k < order@.len() implies field_kept(
                    fields@[#[trigger] order@[k] as int],
                    custom_only,
                    gq,
                ) by {
                    if k < p {
                        assert(order@[k] == old_order[k]);
                    } else if k > p {
                        assert(order@[k] == old_order[k - 1]);
                    }
                }
            }
        }
        i = i + 1;
    }
    order
}


/// `label` and the text, as a one-item list, when the text is present.
pub open spec fn part(label: Seq<char>, v: Option<String>) -> Seq<Seq<char>> {
    match v {
        Some(t) => seq![label + t@],
        None => Seq::<Seq<char>>::empty(),
    }
}

/// The parts of a field's schema line.
pub open spec fn schema_parts(sc: FieldSchema) -> Seq<Seq<char>> {
    part("type="@, sc.type_) + part("items="@, sc.items) + part("custom="@, sc.custom)
}

/// The schema line of a field, when its schema says anything.
pub open spec fn schema_line(s: Option<FieldSchema>) -> Seq<char> {
    match s {
        Some(sc) => {
            let p = schema_parts(sc);
            if p.len() > 0 {
                "    schema: "@ + join_seq(p, ", "@) + "\n"@
            } else {
                Seq::<char>::empty()
            }
        },
        None => Seq::<char>::empty(),
    }
}

/// The clause-name line of a field, when it has clause names.
pub open spec fn clause_line(c: Option<Vec<String>>) -> Seq<char> {
    match c {
        Some(cs) => if cs@.len() > 0 {
            "    clauseNames: "@ + join_seq(views(cs@), ", "@) + "\n"@
        } else {
            Seq::<char>::empty()
        },
        None => Seq::<char>::empty(),
    }
}

/// The first line of the entry of a field.
#[verifier::opaque]
pub open spec fn field_head(f: FieldBean) -> Seq<char> {
    "- "@ + str_or(opt_view(f.name), "?"@) + " (id: "@ + str_or(opt_view(f.id), "?"@)
        + ", custom: "@ + (if is_custom(f) {
        "yes"@
    } else {
        "no"@
    }) + ")\n"@
}

/// The entry of one field in the field listing.
pub open spec fn field_entry(f: FieldBean) -> Seq<char> {
    field_head(f) + schema_line(f.schema) + clause_line(f.clause_names)
}

/// The entries of the fields `fs`.
pub open spec fn field_entries(fs: Seq<FieldBean>) -> Seq<char>
    decreases fs.len(),
{
    if fs.len() == 0 {
        Seq::<char>::empty()
    } else {
        field_entries(fs.drop_last()) + field_entry(fs.last())
    }
}

/// The field listing of the fields `fs`.
pub open spec fn fields_listing(fs: Seq<FieldBean>) -> Seq<char> {
    if fs.len() == 0 {
        "No fields found.\n"@
    } else {
        "Fields ("@ + decimal(fs.len() as int) + "):\n\n"@ + field_entries(fs)
    }
}

/// The fields at the positions `order`, in that order.
pub open spec fn pick(fields: Seq<FieldBean>, order: Seq<usize>) -> Seq<FieldBean> {
    order.map_values(|k: usize| fields[k as int])
}

fn push_part(parts: &mut Vec<String>, label: &str, v: &Option<String>)
    ensures
        views(final(parts)@) == views(old(parts)@) + part(label@, *v),
{
    if let Some(t) = v {
        let mut x = label.to_owned();
        x.append(t.as_str());
        parts.push(x);
        assert(views(parts@) =~= views(old(parts)@) + part(label@, *v));
    } else {
        assert(views(parts@) =~= views(old(parts)@) + part(label@, *v));
    }
}

fn push_field_head(out: &mut String, f: &FieldBean)
    ensures
        final(out)@ == old(out)@ + field_head(*f),
{
    reveal(field_head);
    let ghost o = out@;
    let name: &str = match &f.name {
        Some(n) => n.as_str(),
        None => "?",
    };
    let id: &str = match &f.id {
        Some(n) => n.as_str(),
        None => "?",
    };
    out.append("- ");
    out.append(name);
    out.append(" (id: ");
    out.append(id);
    out.append(", custom: ");
    if f.custom == Some(true) {
        out.append("yes");
    } else {
        out.append("no");
    }
    out.append(")\n");
    assert(out@ =~= o + field_head(*f));
}

fn push_schema_line(out: &mut String, schema: &Option<FieldSchema>)
    ensures
        final(out)@ == old(out)@ + schema_line(*schema),
{
    if let Some(sc) = schema {
        let mut parts: Vec<String> = Vec::new();
        assert(views(parts@) =~= Seq::<Seq<char>>::empty());
        push_part(&mut parts, "type=", &sc.type_);
        push_part(&mut parts, "items=", &sc.items);
        push_part(&mut parts, "custom=", &sc.custom);
        assert(views(parts@) =~= schema_parts(*sc));
        if parts.len() > 0 {
            out.append("    schema: ");
            let j = join(&parts, ", ");
            out.append(j.as_str());
            out.append("\n");
        }
    }
}

fn push_clause_line(out: &mut String, clauses: &Option<Vec<String>>)
    ensures
        final(out)@ == old(out)@ + clause_line(*clauses),
{
    if let Some(cs) = clauses {
        if cs.len() > 0 {
            out.append("    clauseNames: ");
            let j = join(cs, ", ");
            out.append(j.as_str());
            out.append("\n");
        }
    }
}

fn push_field_entry(out: &mut String, f: &FieldBean)
    ensures
        final(out)@ == old(out)@ + field_entry(*f),
{
    let ghost o = out@;
    push_field_head(out, f);
    push_schema_line(out, &f.schema);
    push_clause_line(out, &f.clause_names);
    assert(out@ =~= o + field_entry(*f));
}

/// Formats the fields at the positions `order` of `fields`, in that order.
pub fn format_fields_text(fields: &Vec<FieldBean>, order: &Vec<usize>) -> (r: String)
    requires
        forall|k: int| 0 <= k < order@.len() ==> #[trigger] order@[k] < fields@.len(),
    ensures
        r@ == fields_listing(pick(fields@, order@)),
{
    let ghost fs = pick(fields@, order@);
    let n = order.len();
    if n == 0 {
        return "No fields found.\n".to_owned();
    }
    let mut out = "Fields (".to_owned();
    push_decimal_u64(&mut out, n as u64);
    out.append("):\n\n");
    let ghost start = out@;
    let mut i: usize = 0;
    assert(fs.take(0) =~= Seq::<FieldBean>::empty());
    while i < n
        invariant
            n == order@.len(),
            fs == pick(fields@, order@),
            forall|k: int| 0 <= k < order@.len() ==> #[trigger] order@[k] < fields@.len(),
            i <= n,
            out@ == start + field_entries(fs.take(i as int)),
        decreases n - i,
    {
        assert(fs.take(i + 1).drop_last() =~= fs.take(i as int));
        assert(fs.take(i + 1).last() == fields@[order@[i as int] as int]);
        push_field_entry(&mut out, &fields[order[i]]);
        i = i + 1;
    }
    assert(fs.take(n as int) =~= fs);
    out
}


/// The field listing names each kept field once; with `custom_only` it holds
/// custom fields only; system fields come before custom ones; and among
/// fields of one kind, names come in order.
pub proof fn law_field_listing_order(
    fields: Seq<FieldBean>,
    custom_only: bool,
    q: Option<Seq<char>>,
    order: Seq<usize>,
)
    requires
        is_field_selection(fields, custom_only, q, order),
    ensures
        forall|a: int, b: int| 0 <= a < b < order.len() ==> #[trigger] order[a] != #[trigger] order[b],
        custom_only ==> forall|k: int| 0 <= k < order.len() ==> is_custom(fields[#[trigger] order[k] as int]),
        forall|a: int, b: int|
            0 <= a < b < order.len() && is_custom(fields[#[trigger] order[a] as int]) ==> is_custom(
                fields[#[trigger] order[b] as int],
            ),
        forall|a: int, b: int|
            0 <= a < b < order.len() && is_custom(fields[#[trigger] order[a] as int]) == is_custom(
                fields[#[trigger] order[b] as int],
            ) ==> !lex_lt(sort_name(fields[order[b] as int]), sort_name(fields[order[a] as int])),
{
    assert forall|a: int, b: int| 0 <= a < b < order.len() implies #[trigger] order[a]
        != #[trigger] order[b] by {
        assert(sorted_before(fields, order[a] as int, order[b] as int));
        if order[a] == order[b] {
            lemma_key_lt_irreflexive(fields[order[a] as int]);
        }
    }
    assert forall|a: int, b: int|
        0 <= a < b < order.len() && is_custom(fields[#[trigger] order[a] as int]) == is_custom(
            fields[#[trigger] order[b] as int],
        ) implies !lex_lt(sort_name(fields[order[b] as int]), sort_name(fields[order[a] as int])) by {
        let x = sort_name(fields[order[a] as int]);
        let y = sort_name(fields[order[b] as int]);
        assert(sorted_before(fields, order[a] as int, order[b] as int));
        if lex_lt(y, x) {
            if lex_lt(x, y) {
                lemma_lex_transitive(x, y, x);
                lemma_lex_irreflexive(x);
            }
        }
    }
    assert forall|a: int, b: int|
        0 <= a < b < order.len() && is_custom(fields[#[trigger] order[a] as int]) implies is_custom(
        fields[#[trigger] order[b] as int],
    ) by {
        assert(sorted_before(fields, order[a] as int, order[b] as int));
    }
}

} // verus!
