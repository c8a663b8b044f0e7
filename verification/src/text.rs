use vstd::prelude::*;
use vstd::std_specs::iter::IteratorSpec;

verus! {

broadcast use vstd::string::group_string_axioms;

/// `String::push` appends one character.
pub assume_specification[ String::push ](s: &mut String, ch: char)
    ensures
        final(s)@ == old(s)@.push(ch),
;

/// The characters of `s`, in order.
pub fn chars_of(s: &str) -> (v: Vec<char>)
    ensures
        v@ == s@,
{
    let mut v: Vec<char> = Vec::new();
    let chars = s.chars();
    for c in it: chars
        invariant
            v@ == it.seq().take(it.index()),
            it.seq() == s@,
    {
        v.push(c);
    }
    v
}

/// Appends the characters `cs[from..to]` to `out`.
pub fn push_chars(out: &mut String, cs: &Vec<char>, from: usize, to: usize)
    requires
        from <= to <= cs@.len(),
    ensures
        final(out)@ == old(out)@ + cs@.subrange(from as int, to as int),
{
    let mut i = from;
    while i < to
        invariant
            from <= i <= to <= cs@.len(),
            out@ == old(out)@ + cs@.subrange(from as int, i as int),
        decreases to - i,
    {
        out.push(cs[i]);
        i = i + 1;
        assert(cs@.subrange(from as int, i as int) == cs@.subrange(from as int, i - 1).push(cs@[i - 1]));
    }
}

/// A string made of the characters `cs[from..to]`.
pub fn string_of(cs: &Vec<char>, from: usize, to: usize) -> (s: String)
    requires
        from <= to <= cs@.len(),
    ensures
        s@ == cs@.subrange(from as int, to as int),
{
    let mut s = String::new();
    push_chars(&mut s, cs, from, to);
    s
}

/// Whether two strings hold the same characters.
pub fn str_eq(a: &str, b: &str) -> (r: bool)
    ensures
        r == (a@ == b@),
{
    let x = chars_of(a);
    let y = chars_of(b);
    if x.len() != y.len() {
        return false;
    }
    let mut i: usize = 0;
    while i < x.len()
        invariant
            x@ == a@,
            y@ == b@,
            x@.len() == y@.len(),
            i <= x@.len(),
            forall|k: int| 0 <= k < i ==> x@[k] == y@[k],
        decreases x@.len() - i,
    {
        if x[i] != y[i] {
            return false;
        }
        i = i + 1;
    }
    assert(x@ =~= y@);
    true
}

/// The `White_Space` property of Unicode, which `char::is_whitespace` tests.
pub open spec fn is_white_space(c: char) -> bool {
    let u = c as u32;
    ||| 0x09 <= u <= 0x0d
    ||| u == 0x20
    ||| u == 0x85
    ||| u == 0xa0
    ||| u == 0x1680
    ||| 0x2000 <= u <= 0x200a
    ||| u == 0x2028
    ||| u == 0x2029
    ||| u == 0x202f
    ||| u == 0x205f
    ||| u == 0x3000
}

/// `char::is_whitespace`.
pub fn is_whitespace(c: char) -> (r: bool)
    ensures
        r == is_white_space(c),
{
    let u = c as u32;
    (0x09 <= u && u <= 0x0d) || u == 0x20 || u == 0x85 || u == 0xa0 || u == 0x1680 || (0x2000 <= u
        && u <= 0x200a) || u == 0x2028 || u == 0x2029 || u == 0x202f || u == 0x205f || u == 0x3000
}

/// `s` without its leading white space.
pub open spec fn trim_start_seq(s: Seq<char>) -> Seq<char>
    decreases s.len(),
{
    if s.len() > 0 && is_white_space(s[0]) {
        trim_start_seq(s.drop_first())
    } else {
        s
    }
}

/// `s` without its trailing white space.
pub open spec fn trim_end_seq(s: Seq<char>) -> Seq<char>
    decreases s.len(),
{
    if s.len() > 0 && is_white_space(s.last()) {
        trim_end_seq(s.drop_last())
    } else {
        s
    }
}

/// `s` without leading and trailing white space, as `str::trim` gives it.
pub open spec fn trim_seq(s: Seq<char>) -> Seq<char> {
    trim_end_seq(trim_start_seq(s))
}

proof fn lemma_trim_start_skip(s: Seq<char>, i: int)
    requires
        0 <= i <= s.len(),
        forall|k: int| 0 <= k < i ==> is_white_space(#[trigger] s[k]),
    ensures
        trim_start_seq(s) == trim_start_seq(s.subrange(i, s.len() as int)),
    decreases i,
{
    if i > 0 {
        assert(s.drop_first().subrange(i - 1, s.drop_first().len() as int) =~= s.subrange(
            i,
            s.len() as int,
        ));
        lemma_trim_start_skip(s.drop_first(), i - 1);
    } else {
        assert(s.subrange(0, s.len() as int) =~= s);
    }
}

proof fn lemma_trim_end_skip(s: Seq<char>, j: int)
    requires
        0 <= j <= s.len(),
        forall|k: int| j <= k < s.len() ==> is_white_space(#[trigger] s[k]),
    ensures
        trim_end_seq(s) == trim_end_seq(s.subrange(0, j)),
    decreases s.len() - j,
{
    if j < s.len() {
        assert(s.drop_last().subrange(0, j) =~= s.subrange(0, j));
        lemma_trim_end_skip(s.drop_last(), j);
    } else {
        assert(s.subrange(0, j) =~= s);
    }
}

/// The characters of `cs` without leading and trailing white space.
pub fn trim_chars(cs: &Vec<char>) -> (r: String)
    ensures
        r@ == trim_seq(cs@),
{
    let n = cs.len();
    let mut i: usize = 0;
    while i < n && is_whitespace(cs[i])
        invariant
            n == cs@.len(),
            i <= n,
            forall|k: int| 0 <= k < i ==> is_white_space(#[trigger] cs@[k]),
        decreases n - i,
    {
        i = i + 1;
    }
    proof {
        lemma_trim_start_skip(cs@, i as int);
    }
    let ghost t = cs@.subrange(i as int, n as int);
    assert(trim_start_seq(t) == t);
    let mut j: usize = n;
    while j > i && is_whitespace(cs[j - 1])
        invariant
            n == cs@.len(),
            i <= j <= n,
            t == cs@.subrange(i as int, n as int),
            forall|k: int| j - i <= k < t.len() ==> is_white_space(#[trigger] t[k]),
        decreases j,
    {
        j = j - 1;
    }
    proof {
        lemma_trim_end_skip(t, j - i);
        assert(t.subrange(0, j - i) =~= cs@.subrange(i as int, j as int));
    }
    string_of(cs, i, j)
}

/// `str::trim`: `s` without leading and trailing white space.
pub fn trim(s: &str) -> (r: String)
    ensures
        r@ == trim_seq(s@),
{
    let cs = chars_of(s);
    trim_chars(&cs)
}


/// The pieces of `s` between the occurrences of `sep`, as `str::split` yields
/// them: there is always at least one piece, and pieces may be empty.
pub open spec fn split_seq(s: Seq<char>, sep: char) -> Seq<Seq<char>>
    decreases s.len(),
{
    if s.len() == 0 {
        seq![Seq::<char>::empty()]
    } else {
        let p = split_seq(s.drop_last(), sep);
        if s.last() == sep {
            p.push(Seq::<char>::empty())
        } else {
            p.update(p.len() - 1, p.last().push(s.last()))
        }
    }
}

proof fn lemma_split_nonempty(s: Seq<char>, sep: char)
    ensures
        split_seq(s, sep).len() >= 1,
    decreases s.len(),
{
    if s.len() > 0 {
        lemma_split_nonempty(s.drop_last(), sep);
    }
}

/// The views of a sequence of strings.
pub open spec fn views(v: Seq<String>) -> Seq<Seq<char>> {
    v.map_values(|x: String| x@)
}

/// `str::split` on one character.
pub fn split(s: &str, sep: char) -> (r: Vec<String>)
    ensures
        views(r@) == split_seq(s@, sep),
{
    let cs = chars_of(s);
    let n = cs.len();
    let mut pieces: Vec<String> = Vec::new();
    let mut start: usize = 0;
    let mut i: usize = 0;
    assert(cs@.subrange(0, 0) =~= Seq::<char>::empty());
    assert(views(pieces@) =~= Seq::<Seq<char>>::empty());
    assert(views(pieces@).push(cs@.subrange(0, 0)) =~= split_seq(cs@.subrange(0, 0), sep));
    while i < n
        invariant
            n == cs@.len(),
            cs@ == s@,
            start <= i <= n,
            views(pieces@).push(cs@.subrange(start as int, i as int)) == split_seq(
                cs@.subrange(0, i as int),
                sep,
            ),
        decreases n - i,
    {
        let ghost pre = cs@.subrange(0, i as int);
        let ghost before = views(pieces@);
        assert(cs@.subrange(0, i + 1).drop_last() =~= pre);
        assert(cs@.subrange(0, i + 1).last() == cs@[i as int]);
        if cs[i] == sep {
            let piece = string_of(&cs, start, i);
            pieces.push(piece);
            assert(views(pieces@) =~= before.push(piece@));
            start = i + 1;
            assert(cs@.subrange(start as int, i + 1) =~= Seq::<char>::empty());
        } else {
            assert(cs@.subrange(start as int, i + 1) =~= cs@.subrange(start as int, i as int).push(
                cs@[i as int],
            ));
            assert(before.push(cs@.subrange(start as int, i + 1)) =~= before.push(
                cs@.subrange(start as int, i as int),
            ).update(before.len() as int, cs@.subrange(start as int, i as int).push(cs@[i as int])));
        }
        i = i + 1;
    }
    let last = string_of(&cs, start, n);
    pieces.push(last);
    assert(cs@.subrange(0, n as int) =~= cs@);
    pieces
}


/// `parts` joined with `sep` between each two of them, as `[T]::join` gives it.
pub open spec fn join_seq(parts: Seq<Seq<char>>, sep: Seq<char>) -> Seq<char>
    decreases parts.len(),
{
    if parts.len() == 0 {
        Seq::<char>::empty()
    } else if parts.len() == 1 {
        parts[0]
    } else {
        join_seq(parts.drop_last(), sep) + sep + parts.last()
    }
}

/// `[String]::join`.
pub fn join(parts: &Vec<String>, sep: &str) -> (r: String)
    ensures
        r@ == join_seq(views(parts@), sep@),
{
    let mut r = String::new();
    let n = parts.len();
    let mut i: usize = 0;
    while i < n
        invariant
            n == parts@.len(),
            i <= n,
            r@ == join_seq(views(parts@).take(i as int), sep@),
        decreases n - i,
    {
        let ghost before = r@;
        assert(views(parts@).take(i + 1).drop_last() =~= views(parts@).take(i as int));
        if i > 0 {
            r.append(sep);
        }
        r.append(parts[i].as_str());
        i = i + 1;
        proof {
            if i == 1 {
                assert(views(parts@).take(1) =~= seq![parts@[0]@]);
            }
        }
    }
    assert(views(parts@).take(n as int) =~= views(parts@));
    r
}

/// Whether `needle` occurs in `hay` at position `i`.
pub open spec fn occurs_at(hay: Seq<char>, needle: Seq<char>, i: int) -> bool {
    0 <= i && i + needle.len() <= hay.len() && hay.subrange(i, i + needle.len()) == needle
}

/// Whether `needle` occurs anywhere in `hay`, as `str::contains` tests it.
pub open spec fn contains_seq(hay: Seq<char>, needle: Seq<char>) -> bool {
    exists|i: int| occurs_at(hay, needle, i)
}

fn occurs_at_exec(hay: &Vec<char>, needle: &Vec<char>, i: usize) -> (r: bool)
    requires
        i + needle@.len() <= hay@.len(),
    ensures
        r == occurs_at(hay@, needle@, i as int),
{
    let m = needle.len();
    let hl = hay.len();
    let mut k: usize = 0;
    while k < m
        invariant
            m == needle@.len(),
            hl == hay@.len(),
            i + m <= hay@.len(),
            k <= m,
            forall|j: int| 0 <= j < k ==> hay@[i + j] == needle@[j],
        decreases m - k,
    {
        if hay[i + k] != needle[k] {
            assert(hay@.subrange(i as int, i + m)[k as int] != needle@[k as int]);
            return false;
        }
        k = k + 1;
    }
    assert(hay@.subrange(i as int, i + m) =~= needle@);
    true
}

/// `str::contains` with a string pattern.
pub fn str_contains(hay: &str, needle: &str) -> (r: bool)
    ensures
        r == contains_seq(hay@, needle@),
{
    let h = chars_of(hay);
    let nd = chars_of(needle);
    if nd.len() > h.len() {
        return false;
    }
    let last = h.len() - nd.len();
    let mut i: usize = 0;
    loop
        invariant
            h@ == hay@,
            nd@ == needle@,
            last == h@.len() - nd@.len(),
            i <= last,
            forall|j: int| 0 <= j < i ==> !occurs_at(h@, nd@, j),
        decreases last - i,
    {
        if occurs_at_exec(&h, &nd, i) {
            return true;
        }
        if i == last {
            assert forall|j: int| occurs_at(h@, nd@, j) implies false by {
                assert(j <= last);
            }
            return false;
        }
        i = i + 1;
    }
}

/// The first position at or after `i` where `pat` occurs in `s`.
pub open spec fn find_from(s: Seq<char>, pat: Seq<char>, i: int) -> Option<int>
    decreases s.len() + 1 - i,
{
    if i < 0 || i + pat.len() > s.len() {
        None
    } else if s.subrange(i, i + pat.len()) == pat {
        Some(i)
    } else {
        find_from(s, pat, i + 1)
    }
}

/// `s` with its first occurrence of `pat` replaced by `rep`, as
/// `str::replacen(pat, rep, 1)` gives it.
pub open spec fn replace_first_seq(s: Seq<char>, pat: Seq<char>, rep: Seq<char>) -> Seq<char> {
    match find_from(s, pat, 0) {
        Some(i) => s.subrange(0, i) + rep + s.subrange(i + pat.len(), s.len() as int),
        None => s,
    }
}

/// `str::replacen(pat, rep, 1)`.
pub fn replace_first(s: &str, pat: &str, rep: &str) -> (r: String)
    ensures
        r@ == replace_first_seq(s@, pat@, rep@),
{
    let h = chars_of(s);
    let p = chars_of(pat);
    if p.len() > h.len() {
        return string_of(&h, 0, h.len());
    }
    let hl = h.len();
    let last = hl - p.len();
    let mut i: usize = 0;
    loop
        invariant
            h@ == s@,
            p@ == pat@,
            hl == h@.len(),
            last == h@.len() - p@.len(),
            i <= last,
            find_from(h@, p@, 0) == find_from(h@, p@, i as int),
        decreases last - i,
    {
        if occurs_at_exec(&h, &p, i) {
            let mut r = string_of(&h, 0, i);
            r.append(rep);
            push_chars(&mut r, &h, i + p.len(), hl);
            return r;
        }
        if i == last {
            assert(find_from(h@, p@, i + 1) is None);
            assert(h@.subrange(0, h@.len() as int) =~= h@);
            return string_of(&h, 0, hl);
        }
        i = i + 1;
    }
}

/// The lower-case form of `s` under Unicode's case mapping, as
/// `str::to_lowercase` computes it.
pub uninterp spec fn lowercase(s: Seq<char>) -> Seq<char>;

/// Calls `str::to_lowercase`; the result is named `lowercase` of the input's
/// characters, which depends on them alone.
#[verifier::external_body]
pub(crate) fn to_lowercase(s: &str) -> (r: String)
    ensures
        r@ == lowercase(s@),
{
    s.to_lowercase()
}

/// The decimal digit character for `d < 10`.
pub open spec fn digit_char(d: int) -> char {
    (48 + d) as char
}

/// The decimal digits of `n`, without leading zeros.
pub open spec fn decimal_nat(n: nat) -> Seq<char>
    decreases n,
{
    if n < 10 {
        seq![digit_char(n as int)]
    } else {
        decimal_nat(n / 10).push(digit_char((n % 10) as int))
    }
}

/// The decimal form of `n`, as `Display` prints an integer.
pub open spec fn decimal(n: int) -> Seq<char> {
    if n < 0 {
        seq!['-'] + decimal_nat((-n) as nat)
    } else {
        decimal_nat(n as nat)
    }
}

fn digit(d: u64) -> (c: char)
    requires
        d < 10,
    ensures
        c == digit_char(d as int),
{
    let b: u8 = 48u8 + (d as u8);
    b as char
}

/// Appends the decimal digits of `n` to `out`.
pub fn push_decimal_u64(out: &mut String, n: u64)
    ensures
        final(out)@ == old(out)@ + decimal_nat(n as nat),
    decreases n,
{
    if n >= 10 {
        push_decimal_u64(out, n / 10);
    }
    out.push(digit(n % 10));
}

/// Appends the decimal form of `n` to `out`.
pub fn push_decimal_i64(out: &mut String, n: i64)
    ensures
        final(out)@ == old(out)@ + decimal(n as int),
{
    if n < 0 {
        out.push('-');
        let m: u64 = if n == i64::MIN {
            9223372036854775808u64
        } else {
            (-n) as u64
        };
        push_decimal_u64(out, m);
    } else {
        push_decimal_u64(out, n as u64);
    }
}

/// `i64::to_string`.
pub fn fmt_i64(n: i64) -> (r: String)
    ensures
        r@ == decimal(n as int),
{
    let mut r = String::new();
    push_decimal_i64(&mut r, n);
    r
}

/// `u64::to_string`.
pub fn fmt_u64(n: u64) -> (r: String)
    ensures
        r@ == decimal(n as int),
{
    let mut r = String::new();
    push_decimal_u64(&mut r, n);
    r
}


/// An ASCII decimal digit.
pub open spec fn is_digit(c: char) -> bool {
    48 <= (c as u32) <= 57
}

/// The value of a sequence of decimal digits.
pub open spec fn digits_value(s: Seq<char>) -> int
    decreases s.len(),
{
    if s.len() == 0 {
        0
    } else {
        digits_value(s.drop_last()) * 10 + ((s.last() as u32) - 48)
    }
}

/// Whether every character of `s` is a decimal digit.
pub open spec fn all_digits(s: Seq<char>) -> bool {
    forall|k: int| 0 <= k < s.len() ==> is_digit(#[trigger] s[k])
}

/// The integer that `s` writes, as `i64::from_str` reads it: an optional `+`
/// or `-`, then one or more decimal digits, with a value that fits in `i64`.
pub open spec fn parse_i64_seq(s: Seq<char>) -> Option<int> {
    let signed = s.len() > 0 && (s[0] == '-' || s[0] == '+');
    let body = if signed {
        s.drop_first()
    } else {
        s
    };
    if body.len() > 0 && all_digits(body) {
        let v = if s.len() > 0 && s[0] == '-' {
            -digits_value(body)
        } else {
            digits_value(body)
        };
        if i64::MIN <= v <= i64::MAX {
            Some(v)
        } else {
            None
        }
    } else {
        None
    }
}

proof fn lemma_digits_value_nonneg(s: Seq<char>)
    requires
        all_digits(s),
    ensures
        digits_value(s) >= 0,
    decreases s.len(),
{
    if s.len() > 0 {
        assert(is_digit(s[s.len() - 1]));
        lemma_digits_value_nonneg(s.drop_last());
    }
}

proof fn lemma_digits_value_grows(s: Seq<char>, i: int, j: int)
    requires
        all_digits(s),
        0 <= i <= j <= s.len(),
    ensures
        digits_value(s.take(i)) <= digits_value(s.take(j)),
    decreases j - i,
{
    if i < j {
        lemma_digits_value_grows(s, i, j - 1);
        assert(s.take(j).drop_last() =~= s.take(j - 1));
        assert(is_digit(s[j - 1]));
        assert(all_digits(s.take(j - 1)));
        lemma_digits_value_nonneg(s.take(j - 1));
    }
}

/// `i64::from_str`.
pub fn parse_i64(s: &str) -> (r: Option<i64>)
    ensures
        match r {
            Some(v) => parse_i64_seq(s@) == Some(v as int),
            None => parse_i64_seq(s@) is None,
        },
{
    let cs = chars_of(s);
    let n = cs.len();
    let mut start: usize = 0;
    let mut negative = false;
    if n > 0 && (cs[0] == '-' || cs[0] == '+') {
        negative = cs[0] == '-';
        start = 1;
    }
    let ghost body = cs@.subrange(start as int, n as int);
    assert(body =~= if start == 1 { cs@.drop_first() } else { cs@ });
    if start >= n {
        return None;
    }
    let mut acc: u64 = 0;
    let mut big = false;
    let mut i: usize = start;
    while i < n
        invariant
            n == cs@.len(),
            cs@ == s@,
            start <= i <= n,
            start == 1 <==> (n > 0 && (cs@[0] == '-' || cs@[0] == '+')),
            start == 0 || start == 1,
            negative == (n > 0 && cs@[0] == '-'),
            body == cs@.subrange(start as int, n as int),
            all_digits(body.take(i - start)),
            !big ==> acc == digits_value(body.take(i - start)),
            big ==> digits_value(body.take(i - start)) > 18446744073709551609,
        decreases n - i,
    {
        let c = cs[i];
        let ghost pre = body.take(i - start);
        assert(body.take(i + 1 - start).drop_last() =~= pre);
        assert(body.take(i + 1 - start).last() == c);
        let u = c as u32;
        if !(u >= 48 && u <= 57) {
            assert(!all_digits(body)) by {
                assert(body[i - start] == c);
            }
            return None;
        }
        let d = (u - 48) as u64;
        assert(all_digits(body.take(i + 1 - start))) by {
            assert forall|k: int| 0 <= k < i + 1 - start implies is_digit(
                #[trigger] body.take(i + 1 - start)[k],
            ) by {
                if k < i - start {
                    assert(body.take(i + 1 - start)[k] == pre[k]);
                }
            }
        }
        if !big {
            if acc > 1844674407370955160u64 {
                big = true;
            } else {
                acc = acc * 10 + d;
            }
        } else {
            proof {
                lemma_digits_value_nonneg(pre);
            }
        }
        i = i + 1;
    }
    assert(body.take(n - start) =~= body);
    if big {
        return None;
    }
    if negative {
        if acc > 9223372036854775808u64 {
            None
        } else if acc == 9223372036854775808u64 {
            Some(i64::MIN)
        } else {
            Some(-(acc as i64))
        }
    } else {
        if acc > 9223372036854775807u64 {
            None
        } else {
            Some(acc as i64)
        }
    }
}

proof fn lemma_decimal_nat_digits(n: nat)
    ensures
        all_digits(decimal_nat(n)),
        digits_value(decimal_nat(n)) == n,
        decimal_nat(n).len() > 0,
    decreases n,
{
    if n < 10 {
        assert(decimal_nat(n).drop_last() =~= Seq::<char>::empty());
        assert(digits_value(Seq::<char>::empty()) == 0);
        assert((digit_char(n as int) as u32) == 48 + n);
        assert(decimal_nat(n).last() == digit_char(n as int));
        assert(digits_value(decimal_nat(n)) == n);
    } else {
        lemma_decimal_nat_digits(n / 10);
        let t = decimal_nat(n);
        assert(t.drop_last() =~= decimal_nat(n / 10));
        assert((digit_char((n % 10) as int) as u32) == 48 + n % 10);
        assert(t.last() == digit_char((n % 10) as int));
        assert(digits_value(t) == digits_value(t.drop_last()) * 10 + ((t.last() as u32) - 48));
        assert(digits_value(t) == (n / 10) * 10 + n % 10);
        assert forall|k: int| 0 <= k < t.len() implies is_digit(#[trigger] t[k]) by {
            if k < t.len() - 1 {
                assert(t[k] == decimal_nat(n / 10)[k]);
            }
        }
    }
}

/// Reading back the decimal form of an `i64` gives the same integer: what
/// `fmt_i64` writes, `parse_i64` reads.
pub proof fn law_decimal_round_trip(n: i64)
    ensures
        parse_i64_seq(decimal(n as int)) == Some(n as int),
{
    if n < 0 {
        let m = (-n) as nat;
        lemma_decimal_nat_digits(m);
        let s = decimal(n as int);
        assert(s.drop_first() =~= decimal_nat(m));
        assert(s[0] == '-');
    } else {
        lemma_decimal_nat_digits(n as nat);
        let s = decimal_nat(n as nat);
        assert(is_digit(s[0]));
    }
}


/// The characters of an optional string.
pub open spec fn opt_view(o: Option<String>) -> Option<Seq<char>> {
    match o {
        Some(s) => Some(s@),
        None => None,
    }
}

/// The characters of an optional borrowed string.
pub open spec fn ref_view(o: Option<&String>) -> Option<Seq<char>> {
    match o {
        Some(s) => Some(s@),
        None => None,
    }
}

/// `label`, the text and a line break, when the text is present.
pub open spec fn line_some(label: Seq<char>, v: Option<Seq<char>>) -> Seq<char> {
    match v {
        Some(s) => label + s + "\n"@,
        None => Seq::<char>::empty(),
    }
}

/// `label`, the text and a line break, when the text is present and not empty.
pub open spec fn line_nonempty(label: Seq<char>, v: Option<Seq<char>>) -> Seq<char> {
    match v {
        Some(s) => if s.len() > 0 {
            label + s + "\n"@
        } else {
            Seq::<char>::empty()
        },
        None => Seq::<char>::empty(),
    }
}

/// Appends `line_some(label, v)` to `out`.
pub fn push_line_some(out: &mut String, label: &str, v: Option<&String>)
    ensures
        final(out)@ == old(out)@ + line_some(label@, ref_view(v)),
{
    if let Some(s) = v {
        out.append(label);
        out.append(s.as_str());
        out.append("\n");
    }
}

/// Appends `line_nonempty(label, v)` to `out`.
pub fn push_line_nonempty(out: &mut String, label: &str, v: Option<&String>)
    ensures
        final(out)@ == old(out)@ + line_nonempty(label@, ref_view(v)),
{
    if let Some(s) = v {
        if !s.as_str().is_empty() {
            out.append(label);
            out.append(s.as_str());
            out.append("\n");
        }
    }
}

/// The borrowed contents of an optional string.
pub fn opt_ref(o: &Option<String>) -> (r: Option<&String>)
    ensures
        ref_view(r) == opt_view(*o),
{
    match o {
        Some(s) => Some(s),
        None => None,
    }
}


/// The pieces trimmed, with the blank ones left out.
pub open spec fn nonblank(pieces: Seq<Seq<char>>) -> Seq<Seq<char>>
    decreases pieces.len(),
{
    if pieces.len() == 0 {
        Seq::<Seq<char>>::empty()
    } else {
        let p = nonblank(pieces.drop_last());
        let t = trim_seq(pieces.last());
        if t.len() > 0 {
            p.push(t)
        } else {
            p
        }
    }
}

/// The pieces trimmed.
pub open spec fn trimmed_all(pieces: Seq<Seq<char>>) -> Seq<Seq<char>>
    decreases pieces.len(),
{
    if pieces.len() == 0 {
        Seq::<Seq<char>>::empty()
    } else {
        trimmed_all(pieces.drop_last()).push(trim_seq(pieces.last()))
    }
}

/// The items of a comma-separated list: each trimmed, blank ones left out.
pub open spec fn comma_items(s: Seq<char>) -> Seq<Seq<char>> {
    nonblank(split_seq(s, ','))
}

/// The items of a comma-separated list, each trimmed, blank ones kept.
pub open spec fn comma_pieces(s: Seq<char>) -> Seq<Seq<char>> {
    trimmed_all(split_seq(s, ','))
}

/// The items of a comma-separated list, each trimmed, blank ones left out.
pub fn comma_list(s: &str) -> (r: Vec<String>)
    ensures
        views(r@) == comma_items(s@),
{
    let pieces = split(s, ',');
    let n = pieces.len();
    let mut r: Vec<String> = Vec::new();
    let mut i: usize = 0;
    assert(views(pieces@).take(0) =~= Seq::<Seq<char>>::empty());
    assert(views(r@) =~= Seq::<Seq<char>>::empty());
    while i < n
        invariant
            n == pieces@.len(),
            i <= n,
            views(r@) == nonblank(views(pieces@).take(i as int)),
        decreases n - i,
    {
        assert(views(pieces@).take(i + 1).drop_last() =~= views(pieces@).take(i as int));
        assert(views(pieces@).take(i + 1).last() == pieces@[i as int]@);
        let t = trim(pieces[i].as_str());
        if !t.as_str().is_empty() {
            let ghost before = views(r@);
            r.push(t);
            assert(views(r@) =~= before.push(t@));
        }
        i = i + 1;
    }
    assert(views(pieces@).take(n as int) =~= views(pieces@));
    r
}

/// The items of a comma-separated list, each trimmed, blank ones kept.
pub fn comma_split_trimmed(s: &str) -> (r: Vec<String>)
    ensures
        views(r@) == comma_pieces(s@),
{
    let pieces = split(s, ',');
    let n = pieces.len();
    let mut r: Vec<String> = Vec::new();
    let mut i: usize = 0;
    assert(views(pieces@).take(0) =~= Seq::<Seq<char>>::empty());
    assert(views(r@) =~= Seq::<Seq<char>>::empty());
    while i < n
        invariant
            n == pieces@.len(),
            i <= n,
            views(r@) == trimmed_all(views(pieces@).take(i as int)),
        decreases n - i,
    {
        assert(views(pieces@).take(i + 1).drop_last() =~= views(pieces@).take(i as int));
        assert(views(pieces@).take(i + 1).last() == pieces@[i as int]@);
        let t = trim(pieces[i].as_str());
        let ghost before = views(r@);
        r.push(t);
        assert(views(r@) =~= before.push(t@));
        i = i + 1;
    }
    assert(views(pieces@).take(n as int) =~= views(pieces@));
    r
}


proof fn lemma_decimal_nat_no_space(n: nat)
    ensures
        forall|k: int| 0 <= k < decimal_nat(n).len() ==> !is_white_space(#[trigger] decimal_nat(n)[k]),
    decreases n,
{
    lemma_decimal_nat_digits(n);
    assert forall|k: int| 0 <= k < decimal_nat(n).len() implies !is_white_space(
        #[trigger] decimal_nat(n)[k],
    ) by {
        assert(is_digit(decimal_nat(n)[k]));
    }
}

/// The decimal form of an integer has no surrounding white space.
pub proof fn lemma_decimal_trimmed(n: int)
    ensures
        trim_seq(decimal(n)) == decimal(n),
{
    let s = decimal(n);
    lemma_decimal_nat_no_space(if n < 0 {
        (-n) as nat
    } else {
        n as nat
    });
    lemma_decimal_nat_digits(if n < 0 {
        (-n) as nat
    } else {
        n as nat
    });
    assert(s.len() > 0);
    assert(!is_white_space(s[0]));
    assert(trim_start_seq(s) == s);
    assert(!is_white_space(s.last()));
    assert(trim_end_seq(s) == s);
}


proof fn lemma_trim_start_shape(s: Seq<char>)
    ensures
        trim_start_seq(s).len() > 0 ==> !is_white_space(trim_start_seq(s)[0]),
    decreases s.len(),
{
    if s.len() > 0 && is_white_space(s[0]) {
        lemma_trim_start_shape(s.drop_first());
    }
}

proof fn lemma_trim_end_shape(s: Seq<char>)
    ensures
        trim_end_seq(s).len() <= s.len(),
        trim_end_seq(s) == s.subrange(0, trim_end_seq(s).len() as int),
        trim_end_seq(s).len() > 0 ==> !is_white_space(trim_end_seq(s).last()),
    decreases s.len(),
{
    if s.len() > 0 && is_white_space(s.last()) {
        lemma_trim_end_shape(s.drop_last());
        assert(s.drop_last().subrange(0, trim_end_seq(s).len() as int) =~= s.subrange(
            0,
            trim_end_seq(s).len() as int,
        ));
    } else {
        assert(s.subrange(0, s.len() as int) =~= s);
    }
}

/// What `str::trim` leaves neither starts nor ends with white space.
pub proof fn law_trimmed_has_no_surrounding_space(s: Seq<char>)
    ensures
        trim_seq(s).len() > 0 ==> !is_white_space(trim_seq(s)[0]) && !is_white_space(
            trim_seq(s).last(),
        ),
{
    let t = trim_start_seq(s);
    lemma_trim_start_shape(s);
    lemma_trim_end_shape(t);
    if trim_seq(s).len() > 0 {
        assert(trim_seq(s)[0] == t[0]);
    }
}

/// The items of a comma-separated list are trimmed and not empty.
pub proof fn law_comma_items_are_trimmed(s: Seq<char>)
    ensures
        forall|k: int|
            0 <= k < comma_items(s).len() ==> #[trigger] comma_items(s)[k].len() > 0
                && trim_seq(comma_items(s)[k]) == comma_items(s)[k],
{
    lemma_nonblank_items(split_seq(s, ','));
}

proof fn lemma_trim_idempotent(s: Seq<char>)
    ensures
        trim_seq(trim_seq(s)) == trim_seq(s),
{
    let t = trim_seq(s);
    law_trimmed_has_no_surrounding_space(s);
    if t.len() > 0 {
        assert(trim_start_seq(t) == t);
        assert(trim_end_seq(t) == t);
    } else {
        assert(trim_start_seq(t) == t);
    }
}

proof fn lemma_nonblank_items(pieces: Seq<Seq<char>>)
    ensures
        forall|k: int|
            0 <= k < nonblank(pieces).len() ==> #[trigger] nonblank(pieces)[k].len() > 0
                && trim_seq(nonblank(pieces)[k]) == nonblank(pieces)[k],
    decreases pieces.len(),
{
    if pieces.len() > 0 {
        lemma_nonblank_items(pieces.drop_last());
        lemma_trim_idempotent(pieces.last());
        let p = nonblank(pieces.drop_last());
        let r = nonblank(pieces);
        assert forall|k: int| 0 <= k < r.len() implies #[trigger] r[k].len() > 0 && trim_seq(r[k])
            == r[k] by {
            if k < p.len() {
                assert(r[k] == p[k]);
            }
        }
    }
}

} // verus!
