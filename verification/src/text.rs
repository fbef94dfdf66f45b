//! Character-level string helpers with exact specifications over `Seq<char>`.
use vstd::prelude::*;
use vstd::string::*;

verus! {

/// The views of a sequence of strings.
pub open spec fn texts(v: Seq<String>) -> Seq<Seq<char>> {
    v.map_values(|s: String| s@)
}

/// ASCII lower-casing of one character; every other character is kept.
pub open spec fn lower_char(c: char) -> char {
    if 65 <= (c as u32) && (c as u32) <= 90 {
        ((c as u32) + 32) as char
    } else {
        c
    }
}

/// ASCII lower-casing of a whole string.
pub open spec fn ascii_lower(s: Seq<char>) -> Seq<char> {
    s.map_values(|c: char| lower_char(c))
}

/// `prefix` is a prefix of `s`.
pub open spec fn has_prefix(s: Seq<char>, prefix: Seq<char>) -> bool {
    prefix.len() <= s.len() && s.subrange(0, prefix.len() as int) == prefix
}

/// `s` without `prefix` when it starts with it, `s` itself otherwise.
pub open spec fn without_prefix(s: Seq<char>, prefix: Seq<char>) -> Seq<char> {
    if has_prefix(s, prefix) {
        s.skip(prefix.len() as int)
    } else {
        s
    }
}

/// The strings of `parts` joined with `sep` between each two neighbours.
pub open spec fn joined(parts: Seq<Seq<char>>, sep: Seq<char>) -> Seq<char>
    decreases parts.len(),
{
    if parts.len() == 0 {
        Seq::empty()
    } else if parts.len() == 1 {
        parts[0]
    } else {
        joined(parts.drop_last(), sep) + sep + parts.last()
    }
}

/// Appends one character to a string (std's `String::push`).
#[verifier::external_body]
fn push_char(s: &mut String, c: char)
    ensures
        final(s)@ == old(s)@.push(c),
{
    s.push(c);
}

/// Character-wise equality of two strings.
pub fn same_text(a: &str, b: &str) -> (r: bool)
    ensures
        r == (a@ == b@),
{
    let n = a.unicode_len();
    let m = b.unicode_len();
    if n != m {
        return false;
    }
    let mut i: usize = 0;
    while i < n
        invariant
            n == a@.len(),
            m == b@.len(),
            n == m,
            i <= n,
            forall|j: int| 0 <= j < i ==> a@[j] == b@[j],
        decreases n - i,
    {
        if a.get_char(i) != b.get_char(i) {
            return false;
        }
        i = i + 1;
    }
    assert(a@ =~= b@);
    true
}

/// Whether `s` starts with `prefix`.
pub fn starts_with(s: &str, prefix: &str) -> (r: bool)
    ensures
        r == has_prefix(s@, prefix@),
{
    let n = s.unicode_len();
    let m = prefix.unicode_len();
    if m > n {
        return false;
    }
    let mut i: usize = 0;
    while i < m
        invariant
            n == s@.len(),
            m == prefix@.len(),
            m <= n,
            i <= m,
            forall|j: int| 0 <= j < i ==> s@[j] == prefix@[j],
        decreases m - i,
    {
        if s.get_char(i) != prefix.get_char(i) {
            assert(s@.subrange(0, m as int)[i as int] != prefix@[i as int]);
            return false;
        }
        i = i + 1;
    }
    assert(s@.subrange(0, m as int) =~= prefix@);
    true
}

/// `s` with `prefix` removed from its front when it is there (std's `strip_prefix`
/// followed by `unwrap_or(s)`).
pub fn strip_prefix_or_keep<'a>(s: &'a str, prefix: &str) -> (r: &'a str)
    ensures
        r@ == without_prefix(s@, prefix@),
{
    if starts_with(s, prefix) {
        let n = s.unicode_len();
        let m = prefix.unicode_len();
        s.substring_char(m, n)
    } else {
        s
    }
}

/// The ASCII lower-case form of one character.
pub fn to_lower_char(c: char) -> (r: char)
    ensures
        r == lower_char(c),
{
    let n = c as u32;
    if 65 <= n && n <= 90 {
        let b = (n + 32) as u8;
        b as char
    } else {
        c
    }
}

/// The ASCII lower-case form of a string (std's `str::to_ascii_lowercase`).
pub fn to_ascii_lowercase(s: &str) -> (r: String)
    ensures
        r@ == ascii_lower(s@),
{
    let n = s.unicode_len();
    let mut out = String::new();
    let mut i: usize = 0;
    while i < n
        invariant
            n == s@.len(),
            i <= n,
            out@ =~= ascii_lower(s@.take(i as int)),
        decreases n - i,
    {
        let c = s.get_char(i);
        let l = to_lower_char(c);
        push_char(&mut out, l);
        assert(s@.take(i + 1) =~= s@.take(i as int).push(c));
        i = i + 1;
    }
    assert(s@.take(n as int) =~= s@);
    out
}

/// ASCII case-insensitive equality (std's `str::eq_ignore_ascii_case`).
pub fn eq_ignore_ascii_case(a: &str, b: &str) -> (r: bool)
    ensures
        r == (ascii_lower(a@) == ascii_lower(b@)),
{
    let n = a.unicode_len();
    let m = b.unicode_len();
    if n != m {
        assert(ascii_lower(a@).len() != ascii_lower(b@).len());
        return false;
    }
    let mut i: usize = 0;
    while i < n
        invariant
            n == a@.len(),
            m == b@.len(),
            n == m,
            i <= n,
            forall|j: int| 0 <= j < i ==> lower_char(a@[j]) == lower_char(b@[j]),
        decreases n - i,
    {
        if to_lower_char(a.get_char(i)) != to_lower_char(b.get_char(i)) {
            assert(ascii_lower(a@)[i as int] != ascii_lower(b@)[i as int]);
            return false;
        }
        i = i + 1;
    }
    assert(ascii_lower(a@) =~= ascii_lower(b@));
    true
}

/// Joins `parts` with `sep` between each two neighbours (std's `[String]::join`).
pub fn join(parts: &Vec<String>, sep: &str) -> (r: String)
    ensures
        r@ == joined(texts(parts@), sep@),
{
    let mut out = String::new();
    let n = parts.len();
    let mut i: usize = 0;
    while i < n
        invariant
            n == parts@.len(),
            i <= n,
            out@ == joined(texts(parts@).take(i as int), sep@),
        decreases n - i,
    {
        let ghost before = texts(parts@).take(i as int);
        if i != 0 {
            out.append(sep);
        }
        out.append(parts[i].as_str());
        assert(texts(parts@).take(i + 1).drop_last() =~= before);
        assert(texts(parts@).take(i + 1).last() == parts@[i as int]@);
        if i == 0 {
            assert(out@ =~= joined(texts(parts@).take(i + 1), sep@));
        }
        i = i + 1;
    }
    assert(texts(parts@).take(n as int) =~= texts(parts@));
    out
}


/// An ASCII decimal digit.
pub open spec fn is_digit(c: char) -> bool {
    48 <= (c as u32) && (c as u32) <= 57
}

/// The value of an ASCII decimal digit.
pub open spec fn digit_value(c: char) -> int {
    (c as u32) - 48
}

/// Every character of `s` is an ASCII decimal digit.
pub open spec fn all_digits(s: Seq<char>) -> bool {
    forall|i: int| 0 <= i < s.len() ==> is_digit(#[trigger] s[i])
}

/// The number written by the decimal digits `s` (most significant first).
pub open spec fn digits_value(s: Seq<char>) -> int
    decreases s.len(),
{
    if s.len() == 0 {
        0
    } else {
        digits_value(s.drop_last()) * 10 + digit_value(s.last())
    }
}

/// What std's `str::parse::<i32>` gives: an optional `+` or `-`, then at least one
/// ASCII digit and nothing else, with a value in the range of `i32`.
pub open spec fn parsed_i32(s: Seq<char>) -> Option<i32> {
    let signed = s.len() > 0 && (s[0] == '-' || s[0] == '+');
    let body = if signed { s.skip(1) } else { s };
    let value = if s.len() > 0 && s[0] == '-' { -digits_value(body) } else { digits_value(body) };
    if body.len() > 0 && all_digits(body) && i32::MIN <= value && value <= i32::MAX {
        Some(value as i32)
    } else {
        None
    }
}

proof fn lemma_digits_value_grows(s: Seq<char>, k: int)
    requires
        all_digits(s),
        0 <= k <= s.len(),
    ensures
        0 <= digits_value(s.take(k)) <= digits_value(s),
    decreases s.len(),
{
    if s.len() == 0 {
        assert(s.take(k) =~= s);
    } else if k == s.len() {
        assert(s.take(k) =~= s);
        lemma_digits_value_grows(s.drop_last(), k - 1);
    } else {
        assert(all_digits(s.drop_last()));
        lemma_digits_value_grows(s.drop_last(), k);
        assert(s.drop_last().take(k) =~= s.take(k));
        lemma_digits_value_grows(s.drop_last(), s.len() - 1);
        assert(s.drop_last().take(s.len() - 1) =~= s.drop_last());
        assert(is_digit(s[s.len() - 1]));
    }
}

/// Parses a decimal `i32` exactly as std's `str::parse::<i32>` does.
pub fn parse_i32(s: &str) -> (r: Option<i32>)
    ensures
        r == parsed_i32(s@),
{
    let n = s.unicode_len();
    let mut start: usize = 0;
    let mut negative = false;
    if n > 0 {
        let first = s.get_char(0);
        if first == '-' {
            negative = true;
            start = 1;
        } else if first == '+' {
            start = 1;
        }
    }
    let ghost body = if start == 1 { s@.skip(1) } else { s@ };
    assert(start == 1 ==> body =~= s@.subrange(1, n as int));
    assert(start == 0 ==> body =~= s@.subrange(0, n as int));
    if start == n {
        return None;
    }
    let mut acc: i64 = 0;
    let mut i: usize = start;
    while i < n
        invariant
            n == s@.len(),
            start <= i <= n,
            start < n,
            negative == (s@.len() > 0 && s@[0] == '-'),
            (start == 1) == (s@.len() > 0 && (s@[0] == '-' || s@[0] == '+')),
            start == 0 || start == 1,
            body == (if start == 1 { s@.skip(1) } else { s@ }),
            body =~= s@.subrange(start as int, n as int),
            all_digits(body.take(i - start)),
            acc == digits_value(body.take(i - start)),
            0 <= acc <= 2147483648,
        decreases n - i,
    {
        let c = s.get_char(i);
        let code = c as u32;
        if code < 48 || code > 57 {
            assert(body[i - start] == c);
            assert(!all_digits(body));
            return None;
        }
        let d = (code - 48) as i64;
        let ghost prev = body.take(i - start);
        assert(body.take(i + 1 - start).drop_last() =~= prev);
        assert(body.take(i + 1 - start).last() == c);
        acc = acc * 10 + d;
        i = i + 1;
        if acc > 2147483648 {
            proof {
                if all_digits(body) {
                    lemma_digits_value_grows(body, i - start);
                }
            }
            return None;
        }
    }
    assert(body.take(n - start) =~= body);
    if negative {
        Some((0 - acc) as i32)
    } else if acc <= 2147483647 {
        Some(acc as i32)
    } else {
        None
    }
}

/// ASCII lower-casing keeps the length, moves each capital letter 'A' to 'Z' to its small
/// letter (32 code points later) and keeps every other character: "CZK" becomes "czk".
pub proof fn law_ascii_lower_maps_capitals(s: Seq<char>)
    ensures
        ascii_lower(s).len() == s.len(),
        forall|i: int|
            0 <= i < s.len() ==> if 'A' as u32 <= (s[i] as u32) && (s[i] as u32) <= 'Z' as u32 {
                (#[trigger] ascii_lower(s)[i]) as u32 == (s[i] as u32) + 32
            } else {
                ascii_lower(s)[i] == s[i]
            },
{
    assert forall|i: int| 0 <= i < s.len() implies if 'A' as u32 <= (s[i] as u32) && (s[i] as u32)
        <= 'Z' as u32 {
        (#[trigger] ascii_lower(s)[i]) as u32 == (s[i] as u32) + 32
    } else {
        ascii_lower(s)[i] == s[i]
    } by {
        let c = s[i];
        let n = c as u32;
        if 65 <= n && n <= 90 {
            let m: u32 = (n + 32) as u32;
            assert((m as char) as u32 == m);
        }
    }
}

} // verus!
