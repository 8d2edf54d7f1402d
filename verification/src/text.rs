//! Character-level text helpers: conversions between strings and
//! character vectors, trimming, substring search, decimal numbers and
//! Unicode lowercasing.
use vstd::prelude::*;

verus! {

/// Appends one character to a string (`String::push`).
#[verifier::external_body]
pub(crate) fn push_char(s: &mut String, c: char)
    ensures
        final(s)@ == old(s)@.push(c),
{
    s.push(c);
}

/// What `str::to_lowercase` returns for a string: the full Unicode lowercase
/// mapping, which depends on the whole string (final sigma) and not only on
/// each character.
pub uninterp spec fn lowercase_of(s: Seq<char>) -> Seq<char>;

/// Whether every character of a text is ASCII.
pub open spec fn is_ascii_text(s: Seq<char>) -> bool {
    forall|i: int| 0 <= i < s.len() ==> (#[trigger] s[i] as u32) < 128
}

/// A character with an ASCII uppercase letter made lowercase
/// (`char::to_ascii_lowercase`).
pub open spec fn ascii_lower(c: char) -> char {
    if 'A' <= c <= 'Z' {
        (((c as u32) + 32) as u8) as char
    } else {
        c
    }
}

/// A character with an ASCII lowercase letter made uppercase
/// (`char::to_ascii_uppercase`).
pub open spec fn ascii_upper(c: char) -> char {
    if 'a' <= c <= 'z' {
        (((c as u32) - 32) as u8) as char
    } else {
        c
    }
}

/// A text with its ASCII letters in lowercase (`str::to_ascii_lowercase`).
pub open spec fn ascii_lowercase(s: Seq<char>) -> Seq<char> {
    s.map_values(|c: char| ascii_lower(c))
}

/// A text with its ASCII letters in uppercase (`str::to_ascii_uppercase`).
pub open spec fn ascii_uppercase(s: Seq<char>) -> Seq<char> {
    s.map_values(|c: char| ascii_upper(c))
}

/// Lowercases a string with `str::to_lowercase`. On ASCII text that is the
/// ASCII lowercasing: `str::to_ascii_lowercase` documents that it maps `A`
/// to `Z` to `a` to `z` as `to_lowercase` does, and Unicode lowercases no
/// other ASCII character.
#[verifier::external_body]
pub(crate) fn lowercase(s: &str) -> (r: String)
    ensures
        r@ == lowercase_of(s@),
        is_ascii_text(s@) ==> r@ == ascii_lowercase(s@),
{
    s.to_lowercase()
}

/// The characters of a string, in order.
pub fn chars_of(s: &str) -> (r: Vec<char>)
    ensures
        r@ == s@,
{
    let mut out: Vec<char> = Vec::new();
    for c in it: s.chars()
        invariant
            it.seq() == s@,
            out@ == it.seq().take(it.index() as int),
    {
        out.push(c);
    }
    out
}

/// The string made of the characters `cs[from..to]`.
pub fn string_of_range(cs: &[char], from: usize, to: usize) -> (r: String)
    requires
        from <= to <= cs@.len(),
    ensures
        r@ == cs@.subrange(from as int, to as int),
{
    let mut s = String::new();
    let mut i: usize = from;
    while i < to
        invariant
            from <= i <= to <= cs@.len(),
            s@ == cs@.subrange(from as int, i as int),
        decreases to - i,
    {
        push_char(&mut s, cs[i]);
        i = i + 1;
    }
    s
}

/// The string made of all the characters of `cs`.
pub fn string_of(cs: &[char]) -> (r: String)
    ensures
        r@ == cs@,
{
    let r = string_of_range(cs, 0, cs.len());
    assert(cs@.subrange(0, cs@.len() as int) == cs@);
    r
}

/// Appends a string to another.
pub fn append_str(s: &mut String, t: &str)
    ensures
        final(s)@ == old(s)@ + t@,
{
    s.append(t);
}

/// Concatenation of two strings.
pub fn concat_str(a: &str, b: &str) -> (r: String)
    ensures
        r@ == a@ + b@,
{
    let mut r = String::from_str(a);
    r.append(b);
    r
}

/// Whether two strings are equal.
pub fn str_equals(a: &str, b: &str) -> (r: bool)
    ensures
        r == (a@ == b@),
{
    let x = chars_of(a);
    let y = chars_of(b);
    if x.len() != y.len() {
        return false;
    }
    let mut i: usize = 0;
    while i < x.len()
        invariant
            i <= x@.len() == y@.len(),
            x@ == a@,
            y@ == b@,
            forall|k: int| 0 <= k < i ==> x@[k] == y@[k],
        decreases x@.len() - i,
    {
        if x[i] != y[i] {
            assert(x@[i as int] != y@[i as int]);
            return false;
        }
        i = i + 1;
    }
    assert(x@ =~= y@);
    true
}

// ---------------------------------------------------------------------
// Trimming
// ---------------------------------------------------------------------
/// A character of Unicode's `White_Space` property, as `char::is_whitespace`
/// documents it.
pub open spec fn is_unicode_whitespace(c: char) -> bool {
    let v = c as u32;
    ||| 0x9 <= v <= 0xd
    ||| v == 0x20
    ||| v == 0x85
    ||| v == 0xa0
    ||| v == 0x1680
    ||| 0x2000 <= v <= 0x200a
    ||| v == 0x2028
    ||| v == 0x2029
    ||| v == 0x202f
    ||| v == 0x205f
    ||| v == 0x3000
}

/// Whether a character is Unicode white space.
pub fn is_whitespace_char(c: char) -> (b: bool)
    ensures
        b == is_unicode_whitespace(c),
{
    let v = c as u32;
    (0x9 <= v && v <= 0xd) || v == 0x20 || v == 0x85 || v == 0xa0 || v == 0x1680 || (0x2000 <= v
        && v <= 0x200a) || v == 0x2028 || v == 0x2029 || v == 0x202f || v == 0x205f || v == 0x3000
}

/// `s` with the leading characters that satisfy `p` removed.
pub open spec fn trim_start_by(s: Seq<char>, p: spec_fn(char) -> bool) -> Seq<char>
    decreases s.len(),
{
    if s.len() > 0 && p(s[0]) {
        trim_start_by(s.drop_first(), p)
    } else {
        s
    }
}

/// `s` with the trailing characters that satisfy `p` removed.
pub open spec fn trim_end_by(s: Seq<char>, p: spec_fn(char) -> bool) -> Seq<char>
    decreases s.len(),
{
    if s.len() > 0 && p(s.last()) {
        trim_end_by(s.drop_last(), p)
    } else {
        s
    }
}

/// `s` with the characters that satisfy `p` removed at both ends.
pub open spec fn trim_by(s: Seq<char>, p: spec_fn(char) -> bool) -> Seq<char> {
    trim_end_by(trim_start_by(s, p), p)
}

/// What `str::trim` returns: `s` without leading and trailing white space.
pub open spec fn trim_whitespace(s: Seq<char>) -> Seq<char> {
    trim_by(s, |c: char| is_unicode_whitespace(c))
}

/// What `str::trim_matches('/')` returns.
pub open spec fn trim_slashes(s: Seq<char>) -> Seq<char> {
    trim_by(s, |c: char| c == '/')
}

proof fn lemma_trim_start_skip(s: Seq<char>, p: spec_fn(char) -> bool, i: int)
    requires
        0 <= i <= s.len(),
        forall|k: int| 0 <= k < i ==> p(#[trigger] s[k]),
    ensures
        trim_start_by(s, p) == trim_start_by(s.subrange(i, s.len() as int), p),
    decreases i,
{
    if i > 0 {
        let t = s.drop_first();
        assert forall|k: int| 0 <= k < i - 1 implies p(#[trigger] t[k]) by {
            assert(t[k] == s[k + 1]);
        }
        lemma_trim_start_skip(t, p, i - 1);
        assert(t.subrange(i - 1, t.len() as int) == s.subrange(i, s.len() as int));
        assert(p(s[0]));
    } else {
        assert(s.subrange(0, s.len() as int) == s);
    }
}

proof fn lemma_trim_end_skip(s: Seq<char>, p: spec_fn(char) -> bool, j: int)
    requires
        0 <= j <= s.len(),
        forall|k: int| j <= k < s.len() ==> p(#[trigger] s[k]),
    ensures
        trim_end_by(s, p) == trim_end_by(s.subrange(0, j), p),
    decreases s.len() - j,
{
    if j < s.len() {
        let t = s.drop_last();
        assert forall|k: int| j <= k < t.len() implies p(#[trigger] t[k]) by {
            assert(t[k] == s[k]);
        }
        lemma_trim_end_skip(t, p, j);
        assert(t.subrange(0, j) == s.subrange(0, j));
        assert(p(s[s.len() - 1]));
    } else {
        assert(s.subrange(0, j) == s);
    }
}

proof fn lemma_trim_start_after(a: Seq<char>, b: Seq<char>, p: spec_fn(char) -> bool)
    requires
        forall|k: int| 0 <= k < a.len() ==> p(#[trigger] a[k]),
    ensures
        trim_start_by(a + b, p) == trim_start_by(b, p),
{
    let s = a + b;
    assert forall|k: int| 0 <= k < a.len() implies p(#[trigger] s[k]) by {
        assert(s[k] == a[k]);
    }
    lemma_trim_start_skip(s, p, a.len() as int);
    assert(s.subrange(a.len() as int, s.len() as int) == b);
}

proof fn lemma_trim_end_before(a: Seq<char>, b: Seq<char>, p: spec_fn(char) -> bool)
    requires
        forall|k: int| 0 <= k < b.len() ==> p(#[trigger] b[k]),
    ensures
        trim_end_by(a + b, p) == trim_end_by(a, p),
{
    let s = a + b;
    assert forall|k: int| a.len() <= k < s.len() implies p(#[trigger] s[k]) by {
        assert(s[k] == b[k - a.len()]);
    }
    lemma_trim_end_skip(s, p, a.len() as int);
    assert(s.subrange(0, a.len() as int) == a);
}

proof fn lemma_trim_start_append(a: Seq<char>, b: Seq<char>, p: spec_fn(char) -> bool, i: int)
    requires
        0 <= i < a.len(),
        !p(a[i]),
    ensures
        trim_start_by(a + b, p) == trim_start_by(a, p) + b,
    decreases a.len(),
{
    if p(a[0]) {
        assert((a + b).drop_first() == a.drop_first() + b);
        assert(a.drop_first()[i - 1] == a[i]);
        lemma_trim_start_append(a.drop_first(), b, p, i - 1);
    }
}

proof fn lemma_trim_all(a: Seq<char>, p: spec_fn(char) -> bool)
    requires
        forall|k: int| 0 <= k < a.len() ==> p(#[trigger] a[k]),
    ensures
        trim_by(a, p).len() == 0,
{
    lemma_trim_start_skip(a, p, a.len() as int);
    assert(a.subrange(a.len() as int, a.len() as int).len() == 0);
}

/// White space around a text does not change the text trimmed.
pub proof fn lemma_trim_ignores_surrounding_whitespace(before: Seq<char>, s: Seq<char>, after: Seq<char>)
    requires
        forall|k: int| 0 <= k < before.len() ==> is_unicode_whitespace(#[trigger] before[k]),
        forall|k: int| 0 <= k < after.len() ==> is_unicode_whitespace(#[trigger] after[k]),
    ensures
        trim_whitespace(before + s + after) == trim_whitespace(s),
{
    let p = |c: char| is_unicode_whitespace(c);
    assert(before + s + after == before + (s + after));
    lemma_trim_start_after(before, s + after, p);
    if exists|i: int| 0 <= i < s.len() && !p(s[i]) {
        let i = choose|i: int| 0 <= i < s.len() && !p(s[i]);
        lemma_trim_start_append(s, after, p, i);
        lemma_trim_end_before(trim_start_by(s, p), after, p);
    } else {
        assert forall|k: int| 0 <= k < (s + after).len() implies p(#[trigger] (s + after)[k]) by {
            if k < s.len() {
                assert((s + after)[k] == s[k]);
            } else {
                assert((s + after)[k] == after[k - s.len()]);
            }
        }
        lemma_trim_all(s + after, p);
        lemma_trim_all(s, p);
    }
}

pub(crate) proof fn lemma_trim_keeps_ascii(s: Seq<char>, p: spec_fn(char) -> bool)
    requires
        is_ascii_text(s),
    ensures
        is_ascii_text(trim_by(s, p)),
{
    lemma_trim_start_keeps_ascii(s, p);
    lemma_trim_end_keeps_ascii(trim_start_by(s, p), p);
}

proof fn lemma_trim_start_keeps_ascii(s: Seq<char>, p: spec_fn(char) -> bool)
    requires
        is_ascii_text(s),
    ensures
        is_ascii_text(trim_start_by(s, p)),
    decreases s.len(),
{
    if s.len() > 0 && p(s[0]) {
        assert forall|i: int| 0 <= i < s.drop_first().len() implies (#[trigger] s.drop_first()[i] as u32)
            < 128 by {
            assert(s.drop_first()[i] == s[i + 1]);
        }
        lemma_trim_start_keeps_ascii(s.drop_first(), p);
    }
}

proof fn lemma_trim_end_keeps_ascii(s: Seq<char>, p: spec_fn(char) -> bool)
    requires
        is_ascii_text(s),
    ensures
        is_ascii_text(trim_end_by(s, p)),
    decreases s.len(),
{
    if s.len() > 0 && p(s.last()) {
        assert forall|i: int| 0 <= i < s.drop_last().len() implies (#[trigger] s.drop_last()[i] as u32)
            < 128 by {
            assert(s.drop_last()[i] == s[i]);
        }
        lemma_trim_end_keeps_ascii(s.drop_last(), p);
    }
}

proof fn lemma_trim_start_upper(s: Seq<char>)
    ensures
        trim_start_by(ascii_uppercase(s), |c: char| is_unicode_whitespace(c)) == ascii_uppercase(
            trim_start_by(s, |c: char| is_unicode_whitespace(c)),
        ),
    decreases s.len(),
{
    let p = |c: char| is_unicode_whitespace(c);
    let u = ascii_uppercase(s);
    if s.len() > 0 {
        assert(u[0] == ascii_upper(s[0]));
        assert(is_unicode_whitespace(u[0]) == is_unicode_whitespace(s[0]));
        if p(s[0]) {
            assert(u.drop_first() == ascii_uppercase(s.drop_first()));
            lemma_trim_start_upper(s.drop_first());
        }
    }
}

proof fn lemma_trim_end_upper(s: Seq<char>)
    ensures
        trim_end_by(ascii_uppercase(s), |c: char| is_unicode_whitespace(c)) == ascii_uppercase(
            trim_end_by(s, |c: char| is_unicode_whitespace(c)),
        ),
    decreases s.len(),
{
    let p = |c: char| is_unicode_whitespace(c);
    let u = ascii_uppercase(s);
    if s.len() > 0 {
        assert(u.last() == ascii_upper(s.last()));
        assert(is_unicode_whitespace(u.last()) == is_unicode_whitespace(s.last()));
        if p(s.last()) {
            assert(u.drop_last() == ascii_uppercase(s.drop_last()));
            lemma_trim_end_upper(s.drop_last());
        }
    }
}

/// Trimming and ASCII lowercasing ignore white space around a text and the
/// case of its ASCII letters; ASCII text stays ASCII when its letters are
/// put in uppercase.
pub proof fn lemma_ascii_key_ignores_case_and_surrounding_whitespace(
    before: Seq<char>,
    s: Seq<char>,
    after: Seq<char>,
)
    requires
        forall|k: int| 0 <= k < before.len() ==> is_unicode_whitespace(#[trigger] before[k]),
        forall|k: int| 0 <= k < after.len() ==> is_unicode_whitespace(#[trigger] after[k]),
    ensures
        trim_whitespace(before + ascii_uppercase(s) + after).len() == trim_whitespace(s).len(),
        ascii_lowercase(trim_whitespace(before + ascii_uppercase(s) + after)) == ascii_lowercase(
            trim_whitespace(s),
        ),
        is_ascii_text(s) ==> is_ascii_text(ascii_uppercase(s)),
{
    lemma_trim_ignores_surrounding_whitespace(before, ascii_uppercase(s), after);
    lemma_trim_start_upper(s);
    lemma_trim_end_upper(trim_start_by(s, |c: char| is_unicode_whitespace(c)));
    let t = trim_whitespace(s);
    assert(ascii_lowercase(ascii_uppercase(t)) =~= ascii_lowercase(t));
    if is_ascii_text(s) {
        assert forall|i: int| 0 <= i < ascii_uppercase(s).len() implies (#[trigger] ascii_uppercase(
            s,
        )[i] as u32) < 128 by {
            assert(ascii_uppercase(s)[i] == ascii_upper(s[i]));
            assert((s[i] as u32) < 128);
        }
    }
}

fn trimmed_char(c: char, slash: bool) -> (b: bool)
    ensures
        slash ==> b == (c == '/'),
        !slash ==> b == is_unicode_whitespace(c),
{
    if slash {
        c == '/'
    } else {
        is_whitespace_char(c)
    }
}

/// The bounds `(start, end)` of `cs` once the characters matching `p` are
/// trimmed at both ends, for `p` either white space or `/`.
fn trim_bounds(cs: &Vec<char>, slash: bool) -> (r: (usize, usize))
    ensures
        r.0 <= r.1 <= cs@.len(),
        slash ==> cs@.subrange(r.0 as int, r.1 as int) == trim_slashes(cs@),
        !slash ==> cs@.subrange(r.0 as int, r.1 as int) == trim_whitespace(cs@),
{
    let ghost p: spec_fn(char) -> bool = if slash {
        |c: char| c == '/'
    } else {
        |c: char| is_unicode_whitespace(c)
    };
    let n = cs.len();
    let mut i: usize = 0;
    while i < n && trimmed_char(cs[i], slash)
        invariant
            i <= n == cs@.len(),
            p == (if slash {
                |c: char| c == '/'
            } else {
                |c: char| is_unicode_whitespace(c)
            }),
            forall|k: int| 0 <= k < i ==> p(#[trigger] cs@[k]),
        decreases n - i,
    {
        i = i + 1;
    }
    proof {
        lemma_trim_start_skip(cs@, p, i as int);
        let t = cs@.subrange(i as int, n as int);
        if t.len() > 0 {
            assert(t[0] == cs@[i as int]);
        }
        assert(trim_start_by(t, p) == t);
    }
    let mut j: usize = n;
    while j > i && trimmed_char(cs[j - 1], slash)
        invariant
            i <= j <= n == cs@.len(),
            p == (if slash {
                |c: char| c == '/'
            } else {
                |c: char| is_unicode_whitespace(c)
            }),
            forall|k: int| j <= k < n ==> p(#[trigger] cs@[k]),
        decreases j,
    {
        j = j - 1;
    }
    proof {
        let t = cs@.subrange(i as int, n as int);
        assert forall|k: int| j - i <= k < t.len() implies p(#[trigger] t[k]) by {
            assert(t[k] == cs@[k + i]);
        }
        lemma_trim_end_skip(t, p, j - i);
        let u = t.subrange(0, j - i);
        assert(u == cs@.subrange(i as int, j as int));
        if u.len() > 0 {
            assert(u.last() == cs@[j - 1]);
        }
        assert(trim_end_by(u, p) == u);
    }
    (i, j)
}

/// `str::trim`: the string without leading and trailing white space.
pub fn trim(s: &str) -> (r: String)
    ensures
        r@ == trim_whitespace(s@),
{
    let cs = chars_of(s);
    let (i, j) = trim_bounds(&cs, false);
    string_of_range(cs.as_slice(), i, j)
}

/// `str::trim_matches('/')`, on characters: the bounds of the part of `cs`
/// without leading and trailing slashes.
pub fn trim_slash_bounds(cs: &Vec<char>) -> (r: (usize, usize))
    ensures
        r.0 <= r.1 <= cs@.len(),
        cs@.subrange(r.0 as int, r.1 as int) == trim_slashes(cs@),
{
    trim_bounds(cs, true)
}

// ---------------------------------------------------------------------
// Substring search
// ---------------------------------------------------------------------
/// Whether `pat` occurs in `text` at position `i`.
pub open spec fn occurs_at(text: Seq<char>, pat: Seq<char>, i: int) -> bool {
    0 <= i && i + pat.len() <= text.len() && text.subrange(i, i + pat.len()) == pat
}

/// What `str::contains` returns for a string pattern.
pub open spec fn contains_seq(text: Seq<char>, pat: Seq<char>) -> bool {
    exists|i: int| occurs_at(text, pat, i)
}

fn occurs_at_exec(text: &Vec<char>, pat: &Vec<char>, i: usize) -> (b: bool)
    requires
        i + pat@.len() <= text@.len(),
    ensures
        b == occurs_at(text@, pat@, i as int),
{
    let mut k: usize = 0;
    while k < pat.len()
        invariant
            k <= pat@.len(),
            i + pat@.len() <= text.len(),
            forall|m: int| 0 <= m < k ==> text@[i + m] == pat@[m],
        decreases pat@.len() - k,
    {
        if text[i + k] != pat[k] {
            assert(text@.subrange(i as int, i + pat@.len())[k as int] != pat@[k as int]);
            return false;
        }
        k = k + 1;
    }
    assert(text@.subrange(i as int, i + pat@.len()) =~= pat@);
    true
}

/// Whether `pat` occurs in `text`.
pub fn contains_str(text: &str, pat: &str) -> (b: bool)
    ensures
        b == contains_seq(text@, pat@),
{
    let t = chars_of(text);
    let p = chars_of(pat);
    if p.len() > t.len() {
        return false;
    }
    if p.len() == 0 {
        assert(t@.subrange(0, 0) =~= p@);
        assert(occurs_at(t@, p@, 0));
        return true;
    }
    let last = t.len() - p.len();
    let mut i: usize = 0;
    while i <= last
        invariant
            last + p@.len() == t.len(),
            p@.len() > 0,
            t@ == text@,
            p@ == pat@,
            forall|m: int| 0 <= m < i ==> !occurs_at(t@, p@, m),
        decreases last + 1 - i,
    {
        if occurs_at_exec(&t, &p, i) {
            return true;
        }
        i = i + 1;
    }
    false
}

// ---------------------------------------------------------------------
// Decimal numbers
// ---------------------------------------------------------------------
/// The ASCII digit for a value below ten.
pub open spec fn digit_char(d: nat) -> char {
    ((d + 48) as u8) as char
}

/// The decimal representation of `n`, without leading zeros.
pub open spec fn decimal(n: nat) -> Seq<char>
    decreases n,
{
    if n < 10 {
        seq![digit_char(n)]
    } else {
        decimal(n / 10).push(digit_char(n % 10))
    }
}

fn push_decimal(out: &mut Vec<char>, n: u64)
    ensures
        final(out)@ == old(out)@ + decimal(n as nat),
    decreases n,
{
    if n >= 10 {
        push_decimal(out, n / 10);
    }
    let d = (n % 10) as u8;
    out.push((d + 48) as char);
}

/// The decimal text of a number, as `u64::to_string` writes it.
pub fn decimal_string(n: u64) -> (r: String)
    ensures
        r@ == decimal(n as nat),
{
    let mut cs: Vec<char> = Vec::new();
    push_decimal(&mut cs, n);
    assert(cs@ == decimal(n as nat));
    string_of(cs.as_slice())
}

/// Whether a character is an ASCII decimal digit.
pub open spec fn is_digit(c: char) -> bool {
    '0' <= c <= '9'
}

/// The value of a sequence of decimal digits.
pub open spec fn digits_value(d: Seq<char>) -> nat
    decreases d.len(),
{
    if d.len() == 0 {
        0
    } else {
        digits_value(d.drop_last()) * 10 + ((d.last() as u32) - 48) as nat
    }
}

/// The digits of a number as `u64::from_str` reads them: after an optional
/// `+`, at least one digit and nothing else.
pub open spec fn unsigned_digits(s: Seq<char>) -> Seq<char> {
    if s.len() > 0 && s[0] == '+' {
        s.drop_first()
    } else {
        s
    }
}

/// What `str::parse::<u64>` returns: the value of the text when it is an
/// optional `+` followed by one or more ASCII digits whose value fits in
/// 64 bits, and nothing otherwise.
pub open spec fn parse_u64_spec(s: Seq<char>) -> Option<u64> {
    let d = unsigned_digits(s);
    if d.len() > 0 && (forall|k: int| 0 <= k < d.len() ==> is_digit(#[trigger] d[k]))
        && digits_value(d) <= u64::MAX {
        Some(digits_value(d) as u64)
    } else {
        None
    }
}

proof fn lemma_digits_value_prefix_monotone(d: Seq<char>, i: int)
    requires
        0 <= i <= d.len(),
        forall|k: int| 0 <= k < d.len() ==> is_digit(#[trigger] d[k]),
    ensures
        digits_value(d.take(i)) <= digits_value(d),
    decreases d.len() - i,
{
    if i < d.len() {
        let e = d.drop_last();
        assert forall|k: int| 0 <= k < e.len() implies is_digit(#[trigger] e[k]) by {
            assert(e[k] == d[k]);
        }
        lemma_digits_value_prefix_monotone(e, i);
        assert(e.take(i) == d.take(i));
    } else {
        assert(d.take(i) == d);
    }
}

proof fn lemma_decimal_digits(n: nat)
    ensures
        decimal(n).len() > 0,
        forall|k: int| 0 <= k < decimal(n).len() ==> is_digit(#[trigger] decimal(n)[k]),
        digits_value(decimal(n)) == n,
    decreases n,
{
    let d = digit_char(n % 10);
    assert((((n % 10) + 48) as u8) as char as u32 == (n % 10) + 48);
    assert(d as u32 == (n % 10) + 48);
    assert(((d as u32) - 48) as nat == n % 10);
    assert(digits_value(decimal(n)) == digits_value(decimal(n).drop_last()) * 10 + ((decimal(
        n,
    ).last() as u32) - 48) as nat);
    if n < 10 {
        assert(decimal(n).drop_last() =~= Seq::<char>::empty());
    }
    if n >= 10 {
        lemma_decimal_digits(n / 10);
        let s = decimal(n / 10);
        assert(decimal(n).drop_last() == s);
        assert(decimal(n).last() == d);
        assert((n / 10) * 10 + n % 10 == n) by (nonlinear_arith);
        assert forall|k: int| 0 <= k < decimal(n).len() implies is_digit(#[trigger] decimal(n)[k]) by {
            if k < s.len() {
                assert(decimal(n)[k] == s[k]);
            }
        }
    }
}

/// Reading a number back from its decimal text gives the number.
pub proof fn lemma_parse_decimal(n: u64)
    ensures
        parse_u64_spec(decimal(n as nat)) == Some(n),
{
    lemma_decimal_digits(n as nat);
    let s = decimal(n as nat);
    assert(is_digit(s[0]));
    assert(unsigned_digits(s) == s);
}

/// Ten to the power `k`.
spec fn pow10(k: nat) -> nat
    decreases k,
{
    if k == 0 {
        1
    } else {
        10 * pow10((k - 1) as nat)
    }
}

proof fn lemma_decimal_len_below(n: nat, k: nat)
    requires
        1 <= k,
        n < pow10(k),
    ensures
        decimal(n).len() <= k,
    decreases k,
{
    if n >= 10 {
        if k == 1 {
            assert(pow10(1) == 10 * pow10(0));
        }
        lemma_decimal_len_below(n / 10, (k - 1) as nat);
    }
}

/// A `u64` has at most twenty decimal digits.
pub proof fn lemma_decimal_len_u64(n: u64)
    ensures
        decimal(n as nat).len() <= 20,
{
    assert(pow10(20) == 100000000000000000000) by {
        reveal_with_fuel(pow10, 21);
    }
    lemma_decimal_len_below(n as nat, 20);
}

/// Reads a number as `str::parse::<u64>` does.
pub fn parse_u64(s: &str) -> (r: Option<u64>)
    ensures
        r == parse_u64_spec(s@),
{
    let cs = chars_of(s);
    let start: usize = if cs.len() > 0 && cs[0] == '+' {
        1
    } else {
        0
    };
    let ghost d = unsigned_digits(s@);
    assert(d == cs@.subrange(start as int, cs@.len() as int));
    if start == cs.len() {
        return None;
    }
    let mut value: u64 = 0;
    let mut i: usize = start;
    while i < cs.len()
        invariant
            start <= i <= cs@.len(),
            cs@ == s@,
            d == unsigned_digits(s@),
            d == cs@.subrange(start as int, cs@.len() as int),
            forall|k: int| 0 <= k < i - start ==> is_digit(#[trigger] d[k]),
            value as nat == digits_value(d.take(i - start)),
        decreases cs.len() - i,
    {
        let c = cs[i];
        if !('0' <= c && c <= '9') {
            assert(!is_digit(d[i - start]));
            return None;
        }
        let digit = (c as u32 - 48) as u64;
        proof {
            let t = d.take(i - start + 1);
            assert(t.drop_last() == d.take(i - start));
            assert(t.last() == c);
        }
        if value > (u64::MAX - digit) / 10 {
            proof {
                assert(value * 10 + digit > u64::MAX) by (nonlinear_arith)
                    requires
                        value > (u64::MAX - digit) / 10,
                        digit <= 9,
                ;
                let j = i - start + 1;
                if exists|k: int| 0 <= k < d.len() && !is_digit(d[k]) {
                } else {
                    lemma_digits_value_prefix_monotone(d, j);
                }
            }
            return None;
        }
        value = value * 10 + digit;
        i = i + 1;
    }
    assert(d.take(d.len() as int) == d);
    Some(value)
}

} // verus!
