//! Character-level text helpers: trimming, number parsing and number printing.
//!
//! Text is modelled as a sequence of characters. The parsers accept exactly what
//! the integer parsers of the standard library accept: an optional leading `+`
//! (or `-` for signed numbers) followed by at least one digit, within range.

use vstd::prelude::*;

verus! {

/// `String::push` appends one character to the end of the text.
pub assume_specification[ String::push ](s: &mut String, c: char)
    ensures
        final(s)@ == old(s)@.push(c),
;

/// The text that Rust's `Debug` formatting gives for a string: quoted and escaped.
pub uninterp spec fn debug_quoted(s: Seq<char>) -> Seq<char>;

/// `format!("{:?}", s)`: the quoted and escaped form of a string, which depends on the string
/// alone.
#[verifier::external_body]
pub(crate) fn debug_text(s: &str) -> (r: String)
    ensures
        r@ == debug_quoted(s@),
{
    format!("{:?}", s)
}

/// The message of the error that `std::str::from_utf8` reports for bytes that are not UTF-8.
pub uninterp spec fn utf8_error_text(bytes: Seq<u8>) -> Seq<char>;

/// `std::str::from_utf8`: succeeds exactly on valid UTF-8, with the text that it encodes. The
/// error is handed on as its message, which depends on the bytes alone.
#[verifier::external_body]
pub(crate) fn utf8_text(bytes: &[u8]) -> (r: Result<String, String>)
    ensures
        r is Ok == vstd::utf8::valid_utf8(bytes@),
        r is Ok ==> r->Ok_0@ == vstd::utf8::decode_utf8(bytes@),
        r is Err ==> r->Err_0@ == utf8_error_text(bytes@),
{
    match std::str::from_utf8(bytes) {
        Ok(s) => Ok(s.to_string()),
        Err(e) => Err(e.to_string()),
    }
}

/// The text that `String::from_utf8_lossy` gives for bytes.
pub uninterp spec fn lossy_text(bytes: Seq<u8>) -> Seq<char>;

/// `String::from_utf8_lossy`: the text that the bytes encode where they are valid UTF-8; other
/// bytes are replaced in a way that depends on the bytes alone.
#[verifier::external_body]
pub(crate) fn utf8_lossy(bytes: &[u8]) -> (r: String)
    ensures
        r@ == lossy_text(bytes@),
        vstd::utf8::valid_utf8(bytes@) ==> r@ == vstd::utf8::decode_utf8(bytes@),
{
    String::from_utf8_lossy(bytes).into_owned()
}

/// Text without its trailing NUL characters.
pub open spec fn without_trailing_nul(s: Seq<char>) -> Seq<char>
    decreases s.len(),
{
    if s.len() > 0 && s.last() == '\0' {
        without_trailing_nul(s.drop_last())
    } else {
        s
    }
}

/// Removes the trailing NUL characters of a text.
pub fn strip_trailing_nul(s: &str) -> (r: String)
    ensures
        r@ == without_trailing_nul(s@),
{
    let cs: Vec<char> = chars_of(s);
    let mut n: usize = cs.len();
    assert(cs@.take(n as int) =~= cs@);
    while n > 0 && cs[n - 1] == '\0'
        invariant
            n <= cs@.len(),
            cs@ == s@,
            without_trailing_nul(cs@.take(n as int)) == without_trailing_nul(s@),
        decreases n,
    {
        assert(cs@.take(n as int).drop_last() =~= cs@.take(n - 1));
        n -= 1;
    }
    let t: &[char] = vstd::slice::slice_subrange(cs.as_slice(), 0, n);
    assert(t@ =~= cs@.take(n as int));
    string_of(t)
}

/// The characters with the Unicode `White_Space` property.
pub open spec fn is_white_space(c: char) -> bool {
    let n = c as u32;
    ||| 0x09 <= n <= 0x0D
    ||| n == 0x20
    ||| n == 0x85
    ||| n == 0xA0
    ||| n == 0x1680
    ||| 0x2000 <= n <= 0x200A
    ||| n == 0x2028
    ||| n == 0x2029
    ||| n == 0x202F
    ||| n == 0x205F
    ||| n == 0x3000
}

/// Text without its leading white space.
pub open spec fn trim_start(s: Seq<char>) -> Seq<char>
    decreases s.len(),
{
    if s.len() > 0 && is_white_space(s[0]) {
        trim_start(s.drop_first())
    } else {
        s
    }
}

/// Text without its trailing white space.
pub open spec fn trim_end(s: Seq<char>) -> Seq<char>
    decreases s.len(),
{
    if s.len() > 0 && is_white_space(s.last()) {
        trim_end(s.drop_last())
    } else {
        s
    }
}

/// Text without leading and trailing white space.
pub open spec fn trimmed(s: Seq<char>) -> Seq<char> {
    trim_end(trim_start(s))
}

/// Whether `c` is white space.
pub fn white_space(c: char) -> (r: bool)
    ensures
        r == is_white_space(c),
{
    let n: u32 = c as u32;
    (0x09 <= n && n <= 0x0D) || n == 0x20 || n == 0x85 || n == 0xA0 || n == 0x1680 || (0x2000 <= n
        && n <= 0x200A) || n == 0x2028 || n == 0x2029 || n == 0x202F || n == 0x205F || n == 0x3000
}

/// The characters of a string.
pub fn chars_of(s: &str) -> (r: Vec<char>)
    ensures
        r@ == s@,
{
    let mut r: Vec<char> = Vec::new();
    for c in it: s.chars()
        invariant
            r@ == it.seq().take(it.index() as int),
            it.seq() == s@,
    {
        r.push(c);
    }
    r
}

/// The string made of the given characters.
pub fn string_of(s: &[char]) -> (r: String)
    ensures
        r@ == s@,
{
    let mut r: String = String::new();
    let mut i: usize = 0;
    while i < s.len()
        invariant
            i <= s@.len(),
            r@ == s@.take(i as int),
        decreases s@.len() - i,
    {
        r.push(s[i]);
        i += 1;
    }
    r
}

proof fn lemma_trim_start_step(s: Seq<char>, i: int)
    requires
        0 <= i < s.len(),
        is_white_space(s[i]),
    ensures
        trim_start(s.skip(i)) == trim_start(s.skip(i + 1)),
{
    assert(s.skip(i).drop_first() =~= s.skip(i + 1));
}

proof fn lemma_trim_end_step(s: Seq<char>, i: int)
    requires
        0 < i <= s.len(),
        is_white_space(s[i - 1]),
    ensures
        trim_end(s.take(i)) == trim_end(s.take(i - 1)),
{
    assert(s.take(i).drop_last() =~= s.take(i - 1));
}

/// The part of `s` between its leading and its trailing white space.
pub fn trim_chars(s: &[char]) -> (r: &[char])
    ensures
        r@ == trimmed(s@),
{
    let n: usize = s.len();
    let mut a: usize = 0;
    assert(s@.skip(0) =~= s@);
    while a < n && white_space(s[a])
        invariant
            a <= n,
            n == s@.len(),
            trim_start(s@.skip(a as int)) == trim_start(s@),
        decreases n - a,
    {
        proof {
            lemma_trim_start_step(s@, a as int);
        }
        a += 1;
    }
    let t: &[char] = vstd::slice::slice_subrange(s, a, n);
    assert(t@ =~= s@.skip(a as int));
    assert(t@ == trim_start(s@));
    let m: usize = t.len();
    let mut b: usize = m;
    assert(t@.take(m as int) =~= t@);
    while b > 0 && white_space(t[b - 1])
        invariant
            b <= m,
            m == t@.len(),
            trim_end(t@.take(b as int)) == trim_end(t@),
        decreases b,
    {
        proof {
            lemma_trim_end_step(t@, b as int);
        }
        b -= 1;
    }
    let u: &[char] = vstd::slice::slice_subrange(t, 0, b);
    assert(u@ =~= t@.take(b as int));
    u
}

/// The trimmed text of a string.
pub fn trim(s: &str) -> (r: Vec<char>)
    ensures
        r@ == trimmed(s@),
{
    let cs: Vec<char> = chars_of(s);
    vstd::slice::slice_to_vec(trim_chars(cs.as_slice()))
}

/// A letter from `A` to `Z` in lower case; any other character unchanged.
pub open spec fn lower_char(c: char) -> char {
    if 'A' <= c <= 'Z' {
        ((c as u32) + 32) as char
    } else {
        c
    }
}

/// Text with its ASCII letters in lower case.
pub open spec fn lower(s: Seq<char>) -> Seq<char> {
    s.map_values(|c: char| lower_char(c))
}

/// Text with its ASCII letters in lower case.
pub fn to_lower(s: &[char]) -> (r: Vec<char>)
    ensures
        r@ == lower(s@),
{
    let mut r: Vec<char> = Vec::new();
    let mut i: usize = 0;
    while i < s.len()
        invariant
            i <= s@.len(),
            r@ == lower(s@.take(i as int)),
        decreases s@.len() - i,
    {
        let c: char = s[i];
        let n: u32 = c as u32;
        let d: char = if 'A' <= c && c <= 'Z' {
            (n + 32) as u8 as char
        } else {
            c
        };
        r.push(d);
        i += 1;
        assert(r@ =~= lower(s@.take(i as int)));
    }
    assert(s@.take(s@.len() as int) =~= s@);
    r
}

/// The text that `str::to_lowercase` gives for a text.
pub uninterp spec fn lowercase(s: Seq<char>) -> Seq<char>;

/// `str::to_lowercase`: the text with its upper-case letters in lower case, by Unicode's rules.
/// The result depends on the text alone; where the text is ASCII, only the letters from `A` to
/// `Z` change.
#[verifier::external_body]
pub(crate) fn to_lowercase(s: &str) -> (r: String)
    ensures
        r@ == lowercase(s@),
        (forall|i: int| 0 <= i < s@.len() ==> (#[trigger] s@[i] as u32) < 0x80) ==> r@ == lower(
            s@,
        ),
{
    s.to_lowercase()
}

/// Where `c` first stands in a text; the length of the text where it does not stand in it.
pub open spec fn position(s: Seq<char>, c: char) -> int
    decreases s.len(),
{
    if s.len() == 0 || s[0] == c {
        0
    } else {
        1 + position(s.drop_first(), c)
    }
}

/// Where `c` first stands in a text; the length of the text where it does not stand in it.
pub fn find(s: &[char], c: char) -> (r: usize)
    ensures
        r == position(s@, c),
        r <= s@.len(),
        r < s@.len() ==> s@[r as int] == c,
{
    let mut i: usize = 0;
    assert(s@.skip(0) =~= s@);
    while i < s.len() && s[i] != c
        invariant
            i <= s@.len(),
            position(s@, c) == i + position(s@.skip(i as int), c),
        decreases s@.len() - i,
    {
        assert(s@.skip(i as int).drop_first() =~= s@.skip(i + 1));
        i += 1;
    }
    i
}

/// Whether two texts are the same.
pub fn same_chars(a: &[char], b: &[char]) -> (r: bool)
    ensures
        r == (a@ == b@),
{
    if a.len() != b.len() {
        return false;
    }
    let mut i: usize = 0;
    while i < a.len()
        invariant
            i <= a@.len(),
            a@.len() == b@.len(),
            a@.take(i as int) == b@.take(i as int),
        decreases a@.len() - i,
    {
        if a[i] != b[i] {
            assert(a@[i as int] != b@[i as int]);
            return false;
        }
        assert(a@.take(i + 1) =~= a@.take(i as int).push(a@[i as int]));
        assert(b@.take(i + 1) =~= b@.take(i as int).push(b@[i as int]));
        i += 1;
    }
    assert(a@.take(i as int) =~= a@);
    assert(b@.take(i as int) =~= b@);
    true
}

/// Whether text is the given literal.
pub fn is_text(a: &[char], lit: &str) -> (r: bool)
    ensures
        r == (a@ == lit@),
{
    let b: Vec<char> = chars_of(lit);
    same_chars(a, b.as_slice())
}

/// Whether a text occurs within another.
pub open spec fn occurs(needle: Seq<char>, hay: Seq<char>) -> bool {
    exists|i: int|
        0 <= i && i + needle.len() <= hay.len() && #[trigger] hay.subrange(i, i + needle.len())
            == needle
}

/// Whether a text occurs within another.
pub fn contains(hay: &[char], needle: &[char]) -> (r: bool)
    ensures
        r == occurs(needle@, hay@),
{
    let n: usize = needle.len();
    if n == 0 {
        assert(hay@.subrange(0, 0int + needle@.len()) =~= needle@);
        return true;
    }
    if n > hay.len() {
        return false;
    }
    let mut i: usize = 0;
    while i <= hay.len() - n
        invariant
            n == needle@.len(),
            1 <= n <= hay@.len(),
            i <= hay@.len() - n + 1,
            forall|j: int| 0 <= j < i ==> #[trigger] hay@.subrange(j, j + n) != needle@,
        decreases hay@.len() - n + 1 - i,
    {
        let part: &[char] = vstd::slice::slice_subrange(hay, i, i + n);
        if same_chars(part, needle) {
            assert(hay@.subrange(i as int, i + needle@.len()) == needle@);
            return true;
        }
        i += 1;
    }
    false
}

/// Whether a literal occurs within a text.
pub fn contains_text(hay: &[char], needle: &str) -> (r: bool)
    ensures
        r == occurs(needle@, hay@),
{
    let n: Vec<char> = chars_of(needle);
    contains(hay, n.as_slice())
}

/// Whether two strings hold the same text.
pub fn same_text(a: &str, b: &str) -> (r: bool)
    ensures
        r == (a@ == b@),
{
    let x: Vec<char> = chars_of(a);
    let y: Vec<char> = chars_of(b);
    same_chars(x.as_slice(), y.as_slice())
}

/// Text without any white space.
pub open spec fn without_space(s: Seq<char>) -> Seq<char> {
    s.filter(|c: char| !is_white_space(c))
}

/// Text without any white space.
pub fn remove_space(s: &[char]) -> (r: Vec<char>)
    ensures
        r@ == without_space(s@),
{
    let mut r: Vec<char> = Vec::new();
    let ghost keep = |c: char| !is_white_space(c);
    let mut i: usize = 0;
    proof {
        reveal(Seq::filter);
        assert(s@.take(0) =~= Seq::<char>::empty());
    }
    while i < s.len()
        invariant
            i <= s@.len(),
            keep == (|c: char| !is_white_space(c)),
            r@ == s@.take(i as int).filter(keep),
        decreases s@.len() - i,
    {
        proof {
            reveal(Seq::filter);
            assert(s@.take(i + 1).drop_last() =~= s@.take(i as int));
        }
        if !white_space(s[i]) {
            r.push(s[i]);
        }
        i += 1;
    }
    assert(s@.take(s@.len() as int) =~= s@);
    r
}

// ─── Numbers ────────────────────────────────────────────────────────────────

/// The value of a digit character in a radix of at most 36.
pub open spec fn digit_value(c: char, radix: nat) -> Option<nat> {
    let v = if '0' <= c <= '9' {
        (c as u32 - '0' as u32) as nat
    } else if 'a' <= c <= 'z' {
        (c as u32 - 'a' as u32 + 10) as nat
    } else if 'A' <= c <= 'Z' {
        (c as u32 - 'A' as u32 + 10) as nat
    } else {
        36
    };
    if v < radix {
        Some(v)
    } else {
        None
    }
}

/// Whether the text is a non-empty run of digits.
pub open spec fn all_digits(s: Seq<char>, radix: nat) -> bool {
    s.len() > 0 && forall|i: int| 0 <= i < s.len() ==> digit_value(#[trigger] s[i], radix) is Some
}

/// The number that a run of digits writes, most significant digit first.
pub open spec fn digits_number(s: Seq<char>, radix: nat) -> nat
    decreases s.len(),
{
    if s.len() == 0 {
        0
    } else {
        digits_number(s.drop_last(), radix) * radix + digit_value(s.last(), radix).unwrap_or(0)
    }
}

/// The text without one leading `+`.
pub open spec fn strip_plus(s: Seq<char>) -> Seq<char> {
    if s.len() > 0 && s[0] == '+' {
        s.drop_first()
    } else {
        s
    }
}

/// The unsigned number written by `s`, where it is well formed and at most `max`.
pub open spec fn unsigned_number(s: Seq<char>, radix: nat, max: nat) -> Option<nat> {
    let t = strip_plus(s);
    if all_digits(t, radix) && digits_number(t, radix) <= max {
        Some(digits_number(t, radix))
    } else {
        None
    }
}

/// The signed decimal number written by `s`, where it is well formed and within `min ..= max`.
pub open spec fn signed_number(s: Seq<char>, min: int, max: int) -> Option<int> {
    if s.len() > 0 && s[0] == '-' {
        let t = s.drop_first();
        if all_digits(t, 10) && -digits_number(t, 10) >= min {
            Some(-digits_number(t, 10))
        } else {
            None
        }
    } else {
        let t = strip_plus(s);
        if all_digits(t, 10) && digits_number(t, 10) <= max {
            Some(digits_number(t, 10) as int)
        } else {
            None
        }
    }
}

fn digit(c: char, radix: u32) -> (r: Option<u32>)
    requires
        radix <= 36,
    ensures
        r is Some == digit_value(c, radix as nat) is Some,
        r is Some ==> r->0 as nat == digit_value(c, radix as nat)->0 && r->0 < radix,
{
    let v: u32 = if '0' <= c && c <= '9' {
        c as u32 - '0' as u32
    } else if 'a' <= c && c <= 'z' {
        c as u32 - 'a' as u32 + 10
    } else if 'A' <= c && c <= 'Z' {
        c as u32 - 'A' as u32 + 10
    } else {
        36
    };
    if v < radix {
        Some(v)
    } else {
        None
    }
}

proof fn lemma_digits_number_monotone(s: Seq<char>, i: int, j: int, radix: nat)
    requires
        0 <= i <= j <= s.len(),
        radix >= 1,
    ensures
        digits_number(s.take(i), radix) <= digits_number(s.take(j), radix),
    decreases j - i,
{
    if i < j {
        lemma_digits_number_monotone(s, i, j - 1, radix);
        assert(s.take(j).drop_last() =~= s.take(j - 1));
        let d = digits_number(s.take(j - 1), radix);
        assert(d * radix >= d) by (nonlinear_arith)
            requires
                radix >= 1,
        ;
    }
}

/// Parses a run of digits whose value must not exceed `max`.
fn parse_digits(s: &[char], radix: u32, max: u64) -> (r: Option<u64>)
    requires
        2 <= radix <= 36,
    ensures
        r is Some == (all_digits(s@, radix as nat) && digits_number(s@, radix as nat) <= max),
        r is Some ==> r->0 as nat == digits_number(s@, radix as nat),
{
    if s.len() == 0 {
        return None;
    }
    let mut v: u64 = 0;
    let mut i: usize = 0;
    assert(s@.take(0) =~= Seq::<char>::empty());
    while i < s.len()
        invariant
            i <= s@.len(),
            2 <= radix <= 36,
            v <= max,
            v as nat == digits_number(s@.take(i as int), radix as nat),
            forall|k: int|
                0 <= k < i ==> digit_value(#[trigger] s@[k], radix as nat) is Some,
        decreases s@.len() - i,
    {
        let ghost before = s@.take(i as int);
        let ghost after = s@.take(i + 1);
        proof {
            assert(after.drop_last() =~= before);
            lemma_digits_number_monotone(s@, i + 1, s@.len() as int, radix as nat);
            assert(s@.take(s@.len() as int) =~= s@);
        }
        match digit(s[i], radix) {
            None => {
                return None;
            },
            Some(d) => {
                assert(v * radix <= 0xFFFF_FFFF_FFFF_FFFF * 36) by (nonlinear_arith)
                    requires
                        v <= 0xFFFF_FFFF_FFFF_FFFF,
                        radix <= 36,
                ;
                let w: u128 = (v as u128) * (radix as u128) + (d as u128);
                if w > max as u128 {
                    return None;
                }
                v = w as u64;
            },
        }
        i += 1;
    }
    assert(s@.take(s@.len() as int) =~= s@);
    Some(v)
}

/// Parses an unsigned number in the given radix, at most `max`.
pub fn parse_unsigned(s: &[char], radix: u32, max: u64) -> (r: Option<u64>)
    requires
        2 <= radix <= 36,
    ensures
        r is Some == unsigned_number(s@, radix as nat, max as nat) is Some,
        r is Some ==> r->0 as nat == unsigned_number(s@, radix as nat, max as nat)->0,
{
    if s.len() > 0 && s[0] == '+' {
        let t: &[char] = vstd::slice::slice_subrange(s, 1, s.len());
        assert(t@ =~= s@.drop_first());
        parse_digits(t, radix, max)
    } else {
        parse_digits(s, radix, max)
    }
}

/// Parses a signed decimal number within `min ..= max`.
pub fn parse_signed(s: &[char], min: i64, max: i64) -> (r: Option<i64>)
    requires
        min <= 0 <= max,
    ensures
        r is Some == signed_number(s@, min as int, max as int) is Some,
        r is Some ==> r->0 as int == signed_number(s@, min as int, max as int)->0,
{
    if s.len() > 0 && s[0] == '-' {
        let t: &[char] = vstd::slice::slice_subrange(s, 1, s.len());
        assert(t@ =~= s@.drop_first());
        let bound: u64 = (-(min as i128)) as u64;
        match parse_digits(t, 10, bound) {
            Some(v) => Some((-(v as i128)) as i64),
            None => None,
        }
    } else {
        match parse_unsigned(s, 10, max as u64) {
            Some(v) => Some(v as i64),
            None => None,
        }
    }
}

/// Whether the text starts with a hexadecimal prefix, `0x` or `0X`.
pub open spec fn has_hex_prefix(s: Seq<char>) -> bool {
    s.len() >= 2 && s[0] == '0' && (s[1] == 'x' || s[1] == 'X')
}

/// Whether the text ends with a hexadecimal suffix, `H` or `h`.
pub open spec fn has_hex_suffix(s: Seq<char>) -> bool {
    s.len() >= 1 && (s.last() == 'H' || s.last() == 'h')
}

/// The number written in decimal, in hexadecimal after `0x`, or in hexadecimal before `H`.
pub open spec fn auto_number(s: Seq<char>, max: nat) -> Option<nat> {
    if has_hex_prefix(s) {
        unsigned_number(s.skip(2), 16, max)
    } else if has_hex_suffix(s) {
        unsigned_number(s.drop_last(), 16, max)
    } else {
        unsigned_number(s, 10, max)
    }
}

/// Parses a number in decimal, `0x` or `H` notation, at most `max`.
pub fn parse_auto(s: &[char], max: u64) -> (r: Option<u64>)
    ensures
        r is Some == auto_number(s@, max as nat) is Some,
        r is Some ==> r->0 as nat == auto_number(s@, max as nat)->0,
{
    let n: usize = s.len();
    if n >= 2 && s[0] == '0' && (s[1] == 'x' || s[1] == 'X') {
        let t: &[char] = vstd::slice::slice_subrange(s, 2, n);
        assert(t@ =~= s@.skip(2));
        parse_unsigned(t, 16, max)
    } else if n >= 1 && (s[n - 1] == 'H' || s[n - 1] == 'h') {
        let t: &[char] = vstd::slice::slice_subrange(s, 0, n - 1);
        assert(t@ =~= s@.drop_last());
        parse_unsigned(t, 16, max)
    } else {
        parse_unsigned(s, 10, max)
    }
}

/// The character for a digit below 16.
pub open spec fn digit_char(d: nat, upper: bool) -> char {
    if d < 10 {
        (('0' as u32) + d) as char
    } else if upper {
        (('A' as u32) + (d - 10)) as char
    } else {
        (('a' as u32) + (d - 10)) as char
    }
}

/// `n` written in the given radix, without leading zeros.
pub open spec fn numeral(n: nat, radix: nat, upper: bool) -> Seq<char>
    decreases n,
{
    if radix < 2 || n < radix {
        seq![digit_char(n, upper)]
    } else {
        proof {
            assert(n / radix < n) by (nonlinear_arith)
                requires
                    radix >= 2,
                    n >= radix,
            ;
        }
        numeral(n / radix, radix, upper).push(digit_char(n % radix, upper))
    }
}

/// `n` in decimal.
pub open spec fn decimal(n: nat) -> Seq<char> {
    numeral(n, 10, true)
}

/// A signed number in decimal.
pub open spec fn signed_decimal(n: int) -> Seq<char> {
    if n < 0 {
        seq!['-'] + decimal((-n) as nat)
    } else {
        decimal(n as nat)
    }
}

/// `s`, filled up on the left to at least `width` characters.
pub open spec fn padded(s: Seq<char>, width: nat, fill: char) -> Seq<char> {
    if s.len() >= width {
        s
    } else {
        Seq::new((width - s.len()) as nat, |i: int| fill) + s
    }
}

/// `s`, filled up with spaces on the right to at least `width` characters.
pub open spec fn left_aligned(s: Seq<char>, width: nat) -> Seq<char> {
    if s.len() >= width {
        s
    } else {
        s + Seq::new((width - s.len()) as nat, |i: int| ' ')
    }
}

/// `n` in upper-case hexadecimal with at least `width` digits.
pub open spec fn hex_padded(n: nat, width: nat) -> Seq<char> {
    padded(numeral(n, 16, true), width, '0')
}

fn digit_to_char(d: u32, upper: bool) -> (c: char)
    requires
        d < 16,
    ensures
        c == digit_char(d as nat, upper),
{
    if d < 10 {
        match d {
            0 => '0',
            1 => '1',
            2 => '2',
            3 => '3',
            4 => '4',
            5 => '5',
            6 => '6',
            7 => '7',
            8 => '8',
            _ => '9',
        }
    } else if upper {
        match d {
            10 => 'A',
            11 => 'B',
            12 => 'C',
            13 => 'D',
            14 => 'E',
            _ => 'F',
        }
    } else {
        match d {
            10 => 'a',
            11 => 'b',
            12 => 'c',
            13 => 'd',
            14 => 'e',
            _ => 'f',
        }
    }
}

/// Writes `n` in the given radix.
pub fn write_numeral(n: u64, radix: u32, upper: bool) -> (r: Vec<char>)
    requires
        2 <= radix <= 16,
    ensures
        r@ == numeral(n as nat, radix as nat, upper),
    decreases n,
{
    if n < radix as u64 {
        vec![digit_to_char(n as u32, upper)]
    } else {
        assert(n / (radix as u64) < n) by (nonlinear_arith)
            requires
                n >= radix,
                radix >= 2,
        ;
        let mut r: Vec<char> = write_numeral(n / radix as u64, radix, upper);
        r.push(digit_to_char((n % radix as u64) as u32, upper));
        r
    }
}

/// Writes `n`, filled up on the left to `width` characters.
pub fn write_padded(s: &[char], width: usize, fill: char) -> (r: Vec<char>)
    ensures
        r@ == padded(s@, width as nat, fill),
{
    let mut r: Vec<char> = Vec::new();
    if s.len() < width {
        let k: usize = width - s.len();
        let mut i: usize = 0;
        while i < k
            invariant
                i <= k,
                r@ == Seq::new(i as nat, |j: int| fill),
            decreases k - i,
        {
            r.push(fill);
            assert(r@ =~= Seq::new((i + 1) as nat, |j: int| fill));
            i += 1;
        }
    }
    let ghost head = r@;
    r.extend_from_slice(s);
    assert(r@ =~= head + s@);
    r
}

/// Appends characters to a string.
pub fn push_chars(out: &mut String, s: &[char])
    ensures
        final(out)@ == old(out)@ + s@,
{
    let mut i: usize = 0;
    while i < s.len()
        invariant
            i <= s@.len(),
            out@ == old(out)@ + s@.take(i as int),
        decreases s@.len() - i,
    {
        out.push(s[i]);
        assert(s@.take(i + 1) =~= s@.take(i as int).push(s@[i as int]));
        i += 1;
    }
    assert(s@.take(s@.len() as int) =~= s@);
}

/// Appends a literal to a string.
pub fn push_str(out: &mut String, s: &str)
    ensures
        final(out)@ == old(out)@ + s@,
{
    out.append(s);
}

/// Two texts, one after the other.
pub fn join2(a: &str, b: &str) -> (r: String)
    ensures
        r@ == a@ + b@,
{
    let mut s: String = a.to_owned();
    s.append(b);
    s
}

/// Appends `s`, filled up with spaces on the right to at least `width` characters.
pub fn push_left_aligned(out: &mut String, s: &str, width: usize)
    ensures
        final(out)@ == old(out)@ + left_aligned(s@, width as nat),
{
    push_str(out, s);
    let mut n: usize = chars_of(s).len();
    let ghost full = out@;
    let ghost len = n;
    while n < width
        invariant
            len <= n,
            len >= width ==> n == len,
            len < width ==> n <= width,
            out@ == full + Seq::new((n - len) as nat, |i: int| ' '),
        decreases width - n,
    {
        out.push(' ');
        n += 1;
        assert(out@ =~= full + Seq::new((n - len) as nat, |i: int| ' '));
    }
    assert(out@ =~= old(out)@ + left_aligned(s@, width as nat));
}

/// Appends `n` in decimal.
pub fn push_decimal(out: &mut String, n: u64)
    ensures
        final(out)@ == old(out)@ + decimal(n as nat),
{
    let d: Vec<char> = write_numeral(n, 10, true);
    push_chars(out, d.as_slice());
}

/// Appends `n` in decimal, filled up on the left to at least `width` characters.
pub fn push_decimal_padded(out: &mut String, n: u64, width: usize, fill: char)
    ensures
        final(out)@ == old(out)@ + padded(decimal(n as nat), width as nat, fill),
{
    let d: Vec<char> = write_numeral(n, 10, true);
    let p: Vec<char> = write_padded(d.as_slice(), width, fill);
    push_chars(out, p.as_slice());
}

/// Appends a signed number in decimal.
pub fn push_signed(out: &mut String, n: i64)
    ensures
        final(out)@ == old(out)@ + signed_decimal(n as int),
{
    if n < 0 {
        out.push('-');
        push_decimal(out, (-(n as i128)) as u64);
        assert(out@ =~= old(out)@ + (seq!['-'] + decimal((-n) as nat)));
    } else {
        push_decimal(out, n as u64);
    }
}

/// Appends `n` in upper-case hexadecimal with at least `width` digits.
pub fn push_hex(out: &mut String, n: u64, width: usize)
    ensures
        final(out)@ == old(out)@ + hex_padded(n as nat, width as nat),
{
    let d: Vec<char> = write_numeral(n, 16, true);
    let p: Vec<char> = write_padded(d.as_slice(), width, '0');
    push_chars(out, p.as_slice());
}

/// Texts one after the other, with `sep` between them.
pub open spec fn joined(parts: Seq<Seq<char>>, sep: Seq<char>) -> Seq<char>
    decreases parts.len(),
{
    if parts.len() == 0 {
        Seq::empty()
    } else if parts.len() == 1 {
        parts[0]
    } else {
        joined(parts.drop_last(), sep) + sep + parts.last()
    }
}

/// The texts of string slices.
pub open spec fn texts(parts: Seq<&str>) -> Seq<Seq<char>> {
    parts.map_values(|p: &str| p@)
}

/// Joins texts, with `sep` between them.
pub fn join(parts: &Vec<&str>, sep: &str) -> (r: String)
    ensures
        r@ == joined(texts(parts@), sep@),
{
    let mut out: String = String::new();
    let mut i: usize = 0;
    assert(texts(parts@).take(0) =~= Seq::<Seq<char>>::empty());
    while i < parts.len()
        invariant
            i <= parts@.len(),
            out@ == joined(texts(parts@).take(i as int), sep@),
        decreases parts@.len() - i,
    {
        assert(texts(parts@).take(i + 1).drop_last() =~= texts(parts@).take(i as int));
        if i > 0 {
            out.append(sep);
        }
        out.append(parts[i]);
        i += 1;
        assert(out@ =~= joined(texts(parts@).take(i as int), sep@));
    }
    assert(texts(parts@).take(parts@.len() as int) =~= texts(parts@));
    out
}

/// The error message of `u32::from_str_radix` for text that writes no such number.
pub uninterp spec fn integer_error_text(s: Seq<char>, radix: u32) -> Seq<char>;

/// `u32::from_str_radix`: an optional `+`, then at least one digit, within range. The error is
/// handed on as its message, which depends on the text and the radix alone.
#[verifier::external_body]
pub(crate) fn u32_from_radix(s: &str, radix: u32) -> (r: Result<u32, String>)
    requires
        2 <= radix <= 36,
    ensures
        r is Ok == unsigned_number(s@, radix as nat, 0xFFFF_FFFF) is Some,
        r is Ok ==> r->Ok_0 as nat == unsigned_number(s@, radix as nat, 0xFFFF_FFFF)->0,
        r is Err ==> r->Err_0@ == integer_error_text(s@, radix),
{
    u32::from_str_radix(s, radix).map_err(|e| e.to_string())
}

/// Bytes as two-digit upper-case hexadecimal numbers, with `sep` between them.
pub open spec fn hex_joined(bytes: Seq<u8>, sep: Seq<char>) -> Seq<char>
    decreases bytes.len(),
{
    if bytes.len() == 0 {
        Seq::empty()
    } else if bytes.len() == 1 {
        hex_padded(bytes[0] as nat, 2)
    } else {
        hex_joined(bytes.drop_last(), sep) + sep + hex_padded(bytes.last() as nat, 2)
    }
}

/// Appends bytes as two-digit hexadecimal numbers, with `sep` between them.
pub fn push_hex_bytes(out: &mut String, bytes: &[u8], sep: &str)
    ensures
        final(out)@ == old(out)@ + hex_joined(bytes@, sep@),
{
    let mut i: usize = 0;
    assert(bytes@.take(0) =~= Seq::<u8>::empty());
    while i < bytes.len()
        invariant
            i <= bytes@.len(),
            out@ == old(out)@ + hex_joined(bytes@.take(i as int), sep@),
        decreases bytes@.len() - i,
    {
        assert(bytes@.take(i + 1).drop_last() =~= bytes@.take(i as int));
        if i > 0 {
            out.append(sep);
        }
        push_hex(out, bytes[i] as u64, 2);
        assert(out@ =~= old(out)@ + hex_joined(bytes@.take(i + 1), sep@));
        i += 1;
    }
    assert(bytes@.take(bytes@.len() as int) =~= bytes@);
}

// ─── Order ──────────────────────────────────────────────────────────────────

/// Whether a text comes before another: character by character, a prefix before the longer text.
pub open spec fn less(a: Seq<char>, b: Seq<char>) -> bool
    decreases a.len(),
{
    if b.len() == 0 {
        false
    } else if a.len() == 0 {
        true
    } else if a[0] != b[0] {
        a[0] < b[0]
    } else {
        less(a.drop_first(), b.drop_first())
    }
}

/// Whether a text comes before another.
pub fn comes_before(a: &[char], b: &[char]) -> (r: bool)
    ensures
        r == less(a@, b@),
{
    let mut i: usize = 0;
    assert(a@.skip(0) =~= a@);
    assert(b@.skip(0) =~= b@);
    while i < a.len() && i < b.len()
        invariant
            i <= a@.len(),
            i <= b@.len(),
            less(a@.skip(i as int), b@.skip(i as int)) == less(a@, b@),
        decreases a@.len() - i,
    {
        if a[i] != b[i] {
            return a[i] < b[i];
        }
        assert(a@.skip(i as int).drop_first() =~= a@.skip(i + 1));
        assert(b@.skip(i as int).drop_first() =~= b@.skip(i + 1));
        i += 1;
    }
    i < b.len()
}

/// No text comes before itself, and of two texts that each come before the next, the first comes
/// before the last; of two different texts one comes before the other.
pub proof fn law_order(a: Seq<char>, b: Seq<char>, c: Seq<char>)
    ensures
        !less(a, a),
        less(a, b) && less(b, c) ==> less(a, c),
        a == b || less(a, b) || less(b, a),
    decreases a.len(),
{
    if a.len() > 0 {
        law_order(a.drop_first(), b.drop_first(), c.drop_first());
        if b.len() > 0 && a[0] == b[0] && a.drop_first() == b.drop_first() {
            assert(a =~= seq![a[0]] + a.drop_first());
            assert(b =~= seq![b[0]] + b.drop_first());
        }
    } else if b.len() == 0 {
        assert(a =~= b);
    }
}

/// Whether item `i` is to stand before item `j`: by their texts, then by their numbers.
pub open spec fn ranks_before(keys: Seq<Seq<char>>, i: int, j: int) -> bool {
    less(keys[i], keys[j]) || (keys[i] == keys[j] && i < j)
}

/// Whether `order` holds the numbers below `n`, each once, in the order of the items' texts.
pub open spec fn is_ranking(keys: Seq<Seq<char>>, n: int, order: Seq<usize>) -> bool {
    &&& order.len() == n
    &&& forall|i: int| 0 <= i < n ==> (#[trigger] order[i]) < n
    &&& forall|i: int, j: int|
        0 <= i < j < n ==> ranks_before(keys, #[trigger] order[i] as int, #[trigger] order[j] as int)
}

/// The texts of character vectors.
pub open spec fn char_views(keys: Seq<Vec<char>>) -> Seq<Seq<char>> {
    keys.map_values(|k: Vec<char>| k@)
}

/// Sorts items by their texts; items with the same text stay in their order.
pub fn ranking(keys: &Vec<Vec<char>>) -> (r: Vec<usize>)
    ensures
        is_ranking(char_views(keys@), keys@.len() as int, r@),
{
    let ghost all = char_views(keys@);
    let mut order: Vec<usize> = Vec::new();
    let mut k: usize = 0;
    while k < keys.len()
        invariant
            k <= keys@.len(),
            all == char_views(keys@),
            is_ranking(all, k as int, order@),
        decreases keys@.len() - k,
    {
        let mut p: usize = k;
        while p > 0 && comes_before(keys[k].as_slice(), keys[order[p - 1]].as_slice())
            invariant
                p <= k,
                k < keys@.len(),
                all == char_views(keys@),
                is_ranking(all, k as int, order@),
                forall|q: int| p <= q < k ==> less(all[k as int], all[#[trigger] order@[q] as int]),
            decreases p,
        {
            p -= 1;
        }
        proof {
            if p > 0 {
                let last = order@[p - 1] as int;
                law_order(all[last], all[k as int], all[last]);
                assert(ranks_before(all, last, k as int));
                assert forall|q: int| 0 <= q < p implies ranks_before(
                    all,
                    #[trigger] order@[q] as int,
                    k as int,
                ) by {
                    law_order(all[order@[q] as int], all[last], all[k as int]);
                    if q < p - 1 {
                        assert(ranks_before(all, order@[q] as int, order@[p - 1] as int));
                    }
                }
            }
        }
        let ghost before = order@;
        order.insert(p, k);
        proof {
            assert forall|i: int, j: int| 0 <= i < j < k + 1 implies ranks_before(
                all,
                #[trigger] order@[i] as int,
                #[trigger] order@[j] as int,
            ) by {
                let bi = if i < p {
                    i
                } else {
                    i - 1
                };
                let bj = if j < p {
                    j
                } else {
                    j - 1
                };
                if i != p && j != p {
                    assert(ranks_before(all, before[bi] as int, before[bj] as int));
                } else if i == p {
                    assert(less(all[k as int], all[before[bj] as int]));
                } else {
                    assert(ranks_before(all, before[bi] as int, k as int));
                }
            }
        }
        k += 1;
    }
    order
}

/// Whether `sorted` holds the texts of `keys` in order.
pub open spec fn is_sorted_form(keys: Seq<Seq<char>>, sorted: Seq<Seq<char>>) -> bool {
    exists|order: Seq<usize>| #[trigger]
        is_ranking(keys, keys.len() as int, order) && sorted == order.map_values(
            |i: usize| keys[i as int],
        )
}

/// The texts of strings.
pub open spec fn string_views(s: Seq<String>) -> Seq<Seq<char>> {
    s.map_values(|t: String| t@)
}

/// Sorts texts.
pub fn sort_texts(keys: &Vec<String>) -> (r: Vec<String>)
    ensures
        is_sorted_form(string_views(keys@), string_views(r@)),
{
    let ghost all = string_views(keys@);
    let mut chars: Vec<Vec<char>> = Vec::new();
    let mut i: usize = 0;
    while i < keys.len()
        invariant
            i <= keys@.len(),
            all == string_views(keys@),
            chars@.len() == i,
            forall|j: int| 0 <= j < i ==> (#[trigger] chars@[j])@ == all[j],
        decreases keys@.len() - i,
    {
        chars.push(chars_of(keys[i].as_str()));
        i += 1;
    }
    assert(char_views(chars@) =~= all);
    let order: Vec<usize> = ranking(&chars);
    let mut out: Vec<String> = Vec::new();
    let mut k: usize = 0;
    while k < order.len()
        invariant
            k <= order@.len(),
            all == string_views(keys@),
            is_ranking(all, all.len() as int, order@),
            out@.len() == k,
            forall|j: int| 0 <= j < k ==> (#[trigger] out@[j])@ == all[order@[j] as int],
        decreases order@.len() - k,
    {
        out.push(keys[order[k]].clone());
        k += 1;
    }
    assert(string_views(out@) =~= order@.map_values(|i: usize| all[i as int]));
    out
}

/// A ranking holds every number.
pub proof fn lemma_ranking_total(keys: Seq<Seq<char>>, n: int, order: Seq<usize>, x: int)
    requires
        is_ranking(keys, n, order),
        0 <= x < n,
    ensures
        exists|a: int| 0 <= a < order.len() && order[a] == x,
{
    assert(order.no_duplicates()) by {
        assert forall|i: int, j: int| 0 <= i < order.len() && 0 <= j < order.len() && i
            != j implies order[i] != order[j] by {
            let a = if i < j {
                i
            } else {
                j
            };
            let b = if i < j {
                j
            } else {
                i
            };
            assert(ranks_before(keys, order[a] as int, order[b] as int));
            law_order(keys[order[a] as int], keys[order[b] as int], keys[order[a] as int]);
        }
    }
    let s = order.map_values(|u: usize| u as int);
    assert(s.no_duplicates());
    s.unique_seq_to_set();
    let all = vstd::set_lib::set_int_range(0, n);
    vstd::set_lib::lemma_int_range(0, n);
    assert forall|y: int| s.to_set().contains(y) implies all.contains(y) by {
        let i = choose|i: int| 0 <= i < s.len() && s[i] == y;
        assert(order[i] < n);
    }
    vstd::set_lib::lemma_subset_equality(s.to_set(), all);
    assert(s.to_set().contains(x));
    let a = choose|a: int| 0 <= a < s.len() && s[a] == x;
    assert(order[a] == x);
}

// ─── Laws of numbers ────────────────────────────────────────────────────────

/// A digit below 16 is read back from its character, in either case.
proof fn lemma_digit_read(d: nat, radix: nat, upper: bool)
    requires
        d < radix <= 16,
    ensures
        digit_value(digit_char(d, upper), radix) == Some(d),
{
    if d < 10 {
        let c = (('0' as u32) + d) as char;
        assert(c as u32 == 48 + d);
    } else if upper {
        let c = (('A' as u32) + (d - 10)) as char;
        assert(c as u32 == 65 + (d - 10));
    } else {
        let c = (('a' as u32) + (d - 10)) as char;
        assert(c as u32 == 97 + (d - 10));
    }
}

/// What is written of a number is read back as that number, in every radix up to 16 and in either
/// case, and starts with no sign.
#[verifier::spinoff_prover]
pub proof fn law_numeral_read_back(n: nat, radix: nat, upper: bool)
    requires
        2 <= radix <= 16,
    ensures
        all_digits(numeral(n, radix, upper), radix),
        digits_number(numeral(n, radix, upper), radix) == n,
        forall|i: int|
            0 <= i < numeral(n, radix, upper).len() ==> {
                let c = #[trigger] numeral(n, radix, upper)[i];
                '0' <= c <= '9' || 'A' <= c <= 'F' || 'a' <= c <= 'f'
            },
    decreases n,
{
    let s = numeral(n, radix, upper);
    if n < radix {
        lemma_digit_read(n, radix, upper);
        assert(s.drop_last() =~= seq![]);
        assert(digits_number(s.drop_last(), radix) == 0);
        assert(0 * radix == 0);
        assert(s[0] == digit_char(n, upper));
    } else {
        vstd::arithmetic::div_mod::lemma_fundamental_div_mod(n as int, radix as int);
        vstd::arithmetic::div_mod::lemma_mod_bound(n as int, radix as int);
        assert(n / radix < n) by (nonlinear_arith)
            requires
                radix >= 2,
                n >= radix,
        ;
        law_numeral_read_back(n / radix, radix, upper);
        lemma_digit_read(n % radix, radix, upper);
        let head = numeral(n / radix, radix, upper);
        assert(s.drop_last() =~= head);
        assert(s.last() == digit_char(n % radix, upper));
        assert(digits_number(s, radix) == (n / radix) * radix + n % radix);
        assert((n / radix) * radix == radix * (n / radix)) by (nonlinear_arith);
        assert forall|i: int| 0 <= i < s.len() implies {
            let c = #[trigger] s[i];
            &&& digit_value(c, radix) is Some
            &&& '0' <= c <= '9' || 'A' <= c <= 'F' || 'a' <= c <= 'f'
        } by {
            if i < head.len() {
                assert(s[i] == head[i]);
            }
        }
    }
}

/// Zeros in front of a number do not change it.
#[verifier::spinoff_prover]
proof fn lemma_leading_zeros(s: Seq<char>, zeros: nat, radix: nat)
    requires
        all_digits(s, radix),
        radix >= 1,
    ensures
        all_digits(Seq::new(zeros, |i: int| '0') + s, radix),
        digits_number(Seq::new(zeros, |i: int| '0') + s, radix) == digits_number(s, radix),
    decreases s.len(),
{
    let z = Seq::new(zeros, |i: int| '0');
    let t = z + s;
    assert forall|i: int| 0 <= i < t.len() implies digit_value(#[trigger] t[i], radix) is Some by {
        if i >= zeros {
            assert(t[i] == s[i - zeros]);
        }
    }
    assert(t.drop_last() =~= z + s.drop_last());
    assert(t.last() == s.last());
    if s.len() == 1 {
        assert(s.drop_last() =~= seq![]);
        assert(z + s.drop_last() =~= z);
        lemma_zeros_are_zero(zeros, radix);
        assert(digits_number(t.drop_last(), radix) == digits_number(s.drop_last(), radix));
    } else {
        assert(all_digits(s.drop_last(), radix));
        lemma_leading_zeros(s.drop_last(), zeros, radix);
    }
}

proof fn lemma_zeros_are_zero(zeros: nat, radix: nat)
    ensures
        digits_number(Seq::new(zeros, |i: int| '0'), radix) == 0,
    decreases zeros,
{
    let z = Seq::new(zeros, |i: int| '0');
    if zeros > 0 {
        lemma_zeros_are_zero((zeros - 1) as nat, radix);
        assert(z.drop_last() =~= Seq::new((zeros - 1) as nat, |i: int| '0'));
        assert(digit_value('0', radix).unwrap_or(0) == 0);
        assert(0 * radix == 0);
    }
}

/// The number, where it is within a limit.
pub open spec fn within(n: nat, max: nat) -> Option<nat> {
    if n <= max {
        Some(n)
    } else {
        None
    }
}

/// A number up to a limit is accepted in decimal, with a plus sign or without; a number beyond the
/// limit is not.
#[verifier::spinoff_prover]
pub proof fn law_decimal_notation(n: nat, max: nat)
    ensures
        auto_number(decimal(n), max) == within(n, max),
        auto_number(seq!['+'] + decimal(n), max) == within(n, max),
        unsigned_number(decimal(n), 10, max) == within(n, max),
{
    law_numeral_read_back(n, 10, true);
    let d = decimal(n);
    let p = seq!['+'] + d;
    assert(digit_value(d[0], 10) is Some);
    assert(digit_value(d[d.len() - 1], 10) is Some);
    if d.len() >= 2 {
        assert(digit_value(d[1], 10) is Some);
    }
    assert(p.last() == d.last());
    assert(p.drop_first() =~= d);
}

/// Digits behind `0x` or `0X` are read in hexadecimal.
proof fn lemma_prefixed_digits(t: Seq<char>, x: char, max: nat)
    requires
        all_digits(t, 16),
        x == 'x' || x == 'X',
    ensures
        auto_number(seq!['0', x] + t, max) == within(digits_number(t, 16), max),
{
    let s = seq!['0', x] + t;
    assert(digit_value(t[0], 16) is Some);
    assert(s[0] == '0' && s[1] == x);
    assert(s.skip(2) =~= t);
}

/// A number up to a limit is accepted in hexadecimal behind `0x` or `0X`, in either case and with
/// zeros in front or without; a number beyond the limit is not.
#[verifier::spinoff_prover]
pub proof fn law_prefixed_notation(n: nat, max: nat, width: nat, upper: bool)
    ensures
        auto_number(seq!['0', 'x'] + hex_padded(n, width), max) == within(n, max),
        auto_number(seq!['0', 'X'] + numeral(n, 16, upper), max) == within(n, max),
{
    law_numeral_read_back(n, 16, upper);
    law_hex_width(n, width);
    lemma_prefixed_digits(hex_padded(n, width), 'x', max);
    lemma_prefixed_digits(numeral(n, 16, upper), 'X', max);
}

/// A number up to a limit is accepted in hexadecimal before `H` or `h`; a number beyond the limit
/// is not.
#[verifier::spinoff_prover]
pub proof fn law_suffixed_notation(n: nat, max: nat, upper: bool)
    ensures
        auto_number(numeral(n, 16, upper).push('H'), max) == within(n, max),
        auto_number(numeral(n, 16, upper).push('h'), max) == within(n, max),
{
    law_numeral_read_back(n, 16, upper);
    let x = numeral(n, 16, upper);
    let a = x.push('H');
    let b = x.push('h');
    assert(digit_value(x[0], 16) is Some);
    if x.len() >= 2 {
        assert(digit_value(x[1], 16) is Some);
    }
    assert(a.drop_last() =~= x);
    assert(b.drop_last() =~= x);
}

/// A signed number within its limits is read back from its decimal text.
#[verifier::spinoff_prover]
pub proof fn law_signed_read_back(n: int, min: int, max: int)
    requires
        min <= 0 <= max,
    ensures
        signed_number(signed_decimal(n), min, max) == (if min <= n <= max {
            Some(n)
        } else {
            None
        }),
{
    let m = if n < 0 {
        (-n) as nat
    } else {
        n as nat
    };
    law_numeral_read_back(m, 10, true);
    let d = decimal(m);
    assert(digit_value(d[0], 10) is Some);
    if n < 0 {
        assert(signed_decimal(n).drop_first() =~= d);
    }
}

/// Hexadecimal text has at least the wanted number of digits, and writes the number.
pub proof fn law_hex_width(n: nat, width: nat)
    ensures
        hex_padded(n, width).len() >= width,
        all_digits(hex_padded(n, width), 16),
        digits_number(hex_padded(n, width), 16) == n,
{
    law_numeral_read_back(n, 16, true);
    let x = numeral(n, 16, true);
    if x.len() < width {
        lemma_leading_zeros(x, (width - x.len()) as nat, 16);
    }
}

/// Trimming takes white space off both ends, and nothing else: what is left is a part of the text
/// that neither starts nor ends with white space, and what was taken off is white space.
pub proof fn law_trimmed_part(s: Seq<char>)
    ensures
        ({
            let t = trimmed(s);
            &&& t.len() > 0 ==> !is_white_space(t[0]) && !is_white_space(t.last())
            &&& exists|i: int|
                0 <= i && i + t.len() <= s.len() && #[trigger] s.subrange(i, i + t.len()) == t && (
                forall|k: int| 0 <= k < i ==> is_white_space(#[trigger] s[k])) && (forall|k: int|
                    i + t.len() <= k < s.len() ==> is_white_space(#[trigger] s[k]))
        }),
{
    let u = trim_start(s);
    lemma_trim_start_part(s);
    lemma_trim_end_part(u);
    let i = s.len() - u.len();
    let t = trimmed(s);
    assert(t == trim_end(u));
    assert(s.subrange(i, i + t.len()) =~= t);
    assert forall|k: int| i + t.len() <= k < s.len() implies is_white_space(#[trigger] s[k]) by {
        assert(u[k - i] == s[k]);
    }
    if t.len() > 0 {
        assert(t[0] == u[0]);
    }
}

proof fn lemma_trim_start_part(s: Seq<char>)
    ensures
        ({
            let t = trim_start(s);
            &&& t.len() <= s.len()
            &&& t == s.skip(s.len() - t.len())
            &&& t.len() > 0 ==> !is_white_space(t[0])
            &&& forall|k: int| 0 <= k < s.len() - t.len() ==> is_white_space(#[trigger] s[k])
        }),
    decreases s.len(),
{
    if s.len() > 0 && is_white_space(s[0]) {
        let r = s.drop_first();
        lemma_trim_start_part(r);
        let t = trim_start(s);
        assert(t =~= s.skip(s.len() - t.len()));
        assert forall|k: int| 0 <= k < s.len() - t.len() implies is_white_space(#[trigger] s[k]) by {
            if k > 0 {
                assert(r[k - 1] == s[k]);
            }
        }
    } else {
        assert(s.skip(0) =~= s);
    }
}

proof fn lemma_trim_end_part(s: Seq<char>)
    ensures
        ({
            let t = trim_end(s);
            &&& t.len() <= s.len()
            &&& t == s.take(t.len() as int)
            &&& t.len() > 0 ==> !is_white_space(t.last())
            &&& forall|k: int| t.len() <= k < s.len() ==> is_white_space(#[trigger] s[k])
        }),
    decreases s.len(),
{
    if s.len() > 0 && is_white_space(s.last()) {
        let r = s.drop_last();
        lemma_trim_end_part(r);
        let t = trim_end(s);
        assert(t =~= s.take(t.len() as int));
        assert forall|k: int| t.len() <= k < s.len() implies is_white_space(#[trigger] s[k]) by {
            if k < r.len() {
                assert(r[k] == s[k]);
            }
        }
    } else {
        assert(s.take(s.len() as int) =~= s);
    }
}

/// What is left without trailing NULs does not end with one, and the text is that, followed by
/// NULs.
pub proof fn law_trailing_nuls_removed(s: Seq<char>)
    ensures
        ({
            let t = without_trailing_nul(s);
            &&& t.len() <= s.len()
            &&& s.take(t.len() as int) == t
            &&& t.len() > 0 ==> t.last() != '\0'
            &&& forall|k: int| t.len() <= k < s.len() ==> #[trigger] s[k] == '\0'
        }),
    decreases s.len(),
{
    if s.len() > 0 && s.last() == '\0' {
        let r = s.drop_last();
        law_trailing_nuls_removed(r);
        let t = without_trailing_nul(s);
        assert(s.take(t.len() as int) =~= t);
        assert forall|k: int| t.len() <= k < s.len() implies #[trigger] s[k] == '\0' by {
            if k < r.len() {
                assert(r[k] == s[k]);
            }
        }
    } else {
        assert(s.take(s.len() as int) =~= s);
    }
}

/// Text that neither starts nor ends with white space is not changed by trimming.
pub proof fn lemma_trimmed_same(s: Seq<char>)
    requires
        s.len() > 0 ==> !is_white_space(s[0]) && !is_white_space(s.last()),
    ensures
        trimmed(s) == s,
{
}

/// What is written of a number, with a sign or `0x` before it or without, has no white space.
#[verifier::spinoff_prover]
pub proof fn lemma_numerals_not_spaced(n: nat, radix: nat, width: nat)
    requires
        2 <= radix <= 16,
    ensures
        trimmed(numeral(n, radix, true)) == numeral(n, radix, true),
        trimmed(seq!['-'] + numeral(n, radix, true)) == seq!['-'] + numeral(n, radix, true),
        trimmed(seq!['0', 'x'] + hex_padded(n, width)) == seq!['0', 'x'] + hex_padded(n, width),
{
    law_numeral_read_back(n, radix, true);
    law_numeral_read_back(n, 16, true);
    let s = numeral(n, radix, true);
    let h = hex_padded(n, width);
    let x = numeral(n, 16, true);
    assert(s[0] == s[0 as int]);
    assert(s[s.len() - 1] == s.last());
    assert(x[x.len() - 1] == x.last());
    lemma_trimmed_same(s);
    let m = seq!['-'] + s;
    assert(m[0] == '-' && m.last() == s.last());
    lemma_trimmed_same(m);
    let p = seq!['0', 'x'] + h;
    assert(p[0] == '0' && p.last() == h.last() && h.last() == x.last());
    lemma_trimmed_same(p);
}

/// A number below a power of ten, filled up with zeros to so many digits, has exactly these many
/// and reads back.
#[verifier::spinoff_prover]
pub proof fn lemma_padded_number(n: nat, width: nat, max: nat)
    requires
        n <= max,
        (width == 2 && max == 99) || (width == 4 && max == 9999),
    ensures
        padded(decimal(n), width, '0').len() == width,
        digits_number(padded(decimal(n), width, '0'), 10) == n,
{
    law_numeral_read_back(n, 10, true);
    reveal_with_fuel(numeral, 4);
    let d = decimal(n);
    assert(d.len() <= width);
    if d.len() < width {
        lemma_leading_zeros(d, (width - d.len()) as nat, 10);
    }
}

} // verus!
