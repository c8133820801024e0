//! Decoding, encoding and session logic of a CAN / CANopen monitor.

pub mod adapters;
pub mod app;
pub mod bbd;
pub mod bytes;
pub mod canopen;
pub mod dbc;
pub mod dfu;
pub mod eds;
pub mod frame;
pub mod gui;
pub mod http_server;
pub mod logger;
pub mod session;
pub mod settings;
pub mod text;

use vstd::prelude::*;

verus! {

/// Text without its leading `v`s.
pub open spec fn without_v(s: Seq<char>) -> Seq<char>
    decreases s.len(),
{
    if s.len() > 0 && s[0] == 'v' {
        without_v(s.drop_first())
    } else {
        s
    }
}

/// The number of one part of a version.
pub open spec fn version_part(s: Seq<char>) -> Option<nat> {
    text::unsigned_number(s, 10, 255)
}

/// The three numbers of a version string such as `v0.2.0` or `v0.2.0-3-gabcdef`: white space
/// around it, leading `v`s and everything from the first `-` on do not count.
pub open spec fn version_numbers(s: Seq<char>) -> Option<(nat, nat, nat)> {
    let t = without_v(text::trimmed(s));
    let base = t.take(text::position(t, '-'));
    let first = text::position(base, '.');
    if first >= base.len() {
        None
    } else {
        let rest = base.skip(first + 1);
        let second = text::position(rest, '.');
        if second >= rest.len() {
            None
        } else {
            match (
                version_part(base.take(first)),
                version_part(rest.take(second)),
                version_part(rest.skip(second + 1)),
            ) {
                (Some(major), Some(minor), Some(patch)) => Some((major, minor, patch)),
                _ => None,
            }
        }
    }
}

/// Parses the version string of a build into major, minor and patch number; `None` where the
/// string has no such numbers.
pub fn bundled_firmware_version(version: &str) -> (r: Option<(u8, u8, u8)>)
    ensures
        r is Some == version_numbers(version@) is Some,
        r matches Some(v) ==> version_numbers(version@) == Some(
            (v.0 as nat, v.1 as nat, v.2 as nat),
        ),
{
    let trimmed: Vec<char> = text::trim(version);
    let mut start: usize = 0;
    assert(trimmed@.skip(0) =~= trimmed@);
    while start < trimmed.len() && trimmed[start] == 'v'
        invariant
            start <= trimmed@.len(),
            without_v(trimmed@.skip(start as int)) == without_v(trimmed@),
        decreases trimmed@.len() - start,
    {
        assert(trimmed@.skip(start as int).drop_first() =~= trimmed@.skip(start + 1));
        start += 1;
    }
    let t: &[char] = vstd::slice::slice_subrange(trimmed.as_slice(), start, trimmed.len());
    assert(t@ =~= without_v(trimmed@));
    let base: &[char] = vstd::slice::slice_subrange(t, 0, text::find(t, '-'));
    assert(base@ =~= t@.take(text::position(t@, '-')));
    let first: usize = text::find(base, '.');
    if first >= base.len() {
        return None;
    }
    let rest: &[char] = vstd::slice::slice_subrange(base, first + 1, base.len());
    assert(rest@ =~= base@.skip(first + 1));
    let second: usize = text::find(rest, '.');
    if second >= rest.len() {
        return None;
    }
    let a: &[char] = vstd::slice::slice_subrange(base, 0, first);
    assert(a@ =~= base@.take(first as int));
    let b: &[char] = vstd::slice::slice_subrange(rest, 0, second);
    assert(b@ =~= rest@.take(second as int));
    let c: &[char] = vstd::slice::slice_subrange(rest, second + 1, rest.len());
    assert(c@ =~= rest@.skip(second + 1));
    let major: u64 = match text::parse_unsigned(a, 10, 255) {
        Some(n) => n,
        None => {
            return None;
        },
    };
    let minor: u64 = match text::parse_unsigned(b, 10, 255) {
        Some(n) => n,
        None => {
            return None;
        },
    };
    let patch: u64 = match text::parse_unsigned(c, 10, 255) {
        Some(n) => n,
        None => {
            return None;
        },
    };
    Some((major as u8, minor as u8, patch as u8))
}

/// A version is read from its three numbers, with a `v` before them or without, and with anything
/// from a dash on behind them.
pub proof fn law_version_read(a: u8, b: u8, c: u8, suffix: Seq<char>)
    requires
        suffix.len() > 0 ==> suffix[0] == '-' && !text::is_white_space(suffix.last()),
    ensures
        ({
            let plain = text::decimal(a as nat) + seq!['.'] + text::decimal(b as nat) + seq!['.']
                + text::decimal(c as nat) + suffix;
            &&& version_numbers(plain) == Some((a as nat, b as nat, c as nat))
            &&& version_numbers(seq!['v'] + plain) == Some((a as nat, b as nat, c as nat))
        }),
{
    text::law_numeral_read_back(a as nat, 10, true);
    text::law_numeral_read_back(b as nat, 10, true);
    text::law_numeral_read_back(c as nat, 10, true);
    text::law_decimal_notation(a as nat, 255);
    text::law_decimal_notation(b as nat, 255);
    text::law_decimal_notation(c as nat, 255);
    lemma_version_parts(
        text::decimal(a as nat),
        text::decimal(b as nat),
        text::decimal(c as nat),
        suffix,
    );
}

proof fn lemma_version_parts(x: Seq<char>, y: Seq<char>, z: Seq<char>, suffix: Seq<char>)
    requires
        text::all_digits(x, 10),
        text::all_digits(y, 10),
        text::all_digits(z, 10),
        version_part(x) is Some,
        version_part(y) is Some,
        version_part(z) is Some,
        suffix.len() > 0 ==> suffix[0] == '-' && !text::is_white_space(suffix.last()),
    ensures
        ({
            let plain = x + seq!['.'] + y + seq!['.'] + z + suffix;
            let numbers = Some((version_part(x)->0, version_part(y)->0, version_part(z)->0));
            &&& version_numbers(plain) == numbers
            &&& version_numbers(seq!['v'] + plain) == numbers
        }),
{
    lemma_version_ends(x, y, z, suffix);
    lemma_stripped(x + seq!['.'] + y + seq!['.'] + z + suffix);
    lemma_base_split(x, y, z, suffix);
}

proof fn lemma_version_ends(x: Seq<char>, y: Seq<char>, z: Seq<char>, suffix: Seq<char>)
    requires
        text::all_digits(x, 10),
        text::all_digits(z, 10),
        suffix.len() > 0 ==> !text::is_white_space(suffix.last()),
    ensures
        ({
            let plain = x + seq!['.'] + y + seq!['.'] + z + suffix;
            &&& plain.len() > 0
            &&& plain[0] != 'v'
            &&& !text::is_white_space(plain[0])
            &&& !text::is_white_space(plain.last())
        }),
{
    let base = x + seq!['.'] + y + seq!['.'] + z;
    let plain = base + suffix;
    lemma_digits_plain(x);
    lemma_digits_plain(z);
    assert(plain[0] == x[0]);
    if suffix.len() > 0 {
        assert(plain.last() == suffix.last());
    } else {
        assert(plain.last() == z[z.len() - 1]);
    }
}

/// Of a text that starts with no white space and no `v` nothing is taken off.
proof fn lemma_stripped(plain: Seq<char>)
    requires
        plain.len() > 0,
        plain[0] != 'v',
        !text::is_white_space(plain[0]),
        !text::is_white_space(plain.last()),
    ensures
        without_v(text::trimmed(plain)) == plain,
        without_v(text::trimmed(seq!['v'] + plain)) == plain,
{
    text::lemma_trimmed_same(plain);
    let v = seq!['v'] + plain;
    assert(v[0] == 'v' && v.last() == plain.last());
    text::lemma_trimmed_same(v);
    assert(v.drop_first() =~= plain);
    assert(without_v(v) == without_v(plain));
}

/// Where the dots and the dash of a version stand, and what stands between them.
proof fn lemma_base_split(x: Seq<char>, y: Seq<char>, z: Seq<char>, suffix: Seq<char>)
    requires
        text::all_digits(x, 10),
        text::all_digits(y, 10),
        text::all_digits(z, 10),
        suffix.len() > 0 ==> suffix[0] == '-',
    ensures
        ({
            let base = x + seq!['.'] + y + seq!['.'] + z;
            let rest = y + seq!['.'] + z;
            let plain = base + suffix;
            &&& text::position(plain, '-') == base.len()
            &&& plain.take(base.len() as int) == base
            &&& text::position(base, '.') == x.len()
            &&& base.take(x.len() as int) == x
            &&& base.skip(x.len() as int + 1) == rest
            &&& text::position(rest, '.') == y.len()
            &&& rest.take(y.len() as int) == y
            &&& rest.skip(y.len() as int + 1) == z
        }),
{
    let base = x + seq!['.'] + y + seq!['.'] + z;
    let rest = y + seq!['.'] + z;
    let plain = base + suffix;
    lemma_digits_plain(x);
    lemma_digits_plain(y);
    lemma_digits_plain(z);
    assert forall|i: int| 0 <= i < base.len() implies #[trigger] base[i] != '-' by {
        lemma_base_char(x, y, z, i);
    }
    lemma_position_at(base, suffix, '-');
    assert(plain.take(base.len() as int) =~= base);
    assert(base =~= x + (seq!['.'] + rest));
    lemma_position_at(x, seq!['.'] + rest, '.');
    assert(base.take(x.len() as int) =~= x);
    assert(base.skip(x.len() as int + 1) =~= rest);
    assert(rest =~= y + (seq!['.'] + z));
    lemma_position_at(y, seq!['.'] + z, '.');
    assert(rest.take(y.len() as int) =~= y);
    assert(rest.skip(y.len() as int + 1) =~= z);
}

proof fn lemma_digits_plain(d: Seq<char>)
    requires
        text::all_digits(d, 10),
    ensures
        forall|i: int|
            0 <= i < d.len() ==> #[trigger] d[i] != '-' && d[i] != '.' && d[i] != 'v'
                && !text::is_white_space(d[i]),
{
    assert forall|i: int| 0 <= i < d.len() implies #[trigger] d[i] != '-' && d[i] != '.' && d[i]
        != 'v' && !text::is_white_space(d[i]) by {
        assert(text::digit_value(d[i], 10) is Some);
    }
}

proof fn lemma_base_char(x: Seq<char>, y: Seq<char>, z: Seq<char>, i: int)
    requires
        0 <= i < x.len() + y.len() + z.len() + 2,
        forall|k: int| 0 <= k < x.len() ==> #[trigger] x[k] != '-',
        forall|k: int| 0 <= k < y.len() ==> #[trigger] y[k] != '-',
        forall|k: int| 0 <= k < z.len() ==> #[trigger] z[k] != '-',
    ensures
        (x + seq!['.'] + y + seq!['.'] + z)[i] != '-',
{
    let base = x + seq!['.'] + y + seq!['.'] + z;
    let n = x.len() as int;
    let m = y.len() as int;
    if i < n {
        assert(base[i] == x[i]);
    } else if n < i <= n + m {
        assert(base[i] == y[i - n - 1]);
    } else if i > n + m + 1 {
        assert(base[i] == z[i - n - m - 2]);
    }
}

/// A character that does not stand in the first part of a text is found at its end where the second
/// part starts with it.
proof fn lemma_position_at(a: Seq<char>, b: Seq<char>, c: char)
    requires
        forall|i: int| 0 <= i < a.len() ==> #[trigger] a[i] != c,
        b.len() > 0 ==> b[0] == c,
    ensures
        text::position(a + b, c) == a.len(),
    decreases a.len(),
{
    if a.len() > 0 {
        let r = a.drop_first();
        assert forall|i: int| 0 <= i < r.len() implies #[trigger] r[i] != c by {
            assert(r[i] == a[i + 1]);
        }
        lemma_position_at(r, b, c);
        assert((a + b).drop_first() =~= r + b);
        assert((a + b)[0] == a[0]);
    } else {
        assert(a + b =~= b);
    }
}

} // verus!
