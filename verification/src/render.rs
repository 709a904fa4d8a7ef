//! Rendering numbers and addresses as text, character by character.

use vstd::prelude::*;

verus! {

use crate::net::IpAddress;

/// The text made of exactly `chars`.
#[verifier::external_body]
pub(crate) fn string_from_chars(chars: Vec<char>) -> (r: String)
    ensures
        r@ == chars@,
{
    String::from_iter(chars)
}

/// The text `format!("{:?}", s)` gives: `s` quoted, with the characters
/// std escapes escaped.
pub uninterp spec fn debug_text(s: Seq<char>) -> Seq<char>;

/// `<str as Debug>::fmt`, through `format!`.
#[verifier::external_body]
pub(crate) fn debug_quoted(s: &str) -> (r: String)
    ensures
        r@ == debug_text(s@),
{
    format!("{:?}", s)
}

/// The text `format!("{:?}", Duration::new(secs, nanos))` gives.
pub uninterp spec fn duration_debug_text(secs: u64, nanos: u32) -> Seq<char>;

/// `Debug` of `std::time::Duration::new(secs, nanos)`: the duration in
/// its largest whole unit with a decimal fraction, such as `300s` or
/// `1.5s`. Below a second of nanoseconds, `Duration::new` does not
/// panic.
#[verifier::external_body]
fn debug_duration(secs: u64, nanos: u32) -> (r: String)
    requires
        nanos < 1_000_000_000,
    ensures
        r@ == duration_debug_text(secs, nanos),
{
    format!("{:?}", std::time::Duration::new(secs, nanos))
}

/// The text `format!("{:?}", c)` gives: `c` in single quotes, escaped.
pub uninterp spec fn char_debug_text(c: char) -> Seq<char>;

/// `Debug` of a `char`.
#[verifier::external_body]
fn debug_char(c: char) -> (r: String)
    ensures
        r@ == char_debug_text(c),
{
    format!("{:?}", c)
}

/// The `Debug` text of a duration of `v` nanoseconds; one too long for
/// a `Duration` is written as its count of nanoseconds.
pub open spec fn duration_text(v: u128) -> Seq<char> {
    if v / 1_000_000_000 <= u64::MAX {
        duration_debug_text((v / 1_000_000_000) as u64, (v % 1_000_000_000) as u32)
    } else {
        decimal(v as nat) + "ns"@
    }
}

/// Appends the `Debug` text of a duration of `v` nanoseconds.
pub fn push_duration(out: &mut Vec<char>, v: u128)
    ensures
        final(out)@ == old(out)@ + duration_text(v),
{
    let secs = v / 1_000_000_000;
    if secs <= u64::MAX as u128 {
        let t = debug_duration(secs as u64, (v % 1_000_000_000) as u32);
        push_text(out, t.as_str());
    } else {
        push_decimal(out, v);
        push_text(out, "ns");
    }
}

/// Appends `s` in double quotes, escaped as `Debug` writes it.
pub fn push_quoted(out: &mut Vec<char>, s: &str)
    ensures
        final(out)@ == old(out)@ + debug_text(s@),
{
    let q = debug_quoted(s);
    push_text(out, q.as_str());
}

/// Appends `c` in single quotes, escaped as `Debug` writes it.
pub fn push_char_debug(out: &mut Vec<char>, c: char)
    ensures
        final(out)@ == old(out)@ + char_debug_text(c),
{
    let q = debug_char(c);
    push_text(out, q.as_str());
}

/// Appends the characters of `s`.
pub fn push_text(out: &mut Vec<char>, s: &str)
    ensures
        final(out)@ == old(out)@ + s@,
{
    let n = s.unicode_len();
    let mut i: usize = 0;
    while i < n
        invariant
            n == s@.len(),
            i <= n,
            out@ == old(out)@ + s@.subrange(0, i as int),
        decreases n - i,
    {
        out.push(s.get_char(i));
        proof {
            assert(s@.subrange(0, i + 1) =~= s@.subrange(0, i as int).push(s@[i as int]));
        }
        i = i + 1;
    }
    proof {
        assert(s@.subrange(0, n as int) =~= s@);
    }
}

/// The digit for a value below sixteen, lowercase.
pub open spec fn digit_char(d: nat) -> char {
    if d == 0 { '0' } else if d == 1 { '1' } else if d == 2 { '2' } else if d == 3 { '3' }
    else if d == 4 { '4' } else if d == 5 { '5' } else if d == 6 { '6' } else if d == 7 { '7' }
    else if d == 8 { '8' } else if d == 9 { '9' } else if d == 10 { 'a' } else if d == 11 { 'b' }
    else if d == 12 { 'c' } else if d == 13 { 'd' } else if d == 14 { 'e' } else { 'f' }
}

/// `n` in base `b` (2 to 16), most significant digit first, without
/// leading zeros.
pub open spec fn digits(n: nat, b: nat) -> Seq<char>
    recommends
        2 <= b <= 16,
    decreases n,
{
    if b < 2 || n < b {
        seq![digit_char(n)]
    } else {
        proof {
            assert(n / b < n) by (nonlinear_arith)
                requires
                    n >= b,
                    b >= 2,
            ;
        }
        digits(n / b, b).push(digit_char(n % b))
    }
}

/// `n` in decimal.
pub open spec fn decimal(n: nat) -> Seq<char> {
    digits(n, 10)
}

fn digit(d: u128) -> (c: char)
    requires
        d < 16,
    ensures
        c == digit_char(d as nat),
{
    if d == 0 { '0' } else if d == 1 { '1' } else if d == 2 { '2' } else if d == 3 { '3' }
    else if d == 4 { '4' } else if d == 5 { '5' } else if d == 6 { '6' } else if d == 7 { '7' }
    else if d == 8 { '8' } else if d == 9 { '9' } else if d == 10 { 'a' } else if d == 11 { 'b' }
    else if d == 12 { 'c' } else if d == 13 { 'd' } else if d == 14 { 'e' } else { 'f' }
}

/// Appends `n` in base `b`.
pub fn push_digits(out: &mut Vec<char>, n: u128, b: u128)
    requires
        2 <= b <= 16,
    ensures
        final(out)@ == old(out)@ + digits(n as nat, b as nat),
    decreases n,
{
    if n >= b {
        assert(n / b < n) by (nonlinear_arith)
            requires
                n >= b,
                b >= 2,
        ;
        push_digits(out, n / b, b);
        out.push(digit(n % b));
        proof {
            assert(old(out)@ + digits(n as nat, b as nat) =~= old(out)@ + digits((n / b) as nat, b as nat) + seq![digit_char((n % b) as nat)]);
        }
    } else {
        out.push(digit(n));
        proof {
            assert(old(out)@ + digits(n as nat, b as nat) =~= old(out)@.push(digit_char(n as nat)));
        }
    }
}

/// Appends the characters of `v[from..to]`.
pub fn push_range(out: &mut Vec<char>, v: &Vec<char>, from: usize, to: usize)
    requires
        from <= to <= v@.len(),
    ensures
        final(out)@ == old(out)@ + v@.subrange(from as int, to as int),
{
    let mut i: usize = from;
    while i < to
        invariant
            from <= i <= to <= v@.len(),
            out@ == old(out)@ + v@.subrange(from as int, i as int),
        decreases to - i,
    {
        out.push(v[i]);
        proof {
            assert(v@.subrange(from as int, i + 1) =~= v@.subrange(from as int, i as int).push(v@[i as int]));
        }
        i = i + 1;
    }
}

/// The text of `v[from..to]`.
pub fn text_of_range(v: &Vec<char>, from: usize, to: usize) -> (r: String)
    requires
        from <= to <= v@.len(),
    ensures
        r@ == v@.subrange(from as int, to as int),
{
    let mut out: Vec<char> = Vec::new();
    push_range(&mut out, v, from, to);
    proof {
        assert(out@ =~= v@.subrange(from as int, to as int));
    }
    string_from_chars(out)
}

/// Appends `n` in decimal.
pub fn push_decimal(out: &mut Vec<char>, n: u128)
    ensures
        final(out)@ == old(out)@ + decimal(n as nat),
{
    push_digits(out, n, 10);
}

/// The last `n` hexadecimal digits of `x`, zero-padded, most
/// significant first.
pub open spec fn hex_fixed(x: nat, n: nat) -> Seq<char>
    decreases n,
{
    if n == 0 {
        Seq::empty()
    } else {
        hex_fixed(x / 16, (n - 1) as nat).push(digit_char(x % 16))
    }
}

/// Sixteen to the `n`.
pub open spec fn pow16(n: nat) -> nat
    decreases n,
{
    if n == 0 { 1 } else { 16 * pow16((n - 1) as nat) }
}

/// Appends the last `n` hexadecimal digits of `x`.
pub fn push_hex_fixed(out: &mut Vec<char>, x: u64, n: u32)
    ensures
        final(out)@ == old(out)@ + hex_fixed(x as nat, n as nat),
    decreases n,
{
    if n > 0 {
        push_hex_fixed(out, x / 16, n - 1);
        out.push(digit((x % 16) as u128));
        proof {
            assert(old(out)@ + hex_fixed(x as nat, n as nat) =~= old(out)@ + hex_fixed((x / 16) as nat, (n - 1) as nat) + seq![digit_char((x % 16) as nat)]);
        }
    } else {
        proof {
            assert(old(out)@ + hex_fixed(x as nat, 0) =~= old(out)@);
        }
    }
}

proof fn lemma_digit_char_injective(a: nat, b: nat)
    requires
        a < 16,
        b < 16,
        digit_char(a) == digit_char(b),
    ensures
        a == b,
{
}

/// The hexadecimal text has exactly `n` characters.
pub proof fn lemma_hex_len(x: nat, n: nat)
    ensures
        hex_fixed(x, n).len() == n,
    decreases n,
{
    if n > 0 {
        lemma_hex_len(x / 16, (n - 1) as nat);
    }
}

/// Two numbers below `16^n` with the same `n` hexadecimal digits are
/// equal.
pub proof fn lemma_hex_injective(x: nat, y: nat, n: nat)
    requires
        x < pow16(n),
        y < pow16(n),
        hex_fixed(x, n) == hex_fixed(y, n),
    ensures
        x == y,
    decreases n,
{
    if n > 0 {
        let p = pow16((n - 1) as nat);
        lemma_hex_len(x / 16, (n - 1) as nat);
        lemma_hex_len(y / 16, (n - 1) as nat);
        assert(hex_fixed(x, n).last() == digit_char(x % 16));
        assert(hex_fixed(x, n).drop_last() =~= hex_fixed(x / 16, (n - 1) as nat));
        assert(hex_fixed(y, n).drop_last() =~= hex_fixed(y / 16, (n - 1) as nat));
        lemma_digit_char_injective(x % 16, y % 16);
        assert(x / 16 < p) by (nonlinear_arith)
            requires
                x < 16 * p,
        ;
        assert(y / 16 < p) by (nonlinear_arith)
            requires
                y < 16 * p,
        ;
        lemma_hex_injective(x / 16, y / 16, (n - 1) as nat);
    } else {
        assert(x == 0 && y == 0);
    }
}

/// Every `u64` is below `16^16`.
pub proof fn lemma_u64_below_pow16(x: u64)
    ensures
        (x as nat) < pow16(16),
{
    reveal_with_fuel(pow16, 17);
    assert(pow16(16) == 0x1_0000_0000_0000_0000nat);
}

/// The decimal text of any number is never empty.
pub proof fn lemma_digits_nonempty(n: nat, b: nat)
    ensures
        digits(n, b).len() >= 1,
        b >= 2 && n >= b ==> digits(n, b).len() >= 2,
    decreases n,
{
    if b >= 2 && n >= b {
        assert(n / b < n) by (nonlinear_arith)
            requires
                n >= b,
                b >= 2,
        ;
        lemma_digits_nonempty(n / b, b);
    }
}

/// Two numbers with the same decimal text are equal.
pub proof fn lemma_decimal_injective(n: nat, m: nat)
    requires
        decimal(n) == decimal(m),
    ensures
        n == m,
    decreases n,
{
    lemma_digits_nonempty(n, 10);
    lemma_digits_nonempty(m, 10);
    if n < 10 && m < 10 {
        assert(decimal(n)[0] == digit_char(n));
        assert(decimal(m)[0] == digit_char(m));
        lemma_digit_char_injective(n, m);
    } else if n >= 10 && m >= 10 {
        assert(decimal(n).last() == digit_char(n % 10));
        assert(decimal(m).last() == digit_char(m % 10));
        lemma_digit_char_injective(n % 10, m % 10);
        assert(decimal(n).drop_last() =~= decimal(n / 10));
        assert(decimal(m).drop_last() =~= decimal(m / 10));
        lemma_decimal_injective(n / 10, m / 10);
    } else {
        assert(decimal(n).len() != decimal(m).len());
    }
}

/// The four octets of an IPv4 address, most significant first.
pub open spec fn octet(a: u32, i: int) -> nat {
    ((a >> ((24 - 8 * i) as u32)) & 255u32) as nat
}

/// Dotted-decimal text of an IPv4 address.
pub open spec fn ipv4_text(a: u32) -> Seq<char> {
    decimal(octet(a, 0)) + seq!['.'] + decimal(octet(a, 1)) + seq!['.'] + decimal(octet(a, 2)) + seq!['.'] + decimal(octet(a, 3))
}

fn push_ipv4(out: &mut Vec<char>, a: u32)
    ensures
        final(out)@ == old(out)@ + ipv4_text(a),
{
    push_decimal(out, ((a >> 24u32) & 255u32) as u128);
    out.push('.');
    push_decimal(out, ((a >> 16u32) & 255u32) as u128);
    out.push('.');
    push_decimal(out, ((a >> 8u32) & 255u32) as u128);
    out.push('.');
    push_decimal(out, ((a >> 0u32) & 255u32) as u128);
    proof {
        assert(final(out)@ =~= old(out)@ + ipv4_text(a));
    }
}

/// The eight 16-bit groups of an IPv6 address, most significant first.
pub open spec fn group(a: u128, i: int) -> nat {
    ((a >> ((112 - 16 * i) as u32)) & 0xffffu128) as nat
}

/// The zero run chosen for `::` after looking at groups `i..8`, given
/// the run in progress (`cur_start`, `cur_len`) and the best so far: the
/// first of the longest runs of zero groups.
pub open spec fn zero_run_from(a: u128, i: int, cur_start: int, cur_len: int, best_start: int, best_len: int) -> (int, int)
    decreases 8 - i,
{
    if i >= 8 {
        (best_start, best_len)
    } else if group(a, i) == 0 {
        let cs = if cur_len == 0 { i } else { cur_start };
        let cl = cur_len + 1;
        if cl > best_len {
            zero_run_from(a, i + 1, cs, cl, cs, cl)
        } else {
            zero_run_from(a, i + 1, cs, cl, best_start, best_len)
        }
    } else {
        zero_run_from(a, i + 1, 0, 0, best_start, best_len)
    }
}

/// Groups `from..to` in hex, joined by `:`.
pub open spec fn groups_text(a: u128, from: int, to: int) -> Seq<char>
    decreases to - from,
{
    if to <= from {
        Seq::empty()
    } else if to == from + 1 {
        digits(group(a, from), 16)
    } else {
        groups_text(a, from, to - 1) + seq![':'] + digits(group(a, to - 1), 16)
    }
}

/// The text std gives an IPv6 address: an IPv4-mapped address as
/// `::ffff:` and dotted decimal; otherwise hex groups, the first longest
/// run of two or more zero groups written as `::`.
pub open spec fn ipv6_text(a: u128) -> Seq<char> {
    if a >> 32u32 == 0xffffu128 {
        "::ffff:"@ + ipv4_text((a & 0xffff_ffffu128) as u32)
    } else {
        let (s, l) = zero_run_from(a, 0, 0, 0, 0, 0);
        if l > 1 {
            groups_text(a, 0, s) + seq![':', ':'] + groups_text(a, s + l, 8)
        } else {
            groups_text(a, 0, 8)
        }
    }
}

/// The text of an address, as std writes it.
pub open spec fn ip_text(addr: IpAddress) -> Seq<char> {
    match addr {
        IpAddress::V4(a) => ipv4_text(a),
        IpAddress::V6(a) => ipv6_text(a),
    }
}

fn group_of(a: u128, i: u32) -> (g: u128)
    requires
        i < 8,
    ensures
        g == group(a, i as int),
        g < 0x10000,
{
    let sh: u32 = 112 - 16 * i;
    let g = (a >> sh) & 0xffffu128;
    assert(g < 0x10000) by (bit_vector)
        requires
            g == (a >> sh) & 0xffffu128,
    ;
    g
}

fn push_groups(out: &mut Vec<char>, a: u128, from: u32, to: u32)
    requires
        from <= to <= 8,
    ensures
        final(out)@ == old(out)@ + groups_text(a, from as int, to as int),
{
    let mut i: u32 = from;
    while i < to
        invariant
            from <= i <= to <= 8,
            out@ == old(out)@ + groups_text(a, from as int, i as int),
        decreases to - i,
    {
        if i > from {
            out.push(':');
        }
        push_digits(out, group_of(a, i), 16);
        proof {
            if i > from {
                assert(groups_text(a, from as int, i + 1) == groups_text(a, from as int, i as int) + seq![':'] + digits(group(a, i as int), 16));
            } else {
                assert(groups_text(a, from as int, i + 1) == digits(group(a, i as int), 16));
            }
            assert(out@ =~= old(out)@ + groups_text(a, from as int, i + 1));
        }
        i = i + 1;
    }
}

fn push_ipv6(out: &mut Vec<char>, a: u128)
    ensures
        final(out)@ == old(out)@ + ipv6_text(a),
{
    if a >> 32u32 == 0xffffu128 {
        push_text(out, "::ffff:");
        let low = a & 0xffff_ffffu128;
        assert(low <= 0xffff_ffffu128) by (bit_vector)
            requires
                low == a & 0xffff_ffffu128,
        ;
        push_ipv4(out, low as u32);
        proof {
            assert(final(out)@ =~= old(out)@ + ipv6_text(a));
        }
        return;
    }
    let mut cur_start: u32 = 0;
    let mut cur_len: u32 = 0;
    let mut best_start: u32 = 0;
    let mut best_len: u32 = 0;
    let mut i: u32 = 0;
    while i < 8
        invariant
            i <= 8,
            cur_len <= i,
            cur_start + cur_len <= i,
            best_len <= i,
            best_start <= i,
            best_start + best_len <= 8,
            zero_run_from(a, i as int, cur_start as int, cur_len as int, best_start as int, best_len as int)
                == zero_run_from(a, 0, 0, 0, 0, 0),
        decreases 8 - i,
    {
        if group_of(a, i) == 0 {
            if cur_len == 0 {
                cur_start = i;
            }
            cur_len = cur_len + 1;
            if cur_len > best_len {
                best_start = cur_start;
                best_len = cur_len;
            }
        } else {
            cur_start = 0;
            cur_len = 0;
        }
        i = i + 1;
    }
    if best_len > 1 {
        push_groups(out, a, 0, best_start);
        out.push(':');
        out.push(':');
        push_groups(out, a, best_start + best_len, 8);
    } else {
        push_groups(out, a, 0, 8);
    }
    proof {
        assert(final(out)@ =~= old(out)@ + ipv6_text(a));
    }
}

/// Appends the text of `addr`.
pub fn push_ip(out: &mut Vec<char>, addr: IpAddress)
    ensures
        final(out)@ == old(out)@ + ip_text(addr),
{
    match addr {
        IpAddress::V4(a) => push_ipv4(out, a),
        IpAddress::V6(a) => push_ipv6(out, a),
    }
}

} // verus!
