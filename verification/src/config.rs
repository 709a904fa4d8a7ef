//! Reading detection policies: durations with units, thresholds with
//! decimal magnitude suffixes.
//!
//! A number is never ambiguous about its units: every duration carries
//! a unit suffix (`"30s"`, `"250ms"`, `"5m"`), and a bare number is
//! refused. A threshold may carry a decimal magnitude suffix (`"10G"` is
//! ten billion). Durations are nanoseconds.

use vstd::prelude::*;

verus! {

use crate::render::{debug_quoted, debug_text, decimal, digit_char, digits, push_decimal, push_range, push_text, string_from_chars, text_of_range};
use crate::text::{chars_of, digits_end, digits_to_u64, digits_value, first_non_digit, is_digit, is_space, leading_space, trailing_space, trim_chars, trimmed};

/// Milliseconds per unit of a duration suffix.
pub open spec fn unit_millis(u: Seq<char>) -> Option<u64> {
    if u == "ms"@ {
        Some(1)
    } else if u == "s"@ {
        Some(1000)
    } else if u == "m"@ {
        Some(60_000)
    } else if u == "h"@ {
        Some(3_600_000)
    } else if u == "d"@ {
        Some(86_400_000)
    } else {
        None
    }
}

/// The multiplier of a magnitude suffix.
pub open spec fn magnitude_multiplier(u: Seq<char>) -> Option<u64> {
    if u.len() == 0 {
        Some(1)
    } else if u == "k"@ || u == "K"@ {
        Some(1000)
    } else if u == "M"@ {
        Some(1_000_000)
    } else if u == "G"@ {
        Some(1_000_000_000)
    } else if u == "T"@ {
        Some(1_000_000_000_000)
    } else {
        None
    }
}

/// What [`parse_duration`] gives for `text`, in nanoseconds.
pub open spec fn duration_spec(text: Seq<char>) -> Result<u128, Seq<char>> {
    let t = trimmed(text);
    if t.len() == 0 {
        Err("is empty"@)
    } else {
        match first_non_digit(t) {
            None => Err(debug_text(t) + " has no unit; write \""@ + t + "s\" or \""@ + t + "ms\""@),
            Some(k) => {
                let digits = t.subrange(0, k);
                let unit = t.subrange(k, t.len() as int);
                if k == 0 {
                    Err(debug_text(t) + " does not start with a number"@)
                } else if digits_value(digits) > u64::MAX {
                    Err(debug_text(digits) + " is not a whole number"@)
                } else {
                    match unit_millis(unit) {
                        None => Err("unit "@ + debug_text(unit) + " is not one of ms, s, m, h, d"@),
                        Some(ms) => if digits_value(digits) * ms > u64::MAX {
                            Err(debug_text(t) + " overflows"@)
                        } else {
                            Ok((digits_value(digits) * ms * 1_000_000) as u128)
                        },
                    }
                }
            },
        }
    }
}

/// What [`parse_magnitude`] gives for `text`.
pub open spec fn magnitude_spec(text: Seq<char>) -> Result<u64, Seq<char>> {
    let t = trimmed(text);
    let k = match first_non_digit(t) {
        Some(i) => i,
        None => t.len() as int,
    };
    let digits = t.subrange(0, k);
    let unit = t.subrange(k, t.len() as int);
    if t.len() == 0 {
        Err("is empty"@)
    } else if k == 0 {
        Err(debug_text(t) + " does not start with a number"@)
    } else if digits_value(digits) > u64::MAX {
        Err(debug_text(digits) + " is not a whole number"@)
    } else {
        match magnitude_multiplier(unit) {
            None => Err("suffix "@ + debug_text(unit) + " is not one of k, M, G, T"@),
            Some(m) => if digits_value(digits) * m > u64::MAX {
                Err(debug_text(t) + " overflows"@)
            } else {
                Ok((digits_value(digits) * m) as u64)
            },
        }
    }
}

/// Whether `v[from..]` is exactly `lit`.
fn rest_is(v: &Vec<char>, from: usize, lit: &str) -> (r: bool)
    requires
        from <= v@.len(),
    ensures
        r == (v@.subrange(from as int, v@.len() as int) == lit@),
{
    let l = chars_of(lit);
    if v.len() - from != l.len() {
        proof {
            if v@.subrange(from as int, v@.len() as int) == lit@ {
                assert(v@.subrange(from as int, v@.len() as int).len() == l@.len());
            }
        }
        return false;
    }
    let mut i: usize = 0;
    while i < l.len()
        invariant
            l@ == lit@,
            from <= v@.len(),
            v@.len() <= usize::MAX,
            v@.len() - from == l@.len(),
            i <= l@.len(),
            forall|j: int| 0 <= j < i ==> v@[from + j] == #[trigger] l@[j],
        decreases l@.len() - i,
    {
        if v[from + i] != l[i] {
            proof {
                assert(v@.subrange(from as int, v@.len() as int)[i as int] != lit@[i as int]);
            }
            return false;
        }
        i = i + 1;
    }
    proof {
        assert(v@.subrange(from as int, v@.len() as int) =~= lit@);
    }
    true
}

/// The error text `prefix`, the quoted `v[from..to]`, then `suffix`.
fn quoted_error(prefix: &str, v: &Vec<char>, from: usize, to: usize, suffix: &str) -> (r: String)
    requires
        from <= to <= v@.len(),
    ensures
        r@ == prefix@ + debug_text(v@.subrange(from as int, to as int)) + suffix@,
{
    let piece = text_of_range(v, from, to);
    let quoted = debug_quoted(piece.as_str());
    let mut out: Vec<char> = Vec::new();
    push_text(&mut out, prefix);
    push_text(&mut out, quoted.as_str());
    push_text(&mut out, suffix);
    proof {
        assert(out@ =~= prefix@ + debug_text(v@.subrange(from as int, to as int)) + suffix@);
    }
    string_from_chars(out)
}

/// Turns `"250ms"`, `"30s"`, `"5m"`, `"2h"` or `"1d"` into nanoseconds.
/// A bare number is refused: `300` could mean seconds or milliseconds.
pub fn parse_duration(text: &str) -> (r: Result<u128, String>)
    ensures
        match r {
            Ok(v) => duration_spec(text@) == Ok::<u128, Seq<char>>(v),
            Err(e) => duration_spec(text@) == Err::<u128, Seq<char>>(e@),
        },
{
    let t = trim_chars(text);
    let n = t.len();
    if n == 0 {
        proof {
            reveal_strlit("is empty");
        }
        return Err(String::from_str("is empty"));
    }
    let k = digits_end(&t);
    if k == n {
        let quoted = debug_quoted(text_of_range(&t, 0, n).as_str());
        let mut out: Vec<char> = Vec::new();
        push_text(&mut out, quoted.as_str());
        push_text(&mut out, " has no unit; write \"");
        push_range(&mut out, &t, 0, n);
        push_text(&mut out, "s\" or \"");
        push_range(&mut out, &t, 0, n);
        push_text(&mut out, "ms\"");
        proof {
            assert(t@.subrange(0, n as int) =~= t@);
            assert(out@ =~= duration_spec(text@)->Err_0);
        }
        return Err(string_from_chars(out));
    }
    if k == 0 {
        proof {
            assert(t@.subrange(0, n as int) =~= t@);
        }
        proof {
            reveal_strlit("");
            assert(""@ + debug_text(t@) =~= debug_text(t@));
        }
        return Err(quoted_error("", &t, 0, n, " does not start with a number"));
    }
    let value = match digits_to_u64(&t, k) {
        Some(v) => v,
        None => {
            proof {
                reveal_strlit("");
                assert(""@ + debug_text(t@.subrange(0, k as int)) =~= debug_text(t@.subrange(0, k as int)));
            }
            return Err(quoted_error("", &t, 0, k, " is not a whole number"));
        },
    };
    let millis: u64 = if rest_is(&t, k, "ms") {
        1
    } else if rest_is(&t, k, "s") {
        1000
    } else if rest_is(&t, k, "m") {
        60_000
    } else if rest_is(&t, k, "h") {
        3_600_000
    } else if rest_is(&t, k, "d") {
        86_400_000
    } else {
        return Err(quoted_error("unit ", &t, k, n, " is not one of ms, s, m, h, d"));
    };
    match value.checked_mul(millis) {
        Some(total) => Ok(total as u128 * 1_000_000),
        None => {
            proof {
                assert(t@.subrange(0, n as int) =~= t@);
                reveal_strlit("");
                assert(""@ + debug_text(t@) =~= debug_text(t@));
            }
            Err(quoted_error("", &t, 0, n, " overflows"))
        },
    }
}

/// Turns `"10G"`, `"500M"`, `"1k"` or `"250"` into a number; the
/// multipliers are decimal.
pub fn parse_magnitude(text: &str) -> (r: Result<u64, String>)
    ensures
        match r {
            Ok(v) => magnitude_spec(text@) == Ok::<u64, Seq<char>>(v),
            Err(e) => magnitude_spec(text@) == Err::<u64, Seq<char>>(e@),
        },
{
    let t = trim_chars(text);
    let n = t.len();
    if n == 0 {
        proof {
            reveal_strlit("is empty");
        }
        return Err(String::from_str("is empty"));
    }
    let k = digits_end(&t);
    if k == 0 {
        proof {
            assert(t@.subrange(0, n as int) =~= t@);
        }
        proof {
            reveal_strlit("");
            assert(""@ + debug_text(t@) =~= debug_text(t@));
        }
        return Err(quoted_error("", &t, 0, n, " does not start with a number"));
    }
    let value = match digits_to_u64(&t, k) {
        Some(v) => v,
        None => {
            proof {
                reveal_strlit("");
                assert(""@ + debug_text(t@.subrange(0, k as int)) =~= debug_text(t@.subrange(0, k as int)));
            }
            return Err(quoted_error("", &t, 0, k, " is not a whole number"));
        },
    };
    let multiplier: u64 = if k == n {
        proof {
            assert(t@.subrange(k as int, n as int).len() == 0);
        }
        1
    } else if rest_is(&t, k, "k") || rest_is(&t, k, "K") {
        1000
    } else if rest_is(&t, k, "M") {
        1_000_000
    } else if rest_is(&t, k, "G") {
        1_000_000_000
    } else if rest_is(&t, k, "T") {
        1_000_000_000_000
    } else {
        return Err(quoted_error("suffix ", &t, k, n, " is not one of k, M, G, T"));
    };
    match value.checked_mul(multiplier) {
        Some(total) => Ok(total),
        None => {
            proof {
                assert(t@.subrange(0, n as int) =~= t@);
                reveal_strlit("");
                assert(""@ + debug_text(t@) =~= debug_text(t@));
            }
            Err(quoted_error("", &t, 0, n, " overflows"))
        },
    }
}

/// The shortest exact spelling of a duration, counted in whole
/// milliseconds: the largest of days, hours, minutes and seconds that
/// divides it, else milliseconds (also for zero).
pub open spec fn render_spec(nanos: u128) -> Seq<char> {
    let ms = (nanos / 1_000_000) as nat;
    if ms != 0 && ms % 86_400_000 == 0 {
        decimal(ms / 86_400_000) + "d"@
    } else if ms != 0 && ms % 3_600_000 == 0 {
        decimal(ms / 3_600_000) + "h"@
    } else if ms != 0 && ms % 60_000 == 0 {
        decimal(ms / 60_000) + "m"@
    } else if ms != 0 && ms % 1000 == 0 {
        decimal(ms / 1000) + "s"@
    } else {
        decimal(ms) + "ms"@
    }
}

/// Renders a duration (nanoseconds) in its shortest exact form, so a
/// round trip does not turn `"5m"` into `"300000ms"`.
pub fn render_duration(nanos: u128) -> (r: String)
    ensures
        r@ == render_spec(nanos),
{
    let ms = nanos / 1_000_000;
    let mut out: Vec<char> = Vec::new();
    if ms != 0 && ms % 86_400_000 == 0 {
        push_decimal(&mut out, ms / 86_400_000);
        push_text(&mut out, "d");
    } else if ms != 0 && ms % 3_600_000 == 0 {
        push_decimal(&mut out, ms / 3_600_000);
        push_text(&mut out, "h");
    } else if ms != 0 && ms % 60_000 == 0 {
        push_decimal(&mut out, ms / 60_000);
        push_text(&mut out, "m");
    } else if ms != 0 && ms % 1000 == 0 {
        push_decimal(&mut out, ms / 1000);
        push_text(&mut out, "s");
    } else {
        push_decimal(&mut out, ms);
        push_text(&mut out, "ms");
    }
    proof {
        assert(out@ =~= render_spec(nanos));
    }
    string_from_chars(out)
}

/// A threshold written as a plain number or as text with a decimal
/// magnitude suffix.
#[derive(Debug, Clone, PartialEq, Eq)]
pub enum Magnitude {
    Number(u64),
    Text(String),
}

impl Magnitude {
    /// The value in canonical units.
    pub fn resolve(&self) -> (r: Result<u64, String>)
        ensures
            match self {
                Magnitude::Number(v) => r == Ok::<u64, String>(*v),
                Magnitude::Text(t) => match r {
                    Ok(v) => magnitude_spec(t@) == Ok::<u64, Seq<char>>(v),
                    Err(e) => magnitude_spec(t@) == Err::<u64, Seq<char>>(e@),
                },
            },
    {
        match self {
            Magnitude::Number(value) => Ok(*value),
            Magnitude::Text(text) => parse_magnitude(text.as_str()),
        }
    }
}

proof fn lemma_digit_value(d: nat)
    requires
        d < 10,
    ensures
        is_digit(digit_char(d)),
        ((digit_char(d) as u32) - 48) as nat == d,
{
    assert('0' as u32 == 48);
    assert('1' as u32 == 49);
    assert('2' as u32 == 50);
    assert('3' as u32 == 51);
    assert('4' as u32 == 52);
    assert('5' as u32 == 53);
    assert('6' as u32 == 54);
    assert('7' as u32 == 55);
    assert('8' as u32 == 56);
    assert('9' as u32 == 57);
}

proof fn lemma_decimal_digits(q: nat)
    ensures
        decimal(q).len() >= 1,
        forall|i: int| 0 <= i < decimal(q).len() ==> is_digit(#[trigger] decimal(q)[i]),
        digits_value(decimal(q)) == q,
    decreases q,
{
    if q >= 10 {
        lemma_decimal_digits(q / 10);
        lemma_digit_value(q % 10);
        let prev = decimal(q / 10);
        assert(decimal(q) == prev.push(digit_char(q % 10)));
        assert(decimal(q).drop_last() =~= prev);
        assert(decimal(q).last() == digit_char(q % 10));
        assert(digits_value(decimal(q)) == digits_value(decimal(q).drop_last()) * 10 + ((decimal(q).last() as u32) - 48) as nat);
        assert(digits_value(decimal(q)) == digits_value(prev) * 10 + q % 10);
        assert((q / 10) * 10 + q % 10 == q);
    } else {
        lemma_digit_value(q);
        assert(decimal(q) == seq![digit_char(q)]);
        assert(decimal(q).drop_last() =~= Seq::<char>::empty());
        assert(decimal(q).last() == digit_char(q));
        assert(digits_value(decimal(q)) == digits_value(decimal(q).drop_last()) * 10 + ((decimal(q).last() as u32) - 48) as nat);
        assert(digits_value(Seq::<char>::empty()) == 0);
    }
}

proof fn lemma_number_then_unit(q: nat, unit: Seq<char>)
    requires
        unit.len() >= 1,
        !is_digit(unit[0]),
        !is_space(unit.last()),
    ensures
        trimmed(decimal(q) + unit) == decimal(q) + unit,
        first_non_digit(decimal(q) + unit) == Some(decimal(q).len() as int),
        (decimal(q) + unit).subrange(0, decimal(q).len() as int) == decimal(q),
        (decimal(q) + unit).subrange(decimal(q).len() as int, (decimal(q) + unit).len() as int) == unit,
{
    lemma_decimal_digits(q);
    let d = decimal(q);
    let s = d + unit;
    assert(s[0] == d[0]);
    assert(is_digit(d[0]));
    assert(!is_space(s[0]));
    assert(leading_space(s) == 0);
    assert(s.last() == unit.last());
    assert(trailing_space(s) == 0);
    assert(s.subrange(0, s.len() as int) =~= s);
    lemma_first_non_digit_at(s, d.len() as int);
    assert(s.subrange(0, d.len() as int) =~= d);
    assert(s.subrange(d.len() as int, s.len() as int) =~= unit);
}

proof fn lemma_first_non_digit_at(s: Seq<char>, i: int)
    requires
        0 <= i < s.len(),
        forall|j: int| 0 <= j < i ==> is_digit(#[trigger] s[j]),
        !is_digit(s[i]),
    ensures
        first_non_digit(s) == Some(i),
    decreases i,
{
    if i > 0 {
        assert forall|j: int| 0 <= j < i - 1 implies is_digit(#[trigger] s.drop_first()[j]) by {
            assert(s.drop_first()[j] == s[j + 1]);
        }
        assert(s.drop_first()[i - 1] == s[i]);
        lemma_first_non_digit_at(s.drop_first(), i - 1);
    }
}

proof fn lemma_parses_back(nanos: u128, q: nat, unit: Seq<char>, size: u64)
    requires
        unit.len() >= 1,
        !is_digit(unit[0]),
        !is_space(unit.last()),
        unit_millis(unit) == Some(size),
        q * size == nanos / 1_000_000,
        nanos % 1_000_000 == 0,
        nanos / 1_000_000 <= u64::MAX,
    ensures
        duration_spec(decimal(q) + unit) == Ok::<u128, Seq<char>>(nanos),
{
    lemma_number_then_unit(q, unit);
    lemma_decimal_digits(q);
    let t = decimal(q) + unit;
    assert(trimmed(t) == t);
    assert(t.len() > 0);
    assert(first_non_digit(t) == Some(decimal(q).len() as int));
    assert(t.subrange(0, decimal(q).len() as int) == decimal(q));
    assert(digits_value(decimal(q)) == q);
    assert(q * size <= u64::MAX);
    assert(nanos == (q * size) * 1_000_000);
}

/// A rendered duration parses back to itself: for any whole number of
/// milliseconds that fits the parser, `parse_duration(render_duration(d))`
/// is `d`, so a document survives a round trip unchanged.
pub proof fn law_rendered_durations_parse_back(nanos: u128)
    requires
        nanos % 1_000_000 == 0,
        nanos / 1_000_000 <= u64::MAX,
    ensures
        duration_spec(render_spec(nanos)) == Ok::<u128, Seq<char>>(nanos),
{
    let ms = (nanos / 1_000_000) as nat;
    reveal_strlit("d");
    reveal_strlit("h");
    reveal_strlit("m");
    reveal_strlit("s");
    reveal_strlit("ms");
    if ms != 0 && ms % 86_400_000 == 0 {
        lemma_parses_back(nanos, ms / 86_400_000, "d"@, 86_400_000);
    } else if ms != 0 && ms % 3_600_000 == 0 {
        lemma_parses_back(nanos, ms / 3_600_000, "h"@, 3_600_000);
    } else if ms != 0 && ms % 60_000 == 0 {
        lemma_parses_back(nanos, ms / 60_000, "m"@, 60_000);
    } else if ms != 0 && ms % 1000 == 0 {
        lemma_parses_back(nanos, ms / 1000, "s"@, 1000);
    } else {
        lemma_parses_back(nanos, ms, "ms"@, 1);
    }
}

} // verus!
