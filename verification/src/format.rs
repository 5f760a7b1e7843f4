//! Shared USD formatting helpers used by the table renderer and the Slack
//! reporter. Two presentations:
//!
//! - [`usd_cents`]: always two-decimal, with thousand separators. Matches
//!   how spreadsheets render money; used in table footers where every cent
//!   is expected.
//! - [`usd_compact`]: rounds to whole dollars for amounts at or above $100,
//!   keeps cents below. Reads cleanly on mobile Slack where the sentence
//!   shape matters more than rounding precision.
//!
//! Both clamp non-finite values to `"-"` / `"$—"` so garbage data never
//! becomes garbage output.

use vstd::prelude::*;

use crate::decimal::{
    lemma_digit_count, lemma_hundred, lemma_two_decimals_below_hundred, rounded_magnitude, rounded_whole, to_rounded_magnitude, to_rounded_whole, tens,
    two_decimals, two_decimals_text,
};
use crate::double::Double;
use crate::text::{digit, digit_char, magnitude, nat_text, unsigned};

verus! {

/// `n` in decimal, with a comma before each group of three digits but the
/// first.
pub open spec fn thousands_text(n: nat) -> Seq<char>
    decreases n,
{
    if n < 1000 {
        nat_text(n)
    } else {
        thousands_text(n / 1000) + ","@ + seq![digit((n % 1000) / 100)] + seq![
            digit((n % 100) / 10),
        ] + seq![digit(n % 10)]
    }
}

/// `n` in decimal, with thousand separators.
pub fn thousands(v: u64) -> (r: String)
    ensures
        r@ == thousands_text(v as nat),
    decreases v,
{
    if v < 1000 {
        return unsigned(v);
    }
    let mut out: String = thousands(v / 1000).concat(",");
    out.push(digit_char((v % 1000) / 100));
    out.push(digit_char((v % 100) / 10));
    out.push(digit_char(v % 10));
    assert(out@ =~= thousands_text(v as nat));
    out
}

/// `n` hundredths in decimal, with thousand separators.
pub open spec fn dollars_text(n: nat) -> Seq<char> {
    thousands_text(n / 100) + "."@ + seq![digit((n % 100) / 10)] + seq![digit(n % 10)]
}

/// Two-decimal USD with thousand separators.
pub open spec fn usd_cents_text(amount: Double) -> Seq<char> {
    if !amount.finite() {
        "-"@
    } else {
        let cents = rounded_whole(amount.product(Double::of_int(100)));
        if cents < 0 {
            "-$"@ + dollars_text((-cents) as nat)
        } else {
            "$"@ + dollars_text(cents as nat)
        }
    }
}

/// Two-decimal USD with thousand separators: `$18,720.00`, `-$42.50`.
/// Non-finite → `"-"`.
pub fn usd_cents(amount: Double) -> (r: String)
    ensures
        r@ == usd_cents_text(amount),
{
    if !amount.is_finite() {
        return "-".to_string();
    }
    let cents: i64 = to_rounded_whole(amount.times(Double::from_i64(100)));
    let sign: String = if cents < 0 {
        "-$".to_string()
    } else {
        "$".to_string()
    };
    let cents_abs: u64 = magnitude(cents);
    let mut body: String = thousands(cents_abs / 100).concat(".");
    body.push(digit_char((cents_abs % 100) / 10));
    body.push(digit_char(cents_abs % 10));
    assert(body@ =~= dollars_text(cents_abs as nat));
    sign.concat(body.as_str())
}

/// Compact USD: whole dollars from $100, two decimals below.
pub open spec fn usd_compact_text(amount: Double) -> Seq<char> {
    if !amount.finite() {
        "$—"@
    } else {
        let sign = if amount.less(Double::of_int(0)) {
            "-$"@
        } else {
            "$"@
        };
        if Double::of_int(100).at_most(amount.absolute()) {
            sign + thousands_text(rounded_magnitude(amount.absolute()))
        } else {
            sign + two_decimals_text(amount.absolute())
        }
    }
}

/// Compact USD: whole dollars with thousand separators above $100
/// (`$18,720`), two-decimal below (`$42.50`). Non-finite → `"$—"`.
pub fn usd_compact(amount: Double) -> (r: String)
    ensures
        r@ == usd_compact_text(amount),
{
    if !amount.is_finite() {
        return "$—".to_string();
    }
    let sign: String = if amount.lt(Double::from_i64(0)) {
        "-$".to_string()
    } else {
        "$".to_string()
    };
    if Double::from_i64(100).le(amount.abs()) {
        sign.concat(thousands(to_rounded_magnitude(amount.abs())).as_str())
    } else {
        sign.concat(two_decimals(amount.abs()).as_str())
    }
}

/// Compact USD of an amount that may be unknown.
pub open spec fn dollars_option_text(amount: Option<Double>) -> Seq<char> {
    match amount {
        Some(v) => usd_compact_text(v),
        None => "$—"@,
    }
}

/// Compact USD of an amount that may be unknown.
pub fn format_dollars_option(amount: Option<Double>) -> (r: String)
    ensures
        r@ == dollars_option_text(amount),
{
    match amount {
        Some(v) => usd_compact(v),
        None => "$—".to_string(),
    }
}

proof fn lemma_thousands_count(n: nat, k: nat)
    requires
        n < tens(3 * k),
        k > 0,
    ensures
        thousands_text(n).len() <= 4 * k,
    decreases k,
{
    reveal_strlit(",");
    reveal_with_fuel(tens, 4);
    if n < 1000 {
        assert(tens(3) == 1000);
        lemma_digit_count(n, 3);
    } else {
        assert(k > 1) by {
            if k == 1 {
                assert(tens(3) == 1000);
            }
        }
        assert(tens(3 * k) == 1000 * tens((3 * k - 3) as nat));
        lemma_thousands_count(n / 1000, (k - 1) as nat);
    }
}

/// A compact amount takes at most 30 characters.
pub proof fn compact_amounts_are_short(amount: Double)
    ensures
        usd_compact_text(amount).len() <= 30,
{
    reveal_strlit("$—");
    reveal_strlit("-$");
    reveal_strlit("$");
    if amount.finite() {
        let x = amount.absolute();
        assert(x.magnitude() == amount.magnitude() && !x.negative());
        if Double::of_int(100).at_most(x) {
            reveal_with_fuel(tens, 22);
            assert(tens(21) == 1_000_000_000_000_000_000_000);
            lemma_thousands_count(rounded_magnitude(x), 7);
        } else {
            lemma_hundred();
            lemma_two_decimals_below_hundred(x);
        }
    }
}

/// A text without its commas.
pub open spec fn without_commas(s: Seq<char>) -> Seq<char>
    decreases s.len(),
{
    if s.len() == 0 {
        s
    } else if s.last() == ',' {
        without_commas(s.drop_last())
    } else {
        without_commas(s.drop_last()).push(s.last())
    }
}

proof fn lemma_plain_digits(n: nat)
    ensures
        without_commas(nat_text(n)) == nat_text(n),
    decreases n,
{
    reveal_with_fuel(without_commas, 2);
    let t = nat_text(n);
    if n < 10 {
        assert(t.drop_last() =~= Seq::<char>::empty());
        assert(without_commas(t) =~= t);
    } else {
        lemma_plain_digits(n / 10);
        assert(t.drop_last() =~= nat_text(n / 10));
    }
}

/// Thousand separators add nothing but commas.
pub proof fn separators_only_add_commas(n: nat)
    ensures
        without_commas(thousands_text(n)) == nat_text(n),
    decreases n,
{
    lemma_plain_digits(n);
    if n >= 1000 {
        separators_only_add_commas(n / 1000);
        reveal_strlit(",");
        reveal_with_fuel(without_commas, 5);
        let front = thousands_text(n / 1000);
        let a = digit((n % 1000) / 100);
        let b = digit((n % 100) / 10);
        let c = digit(n % 10);
        let t = thousands_text(n);
        assert(t.drop_last() =~= front + ","@ + seq![a] + seq![b]);
        assert(t.drop_last().drop_last() =~= front + ","@ + seq![a]);
        assert(t.drop_last().drop_last().drop_last() =~= front + ","@);
        assert((front + ","@).drop_last() =~= front);
        assert(without_commas(t) =~= nat_text(n / 1000).push(a).push(b).push(c));
        assert(n / 10 / 10 / 10 == n / 1000 && (n / 10) % 10 == (n % 100) / 10 && (n / 10 / 10) % 10
            == (n % 1000) / 100);
        reveal_with_fuel(nat_text, 4);
    }
}

} // verus!
