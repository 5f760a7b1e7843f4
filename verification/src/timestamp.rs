//! Instants in time.

use vstd::prelude::*;

use crate::text::{begins_with, chars_of, starts_with, text_of};

verus! {

/// The seconds of the earliest instant.
pub const MIN_SECOND: i64 = -377705023201;

/// The seconds of the latest instant.
pub const MAX_SECOND: i64 = 253402207200;

/// The most nanoseconds beside a whole second.
pub const MAX_NANOSECOND: i32 = 999_999_999;

/// Whether seconds since the Unix epoch and the nanoseconds beside them make
/// up an instant.
pub open spec fn in_range(second: int, nanosecond: int) -> bool {
    &&& MIN_SECOND <= second <= MAX_SECOND
    &&& -MAX_NANOSECOND <= nanosecond <= MAX_NANOSECOND
}

/// Whether an instant can be made of the two numbers, whatever their signs.
pub open spec fn makes_instant(second: int, nanosecond: int) -> bool {
    in_range(second, nanosecond) && !(second == MIN_SECOND && nanosecond < 0)
}

/// The same instant with seconds and nanoseconds of one sign.
pub open spec fn balanced(second: int, nanosecond: int) -> (int, int) {
    if second < 0 && nanosecond > 0 {
        (second + 1, nanosecond - 1_000_000_000)
    } else if second > 0 && nanosecond < 0 {
        (second - 1, nanosecond + 1_000_000_000)
    } else {
        (second, nanosecond)
    }
}

/// The instant that `jiff` reads in a text, as seconds and nanoseconds.
pub uninterp spec fn read_instant(text: Seq<char>) -> Option<(i64, i32)>;

/// Whether a character separates whole seconds from their fraction.
pub open spec fn is_point(c: char) -> bool {
    c == '.' || c == ','
}

/// The number of characters before the first such separator.
pub open spec fn before_point(text: Seq<char>) -> nat
    decreases text.len(),
{
    if text.len() == 0 || is_point(text[0]) {
        0
    } else {
        1 + before_point(text.drop_first())
    }
}

/// The text from its first character on that is no digit.
pub open spec fn after_digits(text: Seq<char>) -> Seq<char>
    decreases text.len(),
{
    if text.len() > 0 && '0' <= text[0] <= '9' {
        after_digits(text.drop_first())
    } else {
        text
    }
}

/// The text without its first fraction, point and digits.
pub open spec fn without_fraction(text: Seq<char>) -> Seq<char> {
    let p = before_point(text) as int;
    if p < text.len() {
        text.take(p) + after_digits(text.skip(p + 1))
    } else {
        text
    }
}

/// Whether a text writes, in the earliest year, a fraction of a second that no
/// instant begins: it would lie before the earliest one.
pub open spec fn before_earliest(text: Seq<char>) -> bool
    decreases text.len(), 1nat,
{
    begins_with(text, "-009999"@) && without_fraction(text).len() < text.len() && written_instant(
        without_fraction(text),
    ) is None
}

/// The instant that is written in a text: what `jiff` reads, but nothing
/// before the earliest instant.
pub open spec fn written_instant(text: Seq<char>) -> Option<(i64, i32)>
    decreases text.len(), 2nat,
{
    if before_earliest(text) {
        None
    } else {
        read_instant(text)
    }
}

/// The text that `jiff` writes for an instant.
pub uninterp spec fn instant_text(second: i64, nanosecond: i32) -> Seq<char>;

/// The message with which `jiff` refuses to make an instant.
pub uninterp spec fn refusal(second: i64, nanosecond: i32) -> Seq<char>;

/// `jiff::Timestamp` from text: the instant in the text, a function of the
/// text alone, and one that `jiff::Timestamp::new` makes. Left out are the
/// texts of a fraction of the second just before the earliest instant, which
/// `jiff` does not refuse: it goes on with a value out of its own range, or
/// panics where debug assertions are on. They begin with the sign and the six
/// digits of the earliest year, and without the fraction the text is refused.
#[verifier::external_body]
fn outside_read(text: &str) -> (r: Option<(i64, i32)>)
    requires
        !before_earliest(text@),
    ensures
        r == read_instant(text@),
        r matches Some(p) ==> makes_instant(p.0 as int, p.1 as int),
{
    match text.parse::<jiff::Timestamp>() {
        Ok(t) => Some((t.as_second(), t.subsec_nanosecond())),
        Err(_) => None,
    }
}

/// The text without its first fraction, where it has one.
fn strip_fraction(text: &str) -> (r: Option<String>)
    ensures
        r is Some == (without_fraction(text@).len() < text@.len()),
        r matches Some(t) ==> t@ == without_fraction(text@),
{
    let chars: Vec<char> = chars_of(text);
    let n: usize = chars.len();
    let ghost all = chars@;
    let mut p: usize = 0;
    assert(all.skip(0) =~= all);
    while p < n && chars[p] != '.' && chars[p] != ','
        invariant
            n == chars@.len(),
            all == chars@,
            p <= n,
            before_point(all) == p + before_point(all.skip(p as int)),
        decreases n - p,
    {
        assert(all.skip(p as int)[0] == all[p as int]);
        assert(all.skip(p as int).drop_first() =~= all.skip(p + 1));
        p += 1;
    }
    if p == n {
        assert(before_point(all) == n);
        return None;
    }
    assert(all.skip(p as int)[0] == all[p as int]);
    assert(before_point(all) == p);
    let mut q: usize = p + 1;
    while q < n && '0' <= chars[q] && chars[q] <= '9'
        invariant
            n == chars@.len(),
            all == chars@,
            p < q <= n,
            after_digits(all.skip(p + 1)) == after_digits(all.skip(q as int)),
        decreases n - q,
    {
        assert(all.skip(q as int)[0] == all[q as int]);
        assert(all.skip(q as int).drop_first() =~= all.skip(q + 1));
        q += 1;
    }
    proof {
        if q < n {
            assert(all.skip(q as int)[0] == all[q as int]);
        }
        assert(after_digits(all.skip(q as int)) == all.skip(q as int));
        assert(all.subrange(0, p as int) =~= all.take(p as int));
        assert(all.subrange(q as int, n as int) =~= all.skip(q as int));
    }
    Some(text_of(&chars, 0, p).concat(text_of(&chars, q, n).as_str()))
}

/// The instant that is written in a text.
fn read(text: &str) -> (r: Option<(i64, i32)>)
    ensures
        r == written_instant(text@),
        r matches Some(p) ==> makes_instant(p.0 as int, p.1 as int),
    decreases text@.len(),
{
    if starts_with(text, "-009999") {
        if let Some(whole) = strip_fraction(text) {
            if read(whole.as_str()).is_none() {
                return None;
            }
        }
    }
    outside_read(text)
}

/// `jiff::Timestamp::new`: an instant exactly where both numbers are in range
/// and it is not before the earliest one; seconds and nanoseconds come out
/// with one sign. The message of the error is named, not stated.
#[verifier::external_body]
fn outside_new(second: i64, nanosecond: i32) -> (r: Result<(i64, i32), String>)
    ensures
        r is Ok == makes_instant(second as int, nanosecond as int),
        r matches Ok(p) ==> (p.0 as int, p.1 as int) == balanced(second as int, nanosecond as int),
        r matches Err(e) ==> e@ == refusal(second, nanosecond),
{
    match jiff::Timestamp::new(second, nanosecond) {
        Ok(t) => Ok((t.as_second(), t.subsec_nanosecond())),
        Err(e) => Err(e.to_string()),
    }
}

/// The display of `jiff::Timestamp`: a text that is a function of the instant.
#[verifier::external_body]
fn outside_text(second: i64, nanosecond: i32) -> (r: String)
    requires
        makes_instant(second as int, nanosecond as int),
    ensures
        r@ == instant_text(second, nanosecond),
{
    match jiff::Timestamp::new(second, nanosecond) {
        Ok(t) => t.to_string(),
        Err(e) => e.to_string(),
    }
}

/// An instant: whole seconds since the Unix epoch, and the nanoseconds beside
/// them.
#[derive(Clone, Copy, Debug, PartialEq, Eq, Structural)]
pub struct Timestamp {
    second: i64,
    nanosecond: i32,
}

impl Timestamp {
    #[verifier::type_invariant]
    closed spec fn valid(self) -> bool {
        makes_instant(self.second as int, self.nanosecond as int)
    }

    /// Whole seconds since the Unix epoch.
    pub closed spec fn seconds(self) -> i64 {
        self.second
    }

    /// Nanoseconds beside the whole seconds.
    pub closed spec fn nanoseconds(self) -> i32 {
        self.nanosecond
    }

    /// The instant as text.
    pub open spec fn shown(self) -> Seq<char> {
        instant_text(self.seconds(), self.nanoseconds())
    }

    /// The instant that the two numbers make up, or why there is none.
    pub fn new(second: i64, nanosecond: i32) -> (r: Result<Timestamp, String>)
        ensures
            r is Ok == makes_instant(second as int, nanosecond as int),
            r matches Ok(t) ==> (t.seconds() as int, t.nanoseconds() as int) == balanced(
                second as int,
                nanosecond as int,
            ),
            r matches Err(e) ==> e@ == refusal(second, nanosecond),
    {
        match outside_new(second, nanosecond) {
            Ok((s, n)) => Ok(Timestamp { second: s, nanosecond: n }),
            Err(e) => Err(e),
        }
    }

    /// The instant written in `text`, where there is one.
    pub fn parse(text: &str) -> (r: Option<Timestamp>)
        ensures
            r is Some == written_instant(text@) is Some,
            r matches Some(t) ==> written_instant(text@) == Some((t.seconds(), t.nanoseconds())),
    {
        match read(text) {
            Some((s, n)) => {
                Some(Timestamp { second: s, nanosecond: n })
            },
            None => None,
        }
    }

    /// Whole seconds since the Unix epoch.
    pub fn as_second(self) -> (r: i64)
        ensures
            r == self.seconds(),
            MIN_SECOND <= r <= MAX_SECOND,
    {
        proof {
            use_type_invariant(self);
        }
        self.second
    }

    /// Nanoseconds beside the whole seconds.
    pub fn subsec_nanosecond(self) -> (r: i32)
        ensures
            r == self.nanoseconds(),
            -MAX_NANOSECOND <= r <= MAX_NANOSECOND,
    {
        proof {
            use_type_invariant(self);
        }
        self.nanosecond
    }

    /// The instant as text.
    pub fn to_text(self) -> (r: String)
        ensures
            r@ == self.shown(),
    {
        proof {
            use_type_invariant(self);
        }
        outside_text(self.second, self.nanosecond)
    }
}

/// The number of bytes that `c` takes in UTF-8.
pub open spec fn byte_width(c: char) -> nat {
    if (c as int) < 0x80 {
        1
    } else if (c as int) < 0x800 {
        2
    } else if (c as int) < 0x10000 {
        3
    } else {
        4
    }
}

/// The number of bytes that `c` takes in UTF-8.
fn width_of(c: char) -> (r: u32)
    ensures
        r == byte_width(c),
{
    let u: u32 = c as u32;
    if u < 0x80 {
        1
    } else if u < 0x800 {
        2
    } else if u < 0x10000 {
        3
    } else {
        4
    }
}

/// The characters that take up the first `n` bytes of `s`, where the bytes end
/// between two characters.
pub open spec fn first_bytes(s: Seq<char>, n: nat) -> Option<Seq<char>>
    decreases s.len(),
{
    if n == 0 {
        Some(Seq::empty())
    } else if s.len() == 0 || byte_width(s[0]) > n {
        None
    } else {
        match first_bytes(s.drop_first(), (n - byte_width(s[0])) as nat) {
            Some(rest) => Some(seq![s[0]] + rest),
            None => None,
        }
    }
}

/// The date at the start of the text of an instant: its first ten bytes, or
/// all of it where they do not end between two characters.
pub open spec fn date_of(text: Seq<char>) -> Seq<char> {
    match first_bytes(text, 10) {
        Some(date) => date,
        None => text,
    }
}

/// The date at the start of the text of an instant.
pub fn date_part(text: &str) -> (r: String)
    ensures
        r@ == date_of(text@),
{
    let chars: Vec<char> = crate::text::chars_of(text);
    let mut left: u32 = 10;
    let mut i: usize = 0;
    assert(chars@.skip(0) =~= chars@);
    proof {
        if let Some(rest) = first_bytes(text@, 10) {
            assert(chars@.take(0) + rest =~= rest);
        }
    }
    while left > 0
        invariant
            chars@ == text@,
            i <= chars@.len(),
            first_bytes(text@, 10) == (match first_bytes(chars@.skip(i as int), left as nat) {
                Some(rest) => Some(chars@.take(i as int) + rest),
                None => None,
            }),
        decreases left,
    {
        if i >= chars.len() {
            return text.to_string();
        }
        let w: u32 = width_of(chars[i]);
        proof {
            let rest = chars@.skip(i as int);
            assert(rest[0] == chars@[i as int]);
            assert(rest.drop_first() =~= chars@.skip(i + 1));
            if w <= left {
                if let Some(more) = first_bytes(chars@.skip(i + 1), (left - w) as nat) {
                    assert(chars@.take(i as int) + (seq![chars@[i as int]] + more) =~= chars@.take(
                        i + 1,
                    ) + more);
                }
            }
        }
        if w > left {
            return text.to_string();
        }
        left -= w;
        i += 1;
    }
    assert(chars@.take(i as int) + Seq::<char>::empty() =~= chars@.subrange(0, i as int));
    crate::text::text_of(&chars, 0, i)
}

/// The date of an instant.
pub fn format_date(t: Timestamp) -> (r: String)
    ensures
        r@ == date_of(t.shown()),
{
    date_part(t.to_text().as_str())
}

} // verus!
