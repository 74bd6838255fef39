//! Text helpers taken from std and from `colored`.
use vstd::prelude::*;

use colored::Colorize;

verus! {

/// The upper-case form of a text, by Unicode case mapping.
pub uninterp spec fn upper_of(s: Seq<char>) -> Seq<char>;

/// Relies on `str::to_uppercase`: its result depends on the text alone.
#[verifier::external_body]
pub(crate) fn to_upper(s: &str) -> (r: String)
    ensures
        r@ == upper_of(s@),
{
    s.to_uppercase()
}

pub open spec fn digit_char(d: nat) -> char {
    if d == 0 {
        '0'
    } else if d == 1 {
        '1'
    } else if d == 2 {
        '2'
    } else if d == 3 {
        '3'
    } else if d == 4 {
        '4'
    } else if d == 5 {
        '5'
    } else if d == 6 {
        '6'
    } else if d == 7 {
        '7'
    } else if d == 8 {
        '8'
    } else {
        '9'
    }
}

/// The decimal digits of `n`, without leading zeros.
pub open spec fn decimal(n: nat) -> Seq<char>
    decreases n,
{
    if n < 10 {
        seq![digit_char(n)]
    } else {
        decimal(n / 10).push(digit_char(n % 10))
    }
}

/// The one-character text of digit `d`.
fn digit_text(d: u8) -> (r: &'static str)
    requires
        d < 10,
    ensures
        r@ == seq![digit_char(d as nat)],
{
    proof {
        reveal_strlit("0");
        reveal_strlit("1");
        reveal_strlit("2");
        reveal_strlit("3");
        reveal_strlit("4");
        reveal_strlit("5");
        reveal_strlit("6");
        reveal_strlit("7");
        reveal_strlit("8");
        reveal_strlit("9");
    }
    let r = if d == 0 {
        "0"
    } else if d == 1 {
        "1"
    } else if d == 2 {
        "2"
    } else if d == 3 {
        "3"
    } else if d == 4 {
        "4"
    } else if d == 5 {
        "5"
    } else if d == 6 {
        "6"
    } else if d == 7 {
        "7"
    } else if d == 8 {
        "8"
    } else {
        "9"
    };
    assert(r@ =~= seq![digit_char(d as nat)]);
    r
}

/// The decimal digits of `n`.
pub(crate) fn decimal_text(n: u8) -> (r: String)
    ensures
        r@ == decimal(n as nat),
{
    if n < 10 {
        String::from_str(digit_text(n))
    } else if n < 100 {
        let r = joined(String::from_str(digit_text(n / 10)), digit_text(n % 10));
        assert(decimal((n / 10) as nat) == seq![digit_char((n / 10) as nat)]);
        assert(r@ =~= decimal(n as nat));
        r
    } else {
        let r = joined(
            joined(String::from_str(digit_text(n / 100)), digit_text((n / 10) % 10)),
            digit_text(n % 10),
        );
        assert(decimal((n / 100) as nat) == seq![digit_char((n / 100) as nat)]);
        assert((n / 10) as nat / 10 == (n / 100) as nat);
        assert(decimal((n / 10) as nat) == decimal((n / 100) as nat).push(
            digit_char(((n / 10) % 10) as nat),
        ));
        assert(r@ =~= decimal(n as nat));
        r
    }
}

/// `r` shows `s` in the terminal colour numbered `code`: `s` itself when
/// colours are off, else `s` between the colour's escape and the reset.
pub open spec fn painted(s: Seq<char>, code: Seq<char>, r: Seq<char>) -> bool {
    r == s || r == seq!['\u{1b}', '['] + code + seq!['m'] + s + seq!['\u{1b}', '[', '0', 'm']
}

/// Relies on `colored`'s `Colorize::red` and the `Display` of
/// `ColoredString`: a text without escape characters comes out plain or
/// wrapped in `ESC[31m` and `ESC[0m`, by whether colours are on.
#[verifier::external_body]
pub(crate) fn red(s: &str) -> (r: String)
    ensures
        !s@.contains('\u{1b}') ==> painted(s@, seq!['3', '1'], r@),
{
    s.red().to_string()
}

/// Relies on `colored`'s `Colorize::yellow` and the `Display` of
/// `ColoredString`: a text without escape characters comes out plain or
/// wrapped in `ESC[33m` and `ESC[0m`, by whether colours are on.
#[verifier::external_body]
pub(crate) fn yellow(s: &str) -> (r: String)
    ensures
        !s@.contains('\u{1b}') ==> painted(s@, seq!['3', '3'], r@),
{
    s.yellow().to_string()
}

/// Relies on `colored`'s `Colorize::green` and the `Display` of
/// `ColoredString`: a text without escape characters comes out plain or
/// wrapped in `ESC[32m` and `ESC[0m`, by whether colours are on.
#[verifier::external_body]
pub(crate) fn green(s: &str) -> (r: String)
    ensures
        !s@.contains('\u{1b}') ==> painted(s@, seq!['3', '2'], r@),
{
    s.green().to_string()
}

/// The text of `a` followed by `b`.
pub(crate) fn joined(a: String, b: &str) -> (r: String)
    ensures
        r@ == a@ + b@,
{
    let mut r = a;
    r.append(b);
    r
}

} // verus!
