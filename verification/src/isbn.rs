//! International Standard Book Numbers: check digits and normal forms.

use vstd::prelude::*;
use crate::collisions::{digit_value, is_digit};
use crate::records::opt_view;
use crate::text::{chars_of, digit_char, string_of};

verus! {

/// The value of `c` as a decimal digit.
pub fn digit_of_char(c: char) -> (d: Option<u8>)
    ensures
        match d {
            Some(v) => is_digit(c) && v == digit_value(c) && v < 10,
            None => !is_digit(c),
        },
{
    if c == '0' {
        Some(0)
    } else if c == '1' {
        Some(1)
    } else if c == '2' {
        Some(2)
    } else if c == '3' {
        Some(3)
    } else if c == '4' {
        Some(4)
    } else if c == '5' {
        Some(5)
    } else if c == '6' {
        Some(6)
    } else if c == '7' {
        Some(7)
    } else if c == '8' {
        Some(8)
    } else if c == '9' {
        Some(9)
    } else {
        None
    }
}

/// Whether the first `n` characters of `s` are decimal digits.
pub open spec fn leading_digits(s: Seq<char>, n: int) -> bool {
    forall|i: int| 0 <= i < n ==> is_digit(#[trigger] s[i])
}

/// How many characters of `s` a checksum over `limit` positions covers.
pub open spec fn covered(s: Seq<char>, limit: int) -> int {
    if s.len() < limit {
        s.len() as int
    } else {
        limit
    }
}

/// Sum of the first `n` digits of `s`, the digit at position `i` counting
/// `10 - i` times.
pub open spec fn weighted_sum_10(s: Seq<char>, n: int) -> int
    decreases n,
{
    if n <= 0 {
        0
    } else {
        weighted_sum_10(s, n - 1) + digit_value(s[n - 1]) * (10 - (n - 1))
    }
}

/// Value of the check character of a ten-digit number: `X` counts ten, a
/// digit its value, anything else and an absent character nothing.
pub open spec fn check_value_10(s: Seq<char>) -> int {
    if s.len() <= 9 {
        0
    } else if s[9] == 'X' {
        10
    } else if is_digit(s[9]) {
        digit_value(s[9]) as int
    } else {
        0
    }
}

/// Whether `s` passes the check of a ten-digit number: up to nine leading
/// digits, whose weighted sum together with the check value is a multiple
/// of eleven.
pub open spec fn valid_isbn10(s: Seq<char>) -> bool {
    let n = covered(s, 9);
    leading_digits(s, n) && (weighted_sum_10(s, n) + check_value_10(s)) % 11 == 0
}

/// Sum of the first `n` digits of `s`, every second digit counting three
/// times.
pub open spec fn weighted_sum_13(s: Seq<char>, n: int) -> int
    decreases n,
{
    if n <= 0 {
        0
    } else {
        weighted_sum_13(s, n - 1) + digit_value(s[n - 1]) * if (n - 1) % 2 == 0 {
            1int
        } else {
            3int
        }
    }
}

/// Value of the check character of a thirteen-digit number: a digit counts
/// its value, anything else and an absent character nothing.
pub open spec fn check_value_13(s: Seq<char>) -> int {
    if s.len() <= 12 {
        0
    } else if is_digit(s[12]) {
        digit_value(s[12]) as int
    } else {
        0
    }
}

/// The check digit that goes with a weighted sum.
pub open spec fn check_digit_13(sum: int) -> int {
    (10 - sum % 10) % 10
}

/// Whether `s` passes the check of a thirteen-digit number: up to twelve
/// leading digits, whose weighted sum calls for the check value.
pub open spec fn valid_isbn13(s: Seq<char>) -> bool {
    let n = covered(s, 12);
    leading_digits(s, n) && check_digit_13(weighted_sum_13(s, n)) == check_value_13(s)
}

/// Checks a ten-digit book number.
#[verifier::loop_isolation(false)]
pub fn is_valid_isbn10(value: &str) -> (b: bool)
    ensures
        b == valid_isbn10(value@),
{
    let v = chars_of(value);
    let n: usize = if v.len() < 9 {
        v.len()
    } else {
        9
    };
    let mut sum: u32 = 0;
    let mut i: usize = 0;
    while i < n
        invariant
            i <= n <= 9,
            n <= v.len(),
            n == covered(v@, 9),
            leading_digits(v@, i as int),
            sum == weighted_sum_10(v@, i as int),
            sum <= 90 * i,
        decreases n - i,
    {
        match digit_of_char(v[i]) {
            None => {
                assert(!is_digit(v@[i as int]));
                return false;
            },
            Some(d) => {
                assert(d * (10 - i) <= 90) by (nonlinear_arith)
                    requires
                        d < 10,
                        i < 9,
                ;
                sum = sum + (d as u32) * (10 - i as u32);
            },
        }
        i += 1;
    }
    let check: u32 = if v.len() > 9 {
        if v[9] == 'X' {
            10
        } else {
            match digit_of_char(v[9]) {
                Some(d) => d as u32,
                None => 0,
            }
        }
    } else {
        0
    };
    (sum + check) % 11 == 0
}

/// Checks a thirteen-digit book number.
#[verifier::loop_isolation(false)]
pub fn is_valid_isbn13(value: &str) -> (b: bool)
    ensures
        b == valid_isbn13(value@),
{
    let v = chars_of(value);
    let n: usize = if v.len() < 12 {
        v.len()
    } else {
        12
    };
    let mut sum: u32 = 0;
    let mut i: usize = 0;
    while i < n
        invariant
            i <= n <= 12,
            n <= v.len(),
            n == covered(v@, 12),
            leading_digits(v@, i as int),
            sum == weighted_sum_13(v@, i as int),
            sum <= 27 * i,
        decreases n - i,
    {
        match digit_of_char(v[i]) {
            None => {
                assert(!is_digit(v@[i as int]));
                return false;
            },
            Some(d) => {
                if i % 2 == 0 {
                    sum = sum + d as u32;
                } else {
                    sum = sum + 3 * (d as u32);
                }
            },
        }
        i += 1;
    }
    let check: u32 = if v.len() > 12 {
        match digit_of_char(v[12]) {
            Some(d) => d as u32,
            None => 0,
        }
    } else {
        0
    };
    (10 - sum % 10) % 10 == check
}

/// Whether a character belongs to a book number.
pub open spec fn is_isbn_char(c: char) -> bool {
    is_digit(c) || c == 'X' || c == 'x'
}

/// The characters of `s` that belong to a book number, `x` in upper case.
pub open spec fn isbn_chars(s: Seq<char>) -> Seq<char>
    decreases s.len(),
{
    if s.len() == 0 {
        Seq::empty()
    } else {
        let front = isbn_chars(s.drop_last());
        let c = s.last();
        if !is_isbn_char(c) {
            front
        } else if c == 'x' {
            front.push('X')
        } else {
            front.push(c)
        }
    }
}

/// The normal form of a book number: its digits and check character, if
/// they are ten and pass the ten-digit check or thirteen and pass the
/// thirteen-digit check.
pub open spec fn normal_isbn(s: Seq<char>) -> Option<Seq<char>> {
    let c = isbn_chars(s);
    if c.len() == 10 && valid_isbn10(c) {
        Some(c)
    } else if c.len() == 13 && valid_isbn13(c) {
        Some(c)
    } else {
        None
    }
}

/// Brings a book number into its normal form: separators dropped, `x` in
/// upper case. Returns nothing unless what is left is a valid ten-digit or
/// thirteen-digit number.
pub fn normalize_isbn(value: &str) -> (r: Option<String>)
    ensures
        opt_view(r) == normal_isbn(value@),
{
    let v = chars_of(value);
    let mut cleaned: Vec<char> = Vec::new();
    let mut i: usize = 0;
    assert(v@.subrange(0, 0) =~= Seq::<char>::empty());
    while i < v.len()
        invariant
            i <= v.len(),
            cleaned@ == isbn_chars(v@.subrange(0, i as int)),
        decreases v.len() - i,
    {
        let ghost next = v@.subrange(0, i + 1);
        assert(next.drop_last() == v@.subrange(0, i as int));
        assert(next.last() == v@[i as int]);
        let c = v[i];
        if c == 'x' || c == 'X' {
            cleaned.push('X');
        } else if digit_of_char(c).is_some() {
            cleaned.push(c);
        }
        i += 1;
    }
    assert(v@.subrange(0, v.len() as int) == v@);
    let text = string_of(&cleaned);
    if cleaned.len() == 10 && is_valid_isbn10(text.as_str()) {
        return Some(text);
    }
    if cleaned.len() == 13 && is_valid_isbn13(text.as_str()) {
        return Some(text);
    }
    None
}

/// The thirteen-digit number for the nine digits `body` of a ten-digit
/// number: the prefix 978, the digits, and the check digit that they call
/// for.
pub open spec fn ean13_of(body: Seq<char>) -> Seq<char> {
    let base = seq!['9', '7', '8'] + body;
    base.push(digit_char(check_digit_13(weighted_sum_13(base, 12)) as nat))
}

/// The thirteen-digit form of a book number.
pub open spec fn ean13(s: Seq<char>) -> Option<Seq<char>> {
    match normal_isbn(s) {
        None => None,
        Some(n) => if n.len() == 13 {
            Some(n)
        } else {
            Some(ean13_of(n.subrange(0, 9)))
        },
    }
}

/// Converts a book number to its thirteen-digit form. A valid
/// thirteen-digit number is returned in normal form; a valid ten-digit
/// number gets the prefix 978 and a new check digit; anything else gives
/// nothing.
pub fn isbn_to_ean13(value: &str) -> (r: Option<String>)
    ensures
        opt_view(r) == ean13(value@),
{
    let normalized = match normalize_isbn(value) {
        None => {
            return None;
        },
        Some(n) => n,
    };
    let n = chars_of(normalized.as_str());
    if n.len() == 13 {
        return Some(normalized);
    }
    assert(n@.len() == 10 && valid_isbn10(n@));
    let mut base: Vec<char> = Vec::new();
    base.push('9');
    base.push('7');
    base.push('8');
    let mut k: usize = 0;
    while k < 9
        invariant
            k <= 9,
            n@.len() == 10,
            leading_digits(n@, 9),
            base@ == seq!['9', '7', '8'] + n@.subrange(0, k as int),
        decreases 9 - k,
    {
        base.push(n[k]);
        assert(n@.subrange(0, k + 1) == n@.subrange(0, k as int).push(n@[k as int]));
        k += 1;
    }
    let mut sum: u32 = 0;
    let mut i: usize = 0;
    while i < 12
        invariant
            i <= 12,
            base@.len() == 12,
            leading_digits(base@, 12),
            sum == weighted_sum_13(base@, i as int),
            sum <= 27 * i,
        decreases 12 - i,
    {
        match digit_of_char(base[i]) {
            None => {
                assert(is_digit(base@[i as int]));
            },
            Some(d) => {
                if i % 2 == 0 {
                    sum = sum + d as u32;
                } else {
                    sum = sum + 3 * (d as u32);
                }
            },
        }
        i += 1;
    }
    let check = ((10 - sum % 10) % 10) as u8;
    base.push(crate::text::digit_of(check));
    Some(string_of(&base))
}

/// The check digit of a converted number is a digit.
pub proof fn lemma_digit_char_value(d: nat)
    requires
        d < 10,
    ensures
        is_digit(digit_char(d)),
        digit_value(digit_char(d)) == d,
{
}

/// Adding characters after the first `n` does not change their weighted
/// sum.
pub proof fn lemma_sum_13_prefix(s: Seq<char>, t: Seq<char>, n: int)
    requires
        0 <= n <= s.len(),
        s.is_prefix_of(t),
    ensures
        weighted_sum_13(s, n) == weighted_sum_13(t, n),
    decreases n,
{
    if n > 0 {
        lemma_sum_13_prefix(s, t, n - 1);
        assert(s[n - 1] == t[n - 1]);
    }
}

/// A converted number passes the thirteen-digit check: for every nine
/// digits, the number that conversion builds from them is valid.
pub proof fn law_converted_number_is_valid(body: Seq<char>)
    requires
        body.len() == 9,
        leading_digits(body, 9),
    ensures
        ean13_of(body).len() == 13,
        valid_isbn13(ean13_of(body)),
{
    let base = seq!['9', '7', '8'] + body;
    let check = check_digit_13(weighted_sum_13(base, 12));
    let full = ean13_of(body);
    assert(0 <= check < 10);
    lemma_digit_char_value(check as nat);
    assert(full =~= base.push(digit_char(check as nat)));
    assert forall|i: int| 0 <= i < 12 implies is_digit(#[trigger] full[i]) by {
        if i >= 3 {
            assert(full[i] == body[i - 3]);
        }
    }
    assert(base.is_prefix_of(full)) by {
        assert(full.subrange(0, base.len() as int) =~= base);
    }
    lemma_sum_13_prefix(base, full, 12);
}

} // verus!
