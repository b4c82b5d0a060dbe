//! Page selectors: which pages an exclusion rectangle applies to.
//!
//! A selector is `"all"`, `"even"`, `"odd"`, or any other text, which then has
//! to equal the page's own text letter for letter. Parity is taken from the
//! page text read as a decimal number the way `i32` parsing reads it: an
//! optional sign, then at least one digit, nothing else, and a value in range.

use vstd::prelude::*;
use vstd::string::*;

verus! {

/// `c` is one of `0` to `9`.
pub open spec fn is_digit(c: char) -> bool {
    '0' as u32 <= c as u32 <= '9' as u32
}

/// The number a digit stands for.
pub open spec fn digit_value(c: char) -> int {
    c as u32 - '0' as u32
}

/// Every character of `text` is a digit.
pub open spec fn all_digits(text: Seq<char>) -> bool {
    forall|i: int| 0 <= i < text.len() ==> is_digit(#[trigger] text[i])
}

/// The value of a run of digits read as a decimal number.
pub open spec fn decimal_value(digits: Seq<char>) -> int
    decreases digits.len(),
{
    if digits.len() == 0 {
        0
    } else {
        10 * decimal_value(digits.drop_last()) + digit_value(digits.last())
    }
}

/// `text` starts with a plus or minus sign.
pub open spec fn has_sign(text: Seq<char>) -> bool {
    text.len() > 0 && (text[0] == '-' || text[0] == '+')
}

/// The digits of `text`: what follows the sign, if there is one.
pub open spec fn digits_of(text: Seq<char>) -> Seq<char> {
    if has_sign(text) {
        text.skip(1)
    } else {
        text
    }
}

/// The number written in `text` with its sign, whatever its size.
pub open spec fn signed_value(text: Seq<char>) -> int {
    if text.len() > 0 && text[0] == '-' {
        -decimal_value(digits_of(text))
    } else {
        decimal_value(digits_of(text))
    }
}

/// The page number that `text` spells, if it spells one.
pub open spec fn page_number(text: Seq<char>) -> Option<int> {
    if digits_of(text).len() > 0 && all_digits(digits_of(text)) && i32::MIN <= signed_value(text)
        <= i32::MAX {
        Some(signed_value(text))
    } else {
        None
    }
}

/// Whether a rectangle with selector `selector` applies to the page `page`.
///
/// `"even"` and `"odd"` apply only where `page` spells a number, and `"odd"`
/// only to positive ones.
pub open spec fn selector_matches(selector: Seq<char>, page: Seq<char>) -> bool {
    if selector == "all"@ {
        true
    } else if selector == "even"@ {
        page_number(page) matches Some(n) && n % 2 == 0
    } else if selector == "odd"@ {
        page_number(page) matches Some(n) && n > 0 && n % 2 == 1
    } else {
        selector == page
    }
}

/// On a page whose text spells the number `n`, `"all"` applies, `"even"`
/// applies exactly when `n` is even, and `"odd"` exactly when `n` is odd and
/// positive.
pub proof fn lemma_selectors_on_numbered_page(page: Seq<char>, n: int)
    requires
        page_number(page) == Some(n),
    ensures
        selector_matches("all"@, page),
        selector_matches("even"@, page) <==> n % 2 == 0,
        selector_matches("odd"@, page) <==> n > 0 && n % 2 == 1,
{
    reveal_strlit("all");
    reveal_strlit("even");
    reveal_strlit("odd");
    assert("even"@.len() != "all"@.len());
    assert("odd"@[0] != "all"@[0]);
    assert("odd"@.len() != "even"@.len());
}

/// Reads `text` as a page number.
pub fn parse_page_number(text: &str) -> (number: Option<i32>)
    ensures
        match number {
            Some(n) => page_number(text@) == Some(n as int),
            None => page_number(text@) is None,
        },
{
    let len = text.unicode_len();
    if len == 0 {
        return None;
    }
    let first = text.get_char(0);
    let negative = first == '-';
    let start: usize = if first == '-' || first == '+' {
        1
    } else {
        0
    };
    if start == len {
        return None;
    }
    let ghost digits = digits_of(text@);
    let limit: u64 = 0x8000_0000;
    let mut magnitude: u64 = 0;
    let mut i: usize = start;
    while i < len
        invariant
            start <= i <= len,
            len == text@.len(),
            digits == text@.skip(start as int),
            digits == digits_of(text@),
            limit == 0x8000_0000,
            forall|j: int| 0 <= j < i - start ==> is_digit(#[trigger] digits[j]),
            magnitude <= limit ==> magnitude == decimal_value(digits.take(i - start)),
            magnitude > limit ==> decimal_value(digits.take(i - start)) > limit,
            magnitude <= 10 * limit + 9,
        decreases len - i,
    {
        let c = text.get_char(i);
        let code = c as u32;
        if code < '0' as u32 || code > '9' as u32 {
            assert(!is_digit(digits[i - start]));
            return None;
        }
        proof {
            assert(digits.take(i - start + 1).drop_last() =~= digits.take(i - start));
        }
        if magnitude <= limit {
            magnitude = magnitude * 10 + (code - '0' as u32) as u64;
        }
        i += 1;
    }
    assert(digits.take(len - start) =~= digits);
    if negative {
        if magnitude <= limit {
            Some((-(magnitude as i64)) as i32)
        } else {
            None
        }
    } else {
        if magnitude < limit {
            Some(magnitude as i32)
        } else {
            None
        }
    }
}

/// Decides [`selector_matches`].
pub fn selector_applies(selector: &str, page: &str) -> (applies: bool)
    ensures
        applies == selector_matches(selector@, page@),
{
    let chosen = selector.to_owned();
    if chosen == "all".to_owned() {
        true
    } else if chosen == "even".to_owned() {
        match parse_page_number(page) {
            Some(n) => n % 2 == 0,
            None => false,
        }
    } else if chosen == "odd".to_owned() {
        match parse_page_number(page) {
            Some(n) => n > 0 && n % 2 == 1,
            None => false,
        }
    } else {
        chosen == page.to_owned()
    }
}

} // verus!
