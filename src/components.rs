//! Helpers for interactive message components: matching and parsing custom
//! ids, paging buttons and response texts.
use vstd::prelude::*;
use crate::text::{decimal_of, decimal_text, has_prefix, starts_with, strip_prefix};

verus! {

pub open spec fn is_digit(c: char) -> bool {
    '0' <= c <= '9'
}

pub open spec fn all_digits(s: Seq<char>) -> bool {
    forall|i: int| 0 <= i < s.len() ==> is_digit(#[trigger] s[i])
}

/// `s` without a leading `+`.
pub open spec fn sign_stripped(s: Seq<char>) -> Seq<char> {
    if s.len() > 0 && s[0] == '+' {
        s.subrange(1, s.len() as int)
    } else {
        s
    }
}

/// Value of a run of decimal digits.
pub open spec fn digits_value(s: Seq<char>) -> int
    decreases s.len(),
{
    if s.len() == 0 {
        0
    } else {
        digits_value(s.drop_last()) * 10 + (s.last() as int - '0' as int)
    }
}

/// A `u8` read from text as std reads it: an optional `+`, then one or more
/// decimal digits whose value is at most 255.
pub open spec fn u8_of(s: Seq<char>) -> Option<u8> {
    let body = sign_stripped(s);
    if body.len() > 0 && all_digits(body) && digits_value(body) <= 255 {
        Some(digits_value(body) as u8)
    } else {
        None
    }
}

proof fn lemma_digits_nonneg(s: Seq<char>)
    requires
        forall|i: int| 0 <= i < s.len() ==> is_digit(#[trigger] s[i]),
    ensures
        digits_value(s) >= 0,
    decreases s.len(),
{
    if s.len() > 0 {
        assert(forall|i: int| 0 <= i < s.drop_last().len() ==> s.drop_last()[i] == s[i]);
        lemma_digits_nonneg(s.drop_last());
    }
}

/// Reads a `u8` from text; see `u8_of`.
pub fn parse_u8(s: &str) -> (r: Option<u8>)
    ensures
        r == u8_of(s@),
{
    let n = s.unicode_len();
    let start: usize = if n > 0 && s.get_char(0) == '+' {
        1
    } else {
        0
    };
    let ghost body = sign_stripped(s@);
    assert(body =~= s@.subrange(start as int, n as int));
    if start >= n {
        assert(body.len() == 0);
        return None;
    }
    let mut v: u32 = 0;
    let mut i: usize = start;
    while i < n
        invariant
            n == s@.len(),
            start <= i <= n,
            body == s@.subrange(start as int, n as int),
            body == sign_stripped(s@),
            forall|k: int| start <= k < i ==> is_digit(#[trigger] s@[k]),
            v as int == if digits_value(s@.subrange(start as int, i as int)) > 256 {
                256
            } else {
                digits_value(s@.subrange(start as int, i as int))
            },
        decreases n - i,
    {
        let c = s.get_char(i);
        if !('0' <= c && c <= '9') {
            assert(!is_digit(body[i - start]));
            assert(!all_digits(body));
            return None;
        }
        let ghost prev = s@.subrange(start as int, i as int);
        let ghost next = s@.subrange(start as int, i + 1);
        proof {
            assert(next.drop_last() =~= prev);
            assert forall|k: int| 0 <= k < prev.len() implies is_digit(#[trigger] prev[k]) by {
                assert(prev[k] == s@[start + k]);
            }
            lemma_digits_nonneg(prev);
        }
        let d: u32 = c as u32 - '0' as u32;
        let w: u32 = v * 10 + d;
        v = if w > 256 {
            256
        } else {
            w
        };
        proof {
            let a = digits_value(prev);
            assert(digits_value(next) == a * 10 + d);
            assert((if a > 256 { 256 } else { a }) * 10 + d > 256 <==> a * 10 + d > 256) by (nonlinear_arith)
                requires
                    a >= 0,
                    0 <= d <= 9,
            ;
        }
        i += 1;
    }
    proof {
        assert forall|k: int| 0 <= k < body.len() implies is_digit(#[trigger] body[k]) by {
            assert(body[k] == s@[start + k]);
        }
        lemma_digits_nonneg(body);
    }
    if v > 255 {
        assert(digits_value(body) > 255);
        None
    } else {
        assert(digits_value(body) == v);
        assert(body.len() > 0);
        Some(v as u8)
    }
}

/// Whether a custom id starts with `pattern`.
pub fn custom_id_matches(custom_id: &str, pattern: &str) -> (r: bool)
    ensures
        r == has_prefix(custom_id@, pattern@),
{
    starts_with(custom_id, pattern)
}

/// The rest of a custom id after `prefix`, `None` where it lacks the prefix.
pub fn extract_custom_id_value<'a>(custom_id: &'a str, prefix: &str) -> (r: Option<&'a str>)
    ensures
        match r {
            Some(t) => has_prefix(custom_id@, prefix@) && t@ == custom_id@.subrange(
                prefix@.len() as int,
                custom_id@.len() as int,
            ),
            None => !has_prefix(custom_id@, prefix@),
        },
{
    strip_prefix(custom_id, prefix)
}

/// The page number after `prefix` in a custom id (`help_page_2` gives 2).
pub fn extract_page_number(custom_id: &str, prefix: &str) -> (r: Option<u8>)
    ensures
        r == (if has_prefix(custom_id@, prefix@) {
            u8_of(custom_id@.subrange(prefix@.len() as int, custom_id@.len() as int))
        } else {
            None
        }),
{
    match strip_prefix(custom_id, prefix) {
        Some(rest) => parse_u8(rest),
        None => None,
    }
}

/// A paging button: its custom id and its label.
#[derive(Debug)]
pub struct PageButton {
    pub custom_id: String,
    pub label: String,
}

/// The buttons of page `current` of `total`: one back to the previous page
/// where there is one, one on to the next where there is one; `None` for a
/// single page or where no button applies.
pub fn create_pagination_buttons(prefix: &str, current_page: u8, total_pages: u8) -> (r: Option<Vec<PageButton>>)
    ensures
        total_pages <= 1 ==> r is None,
        total_pages > 1 ==> match r {
            Some(b) => {
                &&& b@.len() > 0
                &&& b@.len() == (if current_page > 1 { 1int } else { 0int }) + (if current_page < total_pages { 1int } else { 0int })
                &&& current_page > 1 ==> b@[0].custom_id@ == prefix@ + decimal_of((current_page - 1) as nat)
                    && b@[0].label@ == "◀ Previous"@
                &&& current_page < total_pages ==> b@[b@.len() - 1].custom_id@ == prefix@ + decimal_of(
                    (current_page + 1) as nat,
                ) && b@[b@.len() - 1].label@ == "Next ▶"@
            },
            None => current_page <= 1 && current_page >= total_pages,
        },
{
    if total_pages <= 1 {
        return None;
    }
    let mut buttons: Vec<PageButton> = Vec::new();
    if current_page > 1 {
        let id = String::from_str(prefix).concat(decimal_text((current_page - 1) as u64).as_str());
        buttons.push(PageButton { custom_id: id, label: String::from_str("◀ Previous") });
    }
    if current_page < total_pages {
        let id = String::from_str(prefix).concat(decimal_text((current_page + 1) as u64).as_str());
        buttons.push(PageButton { custom_id: id, label: String::from_str("Next ▶") });
    }
    if buttons.len() == 0 {
        None
    } else {
        Some(buttons)
    }
}

/// Texts of ephemeral replies to component interactions.
pub struct ComponentResponseBuilder;

impl ComponentResponseBuilder {
    /// `[ERROR] ` followed by the message.
    pub fn error_content(message: &str) -> (r: String)
        ensures
            r@ == "[ERROR] "@ + message@,
    {
        String::from_str("[ERROR] ").concat(message)
    }

    /// `[OK] ` followed by the message.
    pub fn success_content(message: &str) -> (r: String)
        ensures
            r@ == "[OK] "@ + message@,
    {
        String::from_str("[OK] ").concat(message)
    }
}

} // verus!
