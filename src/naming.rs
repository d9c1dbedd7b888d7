//! Derives a sticker's name from the text of the message that adds it.
use vstd::prelude::*;
use crate::text::{lower_of, to_lower};

verus! {

/// std's Unicode class of letters and digits (`char::is_alphanumeric`).
pub uninterp spec fn alphanumeric(c: char) -> bool;

/// Unicode's White_Space property, which `char::is_whitespace` tests.
pub open spec fn whitespace(c: char) -> bool {
    let v = c as u32;
    (0x9 <= v <= 0xD) || v == 0x20 || v == 0x85 || v == 0xA0 || v == 0x1680 || (0x2000 <= v <= 0x200A)
        || v == 0x2028 || v == 0x2029 || v == 0x202F || v == 0x205F || v == 0x3000
}

/// Relies on std's `char::is_alphanumeric`.
#[verifier::external_body]
fn is_alphanumeric(c: char) -> (r: bool)
    ensures
        r == alphanumeric(c),
{
    c.is_alphanumeric()
}

/// Relies on std's `char::is_whitespace`: true exactly for the characters
/// with Unicode's White_Space property.
#[verifier::external_body]
fn is_whitespace(c: char) -> (r: bool)
    ensures
        r == whitespace(c),
{
    c.is_whitespace()
}

/// A character a name may hold.
pub open spec fn name_char(c: char) -> bool {
    alphanumeric(c) || c == '_'
}

/// Spans `(first, end)` of the words of `s` (runs between white space) from
/// position `i` on; `start` is where the word in progress began, -1 for none.
pub open spec fn word_spans(s: Seq<char>, i: int, start: int) -> Seq<(int, int)>
    decreases s.len() - i,
{
    if i >= s.len() {
        if start >= 0 {
            seq![(start, s.len() as int)]
        } else {
            Seq::empty()
        }
    } else if whitespace(s[i]) {
        (if start >= 0 {
            seq![(start, i)]
        } else {
            Seq::empty()
        }) + word_spans(s, i + 1, -1)
    } else {
        word_spans(s, i + 1, if start >= 0 { start } else { i })
    }
}

/// First position of `[a, b)` from which on a name character comes.
pub open spec fn trim_left(s: Seq<char>, a: int, b: int) -> int
    decreases b - a,
{
    if a < b && !name_char(s[a]) {
        trim_left(s, a + 1, b)
    } else {
        a
    }
}

/// End of `[a, b)` once trailing characters that are no name characters go.
pub open spec fn trim_right(s: Seq<char>, a: int, b: int) -> int
    decreases b - a,
{
    if a < b && !name_char(s[b - 1]) {
        trim_right(s, a, b - 1)
    } else {
        b
    }
}

/// A word with the non-name characters at both ends removed.
pub open spec fn cleaned(s: Seq<char>, w: (int, int)) -> (int, int) {
    let l = trim_left(s, w.0, w.1);
    (l, trim_right(s, l, w.1))
}

/// Bytes that `c` takes in UTF-8.
pub open spec fn utf8_len(c: char) -> int {
    if (c as u32) < 0x80 {
        1
    } else if (c as u32) < 0x800 {
        2
    } else if (c as u32) < 0x10000 {
        3
    } else {
        4
    }
}

/// Bytes that `s[a..b]` takes in UTF-8.
pub open spec fn byte_len(s: Seq<char>, a: int, b: int) -> int
    decreases b - a,
{
    if a >= b {
        0
    } else {
        byte_len(s, a, b - 1) + utf8_len(s[b - 1])
    }
}

/// A span that makes a good name: at least three bytes of name characters.
pub open spec fn good_name(s: Seq<char>, w: (int, int)) -> bool {
    &&& byte_len(s, w.0, w.1) >= 3
    &&& forall|k: int| w.0 <= k < w.1 ==> name_char(#[trigger] s[k])
}

/// Index of the first word of `ws` that makes a good name once cleaned, -1
/// for none.
pub open spec fn first_good(s: Seq<char>, ws: Seq<(int, int)>) -> int
    decreases ws.len(),
{
    if ws.len() == 0 {
        -1
    } else {
        let f = first_good(s, ws.drop_last());
        if f >= 0 {
            f
        } else if good_name(s, cleaned(s, ws.last())) {
            ws.len() - 1
        } else {
            -1
        }
    }
}

/// The name taken from a message: the first word that makes a good name once
/// cleaned, else the cleaned first word where anything is left of it, in
/// lower case.
pub open spec fn sticker_name(s: Seq<char>) -> Option<Seq<char>> {
    let ws = word_spans(s, 0, -1);
    let k = first_good(s, ws);
    if k >= 0 {
        Some(lower_of(s.subrange(cleaned(s, ws[k]).0, cleaned(s, ws[k]).1)))
    } else if ws.len() > 0 && cleaned(s, ws[0]).0 < cleaned(s, ws[0]).1 {
        Some(lower_of(s.subrange(cleaned(s, ws[0]).0, cleaned(s, ws[0]).1)))
    } else {
        None
    }
}

fn is_name_char(c: char) -> (r: bool)
    ensures
        r == name_char(c),
{
    c == '_' || is_alphanumeric(c)
}

fn words(cs: &Vec<char>) -> (r: Vec<(usize, usize)>)
    ensures
        r@.len() == word_spans(cs@, 0, -1).len(),
        forall|k: int| 0 <= k < r@.len() ==> (#[trigger] r@[k].0 as int, r@[k].1 as int) == word_spans(cs@, 0, -1)[k],
        forall|k: int| 0 <= k < r@.len() ==> #[trigger] r@[k].0 <= r@[k].1 <= cs@.len(),
{
    let ghost s = cs@;
    let mut spans: Vec<(usize, usize)> = Vec::new();
    let ghost mut done: Seq<(int, int)> = Seq::empty();
    let mut start: Option<usize> = None;
    let mut i: usize = 0;
    while i < cs.len()
        invariant
            s == cs@,
            i <= s.len(),
            start matches Some(st) ==> st < i,
            spans@.len() == done.len(),
            forall|k: int| 0 <= k < spans@.len() ==> (#[trigger] spans@[k].0 as int, spans@[k].1 as int) == done[k],
            forall|k: int| 0 <= k < spans@.len() ==> #[trigger] spans@[k].0 <= spans@[k].1 <= s.len(),
            word_spans(s, 0, -1) == done + word_spans(s, i as int, match start {
                Some(st) => st as int,
                None => -1,
            }),
        decreases s.len() - i,
    {
        let ghost st_int: int = match start {
            Some(st) => st as int,
            None => -1,
        };
        let ghost before = spans@;
        if is_whitespace(cs[i]) {
            if let Some(st) = start {
                spans.push((st, i));
                proof {
                    done = done.push((st as int, i as int));
                    assert(word_spans(s, i as int, st_int) == seq![(st as int, i as int)] + word_spans(s, i + 1, -1));
                }
            } else {
                assert(word_spans(s, i as int, -1) == Seq::<(int, int)>::empty() + word_spans(s, i + 1, -1));
                assert(Seq::<(int, int)>::empty() + word_spans(s, i + 1, -1) =~= word_spans(s, i + 1, -1));
            }
            start = None;
        } else if start.is_none() {
            start = Some(i);
        }
        proof {
            assert forall|k: int| 0 <= k < spans@.len() implies (#[trigger] spans@[k].0 as int, spans@[k].1 as int) == done[k] by {
                if k < before.len() {
                    assert(spans@[k] == before[k]);
                }
            }
        }
        i += 1;
    }
    if let Some(st) = start {
        spans.push((st, cs.len()));
        proof {
            done = done.push((st as int, cs@.len() as int));
        }
    }
    proof {
        assert(word_spans(s, 0, -1) =~= done);
    }
    spans
}


fn trim_left_exec(cs: &Vec<char>, a: usize, b: usize) -> (r: usize)
    requires
        a <= b <= cs@.len(),
    ensures
        r as int == trim_left(cs@, a as int, b as int),
        a <= r <= b,
{
    let mut l = a;
    while l < b && !is_name_char(cs[l])
        invariant
            a <= l <= b <= cs@.len(),
            trim_left(cs@, a as int, b as int) == trim_left(cs@, l as int, b as int),
        decreases b - l,
    {
        l += 1;
    }
    l
}

fn trim_right_exec(cs: &Vec<char>, a: usize, b: usize) -> (r: usize)
    requires
        a <= b <= cs@.len(),
    ensures
        r as int == trim_right(cs@, a as int, b as int),
        a <= r <= b,
{
    let mut e = b;
    while e > a && !is_name_char(cs[e - 1])
        invariant
            a <= e <= b <= cs@.len(),
            trim_right(cs@, a as int, b as int) == trim_right(cs@, a as int, e as int),
        decreases e - a,
    {
        e -= 1;
    }
    e
}

fn utf8_len_exec(c: char) -> (r: u128)
    ensures
        r as int == utf8_len(c),
        1 <= r <= 4,
{
    let v = c as u32;
    if v < 0x80 {
        1
    } else if v < 0x800 {
        2
    } else if v < 0x10000 {
        3
    } else {
        4
    }
}

fn is_good_name(cs: &Vec<char>, a: usize, b: usize) -> (r: bool)
    requires
        a <= b <= cs@.len(),
    ensures
        r == good_name(cs@, (a as int, b as int)),
{
    let mut bytes: u128 = 0;
    let mut all = true;
    let mut k = a;
    while k < b
        invariant
            a <= k <= b <= cs@.len(),
            bytes as int == byte_len(cs@, a as int, k as int),
            bytes <= 4 * (k - a),
            all == forall|m: int| a <= m < k ==> name_char(#[trigger] cs@[m]),
        decreases b - k,
    {
        bytes = bytes + utf8_len_exec(cs[k]);
        if !is_name_char(cs[k]) {
            all = false;
        }
        k += 1;
    }
    bytes >= 3 && all
}

/// The name for a sticker taken from a message; see `sticker_name`.
pub fn extract_sticker_name(content: &str) -> (r: Option<String>)
    ensures
        match r {
            Some(name) => sticker_name(content@) == Some(name@),
            None => sticker_name(content@) is None,
        },
{
    let n = content.unicode_len();
    let mut cs: Vec<char> = Vec::new();
    let mut i: usize = 0;
    while i < n
        invariant
            n == content@.len(),
            i <= n,
            cs@ =~= content@.subrange(0, i as int),
        decreases n - i,
    {
        cs.push(content.get_char(i));
        i += 1;
    }
    assert(cs@ =~= content@);
    let ws = words(&cs);
    let ghost spans = word_spans(cs@, 0, -1);
    let mut k: usize = 0;
    while k < ws.len()
        invariant
            cs@ == content@,
            k <= ws@.len(),
            ws@.len() == spans.len(),
            spans == word_spans(cs@, 0, -1),
            forall|j: int| 0 <= j < ws@.len() ==> (#[trigger] ws@[j].0 as int, ws@[j].1 as int) == spans[j],
            forall|j: int| 0 <= j < ws@.len() ==> #[trigger] ws@[j].0 <= ws@[j].1 <= cs@.len(),
            first_good(cs@, spans.subrange(0, k as int)) == -1,
        decreases ws@.len() - k,
    {
        let (a, b) = ws[k];
        let l = trim_left_exec(&cs, a, b);
        let e = trim_right_exec(&cs, l, b);
        assert(spans.subrange(0, k + 1).drop_last() =~= spans.subrange(0, k as int));
        assert(spans.subrange(0, k + 1).last() == spans[k as int]);
        if is_good_name(&cs, l, e) {
            proof {
                lemma_first_good_prefix(cs@, spans, k as int + 1);
            }
            return Some(to_lower(content.substring_char(l, e)));
        }
        k += 1;
    }
    assert(spans.subrange(0, spans.len() as int) =~= spans);
    if ws.len() > 0 {
        let (a, b) = ws[0];
        let l = trim_left_exec(&cs, a, b);
        let e = trim_right_exec(&cs, l, b);
        if l < e {
            return Some(to_lower(content.substring_char(l, e)));
        }
    }
    None
}

proof fn lemma_first_good_prefix(s: Seq<char>, ws: Seq<(int, int)>, n: int)
    requires
        0 < n <= ws.len(),
        first_good(s, ws.subrange(0, n)) >= 0,
    ensures
        first_good(s, ws) == first_good(s, ws.subrange(0, n)),
    decreases ws.len(),
{
    if n < ws.len() {
        assert(ws.drop_last().subrange(0, n) =~= ws.subrange(0, n));
        lemma_first_good_prefix(s, ws.drop_last(), n);
    } else {
        assert(ws.subrange(0, n) =~= ws);
    }
}

} // verus!
