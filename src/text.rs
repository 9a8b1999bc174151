use vstd::prelude::*;
use crate::rate::decimal_of;

verus! {

/// The characters with the Unicode `White_Space` property.
pub open spec fn is_white(c: char) -> bool {
    ||| ('\u{9}' <= c && c <= '\u{d}')
    ||| c == ' '
    ||| c == '\u{85}'
    ||| c == '\u{a0}'
    ||| c == '\u{1680}'
    ||| ('\u{2000}' <= c && c <= '\u{200a}')
    ||| c == '\u{2028}'
    ||| c == '\u{2029}'
    ||| c == '\u{202f}'
    ||| c == '\u{205f}'
    ||| c == '\u{3000}'
}

fn white(c: char) -> (r: bool)
    ensures
        r == is_white(c),
{
    ('\u{9}' <= c && c <= '\u{d}') || c == ' ' || c == '\u{85}' || c == '\u{a0}' || c == '\u{1680}'
        || ('\u{2000}' <= c && c <= '\u{200a}') || c == '\u{2028}' || c == '\u{2029}' || c
        == '\u{202f}' || c == '\u{205f}' || c == '\u{3000}'
}

/// Index of the first character at or after `i` that is not white space.
pub open spec fn skip_white(s: Seq<char>, i: int) -> int
    decreases s.len() - i,
{
    if 0 <= i < s.len() && is_white(s[i]) {
        skip_white(s, i + 1)
    } else {
        i
    }
}

/// End of `s[lo..j]` once white space at its end is dropped.
pub open spec fn drop_white_end(s: Seq<char>, lo: int, j: int) -> int
    decreases j - lo,
{
    if lo < j && is_white(s[j - 1]) {
        drop_white_end(s, lo, j - 1)
    } else {
        j
    }
}

/// `s` without white space at either end.
pub open spec fn trimmed(s: Seq<char>) -> Seq<char> {
    s.subrange(skip_white(s, 0), drop_white_end(s, skip_white(s, 0), s.len() as int))
}

proof fn lemma_skip_white_bounds(s: Seq<char>, i: int)
    requires
        0 <= i <= s.len(),
    ensures
        i <= skip_white(s, i) <= s.len(),
    decreases s.len() - i,
{
    if i < s.len() && is_white(s[i]) {
        lemma_skip_white_bounds(s, i + 1);
    }
}

proof fn lemma_drop_white_end_bounds(s: Seq<char>, lo: int, j: int)
    requires
        lo <= j,
    ensures
        lo <= drop_white_end(s, lo, j) <= j,
    decreases j - lo,
{
    if lo < j && is_white(s[j - 1]) {
        lemma_drop_white_end_bounds(s, lo, j - 1);
    }
}

/// Drops white space at both ends of `s`.
pub fn trim_text(s: &str) -> (r: &str)
    ensures
        r@ == trimmed(s@),
{
    let n = s.unicode_len();
    let mut i: usize = 0;
    while i < n && white(s.get_char(i))
        invariant
            i <= n,
            n == s@.len(),
            skip_white(s@, 0) == skip_white(s@, i as int),
        decreases n - i,
    {
        i = i + 1;
    }
    let mut j: usize = n;
    while j > i && white(s.get_char(j - 1))
        invariant
            i <= j <= n,
            n == s@.len(),
            i == skip_white(s@, 0),
            drop_white_end(s@, i as int, n as int) == drop_white_end(s@, i as int, j as int),
        decreases j,
    {
        j = j - 1;
    }
    s.substring_char(i, j)
}

/// `c` equals `p` when ASCII capitals are read as small letters.
pub open spec fn same_letter(c: char, p: char) -> bool {
    c == p || ('A' <= c && c <= 'Z' && c as u32 + 32 == p as u32)
}

/// The marker text that stands for a missing quote.
pub open spec fn no_value_text() -> Seq<char> {
    seq!['n', 'o', ' ', 'v', 'a', 'l', 'u', 'e']
}

/// `s` holds `p` at position `i`, capitals read as small letters.
pub open spec fn holds_at(s: Seq<char>, p: Seq<char>, i: int) -> bool {
    &&& 0 <= i
    &&& i + p.len() <= s.len()
    &&& forall|j: int| 0 <= j < p.len() ==> same_letter(#[trigger] s[i + j], p[j])
}

/// A quote text that marks a missing value: a single dot, nothing at
/// all, or a text that holds "no value" in any case.
pub open spec fn is_missing_marker(t: Seq<char>) -> bool {
    ||| t == seq!['.']
    ||| t.len() == 0
    ||| exists|i: int| holds_at(t, no_value_text(), i)
}

/// The quote that a rate field gives: none where the trimmed field is a
/// missing marker or no decimal.
pub open spec fn field_rate(field: Seq<char>) -> Option<i64> {
    if is_missing_marker(trimmed(field)) {
        None
    } else {
        decimal_of(trimmed(field))
    }
}

fn letter_matches(c: char, p: char) -> (r: bool)
    ensures
        r == same_letter(c, p),
{
    c == p || ('A' <= c && c <= 'Z' && c as u32 + 32 == p as u32)
}

/// Whether `t` marks a missing value.
pub fn is_missing(t: &str) -> (r: bool)
    ensures
        r == is_missing_marker(t@),
{
    let n = t.unicode_len();
    if n == 0 {
        return true;
    }
    if n == 1 && t.get_char(0) == '.' {
        assert(t@ =~= seq!['.']);
        return true;
    }
    if n == 1 {
        assert(t@ != seq!['.']) by {
            assert(t@[0] != '.');
        }
    }
    let pattern: [char; 8] = ['n', 'o', ' ', 'v', 'a', 'l', 'u', 'e'];
    assert(pattern@ =~= no_value_text());
    if n < 8 {
        assert forall|i: int| !holds_at(t@, no_value_text(), i) by {}
        return false;
    }
    let mut i: usize = 0;
    while i <= n - 8
        invariant
            n == t@.len(),
            n >= 8,
            i + 8 <= n + 1,
            pattern@ == no_value_text(),
            t@.len() != 0,
            t@ != seq!['.'],
            forall|k: int| 0 <= k < i ==> !holds_at(t@, no_value_text(), k),
        decreases n - i,
    {
        let mut j: usize = 0;
        let mut all = true;
        while j < 8
            invariant
                j <= 8,
                i + 8 <= n,
                n == t@.len(),
                pattern@ == no_value_text(),
                all == (forall|m: int| 0 <= m < j ==> same_letter(#[trigger] t@[i + m], no_value_text()[m])),
            decreases 8 - j,
        {
            let c = t.get_char(i + j);
            if !letter_matches(c, pattern[j]) {
                all = false;
            }
            j = j + 1;
        }
        if all {
            assert(holds_at(t@, no_value_text(), i as int));
            return true;
        }
        i = i + 1;
    }
    false
}

/// Reads a rate field: the trimmed text, unless it marks a missing value,
/// parsed as a decimal.
pub fn rate_of_field(field: &str) -> (r: Option<i64>)
    ensures
        r == field_rate(field@),
{
    let t = trim_text(field);
    if is_missing(t) {
        None
    } else {
        crate::rate::parse_decimal(t)
    }
}

} // verus!
