//! Stock symbols.
use vstd::prelude::*;

use crate::text::{chars_of, white_space};

verus! {

/// The text without the white space at its start.
pub open spec fn start_trimmed(s: Seq<char>) -> Seq<char>
    decreases s.len(),
{
    if s.len() > 0 && crate::text::is_space(s[0]) {
        start_trimmed(s.drop_first())
    } else {
        s
    }
}

/// The upper-case form of an ASCII letter; any other character as it is.
pub open spec fn upper_char(c: char) -> char {
    if 'a' <= c <= 'z' {
        (c as u32 - 32) as char
    } else {
        c
    }
}

pub open spec fn upper_text(s: Seq<char>) -> Seq<char> {
    s.map_values(|c: char| upper_char(c))
}

/// A symbol trimmed and in upper case.
pub open spec fn normalized(symbol: Seq<char>) -> Seq<char> {
    upper_text(start_trimmed(crate::text::end_trimmed(symbol)))
}

fn upper(c: char) -> (r: char)
    ensures
        r == upper_char(c),
{
    if 'a' <= c && c <= 'z' {
        (c as u8 - 32) as char
    } else {
        c
    }
}

/// Normalizes a symbol for case-insensitive matching (trim + uppercase).
pub fn normalize_symbol(symbol: &str) -> (r: String)
    ensures
        r@ == normalized(symbol@),
{
    let chars = chars_of(symbol);
    let mut end: usize = chars.len();
    assert(symbol@.take(end as int) =~= symbol@);
    while end > 0 && white_space(chars[end - 1])
        invariant
            end <= chars.len(),
            chars@ == symbol@,
            crate::text::end_trimmed(symbol@) == crate::text::end_trimmed(
                symbol@.take(end as int),
            ),
        decreases end,
    {
        assert(symbol@.take(end as int).drop_last() =~= symbol@.take(end - 1));
        end -= 1;
    }
    let ghost kept = symbol@.take(end as int);
    let mut start: usize = 0;
    assert(kept.skip(0) =~= kept);
    while start < end && white_space(chars[start])
        invariant
            start <= end <= chars.len(),
            chars@ == symbol@,
            kept == symbol@.take(end as int),
            start_trimmed(kept) == start_trimmed(kept.skip(start as int)),
        decreases end - start,
    {
        assert(kept.skip(start as int).drop_first() =~= kept.skip(start + 1));
        start += 1;
    }
    let ghost rest = kept.skip(start as int);
    let mut out = String::new();
    let mut i: usize = start;
    while i < end
        invariant
            start <= i <= end <= chars.len(),
            chars@ == symbol@,
            kept == symbol@.take(end as int),
            rest == kept.skip(start as int),
            out@ == upper_text(rest.take(i - start)),
        decreases end - i,
    {
        out.push(upper(chars[i]));
        assert(out@ =~= upper_text(rest.take(i + 1 - start)));
        i += 1;
    }
    assert(rest.take(i - start) =~= rest);
    out
}

/// Normalizing a symbol twice is normalizing it once.
pub proof fn normalizing_is_idempotent(symbol: Seq<char>)
    ensures
        normalized(normalized(symbol)) == normalized(symbol),
{
    let e = crate::text::end_trimmed(symbol);
    let s = start_trimmed(e);
    crate::text::trimmed_ends_clean(symbol);
    lemma_start_trimmed(e);
    let u = upper_text(s);
    assert(u.len() > 0 ==> !crate::text::is_space(u[0]) && !crate::text::is_space(u.last()));
    assert(upper_text(u) =~= u);
}

proof fn lemma_start_trimmed(s: Seq<char>)
    ensures
        ({
            let t = start_trimmed(s);
            &&& t.len() <= s.len()
            &&& t.len() > 0 ==> !crate::text::is_space(t[0]) && t.last() == s.last()
        }),
    decreases s.len(),
{
    if s.len() > 0 && crate::text::is_space(s[0]) {
        lemma_start_trimmed(s.drop_first());
    }
}

} // verus!
