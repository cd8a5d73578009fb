//! Splitting on spaces and trimming, the textual half of parsing.
//!
//! The input line splits on single space characters, exactly as the
//! standard split does: consecutive spaces and an empty input yield empty
//! substrings. Trimming a token follows Unicode whitespace, as the
//! standard library defines it; the predicate itself is named by an
//! uninterpreted spec function, so that the tokenizer's contracts can
//! speak of the trimmed token exactly.

use vstd::prelude::*;
use vstd::string::StrSliceExecFns;

verus! {

/// Whether `char::is_whitespace` holds of `c`.
pub uninterp spec fn is_unicode_whitespace(c: char) -> bool;

/// Relies on `char::is_whitespace`: whether a character counts as Unicode
/// whitespace is a function of the character alone.
#[verifier::external_body]
pub fn char_is_whitespace(c: char) -> (r: bool)
    ensures
        r == is_unicode_whitespace(c),
{
    c.is_whitespace()
}

/// The substrings of `s` between single space characters, in order:
/// one more substring than there are spaces.
pub open spec fn spec_split(s: Seq<char>) -> Seq<Seq<char>>
    decreases s.len(),
{
    if s.len() == 0 {
        seq![Seq::<char>::empty()]
    } else if s[0] == ' ' {
        seq![Seq::<char>::empty()] + spec_split(s.drop_first())
    } else {
        let rest = spec_split(s.drop_first());
        seq![seq![s[0]] + rest[0]] + rest.drop_first()
    }
}

/// `s` without its leading whitespace.
pub open spec fn spec_trim_start(s: Seq<char>) -> Seq<char>
    decreases s.len(),
{
    if s.len() > 0 && is_unicode_whitespace(s[0]) {
        spec_trim_start(s.drop_first())
    } else {
        s
    }
}

/// `s` without its trailing whitespace.
pub open spec fn spec_trim_end(s: Seq<char>) -> Seq<char>
    decreases s.len(),
{
    if s.len() > 0 && is_unicode_whitespace(s.last()) {
        spec_trim_end(s.drop_last())
    } else {
        s
    }
}

/// `s` without its leading and trailing whitespace.
pub open spec fn spec_trim(s: Seq<char>) -> Seq<char> {
    spec_trim_end(spec_trim_start(s))
}

/// A sequence without spaces splits into itself alone.
pub(crate) proof fn lemma_split_no_space(s: Seq<char>)
    requires
        forall|k: int| 0 <= k < s.len() ==> s[k] != ' ',
    ensures
        spec_split(s) == seq![s],
    decreases s.len(),
{
    if s.len() == 0 {
        assert(s =~= Seq::<char>::empty());
    } else {
        lemma_split_no_space(s.drop_first());
        let rest = spec_split(s.drop_first());
        assert(seq![s[0]] + s.drop_first() =~= s);
        assert(rest.drop_first() =~= Seq::<Seq<char>>::empty());
        assert(spec_split(s) =~= seq![s]);
    }
}

/// Splitting at the first space: the spaceless prefix is the first
/// substring, and the rest of the split follows the space.
pub(crate) proof fn lemma_split_at_space(s: Seq<char>, k: int)
    requires
        0 <= k < s.len(),
        s[k] == ' ',
        forall|j: int| 0 <= j < k ==> s[j] != ' ',
    ensures
        spec_split(s) == seq![s.take(k)] + spec_split(s.skip(k + 1)),
    decreases k,
{
    if k == 0 {
        assert(s.take(0) =~= Seq::<char>::empty());
        assert(s.drop_first() =~= s.skip(1));
        assert(spec_split(s) =~= seq![s.take(0)] + spec_split(s.skip(1)));
    } else {
        lemma_split_at_space(s.drop_first(), k - 1);
        let rest = spec_split(s.drop_first());
        assert(rest == seq![s.drop_first().take(k - 1)] + spec_split(s.drop_first().skip(k)));
        assert(rest[0] == s.drop_first().take(k - 1));
        assert(rest.drop_first() =~= spec_split(s.drop_first().skip(k)));
        assert(seq![s[0]] + s.drop_first().take(k - 1) =~= s.take(k));
        assert(s.drop_first().skip(k) =~= s.skip(k + 1));
        assert(spec_split(s) =~= seq![s.take(k)] + spec_split(s.skip(k + 1)));
    }
}

/// Dropping a fully-whitespace prefix is what `spec_trim_start` does.
proof fn lemma_trim_start_skip(s: Seq<char>, lo: int)
    requires
        0 <= lo <= s.len(),
        forall|j: int| 0 <= j < lo ==> is_unicode_whitespace(s[j]),
        lo == s.len() || !is_unicode_whitespace(s[lo]),
    ensures
        spec_trim_start(s) == s.skip(lo),
    decreases lo,
{
    if lo == 0 {
        assert(s.skip(0) =~= s);
    } else {
        lemma_trim_start_skip(s.drop_first(), lo - 1);
        assert(s.drop_first().skip(lo - 1) =~= s.skip(lo));
    }
}

/// Cutting a fully-whitespace suffix is what `spec_trim_end` does.
proof fn lemma_trim_end_take(s: Seq<char>, hi: int)
    requires
        0 <= hi <= s.len(),
        forall|j: int| hi <= j < s.len() ==> is_unicode_whitespace(s[j]),
        hi == 0 || !is_unicode_whitespace(s[hi - 1]),
    ensures
        spec_trim_end(s) == s.take(hi),
    decreases s.len() - hi,
{
    if hi == s.len() {
        assert(s.take(hi) =~= s);
    } else {
        assert(is_unicode_whitespace(s.last()));
        lemma_trim_end_take(s.drop_last(), hi);
        assert(s.drop_last().take(hi) =~= s.take(hi));
    }
}

/// The characters of `input` between `start` and `end`, trimmed of
/// leading and trailing whitespace, as an owned string.
pub fn trim_token(input: &str, start: usize, end: usize) -> (t: String)
    requires
        start <= end <= input@.len(),
    ensures
        t@ == spec_trim(input@.subrange(start as int, end as int)),
{
    let mut lo: usize = start;
    while lo < end && char_is_whitespace(input.get_char(lo))
        invariant
            start <= lo <= end <= input@.len(),
            forall|j: int| start <= j < lo ==> is_unicode_whitespace(input@[j]),
        decreases end - lo,
    {
        lo = lo + 1;
    }
    let mut hi: usize = end;
    while hi > lo && char_is_whitespace(input.get_char(hi - 1))
        invariant
            start <= lo <= hi <= end <= input@.len(),
            forall|j: int| hi <= j < end ==> is_unicode_whitespace(input@[j]),
        decreases hi,
    {
        hi = hi - 1;
    }
    let piece = input.substring_char(lo, hi);
    let t = piece.to_owned();
    proof {
        let raw = input@.subrange(start as int, end as int);
        lemma_trim_start_skip(raw, lo - start);
        assert(raw.skip(lo - start) =~= input@.subrange(lo as int, end as int));
        let tail = input@.subrange(lo as int, end as int);
        lemma_trim_end_take(tail, hi - lo);
        assert(tail.take(hi - lo) =~= input@.subrange(lo as int, hi as int));
    }
    t
}

} // verus!
