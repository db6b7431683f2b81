//! Which texts a search pattern selects: the acceptance rule of the skim
//! fuzzy matcher, stated over character sequences.

use fuzzy_matcher::skim::SkimMatcherV2;
use fuzzy_matcher::FuzzyMatcher;
use vstd::prelude::*;
use vstd::std_specs::iter::IteratorSpec;

verus! {

/// An ASCII capital letter.
pub open spec fn is_ascii_upper(c: char) -> bool {
    'A' <= c && c <= 'Z'
}

/// The two characters are the same once ASCII capitals are lowered.
pub open spec fn same_ignoring_ascii_case(a: char, b: char) -> bool {
    ||| a == b
    ||| is_ascii_upper(a) && b as int == a as int + 32
    ||| is_ascii_upper(b) && a as int == b as int + 32
}

/// A character of the text stands for a character of the pattern.
pub open spec fn chars_agree(c: char, p: char, case_sensitive: bool) -> bool {
    if case_sensitive {
        c == p
    } else {
        same_ignoring_ascii_case(c, p)
    }
}

/// The pattern asks for a case-sensitive search: it holds an ASCII capital.
pub open spec fn has_ascii_upper(s: Seq<char>) -> bool {
    exists|i: int| 0 <= i < s.len() && is_ascii_upper(#[trigger] s[i])
}

/// The characters of `pattern` occur in `choice` in the same order, not
/// necessarily next to each other.
pub open spec fn is_subsequence(choice: Seq<char>, pattern: Seq<char>, case_sensitive: bool) -> bool
    decreases choice.len(),
{
    if pattern.len() == 0 {
        true
    } else if choice.len() == 0 {
        false
    } else if chars_agree(choice[0], pattern[0], case_sensitive) {
        is_subsequence(choice.drop_first(), pattern.drop_first(), case_sensitive)
    } else {
        is_subsequence(choice.drop_first(), pattern, case_sensitive)
    }
}

/// The text fuzzy-matches the pattern: the pattern is a subsequence of the
/// text, compared without regard to ASCII case unless the pattern itself
/// holds a capital letter.
pub open spec fn skim_accepts(choice: Seq<char>, pattern: Seq<char>) -> bool {
    is_subsequence(choice, pattern, has_ascii_upper(pattern))
}

/// The longest text, in characters, that is handed to the matcher. Its
/// scores are sums that grow with the length of the texts; below this
/// length they stay far inside their integer type.
pub const MATCHER_LIMIT: usize = 0x10_0000;

/// `SkimMatcherV2::default().fuzzy_match(choice, pattern)`. Trusted: the
/// matcher, in its default smart-case setting, gives a score exactly when the
/// pattern is a subsequence of the text in the sense of `skim_accepts`.
/// Nothing is claimed of the score itself. Longer texts are kept away from
/// the matcher, whose score arithmetic is not guarded against overflow.
#[verifier::external_body]
pub(crate) fn skim_fuzzy_match(choice: &str, pattern: &str) -> (r: Option<i64>)
    requires
        choice@.len() <= MATCHER_LIMIT,
        pattern@.len() <= MATCHER_LIMIT,
    ensures
        r is Some <==> skim_accepts(choice@, pattern@),
{
    SkimMatcherV2::default().fuzzy_match(choice, pattern)
}

/// Tells whether `c` is an ASCII capital letter.
fn char_is_ascii_upper(c: char) -> (r: bool)
    ensures
        r == is_ascii_upper(c),
{
    'A' <= c && c <= 'Z'
}

/// Tells whether a character of the text stands for a character of the
/// pattern.
fn agree(c: char, p: char, case_sensitive: bool) -> (r: bool)
    ensures
        r == chars_agree(c, p, case_sensitive),
{
    if c == p {
        true
    } else if case_sensitive {
        false
    } else {
        (char_is_ascii_upper(c) && p as u32 == c as u32 + 32) || (char_is_ascii_upper(p) && c as u32
            == p as u32 + 32)
    }
}

/// Tells whether the pattern holds an ASCII capital letter.
fn holds_ascii_upper(pattern: &str) -> (r: bool)
    ensures
        r == has_ascii_upper(pattern@),
{
    let mut rest = pattern.chars();
    let ghost mut seen: int = 0;
    loop
        invariant
            0 <= seen <= pattern@.len(),
            rest.remaining() == pattern@.skip(seen),
            forall|w: int| 0 <= w < seen ==> !is_ascii_upper(#[trigger] pattern@[w]),
        decreases pattern@.len() - seen,
    {
        match rest.next() {
            None => {
                return false;
            },
            Some(p) => {
                assert(p == pattern@[seen]);
                if char_is_ascii_upper(p) {
                    return true;
                }
                proof {
                    assert(pattern@.skip(seen).drop_first() =~= pattern@.skip(seen + 1));
                    seen = seen + 1;
                }
            },
        }
    }
}

/// Decides `skim_accepts` by going through the text once.
fn scan_accepts(choice: &str, pattern: &str) -> (r: bool)
    ensures
        r == skim_accepts(choice@, pattern@),
{
    let case_sensitive = holds_ascii_upper(pattern);
    let mut text = choice.chars();
    let mut rest = pattern.chars();
    let mut want = rest.next();
    let ghost mut i: int = 0;
    let ghost mut j: int = 0;
    proof {
        assert(choice@.skip(0) =~= choice@);
        assert(pattern@.skip(0) =~= pattern@);
    }
    loop
        invariant
            0 <= i <= choice@.len(),
            0 <= j <= pattern@.len(),
            case_sensitive == has_ascii_upper(pattern@),
            text.remaining() == choice@.skip(i),
            want is None ==> j == pattern@.len(),
            want matches Some(p) ==> j < pattern@.len() && p == pattern@[j] && rest.remaining()
                == pattern@.skip(j + 1),
            is_subsequence(choice@, pattern@, case_sensitive) == is_subsequence(
                choice@.skip(i),
                pattern@.skip(j),
                case_sensitive,
            ),
        decreases choice@.len() - i,
    {
        let p = match want {
            None => {
                return true;
            },
            Some(p) => p,
        };
        match text.next() {
            None => {
                return false;
            },
            Some(c) => {
                proof {
                    assert(c == choice@[i]);
                    assert(choice@.skip(i).drop_first() =~= choice@.skip(i + 1));
                    assert(pattern@.skip(j).drop_first() =~= pattern@.skip(j + 1));
                }
                if agree(c, p, case_sensitive) {
                    want = rest.next();
                    proof {
                        if j + 1 < pattern@.len() {
                            assert(pattern@.skip(j + 1).drop_first() =~= pattern@.skip(j + 2));
                        }
                        j = j + 1;
                    }
                }
                proof {
                    i = i + 1;
                }
            },
        }
    }
}

/// Tells whether the text fuzzy-matches the pattern. The matcher decides;
/// a text or a pattern of more than `MATCHER_LIMIT` characters is gone
/// through here instead.
pub fn fuzzy_accepts(choice: &str, pattern: &str) -> (r: bool)
    ensures
        r == skim_accepts(choice@, pattern@),
{
    if choice.unicode_len() <= MATCHER_LIMIT && pattern.unicode_len() <= MATCHER_LIMIT {
        skim_fuzzy_match(choice, pattern).is_some()
    } else {
        scan_accepts(choice, pattern)
    }
}

/// The positions of `flags` that hold `true`, in rising order.
pub open spec fn true_positions(flags: Seq<bool>) -> Seq<usize>
    decreases flags.len(),
{
    if flags.len() == 0 {
        Seq::empty()
    } else {
        let before = true_positions(flags.drop_last());
        if flags.last() {
            before.push((flags.len() - 1) as usize)
        } else {
            before
        }
    }
}

/// What `true_positions` holds: exactly the positions of `true`, each once,
/// rising.
pub proof fn lemma_true_positions(flags: Seq<bool>)
    requires
        flags.len() <= usize::MAX,
    ensures
        true_positions(flags).len() <= flags.len(),
        forall|k: int|
            0 <= k < true_positions(flags).len() ==> (#[trigger] true_positions(flags)[k])
                < flags.len() && flags[true_positions(flags)[k] as int],
        forall|j: int, k: int|
            0 <= j < k < true_positions(flags).len() ==> true_positions(flags)[j] < true_positions(
                flags,
            )[k],
        forall|i: int| 0 <= i < flags.len() && flags[i] ==> true_positions(flags).contains(i as usize),
        true_positions(flags).no_duplicates(),
    decreases flags.len(),
{
    if flags.len() > 0 {
        let front = flags.drop_last();
        lemma_true_positions(front);
        let before = true_positions(front);
        let all = true_positions(flags);
        assert forall|i: int| 0 <= i < flags.len() && flags[i] implies all.contains(i as usize) by {
            if i < flags.len() - 1 {
                assert(front[i]);
                let k = choose|k: int| 0 <= k < before.len() && before[k] == i as usize;
                assert(all[k] == i as usize);
            } else {
                assert(all[all.len() - 1] == i as usize);
            }
        }
    }
}

/// Picks the positions that are flagged, in rising order.
pub fn select_hits(flags: &Vec<bool>) -> (hits: Vec<usize>)
    ensures
        hits@ == true_positions(flags@),
{
    let mut hits: Vec<usize> = Vec::new();
    let mut i: usize = 0;
    while i < flags.len()
        invariant
            i <= flags.len(),
            hits@ == true_positions(flags@.take(i as int)),
        decreases flags.len() - i,
    {
        assert(flags@.take(i + 1).drop_last() =~= flags@.take(i as int));
        if flags[i] {
            hits.push(i);
        }
        i += 1;
    }
    assert(flags@.take(i as int) =~= flags@);
    hits
}

} // verus!
