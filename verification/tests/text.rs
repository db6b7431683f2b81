use fuzzy_matcher::skim::SkimMatcherV2;
use fuzzy_matcher::FuzzyMatcher;
use zotero_tui::matching::{fuzzy_accepts, select_hits};
use zotero_tui::text::str_is_blank;

#[test]
fn blank_strings() {
    assert!(str_is_blank(""));
    assert!(str_is_blank(" "));
    assert!(str_is_blank(" \t\n\r"));
    assert!(str_is_blank("\u{a0}\u{2003}\u{3000}"));
    assert!(!str_is_blank("a"));
    assert!(!str_is_blank("  a  "));
    assert!(!str_is_blank("\u{200b}"));
}

#[test]
fn blank_agrees_with_trim() {
    for s in ["", " ", "x", " x", "x ", "\t", "\u{85}", "\u{feff}", "_", "\u{1680}"] {
        assert_eq!(str_is_blank(s), s.trim().is_empty());
    }
}

#[test]
fn hits_are_the_flagged_positions() {
    assert_eq!(select_hits(&vec![true, false, true, true, false]), vec![0, 2, 3]);
    assert_eq!(select_hits(&vec![false, false]), Vec::<usize>::new());
    assert_eq!(select_hits(&Vec::new()), Vec::<usize>::new());
    assert_eq!(select_hits(&vec![true]), vec![0]);
}

fn subsequence(choice: &str, pattern: &str) -> bool {
    let sensitive = pattern.chars().any(|c| c.is_ascii_uppercase());
    let mut want = pattern.chars().peekable();
    for c in choice.chars() {
        match want.peek() {
            Some(p) => {
                let agree = if sensitive { c == *p } else { c.eq_ignore_ascii_case(p) };
                if agree {
                    want.next();
                }
            }
            None => break,
        }
    }
    want.peek().is_none()
}

#[test]
fn matcher_accepts_exactly_the_subsequences() {
    let matcher = SkimMatcherV2::default();
    let choices = ["", "a", "Alpha", "BETA", "axbycz", "ALPHABET", "\u{c9}t\u{e9}", "a-b_c d", "2001"];
    let patterns = ["", "a", "A", "al", "AL", "abc", "xyz", "zyx", "lph", "\u{e9}", "\u{c9}", "01", "aa"];
    for choice in choices {
        for pattern in patterns {
            assert_eq!(
                matcher.fuzzy_match(choice, pattern).is_some(),
                subsequence(choice, pattern),
                "{:?} against {:?}",
                choice,
                pattern
            );
            assert_eq!(fuzzy_accepts(choice, pattern), subsequence(choice, pattern));
        }
    }
}

#[test]
fn fuzzy_accepts_examples() {
    assert!(fuzzy_accepts("Alpha", "al"));
    assert!(!fuzzy_accepts("Beta", "al"));
    assert!(fuzzy_accepts("axbycz", "abc"));
    assert!(!fuzzy_accepts("abc", "abx"));
    assert!(fuzzy_accepts("anything", ""));
    assert!(fuzzy_accepts("", ""));
    assert!(!fuzzy_accepts("", "a"));
    assert!(fuzzy_accepts("ALPHA", "al"));
    assert!(!fuzzy_accepts("alpha", "Al"));
    assert!(fuzzy_accepts("Alpha", "Al"));
}

#[test]
fn texts_over_the_matcher_limit_are_decided_the_same_way() {
    let long: String = "ab".repeat(600_000);
    assert!(fuzzy_accepts(&long, "ba"));
    assert!(fuzzy_accepts(&long, "BA") == false);
    assert!(!fuzzy_accepts(&long, "abc"));
    let upper: String = "AB".repeat(600_000);
    assert!(fuzzy_accepts(&upper, "ba"));
    assert!(fuzzy_accepts(&upper, "BA"));
}
