use tex_processor::brace::{brace_balance_end, is_brace_balanced};

/// A reference bracket counter with the shared escaping rule: a brace is
/// structural unless an odd run of backslashes stands directly before it.
fn reference_match_end(s: &str, index: usize) -> Option<usize> {
    let chars: Vec<char> = s.chars().collect();
    let mut depth: i64 = 0;
    let mut j = index;
    while j < chars.len() {
        let mut run = 0;
        while run < j && chars[j - 1 - run] == '\\' {
            run += 1;
        }
        let structural = run % 2 == 0;
        if chars[j] == '{' && structural {
            depth += 1;
        } else if chars[j] == '}' && structural {
            depth -= 1;
            if depth < 0 {
                return None;
            }
            if depth == 0 {
                return Some(j);
            }
        }
        j += 1;
    }
    None
}

fn agrees(s: &str, index: usize) {
    let expected = reference_match_end(s, index);
    let got = brace_balance_end(s, index);
    match expected {
        Some(e) => assert_eq!(got, e, "on {:?} at {}", s, index),
        None => assert_eq!(got, usize::MAX, "on {:?} at {}", s, index),
    }
    assert_eq!(is_brace_balanced(s, index), expected.is_some());
}

#[test]
fn simple_pair() {
    assert_eq!(brace_balance_end("{a}", 0), 2);
    assert!(is_brace_balanced("{a}", 0));
}

#[test]
fn nested_groups() {
    assert_eq!(brace_balance_end("{a{b}c}", 0), 6);
    assert_eq!(brace_balance_end("{a{b}c}", 2), 4);
    assert_eq!(brace_balance_end("{{{}}}", 0), 5);
}

#[test]
fn escaped_open_brace_is_literal() {
    // the inner \{ does not open a group
    assert_eq!(brace_balance_end("{a\\{b}", 0), 5);
}

#[test]
fn double_backslash_keeps_brace_structural() {
    // \\{ is an escaped backslash before a structural brace
    assert_eq!(brace_balance_end("{x\\\\{y}}", 0), 7);
}

#[test]
fn unbalanced_returns_sentinel() {
    assert_eq!(brace_balance_end("{abc", 0), usize::MAX);
    assert!(!is_brace_balanced("{abc", 0));
}

#[test]
fn closer_before_opener_fails() {
    assert_eq!(brace_balance_end("}", 0), usize::MAX);
    assert!(!is_brace_balanced("}{", 0));
}

#[test]
fn index_out_of_range_fails() {
    assert!(!is_brace_balanced("{}", 7));
    assert_eq!(brace_balance_end("{}", 7), usize::MAX);
}

#[test]
fn agrees_with_reference_on_synthetic_strings() {
    let samples = [
        "{}",
        "{a}",
        "{a{b}c}",
        "{\\{}",
        "{\\\\{x}}",
        "{\\\\\\{}",
        "{{}{}{{}}}",
        "{unclosed",
        "{a}b}c",
        "{\\}}",
        "{\\\\}",
        "{\\\\\\}}x}",
        "{%\\{}",
    ];
    for s in samples {
        for index in 0..s.chars().count() {
            agrees(s, index);
        }
    }
}
