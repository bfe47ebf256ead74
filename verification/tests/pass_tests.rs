use tex_processor::comments::process_comments;
use tex_processor::normalize::process_backslashes;
use tex_processor::subst::replace_hash_with_arg;

#[test]
fn comment_line_dropped_and_indentation_stripped() {
    assert_eq!(process_comments("abc % a comment\n   def"), "abc\ndef");
}

#[test]
fn comment_keeps_terminating_newline() {
    assert_eq!(process_comments("x%c\ny"), "x\ny");
}

#[test]
fn escaped_percent_is_literal() {
    // the escaping backslash is consumed
    assert_eq!(process_comments("a\\%b"), "a%b");
}

#[test]
fn odd_backslash_run_before_percent_keeps_pairs() {
    // three backslashes: one pair stays, the odd one is consumed
    assert_eq!(process_comments("a\\\\\\%b"), "a\\\\%b");
}

#[test]
fn even_backslash_run_before_percent_starts_comment() {
    assert_eq!(process_comments("a\\\\% gone\nb"), "a\\\\\nb");
}

#[test]
fn escaped_newline_inside_comment_is_dropped() {
    assert_eq!(process_comments("a%c\\\nb"), "ab");
}

#[test]
fn backslash_runs_elsewhere_pass_through() {
    assert_eq!(process_comments("a\\\\b\\"), "a\\\\b\\");
}

#[test]
fn comment_at_start_of_text() {
    assert_eq!(process_comments("% only\nrest"), "\nrest");
}

#[test]
fn substitute_each_hash() {
    assert_eq!(replace_hash_with_arg("a#b#c", "X"), "aXbXc");
}

#[test]
fn substitute_escaped_hash_left_literal() {
    assert_eq!(replace_hash_with_arg("a\\#b", "X"), "a\\#b");
}

#[test]
fn substitute_even_run_before_hash() {
    assert_eq!(replace_hash_with_arg("\\\\#", "X"), "\\\\X");
}

#[test]
fn substitute_keeps_trailing_backslashes() {
    assert_eq!(replace_hash_with_arg("a\\\\", "X"), "a\\\\");
}

#[test]
fn substitute_empty_argument() {
    assert_eq!(replace_hash_with_arg("a#b", ""), "ab");
}

#[test]
fn normalize_absorbing_characters() {
    assert_eq!(process_backslashes("\\{"), "{");
    assert_eq!(process_backslashes("\\}"), "}");
    assert_eq!(process_backslashes("\\#"), "#");
    assert_eq!(process_backslashes("\\%"), "%");
    assert_eq!(process_backslashes("\\\\\\{"), "{");
}

#[test]
fn normalize_before_alphanumeric() {
    assert_eq!(process_backslashes("\\a"), "\\a");
    assert_eq!(process_backslashes("\\\\a"), "\\a");
}

#[test]
fn normalize_other_punctuation_keeps_one_backslash() {
    assert_eq!(process_backslashes("\\!"), "\\!");
    assert_eq!(process_backslashes("\\\\\\!"), "\\!");
}

#[test]
fn normalize_trailing_run_is_kept() {
    assert_eq!(process_backslashes("ab\\\\"), "ab\\\\");
    assert_eq!(process_backslashes("\\"), "\\");
}

#[test]
fn normalize_shrinks_long_runs_before_letters() {
    // runs of three or more backslashes before a letter lose one per pass,
    // so such texts are the boundary of the idempotence law
    assert_eq!(process_backslashes("\\\\\\a"), "\\\\a");
    assert_eq!(process_backslashes("\\\\a"), "\\a");
    assert_eq!(process_backslashes("\\a"), "\\a");
}

#[test]
fn normalize_is_idempotent_on_expanded_shapes() {
    // runs before alphanumerics of length at most two: one pass settles
    let samples = ["", "plain", "\\a", "\\\\a", "a\\!b", "x\\\\", "\\{y\\}", "\\%\\#", "a\\nb"];
    for s in samples {
        let once = process_backslashes(s);
        let twice = process_backslashes(&once);
        assert_eq!(twice, once, "on {:?}", s);
    }
}
