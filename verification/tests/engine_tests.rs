use tex_processor::engine::{expand_document, process};
use tex_processor::errors::TexError;
use tex_processor::files::FileTable;
use tex_processor::table::{
    add_or_update_macro, apply_def, apply_undef, find_macro_value, macro_exists, remove_macro,
    MacroNode,
};

const FUEL: u64 = 100_000;

fn run(source: &str) -> Result<String, TexError> {
    let files = FileTable::new();
    expand_document(&vec![source.to_string()], &files, FUEL)
}

fn output(source: &str) -> String {
    run(source).expect("expansion failed")
}

#[test]
fn define_and_invoke() {
    assert_eq!(output("\\def{foo}{bar}\\foo{}"), "bar");
}

#[test]
fn argument_substitution() {
    assert_eq!(output("\\def{greet}{Hello, #!}\\greet{World}"), "Hello, World!");
}

#[test]
fn conditional_on_empty_and_nonempty() {
    assert_eq!(output("\\if{}{yes}{no}"), "no");
    assert_eq!(output("\\if{x}{yes}{no}"), "yes");
}

#[test]
fn conditional_on_defined_name() {
    // \def emits nothing, so only the chosen branch appears
    assert_eq!(output("\\def{z}{1}\\ifdef{z}{A}{B}"), "A");
    assert_eq!(output("\\ifdef{z}{A}{B}"), "B");
}

#[test]
fn plain_text_is_copied() {
    assert_eq!(output("hello world"), "hello world");
    assert_eq!(output(""), "");
}

#[test]
fn escapes_resolve_to_literals() {
    assert_eq!(output("\\\\"), "\\");
    assert_eq!(output("a\\{b\\}c"), "a{b}c");
    assert_eq!(output("a\\#b"), "a#b");
    assert_eq!(output("a\\%b"), "a%b");
}

#[test]
fn comments_are_stripped_before_expansion() {
    assert_eq!(output("abc % a comment\n   def"), "abc\ndef");
}

#[test]
fn expandafter_defers_the_first_group() {
    let mut head: Option<Box<MacroNode>> = None;
    let files = FileTable::new();
    let out = process("\\expandafter{X}{\\def{a}{1}}rest", &mut head, &files, FUEL)
        .expect("expansion failed");
    assert_eq!(out, "Xrest");
    assert!(macro_exists(&head, "a"));
}

#[test]
fn expandafter_sees_definitions_from_second_group() {
    assert_eq!(output("\\expandafter{\\w{}}{\\def{w}{ok}}"), "ok");
}

#[test]
fn macro_may_redefine_through_undef() {
    assert_eq!(output("\\def{a}{1}\\a{}\\undef{a}\\def{a}{2}\\a{}"), "12");
}

#[test]
fn duplicate_definition_fails() {
    assert!(matches!(run("\\def{a}{1}\\def{a}{2}"), Err(TexError::DuplicateMacro)));
}

#[test]
fn undef_of_unknown_name_fails() {
    assert!(matches!(run("\\undef{nope}"), Err(TexError::UnknownMacro)));
}

#[test]
fn invocation_of_unknown_name_fails() {
    assert!(matches!(run("\\nope{}"), Err(TexError::UnknownMacro)));
}

#[test]
fn empty_or_invalid_name_fails() {
    assert!(matches!(run("\\def{}{b}"), Err(TexError::EmptyOrInvalidName)));
}

#[test]
fn missing_group_fails() {
    assert!(matches!(run("\\def"), Err(TexError::MissingGroup)));
    assert!(matches!(run("\\if{x}{y}"), Err(TexError::MissingGroup)));
}

#[test]
fn unbalanced_braces_fail() {
    assert!(matches!(run("\\def{a"), Err(TexError::UnbalancedBraces)));
}

#[test]
fn self_invoking_macro_hits_the_cap() {
    let files = FileTable::new();
    let mut head: Option<Box<MacroNode>> = None;
    let r = process("\\def{f}{\\f{}}\\f{}", &mut head, &files, 50);
    assert!(matches!(r, Err(TexError::RecursionLimit)));
}

#[test]
fn file_directive_splices_stripped_contents() {
    let mut files = FileTable::new();
    files.add_text("sub".to_string(), "Hello % note\nWorld".to_string());
    let source = format!("A\\incl{}B", "ude{sub}");
    let mut head: Option<Box<MacroNode>> = None;
    let out = process(&source, &mut head, &files, FUEL).expect("expansion failed");
    assert_eq!(out, "AHello\nWorldB");
}

#[test]
fn file_directive_shares_the_macro_table() {
    let mut files = FileTable::new();
    files.add_text("defs".to_string(), "\\def{m}{Z}".to_string());
    let source = format!("\\incl{}\\m{{}}", "ude{defs}");
    let files_ref = &files;
    let mut head: Option<Box<MacroNode>> = None;
    let out = process(&source, &mut head, files_ref, FUEL).expect("expansion failed");
    assert_eq!(out, "Z");
    assert!(macro_exists(&head, "m"));
}

#[test]
fn invalid_path_fails() {
    let source = format!("\\incl{}", "ude{a b}");
    assert!(matches!(run(&source), Err(TexError::InvalidPath)));
}

#[test]
fn missing_file_reports_its_path() {
    let source = format!("\\incl{}", "ude{lost}");
    match run(&source) {
        Err(TexError::FileNotFound(p)) => assert_eq!(p, "lost"),
        other => panic!("expected a missing-file error, got {:?}", other.is_ok()),
    }
}

#[test]
fn keyword_without_group_is_a_missing_group() {
    // the alphanumeric run is matched against the keywords as a whole,
    // so a bare keyword lacks its group rather than naming a macro
    assert!(matches!(run("\\def x"), Err(TexError::MissingGroup)));
}

#[test]
fn run_longer_than_a_keyword_is_a_macro_name() {
    assert!(matches!(run("\\ifdefx{y}"), Err(TexError::UnknownMacro)));
}

#[test]
fn stray_braces_are_copied() {
    assert_eq!(output("a{b}c"), "a{b}c");
}

#[test]
fn trailing_lone_backslash_is_dropped() {
    assert_eq!(output("ab\\"), "ab");
}

#[test]
fn table_define_exists_remove_transitions() {
    let mut head: Option<Box<MacroNode>> = None;
    assert!(!macro_exists(&head, "x"));
    add_or_update_macro(&mut head, "x", "body");
    assert!(macro_exists(&head, "x"));
    assert_eq!(find_macro_value(&head, "x").unwrap(), "body");
    remove_macro(&mut head, "x");
    assert!(!macro_exists(&head, "x"));
    assert!(find_macro_value(&head, "x").is_none());
}

#[test]
fn table_def_and_undef_rules() {
    let mut head: Option<Box<MacroNode>> = None;
    assert!(apply_def(&mut head, "a", "1").is_ok());
    assert!(matches!(apply_def(&mut head, "a", "2"), Err(TexError::DuplicateMacro)));
    assert_eq!(find_macro_value(&head, "a").unwrap(), "1");
    assert!(apply_undef(&mut head, "a").is_ok());
    assert!(matches!(apply_undef(&mut head, "a"), Err(TexError::UnknownMacro)));
}

#[test]
fn macro_node_new_holds_its_fields() {
    let node = MacroNode::new("n", "v");
    assert_eq!(node.name, "n");
    assert_eq!(node.value, "v");
    assert!(node.next.is_none());
}

#[test]
fn several_sources_form_one_document() {
    let files = FileTable::new();
    let sources = vec!["\\def{a}{X}% defs\n".to_string(), "\\a{}".to_string()];
    let out = expand_document(&sources, &files, FUEL).expect("expansion failed");
    assert_eq!(out, "\nX");
}

#[test]
fn double_backslash_before_letter_is_inert() {
    // an even run collapses and the letter is plain text, not a macro call
    assert_eq!(output("\\\\def{a}{b}"), "\\def{a}{b}");
}

#[test]
fn escaped_braces_are_not_groups() {
    assert_eq!(output("\\def{a}{\\{#\\}}\\a{X}"), "{X}");
}
