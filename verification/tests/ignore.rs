use loc_counter::ignore::{line_is_entry, IgnoreScopeStack, IgnoreSyntax};

fn chars(s: &str) -> Vec<char> {
    s.chars().collect()
}

fn parse(text: &str) -> Vec<String> {
    IgnoreSyntax::new().unwrap().parse(text)
}

fn trim(entry: &str) -> String {
    IgnoreSyntax::new().unwrap().trim_entry(entry)
}

#[test]
fn the_regex_engine_accepts_both_expressions() {
    assert!(IgnoreSyntax::new().is_ok());
    assert!(IgnoreScopeStack::new().is_ok());
}

#[test]
fn a_plain_name_stands_for_itself() {
    assert_eq!(trim("target"), "target");
    assert_eq!(trim("Cargo.lock"), "Cargo.lock");
    assert_eq!(trim("a/b"), "a/b");
    assert_eq!(trim("*.rs"), "*.rs");
    assert_eq!(trim("a b"), "a b");
    assert_eq!(trim("x-y"), "x-y");
}

#[test]
fn one_leading_mark_is_taken_away() {
    assert_eq!(trim("/target"), "target");
    assert_eq!(trim("-target"), "target");
    assert_eq!(trim(" target"), "target");
    assert_eq!(trim("\ttarget"), "target");
    assert_eq!(trim("//target"), "/target");
    assert_eq!(trim("  target"), " target");
    assert_eq!(trim("-/target"), "/target");
    assert_eq!(trim("!target"), "!target");
    assert_eq!(trim("\\target"), "\\target");
}

#[test]
fn all_trailing_marks_are_taken_away() {
    assert_eq!(trim("target/"), "target");
    assert_eq!(trim("target "), "target");
    assert_eq!(trim("target\t"), "target");
    assert_eq!(trim("target// \t /"), "target");
    assert_eq!(trim("target-"), "target-");
    assert_eq!(trim("a/ b/"), "a/ b");
}

#[test]
fn both_ends_are_trimmed() {
    assert_eq!(trim("/sub/"), "sub");
    assert_eq!(trim("- x \t"), " x");
    assert_eq!(trim("/"), "");
    assert_eq!(trim("//"), "");
    assert_eq!(trim(" / "), "");
    assert_eq!(trim(""), "");
}

#[test]
fn entries_are_the_lines_that_are_neither_blank_nor_comments() {
    assert!(line_is_entry(&chars("target")));
    assert!(line_is_entry(&chars(" # not a comment")));
    assert!(line_is_entry(&chars("/")));
    assert!(line_is_entry(&chars("a#b")));
    assert!(!line_is_entry(&chars("")));
    assert!(!line_is_entry(&chars("   \t")));
    assert!(!line_is_entry(&chars("# comment")));
    assert!(!line_is_entry(&chars("#")));
    assert!(!line_is_entry(&chars("#target")));
}

#[test]
fn an_ignore_file_lists_its_entries_in_order() {
    assert_eq!(
        parse("# build output\n/target/\n\nCargo.lock\n   \n-notes \n#x\nsub\n"),
        vec!["target".to_string(), "Cargo.lock".to_string(), "notes".to_string(), "sub".to_string()]
    );
}

#[test]
fn an_ignore_file_without_entries_lists_nothing() {
    assert_eq!(parse(""), Vec::<String>::new());
    assert_eq!(parse("\n\n"), Vec::<String>::new());
    assert_eq!(parse("# a\n#b\n   \n"), Vec::<String>::new());
}

#[test]
fn an_entry_that_is_all_marks_stands_for_the_empty_name() {
    assert_eq!(parse("/\nsub\n"), vec!["".to_string(), "sub".to_string()]);
}

#[test]
fn line_endings_are_no_part_of_a_name() {
    assert_eq!(parse("sub\r\nother\r\n"), vec!["sub".to_string(), "other".to_string()]);
    assert_eq!(parse("sub"), vec!["sub".to_string()]);
    assert_eq!(parse("sub\rother"), vec!["sub\rother".to_string()]);
}

#[test]
fn the_same_name_may_be_listed_twice() {
    assert_eq!(parse("a\n/a\na/\n"), vec!["a".to_string(), "a".to_string(), "a".to_string()]);
}

#[test]
fn a_new_stack_ignores_nothing() {
    let stack = IgnoreScopeStack::new().unwrap();
    assert_eq!(stack.len(), 0);
    assert!(!stack.is_ignored("target"));
    assert!(!stack.is_ignored(""));
}

#[test]
fn entering_registers_the_names_of_the_ignore_file() {
    let mut stack = IgnoreScopeStack::new().unwrap();
    stack.enter(0, Some("/target/\nsub\n"));
    assert_eq!(stack.len(), 1);
    assert!(stack.is_ignored("target"));
    assert!(stack.is_ignored("sub"));
    assert!(!stack.is_ignored("/target/"));
    assert!(!stack.is_ignored("targets"));
    assert!(!stack.is_ignored("Sub"));
    assert!(!stack.is_ignored("su"));
}

#[test]
fn entering_without_entries_registers_nothing() {
    let mut stack = IgnoreScopeStack::new().unwrap();
    stack.enter(0, None);
    assert_eq!(stack.len(), 0);
    stack.enter(1, Some(""));
    assert_eq!(stack.len(), 0);
    stack.enter(2, Some("# nothing here\n\n"));
    assert_eq!(stack.len(), 0);
    assert!(!stack.is_ignored(""));
}

#[test]
fn names_are_matched_whole_and_literally() {
    let mut stack = IgnoreScopeStack::new().unwrap();
    stack.enter(0, Some("*.rs\nsrc/main.rs\n"));
    assert!(stack.is_ignored("*.rs"));
    assert!(stack.is_ignored("src/main.rs"));
    assert!(!stack.is_ignored("main.rs"));
    assert!(!stack.is_ignored("a.rs"));
    assert!(!stack.is_ignored("src"));
}

#[test]
fn all_open_scopes_are_looked_up_as_one() {
    let mut stack = IgnoreScopeStack::new().unwrap();
    stack.enter(0, Some("outer\n"));
    stack.enter(1, None);
    stack.enter(2, Some("inner\n"));
    assert_eq!(stack.len(), 2);
    assert!(stack.is_ignored("outer"));
    assert!(stack.is_ignored("inner"));
    stack.leave(2);
    assert!(stack.is_ignored("outer"));
    assert!(!stack.is_ignored("inner"));
    stack.leave(1);
    assert!(stack.is_ignored("outer"));
    stack.leave(0);
    assert!(!stack.is_ignored("outer"));
    assert_eq!(stack.len(), 0);
}

#[test]
fn leaving_closes_only_the_scope_of_that_directory() {
    let mut stack = IgnoreScopeStack::new().unwrap();
    stack.enter(0, Some("a\n"));
    stack.enter(1, Some("b\n"));
    stack.enter(2, Some("c\n"));
    stack.leave(1);
    assert_eq!(stack.len(), 2);
    assert!(stack.is_ignored("a"));
    assert!(!stack.is_ignored("b"));
    assert!(stack.is_ignored("c"));
    stack.leave(7);
    assert_eq!(stack.len(), 2);
}

#[test]
fn entering_a_directory_anew_replaces_its_scope() {
    let mut stack = IgnoreScopeStack::new().unwrap();
    stack.enter(0, Some("a\n"));
    stack.enter(1, Some("b\n"));
    stack.enter(0, Some("c\n"));
    assert_eq!(stack.len(), 2);
    assert!(!stack.is_ignored("a"));
    assert!(stack.is_ignored("b"));
    assert!(stack.is_ignored("c"));
    stack.enter(1, Some("# nothing\n"));
    assert_eq!(stack.len(), 2);
    assert!(stack.is_ignored("b"));
}

#[test]
fn the_stack_reads_ignore_files_as_the_syntax_does() {
    let stack = IgnoreScopeStack::new().unwrap();
    assert_eq!(stack.parse("/a/\n#b\n-c\n"), parse("/a/\n#b\n-c\n"));
    assert_eq!(stack.parse("/a/\n#b\n-c\n"), vec!["a".to_string(), "c".to_string()]);
}
