use loc_counter::ignore::IgnoreError;
use loc_counter::params::{ConfigError, Params};
use loc_counter::tree::{walk_tree, Node};
use loc_counter::walker::{
    find_ignore_file, is_ignore_file, name_has_extension, Action, Awaited, DirEntry, Event,
    PathWalker, Verdict, WalkError,
};

const FIVE: &str = "fn main() {\n    let a = 1;\n    let b = 2;\n    let c = a + b;\n}\n";

fn config(extensions: &[&str], hidden: bool) -> Params {
    Params {
        extensions: extensions.iter().map(|e| e.to_string()).collect(),
        path: "root".to_string(),
        verbose: false,
        hidden,
        docs: true,
        comments: true,
        fixme: false,
        todo: false,
        units: true,
        ratio: false,
        json: false,
    }
}

fn entry(name: &str, is_dir: bool) -> DirEntry {
    DirEntry { name: name.to_string(), is_dir }
}

fn path(names: &[&str]) -> Vec<String> {
    names.iter().map(|n| n.to_string()).collect()
}

fn chars(s: &str) -> Vec<char> {
    s.chars().collect()
}

fn node_file(name: &str, text: &str) -> Node {
    Node::File { name: name.to_string(), text: text.to_string() }
}

fn node_dir(name: &str, children: Vec<Node>) -> Node {
    Node::Dir { name: name.to_string(), children }
}

/// The node that a path leads to, by the names of the entries.
fn lookup<'a>(root: &'a Node, names: &[String]) -> &'a Node {
    let mut at = root;
    for wanted in names {
        at = match at {
            Node::Dir { children, .. } => children
                .iter()
                .find(|child| match child {
                    Node::File { name, .. } => name == wanted,
                    Node::Dir { name, .. } => name == wanted,
                })
                .unwrap(),
            Node::File { .. } => panic!("a file has no entries"),
        };
    }
    at
}

/// Drives a walker through a tree as a program would through a file system,
/// and notes what it was asked to do.
fn drive(root: &Node, params: Params) -> (Result<[usize; 4], WalkError>, Vec<Action>) {
    let mut asked = Vec::new();
    let mut walker = match PathWalker::new(params) {
        Ok(walker) => walker,
        Err(error) => return (Err(error), asked),
    };
    let mut event = Event::Root { is_dir: matches!(root, Node::Dir { .. }) };
    loop {
        let action = match walker.step(event) {
            Ok(action) => action,
            Err(error) => return (Err(error), asked),
        };
        event = match &action {
            Action::List(names) => match lookup(root, names) {
                Node::Dir { children, .. } => Event::Listed(
                    children
                        .iter()
                        .map(|child| match child {
                            Node::File { name, .. } => entry(name, false),
                            Node::Dir { name, .. } => entry(name, true),
                        })
                        .collect(),
                ),
                Node::File { .. } => panic!("asked to list a file"),
            },
            Action::Read(names) => match lookup(root, names) {
                Node::File { text, .. } => Event::Read(text.clone()),
                Node::Dir { .. } => panic!("asked to read a directory"),
            },
            Action::Proceed => Event::Proceed,
            Action::Done => break,
        };
        if action != Action::Proceed {
            asked.push(action);
        }
    }
    assert_eq!(walker.awaited(), Awaited::Finished);
    let stats = walker.finish();
    (Ok([stats.loc(), stats.empty_lines(), stats.comments(), stats.docs()]), asked)
}

fn sample() -> Node {
    node_dir(
        "root",
        vec![
            node_file("a.rs", FIVE),
            node_dir(
                "sub",
                vec![node_file("b.rs", FIVE), node_dir("deep", vec![node_file("c.rs", FIVE)])],
            ),
            node_file(".gitignore", "# generated\n/target/\nskip.rs\n"),
            node_dir("target", vec![node_file("d.rs", FIVE)]),
            node_dir(
                "src",
                vec![
                    node_file(".gitignore", "e.rs\n"),
                    node_file("e.rs", FIVE),
                    node_file("skip.rs", FIVE),
                    node_file("f.rs", "// note\n\n/// doc\nfn f() {}\n"),
                    node_file("g.txt", FIVE),
                    node_dir(".cache", vec![node_file("h.rs", FIVE)]),
                    node_dir("target", vec![node_file("i.rs", FIVE)]),
                ],
            ),
            node_file("e.rs", FIVE),
        ],
    )
}

#[test]
fn a_walker_needs_a_configuration_fit_for_a_walk() {
    assert_eq!(
        PathWalker::new(config(&[], true)).err(),
        Some(WalkError::Config(ConfigError::NoExtensions))
    );
    assert_eq!(
        PathWalker::new(config(&[""], true)).err(),
        Some(WalkError::Config(ConfigError::EmptyExtension))
    );
    let walker = PathWalker::new(config(&[".rs"], true)).unwrap();
    assert_eq!(walker.awaited(), Awaited::Root);
    assert_eq!(walker.stats().loc(), 0);
}

#[test]
fn the_errors_of_a_walk_are_told_apart() {
    assert_ne!(WalkError::Overflow, WalkError::OutOfTurn);
    assert_ne!(WalkError::Overflow, WalkError::Ignore(IgnoreError::LeadingMark));
    assert_ne!(
        WalkError::Ignore(IgnoreError::LeadingMark),
        WalkError::Ignore(IgnoreError::TrailingMarks)
    );
}

#[test]
fn ignore_files_are_files_named_gitignore() {
    assert!(is_ignore_file(".gitignore", false));
    assert!(!is_ignore_file(".gitignore", true));
    assert!(!is_ignore_file("gitignore", false));
    assert!(!is_ignore_file(".gitignore ", false));
    assert!(!is_ignore_file(".Gitignore", false));
    assert!(!is_ignore_file("a.gitignore", false));
    assert!(!is_ignore_file("", false));
}

#[test]
fn the_first_ignore_file_of_a_listing_is_found() {
    assert_eq!(find_ignore_file(&vec![]), None);
    assert_eq!(find_ignore_file(&vec![entry("a.rs", false), entry("b", true)]), None);
    assert_eq!(find_ignore_file(&vec![entry(".gitignore", true)]), None);
    assert_eq!(find_ignore_file(&vec![entry(".gitignore", false)]), Some(0));
    assert_eq!(
        find_ignore_file(&vec![
            entry("a.rs", false),
            entry(".gitignore", true),
            entry(".gitignore", false),
            entry(".gitignore", false),
        ]),
        Some(2)
    );
}

#[test]
fn extensions_are_literal_endings() {
    let list = vec![".rs".to_string(), ".tar.gz".to_string()];
    assert!(name_has_extension(&chars("a.rs"), &list));
    assert!(name_has_extension(&chars(".rs"), &list));
    assert!(name_has_extension(&chars("b.tar.gz"), &list));
    assert!(!name_has_extension(&chars("b.gz"), &list));
    assert!(!name_has_extension(&chars("rs"), &list));
    assert!(!name_has_extension(&chars("a.rs "), &list));
    assert!(!name_has_extension(&chars(""), &list));
    assert!(!name_has_extension(&chars("a.rs"), &vec![]));
}

#[test]
fn a_root_that_is_a_file_is_read_and_counted() {
    let mut walker = PathWalker::new(config(&[".rs"], false)).unwrap();
    assert_eq!(walker.step(Event::Root { is_dir: false }), Ok(Action::Read(vec![])));
    assert_eq!(walker.awaited(), Awaited::File);
    assert_eq!(walker.step(Event::Read(FIVE.to_string())), Ok(Action::Proceed));
    assert_eq!(walker.awaited(), Awaited::Nothing);
    assert_eq!(walker.step(Event::Proceed), Ok(Action::Done));
    assert_eq!(walker.awaited(), Awaited::Finished);
    assert_eq!(walker.finish().loc(), 5);
}

#[test]
fn a_directory_without_ignore_file_is_entered_at_once() {
    let mut walker = PathWalker::new(config(&[".rs"], false)).unwrap();
    assert_eq!(walker.step(Event::Root { is_dir: true }), Ok(Action::List(vec![])));
    assert_eq!(walker.awaited(), Awaited::Listing);
    assert_eq!(
        walker.step(Event::Listed(vec![entry("a.rs", false), entry("b.txt", false)])),
        Ok(Action::Proceed)
    );
    assert_eq!(walker.step(Event::Proceed), Ok(Action::Read(path(&["a.rs"]))));
    assert_eq!(walker.step(Event::Read(FIVE.to_string())), Ok(Action::Proceed));
    assert_eq!(walker.step(Event::Proceed), Ok(Action::Proceed));
    assert_eq!(walker.step(Event::Proceed), Ok(Action::Proceed));
    assert_eq!(walker.step(Event::Proceed), Ok(Action::Done));
    assert_eq!(walker.finish().loc(), 5);
}

#[test]
fn the_ignore_file_is_read_before_any_entry_is_judged() {
    let mut walker = PathWalker::new(config(&[".rs"], false)).unwrap();
    assert_eq!(walker.step(Event::Root { is_dir: true }), Ok(Action::List(vec![])));
    assert_eq!(
        walker.step(Event::Listed(vec![
            entry("a.rs", false),
            entry("sub", true),
            entry(".gitignore", false),
        ])),
        Ok(Action::Read(path(&[".gitignore"])))
    );
    assert_eq!(walker.awaited(), Awaited::IgnoreFile);
    assert_eq!(walker.verdict("sub", true), Verdict::Descend);
    assert_eq!(walker.step(Event::Read("sub\n".to_string())), Ok(Action::Proceed));
    assert_eq!(walker.verdict("sub", true), Verdict::Skip);
    assert_eq!(walker.step(Event::Proceed), Ok(Action::Read(path(&["a.rs"]))));
    assert_eq!(walker.step(Event::Read(FIVE.to_string())), Ok(Action::Proceed));
    assert_eq!(walker.step(Event::Proceed), Ok(Action::Proceed));
    assert_eq!(walker.step(Event::Proceed), Ok(Action::Proceed));
    assert_eq!(walker.step(Event::Proceed), Ok(Action::Proceed));
    assert_eq!(walker.verdict("sub", true), Verdict::Descend);
    assert_eq!(walker.step(Event::Proceed), Ok(Action::Done));
    assert_eq!(walker.stats().loc(), 5);
}

#[test]
fn paths_are_the_names_from_the_root_down() {
    let mut walker = PathWalker::new(config(&[".rs"], false)).unwrap();
    assert_eq!(walker.step(Event::Root { is_dir: true }), Ok(Action::List(vec![])));
    assert_eq!(walker.step(Event::Listed(vec![entry("one", true)])), Ok(Action::Proceed));
    assert_eq!(walker.step(Event::Proceed), Ok(Action::List(path(&["one"]))));
    assert_eq!(
        walker.step(Event::Listed(vec![entry(".gitignore", false), entry("two", true)])),
        Ok(Action::Read(path(&["one", ".gitignore"])))
    );
    assert_eq!(walker.step(Event::Read("x.rs\n".to_string())), Ok(Action::Proceed));
    assert_eq!(walker.step(Event::Proceed), Ok(Action::Proceed));
    assert_eq!(walker.step(Event::Proceed), Ok(Action::List(path(&["one", "two"]))));
    assert_eq!(
        walker.step(Event::Listed(vec![entry("x.rs", false), entry("y.rs", false)])),
        Ok(Action::Proceed)
    );
    assert_eq!(walker.step(Event::Proceed), Ok(Action::Proceed));
    assert_eq!(walker.step(Event::Proceed), Ok(Action::Read(path(&["one", "two", "y.rs"]))));
    assert_eq!(walker.step(Event::Read("a\nb\n".to_string())), Ok(Action::Proceed));
    assert_eq!(walker.step(Event::Proceed), Ok(Action::Proceed));
    assert_eq!(walker.verdict("x.rs", false), Verdict::Skip);
    assert_eq!(walker.step(Event::Proceed), Ok(Action::Proceed));
    assert_eq!(walker.verdict("x.rs", false), Verdict::Count);
    assert_eq!(walker.step(Event::Proceed), Ok(Action::Proceed));
    assert_eq!(walker.step(Event::Proceed), Ok(Action::Done));
    assert_eq!(walker.finish().loc(), 2);
}

#[test]
fn what_was_not_asked_for_is_refused_and_changes_nothing() {
    let mut walker = PathWalker::new(config(&[".rs"], false)).unwrap();
    assert_eq!(walker.step(Event::Proceed), Err(WalkError::OutOfTurn));
    assert_eq!(walker.step(Event::Read(FIVE.to_string())), Err(WalkError::OutOfTurn));
    assert_eq!(walker.step(Event::Listed(vec![])), Err(WalkError::OutOfTurn));
    assert_eq!(walker.awaited(), Awaited::Root);
    assert_eq!(walker.step(Event::Root { is_dir: true }), Ok(Action::List(vec![])));
    assert_eq!(walker.step(Event::Root { is_dir: true }), Err(WalkError::OutOfTurn));
    assert_eq!(walker.step(Event::Proceed), Err(WalkError::OutOfTurn));
    assert_eq!(walker.step(Event::Read(FIVE.to_string())), Err(WalkError::OutOfTurn));
    assert_eq!(walker.awaited(), Awaited::Listing);
    assert_eq!(walker.step(Event::Listed(vec![entry("a.rs", false)])), Ok(Action::Proceed));
    assert_eq!(walker.step(Event::Listed(vec![])), Err(WalkError::OutOfTurn));
    assert_eq!(walker.step(Event::Read(FIVE.to_string())), Err(WalkError::OutOfTurn));
    assert_eq!(walker.step(Event::Proceed), Ok(Action::Read(path(&["a.rs"]))));
    assert_eq!(walker.step(Event::Proceed), Err(WalkError::OutOfTurn));
    assert_eq!(walker.stats().loc(), 0);
    assert_eq!(walker.step(Event::Read(FIVE.to_string())), Ok(Action::Proceed));
    assert_eq!(walker.step(Event::Proceed), Ok(Action::Proceed));
    assert_eq!(walker.step(Event::Proceed), Ok(Action::Done));
    assert_eq!(walker.step(Event::Proceed), Err(WalkError::OutOfTurn));
    assert_eq!(walker.step(Event::Root { is_dir: false }), Err(WalkError::OutOfTurn));
    assert_eq!(walker.awaited(), Awaited::Finished);
    assert_eq!(walker.stats().loc(), 5);
}

#[test]
fn verdicts_by_the_rules_in_turn() {
    let mut walker = PathWalker::new(config(&[".rs", ".c"], false)).unwrap();
    walker.step(Event::Root { is_dir: true }).unwrap();
    walker.step(Event::Listed(vec![entry(".gitignore", false)])).unwrap();
    walker.step(Event::Read("target\nskip.rs\n.cache\n".to_string())).unwrap();
    assert_eq!(walker.verdict(".git", true), Verdict::Skip);
    assert_eq!(walker.verdict(".a.rs", false), Verdict::Skip);
    assert_eq!(walker.verdict("target", true), Verdict::Skip);
    assert_eq!(walker.verdict("target", false), Verdict::Skip);
    assert_eq!(walker.verdict("skip.rs", false), Verdict::Skip);
    assert_eq!(walker.verdict("src", true), Verdict::Descend);
    assert_eq!(walker.verdict("a.rs", true), Verdict::Descend);
    assert_eq!(walker.verdict("", true), Verdict::Descend);
    assert_eq!(walker.verdict("a.rs", false), Verdict::Count);
    assert_eq!(walker.verdict("a.c", false), Verdict::Count);
    assert_eq!(walker.verdict("a.js", false), Verdict::Skip);
    assert_eq!(walker.verdict("README", false), Verdict::Skip);
    assert_eq!(walker.verdict("", false), Verdict::Skip);
}

#[test]
fn with_hidden_entries_asked_for_the_dot_decides_nothing() {
    let mut walker = PathWalker::new(config(&[".rs"], true)).unwrap();
    walker.step(Event::Root { is_dir: true }).unwrap();
    walker.step(Event::Listed(vec![entry(".gitignore", false)])).unwrap();
    walker.step(Event::Read(".cache\n".to_string())).unwrap();
    assert_eq!(walker.verdict(".git", true), Verdict::Descend);
    assert_eq!(walker.verdict(".a.rs", false), Verdict::Count);
    assert_eq!(walker.verdict(".gitignore", false), Verdict::Skip);
    assert_eq!(walker.verdict(".cache", true), Verdict::Skip);
    assert_eq!(walker.verdict(".rs", false), Verdict::Count);
}

#[test]
fn a_driven_walk_asks_only_for_what_it_counts() {
    let (totals, asked) = drive(&sample(), config(&[".rs"], false));
    assert_eq!(totals, Ok([23, 1, 1, 1]));
    assert_eq!(
        asked,
        vec![
            Action::List(path(&[])),
            Action::Read(path(&[".gitignore"])),
            Action::Read(path(&["a.rs"])),
            Action::List(path(&["sub"])),
            Action::Read(path(&["sub", "b.rs"])),
            Action::List(path(&["sub", "deep"])),
            Action::Read(path(&["sub", "deep", "c.rs"])),
            Action::List(path(&["src"])),
            Action::Read(path(&["src", ".gitignore"])),
            Action::Read(path(&["src", "f.rs"])),
            Action::Read(path(&["e.rs"])),
        ]
    );
}

#[test]
fn a_driven_walk_with_hidden_entries() {
    let (totals, asked) = drive(&sample(), config(&[".rs"], true));
    assert_eq!(totals, Ok([28, 1, 1, 1]));
    assert!(asked.contains(&Action::List(path(&["src", ".cache"]))));
    assert!(asked.contains(&Action::Read(path(&["src", ".cache", "h.rs"]))));
    assert!(!asked.contains(&Action::List(path(&["target"]))));
    assert!(!asked.contains(&Action::List(path(&["src", "target"]))));
    assert!(!asked.contains(&Action::Read(path(&["src", "e.rs"]))));
    assert!(!asked.contains(&Action::Read(path(&["src", "skip.rs"]))));
}

#[test]
fn a_driven_walk_ends_with_the_totals_of_the_tree() {
    for (extensions, hidden) in [
        (vec![".rs"], false),
        (vec![".rs"], true),
        (vec![".txt", ".rs"], false),
        (vec![".gitignore"], true),
        (vec!["s"], true),
    ] {
        let params = config(&extensions, hidden);
        let stats = walk_tree(&sample(), params.clone()).unwrap();
        let (totals, _) = drive(&sample(), params);
        assert_eq!(
            totals,
            Ok([stats.loc(), stats.empty_lines(), stats.comments(), stats.docs()])
        );
    }
}

#[test]
fn a_driven_walk_from_a_file() {
    let (totals, asked) = drive(&node_file("notes.txt", "a\n\nb\n"), config(&[".rs"], false));
    assert_eq!(totals, Ok([2, 1, 0, 0]));
    assert_eq!(asked, vec![Action::Read(path(&[]))]);
}
