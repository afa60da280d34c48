use loc_counter::classify::{
    classify, classify_line, inspect, inspect_line, scan_unit, tally_lines, FileTally, LineFacts,
    LineKind, Unit,
};

fn chars(s: &str) -> Vec<char> {
    s.chars().collect()
}

fn total(tally: &FileTally) -> usize {
    tally.blank + tally.code + tally.line_comments + tally.block_comments + tally.doc_comments
}

#[test]
fn kinds_of_a_small_file() {
    let kinds = classify("// comment\n/// doc\n\nfn main() {\n}");
    assert_eq!(
        kinds,
        vec![
            LineKind::LineComment,
            LineKind::DocComment,
            LineKind::Blank,
            LineKind::Code,
            LineKind::Code,
        ]
    );
}

#[test]
fn an_empty_file_has_no_lines() {
    assert_eq!(classify(""), Vec::<LineKind>::new());
    assert_eq!(tally_lines(""), FileTally::new());
    assert_eq!(total(&tally_lines("")), 0);
}

#[test]
fn each_rule_in_turn() {
    assert_eq!(classify_line(false, &chars("   \t")), (LineKind::Blank, false));
    assert_eq!(classify_line(true, &chars("")), (LineKind::Blank, true));
    assert_eq!(classify_line(true, &chars("let x = 1;")), (LineKind::BlockComment, true));
    assert_eq!(classify_line(true, &chars(" end */ ")), (LineKind::BlockComment, false));
    assert_eq!(classify_line(false, &chars("  /* start")), (LineKind::BlockComment, true));
    assert_eq!(classify_line(false, &chars("// a")), (LineKind::LineComment, false));
    assert_eq!(classify_line(false, &chars("//")), (LineKind::LineComment, false));
    assert_eq!(classify_line(false, &chars("/// a")), (LineKind::DocComment, false));
    assert_eq!(classify_line(false, &chars("//! a")), (LineKind::DocComment, false));
    assert_eq!(classify_line(false, &chars("let x = 1; // a")), (LineKind::Code, false));
    assert_eq!(classify_line(false, &chars("*/")), (LineKind::Code, false));
}

#[test]
fn inside_a_block_comment_the_first_rule_that_applies_decides() {
    assert_eq!(classify_line(true, &chars("// still inside")), (LineKind::BlockComment, true));
    assert_eq!(classify_line(true, &chars("/// still inside")), (LineKind::BlockComment, true));
    assert_eq!(classify_line(true, &chars("/* again */")), (LineKind::BlockComment, false));
    assert_eq!(classify_line(true, &chars("fn f() {} */")), (LineKind::BlockComment, false));
}

#[test]
fn a_line_of_one_character_is_code_outside_a_block_comment() {
    assert_eq!(classify_line(false, &chars("/")), (LineKind::Code, false));
    assert_eq!(classify_line(false, &chars(" } ")), (LineKind::Code, false));
    assert_eq!(classify_line(true, &chars("/")), (LineKind::BlockComment, true));
    assert_eq!(classify_line(true, &chars("*")), (LineKind::BlockComment, true));
}

#[test]
fn a_block_comment_of_four_lines() {
    let text = "fn a() {}\n/* one\ntwo\nthree\nfour */\nfn b() {}";
    assert_eq!(
        classify(text),
        vec![
            LineKind::Code,
            LineKind::BlockComment,
            LineKind::BlockComment,
            LineKind::BlockComment,
            LineKind::BlockComment,
            LineKind::Code,
        ]
    );
    let tally = tally_lines(text);
    assert_eq!(tally.block_comments, 4);
    assert_eq!(tally.code, 2);
    assert_eq!(tally.fns, 2);
}

#[test]
fn a_blank_line_inside_a_block_comment_is_blank() {
    let text = "/* one\n\n   \nfour */\ncode";
    assert_eq!(
        classify(text),
        vec![
            LineKind::BlockComment,
            LineKind::Blank,
            LineKind::Blank,
            LineKind::BlockComment,
            LineKind::Code,
        ]
    );
}

#[test]
fn a_block_comment_opened_and_closed_on_one_line_stays_open() {
    let text = "/* all of it */\nlet x = 1;\nlet y = 2; */\nlet z = 3;";
    assert_eq!(
        classify(text),
        vec![
            LineKind::BlockComment,
            LineKind::BlockComment,
            LineKind::BlockComment,
            LineKind::Code,
        ]
    );
}

#[test]
fn a_block_comment_never_closed_runs_to_the_end() {
    assert_eq!(
        classify("/*\nfn f() {}\n// x"),
        vec![LineKind::BlockComment, LineKind::BlockComment, LineKind::BlockComment]
    );
}

#[test]
fn the_state_does_not_pass_from_one_file_to_the_next() {
    assert_eq!(classify("/* open"), vec![LineKind::BlockComment]);
    assert_eq!(classify("fn f() {}"), vec![LineKind::Code]);
}

#[test]
fn the_five_kinds_add_up_to_the_lines() {
    for text in [
        "",
        "\n",
        "a\n\n// b\n/// c\n/* d\ne */\nf",
        "/*\n\n*/\n\n//! x\n//\n}\n",
        "   \n\t\n fn f() {} \n",
    ] {
        assert_eq!(total(&tally_lines(text)), text.lines().count(), "{:?}", text);
        assert_eq!(classify(text).len(), text.lines().count(), "{:?}", text);
    }
}

#[test]
fn the_same_text_gives_the_same_tally() {
    let text = "// TODO a\nfn f() {}\n/* FIXME\n*/\n\nstruct S;\n";
    assert_eq!(tally_lines(text), tally_lines(text));
    assert_eq!(classify(text), classify(text));
}

#[test]
fn markers_are_counted_in_comments_of_each_kind() {
    let tally = tally_lines(
        "// TODO one\n/// TODO two FIXME\n//! FIXME\n/* TODO\n TODO FIXME\n*/\nlet todo = \"TODO\"; // TODO FIXME\n",
    );
    assert_eq!(tally.todo, 4);
    assert_eq!(tally.fixme, 3);
    assert_eq!(tally.code, 1);
}

#[test]
fn a_marker_counts_once_a_line_and_only_in_capitals() {
    let tally = tally_lines("// TODO TODO TODO\n// todo Todo fixme\n// XTODOX FIXMEFIXME\n");
    assert_eq!(tally.todo, 2);
    assert_eq!(tally.fixme, 1);
    assert_eq!(tally.line_comments, 3);
}

#[test]
fn markers_are_looked_for_in_the_whole_line() {
    let (facts, _) = inspect_line(false, &chars("   // x TODO   "));
    assert_eq!(
        facts,
        LineFacts { kind: LineKind::LineComment, todo: true, fixme: false, unit: None }
    );
    let (facts, next) = inspect_line(true, &chars("FIXME */"));
    assert_eq!(
        facts,
        LineFacts { kind: LineKind::BlockComment, todo: false, fixme: true, unit: None }
    );
    assert!(!next);
    let (facts, _) = inspect_line(false, &chars("fn todo() {} TODO"));
    assert_eq!(
        facts,
        LineFacts { kind: LineKind::Code, todo: false, fixme: false, unit: Some(Unit::Function) }
    );
    let (facts, _) = inspect_line(false, &chars("  "));
    assert_eq!(facts, LineFacts { kind: LineKind::Blank, todo: false, fixme: false, unit: None });
}

#[test]
fn every_word_that_starts_a_unit() {
    assert_eq!(scan_unit(&chars("struct A;")), Some(Unit::Type));
    assert_eq!(scan_unit(&chars("pub struct A;")), Some(Unit::Type));
    assert_eq!(scan_unit(&chars("fn f() {}")), Some(Unit::Function));
    assert_eq!(scan_unit(&chars("async fn f() {}")), Some(Unit::Function));
    assert_eq!(scan_unit(&chars("pub fn f() {}")), Some(Unit::Function));
    assert_eq!(scan_unit(&chars("pub async fn f() {}")), Some(Unit::Function));
    assert_eq!(scan_unit(&chars("impl A {")), Some(Unit::Impl));
    assert_eq!(scan_unit(&chars("macro_rules! m {")), Some(Unit::Macro));
}

#[test]
fn words_that_start_no_unit() {
    for line in [
        "",
        "fn",
        "fnf()",
        "Fn f()",
        "pub(crate) fn f()",
        "pub  fn f()",
        "structA",
        "enum E {",
        "impl<T> A<T> {",
        "unsafe fn f()",
        "const fn f()",
        "macro_rules ! m",
        "let f = fn ;",
        "}",
    ] {
        assert_eq!(scan_unit(&chars(line)), None, "{:?}", line);
    }
}

#[test]
fn units_are_counted_on_code_lines_only() {
    let tally = tally_lines(
        "  pub struct A;\nstruct B;\n\tfn f() {}\nimpl A {\n    pub async fn g() {}\n}\nmacro_rules! m { }\n// fn h() {}\n/* struct C;\nimpl D {} */\n",
    );
    assert_eq!(tally.structs, 2);
    assert_eq!(tally.fns, 2);
    assert_eq!(tally.impls, 1);
    assert_eq!(tally.macros, 1);
    assert_eq!(tally.code, 7);
    assert_eq!(tally.line_comments, 1);
    assert_eq!(tally.block_comments, 2);
}

#[test]
fn tally_of_a_small_file() {
    let tally = tally_lines("// comment\n/// doc\n\nfn main() {\n}");
    assert_eq!(
        tally,
        FileTally {
            blank: 1,
            code: 2,
            line_comments: 1,
            block_comments: 0,
            doc_comments: 1,
            todo: 0,
            fixme: 0,
            structs: 0,
            fns: 1,
            impls: 0,
            macros: 0,
        }
    );
}

#[test]
fn record_counts_one_line() {
    let mut tally = FileTally::new();
    tally.record(LineFacts { kind: LineKind::Code, todo: false, fixme: false, unit: Some(Unit::Impl) });
    tally.record(LineFacts { kind: LineKind::DocComment, todo: true, fixme: true, unit: None });
    tally.record(LineFacts { kind: LineKind::Blank, todo: false, fixme: false, unit: None });
    assert_eq!(
        tally,
        FileTally {
            blank: 1,
            code: 1,
            line_comments: 0,
            block_comments: 0,
            doc_comments: 1,
            todo: 1,
            fixme: 1,
            structs: 0,
            fns: 0,
            impls: 1,
            macros: 0,
        }
    );
}

#[test]
fn windows_line_endings_change_nothing() {
    assert_eq!(
        tally_lines("// a\r\n\r\nfn f() {}\r\n/* b\r\nc */\r\n"),
        tally_lines("// a\n\nfn f() {}\n/* b\nc */\n")
    );
}

#[test]
fn facts_of_each_line_of_a_file() {
    assert_eq!(inspect(""), Vec::<LineFacts>::new());
    assert_eq!(
        inspect("/* TODO\n\nFIXME */\nimpl A {\n}\n//! TODO FIXME"),
        vec![
            LineFacts { kind: LineKind::BlockComment, todo: true, fixme: false, unit: None },
            LineFacts { kind: LineKind::Blank, todo: false, fixme: false, unit: None },
            LineFacts { kind: LineKind::BlockComment, todo: false, fixme: true, unit: None },
            LineFacts { kind: LineKind::Code, todo: false, fixme: false, unit: Some(Unit::Impl) },
            LineFacts { kind: LineKind::Code, todo: false, fixme: false, unit: None },
            LineFacts { kind: LineKind::DocComment, todo: true, fixme: true, unit: None },
        ]
    );
}
