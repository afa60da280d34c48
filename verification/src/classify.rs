//! The classifier of physical lines and the scanner of declaration units.
//!
//! A file is read line by line with one bit of state, whether the line lies
//! inside a block comment. Every line gets exactly one kind; comment lines are
//! searched for the two task markers, and code lines for the start of a
//! declaration.

use crate::text::{
    chars_of, contains_seq, has_infix, has_prefix, has_suffix, line_ranges, lines_of, trim_bounds,
    trimmed,
};
use vstd::prelude::*;

verus! {

/// What a physical line is.
#[derive(Clone, Copy, PartialEq, Eq, Debug, Structural)]
pub enum LineKind {
    Blank,
    Code,
    LineComment,
    BlockComment,
    DocComment,
}

/// A declaration that a code line starts.
#[derive(Clone, Copy, PartialEq, Eq, Debug, Structural)]
pub enum Unit {
    Type,
    Function,
    Impl,
    Macro,
}

/// What the classifier found in one line.
#[derive(Clone, Copy, PartialEq, Eq, Debug, Structural)]
pub struct LineFacts {
    pub kind: LineKind,
    /// The line is a comment of some kind and holds `TODO`.
    pub todo: bool,
    /// The line is a comment of some kind and holds `FIXME`.
    pub fixme: bool,
    /// The declaration that the line starts, where it is code.
    pub unit: Option<Unit>,
}

/// One of the numbers kept for a file.
#[derive(Clone, Copy, PartialEq, Eq, Debug, Structural)]
pub enum Counter {
    Blank,
    Code,
    LineComments,
    BlockComments,
    DocComments,
    Todo,
    Fixme,
    Types,
    Functions,
    Impls,
    Macros,
}

/// The counters of one file.
#[derive(Clone, Copy, PartialEq, Eq, Debug, Structural)]
pub struct FileTally {
    pub blank: usize,
    pub code: usize,
    pub line_comments: usize,
    pub block_comments: usize,
    pub doc_comments: usize,
    pub todo: usize,
    pub fixme: usize,
    pub structs: usize,
    pub fns: usize,
    pub impls: usize,
    pub macros: usize,
}

/// `/*`, which opens a block comment.
pub open spec fn block_open() -> Seq<char> {
    seq!['/', '*']
}

/// `*/`, which closes a block comment.
pub open spec fn block_close() -> Seq<char> {
    seq!['*', '/']
}

/// `//`, which opens a line comment.
pub open spec fn line_open() -> Seq<char> {
    seq!['/', '/']
}

/// `///`, which opens a documentation comment on an item.
pub open spec fn outer_doc_open() -> Seq<char> {
    seq!['/', '/', '/']
}

/// `//!`, which opens a documentation comment on the enclosing item.
pub open spec fn inner_doc_open() -> Seq<char> {
    seq!['/', '/', '!']
}

/// The marker `TODO`.
pub open spec fn todo_marker() -> Seq<char> {
    seq!['T', 'O', 'D', 'O']
}

/// The marker `FIXME`.
pub open spec fn fixme_marker() -> Seq<char> {
    seq!['F', 'I', 'X', 'M', 'E']
}

/// Whether a trimmed line opens a documentation comment.
pub open spec fn is_doc(t: Seq<char>) -> bool {
    outer_doc_open().is_prefix_of(t) || inner_doc_open().is_prefix_of(t)
}

/// The kind of `line`, given whether the line before it left a block comment
/// open. The first rule that applies decides.
pub open spec fn line_kind(in_block: bool, line: Seq<char>) -> LineKind {
    let t = trimmed(line);
    if t.len() == 0 {
        LineKind::Blank
    } else if in_block {
        LineKind::BlockComment
    } else if block_open().is_prefix_of(t) {
        LineKind::BlockComment
    } else if line_open().is_prefix_of(t) && !is_doc(t) {
        LineKind::LineComment
    } else if is_doc(t) {
        LineKind::DocComment
    } else {
        LineKind::Code
    }
}

/// Whether a block comment is open after `line`. A blank line changes nothing;
/// inside a block comment a line that ends with `*/` closes it; outside, a line
/// that begins with `/*` opens one, whatever else the line holds.
pub open spec fn next_in_block(in_block: bool, line: Seq<char>) -> bool {
    let t = trimmed(line);
    if t.len() == 0 {
        in_block
    } else if in_block {
        !block_close().is_suffix_of(t)
    } else {
        block_open().is_prefix_of(t)
    }
}

/// Whether `kind` is one of the three kinds of comment.
pub open spec fn is_comment(kind: LineKind) -> bool {
    kind == LineKind::LineComment || kind == LineKind::BlockComment || kind
        == LineKind::DocComment
}

/// `struct `, which starts a type.
pub open spec fn kw_struct() -> Seq<char> {
    seq!['s', 't', 'r', 'u', 'c', 't', ' ']
}

/// `pub struct `, which starts a type.
pub open spec fn kw_pub_struct() -> Seq<char> {
    seq!['p', 'u', 'b', ' ', 's', 't', 'r', 'u', 'c', 't', ' ']
}

/// `fn `, which starts a function.
pub open spec fn kw_fn() -> Seq<char> {
    seq!['f', 'n', ' ']
}

/// `async fn `, which starts a function.
pub open spec fn kw_async_fn() -> Seq<char> {
    seq!['a', 's', 'y', 'n', 'c', ' ', 'f', 'n', ' ']
}

/// `pub fn `, which starts a function.
pub open spec fn kw_pub_fn() -> Seq<char> {
    seq!['p', 'u', 'b', ' ', 'f', 'n', ' ']
}

/// `pub async fn `, which starts a function.
pub open spec fn kw_pub_async_fn() -> Seq<char> {
    seq!['p', 'u', 'b', ' ', 'a', 's', 'y', 'n', 'c', ' ', 'f', 'n', ' ']
}

/// `impl `, which starts an impl block.
pub open spec fn kw_impl() -> Seq<char> {
    seq!['i', 'm', 'p', 'l', ' ']
}

/// `macro_rules!`, which starts a macro.
pub open spec fn kw_macro_rules() -> Seq<char> {
    seq!['m', 'a', 'c', 'r', 'o', '_', 'r', 'u', 'l', 'e', 's', '!']
}

/// The declaration that a trimmed code line starts: a match of its first
/// characters against fixed words, case and spaces included.
pub open spec fn unit_of(t: Seq<char>) -> Option<Unit> {
    if kw_struct().is_prefix_of(t) || kw_pub_struct().is_prefix_of(t) {
        Some(Unit::Type)
    } else if kw_fn().is_prefix_of(t) || kw_async_fn().is_prefix_of(t) || kw_pub_fn().is_prefix_of(
        t,
    ) || kw_pub_async_fn().is_prefix_of(t) {
        Some(Unit::Function)
    } else if kw_impl().is_prefix_of(t) {
        Some(Unit::Impl)
    } else if kw_macro_rules().is_prefix_of(t) {
        Some(Unit::Macro)
    } else {
        None
    }
}

/// Everything the classifier says of one line. The markers are looked for in
/// the whole line, and only in comments; a unit only in code.
pub open spec fn facts_of(in_block: bool, line: Seq<char>) -> LineFacts {
    let kind = line_kind(in_block, line);
    LineFacts {
        kind,
        todo: is_comment(kind) && contains_seq(line, todo_marker()),
        fixme: is_comment(kind) && contains_seq(line, fixme_marker()),
        unit: if kind == LineKind::Code {
            unit_of(trimmed(line))
        } else {
            None
        },
    }
}

impl LineFacts {
    /// Whether the facts can be those of a line: markers are found in
    /// comments only, and a declaration in code only.
    pub open spec fn well_formed(self) -> bool {
        &&& self.todo || self.fixme ==> is_comment(self.kind)
        &&& self.unit is Some ==> self.kind == LineKind::Code
    }
}

/// Whether a line with these facts adds one to `counter`.
pub open spec fn counts_toward(counter: Counter, facts: LineFacts) -> bool {
    match counter {
        Counter::Blank => facts.kind == LineKind::Blank,
        Counter::Code => facts.kind == LineKind::Code,
        Counter::LineComments => facts.kind == LineKind::LineComment,
        Counter::BlockComments => facts.kind == LineKind::BlockComment,
        Counter::DocComments => facts.kind == LineKind::DocComment,
        Counter::Todo => facts.todo,
        Counter::Fixme => facts.fixme,
        Counter::Types => facts.unit == Some(Unit::Type),
        Counter::Functions => facts.unit == Some(Unit::Function),
        Counter::Impls => facts.unit == Some(Unit::Impl),
        Counter::Macros => facts.unit == Some(Unit::Macro),
    }
}

/// Whether a block comment is open after the last of `lines`, read from the
/// start of a file.
pub open spec fn in_block_after(lines: Seq<Seq<char>>) -> bool
    decreases lines.len(),
{
    if lines.len() == 0 {
        false
    } else {
        next_in_block(in_block_after(lines.drop_last()), lines.last())
    }
}

/// What the classifier says of line `i` of a file.
pub open spec fn facts_at(lines: Seq<Seq<char>>, i: int) -> LineFacts {
    facts_of(in_block_after(lines.take(i)), lines[i])
}

/// The kind of line `i` of a file.
pub open spec fn kind_at(lines: Seq<Seq<char>>, i: int) -> LineKind {
    facts_at(lines, i).kind
}

/// The number of lines of a file that add to `counter`.
pub open spec fn count_of(lines: Seq<Seq<char>>, counter: Counter) -> nat
    decreases lines.len(),
{
    if lines.len() == 0 {
        0
    } else {
        let before = count_of(lines.drop_last(), counter);
        if counts_toward(counter, facts_at(lines, lines.len() - 1)) {
            before + 1
        } else {
            before
        }
    }
}

/// The counters of one file as numbers without a bound.
pub struct Counts {
    pub blank: nat,
    pub code: nat,
    pub line_comments: nat,
    pub block_comments: nat,
    pub doc_comments: nat,
    pub todo: nat,
    pub fixme: nat,
    pub structs: nat,
    pub fns: nat,
    pub impls: nat,
    pub macros: nat,
}

impl Counts {
    /// The number of lines counted, of all five kinds.
    pub open spec fn lines(self) -> nat {
        self.blank + self.code + self.line_comments + self.block_comments + self.doc_comments
    }

    /// The number of comment lines counted, of all three kinds.
    pub open spec fn comment_lines(self) -> nat {
        self.line_comments + self.block_comments + self.doc_comments
    }

    /// The counters after one more line with these facts.
    pub open spec fn with_line(self, facts: LineFacts) -> Counts {
        Counts {
            blank: bump(self.blank, Counter::Blank, facts),
            code: bump(self.code, Counter::Code, facts),
            line_comments: bump(self.line_comments, Counter::LineComments, facts),
            block_comments: bump(self.block_comments, Counter::BlockComments, facts),
            doc_comments: bump(self.doc_comments, Counter::DocComments, facts),
            todo: bump(self.todo, Counter::Todo, facts),
            fixme: bump(self.fixme, Counter::Fixme, facts),
            structs: bump(self.structs, Counter::Types, facts),
            fns: bump(self.fns, Counter::Functions, facts),
            impls: bump(self.impls, Counter::Impls, facts),
            macros: bump(self.macros, Counter::Macros, facts),
        }
    }

    /// The markers are counted in comments and the units in code, each line
    /// once at most.
    pub open spec fn within_lines(self) -> bool {
        &&& self.todo <= self.comment_lines()
        &&& self.fixme <= self.comment_lines()
        &&& self.structs + self.fns + self.impls + self.macros <= self.code
    }
}

/// `n`, or one more where a line with these facts adds to `counter`.
pub open spec fn bump(n: nat, counter: Counter, facts: LineFacts) -> nat {
    if counts_toward(counter, facts) {
        n + 1
    } else {
        n
    }
}

/// The counters of a file with these lines.
pub open spec fn counts_of(lines: Seq<Seq<char>>) -> Counts {
    Counts {
        blank: count_of(lines, Counter::Blank),
        code: count_of(lines, Counter::Code),
        line_comments: count_of(lines, Counter::LineComments),
        block_comments: count_of(lines, Counter::BlockComments),
        doc_comments: count_of(lines, Counter::DocComments),
        todo: count_of(lines, Counter::Todo),
        fixme: count_of(lines, Counter::Fixme),
        structs: count_of(lines, Counter::Types),
        fns: count_of(lines, Counter::Functions),
        impls: count_of(lines, Counter::Impls),
        macros: count_of(lines, Counter::Macros),
    }
}

impl View for FileTally {
    type V = Counts;

    open spec fn view(&self) -> Counts {
        Counts {
            blank: self.blank as nat,
            code: self.code as nat,
            line_comments: self.line_comments as nat,
            block_comments: self.block_comments as nat,
            doc_comments: self.doc_comments as nat,
            todo: self.todo as nat,
            fixme: self.fixme as nat,
            structs: self.structs as nat,
            fns: self.fns as nat,
            impls: self.impls as nat,
            macros: self.macros as nat,
        }
    }
}

impl FileTally {
    /// The tally of an empty file.
    pub fn new() -> (tally: FileTally)
        ensures
            tally@ == counts_of(Seq::empty()),
            tally@.lines() == 0,
            tally@.within_lines(),
    {
        FileTally {
            blank: 0,
            code: 0,
            line_comments: 0,
            block_comments: 0,
            doc_comments: 0,
            todo: 0,
            fixme: 0,
            structs: 0,
            fns: 0,
            impls: 0,
            macros: 0,
        }
    }

    /// Counts one more line.
    pub fn record(&mut self, facts: LineFacts)
        requires
            old(self)@.lines() < usize::MAX,
            old(self)@.within_lines(),
            facts.well_formed(),
        ensures
            final(self)@ == old(self)@.with_line(facts),
            final(self)@.lines() == old(self)@.lines() + 1,
            final(self)@.within_lines(),
    {
        match facts.kind {
            LineKind::Blank => {
                self.blank += 1;
            },
            LineKind::Code => {
                self.code += 1;
            },
            LineKind::LineComment => {
                self.line_comments += 1;
            },
            LineKind::BlockComment => {
                self.block_comments += 1;
            },
            LineKind::DocComment => {
                self.doc_comments += 1;
            },
        }
        if facts.todo {
            self.todo += 1;
        }
        if facts.fixme {
            self.fixme += 1;
        }
        match facts.unit {
            Some(Unit::Type) => {
                self.structs += 1;
            },
            Some(Unit::Function) => {
                self.fns += 1;
            },
            Some(Unit::Impl) => {
                self.impls += 1;
            },
            Some(Unit::Macro) => {
                self.macros += 1;
            },
            None => {},
        }
    }
}

/// The declaration that a trimmed code line starts.
pub fn scan_unit(t: &[char]) -> (unit: Option<Unit>)
    ensures
        unit == unit_of(t@),
{
    let w_struct: [char; 7] = ['s', 't', 'r', 'u', 'c', 't', ' '];
    let w_pub_struct: [char; 11] = ['p', 'u', 'b', ' ', 's', 't', 'r', 'u', 'c', 't', ' '];
    let w_fn: [char; 3] = ['f', 'n', ' '];
    let w_async_fn: [char; 9] = ['a', 's', 'y', 'n', 'c', ' ', 'f', 'n', ' '];
    let w_pub_fn: [char; 7] = ['p', 'u', 'b', ' ', 'f', 'n', ' '];
    let w_pub_async_fn: [char; 13] = [
        'p',
        'u',
        'b',
        ' ',
        'a',
        's',
        'y',
        'n',
        'c',
        ' ',
        'f',
        'n',
        ' ',
    ];
    let w_impl: [char; 5] = ['i', 'm', 'p', 'l', ' '];
    let w_macro_rules: [char; 12] = ['m', 'a', 'c', 'r', 'o', '_', 'r', 'u', 'l', 'e', 's', '!'];
    assert(w_struct@ =~= kw_struct());
    assert(w_pub_struct@ =~= kw_pub_struct());
    assert(w_fn@ =~= kw_fn());
    assert(w_async_fn@ =~= kw_async_fn());
    assert(w_pub_fn@ =~= kw_pub_fn());
    assert(w_pub_async_fn@ =~= kw_pub_async_fn());
    assert(w_impl@ =~= kw_impl());
    assert(w_macro_rules@ =~= kw_macro_rules());
    if has_prefix(t, w_struct.as_slice()) || has_prefix(t, w_pub_struct.as_slice()) {
        Some(Unit::Type)
    } else if has_prefix(t, w_fn.as_slice()) || has_prefix(t, w_async_fn.as_slice()) || has_prefix(
        t,
        w_pub_fn.as_slice(),
    ) || has_prefix(t, w_pub_async_fn.as_slice()) {
        Some(Unit::Function)
    } else if has_prefix(t, w_impl.as_slice()) {
        Some(Unit::Impl)
    } else if has_prefix(t, w_macro_rules.as_slice()) {
        Some(Unit::Macro)
    } else {
        None
    }
}

/// The kind of `line` and whether a block comment is open after it.
pub fn classify_line(in_block: bool, line: &[char]) -> (r: (LineKind, bool))
    ensures
        r.0 == line_kind(in_block, line@),
        r.1 == next_in_block(in_block, line@),
{
    let (start, end) = trim_bounds(line);
    let t: &[char] = &line[start..end];
    if t.len() == 0 {
        return (LineKind::Blank, in_block);
    }
    if in_block {
        let close: [char; 2] = ['*', '/'];
        assert(close@ =~= block_close());
        let closed = has_suffix(t, close.as_slice());
        return (LineKind::BlockComment, !closed);
    }
    let open: [char; 2] = ['/', '*'];
    let slashes: [char; 2] = ['/', '/'];
    let outer: [char; 3] = ['/', '/', '/'];
    let inner: [char; 3] = ['/', '/', '!'];
    assert(open@ =~= block_open());
    assert(slashes@ =~= line_open());
    assert(outer@ =~= outer_doc_open());
    assert(inner@ =~= inner_doc_open());
    if has_prefix(t, open.as_slice()) {
        (LineKind::BlockComment, true)
    } else if has_prefix(t, outer.as_slice()) || has_prefix(t, inner.as_slice()) {
        (LineKind::DocComment, false)
    } else if has_prefix(t, slashes.as_slice()) {
        (LineKind::LineComment, false)
    } else {
        (LineKind::Code, false)
    }
}

/// Everything the classifier says of `line`, and whether a block comment is
/// open after it.
pub fn inspect_line(in_block: bool, line: &[char]) -> (r: (LineFacts, bool))
    ensures
        r.0 == facts_of(in_block, line@),
        r.0.well_formed(),
        r.1 == next_in_block(in_block, line@),
{
    let (kind, next) = classify_line(in_block, line);
    let mut facts = LineFacts { kind, todo: false, fixme: false, unit: None };
    match kind {
        LineKind::Blank => {},
        LineKind::Code => {
            let (start, end) = trim_bounds(line);
            facts.unit = scan_unit(&line[start..end]);
        },
        _ => {
            let todo: [char; 4] = ['T', 'O', 'D', 'O'];
            let fixme: [char; 5] = ['F', 'I', 'X', 'M', 'E'];
            assert(todo@ =~= todo_marker());
            assert(fixme@ =~= fixme_marker());
            facts.todo = has_infix(line, todo.as_slice());
            facts.fixme = has_infix(line, fixme.as_slice());
        },
    }
    (facts, next)
}

/// What the classifier says of each line of `text`, in order.
pub fn inspect(text: &str) -> (facts: Vec<LineFacts>)
    ensures
        facts@.len() == lines_of(text@).len(),
        forall|i: int| 0 <= i < facts@.len() ==> facts@[i] == facts_at(lines_of(text@), i),
{
    let chars = chars_of(text);
    let ranges = line_ranges(chars.as_slice());
    let ghost lines = lines_of(text@);
    let mut facts: Vec<LineFacts> = Vec::new();
    let mut in_block = false;
    let mut i: usize = 0;
    assert(lines.take(0) =~= Seq::empty());
    while i < ranges.len()
        invariant
            i <= ranges@.len(),
            chars@ == text@,
            lines == lines_of(text@),
            ranges@.len() == lines.len(),
            forall|j: int|
                0 <= j < ranges@.len() ==> (#[trigger] ranges@[j]).0 <= ranges@[j].1
                    <= chars@.len(),
            forall|j: int|
                0 <= j < ranges@.len() ==> chars@.subrange(
                    (#[trigger] ranges@[j]).0 as int,
                    ranges@[j].1 as int,
                ) == lines[j],
            in_block == in_block_after(lines.take(i as int)),
            facts@.len() == i,
            forall|j: int| 0 <= j < i ==> facts@[j] == facts_at(lines, j),
        decreases ranges@.len() - i,
    {
        let (from, to) = ranges[i];
        let (found, next) = inspect_line(in_block, &chars.as_slice()[from..to]);
        proof {
            lemma_take_next(lines, i as int);
        }
        facts.push(found);
        in_block = next;
        i += 1;
    }
    facts
}

/// The kind of each line of `text`, in order.
pub fn classify(text: &str) -> (kinds: Vec<LineKind>)
    ensures
        kinds@.len() == lines_of(text@).len(),
        forall|i: int| 0 <= i < kinds@.len() ==> kinds@[i] == kind_at(lines_of(text@), i),
{
    let facts = inspect(text);
    let mut kinds: Vec<LineKind> = Vec::new();
    let mut i: usize = 0;
    while i < facts.len()
        invariant
            i <= facts@.len(),
            facts@.len() == lines_of(text@).len(),
            forall|j: int| 0 <= j < facts@.len() ==> facts@[j] == facts_at(lines_of(text@), j),
            kinds@.len() == i,
            forall|j: int| 0 <= j < i ==> kinds@[j] == kind_at(lines_of(text@), j),
        decreases facts@.len() - i,
    {
        kinds.push(facts[i].kind);
        i += 1;
    }
    kinds
}

/// The tally of the lines of `text`.
pub fn tally_lines(text: &str) -> (tally: FileTally)
    ensures
        tally@ == counts_of(lines_of(text@)),
        tally@.lines() == lines_of(text@).len(),
        tally@.lines() <= usize::MAX,
        tally@.within_lines(),
{
    let facts = inspect(text);
    let ghost lines = lines_of(text@);
    let mut tally = FileTally::new();
    let mut i: usize = 0;
    assert(lines.take(0) =~= Seq::empty());
    while i < facts.len()
        invariant
            i <= facts@.len(),
            lines == lines_of(text@),
            facts@.len() == lines.len(),
            forall|j: int| 0 <= j < facts@.len() ==> facts@[j] == facts_at(lines, j),
            tally@ == counts_of(lines.take(i as int)),
            tally@.lines() == i,
            tally@.within_lines(),
        decreases facts@.len() - i,
    {
        proof {
            lemma_take_next(lines, i as int);
            assert(facts@[i as int] == facts_at(lines, i as int));
        }
        tally.record(facts[i]);
        i += 1;
    }
    assert(lines.take(lines.len() as int) =~= lines);
    tally
}

/// Reading one more line: the lines before it are the same, and it is the
/// last.
proof fn lemma_take_next(lines: Seq<Seq<char>>, i: int)
    requires
        0 <= i < lines.len(),
    ensures
        lines.take(i + 1).drop_last() == lines.take(i),
        lines.take(i + 1).last() == lines[i],
        lines.take(i + 1).take(i) == lines.take(i),
        lines.take(i + 1)[i] == lines[i],
{
    assert(lines.take(i + 1).drop_last() =~= lines.take(i));
    assert(lines.take(i + 1).take(i) =~= lines.take(i));
}

/// Every line has exactly one kind: the counters of the five kinds add up to
/// the number of lines, whatever the lines hold.
pub proof fn lemma_kinds_partition(lines: Seq<Seq<char>>)
    ensures
        counts_of(lines).lines() == lines.len(),
    decreases lines.len(),
{
    if lines.len() > 0 {
        lemma_kinds_partition(lines.drop_last());
    }
}

/// The markers are counted in comments and the declarations in code, each
/// line once at most.
pub proof fn lemma_counts_within_lines(lines: Seq<Seq<char>>)
    ensures
        counts_of(lines).within_lines(),
    decreases lines.len(),
{
    if lines.len() > 0 {
        lemma_counts_within_lines(lines.drop_last());
    }
}

/// Classifying the same lines twice gives the same tally.
pub proof fn lemma_same_lines_same_tally(first: FileTally, second: FileTally, lines: Seq<Seq<char>>)
    requires
        first@ == counts_of(lines),
        second@ == counts_of(lines),
    ensures
        first == second,
{
}

/// A line of one character is code unless it lies in a block comment, which
/// it neither opens nor closes.
pub proof fn lemma_short_line(line: Seq<char>)
    requires
        trimmed(line).len() == 1,
    ensures
        line_kind(false, line) == LineKind::Code,
        line_kind(true, line) == LineKind::BlockComment,
        !next_in_block(false, line),
        next_in_block(true, line),
{
}

/// From the line that opens a block comment up to the first line after it
/// that ends with the closing mark, a block comment is open after each line.
pub proof fn lemma_block_stays_open(lines: Seq<Seq<char>>, open: int, at: int)
    requires
        0 <= open <= at < lines.len(),
        !in_block_after(lines.take(open)),
        block_open().is_prefix_of(trimmed(lines[open])),
        forall|i: int| open < i <= at ==> !block_close().is_suffix_of(trimmed(#[trigger] lines[i])),
    ensures
        in_block_after(lines.take(at + 1)),
    decreases at - open,
{
    lemma_take_next(lines, at);
    if at > open {
        lemma_block_stays_open(lines, open, at - 1);
        assert(!block_close().is_suffix_of(trimmed(lines[at])));
    }
}

/// A block comment that opens on line `open` and is closed on line `close`
/// at the earliest makes each line from `open` to `close` a line of a block
/// comment, but for the blank ones, which stay blank. None of them is code.
pub proof fn lemma_block_comment_span(lines: Seq<Seq<char>>, open: int, close: int)
    requires
        0 <= open <= close < lines.len(),
        !in_block_after(lines.take(open)),
        block_open().is_prefix_of(trimmed(lines[open])),
        forall|i: int|
            open < i < close ==> !block_close().is_suffix_of(trimmed(#[trigger] lines[i])),
    ensures
        forall|i: int|
            open <= i <= close ==> #[trigger] kind_at(lines, i) == if trimmed(lines[i]).len()
                == 0 {
                LineKind::Blank
            } else {
                LineKind::BlockComment
            },
        open < close && block_close().is_suffix_of(trimmed(lines[close])) ==> !in_block_after(
            lines.take(close + 1),
        ),
{
    assert forall|i: int| open <= i <= close implies #[trigger] kind_at(lines, i) == if trimmed(
        lines[i],
    ).len() == 0 {
        LineKind::Blank
    } else {
        LineKind::BlockComment
    } by {
        if i > open {
            lemma_block_stays_open(lines, open, i - 1);
        }
    }
    if open < close {
        lemma_block_stays_open(lines, open, close - 1);
        lemma_take_next(lines, close);
    }
}

} // verus!
