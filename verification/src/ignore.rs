//! Ignore files and the scopes they open.
//!
//! An ignore file lists names, one to a line. While a directory is being
//! walked, the names its ignore file lists are left out everywhere below it.
//! The scopes of all directories entered and not yet left are looked up as
//! one flat list.

use crate::text::{chars_of, line_ranges, lines_of, trim_bounds, trimmed};
use vstd::pervasive::unreached;
use vstd::prelude::*;
use vstd::string::StrSliceExecFns;

verus! {

/// `regex::Error`, the reason for which `regex::Regex::new` refuses a
/// pattern. Nothing is read of it.
#[verifier::external_type_specification]
#[verifier::external_body]
pub struct ExRegexError(regex::Error);

/// Whether `regex::Regex::new` accepts `pattern`.
pub uninterp spec fn regex_accepts(pattern: Seq<char>) -> bool;

/// What `regex::Regex::replace_all` returns for `haystack` and `replacement`
/// on the expression that `regex::Regex::new` makes of `pattern`.
pub uninterp spec fn regex_replace_all(
    pattern: Seq<char>,
    haystack: Seq<char>,
    replacement: Seq<char>,
) -> Seq<char>;

/// Compiles `pattern` with `regex::Regex::new` and, where that succeeds, calls
/// `regex::Regex::replace_all` on the result. Nothing is claimed of either
/// but that the same texts give the same outcome: whether a pattern is
/// accepted depends on the pattern alone, and the text returned on the three
/// texts handed in.
#[verifier::external_body]
fn replace_all(pattern: &str, haystack: &str, replacement: &str) -> (out: Result<
    String,
    regex::Error,
>)
    ensures
        out is Ok <==> regex_accepts(pattern@),
        out matches Ok(text) ==> text@ == regex_replace_all(pattern@, haystack@, replacement@),
{
    match regex::Regex::new(pattern) {
        Ok(expression) => Ok(expression.replace_all(haystack, replacement).into_owned()),
        Err(error) => Err(error),
    }
}

/// Whether ignore files can be read: the regex engine accepts both expressions
/// that trim an entry.
pub open spec fn syntax_accepted() -> bool {
    regex_accepts(leading_mark()) && regex_accepts(trailing_marks())
}

/// The expression `^[/\- \t]`: one slash, hyphen, space or tab at the start.
pub open spec fn leading_mark() -> Seq<char> {
    seq!['^', '[', '/', '\\', '-', ' ', '\\', 't', ']']
}

/// The expression `[/ \t]+$`: the slashes, spaces and tabs at the end.
pub open spec fn trailing_marks() -> Seq<char> {
    seq!['[', '/', ' ', '\\', 't', ']', '+', '$']
}

/// The name that an entry of an ignore file stands for: the entry with what
/// `leading_mark` matches taken out, and then what `trailing_marks` matches.
pub open spec fn pattern_of(entry: Seq<char>) -> Seq<char> {
    regex_replace_all(
        trailing_marks(),
        regex_replace_all(leading_mark(), entry, Seq::empty()),
        Seq::empty(),
    )
}

/// Whether a line of an ignore file is an entry: it is not blank, and it does
/// not begin with `#`, which marks a comment.
pub open spec fn is_entry(line: Seq<char>) -> bool {
    trimmed(line).len() > 0 && line.first() != '#'
}

/// The names that the entries among `lines` stand for, in order.
pub open spec fn patterns_of(lines: Seq<Seq<char>>) -> Seq<Seq<char>>
    decreases lines.len(),
{
    if lines.len() == 0 {
        Seq::empty()
    } else if is_entry(lines.last()) {
        patterns_of(lines.drop_last()).push(pattern_of(lines.last()))
    } else {
        patterns_of(lines.drop_last())
    }
}

/// The names that an ignore file with this text lists.
pub open spec fn ignore_patterns(text: Seq<char>) -> Seq<Seq<char>> {
    patterns_of(lines_of(text))
}

/// The names that one directory's ignore file lists.
pub struct IgnoreScope {
    /// The directory that owns the scope.
    pub dir: usize,
    pub patterns: Vec<String>,
}

/// An `IgnoreScope` as plain values.
pub struct Scope {
    pub dir: usize,
    pub patterns: Seq<Seq<char>>,
}

/// The reader of ignore files. One exists only where the regex engine has
/// accepted the two expressions that trim an entry.
pub struct IgnoreSyntax {
    accepted: (),
}

/// The scopes of the directories entered and not yet left.
pub struct IgnoreScopeStack {
    syntax: IgnoreSyntax,
    scopes: Vec<IgnoreScope>,
}

/// Why no ignore file can be read: the regex engine refused one of the two
/// expressions that trim an entry.
#[derive(Clone, Copy, PartialEq, Eq, Debug, Structural)]
pub enum IgnoreError {
    LeadingMark,
    TrailingMarks,
}

/// Whether `name` is listed in one of `scopes`, whichever it is.
pub open spec fn listed(scopes: Seq<Scope>, name: Seq<char>) -> bool {
    exists|i: int| 0 <= i < scopes.len() && (#[trigger] scopes[i]).patterns.contains(name)
}

/// `scopes` without the one that `dir` owns.
pub open spec fn without(scopes: Seq<Scope>, dir: usize) -> Seq<Scope>
    decreases scopes.len(),
{
    if scopes.len() == 0 {
        scopes
    } else if scopes.last().dir == dir {
        without(scopes.drop_last(), dir)
    } else {
        without(scopes.drop_last(), dir).push(scopes.last())
    }
}

/// `scopes` after `dir` has been entered. An ignore file with an entry opens a
/// scope, in place of one that `dir` owned before; without one nothing changes.
pub open spec fn entered(scopes: Seq<Scope>, dir: usize, ignore_file: Option<Seq<char>>) -> Seq<
    Scope,
> {
    match ignore_file {
        Some(text) if ignore_patterns(text).len() > 0 => without(scopes, dir).push(
            Scope { dir, patterns: ignore_patterns(text) },
        ),
        _ => scopes,
    }
}

impl View for IgnoreScope {
    type V = Scope;

    open spec fn view(&self) -> Scope {
        Scope { dir: self.dir, patterns: self.patterns.deep_view() }
    }
}

impl View for IgnoreScopeStack {
    type V = Seq<Scope>;

    closed spec fn view(&self) -> Seq<Scope> {
        self.scopes@.map_values(|scope: IgnoreScope| scope@)
    }
}

/// Whether `line` of an ignore file is an entry.
pub fn line_is_entry(line: &[char]) -> (b: bool)
    ensures
        b == is_entry(line@),
{
    let (start, end) = trim_bounds(line);
    start < end && line[0] != '#'
}

impl IgnoreSyntax {
    #[verifier::type_invariant]
    spec fn expressions_accepted(self) -> bool {
        syntax_accepted()
    }

    /// Hands both expressions to the regex engine, and fails with the first
    /// that it refuses.
    pub fn new() -> (r: Result<IgnoreSyntax, IgnoreError>)
        ensures
            r is Ok <==> syntax_accepted(),
            r matches Err(error) ==> (error == IgnoreError::LeadingMark <==> !regex_accepts(
                leading_mark(),
            )),
    {
        proof {
            reveal_strlit("^[/\\- \\t]");
            reveal_strlit("[/ \\t]+$");
            assert("^[/\\- \\t]"@ =~= leading_mark());
            assert("[/ \\t]+$"@ =~= trailing_marks());
        }
        match replace_all("^[/\\- \\t]", "", "") {
            Ok(_) => {},
            Err(_) => {
                return Err(IgnoreError::LeadingMark);
            },
        }
        match replace_all("[/ \\t]+$", "", "") {
            Ok(_) => {},
            Err(_) => {
                return Err(IgnoreError::TrailingMarks);
            },
        }
        Ok(IgnoreSyntax { accepted: () })
    }

    /// The name that one entry of an ignore file stands for.
    pub fn trim_entry(&self, entry: &str) -> (pattern: String)
        ensures
            pattern@ == pattern_of(entry@),
    {
        proof {
            use_type_invariant(self);
            reveal_strlit("^[/\\- \\t]");
            reveal_strlit("[/ \\t]+$");
            reveal_strlit("");
            assert("^[/\\- \\t]"@ =~= leading_mark());
            assert("[/ \\t]+$"@ =~= trailing_marks());
            assert(""@ =~= Seq::<char>::empty());
        }
        let headless: String = match replace_all("^[/\\- \\t]", entry, "") {
            Ok(text) => text,
            Err(_) => unreached(),
        };
        match replace_all("[/ \\t]+$", headless.as_str(), "") {
            Ok(text) => text,
            Err(_) => unreached(),
        }
    }

    /// The names that an ignore file with this text lists.
    pub fn parse(&self, text: &str) -> (patterns: Vec<String>)
        ensures
            patterns.deep_view() == ignore_patterns(text@),
    {
        let chars = chars_of(text);
        let ranges = line_ranges(chars.as_slice());
        let ghost lines = lines_of(text@);
        let mut patterns: Vec<String> = Vec::new();
        let mut i: usize = 0;
        assert(lines.take(0) =~= Seq::empty());
        assert(patterns.deep_view() =~= Seq::empty());
        while i < ranges.len()
            invariant
                i <= ranges@.len(),
                chars@ == text@,
                lines == lines_of(text@),
                ranges@.len() == lines.len(),
                forall|j: int|
                    0 <= j < ranges@.len() ==> (#[trigger] ranges@[j]).0 <= ranges@[j].1
                        <= chars@.len(),
                forall|j: int|
                    0 <= j < ranges@.len() ==> chars@.subrange(
                        (#[trigger] ranges@[j]).0 as int,
                        ranges@[j].1 as int,
                    ) == lines[j],
                patterns.deep_view() == patterns_of(lines.take(i as int)),
            decreases ranges@.len() - i,
        {
            let (from, to) = ranges[i];
            proof {
                assert(lines.take(i + 1).drop_last() =~= lines.take(i as int));
            }
            if line_is_entry(&chars.as_slice()[from..to]) {
                let pattern = self.trim_entry(text.substring_char(from, to));
                let ghost before = patterns.deep_view();
                patterns.push(pattern);
                assert(patterns.deep_view() =~= before.push(pattern@));
            }
            i += 1;
        }
        assert(lines.take(lines.len() as int) =~= lines);
        patterns
    }
}

impl IgnoreScopeStack {
    /// No scope, once the regex engine has accepted the two expressions that
    /// trim an entry.
    pub fn new() -> (r: Result<IgnoreScopeStack, IgnoreError>)
        ensures
            r is Ok <==> syntax_accepted(),
            r matches Ok(stack) ==> stack@ == Seq::<Scope>::empty(),
            r matches Err(error) ==> (error == IgnoreError::LeadingMark <==> !regex_accepts(
                leading_mark(),
            )),
    {
        match IgnoreSyntax::new() {
            Ok(syntax) => {
                let stack = IgnoreScopeStack { syntax, scopes: Vec::new() };
                assert(stack@ =~= Seq::<Scope>::empty());
                Ok(stack)
            },
            Err(error) => Err(error),
        }
    }

    /// The names that an ignore file with this text lists.
    pub fn parse(&self, text: &str) -> (patterns: Vec<String>)
        ensures
            patterns.deep_view() == ignore_patterns(text@),
    {
        self.syntax.parse(text)
    }

    /// There are no more scopes than a `usize` can count.
    pub proof fn lemma_len_bounded(&self)
        ensures
            self@.len() <= usize::MAX,
    {
        assert(self.scopes@.len() == self.scopes.len());
    }

    /// The number of scopes.
    pub fn len(&self) -> (n: usize)
        ensures
            n == self@.len(),
    {
        self.scopes.len()
    }

    /// Whether `name` is listed in any scope.
    pub fn is_ignored(&self, name: &str) -> (b: bool)
        ensures
            b == listed(self@, name@),
    {
        let wanted: String = name.to_owned();
        let mut i: usize = 0;
        while i < self.scopes.len()
            invariant
                i <= self.scopes@.len(),
                wanted@ == name@,
                forall|k: int| 0 <= k < i ==> !(#[trigger] self@[k]).patterns.contains(name@),
            decreases self.scopes@.len() - i,
        {
            let patterns = &self.scopes[i].patterns;
            let mut j: usize = 0;
            while j < patterns.len()
                invariant
                    i < self.scopes@.len(),
                    j <= patterns@.len(),
                    wanted@ == name@,
                    *patterns == self.scopes@[i as int].patterns,
                    forall|k: int| 0 <= k < j ==> self@[i as int].patterns[k] != name@,
                decreases patterns@.len() - j,
            {
                if patterns[j] == wanted {
                    assert(self@[i as int].patterns[j as int] == name@);
                    return true;
                }
                j += 1;
            }
            i += 1;
        }
        false
    }

    /// Closes the scope that `dir` owns, if there is one.
    pub fn leave(&mut self, dir: usize)
        ensures
            final(self)@ == without(old(self)@, dir),
    {
        let ghost before = self@;
        let mut all: Vec<IgnoreScope> = Vec::new();
        std::mem::swap(&mut self.scopes, &mut all);
        let mut kept: Vec<IgnoreScope> = Vec::new();
        assert(before.take(0) =~= Seq::empty());
        assert(kept@.map_values(|scope: IgnoreScope| scope@) =~= Seq::empty());
        for scope in it: all
            invariant
                before == it.seq().map_values(|scope: IgnoreScope| scope@),
                kept@.map_values(|scope: IgnoreScope| scope@) == without(
                    before.take(it.index() as int),
                    dir,
                ),
        {
            proof {
                let i = it.index() as int;
                assert(before.take(i + 1).drop_last() =~= before.take(i));
                assert(before.take(i + 1).last() == scope@);
            }
            if scope.dir != dir {
                let ghost kept_before = kept@;
                let ghost added = scope@;
                kept.push(scope);
                assert(kept@.map_values(|scope: IgnoreScope| scope@) =~= kept_before.map_values(
                    |scope: IgnoreScope| scope@,
                ).push(added));
            }
        }
        assert(before.take(before.len() as int) =~= before);
        self.scopes = kept;
    }

    /// Enters `dir`, whose ignore file, if it has one, holds `ignore_file`.
    pub fn enter(&mut self, dir: usize, ignore_file: Option<&str>)
        ensures
            final(self)@ == entered(
                old(self)@,
                dir,
                match ignore_file {
                    Some(text) => Some(text@),
                    None => None,
                },
            ),
    {
        match ignore_file {
            Some(text) => {
                let patterns = self.parse(text);
                if patterns.len() > 0 {
                    self.leave(dir);
                    let ghost before = self.scopes@;
                    let scope = IgnoreScope { dir, patterns };
                    self.scopes.push(scope);
                    assert(self.scopes@.map_values(|scope: IgnoreScope| scope@)
                        =~= before.map_values(|scope: IgnoreScope| scope@).push(scope@));
                }
            },
            None => {},
        }
    }
}

/// A scope that `dir` does not own is still there when `dir` is left.
pub proof fn lemma_leave_keeps(scopes: Seq<Scope>, dir: usize, i: int)
    requires
        0 <= i < scopes.len(),
        scopes[i].dir != dir,
    ensures
        without(scopes, dir).contains(scopes[i]),
    decreases scopes.len(),
{
    let rest = scopes.drop_last();
    let kept = without(rest, dir);
    if i == scopes.len() - 1 {
        assert(kept.push(scopes.last())[kept.len() as int] == scopes[i]);
    } else {
        lemma_leave_keeps(rest, dir, i);
        let j = choose|j: int| 0 <= j < kept.len() && kept[j] == rest[i];
        if scopes.last().dir != dir {
            assert(kept.push(scopes.last())[j] == scopes[i]);
        }
    }
}

/// A name that an open scope lists stays listed while other directories are
/// entered and left: until the directory that owns the scope is left, or
/// entered anew, entries of that name are skipped.
pub proof fn lemma_listed_until_left(
    scopes: Seq<Scope>,
    i: int,
    name: Seq<char>,
    dir: usize,
    ignore_file: Option<Seq<char>>,
)
    requires
        0 <= i < scopes.len(),
        scopes[i].patterns.contains(name),
        scopes[i].dir != dir,
    ensures
        listed(without(scopes, dir), name),
        listed(entered(scopes, dir, ignore_file), name),
{
    lemma_leave_keeps(scopes, dir, i);
    let kept = without(scopes, dir);
    let j = choose|j: int| 0 <= j < kept.len() && kept[j] == scopes[i];
    assert(kept[j].patterns.contains(name));
    match ignore_file {
        Some(text) if ignore_patterns(text).len() > 0 => {
            let more = kept.push(Scope { dir, patterns: ignore_patterns(text) });
            assert(more[j] == kept[j]);
        },
        _ => {},
    }
}

/// Whether each scope is owned by the number of its place, as the scopes of a
/// walk are that enters and leaves in pairs.
pub open spec fn keyed_by_place(scopes: Seq<Scope>) -> bool {
    forall|i: int| 0 <= i < scopes.len() ==> (#[trigger] scopes[i]).dir == i
}

/// Leaving a directory that owns no scope changes nothing.
pub proof fn lemma_without_absent(scopes: Seq<Scope>, dir: usize)
    requires
        forall|i: int| 0 <= i < scopes.len() ==> (#[trigger] scopes[i]).dir != dir,
    ensures
        without(scopes, dir) == scopes,
    decreases scopes.len(),
{
    if scopes.len() > 0 {
        let rest = scopes.drop_last();
        assert forall|i: int| 0 <= i < rest.len() implies (#[trigger] rest[i]).dir != dir by {
            assert(rest[i] == scopes[i]);
        }
        lemma_without_absent(rest, dir);
        assert(scopes.last() == scopes[scopes.len() - 1]);
        assert(rest.push(scopes.last()) =~= scopes);
    }
}

/// Entering a directory and leaving it again, in a walk that enters and
/// leaves in pairs, leaves the scopes as they were: what is judged next is
/// judged under the ignore files of the directories above it, and not under
/// those of the directories beside it or below them.
pub proof fn lemma_enter_then_leave(scopes: Seq<Scope>, ignore_file: Option<Seq<char>>)
    requires
        keyed_by_place(scopes),
        scopes.len() <= usize::MAX,
    ensures
        keyed_by_place(entered(scopes, scopes.len() as usize, ignore_file)),
        without(entered(scopes, scopes.len() as usize, ignore_file), scopes.len() as usize)
            == scopes,
{
    let dir = scopes.len() as usize;
    lemma_without_absent(scopes, dir);
    match ignore_file {
        Some(text) if ignore_patterns(text).len() > 0 => {
            let more = entered(scopes, dir, ignore_file);
            assert(more.drop_last() =~= scopes);
        },
        _ => {},
    }
}

} // verus!
