//! The totals of a run: the tallies of the files counted so far, summed under
//! the configuration's choice of what counts.

use crate::classify::{Counts, FileTally};
use crate::params::Params;
use vstd::prelude::*;

verus! {

/// The totals of a run.
#[derive(Debug)]
pub struct CodeStats {
    loc: usize,
    todo: usize,
    fixme: usize,
    structs: usize,
    fns: usize,
    impls: usize,
    macros: usize,
    comments: usize,
    docs: usize,
    empty_lines: usize,
}

/// The totals of a run as numbers without a bound.
pub struct Totals {
    /// The lines that count: code, and the comments that were asked for.
    pub loc: nat,
    pub todo: nat,
    pub fixme: nat,
    pub structs: nat,
    pub fns: nat,
    pub impls: nat,
    pub macros: nat,
    /// Line comments and the lines of block comments.
    pub comments: nat,
    /// Lines of documentation comments.
    pub docs: nat,
    /// Blank lines.
    pub empty_lines: nat,
}

/// The share of each of the four totals of lines in their sum, in thousandths
/// of a percent, rounded down.
#[derive(Clone, Copy, PartialEq, Eq, Debug, Structural)]
pub struct Ratios {
    pub empty_lines: u32,
    pub comments: u32,
    pub docs: u32,
    pub loc: u32,
}

/// The declarations counted.
#[derive(Clone, Copy, PartialEq, Eq, Debug, Structural)]
pub struct UnitCounts {
    pub structs: usize,
    pub functions: usize,
    pub impl_blocks: usize,
    pub macros: usize,
}

/// What a run shows of its totals: the lines that count always, the rest where
/// the configuration asks for it.
#[derive(Clone, Copy, PartialEq, Eq, Debug, Structural)]
pub struct Report {
    pub loc: usize,
    pub todo: Option<usize>,
    pub fixme: Option<usize>,
    pub units: Option<UnitCounts>,
    pub ratios: Option<Ratios>,
}

/// The lines of a file that count: its lines of code, and its lines of the
/// kinds of comment that the configuration asks for. Blank lines are counted
/// apart.
pub open spec fn recognized(file: Counts, params: Params) -> nat {
    let comments = if params.comments {
        file.line_comments + file.block_comments
    } else {
        0
    };
    let docs = if params.docs {
        file.doc_comments
    } else {
        0
    };
    file.code + comments + docs
}

/// `part` of `whole` in thousandths of a percent, rounded down.
pub open spec fn share(part: nat, whole: nat) -> nat
    recommends
        whole > 0,
{
    part * 100_000 / whole
}

impl Totals {
    /// Nothing counted.
    pub open spec fn zero() -> Totals {
        Totals {
            loc: 0,
            todo: 0,
            fixme: 0,
            structs: 0,
            fns: 0,
            impls: 0,
            macros: 0,
            comments: 0,
            docs: 0,
            empty_lines: 0,
        }
    }

    /// The totals with one more file. Blank lines and both markers always
    /// count. The lines of a kind of comment that the configuration leaves out
    /// count nowhere; those it asks for count as comments or documentation and
    /// among the lines of the file. Declarations count only where the
    /// configuration asks for them.
    pub open spec fn plus(self, file: Counts, params: Params) -> Totals {
        Totals {
            loc: self.loc + recognized(file, params),
            todo: self.todo + file.todo,
            fixme: self.fixme + file.fixme,
            structs: self.structs + if params.units {
                file.structs
            } else {
                0
            },
            fns: self.fns + if params.units {
                file.fns
            } else {
                0
            },
            impls: self.impls + if params.units {
                file.impls
            } else {
                0
            },
            macros: self.macros + if params.units {
                file.macros
            } else {
                0
            },
            comments: self.comments + if params.comments {
                file.line_comments + file.block_comments
            } else {
                0
            },
            docs: self.docs + if params.docs {
                file.doc_comments
            } else {
                0
            },
            empty_lines: self.empty_lines + file.blank,
        }
    }

    /// The totals of two parts of a run together.
    pub open spec fn add(self, other: Totals) -> Totals {
        Totals {
            loc: self.loc + other.loc,
            todo: self.todo + other.todo,
            fixme: self.fixme + other.fixme,
            structs: self.structs + other.structs,
            fns: self.fns + other.fns,
            impls: self.impls + other.impls,
            macros: self.macros + other.macros,
            comments: self.comments + other.comments,
            docs: self.docs + other.docs,
            empty_lines: self.empty_lines + other.empty_lines,
        }
    }

    /// Whether no total is above its counterpart in `other`.
    pub open spec fn le(self, other: Totals) -> bool {
        &&& self.loc <= other.loc
        &&& self.todo <= other.todo
        &&& self.fixme <= other.fixme
        &&& self.structs <= other.structs
        &&& self.fns <= other.fns
        &&& self.impls <= other.impls
        &&& self.macros <= other.macros
        &&& self.comments <= other.comments
        &&& self.docs <= other.docs
        &&& self.empty_lines <= other.empty_lines
    }

    /// Whether every total can be held in a `usize`.
    pub open spec fn fits(self) -> bool {
        &&& self.loc <= usize::MAX
        &&& self.todo <= usize::MAX
        &&& self.fixme <= usize::MAX
        &&& self.structs <= usize::MAX
        &&& self.fns <= usize::MAX
        &&& self.impls <= usize::MAX
        &&& self.macros <= usize::MAX
        &&& self.comments <= usize::MAX
        &&& self.docs <= usize::MAX
        &&& self.empty_lines <= usize::MAX
    }

    /// The sum of the four totals of lines, of which each has its share.
    pub open spec fn counted(self) -> nat {
        self.empty_lines + self.comments + self.docs + self.loc
    }

    /// The share of each of the four totals of lines in their sum, where any
    /// line was counted.
    pub open spec fn ratios(self) -> Option<Ratios> {
        if self.counted() == 0 {
            None
        } else {
            Some(
                Ratios {
                    empty_lines: share(self.empty_lines, self.counted()) as u32,
                    comments: share(self.comments, self.counted()) as u32,
                    docs: share(self.docs, self.counted()) as u32,
                    loc: share(self.loc, self.counted()) as u32,
                },
            )
        }
    }

    /// What is shown of the totals under `params`.
    pub open spec fn report(self, params: Params) -> Report {
        Report {
            loc: self.loc as usize,
            todo: if params.todo {
                Some(self.todo as usize)
            } else {
                None
            },
            fixme: if params.fixme {
                Some(self.fixme as usize)
            } else {
                None
            },
            units: if params.units {
                Some(
                    UnitCounts {
                        structs: self.structs as usize,
                        functions: self.fns as usize,
                        impl_blocks: self.impls as usize,
                        macros: self.macros as usize,
                    },
                )
            } else {
                None
            },
            ratios: if params.ratio {
                self.ratios()
            } else {
                None
            },
        }
    }
}

/// A share is at most the whole, a hundred percent.
pub proof fn lemma_share_bound(part: nat, whole: nat)
    requires
        part <= whole,
        whole > 0,
    ensures
        share(part, whole) <= 100_000,
{
    assert(part * 100_000 <= whole * 100_000) by (nonlinear_arith)
        requires
            part <= whole,
    ;
    assert(part * 100_000 / whole <= 100_000) by (nonlinear_arith)
        requires
            part * 100_000 <= whole * 100_000,
            whole > 0,
    ;
}

/// Adding a file is adding what the file alone would give.
pub proof fn lemma_plus_is_add(totals: Totals, file: Counts, params: Params)
    ensures
        totals.plus(file, params) == totals.add(Totals::zero().plus(file, params)),
{
}

/// The markers of a file are counted whatever the configuration says of
/// comments, documentation and declarations: a marker in a comment that is
/// left out is counted, though the line that holds it counts nowhere.
pub proof fn lemma_markers_always_count(totals: Totals, file: Counts, params: Params)
    ensures
        totals.plus(file, params).todo == totals.todo + file.todo,
        totals.plus(file, params).fixme == totals.fixme + file.fixme,
        !params.comments && !params.docs ==> totals.plus(file, params).loc == totals.loc
            + file.code,
        !params.comments ==> totals.plus(file, params).comments == totals.comments,
        !params.docs ==> totals.plus(file, params).docs == totals.docs,
{
}

/// A comment line is never counted as code: the lines that count are the
/// lines of code and the comment lines that count as such, so that with
/// every kind of comment asked for a file adds all its lines but the blank
/// ones, and with none its lines of code alone.
pub proof fn lemma_lines_that_count(totals: Totals, file: Counts, params: Params)
    ensures
        totals.plus(file, params).loc - totals.loc == file.code + (totals.plus(
            file,
            params,
        ).comments - totals.comments) + (totals.plus(file, params).docs - totals.docs),
        params.comments && params.docs ==> totals.plus(file, params).loc == totals.loc
            + file.lines() - file.blank,
        file.code <= totals.plus(file, params).loc - totals.loc <= file.lines() - file.blank,
{
}

/// The shares are exact to three thousandths of a percent: rounded down each,
/// the four of them lack less than four thousandths to a hundred percent.
pub proof fn lemma_shares_sum(totals: Totals)
    requires
        totals.counted() > 0,
    ensures
        100_000 - 3 <= share(totals.empty_lines, totals.counted()) + share(
            totals.comments,
            totals.counted(),
        ) + share(totals.docs, totals.counted()) + share(totals.loc, totals.counted()) <= 100_000,
{
    let whole = totals.counted() as int;
    let a = totals.empty_lines as int;
    let b = totals.comments as int;
    let c = totals.docs as int;
    let d = totals.loc as int;
    let qa = a * 100_000 / whole;
    let qb = b * 100_000 / whole;
    let qc = c * 100_000 / whole;
    let qd = d * 100_000 / whole;
    lemma_floor(a * 100_000, whole);
    lemma_floor(b * 100_000, whole);
    lemma_floor(c * 100_000, whole);
    lemma_floor(d * 100_000, whole);
    let sum = qa + qb + qc + qd;
    assert(whole * sum == whole * qa + whole * qb + whole * qc + whole * qd) by (nonlinear_arith)
        requires
            sum == qa + qb + qc + qd,
    ;
    assert(whole * 100_000 == a * 100_000 + b * 100_000 + c * 100_000 + d * 100_000)
        by (nonlinear_arith)
        requires
            whole == a + b + c + d,
    ;
    assert(whole * sum <= whole * 100_000 < whole * sum + 4 * whole);
    assert(sum <= 100_000 < sum + 4) by (nonlinear_arith)
        requires
            whole > 0,
            whole * sum <= whole * 100_000 < whole * sum + 4 * whole,
    ;
}

/// Division rounds down: the quotient times the divisor is at most the
/// dividend, and less than one divisor short of it.
proof fn lemma_floor(x: int, d: int)
    requires
        0 <= x,
        0 < d,
    ensures
        d * (x / d) <= x < d * (x / d) + d,
{
    vstd::arithmetic::div_mod::lemma_fundamental_div_mod(x, d);
    vstd::arithmetic::div_mod::lemma_mod_pos_bound(x, d);
}

/// `part` of `whole` in thousandths of a percent, rounded down.
fn share_of(part: usize, whole: u128) -> (r: u32)
    requires
        part <= whole,
        0 < whole <= 4 * usize::MAX,
    ensures
        r == share(part as nat, whole as nat),
{
    proof {
        lemma_share_bound(part as nat, whole as nat);
        assert(part * 100_000 <= usize::MAX * 100_000) by (nonlinear_arith)
            requires
                part <= usize::MAX,
        ;
    }
    let scaled: u128 = (part as u128) * 100_000;
    (scaled / whole) as u32
}

impl View for CodeStats {
    type V = Totals;

    closed spec fn view(&self) -> Totals {
        Totals {
            loc: self.loc as nat,
            todo: self.todo as nat,
            fixme: self.fixme as nat,
            structs: self.structs as nat,
            fns: self.fns as nat,
            impls: self.impls as nat,
            macros: self.macros as nat,
            comments: self.comments as nat,
            docs: self.docs as nat,
            empty_lines: self.empty_lines as nat,
        }
    }
}

impl Default for CodeStats {
    fn default() -> (stats: CodeStats)
        ensures
            stats@ == Totals::zero(),
    {
        CodeStats {
            loc: 0,
            todo: 0,
            fixme: 0,
            structs: 0,
            fns: 0,
            impls: 0,
            macros: 0,
            comments: 0,
            docs: 0,
            empty_lines: 0,
        }
    }
}

impl CodeStats {
    /// Totals in which nothing is counted yet.
    pub fn new() -> (stats: CodeStats)
        ensures
            stats@ == Totals::zero(),
    {
        CodeStats {
            loc: 0,
            todo: 0,
            fixme: 0,
            structs: 0,
            fns: 0,
            impls: 0,
            macros: 0,
            comments: 0,
            docs: 0,
            empty_lines: 0,
        }
    }

    /// What is held fits: every total is a `usize`.
    pub proof fn lemma_fits(&self)
        ensures
            self@.fits(),
    {
    }

    /// Whether the totals can take one more file without overflow.
    pub fn fits(&self, file: &FileTally, params: &Params) -> (b: bool)
        ensures
            b == self@.plus(file@, *params).fits(),
    {
        let max: usize = usize::MAX;
        let comments: usize = if params.comments {
            if file.line_comments > max - file.block_comments {
                return false;
            }
            file.line_comments + file.block_comments
        } else {
            0
        };
        let docs: usize = if params.docs {
            file.doc_comments
        } else {
            0
        };
        if file.code > max - comments {
            return false;
        }
        if file.code + comments > max - docs {
            return false;
        }
        let lines: usize = file.code + comments + docs;
        let units: bool = params.units;
        lines <= max - self.loc && file.todo <= max - self.todo && file.fixme <= max
            - self.fixme && (!units || file.structs <= max - self.structs) && (!units || file.fns
            <= max - self.fns) && (!units || file.impls <= max - self.impls) && (!units
            || file.macros <= max - self.macros) && comments <= max - self.comments && docs <= max
            - self.docs && file.blank <= max - self.empty_lines
    }

    /// Adds the tally of one file.
    pub fn merge(&mut self, file: &FileTally, params: &Params)
        requires
            old(self)@.plus(file@, *params).fits(),
        ensures
            final(self)@ == old(self)@.plus(file@, *params),
    {
        self.loc += file.code;
        self.todo += file.todo;
        self.fixme += file.fixme;
        if params.units {
            self.structs += file.structs;
            self.fns += file.fns;
            self.impls += file.impls;
            self.macros += file.macros;
        }
        if params.comments {
            let comments = file.line_comments + file.block_comments;
            self.comments += comments;
            self.loc += comments;
        }
        if params.docs {
            self.docs += file.doc_comments;
            self.loc += file.doc_comments;
        }
        self.empty_lines += file.blank;
    }

    /// The share of each of the four totals of lines in their sum, or `None`
    /// where no line was counted.
    pub fn ratios(&self) -> (r: Option<Ratios>)
        ensures
            r == self@.ratios(),
    {
        let whole: u128 = self.empty_lines as u128 + self.comments as u128 + self.docs as u128
            + self.loc as u128;
        if whole == 0 {
            None
        } else {
            Some(
                Ratios {
                    empty_lines: share_of(self.empty_lines, whole),
                    comments: share_of(self.comments, whole),
                    docs: share_of(self.docs, whole),
                    loc: share_of(self.loc, whole),
                },
            )
        }
    }

    /// What is shown of the totals under `params`.
    pub fn report(&self, params: &Params) -> (r: Report)
        ensures
            r == self@.report(*params),
    {
        Report {
            loc: self.loc,
            todo: if params.todo {
                Some(self.todo)
            } else {
                None
            },
            fixme: if params.fixme {
                Some(self.fixme)
            } else {
                None
            },
            units: if params.units {
                Some(
                    UnitCounts {
                        structs: self.structs,
                        functions: self.fns,
                        impl_blocks: self.impls,
                        macros: self.macros,
                    },
                )
            } else {
                None
            },
            ratios: if params.ratio {
                self.ratios()
            } else {
                None
            },
        }
    }

    /// Adds `lines` to the lines that count.
    pub fn add_loc(&mut self, lines: usize)
        requires
            old(self)@.loc + lines <= usize::MAX,
        ensures
            final(self)@ == (Totals { loc: old(self)@.loc + lines as nat, ..old(self)@ }),
    {
        self.loc += lines;
    }

    /// The lines that count: code, and the comments that were asked for.
    pub fn loc(&self) -> (n: usize)
        ensures
            n == self@.loc,
    {
        self.loc
    }

    /// The `TODO` markers found in comments.
    pub fn todo(&self) -> (n: usize)
        ensures
            n == self@.todo,
    {
        self.todo
    }

    /// Adds one `TODO` marker.
    pub fn add_todo(&mut self)
        requires
            old(self)@.todo < usize::MAX,
        ensures
            final(self)@ == (Totals { todo: old(self)@.todo + 1, ..old(self)@ }),
    {
        self.todo += 1;
    }

    /// The `FIXME` markers found in comments.
    pub fn fixme(&self) -> (n: usize)
        ensures
            n == self@.fixme,
    {
        self.fixme
    }

    /// Adds one `FIXME` marker.
    pub fn add_fixme(&mut self)
        requires
            old(self)@.fixme < usize::MAX,
        ensures
            final(self)@ == (Totals { fixme: old(self)@.fixme + 1, ..old(self)@ }),
    {
        self.fixme += 1;
    }

    /// The type declarations.
    pub fn structs(&self) -> (n: usize)
        ensures
            n == self@.structs,
    {
        self.structs
    }

    /// Adds one type declaration.
    pub fn add_structs(&mut self)
        requires
            old(self)@.structs < usize::MAX,
        ensures
            final(self)@ == (Totals { structs: old(self)@.structs + 1, ..old(self)@ }),
    {
        self.structs += 1;
    }

    /// The function declarations.
    pub fn fns(&self) -> (n: usize)
        ensures
            n == self@.fns,
    {
        self.fns
    }

    /// Adds one function declaration.
    pub fn add_fns(&mut self)
        requires
            old(self)@.fns < usize::MAX,
        ensures
            final(self)@ == (Totals { fns: old(self)@.fns + 1, ..old(self)@ }),
    {
        self.fns += 1;
    }

    /// The impl blocks.
    pub fn impls(&self) -> (n: usize)
        ensures
            n == self@.impls,
    {
        self.impls
    }

    /// Adds one impl block.
    pub fn add_impls(&mut self)
        requires
            old(self)@.impls < usize::MAX,
        ensures
            final(self)@ == (Totals { impls: old(self)@.impls + 1, ..old(self)@ }),
    {
        self.impls += 1;
    }

    /// The macro definitions.
    pub fn macros(&self) -> (n: usize)
        ensures
            n == self@.macros,
    {
        self.macros
    }

    /// Adds one macro definition.
    pub fn add_macros(&mut self)
        requires
            old(self)@.macros < usize::MAX,
        ensures
            final(self)@ == (Totals { macros: old(self)@.macros + 1, ..old(self)@ }),
    {
        self.macros += 1;
    }

    /// The line comments and the lines of block comments.
    pub fn comments(&self) -> (n: usize)
        ensures
            n == self@.comments,
    {
        self.comments
    }

    /// Adds one comment line.
    pub fn add_comments(&mut self)
        requires
            old(self)@.comments < usize::MAX,
        ensures
            final(self)@ == (Totals { comments: old(self)@.comments + 1, ..old(self)@ }),
    {
        self.comments += 1;
    }

    /// The lines of documentation comments.
    pub fn docs(&self) -> (n: usize)
        ensures
            n == self@.docs,
    {
        self.docs
    }

    /// Adds one line of documentation.
    pub fn add_docs(&mut self)
        requires
            old(self)@.docs < usize::MAX,
        ensures
            final(self)@ == (Totals { docs: old(self)@.docs + 1, ..old(self)@ }),
    {
        self.docs += 1;
    }

    /// The blank lines.
    pub fn empty_lines(&self) -> (n: usize)
        ensures
            n == self@.empty_lines,
    {
        self.empty_lines
    }

    /// Adds one blank line.
    pub fn add_empty_lines(&mut self)
        requires
            old(self)@.empty_lines < usize::MAX,
        ensures
            final(self)@ == (Totals { empty_lines: old(self)@.empty_lines + 1, ..old(self)@ }),
    {
        self.empty_lines += 1;
    }
}

} // verus!
