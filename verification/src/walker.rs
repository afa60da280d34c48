//! The walk over a directory tree, as a machine that is driven from outside.
//!
//! The walker decides and counts; whoever drives it lists the directories and
//! reads the files it asks for, and hands back what was found. A directory is
//! entered before its entries are judged and left after the last of them, so
//! that an entry is judged under the ignore files of the directories above it
//! and of no other.

use crate::classify::counts_of;
use crate::code_stats::{CodeStats, Totals};
use crate::count_lines::try_count_lines;
use crate::ignore::{
    entered, keyed_by_place, leading_mark, lemma_enter_then_leave, lemma_without_absent, listed,
    regex_accepts, syntax_accepted, without, IgnoreError, IgnoreScopeStack, Scope,
};
use crate::params::{texts, ConfigError, Params};
use crate::text::{chars_of, has_suffix, lines_of, same_chars};
use vstd::prelude::*;

verus! {

/// What is done with an entry of a directory.
#[derive(Clone, Copy, PartialEq, Eq, Debug, Structural)]
pub enum Verdict {
    /// The entry is passed over.
    Skip,
    /// The entry is a directory to walk.
    Descend,
    /// The entry is a file to count.
    Count,
}

/// Why a walk fails.
#[derive(Clone, Copy, PartialEq, Eq, Debug, Structural)]
pub enum WalkError {
    /// The configuration is refused.
    Config(ConfigError),
    /// No ignore file can be read.
    Ignore(IgnoreError),
    /// A total is too large for a `usize`.
    Overflow,
    /// The walker was handed something other than what it had asked for.
    OutOfTurn,
}

/// One entry of a directory as its listing gives it.
#[derive(Clone, Debug, PartialEq, Eq)]
pub struct DirEntry {
    /// The entry's own name, without the path to it.
    pub name: String,
    pub is_dir: bool,
}

/// A `DirEntry` as plain values.
pub struct Entry {
    pub name: Seq<char>,
    pub is_dir: bool,
}

/// What the walker waits for.
#[derive(Clone, Copy, PartialEq, Eq, Debug, Structural)]
pub enum Awaited {
    /// Whether the root is a directory.
    Root,
    /// The listing of the directory that was entered last.
    Listing,
    /// The text of that directory's ignore file.
    IgnoreFile,
    /// The text of a file to count.
    File,
    /// Nothing: the walker is to go on by itself.
    Nothing,
    /// Nothing: the walk is over.
    Finished,
}

/// What the driver is to do next. A path is given by the names from the root
/// down, the root itself left out.
#[derive(Clone, Debug, PartialEq, Eq)]
pub enum Action {
    /// List the directory at this path and hand the listing back.
    List(Vec<String>),
    /// Read the file at this path and hand its text back.
    Read(Vec<String>),
    /// Nothing is to be fetched: let the walker proceed.
    Proceed,
    /// The walk is over.
    Done,
}

/// An `Action` as plain values.
pub enum ActionView {
    List(Seq<Seq<char>>),
    Read(Seq<Seq<char>>),
    Proceed,
    Done,
}

/// What the driver hands to the walker.
#[derive(Clone, Debug, PartialEq, Eq)]
pub enum Event {
    /// The root was looked at: it is a directory, or a file.
    Root { is_dir: bool },
    /// The directory was listed.
    Listed(Vec<DirEntry>),
    /// The file was read.
    Read(String),
    /// Nothing was asked for.
    Proceed,
}

/// An `Event` as plain values.
pub enum EventView {
    Root { is_dir: bool },
    Listed(Seq<Entry>),
    Read(Seq<char>),
    Proceed,
}

/// A directory that is being walked.
struct Frame {
    name: String,
    entries: Vec<DirEntry>,
    next: usize,
    key: usize,
}

/// A directory that is being walked, as plain values.
pub struct FrameView {
    /// The directory's own name; the root's is empty.
    pub name: Seq<char>,
    /// Its listing, once that is there.
    pub entries: Seq<Entry>,
    /// The place of the entry that is judged next.
    pub next: int,
    /// The key under which the directory's ignore scope is open.
    pub key: usize,
}

/// The state of a walk as plain values.
pub struct WalkView {
    pub params: Params,
    /// The ignore scopes that are open.
    pub scopes: Seq<Scope>,
    /// The totals so far.
    pub totals: Totals,
    /// The directories that are being walked, from the root down.
    pub frames: Seq<FrameView>,
    pub awaited: Awaited,
}

/// The walker: a configuration, the ignore scopes that are open, the totals
/// so far, and the directories on the way from the root to where the walk is.
pub struct PathWalker {
    params: Params,
    scopes: IgnoreScopeStack,
    stats: CodeStats,
    frames: Vec<Frame>,
    awaited: Awaited,
}

/// `.gitignore`, the name of a directory's ignore file.
pub open spec fn ignore_file_name() -> Seq<char> {
    seq!['.', 'g', 'i', 't', 'i', 'g', 'n', 'o', 'r', 'e']
}

/// Whether an entry with this name is hidden: the name begins with a dot.
pub open spec fn is_hidden(name: Seq<char>) -> bool {
    name.len() > 0 && name.first() == '.'
}

/// Whether `name` ends with one of `extensions`.
pub open spec fn has_extension(name: Seq<char>, extensions: Seq<Seq<char>>) -> bool {
    exists|i: int| 0 <= i < extensions.len() && (#[trigger] extensions[i]).is_suffix_of(name)
}

/// The verdict on an entry that is not passed over for being hidden: it is
/// skipped where an open scope lists its name, a directory is walked, and a
/// file is counted where its name ends with one of the extensions.
pub open spec fn visible_verdict(params: Params, ignored: bool, name: Seq<char>, is_dir: bool)
    -> Verdict {
    if ignored {
        Verdict::Skip
    } else if is_dir {
        Verdict::Descend
    } else if has_extension(name, texts(params.extensions)) {
        Verdict::Count
    } else {
        Verdict::Skip
    }
}

/// The verdict on an entry, by its own name: unless hidden entries are asked
/// for, a hidden one is skipped, file or directory; the others are judged by
/// `visible_verdict`.
pub open spec fn verdict_of(params: Params, ignored: bool, name: Seq<char>, is_dir: bool)
    -> Verdict {
    if !params.hidden && is_hidden(name) {
        Verdict::Skip
    } else {
        visible_verdict(params, ignored, name, is_dir)
    }
}

/// What a file with this text adds to the totals.
pub open spec fn file_totals(text: Seq<char>, params: Params) -> Totals {
    Totals::zero().plus(counts_of(lines_of(text)), params)
}

impl View for DirEntry {
    type V = Entry;

    open spec fn view(&self) -> Entry {
        Entry { name: self.name@, is_dir: self.is_dir }
    }
}

/// The entries of a listing as plain values.
pub open spec fn entries_of(listing: Vec<DirEntry>) -> Seq<Entry> {
    listing@.map_values(|entry: DirEntry| entry@)
}

impl View for Frame {
    type V = FrameView;

    closed spec fn view(&self) -> FrameView {
        FrameView {
            name: self.name@,
            entries: entries_of(self.entries),
            next: self.next as int,
            key: self.key,
        }
    }
}

impl View for Action {
    type V = ActionView;

    open spec fn view(&self) -> ActionView {
        match *self {
            Action::List(path) => ActionView::List(texts(path)),
            Action::Read(path) => ActionView::Read(texts(path)),
            Action::Proceed => ActionView::Proceed,
            Action::Done => ActionView::Done,
        }
    }
}

impl View for Event {
    type V = EventView;

    open spec fn view(&self) -> EventView {
        match *self {
            Event::Root { is_dir } => EventView::Root { is_dir },
            Event::Listed(listing) => EventView::Listed(entries_of(listing)),
            Event::Read(text) => EventView::Read(text@),
            Event::Proceed => EventView::Proceed,
        }
    }
}

/// What a step answers, as plain values.
pub open spec fn answer_of(r: Result<Action, WalkError>) -> Result<ActionView, WalkError> {
    match r {
        Ok(action) => Ok(action@),
        Err(error) => Err(error),
    }
}

/// Whether an entry is a directory's ignore file: a file named `.gitignore`.
pub open spec fn is_ignore_entry(entry: Entry) -> bool {
    !entry.is_dir && entry.name == ignore_file_name()
}

/// The place of the ignore file among the first `n` of `entries`: that of the
/// first if there are several.
pub open spec fn ignore_index(entries: Seq<Entry>, n: nat) -> Option<int>
    decreases n,
{
    if n == 0 || n > entries.len() {
        None
    } else {
        match ignore_index(entries, (n - 1) as nat) {
            Some(i) => Some(i),
            None => if is_ignore_entry(entries[n - 1]) {
                Some(n - 1)
            } else {
                None
            },
        }
    }
}

impl WalkView {
    /// The directory that the walk is in.
    pub open spec fn top(self) -> FrameView {
        self.frames.last()
    }

    /// The state with another value for the directory that the walk is in.
    pub open spec fn with_top(self, frame: FrameView) -> WalkView {
        WalkView { frames: self.frames.drop_last().push(frame), ..self }
    }

    /// The path of the directory that the walk is in: the names from the
    /// root down, the root itself left out.
    pub open spec fn path(self) -> Seq<Seq<char>> {
        if self.frames.len() == 0 {
            Seq::empty()
        } else {
            Seq::new((self.frames.len() - 1) as nat, |i: int| self.frames[i + 1].name)
        }
    }

    /// The state at the start of a walk.
    pub open spec fn start(params: Params) -> WalkView {
        WalkView {
            params,
            scopes: Seq::empty(),
            totals: Totals::zero(),
            frames: Seq::empty(),
            awaited: Awaited::Root,
        }
    }

    /// The root was looked at. A directory is listed, whatever its name; a
    /// file is read, whatever its name.
    pub open spec fn rooted(self, is_dir: bool) -> (WalkView, Result<ActionView, WalkError>) {
        if is_dir {
            let root = FrameView { name: Seq::empty(), entries: Seq::empty(), next: 0, key: 0 };
            (
                WalkView { frames: seq![root], awaited: Awaited::Listing, ..self },
                Ok(ActionView::List(Seq::empty())),
            )
        } else {
            (WalkView { awaited: Awaited::File, ..self }, Ok(ActionView::Read(Seq::empty())))
        }
    }

    /// The directory that the walk is in was listed. Where the listing holds
    /// an ignore file, that file is read first; else the directory is entered
    /// without one.
    pub open spec fn listed(self, entries: Seq<Entry>) -> (WalkView, Result<
        ActionView,
        WalkError,
    >) {
        if self.frames.len() == 0 {
            (self, Err(WalkError::OutOfTurn))
        } else {
            let here = self.with_top(FrameView { entries, next: 0, ..self.top() });
            match ignore_index(entries, entries.len()) {
                Some(i) => (
                    WalkView { awaited: Awaited::IgnoreFile, ..here },
                    Ok(ActionView::Read(here.path().push(entries[i].name))),
                ),
                None => (here.opened(None), Ok(ActionView::Proceed)),
            }
        }
    }

    /// The state once the directory that the walk is in is entered, with the
    /// text of its ignore file if it has one: a scope may be opened, under a
    /// key that the directory keeps.
    pub open spec fn opened(self, ignore_file: Option<Seq<char>>) -> WalkView {
        let key = self.scopes.len() as usize;
        WalkView {
            scopes: entered(self.scopes, key, ignore_file),
            awaited: Awaited::Nothing,
            ..self.with_top(FrameView { key, ..self.top() })
        }
    }

    /// The ignore file of the directory that the walk is in was read.
    pub open spec fn ignore_file_read(self, text: Seq<char>) -> (WalkView, Result<
        ActionView,
        WalkError,
    >) {
        if self.frames.len() == 0 {
            (self, Err(WalkError::OutOfTurn))
        } else {
            (self.opened(Some(text)), Ok(ActionView::Proceed))
        }
    }

    /// A file to count was read. Where a total would overflow nothing changes.
    pub open spec fn file_read(self, text: Seq<char>) -> (WalkView, Result<ActionView, WalkError>) {
        let totals = self.totals.add(file_totals(text, self.params));
        if totals.fits() {
            (WalkView { totals, awaited: Awaited::Nothing, ..self }, Ok(ActionView::Proceed))
        } else {
            (self, Err(WalkError::Overflow))
        }
    }

    /// The walker goes on by itself: it judges the next entry of the
    /// directory that the walk is in, or leaves that directory after its last
    /// entry, or ends the walk where no directory is left.
    pub open spec fn proceeded(self) -> (WalkView, Result<ActionView, WalkError>) {
        if self.frames.len() == 0 {
            (WalkView { awaited: Awaited::Finished, ..self }, Ok(ActionView::Done))
        } else if 0 <= self.top().next < self.top().entries.len() {
            let entry = self.top().entries[self.top().next];
            let judged = self.with_top(FrameView { next: self.top().next + 1, ..self.top() });
            match verdict_of(
                self.params,
                listed(self.scopes, entry.name),
                entry.name,
                entry.is_dir,
            ) {
                Verdict::Skip => (judged, Ok(ActionView::Proceed)),
                Verdict::Count => (
                    WalkView { awaited: Awaited::File, ..judged },
                    Ok(ActionView::Read(judged.path().push(entry.name))),
                ),
                Verdict::Descend => {
                    let child = FrameView {
                        name: entry.name,
                        entries: Seq::empty(),
                        next: 0,
                        key: 0,
                    };
                    let below = WalkView {
                        frames: judged.frames.push(child),
                        awaited: Awaited::Listing,
                        ..judged
                    };
                    (below, Ok(ActionView::List(below.path())))
                },
            }
        } else {
            (
                WalkView {
                    scopes: without(self.scopes, self.top().key),
                    frames: self.frames.drop_last(),
                    ..self
                },
                Ok(ActionView::Proceed),
            )
        }
    }

    /// One step of the walk: what the state and the answer are after `event`.
    /// An event that was not awaited changes nothing.
    pub open spec fn step(self, event: EventView) -> (WalkView, Result<ActionView, WalkError>) {
        match (self.awaited, event) {
            (Awaited::Root, EventView::Root { is_dir }) => self.rooted(is_dir),
            (Awaited::Listing, EventView::Listed(entries)) => self.listed(entries),
            (Awaited::IgnoreFile, EventView::Read(text)) => self.ignore_file_read(text),
            (Awaited::File, EventView::Read(text)) => self.file_read(text),
            (Awaited::Nothing, EventView::Proceed) => self.proceeded(),
            _ => (self, Err(WalkError::OutOfTurn)),
        }
    }
}

/// Whether an entry is a directory's ignore file: a file named `.gitignore`.
pub fn is_ignore_file(name: &str, is_dir: bool) -> (b: bool)
    ensures
        b == (!is_dir && name@ == ignore_file_name()),
{
    if is_dir {
        return false;
    }
    let wanted: [char; 10] = ['.', 'g', 'i', 't', 'i', 'g', 'n', 'o', 'r', 'e'];
    assert(wanted@ =~= ignore_file_name());
    let chars = chars_of(name);
    same_chars(chars.as_slice(), wanted.as_slice())
}

/// Whether `name` ends with one of `extensions`.
pub fn name_has_extension(name: &[char], extensions: &Vec<String>) -> (b: bool)
    ensures
        b == has_extension(name@, texts(*extensions)),
{
    let mut i: usize = 0;
    while i < extensions.len()
        invariant
            i <= extensions@.len(),
            forall|j: int| 0 <= j < i ==> !(#[trigger] texts(*extensions)[j]).is_suffix_of(name@),
        decreases extensions@.len() - i,
    {
        let extension = chars_of(extensions[i].as_str());
        if has_suffix(name, extension.as_slice()) {
            assert(texts(*extensions)[i as int] == extension@);
            return true;
        }
        assert(texts(*extensions)[i as int] == extension@);
        i += 1;
    }
    false
}

impl View for PathWalker {
    type V = WalkView;

    closed spec fn view(&self) -> WalkView {
        WalkView {
            params: self.params,
            scopes: self.scopes@,
            totals: self.stats@,
            frames: self.frames@.map_values(|frame: Frame| frame@),
            awaited: self.awaited,
        }
    }
}

/// The place of the ignore file in a listing, if it holds one.
pub fn find_ignore_file(listing: &Vec<DirEntry>) -> (r: Option<usize>)
    ensures
        match r {
            Some(i) => ignore_index(entries_of(*listing), listing@.len()) == Some(i as int) && i
                < listing@.len(),
            None => ignore_index(entries_of(*listing), listing@.len()) is None,
        },
{
    let mut i: usize = 0;
    while i < listing.len()
        invariant
            i <= listing@.len(),
            ignore_index(entries_of(*listing), i as nat) is None,
        decreases listing@.len() - i,
    {
        if is_ignore_file(listing[i].name.as_str(), listing[i].is_dir) {
            proof {
                assert(entries_of(*listing)[i as int] == listing@[i as int]@);
                lemma_ignore_index_found(entries_of(*listing), (i + 1) as nat, listing@.len());
            }
            return Some(i);
        }
        assert(entries_of(*listing)[i as int] == listing@[i as int]@);
        i += 1;
    }
    None
}

/// Once an ignore file is found among the first entries, it is the one.
proof fn lemma_ignore_index_found(entries: Seq<Entry>, few: nat, many: nat)
    requires
        few <= many <= entries.len(),
        ignore_index(entries, few) is Some,
    ensures
        ignore_index(entries, many) == ignore_index(entries, few),
    decreases many,
{
    if few < many {
        lemma_ignore_index_found(entries, few, (many - 1) as nat);
    }
}

impl PathWalker {
    /// A walker at the start of a walk, where the configuration is fit for
    /// one and ignore files can be read. The configuration is checked first.
    pub fn new(params: Params) -> (r: Result<PathWalker, WalkError>)
        ensures
            r matches Err(WalkError::Config(_)) <==> !params.well_formed(),
            r matches Err(WalkError::Config(error)) ==> (error == ConfigError::NoExtensions
                <==> params.extensions@.len() == 0),
            r matches Err(WalkError::Ignore(_)) <==> params.well_formed() && !syntax_accepted(),
            r matches Err(WalkError::Ignore(error)) ==> (error == IgnoreError::LeadingMark
                <==> !regex_accepts(leading_mark())),
            r is Ok <==> params.well_formed() && syntax_accepted(),
            r matches Ok(walker) ==> walker@ == WalkView::start(params)
                && walker@.scoped_by_path(),
    {
        match params.validate() {
            Ok(_) => {},
            Err(error) => {
                return Err(WalkError::Config(error));
            },
        }
        match IgnoreScopeStack::new() {
            Ok(scopes) => {
                let walker = PathWalker {
                    params,
                    scopes,
                    stats: CodeStats::new(),
                    frames: Vec::new(),
                    awaited: Awaited::Root,
                };
                assert(walker@.frames =~= Seq::empty());
                Ok(walker)
            },
            Err(error) => Err(WalkError::Ignore(error)),
        }
    }

    /// The verdict on an entry of the directory that the walk is in.
    pub fn verdict(&self, name: &str, is_dir: bool) -> (v: Verdict)
        ensures
            v == verdict_of(self@.params, listed(self@.scopes, name@), name@, is_dir),
    {
        let chars = chars_of(name);
        if !self.params.hidden && chars.len() > 0 && chars[0] == '.' {
            Verdict::Skip
        } else if self.scopes.is_ignored(name) {
            Verdict::Skip
        } else if is_dir {
            Verdict::Descend
        } else if name_has_extension(chars.as_slice(), &self.params.extensions) {
            Verdict::Count
        } else {
            Verdict::Skip
        }
    }

    /// There are no more open scopes than a `usize` can count.
    pub proof fn lemma_scopes_bounded(&self)
        ensures
            self@.scopes.len() <= usize::MAX,
    {
        self.scopes.lemma_len_bounded();
    }

    /// What the walker waits for.
    pub fn awaited(&self) -> (awaited: Awaited)
        ensures
            awaited == self@.awaited,
    {
        self.awaited
    }

    /// The totals so far.
    pub fn stats(&self) -> (stats: &CodeStats)
        ensures
            stats@ == self@.totals,
    {
        &self.stats
    }

    /// Ends the walk.
    pub fn finish(self) -> (stats: CodeStats)
        ensures
            stats@ == self@.totals,
    {
        self.stats
    }

    /// The path of the directory that the walk is in.
    fn path(&self) -> (path: Vec<String>)
        ensures
            texts(path) == self@.path(),
    {
        let mut path: Vec<String> = Vec::new();
        if self.frames.len() == 0 {
            assert(texts(path) =~= Seq::empty());
            return path;
        }
        let mut i: usize = 1;
        assert(texts(path) =~= Seq::new(0nat, |k: int| self@.frames[k + 1].name));
        while i < self.frames.len()
            invariant
                1 <= i <= self.frames@.len(),
                texts(path) == Seq::new((i - 1) as nat, |k: int| self@.frames[k + 1].name),
            decreases self.frames@.len() - i,
        {
            let name = self.frames[i].name.clone();
            let ghost before = texts(path);
            path.push(name);
            assert(texts(path) =~= before.push(name@));
            assert(texts(path) =~= Seq::new(i as nat, |k: int| self@.frames[k + 1].name));
            i += 1;
        }
        path
    }

    /// Replaces the directory that the walk is in.
    fn set_top(&mut self, frame: Frame)
        requires
            old(self)@.frames.len() > 0,
        ensures
            final(self)@ == old(self)@.with_top(frame@),
    {
        let ghost before = self@.frames;
        let _ = self.frames.pop();
        self.frames.push(frame);
        assert(self@.frames =~= before.drop_last().push(frame@));
    }

    /// Enters the directory that the walk is in.
    fn open(&mut self, ignore_file: Option<&str>)
        requires
            old(self)@.frames.len() > 0,
        ensures
            final(self)@ == old(self)@.opened(
                match ignore_file {
                    Some(text) => Some(text@),
                    None => None,
                },
            ),
    {
        let ghost before = self@;
        let key = self.scopes.len();
        self.scopes.enter(key, ignore_file);
        match self.frames.pop() {
            Some(frame) => {
                let keyed = Frame {
                    name: frame.name,
                    entries: frame.entries,
                    next: frame.next,
                    key,
                };
                self.frames.push(keyed);
                assert(self@.frames =~= before.frames.drop_last().push(
                    FrameView { key, ..before.top() },
                ));
            },
            None => {},
        }
        self.awaited = Awaited::Nothing;
    }

    /// One step of the walk. The walker takes what the driver hands it and
    /// answers with what is to be done next; what was not asked for is
    /// refused and changes nothing.
    pub fn step(&mut self, event: Event) -> (r: Result<Action, WalkError>)
        ensures
            (final(self)@, answer_of(r)) == old(self)@.step(event@),
            old(self)@.scoped_by_path() ==> final(self)@.scoped_by_path(),
    {
        proof {
            self.lemma_scopes_bounded();
            if self@.scoped_by_path() {
                lemma_step_keeps_scoped_by_path(self@, event@);
            }
        }
        match event {
            Event::Root { is_dir } => match self.awaited {
                Awaited::Root => self.take_root(is_dir),
                _ => Err(WalkError::OutOfTurn),
            },
            Event::Listed(listing) => match self.awaited {
                Awaited::Listing => self.take_listing(listing),
                _ => Err(WalkError::OutOfTurn),
            },
            Event::Read(text) => match self.awaited {
                Awaited::IgnoreFile => self.take_ignore_file(text.as_str()),
                Awaited::File => self.take_file(text.as_str()),
                _ => Err(WalkError::OutOfTurn),
            },
            Event::Proceed => match self.awaited {
                Awaited::Nothing => self.proceed(),
                _ => Err(WalkError::OutOfTurn),
            },
        }
    }

    /// Takes the answer on the root: a directory is listed, a file is read.
    fn take_root(&mut self, is_dir: bool) -> (r: Result<Action, WalkError>)
        ensures
            (final(self)@, answer_of(r)) == old(self)@.rooted(is_dir),
    {
        if is_dir {
            let root = Frame { name: String::new(), entries: Vec::new(), next: 0, key: 0 };
            assert(root@.entries =~= Seq::empty());
            self.frames = Vec::new();
            self.frames.push(root);
            self.awaited = Awaited::Listing;
            let path: Vec<String> = Vec::new();
            assert(self@.frames =~= seq![root@]);
            assert(texts(path) =~= Seq::empty());
            Ok(Action::List(path))
        } else {
            self.awaited = Awaited::File;
            let path: Vec<String> = Vec::new();
            assert(texts(path) =~= Seq::empty());
            Ok(Action::Read(path))
        }
    }

    /// Takes the listing of the directory that the walk is in, and reads its
    /// ignore file first where it has one.
    fn take_listing(&mut self, listing: Vec<DirEntry>) -> (r: Result<Action, WalkError>)
        ensures
            (final(self)@, answer_of(r)) == old(self)@.listed(entries_of(listing)),
    {
        let ghost before = self@;
        match self.frames.pop() {
            None => Err(WalkError::OutOfTurn),
            Some(frame) => {
                let found = find_ignore_file(&listing);
                let name: Option<String> = match found {
                    Some(i) => {
                        assert(entries_of(listing)[i as int] == listing@[i as int]@);
                        Some(listing[i].name.clone())
                    },
                    None => None,
                };
                let here = Frame { name: frame.name, entries: listing, next: 0, key: frame.key };
                self.frames.push(here);
                assert(self@.frames =~= before.frames.drop_last().push(here@));
                match name {
                    Some(name) => {
                        let mut path = self.path();
                        let ghost above = texts(path);
                        path.push(name);
                        assert(texts(path) =~= above.push(name@));
                        self.awaited = Awaited::IgnoreFile;
                        Ok(Action::Read(path))
                    },
                    None => {
                        self.open(None);
                        Ok(Action::Proceed)
                    },
                }
            },
        }
    }

    /// Takes the text of the ignore file of the directory that the walk is in.
    fn take_ignore_file(&mut self, text: &str) -> (r: Result<Action, WalkError>)
        ensures
            (final(self)@, answer_of(r)) == old(self)@.ignore_file_read(text@),
    {
        if self.frames.len() == 0 {
            Err(WalkError::OutOfTurn)
        } else {
            self.open(Some(text));
            Ok(Action::Proceed)
        }
    }

    /// Takes the text of a file and counts its lines.
    fn take_file(&mut self, text: &str) -> (r: Result<Action, WalkError>)
        ensures
            (final(self)@, answer_of(r)) == old(self)@.file_read(text@),
    {
        if try_count_lines(text, &self.params, &mut self.stats) {
            self.awaited = Awaited::Nothing;
            Ok(Action::Proceed)
        } else {
            Err(WalkError::Overflow)
        }
    }

    /// Judges the next entry, or leaves the directory after its last entry, or
    /// ends the walk.
    fn proceed(&mut self) -> (r: Result<Action, WalkError>)
        ensures
            (final(self)@, answer_of(r)) == old(self)@.proceeded(),
    {
        let ghost before = self@;
        match self.frames.pop() {
            None => {
                self.awaited = Awaited::Finished;
                assert(self@.frames =~= before.frames);
                Ok(Action::Done)
            },
            Some(frame) => {
                if frame.next < frame.entries.len() {
                    let name = frame.entries[frame.next].name.clone();
                    let is_dir = frame.entries[frame.next].is_dir;
                    assert(frame@.entries[frame.next as int] == frame.entries@[frame.next as int]@);
                    let verdict = self.verdict(name.as_str(), is_dir);
                    let judged = Frame {
                        name: frame.name,
                        entries: frame.entries,
                        next: frame.next + 1,
                        key: frame.key,
                    };
                    self.frames.push(judged);
                    assert(self@.frames =~= before.frames.drop_last().push(judged@));
                    match verdict {
                        Verdict::Skip => Ok(Action::Proceed),
                        Verdict::Count => {
                            let mut path = self.path();
                            let ghost above = texts(path);
                            path.push(name);
                            assert(texts(path) =~= above.push(name@));
                            self.awaited = Awaited::File;
                            Ok(Action::Read(path))
                        },
                        Verdict::Descend => {
                            let ghost above = self@.frames;
                            let child = Frame { name, entries: Vec::new(), next: 0, key: 0 };
                            assert(child@.entries =~= Seq::empty());
                            self.frames.push(child);
                            assert(self@.frames =~= above.push(child@));
                            self.awaited = Awaited::Listing;
                            Ok(Action::List(self.path()))
                        },
                    }
                } else {
                    self.scopes.leave(frame.key);
                    assert(self@.frames =~= before.frames.drop_last());
                    Ok(Action::Proceed)
                }
            },
        }
    }
}

/// Unless hidden entries are asked for, an entry whose own name begins with a
/// dot is skipped, file or directory. Where they are asked for, the dot
/// decides nothing: the entry is judged as any other.
pub proof fn lemma_hidden_entries(params: Params, ignored: bool, name: Seq<char>, is_dir: bool)
    ensures
        !params.hidden && is_hidden(name) ==> verdict_of(params, ignored, name, is_dir)
            == Verdict::Skip,
        params.hidden ==> verdict_of(params, ignored, name, is_dir) == visible_verdict(
            params,
            ignored,
            name,
            is_dir,
        ),
{
}

impl WalkView {
    /// The number of directories on the path that have been entered: all of
    /// them, but for the last while its listing or its ignore file is awaited.
    pub open spec fn entered_dirs(self) -> int {
        if self.awaited == Awaited::Listing || self.awaited == Awaited::IgnoreFile {
            self.frames.len() - 1
        } else {
            self.frames.len() as int
        }
    }

    /// The number of scopes that were open when the `j`-th directory on the
    /// path was entered; past the last of them, the number that are open now.
    pub open spec fn scopes_at(self, j: int) -> int {
        if 0 <= j < self.entered_dirs() {
            self.frames[j].key as int
        } else {
            self.scopes.len() as int
        }
    }

    /// The number of scopes that the `j`-th directory on the path owns.
    pub open spec fn scopes_of(self, j: int) -> int {
        self.scopes_at(j + 1) - self.scopes_at(j)
    }

    /// Whether the open scopes are those of the directories on the path and
    /// of no other: they are keyed by their place, none was open when the
    /// root was entered, and each directory on the path owns one or none.
    /// Before the root is looked at there is no path.
    pub open spec fn scoped_by_path(self) -> bool {
        &&& keyed_by_place(self.scopes)
        &&& self.awaited == Awaited::Root ==> self.frames.len() == 0
        &&& 0 <= self.entered_dirs()
        &&& self.scopes_at(0) == 0
        &&& forall|j: int| 0 <= j < self.entered_dirs() ==> 0 <= #[trigger] self.scopes_of(j) <= 1
    }
}

/// At the start of a walk no scope is open.
pub proof fn lemma_start_scoped_by_path(params: Params)
    ensures
        WalkView::start(params).scoped_by_path(),
        WalkView::start(params).scopes.len() == 0,
{
}

/// Whatever the walker is handed, the open scopes stay those of the
/// directories on the path: a scope is opened when a directory is entered and
/// closed when that directory is left, and no step touches another.
pub proof fn lemma_step_keeps_scoped_by_path(state: WalkView, event: EventView)
    requires
        state.scoped_by_path(),
        state.scopes.len() <= usize::MAX,
    ensures
        state.step(event).0.scoped_by_path(),
{
    let next = state.step(event).0;
    let dirs = state.entered_dirs();
    match (state.awaited, event) {
        (Awaited::Root, EventView::Root { is_dir }) => {},
        (Awaited::File, EventView::Read(text)) => {
            assert forall|j: int| 0 <= j < next.entered_dirs() implies 0
                <= #[trigger] next.scopes_of(j) <= 1 by {
                assert(next.scopes_of(j) == state.scopes_of(j));
            }
        },
        (Awaited::Listing, EventView::Listed(entries)) => {
            if state.frames.len() > 0 {
                let here = state.with_top(FrameView { entries, next: 0, ..state.top() });
                match ignore_index(entries, entries.len()) {
                    Some(_) => {
                        assert forall|j: int| 0 <= j < next.entered_dirs() implies 0
                            <= #[trigger] next.scopes_of(j) <= 1 by {
                            assert(next.scopes_of(j) == state.scopes_of(j));
                        }
                    },
                    None => {
                        let listed = WalkView { awaited: Awaited::IgnoreFile, ..here };
                        lemma_listing_keeps_marks(state, entries);
                        lemma_opened_scoped_by_path(listed, None);
                        assert(here.opened(None) == listed.opened(None));
                    },
                }
            }
        },
        (Awaited::IgnoreFile, EventView::Read(text)) => {
            if state.frames.len() > 0 {
                lemma_opened_scoped_by_path(state, Some(text));
            }
        },
        (Awaited::Nothing, EventView::Proceed) => {
            if state.frames.len() == 0 {
            } else if 0 <= state.top().next < state.top().entries.len() {
                assert forall|j: int| 0 <= j < next.entered_dirs() implies 0
                    <= #[trigger] next.scopes_of(j) <= 1 by {
                    assert(next.scopes_of(j) == state.scopes_of(j));
                }
            } else {
                let key = state.top().key;
                assert(state.scopes_of(dirs - 1) == state.scopes.len() - key);
                if state.scopes.len() == key {
                    lemma_without_absent(state.scopes, key);
                } else {
                    lemma_without_absent(state.scopes.drop_last(), key);
                }
                assert(next.scopes.len() == key);
                assert forall|j: int| 0 <= j < next.entered_dirs() implies 0
                    <= #[trigger] next.scopes_of(j) <= 1 by {
                    assert(next.scopes_of(j) == state.scopes_of(j));
                }
            }
        },
        _ => {},
    }
}

/// Taking a listing changes nothing of the directories that were entered.
proof fn lemma_listing_keeps_marks(state: WalkView, entries: Seq<Entry>)
    requires
        state.awaited == Awaited::Listing,
        state.frames.len() > 0,
        state.scoped_by_path(),
    ensures
        (WalkView {
            awaited: Awaited::IgnoreFile,
            ..state.with_top(FrameView { entries, next: 0, ..state.top() })
        }).scoped_by_path(),
{
    let here = WalkView {
        awaited: Awaited::IgnoreFile,
        ..state.with_top(FrameView { entries, next: 0, ..state.top() })
    };
    assert forall|j: int| 0 <= j < here.entered_dirs() implies 0 <= #[trigger] here.scopes_of(j)
        <= 1 by {
        assert(here.scopes_of(j) == state.scopes_of(j));
    }
}

/// Entering the last directory on the path opens its scope, if it has one,
/// after those of the directories above it.
proof fn lemma_opened_scoped_by_path(state: WalkView, ignore_file: Option<Seq<char>>)
    requires
        state.awaited == Awaited::Listing || state.awaited == Awaited::IgnoreFile,
        state.frames.len() > 0,
        state.scoped_by_path(),
        state.scopes.len() <= usize::MAX,
    ensures
        state.opened(ignore_file).scoped_by_path(),
{
    let next = state.opened(ignore_file);
    let dirs = state.entered_dirs();
    lemma_enter_then_leave(state.scopes, ignore_file);
    lemma_without_absent(state.scopes, state.scopes.len() as usize);
    assert(next.entered_dirs() == dirs + 1);
    assert(next.scopes_at(dirs) == state.scopes.len());
    assert forall|j: int| 0 <= j < next.entered_dirs() implies 0 <= #[trigger] next.scopes_of(j)
        <= 1 by {
        if j < dirs {
            assert(next.scopes_of(j) == state.scopes_of(j));
        }
    }
}

/// Every open scope is owned by a directory on the path: none is left of a
/// directory beside the path, or of one below a directory that was left.
pub proof fn lemma_scope_owner_on_path(state: WalkView, i: int)
    requires
        state.scoped_by_path(),
        0 <= i < state.scopes.len(),
    ensures
        exists|j: int| 0 <= j < state.entered_dirs() && #[trigger] state.frames[j].key == i,
{
    lemma_owner_before(state, i, state.entered_dirs());
}

/// A scope that was open when the `t`-th directory on the path was entered, or
/// is open now, was opened by a directory before that one.
proof fn lemma_owner_before(state: WalkView, i: int, t: int)
    requires
        state.scoped_by_path(),
        0 <= i,
        0 <= t <= state.entered_dirs(),
        state.scopes_at(t) > i,
    ensures
        exists|j: int| 0 <= j < t && #[trigger] state.frames[j].key == i,
    decreases t,
{
    if t > 0 {
        assert(0 <= state.scopes_of(t - 1) <= 1);
        if state.scopes_at(t - 1) > i {
            lemma_owner_before(state, i, t - 1);
        } else {
            assert(state.frames[t - 1].key == i);
        }
    }
}

/// An entry that is skipped is passed over: the walker goes on to the next
/// entry, asks for nothing to be listed or read, and counts nothing. So an
/// entry that is hidden where hidden entries are not asked for, or whose name
/// an open scope lists, is left out of both the count and the descent.
pub proof fn lemma_skipped_is_passed_over(state: WalkView)
    requires
        state.awaited == Awaited::Nothing,
        state.frames.len() > 0,
        0 <= state.top().next < state.top().entries.len(),
        ({
            let entry = state.top().entries[state.top().next];
            (!state.params.hidden && is_hidden(entry.name)) || listed(state.scopes, entry.name)
        }),
    ensures
        state.step(EventView::Proceed).1 == Ok::<ActionView, WalkError>(ActionView::Proceed),
        state.step(EventView::Proceed).0 == state.with_top(
            FrameView { next: state.top().next + 1, ..state.top() },
        ),
{
}

} // verus!
