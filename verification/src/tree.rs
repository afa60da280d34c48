//! The walk over a tree that is held in memory, and what is true of every
//! walk.
//!
//! The totals of a walk are said here once, by the shape of the tree alone;
//! `walk_tree` drives the walker through a tree and ends with those totals.

use crate::code_stats::{CodeStats, Totals};
use crate::ignore::{
    ignore_patterns, keyed_by_place, leading_mark, lemma_enter_then_leave, lemma_without_absent,
    listed, regex_accepts, syntax_accepted, without, IgnoreError, Scope,
};
use crate::params::{ConfigError, Params};
use crate::walker::{
    entries_of, file_totals, ignore_file_name, ignore_index, is_hidden, is_ignore_file,
    verdict_of, Action, Awaited, DirEntry, Entry, Event, FrameView, PathWalker, Verdict,
    WalkError,
};
use vstd::pervasive::unreached;
use vstd::prelude::*;

verus! {

/// A file or a directory, with what the walk reads of it.
pub enum Node {
    File { name: String, text: String },
    Dir { name: String, children: Vec<Node> },
}

impl Node {
    /// The node's own name, without the path to it.
    pub open spec fn name(self) -> Seq<char> {
        match self {
            Node::File { name, .. } => name@,
            Node::Dir { name, .. } => name@,
        }
    }

    /// The node as an entry of a listing.
    pub open spec fn entry(self) -> Entry {
        Entry { name: self.name(), is_dir: self is Dir }
    }

    /// Whether the node is a directory's ignore file.
    pub open spec fn is_ignore_file(self) -> bool {
        self is File && self.name() == ignore_file_name()
    }
}

/// The text of the ignore file among the first `n` of `children`: that of the
/// first if there are several.
pub open spec fn ignore_text(children: Seq<Node>, n: nat) -> Option<Seq<char>>
    decreases n,
{
    if n == 0 || n > children.len() {
        None
    } else {
        match ignore_text(children, (n - 1) as nat) {
            Some(text) => Some(text),
            None => if children[n - 1].is_ignore_file() {
                Some(children[n - 1]->text@)
            } else {
                None
            },
        }
    }
}

/// The names that the ignore file of a directory with these entries lists.
pub open spec fn own_patterns(children: Seq<Node>) -> Seq<Seq<char>> {
    match ignore_text(children, children.len()) {
        Some(text) => ignore_patterns(text),
        None => Seq::empty(),
    }
}

/// What an entry adds to the totals, judged under the names in `active`: a
/// skipped entry nothing, a file its own lines, a directory what its entries
/// add.
pub open spec fn node_totals(node: Node, active: Seq<Seq<char>>, params: Params) -> Totals
    decreases node, 0nat,
{
    match verdict_of(params, active.contains(node.name()), node.name(), node is Dir) {
        Verdict::Skip => Totals::zero(),
        Verdict::Count => match node {
            Node::File { text, .. } => file_totals(text@, params),
            Node::Dir { .. } => Totals::zero(),
        },
        Verdict::Descend => match node {
            Node::File { .. } => Totals::zero(),
            Node::Dir { children, .. } => dir_totals(children, active, params),
        },
    }
}

/// The names under which the entries of a directory are judged that is
/// entered under the names in `active`: those, and the names of its own
/// ignore file.
pub open spec fn judged_under(children: Seq<Node>, active: Seq<Seq<char>>) -> Seq<Seq<char>> {
    active + own_patterns(children)
}

/// What a directory adds that is entered under the names in `active`.
pub open spec fn dir_totals(children: Vec<Node>, active: Seq<Seq<char>>, params: Params)
    -> Totals
    decreases children, children@.len() + 1,
{
    entries_totals(children, children@.len(), judged_under(children@, active), params)
}

/// The names under which the entries of a directory further down are judged:
/// the directory reached from one with these entries, entered under the names
/// in `active`, by taking at each level the entry whose place `path` gives.
pub open spec fn judged_below(children: Seq<Node>, active: Seq<Seq<char>>, path: Seq<int>) -> Seq<
    Seq<char>,
>
    decreases path.len(),
{
    let here = judged_under(children, active);
    if path.len() > 0 && 0 <= path.first() < children.len() {
        match children[path.first()] {
            Node::Dir { children: inner, .. } => judged_below(inner@, here, path.drop_first()),
            Node::File { .. } => here,
        }
    } else {
        here
    }
}

/// What the first `n` entries of a directory add, judged under the names in
/// `active`.
pub open spec fn entries_totals(
    children: Vec<Node>,
    n: nat,
    active: Seq<Seq<char>>,
    params: Params,
) -> Totals
    decreases children, n,
{
    if n == 0 || n > children@.len() {
        Totals::zero()
    } else {
        entries_totals(children, (n - 1) as nat, active, params).add(
            node_totals(children@[n - 1], active, params),
        )
    }
}

/// The totals of a walk from `root`. A root that is a file is counted whatever
/// its name; a root that is a directory is entered whatever its name.
pub open spec fn walk_totals(root: Node, params: Params) -> Totals {
    match root {
        Node::File { text, .. } => file_totals(text@, params),
        Node::Dir { children, .. } => dir_totals(children, Seq::empty(), params),
    }
}

/// Unless hidden entries are asked for, an entry whose own name begins with a
/// dot adds nothing to the totals, nor does anything below it.
pub proof fn lemma_hidden_adds_nothing(node: Node, active: Seq<Seq<char>>, params: Params)
    requires
        !params.hidden,
        is_hidden(node.name()),
    ensures
        node_totals(node, active, params) == Totals::zero(),
{
}

/// An entry whose name is among those it is judged under is skipped, file or
/// directory, and adds nothing to the totals, nor does anything below it.
pub proof fn lemma_listed_adds_nothing(node: Node, active: Seq<Seq<char>>, params: Params)
    requires
        active.contains(node.name()),
    ensures
        verdict_of(params, true, node.name(), node is Dir) == Verdict::Skip,
        node_totals(node, active, params) == Totals::zero(),
{
}

/// A name that the entries of a directory are judged under, for being listed
/// in its own ignore file or in one above, is among the names under which the
/// entries of every directory below it are judged, however far down.
pub proof fn lemma_listed_above_reaches_below(
    children: Seq<Node>,
    active: Seq<Seq<char>>,
    path: Seq<int>,
    name: Seq<char>,
)
    requires
        judged_under(children, active).contains(name),
    ensures
        judged_below(children, active, path).contains(name),
    decreases path.len(),
{
    let here = judged_under(children, active);
    if path.len() > 0 && 0 <= path.first() < children.len() {
        match children[path.first()] {
            Node::Dir { children: inner, .. } => {
                let i = choose|i: int| 0 <= i < here.len() && here[i] == name;
                assert(judged_under(inner@, here)[i] == name);
                lemma_listed_above_reaches_below(inner@, here, path.drop_first(), name);
            },
            Node::File { .. } => {},
        }
    }
}

/// A name listed in the ignore file of a directory, or in one above it,
/// excludes the entries of that name at any depth below: such an entry is
/// skipped and adds nothing to the totals.
pub proof fn lemma_ignored_at_any_depth(
    children: Seq<Node>,
    active: Seq<Seq<char>>,
    path: Seq<int>,
    entry: Node,
    params: Params,
)
    requires
        judged_under(children, active).contains(entry.name()),
    ensures
        node_totals(entry, judged_below(children, active, path), params) == Totals::zero(),
{
    lemma_listed_above_reaches_below(children, active, path, entry.name());
    lemma_listed_adds_nothing(entry, judged_below(children, active, path), params);
}

/// Whether `scopes` list the names in `active` and no others.
spec fn lists(scopes: Seq<Scope>, active: Seq<Seq<char>>) -> bool {
    forall|name: Seq<char>| #[trigger] listed(scopes, name) == active.contains(name)
}

/// One more scope lists its own names beside those listed before.
proof fn lemma_lists_push(scopes: Seq<Scope>, active: Seq<Seq<char>>, scope: Scope)
    requires
        lists(scopes, active),
    ensures
        lists(scopes.push(scope), active + scope.patterns),
{
    let more = scopes.push(scope);
    let names = active + scope.patterns;
    assert forall|name: Seq<char>| #[trigger] listed(more, name) == names.contains(name) by {
        if listed(more, name) {
            let i = choose|i: int|
                0 <= i < more.len() && (#[trigger] more[i]).patterns.contains(name);
            if i < scopes.len() {
                assert(more[i] == scopes[i]);
                assert(listed(scopes, name));
                assert(active.contains(name));
                let j = choose|j: int| 0 <= j < active.len() && active[j] == name;
                assert(names[j] == name);
            } else {
                let j = choose|j: int| 0 <= j < scope.patterns.len() && scope.patterns[j] == name;
                assert(names[active.len() + j] == name);
            }
        }
        if names.contains(name) {
            let k = choose|k: int| 0 <= k < names.len() && names[k] == name;
            if k < active.len() {
                assert(active[k] == name);
                assert(active.contains(name));
                assert(listed(scopes, name));
                let i = choose|i: int|
                    0 <= i < scopes.len() && (#[trigger] scopes[i]).patterns.contains(name);
                assert(more[i] == scopes[i]);
            } else {
                assert(scope.patterns[k - active.len()] == name);
                assert(scope.patterns.contains(name));
                assert(more[scopes.len() as int] == scope);
            }
        }
    }
}

/// The entries of a directory add no less than some of them do.
proof fn lemma_entries_grow(
    children: Vec<Node>,
    few: nat,
    many: nat,
    active: Seq<Seq<char>>,
    params: Params,
)
    requires
        few <= many <= children@.len(),
    ensures
        entries_totals(children, few, active, params).le(
            entries_totals(children, many, active, params),
        ),
    decreases many,
{
    if few < many {
        lemma_entries_grow(children, few, (many - 1) as nat, active, params);
    }
}

/// The listing of a directory with these entries.
pub open spec fn listing_of(children: Seq<Node>) -> Seq<Entry> {
    children.map_values(|node: Node| node.entry())
}

/// The ignore file that the walker finds in a listing is the one whose text
/// the directory's own names are read from.
proof fn lemma_ignore_file_of(children: Seq<Node>, n: nat)
    requires
        n <= children.len(),
    ensures
        match ignore_index(listing_of(children), n) {
            Some(i) => 0 <= i < n && children[i] is File && ignore_text(children, n) == Some(
                children[i]->text@,
            ),
            None => ignore_text(children, n) is None,
        },
    decreases n,
{
    if n > 0 {
        lemma_ignore_file_of(children, (n - 1) as nat);
        assert(listing_of(children)[n - 1] == children[n - 1].entry());
    }
}

/// The listing of a directory with these entries.
fn list(children: &Vec<Node>) -> (listing: Vec<DirEntry>)
    ensures
        entries_of(listing) == listing_of(children@),
{
    let mut listing: Vec<DirEntry> = Vec::new();
    let mut i: usize = 0;
    assert(entries_of(listing) =~= listing_of(children@.take(0)));
    while i < children.len()
        invariant
            i <= children@.len(),
            entries_of(listing) == listing_of(children@.take(i as int)),
        decreases children@.len() - i,
    {
        let entry = match &children[i] {
            Node::File { name, .. } => DirEntry { name: name.clone(), is_dir: false },
            Node::Dir { name, .. } => DirEntry { name: name.clone(), is_dir: true },
        };
        let ghost before = entries_of(listing);
        listing.push(entry);
        assert(entries_of(listing) =~= before.push(entry@));
        assert(listing_of(children@.take(i + 1)) =~= listing_of(children@.take(i as int)).push(
            children@[i as int].entry(),
        ));
        i += 1;
    }
    assert(children@.take(children@.len() as int) =~= children@);
    listing
}

/// The text of the ignore file among `children`, if there is one.
fn find_ignore_text(children: &Vec<Node>) -> (r: Option<&String>)
    ensures
        match r {
            Some(text) => ignore_text(children@, children@.len()) == Some(text@),
            None => ignore_text(children@, children@.len()) is None,
        },
{
    let mut i: usize = 0;
    while i < children.len()
        invariant
            i <= children@.len(),
            ignore_text(children@, i as nat) is None,
        decreases children@.len() - i,
    {
        match &children[i] {
            Node::File { name, text } => {
                if is_ignore_file(name.as_str(), false) {
                    proof {
                        lemma_ignore_text_found(children@, (i + 1) as nat, children@.len());
                    }
                    return Some(text);
                }
            },
            Node::Dir { .. } => {},
        }
        i += 1;
    }
    None
}

/// Once an ignore file is found among the first entries, it is the one.
proof fn lemma_ignore_text_found(children: Seq<Node>, few: nat, many: nat)
    requires
        few <= many <= children.len(),
        ignore_text(children, few) is Some,
    ensures
        ignore_text(children, many) == ignore_text(children, few),
    decreases many,
{
    if few < many {
        lemma_ignore_text_found(children, few, (many - 1) as nat);
    }
}

/// Drives the walker through a directory whose listing it waits for, judged
/// under the names in `active`, until it has left the directory again.
fn walk_dir(walker: &mut PathWalker, children: &Vec<Node>, Ghost(active): Ghost<Seq<Seq<char>>>)
    -> (r: Result<(), WalkError>)
    requires
        old(walker)@.awaited == Awaited::Listing,
        old(walker)@.frames.len() > 0,
        keyed_by_place(old(walker)@.scopes),
        lists(old(walker)@.scopes, active),
    ensures
        final(walker)@.params == old(walker)@.params,
        r is Ok ==> {
            &&& final(walker)@.awaited == Awaited::Nothing
            &&& final(walker)@.frames == old(walker)@.frames.drop_last()
            &&& final(walker)@.scopes == old(walker)@.scopes
            &&& final(walker)@.totals == old(walker)@.totals.add(
                dir_totals(*children, active, old(walker)@.params),
            )
        },
        r is Err ==> r == Err::<(), WalkError>(WalkError::Overflow) && !old(walker)@.totals.add(
            dir_totals(*children, active, old(walker)@.params),
        ).fits(),
    decreases children, children@.len() + 1,
{
    let ghost params = walker@.params;
    let ghost start = walker@.totals;
    let ghost outer = walker@.scopes;
    let ghost above = walker@.frames.drop_last();
    let ghost name = walker@.top().name;
    let ghost below = judged_under(children@, active);
    let ghost entries = listing_of(children@);
    proof {
        walker.lemma_scopes_bounded();
    }
    let ghost key = outer.len() as usize;
    proof {
        lemma_ignore_file_of(children@, children@.len());
        lemma_enter_then_leave(outer, ignore_text(children@, children@.len()));
        lemma_without_absent(outer, key);
    }
    let listing = list(children);
    let _ = walker.step(Event::Listed(listing));
    match find_ignore_text(children) {
        Some(text) => {
            let _ = walker.step(Event::Read(text.clone()));
        },
        None => {},
    }
    proof {
        match ignore_text(children@, children@.len()) {
            Some(text) if ignore_patterns(text).len() > 0 => {
                let scope = Scope { dir: key, patterns: ignore_patterns(text) };
                lemma_lists_push(outer, active, scope);
            },
            _ => {
                assert(below =~= active);
            },
        }
        assert(walker@.frames =~= above.push(FrameView { name, entries, next: 0, key }));
    }
    let ghost inner = walker@.scopes;
    let mut i: usize = 0;
    while i < children.len()
        invariant
            i <= children@.len(),
            old(walker)@.frames.len() > 0,
            params == old(walker)@.params,
            start == old(walker)@.totals,
            outer == old(walker)@.scopes,
            above == old(walker)@.frames.drop_last(),
            below == judged_under(children@, active),
            entries == listing_of(children@),
            walker@.params == params,
            walker@.awaited == Awaited::Nothing,
            walker@.scopes == inner,
            walker@.frames == above.push(FrameView { name, entries, next: i as int, key }),
            walker@.totals == start.add(entries_totals(*children, i as nat, below, params)),
            keyed_by_place(inner),
            lists(inner, below),
            without(inner, key) == outer,
        decreases children@.len() - i,
    {
        let ghost so_far = entries_totals(*children, i as nat, below, params);
        let ghost added = node_totals(children@[i as int], below, params);
        let ghost top = FrameView { name, entries, next: i + 1, key };
        proof {
            assert(entries[i as int] == children@[i as int].entry());
            assert(walker@.frames.drop_last() =~= above);
        }
        let answer = walker.step(Event::Proceed);
        let done: Result<(), WalkError> = match answer {
            Ok(Action::Proceed) => Ok(()),
            Ok(Action::Read(_)) => match &children[i] {
                Node::File { text, .. } => match walker.step(Event::Read(text.clone())) {
                    Ok(_) => Ok(()),
                    Err(error) => Err(error),
                },
                Node::Dir { .. } => unreached(),
            },
            Ok(Action::List(_)) => match &children[i] {
                Node::Dir { children: inside, .. } => {
                    proof {
                        assert(walker@.frames.drop_last() =~= above.push(top));
                    }
                    walk_dir(walker, inside, Ghost(below))
                },
                Node::File { .. } => unreached(),
            },
            Ok(Action::Done) => unreached(),
            Err(_) => unreached(),
        };
        match done {
            Ok(_) => {},
            Err(error) => {
                proof {
                    let all = entries_totals(*children, children@.len(), below, params);
                    lemma_entries_grow(*children, (i + 1) as nat, children@.len(), below, params);
                    assert(entries_totals(*children, (i + 1) as nat, below, params) == so_far.add(
                        added,
                    ));
                    assert(start.add(so_far).add(added).le(start.add(all)));
                    assert(dir_totals(*children, active, params) == all);
                }
                return Err(error);
            },
        }
        proof {
            assert(walker@.frames =~= above.push(top));
        }
        i += 1;
    }
    proof {
        assert(walker@.frames.drop_last() =~= above);
    }
    let _ = walker.step(Event::Proceed);
    Ok(())
}

/// Walks the tree under `root` and returns its totals.
pub fn walk_tree(root: &Node, params: Params) -> (r: Result<CodeStats, WalkError>)
    ensures
        r matches Err(WalkError::Config(_)) <==> !params.well_formed(),
        r matches Err(WalkError::Config(error)) ==> (error == ConfigError::NoExtensions
            <==> params.extensions@.len() == 0),
        r matches Err(WalkError::Ignore(_)) <==> params.well_formed() && !syntax_accepted(),
        r matches Err(WalkError::Ignore(error)) ==> (error == IgnoreError::LeadingMark
            <==> !regex_accepts(leading_mark())),
        r matches Err(WalkError::Overflow) <==> params.well_formed() && syntax_accepted()
            && !walk_totals(*root, params).fits(),
        !(r matches Err(WalkError::OutOfTurn)),
        r is Ok <==> params.well_formed() && syntax_accepted() && walk_totals(
            *root,
            params,
        ).fits(),
        r matches Ok(stats) ==> stats@ == walk_totals(*root, params),
{
    let mut walker = match PathWalker::new(params) {
        Ok(walker) => walker,
        Err(error) => {
            return Err(error);
        },
    };
    match root {
        Node::File { text, .. } => {
            let _ = walker.step(Event::Root { is_dir: false });
            match walker.step(Event::Read(text.clone())) {
                Ok(_) => {},
                Err(error) => {
                    return Err(error);
                },
            }
        },
        Node::Dir { children, .. } => {
            let _ = walker.step(Event::Root { is_dir: true });
            match walk_dir(&mut walker, children, Ghost(Seq::empty())) {
                Ok(_) => {},
                Err(error) => {
                    return Err(error);
                },
            }
            assert(walker@.frames =~= Seq::empty());
        },
    }
    let _ = walker.step(Event::Proceed);
    let stats = walker.finish();
    proof {
        stats.lemma_fits();
    }
    Ok(stats)
}

} // verus!
