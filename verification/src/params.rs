//! The configuration of a run, with every default filled in.

use crate::args::Args;
use vstd::prelude::*;
use vstd::string::StringExecFns;

verus! {

/// The configuration that the walker and the classifier are handed.
#[derive(Clone, Debug)]
pub struct Params {
    /// The literal endings of the names of the files to count.
    pub extensions: Vec<String>,
    /// The root of the walk.
    pub path: String,
    pub verbose: bool,
    /// Entries whose name begins with a dot are visited too.
    pub hidden: bool,
    /// Documentation comments are counted.
    pub docs: bool,
    /// Line and block comments are counted.
    pub comments: bool,
    /// The number of `FIXME` markers is shown.
    pub fixme: bool,
    /// The number of `TODO` markers is shown.
    pub todo: bool,
    /// Declarations are counted.
    pub units: bool,
    /// The share of each kind of line is shown.
    pub ratio: bool,
    pub json: bool,
}

/// Why a configuration is refused.
#[derive(Clone, Copy, PartialEq, Eq, Debug, Structural)]
pub enum ConfigError {
    /// The list of extensions is empty.
    NoExtensions,
    /// One of the extensions is the empty text, which every name ends with.
    EmptyExtension,
}

/// `.rs`, the extension of the files in which declarations are looked for, and
/// the only one where none is given.
pub open spec fn rust_extension() -> Seq<char> {
    seq!['.', 'r', 's']
}

/// `.`, the directory a walk starts in where none is given.
pub open spec fn current_dir() -> Seq<char> {
    seq!['.']
}

/// The texts of a list, each as its characters.
pub open spec fn texts(list: Vec<String>) -> Seq<Seq<char>> {
    list.deep_view()
}

/// Whether one of `extensions` is `.rs`.
pub fn counts_rust(extensions: &Vec<String>) -> (b: bool)
    ensures
        b == texts(*extensions).contains(rust_extension()),
{
    let rs: String = String::from_str(".rs");
    proof {
        reveal_strlit(".rs");
        assert(rs@ =~= rust_extension());
    }
    let mut i: usize = 0;
    while i < extensions.len()
        invariant
            i <= extensions@.len(),
            rs@ == rust_extension(),
            forall|j: int| 0 <= j < i ==> texts(*extensions)[j] != rust_extension(),
        decreases extensions@.len() - i,
    {
        if extensions[i] == rs {
            assert(texts(*extensions)[i as int] == rust_extension());
            return true;
        }
        i += 1;
    }
    false
}

impl Params {
    /// Whether a walk can start: there is an extension to look for, and none
    /// of them is empty.
    pub open spec fn well_formed(&self) -> bool {
        &&& self.extensions@.len() > 0
        &&& forall|i: int| 0 <= i < self.extensions@.len() ==> self.extensions@[i]@.len() > 0
    }

    /// Fills in the defaults: the extension `.rs`, and the current directory.
    /// Declarations are counted only where they were asked for and `.rs` is
    /// among the extensions.
    pub fn from(value: Args) -> (params: Params)
        ensures
            texts(params.extensions) == match value.extensions {
                Some(list) => texts(list),
                None => seq![rust_extension()],
            },
            params.path@ == match value.path {
                Some(path) => path@,
                None => current_dir(),
            },
            params.units == (value.units && texts(params.extensions).contains(rust_extension())),
            params.verbose == value.verbose,
            params.hidden == value.hidden,
            params.docs == value.docs,
            params.comments == value.comments,
            params.fixme == value.fixme,
            params.todo == value.todo,
            params.ratio == value.ratio,
            params.json == value.json,
    {
        let extensions: Vec<String> = match value.extensions {
            Some(list) => list,
            None => {
                let rs: String = String::from_str(".rs");
                let mut list: Vec<String> = Vec::new();
                list.push(rs);
                proof {
                    reveal_strlit(".rs");
                    assert(rs@ =~= rust_extension());
                    assert(texts(list) =~= seq![rust_extension()]);
                }
                list
            },
        };
        let path: String = match value.path {
            Some(path) => path,
            None => {
                let here: String = String::from_str(".");
                proof {
                    reveal_strlit(".");
                    assert(here@ =~= current_dir());
                }
                here
            },
        };
        let units = value.units && counts_rust(&extensions);
        Params {
            extensions,
            path,
            verbose: value.verbose,
            hidden: value.hidden,
            docs: value.docs,
            comments: value.comments,
            fixme: value.fixme,
            todo: value.todo,
            units,
            ratio: value.ratio,
            json: value.json,
        }
    }

    /// Checks the configuration before a walk starts.
    pub fn validate(&self) -> (r: Result<(), ConfigError>)
        ensures
            r is Ok <==> self.well_formed(),
            r == Err::<(), ConfigError>(ConfigError::NoExtensions) <==> self.extensions@.len()
                == 0,
            r == Err::<(), ConfigError>(ConfigError::EmptyExtension) <==> self.extensions@.len()
                > 0 && !self.well_formed(),
    {
        if self.extensions.len() == 0 {
            return Err(ConfigError::NoExtensions);
        }
        let mut i: usize = 0;
        while i < self.extensions.len()
            invariant
                i <= self.extensions@.len(),
                forall|j: int| 0 <= j < i ==> self.extensions@[j]@.len() > 0,
            decreases self.extensions@.len() - i,
        {
            if self.extensions[i].as_str().is_empty() {
                return Err(ConfigError::EmptyExtension);
            }
            i += 1;
        }
        Ok(())
    }
}

} // verus!
