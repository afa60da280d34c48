//! What a caller may ask for, each part optional.

use vstd::prelude::*;

verus! {

/// The options of a run as they are given: no list of extensions and no path
/// mean the defaults.
#[derive(Clone, Debug)]
pub struct Args {
    pub extensions: Option<Vec<String>>,
    pub path: Option<String>,
    pub verbose: bool,
    pub hidden: bool,
    pub docs: bool,
    pub comments: bool,
    pub fixme: bool,
    pub todo: bool,
    pub units: bool,
    pub ratio: bool,
    pub json: bool,
}

} // verus!
