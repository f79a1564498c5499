use vstd::prelude::*;

verus! {

/// What to do when a mapping arrives at a key that already holds a sequence,
/// e.g. `a.b:4` against `{"a": [1, 2, 3]}`.
#[derive(Clone, Copy, Debug, PartialEq, Eq, Structural)]
pub enum HowToDictInArray {
    /// The line is refused with `Error::HowToDictInArray`.
    GenerateError,
    /// The mapping becomes a new last element: `{"a": [1, 2, 3, {"b": 4}]}`.
    MergeDictInArray,
    /// The sequence moves under the key `"array"` of a new mapping, into which
    /// the incoming keys are merged: `{"a": {"array": [1, 2, 3], "b": 4}}`.
    MakeArrayAsDictValue,
}

/// Why a merge stopped.
#[derive(Clone, Copy, Debug, PartialEq, Eq, Structural)]
pub enum Error {
    /// A mapping met a sequence under the `GenerateError` policy.
    HowToDictInArray,
    /// A collision the merge does not define: a sequence arriving anywhere, or
    /// a scalar arriving at a mapping.
    UnsupportedMerge,
}

/// The engine's configuration.
#[derive(Debug)]
pub struct EngineOptions {
    /// Detail of the diagnostics the host prints; no effect on the document.
    pub verbosity: u8,
    pub how_to_dict_in_array: HowToDictInArray,
    /// Separates the dotted path from the value; its first occurrence counts.
    pub key_to_value_delimiter: String,
}

impl EngineOptions {
    /// Verbosity 0, the `GenerateError` policy and the delimiter `:`.
    pub fn new() -> (r: Self)
        ensures
            r.verbosity == 0,
            r.how_to_dict_in_array == HowToDictInArray::GenerateError,
            r.key_to_value_delimiter@ == seq![':'],
    {
        let d = String::from_str(":");
        proof {
            reveal_strlit(":");
        }
        EngineOptions {
            verbosity: 0,
            how_to_dict_in_array: HowToDictInArray::GenerateError,
            key_to_value_delimiter: d,
        }
    }

    pub fn with_verbosity(self, verbosity: u8) -> (r: Self)
        ensures
            r.verbosity == verbosity,
            r.how_to_dict_in_array == self.how_to_dict_in_array,
            r.key_to_value_delimiter == self.key_to_value_delimiter,
    {
        let mut s = self;
        s.verbosity = verbosity;
        s
    }

    pub fn with_how_to_dict_in_array(self, h: HowToDictInArray) -> (r: Self)
        ensures
            r.verbosity == self.verbosity,
            r.how_to_dict_in_array == h,
            r.key_to_value_delimiter == self.key_to_value_delimiter,
    {
        let mut s = self;
        s.how_to_dict_in_array = h;
        s
    }

    pub fn with_key_delimiter(self, k: String) -> (r: Self)
        ensures
            r.verbosity == self.verbosity,
            r.how_to_dict_in_array == self.how_to_dict_in_array,
            r.key_to_value_delimiter == k,
    {
        let mut s = self;
        s.key_to_value_delimiter = k;
        s
    }
}

} // verus!
