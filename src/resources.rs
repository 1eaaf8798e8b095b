//! Chip flash algorithms and the registry that finds one for a chip.

use vstd::prelude::*;
use crate::svd::RegisterMap;

verus! {

/// Unlocking the option bytes: the keys to write, in order, and the path of
/// the key register field.
#[derive(Debug, Clone)]
pub struct FlashOptionAlgo {
    pub unlock_key: Vec<String>,
    pub key_path: String,
}

/// Flash control of a chip family: unlock keys and key field for main flash,
/// the lock field, and the option-byte unlock.
#[derive(Debug, Clone)]
pub struct FlashAlgo {
    pub unlock_key: Vec<String>,
    pub key_path: String,
    pub lock_path: String,
    pub option: FlashOptionAlgo,
}

/// A chip family: the pattern its chip identifiers match, the name of its
/// register map, and its flash control.
#[derive(Debug, Clone)]
pub struct Algo {
    pub pattern: String,
    pub svd: String,
    pub flash: FlashAlgo,
}

#[verifier::external_type_specification]
#[verifier::external_body]
pub struct ExRegex(regex::Regex);

#[verifier::external_type_specification]
#[verifier::external_body]
pub struct ExRegexError(regex::Error);

/// Whether `pattern` is a regular expression that compiles.
pub uninterp spec fn regex_valid(pattern: Seq<char>) -> bool;

/// Whether the regular expression `pattern` matches somewhere in `text`.
pub uninterp spec fn regex_matches(pattern: Seq<char>, text: Seq<char>) -> bool;

/// A compiled chip-identifier pattern, with the text it was compiled from.
pub struct ChipPattern {
    source: String,
    re: regex::Regex,
}

impl ChipPattern {
    /// The text of the pattern.
    pub closed spec fn source(&self) -> Seq<char> {
        self.source@
    }

    /// Relies on `regex::Regex::new`: whether a pattern compiles depends on
    /// its text alone.
    #[verifier::external_body]
    fn compile(pattern: &str) -> (r: Result<ChipPattern, regex::Error>)
        ensures
            r is Ok <==> regex_valid(pattern@),
            r matches Ok(c) ==> c.source() == pattern@,
    {
        match regex::Regex::new(pattern) {
            Ok(re) => Ok(ChipPattern { source: pattern.to_string(), re }),
            Err(e) => Err(e),
        }
    }

    /// Relies on `regex::Regex::is_match`: whether the compiled pattern
    /// matches depends on its text and on `text` alone.
    #[verifier::external_body]
    fn is_match(&self, text: &str) -> (r: bool)
        ensures
            r == regex_matches(self.source(), text@),
    {
        self.re.is_match(text)
    }
}

/// One chip family of the registry.
pub struct AlgoEntry {
    pub pattern: ChipPattern,
    pub algo: Algo,
    pub map: RegisterMap,
}

/// Why a chip family cannot be added.
#[derive(Debug, Clone, Copy, PartialEq, Eq)]
pub enum RegistryError {
    /// The family's pattern is not a valid regular expression.
    BadPattern,
}

/// Index `i` is the first entry whose pattern matches `chip`.
pub open spec fn is_first_match(entries: Seq<AlgoEntry>, chip: Seq<char>, i: int) -> bool {
    &&& 0 <= i < entries.len()
    &&& regex_matches(entries[i].pattern.source(), chip)
    &&& forall|j: int| 0 <= j < i ==> !regex_matches(#[trigger] entries[j].pattern.source(), chip)
}

/// The chip families known to the flasher, in the order they were added.
pub struct AlgoRegistry {
    pub entries: Vec<AlgoEntry>,
}

impl AlgoRegistry {
    /// A registry without entries.
    pub fn new() -> (r: AlgoRegistry)
        ensures
            r.entries@.len() == 0,
    {
        AlgoRegistry { entries: Vec::new() }
    }

    /// Adds a chip family after all the others, with its register map.
    ///
    /// Fails, and leaves the registry as it was, when the family's pattern
    /// does not compile.
    pub fn add(&mut self, algo: Algo, map: RegisterMap) -> (r: Result<(), RegistryError>)
        ensures
            r is Ok <==> regex_valid(algo.pattern@),
            r is Ok ==> {
                &&& final(self).entries@.len() == old(self).entries@.len() + 1
                &&& final(self).entries@.drop_last() == old(self).entries@
                &&& final(self).entries@.last().pattern.source() == algo.pattern@
                &&& final(self).entries@.last().algo == algo
                &&& final(self).entries@.last().map == map
            },
            r is Err ==> final(self).entries@ == old(self).entries@,
    {
        match ChipPattern::compile(algo.pattern.as_str()) {
            Ok(pattern) => {
                self.entries.push(AlgoEntry { pattern, algo, map });
                assert(self.entries@.drop_last() =~= old(self).entries@);
                Ok(())
            },
            Err(_) => Err(RegistryError::BadPattern),
        }
    }

    /// The first family, in the order they were added, whose pattern matches
    /// `chip`; `None` when no pattern matches.
    pub fn find(&self, chip: &str) -> (r: Option<&AlgoEntry>)
        ensures
            r is None <==> forall|i: int|
                0 <= i < self.entries@.len() ==> !regex_matches(
                    #[trigger] self.entries@[i].pattern.source(),
                    chip@,
                ),
            r matches Some(e) ==> exists|i: int|
                is_first_match(self.entries@, chip@, i) && *e == #[trigger] self.entries@[i],
    {
        let mut i: usize = 0;
        while i < self.entries.len()
            invariant
                0 <= i <= self.entries@.len(),
                forall|j: int| 0 <= j < i ==> !regex_matches(#[trigger] self.entries@[j].pattern.source(), chip@),
            decreases self.entries@.len() - i,
        {
            if self.entries[i].pattern.is_match(chip) {
                assert(is_first_match(self.entries@, chip@, i as int));
                return Some(&self.entries[i]);
            }
            i = i + 1;
        }
        None
    }
}

} // verus!
