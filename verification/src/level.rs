//! Log levels, and how a platform's level vocabulary maps onto them.
use vstd::prelude::*;

use crate::Error;
use crate::catalog::LevelNames;
use crate::text::{chars_eq_str, chars_of};

verus! {

/// The five log levels, in the order of their stored codes.
#[derive(Clone, Copy, PartialEq, Eq, Structural, Debug, Hash)]
pub enum Level {
    Error,
    Warning,
    Info,
    Verbose,
    Debug,
}

impl Level {
    /// The integer code a level is stored under.
    pub open spec fn code(self) -> u32 {
        match self {
            Level::Error => 0,
            Level::Warning => 1,
            Level::Info => 2,
            Level::Verbose => 3,
            Level::Debug => 4,
        }
    }

    pub fn as_code(&self) -> (r: u32)
        ensures
            r == self.code(),
    {
        match self {
            Level::Error => 0,
            Level::Warning => 1,
            Level::Info => 2,
            Level::Verbose => 3,
            Level::Debug => 4,
        }
    }

    /// The level a code stands for, when it is one.
    pub fn from_code(code: u32) -> (r: Option<Level>)
        ensures
            match r {
                Some(l) => l.code() == code,
                None => code > 4,
            },
    {
        match code {
            0 => Some(Level::Error),
            1 => Some(Level::Warning),
            2 => Some(Level::Info),
            3 => Some(Level::Verbose),
            4 => Some(Level::Debug),
            _ => None,
        }
    }

    /// What a level token maps to under a platform's vocabulary: the five
    /// names are tried in order; an unknown token is `NoSuchLevel`.
    pub open spec fn spec_from(s: Seq<char>, names: LevelNames) -> Option<Level> {
        if s == names.error@ {
            Some(Level::Error)
        } else if s == names.warn@ {
            Some(Level::Warning)
        } else if s == names.info@ {
            Some(Level::Info)
        } else if s == names.verbose@ {
            Some(Level::Verbose)
        } else if s == names.debug@ {
            Some(Level::Debug)
        } else {
            None
        }
    }

    /// Map a level token via the vocabulary.
    pub fn from_str(s: &str, level_names: &LevelNames) -> (r: Result<Level, Error>)
        ensures
            match r {
                Ok(l) => Level::spec_from(s@, *level_names) == Some(l),
                Err(e) => Level::spec_from(s@, *level_names) is None && (
                e matches Error::NoSuchLevel(t) && t@ == s@),
            },
    {
        let chars = chars_of(s);
        if chars_eq_str(&chars, level_names.error) {
            Ok(Level::Error)
        } else if chars_eq_str(&chars, level_names.warn) {
            Ok(Level::Warning)
        } else if chars_eq_str(&chars, level_names.info) {
            Ok(Level::Info)
        } else if chars_eq_str(&chars, level_names.verbose) {
            Ok(Level::Verbose)
        } else if chars_eq_str(&chars, level_names.debug) {
            Ok(Level::Debug)
        } else {
            Err(Error::NoSuchLevel(s.to_owned()))
        }
    }
}

} // verus!
