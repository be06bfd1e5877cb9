use crate::limits::{default_limits, NbtLimits};
use vstd::prelude::*;

verus! {

/// How tolerant a decoder is of inputs that deviate from the canonical format.
#[derive(Debug, Clone, Copy, PartialEq, Eq, Structural)]
pub enum ParseMode {
    Strict,
    Compatible,
}

impl Default for ParseMode {
    fn default() -> (r: Self)
        ensures
            r == ParseMode::Strict,
    {
        ParseMode::Strict
    }
}

/// Limits together with the parse mode used by a decoder.
#[derive(Debug, Clone, Copy, PartialEq, Eq, Structural)]
pub struct NbtReadConfig {
    pub limits: NbtLimits,
    pub parse_mode: ParseMode,
}

/// The configuration a decoder uses when none is given: strict, default limits.
pub open spec fn default_config() -> NbtReadConfig {
    NbtReadConfig { limits: default_limits(), parse_mode: ParseMode::Strict }
}

impl NbtReadConfig {
    /// A configuration of the given limits and parse mode.
    pub fn new(limits: NbtLimits, parse_mode: ParseMode) -> (r: Self)
        ensures
            r == (NbtReadConfig { limits, parse_mode }),
    {
        Self { limits, parse_mode }
    }

    /// The strict parse mode with the given limits.
    pub fn strict(limits: NbtLimits) -> (r: Self)
        ensures
            r == (NbtReadConfig { limits, parse_mode: ParseMode::Strict }),
    {
        Self::new(limits, ParseMode::Strict)
    }

    /// The compatible parse mode with the given limits.
    pub fn compatible(limits: NbtLimits) -> (r: Self)
        ensures
            r == (NbtReadConfig { limits, parse_mode: ParseMode::Compatible }),
    {
        Self::new(limits, ParseMode::Compatible)
    }

    /// The same configuration with another parse mode.
    pub fn with_parse_mode(self, parse_mode: ParseMode) -> (r: Self)
        ensures
            r == (NbtReadConfig { parse_mode, ..self }),
    {
        let mut out = self;
        out.parse_mode = parse_mode;
        out
    }

    /// The same configuration with other limits.
    pub fn with_limits(self, limits: NbtLimits) -> (r: Self)
        ensures
            r == (NbtReadConfig { limits, ..self }),
    {
        let mut out = self;
        out.limits = limits;
        out
    }
}

impl Default for NbtReadConfig {
    fn default() -> (r: Self)
        ensures
            r == default_config(),
    {
        Self::strict(NbtLimits::default())
    }
}

} // verus!
