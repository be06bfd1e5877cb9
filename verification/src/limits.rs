use vstd::prelude::*;

verus! {

/// Resource limits applied while decoding untrusted NBT input.
#[derive(Debug, Clone, Copy, PartialEq, Eq, Structural)]
pub struct NbtLimits {
    pub max_depth: usize,
    pub max_read_bytes: usize,
    pub max_string_len: usize,
    pub max_array_len: usize,
    pub max_list_len: usize,
    pub max_compound_entries: usize,
}

/// The limits a decoder uses when none are given.
pub open spec fn default_limits() -> NbtLimits {
    NbtLimits {
        max_depth: 512,
        max_read_bytes: 16777216,
        max_string_len: 1048576,
        max_array_len: 4194304,
        max_list_len: 1048576,
        max_compound_entries: 1048576,
    }
}

impl NbtLimits {
    /// Limits of the given sizes.
    pub fn new(
        max_depth: usize,
        max_read_bytes: usize,
        max_string_len: usize,
        max_array_len: usize,
        max_list_len: usize,
        max_compound_entries: usize,
    ) -> (r: Self)
        ensures
            r == (NbtLimits {
                max_depth,
                max_read_bytes,
                max_string_len,
                max_array_len,
                max_list_len,
                max_compound_entries,
            }),
    {
        Self {
            max_depth,
            max_read_bytes,
            max_string_len,
            max_array_len,
            max_list_len,
            max_compound_entries,
        }
    }

    /// The same limits with another nesting depth.
    pub fn with_max_depth(self, max_depth: usize) -> (r: Self)
        ensures
            r == (NbtLimits { max_depth, ..self }),
    {
        let mut out = self;
        out.max_depth = max_depth;
        out
    }

    /// The same limits with another read budget.
    pub fn with_max_read_bytes(self, max_read_bytes: usize) -> (r: Self)
        ensures
            r == (NbtLimits { max_read_bytes, ..self }),
    {
        let mut out = self;
        out.max_read_bytes = max_read_bytes;
        out
    }

    /// The same limits with another string length.
    pub fn with_max_string_len(self, max_string_len: usize) -> (r: Self)
        ensures
            r == (NbtLimits { max_string_len, ..self }),
    {
        let mut out = self;
        out.max_string_len = max_string_len;
        out
    }

    /// The same limits with another array length.
    pub fn with_max_array_len(self, max_array_len: usize) -> (r: Self)
        ensures
            r == (NbtLimits { max_array_len, ..self }),
    {
        let mut out = self;
        out.max_array_len = max_array_len;
        out
    }

    /// The same limits with another list length.
    pub fn with_max_list_len(self, max_list_len: usize) -> (r: Self)
        ensures
            r == (NbtLimits { max_list_len, ..self }),
    {
        let mut out = self;
        out.max_list_len = max_list_len;
        out
    }

    /// The same limits with another number of compound entries.
    pub fn with_max_compound_entries(self, max_compound_entries: usize) -> (r: Self)
        ensures
            r == (NbtLimits { max_compound_entries, ..self }),
    {
        let mut out = self;
        out.max_compound_entries = max_compound_entries;
        out
    }
}

impl Default for NbtLimits {
    fn default() -> (r: Self)
        ensures
            r == default_limits(),
    {
        Self {
            max_depth: 512,
            max_read_bytes: 16 * 1024 * 1024,
            max_string_len: 1024 * 1024,
            max_array_len: 4 * 1024 * 1024,
            max_list_len: 1024 * 1024,
            max_compound_entries: 1024 * 1024,
        }
    }
}

} // verus!
