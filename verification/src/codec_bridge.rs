use crate::config::{default_config, NbtReadConfig};
use crate::protocol_adapter::ProtocolNbtEncoding;
use vstd::prelude::*;

verus! {

/// The layout and read configuration a type is encoded with.
pub trait NbtCodecProfile {
    /// The wire layout of the type.
    fn nbt_encoding() -> ProtocolNbtEncoding;

    /// The read configuration of the type; the default configuration unless given.
    fn nbt_read_config() -> (r: NbtReadConfig)
        default_ensures
            r == default_config(),
    {
        NbtReadConfig::default()
    }
}

} // verus!
