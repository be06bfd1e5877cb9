use crate::config::{default_config, NbtReadConfig, ParseMode};
use crate::encoding::{BigEndian, EncodingKind, LittleEndian, NetworkLittleEndian, Step};
use crate::error::{Error, Result};
use crate::headless::{enc_prefixed, prefixed_at, sp_prefixed, to_headless_bytes, write_headless_prefixed};
use crate::limits::NbtLimits;
use crate::payload::payload_at;
use crate::payload_spec::{enc_payload, sp_read_payload};
use crate::root::{enc_root, root_at, sp_root, write_tag, RootTag};
use crate::tag::{Tag, TagType};
use vstd::prelude::*;

verus! {

/// The wire layout a protocol adapter uses.
#[derive(Debug, Clone, Copy, PartialEq, Eq, Structural)]
pub enum ProtocolNbtEncoding {
    Network,
    LittleEndian,
    BigEndian,
}

/// The layout that a protocol encoding names.
pub open spec fn protocol_kind(p: ProtocolNbtEncoding) -> EncodingKind {
    match p {
        ProtocolNbtEncoding::Network => EncodingKind::NetworkLittleEndian,
        ProtocolNbtEncoding::LittleEndian => EncodingKind::LittleEndian,
        ProtocolNbtEncoding::BigEndian => EncodingKind::BigEndian,
    }
}

/// What a decoder owes when the whole input must be one value: the value read,
/// `TrailingPayloadBytes` when bytes are left over, or the error of the read.
pub open spec fn whole_input<T>(st: Step<T>, total: nat) -> std::result::Result<T, Error> {
    match st {
        Ok((v, n)) => if n == total {
            Ok(v)
        } else {
            Err(Error::TrailingPayloadBytes { unread: (total - n) as usize })
        },
        Err((e, _)) => Err(e),
    }
}

/// `r` is the value or the error that `expected` describes, the value by its view.
pub open spec fn result_as<T: View>(r: Result<T>, expected: std::result::Result<T::V, Error>) -> bool {
    match expected {
        Ok(v) => r matches Ok(t) && t@ == v,
        Err(e) => r == Err::<T, Error>(e),
    }
}

/// Encoding and decoding NBT fields of protocol packets with one layout and one
/// read configuration.
#[derive(Debug, Clone, Copy, PartialEq, Eq, Structural)]
pub struct ProtocolNbtAdapter {
    pub encoding: ProtocolNbtEncoding,
    pub read_config: NbtReadConfig,
}

impl Default for ProtocolNbtAdapter {
    fn default() -> (r: Self)
        ensures
            r == (ProtocolNbtAdapter { encoding: ProtocolNbtEncoding::Network, read_config: default_config() }),
    {
        Self::network()
    }
}

fn ensure_fully_consumed(total: usize, consumed: usize) -> (r: Result<()>)
    requires
        consumed <= total,
    ensures
        consumed == total ==> r is Ok,
        consumed != total ==> r == Err::<(), Error>(Error::TrailingPayloadBytes { unread: (total - consumed) as usize }),
{
    if consumed == total {
        return Ok(());
    }
    Err(Error::TrailingPayloadBytes { unread: total - consumed })
}

impl ProtocolNbtAdapter {
    /// An adapter for the network little-endian layout, with the default configuration.
    pub fn network() -> (r: Self)
        ensures
            r == (ProtocolNbtAdapter { encoding: ProtocolNbtEncoding::Network, read_config: default_config() }),
    {
        Self { encoding: ProtocolNbtEncoding::Network, read_config: NbtReadConfig::default() }
    }

    /// An adapter for the little-endian layout, with the default configuration.
    pub fn little_endian() -> (r: Self)
        ensures
            r == (ProtocolNbtAdapter { encoding: ProtocolNbtEncoding::LittleEndian, read_config: default_config() }),
    {
        Self { encoding: ProtocolNbtEncoding::LittleEndian, read_config: NbtReadConfig::default() }
    }

    /// An adapter for the big-endian layout, with the default configuration.
    pub fn big_endian() -> (r: Self)
        ensures
            r == (ProtocolNbtAdapter { encoding: ProtocolNbtEncoding::BigEndian, read_config: default_config() }),
    {
        Self { encoding: ProtocolNbtEncoding::BigEndian, read_config: NbtReadConfig::default() }
    }

    /// The same adapter with another configuration.
    pub fn with_config(self, read_config: NbtReadConfig) -> (r: Self)
        ensures
            r == (ProtocolNbtAdapter { read_config, ..self }),
    {
        let mut out = self;
        out.read_config = read_config;
        out
    }

    /// The same adapter with other limits.
    pub fn with_limits(self, limits: NbtLimits) -> (r: Self)
        ensures
            r == (ProtocolNbtAdapter { read_config: NbtReadConfig { limits, ..self.read_config }, ..self }),
    {
        let mut out = self;
        out.read_config = out.read_config.with_limits(limits);
        out
    }

    /// The same adapter with another parse mode.
    pub fn with_parse_mode(self, parse_mode: ParseMode) -> (r: Self)
        ensures
            r == (ProtocolNbtAdapter { read_config: NbtReadConfig { parse_mode, ..self.read_config }, ..self }),
    {
        let mut out = self;
        out.read_config = out.read_config.with_parse_mode(parse_mode);
        out
    }

    fn kind(&self) -> (k: EncodingKind)
        ensures
            k == protocol_kind(self.encoding),
    {
        match self.encoding {
            ProtocolNbtEncoding::Network => EncodingKind::NetworkLittleEndian,
            ProtocolNbtEncoding::LittleEndian => EncodingKind::LittleEndian,
            ProtocolNbtEncoding::BigEndian => EncodingKind::BigEndian,
        }
    }

    /// Decodes `bytes` as exactly one headless payload of type `tag_type`.
    pub fn decode_headless_tag(&self, tag_type: TagType, bytes: &[u8]) -> (r: Result<Tag>)
        ensures
            result_as(
                r,
                whole_input(
                    sp_read_payload(protocol_kind(self.encoding), self.read_config, bytes@, tag_type),
                    bytes@.len(),
                ),
            ),
    {
        let (tag, consumed) = match payload_at(self.kind(), self.read_config, bytes, tag_type) {
            Ok(x) => x,
            Err((e, _)) => return Err(e),
        };
        match ensure_fully_consumed(bytes.len(), consumed) {
            Ok(()) => Ok(tag),
            Err(e) => Err(e),
        }
    }

    /// Encodes the headless payload of `tag`.
    pub fn encode_headless_tag(&self, tag: &Tag) -> (r: Result<Vec<u8>>)
        ensures
            match enc_payload(protocol_kind(self.encoding), tag@) {
                Ok(b) => r matches Ok(out) && out@ == b,
                Err(e) => r == Err::<Vec<u8>, Error>(e),
            },
    {
        match self.encoding {
            ProtocolNbtEncoding::Network => to_headless_bytes::<NetworkLittleEndian>(tag),
            ProtocolNbtEncoding::LittleEndian => to_headless_bytes::<LittleEndian>(tag),
            ProtocolNbtEncoding::BigEndian => to_headless_bytes::<BigEndian>(tag),
        }
    }

    /// Decodes `bytes` as exactly one type id followed by its payload.
    pub fn decode_prefixed_tag(&self, bytes: &[u8]) -> (r: Result<Tag>)
        ensures
            result_as(
                r,
                whole_input(sp_prefixed(protocol_kind(self.encoding), self.read_config, bytes@), bytes@.len()),
            ),
    {
        let (tag, consumed) = match prefixed_at(self.kind(), self.read_config, bytes) {
            Ok(x) => x,
            Err((e, _)) => return Err(e),
        };
        match ensure_fully_consumed(bytes.len(), consumed) {
            Ok(()) => Ok(tag),
            Err(e) => Err(e),
        }
    }

    /// Encodes `tag` as its type id followed by its payload.
    pub fn encode_prefixed_tag(&self, tag: &Tag) -> (r: Result<Vec<u8>>)
        ensures
            match enc_prefixed(protocol_kind(self.encoding), tag@) {
                Ok(b) => r matches Ok(out) && out@ == b,
                Err(e) => r == Err::<Vec<u8>, Error>(e),
            },
    {
        let mut out: Vec<u8> = Vec::new();
        let res = match self.encoding {
            ProtocolNbtEncoding::Network => write_headless_prefixed::<NetworkLittleEndian>(&mut out, tag),
            ProtocolNbtEncoding::LittleEndian => write_headless_prefixed::<LittleEndian>(&mut out, tag),
            ProtocolNbtEncoding::BigEndian => write_headless_prefixed::<BigEndian>(&mut out, tag),
        };
        match res {
            Ok(()) => {
                assert(out@ =~= enc_prefixed(protocol_kind(self.encoding), tag@)->Ok_0);
                Ok(out)
            },
            Err(e) => Err(e),
        }
    }

    /// Decodes `bytes` as exactly one root value with no header.
    pub fn decode_root_tag(&self, bytes: &[u8]) -> (r: Result<RootTag>)
        ensures
            result_as(
                r,
                whole_input(sp_root(protocol_kind(self.encoding), self.read_config, bytes@), bytes@.len()),
            ),
    {
        let (root, consumed) = match root_at(self.kind(), self.read_config, bytes) {
            Ok(x) => x,
            Err((e, _)) => return Err(e),
        };
        match ensure_fully_consumed(bytes.len(), consumed) {
            Ok(()) => Ok(root),
            Err(e) => Err(e),
        }
    }

    /// Encodes a root value with no header.
    pub fn encode_root_tag(&self, root: &RootTag) -> (r: Result<Vec<u8>>)
        ensures
            match enc_root(protocol_kind(self.encoding), root@) {
                Ok(b) => r matches Ok(out) && out@ == b,
                Err(e) => r == Err::<Vec<u8>, Error>(e),
            },
    {
        let mut out: Vec<u8> = Vec::new();
        let res = match self.encoding {
            ProtocolNbtEncoding::Network => write_tag::<NetworkLittleEndian>(&mut out, root),
            ProtocolNbtEncoding::LittleEndian => write_tag::<LittleEndian>(&mut out, root),
            ProtocolNbtEncoding::BigEndian => write_tag::<BigEndian>(&mut out, root),
        };
        match res {
            Ok(()) => {
                assert(out@ =~= enc_root(protocol_kind(self.encoding), root@)->Ok_0);
                Ok(out)
            },
            Err(e) => Err(e),
        }
    }
}

} // verus!
