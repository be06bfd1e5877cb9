//! Named Binary Tag (NBT) codec with verified parsing and serialization.
pub mod codec;
pub mod codec_bridge;
pub mod config;
mod copy;
pub mod encoding;
pub mod endian;
pub mod equality;
pub mod error;
pub mod experiments;
pub mod headless;
pub mod laws;
pub mod limits;
pub mod mcstructure;
pub mod payload;
pub mod payload_spec;
pub mod protocol_adapter;
pub mod reader;
pub mod root;
pub mod serde_api;
pub mod tag;
pub mod text;

pub use codec::{
    read_var_i32, read_var_i64, read_var_u32, read_var_u64, write_var_i32, write_var_i64,
    write_var_u32, write_var_u64, BigEndianCodec, Codec, LittleEndianCodec,
    NetworkLittleEndianCodec,
};
pub use codec_bridge::NbtCodecProfile;
pub use config::{NbtReadConfig, ParseMode};
pub use encoding::{
    decode_zigzag_i32, decode_zigzag_i64, encode_zigzag_i32, encode_zigzag_i64, BigEndian,
    Encoding, EncodingKind, LittleEndian, NetworkLittleEndian,
};
pub use error::{Error, ErrorContext, IoErrorKind, Result};
pub use experiments::{
    classify_experiment_key, is_known_experiment_key, read_experiments_from_root,
    write_experiments_to_root, ExperimentKeyKind, Experiments,
};
pub use headless::{
    from_headless_bytes, read_headless, read_headless_by_id, read_headless_by_id_with_config,
    read_headless_by_id_with_limits, read_headless_prefixed, read_headless_prefixed_with_config,
    read_headless_prefixed_with_limits, read_headless_with_config, read_headless_with_limits,
    read_value, read_value_with_config, read_value_with_limits, to_headless_bytes, write_headless,
    write_headless_prefixed, write_value,
};
pub use limits::NbtLimits;
pub use mcstructure::{
    validate_mcstructure_root, validate_mcstructure_tag, zyx_flatten_index, zyx_unflatten_index,
    McStructureSemanticReport,
};
pub use payload::{read_payload, read_payload_with_config, read_payload_with_limits, write_payload};
pub use protocol_adapter::{ProtocolNbtAdapter, ProtocolNbtEncoding};
pub use reader::ByteReader;
pub use root::{
    read_tag, read_tag_with_config, read_tag_with_limits, read_with_header_mode,
    read_with_header_mode_with_config, read_with_header_mode_with_limits, write_tag,
    write_with_header_mode, HeaderReadMode, HeaderWriteMode, RootTag, BEDROCK_FILE_HEADER_MAGIC,
};
pub use serde_api::{
    from_byte_array_tag, serde_value_to_tag, tag_to_serde_value, to_byte_array_tag, NbtByteArray,
    SerdeBehaviorContract, SerdeValue,
};
pub use tag::{CompoundTag, Entry, ListTag, Tag, TagType};
