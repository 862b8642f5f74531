//! The format-polymorphic codec: one envelope schema (username, text,
//! optional replaces/delete offset) serialized to and parsed from any of
//! the three wire formats.  The text format cannot carry the two offsets;
//! the binary format treats a zero offset as absent.

use vstd::prelude::*;
use vstd::utf8::valid_utf8;

use crate::args::DataFormat;
use crate::json_format::{encode_json, json_encoding, opt_int, parse_json, parse_json_exec};
use crate::proto_format::{encode_proto, parse_proto, parse_proto_exec, proto_encoding};
use crate::strbytes::{bytes_to_string, str_bytes, string_bytes};
use crate::text_format::{decode_text, encode_text, text_decoded, text_encoding};
use crate::ChatError;

verus! {

/// A decoded envelope: who wrote what, and which earlier offset the
/// record replaces or deletes, when the format can say so.
#[derive(Debug)]
pub struct JsonMessage {
    /// Author of the message, or the administrative identity.
    pub username: String,
    /// The message text, or a deletion marker.
    pub message: String,
    /// Offset of the record this one replaces; `None` for a new message.
    pub replaces_offset: Option<i64>,
    /// Offset of the record this one deletes; `None` for no deletion.
    pub delete_offset: Option<i64>,
}

/// The two's-complement image of an `i64` in a `u64`, as the binary
/// format transmits offsets.
pub open spec fn i64_bits(n: i64) -> int {
    if n >= 0 {
        n as int
    } else {
        n as int + 0x10000000000000000
    }
}

/// The `i64` a transmitted `u64` image stands for.
pub open spec fn bits_val(v: int) -> int {
    if v <= i64::MAX {
        v
    } else {
        v - 0x10000000000000000
    }
}

/// The binary-format image of an optional offset: zero when absent.
pub open spec fn opt_bits(v: Option<i64>) -> u64 {
    match v {
        None => 0u64,
        Some(n) => i64_bits(n) as u64,
    }
}

/// The encoding of an envelope in the given format.  The text format
/// drops the two offsets: it cannot represent them.
pub open spec fn message_encoding(
    format: DataFormat,
    u: Seq<u8>,
    m: Seq<u8>,
    r: Option<i64>,
    d: Option<i64>,
) -> Seq<u8> {
    match format {
        DataFormat::Text => text_encoding(u, m),
        DataFormat::Json => json_encoding(u, m, opt_int(r), opt_int(d)),
        DataFormat::Protobuf => proto_encoding(u, m, opt_bits(r), opt_bits(d)),
    }
}

/// The decoded envelope of a payload in the given format: raw username
/// and message bodies and the two offsets, or nothing when the payload
/// is not well-formed for that format.
pub open spec fn envelope_decoded(format: DataFormat, s: Seq<u8>) -> Option<
    (Seq<u8>, Seq<u8>, Option<int>, Option<int>),
> {
    match format {
        DataFormat::Text => match text_decoded(s) {
            None => None,
            Some((u, m)) => Some((u, m, Option::<int>::None, Option::<int>::None)),
        },
        DataFormat::Json => parse_json(s),
        DataFormat::Protobuf => match parse_proto(s) {
            None => None,
            Some((u, m, r, d)) => Some(
                (
                    u,
                    m,
                    if r == 0 {
                        Option::<int>::None
                    } else {
                        Some(bits_val(r))
                    },
                    if d == 0 {
                        Option::<int>::None
                    } else {
                        Some(bits_val(d))
                    },
                ),
            ),
        },
    }
}

/// Computes the two's-complement image of an offset.
fn i64_to_bits(n: i64) -> (r: u64)
    ensures
        r as int == i64_bits(n),
{
    if n >= 0 {
        n as u64
    } else {
        let p: u64 = (-(n + 1)) as u64;
        u64::MAX - p
    }
}

/// Recovers an offset from its two's-complement image.
fn bits_to_i64(v: u64) -> (r: i64)
    ensures
        r as int == bits_val(v as int),
{
    if v <= 0x7fffffffffffffffu64 {
        v as i64
    } else {
        let d: u64 = u64::MAX - v;
        -(d as i64) - 1
    }
}

/// The binary-format image of an optional offset.
fn opt_to_bits(v: Option<i64>) -> (r: u64)
    ensures
        r == opt_bits(v),
{
    match v {
        None => 0,
        Some(n) => i64_to_bits(n),
    }
}

/// The stateless codec: serializes envelopes into payload bytes and
/// parses payload bytes back, in every wire format.
pub struct MessageHandler;

impl MessageHandler {
    /// Serializes an envelope in the given format.  Every input
    /// serializes; the text format silently drops the two offsets, as
    /// it has no room for them.
    pub fn serialize_message(
        username: &str,
        message: &str,
        format: DataFormat,
        replaces_offset: Option<i64>,
        delete_offset: Option<i64>,
    ) -> (r: Result<Vec<u8>, ChatError>)
        ensures
            r matches Ok(v) && v@ == message_encoding(
                format,
                str_bytes(username),
                str_bytes(message),
                replaces_offset,
                delete_offset,
            ),
    {
        match format {
            DataFormat::Text => Ok(encode_text(username, message)),
            DataFormat::Json => Ok(
                encode_json(username.as_bytes(), message.as_bytes(), replaces_offset, delete_offset),
            ),
            DataFormat::Protobuf => Ok(
                encode_proto(
                    username.as_bytes(),
                    message.as_bytes(),
                    opt_to_bits(replaces_offset),
                    opt_to_bits(delete_offset),
                ),
            ),
        }
    }

    /// Parses a payload into the full envelope.  Fails exactly when the
    /// payload does not parse in the given format or a decoded body is
    /// not valid UTF-8.
    pub fn deserialize_envelope(data: &[u8], format: DataFormat) -> (r: Result<
        JsonMessage,
        ChatError,
    >)
        ensures
            match envelope_decoded(format, data@) {
                None => r matches Err(e) && e == ChatError::FormatError,
                Some(p) => {
                    if valid_utf8(p.0) && valid_utf8(p.1) {
                        &&& r matches Ok(env)
                        &&& string_bytes(&env.username) == p.0
                        &&& string_bytes(&env.message) == p.1
                        &&& opt_int(env.replaces_offset) == p.2
                        &&& opt_int(env.delete_offset) == p.3
                    } else {
                        r matches Err(e) && e == ChatError::FormatError
                    }
                },
            },
    {
        match format {
            DataFormat::Text => {
                match decode_text(data) {
                    Ok((u, m)) => Ok(
                        JsonMessage {
                            username: u,
                            message: m,
                            replaces_offset: None,
                            delete_offset: None,
                        },
                    ),
                    Err(e) => Err(e),
                }
            },
            DataFormat::Json => {
                let parsed = match parse_json_exec(data) {
                    Some(p) => p,
                    None => {
                        return Err(ChatError::FormatError);
                    },
                };
                let (ub, mb, rv, dv) = parsed;
                let us = match bytes_to_string(ub) {
                    Ok(s) => s,
                    Err(_) => {
                        return Err(ChatError::FormatError);
                    },
                };
                let ms = match bytes_to_string(mb) {
                    Ok(s) => s,
                    Err(_) => {
                        return Err(ChatError::FormatError);
                    },
                };
                Ok(
                    JsonMessage {
                        username: us,
                        message: ms,
                        replaces_offset: rv,
                        delete_offset: dv,
                    },
                )
            },
            DataFormat::Protobuf => {
                let parsed = match parse_proto_exec(data) {
                    Some(p) => p,
                    None => {
                        return Err(ChatError::FormatError);
                    },
                };
                let (ub, mb, rv, dv) = parsed;
                let us = match bytes_to_string(ub) {
                    Ok(s) => s,
                    Err(_) => {
                        return Err(ChatError::FormatError);
                    },
                };
                let ms = match bytes_to_string(mb) {
                    Ok(s) => s,
                    Err(_) => {
                        return Err(ChatError::FormatError);
                    },
                };
                let ro: Option<i64> = if rv == 0 {
                    None
                } else {
                    Some(bits_to_i64(rv))
                };
                let dl: Option<i64> = if dv == 0 {
                    None
                } else {
                    Some(bits_to_i64(dv))
                };
                Ok(
                    JsonMessage {
                        username: us,
                        message: ms,
                        replaces_offset: ro,
                        delete_offset: dl,
                    },
                )
            },
        }
    }

    /// Parses a payload into just the username and message, dropping
    /// mutation metadata, as ordinary display wants.  Fails exactly as
    /// the envelope-aware parse does.
    pub fn deserialize_message(data: &[u8], format: DataFormat) -> (r: Result<
        (String, String),
        ChatError,
    >)
        ensures
            match envelope_decoded(format, data@) {
                None => r matches Err(e) && e == ChatError::FormatError,
                Some(p) => {
                    if valid_utf8(p.0) && valid_utf8(p.1) {
                        &&& r matches Ok(q)
                        &&& string_bytes(&q.0) == p.0
                        &&& string_bytes(&q.1) == p.1
                    } else {
                        r matches Err(e) && e == ChatError::FormatError
                    }
                },
            },
    {
        match Self::deserialize_envelope(data, format) {
            Ok(env) => Ok((env.username, env.message)),
            Err(e) => Err(e),
        }
    }
}

/// Round trip: in every format, the serialization of a plain chat
/// message (no mutation offsets) decodes back to the same username and
/// message bodies and to absent offsets.  The text format asks that the
/// username holds no colon and that neither body carries outer
/// whitespace, since its decoder splits on the first colon and trims.
pub proof fn lemma_message_round_trip(format: DataFormat, u: Seq<u8>, m: Seq<u8>)
    requires
        u.len() <= u64::MAX,
        m.len() <= u64::MAX,
        format == DataFormat::Text ==> {
            &&& forall|i: int| 0 <= i < u.len() ==> u[i] != 0x3a
            &&& crate::text_format::trim(u) == u
            &&& crate::text_format::trim(m) == m
        },
    ensures
        envelope_decoded(format, message_encoding(format, u, m, None, None)) == Some(
            (u, m, Option::<int>::None, Option::<int>::None),
        ),
{
    match format {
        DataFormat::Text => {
            crate::text_format::lemma_text_round_trip(u, m);
        },
        DataFormat::Json => {
            crate::json_format::lemma_json_round_trip(
                u,
                m,
                Option::<int>::None,
                Option::<int>::None,
            );
        },
        DataFormat::Protobuf => {
            crate::proto_format::lemma_proto_round_trip(u, m, 0u64, 0u64);
        },
    }
}

/// A replacement or deletion offset survives the round trip in the two
/// formats that can carry one; the binary format asks for a non-zero
/// target, since it transmits zero as "absent".
pub proof fn lemma_mutation_round_trip(
    format: DataFormat,
    u: Seq<u8>,
    m: Seq<u8>,
    target: i64,
)
    requires
        u.len() <= u64::MAX,
        m.len() <= u64::MAX,
        format != DataFormat::Text,
        format == DataFormat::Protobuf ==> target != 0,
    ensures
        envelope_decoded(format, message_encoding(format, u, m, Some(target), None)) == Some(
            (u, m, Some(target as int), Option::<int>::None),
        ),
        envelope_decoded(format, message_encoding(format, u, m, None, Some(target))) == Some(
            (u, m, Option::<int>::None, Some(target as int)),
        ),
{
    match format {
        DataFormat::Text => {
        },
        DataFormat::Json => {
            crate::json_format::lemma_json_round_trip(
                u,
                m,
                Some(target as int),
                Option::<int>::None,
            );
            crate::json_format::lemma_json_round_trip(
                u,
                m,
                Option::<int>::None,
                Some(target as int),
            );
        },
        DataFormat::Protobuf => {
            let bits = opt_bits(Some(target));
            crate::proto_format::lemma_proto_round_trip(u, m, bits, 0u64);
            crate::proto_format::lemma_proto_round_trip(u, m, 0u64, bits);
            assert(bits != 0);
            assert(bits_val(bits as int) == target);
        },
    }
}

/// In the binary format a mutation targeting offset zero is
/// byte-identical to no mutation at all: the known zero-as-unset
/// collision, stated so that callers must treat offset zero as not a
/// valid mutation target there.
pub proof fn lemma_proto_zero_offset_ambiguity(u: Seq<u8>, m: Seq<u8>)
    ensures
        message_encoding(DataFormat::Protobuf, u, m, Some(0i64), None) == message_encoding(
            DataFormat::Protobuf,
            u,
            m,
            None,
            None,
        ),
        message_encoding(DataFormat::Protobuf, u, m, None, Some(0i64)) == message_encoding(
            DataFormat::Protobuf,
            u,
            m,
            None,
            None,
        ),
{
    assert(opt_bits(Some(0i64)) == 0u64);
}

} // verus!
