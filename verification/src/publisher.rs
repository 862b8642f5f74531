//! Translation of chat lines and admin mutations into payload bytes.
//! The external publish itself is a collaborator outside the library:
//! callers send the returned bytes unchanged, so a mutation on a format
//! that cannot represent it is rejected here, before any network call.

use vstd::prelude::*;

use crate::args::DataFormat;
use crate::message::{message_encoding, MessageHandler};
use crate::strbytes::str_bytes;
use crate::ChatError;

verus! {

/// The administrative identity a deletion record is published under.
pub open spec fn admin_username() -> Seq<u8> {
    str_bytes("Admin")
}

/// The marker text a deletion record carries.
pub open spec fn delete_marker() -> Seq<u8> {
    str_bytes("Message deleted")
}

/// The payload of an ordinary chat line: no mutation offsets, in any
/// format.
pub fn prepare_chat(username: &str, message: &str, format: DataFormat) -> (r: Result<
    Vec<u8>,
    ChatError,
>)
    ensures
        r matches Ok(v) && v@ == message_encoding(
            format,
            str_bytes(username),
            str_bytes(message),
            None,
            None,
        ),
{
    MessageHandler::serialize_message(username, message, format, None, None)
}

/// The payload of a replacement for the record at `target_offset`.
/// Fails with `UnsupportedOperation` exactly when the format is `Text`,
/// which cannot carry a replaces offset; nothing is produced then.
pub fn prepare_replace(
    username: &str,
    new_text: &str,
    target_offset: i64,
    format: DataFormat,
) -> (r: Result<Vec<u8>, ChatError>)
    ensures
        format == DataFormat::Text ==> (r matches Err(e) && e
            == ChatError::UnsupportedOperation),
        format != DataFormat::Text ==> (r matches Ok(v) && v@ == message_encoding(
            format,
            str_bytes(username),
            str_bytes(new_text),
            Some(target_offset),
            None,
        )),
{
    match format {
        DataFormat::Text => Err(ChatError::UnsupportedOperation),
        _ => MessageHandler::serialize_message(
            username,
            new_text,
            format,
            Some(target_offset),
            None,
        ),
    }
}

/// The payload of a deletion marker for the record at `target_offset`,
/// published under the administrative identity.  Fails with
/// `UnsupportedOperation` exactly when the format is `Text`; nothing is
/// produced then.
pub fn prepare_delete(target_offset: i64, format: DataFormat) -> (r: Result<Vec<u8>, ChatError>)
    ensures
        format == DataFormat::Text ==> (r matches Err(e) && e
            == ChatError::UnsupportedOperation),
        format != DataFormat::Text ==> (r matches Ok(v) && v@ == message_encoding(
            format,
            admin_username(),
            delete_marker(),
            None,
            Some(target_offset),
        )),
{
    match format {
        DataFormat::Text => Err(ChatError::UnsupportedOperation),
        _ => MessageHandler::serialize_message(
            "Admin",
            "Message deleted",
            format,
            None,
            Some(target_offset),
        ),
    }
}

} // verus!
