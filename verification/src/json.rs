//! The payload of a work item as JSON.

use crate::errors::BuilderError;
use crate::hexadecimal::{decode_fixed_hex, fixed_hex, hex_encode, hex_round_trip,
    hex_tells_apart, hex_text};
use crate::ledger::{Payload, PayloadView};
use crate::text::ascii_bytes;
use serde_json::{Map as JsonObject, Value};
use vstd::prelude::*;

verus! {

/// A payload as its JSON document holds it: byte strings in hexadecimal notation.
#[derive(Debug)]
pub enum PayloadJson {
    TransferBatch { old_root: String, new_root: String },
    Reset { new_root: String, signature: String },
}

/// What a [`PayloadJson`] says.
#[verifier::ext_equal]
pub enum PayloadJsonView {
    TransferBatch { old_root: Seq<char>, new_root: Seq<char> },
    Reset { new_root: Seq<char>, signature: Seq<char> },
}

impl View for PayloadJson {
    type V = PayloadJsonView;

    open spec fn view(&self) -> PayloadJsonView {
        match self {
            PayloadJson::TransferBatch { old_root, new_root } => PayloadJsonView::TransferBatch {
                old_root: old_root@,
                new_root: new_root@,
            },
            PayloadJson::Reset { new_root, signature } => PayloadJsonView::Reset {
                new_root: new_root@,
                signature: signature@,
            },
        }
    }
}

/// One field of a payload: what its text spells, or the complaint about it under its name.
pub open spec fn payload_field(
    complaint: Seq<char>,
    text: Seq<char>,
    len: nat,
) -> Result<Seq<u8>, Seq<char>> {
    match fixed_hex(text, len) {
        Ok(bytes) => Ok(bytes),
        Err(message) => Err(complaint + message),
    }
}

/// The payload that a JSON document stands for, or the complaint about its first bad field.
pub open spec fn payload_of_json(json: PayloadJsonView) -> Result<PayloadView, Seq<char>> {
    match json {
        PayloadJsonView::TransferBatch { old_root, new_root } => match payload_field(
            "Invalid old_root hex: "@,
            old_root,
            32,
        ) {
            Err(message) => Err(message),
            Ok(old_root) => match payload_field("Invalid new_root hex: "@, new_root, 32) {
                Err(message) => Err(message),
                Ok(new_root) => Ok(PayloadView::TransferBatch { old_root, new_root }),
            },
        },
        PayloadJsonView::Reset { new_root, signature } => match payload_field(
            "Invalid new_root hex: "@,
            new_root,
            32,
        ) {
            Err(message) => Err(message),
            Ok(new_root) => match payload_field("Invalid signature hex: "@, signature, 64) {
                Err(message) => Err(message),
                Ok(signature) => Ok(PayloadView::Reset { new_root, signature }),
            },
        },
    }
}

/// Reads one field of a payload.
fn read_field<const N: usize>(complaint: &str, text: &str) -> (result: Result<[u8; N], String>)
    ensures
        match payload_field(complaint@, text@, N as nat) {
            Ok(bytes) => result matches Ok(found) && found@ == bytes,
            Err(message) => result matches Err(found) && found@ == message,
        },
{
    match decode_fixed_hex::<N>(text) {
        Ok(bytes) => Ok(bytes),
        Err(message) => {
            let mut complaint: String = complaint.to_owned();
            complaint.append(message.as_str());
            Err(complaint)
        },
    }
}

/// The payload that the reader of a JSON document found, or what is said of it.
pub open spec fn read_payload(json: Result<PayloadJsonView, Seq<char>>) -> Result<
    PayloadView,
    Seq<char>,
> {
    match json {
        Err(error) => Err("Failed to parse JSON payload: "@ + error),
        Ok(document) => payload_of_json(document),
    }
}

/// What the reader of a JSON document found, or said of it.
pub open spec fn document_view(json: Result<PayloadJson, String>) -> Result<
    PayloadJsonView,
    Seq<char>,
> {
    match json {
        Ok(document) => Ok(document@),
        Err(error) => Err(error@),
    }
}

/// Reads a work item's payload. `json` is what its bytes hold as a JSON document, or what the
/// JSON reader said of them.
pub fn parse_payload(json: Result<PayloadJson, String>) -> (result: Result<Payload, String>)
    ensures
        match read_payload(document_view(json)) {
            Ok(payload) => result matches Ok(found) && found@ == payload,
            Err(message) => result matches Err(found) && found@ == message,
        },
{
    match json {
        Err(error) => {
            let mut message: String = "Failed to parse JSON payload: ".to_owned();
            message.append(error.as_str());
            Err(message)
        },
        Ok(PayloadJson::TransferBatch { old_root, new_root }) => {
            match read_field::<32>("Invalid old_root hex: ", old_root.as_str()) {
                Err(message) => Err(message),
                Ok(old_root) => match read_field::<32>("Invalid new_root hex: ", new_root.as_str()) {
                    Err(message) => Err(message),
                    Ok(new_root) => Ok(Payload::TransferBatch { old_root, new_root }),
                },
            }
        },
        Ok(PayloadJson::Reset { new_root, signature }) => {
            match read_field::<32>("Invalid new_root hex: ", new_root.as_str()) {
                Err(message) => Err(message),
                Ok(new_root) => match read_field::<64>(
                    "Invalid signature hex: ",
                    signature.as_str(),
                ) {
                    Err(message) => Err(message),
                    Ok(signature) => Ok(Payload::Reset { new_root, signature }),
                },
            }
        },
    }
}

/// The JSON document that stands for a payload.
pub open spec fn json_of_payload(payload: PayloadView) -> PayloadJsonView {
    match payload {
        PayloadView::TransferBatch { old_root, new_root } => PayloadJsonView::TransferBatch {
            old_root: hex_text(old_root),
            new_root: hex_text(new_root),
        },
        PayloadView::Reset { new_root, signature } => PayloadJsonView::Reset {
            new_root: hex_text(new_root),
            signature: hex_text(signature),
        },
    }
}

/// An object whose one member, named `tag`, is an object of two text members.
pub open spec fn tagged_pair_text(
    tag: Seq<char>,
    first_name: Seq<char>,
    first_text: Seq<char>,
    second_name: Seq<char>,
    second_text: Seq<char>,
) -> Seq<char> {
    "{\""@ + tag + "\":{\""@ + first_name + "\":\""@ + first_text + "\",\""@ + second_name
        + "\":\""@ + second_text + "\"}}"@
}

/// The text of a payload's JSON document, with the members of an object in alphabetical order.
pub open spec fn json_text(json: PayloadJsonView) -> Seq<char> {
    match json {
        PayloadJsonView::TransferBatch { old_root, new_root } => tagged_pair_text(
            "TransferBatch"@,
            "new_root"@,
            new_root,
            "old_root"@,
            old_root,
        ),
        PayloadJsonView::Reset { new_root, signature } => tagged_pair_text(
            "Reset"@,
            "new_root"@,
            new_root,
            "signature"@,
            signature,
        ),
    }
}

/// Letters, digits and underscores: what JSON writes in a string as it is.
pub open spec fn is_plain(text: Seq<char>) -> bool {
    forall|i: int|
        0 <= i < text.len() ==> {
            ||| '0' <= #[trigger] text[i] <= '9'
            ||| 'A' <= text[i] <= 'Z'
            ||| 'a' <= text[i] <= 'z'
            ||| text[i] == '_'
        }
}

/// Whether the first letter of one name comes before that of another.
pub open spec fn comes_before(name: Seq<char>, other: Seq<char>) -> bool {
    &&& name.len() > 0
    &&& other.len() > 0
    &&& name[0] < other[0]
}

/// The error of `serde_json`.
#[verifier::external_type_specification]
#[verifier::external_body]
pub struct ExJsonError(serde_json::Error);

/// Calls `serde_json::to_vec` on an object whose one member, named `tag`, is an object of two text
/// members. Claimed of it: plain texts and names are written without escapes, members come in the
/// order of their names, nothing is written between the tokens, and it does not fail.
#[verifier::external_body]
fn tagged_pair_json(
    tag: &str,
    first_name: &str,
    first_text: &str,
    second_name: &str,
    second_text: &str,
) -> (result: Result<Vec<u8>, serde_json::Error>)
    requires
        is_plain(tag@),
        is_plain(first_name@) && is_plain(first_text@),
        is_plain(second_name@) && is_plain(second_text@),
        comes_before(first_name@, second_name@),
    ensures
        result is Ok,
        result->Ok_0@ == ascii_bytes(
            tagged_pair_text(tag@, first_name@, first_text@, second_name@, second_text@),
        ),
{
    let mut pair = JsonObject::new();
    pair.insert(first_name.to_owned(), Value::String(first_text.to_owned()));
    pair.insert(second_name.to_owned(), Value::String(second_text.to_owned()));
    let mut object = JsonObject::new();
    object.insert(tag.to_owned(), Value::Object(pair));
    serde_json::to_vec(&Value::Object(object))
}

/// Hexadecimal notation is plain.
proof fn lemma_hex_is_plain(bytes: Seq<u8>)
    ensures
        is_plain(hex_text(bytes)),
{
}

/// Writes a payload as a JSON document.
pub fn encode_payload_json(payload: &Payload) -> (result: Result<Vec<u8>, BuilderError>)
    ensures
        result matches Ok(bytes) && bytes@ == ascii_bytes(json_text(json_of_payload(payload@))),
{
    proof {
        reveal_strlit("TransferBatch");
        reveal_strlit("Reset");
        reveal_strlit("new_root");
        reveal_strlit("old_root");
        reveal_strlit("signature");
    }
    let json: Result<Vec<u8>, serde_json::Error> = match payload {
        Payload::TransferBatch { old_root, new_root } => {
            proof {
                lemma_hex_is_plain(old_root@);
                lemma_hex_is_plain(new_root@);
            }
            tagged_pair_json(
                "TransferBatch",
                "new_root",
                hex_encode(new_root.as_slice()).as_str(),
                "old_root",
                hex_encode(old_root.as_slice()).as_str(),
            )
        },
        Payload::Reset { new_root, signature } => {
            proof {
                lemma_hex_is_plain(new_root@);
                lemma_hex_is_plain(signature@);
            }
            tagged_pair_json(
                "Reset",
                "new_root",
                hex_encode(new_root.as_slice()).as_str(),
                "signature",
                hex_encode(signature.as_slice()).as_str(),
            )
        },
    };
    match json {
        Ok(bytes) => Ok(bytes),
        Err(_) => Err(BuilderError::PayloadEncoding),
    }
}

/// Reading the JSON document that a payload was written as gives back the payload.
pub proof fn payload_round_trip(payload: Payload)
    ensures
        payload_of_json(json_of_payload(payload@)) == Ok::<PayloadView, Seq<char>>(payload@),
{
    match payload@ {
        PayloadView::TransferBatch { old_root, new_root } => {
            hex_round_trip(old_root);
            hex_round_trip(new_root);
        },
        PayloadView::Reset { new_root, signature } => {
            hex_round_trip(new_root);
            hex_round_trip(signature);
        },
    }
}

/// Where the parts of a batch's document stand: the new root behind its name, then the old one
/// behind its own, both in hexadecimal notation.
pub proof fn batch_documents_are_laid_out(old_root: Seq<u8>, new_root: Seq<u8>)
    requires
        old_root.len() == 32,
        new_root.len() == 32,
    ensures
        ({
            let bytes = ascii_bytes(
                json_text(json_of_payload(PayloadView::TransferBatch { old_root, new_root })),
            );
            &&& bytes.len() == 175
            &&& bytes[2] == 'T' as u8
            &&& bytes.take(30) == ascii_bytes("{\"TransferBatch\":{\"new_root\":\""@)
            &&& bytes.subrange(94, 108) == ascii_bytes("\",\"old_root\":\""@)
            &&& bytes.skip(172) == ascii_bytes("\"}}"@)
            &&& bytes.subrange(30, 94) == ascii_bytes(hex_text(new_root))
            &&& bytes.subrange(108, 172) == ascii_bytes(hex_text(old_root))
        }),
{
    reveal_strlit("{\"");
    reveal_strlit("TransferBatch");
    reveal_strlit("\":{\"");
    reveal_strlit("new_root");
    reveal_strlit("\":\"");
    reveal_strlit("\",\"");
    reveal_strlit("old_root");
    reveal_strlit("\"}}");
    let text = json_text(json_of_payload(PayloadView::TransferBatch { old_root, new_root }));
    reveal_strlit("{\"TransferBatch\":{\"new_root\":\"");
    reveal_strlit("\",\"old_root\":\"");
    assert(ascii_bytes(text).take(30) =~= ascii_bytes("{\"TransferBatch\":{\"new_root\":\""@));
    assert(ascii_bytes(text).subrange(94, 108) =~= ascii_bytes("\",\"old_root\":\""@));
    assert(ascii_bytes(text).skip(172) =~= ascii_bytes("\"}}"@));
    assert(text.subrange(30, 94) =~= hex_text(new_root));
    assert(text.subrange(108, 172) =~= hex_text(old_root));
    assert(ascii_bytes(text).subrange(30, 94) =~= ascii_bytes(text.subrange(30, 94)));
    assert(ascii_bytes(text).subrange(108, 172) =~= ascii_bytes(text.subrange(108, 172)));
}

/// Where the parts of a reset's document stand: the new root behind its name, then the signature
/// behind its own, both in hexadecimal notation.
pub proof fn reset_documents_are_laid_out(new_root: Seq<u8>, signature: Seq<u8>)
    requires
        new_root.len() == 32,
        signature.len() == 64,
    ensures
        ({
            let bytes = ascii_bytes(
                json_text(json_of_payload(PayloadView::Reset { new_root, signature })),
            );
            &&& bytes.len() == 232
            &&& bytes[2] == 'R' as u8
            &&& bytes.take(22) == ascii_bytes("{\"Reset\":{\"new_root\":\""@)
            &&& bytes.subrange(86, 101) == ascii_bytes("\",\"signature\":\""@)
            &&& bytes.skip(229) == ascii_bytes("\"}}"@)
            &&& bytes.subrange(22, 86) == ascii_bytes(hex_text(new_root))
            &&& bytes.subrange(101, 229) == ascii_bytes(hex_text(signature))
        }),
{
    reveal_strlit("{\"");
    reveal_strlit("Reset");
    reveal_strlit("\":{\"");
    reveal_strlit("new_root");
    reveal_strlit("\":\"");
    reveal_strlit("\",\"");
    reveal_strlit("signature");
    reveal_strlit("\"}}");
    let text = json_text(json_of_payload(PayloadView::Reset { new_root, signature }));
    reveal_strlit("{\"Reset\":{\"new_root\":\"");
    reveal_strlit("\",\"signature\":\"");
    assert(ascii_bytes(text).take(22) =~= ascii_bytes("{\"Reset\":{\"new_root\":\""@));
    assert(ascii_bytes(text).subrange(86, 101) =~= ascii_bytes("\",\"signature\":\""@));
    assert(ascii_bytes(text).skip(229) =~= ascii_bytes("\"}}"@));
    assert(text.subrange(22, 86) =~= hex_text(new_root));
    assert(text.subrange(101, 229) =~= hex_text(signature));
    assert(ascii_bytes(text).subrange(22, 86) =~= ascii_bytes(text.subrange(22, 86)));
    assert(ascii_bytes(text).subrange(101, 229) =~= ascii_bytes(text.subrange(101, 229)));
}

/// Where the parts of a batch's document stand.
proof fn lemma_batch_document(old_root: Seq<u8>, new_root: Seq<u8>)
    requires
        old_root.len() == 32,
        new_root.len() == 32,
    ensures
        ({
            let bytes = ascii_bytes(
                json_text(json_of_payload(PayloadView::TransferBatch { old_root, new_root })),
            );
            &&& bytes.len() > 2
            &&& bytes[2] == 'T' as u8
            &&& bytes.subrange(30, 94) == ascii_bytes(hex_text(new_root))
            &&& bytes.subrange(108, 172) == ascii_bytes(hex_text(old_root))
        }),
{
    batch_documents_are_laid_out(old_root, new_root);
}

/// Where the parts of a reset's document stand.
proof fn lemma_reset_document(new_root: Seq<u8>, signature: Seq<u8>)
    requires
        new_root.len() == 32,
        signature.len() == 64,
    ensures
        ({
            let bytes = ascii_bytes(
                json_text(json_of_payload(PayloadView::Reset { new_root, signature })),
            );
            &&& bytes.len() > 2
            &&& bytes[2] == 'R' as u8
            &&& bytes.subrange(22, 86) == ascii_bytes(hex_text(new_root))
            &&& bytes.subrange(101, 229) == ascii_bytes(hex_text(signature))
        }),
{
    reset_documents_are_laid_out(new_root, signature);
}

/// The bytes that a payload is written as stand for no other payload.
pub proof fn payload_bytes_tell_apart(a: Payload, b: Payload)
    requires
        ascii_bytes(json_text(json_of_payload(a@))) == ascii_bytes(
            json_text(json_of_payload(b@)),
        ),
    ensures
        a@ == b@,
{
    match a@ {
        PayloadView::TransferBatch { old_root, new_root } => {
            lemma_batch_document(old_root, new_root);
        },
        PayloadView::Reset { new_root, signature } => {
            lemma_reset_document(new_root, signature);
        },
    }
    match b@ {
        PayloadView::TransferBatch { old_root, new_root } => {
            lemma_batch_document(old_root, new_root);
        },
        PayloadView::Reset { new_root, signature } => {
            lemma_reset_document(new_root, signature);
        },
    }
    match (a@, b@) {
        (
            PayloadView::TransferBatch { old_root: old_a, new_root: new_a },
            PayloadView::TransferBatch { old_root: old_b, new_root: new_b },
        ) => {
            hex_tells_apart(old_a, old_b);
            hex_tells_apart(new_a, new_b);
        },
        (
            PayloadView::Reset { new_root: new_a, signature: signature_a },
            PayloadView::Reset { new_root: new_b, signature: signature_b },
        ) => {
            hex_tells_apart(new_a, new_b);
            hex_tells_apart(signature_a, signature_b);
        },
        _ => {},
    }
}

} // verus!
