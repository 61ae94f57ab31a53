//! What holds of the service's verdicts: which work it takes, why it refuses the rest, and what
//! becomes of the root on the chain.

use crate::accumulation::{accumulated, stored_root, stored_root_step, work_item_step,
    WorkItemStepView};
use crate::builder::BuilderView;
use crate::codec::{outputs_are_laid_out, parse_output, parse_transfers};
use crate::console::service_chosen;
use crate::crypto::ed25519_accepts;
use crate::hexadecimal::{first_non_hex, fixed_hex, hex_fault_text, hex_value, is_hex, parse_hex,
    quoted_character, without_0x};
use crate::json::{read_payload, PayloadJsonView};
use crate::ledger::{PayloadView, TransferView};
use crate::refinement::{acceptable, all_acceptable, batch_root, faults_are_found, refined,
    refined_batch, refined_reset, signed_by_admin, transfer_fault, transfer_message, RefusalView,
    TransferFault};
use crate::sayings::{begins, ends, lemma_ends};
use crate::submission::{chain_root, ChainErrorView};
use crate::text::decimal;
use vstd::prelude::*;
use vstd::utf8::encode_utf8;

verus! {

// ---------------------------------------------------------------------------------------------
// Transfers

/// Whether a transfer moves something, from one key to another, and the sender's key accepts its
/// signature.
pub open spec fn good(t: TransferView) -> bool {
    &&& t.amount > 0
    &&& t.from != t.to
    &&& ed25519_accepts(
        t.from,
        t.signature,
        transfer_message(t.from, t.to, t.nonce, t.amount),
    )
}

/// The service takes the transfers that are good and no others.
pub proof fn good_transfers_are_acceptable(t: TransferView)
    ensures
        acceptable(t) <==> good(t),
        transfer_fault(t) is None <==> good(t),
        transfer_fault(t) == Some(TransferFault::ZeroAmount) <==> t.amount == 0,
        transfer_fault(t) == Some(TransferFault::SelfTransfer) <==> t.amount > 0 && t.from == t.to,
        transfer_fault(t) == Some(TransferFault::InvalidSignature) <==> t.amount > 0 && t.from
            != t.to && !ed25519_accepts(
            t.from,
            t.signature,
            transfer_message(t.from, t.to, t.nonce, t.amount),
        ),
{
}

/// Whether all of some transfers are good.
pub open spec fn all_good(ts: Seq<TransferView>) -> bool {
    forall|i: int| 0 <= i < ts.len() ==> good(#[trigger] ts[i])
}

/// All transfers are acceptable where all are good.
proof fn lemma_all_good(ts: Seq<TransferView>)
    ensures
        all_acceptable(ts) <==> all_good(ts),
{
    if all_acceptable(ts) {
        assert forall|i: int| 0 <= i < ts.len() implies good(#[trigger] ts[i]) by {
            assert(acceptable(ts[i]));
            good_transfers_are_acceptable(ts[i]);
        }
    }
    if all_good(ts) {
        assert forall|i: int| 0 <= i < ts.len() implies acceptable(#[trigger] ts[i]) by {
            assert(good(ts[i]));
            good_transfers_are_acceptable(ts[i]);
        }
    }
}

/// A batch is taken where its extrinsic holds transfers that are all good and lead from its old
/// root to its new one; then the two roots are handed on. Else nothing is handed on and the batch
/// is refused. The extrinsic is exported where its transfers are all good and it is no larger than
/// one segment.
pub proof fn batches_are_judged(old_root: Seq<u8>, new_root: Seq<u8>, extrinsic: Option<Seq<u8>>)
    requires
        old_root.len() == 32,
        new_root.len() == 32,
    ensures
        ({
            let verdict = refined_batch(old_root, new_root, extrinsic);
            let readable = extrinsic matches Some(bytes) && parse_transfers(bytes) is Some;
            let ts = parse_transfers(extrinsic->0)->0;
            let taken = readable && all_good(ts) && batch_root(old_root, ts) == new_root;
            &&& verdict.refusal is None <==> taken
            &&& taken ==> verdict.output == seq![0u8] + old_root + new_root
            &&& !taken ==> verdict.output.len() == 0
            &&& verdict.export <==> readable && all_good(ts) && extrinsic->0.len() <= 4104
            &&& verdict.refusal == Some(RefusalView::NoExtrinsic) <==> extrinsic is None
            &&& (verdict.refusal matches Some(refusal) && refusal is UnreadableExtrinsic)
                <==> extrinsic is Some && !readable
            &&& (verdict.refusal matches Some(refusal) && refusal is Transfer) <==> readable
                && !all_good(ts)
            &&& (verdict.refusal matches Some(RefusalView::RootMismatch { computed, claimed }) ==> {
                &&& readable && all_good(ts)
                &&& computed == batch_root(old_root, ts)
                &&& claimed == new_root
                &&& computed != claimed
            })
        }),
{
    if let Some(bytes) = extrinsic {
        if let Some(ts) = parse_transfers(bytes) {
            faults_are_found(ts);
            lemma_all_good(ts);
        }
    }
    outputs_are_laid_out(Seq::empty(), old_root, new_root);
}

/// A batch that is refused for a transfer is refused for its first bad one: those before it are
/// good, and what is said of it is what is wrong with it.
pub proof fn the_first_bad_transfer_is_named(
    old_root: Seq<u8>,
    new_root: Seq<u8>,
    bytes: Seq<u8>,
    index: nat,
    fault: TransferFault,
)
    requires
        refined_batch(old_root, new_root, Some(bytes)).refusal == Some(
            RefusalView::Transfer { index, fault },
        ),
    ensures
        parse_transfers(bytes) matches Some(ts) && {
            let t = ts[index as int];
            &&& index < ts.len()
            &&& all_good(ts.take(index as int))
            &&& !good(t)
            &&& fault is ZeroAmount <==> t.amount == 0
            &&& fault is SelfTransfer <==> t.amount > 0 && t.from == t.to
            &&& fault is InvalidSignature <==> t.amount > 0 && t.from != t.to
        },
{
    let ts = parse_transfers(bytes)->0;
    faults_are_found(ts);
    lemma_all_good(ts.take(index as int));
    good_transfers_are_acceptable(ts[index as int]);
}

/// A reset is taken where the administrator signed it; then its root is handed on. Else nothing is
/// handed on and it is refused. Nothing is ever exported.
pub proof fn resets_are_judged(new_root: Seq<u8>, signature: Seq<u8>, extrinsic: Option<Seq<u8>>)
    requires
        new_root.len() == 32,
    ensures
        ({
            let authorized = signed_by_admin(new_root, signature);
            let verdict = refined_reset(authorized, new_root);
            &&& !verdict.export
            &&& authorized ==> verdict.refusal is None && verdict.output == seq![1u8] + new_root
            &&& !authorized ==> verdict.refusal == Some(RefusalView::NotAuthorized)
                && verdict.output.len() == 0
        }),
{
    outputs_are_laid_out(Seq::empty(), new_root, new_root);
}

/// Refinement judges what the payload says: a batch as a batch, with the two roots that it names
/// and the extrinsic, and a reset as a reset. A payload that cannot be read is refused with what
/// is said of it.
pub proof fn work_is_judged_by_its_payload(
    document: Result<PayloadJsonView, Seq<char>>,
    extrinsic: Option<Seq<u8>>,
)
    ensures
        match read_payload(document) {
            Ok(PayloadView::TransferBatch { old_root, new_root }) => refined(document, extrinsic)
                == refined_batch(old_root, new_root, extrinsic),
            Ok(PayloadView::Reset { new_root, signature }) => refined(document, extrinsic)
                == refined_reset(signed_by_admin(new_root, signature), new_root),
            Err(message) => {
                let verdict = refined(document, extrinsic);
                &&& verdict.output.len() == 0
                &&& !verdict.export
                &&& verdict.refusal == Some(RefusalView::Payload { message })
            },
        },
{
}

// ---------------------------------------------------------------------------------------------
// Payloads

/// The bytes of a text without the `0x` that it may start with.
pub open spec fn bare_octets(text: Seq<char>) -> Seq<u8> {
    if text.len() >= 2 && text[0] == '0' && text[1] == 'x' {
        encode_utf8(text.skip(2))
    } else {
        encode_utf8(text)
    }
}

/// Whether some bytes are all those of hexadecimal digits.
pub open spec fn all_hex_octets(bytes: Seq<u8>) -> bool {
    forall|i: int|
        0 <= i < bytes.len() ==> (48 <= #[trigger] bytes[i] <= 57 || 65 <= bytes[i] <= 70 || 97
            <= bytes[i] <= 102)
}

/// A field of a payload is read where its text, without the `0x` that it may start with, is two
/// hexadecimal digits for each of its bytes and nothing else; it is then what the digits spell.
pub proof fn fields_are_read_as_spelled(text: Seq<char>, len: nat)
    ensures
        ({
            let inner = bare_octets(text);
            &&& fixed_hex(text, len) is Ok <==> inner.len() == 2 * len && all_hex_octets(inner)
            &&& fixed_hex(text, len) matches Ok(bytes) ==> {
                &&& bytes.len() == len
                &&& forall|i: int|
                    0 <= i < len ==> #[trigger] bytes[i] == 16 * octet_value(inner[2 * i])
                        + octet_value(inner[2 * i + 1])
            }
        }),
{
    let inner = bare_octets(text);
    assert(inner == encode_utf8(without_0x(text)));
    lemma_first_non_hex(inner);
    assert(all_hex_octets(inner) <==> first_non_hex(inner) == inner.len()) by {
        if all_hex_octets(inner) {
            assert(forall|i: int| 0 <= i < inner.len() ==> is_hex(#[trigger] inner[i]));
        }
    }
    if let Ok(bytes) = fixed_hex(text, len) {
        assert forall|i: int| 0 <= i < len implies #[trigger] bytes[i] == 16 * octet_value(
            inner[2 * i],
        ) + octet_value(inner[2 * i + 1]) by {
            assert(is_hex(inner[2 * i]));
            assert(is_hex(inner[2 * i + 1]));
            assert(hex_value(inner[2 * i]) == octet_value(inner[2 * i]));
            assert(hex_value(inner[2 * i + 1]) == octet_value(inner[2 * i + 1]));
        }
    }
}

/// What the byte of a hexadecimal digit counts for.
pub open spec fn octet_value(byte: u8) -> int {
    if byte <= 57 {
        byte - 48
    } else if byte <= 70 {
        byte - 55
    } else {
        byte - 87
    }
}

/// A text has no bad digit before its end where all are digits, and only there.
proof fn lemma_first_non_hex(text: Seq<u8>)
    ensures
        first_non_hex(text) <= text.len(),
        first_non_hex(text) == text.len() <==> forall|i: int|
            0 <= i < text.len() ==> is_hex(#[trigger] text[i]),
    decreases text.len(),
{
    if text.len() > 0 {
        let rest = text.drop_first();
        lemma_first_non_hex(rest);
        if first_non_hex(text) == text.len() {
            assert forall|i: int| 0 <= i < text.len() implies is_hex(#[trigger] text[i]) by {
                if i > 0 {
                    assert(rest[i - 1] == text[i]);
                }
            }
        }
        if forall|i: int| 0 <= i < text.len() ==> is_hex(#[trigger] text[i]) {
            assert(is_hex(text[0]));
            assert forall|i: int| 0 <= i < rest.len() implies is_hex(#[trigger] rest[i]) by {
                assert(rest[i] == text[i + 1]);
            }
        }
    }
}

/// A payload's document stands for the payload that its fields spell, each field under its own
/// name and with its own length, where every field spells one.
pub proof fn documents_stand_for_their_fields(first: Seq<char>, second: Seq<char>)
    ensures
        ({
            let batch = read_payload(
                Ok(PayloadJsonView::TransferBatch { old_root: first, new_root: second }),
            );
            &&& batch is Ok <==> fixed_hex(first, 32) is Ok && fixed_hex(second, 32) is Ok
            &&& batch is Ok ==> batch->Ok_0 == (PayloadView::TransferBatch {
                old_root: fixed_hex(first, 32)->Ok_0,
                new_root: fixed_hex(second, 32)->Ok_0,
            })
        }),
        ({
            let reset = read_payload(
                Ok(PayloadJsonView::Reset { new_root: first, signature: second }),
            );
            &&& reset is Ok <==> fixed_hex(first, 32) is Ok && fixed_hex(second, 64) is Ok
            &&& reset is Ok ==> reset->Ok_0 == (PayloadView::Reset {
                new_root: fixed_hex(first, 32)->Ok_0,
                signature: fixed_hex(second, 64)->Ok_0,
            })
        }),
{
}

/// A document that stands for no payload is complained about under the name of its first bad
/// field, in the words that are said of that field; one that cannot be read, in the reader's own.
pub proof fn complaints_name_the_first_bad_field(
    first: Seq<char>,
    second: Seq<char>,
    error: Seq<char>,
)
    ensures
        ({
            let batch = read_payload(
                Ok(PayloadJsonView::TransferBatch { old_root: first, new_root: second }),
            );
            let reset = read_payload(
                Ok(PayloadJsonView::Reset { new_root: first, signature: second }),
            );
            &&& fixed_hex(first, 32) matches Err(why) ==> {
                &&& batch == Err::<PayloadView, Seq<char>>("Invalid old_root hex: "@ + why)
                &&& reset == Err::<PayloadView, Seq<char>>("Invalid new_root hex: "@ + why)
            }
            &&& fixed_hex(first, 32) is Ok && fixed_hex(second, 32) is Err ==> batch == Err::<
                PayloadView,
                Seq<char>,
            >("Invalid new_root hex: "@ + fixed_hex(second, 32)->Err_0)
            &&& fixed_hex(first, 32) is Ok && fixed_hex(second, 64) is Err ==> reset == Err::<
                PayloadView,
                Seq<char>,
            >("Invalid signature hex: "@ + fixed_hex(second, 64)->Err_0)
        }),
        read_payload(Err(error)) matches Err(message) && ends(message, error),
{
    lemma_ends("Failed to parse JSON payload: "@, error);
}

/// What is said of a field that cannot be read begins with how many bytes it should have, and ends
/// with what is wrong: an odd number of digits, another number of bytes, or the first character
/// that is no digit, by its place.
pub proof fn bad_fields_are_described(text: Seq<char>, len: nat)
    ensures
        fixed_hex(text, len) matches Err(message) ==> {
            let inner = bare_octets(text);
            &&& begins(
                message,
                "Failed to decode fixed-length hex ("@ + decimal(len) + " bytes): "@,
            )
            &&& inner.len() % 2 != 0 ==> ends(message, "Odd number of digits"@)
            &&& inner.len() % 2 == 0 && inner.len() != 2 * len ==> ends(
                message,
                "Invalid string length"@,
            )
            &&& inner.len() == 2 * len && 2 * len <= usize::MAX ==> exists|at: int|
                0 <= at < inner.len() && all_hex_octets(#[trigger] inner.take(at)) && !is_hex(
                    inner[at],
                ) && ends(message, " at position "@ + decimal(at as nat))
        },
{
    if let Err(message) = fixed_hex(text, len) {
        let inner = bare_octets(text);
        let fault = parse_hex(inner, len)->Err_0;
        let head = "Failed to decode fixed-length hex ("@ + decimal(len) + " bytes): "@;
        lemma_ends(head, hex_fault_text(fault));
        lemma_first_non_hex(inner);
        if inner.len() == 2 * len && 2 * len <= usize::MAX {
            let at = first_non_hex(inner) as int;
            lemma_before_first_non_hex(inner);
            let words = "Invalid character "@ + quoted_character(inner[at] as char);
            let tail = " at position "@ + decimal(at as nat);
            assert(message =~= (head + words) + tail);
            lemma_ends(head + words, tail);
            assert(all_hex_octets(inner.take(at)));
        }
    }
}

/// What stands before the first bad digit is all digits, and the bad one is none.
proof fn lemma_before_first_non_hex(text: Seq<u8>)
    ensures
        all_hex_octets(text.take(first_non_hex(text) as int)),
        first_non_hex(text) < text.len() ==> !is_hex(text[first_non_hex(text) as int]),
        first_non_hex(text) <= text.len(),
    decreases text.len(),
{
    if text.len() > 0 && is_hex(text[0]) {
        let rest = text.drop_first();
        lemma_before_first_non_hex(rest);
        let at = first_non_hex(text) as int;
        assert forall|i: int| 0 <= i < at implies (48 <= #[trigger] text.take(at)[i] <= 57 || 65
            <= text.take(at)[i] <= 70 || 97 <= text.take(at)[i] <= 102) by {
            if i > 0 {
                assert(rest.take(at - 1)[i - 1] == text.take(at)[i]);
            }
        }
    }
}

// ---------------------------------------------------------------------------------------------
// The root on the chain

/// The root that a stored value stands for: its first 32 bytes, or zeros where it has fewer or
/// where there is none.
pub open spec fn root_held(stored: Option<Seq<u8>>) -> Seq<u8> {
    if stored is Some && stored->0.len() >= 32 {
        stored->0.take(32)
    } else {
        Seq::new(32, |i: int| 0u8)
    }
}

/// The service and the builder read the same root from what is stored, but that the builder
/// notices where it is too short.
pub proof fn stored_roots_are_read(stored: Option<Seq<u8>>)
    ensures
        stored_root(stored) == root_held(stored),
        stored is Some && stored->0.len() < 32 ==> chain_root(stored) == Err::<
            Seq<u8>,
            ChainErrorView,
        >(ChainErrorView::UnreadableRoot),
        !(stored is Some && stored->0.len() < 32) ==> chain_root(stored) == Ok::<
            Seq<u8>,
            ChainErrorView,
        >(root_held(stored)),
{
    if stored is Some && stored->0.len() >= 32 {
        assert(stored->0.subrange(0, 32) =~= stored->0.take(32));
    }
}

/// A batch's output moves the stored root from the batch's old root to its new one, and changes
/// nothing where another root is stored. A reset's output stores its root. Anything else, and a
/// failed refinement, changes nothing.
pub proof fn outputs_move_the_root(
    stored: Option<Seq<u8>>,
    old_root: Seq<u8>,
    new_root: Seq<u8>,
    output: Seq<u8>,
)
    requires
        old_root.len() == 32,
        new_root.len() == 32,
    ensures
        accumulated(stored, None) == stored,
        output.len() >= 65 && output.take(65) == seq![0u8] + old_root + new_root ==> accumulated(
            stored,
            Some(output),
        ) == (if root_held(stored) == old_root {
            Some(new_root)
        } else {
            stored
        }),
        output.len() >= 33 && output.take(33) == seq![1u8] + new_root ==> accumulated(
            stored,
            Some(output),
        ) == Some(new_root),
        output.len() == 0 || output[0] > 1 || output.len() < 33 || (output[0] == 0 && output.len()
            < 65) ==> accumulated(stored, Some(output)) == stored,
{
    outputs_are_laid_out(output, old_root, new_root);
    stored_roots_are_read(stored);
}

/// A batch whose root is written takes a checkpoint whether or not the host wrote it; a reset only
/// where the host did.
pub proof fn checkpoints_follow_writes(
    old_root: Seq<u8>,
    new_root: Seq<u8>,
    stored: Option<Seq<u8>>,
    output: Seq<u8>,
)
    requires
        old_root.len() == 32,
        new_root.len() == 32,
    ensures
        root_held(stored) == old_root ==> stored_root_step(old_root, new_root, stored) == (
        WorkItemStepView::WriteRoot { value: new_root, checkpoint_anyway: true }),
        root_held(stored) != old_root ==> stored_root_step(old_root, new_root, stored) is Drop,
        output.len() >= 65 && output.take(65) == seq![0u8] + old_root + new_root ==> work_item_step(
            Some(output),
        ) == (WorkItemStepView::ReadRoot { old_root, new_root }),
        output.len() >= 33 && output.take(33) == seq![1u8] + new_root ==> work_item_step(
            Some(output),
        ) == (WorkItemStepView::WriteRoot { value: new_root, checkpoint_anyway: false }),
        work_item_step(None) is Drop,
        parse_output(output) is None ==> work_item_step(Some(output)) is Drop,
{
    outputs_are_laid_out(output, old_root, new_root);
    stored_roots_are_read(stored);
}

/// Choosing a service remembers it, adopts the root that the chain holds for it where there is a
/// node to ask and the root can be read, and changes nothing else.
pub proof fn chosen_services_are_adopted(
    s: BuilderView,
    service_id: u32,
    stored: Option<Option<Seq<u8>>>,
)
    ensures
        ({
            let (after, outcome) = service_chosen(s, service_id, stored);
            let too_short = stored is Some && stored->0 is Some && stored->0->0.len() < 32;
            &&& after.service_id == Some(service_id)
            &&& after.root == (if stored is Some && !too_short {
                root_held(stored->0)
            } else {
                s.root
            })
            &&& outcome is Err <==> too_short
            &&& after.accounts == s.accounts
            &&& after.pending == s.pending
            &&& after.rpc_url == s.rpc_url
            &&& after.packages == s.packages
        }),
{
    if stored is Some {
        stored_roots_are_read(stored->0);
    }
}

} // verus!
