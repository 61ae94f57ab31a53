//! What holds of views: a view says of a value what the value holds, field by field, so that what
//! is stated of views is stated of the values themselves.

use crate::accounts::AccountState;
use crate::accumulation::{WorkItemStep, WorkItemStepView};
use crate::builder::{hash_views, outcome_view, url_view, BuilderState};
use crate::chain::batch_view;
use crate::codec::{row_view, row_views, TransferRow};
use crate::console::{lines_view, Command, CommandView};
use crate::errors::{BuilderError, ErrorView};
use crate::json::{document_view, PayloadJson, PayloadJsonView};
use crate::ledger::{transfer_views, OutputView, Payload, PayloadView, RefinementOutput,
    Transfer, TransferView};
use crate::octets::bytes_view;
use crate::order::Pair;
use crate::refinement::{RefineStep, RefineStepView, Refined, Refusal, RefusalView};
use crate::report::{AccountLine, PendingLine};
use crate::submission::{ChainError, ChainErrorView, PackagePlan, Submission};
use crate::text::text_views;
use vstd::prelude::*;

verus! {

/// What is seen of a builder is what it holds.
pub proof fn builders_are_seen_as_they_are(state: BuilderState, index: usize, pair: Pair, i: int)
    ensures
        state@.accounts.contains_key(index) == state.accounts@.contains_key(index),
        state.accounts@.contains_key(index) ==> state@.accounts[index]
            == state.accounts@[index]@,
        state@.root == state.current_root@,
        state@.pending.contains_key(pair) == state.pending_net_transfers@.contains_key(pair),
        state@.pending[pair] == state.pending_net_transfers@[pair],
        state@.rpc_url is Some == state.rpc_url is Some,
        state.rpc_url is Some ==> state@.rpc_url->0 == state.rpc_url->0@,
        state@.service_id == state.service_id,
        state@.packages.len() == state.submitted_packages@.len(),
        0 <= i < state.submitted_packages@.len() ==> state@.packages[i]
            == state.submitted_packages@[i]@,
{
}

/// What is seen of an account is what it holds.
pub proof fn accounts_are_seen_as_they_are(account: AccountState)
    ensures
        account@.keypair == account.keypair@,
        account@.balance == account.balance,
        account@.nonce == account.nonce,
{
}

/// What is seen of transfers, alone or in a list or as rows, is what they hold.
pub proof fn transfers_are_seen_as_they_are(t: Transfer, ts: Seq<Transfer>, row: TransferRow, i: int)
    ensures
        t@ == (TransferView {
            from: t.from@,
            to: t.to@,
            amount: t.amount,
            nonce: t.nonce,
            signature: t.signature@,
        }),
        transfer_views(ts).len() == ts.len(),
        0 <= i < ts.len() ==> transfer_views(ts)[i] == ts[i]@,
        row_view(row) == (TransferView {
            from: row.0@,
            to: row.1@,
            amount: row.2,
            nonce: row.3,
            signature: row.4@,
        }),
{
}

/// What is seen of a list of rows is what they hold.
pub proof fn rows_are_seen_as_they_are(rows: Seq<TransferRow>, i: int)
    ensures
        row_views(rows).len() == rows.len(),
        0 <= i < rows.len() ==> row_views(rows)[i] == row_view(rows[i]),
{
}

/// What is seen of payloads, their documents and refinement outputs is what they hold, every root
/// and signature in its own place.
pub proof fn payloads_are_seen_as_they_are(
    payload: Payload,
    json: PayloadJson,
    output: RefinementOutput,
)
    ensures
        payload matches Payload::TransferBatch { old_root, new_root } ==> payload@ == (
        PayloadView::TransferBatch { old_root: old_root@, new_root: new_root@ }),
        payload matches Payload::Reset { new_root, signature } ==> payload@ == (
        PayloadView::Reset { new_root: new_root@, signature: signature@ }),
        json matches PayloadJson::TransferBatch { old_root, new_root } ==> json@ == (
        PayloadJsonView::TransferBatch { old_root: old_root@, new_root: new_root@ }),
        json matches PayloadJson::Reset { new_root, signature } ==> json@ == (
        PayloadJsonView::Reset { new_root: new_root@, signature: signature@ }),
        document_view(Ok(json)) == Ok::<PayloadJsonView, Seq<char>>(json@),
        output matches RefinementOutput::TransferBatch { old_root, new_root } ==> output@ == (
        OutputView::TransferBatch { old_root: old_root@, new_root: new_root@ }),
        output matches RefinementOutput::Reset { new_root } ==> output@ == (OutputView::Reset {
            new_root: new_root@,
        }),
{
}

/// What is seen of a command is what it asks for, every number in its own place.
pub proof fn commands_are_seen_as_they_are(command: Command)
    ensures
        command is Nothing == command@ is Nothing,
        command is Help == command@ is Help,
        command is Quit == command@ is Quit,
        command is SendBatch == command@ is SendBatch,
        command is SendReset == command@ is SendReset,
        command is LastTransfers == command@ is LastTransfers,
        command matches Command::State { show_pending_details } ==> command@ == (
        CommandView::State { show_pending_details }),
        command matches Command::SetRpc { url } ==> command@ == (CommandView::SetRpc { url: url@ }),
        command matches Command::SetService { service_id } ==> command@ == (
        CommandView::SetService { service_id }),
        command matches Command::Init { accounts, balance } ==> command@ == (CommandView::Init {
            accounts,
            balance,
        }),
        command matches Command::Transfer { from, to, amount } ==> command@ == (
        CommandView::Transfer { from, to, amount }),
        command matches Command::RemovePair { index_a, index_b } ==> command@ == (
        CommandView::RemovePair { index_a, index_b }),
        command matches Command::Misused { message } ==> command@ == (CommandView::Misused {
            message: message@,
        }),
        command matches Command::Refused { message } ==> command@ == (CommandView::Refused {
            message: message@,
        }),
        command matches Command::Fatal { message } ==> command@ == (CommandView::Fatal {
            message: message@,
        }),
        command matches Command::Unknown { word } ==> command@ == (CommandView::Unknown {
            word: word@,
        }),
{
}

/// What is seen of a builder's error is what it is about, every number in its own place.
pub proof fn builder_errors_are_seen_as_they_are(error: BuilderError)
    ensures
        error is ZeroAmount == error@ is ZeroAmount,
        error is SamePair == error@ is SamePair,
        error is NoPendingTransfers == error@ is NoPendingTransfers,
        error is NoNetTransfers == error@ is NoNetTransfers,
        error is PayloadEncoding == error@ is PayloadEncoding,
        error matches BuilderError::UnknownSender { index } ==> error@ == (
        ErrorView::UnknownSender { index }),
        error matches BuilderError::SelfTransfer { from_index, from, to_index, to } ==> error@ == (
        ErrorView::SelfTransfer { from_index, from: from@, to_index, to: to@ }),
        error matches BuilderError::NoPendingPair { index_a, index_b } ==> error@ == (
        ErrorView::NoPendingPair { index_a, index_b }),
        error matches BuilderError::SenderNotFound { index } ==> error@ == (
        ErrorView::SenderNotFound { index }),
        error matches BuilderError::RecipientNotFound { index } ==> error@ == (
        ErrorView::RecipientNotFound { index }),
        error matches BuilderError::InsufficientBalance { index, sender, balance, amount }
            ==> error@ == (ErrorView::InsufficientBalance {
            index,
            sender: sender@,
            balance,
            amount: amount as nat,
        }),
        outcome_view(Err(error)) == Err::<(), ErrorView>(error@),
        outcome_view(Ok(())) == Ok::<(), ErrorView>(()),
{
}

/// What is seen of a prepared batch is its payload and then its extrinsic.
pub proof fn batches_are_seen_as_they_are(payload: Vec<u8>, extrinsic: Vec<u8>, error: BuilderError)
    ensures
        batch_view(Ok((payload, extrinsic))) == Ok::<(Seq<u8>, Seq<u8>), ErrorView>(
            (payload@, extrinsic@),
        ),
        batch_view(Err(error)) == Err::<(Seq<u8>, Seq<u8>), ErrorView>(error@),
{
}

/// What is seen of an error of the chain's is what it is about.
pub proof fn chain_errors_are_seen_as_they_are(error: ChainError)
    ensures
        error is NotConnected == error@ is NotConnected,
        error is MissingService == error@ is MissingService,
        error is ServiceNotConfigured == error@ is ServiceNotConfigured,
        error is NoCores == error@ is NoCores,
        error is TooManyExtrinsics == error@ is TooManyExtrinsics,
        error is TooManyItems == error@ is TooManyItems,
        error is UnreadableRoot == error@ is UnreadableRoot,
        error matches ChainError::Node { message } ==> error@ == (ChainErrorView::Node {
            message: message@,
        }),
        error matches ChainError::ServiceNotFound { service_id, anchor } ==> error@ == (
        ChainErrorView::ServiceNotFound { service_id, anchor: anchor@ }),
        error matches ChainError::PreimageMissing {
            service_available,
            authorizer_available,
            service_id,
            code_hash,
            authorizer_hash,
            anchor,
        } ==> error@ == (ChainErrorView::PreimageMissing {
            service_available,
            authorizer_available,
            service_id,
            code_hash: code_hash@,
            authorizer_hash: authorizer_hash@,
            anchor: anchor@,
        }),
        error matches ChainError::SubmitFailed { message } ==> error@ == (
        ChainErrorView::SubmitFailed { message: message@ }),
        error matches ChainError::AllCoresFailed { core_count, errors } ==> error@ == (
        ChainErrorView::AllCoresFailed { core_count, errors: text_views(errors@) }),
{
}

/// What is seen of a refusal, and of what comes of refining a work item, is what it holds.
pub proof fn refusals_are_seen_as_they_are(refusal: Refusal, refined: Refined, step: RefineStep)
    ensures
        refusal is NotAuthorized == refusal@ is NotAuthorized,
        refusal is NoExtrinsic == refusal@ is NoExtrinsic,
        refusal matches Refusal::Payload { message } ==> refusal@ == (RefusalView::Payload {
            message: message@,
        }),
        refusal matches Refusal::UnreadableExtrinsic { message } ==> refusal@ == (
        RefusalView::UnreadableExtrinsic { message: message@ }),
        refusal matches Refusal::Transfer { index, fault } ==> refusal@ == (RefusalView::Transfer {
            index: index as nat,
            fault,
        }),
        refusal matches Refusal::RootMismatch { computed, claimed } ==> refusal@ == (
        RefusalView::RootMismatch { computed: computed@, claimed: claimed@ }),
        refined@.output == refined.output@,
        refined@.export == refined.export,
        refined@.refusal is Some == refined.refusal is Some,
        refined.refusal is Some ==> refined@.refusal == Some(refined.refusal->0@),
        step matches RefineStep::Finished { refined } ==> step@ == (RefineStepView::Finished {
            refined: refined@,
        }),
        step matches RefineStep::ReadExtrinsic { old_root, new_root } ==> step@ == (
        RefineStepView::ReadExtrinsic { old_root: old_root@, new_root: new_root@ }),
{
}

/// What is seen of a step of accumulation is what is to be done.
pub proof fn steps_are_seen_as_they_are(step: WorkItemStep)
    ensures
        step is Drop == step@ is Drop,
        step matches WorkItemStep::ReadRoot { old_root, new_root } ==> step@ == (
        WorkItemStepView::ReadRoot { old_root: old_root@, new_root: new_root@ }),
        step matches WorkItemStep::WriteRoot { value, checkpoint_anyway } ==> step@ == (
        WorkItemStepView::WriteRoot { value: value@, checkpoint_anyway }),
{
}

/// What is seen of a plan is what it says, every number and hash in its own place.
pub proof fn plans_are_seen_as_they_are(plan: PackagePlan)
    ensures
        plan@.service == plan.service,
        plan@.code_hash == plan.code_hash@,
        plan@.payload == plan.payload@,
        plan@.refine_gas_limit == plan.refine_gas_limit,
        plan@.accumulate_gas_limit == plan.accumulate_gas_limit,
        plan@.extrinsic_hash == plan.extrinsic_hash@,
        plan@.extrinsic_len == plan.extrinsic_len,
        plan@.export_count == plan.export_count,
        plan@.auth_code_host == plan.auth_code_host,
        plan@.authorizer_hash == plan.authorizer_hash@,
        plan@.context == plan.context@,
        plan@.context.anchor == plan.context.anchor@,
        plan@.context.state_root == plan.context.state_root@,
        plan@.context.beefy_root == plan.context.beefy_root@,
        plan@.context.lookup_anchor == plan.context.lookup_anchor@,
        plan@.context.lookup_anchor_slot == plan.context.lookup_anchor_slot,
{
}

/// What is seen of a submission and of what is shown is what they hold.
pub proof fn lines_are_seen_as_they_are(
    submission: Submission,
    account: AccountLine,
    pending: PendingLine,
)
    ensures
        submission@.core_count == submission.core_count,
        submission@.errors == text_views(submission.errors@),
        account@.index == account.index,
        account@.key == account.key@,
        account@.balance == account.balance,
        account@.nonce == account.nonce,
        pending@.from == pending.from,
        pending@.from_key == pending.from_key@,
        pending@.to == pending.to,
        pending@.to_key == pending.to_key@,
        pending@.amount == pending.amount,
{
}

/// What is seen of texts, and of bytes and texts that may be missing, is what they hold.
pub proof fn texts_are_seen_as_they_are(
    texts: Vec<String>,
    bytes: &[u8],
    url: String,
    hashes: Seq<[u8; 32]>,
    i: int,
)
    ensures
        text_views(texts@).len() == texts@.len(),
        0 <= i < texts@.len() ==> text_views(texts@)[i] == texts@[i]@,
        bytes_view(Some(bytes)) == Some(bytes@),
        bytes_view(None) is None,
        url_view(Some(url)) == Some(url@),
        url_view(None) is None,
        lines_view(Some(texts)) == Some(text_views(texts@)),
        lines_view(None) is None,
        hash_views(hashes).len() == hashes.len(),
        0 <= i < hashes.len() ==> hash_views(hashes)[i] == hashes[i]@,
{
}

} // verus!
