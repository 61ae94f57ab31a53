//! Submitting work packages to the chain: what is sent, on which core, and what is made of what
//! the node answers.

use crate::builder::{BuilderState, BuilderView};
use crate::codec::{decode_root, natural, parse_root};
use crate::hexadecimal::{hex_encode, hex_text};
use crate::ledger::{zero_root, StateRoot};
use crate::octets::{append_bytes, bytes_view};
use crate::refinement::{fits_segment, segment_bytes};
use crate::text::{append_number, decimal, join_lines, joined, service_id_chars, service_id_text,
    text_views, truth, truth_text};
use jam_codec::Encode;
use jam_types::{AuthConfig, Authorization, Authorizer, ExtrinsicSpec, RefineContext, WorkItem,
    WorkPackage};
use vstd::bytes::{spec_u16_to_le_bytes, spec_u32_to_le_bytes, spec_u64_to_le_bytes};
use vstd::prelude::*;

verus! {

/// The service that hosts the authorizer's code.
pub const BOOTSTRAP_SERVICE_ID: u32 = 0;

/// How many status updates of a submitted package are waited for.
pub const STATUS_UPDATES: u8 = 20;

// ---------------------------------------------------------------------------------------------
// Errors

/// Why something could not be had from the chain or sent to it.
#[derive(Debug)]
pub enum ChainError {
    /// There is no connection to a node.
    NotConnected,
    /// A package is to be submitted and no service was chosen.
    MissingService,
    /// The chain's root is to be read and no service was chosen.
    ServiceNotConfigured,
    /// The chain has no core to work on packages.
    NoCores,
    /// The node's own words.
    Node { message: String },
    /// The chosen service does not exist.
    ServiceNotFound { service_id: u32, anchor: String },
    /// The node lacks the code of the service or of the authorizer.
    PreimageMissing {
        service_available: bool,
        authorizer_available: bool,
        service_id: u32,
        code_hash: [u8; 32],
        authorizer_hash: [u8; 32],
        anchor: String,
    },
    /// The chain's parameters leave no room for the work item's extrinsic.
    TooManyExtrinsics,
    /// The chain's parameters leave no room for the package's work item.
    TooManyItems,
    /// The node refused the package.
    SubmitFailed { message: String },
    /// No core took the package.
    AllCoresFailed { core_count: u16, errors: Vec<String> },
    /// The stored state root is too short.
    UnreadableRoot,
}

/// What a [`ChainError`] says, with its texts and byte strings as sequences.
#[verifier::ext_equal]
pub enum ChainErrorView {
    NotConnected,
    MissingService,
    ServiceNotConfigured,
    NoCores,
    Node { message: Seq<char> },
    ServiceNotFound { service_id: u32, anchor: Seq<char> },
    PreimageMissing {
        service_available: bool,
        authorizer_available: bool,
        service_id: u32,
        code_hash: Seq<u8>,
        authorizer_hash: Seq<u8>,
        anchor: Seq<char>,
    },
    TooManyExtrinsics,
    TooManyItems,
    SubmitFailed { message: Seq<char> },
    AllCoresFailed { core_count: u16, errors: Seq<Seq<char>> },
    UnreadableRoot,
}

impl View for ChainError {
    type V = ChainErrorView;

    open spec fn view(&self) -> ChainErrorView {
        match self {
            ChainError::NotConnected => ChainErrorView::NotConnected,
            ChainError::MissingService => ChainErrorView::MissingService,
            ChainError::ServiceNotConfigured => ChainErrorView::ServiceNotConfigured,
            ChainError::NoCores => ChainErrorView::NoCores,
            ChainError::Node { message } => ChainErrorView::Node { message: message@ },
            ChainError::ServiceNotFound { service_id, anchor } => ChainErrorView::ServiceNotFound {
                service_id: *service_id,
                anchor: anchor@,
            },
            ChainError::PreimageMissing {
                service_available,
                authorizer_available,
                service_id,
                code_hash,
                authorizer_hash,
                anchor,
            } => ChainErrorView::PreimageMissing {
                service_available: *service_available,
                authorizer_available: *authorizer_available,
                service_id: *service_id,
                code_hash: code_hash@,
                authorizer_hash: authorizer_hash@,
                anchor: anchor@,
            },
            ChainError::TooManyExtrinsics => ChainErrorView::TooManyExtrinsics,
            ChainError::TooManyItems => ChainErrorView::TooManyItems,
            ChainError::SubmitFailed { message } => ChainErrorView::SubmitFailed {
                message: message@,
            },
            ChainError::AllCoresFailed { core_count, errors } => ChainErrorView::AllCoresFailed {
                core_count: *core_count,
                errors: text_views(errors@),
            },
            ChainError::UnreadableRoot => ChainErrorView::UnreadableRoot,
        }
    }
}

/// What is said of an error.
pub open spec fn chain_error_text(error: ChainErrorView) -> Seq<char> {
    match error {
        ChainErrorView::NotConnected => "RPC client not configured"@,
        ChainErrorView::MissingService => "Missing service_id"@,
        ChainErrorView::ServiceNotConfigured => "Service not configured. Use: service <hex_id>"@,
        ChainErrorView::NoCores => "Chain reports core_count=0"@,
        ChainErrorView::Node { message } => message,
        ChainErrorView::ServiceNotFound { service_id, anchor } => "Service "@ + decimal(
            service_id as nat,
        ) + " not found at anchor "@ + anchor,
        ChainErrorView::PreimageMissing {
            service_available,
            authorizer_available,
            service_id,
            code_hash,
            authorizer_hash,
            anchor,
        } => {
            "Preflight failed before submit: code preimage missing. service_preimage_available="@
                + truth(service_available) + ", authorizer_preimage_available="@ + truth(
                authorizer_available,
            ) + "\nservice="@ + service_id_chars(service_id) + ", service_code_hash="@ + hex_text(
                code_hash,
            ) + ", auth_code_host="@ + service_id_chars(BOOTSTRAP_SERVICE_ID)
                + ", null_authorizer_hash="@ + hex_text(authorizer_hash) + ", anchor="@ + anchor
                + "\nHint: this commonly happens when targeting externally deployed services whose code preimage is not available to this node."@
        },
        ChainErrorView::TooManyExtrinsics => "Too many extrinsics in work item"@,
        ChainErrorView::TooManyItems => "Too many work items in package"@,
        ChainErrorView::SubmitFailed { message } => "submit_work_package failed: "@ + message
            + "\nHint: this often means no reachable guarantor for the selected core/anchor, authorizer mismatch, or package validation rejection."@,
        ChainErrorView::AllCoresFailed { core_count, errors } => "Submission failed on all "@
            + decimal(core_count as nat) + " cores.\n"@ + joined(errors),
        ChainErrorView::UnreadableRoot => "Failed to decode service state_root storage value"@,
    }
}

impl ChainError {
    /// What is said of the error.
    pub fn message(&self) -> (text: String)
        ensures
            text@ == chain_error_text(self@),
    {
        match self {
            ChainError::NotConnected => "RPC client not configured".to_owned(),
            ChainError::MissingService => "Missing service_id".to_owned(),
            ChainError::ServiceNotConfigured => {
                "Service not configured. Use: service <hex_id>".to_owned()
            },
            ChainError::NoCores => "Chain reports core_count=0".to_owned(),
            ChainError::Node { message } => message.clone(),
            ChainError::ServiceNotFound { service_id, anchor } => {
                let mut text: String = "Service ".to_owned();
                append_number(&mut text, *service_id as u64);
                text.append(" not found at anchor ");
                text.append(anchor.as_str());
                text
            },
            ChainError::PreimageMissing {
                service_available,
                authorizer_available,
                service_id,
                code_hash,
                authorizer_hash,
                anchor,
            } => {
                let mut text: String =
                    "Preflight failed before submit: code preimage missing. service_preimage_available=".to_owned();
                text.append(truth_text(*service_available));
                text.append(", authorizer_preimage_available=");
                text.append(truth_text(*authorizer_available));
                text.append("\nservice=");
                text.append(service_id_text(*service_id).as_str());
                text.append(", service_code_hash=");
                text.append(hex_encode(code_hash.as_slice()).as_str());
                text.append(", auth_code_host=");
                text.append(service_id_text(BOOTSTRAP_SERVICE_ID).as_str());
                text.append(", null_authorizer_hash=");
                text.append(hex_encode(authorizer_hash.as_slice()).as_str());
                text.append(", anchor=");
                text.append(anchor.as_str());
                text.append(
                    "\nHint: this commonly happens when targeting externally deployed services whose code preimage is not available to this node.",
                );
                text
            },
            ChainError::TooManyExtrinsics => "Too many extrinsics in work item".to_owned(),
            ChainError::TooManyItems => "Too many work items in package".to_owned(),
            ChainError::SubmitFailed { message } => {
                let mut text: String = "submit_work_package failed: ".to_owned();
                text.append(message.as_str());
                text.append(
                    "\nHint: this often means no reachable guarantor for the selected core/anchor, authorizer mismatch, or package validation rejection.",
                );
                text
            },
            ChainError::AllCoresFailed { core_count, errors } => {
                let mut text: String = "Submission failed on all ".to_owned();
                append_number(&mut text, *core_count as u64);
                text.append(" cores.\n");
                text.append(join_lines(errors).as_str());
                text
            },
            ChainError::UnreadableRoot => {
                "Failed to decode service state_root storage value".to_owned()
            },
        }
    }
}

// ---------------------------------------------------------------------------------------------
// The package

/// The hash by which the chain knows some bytes.
pub uninterp spec fn chain_hash(data: Seq<u8>) -> Seq<u8>;

/// Calls `jam_std_common::hash_raw`. Claimed of it: the hash is a function of the data.
#[verifier::external_body]
fn hash_of(data: &[u8]) -> (hash: [u8; 32])
    ensures
        hash@ == chain_hash(data@),
{
    jam_std_common::hash_raw(data)
}

/// Where the chain stands as a package is made.
#[derive(Clone, Copy, Debug)]
pub struct ChainContext {
    /// The best block, that the package is anchored to, and its roots.
    pub anchor: [u8; 32],
    pub state_root: [u8; 32],
    pub beefy_root: [u8; 32],
    /// The last final block.
    pub lookup_anchor: [u8; 32],
    pub lookup_anchor_slot: u32,
}

/// A package with one work item, to be submitted.
#[derive(Debug)]
pub struct PackagePlan {
    pub service: u32,
    pub code_hash: [u8; 32],
    pub payload: Vec<u8>,
    pub refine_gas_limit: u64,
    pub accumulate_gas_limit: u64,
    pub extrinsic_hash: [u8; 32],
    pub extrinsic_len: u32,
    pub export_count: u16,
    pub auth_code_host: u32,
    pub authorizer_hash: [u8; 32],
    pub context: ChainContext,
}

/// What a [`ChainContext`] says.
#[verifier::ext_equal]
pub struct ChainContextView {
    pub anchor: Seq<u8>,
    pub state_root: Seq<u8>,
    pub beefy_root: Seq<u8>,
    pub lookup_anchor: Seq<u8>,
    pub lookup_anchor_slot: u32,
}

impl View for ChainContext {
    type V = ChainContextView;

    open spec fn view(&self) -> ChainContextView {
        ChainContextView {
            anchor: self.anchor@,
            state_root: self.state_root@,
            beefy_root: self.beefy_root@,
            lookup_anchor: self.lookup_anchor@,
            lookup_anchor_slot: self.lookup_anchor_slot,
        }
    }
}

/// What a [`PackagePlan`] says.
#[verifier::ext_equal]
pub struct PackagePlanView {
    pub service: u32,
    pub code_hash: Seq<u8>,
    pub payload: Seq<u8>,
    pub refine_gas_limit: u64,
    pub accumulate_gas_limit: u64,
    pub extrinsic_hash: Seq<u8>,
    pub extrinsic_len: u32,
    pub export_count: u16,
    pub auth_code_host: u32,
    pub authorizer_hash: Seq<u8>,
    pub context: ChainContextView,
}

impl View for PackagePlan {
    type V = PackagePlanView;

    open spec fn view(&self) -> PackagePlanView {
        PackagePlanView {
            service: self.service,
            code_hash: self.code_hash@,
            payload: self.payload@,
            refine_gas_limit: self.refine_gas_limit,
            accumulate_gas_limit: self.accumulate_gas_limit,
            extrinsic_hash: self.extrinsic_hash@,
            extrinsic_len: self.extrinsic_len,
            export_count: self.export_count,
            auth_code_host: self.auth_code_host,
            authorizer_hash: self.authorizer_hash@,
            context: self.context@,
        }
    }
}

/// How many segments a work item announces: those that it is to export, unless its extrinsic does
/// not fit in one.
pub open spec fn announced_exports(extrinsic_len: nat, export_count: u16) -> u16 {
    if extrinsic_len <= segment_bytes() {
        export_count
    } else {
        0
    }
}

/// Computes how many segments a work item announces.
pub fn expected_export_count(extrinsic_len: usize, export_count: u16) -> (count: u16)
    ensures
        count == announced_exports(extrinsic_len as nat, export_count),
{
    if fits_segment(extrinsic_len) {
        export_count
    } else {
        0
    }
}

/// Computes the hash of the authorizer's code.
pub fn authorizer_hash(code: &[u8]) -> (hash: [u8; 32])
    ensures
        hash@ == chain_hash(code@),
{
    hash_of(code)
}

/// The code of the service that a package is for, if the chain knows that service.
pub fn service_code(
    code_hash: Option<[u8; 32]>,
    service_id: u32,
    anchor: String,
) -> (result: Result<[u8; 32], ChainError>)
    ensures
        match code_hash {
            Some(hash) => result matches Ok(found) && found == hash,
            None => {
                &&& result matches Err(error)
                &&& error@ == (ChainErrorView::ServiceNotFound { service_id, anchor: anchor@ })
            },
        },
{
    match code_hash {
        Some(hash) => Ok(hash),
        None => Err(ChainError::ServiceNotFound { service_id, anchor }),
    }
}

/// Checks that the node has the code of the service and of the authorizer, before a package is
/// submitted.
pub fn preflight(
    service_available: bool,
    authorizer_available: bool,
    service_id: u32,
    code_hash: [u8; 32],
    authorizer_hash: [u8; 32],
    anchor: String,
) -> (result: Result<(), ChainError>)
    ensures
        if service_available && authorizer_available {
            result is Ok
        } else {
            &&& result matches Err(error)
            &&& error@ == (ChainErrorView::PreimageMissing {
                service_available,
                authorizer_available,
                service_id,
                code_hash: code_hash@,
                authorizer_hash: authorizer_hash@,
                anchor: anchor@,
            })
        },
{
    if !service_available || !authorizer_available {
        return Err(
            ChainError::PreimageMissing {
                service_available,
                authorizer_available,
                service_id,
                code_hash,
                authorizer_hash,
                anchor,
            },
        );
    }
    Ok(())
}

/// The package that carries a payload and an extrinsic to a service.
pub open spec fn planned(
    service: u32,
    code_hash: Seq<u8>,
    payload: Seq<u8>,
    extrinsic: Seq<u8>,
    export_count: u16,
    refine_gas_limit: u64,
    accumulate_gas_limit: u64,
    authorizer_hash: Seq<u8>,
    context: ChainContextView,
) -> PackagePlanView {
    PackagePlanView {
        service,
        code_hash,
        payload,
        refine_gas_limit,
        accumulate_gas_limit,
        extrinsic_hash: chain_hash(extrinsic),
        extrinsic_len: (extrinsic.len() % 0x1_0000_0000) as u32,
        export_count: announced_exports(extrinsic.len(), export_count),
        auth_code_host: BOOTSTRAP_SERVICE_ID,
        authorizer_hash,
        context,
    }
}

/// Plans the package that carries a payload and an extrinsic to a service.
pub fn plan_package(
    service: u32,
    code_hash: [u8; 32],
    payload: &[u8],
    extrinsic: &[u8],
    export_count: u16,
    refine_gas_limit: u64,
    accumulate_gas_limit: u64,
    authorizer_hash: [u8; 32],
    context: ChainContext,
) -> (plan: PackagePlan)
    ensures
        plan@ == planned(
            service,
            code_hash@,
            payload@,
            extrinsic@,
            export_count,
            refine_gas_limit,
            accumulate_gas_limit,
            authorizer_hash@,
            context@,
        ),
{
    let len: u64 = extrinsic.len() as u64;
    let mut item_payload: Vec<u8> = Vec::new();
    append_bytes(&mut item_payload, payload);
    assert(item_payload@ =~= payload@);
    PackagePlan {
        service,
        code_hash,
        payload: item_payload,
        refine_gas_limit,
        accumulate_gas_limit,
        extrinsic_hash: hash_of(extrinsic),
        extrinsic_len: (len % 0x1_0000_0000) as u32,
        export_count: expected_export_count(extrinsic.len(), export_count),
        auth_code_host: BOOTSTRAP_SERVICE_ID,
        authorizer_hash,
        context,
    }
}

/// The bytes of a package's context: where the chain stands, and no prerequisites.
pub open spec fn context_bytes(context: ChainContextView) -> Seq<u8> {
    context.anchor + context.state_root + context.beefy_root + context.lookup_anchor
        + spec_u32_to_le_bytes(context.lookup_anchor_slot) + natural(0)
}

/// The bytes of a package's one work item: no imports, and one extrinsic, given by its hash and
/// length.
pub open spec fn work_item_bytes(plan: PackagePlanView) -> Seq<u8> {
    spec_u32_to_le_bytes(plan.service) + plan.code_hash + spec_u64_to_le_bytes(
        plan.refine_gas_limit,
    ) + spec_u64_to_le_bytes(plan.accumulate_gas_limit) + spec_u16_to_le_bytes(plan.export_count)
        + natural(plan.payload.len()) + plan.payload + natural(0) + natural(1)
        + plan.extrinsic_hash + spec_u32_to_le_bytes(plan.extrinsic_len)
}

/// The bytes of the work package that a plan describes: who authorizes it, its context, an empty
/// authorization, an empty authorizer configuration, and one work item.
pub open spec fn package_bytes(plan: PackagePlanView) -> Seq<u8> {
    spec_u32_to_le_bytes(plan.auth_code_host) + plan.authorizer_hash + context_bytes(plan.context)
        + natural(0) + natural(0) + natural(1) + work_item_bytes(plan)
}

/// Why a planned package cannot be encoded.
#[derive(Debug)]
pub enum PackageFault {
    /// The chain's parameters allow no extrinsic in a work item.
    Extrinsics,
    /// The chain's parameters allow no work item in a package.
    Items,
}

/// Calls `jam_codec::Encode::encode` on the `jam_types::WorkPackage` made of the arguments. Claimed
/// of it: the fields follow each other in the order of [`package_bytes`], integers of fixed width
/// from the least significant byte on, and lists and byte strings behind their length. A length
/// over `u32::MAX` makes it panic, and is left out. Whether there is room for the extrinsic in the
/// item and for the item in the package depends on the process-wide chain parameters, and nothing
/// is said of that.
#[verifier::external_body]
fn encode_work_package(
    service: u32,
    code_hash: [u8; 32],
    payload: Vec<u8>,
    refine_gas_limit: u64,
    accumulate_gas_limit: u64,
    extrinsic_hash: [u8; 32],
    extrinsic_len: u32,
    export_count: u16,
    auth_code_host: u32,
    authorizer_hash: [u8; 32],
    anchor: [u8; 32],
    state_root: [u8; 32],
    beefy_root: [u8; 32],
    lookup_anchor: [u8; 32],
    lookup_anchor_slot: u32,
) -> (result: Result<Vec<u8>, PackageFault>)
    requires
        payload@.len() <= u32::MAX,
    ensures
        result matches Ok(bytes) ==> bytes@ == package_bytes(
            (PackagePlanView {
                service,
                code_hash: code_hash@,
                payload: payload@,
                refine_gas_limit,
                accumulate_gas_limit,
                extrinsic_hash: extrinsic_hash@,
                extrinsic_len,
                export_count,
                auth_code_host,
                authorizer_hash: authorizer_hash@,
                context: (ChainContextView {
                    anchor: anchor@,
                    state_root: state_root@,
                    beefy_root: beefy_root@,
                    lookup_anchor: lookup_anchor@,
                    lookup_anchor_slot,
                }),
            }),
        ),
{
    let spec = ExtrinsicSpec { hash: extrinsic_hash.into(), len: extrinsic_len };
    let extrinsics = vec![spec].try_into().or(Err(PackageFault::Extrinsics))?;
    let item = WorkItem { service, code_hash: code_hash.into(), payload: payload.into(),
        refine_gas_limit, accumulate_gas_limit, import_segments: Default::default(), extrinsics,
        export_count };
    let authorizer = Authorizer { code_hash: authorizer_hash.into(), config: AuthConfig::new() };
    let context = RefineContext { anchor: anchor.into(), state_root: state_root.into(),
        beefy_root: beefy_root.into(), lookup_anchor: lookup_anchor.into(), lookup_anchor_slot,
        prerequisites: Default::default() };
    Ok(WorkPackage { authorization: Authorization::new(), auth_code_host, authorizer, context,
        items: vec![item].try_into().or(Err(PackageFault::Items))? }.encode())
}

/// A package that is ready to be submitted.
#[derive(Debug)]
pub struct SealedPackage {
    /// Its encoding.
    pub bytes: Vec<u8>,
    /// The hash by which it is known.
    pub hash: [u8; 32],
}

/// Seals a package that was encoded, or says why it could not be.
pub fn seal_encoding(encoding: Result<Vec<u8>, PackageFault>) -> (result: Result<
    SealedPackage,
    ChainError,
>)
    ensures
        match encoding {
            Ok(bytes) => {
                &&& result matches Ok(sealed)
                &&& sealed.bytes@ == bytes@
                &&& sealed.hash@ == chain_hash(bytes@)
            },
            Err(PackageFault::Extrinsics) => {
                &&& result matches Err(error)
                &&& error@ == ChainErrorView::TooManyExtrinsics
            },
            Err(PackageFault::Items) => {
                &&& result matches Err(error)
                &&& error@ == ChainErrorView::TooManyItems
            },
        },
{
    match encoding {
        Ok(bytes) => {
            let hash: [u8; 32] = hash_of(bytes.as_slice());
            Ok(SealedPackage { bytes, hash })
        },
        Err(PackageFault::Extrinsics) => Err(ChainError::TooManyExtrinsics),
        Err(PackageFault::Items) => Err(ChainError::TooManyItems),
    }
}

/// Encodes a planned package and computes its hash. It fails only where the chain's parameters
/// leave no room for one extrinsic or for one work item.
pub fn seal_package(plan: PackagePlan) -> (result: Result<SealedPackage, ChainError>)
    requires
        plan@.payload.len() <= u32::MAX,
    ensures
        match result {
            Ok(sealed) => {
                &&& sealed.bytes@ == package_bytes(plan@)
                &&& sealed.hash@ == chain_hash(package_bytes(plan@))
            },
            Err(error) => error@ == ChainErrorView::TooManyExtrinsics || error@
                == ChainErrorView::TooManyItems,
        },
{
    let context: ChainContext = plan.context;
    let encoding: Result<Vec<u8>, PackageFault> = encode_work_package(
        plan.service,
        plan.code_hash,
        plan.payload,
        plan.refine_gas_limit,
        plan.accumulate_gas_limit,
        plan.extrinsic_hash,
        plan.extrinsic_len,
        plan.export_count,
        plan.auth_code_host,
        plan.authorizer_hash,
        context.anchor,
        context.state_root,
        context.beefy_root,
        context.lookup_anchor,
        context.lookup_anchor_slot,
    );
    seal_encoding(encoding)
}

// ---------------------------------------------------------------------------------------------
// One core after the other

/// A submission under way: the cores are tried in order until one takes the package.
#[derive(Debug)]
pub struct Submission {
    /// How many cores the chain has.
    pub core_count: u16,
    /// What was said of the cores that did not take the package.
    pub errors: Vec<String>,
}

/// What a [`Submission`] says.
#[verifier::ext_equal]
pub struct SubmissionView {
    pub core_count: u16,
    pub errors: Seq<Seq<char>>,
}

impl View for Submission {
    type V = SubmissionView;

    open spec fn view(&self) -> SubmissionView {
        SubmissionView { core_count: self.core_count, errors: text_views(self.errors@) }
    }
}

impl SubmissionView {
    /// Whether a core is left to try.
    pub open spec fn open(self) -> bool {
        self.errors.len() < self.core_count
    }
}

/// What came of trying a core: what is said of it and the package's hash, or the error.
pub type CoreOutcome = Result<(String, [u8; 32]), ChainError>;

/// What is said of a core that did not take the package.
pub open spec fn core_error(core: nat, error: Seq<char>) -> Seq<char> {
    "core "@ + decimal(core) + ": "@ + error
}

/// What is said of a core that took the package.
pub open spec fn core_selected(core: nat, message: Seq<char>) -> Seq<char> {
    "Selected core "@ + decimal(core) + " and updated default core.\n"@ + message
}

/// A submission once one more core did not take the package.
pub open spec fn core_failed(s: SubmissionView, error: Seq<char>) -> SubmissionView {
    SubmissionView { errors: s.errors.push(core_error(s.errors.len(), error)), ..s }
}

impl Submission {
    /// Starts a submission on a chain with so many cores.
    pub fn begin(core_count: u16) -> (result: Result<Submission, ChainError>)
        ensures
            match result {
                Ok(submission) => {
                    &&& core_count != 0
                    &&& submission@ == (SubmissionView { core_count, errors: Seq::empty() })
                },
                Err(error) => core_count == 0 && error@ == ChainErrorView::NoCores,
            },
    {
        if core_count == 0 {
            return Err(ChainError::NoCores);
        }
        let submission = Submission { core_count, errors: Vec::new() };
        assert(submission@.errors =~= Seq::empty());
        Ok(submission)
    }

    /// The core to try next.
    pub fn next_core(&self) -> (core: u16)
        requires
            self@.open(),
        ensures
            core == self@.errors.len(),
    {
        self.errors.len() as u16
    }

    /// Goes on once a core was tried. A core that takes the package ends the submission, and the
    /// builder remembers the package; one that does not is followed by the next, if there is one.
    pub fn on_outcome(&mut self, state: &mut BuilderState, outcome: CoreOutcome) -> (end: Option<
        Result<String, ChainError>,
    >)
        requires
            old(self)@.open(),
        ensures
            match outcome {
                Ok((message, hash)) => {
                    &&& final(self)@ == old(self)@
                    &&& final(state)@ == (BuilderView {
                        packages: old(state)@.packages.push(hash@),
                        ..old(state)@
                    })
                    &&& end matches Some(Ok(text))
                    &&& text@ == core_selected(old(self)@.errors.len(), message@)
                },
                Err(error) => {
                    &&& final(self)@ == core_failed(old(self)@, chain_error_text(error@))
                    &&& final(state)@ == old(state)@
                    &&& if final(self)@.open() {
                        end is None
                    } else {
                        &&& end matches Some(Err(failure))
                        &&& failure@ == (ChainErrorView::AllCoresFailed {
                            core_count: old(self)@.core_count,
                            errors: final(self)@.errors,
                        })
                    }
                },
            },
    {
        let core: u16 = self.next_core();
        match outcome {
            Ok((message, hash)) => {
                state.insert_package(hash);
                let mut text: String = "Selected core ".to_owned();
                append_number(&mut text, core as u64);
                text.append(" and updated default core.\n");
                text.append(message.as_str());
                Some(Ok(text))
            },
            Err(error) => {
                let mut line: String = "core ".to_owned();
                append_number(&mut line, core as u64);
                line.append(": ");
                line.append(error.message().as_str());
                self.errors.push(line);
                assert(self@.errors =~= core_failed(old(self)@, chain_error_text(error@)).errors);
                if self.errors.len() < self.core_count as usize {
                    return None;
                }
                let mut errors: Vec<String> = Vec::new();
                let mut i: usize = 0;
                while i < self.errors.len()
                    invariant
                        i <= self.errors@.len(),
                        text_views(errors@) == text_views(self.errors@).take(i as int),
                    decreases self.errors@.len() - i,
                {
                    let ghost before = text_views(errors@);
                    errors.push(self.errors[i].clone());
                    assert(text_views(errors@) =~= before.push(self.errors@[i as int]@));
                    i += 1;
                }
                assert(text_views(errors@) =~= self@.errors);
                Some(Err(ChainError::AllCoresFailed { core_count: self.core_count, errors }))
            },
        }
    }
}

/// A submission that so many cores refused with these errors.
pub open spec fn refused_by(core_count: u16, errors: Seq<Seq<char>>) -> SubmissionView {
    SubmissionView {
        core_count,
        errors: Seq::new(errors.len(), |core: int| core_error(core as nat, errors[core])),
    }
}

/// The cores are tried in order, each once: the error that follows some others is that of the core
/// whose number is how many they are.
pub proof fn cores_are_tried_in_order(core_count: u16, errors: Seq<Seq<char>>, error: Seq<char>)
    ensures
        core_failed(refused_by(core_count, errors), error) == refused_by(
            core_count,
            errors.push(error),
        ),
        refused_by(core_count, errors).open() <==> errors.len() < core_count,
{
    assert(core_failed(refused_by(core_count, errors), error).errors =~= refused_by(
        core_count,
        errors.push(error),
    ).errors);
}

// ---------------------------------------------------------------------------------------------
// What becomes of a submitted package

/// How far a submitted package has come.
#[derive(Clone, Copy, Debug)]
pub enum PackageStage {
    Reportable,
    Reported,
    Ready,
    Failed,
}

/// What the node says of a submitted package.
#[derive(Debug)]
pub enum StatusEvent {
    /// Its status changed.
    Update { slot: u32, stage: PackageStage, status: String },
    /// The node's own words on why it cannot tell.
    Error { message: String },
    /// There is nothing more to come.
    Closed,
}

/// A watch over a submitted package.
#[derive(Debug)]
pub struct StatusWatch {
    /// How many updates are still waited for.
    pub updates_left: u8,
    /// What is last known.
    pub message: String,
}

/// Whether a package that came so far goes no further.
pub open spec fn is_final(stage: PackageStage) -> bool {
    stage is Ready || stage is Failed
}

/// What is known of a package after an event.
pub open spec fn status_after(message: Seq<char>, event: StatusEvent) -> Seq<char> {
    match event {
        StatusEvent::Update { slot, stage, status } => "slot "@ + decimal(slot as nat) + ": "@
            + status@,
        StatusEvent::Error { message: words } => "status subscription error: "@ + words@,
        StatusEvent::Closed => message,
    }
}

impl StatusWatch {
    /// Starts a watch.
    pub fn begin() -> (watch: StatusWatch)
        ensures
            watch.updates_left == STATUS_UPDATES,
            watch.message@ == "submitted (no status update yet)"@,
    {
        StatusWatch {
            updates_left: STATUS_UPDATES,
            message: "submitted (no status update yet)".to_owned(),
        }
    }

    /// Takes in an event, and tells whether to wait for another.
    pub fn on_event(&mut self, event: StatusEvent) -> (more: bool)
        requires
            old(self).updates_left > 0,
        ensures
            final(self).updates_left == old(self).updates_left - 1,
            final(self).message@ == status_after(old(self).message@, event),
            more == (final(self).updates_left > 0 && (event matches StatusEvent::Update {
                slot,
                stage,
                status,
            } && !is_final(stage))),
    {
        self.updates_left = self.updates_left - 1;
        match event {
            StatusEvent::Update { slot, stage, status } => {
                let mut message: String = "slot ".to_owned();
                append_number(&mut message, slot as u64);
                message.append(": ");
                message.append(status.as_str());
                self.message = message;
                match stage {
                    PackageStage::Ready | PackageStage::Failed => false,
                    PackageStage::Reportable | PackageStage::Reported => self.updates_left > 0,
                }
            },
            StatusEvent::Error { message: words } => {
                let mut message: String = "status subscription error: ".to_owned();
                message.append(words.as_str());
                self.message = message;
                false
            },
            StatusEvent::Closed => false,
        }
    }
}

/// What is said of a submitted package.
pub open spec fn submitted_text(
    service_id: u32,
    core: u16,
    anchor: Seq<char>,
    payload_len: nat,
    extrinsic_len: nat,
    hash: Seq<u8>,
    status: Seq<char>,
) -> Seq<char> {
    "WorkPackage submitted:\n  - Service: "@ + service_id_chars(service_id) + "\n  - Core: "@
        + decimal(core as nat) + "\n  - Anchor: "@ + anchor + "\n  - Payload: "@ + decimal(
        payload_len,
    ) + " bytes\n  - Extrinsic: "@ + decimal(extrinsic_len) + " bytes\n  - Hash: "@ + hex_text(hash)
        + "\n  - Status: "@ + status
}

/// Says what was submitted.
pub fn submitted_message(
    service_id: u32,
    core: u16,
    anchor: &str,
    payload_len: usize,
    extrinsic_len: usize,
    hash: &[u8; 32],
    status: &str,
) -> (text: String)
    ensures
        text@ == submitted_text(
            service_id,
            core,
            anchor@,
            payload_len as nat,
            extrinsic_len as nat,
            hash@,
            status@,
        ),
{
    let mut text: String = "WorkPackage submitted:\n  - Service: ".to_owned();
    text.append(service_id_text(service_id).as_str());
    text.append("\n  - Core: ");
    append_number(&mut text, core as u64);
    text.append("\n  - Anchor: ");
    text.append(anchor);
    text.append("\n  - Payload: ");
    append_number(&mut text, payload_len as u64);
    text.append(" bytes\n  - Extrinsic: ");
    append_number(&mut text, extrinsic_len as u64);
    text.append(" bytes\n  - Hash: ");
    text.append(hex_encode(hash.as_slice()).as_str());
    text.append("\n  - Status: ");
    text.append(status);
    text
}

// ---------------------------------------------------------------------------------------------
// The root on the chain

/// The root that the chain's stored value stands for: the zero root where there is none.
pub open spec fn chain_root(stored: Option<Seq<u8>>) -> Result<Seq<u8>, ChainErrorView> {
    match stored {
        None => Ok(zero_root()),
        Some(bytes) => match parse_root(bytes) {
            Some(root) => Ok(root),
            None => Err(ChainErrorView::UnreadableRoot),
        },
    }
}

/// Reads the root that the chain's stored value stands for.
pub fn read_chain_root(stored: Option<&[u8]>) -> (result: Result<StateRoot, ChainError>)
    ensures
        match chain_root(bytes_view(stored)) {
            Ok(root) => result matches Ok(found) && found@ == root,
            Err(error) => result matches Err(found) && found@ == error,
        },
{
    match stored {
        None => {
            let zero: StateRoot = [0u8; 32];
            assert(zero@ =~= zero_root());
            Ok(zero)
        },
        Some(bytes) => match decode_root(bytes) {
            Some(root) => Ok(root),
            None => Err(ChainError::UnreadableRoot),
        },
    }
}

impl BuilderState {
    /// The service that packages are submitted to.
    pub fn target_service(&self) -> (result: Result<u32, ChainError>)
        ensures
            match self@.service_id {
                Some(id) => result matches Ok(found) && found == id,
                None => result matches Err(error) && error@ == ChainErrorView::MissingService,
            },
    {
        match self.service_id {
            Some(id) => Ok(id),
            None => Err(ChainError::MissingService),
        }
    }

    /// The service whose root is read.
    pub fn configured_service(&self) -> (result: Result<u32, ChainError>)
        ensures
            match self@.service_id {
                Some(id) => result matches Ok(found) && found == id,
                None => result matches Err(error) && error@ == ChainErrorView::ServiceNotConfigured,
            },
    {
        match self.service_id {
            Some(id) => Ok(id),
            None => Err(ChainError::ServiceNotConfigured),
        }
    }

    /// Adopts the chain's root, and hands back the one that was held.
    pub fn adopt_root(&mut self, root: StateRoot) -> (before: StateRoot)
        ensures
            before@ == old(self)@.root,
            final(self)@ == (BuilderView { root: root@, ..old(self)@ }),
    {
        let before: StateRoot = self.current_root;
        self.current_root = root;
        before
    }
}

} // verus!
