//! The continuity orchestrator: the decisions the agent makes around the
//! group engine's results.
//!
//! The engine itself (group creation, commit validation, welcome
//! processing, secret derivation) is an external collaborator driven by
//! the caller; every function here takes the engine's outcome as plain
//! values and is verified for each value the engine can produce.  The
//! heart of the module is commit application: every successful commit
//! merge leaves exactly one externally observable side effect — a freshly
//! queued continuity PSK when the participant stays in the group, or the
//! removal of all the group's entities when the commit evicted it.

use vstd::prelude::*;
use vstd::utf8::{decode_utf8, valid_utf8};
use crate::bytes::be64;
use crate::state::DmlsState;
use crate::store::key_in_group;
use crate::labels::{storage_key_spec, Label};

verus! {

/// The error kinds of the orchestrator: storage shape mismatches,
/// protocol-ordering preconditions violated by the caller, and malformed
/// incoming data.
#[derive(Clone, Copy, Debug, PartialEq, Eq, Structural)]
pub enum DmlsError {
    /// A stored value was encoded or decoded against the wrong shape.
    StorageSerialization,
    /// A send group already exists for this identity.
    SendGroupExists,
    /// No send group exists yet.
    NoSendGroup,
    /// No local group matches the incoming message's group id.
    NoLocalGroup,
    /// Incoming application bytes were not valid UTF-8.
    Decoding,
    /// The incoming message carried a content kind this agent does not
    /// handle.
    UnsupportedContent,
}

impl DmlsError {
    /// The error's message, surfaced verbatim to the caller.
    pub fn message(&self) -> (r: &'static str)
        ensures
            *self is SendGroupExists ==> r@ == "Send group already exists"@,
            *self is NoSendGroup ==> r@ == "No send group exists"@,
            *self is NoLocalGroup ==> r@ == "No local group found with the given Group ID"@,
    {
        match self {
            DmlsError::StorageSerialization => "Serialization error in key-value store",
            DmlsError::SendGroupExists => "Send group already exists",
            DmlsError::NoSendGroup => "No send group exists",
            DmlsError::NoLocalGroup => "No local group found with the given Group ID",
            DmlsError::Decoding => "Application payload is not valid UTF-8",
            DmlsError::UnsupportedContent => "Unsupported processed message content",
        }
    }
}

/// The identifier of the exporter PSK of one epoch of one group: the
/// big-endian epoch number followed by the raw group id.
pub open spec fn exporter_psk_id_spec(epoch: u64, group_id: Seq<u8>) -> Seq<u8> {
    be64(epoch) + group_id
}

/// Builds the exporter-PSK identifier of an epoch of a group.
pub fn exporter_psk_id(epoch: u64, group_id: &[u8]) -> (r: Vec<u8>)
    ensures
        r@ == exporter_psk_id_spec(epoch, group_id@),
{
    let mut out = crate::bytes::be_bytes_u64(epoch);
    out.extend_from_slice(group_id);
    proof {
        assert(out@ =~= exporter_psk_id_spec(epoch, group_id@));
    }
    out
}

/// The fixed label under which the group's exporter is evaluated when a
/// continuity PSK is derived.
pub open spec fn exporter_psk_label_spec() -> Seq<u8> {
    // "exporter_psk"
    seq![0x65, 0x78, 0x70, 0x6f, 0x72, 0x74, 0x65, 0x72, 0x5f, 0x70, 0x73, 0x6b]
}

/// The exporter label, as bytes.
pub fn exporter_psk_label() -> (r: Vec<u8>)
    ensures
        r@ == exporter_psk_label_spec(),
{
    // "exporter_psk"
    let r: Vec<u8> = vec![0x65, 0x78, 0x70, 0x6f, 0x72, 0x74, 0x65, 0x72, 0x5f, 0x70, 0x73, 0x6b];
    proof {
        assert(r@ =~= exporter_psk_label_spec());
    }
    r
}

/// Whether a send group may still be created: the send-group id is unset.
pub open spec fn create_send_group_allowed(s: DmlsState) -> bool {
    s.send_group_id_spec().len() == 0
}

/// The precondition of creating a send group: one send group per
/// identity.  Fails when a send-group id is already recorded.
pub fn create_send_group_check(state: &DmlsState) -> (r: Result<(), DmlsError>)
    ensures
        r is Ok <==> create_send_group_allowed(*state),
        r is Err ==> r->Err_0 == DmlsError::SendGroupExists,
{
    match state.send_group_id() {
        None => Ok(()),
        Some(_) => Err(DmlsError::SendGroupExists),
    }
}

/// The send-group id, required to be set: the precondition of every
/// operation on the send group.
pub fn require_send_group(state: &DmlsState) -> (r: Result<Vec<u8>, DmlsError>)
    ensures
        r is Ok <==> state.send_group_id_spec().len() > 0,
        r is Ok ==> r->Ok_0@ == state.send_group_id_spec(),
        r is Err ==> r->Err_0 == DmlsError::NoSendGroup,
{
    match state.send_group_id() {
        Some(g) => Ok(g),
        None => Err(DmlsError::NoSendGroup),
    }
}

/// Whether a group with the given id has local state: its group-state
/// entity is present in the store.
pub fn has_local_group(state: &DmlsState, group_id: &[u8], version: u16) -> (r: bool)
    ensures
        r <==> state.store_spec().dom().contains(
            storage_key_spec(Label::GroupState, group_id@, version),
        ),
{
    state.openmls_values.contains_key(Label::GroupState, group_id, version)
}

/// The precondition of processing an incoming protocol message: a local
/// group matching the message's group id must exist; it is never created
/// on demand.
pub fn require_local_group(state: &DmlsState, group_id: &[u8], version: u16) -> (r: Result<
    (),
    DmlsError,
>)
    ensures
        r is Ok <==> state.store_spec().dom().contains(
            storage_key_spec(Label::GroupState, group_id@, version),
        ),
        r is Err ==> r->Err_0 == DmlsError::NoLocalGroup,
{
    if has_local_group(state, group_id, version) {
        Ok(())
    } else {
        Err(DmlsError::NoLocalGroup)
    }
}

/// Relies on `String::from_utf8`: it succeeds exactly on valid UTF-8 and
/// decodes it, scalar by scalar, per the UTF-8 scheme.
#[verifier::external_body]
fn utf8_to_string(bytes: Vec<u8>) -> (r: Option<String>)
    ensures
        r is Some <==> valid_utf8(bytes@),
        r is Some ==> r->0@ == decode_utf8(bytes@),
{
    String::from_utf8(bytes).ok()
}

/// Decodes an application payload as UTF-8 text.  Invalid UTF-8 is an
/// error, never substituted with a placeholder.
pub fn plaintext(app_msg: Vec<u8>) -> (r: Result<String, DmlsError>)
    ensures
        r is Ok <==> valid_utf8(app_msg@),
        r is Ok ==> r->Ok_0@ == decode_utf8(app_msg@),
        r is Err ==> r->Err_0 == DmlsError::Decoding,
{
    match utf8_to_string(app_msg) {
        Some(s) => Ok(s),
        None => Err(DmlsError::Decoding),
    }
}

/// The credential identity of this participant: the first eight bytes of
/// its signature public key.
pub fn credential_identity(public_key: &[u8]) -> (r: Vec<u8>)
    requires
        public_key@.len() >= 8,
    ensures
        r@ == public_key@.subrange(0, 8),
{
    let mut out: Vec<u8> = Vec::new();
    let mut i: usize = 0;
    while i < 8
        invariant
            0 <= i <= 8,
            public_key@.len() >= 8,
            out@ =~= public_key@.subrange(0, i as int),
        decreases 8 - i,
    {
        out.push(public_key[i]);
        proof {
            assert(out@ =~= public_key@.subrange(0, i + 1));
        }
        i = i + 1;
    }
    out
}

/// Applies the outcome of a successful commit merge on the group whose
/// raw id is `group_id`, whose entities are stored under the raw storage
/// key `group_key`, and whose post-merge epoch is `epoch`.
///
/// When the merge left the participant in the group, the exporter-PSK
/// identifier of the new epoch is queued for injection into the next
/// commit, the store is untouched, and the identifier is returned so the
/// caller can derive and store the secret itself.  When the commit
/// removed the participant, every entity of the group is deleted from
/// the store, the queue is untouched, and nothing is returned: the group
/// cannot be resurrected from local state afterwards.
pub fn apply_commit(
    state: &mut DmlsState,
    group_id: &[u8],
    group_key: &[u8],
    version: u16,
    epoch: u64,
    is_active: bool,
) -> (r: Option<Vec<u8>>)
    ensures
        final(state).send_group_id_spec() == old(state).send_group_id_spec(),
        final(state).key_pair_spec() == old(state).key_pair_spec(),
        is_active ==> final(state).queue_spec() == old(state).queue_spec().push(
            exporter_psk_id_spec(epoch, group_id@),
        ) && final(state).store_spec() == old(state).store_spec() && r is Some && r->0@
            == exporter_psk_id_spec(epoch, group_id@),
        !is_active ==> final(state).queue_spec() == old(state).queue_spec() && r is None && (
        forall|k: Seq<u8>|
            key_in_group(k, group_key@, version) ==> !final(state).store_spec().dom().contains(k))
            && (forall|k: Seq<u8>|
            !key_in_group(k, group_key@, version) ==> final(state).store_spec().dom().contains(k)
                == old(state).store_spec().dom().contains(k)) && (forall|k: Seq<u8>|
            !key_in_group(k, group_key@, version) && old(state).store_spec().dom().contains(k)
                ==> final(state).store_spec()[k] == old(state).store_spec()[k]),
{
    if is_active {
        let psk_id = exporter_psk_id(epoch, group_id);
        let queued = vstd::slice::slice_to_vec(psk_id.as_slice());
        state.push_exporter_psk_id(queued);
        Some(psk_id)
    } else {
        state.openmls_values.delete_group(group_key, version);
        None
    }
}

/// Completes a self-initiated key update on the send group after the
/// engine merged the update commit: the new epoch's exporter-PSK
/// identifier is queued, and returned so the caller can derive and store
/// the secret.  A self-update can never evict the participant, so the
/// PSK is queued unconditionally.
pub fn complete_self_update(state: &mut DmlsState, epoch: u64) -> (r: Result<Vec<u8>, DmlsError>)
    ensures
        r is Ok <==> old(state).send_group_id_spec().len() > 0,
        r is Err ==> r->Err_0 == DmlsError::NoSendGroup && *final(state) == *old(state),
        r is Ok ==> r->Ok_0@ == exporter_psk_id_spec(epoch, old(state).send_group_id_spec())
            && final(state).queue_spec() == old(state).queue_spec().push(
            exporter_psk_id_spec(epoch, old(state).send_group_id_spec()),
        ) && final(state).send_group_id_spec() == old(state).send_group_id_spec() && final(state).key_pair_spec() == old(state).key_pair_spec() && final(state).store_spec() == old(state).store_spec(),
{
    let g = match require_send_group(state) {
        Ok(g) => g,
        Err(e) => {
            return Err(e);
        },
    };
    let psk_id = exporter_psk_id(epoch, g.as_slice());
    let queued = vstd::slice::slice_to_vec(psk_id.as_slice());
    state.push_exporter_psk_id(queued);
    Ok(psk_id)
}

/// One processed incoming message, after the engine validated it: an
/// application payload, a staged commit the engine has merged, or a
/// content kind this agent does not handle.
pub enum IncomingContent {
    Application(Vec<u8>),
    StagedCommit,
    Unsupported,
}

/// What processing an incoming message produced: decoded plaintext, or
/// an applied commit together with the PSK identifier to derive and
/// store (`None` when the commit evicted the participant).
#[derive(Debug, PartialEq, Eq)]
pub enum IncomingOutcome {
    Plaintext(String),
    CommitApplied(Option<Vec<u8>>),
}

/// Dispatches the content of one processed incoming message.
/// Application payloads are decoded as UTF-8 and handed back; staged
/// commits are applied as `apply_commit` does; any other content kind is
/// an error, never silently ignored.
pub fn process_incoming_content(
    state: &mut DmlsState,
    group_id: &[u8],
    group_key: &[u8],
    version: u16,
    epoch: u64,
    is_active: bool,
    content: IncomingContent,
) -> (r: Result<IncomingOutcome, DmlsError>)
    ensures
        final(state).send_group_id_spec() == old(state).send_group_id_spec(),
        final(state).key_pair_spec() == old(state).key_pair_spec(),
        content matches IncomingContent::Application(b) ==> {
            &&& *final(state) == *old(state)
            &&& valid_utf8(b@) ==> (r matches Ok(IncomingOutcome::Plaintext(s)) && s@
                == decode_utf8(b@))
            &&& !valid_utf8(b@) ==> r == Err::<IncomingOutcome, DmlsError>(DmlsError::Decoding)
        },
        content is StagedCommit ==> (r matches Ok(IncomingOutcome::CommitApplied(id)) && {
            &&& is_active ==> {
                &&& final(state).queue_spec() == old(state).queue_spec().push(
                    exporter_psk_id_spec(epoch, group_id@),
                )
                &&& final(state).store_spec() == old(state).store_spec()
                &&& id matches Some(p) && p@ == exporter_psk_id_spec(epoch, group_id@)
            }
            &&& !is_active ==> {
                &&& final(state).queue_spec() == old(state).queue_spec()
                &&& id is None
                &&& forall|k: Seq<u8>|
                    key_in_group(k, group_key@, version) ==> !final(state).store_spec().dom().contains(k)
            }
        }),
        content is Unsupported ==> *final(state) == *old(state) && r == Err::<
            IncomingOutcome,
            DmlsError,
        >(DmlsError::UnsupportedContent),
{
    match content {
        IncomingContent::Application(b) => {
            match plaintext(b) {
                Ok(s) => Ok(IncomingOutcome::Plaintext(s)),
                Err(e) => Err(e),
            }
        },
        IncomingContent::StagedCommit => {
            let id = apply_commit(state, group_id, group_key, version, epoch, is_active);
            Ok(IncomingOutcome::CommitApplied(id))
        },
        IncomingContent::Unsupported => Err(DmlsError::UnsupportedContent),
    }
}

} // verus!
