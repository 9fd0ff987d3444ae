//! End-to-end scenarios over the library's state machine, with the group
//! engine's outcomes (group ids, epochs, membership) supplied as the
//! concrete values the engine would report.

use dmls::continuity::{apply_commit, complete_self_update, create_send_group_check,
    exporter_psk_id, require_local_group, DmlsError};
use dmls::keys::SignatureKeyPair;
use dmls::labels::{tuple_key, Label};
use dmls::state::DmlsState;

const ED25519: u16 = 0x0807;
const V: u16 = 1;

fn participant(seed: u8) -> DmlsState {
    let kp = SignatureKeyPair::from_raw(vec![seed; 32], vec![seed; 32], ED25519);
    DmlsState::new(kp)
}

/// Alice creates a send group; Bob joins through a welcome.  The engine
/// supplies the group id and the post-add epoch; both sides record the
/// same group locally.
#[test]
fn create_add_join() {
    let mut alice = participant(1);
    let mut bob = participant(2);
    let group_id = vec![0x67u8];

    // Alice creates her send group: allowed exactly once, queue empty
    assert!(create_send_group_check(&alice).is_ok());
    assert_eq!(alice.clear_exporter_psk_ids(), Vec::<Vec<u8>>::new());
    alice.set_send_group_id(group_id.clone());
    assert_eq!(alice.send_group_id(), Some(group_id.clone()));

    // the engine persists Alice's group state through the store
    let mut store = alice.take_openmls_values();
    store.write(Label::GroupState, &group_id, V, vec![0xa1]).unwrap();
    alice.put_openmls_values(store);
    assert!(require_local_group(&alice, &group_id, V).is_ok());

    // Bob processes the welcome: the engine persists the joined group
    // under the id embedded in the welcome
    let mut bob_store = bob.take_openmls_values();
    bob_store.write(Label::GroupState, &group_id, V, vec![0xb1]).unwrap();
    bob.put_openmls_values(bob_store);
    assert!(require_local_group(&bob, &group_id, V).is_ok());
    // Bob's send group is still unset: the joined group is not his
    assert_eq!(bob.send_group_id(), None);
}

/// Alice self-updates, then injects the queued PSKs: the queue holds
/// exactly the one identifier of the update's epoch, and draining it for
/// the inject commit empties it.
#[test]
fn self_update_then_inject() {
    let mut alice = participant(1);
    let group_id = vec![0x61];
    alice.set_send_group_id(group_id.clone());

    // self-update merged at epoch 1: queue length becomes 1
    let psk = complete_self_update(&mut alice, 1).unwrap();
    assert_eq!(psk, exporter_psk_id(1, &group_id));

    // inject: the drained identifiers become one PSK proposal each, in
    // drain order; here exactly one
    let drained = alice.clear_exporter_psk_ids();
    assert_eq!(drained, vec![psk]);
    // queue length after injection is 0
    assert_eq!(alice.clear_exporter_psk_ids(), Vec::<Vec<u8>>::new());
}

/// A commit that removes Alice's leaf is merged: afterwards every entity
/// under her group id is absent from storage and the PSK queue is
/// unchanged.
#[test]
fn eviction_clears_group_state() {
    let mut alice = participant(1);
    let group_id = vec![0x61];
    let other_group = vec![0x62];
    alice.set_send_group_id(group_id.clone());
    alice.push_exporter_psk_id(vec![0x55]);

    let mut store = alice.take_openmls_values();
    let labels = [
        Label::Tree,
        Label::GroupContext,
        Label::InterimTranscriptHash,
        Label::ConfirmationTag,
        Label::GroupState,
        Label::JoinConfig,
        Label::OwnLeafNodeIndex,
        Label::EpochSecrets,
        Label::ResumptionPskStore,
        Label::MessageSecrets,
    ];
    for l in labels {
        store.write(l, &group_id, V, vec![0xaa]).unwrap();
        store.write(l, &other_group, V, vec![0xbb]).unwrap();
    }
    store.append(Label::OwnLeafNodes, &group_id, V, vec![0xaa]).unwrap();
    store.append(Label::ProposalQueueRefs, &group_id, V, vec![0x11]).unwrap();
    store
        .write(Label::QueuedProposal, &tuple_key(&group_id, &[0x11]), V, vec![0xaa])
        .unwrap();
    // a PSK record is keyed by its identifier, not by the group id
    store.write(Label::Psk, &exporter_psk_id(1, &group_id), V, vec![0xcc]).unwrap();
    alice.put_openmls_values(store);

    // the merged commit removed Alice's leaf
    assert_eq!(apply_commit(&mut alice, &group_id, &group_id, V, 2, false), None);

    let store = alice.openmls_values();
    for l in labels {
        assert_eq!(store.read(l, &group_id, V).unwrap(), None, "{l:?} survived eviction");
        assert_eq!(store.read(l, &other_group, V).unwrap(), Some(vec![0xbb]));
    }
    assert_eq!(store.read_list(Label::OwnLeafNodes, &group_id, V).unwrap(), Vec::<Vec<u8>>::new());
    assert_eq!(
        store.read_list(Label::ProposalQueueRefs, &group_id, V).unwrap(),
        Vec::<Vec<u8>>::new()
    );
    assert_eq!(
        store.read(Label::QueuedProposal, &tuple_key(&group_id, &[0x11]), V).unwrap(),
        None
    );
    // the PSK record and the queue are untouched
    assert_eq!(
        store.read(Label::Psk, &exporter_psk_id(1, &group_id), V).unwrap(),
        Some(vec![0xcc])
    );
    assert_eq!(alice.clear_exporter_psk_ids(), vec![vec![0x55]]);
}

/// Two commits arrive before the next injection: both epochs' PSK
/// identifiers are queued, in epoch order, and one drain hands back both.
#[test]
fn two_commits_queue_two_psks_in_order() {
    let mut alice = participant(1);
    let group_id = vec![0x61];
    apply_commit(&mut alice, &group_id, &group_id, V, 5, true).unwrap();
    apply_commit(&mut alice, &group_id, &group_id, V, 6, true).unwrap();
    assert_eq!(
        alice.clear_exporter_psk_ids(),
        vec![exporter_psk_id(5, &group_id), exporter_psk_id(6, &group_id)]
    );
}
