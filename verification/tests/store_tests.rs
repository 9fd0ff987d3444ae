use dmls::labels::{build_key_from_vec, epoch_key_pairs_id, label_vec, storage_key, tuple_key,
    Label};
use dmls::store::{OpenMlsKeyValueStore, OpenMlsKeyValueStoreError, StorageValue};

fn b(v: &[u8]) -> Vec<u8> {
    v.to_vec()
}

#[test]
fn scalar_write_read_overwrite_delete() {
    let mut s = OpenMlsKeyValueStore::new();
    assert_eq!(s.read(Label::Tree, &[1, 2], 1).unwrap(), None);
    s.write(Label::Tree, &[1, 2], 1, b(&[9, 9])).unwrap();
    assert_eq!(s.read(Label::Tree, &[1, 2], 1).unwrap(), Some(b(&[9, 9])));
    // last write wins
    s.write(Label::Tree, &[1, 2], 1, b(&[7])).unwrap();
    assert_eq!(s.read(Label::Tree, &[1, 2], 1).unwrap(), Some(b(&[7])));
    // deleting is idempotent
    s.delete(Label::Tree, &[1, 2], 1).unwrap();
    assert_eq!(s.read(Label::Tree, &[1, 2], 1).unwrap(), None);
    s.delete(Label::Tree, &[1, 2], 1).unwrap();
    assert_eq!(s.read(Label::Tree, &[1, 2], 1).unwrap(), None);
}

#[test]
fn list_append_then_read_list_ends_with_value() {
    let mut s = OpenMlsKeyValueStore::new();
    assert_eq!(s.read_list(Label::ProposalQueueRefs, &[5], 1).unwrap(), Vec::<Vec<u8>>::new());
    s.append(Label::ProposalQueueRefs, &[5], 1, b(&[1])).unwrap();
    s.append(Label::ProposalQueueRefs, &[5], 1, b(&[2])).unwrap();
    s.append(Label::ProposalQueueRefs, &[5], 1, b(&[1])).unwrap();
    let lst = s.read_list(Label::ProposalQueueRefs, &[5], 1).unwrap();
    assert_eq!(lst, vec![b(&[1]), b(&[2]), b(&[1])]);
    assert_eq!(lst.last().unwrap(), &b(&[1]));
}

#[test]
fn remove_item_removes_first_occurrence_only() {
    let mut s = OpenMlsKeyValueStore::new();
    s.append(Label::ProposalQueueRefs, &[5], 1, b(&[1])).unwrap();
    s.append(Label::ProposalQueueRefs, &[5], 1, b(&[2])).unwrap();
    s.append(Label::ProposalQueueRefs, &[5], 1, b(&[1])).unwrap();
    s.remove_item(Label::ProposalQueueRefs, &[5], 1, &[1]).unwrap();
    let lst = s.read_list(Label::ProposalQueueRefs, &[5], 1).unwrap();
    assert_eq!(lst, vec![b(&[2]), b(&[1])]);
    // removing an absent item is a no-op
    s.remove_item(Label::ProposalQueueRefs, &[5], 1, &[9]).unwrap();
    assert_eq!(s.read_list(Label::ProposalQueueRefs, &[5], 1).unwrap(), vec![b(&[2]), b(&[1])]);
    // removing from an absent key is a no-op
    s.remove_item(Label::OwnLeafNodes, &[6], 1, &[1]).unwrap();
    assert_eq!(s.read_list(Label::OwnLeafNodes, &[6], 1).unwrap(), Vec::<Vec<u8>>::new());
}

#[test]
fn shape_mismatch_is_serialization_error() {
    let mut s = OpenMlsKeyValueStore::new();
    s.write(Label::Tree, &[1], 1, b(&[0])).unwrap();
    assert_eq!(
        s.append(Label::Tree, &[1], 1, b(&[2])),
        Err(OpenMlsKeyValueStoreError::SerializationError)
    );
    assert_eq!(
        s.remove_item(Label::Tree, &[1], 1, &[0]),
        Err(OpenMlsKeyValueStoreError::SerializationError)
    );
    assert_eq!(
        s.read_list(Label::Tree, &[1], 1),
        Err(OpenMlsKeyValueStoreError::SerializationError)
    );
    s.append(Label::OwnLeafNodes, &[1], 1, b(&[2])).unwrap();
    assert_eq!(
        s.read(Label::OwnLeafNodes, &[1], 1),
        Err(OpenMlsKeyValueStoreError::SerializationError)
    );
}

#[test]
fn storage_keys_of_distinct_triples_never_collide() {
    let labels = [
        Label::KeyPackage,
        Label::Psk,
        Label::EncryptionKeyPair,
        Label::SignatureKeyPair,
        Label::EpochKeyPairs,
        Label::Tree,
        Label::GroupContext,
        Label::InterimTranscriptHash,
        Label::ConfirmationTag,
        Label::JoinConfig,
        Label::OwnLeafNodes,
        Label::GroupState,
        Label::QueuedProposal,
        Label::ProposalQueueRefs,
        Label::OwnLeafNodeIndex,
        Label::EpochSecrets,
        Label::ResumptionPskStore,
        Label::MessageSecrets,
    ];
    let keys: [&[u8]; 4] = [&[], &[0], &[0, 0], &[1, 2, 3]];
    let versions = [0u16, 1, u16::MAX];
    let mut seen: Vec<Vec<u8>> = Vec::new();
    for l in labels {
        for k in keys {
            for v in versions {
                let enc = storage_key(l, k, v);
                assert!(!seen.contains(&enc), "collision for {l:?} {k:?} {v}");
                seen.push(enc);
            }
        }
    }
}

#[test]
fn build_key_from_vec_exact_encoding() {
    // "Tree" ++ raw key ++ big-endian version
    let k = build_key_from_vec(&label_vec(Label::Tree), vec![0xab], 0x0102);
    assert_eq!(k, vec![b'T', b'r', b'e', b'e', 0xab, 0x01, 0x02]);
    let k0 = build_key_from_vec(b"Psk", vec![], 0);
    assert_eq!(k0, vec![b'P', b's', b'k', 0, 0]);
}

#[test]
fn tuple_key_is_length_prefixed() {
    let k = tuple_key(&[0xaa, 0xbb], &[0xcc]);
    assert_eq!(k, vec![0, 0, 0, 0, 0, 0, 0, 2, 0xaa, 0xbb, 0xcc]);
    // distinct splits of the same bytes stay distinct
    assert_ne!(tuple_key(&[1], &[2, 3]), tuple_key(&[1, 2], &[3]));
}

#[test]
fn epoch_key_pairs_id_encoding() {
    let k = epoch_key_pairs_id(&[7], &[0xee], 0x01020304);
    assert_eq!(k, vec![0, 0, 0, 0, 0, 0, 0, 1, 7, 0xee, 0x01, 0x02, 0x03, 0x04]);
}

#[test]
fn queued_proposals_pairs_refs_with_proposals() {
    let mut s = OpenMlsKeyValueStore::new();
    let g: &[u8] = &[9];
    // queue two proposals as the engine facade would
    for (r, p) in [(b(&[0x11]), b(&[0xa1])), (b(&[0x22]), b(&[0xa2]))] {
        let pk = tuple_key(g, &r);
        s.write(Label::QueuedProposal, &pk, 1, p).unwrap();
        s.append(Label::ProposalQueueRefs, g, 1, r).unwrap();
    }
    let pairs = s.queued_proposals(g, 1).unwrap();
    assert_eq!(pairs, vec![(b(&[0x11]), b(&[0xa1])), (b(&[0x22]), b(&[0xa2]))]);
    // a dangling reference is a serialization error
    s.append(Label::ProposalQueueRefs, g, 1, b(&[0x33])).unwrap();
    assert_eq!(s.queued_proposals(g, 1), Err(OpenMlsKeyValueStoreError::SerializationError));
}

#[test]
fn remove_proposal_removes_ref_and_proposal() {
    let mut s = OpenMlsKeyValueStore::new();
    let g: &[u8] = &[9];
    for (r, p) in [(b(&[0x11]), b(&[0xa1])), (b(&[0x22]), b(&[0xa2]))] {
        let pk = tuple_key(g, &r);
        s.write(Label::QueuedProposal, &pk, 1, p).unwrap();
        s.append(Label::ProposalQueueRefs, g, 1, r).unwrap();
    }
    s.remove_proposal(g, &[0x11], 1).unwrap();
    assert_eq!(s.read_list(Label::ProposalQueueRefs, g, 1).unwrap(), vec![b(&[0x22])]);
    let gone = tuple_key(g, &[0x11]);
    assert_eq!(s.read(Label::QueuedProposal, &gone, 1).unwrap(), None);
    assert_eq!(s.queued_proposals(g, 1).unwrap(), vec![(b(&[0x22]), b(&[0xa2]))]);
}

#[test]
fn clear_proposal_queue_clears_only_this_group() {
    let mut s = OpenMlsKeyValueStore::new();
    let g: &[u8] = &[9];
    let other: &[u8] = &[8];
    for grp in [g, other] {
        let pk = tuple_key(grp, &[0x11]);
        s.write(Label::QueuedProposal, &pk, 1, b(&[0xa1])).unwrap();
        s.append(Label::ProposalQueueRefs, grp, 1, b(&[0x11])).unwrap();
    }
    s.write(Label::Tree, g, 1, b(&[1])).unwrap();
    s.clear_proposal_queue(g, 1);
    assert_eq!(s.read_list(Label::ProposalQueueRefs, g, 1).unwrap(), Vec::<Vec<u8>>::new());
    assert_eq!(s.read(Label::QueuedProposal, &tuple_key(g, &[0x11]), 1).unwrap(), None);
    // the other group's queue and this group's tree survive
    assert_eq!(s.read_list(Label::ProposalQueueRefs, other, 1).unwrap(), vec![b(&[0x11])]);
    assert_eq!(
        s.read(Label::QueuedProposal, &tuple_key(other, &[0x11]), 1).unwrap(),
        Some(b(&[0xa1]))
    );
    assert_eq!(s.read(Label::Tree, g, 1).unwrap(), Some(b(&[1])));
}

#[test]
fn snapshot_round_trip_through_raw_entries() {
    let mut s = OpenMlsKeyValueStore::new();
    s.write(Label::Tree, &[1], 1, b(&[0xaa])).unwrap();
    s.append(Label::OwnLeafNodes, &[2], 1, b(&[0xbb])).unwrap();
    let snapshot = s.raw_entries();
    let mut rebuilt = OpenMlsKeyValueStore::new();
    for (k, v) in snapshot {
        assert!(rebuilt.insert_raw(k, v));
    }
    assert_eq!(rebuilt.read(Label::Tree, &[1], 1).unwrap(), Some(b(&[0xaa])));
    assert_eq!(rebuilt.read_list(Label::OwnLeafNodes, &[2], 1).unwrap(), vec![b(&[0xbb])]);
    // a second insert of the same key is refused
    let again = s.raw_entries();
    for (k, _) in again {
        assert!(!rebuilt.insert_raw(k, StorageValue::Scalar(vec![])));
    }
}

#[test]
fn contains_key_tracks_presence() {
    let mut s = OpenMlsKeyValueStore::new();
    assert!(!s.contains_key(Label::GroupState, &[3], 1));
    s.write(Label::GroupState, &[3], 1, b(&[1])).unwrap();
    assert!(s.contains_key(Label::GroupState, &[3], 1));
    s.delete(Label::GroupState, &[3], 1).unwrap();
    assert!(!s.contains_key(Label::GroupState, &[3], 1));
}

#[test]
fn group_deletion_is_version_scoped() {
    let mut s = OpenMlsKeyValueStore::new();
    let g: &[u8] = &[4];
    s.write(Label::Tree, g, 1, b(&[1])).unwrap();
    s.write(Label::Tree, g, 2, b(&[2])).unwrap();
    s.delete_group(g, 1);
    assert_eq!(s.read(Label::Tree, g, 1).unwrap(), None);
    assert_eq!(s.read(Label::Tree, g, 2).unwrap(), Some(b(&[2])));
}
