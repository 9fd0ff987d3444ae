use dmls::continuity::{apply_commit, complete_self_update, create_send_group_check,
    credential_identity, exporter_psk_id, exporter_psk_label, plaintext, process_incoming_content,
    require_local_group, require_send_group, DmlsError, IncomingContent, IncomingOutcome};
use dmls::keys::SignatureKeyPair;
use dmls::labels::Label;
use dmls::state::DmlsState;

const ED25519: u16 = 0x0807;

fn fresh_state() -> DmlsState {
    let kp = SignatureKeyPair::from_raw(
        vec![0x01; 32],
        vec![0x4d, 0x61, 0x6e, 3, 4, 5, 6, 7],
        ED25519,
    );
    DmlsState::new(kp)
}

#[test]
fn exporter_psk_id_is_epoch_then_group_id() {
    assert_eq!(
        exporter_psk_id(1, &[0xab, 0xcd]),
        vec![0, 0, 0, 0, 0, 0, 0, 1, 0xab, 0xcd]
    );
    assert_eq!(
        exporter_psk_id(u64::MAX, &[]),
        vec![0xff, 0xff, 0xff, 0xff, 0xff, 0xff, 0xff, 0xff]
    );
}

#[test]
fn exporter_label_is_fixed() {
    assert_eq!(exporter_psk_label(), b"exporter_psk".to_vec());
}

#[test]
fn queue_is_fifo_and_empty_after_drain() {
    let mut st = fresh_state();
    st.push_exporter_psk_id(vec![1]);
    st.push_exporter_psk_id(vec![2]);
    st.push_exporter_psk_id(vec![3]);
    let drained = st.clear_exporter_psk_ids();
    assert_eq!(drained, vec![vec![1], vec![2], vec![3]]);
    assert_eq!(st.clear_exporter_psk_ids(), Vec::<Vec<u8>>::new());
}

#[test]
fn send_group_singleton() {
    let mut st = fresh_state();
    assert_eq!(st.send_group_id(), None);
    assert!(create_send_group_check(&st).is_ok());
    st.set_send_group_id(vec![0xaa, 0xbb]);
    // the second creation fails with the precondition error and the first
    // group's id is unchanged
    assert_eq!(create_send_group_check(&st), Err(DmlsError::SendGroupExists));
    assert_eq!(st.send_group_id(), Some(vec![0xaa, 0xbb]));
}

#[test]
fn require_send_group_reports_missing_group() {
    let mut st = fresh_state();
    let e = require_send_group(&st).unwrap_err();
    assert_eq!(e, DmlsError::NoSendGroup);
    assert_eq!(e.message(), "No send group exists");
    st.set_send_group_id(vec![7]);
    assert_eq!(require_send_group(&st).unwrap(), vec![7]);
}

#[test]
fn require_local_group_is_a_hard_precondition() {
    let mut st = fresh_state();
    let e = require_local_group(&st, &[1], 1).unwrap_err();
    assert_eq!(e, DmlsError::NoLocalGroup);
    assert_eq!(e.message(), "No local group found with the given Group ID");
    let mut store = st.take_openmls_values();
    store.write(Label::GroupState, &[1], 1, vec![0]).unwrap();
    st.put_openmls_values(store);
    assert!(require_local_group(&st, &[1], 1).is_ok());
    assert!(require_local_group(&st, &[2], 1).is_err());
}

#[test]
fn apply_commit_active_queues_exactly_one_psk() {
    let mut st = fresh_state();
    let psk = apply_commit(&mut st, &[0x0a], &[0x5b, 0x0a, 0x5d], 1, 4, true).unwrap();
    assert_eq!(psk, vec![0, 0, 0, 0, 0, 0, 0, 4, 0x0a]);
    assert_eq!(st.clear_exporter_psk_ids(), vec![vec![0, 0, 0, 0, 0, 0, 0, 4, 0x0a]]);
}

#[test]
fn apply_commit_evicted_deletes_group_and_keeps_queue() {
    let mut st = fresh_state();
    st.push_exporter_psk_id(vec![9]);
    // the facade stores the group's entities under its own encoding of
    // the group id; here it differs from the raw id
    let gkey: &[u8] = &[0x5b, 0x0a, 0x5d];
    let mut store = st.take_openmls_values();
    store.write(Label::GroupState, gkey, 1, vec![1]).unwrap();
    store.write(Label::Tree, gkey, 1, vec![2]).unwrap();
    st.put_openmls_values(store);
    let r = apply_commit(&mut st, &[0x0a], gkey, 1, 4, false);
    assert_eq!(r, None);
    // the queue is unchanged: no PSK for an epoch the participant left
    assert_eq!(st.clear_exporter_psk_ids(), vec![vec![9]]);
    assert_eq!(st.openmls_values().read(Label::GroupState, gkey, 1).unwrap(), None);
    assert_eq!(st.openmls_values().read(Label::Tree, gkey, 1).unwrap(), None);
}

#[test]
fn self_update_queues_the_new_epoch_psk() {
    let mut st = fresh_state();
    assert_eq!(complete_self_update(&mut st, 1), Err(DmlsError::NoSendGroup));
    st.set_send_group_id(vec![0x0b]);
    let psk = complete_self_update(&mut st, 1).unwrap();
    assert_eq!(psk, vec![0, 0, 0, 0, 0, 0, 0, 1, 0x0b]);
    assert_eq!(st.clear_exporter_psk_ids(), vec![psk]);
}

#[test]
fn plaintext_decodes_utf8_and_rejects_other_bytes() {
    assert_eq!(plaintext(b"hello".to_vec()).unwrap(), "hello");
    assert_eq!(plaintext("héllo ✓".as_bytes().to_vec()).unwrap(), "héllo ✓");
    assert_eq!(plaintext(vec![0xff, 0xfe]), Err(DmlsError::Decoding));
    assert_eq!(plaintext(vec![0xc3]), Err(DmlsError::Decoding));
}

#[test]
fn unsupported_content_is_an_error() {
    let mut st = fresh_state();
    let r = process_incoming_content(&mut st, &[1], &[1], 1, 0, true, IncomingContent::Unsupported);
    assert_eq!(r, Err(DmlsError::UnsupportedContent));
    assert_eq!(st.clear_exporter_psk_ids(), Vec::<Vec<u8>>::new());
}

#[test]
fn incoming_application_payload_is_decoded() {
    let mut st = fresh_state();
    let r = process_incoming_content(
        &mut st,
        &[1],
        &[1],
        1,
        0,
        true,
        IncomingContent::Application(b"hi there".to_vec()),
    );
    match r.unwrap() {
        IncomingOutcome::Plaintext(s) => assert_eq!(s, "hi there"),
        IncomingOutcome::CommitApplied(_) => panic!("expected plaintext"),
    }
    let bad = process_incoming_content(
        &mut st,
        &[1],
        &[1],
        1,
        0,
        true,
        IncomingContent::Application(vec![0x80]),
    );
    assert_eq!(bad, Err(DmlsError::Decoding));
}

#[test]
fn credential_identity_is_first_eight_bytes() {
    let pk = [1u8, 2, 3, 4, 5, 6, 7, 8, 9, 10];
    assert_eq!(credential_identity(&pk), vec![1, 2, 3, 4, 5, 6, 7, 8]);
}

#[test]
fn error_messages_are_verbatim() {
    assert_eq!(DmlsError::SendGroupExists.message(), "Send group already exists");
    assert_eq!(DmlsError::NoSendGroup.message(), "No send group exists");
    assert_eq!(
        DmlsError::NoLocalGroup.message(),
        "No local group found with the given Group ID"
    );
}

#[test]
fn public_key_b64_is_standard_base64() {
    let kp = SignatureKeyPair::from_raw(vec![], b"Man".to_vec(), ED25519);
    assert_eq!(kp.public_key_b64(), "TWFu");
    let kp2 = SignatureKeyPair::from_raw(vec![], b"M".to_vec(), ED25519);
    assert_eq!(kp2.public_key_b64(), "TQ==");
    let kp3 = SignatureKeyPair::from_raw(vec![], vec![], ED25519);
    assert_eq!(kp3.public_key_b64(), "");
}

#[test]
fn key_pair_accessors_round_trip() {
    let kp = SignatureKeyPair::from_raw(vec![1, 2], vec![3, 4], ED25519);
    assert_eq!(kp.private_key_raw(), &[1, 2]);
    assert_eq!(kp.public_key_raw(), &[3, 4]);
    assert_eq!(kp.signature_scheme(), ED25519);
    assert_eq!(kp.public_key().value(), &[3, 4]);
}

#[test]
fn big_endian_encodings_are_exact() {
    assert_eq!(dmls::bytes::be_bytes_u16(0x0102), vec![1, 2]);
    assert_eq!(dmls::bytes::be_bytes_u16(0), vec![0, 0]);
    assert_eq!(dmls::bytes::be_bytes_u16(u16::MAX), vec![0xff, 0xff]);
    assert_eq!(
        dmls::bytes::be_bytes_u64(0x0102030405060708),
        vec![1, 2, 3, 4, 5, 6, 7, 8]
    );
    assert_eq!(dmls::bytes::be_bytes_u32(0x01020304), vec![1, 2, 3, 4]);
}

#[test]
fn byte_comparisons() {
    assert!(dmls::bytes::bytes_eq(&[1, 2], &[1, 2]));
    assert!(!dmls::bytes::bytes_eq(&[1, 2], &[1, 3]));
    assert!(!dmls::bytes::bytes_eq(&[1, 2], &[1, 2, 3]));
    assert!(dmls::bytes::starts_with(&[1, 2, 3], &[1, 2]));
    assert!(dmls::bytes::starts_with(&[1, 2, 3], &[]));
    assert!(!dmls::bytes::starts_with(&[1, 2], &[1, 2, 3]));
    assert!(!dmls::bytes::starts_with(&[1, 2, 3], &[2]));
}
