//! The reserved entity labels of the key-value store and the deterministic
//! storage-key encoding `label ++ raw key ++ big-endian schema version`.
//!
//! Each entity type the group engine persists has one fixed label.  The
//! label byte strings are pairwise prefix-incomparable, which makes the
//! encoded storage keys collision-free across distinct
//! (label, raw key, version) triples.

use vstd::prelude::*;
use crate::bytes::{be16, be_bytes_u16, diverge_at, is_prefix_of, lemma_cat_inj,
    lemma_diverge_not_prefix};

verus! {

/// One reserved label per entity type stored by the group engine or the
/// continuity layer.
#[derive(Clone, Copy, PartialEq, Eq, Structural, Debug)]
pub enum Label {
    KeyPackage,
    Psk,
    EncryptionKeyPair,
    SignatureKeyPair,
    EpochKeyPairs,
    Tree,
    GroupContext,
    InterimTranscriptHash,
    ConfirmationTag,
    JoinConfig,
    OwnLeafNodes,
    GroupState,
    QueuedProposal,
    ProposalQueueRefs,
    OwnLeafNodeIndex,
    EpochSecrets,
    ResumptionPskStore,
    MessageSecrets,
}

/// The fixed byte string of a label.
pub open spec fn label_bytes(l: Label) -> Seq<u8> {
    match l {
        // "KeyPackage"
        Label::KeyPackage => seq![0x4b, 0x65, 0x79, 0x50, 0x61, 0x63, 0x6b, 0x61, 0x67, 0x65],
        // "Psk"
        Label::Psk => seq![0x50, 0x73, 0x6b],
        // "EncryptionKeyPair"
        Label::EncryptionKeyPair => seq![0x45, 0x6e, 0x63, 0x72, 0x79, 0x70, 0x74, 0x69, 0x6f, 0x6e, 0x4b, 0x65, 0x79, 0x50, 0x61, 0x69, 0x72],
        // "SignatureKeyPair"
        Label::SignatureKeyPair => seq![0x53, 0x69, 0x67, 0x6e, 0x61, 0x74, 0x75, 0x72, 0x65, 0x4b, 0x65, 0x79, 0x50, 0x61, 0x69, 0x72],
        // "EpochKeyPairs"
        Label::EpochKeyPairs => seq![0x45, 0x70, 0x6f, 0x63, 0x68, 0x4b, 0x65, 0x79, 0x50, 0x61, 0x69, 0x72, 0x73],
        // "Tree"
        Label::Tree => seq![0x54, 0x72, 0x65, 0x65],
        // "GroupContext"
        Label::GroupContext => seq![0x47, 0x72, 0x6f, 0x75, 0x70, 0x43, 0x6f, 0x6e, 0x74, 0x65, 0x78, 0x74],
        // "InterimTranscriptHash"
        Label::InterimTranscriptHash => seq![0x49, 0x6e, 0x74, 0x65, 0x72, 0x69, 0x6d, 0x54, 0x72, 0x61, 0x6e, 0x73, 0x63, 0x72, 0x69, 0x70, 0x74, 0x48, 0x61, 0x73, 0x68],
        // "ConfirmationTag"
        Label::ConfirmationTag => seq![0x43, 0x6f, 0x6e, 0x66, 0x69, 0x72, 0x6d, 0x61, 0x74, 0x69, 0x6f, 0x6e, 0x54, 0x61, 0x67],
        // "MlsGroupJoinConfig"
        Label::JoinConfig => seq![0x4d, 0x6c, 0x73, 0x47, 0x72, 0x6f, 0x75, 0x70, 0x4a, 0x6f, 0x69, 0x6e, 0x43, 0x6f, 0x6e, 0x66, 0x69, 0x67],
        // "OwnLeafNodes"
        Label::OwnLeafNodes => seq![0x4f, 0x77, 0x6e, 0x4c, 0x65, 0x61, 0x66, 0x4e, 0x6f, 0x64, 0x65, 0x73],
        // "GroupState"
        Label::GroupState => seq![0x47, 0x72, 0x6f, 0x75, 0x70, 0x53, 0x74, 0x61, 0x74, 0x65],
        // "QueuedProposal"
        Label::QueuedProposal => seq![0x51, 0x75, 0x65, 0x75, 0x65, 0x64, 0x50, 0x72, 0x6f, 0x70, 0x6f, 0x73, 0x61, 0x6c],
        // "ProposalQueueRefs"
        Label::ProposalQueueRefs => seq![0x50, 0x72, 0x6f, 0x70, 0x6f, 0x73, 0x61, 0x6c, 0x51, 0x75, 0x65, 0x75, 0x65, 0x52, 0x65, 0x66, 0x73],
        // "OwnLeafNodeIndex"
        Label::OwnLeafNodeIndex => seq![0x4f, 0x77, 0x6e, 0x4c, 0x65, 0x61, 0x66, 0x4e, 0x6f, 0x64, 0x65, 0x49, 0x6e, 0x64, 0x65, 0x78],
        // "EpochSecrets"
        Label::EpochSecrets => seq![0x45, 0x70, 0x6f, 0x63, 0x68, 0x53, 0x65, 0x63, 0x72, 0x65, 0x74, 0x73],
        // "ResumptionPsk"
        Label::ResumptionPskStore => seq![0x52, 0x65, 0x73, 0x75, 0x6d, 0x70, 0x74, 0x69, 0x6f, 0x6e, 0x50, 0x73, 0x6b],
        // "MessageSecrets"
        Label::MessageSecrets => seq![0x4d, 0x65, 0x73, 0x73, 0x61, 0x67, 0x65, 0x53, 0x65, 0x63, 0x72, 0x65, 0x74, 0x73],
    }
}

/// The byte string of a label, as a vector.
pub fn label_vec(l: Label) -> (r: Vec<u8>)
    ensures
        r@ == label_bytes(l),
{
    let r: Vec<u8> = match l {
        // "KeyPackage"
        Label::KeyPackage => vec![0x4b, 0x65, 0x79, 0x50, 0x61, 0x63, 0x6b, 0x61, 0x67, 0x65],
        // "Psk"
        Label::Psk => vec![0x50, 0x73, 0x6b],
        // "EncryptionKeyPair"
        Label::EncryptionKeyPair => vec![0x45, 0x6e, 0x63, 0x72, 0x79, 0x70, 0x74, 0x69, 0x6f, 0x6e, 0x4b, 0x65, 0x79, 0x50, 0x61, 0x69, 0x72],
        // "SignatureKeyPair"
        Label::SignatureKeyPair => vec![0x53, 0x69, 0x67, 0x6e, 0x61, 0x74, 0x75, 0x72, 0x65, 0x4b, 0x65, 0x79, 0x50, 0x61, 0x69, 0x72],
        // "EpochKeyPairs"
        Label::EpochKeyPairs => vec![0x45, 0x70, 0x6f, 0x63, 0x68, 0x4b, 0x65, 0x79, 0x50, 0x61, 0x69, 0x72, 0x73],
        // "Tree"
        Label::Tree => vec![0x54, 0x72, 0x65, 0x65],
        // "GroupContext"
        Label::GroupContext => vec![0x47, 0x72, 0x6f, 0x75, 0x70, 0x43, 0x6f, 0x6e, 0x74, 0x65, 0x78, 0x74],
        // "InterimTranscriptHash"
        Label::InterimTranscriptHash => vec![0x49, 0x6e, 0x74, 0x65, 0x72, 0x69, 0x6d, 0x54, 0x72, 0x61, 0x6e, 0x73, 0x63, 0x72, 0x69, 0x70, 0x74, 0x48, 0x61, 0x73, 0x68],
        // "ConfirmationTag"
        Label::ConfirmationTag => vec![0x43, 0x6f, 0x6e, 0x66, 0x69, 0x72, 0x6d, 0x61, 0x74, 0x69, 0x6f, 0x6e, 0x54, 0x61, 0x67],
        // "MlsGroupJoinConfig"
        Label::JoinConfig => vec![0x4d, 0x6c, 0x73, 0x47, 0x72, 0x6f, 0x75, 0x70, 0x4a, 0x6f, 0x69, 0x6e, 0x43, 0x6f, 0x6e, 0x66, 0x69, 0x67],
        // "OwnLeafNodes"
        Label::OwnLeafNodes => vec![0x4f, 0x77, 0x6e, 0x4c, 0x65, 0x61, 0x66, 0x4e, 0x6f, 0x64, 0x65, 0x73],
        // "GroupState"
        Label::GroupState => vec![0x47, 0x72, 0x6f, 0x75, 0x70, 0x53, 0x74, 0x61, 0x74, 0x65],
        // "QueuedProposal"
        Label::QueuedProposal => vec![0x51, 0x75, 0x65, 0x75, 0x65, 0x64, 0x50, 0x72, 0x6f, 0x70, 0x6f, 0x73, 0x61, 0x6c],
        // "ProposalQueueRefs"
        Label::ProposalQueueRefs => vec![0x50, 0x72, 0x6f, 0x70, 0x6f, 0x73, 0x61, 0x6c, 0x51, 0x75, 0x65, 0x75, 0x65, 0x52, 0x65, 0x66, 0x73],
        // "OwnLeafNodeIndex"
        Label::OwnLeafNodeIndex => vec![0x4f, 0x77, 0x6e, 0x4c, 0x65, 0x61, 0x66, 0x4e, 0x6f, 0x64, 0x65, 0x49, 0x6e, 0x64, 0x65, 0x78],
        // "EpochSecrets"
        Label::EpochSecrets => vec![0x45, 0x70, 0x6f, 0x63, 0x68, 0x53, 0x65, 0x63, 0x72, 0x65, 0x74, 0x73],
        // "ResumptionPsk"
        Label::ResumptionPskStore => vec![0x52, 0x65, 0x73, 0x75, 0x6d, 0x70, 0x74, 0x69, 0x6f, 0x6e, 0x50, 0x73, 0x6b],
        // "MessageSecrets"
        Label::MessageSecrets => vec![0x4d, 0x65, 0x73, 0x73, 0x61, 0x67, 0x65, 0x53, 0x65, 0x63, 0x72, 0x65, 0x74, 0x73],
        };
    proof {
        assert(r@ =~= label_bytes(l));
    }
    r
}

/// The first byte of each label.
pub open spec fn label_first_byte(l: Label) -> u8 {
    match l {
        Label::KeyPackage => 0x4b,
        Label::Psk => 0x50,
        Label::EncryptionKeyPair => 0x45,
        Label::SignatureKeyPair => 0x53,
        Label::EpochKeyPairs => 0x45,
        Label::Tree => 0x54,
        Label::GroupContext => 0x47,
        Label::InterimTranscriptHash => 0x49,
        Label::ConfirmationTag => 0x43,
        Label::JoinConfig => 0x4d,
        Label::OwnLeafNodes => 0x4f,
        Label::GroupState => 0x47,
        Label::QueuedProposal => 0x51,
        Label::ProposalQueueRefs => 0x50,
        Label::OwnLeafNodeIndex => 0x4f,
        Label::EpochSecrets => 0x45,
        Label::ResumptionPskStore => 0x52,
        Label::MessageSecrets => 0x4d,
    }
}

/// Every label byte string is non-empty and starts with its first byte.
proof fn lemma_label_head(l: Label)
    ensures
        label_bytes(l).len() > 0,
        label_bytes(l)[0] == label_first_byte(l),
{
}

/// Distinct labels have prefix-incomparable byte strings.
pub proof fn lemma_labels_prefix_incomparable(l1: Label, l2: Label)
    requires
        l1 != l2,
    ensures
        !is_prefix_of(label_bytes(l1), label_bytes(l2)),
        !is_prefix_of(label_bytes(l2), label_bytes(l1)),
        label_bytes(l1) != label_bytes(l2),
{
    let a = label_bytes(l1);
    let b = label_bytes(l2);
    lemma_label_head(l1);
    lemma_label_head(l2);
    if label_first_byte(l1) != label_first_byte(l2) {
        assert(diverge_at(a, b, 0));
        lemma_diverge_not_prefix(a, b, 0);
    } else {
        match (l1, l2) {
            (Label::Psk, Label::ProposalQueueRefs) => {
                assert(diverge_at(a, b, 1));
                lemma_diverge_not_prefix(a, b, 1);
            },
            (Label::ProposalQueueRefs, Label::Psk) => {
                assert(diverge_at(a, b, 1));
                lemma_diverge_not_prefix(a, b, 1);
            },
            (Label::EncryptionKeyPair, Label::EpochKeyPairs) => {
                assert(diverge_at(a, b, 1));
                lemma_diverge_not_prefix(a, b, 1);
            },
            (Label::EpochKeyPairs, Label::EncryptionKeyPair) => {
                assert(diverge_at(a, b, 1));
                lemma_diverge_not_prefix(a, b, 1);
            },
            (Label::EncryptionKeyPair, Label::EpochSecrets) => {
                assert(diverge_at(a, b, 1));
                lemma_diverge_not_prefix(a, b, 1);
            },
            (Label::EpochSecrets, Label::EncryptionKeyPair) => {
                assert(diverge_at(a, b, 1));
                lemma_diverge_not_prefix(a, b, 1);
            },
            (Label::EpochKeyPairs, Label::EpochSecrets) => {
                assert(diverge_at(a, b, 5));
                lemma_diverge_not_prefix(a, b, 5);
            },
            (Label::EpochSecrets, Label::EpochKeyPairs) => {
                assert(diverge_at(a, b, 5));
                lemma_diverge_not_prefix(a, b, 5);
            },
            (Label::GroupContext, Label::GroupState) => {
                assert(diverge_at(a, b, 5));
                lemma_diverge_not_prefix(a, b, 5);
            },
            (Label::GroupState, Label::GroupContext) => {
                assert(diverge_at(a, b, 5));
                lemma_diverge_not_prefix(a, b, 5);
            },
            (Label::JoinConfig, Label::MessageSecrets) => {
                assert(diverge_at(a, b, 1));
                lemma_diverge_not_prefix(a, b, 1);
            },
            (Label::MessageSecrets, Label::JoinConfig) => {
                assert(diverge_at(a, b, 1));
                lemma_diverge_not_prefix(a, b, 1);
            },
            (Label::OwnLeafNodes, Label::OwnLeafNodeIndex) => {
                assert(diverge_at(a, b, 11));
                lemma_diverge_not_prefix(a, b, 11);
            },
            (Label::OwnLeafNodeIndex, Label::OwnLeafNodes) => {
                assert(diverge_at(a, b, 11));
                lemma_diverge_not_prefix(a, b, 11);
            },
            _ => {
                assert(false);
            },
        }
    }
    assert(a[0] == a.subrange(0, a.len() as int)[0]);
    assert(a.subrange(0, a.len() as int) =~= a);
    assert(b.subrange(0, b.len() as int) =~= b);
}

/// The deterministic storage-key encoding of a (label, raw key, version)
/// triple: `label ++ raw key ++ big-endian version`.
pub open spec fn storage_key_spec(l: Label, key: Seq<u8>, version: u16) -> Seq<u8> {
    label_bytes(l) + key + be16(version)
}

/// Concatenates label bytes, a raw key and the big-endian schema version
/// into one storage key.
pub fn build_key_from_vec(label: &[u8], key: Vec<u8>, version: u16) -> (r: Vec<u8>)
    ensures
        r@ == label@ + key@ + be16(version),
{
    let mut out: Vec<u8> = Vec::new();
    out.extend_from_slice(label);
    out.extend_from_slice(key.as_slice());
    let tail = be_bytes_u16(version);
    out.extend_from_slice(tail.as_slice());
    proof {
        assert(out@ =~= label@ + key@ + be16(version));
    }
    out
}

/// The storage key of a (label, raw key, version) triple.
pub fn storage_key(l: Label, key: &[u8], version: u16) -> (r: Vec<u8>)
    ensures
        r@ == storage_key_spec(l, key@, version),
{
    let lv = label_vec(l);
    let mut out: Vec<u8> = Vec::new();
    out.extend_from_slice(lv.as_slice());
    out.extend_from_slice(key);
    let tail = be_bytes_u16(version);
    out.extend_from_slice(tail.as_slice());
    proof {
        assert(out@ =~= storage_key_spec(l, key@, version));
    }
    out
}

/// Equal big-endian 16-bit encodings come from equal integers.
proof fn lemma_be16_injective(v1: u16, v2: u16)
    requires
        be16(v1) == be16(v2),
    ensures
        v1 == v2,
{
    assert(be16(v1)[0] == be16(v2)[0]);
    assert(be16(v1)[1] == be16(v2)[1]);
    assert((((v1 >> 8) & 0xff) as u8) == (((v2 >> 8) & 0xff) as u8));
    assert(((v1 & 0xff) as u8) == ((v2 & 0xff) as u8));
    assert(v1 == v2) by (bit_vector)
        requires
            (((v1 >> 8) & 0xff) as u8) == (((v2 >> 8) & 0xff) as u8),
            ((v1 & 0xff) as u8) == ((v2 & 0xff) as u8),
    ;
}

/// Equal-length tails of equal concatenations are equal, and so are the
/// heads.
proof fn lemma_cat_inj_tail(h1: Seq<u8>, t1: Seq<u8>, h2: Seq<u8>, t2: Seq<u8>)
    requires
        h1 + t1 == h2 + t2,
        t1.len() == t2.len(),
    ensures
        h1 == h2,
        t1 == t2,
{
    assert((h1 + t1).len() == h1.len() + t1.len());
    assert((h2 + t2).len() == h2.len() + t2.len());
    assert(h1.len() == h2.len());
    assert forall|j: int| 0 <= j < h1.len() implies h1[j] == h2[j] by {
        assert((h1 + t1)[j] == h1[j]);
        assert((h2 + t2)[j] == h2[j]);
    }
    assert(h1 =~= h2);
    assert forall|j: int| 0 <= j < t1.len() implies t1[j] == t2[j] by {
        assert((h1 + t1)[h1.len() + j] == t1[j]);
        assert((h2 + t2)[h2.len() + j] == t2[j]);
    }
    assert(t1 =~= t2);
}

/// Storage-key encoding is injective: equal keys can only come from equal
/// (label, raw key, version) triples.
pub proof fn lemma_storage_key_injective(
    l1: Label,
    k1: Seq<u8>,
    v1: u16,
    l2: Label,
    k2: Seq<u8>,
    v2: u16,
)
    requires
        storage_key_spec(l1, k1, v1) == storage_key_spec(l2, k2, v2),
    ensures
        l1 == l2,
        k1 == k2,
        v1 == v2,
{
    if l1 != l2 {
        lemma_labels_prefix_incomparable(l1, l2);
        assert(label_bytes(l1) + (k1 + be16(v1)) =~= storage_key_spec(l1, k1, v1));
        assert(label_bytes(l2) + (k2 + be16(v2)) =~= storage_key_spec(l2, k2, v2));
        lemma_cat_inj(label_bytes(l1), k1 + be16(v1), label_bytes(l2), k2 + be16(v2));
        assert(false);
    }
    assert(label_bytes(l1) + (k1 + be16(v1)) =~= storage_key_spec(l1, k1, v1));
    assert(label_bytes(l2) + (k2 + be16(v2)) =~= storage_key_spec(l2, k2, v2));
    lemma_cat_inj(label_bytes(l1), k1 + be16(v1), label_bytes(l2), k2 + be16(v2));
    lemma_cat_inj_tail(k1, be16(v1), k2, be16(v2));
    lemma_be16_injective(v1, v2);
}

/// A byte string preceded by its big-endian 64-bit length.
pub open spec fn length_prefixed(a: Seq<u8>) -> Seq<u8> {
    crate::bytes::be64(a.len() as u64) + a
}

/// The deterministic raw key of an entity logically keyed by a pair of
/// byte strings: the first component is length-prefixed so that the
/// encoding is injective, then the second follows.
pub open spec fn tuple_key_spec(a: Seq<u8>, b: Seq<u8>) -> Seq<u8> {
    length_prefixed(a) + b
}

/// Encodes the raw key of an entity logically keyed by a pair of byte
/// strings.
pub fn tuple_key(a: &[u8], b: &[u8]) -> (r: Vec<u8>)
    ensures
        r@ == tuple_key_spec(a@, b@),
{
    let len = crate::bytes::be_bytes_u64(a.len() as u64);
    let mut out: Vec<u8> = Vec::new();
    out.extend_from_slice(len.as_slice());
    out.extend_from_slice(a);
    out.extend_from_slice(b);
    proof {
        assert(out@ =~= tuple_key_spec(a@, b@));
    }
    out
}

/// The raw key of the encryption key pairs of one epoch: the group id,
/// length-prefixed, followed by the engine's epoch bytes and the
/// big-endian leaf index.
pub fn epoch_key_pairs_id(group_id: &[u8], epoch: &[u8], leaf_index: u32) -> (r: Vec<u8>)
    ensures
        r@ == tuple_key_spec(group_id@, epoch@ + crate::bytes::be32(leaf_index)),
{
    let mut tail: Vec<u8> = Vec::new();
    tail.extend_from_slice(epoch);
    let li = crate::bytes::be_bytes_u32(leaf_index);
    tail.extend_from_slice(li.as_slice());
    let r = tuple_key(group_id, tail.as_slice());
    proof {
        assert(tail@ == epoch@ + crate::bytes::be32(leaf_index));
    }
    r
}

/// The pair encoding is injective: equal raw keys can only come from
/// equal pairs.
pub proof fn lemma_tuple_key_injective(a1: Seq<u8>, b1: Seq<u8>, a2: Seq<u8>, b2: Seq<u8>)
    requires
        tuple_key_spec(a1, b1) == tuple_key_spec(a2, b2),
        a1.len() <= u64::MAX,
        a2.len() <= u64::MAX,
    ensures
        a1 == a2,
        b1 == b2,
{
    let p1 = crate::bytes::be64(a1.len() as u64);
    let p2 = crate::bytes::be64(a2.len() as u64);
    assert(p1 + (a1 + b1) =~= tuple_key_spec(a1, b1));
    assert(p2 + (a2 + b2) =~= tuple_key_spec(a2, b2));
    assert(p1.len() == 8 && p2.len() == 8);
    assert forall|j: int| 0 <= j < 8 implies p1[j] == p2[j] by {
        assert((p1 + (a1 + b1))[j] == p1[j]);
        assert((p2 + (a2 + b2))[j] == p2[j]);
    }
    assert(p1 =~= p2);
    crate::bytes::lemma_be64_injective(a1.len() as u64, a2.len() as u64);
    assert(a1.len() == a2.len());
    assert((p1 + (a1 + b1)).len() == 8 + a1.len() + b1.len());
    assert((p2 + (a2 + b2)).len() == 8 + a2.len() + b2.len());
    assert(b1.len() == b2.len());
    assert forall|j: int| 0 <= j < a1.len() implies a1[j] == a2[j] by {
        assert((p1 + (a1 + b1))[8 + j] == (a1 + b1)[j]);
        assert((p2 + (a2 + b2))[8 + j] == (a2 + b2)[j]);
        assert((a1 + b1)[j] == a1[j]);
        assert((a2 + b2)[j] == a2[j]);
    }
    assert(a1 =~= a2);
    assert forall|j: int| 0 <= j < b1.len() implies b1[j] == b2[j] by {
        assert((p1 + (a1 + b1))[8 + a1.len() + j] == (a1 + b1)[a1.len() + j]);
        assert((p2 + (a2 + b2))[8 + a2.len() + j] == (a2 + b2)[a2.len() + j]);
        assert((a1 + b1)[a1.len() + j] == b1[j]);
        assert((a2 + b2)[a2.len() + j] == b2[j]);
    }
    assert(b1 =~= b2);
}

/// Collision freedom of the storage-key encoding: distinct
/// (label, raw key, version) triples never encode to the same storage key.
pub proof fn lemma_storage_key_collision_free(
    l1: Label,
    k1: Seq<u8>,
    v1: u16,
    l2: Label,
    k2: Seq<u8>,
    v2: u16,
)
    requires
        l1 != l2 || k1 != k2 || v1 != v2,
    ensures
        storage_key_spec(l1, k1, v1) != storage_key_spec(l2, k2, v2),
{
    if storage_key_spec(l1, k1, v1) == storage_key_spec(l2, k2, v2) {
        lemma_storage_key_injective(l1, k1, v1, l2, k2, v2);
    }
}

} // verus!
