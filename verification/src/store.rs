//! The versioned, namespaced key-value store that backs the group engine.
//!
//! Every entity is stored under the deterministic storage key of its
//! (label, raw key, schema version) triple.  A stored value is either a
//! scalar (one serialized object, overwrite semantics) or an ordered list
//! of serialized byte strings (append / remove-first-match semantics,
//! insertion order preserved, duplicates permitted).  The store is modelled
//! as a map from encoded storage keys to values; every operation's contract
//! is stated against that map.
//!
//! Every mutating operation takes the store by exclusive reference, so a
//! read-modify-write span (an append, a remove) can never interleave with
//! another operation; a caller that shares the store across threads wraps
//! it in a lock and holds the lock for the whole call.

use vstd::prelude::*;
use crate::bytes::{be16, be_bytes_u16, be_bytes_u64, bytes_eq, is_prefix_of, starts_with};
use crate::labels::{label_bytes, label_vec, length_prefixed, storage_key, storage_key_spec,
    tuple_key_spec, Label};

verus! {

/// A stored entity: one serialized object, or an ordered list of
/// serialized byte strings.
pub enum StorageValue {
    Scalar(Vec<u8>),
    List(Vec<Vec<u8>>),
}

/// The mathematical value of a stored entity.
pub enum StorageValueView {
    Scalar(Seq<u8>),
    List(Seq<Seq<u8>>),
}

/// The views of each byte vector in a sequence.
pub open spec fn seq_views(s: Seq<Vec<u8>>) -> Seq<Seq<u8>> {
    Seq::new(s.len(), |i: int| s[i]@)
}

impl View for StorageValue {
    type V = StorageValueView;

    open spec fn view(&self) -> StorageValueView {
        match self {
            StorageValue::Scalar(b) => StorageValueView::Scalar(b@),
            StorageValue::List(items) => StorageValueView::List(seq_views(items@)),
        }
    }
}

/// The single error kind the store exposes: a value was encoded or decoded
/// against the wrong shape (a list where a scalar was stored, or the
/// reverse).
#[derive(Clone, Copy, Debug, PartialEq, Eq, Structural)]
pub enum OpenMlsKeyValueStoreError {
    SerializationError,
}

/// No two entries hold the same storage key.
pub open spec fn keys_unique(entries: Seq<(Vec<u8>, StorageValue)>) -> bool {
    forall|i: int, j: int| 0 <= i < j < entries.len() ==> entries[i].0@ != entries[j].0@
}

/// Some entry holds the storage key `k`.
pub open spec fn has_key(entries: Seq<(Vec<u8>, StorageValue)>, k: Seq<u8>) -> bool {
    exists|i: int| 0 <= i < entries.len() && entries[i].0@ == k
}

/// The value of the entry holding the storage key `k`.
pub open spec fn value_of(entries: Seq<(Vec<u8>, StorageValue)>, k: Seq<u8>) -> StorageValueView {
    entries[choose|i: int| 0 <= i < entries.len() && entries[i].0@ == k].1@
}

/// The map an entry sequence denotes.
pub open spec fn entries_view(entries: Seq<(Vec<u8>, StorageValue)>) -> Map<
    Seq<u8>,
    StorageValueView,
> {
    Map::new(|k: Seq<u8>| has_key(entries, k), |k: Seq<u8>| value_of(entries, k))
}

/// With unique keys, the entry at index `i` is what the map holds at its
/// key.
proof fn lemma_entry_lookup(entries: Seq<(Vec<u8>, StorageValue)>, i: int)
    requires
        keys_unique(entries),
        0 <= i < entries.len(),
    ensures
        has_key(entries, entries[i].0@),
        value_of(entries, entries[i].0@) == entries[i].1@,
{
    let k = entries[i].0@;
    assert(has_key(entries, k));
    let j = choose|j: int| 0 <= j < entries.len() && entries[j].0@ == k;
    if j < i {
        assert(entries[j].0@ != entries[i].0@);
    } else if i < j {
        assert(entries[i].0@ != entries[j].0@);
    }
}

/// Replacing the value at index `i` updates the map at that entry's key.
proof fn lemma_view_update(
    old_e: Seq<(Vec<u8>, StorageValue)>,
    new_e: Seq<(Vec<u8>, StorageValue)>,
    i: int,
    k: Seq<u8>,
    v: StorageValueView,
)
    requires
        keys_unique(old_e),
        0 <= i < old_e.len(),
        old_e[i].0@ == k,
        new_e.len() == old_e.len(),
        forall|j: int| 0 <= j < old_e.len() && j != i ==> new_e[j] == old_e[j],
        new_e[i].0@ == k,
        new_e[i].1@ == v,
    ensures
        keys_unique(new_e),
        entries_view(new_e) == entries_view(old_e).insert(k, v),
{
    assert(keys_unique(new_e));
    let m1 = entries_view(old_e);
    let m2 = entries_view(new_e);
    assert forall|x: Seq<u8>| has_key(new_e, x) implies m1.insert(k, v).dom().contains(x) by {
        let j = choose|j: int| 0 <= j < new_e.len() && new_e[j].0@ == x;
        if j != i {
            assert(old_e[j].0@ == x);
            assert(has_key(old_e, x));
        }
    }
    assert forall|x: Seq<u8>| m1.insert(k, v).dom().contains(x) implies has_key(new_e, x) by {
        if x == k {
            assert(new_e[i].0@ == x);
        } else {
            let j = choose|j: int| 0 <= j < old_e.len() && old_e[j].0@ == x;
            assert(new_e[j].0@ == x);
        }
    }
    assert forall|x: Seq<u8>| has_key(new_e, x) implies m2[x] == m1.insert(k, v)[x] by {
        lemma_entry_lookup(new_e, i);
        if x == k {
            assert(value_of(new_e, x) == v);
        } else {
            let j = choose|j: int| 0 <= j < new_e.len() && new_e[j].0@ == x;
            assert(j != i);
            lemma_entry_lookup(new_e, j);
            lemma_entry_lookup(old_e, j);
            assert(value_of(new_e, x) == new_e[j].1@);
            assert(value_of(old_e, x) == old_e[j].1@);
        }
    }
    assert(m2 =~= m1.insert(k, v));
}

/// Appending an entry with a fresh key inserts it into the map.
proof fn lemma_view_push(
    old_e: Seq<(Vec<u8>, StorageValue)>,
    new_e: Seq<(Vec<u8>, StorageValue)>,
    k: Seq<u8>,
    v: StorageValueView,
)
    requires
        keys_unique(old_e),
        !has_key(old_e, k),
        new_e.len() == old_e.len() + 1,
        forall|j: int| 0 <= j < old_e.len() ==> new_e[j] == old_e[j],
        new_e[old_e.len() as int].0@ == k,
        new_e[old_e.len() as int].1@ == v,
    ensures
        keys_unique(new_e),
        entries_view(new_e) == entries_view(old_e).insert(k, v),
{
    let n = old_e.len() as int;
    assert forall|i: int, j: int| 0 <= i < j < new_e.len() implies new_e[i].0@ != new_e[j].0@ by {
        if j < n {
            assert(old_e[i].0@ != old_e[j].0@);
        } else {
            assert(new_e[j].0@ == k);
            if new_e[i].0@ == k {
                assert(has_key(old_e, k));
            }
        }
    }
    let m1 = entries_view(old_e);
    let m2 = entries_view(new_e);
    assert forall|x: Seq<u8>| has_key(new_e, x) implies m1.insert(k, v).dom().contains(x) by {
        let j = choose|j: int| 0 <= j < new_e.len() && new_e[j].0@ == x;
        if j < n {
            assert(old_e[j].0@ == x);
            assert(has_key(old_e, x));
        }
    }
    assert forall|x: Seq<u8>| m1.insert(k, v).dom().contains(x) implies has_key(new_e, x) by {
        if x == k {
            assert(new_e[n].0@ == x);
        } else {
            let j = choose|j: int| 0 <= j < old_e.len() && old_e[j].0@ == x;
            assert(new_e[j].0@ == x);
        }
    }
    assert forall|x: Seq<u8>| has_key(new_e, x) implies m2[x] == m1.insert(k, v)[x] by {
        lemma_entry_lookup(new_e, n);
        if x == k {
            assert(value_of(new_e, x) == v);
        } else {
            let j = choose|j: int| 0 <= j < new_e.len() && new_e[j].0@ == x;
            assert(j < n);
            lemma_entry_lookup(new_e, j);
            lemma_entry_lookup(old_e, j);
        }
    }
    assert(m2 =~= m1.insert(k, v));
}

/// Removing the entry at index `i` removes its key from the map.
proof fn lemma_view_remove(old_e: Seq<(Vec<u8>, StorageValue)>, i: int)
    requires
        keys_unique(old_e),
        0 <= i < old_e.len(),
    ensures
        keys_unique(old_e.remove(i)),
        entries_view(old_e.remove(i)) == entries_view(old_e).remove(old_e[i].0@),
{
    let new_e = old_e.remove(i);
    let k = old_e[i].0@;
    assert forall|a: int, b: int| 0 <= a < b < new_e.len() implies new_e[a].0@ != new_e[b].0@ by {
        let a0 = if a < i { a } else { a + 1 };
        let b0 = if b < i { b } else { b + 1 };
        assert(new_e[a] == old_e[a0]);
        assert(new_e[b] == old_e[b0]);
        assert(old_e[a0].0@ != old_e[b0].0@);
    }
    let m1 = entries_view(old_e);
    let m2 = entries_view(new_e);
    assert forall|x: Seq<u8>| has_key(new_e, x) implies m1.remove(k).dom().contains(x) by {
        let j = choose|j: int| 0 <= j < new_e.len() && new_e[j].0@ == x;
        let j0 = if j < i { j } else { j + 1 };
        assert(new_e[j] == old_e[j0]);
        assert(has_key(old_e, x));
        if x == k {
            lemma_entry_lookup(old_e, i);
            if j0 < i {
                assert(old_e[j0].0@ != old_e[i].0@);
            } else {
                assert(old_e[i].0@ != old_e[j0].0@);
            }
        }
    }
    assert forall|x: Seq<u8>| m1.remove(k).dom().contains(x) implies has_key(new_e, x) by {
        let j = choose|j: int| 0 <= j < old_e.len() && old_e[j].0@ == x;
        if j < i {
            assert(new_e[j] == old_e[j]);
            assert(new_e[j].0@ == x);
        } else {
            assert(j != i);
            assert(new_e[j - 1] == old_e[j]);
            assert(new_e[j - 1].0@ == x);
        }
    }
    assert forall|x: Seq<u8>| has_key(new_e, x) implies m2[x] == m1.remove(k)[x] by {
        let j = choose|j: int| 0 <= j < new_e.len() && new_e[j].0@ == x;
        let j0 = if j < i { j } else { j + 1 };
        assert(new_e[j] == old_e[j0]);
        lemma_entry_lookup(new_e, j);
        lemma_entry_lookup(old_e, j0);
    }
    assert(m2 =~= m1.remove(k));
}

/// The list a map holds at key `k`; an absent key denotes the empty list.
pub open spec fn list_at(m: Map<Seq<u8>, StorageValueView>, k: Seq<u8>) -> Seq<Seq<u8>> {
    if m.dom().contains(k) {
        m[k]->List_0
    } else {
        Seq::empty()
    }
}

/// The list with its first occurrence of `v` removed; the list itself when
/// `v` does not occur.
pub open spec fn remove_first(s: Seq<Seq<u8>>, v: Seq<u8>) -> Seq<Seq<u8>>
    decreases s.len(),
{
    if s.len() == 0 {
        s
    } else if s[0] == v {
        s.drop_first()
    } else {
        seq![s[0]] + remove_first(s.drop_first(), v)
    }
}

/// When `v` does not occur, removing its first occurrence changes nothing.
pub proof fn lemma_remove_first_absent(s: Seq<Seq<u8>>, v: Seq<u8>)
    requires
        forall|i: int| 0 <= i < s.len() ==> s[i] != v,
    ensures
        remove_first(s, v) == s,
    decreases s.len(),
{
    if s.len() > 0 {
        lemma_remove_first_absent(s.drop_first(), v);
        assert(seq![s[0]] + s.drop_first() =~= s);
    }
}

/// When `j` is the first occurrence of `v`, removing the first occurrence
/// removes exactly the element at `j` and preserves every other element in
/// order.
pub proof fn lemma_remove_first_at(s: Seq<Seq<u8>>, v: Seq<u8>, j: int)
    requires
        0 <= j < s.len(),
        s[j] == v,
        forall|i: int| 0 <= i < j ==> s[i] != v,
    ensures
        remove_first(s, v) == s.remove(j),
        remove_first(s, v) == s.subrange(0, j) + s.subrange(j + 1, s.len() as int),
    decreases j,
{
    if j == 0 {
        assert(s.drop_first() =~= s.remove(0));
    } else {
        assert(s.drop_first()[j - 1] == s[j]);
        lemma_remove_first_at(s.drop_first(), v, j - 1);
        assert(seq![s[0]] + s.drop_first().remove(j - 1) =~= s.remove(j));
    }
    assert(s.remove(j) =~= s.subrange(0, j) + s.subrange(j + 1, s.len() as int));
}

/// Pushing onto a list of byte vectors pushes the view.
proof fn lemma_seq_views_push(s: Seq<Vec<u8>>, v: Vec<u8>)
    ensures
        seq_views(s.push(v)) == seq_views(s).push(v@),
{
    assert(seq_views(s.push(v)) =~= seq_views(s).push(v@));
}

/// Labels whose entities are keyed directly by a group id.
pub open spec fn group_scoped_direct(l: Label) -> bool {
    l == Label::Tree || l == Label::GroupContext || l == Label::InterimTranscriptHash
        || l == Label::ConfirmationTag || l == Label::GroupState || l == Label::JoinConfig
        || l == Label::OwnLeafNodes || l == Label::OwnLeafNodeIndex || l == Label::EpochSecrets
        || l == Label::ResumptionPskStore || l == Label::MessageSecrets
        || l == Label::ProposalQueueRefs
}

/// The storage key of a group-scoped item keyed by the group id plus a
/// per-item remainder (a proposal reference, an epoch and leaf index).
pub open spec fn group_item_key(l: Label, g: Seq<u8>, rest: Seq<u8>, version: u16) -> Seq<u8> {
    storage_key_spec(l, length_prefixed(g) + rest, version)
}

/// True when the storage key `k` belongs to the proposal queue of the
/// group `g`: it is the key of the group's proposal-reference list or of
/// one of the group's queued proposals.
pub open spec fn key_in_proposal_queue(k: Seq<u8>, g: Seq<u8>, version: u16) -> bool {
    ||| k == storage_key_spec(Label::ProposalQueueRefs, g, version)
    ||| exists|rest: Seq<u8>| k == group_item_key(Label::QueuedProposal, g, rest, version)
}

/// True when the storage key `k` belongs to the group `g` at schema
/// version `version`: it is the key of a directly group-keyed entity, or
/// of a queued proposal or epoch key pair of that group.
pub open spec fn key_in_group(k: Seq<u8>, g: Seq<u8>, version: u16) -> bool {
    ||| exists|l: Label| group_scoped_direct(l) && k == storage_key_spec(l, g, version)
    ||| exists|rest: Seq<u8>| k == group_item_key(Label::QueuedProposal, g, rest, version)
    ||| exists|rest: Seq<u8>| k == group_item_key(Label::EpochKeyPairs, g, rest, version)
}

/// The shape of a group-item storage key: its prefix, middle and trailing
/// version bytes.
proof fn lemma_group_item_key_shape(l: Label, g: Seq<u8>, rest: Seq<u8>, version: u16)
    ensures
        group_item_key(l, g, rest, version).len() == (label_bytes(l) + length_prefixed(g)).len()
            + rest.len() + 2,
        group_item_key(l, g, rest, version).subrange(
            0,
            (label_bytes(l) + length_prefixed(g)).len() as int,
        ) == label_bytes(l) + length_prefixed(g),
        group_item_key(l, g, rest, version).subrange(
            (label_bytes(l) + length_prefixed(g)).len() as int,
            group_item_key(l, g, rest, version).len() - 2,
        ) == rest,
        group_item_key(l, g, rest, version)[group_item_key(l, g, rest, version).len() - 2] == be16(
            version,
        )[0],
        group_item_key(l, g, rest, version)[group_item_key(l, g, rest, version).len() - 1] == be16(
            version,
        )[1],
{
    let k = group_item_key(l, g, rest, version);
    let pfx = label_bytes(l) + length_prefixed(g);
    assert(k.len() == label_bytes(l).len() + (length_prefixed(g) + rest).len() + 2);
    assert(k.subrange(0, pfx.len() as int) =~= pfx);
    assert(k.subrange(pfx.len() as int, k.len() - 2) =~= rest);
}

/// Checks whether `k` is the key of a group item of `g` under label `l`:
/// it starts with the label and the length-prefixed group id and ends with
/// the version bytes.
fn group_item_match(k: &[u8], l: Label, g: &[u8], version: u16) -> (r: bool)
    ensures
        r <==> exists|rest: Seq<u8>| k@ == group_item_key(l, g@, rest, version),
{
    let lb = label_vec(l);
    let mut pfx: Vec<u8> = Vec::new();
    pfx.extend_from_slice(lb.as_slice());
    let lenb = be_bytes_u64(g.len() as u64);
    pfx.extend_from_slice(lenb.as_slice());
    pfx.extend_from_slice(g);
    proof {
        assert(pfx@ =~= label_bytes(l) + length_prefixed(g@));
    }
    if !starts_with(k, pfx.as_slice()) {
        proof {
            if exists|rest: Seq<u8>| k@ == group_item_key(l, g@, rest, version) {
                let rest = choose|rest: Seq<u8>| k@ == group_item_key(l, g@, rest, version);
                lemma_group_item_key_shape(l, g@, rest, version);
                assert(is_prefix_of(pfx@, k@));
            }
        }
        return false;
    }
    if k.len() < 2 || k.len() - 2 < pfx.len() {
        proof {
            if exists|rest: Seq<u8>| k@ == group_item_key(l, g@, rest, version) {
                let rest = choose|rest: Seq<u8>| k@ == group_item_key(l, g@, rest, version);
                lemma_group_item_key_shape(l, g@, rest, version);
            }
        }
        return false;
    }
    let vb = be_bytes_u16(version);
    let n = k.len();
    if k[n - 2] != vb[0] || k[n - 1] != vb[1] {
        proof {
            if exists|rest: Seq<u8>| k@ == group_item_key(l, g@, rest, version) {
                let rest = choose|rest: Seq<u8>| k@ == group_item_key(l, g@, rest, version);
                lemma_group_item_key_shape(l, g@, rest, version);
            }
        }
        return false;
    }
    proof {
        let rest = k@.subrange(pfx@.len() as int, k@.len() - 2);
        lemma_group_item_key_shape(l, g@, rest, version);
        let t = group_item_key(l, g@, rest, version);
        assert(t.len() == k@.len());
        assert forall|i: int| 0 <= i < k@.len() implies k@[i] == t[i] by {
            if i < pfx@.len() {
                assert(k@.subrange(0, pfx@.len() as int)[i] == k@[i]);
                assert(t.subrange(0, pfx@.len() as int)[i] == t[i]);
            } else if i < k@.len() - 2 {
                assert(k@.subrange(pfx@.len() as int, k@.len() - 2)[i - pfx@.len()] == k@[i]);
                assert(t.subrange(pfx@.len() as int, t.len() - 2)[i - pfx@.len()] == t[i]);
            }
        }
        assert(k@ =~= t);
    }
    true
}

/// Checks whether `k` is a storage key belonging to the group `g` at the
/// given schema version.
fn key_matches_group(k: &[u8], g: &[u8], version: u16) -> (r: bool)
    ensures
        r <==> key_in_group(k@, g@, version),
{
    if bytes_eq(k, storage_key(Label::Tree, g, version).as_slice()) {
        proof {
            assert(group_scoped_direct(Label::Tree) && k@ == storage_key_spec(
                Label::Tree,
                g@,
                version,
            ));
        }
        return true;
    }
    if bytes_eq(k, storage_key(Label::GroupContext, g, version).as_slice()) {
        proof {
            assert(group_scoped_direct(Label::GroupContext) && k@ == storage_key_spec(
                Label::GroupContext,
                g@,
                version,
            ));
        }
        return true;
    }
    if bytes_eq(k, storage_key(Label::InterimTranscriptHash, g, version).as_slice()) {
        proof {
            assert(group_scoped_direct(Label::InterimTranscriptHash) && k@ == storage_key_spec(
                Label::InterimTranscriptHash,
                g@,
                version,
            ));
        }
        return true;
    }
    if bytes_eq(k, storage_key(Label::ConfirmationTag, g, version).as_slice()) {
        proof {
            assert(group_scoped_direct(Label::ConfirmationTag) && k@ == storage_key_spec(
                Label::ConfirmationTag,
                g@,
                version,
            ));
        }
        return true;
    }
    if bytes_eq(k, storage_key(Label::GroupState, g, version).as_slice()) {
        proof {
            assert(group_scoped_direct(Label::GroupState) && k@ == storage_key_spec(
                Label::GroupState,
                g@,
                version,
            ));
        }
        return true;
    }
    if bytes_eq(k, storage_key(Label::JoinConfig, g, version).as_slice()) {
        proof {
            assert(group_scoped_direct(Label::JoinConfig) && k@ == storage_key_spec(
                Label::JoinConfig,
                g@,
                version,
            ));
        }
        return true;
    }
    if bytes_eq(k, storage_key(Label::OwnLeafNodes, g, version).as_slice()) {
        proof {
            assert(group_scoped_direct(Label::OwnLeafNodes) && k@ == storage_key_spec(
                Label::OwnLeafNodes,
                g@,
                version,
            ));
        }
        return true;
    }
    if bytes_eq(k, storage_key(Label::OwnLeafNodeIndex, g, version).as_slice()) {
        proof {
            assert(group_scoped_direct(Label::OwnLeafNodeIndex) && k@ == storage_key_spec(
                Label::OwnLeafNodeIndex,
                g@,
                version,
            ));
        }
        return true;
    }
    if bytes_eq(k, storage_key(Label::EpochSecrets, g, version).as_slice()) {
        proof {
            assert(group_scoped_direct(Label::EpochSecrets) && k@ == storage_key_spec(
                Label::EpochSecrets,
                g@,
                version,
            ));
        }
        return true;
    }
    if bytes_eq(k, storage_key(Label::ResumptionPskStore, g, version).as_slice()) {
        proof {
            assert(group_scoped_direct(Label::ResumptionPskStore) && k@ == storage_key_spec(
                Label::ResumptionPskStore,
                g@,
                version,
            ));
        }
        return true;
    }
    if bytes_eq(k, storage_key(Label::MessageSecrets, g, version).as_slice()) {
        proof {
            assert(group_scoped_direct(Label::MessageSecrets) && k@ == storage_key_spec(
                Label::MessageSecrets,
                g@,
                version,
            ));
        }
        return true;
    }
    if bytes_eq(k, storage_key(Label::ProposalQueueRefs, g, version).as_slice()) {
        proof {
            assert(group_scoped_direct(Label::ProposalQueueRefs) && k@ == storage_key_spec(
                Label::ProposalQueueRefs,
                g@,
                version,
            ));
        }
        return true;
    }
    if group_item_match(k, Label::QueuedProposal, g, version) {
        return true;
    }
    if group_item_match(k, Label::EpochKeyPairs, g, version) {
        return true;
    }
    proof {
        if exists|l: Label| group_scoped_direct(l) && k@ == storage_key_spec(l, g@, version) {
            let l = choose|l: Label| group_scoped_direct(l) && k@ == storage_key_spec(
                l,
                g@,
                version,
            );
            assert(false);
        }
    }
    false
}

/// The key-value store.  Its mathematical value is a map from encoded
/// storage keys to stored values.
pub struct OpenMlsKeyValueStore {
    entries: Vec<(Vec<u8>, StorageValue)>,
}

impl View for OpenMlsKeyValueStore {
    type V = Map<Seq<u8>, StorageValueView>;

    closed spec fn view(&self) -> Map<Seq<u8>, StorageValueView> {
        entries_view(self.entries@)
    }
}

/// Finds the first list item equal to the given byte string.
fn find_item(items: &Vec<Vec<u8>>, v: &[u8]) -> (r: Option<usize>)
    ensures
        match r {
            Some(j) => j < items@.len() && items@[j as int]@ == v@ && forall|t: int|
                0 <= t < j ==> items@[t]@ != v@,
            None => forall|t: int| 0 <= t < items@.len() ==> items@[t]@ != v@,
        },
{
    let mut j: usize = 0;
    while j < items.len()
        invariant
            0 <= j <= items@.len(),
            forall|t: int| 0 <= t < j ==> items@[t]@ != v@,
        decreases items@.len() - j,
    {
        let it = &items[j];
        if bytes_eq(it.as_slice(), v) {
            return Some(j);
        }
        j = j + 1;
    }
    None
}

/// Finds the entry holding the given storage key.
fn find_entry(entries: &Vec<(Vec<u8>, StorageValue)>, key: &[u8]) -> (r: Option<usize>)
    ensures
        match r {
            Some(i) => i < entries@.len() && entries@[i as int].0@ == key@,
            None => !has_key(entries@, key@),
        },
{
    let mut i: usize = 0;
    while i < entries.len()
        invariant
            0 <= i <= entries@.len(),
            forall|j: int| 0 <= j < i ==> entries@[j].0@ != key@,
        decreases entries@.len() - i,
    {
        let e = &entries[i];
        if bytes_eq(e.0.as_slice(), key) {
            return Some(i);
        }
        i = i + 1;
    }
    None
}

impl OpenMlsKeyValueStore {
    #[verifier::type_invariant]
    spec fn wf(self) -> bool {
        keys_unique(self.entries@)
    }

    /// An empty store.
    pub fn new() -> (r: Self)
        ensures
            r@ == Map::<Seq<u8>, StorageValueView>::empty(),
    {
        let r = OpenMlsKeyValueStore { entries: Vec::new() };
        proof {
            assert(r@ =~= Map::<Seq<u8>, StorageValueView>::empty());
        }
        r
    }

    /// Stores a scalar value, overwriting any value already held under the
    /// same (label, raw key, version) triple.
    pub fn write(&mut self, label: Label, key: &[u8], version: u16, value: Vec<u8>) -> (r: Result<
        (),
        OpenMlsKeyValueStoreError,
    >)
        ensures
            r is Ok,
            final(self)@ == old(self)@.insert(
                storage_key_spec(label, key@, version),
                StorageValueView::Scalar(value@),
            ),
    {
        proof {
            use_type_invariant(&*self);
        }
        let sk = storage_key(label, key, version);
        let ghost old_e = self.entries@;
        let mut entries: Vec<(Vec<u8>, StorageValue)> = Vec::new();
        core::mem::swap(&mut entries, &mut self.entries);
        match find_entry(&entries, sk.as_slice()) {
            Some(i) => {
                entries.set(i, (sk, StorageValue::Scalar(value)));
                proof {
                    lemma_view_update(
                        old_e,
                        entries@,
                        i as int,
                        storage_key_spec(label, key@, version),
                        StorageValueView::Scalar(value@),
                    );
                }
            },
            None => {
                entries.push((sk, StorageValue::Scalar(value)));
                proof {
                    lemma_view_push(
                        old_e,
                        entries@,
                        storage_key_spec(label, key@, version),
                        StorageValueView::Scalar(value@),
                    );
                }
            },
        }
        core::mem::swap(&mut entries, &mut self.entries);
        Ok(())
    }

    /// Reads the scalar stored under a (label, raw key, version) triple.
    /// Absence is `Ok(None)`; a list stored under the key is a shape
    /// mismatch and fails.
    pub fn read(&self, label: Label, key: &[u8], version: u16) -> (r: Result<
        Option<Vec<u8>>,
        OpenMlsKeyValueStoreError,
    >)
        ensures
            ({
                let sk = storage_key_spec(label, key@, version);
                match r {
                    Ok(opt) => match opt {
                        Option::None => !self@.dom().contains(sk),
                        Option::Some(v) => self@.dom().contains(sk) && self@[sk]
                            == StorageValueView::Scalar(v@),
                    },
                    Err(e) => e == OpenMlsKeyValueStoreError::SerializationError
                        && self@.dom().contains(sk) && self@[sk] is List,
                }
            }),
    {
        proof {
            use_type_invariant(&*self);
        }
        let sk = storage_key(label, key, version);
        match find_entry(&self.entries, sk.as_slice()) {
            None => Ok(None),
            Some(i) => {
                proof {
                    lemma_entry_lookup(self.entries@, i as int);
                }
                let e = &self.entries[i];
                match &e.1 {
                    StorageValue::Scalar(b) => Ok(
                        Some(vstd::slice::slice_to_vec(b.as_slice())),
                    ),
                    StorageValue::List(_) => Err(OpenMlsKeyValueStoreError::SerializationError),
                }
            },
        }
    }

    /// Deletes whatever is stored under a (label, raw key, version)
    /// triple.  Deleting an absent key succeeds and changes nothing.
    pub fn delete(&mut self, label: Label, key: &[u8], version: u16) -> (r: Result<
        (),
        OpenMlsKeyValueStoreError,
    >)
        ensures
            r is Ok,
            final(self)@ == old(self)@.remove(storage_key_spec(label, key@, version)),
    {
        proof {
            use_type_invariant(&*self);
        }
        let sk = storage_key(label, key, version);
        let ghost old_e = self.entries@;
        let mut entries: Vec<(Vec<u8>, StorageValue)> = Vec::new();
        core::mem::swap(&mut entries, &mut self.entries);
        match find_entry(&entries, sk.as_slice()) {
            Some(i) => {
                entries.remove(i);
                proof {
                    lemma_view_remove(old_e, i as int);
                }
            },
            None => {
                proof {
                    assert(!old(self)@.dom().contains(storage_key_spec(label, key@, version)));
                    assert(entries_view(old_e) =~= entries_view(old_e).remove(
                        storage_key_spec(label, key@, version),
                    ));
                }
            },
        }
        core::mem::swap(&mut entries, &mut self.entries);
        Ok(())
    }

    /// Appends a byte string at the tail of the list stored under a
    /// (label, raw key, version) triple, creating the list when the key is
    /// absent.  A scalar stored under the key is a shape mismatch and
    /// fails without changing the store.
    pub fn append(&mut self, label: Label, key: &[u8], version: u16, value: Vec<u8>) -> (r: Result<
        (),
        OpenMlsKeyValueStoreError,
    >)
        ensures
            ({
                let sk = storage_key_spec(label, key@, version);
                match r {
                    Ok(_) => (!old(self)@.dom().contains(sk) || old(self)@[sk] is List) && final(self)@ == old(self)@.insert(
                        sk,
                        StorageValueView::List(list_at(old(self)@, sk).push(value@)),
                    ),
                    Err(e) => e == OpenMlsKeyValueStoreError::SerializationError && old(self)@.dom().contains(sk) && old(self)@[sk] is Scalar && final(self)@ == old(self)@,
                }
            }),
    {
        proof {
            use_type_invariant(&*self);
        }
        let sk = storage_key(label, key, version);
        let ghost skv = storage_key_spec(label, key@, version);
        let ghost old_e = self.entries@;
        let ghost old_m = self@;
        let mut entries: Vec<(Vec<u8>, StorageValue)> = Vec::new();
        core::mem::swap(&mut entries, &mut self.entries);
        let r;
        match find_entry(&entries, sk.as_slice()) {
            None => {
                let items: Vec<Vec<u8>> = vec![value];
                proof {
                    assert(seq_views(items@) =~= list_at(old_m, skv).push(value@));
                }
                entries.push((sk, StorageValue::List(items)));
                proof {
                    lemma_view_push(
                        old_e,
                        entries@,
                        skv,
                        StorageValueView::List(list_at(old_m, skv).push(value@)),
                    );
                }
                r = Ok(());
            },
            Some(i) => {
                let (kv, sv) = entries.remove(i);
                proof {
                    lemma_entry_lookup(old_e, i as int);
                    lemma_view_remove(old_e, i as int);
                }
                let ghost mid_e = entries@;
                match sv {
                    StorageValue::Scalar(b) => {
                        proof {
                            assert(!has_key(mid_e, skv));
                        }
                        entries.push((kv, StorageValue::Scalar(b)));
                        proof {
                            lemma_view_push(mid_e, entries@, skv, StorageValueView::Scalar(b@));
                            assert(entries_view(entries@) =~= old_m);
                        }
                        r = Err(OpenMlsKeyValueStoreError::SerializationError);
                    },
                    StorageValue::List(items) => {
                        let mut items = items;
                        let ghost old_items = items@;
                        items.push(value);
                        proof {
                            lemma_seq_views_push(old_items, value);
                            assert(!has_key(mid_e, skv));
                            assert(seq_views(old_items) == list_at(old_m, skv));
                        }
                        entries.push((kv, StorageValue::List(items)));
                        proof {
                            lemma_view_push(
                                mid_e,
                                entries@,
                                skv,
                                StorageValueView::List(list_at(old_m, skv).push(value@)),
                            );
                            assert(entries_view(entries@) =~= old_m.insert(
                                skv,
                                StorageValueView::List(list_at(old_m, skv).push(value@)),
                            ));
                        }
                        r = Ok(());
                    },
                }
            },
        }
        core::mem::swap(&mut entries, &mut self.entries);
        r
    }

    /// Removes the first list item equal to `value` from the list stored
    /// under a (label, raw key, version) triple.  An absent key or an
    /// absent item changes nothing; a scalar stored under the key is a
    /// shape mismatch and fails without changing the store.
    pub fn remove_item(
        &mut self,
        label: Label,
        key: &[u8],
        version: u16,
        value: &[u8],
    ) -> (r: Result<(), OpenMlsKeyValueStoreError>)
        ensures
            ({
                let sk = storage_key_spec(label, key@, version);
                match r {
                    Ok(_) => (!old(self)@.dom().contains(sk) || old(self)@[sk] is List) && final(self)@ == (if old(self)@.dom().contains(sk) {
                        old(self)@.insert(
                            sk,
                            StorageValueView::List(remove_first(list_at(old(self)@, sk), value@)),
                        )
                    } else {
                        old(self)@
                    }),
                    Err(e) => e == OpenMlsKeyValueStoreError::SerializationError && old(self)@.dom().contains(sk) && old(self)@[sk] is Scalar && final(self)@ == old(self)@,
                }
            }),
    {
        proof {
            use_type_invariant(&*self);
        }
        let sk = storage_key(label, key, version);
        let ghost skv = storage_key_spec(label, key@, version);
        let ghost old_e = self.entries@;
        let ghost old_m = self@;
        let mut entries: Vec<(Vec<u8>, StorageValue)> = Vec::new();
        core::mem::swap(&mut entries, &mut self.entries);
        let r;
        match find_entry(&entries, sk.as_slice()) {
            None => {
                r = Ok(());
            },
            Some(i) => {
                let (kv, sv) = entries.remove(i);
                proof {
                    lemma_entry_lookup(old_e, i as int);
                    lemma_view_remove(old_e, i as int);
                }
                let ghost mid_e = entries@;
                match sv {
                    StorageValue::Scalar(b) => {
                        proof {
                            assert(!has_key(mid_e, skv));
                        }
                        entries.push((kv, StorageValue::Scalar(b)));
                        proof {
                            lemma_view_push(mid_e, entries@, skv, StorageValueView::Scalar(b@));
                            assert(entries_view(entries@) =~= old_m);
                        }
                        r = Err(OpenMlsKeyValueStoreError::SerializationError);
                    },
                    StorageValue::List(items) => {
                        let mut items = items;
                        let ghost old_items = seq_views(items@);
                        proof {
                            assert(old_items == list_at(old_m, skv));
                            assert(!has_key(mid_e, skv));
                        }
                        match find_item(&items, value) {
                            Some(j) => {
                                items.remove(j);
                                proof {
                                    assert(seq_views(items@) =~= old_items.remove(j as int));
                                    lemma_remove_first_at(old_items, value@, j as int);
                                }
                            },
                            None => {
                                proof {
                                    lemma_remove_first_absent(old_items, value@);
                                }
                            },
                        }
                        entries.push((kv, StorageValue::List(items)));
                        proof {
                            lemma_view_push(
                                mid_e,
                                entries@,
                                skv,
                                StorageValueView::List(remove_first(old_items, value@)),
                            );
                            assert(entries_view(entries@) =~= old_m.insert(
                                skv,
                                StorageValueView::List(remove_first(list_at(old_m, skv), value@)),
                            ));
                        }
                        r = Ok(());
                    },
                }
            },
        }
        core::mem::swap(&mut entries, &mut self.entries);
        r
    }

    /// Reads the list stored under a (label, raw key, version) triple, in
    /// insertion order.  An absent key yields the empty list; a scalar
    /// stored under the key is a shape mismatch and fails.
    pub fn read_list(&self, label: Label, key: &[u8], version: u16) -> (r: Result<
        Vec<Vec<u8>>,
        OpenMlsKeyValueStoreError,
    >)
        ensures
            ({
                let sk = storage_key_spec(label, key@, version);
                match r {
                    Ok(items) => (!self@.dom().contains(sk) || self@[sk] is List) && seq_views(
                        items@,
                    ) == list_at(self@, sk),
                    Err(e) => e == OpenMlsKeyValueStoreError::SerializationError
                        && self@.dom().contains(sk) && self@[sk] is Scalar,
                }
            }),
    {
        proof {
            use_type_invariant(&*self);
        }
        let sk = storage_key(label, key, version);
        match find_entry(&self.entries, sk.as_slice()) {
            None => {
                let out: Vec<Vec<u8>> = Vec::new();
                proof {
                    assert(seq_views(out@) =~= list_at(self@, storage_key_spec(label, key@, version)));
                }
                Ok(out)
            },
            Some(i) => {
                proof {
                    lemma_entry_lookup(self.entries@, i as int);
                }
                let e = &self.entries[i];
                match &e.1 {
                    StorageValue::Scalar(_) => Err(OpenMlsKeyValueStoreError::SerializationError),
                    StorageValue::List(items) => {
                        let mut out: Vec<Vec<u8>> = Vec::new();
                        let mut j: usize = 0;
                        while j < items.len()
                            invariant
                                0 <= j <= items@.len(),
                                out@.len() == j,
                                forall|t: int| 0 <= t < j ==> out@[t]@ == items@[t]@,
                            decreases items@.len() - j,
                        {
                            let it = &items[j];
                            out.push(vstd::slice::slice_to_vec(it.as_slice()));
                            j = j + 1;
                        }
                        proof {
                            assert(seq_views(out@) =~= seq_views(items@));
                        }
                        Ok(out)
                    },
                }
            },
        }
    }

    /// Whether anything is stored under a (label, raw key, version)
    /// triple.
    pub fn contains_key(&self, label: Label, key: &[u8], version: u16) -> (r: bool)
        ensures
            r <==> self@.dom().contains(storage_key_spec(label, key@, version)),
    {
        proof {
            use_type_invariant(&*self);
        }
        let sk = storage_key(label, key, version);
        match find_entry(&self.entries, sk.as_slice()) {
            Some(i) => {
                proof {
                    lemma_entry_lookup(self.entries@, i as int);
                }
                true
            },
            None => false,
        }
    }

    /// Deletes every entity stored under the group id `g` at the given
    /// schema version: the directly group-keyed entities and every queued
    /// proposal and epoch key pair of the group.  Entities of other groups
    /// and entities keyed by other things (key packages, PSK records,
    /// signature and encryption key pairs) are untouched.
    pub fn delete_group(&mut self, g: &[u8], version: u16)
        ensures
            forall|k: Seq<u8>|
                key_in_group(k, g@, version) ==> !final(self)@.dom().contains(k),
            forall|k: Seq<u8>|
                !key_in_group(k, g@, version) ==> final(self)@.dom().contains(k) == old(self)@.dom().contains(k),
            forall|k: Seq<u8>|
                !key_in_group(k, g@, version) && old(self)@.dom().contains(k) ==> final(self)@[k]
                    == old(self)@[k],
    {
        proof {
            use_type_invariant(&*self);
        }
        let ghost old_m = self@;
        let mut entries: Vec<(Vec<u8>, StorageValue)> = Vec::new();
        core::mem::swap(&mut entries, &mut self.entries);
        let mut i: usize = 0;
        while i < entries.len()
            invariant
                0 <= i <= entries@.len(),
                keys_unique(entries@),
                forall|j: int| 0 <= j < i ==> !key_in_group(entries@[j].0@, g@, version),
                forall|k: Seq<u8>|
                    #[trigger] entries_view(entries@).dom().contains(k) ==> old_m.dom().contains(k)
                        && entries_view(entries@)[k] == old_m[k],
                forall|k: Seq<u8>|
                    old_m.dom().contains(k) && !key_in_group(k, g@, version)
                        ==> entries_view(entries@).dom().contains(k),
            decreases entries@.len() - i,
        {
            let e = &entries[i];
            if key_matches_group(e.0.as_slice(), g, version) {
                let ghost pre = entries@;
                entries.remove(i);
                proof {
                    lemma_view_remove(pre, i as int);
                    assert forall|k: Seq<u8>| #[trigger] entries_view(entries@).dom().contains(k)
                        implies old_m.dom().contains(k) && entries_view(entries@)[k]
                        == old_m[k] by {
                        assert(entries_view(pre).dom().contains(k));
                    }
                }
            } else {
                i = i + 1;
            }
        }
        proof {
            assert forall|k: Seq<u8>| key_in_group(k, g@, version) implies !entries_view(
                entries@,
            ).dom().contains(k) by {
                if entries_view(entries@).dom().contains(k) {
                    let j = choose|j: int|
                        0 <= j < entries@.len() && entries@[j].0@ == k;
                    assert(!key_in_group(entries@[j].0@, g@, version));
                }
            }
        }
        core::mem::swap(&mut entries, &mut self.entries);
    }

    /// Reads the queued proposals of a group: for each reference in the
    /// group's proposal-reference list, in order, the reference paired
    /// with the proposal stored under the (group id, reference) compound
    /// key.  Fails when the reference list holds a scalar, or when a
    /// referenced proposal is absent or holds a list.
    pub fn queued_proposals(&self, g: &[u8], version: u16) -> (r: Result<
        Vec<(Vec<u8>, Vec<u8>)>,
        OpenMlsKeyValueStoreError,
    >)
        ensures
            ({
                let rk = storage_key_spec(Label::ProposalQueueRefs, g@, version);
                let refs = list_at(self@, rk);
                let ok_cond = (!self@.dom().contains(rk) || self@[rk] is List) && (forall|i: int|
                    0 <= i < refs.len() ==> {
                        let pk = storage_key_spec(
                            Label::QueuedProposal,
                            tuple_key_spec(g@, #[trigger] refs[i]),
                            version,
                        );
                        self@.dom().contains(pk) && self@[pk] is Scalar
                    });
                &&& r is Ok <==> ok_cond
                &&& r matches Ok(pairs) ==> pairs@.len() == refs.len() && (forall|i: int|
                    0 <= i < refs.len() ==> #[trigger] pairs@[i].0@ == refs[i]
                        && StorageValueView::Scalar(
                        pairs@[i].1@,
                    ) == self@[storage_key_spec(
                        Label::QueuedProposal,
                        tuple_key_spec(g@, refs[i]),
                        version,
                    )])
                &&& r matches Err(e) ==> e == OpenMlsKeyValueStoreError::SerializationError
            }),
    {
        let ghost rk = storage_key_spec(Label::ProposalQueueRefs, g@, version);
        let ghost refs = list_at(self@, rk);
        let ref_vec = match self.read_list(Label::ProposalQueueRefs, g, version) {
            Ok(v) => v,
            Err(e) => {
                return Err(e);
            },
        };
        let mut out: Vec<(Vec<u8>, Vec<u8>)> = Vec::new();
        let mut i: usize = 0;
        while i < ref_vec.len()
            invariant
                seq_views(ref_vec@) == refs,
                rk == storage_key_spec(Label::ProposalQueueRefs, g@, version),
                refs == list_at(self@, rk),
                0 <= i <= ref_vec@.len(),
                out@.len() == i,
                forall|j: int|
                    0 <= j < i ==> out@[j].0@ == refs[j] && StorageValueView::Scalar(out@[j].1@)
                        == self@[storage_key_spec(
                        Label::QueuedProposal,
                        tuple_key_spec(g@, refs[j]),
                        version,
                    )] && self@.dom().contains(
                        storage_key_spec(
                            Label::QueuedProposal,
                            tuple_key_spec(g@, refs[j]),
                            version,
                        ),
                    ),
            decreases ref_vec@.len() - i,
        {
            let rf = &ref_vec[i];
            let tk = crate::labels::tuple_key(g, rf.as_slice());
            proof {
                assert(refs[i as int] == ref_vec@[i as int]@);
            }
            match self.read(Label::QueuedProposal, tk.as_slice(), version) {
                Ok(Some(v)) => {
                    let rc = vstd::slice::slice_to_vec(rf.as_slice());
                    out.push((rc, v));
                },
                Ok(None) => {
                    proof {
                        assert(!self@.dom().contains(
                            storage_key_spec(
                                Label::QueuedProposal,
                                tuple_key_spec(g@, refs[i as int]),
                                version,
                            ),
                        ));
                    }
                    return Err(OpenMlsKeyValueStoreError::SerializationError);
                },
                Err(e) => {
                    proof {
                        assert(!(self@[storage_key_spec(
                            Label::QueuedProposal,
                            tuple_key_spec(g@, refs[i as int]),
                            version,
                        )] is Scalar));
                    }
                    return Err(e);
                },
            }
            i = i + 1;
        }
        Ok(out)
    }

    /// Removes one proposal of a group: its reference leaves the group's
    /// proposal-reference list and the proposal itself is deleted from
    /// under the (group id, reference) compound key.
    pub fn remove_proposal(&mut self, g: &[u8], proposal_ref: &[u8], version: u16) -> (r: Result<
        (),
        OpenMlsKeyValueStoreError,
    >)
        ensures
            ({
                let rk = storage_key_spec(Label::ProposalQueueRefs, g@, version);
                let pk = storage_key_spec(
                    Label::QueuedProposal,
                    tuple_key_spec(g@, proposal_ref@),
                    version,
                );
                match r {
                    Ok(_) => (!old(self)@.dom().contains(rk) || old(self)@[rk] is List) && final(self)@ == (if old(self)@.dom().contains(rk) {
                        old(self)@.insert(
                            rk,
                            StorageValueView::List(
                                remove_first(list_at(old(self)@, rk), proposal_ref@),
                            ),
                        ).remove(pk)
                    } else {
                        old(self)@.remove(pk)
                    }),
                    Err(e) => e == OpenMlsKeyValueStoreError::SerializationError && old(self)@.dom().contains(rk) && old(self)@[rk] is Scalar && final(self)@ == old(self)@,
                }
            }),
    {
        match self.remove_item(Label::ProposalQueueRefs, g, version, proposal_ref) {
            Ok(_) => {},
            Err(e) => {
                return Err(e);
            },
        }
        let tk = crate::labels::tuple_key(g, proposal_ref);
        self.delete(Label::QueuedProposal, tk.as_slice(), version)
    }

    /// Clears the proposal queue of a group: the group's
    /// proposal-reference list and every proposal stored under the
    /// group's compound keys are deleted; everything else is untouched.
    pub fn clear_proposal_queue(&mut self, g: &[u8], version: u16)
        ensures
            forall|k: Seq<u8>|
                key_in_proposal_queue(k, g@, version) ==> !final(self)@.dom().contains(k),
            forall|k: Seq<u8>|
                !key_in_proposal_queue(k, g@, version) ==> final(self)@.dom().contains(k) == old(self)@.dom().contains(k),
            forall|k: Seq<u8>|
                !key_in_proposal_queue(k, g@, version) && old(self)@.dom().contains(k) ==> final(self)@[k] == old(self)@[k],
    {
        proof {
            use_type_invariant(&*self);
        }
        let ghost old_m = self@;
        let mut entries: Vec<(Vec<u8>, StorageValue)> = Vec::new();
        core::mem::swap(&mut entries, &mut self.entries);
        let mut i: usize = 0;
        while i < entries.len()
            invariant
                0 <= i <= entries@.len(),
                keys_unique(entries@),
                forall|j: int| 0 <= j < i ==> !key_in_proposal_queue(entries@[j].0@, g@, version),
                forall|k: Seq<u8>|
                    #[trigger] entries_view(entries@).dom().contains(k) ==> old_m.dom().contains(k)
                        && entries_view(entries@)[k] == old_m[k],
                forall|k: Seq<u8>|
                    old_m.dom().contains(k) && !key_in_proposal_queue(k, g@, version)
                        ==> entries_view(entries@).dom().contains(k),
            decreases entries@.len() - i,
        {
            let e = &entries[i];
            let is_refs = bytes_eq(
                e.0.as_slice(),
                storage_key(Label::ProposalQueueRefs, g, version).as_slice(),
            );
            let is_prop = group_item_match(e.0.as_slice(), Label::QueuedProposal, g, version);
            if is_refs || is_prop {
                let ghost pre = entries@;
                entries.remove(i);
                proof {
                    lemma_view_remove(pre, i as int);
                    assert forall|k: Seq<u8>| #[trigger] entries_view(entries@).dom().contains(k)
                        implies old_m.dom().contains(k) && entries_view(entries@)[k]
                        == old_m[k] by {
                        assert(entries_view(pre).dom().contains(k));
                    }
                }
            } else {
                i = i + 1;
            }
        }
        proof {
            assert forall|k: Seq<u8>| key_in_proposal_queue(k, g@, version) implies !entries_view(
                entries@,
            ).dom().contains(k) by {
                if entries_view(entries@).dom().contains(k) {
                    let j = choose|j: int| 0 <= j < entries@.len() && entries@[j].0@ == k;
                    assert(!key_in_proposal_queue(entries@[j].0@, g@, version));
                }
            }
        }
        core::mem::swap(&mut entries, &mut self.entries);
    }

    /// Inserts an entry under a raw, already-encoded storage key, provided
    /// the key is not yet present.  Returns whether the entry was
    /// inserted.  This is the rebuild path for a store restored from a
    /// persisted snapshot.
    pub fn insert_raw(&mut self, key: Vec<u8>, value: StorageValue) -> (r: bool)
        ensures
            r ==> !old(self)@.dom().contains(key@) && final(self)@ == old(self)@.insert(
                key@,
                value@,
            ),
            !r ==> old(self)@.dom().contains(key@) && final(self)@ == old(self)@,
    {
        proof {
            use_type_invariant(&*self);
        }
        let ghost old_e = self.entries@;
        let mut entries: Vec<(Vec<u8>, StorageValue)> = Vec::new();
        core::mem::swap(&mut entries, &mut self.entries);
        let r;
        match find_entry(&entries, key.as_slice()) {
            Some(_) => {
                r = false;
            },
            None => {
                let ghost kv = key@;
                let ghost vv = value@;
                entries.push((key, value));
                proof {
                    lemma_view_push(old_e, entries@, kv, vv);
                }
                r = true;
            },
        }
        core::mem::swap(&mut entries, &mut self.entries);
        r
    }

    /// A copy of every entry, as raw (encoded storage key, value) pairs.
    /// This is the snapshot path for persisting the store; the map holds
    /// the pairs in no particular order.
    pub fn raw_entries(&self) -> (r: Vec<(Vec<u8>, StorageValue)>)
        ensures
            forall|i: int, j: int| 0 <= i < j < r@.len() ==> r@[i].0@ != r@[j].0@,
            forall|i: int|
                0 <= i < r@.len() ==> self@.dom().contains(#[trigger] r@[i].0@) && self@[r@[i].0@]
                    == r@[i].1@,
            forall|k: Seq<u8>|
                self@.dom().contains(k) ==> exists|i: int| 0 <= i < r@.len() && r@[i].0@ == k,
    {
        proof {
            use_type_invariant(&*self);
        }
        let mut out: Vec<(Vec<u8>, StorageValue)> = Vec::new();
        let mut i: usize = 0;
        while i < self.entries.len()
            invariant
                0 <= i <= self.entries@.len(),
                keys_unique(self.entries@),
                out@.len() == i,
                forall|j: int|
                    0 <= j < i ==> out@[j].0@ == self.entries@[j].0@ && out@[j].1@
                        == self.entries@[j].1@,
            decreases self.entries@.len() - i,
        {
            let e = &self.entries[i];
            let kc = vstd::slice::slice_to_vec(e.0.as_slice());
            let vc = copy_value(&e.1);
            out.push((kc, vc));
            i = i + 1;
        }
        proof {
            assert forall|i2: int| 0 <= i2 < out@.len() implies self@.dom().contains(
                #[trigger] out@[i2].0@,
            ) && self@[out@[i2].0@] == out@[i2].1@ by {
                lemma_entry_lookup(self.entries@, i2);
            }
            assert forall|k: Seq<u8>| self@.dom().contains(k) implies exists|i2: int|
                0 <= i2 < out@.len() && out@[i2].0@ == k by {
                let j = choose|j: int|
                    0 <= j < self.entries@.len() && self.entries@[j].0@ == k;
                assert(out@[j].0@ == k);
            }
        }
        out
    }
}

/// A deep copy of a stored value.
fn copy_value(v: &StorageValue) -> (r: StorageValue)
    ensures
        r@ == v@,
{
    match v {
        StorageValue::Scalar(b) => StorageValue::Scalar(vstd::slice::slice_to_vec(b.as_slice())),
        StorageValue::List(items) => {
            let mut out: Vec<Vec<u8>> = Vec::new();
            let mut j: usize = 0;
            while j < items.len()
                invariant
                    0 <= j <= items@.len(),
                    out@.len() == j,
                    forall|t: int| 0 <= t < j ==> out@[t]@ == items@[t]@,
                decreases items@.len() - j,
            {
                let it = &items[j];
                out.push(vstd::slice::slice_to_vec(it.as_slice()));
                j = j + 1;
            }
            proof {
                assert(seq_views(out@) =~= seq_views(items@));
            }
            StorageValue::List(out)
        },
    }
}

} // verus!
