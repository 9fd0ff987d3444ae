//! The laws of the library that span more than one operation, stated over
//! the mathematical models the operations' contracts use.

use vstd::prelude::*;
use crate::continuity::exporter_psk_id_spec;
use crate::state::DmlsState;
use crate::store::{key_in_group, list_at, remove_first, StorageValueView};

verus! {

/// A queue after pushing a sequence of identifiers one at a time, oldest
/// first.
pub open spec fn push_all(q: Seq<Seq<u8>>, ids: Seq<Seq<u8>>) -> Seq<Seq<u8>>
    decreases ids.len(),
{
    if ids.len() == 0 {
        q
    } else {
        push_all(q.push(ids[0]), ids.drop_first())
    }
}

/// Queue FIFO law: pushing any sequence of identifiers one at a time
/// appends them in push order, so draining the queue afterwards returns
/// exactly the pushed sequence after whatever was already queued, and
/// the drain contract leaves the queue empty.
pub proof fn lemma_queue_fifo(q: Seq<Seq<u8>>, ids: Seq<Seq<u8>>)
    ensures
        push_all(q, ids) == q + ids,
    decreases ids.len(),
{
    if ids.len() == 0 {
        assert(push_all(q, ids) =~= q + ids);
    } else {
        lemma_queue_fifo(q.push(ids[0]), ids.drop_first());
        assert(q.push(ids[0]) + ids.drop_first() =~= q + ids);
    }
}

/// List round-trip law, append half: after an append of `v` under a key,
/// reading the list back yields the old list with `v` as its last
/// element, all earlier elements preserved in order.
pub proof fn lemma_kv_append_round_trip(
    m: Map<Seq<u8>, StorageValueView>,
    k: Seq<u8>,
    v: Seq<u8>,
)
    ensures
        ({
            let m2 = m.insert(k, StorageValueView::List(list_at(m, k).push(v)));
            list_at(m2, k) == list_at(m, k).push(v) && list_at(m2, k).last() == v && list_at(
                m2,
                k,
            ).drop_last() == list_at(m, k)
        }),
{
    let m2 = m.insert(k, StorageValueView::List(list_at(m, k).push(v)));
    assert(list_at(m2, k) == list_at(m, k).push(v));
    assert(list_at(m, k).push(v).drop_last() =~= list_at(m, k));
}

/// List round-trip law, removal half: after removing the first
/// occurrence of `v` under a key holding a list in which `v` first
/// occurs at `j`, reading the list back yields the old list without the
/// element at `j`, every other occurrence preserved in order.
pub proof fn lemma_kv_remove_round_trip(
    m: Map<Seq<u8>, StorageValueView>,
    k: Seq<u8>,
    v: Seq<u8>,
    j: int,
)
    requires
        m.dom().contains(k),
        0 <= j < list_at(m, k).len(),
        list_at(m, k)[j] == v,
        forall|i: int| 0 <= i < j ==> list_at(m, k)[i] != v,
    ensures
        ({
            let s = list_at(m, k);
            let m2 = m.insert(k, StorageValueView::List(remove_first(s, v)));
            list_at(m2, k) == s.subrange(0, j) + s.subrange(j + 1, s.len() as int)
        }),
{
    let s = list_at(m, k);
    crate::store::lemma_remove_first_at(s, v, j);
}

/// Commit-application exclusivity law: a successful commit application
/// has exactly one externally observable side effect.  The queued-PSK
/// count grows by one precisely when the participant stayed in the
/// group, and then the store is untouched; when the commit evicted the
/// participant the queue is untouched and every entity stored under the
/// group's storage keys is absent.  The two effects can never both
/// occur, and one of them always does.
pub proof fn lemma_apply_commit_exclusive(
    s1: DmlsState,
    s2: DmlsState,
    group_id: Seq<u8>,
    group_key: Seq<u8>,
    version: u16,
    epoch: u64,
    is_active: bool,
)
    requires
        is_active ==> s2.queue_spec() == s1.queue_spec().push(
            exporter_psk_id_spec(epoch, group_id),
        ) && s2.store_spec() == s1.store_spec(),
        !is_active ==> s2.queue_spec() == s1.queue_spec() && (forall|k: Seq<u8>|
            key_in_group(k, group_key, version) ==> !s2.store_spec().dom().contains(k)),
    ensures
        (s2.queue_spec().len() == s1.queue_spec().len() + 1) <==> is_active,
        is_active ==> s2.store_spec() == s1.store_spec(),
        !is_active ==> forall|k: Seq<u8>|
            key_in_group(k, group_key, version) ==> !s2.store_spec().dom().contains(k),
        !(s2.queue_spec().len() == s1.queue_spec().len() + 1 && s2.queue_spec()
            == s1.queue_spec()),
{
}

/// Send-group singleton law: once a (necessarily non-empty) send-group
/// id has been recorded, creating a send group is no longer allowed, and
/// the recorded id is unchanged by the failed check.
pub proof fn lemma_send_group_singleton(s: DmlsState, g: Seq<u8>)
    requires
        g.len() > 0,
        s.send_group_id_spec() == g,
    ensures
        !crate::continuity::create_send_group_allowed(s),
        s.send_group_id_spec() == g,
{
}

} // verus!
