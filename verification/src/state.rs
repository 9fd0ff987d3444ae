//! The durable record of one participant: signing identity, the id of the
//! participant's own outgoing ("send") group, the FIFO queue of
//! not-yet-injected exporter-PSK identifiers, and the key-value store
//! holding all group state.
//!
//! The send-group id is optional — an empty byte string means unset — and
//! is set exactly once.  The queue preserves the order in which PSK
//! identifiers were derived, which is the order the epochs were committed.

use vstd::prelude::*;
use crate::keys::SignatureKeyPair;
use crate::store::{seq_views, OpenMlsKeyValueStore, StorageValueView};

verus! {

/// The durable state of one participant.
pub struct DmlsState {
    pub(crate) send_group_id: Vec<u8>,
    pub(crate) exporter_psk_queue: Vec<Vec<u8>>,
    pub(crate) signature_key_pair: SignatureKeyPair,
    pub(crate) openmls_values: OpenMlsKeyValueStore,
}

impl DmlsState {
    /// The send-group id; empty means unset.
    pub open(crate) spec fn send_group_id_spec(&self) -> Seq<u8> {
        self.send_group_id@
    }

    /// The queued exporter-PSK identifiers, oldest first.
    pub open(crate) spec fn queue_spec(&self) -> Seq<Seq<u8>> {
        seq_views(self.exporter_psk_queue@)
    }

    /// The signing identity.
    pub open(crate) spec fn key_pair_spec(&self) -> SignatureKeyPair {
        self.signature_key_pair
    }

    /// The contents of the key-value store.
    pub open(crate) spec fn store_spec(&self) -> Map<Seq<u8>, StorageValueView> {
        self.openmls_values@
    }

    /// A fresh state: queue empty, send group unset, store empty.
    pub fn new(signature_key_pair: SignatureKeyPair) -> (r: Self)
        ensures
            r.send_group_id_spec().len() == 0,
            r.queue_spec() == Seq::<Seq<u8>>::empty(),
            r.key_pair_spec() == signature_key_pair,
            r.store_spec() == Map::<Seq<u8>, StorageValueView>::empty(),
    {
        let r = DmlsState {
            send_group_id: Vec::new(),
            exporter_psk_queue: Vec::new(),
            signature_key_pair,
            openmls_values: OpenMlsKeyValueStore::new(),
        };
        proof {
            assert(r.queue_spec() =~= Seq::<Seq<u8>>::empty());
        }
        r
    }

    /// Records the send-group id.  Callable only while the id is unset:
    /// the orchestrator enforces that a second send group is never
    /// created.
    pub fn set_send_group_id(&mut self, send_group_id: Vec<u8>)
        requires
            old(self).send_group_id_spec().len() == 0,
            send_group_id@.len() > 0,
        ensures
            final(self).send_group_id_spec() == send_group_id@,
            final(self).queue_spec() == old(self).queue_spec(),
            final(self).key_pair_spec() == old(self).key_pair_spec(),
            final(self).store_spec() == old(self).store_spec(),
    {
        self.send_group_id = send_group_id;
    }

    /// Appends an exporter-PSK identifier at the tail of the queue.
    pub fn push_exporter_psk_id(&mut self, psk: Vec<u8>)
        ensures
            final(self).queue_spec() == old(self).queue_spec().push(psk@),
            final(self).send_group_id_spec() == old(self).send_group_id_spec(),
            final(self).key_pair_spec() == old(self).key_pair_spec(),
            final(self).store_spec() == old(self).store_spec(),
    {
        self.exporter_psk_queue.push(psk);
        proof {
            assert(final(self).queue_spec() =~= old(self).queue_spec().push(psk@));
        }
    }

    /// Empties the queue and returns the queued identifiers in FIFO
    /// order, oldest first.
    pub fn clear_exporter_psk_ids(&mut self) -> (r: Vec<Vec<u8>>)
        ensures
            seq_views(r@) == old(self).queue_spec(),
            final(self).queue_spec() == Seq::<Seq<u8>>::empty(),
            final(self).send_group_id_spec() == old(self).send_group_id_spec(),
            final(self).key_pair_spec() == old(self).key_pair_spec(),
            final(self).store_spec() == old(self).store_spec(),
    {
        let mut drained: Vec<Vec<u8>> = Vec::new();
        core::mem::swap(&mut drained, &mut self.exporter_psk_queue);
        proof {
            assert(final(self).queue_spec() =~= Seq::<Seq<u8>>::empty());
        }
        drained
    }

    /// A copy of the queued exporter-PSK identifiers, oldest first,
    /// leaving the queue as it is.
    pub fn exporter_psk_ids(&self) -> (r: Vec<Vec<u8>>)
        ensures
            seq_views(r@) == self.queue_spec(),
    {
        let mut out: Vec<Vec<u8>> = Vec::new();
        let mut i: usize = 0;
        while i < self.exporter_psk_queue.len()
            invariant
                0 <= i <= self.exporter_psk_queue@.len(),
                out@.len() == i,
                forall|j: int| 0 <= j < i ==> out@[j]@ == self.exporter_psk_queue@[j]@,
            decreases self.exporter_psk_queue@.len() - i,
        {
            let it = &self.exporter_psk_queue[i];
            out.push(vstd::slice::slice_to_vec(it.as_slice()));
            i = i + 1;
        }
        proof {
            assert(seq_views(out@) =~= self.queue_spec());
        }
        out
    }

    /// The send-group id, or `None` while it is unset.
    pub fn send_group_id(&self) -> (r: Option<Vec<u8>>)
        ensures
            match r {
                Some(g) => self.send_group_id_spec().len() > 0 && g@ == self.send_group_id_spec(),
                None => self.send_group_id_spec().len() == 0,
            },
    {
        if self.send_group_id.len() == 0 {
            None
        } else {
            Some(vstd::slice::slice_to_vec(self.send_group_id.as_slice()))
        }
    }

    /// The signing identity.
    pub fn signature_key_pair(&self) -> (r: &SignatureKeyPair)
        ensures
            *r == self.key_pair_spec(),
    {
        &self.signature_key_pair
    }

    /// Read access to the key-value store.
    pub fn openmls_values(&self) -> (r: &OpenMlsKeyValueStore)
        ensures
            r@ == self.store_spec(),
    {
        &self.openmls_values
    }

    /// Takes the key-value store out of the state, leaving an empty one
    /// behind.  The counterpart of `put_openmls_values`; the pair lets a
    /// caller hand the store to the group engine and return it.
    pub fn take_openmls_values(&mut self) -> (r: OpenMlsKeyValueStore)
        ensures
            r@ == old(self).store_spec(),
            final(self).store_spec() == Map::<Seq<u8>, StorageValueView>::empty(),
            final(self).send_group_id_spec() == old(self).send_group_id_spec(),
            final(self).queue_spec() == old(self).queue_spec(),
            final(self).key_pair_spec() == old(self).key_pair_spec(),
    {
        let mut taken = OpenMlsKeyValueStore::new();
        core::mem::swap(&mut taken, &mut self.openmls_values);
        taken
    }

    /// Puts a key-value store back into the state, replacing whatever it
    /// held.
    pub fn put_openmls_values(&mut self, values: OpenMlsKeyValueStore)
        ensures
            final(self).store_spec() == values@,
            final(self).send_group_id_spec() == old(self).send_group_id_spec(),
            final(self).queue_spec() == old(self).queue_spec(),
            final(self).key_pair_spec() == old(self).key_pair_spec(),
    {
        self.openmls_values = values;
    }
}

} // verus!
