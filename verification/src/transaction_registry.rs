//! The serialized key-value store of transactions.
//!
//! Symmetric to the account registry: the single owner of the mapping from
//! transaction id to transaction, held in a vector strictly sorted by id.

use vstd::prelude::*;
use crate::messages::TransactionRegistryMsg;
use crate::store::{
    lemma_map_of_absent, lemma_map_of_index, lemma_map_of_insert, lemma_map_of_update, map_of,
    unique_keys,
};
use crate::transaction::Transaction;

verus! {

/// The key under which a transaction is stored.
pub open spec fn transaction_key() -> spec_fn(Transaction) -> u32 {
    |t: Transaction| t.transaction_id
}

/// What `Lookup` returns: the stored transaction with `id`, if any.
pub open spec fn tx_lookup_spec(m: Map<u32, Transaction>, id: u32) -> Option<Transaction> {
    if m.contains_key(id) {
        Some(m[id])
    } else {
        None
    }
}

/// What `Persist` does: a last-writer-wins upsert under the transaction's
/// own id.
pub open spec fn tx_persist_spec(m: Map<u32, Transaction>, t: Transaction) -> Map<
    u32,
    Transaction,
> {
    m.insert(t.transaction_id, t)
}

/// The transaction registry: the single owner of the id-to-transaction
/// mapping.
pub struct TransactionRegistry {
    transactions: Vec<Transaction>,
}

impl View for TransactionRegistry {
    type V = Map<u32, Transaction>;

    closed spec fn view(&self) -> Map<u32, Transaction> {
        map_of(self.transactions@, transaction_key())
    }
}

impl TransactionRegistry {
    /// The records are strictly sorted by transaction id, so each id has at
    /// most one record.
    pub closed spec fn wf(&self) -> bool {
        forall|i: int, j: int|
            0 <= i < j < self.transactions@.len() ==> (
            #[trigger] self.transactions@[i]).transaction_id < (
            #[trigger] self.transactions@[j]).transaction_id
    }

    proof fn lemma_unique(&self)
        requires
            self.wf(),
        ensures
            unique_keys(self.transactions@, transaction_key()),
    {
        let key = transaction_key();
        assert forall|i: int, j: int| 0 <= i < j < self.transactions@.len() implies key(
            #[trigger] self.transactions@[i],
        ) != key(#[trigger] self.transactions@[j]) by {
            assert(self.transactions@[i].transaction_id < self.transactions@[j].transaction_id);
        }
    }

    /// An empty registry.
    pub fn new() -> (r: Self)
        ensures
            r.wf(),
            r@ == Map::<u32, Transaction>::empty(),
    {
        TransactionRegistry { transactions: Vec::new() }
    }

    /// The first position whose record's id is not below `transaction_id`.
    fn lower_bound(&self, transaction_id: u32) -> (r: usize)
        ensures
            r <= self.transactions@.len(),
            forall|j: int|
                0 <= j < r ==> (#[trigger] self.transactions@[j]).transaction_id < transaction_id,
            r < self.transactions@.len() ==> self.transactions@[r as int].transaction_id
                >= transaction_id,
    {
        let mut i: usize = 0;
        while i < self.transactions.len()
            invariant
                i <= self.transactions@.len(),
                forall|j: int|
                    0 <= j < i ==> (#[trigger] self.transactions@[j]).transaction_id
                        < transaction_id,
            decreases self.transactions@.len() - i,
        {
            if self.transactions[i].transaction_id >= transaction_id {
                return i;
            }
            i += 1;
        }
        i
    }

    /// Every record's id differs from `transaction_id` when the sorted scan
    /// stopped at `i` without finding it.
    proof fn lemma_not_found(&self, transaction_id: u32, i: int)
        requires
            self.wf(),
            0 <= i <= self.transactions@.len(),
            forall|j: int|
                0 <= j < i ==> (#[trigger] self.transactions@[j]).transaction_id < transaction_id,
            i < self.transactions@.len() ==> self.transactions@[i].transaction_id > transaction_id,
        ensures
            !self@.contains_key(transaction_id),
    {
        let key = transaction_key();
        assert forall|j: int| 0 <= j < self.transactions@.len() implies key(
            #[trigger] self.transactions@[j],
        ) != transaction_id by {
            if j >= i {
                assert(self.transactions@[i].transaction_id > transaction_id);
                if j > i {
                    assert(self.transactions@[i].transaction_id
                        < self.transactions@[j].transaction_id);
                }
            }
        }
        lemma_map_of_absent(self.transactions@, key, transaction_id);
    }

    /// `Lookup`: the stored transaction with `transaction_id`, if any; no
    /// side effect.
    pub fn lookup(&self, transaction_id: u32) -> (r: Option<Transaction>)
        requires
            self.wf(),
        ensures
            r == tx_lookup_spec(self@, transaction_id),
    {
        let i = self.lower_bound(transaction_id);
        if i < self.transactions.len() && self.transactions[i].transaction_id == transaction_id {
            proof {
                self.lemma_unique();
                lemma_map_of_index(self.transactions@, transaction_key(), i as int);
            }
            Some(self.transactions[i])
        } else {
            proof {
                self.lemma_not_found(transaction_id, i as int);
            }
            None
        }
    }

    /// `Persist`: a last-writer-wins upsert of `transaction` under its id;
    /// answers with the stored value.
    pub fn persist(&mut self, transaction: Transaction) -> (r: Option<Transaction>)
        requires
            old(self).wf(),
        ensures
            final(self).wf(),
            final(self)@ == tx_persist_spec(old(self)@, transaction),
            r == Some(transaction),
    {
        let id = transaction.transaction_id;
        let i = self.lower_bound(id);
        if i < self.transactions.len() && self.transactions[i].transaction_id == id {
            let ghost s0 = self.transactions@;
            self.transactions.remove(i);
            self.transactions.insert(i, transaction);
            proof {
                self.lemma_unique_of(s0);
                assert(self.transactions@ =~= s0.update(i as int, transaction));
                lemma_map_of_update(s0, transaction_key(), i as int, transaction);
                assert forall|p: int, q: int|
                    0 <= p < q < self.transactions@.len() implies (
                #[trigger] self.transactions@[p]).transaction_id < (
                #[trigger] self.transactions@[q]).transaction_id by {
                    assert(s0[p].transaction_id < s0[q].transaction_id);
                }
            }
        } else {
            proof {
                self.lemma_not_found(id, i as int);
            }
            let ghost s0 = self.transactions@;
            self.transactions.insert(i, transaction);
            proof {
                let key = transaction_key();
                assert forall|j: int| 0 <= j < s0.len() implies key(#[trigger] s0[j]) != key(
                    transaction,
                ) by {
                    if j >= i {
                        assert(s0[i as int].transaction_id > id);
                        if j > i {
                            assert(s0[i as int].transaction_id < s0[j].transaction_id);
                        }
                    }
                }
                lemma_map_of_insert(s0, key, i as int, transaction);
                assert forall|p: int, q: int|
                    0 <= p < q < self.transactions@.len() implies (
                #[trigger] self.transactions@[p]).transaction_id < (
                #[trigger] self.transactions@[q]).transaction_id by {
                    s0.insert_ensures(i as int, transaction);
                    if p < i && q > i {
                        assert(s0[q - 1].transaction_id >= s0[i as int].transaction_id > id);
                    } else if p == i {
                        assert(s0[q - 1].transaction_id >= s0[i as int].transaction_id > id);
                    } else if q == i {
                        assert(s0[p].transaction_id < id);
                    }
                }
            }
        }
        Some(transaction)
    }

    /// `lemma_unique` phrased over a saved copy of the records.
    proof fn lemma_unique_of(&self, s0: Seq<Transaction>)
        requires
            forall|i: int, j: int|
                0 <= i < j < s0.len() ==> (#[trigger] s0[i]).transaction_id < (
                #[trigger] s0[j]).transaction_id,
        ensures
            unique_keys(s0, transaction_key()),
    {
        let key = transaction_key();
        assert forall|i: int, j: int| 0 <= i < j < s0.len() implies key(#[trigger] s0[i]) != key(
            #[trigger] s0[j],
        ) by {
            assert(s0[i].transaction_id < s0[j].transaction_id);
        }
    }

    /// One serialized step of the registry's processing loop: dispatch one
    /// request and produce its reply.
    pub fn handle_message(&mut self, msg: TransactionRegistryMsg) -> (r: Option<Transaction>)
        requires
            old(self).wf(),
        ensures
            final(self).wf(),
            match msg {
                TransactionRegistryMsg::Lookup { id } => final(self)@ == old(self)@ && r
                    == tx_lookup_spec(old(self)@, id),
                TransactionRegistryMsg::Persist { transaction } => final(self)@ == tx_persist_spec(
                    old(self)@,
                    transaction,
                ) && r == Some(transaction),
            },
    {
        match msg {
            TransactionRegistryMsg::Lookup { id } => self.lookup(id),
            TransactionRegistryMsg::Persist { transaction } => self.persist(transaction),
        }
    }
}

/// A caller's handle on the transaction registry.
///
/// In this in-memory form the handle owns the registry itself, so calls can
/// never find the registry gone; a deployment that puts the registry behind
/// a message channel keeps the same contracts and answers
/// `RegistryUnavailable` where a reply can no longer come.
pub struct TransactionRegistryHandle {
    registry: TransactionRegistry,
}

impl View for TransactionRegistryHandle {
    type V = Map<u32, Transaction>;

    closed spec fn view(&self) -> Map<u32, Transaction> {
        self.registry@
    }
}

impl TransactionRegistryHandle {
    pub closed spec fn wf(&self) -> bool {
        self.registry.wf()
    }

    /// A handle on a fresh, empty registry.
    pub fn new() -> (r: Self)
        ensures
            r.wf(),
            r@ == Map::<u32, Transaction>::empty(),
    {
        TransactionRegistryHandle { registry: TransactionRegistry::new() }
    }

    /// Store `transaction` under its id, last writer wins.
    pub fn persist(&mut self, transaction: Transaction) -> (r: Option<Transaction>)
        requires
            old(self).wf(),
        ensures
            final(self).wf(),
            final(self)@ == tx_persist_spec(old(self)@, transaction),
            r == Some(transaction),
    {
        self.registry.persist(transaction)
    }

    /// The stored transaction with `transaction_id`, if any.
    pub fn lookup(&self, transaction_id: u32) -> (r: Option<Transaction>)
        requires
            self.wf(),
        ensures
            r == tx_lookup_spec(self@, transaction_id),
    {
        self.registry.lookup(transaction_id)
    }
}

} // verus!
