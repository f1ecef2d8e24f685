//! The serialized key-value store of accounts.
//!
//! The registry is the single owner of the client-to-account mapping. Its
//! records sit in a vector kept strictly sorted by client id, and its
//! mathematical reading is the map from client id to account.

use vstd::prelude::*;
use crate::account::Account;
use crate::messages::{AccountRegistryMsg, AccountRegistryReply};
use crate::store::{
    lemma_map_of_absent, lemma_map_of_contains, lemma_map_of_index, lemma_map_of_insert,
    lemma_map_of_update, map_of, unique_keys,
};

verus! {

/// The key under which an account is stored.
pub open spec fn account_key() -> spec_fn(Account) -> u16 {
    |a: Account| a.client_id
}

/// What `Lookup` returns: the stored account of `id`, if any.
pub open spec fn lookup_spec(m: Map<u16, Account>, id: u16) -> Option<Account> {
    if m.contains_key(id) {
        Some(m[id])
    } else {
        None
    }
}

/// What `Register` does: the store and the account it answers with — the
/// existing record, or a fresh zero-balance account stored under `id`.
pub open spec fn register_spec(m: Map<u16, Account>, id: u16) -> (Map<u16, Account>, Account) {
    if m.contains_key(id) {
        (m, m[id])
    } else {
        (m.insert(id, Account::zeroed(id)), Account::zeroed(id))
    }
}

/// What `Persist` does: a last-writer-wins upsert under the account's own
/// client id.
pub open spec fn persist_spec(m: Map<u16, Account>, a: Account) -> Map<u16, Account> {
    m.insert(a.client_id, a)
}

/// `s` is a faithful snapshot of `m`: ascending by client id, every entry a
/// stored record, every stored record present.
pub open spec fn snapshot_ok(m: Map<u16, Account>, s: Seq<Account>) -> bool {
    &&& forall|i: int, j: int|
        0 <= i < j < s.len() ==> (#[trigger] s[i]).client_id < (#[trigger] s[j]).client_id
    &&& forall|i: int|
        0 <= i < s.len() ==> m.contains_key((#[trigger] s[i]).client_id) && m[s[i].client_id]
            == s[i]
    &&& forall|k: u16|
        #[trigger] m.contains_key(k) ==> exists|i: int|
            0 <= i < s.len() && (#[trigger] s[i]).client_id == k
}

/// The account registry: the single owner of the client-to-account mapping.
pub struct AccountRegistry {
    accounts: Vec<Account>,
}

impl View for AccountRegistry {
    type V = Map<u16, Account>;

    closed spec fn view(&self) -> Map<u16, Account> {
        map_of(self.accounts@, account_key())
    }
}

impl AccountRegistry {
    /// The records are strictly sorted by client id, so each client has at
    /// most one record.
    pub closed spec fn wf(&self) -> bool {
        forall|i: int, j: int|
            0 <= i < j < self.accounts@.len() ==> (#[trigger] self.accounts@[i]).client_id < (
            #[trigger] self.accounts@[j]).client_id
    }

    proof fn lemma_unique(&self)
        requires
            self.wf(),
        ensures
            unique_keys(self.accounts@, account_key()),
    {
        let key = account_key();
        assert forall|i: int, j: int| 0 <= i < j < self.accounts@.len() implies key(
            #[trigger] self.accounts@[i],
        ) != key(#[trigger] self.accounts@[j]) by {
            assert(self.accounts@[i].client_id < self.accounts@[j].client_id);
        }
    }

    /// An empty registry.
    pub fn new() -> (r: Self)
        ensures
            r.wf(),
            r@ == Map::<u16, Account>::empty(),
    {
        AccountRegistry { accounts: Vec::new() }
    }

    /// The first position whose record's client id is not below `client_id`.
    fn lower_bound(&self, client_id: u16) -> (r: usize)
        ensures
            r <= self.accounts@.len(),
            forall|j: int| 0 <= j < r ==> (#[trigger] self.accounts@[j]).client_id < client_id,
            r < self.accounts@.len() ==> self.accounts@[r as int].client_id >= client_id,
    {
        let mut i: usize = 0;
        while i < self.accounts.len()
            invariant
                i <= self.accounts@.len(),
                forall|j: int| 0 <= j < i ==> (#[trigger] self.accounts@[j]).client_id < client_id,
            decreases self.accounts@.len() - i,
        {
            if self.accounts[i].client_id >= client_id {
                return i;
            }
            i += 1;
        }
        i
    }

    /// Every record's client id differs from `client_id` when the sorted
    /// scan stopped at `i` without finding it.
    proof fn lemma_not_found(&self, client_id: u16, i: int)
        requires
            self.wf(),
            0 <= i <= self.accounts@.len(),
            forall|j: int| 0 <= j < i ==> (#[trigger] self.accounts@[j]).client_id < client_id,
            i < self.accounts@.len() ==> self.accounts@[i].client_id > client_id,
        ensures
            !self@.contains_key(client_id),
    {
        let key = account_key();
        assert forall|j: int| 0 <= j < self.accounts@.len() implies key(
            #[trigger] self.accounts@[j],
        ) != client_id by {
            if j >= i {
                assert(self.accounts@[i].client_id > client_id);
                if j > i {
                    assert(self.accounts@[i].client_id < self.accounts@[j].client_id);
                }
            }
        }
        lemma_map_of_absent(self.accounts@, key, client_id);
    }

    /// `Lookup`: the stored account of `client_id`, if any; no side effect.
    pub fn lookup(&self, client_id: u16) -> (r: Option<Account>)
        requires
            self.wf(),
        ensures
            r == lookup_spec(self@, client_id),
    {
        let i = self.lower_bound(client_id);
        if i < self.accounts.len() && self.accounts[i].client_id == client_id {
            proof {
                self.lemma_unique();
                lemma_map_of_index(self.accounts@, account_key(), i as int);
            }
            Some(self.accounts[i])
        } else {
            proof {
                self.lemma_not_found(client_id, i as int);
            }
            None
        }
    }

    /// `Register`: the existing account, or a fresh zero-balance account
    /// created and stored if `client_id` is unknown. Repeating the call
    /// changes nothing further.
    pub fn register(&mut self, client_id: u16) -> (r: Account)
        requires
            old(self).wf(),
        ensures
            final(self).wf(),
            (final(self)@, r) == register_spec(old(self)@, client_id),
    {
        let i = self.lower_bound(client_id);
        if i < self.accounts.len() && self.accounts[i].client_id == client_id {
            proof {
                self.lemma_unique();
                lemma_map_of_index(self.accounts@, account_key(), i as int);
            }
            self.accounts[i]
        } else {
            proof {
                self.lemma_not_found(client_id, i as int);
            }
            let ghost s0 = self.accounts@;
            let account = Account::new(client_id);
            self.accounts.insert(i, account);
            proof {
                let key = account_key();
                assert forall|j: int| 0 <= j < s0.len() implies key(#[trigger] s0[j]) != key(
                    account,
                ) by {
                    if j >= i {
                        assert(s0[i as int].client_id > client_id);
                        if j > i {
                            assert(s0[i as int].client_id < s0[j].client_id);
                        }
                    }
                }
                lemma_map_of_insert(s0, key, i as int, account);
                assert forall|p: int, q: int|
                    0 <= p < q < self.accounts@.len() implies (
                #[trigger] self.accounts@[p]).client_id < (#[trigger] self.accounts@[q]).client_id by {
                    s0.insert_ensures(i as int, account);
                    if p < i && q > i {
                        assert(s0[q - 1].client_id >= s0[i as int].client_id > client_id);
                    } else if p == i {
                        assert(s0[q - 1].client_id >= s0[i as int].client_id > client_id);
                    } else if q == i {
                        assert(s0[p].client_id < client_id);
                    }
                }
            }
            account
        }
    }

    /// `Persist`: a last-writer-wins upsert of `account` under its client
    /// id; answers with the stored value.
    pub fn persist(&mut self, account: Account) -> (r: Option<Account>)
        requires
            old(self).wf(),
        ensures
            final(self).wf(),
            final(self)@ == persist_spec(old(self)@, account),
            r == Some(account),
    {
        let i = self.lower_bound(account.client_id);
        if i < self.accounts.len() && self.accounts[i].client_id == account.client_id {
            let ghost s0 = self.accounts@;
            self.accounts.remove(i);
            self.accounts.insert(i, account);
            proof {
                self.lemma_unique_of(s0);
                assert(self.accounts@ =~= s0.update(i as int, account));
                lemma_map_of_update(s0, account_key(), i as int, account);
                assert forall|p: int, q: int|
                    0 <= p < q < self.accounts@.len() implies (
                #[trigger] self.accounts@[p]).client_id < (#[trigger] self.accounts@[q]).client_id by {
                    assert(s0[p].client_id < s0[q].client_id);
                }
            }
        } else {
            proof {
                self.lemma_not_found(account.client_id, i as int);
            }
            let ghost s0 = self.accounts@;
            self.accounts.insert(i, account);
            proof {
                let key = account_key();
                assert forall|j: int| 0 <= j < s0.len() implies key(#[trigger] s0[j]) != key(
                    account,
                ) by {
                    if j >= i {
                        assert(s0[i as int].client_id > account.client_id);
                        if j > i {
                            assert(s0[i as int].client_id < s0[j].client_id);
                        }
                    }
                }
                lemma_map_of_insert(s0, key, i as int, account);
                assert forall|p: int, q: int|
                    0 <= p < q < self.accounts@.len() implies (
                #[trigger] self.accounts@[p]).client_id < (#[trigger] self.accounts@[q]).client_id by {
                    s0.insert_ensures(i as int, account);
                    if p < i && q > i {
                        assert(s0[q - 1].client_id >= s0[i as int].client_id > account.client_id);
                    } else if p == i {
                        assert(s0[q - 1].client_id >= s0[i as int].client_id > account.client_id);
                    } else if q == i {
                        assert(s0[p].client_id < account.client_id);
                    }
                }
            }
        }
        Some(account)
    }

    /// `lemma_unique` phrased over a saved copy of the records.
    proof fn lemma_unique_of(&self, s0: Seq<Account>)
        requires
            forall|i: int, j: int|
                0 <= i < j < s0.len() ==> (#[trigger] s0[i]).client_id < (#[trigger] s0[j]).client_id,
        ensures
            unique_keys(s0, account_key()),
    {
        let key = account_key();
        assert forall|i: int, j: int| 0 <= i < j < s0.len() implies key(#[trigger] s0[i]) != key(
            #[trigger] s0[j],
        ) by {
            assert(s0[i].client_id < s0[j].client_id);
        }
    }

    /// `Query`: a snapshot of all known accounts, ascending by client id; no
    /// side effect.
    pub fn query(&self) -> (r: Vec<Account>)
        requires
            self.wf(),
        ensures
            snapshot_ok(self@, r@),
    {
        let mut r: Vec<Account> = Vec::new();
        let mut i: usize = 0;
        while i < self.accounts.len()
            invariant
                i <= self.accounts@.len(),
                r@ == self.accounts@.take(i as int),
            decreases self.accounts@.len() - i,
        {
            r.push(self.accounts[i]);
            proof {
                assert(r@ =~= self.accounts@.take(i + 1));
            }
            i += 1;
        }
        proof {
            assert(r@ =~= self.accounts@);
            self.lemma_unique();
            assert forall|j: int|
                0 <= j < r@.len() implies self@.contains_key((#[trigger] r@[j]).client_id)
                && self@[r@[j].client_id] == r@[j] by {
                lemma_map_of_index(self.accounts@, account_key(), j);
            }
            assert forall|k: u16| #[trigger] self@.contains_key(k) implies exists|j: int|
                0 <= j < r@.len() && (#[trigger] r@[j]).client_id == k by {
                lemma_map_of_contains(self.accounts@, account_key(), k);
                let w = choose|w: int|
                    0 <= w < self.accounts@.len() && account_key()(
                        #[trigger] self.accounts@[w],
                    ) == k;
                assert(r@[w].client_id == k);
            }
        }
        r
    }

    /// One serialized step of the registry's processing loop: dispatch one
    /// request and produce its reply.
    pub fn handle_message(&mut self, msg: AccountRegistryMsg) -> (r: AccountRegistryReply)
        requires
            old(self).wf(),
        ensures
            final(self).wf(),
            match msg {
                AccountRegistryMsg::Lookup { id } => final(self)@ == old(self)@ && r
                    == AccountRegistryReply::Record(lookup_spec(old(self)@, id)),
                AccountRegistryMsg::Register { id } => final(self)@ == register_spec(
                    old(self)@,
                    id,
                ).0 && r == AccountRegistryReply::Record(Some(register_spec(old(self)@, id).1)),
                AccountRegistryMsg::Persist { account } => final(self)@ == persist_spec(
                    old(self)@,
                    account,
                ) && r == AccountRegistryReply::Record(Some(account)),
                AccountRegistryMsg::Query => final(self)@ == old(self)@ && (r matches AccountRegistryReply::Snapshot(v)
                    && snapshot_ok(old(self)@, v@)),
            },
    {
        match msg {
            AccountRegistryMsg::Lookup { id } => AccountRegistryReply::Record(self.lookup(id)),
            AccountRegistryMsg::Register { id } => AccountRegistryReply::Record(
                Some(self.register(id)),
            ),
            AccountRegistryMsg::Persist { account } => AccountRegistryReply::Record(
                self.persist(account),
            ),
            AccountRegistryMsg::Query => AccountRegistryReply::Snapshot(self.query()),
        }
    }
}

/// A caller's handle on the account registry.
///
/// In this in-memory form the handle owns the registry itself, so calls can
/// never find the registry gone; a deployment that puts the registry behind
/// a message channel keeps the same contracts and answers
/// `RegistryUnavailable` where a reply can no longer come.
pub struct AccountRegistryHandle {
    registry: AccountRegistry,
}

impl View for AccountRegistryHandle {
    type V = Map<u16, Account>;

    closed spec fn view(&self) -> Map<u16, Account> {
        self.registry@
    }
}

impl AccountRegistryHandle {
    pub closed spec fn wf(&self) -> bool {
        self.registry.wf()
    }

    /// A handle on a fresh, empty registry.
    pub fn new() -> (r: Self)
        ensures
            r.wf(),
            r@ == Map::<u16, Account>::empty(),
    {
        AccountRegistryHandle { registry: AccountRegistry::new() }
    }

    /// The account of `client_id`. A miss registers the client, so the call
    /// always answers with an account: the stored one, or a fresh
    /// zero-balance account.
    pub fn lookup(&mut self, client_id: u16) -> (r: Option<Account>)
        requires
            old(self).wf(),
        ensures
            final(self).wf(),
            final(self)@ == register_spec(old(self)@, client_id).0,
            r == Some(register_spec(old(self)@, client_id).1),
    {
        match self.registry.lookup(client_id) {
            Some(account) => Some(account),
            None => Some(self.registry.register(client_id)),
        }
    }

    /// Store `account` under its client id, last writer wins.
    pub fn persist(&mut self, account: Account) -> (r: Option<Account>)
        requires
            old(self).wf(),
        ensures
            final(self).wf(),
            final(self)@ == persist_spec(old(self)@, account),
            r == Some(account),
    {
        self.registry.persist(account)
    }

    /// A snapshot of all known accounts, ascending by client id.
    pub fn query(&self) -> (r: Vec<Account>)
        requires
            self.wf(),
        ensures
            snapshot_ok(self@, r@),
    {
        self.registry.query()
    }
}

/// Law: registering the same unknown client twice yields the same stored
/// account both times — the first call creates it, the second changes
/// nothing and answers with the same record.
pub proof fn lemma_register_idempotent(m: Map<u16, Account>, id: u16)
    ensures
        register_spec(register_spec(m, id).0, id) == register_spec(m, id),
{
}

/// Law: a persist followed immediately by a lookup of the same client
/// returns exactly the persisted account.
pub proof fn lemma_persist_lookup_roundtrip(m: Map<u16, Account>, a: Account)
    ensures
        lookup_spec(persist_spec(m, a), a.client_id) == Some(a),
{
}

} // verus!
