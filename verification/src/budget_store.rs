//! The budget store: budgets with digest-guarded blobs, capability keys,
//! accept keys, invitations, entries and categories.
//!
//! The store is the source of truth for capabilities: tokens are only
//! proofs, and deleting a row here invalidates every outstanding token for
//! it.  Every mutating operation is specified as a transition on the
//! store's view, so that the concurrency-guard and invitation-lifecycle
//! laws can be stated and proved over those transitions.

use vstd::prelude::*;

use crate::bytes::{bytes_eq, clone_bytes};
use crate::crypto::{sha1_hash, sha1_of, uid_new_v4};
use crate::errors::DaoError;
use crate::ids::Uid;
use crate::models::{
    spec_public_data_of, AccessKeyView, AcceptKeyView, Budget, BudgetAccessKey, BudgetAcceptKey,
    BudgetShareInvite, BudgetShareInvitePublicData, BudgetView, Category, CategoryView,
    CategoryWithTempId, Entry, EntryView, InvitePublicView, InviteView,
};

verus! {

/// The full state of the store, as a value.
#[verifier::ext_equal]
pub ghost struct DaoState {
    pub budgets: Seq<BudgetView>,
    pub access_keys: Seq<AccessKeyView>,
    pub accept_keys: Seq<AcceptKeyView>,
    pub invites: Seq<InviteView>,
    pub entries: Seq<EntryView>,
    pub categories: Seq<CategoryView>,
}

/// Is some budget row keyed by `id`?
pub open spec fn has_budget(s: Seq<BudgetView>, id: Uid) -> bool {
    exists|i: int| 0 <= i < s.len() && (#[trigger] s[i]).id == id
}

/// The index of the budget row keyed by `id`.
pub open spec fn budget_at(s: Seq<BudgetView>, id: Uid) -> int {
    choose|i: int| 0 <= i < s.len() && (#[trigger] s[i]).id == id
}

/// Is some capability key row keyed by `(key_id, budget_id)`?
pub open spec fn has_access_key(s: Seq<AccessKeyView>, key_id: Uid, budget_id: Uid) -> bool {
    exists|i: int|
        0 <= i < s.len() && (#[trigger] s[i]).key_id == key_id && s[i].budget_id == budget_id
}

/// The index of the capability key row keyed by `(key_id, budget_id)`.
pub open spec fn access_key_at(s: Seq<AccessKeyView>, key_id: Uid, budget_id: Uid) -> int {
    choose|i: int|
        0 <= i < s.len() && (#[trigger] s[i]).key_id == key_id && s[i].budget_id == budget_id
}

/// Is some accept key row keyed by `(key_id, budget_id)`?
pub open spec fn has_accept_key(s: Seq<AcceptKeyView>, key_id: Uid, budget_id: Uid) -> bool {
    exists|i: int|
        0 <= i < s.len() && (#[trigger] s[i]).key_id == key_id && s[i].budget_id == budget_id
}

/// The index of the accept key row keyed by `(key_id, budget_id)`.
pub open spec fn accept_key_at(s: Seq<AcceptKeyView>, key_id: Uid, budget_id: Uid) -> int {
    choose|i: int|
        0 <= i < s.len() && (#[trigger] s[i]).key_id == key_id && s[i].budget_id == budget_id
}

/// Is some invitation row keyed by `id`?
pub open spec fn has_invite(s: Seq<InviteView>, id: Uid) -> bool {
    exists|i: int| 0 <= i < s.len() && (#[trigger] s[i]).id == id
}

/// The index of the invitation row keyed by `id`.
pub open spec fn invite_at(s: Seq<InviteView>, id: Uid) -> int {
    choose|i: int| 0 <= i < s.len() && (#[trigger] s[i]).id == id
}

/// Is some entry row keyed by `id` within `budget_id`?
pub open spec fn has_entry(s: Seq<EntryView>, id: Uid, budget_id: Uid) -> bool {
    exists|i: int| 0 <= i < s.len() && (#[trigger] s[i]).id == id && s[i].budget_id == budget_id
}

/// The index of the entry row keyed by `id` within `budget_id`.
pub open spec fn entry_at(s: Seq<EntryView>, id: Uid, budget_id: Uid) -> int {
    choose|i: int| 0 <= i < s.len() && (#[trigger] s[i]).id == id && s[i].budget_id == budget_id
}

/// Is some category row keyed by `id` within `budget_id`?
pub open spec fn has_category(s: Seq<CategoryView>, id: Uid, budget_id: Uid) -> bool {
    exists|i: int| 0 <= i < s.len() && (#[trigger] s[i]).id == id && s[i].budget_id == budget_id
}

/// The index of the category row keyed by `id` within `budget_id`.
pub open spec fn category_at(s: Seq<CategoryView>, id: Uid, budget_id: Uid) -> int {
    choose|i: int| 0 <= i < s.len() && (#[trigger] s[i]).id == id && s[i].budget_id == budget_id
}

impl DaoState {
    /// Well-formedness: rows are uniquely keyed, and the accept-key and
    /// capability-key identifier spaces are disjoint (until acceptance
    /// promotes an accept key into a capability key).
    pub open spec fn wf(self) -> bool {
        &&& forall|i: int, j: int|
            0 <= i < j < self.budgets.len() ==> (#[trigger] self.budgets[i]).id != (
            #[trigger] self.budgets[j]).id
        &&& forall|i: int, j: int|
            0 <= i < j < self.access_keys.len() ==> (#[trigger] self.access_keys[i]).key_id != (
            #[trigger] self.access_keys[j]).key_id
        &&& forall|i: int, j: int|
            0 <= i < j < self.accept_keys.len() ==> (#[trigger] self.accept_keys[i]).key_id != (
            #[trigger] self.accept_keys[j]).key_id
        &&& forall|i: int, j: int|
            0 <= i < j < self.invites.len() ==> (#[trigger] self.invites[i]).id != (
            #[trigger] self.invites[j]).id
        &&& forall|i: int, j: int|
            0 <= i < j < self.entries.len() ==> (#[trigger] self.entries[i]).id != (
            #[trigger] self.entries[j]).id
        &&& forall|i: int, j: int|
            0 <= i < j < self.categories.len() ==> (#[trigger] self.categories[i]).id != (
            #[trigger] self.categories[j]).id
        &&& forall|i: int, j: int|
            0 <= i < self.accept_keys.len() && 0 <= j < self.access_keys.len() ==> (
            #[trigger] self.accept_keys[i]).key_id != (#[trigger] self.access_keys[j]).key_id
    }
}

/// The budget store.
pub struct Dao {
    pub budgets: Vec<Budget>,
    pub access_keys: Vec<BudgetAccessKey>,
    pub accept_keys: Vec<BudgetAcceptKey>,
    pub invites: Vec<BudgetShareInvite>,
    pub entries: Vec<Entry>,
    pub categories: Vec<Category>,
}

impl View for Dao {
    type V = DaoState;

    open spec fn view(&self) -> DaoState {
        DaoState {
            budgets: self.budgets@.map_values(|b: Budget| b@),
            access_keys: self.access_keys@.map_values(|k: BudgetAccessKey| k@),
            accept_keys: self.accept_keys@.map_values(|k: BudgetAcceptKey| k@),
            invites: self.invites@.map_values(|v: BudgetShareInvite| v@),
            entries: self.entries@.map_values(|e: Entry| e@),
            categories: self.categories@.map_values(|c: Category| c@),
        }
    }
}

/// The index of the budget row keyed by `id`, if any, with no earlier match.
fn find_budget_idx(v: &Vec<Budget>, id: Uid) -> (r: Option<usize>)
    ensures
        match r {
            Some(i) => i < v@.len() && v@[i as int]@.id == id,
            None => forall|j: int| 0 <= j < v@.len() ==> (#[trigger] v@[j])@.id != id,
        },
{
    let n = v.len();
    let mut i: usize = 0;
    while i < n
        invariant
            n == v@.len(),
            i <= n,
            forall|j: int| 0 <= j < i ==> (#[trigger] v@[j])@.id != id,
        decreases n - i,
    {
        if v[i].id == id {
            return Some(i);
        }
        i += 1;
    }
    None
}

/// The index of the capability key row keyed by `(key_id, budget_id)`.
fn find_access_key_idx(v: &Vec<BudgetAccessKey>, key_id: Uid, budget_id: Uid) -> (r: Option<usize>)
    ensures
        match r {
            Some(i) => i < v@.len() && v@[i as int]@.key_id == key_id && v@[i as int]@.budget_id
                == budget_id,
            None => forall|j: int|
                0 <= j < v@.len() ==> !((#[trigger] v@[j])@.key_id == key_id && v@[j]@.budget_id
                    == budget_id),
        },
{
    let n = v.len();
    let mut i: usize = 0;
    while i < n
        invariant
            n == v@.len(),
            i <= n,
            forall|j: int|
                0 <= j < i ==> !((#[trigger] v@[j])@.key_id == key_id && v@[j]@.budget_id
                    == budget_id),
        decreases n - i,
    {
        if v[i].key_id == key_id && v[i].budget_id == budget_id {
            return Some(i);
        }
        i += 1;
    }
    None
}

/// The index of the accept key row keyed by `(key_id, budget_id)`.
fn find_accept_key_idx(v: &Vec<BudgetAcceptKey>, key_id: Uid, budget_id: Uid) -> (r: Option<usize>)
    ensures
        match r {
            Some(i) => i < v@.len() && v@[i as int]@.key_id == key_id && v@[i as int]@.budget_id
                == budget_id,
            None => forall|j: int|
                0 <= j < v@.len() ==> !((#[trigger] v@[j])@.key_id == key_id && v@[j]@.budget_id
                    == budget_id),
        },
{
    let n = v.len();
    let mut i: usize = 0;
    while i < n
        invariant
            n == v@.len(),
            i <= n,
            forall|j: int|
                0 <= j < i ==> !((#[trigger] v@[j])@.key_id == key_id && v@[j]@.budget_id
                    == budget_id),
        decreases n - i,
    {
        if v[i].key_id == key_id && v[i].budget_id == budget_id {
            return Some(i);
        }
        i += 1;
    }
    None
}

/// The index of the invitation row keyed by `id`.
fn find_invite_idx(v: &Vec<BudgetShareInvite>, id: Uid) -> (r: Option<usize>)
    ensures
        match r {
            Some(i) => i < v@.len() && v@[i as int]@.id == id,
            None => forall|j: int| 0 <= j < v@.len() ==> (#[trigger] v@[j])@.id != id,
        },
{
    let n = v.len();
    let mut i: usize = 0;
    while i < n
        invariant
            n == v@.len(),
            i <= n,
            forall|j: int| 0 <= j < i ==> (#[trigger] v@[j])@.id != id,
        decreases n - i,
    {
        if v[i].id == id {
            return Some(i);
        }
        i += 1;
    }
    None
}

/// The transition of a digest-guarded budget update: the caller presents
/// the digest of the blob it believes is current; the write happens only
/// when that digest still matches, and then the stored digest becomes the
/// digest of the new blob.
pub open spec fn spec_update_budget(s: DaoState, budget_id: Uid, blob: Seq<u8>, expected: Seq<u8>) -> (
    DaoState,
    Result<(), DaoError>,
) {
    if !has_budget(s.budgets, budget_id) {
        (s, Err(DaoError::NotFound))
    } else {
        let i = budget_at(s.budgets, budget_id);
        if s.budgets[i].encrypted_blob_sha1_hash != expected {
            (s, Err(DaoError::OutOfDateHash))
        } else {
            (
                DaoState {
                    budgets: s.budgets.update(
                        i,
                        BudgetView {
                            id: budget_id,
                            encrypted_blob: blob,
                            encrypted_blob_sha1_hash: sha1_of(blob),
                        },
                    ),
                    ..s
                },
                Ok(()),
            )
        }
    }
}

impl Dao {
    /// An empty store.
    pub fn new() -> (r: Dao)
        ensures
            r@.budgets.len() == 0,
            r@.access_keys.len() == 0,
            r@.accept_keys.len() == 0,
            r@.invites.len() == 0,
            r@.entries.len() == 0,
            r@.categories.len() == 0,
            r@.wf(),
    {
        Dao {
            budgets: Vec::new(),
            access_keys: Vec::new(),
            accept_keys: Vec::new(),
            invites: Vec::new(),
            entries: Vec::new(),
            categories: Vec::new(),
        }
    }

    /// The budget keyed by `budget_id`, or `NotFound`.
    pub fn get_budget(&self, budget_id: Uid) -> (r: Result<Budget, DaoError>)
        requires
            self@.wf(),
        ensures
            match r {
                Ok(b) => has_budget(self@.budgets, budget_id) && b@ == self@.budgets[budget_at(
                    self@.budgets,
                    budget_id,
                )],
                Err(e) => e == DaoError::NotFound && !has_budget(self@.budgets, budget_id),
            },
    {
        match find_budget_idx(&self.budgets, budget_id) {
            Some(i) => {
                proof {
                    lemma_budget_at_unique(self@.budgets, budget_id, i as int);
                }
                Ok(self.budgets[i].duplicate())
            },
            None => {
                assert(!has_budget(self@.budgets, budget_id));
                Err(DaoError::NotFound)
            },
        }
    }

    /// The capability key row keyed by `(key_id, budget_id)`, or `NotFound`.
    /// Every verification fetches the key fresh through this lookup, so
    /// deleting the row invalidates all outstanding tokens at once.
    pub fn get_public_budget_key(&self, key_id: Uid, budget_id: Uid) -> (r: Result<
        BudgetAccessKey,
        DaoError,
    >)
        requires
            self@.wf(),
        ensures
            match r {
                Ok(k) => has_access_key(self@.access_keys, key_id, budget_id) && k@
                    == self@.access_keys[access_key_at(self@.access_keys, key_id, budget_id)],
                Err(e) => e == DaoError::NotFound && !has_access_key(
                    self@.access_keys,
                    key_id,
                    budget_id,
                ),
            },
    {
        match find_access_key_idx(&self.access_keys, key_id, budget_id) {
            Some(i) => {
                proof {
                    lemma_access_key_at_unique(self@.access_keys, key_id, budget_id, i as int);
                }
                Ok(self.access_keys[i].duplicate())
            },
            None => {
                assert(!has_access_key(self@.access_keys, key_id, budget_id));
                Err(DaoError::NotFound)
            },
        }
    }

    /// The accept key row keyed by `(key_id, budget_id)`, or `NotFound`.
    pub fn get_budget_accept_public_key(&self, key_id: Uid, budget_id: Uid) -> (r: Result<
        BudgetAcceptKey,
        DaoError,
    >)
        requires
            self@.wf(),
        ensures
            match r {
                Ok(k) => has_accept_key(self@.accept_keys, key_id, budget_id) && k@
                    == self@.accept_keys[accept_key_at(self@.accept_keys, key_id, budget_id)],
                Err(e) => e == DaoError::NotFound && !has_accept_key(
                    self@.accept_keys,
                    key_id,
                    budget_id,
                ),
            },
    {
        match find_accept_key_idx(&self.accept_keys, key_id, budget_id) {
            Some(i) => {
                proof {
                    lemma_accept_key_at_unique(self@.accept_keys, key_id, budget_id, i as int);
                }
                Ok(self.accept_keys[i].duplicate())
            },
            None => {
                assert(!has_accept_key(self@.accept_keys, key_id, budget_id));
                Err(DaoError::NotFound)
            },
        }
    }

    /// The sender's public key recorded on an invitation, or `NotFound`.
    pub fn get_budget_invite_sender_public_key(&self, invitation_id: Uid) -> (r: Result<
        Vec<u8>,
        DaoError,
    >)
        requires
            self@.wf(),
        ensures
            match r {
                Ok(k) => has_invite(self@.invites, invitation_id) && k@ == self@.invites[invite_at(
                    self@.invites,
                    invitation_id,
                )].sender_public_key,
                Err(e) => e == DaoError::NotFound && !has_invite(self@.invites, invitation_id),
            },
    {
        match find_invite_idx(&self.invites, invitation_id) {
            Some(i) => {
                proof {
                    lemma_invite_at_unique(self@.invites, invitation_id, i as int);
                }
                Ok(clone_bytes(&self.invites[i].sender_public_key))
            },
            None => {
                assert(!has_invite(self@.invites, invitation_id));
                Err(DaoError::NotFound)
            },
        }
    }

    /// Applies [`spec_update_budget`]: a digest-guarded write of the budget
    /// blob.  `OutOfDateHash` means another writer got in first; nothing is
    /// written then.
    pub fn update_budget(&mut self, budget_id: Uid, blob: &Vec<u8>, expected_hash: &Vec<u8>) -> (r:
        Result<(), DaoError>)
        requires
            old(self)@.wf(),
        ensures
            final(self)@ == spec_update_budget(old(self)@, budget_id, blob@, expected_hash@).0,
            r == spec_update_budget(old(self)@, budget_id, blob@, expected_hash@).1,
            final(self)@.wf(),
    {
        let ghost t = spec_update_budget(self@, budget_id, blob@, expected_hash@);
        match find_budget_idx(&self.budgets, budget_id) {
            Some(i) => {
                proof {
                    lemma_budget_at_unique(self@.budgets, budget_id, i as int);
                }
                if !bytes_eq(
                    self.budgets[i].encrypted_blob_sha1_hash.as_slice(),
                    expected_hash.as_slice(),
                ) {
                    return Err(DaoError::OutOfDateHash);
                }
                let mut row = self.budgets.remove(i);
                row.encrypted_blob = clone_bytes(blob);
                row.encrypted_blob_sha1_hash = sha1_hash(blob.as_slice());
                self.budgets.insert(i, row);
                proof {
                    assert(self@.budgets =~= t.0.budgets);
                    assert(self@.access_keys =~= t.0.access_keys);
                    assert(self@.accept_keys =~= t.0.accept_keys);
                    assert(self@.invites =~= t.0.invites);
                    assert(self@.entries =~= t.0.entries);
                    assert(self@.categories =~= t.0.categories);
                }
                Ok(())
            },
            None => {
                assert(!has_budget(self@.budgets, budget_id));
                Err(DaoError::NotFound)
            },
        }
    }

    /// Applies [`spec_invite_user`] with a caller-supplied invitation
    /// identifier: persists the accept key row and the invitation row
    /// together, or changes nothing.
    pub fn invite_user_with_id(
        &mut self,
        invitation_id: Uid,
        recipient_user_email: &str,
        sender_public_key: &Vec<u8>,
        encryption_key_encrypted: &Vec<u8>,
        budget_info_encrypted: &Vec<u8>,
        sender_info_encrypted: &Vec<u8>,
        share_info_symmetric_key_encrypted: &Vec<u8>,
        budget_id: Uid,
        expiration: u64,
        read_only: bool,
        accept_key_id: Uid,
        accept_key_id_encrypted: &Vec<u8>,
        accept_public_key: &Vec<u8>,
        accept_private_key_encrypted: &Vec<u8>,
        accept_key_info_encrypted: &Vec<u8>,
        recipient_public_key_id_used_by_sender: Uid,
        recipient_public_key_id_used_by_server: Uid,
    ) -> (r: Result<Uid, DaoError>)
        requires
            old(self)@.wf(),
        ensures
            final(self)@ == spec_invite_user(
                old(self)@,
                spec_invite_view(
                    invitation_id,
                    recipient_user_email@,
                    sender_public_key@,
                    encryption_key_encrypted@,
                    budget_info_encrypted@,
                    sender_info_encrypted@,
                    share_info_symmetric_key_encrypted@,
                    accept_key_id,
                    accept_key_id_encrypted@,
                    accept_private_key_encrypted@,
                    accept_key_info_encrypted@,
                    recipient_public_key_id_used_by_sender,
                    recipient_public_key_id_used_by_server,
                ),
                AcceptKeyView {
                    key_id: accept_key_id,
                    budget_id,
                    public_key: accept_public_key@,
                    read_only,
                    expiration,
                },
            ).0,
            r == spec_invite_user(
                old(self)@,
                spec_invite_view(
                    invitation_id,
                    recipient_user_email@,
                    sender_public_key@,
                    encryption_key_encrypted@,
                    budget_info_encrypted@,
                    sender_info_encrypted@,
                    share_info_symmetric_key_encrypted@,
                    accept_key_id,
                    accept_key_id_encrypted@,
                    accept_private_key_encrypted@,
                    accept_key_info_encrypted@,
                    recipient_public_key_id_used_by_sender,
                    recipient_public_key_id_used_by_server,
                ),
                AcceptKeyView {
                    key_id: accept_key_id,
                    budget_id,
                    public_key: accept_public_key@,
                    read_only,
                    expiration,
                },
            ).1,
            final(self)@.wf(),
    {
        match find_budget_idx(&self.budgets, budget_id) {
            Some(i) => {
                assert(self@.budgets[i as int].id == budget_id);
                assert(has_budget(self@.budgets, budget_id));
            },
            None => {
                assert(!has_budget(self@.budgets, budget_id));
                return Err(DaoError::NotFound);
            },
        }
        match find_invite_idx(&self.invites, invitation_id) {
            Some(i) => {
                assert(self@.invites[i as int].id == invitation_id);
                return Err(DaoError::UniquenessViolation);
            },
            None => {},
        }
        match find_accept_key_id_idx(&self.accept_keys, accept_key_id) {
            Some(i) => {
                assert(self@.accept_keys[i as int].key_id == accept_key_id);
                return Err(DaoError::UniquenessViolation);
            },
            None => {},
        }
        match find_access_key_id_idx(&self.access_keys, accept_key_id) {
            Some(i) => {
                assert(self@.access_keys[i as int].key_id == accept_key_id);
                return Err(DaoError::UniquenessViolation);
            },
            None => {},
        }
        assert(!has_invite(self@.invites, invitation_id));
        assert(!has_accept_key_id(self@.accept_keys, accept_key_id));
        assert(!has_access_key_id(self@.access_keys, accept_key_id));
        self.accept_keys.push(
            BudgetAcceptKey {
                key_id: accept_key_id,
                budget_id,
                public_key: clone_bytes(accept_public_key),
                read_only,
                expiration,
            },
        );
        self.invites.push(
            BudgetShareInvite {
                id: invitation_id,
                recipient_user_email: recipient_user_email.to_owned(),
                sender_public_key: clone_bytes(sender_public_key),
                encryption_key_encrypted: clone_bytes(encryption_key_encrypted),
                budget_accept_private_key_encrypted: clone_bytes(accept_private_key_encrypted),
                budget_info_encrypted: clone_bytes(budget_info_encrypted),
                sender_info_encrypted: clone_bytes(sender_info_encrypted),
                budget_accept_key_info_encrypted: clone_bytes(accept_key_info_encrypted),
                budget_accept_key_id_encrypted: clone_bytes(accept_key_id_encrypted),
                share_info_symmetric_key_encrypted: clone_bytes(
                    share_info_symmetric_key_encrypted,
                ),
                recipient_public_key_id_used_by_sender,
                recipient_public_key_id_used_by_server,
                accept_key_id,
            },
        );
        proof {
            let t = spec_invite_user(
                old(self)@,
                spec_invite_view(
                    invitation_id,
                    recipient_user_email@,
                    sender_public_key@,
                    encryption_key_encrypted@,
                    budget_info_encrypted@,
                    sender_info_encrypted@,
                    share_info_symmetric_key_encrypted@,
                    accept_key_id,
                    accept_key_id_encrypted@,
                    accept_private_key_encrypted@,
                    accept_key_info_encrypted@,
                    recipient_public_key_id_used_by_sender,
                    recipient_public_key_id_used_by_server,
                ),
                AcceptKeyView {
                    key_id: accept_key_id,
                    budget_id,
                    public_key: accept_public_key@,
                    read_only,
                    expiration,
                },
            );
            assert(self@.invites =~= t.0.invites);
            assert(self@.accept_keys =~= t.0.accept_keys);
            assert(self@.budgets =~= t.0.budgets);
            assert(self@.access_keys =~= t.0.access_keys);
            assert(self@.entries =~= t.0.entries);
            assert(self@.categories =~= t.0.categories);
        }
        Ok(invitation_id)
    }

    /// Creates an invitation under a freshly drawn identifier.  On the
    /// astronomically unlikely identifier collision nothing is written and
    /// `UniquenessViolation` comes back.
    pub fn invite_user(
        &mut self,
        recipient_user_email: &str,
        sender_public_key: &Vec<u8>,
        encryption_key_encrypted: &Vec<u8>,
        budget_info_encrypted: &Vec<u8>,
        sender_info_encrypted: &Vec<u8>,
        share_info_symmetric_key_encrypted: &Vec<u8>,
        budget_id: Uid,
        expiration: u64,
        read_only: bool,
        accept_key_id: Uid,
        accept_key_id_encrypted: &Vec<u8>,
        accept_public_key: &Vec<u8>,
        accept_private_key_encrypted: &Vec<u8>,
        accept_key_info_encrypted: &Vec<u8>,
        recipient_public_key_id_used_by_sender: Uid,
        recipient_public_key_id_used_by_server: Uid,
    ) -> (r: Result<Uid, DaoError>)
        requires
            old(self)@.wf(),
        ensures
            final(self)@.wf(),
            match r {
                Ok(iid) => ({
                    let t = spec_invite_user(
                        old(self)@,
                        spec_invite_view(
                            iid,
                            recipient_user_email@,
                            sender_public_key@,
                            encryption_key_encrypted@,
                            budget_info_encrypted@,
                            sender_info_encrypted@,
                            share_info_symmetric_key_encrypted@,
                            accept_key_id,
                            accept_key_id_encrypted@,
                            accept_private_key_encrypted@,
                            accept_key_info_encrypted@,
                            recipient_public_key_id_used_by_sender,
                            recipient_public_key_id_used_by_server,
                        ),
                        AcceptKeyView {
                            key_id: accept_key_id,
                            budget_id,
                            public_key: accept_public_key@,
                            read_only,
                            expiration,
                        },
                    );
                    final(self)@ == t.0 && t.1 == Ok::<Uid, DaoError>(iid)
                }),
                Err(e) => final(self)@ == old(self)@ && (e == DaoError::NotFound <==> !has_budget(
                    old(self)@.budgets,
                    budget_id,
                )) && (e == DaoError::NotFound || e == DaoError::UniquenessViolation),
            },
    {
        let invitation_id = uid_new_v4();
        self.invite_user_with_id(
            invitation_id,
            recipient_user_email,
            sender_public_key,
            encryption_key_encrypted,
            budget_info_encrypted,
            sender_info_encrypted,
            share_info_symmetric_key_encrypted,
            budget_id,
            expiration,
            read_only,
            accept_key_id,
            accept_key_id_encrypted,
            accept_public_key,
            accept_private_key_encrypted,
            accept_key_info_encrypted,
            recipient_public_key_id_used_by_sender,
            recipient_public_key_id_used_by_server,
        )
    }

    /// Applies [`spec_accept_invitation`]: consumes the invitation and its
    /// accept key, creates the recipient's capability key under the
    /// promoted identifier, and returns the budget for bootstrapping.
    pub fn accept_invitation(
        &mut self,
        accept_key_id: Uid,
        budget_id: Uid,
        read_only: bool,
        invitation_id: Uid,
        recipient_user_email: &str,
        recipient_public_key: &Vec<u8>,
    ) -> (r: Result<Budget, DaoError>)
        requires
            old(self)@.wf(),
        ensures
            final(self)@ == spec_accept_invitation(
                old(self)@,
                accept_key_id,
                budget_id,
                read_only,
                invitation_id,
                recipient_user_email@,
                recipient_public_key@,
            ).0,
            match r {
                Ok(b) => spec_accept_invitation(
                    old(self)@,
                    accept_key_id,
                    budget_id,
                    read_only,
                    invitation_id,
                    recipient_user_email@,
                    recipient_public_key@,
                ).1 == Ok::<BudgetView, DaoError>(b@),
                Err(e) => spec_accept_invitation(
                    old(self)@,
                    accept_key_id,
                    budget_id,
                    read_only,
                    invitation_id,
                    recipient_user_email@,
                    recipient_public_key@,
                ).1 == Err::<BudgetView, DaoError>(e),
            },
            final(self)@.wf(),
    {
        let i = match find_invite_idx(&self.invites, invitation_id) {
            Some(i) => i,
            None => {
                assert(!has_invite(self@.invites, invitation_id));
                return Err(DaoError::NotFound);
            },
        };
        proof {
            lemma_invite_at_unique(self@.invites, invitation_id, i as int);
        }
        if !crate::strutil::str_eq(
            self.invites[i].recipient_user_email.as_str(),
            recipient_user_email,
        ) {
            return Err(DaoError::NotFound);
        }
        if self.invites[i].accept_key_id != accept_key_id {
            return Err(DaoError::NotFound);
        }
        let k = match find_accept_key_idx(&self.accept_keys, accept_key_id, budget_id) {
            Some(k) => k,
            None => {
                assert(!has_accept_key(self@.accept_keys, accept_key_id, budget_id));
                return Err(DaoError::NotFound);
            },
        };
        proof {
            lemma_accept_key_at_unique(self@.accept_keys, accept_key_id, budget_id, k as int);
        }
        let b = match find_budget_idx(&self.budgets, budget_id) {
            Some(b) => b,
            None => {
                assert(!has_budget(self@.budgets, budget_id));
                return Err(DaoError::NotFound);
            },
        };
        proof {
            lemma_budget_at_unique(self@.budgets, budget_id, b as int);
        }
        let budget_copy = self.budgets[b].duplicate();
        let _ = self.accept_keys.remove(k);
        let _ = self.invites.remove(i);
        self.access_keys.push(
            BudgetAccessKey {
                key_id: accept_key_id,
                budget_id,
                public_key: clone_bytes(recipient_public_key),
                read_only,
            },
        );
        proof {
            let t = spec_accept_invitation(
                old(self)@,
                accept_key_id,
                budget_id,
                read_only,
                invitation_id,
                recipient_user_email@,
                recipient_public_key@,
            );
            assert(self@.invites =~= t.0.invites);
            assert(self@.accept_keys =~= t.0.accept_keys);
            assert(self@.access_keys =~= t.0.access_keys);
            assert(self@.budgets =~= t.0.budgets);
            assert(self@.entries =~= t.0.entries);
            assert(self@.categories =~= t.0.categories);
            lemma_accept_wf(
                old(self)@,
                accept_key_id,
                budget_id,
                read_only,
                invitation_id,
                recipient_user_email@,
                recipient_public_key@,
            );
        }
        Ok(budget_copy)
    }

    /// Applies [`spec_reject_invitation`]: consumes the invitation and its
    /// accept key; no capability key is created.
    pub fn reject_invitation(
        &mut self,
        invitation_id: Uid,
        accept_key_id: Uid,
        recipient_user_email: &str,
    ) -> (r: Result<(), DaoError>)
        requires
            old(self)@.wf(),
        ensures
            final(self)@ == spec_reject_invitation(
                old(self)@,
                invitation_id,
                accept_key_id,
                recipient_user_email@,
            ).0,
            r == spec_reject_invitation(
                old(self)@,
                invitation_id,
                accept_key_id,
                recipient_user_email@,
            ).1,
            final(self)@.wf(),
    {
        let i = match find_invite_idx(&self.invites, invitation_id) {
            Some(i) => i,
            None => {
                assert(!has_invite(self@.invites, invitation_id));
                return Err(DaoError::NotFound);
            },
        };
        proof {
            lemma_invite_at_unique(self@.invites, invitation_id, i as int);
        }
        if !crate::strutil::str_eq(
            self.invites[i].recipient_user_email.as_str(),
            recipient_user_email,
        ) {
            return Err(DaoError::NotFound);
        }
        if self.invites[i].accept_key_id != accept_key_id {
            return Err(DaoError::NotFound);
        }
        let _ = self.invites.remove(i);
        match find_accept_key_id_idx(&self.accept_keys, accept_key_id) {
            Some(k) => {
                proof {
                    lemma_accept_key_id_at_unique(
                        old(self)@.accept_keys,
                        accept_key_id,
                        k as int,
                    );
                }
                let _ = self.accept_keys.remove(k);
            },
            None => {
                assert(!has_accept_key_id(self@.accept_keys, accept_key_id));
            },
        }
        proof {
            let t = spec_reject_invitation(
                old(self)@,
                invitation_id,
                accept_key_id,
                recipient_user_email@,
            );
            assert(self@.invites =~= t.0.invites);
            assert(self@.accept_keys =~= t.0.accept_keys);
            assert(self@.access_keys =~= t.0.access_keys);
            assert(self@.budgets =~= t.0.budgets);
            assert(self@.entries =~= t.0.entries);
            assert(self@.categories =~= t.0.categories);
            lemma_removed_unique_wf(old(self)@, self@);
        }
        Ok(())
    }

    /// Applies [`spec_delete_invitation`] (retraction by the sender): the
    /// invitation row and its accept key row vanish together.
    pub fn delete_invitation(&mut self, invitation_id: Uid) -> (r: Result<(), DaoError>)
        requires
            old(self)@.wf(),
        ensures
            final(self)@ == spec_delete_invitation(old(self)@, invitation_id).0,
            r == spec_delete_invitation(old(self)@, invitation_id).1,
            final(self)@.wf(),
    {
        let i = match find_invite_idx(&self.invites, invitation_id) {
            Some(i) => i,
            None => {
                assert(!has_invite(self@.invites, invitation_id));
                return Err(DaoError::NotFound);
            },
        };
        proof {
            lemma_invite_at_unique(self@.invites, invitation_id, i as int);
        }
        let accept_key_id = self.invites[i].accept_key_id;
        let _ = self.invites.remove(i);
        match find_accept_key_id_idx(&self.accept_keys, accept_key_id) {
            Some(k) => {
                proof {
                    lemma_accept_key_id_at_unique(
                        old(self)@.accept_keys,
                        accept_key_id,
                        k as int,
                    );
                }
                let _ = self.accept_keys.remove(k);
            },
            None => {
                assert(!has_accept_key_id(self@.accept_keys, accept_key_id));
            },
        }
        proof {
            let t = spec_delete_invitation(old(self)@, invitation_id);
            assert(self@.invites =~= t.0.invites);
            assert(self@.accept_keys =~= t.0.accept_keys);
            assert(self@.access_keys =~= t.0.access_keys);
            assert(self@.budgets =~= t.0.budgets);
            assert(self@.entries =~= t.0.entries);
            assert(self@.categories =~= t.0.categories);
            lemma_removed_unique_wf(old(self)@, self@);
        }
        Ok(())
    }
}

/// Is some accept key row keyed by `key_id`, in any budget?
pub open spec fn has_accept_key_id(s: Seq<AcceptKeyView>, key_id: Uid) -> bool {
    exists|i: int| 0 <= i < s.len() && (#[trigger] s[i]).key_id == key_id
}

/// The index of the accept key row keyed by `key_id`.
pub open spec fn accept_key_id_at(s: Seq<AcceptKeyView>, key_id: Uid) -> int {
    choose|i: int| 0 <= i < s.len() && (#[trigger] s[i]).key_id == key_id
}

/// Is some capability key row keyed by `key_id`, in any budget?
pub open spec fn has_access_key_id(s: Seq<AccessKeyView>, key_id: Uid) -> bool {
    exists|i: int| 0 <= i < s.len() && (#[trigger] s[i]).key_id == key_id
}

/// The transition of creating an invitation: one accept key row and one
/// invitation row appear atomically; the identifiers must be fresh and the
/// budget must exist.
pub open spec fn spec_invite_user(s: DaoState, inv: InviteView, ak: AcceptKeyView) -> (
    DaoState,
    Result<Uid, DaoError>,
) {
    if !has_budget(s.budgets, ak.budget_id) {
        (s, Err(DaoError::NotFound))
    } else if has_invite(s.invites, inv.id) || has_accept_key_id(s.accept_keys, ak.key_id)
        || has_access_key_id(s.access_keys, ak.key_id) {
        (s, Err(DaoError::UniquenessViolation))
    } else {
        (
            DaoState {
                invites: s.invites.push(inv),
                accept_keys: s.accept_keys.push(ak),
                ..s
            },
            Ok(inv.id),
        )
    }
}

/// The transition of accepting an invitation: the invitation and accept key
/// rows vanish and one capability key row appears, promoting the accept
/// key's identifier and binding the recipient's own public key with the
/// accept key's read-only flag.
pub open spec fn spec_accept_invitation(
    s: DaoState,
    accept_key_id: Uid,
    budget_id: Uid,
    read_only: bool,
    invitation_id: Uid,
    recipient_email: Seq<char>,
    recipient_public_key: Seq<u8>,
) -> (DaoState, Result<BudgetView, DaoError>) {
    if !has_invite(s.invites, invitation_id) {
        (s, Err(DaoError::NotFound))
    } else {
        let iv = s.invites[invite_at(s.invites, invitation_id)];
        if iv.recipient_user_email != recipient_email || iv.accept_key_id != accept_key_id {
            (s, Err(DaoError::NotFound))
        } else if !has_accept_key(s.accept_keys, accept_key_id, budget_id) {
            (s, Err(DaoError::NotFound))
        } else if !has_budget(s.budgets, budget_id) {
            (s, Err(DaoError::NotFound))
        } else {
            (
                DaoState {
                    invites: s.invites.remove(invite_at(s.invites, invitation_id)),
                    accept_keys: s.accept_keys.remove(
                        accept_key_at(s.accept_keys, accept_key_id, budget_id),
                    ),
                    access_keys: s.access_keys.push(
                        AccessKeyView {
                            key_id: accept_key_id,
                            budget_id,
                            public_key: recipient_public_key,
                            read_only,
                        },
                    ),
                    ..s
                },
                Ok(s.budgets[budget_at(s.budgets, budget_id)]),
            )
        }
    }
}

/// The transition of declining an invitation: the invitation and accept key
/// rows vanish; no capability key appears.
pub open spec fn spec_reject_invitation(
    s: DaoState,
    invitation_id: Uid,
    accept_key_id: Uid,
    recipient_email: Seq<char>,
) -> (DaoState, Result<(), DaoError>) {
    if !has_invite(s.invites, invitation_id) {
        (s, Err(DaoError::NotFound))
    } else {
        let iv = s.invites[invite_at(s.invites, invitation_id)];
        if iv.recipient_user_email != recipient_email || iv.accept_key_id != accept_key_id {
            (s, Err(DaoError::NotFound))
        } else {
            (
                DaoState {
                    invites: s.invites.remove(invite_at(s.invites, invitation_id)),
                    accept_keys: if has_accept_key_id(s.accept_keys, accept_key_id) {
                        s.accept_keys.remove(accept_key_id_at(s.accept_keys, accept_key_id))
                    } else {
                        s.accept_keys
                    },
                    ..s
                },
                Ok(()),
            )
        }
    }
}

/// The transition of retracting an invitation (by its sender): the
/// invitation row and its accept key row vanish.
pub open spec fn spec_delete_invitation(s: DaoState, invitation_id: Uid) -> (
    DaoState,
    Result<(), DaoError>,
) {
    if !has_invite(s.invites, invitation_id) {
        (s, Err(DaoError::NotFound))
    } else {
        let iv = s.invites[invite_at(s.invites, invitation_id)];
        (
            DaoState {
                invites: s.invites.remove(invite_at(s.invites, invitation_id)),
                accept_keys: if has_accept_key_id(s.accept_keys, iv.accept_key_id) {
                    s.accept_keys.remove(accept_key_id_at(s.accept_keys, iv.accept_key_id))
                } else {
                    s.accept_keys
                },
                ..s
            },
            Ok(()),
        )
    }
}

/// The index of the accept key row keyed by `key_id` alone.
fn find_accept_key_id_idx(v: &Vec<BudgetAcceptKey>, key_id: Uid) -> (r: Option<usize>)
    ensures
        match r {
            Some(i) => i < v@.len() && v@[i as int]@.key_id == key_id,
            None => forall|j: int| 0 <= j < v@.len() ==> (#[trigger] v@[j])@.key_id != key_id,
        },
{
    let n = v.len();
    let mut i: usize = 0;
    while i < n
        invariant
            n == v@.len(),
            i <= n,
            forall|j: int| 0 <= j < i ==> (#[trigger] v@[j])@.key_id != key_id,
        decreases n - i,
    {
        if v[i].key_id == key_id {
            return Some(i);
        }
        i += 1;
    }
    None
}

/// The index of the capability key row keyed by `key_id` alone.
fn find_access_key_id_idx(v: &Vec<BudgetAccessKey>, key_id: Uid) -> (r: Option<usize>)
    ensures
        match r {
            Some(i) => i < v@.len() && v@[i as int]@.key_id == key_id,
            None => forall|j: int| 0 <= j < v@.len() ==> (#[trigger] v@[j])@.key_id != key_id,
        },
{
    let n = v.len();
    let mut i: usize = 0;
    while i < n
        invariant
            n == v@.len(),
            i <= n,
            forall|j: int| 0 <= j < i ==> (#[trigger] v@[j])@.key_id != key_id,
        decreases n - i,
    {
        if v[i].key_id == key_id {
            return Some(i);
        }
        i += 1;
    }
    None
}

/// With unique budget ids, a found index is the chosen one.
proof fn lemma_budget_at_unique(s: Seq<BudgetView>, id: Uid, i: int)
    requires
        forall|a: int, b: int|
            0 <= a < b < s.len() ==> (#[trigger] s[a]).id != (#[trigger] s[b]).id,
        0 <= i < s.len(),
        s[i].id == id,
    ensures
        has_budget(s, id),
        budget_at(s, id) == i,
{
    assert(has_budget(s, id));
    let k = budget_at(s, id);
    if k != i {
        if k < i {
            assert(s[k].id != s[i].id);
        } else {
            assert(s[i].id != s[k].id);
        }
    }
}

/// With unique key ids, a found index is the chosen one.
proof fn lemma_access_key_at_unique(s: Seq<AccessKeyView>, key_id: Uid, budget_id: Uid, i: int)
    requires
        forall|a: int, b: int|
            0 <= a < b < s.len() ==> (#[trigger] s[a]).key_id != (#[trigger] s[b]).key_id,
        0 <= i < s.len(),
        s[i].key_id == key_id,
        s[i].budget_id == budget_id,
    ensures
        has_access_key(s, key_id, budget_id),
        access_key_at(s, key_id, budget_id) == i,
{
    assert(has_access_key(s, key_id, budget_id));
    let k = access_key_at(s, key_id, budget_id);
    if k != i {
        if k < i {
            assert(s[k].key_id != s[i].key_id);
        } else {
            assert(s[i].key_id != s[k].key_id);
        }
    }
}

/// With unique key ids, a found index is the chosen one.
proof fn lemma_accept_key_at_unique(s: Seq<AcceptKeyView>, key_id: Uid, budget_id: Uid, i: int)
    requires
        forall|a: int, b: int|
            0 <= a < b < s.len() ==> (#[trigger] s[a]).key_id != (#[trigger] s[b]).key_id,
        0 <= i < s.len(),
        s[i].key_id == key_id,
        s[i].budget_id == budget_id,
    ensures
        has_accept_key(s, key_id, budget_id),
        accept_key_at(s, key_id, budget_id) == i,
{
    assert(has_accept_key(s, key_id, budget_id));
    let k = accept_key_at(s, key_id, budget_id);
    if k != i {
        if k < i {
            assert(s[k].key_id != s[i].key_id);
        } else {
            assert(s[i].key_id != s[k].key_id);
        }
    }
}

/// With unique invitation ids, a found index is the chosen one.
proof fn lemma_invite_at_unique(s: Seq<InviteView>, id: Uid, i: int)
    requires
        forall|a: int, b: int|
            0 <= a < b < s.len() ==> (#[trigger] s[a]).id != (#[trigger] s[b]).id,
        0 <= i < s.len(),
        s[i].id == id,
    ensures
        has_invite(s, id),
        invite_at(s, id) == i,
{
    assert(has_invite(s, id));
    let k = invite_at(s, id);
    if k != i {
        if k < i {
            assert(s[k].id != s[i].id);
        } else {
            assert(s[i].id != s[k].id);
        }
    }
}

/// The concurrency guard resolves a write-write race: of two writers that
/// both saw digest `d0`, the one that commits first wins, the other is
/// told `OutOfDateHash` and writes nothing.  A retry that presents the
/// winner's fresh digest then succeeds.  (The guard compares digests, so
/// this holds whenever the winner's new blob does not collide with the old
/// digest.)
pub proof fn lemma_digest_guard_conflict(
    s: DaoState,
    budget_id: Uid,
    b1: Seq<u8>,
    b2: Seq<u8>,
    d0: Seq<u8>,
)
    requires
        s.wf(),
        has_budget(s.budgets, budget_id),
        s.budgets[budget_at(s.budgets, budget_id)].encrypted_blob_sha1_hash == d0,
        sha1_of(b1) != d0,
    ensures
        spec_update_budget(s, budget_id, b1, d0).1 == Ok::<(), DaoError>(()),
        spec_update_budget(spec_update_budget(s, budget_id, b1, d0).0, budget_id, b2, d0).1 == Err::<
            (),
            DaoError,
        >(DaoError::OutOfDateHash),
        spec_update_budget(spec_update_budget(s, budget_id, b1, d0).0, budget_id, b2, d0).0
            == spec_update_budget(s, budget_id, b1, d0).0,
        spec_update_budget(
            spec_update_budget(s, budget_id, b1, d0).0,
            budget_id,
            b2,
            sha1_of(b1),
        ).1 == Ok::<(), DaoError>(()),
{
    let i = budget_at(s.budgets, budget_id);
    let s1 = spec_update_budget(s, budget_id, b1, d0).0;
    assert(s1.budgets[i].id == budget_id);
    assert(has_budget(s1.budgets, budget_id));
    assert(forall|a: int, b: int|
        0 <= a < b < s1.budgets.len() ==> (#[trigger] s1.budgets[a]).id != (
        #[trigger] s1.budgets[b]).id);
    lemma_budget_at_unique(s1.budgets, budget_id, i);
    assert(s1.budgets[i].encrypted_blob_sha1_hash == sha1_of(b1));
}

/// What creating a budget hands back: the new identifiers, with category
/// identifiers in the order the categories were given.
#[derive(Debug)]
pub struct BudgetFrame {
    pub id: Uid,
    pub access_key_id: Uid,
    pub category_ids: Vec<Uid>,
}

/// Is `u` among the elements of `ids`?
fn uid_in(ids: &Vec<Uid>, u: Uid) -> (r: bool)
    ensures
        r == ids@.contains(u),
{
    let n = ids.len();
    let mut i: usize = 0;
    while i < n
        invariant
            n == ids@.len(),
            i <= n,
            forall|j: int| 0 <= j < i ==> ids@[j] != u,
        decreases n - i,
    {
        if ids[i] == u {
            return true;
        }
        i += 1;
    }
    false
}

/// The capability key rows whose key and budget identifiers are both among
/// the given ones, in store order.
pub open spec fn spec_matching_keys(
    s: Seq<AccessKeyView>,
    key_ids: Seq<Uid>,
    budget_ids: Seq<Uid>,
) -> Seq<AccessKeyView>
    decreases s.len(),
{
    if s.len() == 0 {
        Seq::empty()
    } else if key_ids.contains(s.first().key_id) && budget_ids.contains(s.first().budget_id) {
        seq![s.first()] + spec_matching_keys(s.drop_first(), key_ids, budget_ids)
    } else {
        spec_matching_keys(s.drop_first(), key_ids, budget_ids)
    }
}

/// The recipient-visible shares of the invitations addressed to `email`,
/// in store order.
pub open spec fn spec_pending_invites(s: Seq<InviteView>, email: Seq<char>) -> Seq<InvitePublicView>
    decreases s.len(),
{
    if s.len() == 0 {
        Seq::empty()
    } else if s.first().recipient_user_email == email {
        seq![spec_public_data_of(s.first())] + spec_pending_invites(s.drop_first(), email)
    } else {
        spec_pending_invites(s.drop_first(), email)
    }
}

/// The identifiers handed to budget creation are fresh: none collides with
/// an existing row, and the category identifiers are pairwise distinct.
pub open spec fn fresh_budget_ids(
    s: DaoState,
    budget_id: Uid,
    access_key_id: Uid,
    category_ids: Seq<Uid>,
) -> bool {
    &&& !has_budget(s.budgets, budget_id)
    &&& !has_access_key_id(s.access_keys, access_key_id)
    &&& !has_accept_key_id(s.accept_keys, access_key_id)
    &&& forall|a: int|
        0 <= a < category_ids.len() ==> !has_category_id(s.categories, #[trigger] category_ids[a])
    &&& forall|a: int, b: int|
        0 <= a < b < category_ids.len() ==> #[trigger] category_ids[a]
            != #[trigger] category_ids[b]
}

/// An entry with its category cleared when it pointed at the removed
/// category of the removed category's budget.
pub open spec fn spec_clear_category(e: EntryView, category_id: Uid, budget_id: Uid) -> EntryView {
    if e.budget_id == budget_id && e.category_id == Some(category_id) {
        EntryView { category_id: None, ..e }
    } else {
        e
    }
}

impl Dao {
    /// The budgets for the given identifiers, in the order asked for;
    /// `NotFound` when any identifier matches no budget.
    #[verifier::loop_isolation(false)]
    pub fn get_multiple_budgets_by_id(&self, ids: &Vec<Uid>) -> (r: Result<Vec<Budget>, DaoError>)
        requires
            self@.wf(),
        ensures
            match r {
                Ok(bs) => bs@.len() == ids@.len() && (forall|j: int|
                    0 <= j < ids@.len() ==> has_budget(self@.budgets, #[trigger] ids@[j])) && (
                forall|j: int|
                    0 <= j < ids@.len() ==> (#[trigger] bs@[j])@ == self@.budgets[budget_at(
                        self@.budgets,
                        ids@[j],
                    )]),
                Err(e) => e == DaoError::NotFound && exists|j: int|
                    0 <= j < ids@.len() && !has_budget(self@.budgets, #[trigger] ids@[j]),
            },
    {
        let n = ids.len();
        let mut out: Vec<Budget> = Vec::new();
        let mut i: usize = 0;
        while i < n
            invariant
                self@.wf(),
                n == ids@.len(),
                i <= n,
                out@.len() == i,
                forall|j: int| 0 <= j < i ==> has_budget(self@.budgets, #[trigger] ids@[j]),
                forall|j: int|
                    0 <= j < i ==> (#[trigger] out@[j])@ == self@.budgets[budget_at(
                        self@.budgets,
                        ids@[j],
                    )],
            decreases n - i,
        {
            match self.get_budget(ids[i]) {
                Ok(b) => {
                    proof {
                        assert(b@ == self@.budgets[budget_at(self@.budgets, ids@[i as int])]);
                    }
                    out.push(b);
                    assert(out@[i as int] == b);
                },
                Err(_) => {
                    assert(!has_budget(self@.budgets, ids@[i as int]));
                    return Err(DaoError::NotFound);
                },
            }
            i += 1;
        }
        Ok(out)
    }

    /// The capability key rows for tokens being checked in bulk: every row
    /// whose key and budget identifiers are both among the given ones.
    pub fn get_multiple_public_budget_keys(&self, key_ids: &Vec<Uid>, budget_ids: &Vec<Uid>) -> (r:
        Vec<BudgetAccessKey>)
        ensures
            r@.map_values(|k: BudgetAccessKey| k@) == spec_matching_keys(
                self@.access_keys,
                key_ids@,
                budget_ids@,
            ),
    {
        let n = self.access_keys.len();
        let mut out: Vec<BudgetAccessKey> = Vec::new();
        let mut i: usize = 0;
        assert(self@.access_keys.skip(0) == self@.access_keys);
        while i < n
            invariant
                n == self@.access_keys.len(),
                n == self.access_keys@.len(),
                i <= n,
                spec_matching_keys(self@.access_keys, key_ids@, budget_ids@)
                    =~= out@.map_values(|k: BudgetAccessKey| k@) + spec_matching_keys(
                    self@.access_keys.skip(i as int),
                    key_ids@,
                    budget_ids@,
                ),
            decreases n - i,
        {
            assert(self@.access_keys.skip(i as int).first() == self@.access_keys[i as int]);
            if uid_in(key_ids, self.access_keys[i].key_id) && uid_in(
                budget_ids,
                self.access_keys[i].budget_id,
            ) {
                out.push(self.access_keys[i].duplicate());
            }
            assert(self@.access_keys.skip(i as int).drop_first() =~= self@.access_keys.skip(
                i + 1,
            ));
            i += 1;
        }
        assert(self@.access_keys.skip(n as int) =~= Seq::<AccessKeyView>::empty());
        out
    }

    /// The recipient-visible shares of the invitations addressed to `email`.
    pub fn get_all_pending_invitations(&self, email: &str) -> (r: Vec<BudgetShareInvitePublicData>)
        ensures
            r@.map_values(|p: BudgetShareInvitePublicData| p@) == spec_pending_invites(
                self@.invites,
                email@,
            ),
    {
        let n = self.invites.len();
        let mut out: Vec<BudgetShareInvitePublicData> = Vec::new();
        let mut i: usize = 0;
        assert(self@.invites.skip(0) == self@.invites);
        while i < n
            invariant
                n == self@.invites.len(),
                n == self.invites@.len(),
                i <= n,
                spec_pending_invites(self@.invites, email@) =~= out@.map_values(
                    |p: BudgetShareInvitePublicData| p@,
                ) + spec_pending_invites(self@.invites.skip(i as int), email@),
            decreases n - i,
        {
            assert(self@.invites.skip(i as int).first() == self@.invites[i as int]);
            if crate::strutil::str_eq(self.invites[i].recipient_user_email.as_str(), email) {
                out.push(
                    BudgetShareInvitePublicData {
                        id: self.invites[i].id,
                        budget_info_encrypted: clone_bytes(&self.invites[i].budget_info_encrypted),
                        sender_info_encrypted: clone_bytes(&self.invites[i].sender_info_encrypted),
                        share_info_symmetric_key_encrypted: clone_bytes(
                            &self.invites[i].share_info_symmetric_key_encrypted,
                        ),
                        budget_accept_key_info_encrypted: clone_bytes(
                            &self.invites[i].budget_accept_key_info_encrypted,
                        ),
                        budget_accept_key_encrypted: clone_bytes(
                            &self.invites[i].budget_accept_private_key_encrypted,
                        ),
                        budget_accept_key_id_encrypted: clone_bytes(
                            &self.invites[i].budget_accept_key_id_encrypted,
                        ),
                        recipient_public_key_id_used_by_sender:
                            self.invites[i].recipient_public_key_id_used_by_sender,
                        recipient_public_key_id_used_by_server:
                            self.invites[i].recipient_public_key_id_used_by_server,
                    },
                );
            }
            assert(self@.invites.skip(i as int).drop_first() =~= self@.invites.skip(i + 1));
            i += 1;
        }
        assert(self@.invites.skip(n as int) =~= Seq::<InviteView>::empty());
        out
    }

    /// Removes the caller's capability key row: the user leaves the budget,
    /// and every token for that key is dead on the next lookup.
    pub fn leave_budget(&mut self, budget_id: Uid, key_id: Uid) -> (r: Result<(), DaoError>)
        requires
            old(self)@.wf(),
        ensures
            final(self)@.wf(),
            match r {
                Ok(_) => has_access_key(old(self)@.access_keys, key_id, budget_id)
                    && final(self)@ == (DaoState {
                    access_keys: old(self)@.access_keys.remove(
                        access_key_at(old(self)@.access_keys, key_id, budget_id),
                    ),
                    ..old(self)@
                }),
                Err(e) => e == DaoError::NotFound && !has_access_key(
                    old(self)@.access_keys,
                    key_id,
                    budget_id,
                ) && final(self)@ == old(self)@,
            },
    {
        let i = match find_access_key_idx(&self.access_keys, key_id, budget_id) {
            Some(i) => i,
            None => {
                assert(!has_access_key(self@.access_keys, key_id, budget_id));
                return Err(DaoError::NotFound);
            },
        };
        proof {
            lemma_access_key_at_unique(self@.access_keys, key_id, budget_id, i as int);
        }
        let _ = self.access_keys.remove(i);
        proof {
            let s0 = old(self)@;
            let s1 = self@;
            assert(s1.access_keys =~= s0.access_keys.remove(
                access_key_at(s0.access_keys, key_id, budget_id),
            ));
            assert(s1.budgets =~= s0.budgets);
            assert(s1.accept_keys =~= s0.accept_keys);
            assert(s1.invites =~= s0.invites);
            assert(s1.entries =~= s0.entries);
            assert(s1.categories =~= s0.categories);
            let ki = access_key_at(s0.access_keys, key_id, budget_id);
            assert forall|a: int, b: int| 0 <= a < b < s1.access_keys.len() implies (
            #[trigger] s1.access_keys[a]).key_id != (#[trigger] s1.access_keys[b]).key_id by {
                assert(s1.access_keys[a] == if a < ki {
                    s0.access_keys[a]
                } else {
                    s0.access_keys[a + 1]
                });
                assert(s1.access_keys[b] == if b < ki {
                    s0.access_keys[b]
                } else {
                    s0.access_keys[b + 1]
                });
            }
            assert forall|a: int, b: int|
                0 <= a < s1.accept_keys.len() && 0 <= b < s1.access_keys.len() implies (
            #[trigger] s1.accept_keys[a]).key_id != (#[trigger] s1.access_keys[b]).key_id by {
                assert(s1.access_keys[b] == if b < ki {
                    s0.access_keys[b]
                } else {
                    s0.access_keys[b + 1]
                });
            }
        }
        Ok(())
    }

    /// Creates a budget, its owner capability key (never read-only) and the
    /// given categories under caller-supplied fresh identifiers.
    #[verifier::loop_isolation(false)]
    pub fn create_budget_with_ids(
        &mut self,
        encrypted_blob: &Vec<u8>,
        categories: &Vec<CategoryWithTempId>,
        user_public_budget_key: &Vec<u8>,
        budget_id: Uid,
        access_key_id: Uid,
        category_ids: &Vec<Uid>,
    ) -> (r: Result<(), DaoError>)
        requires
            old(self)@.wf(),
            categories@.len() == category_ids@.len(),
        ensures
            final(self)@.wf(),
            match r {
                Ok(_) => {
                    &&& final(self)@.budgets == old(self)@.budgets.push(
                        BudgetView {
                            id: budget_id,
                            encrypted_blob: encrypted_blob@,
                            encrypted_blob_sha1_hash: sha1_of(encrypted_blob@),
                        },
                    )
                    &&& final(self)@.access_keys == old(self)@.access_keys.push(
                        AccessKeyView {
                            key_id: access_key_id,
                            budget_id,
                            public_key: user_public_budget_key@,
                            read_only: false,
                        },
                    )
                    &&& final(self)@.categories == old(self)@.categories + Seq::new(
                        category_ids@.len(),
                        |j: int|
                            CategoryView {
                                id: category_ids@[j],
                                budget_id,
                                encrypted_blob: categories@[j].encrypted_blob@,
                                encrypted_blob_sha1_hash: sha1_of(categories@[j].encrypted_blob@),
                            },
                    )
                    &&& final(self)@.accept_keys == old(self)@.accept_keys
                    &&& final(self)@.invites == old(self)@.invites
                    &&& final(self)@.entries == old(self)@.entries
                },
                Err(e) => e == DaoError::UniquenessViolation && final(self)@ == old(self)@,
            },
            r is Ok <==> fresh_budget_ids(old(self)@, budget_id, access_key_id, category_ids@),
    {
        // Freshness of everything before writing anything.
        match find_budget_idx(&self.budgets, budget_id) {
            Some(i) => {
                assert(self@.budgets[i as int].id == budget_id);
                return Err(DaoError::UniquenessViolation);
            },
            None => {},
        }
        match find_access_key_id_idx(&self.access_keys, access_key_id) {
            Some(i) => {
                assert(self@.access_keys[i as int].key_id == access_key_id);
                return Err(DaoError::UniquenessViolation);
            },
            None => {},
        }
        match find_accept_key_id_idx(&self.accept_keys, access_key_id) {
            Some(i) => {
                assert(self@.accept_keys[i as int].key_id == access_key_id);
                return Err(DaoError::UniquenessViolation);
            },
            None => {},
        }
        let m = category_ids.len();
        let mut i: usize = 0;
        while i < m
            invariant
                m == category_ids@.len(),
                i <= m,
                forall|a: int|
                    0 <= a < i ==> !has_category_id(self@.categories, #[trigger] category_ids@[a]),
                forall|a: int, b: int|
                    0 <= a < b < i ==> #[trigger] category_ids@[a] != #[trigger] category_ids@[b],
            decreases m - i,
        {
            match find_category_id_idx(&self.categories, category_ids[i]) {
                Some(k) => {
                    assert(self@.categories[k as int].id == category_ids@[i as int]);
                    return Err(DaoError::UniquenessViolation);
                },
                None => {},
            }
            let mut j: usize = 0;
            while j < i
                invariant
                    i < m == category_ids@.len(),
                    j <= i,
                    forall|a: int| 0 <= a < j ==> #[trigger] category_ids@[a] != category_ids@[
                        i as int],
                decreases i - j,
            {
                if category_ids[j] == category_ids[i] {
                    assert(category_ids@[j as int] == category_ids@[i as int]);
                    return Err(DaoError::UniquenessViolation);
                }
                j += 1;
            }
            i += 1;
        }
        self.budgets.push(
            Budget {
                id: budget_id,
                encrypted_blob: clone_bytes(encrypted_blob),
                encrypted_blob_sha1_hash: sha1_hash(encrypted_blob.as_slice()),
            },
        );
        self.access_keys.push(
            BudgetAccessKey {
                key_id: access_key_id,
                budget_id,
                public_key: clone_bytes(user_public_budget_key),
                read_only: false,
            },
        );
        let ghost s_mid = self@;
        let mut i: usize = 0;
        while i < m
            invariant
                m == category_ids@.len() == categories@.len(),
                i <= m,
                self@.budgets == s_mid.budgets,
                self@.access_keys == s_mid.access_keys,
                self@.accept_keys == s_mid.accept_keys,
                self@.invites == s_mid.invites,
                self@.entries == s_mid.entries,
                self@.categories.len() == s_mid.categories.len() + i,
                forall|j: int|
                    0 <= j < s_mid.categories.len() ==> #[trigger] self@.categories[j]
                        == s_mid.categories[j],
                forall|j: int|
                    0 <= j < i ==> #[trigger] self@.categories[s_mid.categories.len() + j] == (
                    CategoryView {
                        id: category_ids@[j],
                        budget_id,
                        encrypted_blob: categories@[j].encrypted_blob@,
                        encrypted_blob_sha1_hash: sha1_of(categories@[j].encrypted_blob@),
                    }),
            decreases m - i,
        {
            let ghost cats0 = self@.categories;
            self.categories.push(
                Category {
                    id: category_ids[i],
                    budget_id,
                    encrypted_blob: clone_bytes(&categories[i].encrypted_blob),
                    encrypted_blob_sha1_hash: sha1_hash(categories[i].encrypted_blob.as_slice()),
                },
            );
            proof {
                assert(self@.categories =~= cats0.push(
                    CategoryView {
                        id: category_ids@[i as int],
                        budget_id,
                        encrypted_blob: categories@[i as int].encrypted_blob@,
                        encrypted_blob_sha1_hash: sha1_of(categories@[i as int].encrypted_blob@),
                    },
                ));
                assert(self@.categories.len() == s_mid.categories.len() + i + 1);
                assert(self@.categories[s_mid.categories.len() + i] == (CategoryView {
                    id: category_ids@[i as int],
                    budget_id,
                    encrypted_blob: categories@[i as int].encrypted_blob@,
                    encrypted_blob_sha1_hash: sha1_of(categories@[i as int].encrypted_blob@),
                }));
            }
            i += 1;
        }
        proof {
            assert(self@.budgets =~= old(self)@.budgets.push(
                BudgetView {
                    id: budget_id,
                    encrypted_blob: encrypted_blob@,
                    encrypted_blob_sha1_hash: sha1_of(encrypted_blob@),
                },
            ));
            assert(self@.access_keys =~= old(self)@.access_keys.push(
                AccessKeyView {
                    key_id: access_key_id,
                    budget_id,
                    public_key: user_public_budget_key@,
                    read_only: false,
                },
            ));
            let rhs = old(self)@.categories + Seq::new(
                category_ids@.len(),
                |j: int|
                    CategoryView {
                        id: category_ids@[j],
                        budget_id,
                        encrypted_blob: categories@[j].encrypted_blob@,
                        encrypted_blob_sha1_hash: sha1_of(categories@[j].encrypted_blob@),
                    },
            );
            let nc = s_mid.categories.len() as int;
            assert forall|j: int| 0 <= j < self@.categories.len() implies #[trigger] self@.categories[j]
                == rhs[j] by {
                if j >= nc {
                    assert(self@.categories[nc + (j - nc)] == (CategoryView {
                        id: category_ids@[j - nc],
                        budget_id,
                        encrypted_blob: categories@[j - nc].encrypted_blob@,
                        encrypted_blob_sha1_hash: sha1_of(categories@[j - nc].encrypted_blob@),
                    }));
                }
            }
            assert(self@.categories =~= rhs);
            assert(self@.accept_keys =~= old(self)@.accept_keys);
            assert(self@.invites =~= old(self)@.invites);
            assert(self@.entries =~= old(self)@.entries);
            lemma_create_budget_wf(
                old(self)@,
                self@,
                budget_id,
                access_key_id,
                category_ids@,
                budget_id,
            );
        }
        Ok(())
    }

    /// Creates a budget under freshly drawn identifiers and returns them.
    pub fn create_budget(
        &mut self,
        encrypted_blob: &Vec<u8>,
        categories: &Vec<CategoryWithTempId>,
        user_public_budget_key: &Vec<u8>,
    ) -> (r: Result<BudgetFrame, DaoError>)
        requires
            old(self)@.wf(),
        ensures
            final(self)@.wf(),
            match r {
                Ok(frame) => {
                    &&& frame.category_ids@.len() == categories@.len()
                    &&& final(self)@.budgets == old(self)@.budgets.push(
                        BudgetView {
                            id: frame.id,
                            encrypted_blob: encrypted_blob@,
                            encrypted_blob_sha1_hash: sha1_of(encrypted_blob@),
                        },
                    )
                    &&& final(self)@.access_keys == old(self)@.access_keys.push(
                        AccessKeyView {
                            key_id: frame.access_key_id,
                            budget_id: frame.id,
                            public_key: user_public_budget_key@,
                            read_only: false,
                        },
                    )
                    &&& final(self)@.categories == old(self)@.categories + Seq::new(
                        categories@.len(),
                        |j: int|
                            CategoryView {
                                id: frame.category_ids@[j],
                                budget_id: frame.id,
                                encrypted_blob: categories@[j].encrypted_blob@,
                                encrypted_blob_sha1_hash: sha1_of(categories@[j].encrypted_blob@),
                            },
                    )
                    &&& final(self)@.accept_keys == old(self)@.accept_keys
                    &&& final(self)@.invites == old(self)@.invites
                    &&& final(self)@.entries == old(self)@.entries
                },
                Err(e) => e == DaoError::UniquenessViolation && final(self)@ == old(self)@,
            },
    {
        let budget_id = uid_new_v4();
        let access_key_id = uid_new_v4();
        let mut category_ids: Vec<Uid> = Vec::new();
        let m = categories.len();
        let mut i: usize = 0;
        while i < m
            invariant
                i <= m,
                category_ids@.len() == i,
            decreases m - i,
        {
            category_ids.push(uid_new_v4());
            i += 1;
        }
        match self.create_budget_with_ids(
            encrypted_blob,
            categories,
            user_public_budget_key,
            budget_id,
            access_key_id,
            &category_ids,
        ) {
            Ok(_) => Ok(BudgetFrame { id: budget_id, access_key_id, category_ids }),
            Err(e) => Err(e),
        }
    }
}

/// Is some category row keyed by `id`, in any budget?
pub open spec fn has_category_id(s: Seq<CategoryView>, id: Uid) -> bool {
    exists|i: int| 0 <= i < s.len() && (#[trigger] s[i]).id == id
}

/// The index of the category row keyed by `id` alone.
fn find_category_id_idx(v: &Vec<Category>, id: Uid) -> (r: Option<usize>)
    ensures
        match r {
            Some(i) => i < v@.len() && v@[i as int]@.id == id,
            None => forall|j: int| 0 <= j < v@.len() ==> (#[trigger] v@[j])@.id != id,
        },
{
    let n = v.len();
    let mut i: usize = 0;
    while i < n
        invariant
            n == v@.len(),
            i <= n,
            forall|j: int| 0 <= j < i ==> (#[trigger] v@[j])@.id != id,
        decreases n - i,
    {
        if v[i].id == id {
            return Some(i);
        }
        i += 1;
    }
    None
}

/// Creating a budget with fresh identifiers preserves well-formedness.
proof fn lemma_create_budget_wf(
    s0: DaoState,
    s1: DaoState,
    budget_id: Uid,
    access_key_id: Uid,
    category_ids: Seq<Uid>,
    bid: Uid,
)
    requires
        s0.wf(),
        !has_budget(s0.budgets, budget_id),
        !has_access_key_id(s0.access_keys, access_key_id),
        !has_accept_key_id(s0.accept_keys, access_key_id),
        forall|a: int| 0 <= a < category_ids.len() ==> !has_category_id(
            s0.categories,
            #[trigger] category_ids[a],
        ),
        forall|a: int, b: int|
            0 <= a < b < category_ids.len() ==> #[trigger] category_ids[a]
                != #[trigger] category_ids[b],
        s1.budgets.len() == s0.budgets.len() + 1,
        forall|j: int| 0 <= j < s0.budgets.len() ==> #[trigger] s1.budgets[j] == s0.budgets[j],
        s1.budgets[s0.budgets.len() as int].id == budget_id,
        s1.access_keys.len() == s0.access_keys.len() + 1,
        forall|j: int|
            0 <= j < s0.access_keys.len() ==> #[trigger] s1.access_keys[j] == s0.access_keys[j],
        s1.access_keys[s0.access_keys.len() as int].key_id == access_key_id,
        s1.accept_keys == s0.accept_keys,
        s1.invites == s0.invites,
        s1.entries == s0.entries,
        s1.categories.len() == s0.categories.len() + category_ids.len(),
        forall|j: int|
            0 <= j < s0.categories.len() ==> #[trigger] s1.categories[j] == s0.categories[j],
        forall|j: int|
            0 <= j < category_ids.len() ==> (#[trigger] s1.categories[s0.categories.len() + j]).id
                == category_ids[j],
    ensures
        s1.wf(),
{
    let nb = s0.budgets.len() as int;
    assert forall|a: int, b: int| 0 <= a < b < s1.budgets.len() implies (
    #[trigger] s1.budgets[a]).id != (#[trigger] s1.budgets[b]).id by {
        if b == nb {
            assert(s1.budgets[a] == s0.budgets[a]);
        }
    }
    let nk = s0.access_keys.len() as int;
    assert forall|a: int, b: int| 0 <= a < b < s1.access_keys.len() implies (
    #[trigger] s1.access_keys[a]).key_id != (#[trigger] s1.access_keys[b]).key_id by {
        if b == nk {
            assert(s1.access_keys[a] == s0.access_keys[a]);
        }
    }
    assert forall|a: int, b: int|
        0 <= a < s1.accept_keys.len() && 0 <= b < s1.access_keys.len() implies (
    #[trigger] s1.accept_keys[a]).key_id != (#[trigger] s1.access_keys[b]).key_id by {
        if b == nk {
            assert(s1.accept_keys[a] == s0.accept_keys[a]);
        } else {
            assert(s1.access_keys[b] == s0.access_keys[b]);
        }
    }
    let nc = s0.categories.len() as int;
    assert forall|a: int, b: int| 0 <= a < b < s1.categories.len() implies (
    #[trigger] s1.categories[a]).id != (#[trigger] s1.categories[b]).id by {
        if b >= nc {
            assert(s1.categories[nc + (b - nc)].id == category_ids[b - nc]);
            if a >= nc {
                assert(s1.categories[nc + (a - nc)].id == category_ids[a - nc]);
            } else {
                assert(s1.categories[a] == s0.categories[a]);
                assert(!has_category_id(s0.categories, category_ids[b - nc]));
            }
        } else {
            assert(s1.categories[a] == s0.categories[a]);
            assert(s1.categories[b] == s0.categories[b]);
        }
    }
}

/// The invitation view assembled from the arguments of `invite_user`.
pub open spec fn spec_invite_view(
    id: Uid,
    recipient_user_email: Seq<char>,
    sender_public_key: Seq<u8>,
    encryption_key_encrypted: Seq<u8>,
    budget_info_encrypted: Seq<u8>,
    sender_info_encrypted: Seq<u8>,
    share_info_symmetric_key_encrypted: Seq<u8>,
    accept_key_id: Uid,
    accept_key_id_encrypted: Seq<u8>,
    accept_private_key_encrypted: Seq<u8>,
    accept_key_info_encrypted: Seq<u8>,
    recipient_public_key_id_used_by_sender: Uid,
    recipient_public_key_id_used_by_server: Uid,
) -> InviteView {
    InviteView {
        id,
        recipient_user_email,
        sender_public_key,
        encryption_key_encrypted,
        budget_accept_private_key_encrypted: accept_private_key_encrypted,
        budget_info_encrypted,
        sender_info_encrypted,
        budget_accept_key_info_encrypted: accept_key_info_encrypted,
        budget_accept_key_id_encrypted: accept_key_id_encrypted,
        share_info_symmetric_key_encrypted,
        recipient_public_key_id_used_by_sender,
        recipient_public_key_id_used_by_server,
        accept_key_id,
    }
}

/// With unique accept key ids, a found index is the chosen one.
proof fn lemma_accept_key_id_at_unique(s: Seq<AcceptKeyView>, key_id: Uid, i: int)
    requires
        forall|a: int, b: int|
            0 <= a < b < s.len() ==> (#[trigger] s[a]).key_id != (#[trigger] s[b]).key_id,
        0 <= i < s.len(),
        s[i].key_id == key_id,
    ensures
        has_accept_key_id(s, key_id),
        accept_key_id_at(s, key_id) == i,
{
    assert(has_accept_key_id(s, key_id));
    let k = accept_key_id_at(s, key_id);
    if k != i {
        if k < i {
            assert(s[k].key_id != s[i].key_id);
        } else {
            assert(s[i].key_id != s[k].key_id);
        }
    }
}

/// Removing an invitation row and possibly an accept key row (and touching
/// nothing else) preserves well-formedness.
proof fn lemma_removed_unique_wf(s0: DaoState, s1: DaoState)
    requires
        s0.wf(),
        s1.budgets == s0.budgets,
        s1.access_keys == s0.access_keys,
        s1.entries == s0.entries,
        s1.categories == s0.categories,
        s1.invites == s0.invites || (exists|i: int|
            0 <= i < s0.invites.len() && s1.invites == #[trigger] s0.invites.remove(i)),
        s1.accept_keys == s0.accept_keys || (exists|i: int|
            0 <= i < s0.accept_keys.len() && s1.accept_keys == #[trigger] s0.accept_keys.remove(
                i,
            )),
    ensures
        s1.wf(),
{
    if s1.invites != s0.invites {
        let i = choose|i: int|
            0 <= i < s0.invites.len() && s1.invites == #[trigger] s0.invites.remove(i);
        assert forall|a: int, b: int| 0 <= a < b < s1.invites.len() implies (
        #[trigger] s1.invites[a]).id != (#[trigger] s1.invites[b]).id by {
            assert(s1.invites[a] == if a < i {
                s0.invites[a]
            } else {
                s0.invites[a + 1]
            });
            assert(s1.invites[b] == if b < i {
                s0.invites[b]
            } else {
                s0.invites[b + 1]
            });
        }
    }
    if s1.accept_keys != s0.accept_keys {
        let i = choose|i: int|
            0 <= i < s0.accept_keys.len() && s1.accept_keys == #[trigger] s0.accept_keys.remove(i);
        assert forall|a: int, b: int| 0 <= a < b < s1.accept_keys.len() implies (
        #[trigger] s1.accept_keys[a]).key_id != (#[trigger] s1.accept_keys[b]).key_id by {
            assert(s1.accept_keys[a] == if a < i {
                s0.accept_keys[a]
            } else {
                s0.accept_keys[a + 1]
            });
            assert(s1.accept_keys[b] == if b < i {
                s0.accept_keys[b]
            } else {
                s0.accept_keys[b + 1]
            });
        }
        assert forall|a: int, b: int|
            0 <= a < s1.accept_keys.len() && 0 <= b < s1.access_keys.len() implies (
        #[trigger] s1.accept_keys[a]).key_id != (#[trigger] s1.access_keys[b]).key_id by {
            assert(s1.accept_keys[a] == if a < i {
                s0.accept_keys[a]
            } else {
                s0.accept_keys[a + 1]
            });
        }
    }
}

/// Accepting an invitation preserves well-formedness: the promoted
/// identifier was an accept key identifier, so by disjointness it collides
/// with no remaining capability key.
proof fn lemma_accept_wf(
    s: DaoState,
    accept_key_id: Uid,
    budget_id: Uid,
    read_only: bool,
    invitation_id: Uid,
    recipient_email: Seq<char>,
    recipient_public_key: Seq<u8>,
)
    requires
        s.wf(),
    ensures
        spec_accept_invitation(
            s,
            accept_key_id,
            budget_id,
            read_only,
            invitation_id,
            recipient_email,
            recipient_public_key,
        ).0.wf(),
{
    let t = spec_accept_invitation(
        s,
        accept_key_id,
        budget_id,
        read_only,
        invitation_id,
        recipient_email,
        recipient_public_key,
    );
    if t.1 is Ok {
        let s1 = t.0;
        let ii = invite_at(s.invites, invitation_id);
        let ki = accept_key_at(s.accept_keys, accept_key_id, budget_id);
        assert forall|a: int, b: int| 0 <= a < b < s1.invites.len() implies (
        #[trigger] s1.invites[a]).id != (#[trigger] s1.invites[b]).id by {
            assert(s1.invites[a] == if a < ii {
                s.invites[a]
            } else {
                s.invites[a + 1]
            });
            assert(s1.invites[b] == if b < ii {
                s.invites[b]
            } else {
                s.invites[b + 1]
            });
        }
        assert forall|a: int, b: int| 0 <= a < b < s1.accept_keys.len() implies (
        #[trigger] s1.accept_keys[a]).key_id != (#[trigger] s1.accept_keys[b]).key_id by {
            assert(s1.accept_keys[a] == if a < ki {
                s.accept_keys[a]
            } else {
                s.accept_keys[a + 1]
            });
            assert(s1.accept_keys[b] == if b < ki {
                s.accept_keys[b]
            } else {
                s.accept_keys[b + 1]
            });
        }
        assert(s.accept_keys[ki].key_id == accept_key_id);
        assert forall|a: int, b: int| 0 <= a < b < s1.access_keys.len() implies (
        #[trigger] s1.access_keys[a]).key_id != (#[trigger] s1.access_keys[b]).key_id by {
            if b < s1.access_keys.len() - 1 {
                assert(s1.access_keys[a] == s.access_keys[a]);
                assert(s1.access_keys[b] == s.access_keys[b]);
            } else {
                assert(s1.access_keys[b].key_id == accept_key_id);
                assert(s1.access_keys[a] == s.access_keys[a]);
            }
        }
        assert forall|a: int, b: int|
            0 <= a < s1.accept_keys.len() && 0 <= b < s1.access_keys.len() implies (
        #[trigger] s1.accept_keys[a]).key_id != (#[trigger] s1.access_keys[b]).key_id by {
            assert(s1.accept_keys[a] == if a < ki {
                s.accept_keys[a]
            } else {
                s.accept_keys[a + 1]
            });
            if b < s1.access_keys.len() - 1 {
                assert(s1.access_keys[b] == s.access_keys[b]);
            } else {
                assert(s1.access_keys[b].key_id == accept_key_id);
            }
        }
    }
}

/// Invitation lifecycle, first half: whichever terminal operation consumes
/// an invitation — accept, decline, or retraction — the invitation row is
/// gone afterwards, and the store stays well-formed.
pub proof fn lemma_invitation_consumed(
    s: DaoState,
    accept_key_id: Uid,
    budget_id: Uid,
    read_only: bool,
    invitation_id: Uid,
    recipient_email: Seq<char>,
    recipient_public_key: Seq<u8>,
)
    requires
        s.wf(),
    ensures
        spec_accept_invitation(
            s,
            accept_key_id,
            budget_id,
            read_only,
            invitation_id,
            recipient_email,
            recipient_public_key,
        ).1 is Ok ==> !has_invite(
            spec_accept_invitation(
                s,
                accept_key_id,
                budget_id,
                read_only,
                invitation_id,
                recipient_email,
                recipient_public_key,
            ).0.invites,
            invitation_id,
        ),
        spec_reject_invitation(s, invitation_id, accept_key_id, recipient_email).1 is Ok
            ==> !has_invite(
            spec_reject_invitation(s, invitation_id, accept_key_id, recipient_email).0.invites,
            invitation_id,
        ),
        spec_delete_invitation(s, invitation_id).1 is Ok ==> !has_invite(
            spec_delete_invitation(s, invitation_id).0.invites,
            invitation_id,
        ),
{
    if has_invite(s.invites, invitation_id) {
        let ii = invite_at(s.invites, invitation_id);
        assert forall|s1: Seq<InviteView>| s1 == s.invites.remove(ii) implies !has_invite(
            s1,
            invitation_id,
        ) by {
            assert forall|a: int| 0 <= a < s1.len() implies (#[trigger] s1[a]).id
                != invitation_id by {
                assert(s1[a] == if a < ii {
                    s.invites[a]
                } else {
                    s.invites[a + 1]
                });
                assert(s.invites[ii].id == invitation_id);
            }
        }
    }
}

/// Invitation lifecycle, second half: once the invitation row is gone, each
/// of accept, decline and retraction returns `NotFound` and changes
/// nothing.  Together with [`lemma_invitation_consumed`]: of the three
/// terminal operations on one invitation, at most one ever succeeds.
pub proof fn lemma_consumed_invitation_refuses(
    s: DaoState,
    accept_key_id: Uid,
    budget_id: Uid,
    read_only: bool,
    invitation_id: Uid,
    recipient_email: Seq<char>,
    recipient_public_key: Seq<u8>,
)
    requires
        s.wf(),
        !has_invite(s.invites, invitation_id),
    ensures
        spec_accept_invitation(
            s,
            accept_key_id,
            budget_id,
            read_only,
            invitation_id,
            recipient_email,
            recipient_public_key,
        ) == (s, Err::<BudgetView, DaoError>(DaoError::NotFound)),
        spec_reject_invitation(s, invitation_id, accept_key_id, recipient_email) == (
            s,
            Err::<(), DaoError>(DaoError::NotFound),
        ),
        spec_delete_invitation(s, invitation_id) == (
            s,
            Err::<(), DaoError>(DaoError::NotFound),
        ),
{
}

/// The identifiers returned when an entry and its category are created
/// together.
#[derive(Debug)]
pub struct EntryAndCategoryIds {
    pub entry_id: Uid,
    pub category_id: Uid,
}

/// Is some entry row keyed by `id`, in any budget?
pub open spec fn has_entry_id(s: Seq<EntryView>, id: Uid) -> bool {
    exists|i: int| 0 <= i < s.len() && (#[trigger] s[i]).id == id
}

/// The index of the entry row keyed by `id` alone.
fn find_entry_id_idx(v: &Vec<Entry>, id: Uid) -> (r: Option<usize>)
    ensures
        match r {
            Some(i) => i < v@.len() && v@[i as int]@.id == id,
            None => forall|j: int| 0 <= j < v@.len() ==> (#[trigger] v@[j])@.id != id,
        },
{
    let n = v.len();
    let mut i: usize = 0;
    while i < n
        invariant
            n == v@.len(),
            i <= n,
            forall|j: int| 0 <= j < i ==> (#[trigger] v@[j])@.id != id,
        decreases n - i,
    {
        if v[i].id == id {
            return Some(i);
        }
        i += 1;
    }
    None
}

/// The index of the entry row keyed by `(id, budget_id)`.
fn find_entry_idx(v: &Vec<Entry>, id: Uid, budget_id: Uid) -> (r: Option<usize>)
    ensures
        match r {
            Some(i) => i < v@.len() && v@[i as int]@.id == id && v@[i as int]@.budget_id
                == budget_id,
            None => forall|j: int|
                0 <= j < v@.len() ==> !((#[trigger] v@[j])@.id == id && v@[j]@.budget_id
                    == budget_id),
        },
{
    let n = v.len();
    let mut i: usize = 0;
    while i < n
        invariant
            n == v@.len(),
            i <= n,
            forall|j: int|
                0 <= j < i ==> !((#[trigger] v@[j])@.id == id && v@[j]@.budget_id == budget_id),
        decreases n - i,
    {
        if v[i].id == id && v[i].budget_id == budget_id {
            return Some(i);
        }
        i += 1;
    }
    None
}

/// The index of the category row keyed by `(id, budget_id)`.
fn find_category_idx(v: &Vec<Category>, id: Uid, budget_id: Uid) -> (r: Option<usize>)
    ensures
        match r {
            Some(i) => i < v@.len() && v@[i as int]@.id == id && v@[i as int]@.budget_id
                == budget_id,
            None => forall|j: int|
                0 <= j < v@.len() ==> !((#[trigger] v@[j])@.id == id && v@[j]@.budget_id
                    == budget_id),
        },
{
    let n = v.len();
    let mut i: usize = 0;
    while i < n
        invariant
            n == v@.len(),
            i <= n,
            forall|j: int|
                0 <= j < i ==> !((#[trigger] v@[j])@.id == id && v@[j]@.budget_id == budget_id),
        decreases n - i,
    {
        if v[i].id == id && v[i].budget_id == budget_id {
            return Some(i);
        }
        i += 1;
    }
    None
}

/// With unique entry ids, a found index is the chosen one.
proof fn lemma_entry_at_unique(s: Seq<EntryView>, id: Uid, budget_id: Uid, i: int)
    requires
        forall|a: int, b: int|
            0 <= a < b < s.len() ==> (#[trigger] s[a]).id != (#[trigger] s[b]).id,
        0 <= i < s.len(),
        s[i].id == id,
        s[i].budget_id == budget_id,
    ensures
        has_entry(s, id, budget_id),
        entry_at(s, id, budget_id) == i,
{
    assert(has_entry(s, id, budget_id));
    let k = entry_at(s, id, budget_id);
    if k != i {
        if k < i {
            assert(s[k].id != s[i].id);
        } else {
            assert(s[i].id != s[k].id);
        }
    }
}

/// With unique category ids, a found index is the chosen one.
proof fn lemma_category_at_unique(s: Seq<CategoryView>, id: Uid, budget_id: Uid, i: int)
    requires
        forall|a: int, b: int|
            0 <= a < b < s.len() ==> (#[trigger] s[a]).id != (#[trigger] s[b]).id,
        0 <= i < s.len(),
        s[i].id == id,
        s[i].budget_id == budget_id,
    ensures
        has_category(s, id, budget_id),
        category_at(s, id, budget_id) == i,
{
    assert(has_category(s, id, budget_id));
    let k = category_at(s, id, budget_id);
    if k != i {
        if k < i {
            assert(s[k].id != s[i].id);
        } else {
            assert(s[i].id != s[k].id);
        }
    }
}

impl Dao {
    /// Creates an entry under a caller-supplied fresh identifier.  The
    /// budget must exist, and a given category must exist within it.
    #[verifier::loop_isolation(false)]
    pub fn create_entry_with_id(
        &mut self,
        entry_id: Uid,
        encrypted_blob: &Vec<u8>,
        category_id: Option<Uid>,
        budget_id: Uid,
    ) -> (r: Result<(), DaoError>)
        requires
            old(self)@.wf(),
        ensures
            final(self)@.wf(),
            match r {
                Ok(_) => {
                    &&& has_budget(old(self)@.budgets, budget_id)
                    &&& !has_entry_id(old(self)@.entries, entry_id)
                    &&& (category_id matches Some(cid) ==> has_category(
                        old(self)@.categories,
                        cid,
                        budget_id,
                    ))
                    &&& final(self)@ == (DaoState {
                        entries: old(self)@.entries.push(
                            EntryView {
                                id: entry_id,
                                budget_id,
                                category_id,
                                encrypted_blob: encrypted_blob@,
                                encrypted_blob_sha1_hash: sha1_of(encrypted_blob@),
                            },
                        ),
                        ..old(self)@
                    })
                },
                Err(e) => final(self)@ == old(self)@ && (e == DaoError::NotFound <==> !has_budget(
                    old(self)@.budgets,
                    budget_id,
                )) && (e == DaoError::ForeignKeyViolation <==> (has_budget(
                    old(self)@.budgets,
                    budget_id,
                ) && (category_id matches Some(cid) && !has_category(
                    old(self)@.categories,
                    cid,
                    budget_id,
                )))) && (e == DaoError::UniquenessViolation ==> has_entry_id(
                    old(self)@.entries,
                    entry_id,
                )) && (e == DaoError::NotFound || e == DaoError::ForeignKeyViolation || e
                    == DaoError::UniquenessViolation),
            },
            has_budget(old(self)@.budgets, budget_id) && (category_id is None || has_category(
                old(self)@.categories,
                category_id->0,
                budget_id,
            )) && !has_entry_id(old(self)@.entries, entry_id) ==> r is Ok,
    {
        match find_budget_idx(&self.budgets, budget_id) {
            Some(i) => {
                assert(self@.budgets[i as int].id == budget_id);
            },
            None => {
                assert(!has_budget(self@.budgets, budget_id));
                return Err(DaoError::NotFound);
            },
        }
        match category_id {
            Some(cid) => {
                match find_category_idx(&self.categories, cid, budget_id) {
                    Some(i) => {
                        proof {
                            lemma_category_at_unique(
                                self@.categories,
                                cid,
                                budget_id,
                                i as int,
                            );
                        }
                    },
                    None => {
                        assert(!has_category(self@.categories, cid, budget_id));
                        return Err(DaoError::ForeignKeyViolation);
                    },
                }
            },
            None => {},
        }
        match find_entry_id_idx(&self.entries, entry_id) {
            Some(i) => {
                assert(self@.entries[i as int].id == entry_id);
                return Err(DaoError::UniquenessViolation);
            },
            None => {},
        }
        assert(!has_entry_id(self@.entries, entry_id));
        self.entries.push(
            Entry {
                id: entry_id,
                budget_id,
                category_id,
                encrypted_blob: clone_bytes(encrypted_blob),
                encrypted_blob_sha1_hash: sha1_hash(encrypted_blob.as_slice()),
            },
        );
        proof {
            assert(self@.entries =~= old(self)@.entries.push(
                EntryView {
                    id: entry_id,
                    budget_id,
                    category_id,
                    encrypted_blob: encrypted_blob@,
                    encrypted_blob_sha1_hash: sha1_of(encrypted_blob@),
                },
            ));
            assert(self@.budgets =~= old(self)@.budgets);
            assert(self@.access_keys =~= old(self)@.access_keys);
            assert(self@.accept_keys =~= old(self)@.accept_keys);
            assert(self@.invites =~= old(self)@.invites);
            assert(self@.categories =~= old(self)@.categories);
            let s1 = self@;
            let ne = old(self)@.entries.len() as int;
            assert forall|a: int, b: int| 0 <= a < b < s1.entries.len() implies (
            #[trigger] s1.entries[a]).id != (#[trigger] s1.entries[b]).id by {
                if b == ne {
                    assert(s1.entries[a] == old(self)@.entries[a]);
                }
            }
        }
        Ok(())
    }

    /// Creates an entry under a freshly drawn identifier and returns it.
    pub fn create_entry(
        &mut self,
        encrypted_blob: &Vec<u8>,
        category_id: Option<Uid>,
        budget_id: Uid,
    ) -> (r: Result<Uid, DaoError>)
        requires
            old(self)@.wf(),
        ensures
            final(self)@.wf(),
            match r {
                Ok(id) => final(self)@ == (DaoState {
                    entries: old(self)@.entries.push(
                        EntryView {
                            id,
                            budget_id,
                            category_id,
                            encrypted_blob: encrypted_blob@,
                            encrypted_blob_sha1_hash: sha1_of(encrypted_blob@),
                        },
                    ),
                    ..old(self)@
                }),
                Err(e) => final(self)@ == old(self)@ && (e == DaoError::NotFound <==> !has_budget(
                    old(self)@.budgets,
                    budget_id,
                )) && (e == DaoError::ForeignKeyViolation <==> (has_budget(
                    old(self)@.budgets,
                    budget_id,
                ) && (category_id matches Some(cid) && !has_category(
                    old(self)@.categories,
                    cid,
                    budget_id,
                )))) && (e == DaoError::NotFound || e == DaoError::ForeignKeyViolation || e
                    == DaoError::UniquenessViolation),
            },
            r is Ok ==> has_budget(old(self)@.budgets, budget_id) && (category_id is None
                || has_category(old(self)@.categories, category_id->0, budget_id)),
    {
        let entry_id = uid_new_v4();
        match self.create_entry_with_id(entry_id, encrypted_blob, category_id, budget_id) {
            Ok(_) => Ok(entry_id),
            Err(e) => Err(e),
        }
    }

    /// Creates a category under a caller-supplied fresh identifier.
    #[verifier::loop_isolation(false)]
    pub fn create_category_with_id(
        &mut self,
        category_id: Uid,
        encrypted_blob: &Vec<u8>,
        budget_id: Uid,
    ) -> (r: Result<(), DaoError>)
        requires
            old(self)@.wf(),
        ensures
            final(self)@.wf(),
            match r {
                Ok(_) => {
                    &&& has_budget(old(self)@.budgets, budget_id)
                    &&& !has_category_id(old(self)@.categories, category_id)
                    &&& final(self)@ == (DaoState {
                        categories: old(self)@.categories.push(
                            CategoryView {
                                id: category_id,
                                budget_id,
                                encrypted_blob: encrypted_blob@,
                                encrypted_blob_sha1_hash: sha1_of(encrypted_blob@),
                            },
                        ),
                        ..old(self)@
                    })
                },
                Err(e) => final(self)@ == old(self)@ && (e == DaoError::NotFound <==> !has_budget(
                    old(self)@.budgets,
                    budget_id,
                )) && (e == DaoError::UniquenessViolation ==> has_category_id(
                    old(self)@.categories,
                    category_id,
                )) && (e == DaoError::NotFound || e == DaoError::UniquenessViolation),
            },
            has_budget(old(self)@.budgets, budget_id) && !has_category_id(
                old(self)@.categories,
                category_id,
            ) ==> r is Ok,
    {
        match find_budget_idx(&self.budgets, budget_id) {
            Some(i) => {
                assert(self@.budgets[i as int].id == budget_id);
            },
            None => {
                assert(!has_budget(self@.budgets, budget_id));
                return Err(DaoError::NotFound);
            },
        }
        match find_category_id_idx(&self.categories, category_id) {
            Some(i) => {
                assert(self@.categories[i as int].id == category_id);
                return Err(DaoError::UniquenessViolation);
            },
            None => {},
        }
        assert(!has_category_id(self@.categories, category_id));
        self.categories.push(
            Category {
                id: category_id,
                budget_id,
                encrypted_blob: clone_bytes(encrypted_blob),
                encrypted_blob_sha1_hash: sha1_hash(encrypted_blob.as_slice()),
            },
        );
        proof {
            assert(self@.categories =~= old(self)@.categories.push(
                CategoryView {
                    id: category_id,
                    budget_id,
                    encrypted_blob: encrypted_blob@,
                    encrypted_blob_sha1_hash: sha1_of(encrypted_blob@),
                },
            ));
            assert(self@.budgets =~= old(self)@.budgets);
            assert(self@.access_keys =~= old(self)@.access_keys);
            assert(self@.accept_keys =~= old(self)@.accept_keys);
            assert(self@.invites =~= old(self)@.invites);
            assert(self@.entries =~= old(self)@.entries);
            let s1 = self@;
            let nc = old(self)@.categories.len() as int;
            assert forall|a: int, b: int| 0 <= a < b < s1.categories.len() implies (
            #[trigger] s1.categories[a]).id != (#[trigger] s1.categories[b]).id by {
                if b == nc {
                    assert(s1.categories[a] == old(self)@.categories[a]);
                }
            }
        }
        Ok(())
    }

    /// Creates a category under a freshly drawn identifier and returns it.
    pub fn create_category(&mut self, encrypted_blob: &Vec<u8>, budget_id: Uid) -> (r: Result<
        Uid,
        DaoError,
    >)
        requires
            old(self)@.wf(),
        ensures
            final(self)@.wf(),
            match r {
                Ok(id) => final(self)@ == (DaoState {
                    categories: old(self)@.categories.push(
                        CategoryView {
                            id,
                            budget_id,
                            encrypted_blob: encrypted_blob@,
                            encrypted_blob_sha1_hash: sha1_of(encrypted_blob@),
                        },
                    ),
                    ..old(self)@
                }),
                Err(e) => final(self)@ == old(self)@ && (e == DaoError::NotFound <==> !has_budget(
                    old(self)@.budgets,
                    budget_id,
                )) && (e == DaoError::NotFound || e == DaoError::UniquenessViolation),
            },
            r is Ok ==> has_budget(old(self)@.budgets, budget_id),
    {
        let category_id = uid_new_v4();
        match self.create_category_with_id(category_id, encrypted_blob, budget_id) {
            Ok(_) => Ok(category_id),
            Err(e) => Err(e),
        }
    }

    /// Creates an entry and a category together, the entry filed under the
    /// new category, under freshly drawn identifiers.
    pub fn create_entry_and_category(
        &mut self,
        entry_encrypted_blob: &Vec<u8>,
        category_encrypted_blob: &Vec<u8>,
        budget_id: Uid,
    ) -> (r: Result<EntryAndCategoryIds, DaoError>)
        requires
            old(self)@.wf(),
        ensures
            final(self)@.wf(),
            match r {
                Ok(ids) => final(self)@ == (DaoState {
                    categories: old(self)@.categories.push(
                        CategoryView {
                            id: ids.category_id,
                            budget_id,
                            encrypted_blob: category_encrypted_blob@,
                            encrypted_blob_sha1_hash: sha1_of(category_encrypted_blob@),
                        },
                    ),
                    entries: old(self)@.entries.push(
                        EntryView {
                            id: ids.entry_id,
                            budget_id,
                            category_id: Some(ids.category_id),
                            encrypted_blob: entry_encrypted_blob@,
                            encrypted_blob_sha1_hash: sha1_of(entry_encrypted_blob@),
                        },
                    ),
                    ..old(self)@
                }),
                Err(e) => (e == DaoError::NotFound ==> !has_budget(
                    old(self)@.budgets,
                    budget_id,
                )),
            },
    {
        let category_id = uid_new_v4();
        match self.create_category_with_id(category_id, category_encrypted_blob, budget_id) {
            Ok(_) => {},
            Err(e) => {
                return Err(e);
            },
        }
        let entry_id = uid_new_v4();
        match self.create_entry_with_id(
            entry_id,
            entry_encrypted_blob,
            Some(category_id),
            budget_id,
        ) {
            Ok(_) => Ok(EntryAndCategoryIds { entry_id, category_id }),
            Err(e) => Err(e),
        }
    }

    /// A digest-guarded entry update, which may also re-file the entry
    /// under another category of the same budget.
    pub fn update_entry(
        &mut self,
        entry_id: Uid,
        encrypted_blob: &Vec<u8>,
        expected_previous_data_hash: &Vec<u8>,
        category_id: Option<Uid>,
        budget_id: Uid,
    ) -> (r: Result<(), DaoError>)
        requires
            old(self)@.wf(),
        ensures
            final(self)@.wf(),
            match r {
                Ok(_) => {
                    &&& has_entry(old(self)@.entries, entry_id, budget_id)
                    &&& (category_id matches Some(cid) ==> has_category(
                        old(self)@.categories,
                        cid,
                        budget_id,
                    ))
                    &&& old(self)@.entries[entry_at(
                        old(self)@.entries,
                        entry_id,
                        budget_id,
                    )].encrypted_blob_sha1_hash == expected_previous_data_hash@
                    &&& final(self)@ == (DaoState {
                        entries: old(self)@.entries.update(
                            entry_at(old(self)@.entries, entry_id, budget_id),
                            EntryView {
                                id: entry_id,
                                budget_id,
                                category_id,
                                encrypted_blob: encrypted_blob@,
                                encrypted_blob_sha1_hash: sha1_of(encrypted_blob@),
                            },
                        ),
                        ..old(self)@
                    })
                },
                Err(e) => final(self)@ == old(self)@ && (e == DaoError::NotFound <==> !has_entry(
                    old(self)@.entries,
                    entry_id,
                    budget_id,
                )) && (e == DaoError::OutOfDateHash ==> has_entry(
                    old(self)@.entries,
                    entry_id,
                    budget_id,
                ) && old(self)@.entries[entry_at(
                    old(self)@.entries,
                    entry_id,
                    budget_id,
                )].encrypted_blob_sha1_hash != expected_previous_data_hash@) && (e
                    == DaoError::ForeignKeyViolation <==> (has_entry(
                    old(self)@.entries,
                    entry_id,
                    budget_id,
                ) && (category_id matches Some(cid) && !has_category(
                    old(self)@.categories,
                    cid,
                    budget_id,
                )))) && (e == DaoError::NotFound || e == DaoError::OutOfDateHash || e
                    == DaoError::ForeignKeyViolation),
            },
            has_entry(old(self)@.entries, entry_id, budget_id) && (category_id is None
                || has_category(old(self)@.categories, category_id->0, budget_id)) && old(
                self,
            )@.entries[entry_at(old(self)@.entries, entry_id, budget_id)].encrypted_blob_sha1_hash
                == expected_previous_data_hash@ ==> r is Ok,
    {
        let i = match find_entry_idx(&self.entries, entry_id, budget_id) {
            Some(i) => i,
            None => {
                assert(!has_entry(self@.entries, entry_id, budget_id));
                return Err(DaoError::NotFound);
            },
        };
        proof {
            lemma_entry_at_unique(self@.entries, entry_id, budget_id, i as int);
        }
        match category_id {
            Some(cid) => {
                match find_category_idx(&self.categories, cid, budget_id) {
                    Some(k) => {
                        assert(self@.categories[k as int].id == cid);
                        assert(has_category(self@.categories, cid, budget_id));
                    },
                    None => {
                        assert(!has_category(self@.categories, cid, budget_id));
                        return Err(DaoError::ForeignKeyViolation);
                    },
                }
            },
            None => {},
        }
        if !bytes_eq(
            self.entries[i].encrypted_blob_sha1_hash.as_slice(),
            expected_previous_data_hash.as_slice(),
        ) {
            return Err(DaoError::OutOfDateHash);
        }
        let mut row = self.entries.remove(i);
        row.category_id = category_id;
        row.encrypted_blob = clone_bytes(encrypted_blob);
        row.encrypted_blob_sha1_hash = sha1_hash(encrypted_blob.as_slice());
        self.entries.insert(i, row);
        proof {
            assert(self@.entries =~= old(self)@.entries.update(
                entry_at(old(self)@.entries, entry_id, budget_id),
                EntryView {
                    id: entry_id,
                    budget_id,
                    category_id,
                    encrypted_blob: encrypted_blob@,
                    encrypted_blob_sha1_hash: sha1_of(encrypted_blob@),
                },
            ));
            assert(self@.budgets =~= old(self)@.budgets);
            assert(self@.access_keys =~= old(self)@.access_keys);
            assert(self@.accept_keys =~= old(self)@.accept_keys);
            assert(self@.invites =~= old(self)@.invites);
            assert(self@.categories =~= old(self)@.categories);
        }
        Ok(())
    }

    /// A digest-guarded category update.
    pub fn update_category(
        &mut self,
        category_id: Uid,
        encrypted_blob: &Vec<u8>,
        expected_previous_data_hash: &Vec<u8>,
        budget_id: Uid,
    ) -> (r: Result<(), DaoError>)
        requires
            old(self)@.wf(),
        ensures
            final(self)@.wf(),
            match r {
                Ok(_) => {
                    &&& has_category(old(self)@.categories, category_id, budget_id)
                    &&& old(self)@.categories[category_at(
                        old(self)@.categories,
                        category_id,
                        budget_id,
                    )].encrypted_blob_sha1_hash == expected_previous_data_hash@
                    &&& final(self)@ == (DaoState {
                        categories: old(self)@.categories.update(
                            category_at(old(self)@.categories, category_id, budget_id),
                            CategoryView {
                                id: category_id,
                                budget_id,
                                encrypted_blob: encrypted_blob@,
                                encrypted_blob_sha1_hash: sha1_of(encrypted_blob@),
                            },
                        ),
                        ..old(self)@
                    })
                },
                Err(e) => final(self)@ == old(self)@ && (e == DaoError::NotFound
                    <==> !has_category(old(self)@.categories, category_id, budget_id)) && (e
                    == DaoError::OutOfDateHash ==> has_category(
                    old(self)@.categories,
                    category_id,
                    budget_id,
                ) && old(self)@.categories[category_at(
                    old(self)@.categories,
                    category_id,
                    budget_id,
                )].encrypted_blob_sha1_hash != expected_previous_data_hash@) && (e
                    == DaoError::NotFound || e == DaoError::OutOfDateHash),
            },
            has_category(old(self)@.categories, category_id, budget_id) && old(
                self,
            )@.categories[category_at(
                old(self)@.categories,
                category_id,
                budget_id,
            )].encrypted_blob_sha1_hash == expected_previous_data_hash@ ==> r is Ok,
    {
        let i = match find_category_idx(&self.categories, category_id, budget_id) {
            Some(i) => i,
            None => {
                assert(!has_category(self@.categories, category_id, budget_id));
                return Err(DaoError::NotFound);
            },
        };
        proof {
            lemma_category_at_unique(self@.categories, category_id, budget_id, i as int);
        }
        if !bytes_eq(
            self.categories[i].encrypted_blob_sha1_hash.as_slice(),
            expected_previous_data_hash.as_slice(),
        ) {
            return Err(DaoError::OutOfDateHash);
        }
        let mut row = self.categories.remove(i);
        row.encrypted_blob = clone_bytes(encrypted_blob);
        row.encrypted_blob_sha1_hash = sha1_hash(encrypted_blob.as_slice());
        self.categories.insert(i, row);
        proof {
            assert(self@.categories =~= old(self)@.categories.update(
                category_at(old(self)@.categories, category_id, budget_id),
                CategoryView {
                    id: category_id,
                    budget_id,
                    encrypted_blob: encrypted_blob@,
                    encrypted_blob_sha1_hash: sha1_of(encrypted_blob@),
                },
            ));
            assert(self@.budgets =~= old(self)@.budgets);
            assert(self@.access_keys =~= old(self)@.access_keys);
            assert(self@.accept_keys =~= old(self)@.accept_keys);
            assert(self@.invites =~= old(self)@.invites);
            assert(self@.entries =~= old(self)@.entries);
        }
        Ok(())
    }

    /// Deletes an entry.
    pub fn delete_entry(&mut self, entry_id: Uid, budget_id: Uid) -> (r: Result<(), DaoError>)
        requires
            old(self)@.wf(),
        ensures
            final(self)@.wf(),
            match r {
                Ok(_) => has_entry(old(self)@.entries, entry_id, budget_id) && final(self)@ == (
                DaoState {
                    entries: old(self)@.entries.remove(
                        entry_at(old(self)@.entries, entry_id, budget_id),
                    ),
                    ..old(self)@
                }),
                Err(e) => e == DaoError::NotFound && !has_entry(
                    old(self)@.entries,
                    entry_id,
                    budget_id,
                ) && final(self)@ == old(self)@,
            },
    {
        let i = match find_entry_idx(&self.entries, entry_id, budget_id) {
            Some(i) => i,
            None => {
                assert(!has_entry(self@.entries, entry_id, budget_id));
                return Err(DaoError::NotFound);
            },
        };
        proof {
            lemma_entry_at_unique(self@.entries, entry_id, budget_id, i as int);
        }
        let _ = self.entries.remove(i);
        proof {
            let s0 = old(self)@;
            let s1 = self@;
            let ei = entry_at(s0.entries, entry_id, budget_id);
            assert(s1.entries =~= s0.entries.remove(ei));
            assert(s1.budgets =~= s0.budgets);
            assert(s1.access_keys =~= s0.access_keys);
            assert(s1.accept_keys =~= s0.accept_keys);
            assert(s1.invites =~= s0.invites);
            assert(s1.categories =~= s0.categories);
            assert forall|a: int, b: int| 0 <= a < b < s1.entries.len() implies (
            #[trigger] s1.entries[a]).id != (#[trigger] s1.entries[b]).id by {
                assert(s1.entries[a] == if a < ei {
                    s0.entries[a]
                } else {
                    s0.entries[a + 1]
                });
                assert(s1.entries[b] == if b < ei {
                    s0.entries[b]
                } else {
                    s0.entries[b + 1]
                });
            }
        }
        Ok(())
    }

    /// Deletes a category; entries filed under it stay, with no category.
    #[verifier::loop_isolation(false)]
    pub fn delete_category(&mut self, category_id: Uid, budget_id: Uid) -> (r: Result<
        (),
        DaoError,
    >)
        requires
            old(self)@.wf(),
        ensures
            final(self)@.wf(),
            match r {
                Ok(_) => has_category(old(self)@.categories, category_id, budget_id)
                    && final(self)@ == (DaoState {
                    categories: old(self)@.categories.remove(
                        category_at(old(self)@.categories, category_id, budget_id),
                    ),
                    entries: old(self)@.entries.map_values(
                        |e: EntryView| spec_clear_category(e, category_id, budget_id),
                    ),
                    ..old(self)@
                }),
                Err(e) => e == DaoError::NotFound && !has_category(
                    old(self)@.categories,
                    category_id,
                    budget_id,
                ) && final(self)@ == old(self)@,
            },
    {
        let i = match find_category_idx(&self.categories, category_id, budget_id) {
            Some(i) => i,
            None => {
                assert(!has_category(self@.categories, category_id, budget_id));
                return Err(DaoError::NotFound);
            },
        };
        proof {
            lemma_category_at_unique(self@.categories, category_id, budget_id, i as int);
        }
        let _ = self.categories.remove(i);
        let n = self.entries.len();
        let mut j: usize = 0;
        while j < n
            invariant
                n == self.entries@.len(),
                j <= n,
                self@.budgets == old(self)@.budgets,
                self@.access_keys == old(self)@.access_keys,
                self@.accept_keys == old(self)@.accept_keys,
                self@.invites == old(self)@.invites,
                self@.categories == old(self)@.categories.remove(
                    category_at(old(self)@.categories, category_id, budget_id),
                ),
                self@.entries.len() == old(self)@.entries.len(),
                forall|a: int|
                    0 <= a < j ==> #[trigger] self@.entries[a] == spec_clear_category(
                        old(self)@.entries[a],
                        category_id,
                        budget_id,
                    ),
                forall|a: int|
                    j <= a < n ==> #[trigger] self@.entries[a] == old(self)@.entries[a],
            decreases n - j,
        {
            let matches_cat = match self.entries[j].category_id {
                Some(cid) => cid == category_id && self.entries[j].budget_id == budget_id,
                None => false,
            };
            if matches_cat {
                let ghost ents0 = self@.entries;
                proof {
                    assert(ents0[j as int] == old(self)@.entries[j as int]);
                }
                let mut row = self.entries.remove(j);
                row.category_id = None;
                self.entries.insert(j, row);
                proof {
                    assert(row@ == spec_clear_category(
                        old(self)@.entries[j as int],
                        category_id,
                        budget_id,
                    ));
                    assert(self@.entries =~= ents0.update(j as int, row@));
                    assert(self@.entries =~= ents0.update(
                        j as int,
                        spec_clear_category(old(self)@.entries[j as int], category_id, budget_id),
                    ));
                }
            }
            j += 1;
        }
        proof {
            assert(self@.entries =~= old(self)@.entries.map_values(
                |e: EntryView| spec_clear_category(e, category_id, budget_id),
            ));
            let s0 = old(self)@;
            let s1 = self@;
            let ci = category_at(s0.categories, category_id, budget_id);
            assert forall|a: int, b: int| 0 <= a < b < s1.categories.len() implies (
            #[trigger] s1.categories[a]).id != (#[trigger] s1.categories[b]).id by {
                assert(s1.categories[a] == if a < ci {
                    s0.categories[a]
                } else {
                    s0.categories[a + 1]
                });
                assert(s1.categories[b] == if b < ci {
                    s0.categories[b]
                } else {
                    s0.categories[b + 1]
                });
            }
            assert forall|a: int, b: int| 0 <= a < b < s1.entries.len() implies (
            #[trigger] s1.entries[a]).id != (#[trigger] s1.entries[b]).id by {
                assert(s1.entries[a] == spec_clear_category(s0.entries[a], category_id, budget_id));
                assert(s1.entries[b] == spec_clear_category(s0.entries[b], category_id, budget_id));
            }
        }
        Ok(())
    }
}

/// The index of the capability key row keyed by `key_id` alone.
pub open spec fn access_key_id_at(s: Seq<AccessKeyView>, key_id: Uid) -> int {
    choose|i: int| 0 <= i < s.len() && (#[trigger] s[i]).key_id == key_id
}

/// Deletes the capability key row keyed by `key_id`, handing back the
/// budget it pointed at; `None` when there is no such row.
#[verifier::loop_isolation(false)]
pub fn delete_access_key_by_id(dao: &mut Dao, key_id: Uid) -> (r: Option<Uid>)
    requires
        old(dao)@.wf(),
    ensures
        final(dao)@.wf(),
        final(dao)@.budgets == old(dao)@.budgets,
        final(dao)@.accept_keys == old(dao)@.accept_keys,
        final(dao)@.invites == old(dao)@.invites,
        final(dao)@.entries == old(dao)@.entries,
        final(dao)@.categories == old(dao)@.categories,
        !has_access_key_id(final(dao)@.access_keys, key_id),
        match r {
            Some(budget_id) => has_access_key_id(old(dao)@.access_keys, key_id) && final(dao)@.access_keys == old(dao)@.access_keys.remove(
                access_key_id_at(old(dao)@.access_keys, key_id),
            ) && budget_id == old(dao)@.access_keys[access_key_id_at(
                old(dao)@.access_keys,
                key_id,
            )].budget_id,
            None => !has_access_key_id(old(dao)@.access_keys, key_id) && final(dao)@ == old(dao)@,
        },
{
    let n = dao.access_keys.len();
    let mut i: usize = 0;
    while i < n
        invariant
            *dao == *old(dao),
            n == dao.access_keys@.len(),
            i <= n,
            forall|j: int| 0 <= j < i ==> (#[trigger] dao@.access_keys[j]).key_id != key_id,
        decreases n - i,
    {
        if dao.access_keys[i].key_id == key_id {
            proof {
                lemma_access_key_id_at_unique(old(dao)@.access_keys, key_id, i as int);
            }
            let row = dao.access_keys.remove(i);
            let budget_id = row.budget_id;
            proof {
                let s0 = old(dao)@;
                let s1 = dao@;
                assert(s1.access_keys =~= s0.access_keys.remove(i as int));
                assert(s1.budgets =~= s0.budgets);
                assert(s1.accept_keys =~= s0.accept_keys);
                assert(s1.invites =~= s0.invites);
                assert(s1.entries =~= s0.entries);
                assert(s1.categories =~= s0.categories);
                assert(s0.access_keys[i as int].key_id == key_id);
                assert forall|a: int| 0 <= a < s1.access_keys.len() implies (
                #[trigger] s1.access_keys[a]).key_id != key_id by {
                    if a < i {
                        assert(s1.access_keys[a] == s0.access_keys[a]);
                    } else {
                        assert(s1.access_keys[a] == s0.access_keys[a + 1]);
                        assert(s0.access_keys[i as int].key_id != s0.access_keys[a + 1].key_id);
                    }
                }
                assert forall|a: int| 0 <= a < s1.access_keys.len() implies exists|k: int|
                    0 <= k < s0.access_keys.len() && #[trigger] s1.access_keys[a]
                        == s0.access_keys[k] by {
                    if a < i {
                        assert(s1.access_keys[a] == s0.access_keys[a]);
                    } else {
                        assert(s1.access_keys[a] == s0.access_keys[a + 1]);
                    }
                }
                assert forall|a: int, b: int| 0 <= a < b < s1.access_keys.len() implies (
                #[trigger] s1.access_keys[a]).key_id != (#[trigger] s1.access_keys[b]).key_id by {
                    assert(s1.access_keys[a] == if a < i {
                        s0.access_keys[a]
                    } else {
                        s0.access_keys[a + 1]
                    });
                    assert(s1.access_keys[b] == if b < i {
                        s0.access_keys[b]
                    } else {
                        s0.access_keys[b + 1]
                    });
                }
                assert forall|a: int, b: int|
                    0 <= a < s1.accept_keys.len() && 0 <= b < s1.access_keys.len() implies (
                #[trigger] s1.accept_keys[a]).key_id != (#[trigger] s1.access_keys[b]).key_id by {
                    assert(s1.access_keys[b] == if b < i {
                        s0.access_keys[b]
                    } else {
                        s0.access_keys[b + 1]
                    });
                }
            }
            return Some(budget_id);
        }
        i += 1;
    }
    assert(!has_access_key_id(dao@.access_keys, key_id));
    proof {
        assert forall|j: int| 0 <= j < dao@.access_keys.len() implies exists|k: int|
            0 <= k < old(dao)@.access_keys.len() && #[trigger] dao@.access_keys[j] == old(
                dao,
            )@.access_keys[k] by {
            assert(dao@.access_keys[j] == old(dao)@.access_keys[j]);
        }
    }
    None
}

/// With unique key ids, a found index is the chosen one.
proof fn lemma_access_key_id_at_unique(s: Seq<AccessKeyView>, key_id: Uid, i: int)
    requires
        forall|a: int, b: int|
            0 <= a < b < s.len() ==> (#[trigger] s[a]).key_id != (#[trigger] s[b]).key_id,
        0 <= i < s.len(),
        s[i].key_id == key_id,
    ensures
        has_access_key_id(s, key_id),
        access_key_id_at(s, key_id) == i,
{
    assert(has_access_key_id(s, key_id));
    let k = access_key_id_at(s, key_id);
    if k != i {
        if k < i {
            assert(s[k].key_id != s[i].key_id);
        } else {
            assert(s[i].key_id != s[k].key_id);
        }
    }
}

/// Is some capability key row bound to this budget?
pub open spec fn budget_has_keys(s: Seq<AccessKeyView>, budget_id: Uid) -> bool {
    exists|i: int| 0 <= i < s.len() && (#[trigger] s[i]).budget_id == budget_id
}

/// Deletes the budget row when no capability key points at it any more (a
/// budget whose last user left has no owner and falls).
#[verifier::loop_isolation(false)]
pub fn delete_budget_if_empty(dao: &mut Dao, budget_id: Uid)
    requires
        old(dao)@.wf(),
    ensures
        final(dao)@.wf(),
        final(dao)@.access_keys == old(dao)@.access_keys,
        final(dao)@.accept_keys == old(dao)@.accept_keys,
        final(dao)@.invites == old(dao)@.invites,
        final(dao)@.entries == old(dao)@.entries,
        final(dao)@.categories == old(dao)@.categories,
        budget_has_keys(old(dao)@.access_keys, budget_id) ==> final(dao)@ == old(dao)@,
        !budget_has_keys(old(dao)@.access_keys, budget_id) && has_budget(
            old(dao)@.budgets,
            budget_id,
        ) ==> final(dao)@.budgets == old(dao)@.budgets.remove(
            budget_at(old(dao)@.budgets, budget_id),
        ),
        !has_budget(old(dao)@.budgets, budget_id) ==> final(dao)@ == old(dao)@,
{
    let n = dao.access_keys.len();
    let mut i: usize = 0;
    while i < n
        invariant
            *dao == *old(dao),
            n == dao.access_keys@.len(),
            i <= n,
            forall|j: int| 0 <= j < i ==> (#[trigger] dao@.access_keys[j]).budget_id != budget_id,
        decreases n - i,
    {
        if dao.access_keys[i].budget_id == budget_id {
            assert(dao@.access_keys[i as int].budget_id == budget_id);
            assert(budget_has_keys(dao@.access_keys, budget_id));
            return ;
        }
        i += 1;
    }
    assert(!budget_has_keys(dao@.access_keys, budget_id));
    let m = dao.budgets.len();
    let mut i: usize = 0;
    while i < m
        invariant
            *dao == *old(dao),
            m == dao.budgets@.len(),
            i <= m,
            forall|j: int| 0 <= j < i ==> (#[trigger] dao@.budgets[j]).id != budget_id,
        decreases m - i,
    {
        if dao.budgets[i].id == budget_id {
            proof {
                lemma_budget_at_unique(old(dao)@.budgets, budget_id, i as int);
            }
            let _ = dao.budgets.remove(i);
            proof {
                let s0 = old(dao)@;
                let s1 = dao@;
                assert(s1.budgets =~= s0.budgets.remove(i as int));
                assert(s1.access_keys =~= s0.access_keys);
                assert(s1.accept_keys =~= s0.accept_keys);
                assert(s1.invites =~= s0.invites);
                assert(s1.entries =~= s0.entries);
                assert(s1.categories =~= s0.categories);
                assert forall|a: int, b: int| 0 <= a < b < s1.budgets.len() implies (
                #[trigger] s1.budgets[a]).id != (#[trigger] s1.budgets[b]).id by {
                    assert(s1.budgets[a] == if a < i {
                        s0.budgets[a]
                    } else {
                        s0.budgets[a + 1]
                    });
                    assert(s1.budgets[b] == if b < i {
                        s0.budgets[b]
                    } else {
                        s0.budgets[b + 1]
                    });
                }
            }
            return ;
        }
        i += 1;
    }
    assert(!has_budget(dao@.budgets, budget_id));
}

} // verus!
