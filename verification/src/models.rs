//! The rows the store holds, and their mathematical views.
//!
//! Each row struct has a ghost view struct whose byte fields are sequences,
//! so that store transitions can be stated purely at the spec level.

use vstd::prelude::*;

use crate::bytes::subvec;
use crate::ids::Uid;

verus! {

/// A budget row: the encrypted blob and its digest.
#[derive(Debug)]
pub struct Budget {
    pub id: Uid,
    pub encrypted_blob: Vec<u8>,
    pub encrypted_blob_sha1_hash: Vec<u8>,
}

/// The view of a budget row.
pub ghost struct BudgetView {
    pub id: Uid,
    pub encrypted_blob: Seq<u8>,
    pub encrypted_blob_sha1_hash: Seq<u8>,
}

impl View for Budget {
    type V = BudgetView;

    open spec fn view(&self) -> BudgetView {
        BudgetView {
            id: self.id,
            encrypted_blob: self.encrypted_blob@,
            encrypted_blob_sha1_hash: self.encrypted_blob_sha1_hash@,
        }
    }
}

impl Budget {
    /// A field-for-field copy.
    pub fn duplicate(&self) -> (r: Budget)
        ensures
            r@ == self@,
    {
        Budget {
            id: self.id,
            encrypted_blob: crate::bytes::clone_bytes(&self.encrypted_blob),
            encrypted_blob_sha1_hash: crate::bytes::clone_bytes(&self.encrypted_blob_sha1_hash),
        }
    }
}

/// A capability key row: the source of truth for one user's right to a
/// budget.
#[derive(Debug)]
pub struct BudgetAccessKey {
    pub key_id: Uid,
    pub budget_id: Uid,
    pub public_key: Vec<u8>,
    pub read_only: bool,
}

/// The view of a capability key row.
pub ghost struct AccessKeyView {
    pub key_id: Uid,
    pub budget_id: Uid,
    pub public_key: Seq<u8>,
    pub read_only: bool,
}

impl View for BudgetAccessKey {
    type V = AccessKeyView;

    open spec fn view(&self) -> AccessKeyView {
        AccessKeyView {
            key_id: self.key_id,
            budget_id: self.budget_id,
            public_key: self.public_key@,
            read_only: self.read_only,
        }
    }
}

impl BudgetAccessKey {
    /// A field-for-field copy.
    pub fn duplicate(&self) -> (r: BudgetAccessKey)
        ensures
            r@ == self@,
    {
        BudgetAccessKey {
            key_id: self.key_id,
            budget_id: self.budget_id,
            public_key: crate::bytes::clone_bytes(&self.public_key),
            read_only: self.read_only,
        }
    }
}

/// An accept key row: the ephemeral public half that one invitation's
/// handshake is checked against.
#[derive(Debug)]
pub struct BudgetAcceptKey {
    pub key_id: Uid,
    pub budget_id: Uid,
    pub public_key: Vec<u8>,
    pub read_only: bool,
    pub expiration: u64,
}

/// The view of an accept key row.
pub ghost struct AcceptKeyView {
    pub key_id: Uid,
    pub budget_id: Uid,
    pub public_key: Seq<u8>,
    pub read_only: bool,
    pub expiration: u64,
}

impl View for BudgetAcceptKey {
    type V = AcceptKeyView;

    open spec fn view(&self) -> AcceptKeyView {
        AcceptKeyView {
            key_id: self.key_id,
            budget_id: self.budget_id,
            public_key: self.public_key@,
            read_only: self.read_only,
            expiration: self.expiration,
        }
    }
}

impl BudgetAcceptKey {
    /// A field-for-field copy.
    pub fn duplicate(&self) -> (r: BudgetAcceptKey)
        ensures
            r@ == self@,
    {
        BudgetAcceptKey {
            key_id: self.key_id,
            budget_id: self.budget_id,
            public_key: crate::bytes::clone_bytes(&self.public_key),
            read_only: self.read_only,
            expiration: self.expiration,
        }
    }
}

/// An invitation row.  Every payload but the identifiers is ciphertext under
/// the recipient's long-lived public key; the server relays them blindly.
/// `accept_key_id` binds the row to its accept key so that the pair is
/// deleted together on any terminal transition.
#[derive(Debug)]
pub struct BudgetShareInvite {
    pub id: Uid,
    pub recipient_user_email: String,
    pub sender_public_key: Vec<u8>,
    pub encryption_key_encrypted: Vec<u8>,
    pub budget_accept_private_key_encrypted: Vec<u8>,
    pub budget_info_encrypted: Vec<u8>,
    pub sender_info_encrypted: Vec<u8>,
    pub budget_accept_key_info_encrypted: Vec<u8>,
    pub budget_accept_key_id_encrypted: Vec<u8>,
    pub share_info_symmetric_key_encrypted: Vec<u8>,
    pub recipient_public_key_id_used_by_sender: Uid,
    pub recipient_public_key_id_used_by_server: Uid,
    pub accept_key_id: Uid,
}

/// The view of an invitation row.
pub ghost struct InviteView {
    pub id: Uid,
    pub recipient_user_email: Seq<char>,
    pub sender_public_key: Seq<u8>,
    pub encryption_key_encrypted: Seq<u8>,
    pub budget_accept_private_key_encrypted: Seq<u8>,
    pub budget_info_encrypted: Seq<u8>,
    pub sender_info_encrypted: Seq<u8>,
    pub budget_accept_key_info_encrypted: Seq<u8>,
    pub budget_accept_key_id_encrypted: Seq<u8>,
    pub share_info_symmetric_key_encrypted: Seq<u8>,
    pub recipient_public_key_id_used_by_sender: Uid,
    pub recipient_public_key_id_used_by_server: Uid,
    pub accept_key_id: Uid,
}

impl View for BudgetShareInvite {
    type V = InviteView;

    open spec fn view(&self) -> InviteView {
        InviteView {
            id: self.id,
            recipient_user_email: self.recipient_user_email@,
            sender_public_key: self.sender_public_key@,
            encryption_key_encrypted: self.encryption_key_encrypted@,
            budget_accept_private_key_encrypted: self.budget_accept_private_key_encrypted@,
            budget_info_encrypted: self.budget_info_encrypted@,
            sender_info_encrypted: self.sender_info_encrypted@,
            budget_accept_key_info_encrypted: self.budget_accept_key_info_encrypted@,
            budget_accept_key_id_encrypted: self.budget_accept_key_id_encrypted@,
            share_info_symmetric_key_encrypted: self.share_info_symmetric_key_encrypted@,
            recipient_public_key_id_used_by_sender: self.recipient_public_key_id_used_by_sender,
            recipient_public_key_id_used_by_server: self.recipient_public_key_id_used_by_server,
            accept_key_id: self.accept_key_id,
        }
    }
}

/// The share of an invitation the recipient may see when listing pending
/// invitations.
#[derive(Debug)]
pub struct BudgetShareInvitePublicData {
    pub id: Uid,
    pub budget_info_encrypted: Vec<u8>,
    pub sender_info_encrypted: Vec<u8>,
    pub share_info_symmetric_key_encrypted: Vec<u8>,
    pub budget_accept_key_info_encrypted: Vec<u8>,
    pub budget_accept_key_encrypted: Vec<u8>,
    pub budget_accept_key_id_encrypted: Vec<u8>,
    pub recipient_public_key_id_used_by_sender: Uid,
    pub recipient_public_key_id_used_by_server: Uid,
}

/// The view of the public share of an invitation.
pub ghost struct InvitePublicView {
    pub id: Uid,
    pub budget_info_encrypted: Seq<u8>,
    pub sender_info_encrypted: Seq<u8>,
    pub share_info_symmetric_key_encrypted: Seq<u8>,
    pub budget_accept_key_info_encrypted: Seq<u8>,
    pub budget_accept_key_encrypted: Seq<u8>,
    pub budget_accept_key_id_encrypted: Seq<u8>,
    pub recipient_public_key_id_used_by_sender: Uid,
    pub recipient_public_key_id_used_by_server: Uid,
}

impl View for BudgetShareInvitePublicData {
    type V = InvitePublicView;

    open spec fn view(&self) -> InvitePublicView {
        InvitePublicView {
            id: self.id,
            budget_info_encrypted: self.budget_info_encrypted@,
            sender_info_encrypted: self.sender_info_encrypted@,
            share_info_symmetric_key_encrypted: self.share_info_symmetric_key_encrypted@,
            budget_accept_key_info_encrypted: self.budget_accept_key_info_encrypted@,
            budget_accept_key_encrypted: self.budget_accept_key_encrypted@,
            budget_accept_key_id_encrypted: self.budget_accept_key_id_encrypted@,
            recipient_public_key_id_used_by_sender: self.recipient_public_key_id_used_by_sender,
            recipient_public_key_id_used_by_server: self.recipient_public_key_id_used_by_server,
        }
    }
}

/// The recipient-visible share of an invitation row.
pub open spec fn spec_public_data_of(v: InviteView) -> InvitePublicView {
    InvitePublicView {
        id: v.id,
        budget_info_encrypted: v.budget_info_encrypted,
        sender_info_encrypted: v.sender_info_encrypted,
        share_info_symmetric_key_encrypted: v.share_info_symmetric_key_encrypted,
        budget_accept_key_info_encrypted: v.budget_accept_key_info_encrypted,
        budget_accept_key_encrypted: v.budget_accept_private_key_encrypted,
        budget_accept_key_id_encrypted: v.budget_accept_key_id_encrypted,
        recipient_public_key_id_used_by_sender: v.recipient_public_key_id_used_by_sender,
        recipient_public_key_id_used_by_server: v.recipient_public_key_id_used_by_server,
    }
}

/// An entry row of a budget.
#[derive(Debug)]
pub struct Entry {
    pub id: Uid,
    pub budget_id: Uid,
    pub category_id: Option<Uid>,
    pub encrypted_blob: Vec<u8>,
    pub encrypted_blob_sha1_hash: Vec<u8>,
}

/// The view of an entry row.
pub ghost struct EntryView {
    pub id: Uid,
    pub budget_id: Uid,
    pub category_id: Option<Uid>,
    pub encrypted_blob: Seq<u8>,
    pub encrypted_blob_sha1_hash: Seq<u8>,
}

impl View for Entry {
    type V = EntryView;

    open spec fn view(&self) -> EntryView {
        EntryView {
            id: self.id,
            budget_id: self.budget_id,
            category_id: self.category_id,
            encrypted_blob: self.encrypted_blob@,
            encrypted_blob_sha1_hash: self.encrypted_blob_sha1_hash@,
        }
    }
}

/// A category row of a budget.
#[derive(Debug)]
pub struct Category {
    pub id: Uid,
    pub budget_id: Uid,
    pub encrypted_blob: Vec<u8>,
    pub encrypted_blob_sha1_hash: Vec<u8>,
}

/// The view of a category row.
pub ghost struct CategoryView {
    pub id: Uid,
    pub budget_id: Uid,
    pub encrypted_blob: Seq<u8>,
    pub encrypted_blob_sha1_hash: Seq<u8>,
}

impl View for Category {
    type V = CategoryView;

    open spec fn view(&self) -> CategoryView {
        CategoryView {
            id: self.id,
            budget_id: self.budget_id,
            encrypted_blob: self.encrypted_blob@,
            encrypted_blob_sha1_hash: self.encrypted_blob_sha1_hash@,
        }
    }
}

/// A category sent along with a new budget; the client-chosen `temp_id`
/// lets the caller match the returned real identifiers to its categories.
#[derive(Debug)]
pub struct CategoryWithTempId {
    pub temp_id: i32,
    pub encrypted_blob: Vec<u8>,
}

} // verus!
