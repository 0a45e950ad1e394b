//! A shared-expense ledger: groups of principals, expenses split in equal
//! shares, and one-way settlement, over records kept at derived addresses.
//!
//! The operations of the program are `create_group`, `join_group`,
//! `rename_group`, `remove_member`, `log_expense` and `settle_expense`
//! (concluded by `complete_settlement`). Each finds the records it works on
//! in a `Ledger`, runs the handler of the operation on them, and stores the
//! result.

use vstd::prelude::*;

pub mod address;
pub mod expense;
pub mod group;
pub mod ledger;
pub mod settlement;

pub use crate::address::Address;
pub use crate::expense::{log_expense_handler, Expense, ExpenseError, LogExpense};
pub use crate::group::{
    create_group_handler, join_group_handler, remove_member_handler, rename_group_handler,
};
pub use crate::group::{CreateGroup, GroupAccount, JoinGroup, RemoveMember, RenameGroup};
pub use crate::ledger::{
    complete_settlement, create_group, create_group_at, join_group, log_expense, log_expense_at,
    remove_member, rename_group, settle_expense,
};
pub use crate::ledger::{Ledger, LedgerError, Record};
pub use crate::settlement::{
    conclude_settlement, settle_expense_handler, SettleExpense, SettlementError, Transfer,
};

verus! {

/// Why an operation on a group was rejected.
#[derive(Clone, Copy, Debug, PartialEq, Eq, Structural)]
pub enum GroupError {
    /// The joiner is already a participant of the group.
    AlreadyParticipant,
    /// The group already has as many participants as it can hold.
    MaxParticipantsReached,
    /// The group name is longer than 32 bytes.
    NameTooLong,
    /// The description is longer than 200 bytes.
    DescriptionTooLong,
    /// The named member is not a participant of the group.
    InvalidParticipant,
    /// The payer is not a participant of the group.
    NotGroupMember,
    /// The caller is not the creator of the group.
    NotAuthorized,
}

} // verus!
