use anchor_lang::prelude::Pubkey;
use ledgerandpay::address::{derive_expense_address, derive_group_address};
use ledgerandpay::{
    complete_settlement, create_group, create_group_at, join_group, log_expense, log_expense_at,
    remove_member, rename_group, settle_expense, Address, ExpenseError, GroupError, Ledger,
    LedgerError, SettlementError, Transfer,
};

fn program_key() -> Address {
    let id = Pubkey::from_str_const("4UUkEZrwe8PoseD6Ph7WuUHJJ1ob5P4WevNcpFZt2LTC");
    Address { bytes: id.to_bytes() }
}

fn person(n: u8) -> Address {
    Address { bytes: [n; 32] }
}

fn text(s: &str) -> String {
    String::from(s)
}

/// A ledger with the group "Trip" of A, which B has joined.
fn trip() -> (Ledger, Address) {
    let mut ledger = Ledger::new(program_key());
    let group =
        create_group(&mut ledger, person(b'A'), [b'S'; 16], text("Trip"), text(""), 10).unwrap();
    join_group(&mut ledger, group, person(b'B')).unwrap();
    (ledger, group)
}

#[test]
fn trip_scenario() {
    let a = person(b'A');
    let b = person(b'B');
    let seed = [b'S'; 16];
    let mut ledger = Ledger::new(program_key());

    let group = create_group(&mut ledger, a, seed, text("Trip"), text(""), 10).unwrap();
    assert_eq!(Some(group), derive_group_address(&program_key(), &a, &seed).map(|d| d.0));
    assert_eq!(join_group(&mut ledger, group, b), Ok(()));
    assert_eq!(ledger.group(&group).unwrap().participants, vec![a, b]);
    assert_eq!(ledger.group(&group).unwrap().group_name, "Trip");

    let expense =
        log_expense(&mut ledger, group, a, 101, vec![a, b], text("dinner"), 20).unwrap();
    let stored = ledger.expense(&expense).unwrap();
    assert_eq!(stored.shares, vec![51, 50]);
    assert_eq!(stored.amount, 101);
    assert_eq!(stored.payer, a);
    assert_eq!(stored.group, group);
    assert!(!stored.settled);

    let transfer = settle_expense(&mut ledger, group, expense, b, a).unwrap();
    assert_eq!(transfer, Transfer { from: b, to: a, amount: 50 });
    assert!(!ledger.expense(&expense).unwrap().settled);
    assert_eq!(complete_settlement(&mut ledger, group, expense, b, a, true), Ok(()));
    assert!(ledger.expense(&expense).unwrap().settled);

    assert_eq!(
        settle_expense(&mut ledger, group, expense, a, a),
        Err(LedgerError::Settlement(SettlementError::AlreadySettled))
    );
    assert_eq!(
        complete_settlement(&mut ledger, group, expense, a, a, true),
        Err(LedgerError::Settlement(SettlementError::AlreadySettled))
    );
    assert!(ledger.expense(&expense).unwrap().settled);
    assert_eq!(ledger.expense(&expense).unwrap().shares, vec![51, 50]);
}

#[test]
fn new_ledger_is_empty() {
    let ledger = Ledger::new(program_key());
    assert_eq!(ledger.len(), 0);
    assert_eq!(ledger.program_id(), program_key());
    assert!(!ledger.contains(&person(1)));
    assert!(ledger.group(&person(1)).is_none());
    assert!(ledger.expense(&person(1)).is_none());
}

#[test]
fn create_group_stores_record_at_derived_address() {
    let mut ledger = Ledger::new(program_key());
    let (key, bump) = derive_group_address(&program_key(), &person(1), &[2; 16]).unwrap();
    let made =
        create_group(&mut ledger, person(1), [2; 16], text("Flat"), text("rent and food"), 77);
    assert_eq!(made, Ok(key));
    assert_eq!(ledger.len(), 1);
    assert!(ledger.contains(&key));
    let group = ledger.group(&key).unwrap();
    assert_eq!(group.creator, person(1));
    assert_eq!(group.unique_seed, [2; 16]);
    assert_eq!(group.bump, bump);
    assert_eq!(group.group_name, "Flat");
    assert_eq!(group.description, "rent and food");
    assert_eq!(group.participants, vec![person(1)]);
    assert_eq!(group.created_at, 77);
    assert!(ledger.expense(&key).is_none());
}

#[test]
fn create_group_twice_already_exists() {
    let mut ledger = Ledger::new(program_key());
    let first = create_group(&mut ledger, person(1), [2; 16], text("Flat"), text(""), 77).unwrap();
    let again = create_group(&mut ledger, person(1), [2; 16], text("Other"), text(""), 78);
    assert_eq!(again, Err(LedgerError::AlreadyExists));
    assert_eq!(ledger.len(), 1);
    assert_eq!(ledger.group(&first).unwrap().group_name, "Flat");
    assert_eq!(ledger.group(&first).unwrap().created_at, 77);
}

#[test]
fn one_creator_may_own_several_groups() {
    let mut ledger = Ledger::new(program_key());
    let first = create_group(&mut ledger, person(1), [2; 16], text("Flat"), text(""), 77).unwrap();
    let second = create_group(&mut ledger, person(1), [3; 16], text("Trip"), text(""), 78).unwrap();
    assert_ne!(first, second);
    assert_eq!(ledger.len(), 2);
}

#[test]
fn create_group_validation_leaves_ledger_alone() {
    let mut ledger = Ledger::new(program_key());
    let r = create_group(&mut ledger, person(1), [2; 16], "n".repeat(33), text(""), 77);
    assert_eq!(r, Err(LedgerError::Group(GroupError::NameTooLong)));
    let r = create_group(&mut ledger, person(1), [2; 16], text("Flat"), "d".repeat(201), 77);
    assert_eq!(r, Err(LedgerError::Group(GroupError::DescriptionTooLong)));
    assert_eq!(ledger.len(), 0);
}

#[test]
fn create_group_without_address() {
    let mut ledger = Ledger::new(program_key());
    let r = create_group_at(&mut ledger, None, person(1), [2; 16], text("Flat"), text(""), 77);
    assert_eq!(r, Err(LedgerError::NoViableAddress));
    let r = create_group_at(&mut ledger, None, person(1), [2; 16], "n".repeat(33), text(""), 77);
    assert_eq!(r, Err(LedgerError::Group(GroupError::NameTooLong)));
    let at = Some((person(50), 9));
    let r = create_group_at(&mut ledger, at, person(1), [2; 16], text("Flat"), text(""), 77);
    assert_eq!(r, Ok(person(50)));
    assert_eq!(ledger.group(&person(50)).unwrap().bump, 9);
    let r = create_group_at(&mut ledger, at, person(2), [3; 16], text("Trip"), text(""), 78);
    assert_eq!(r, Err(LedgerError::AlreadyExists));
}

#[test]
fn group_operations_on_unknown_group() {
    let (mut ledger, _) = trip();
    let nowhere = person(99);
    assert_eq!(join_group(&mut ledger, nowhere, person(3)), Err(LedgerError::UnknownGroup));
    assert_eq!(
        rename_group(&mut ledger, nowhere, person(b'A'), text("x")),
        Err(LedgerError::UnknownGroup)
    );
    assert_eq!(
        remove_member(&mut ledger, nowhere, person(b'A'), person(b'B')),
        Err(LedgerError::UnknownGroup)
    );
    assert_eq!(
        log_expense(&mut ledger, nowhere, person(b'A'), 1, vec![person(b'A')], text("x"), 1),
        Err(LedgerError::UnknownGroup)
    );
}

#[test]
fn expense_address_is_no_group() {
    let (mut ledger, group) = trip();
    let a = person(b'A');
    let expense = log_expense(&mut ledger, group, a, 5, vec![a], text("tea"), 20).unwrap();
    assert_eq!(join_group(&mut ledger, expense, person(3)), Err(LedgerError::UnknownGroup));
    assert_eq!(rename_group(&mut ledger, expense, a, text("x")), Err(LedgerError::UnknownGroup));
    assert_eq!(
        settle_expense(&mut ledger, group, group, a, a),
        Err(LedgerError::UnknownExpense)
    );
    assert_eq!(ledger.expense(&expense).unwrap().amount, 5);
    assert_eq!(ledger.len(), 2);
}

#[test]
fn join_through_ledger() {
    let (mut ledger, group) = trip();
    assert_eq!(
        join_group(&mut ledger, group, person(b'B')),
        Err(LedgerError::Group(GroupError::AlreadyParticipant))
    );
    for n in 3..=5 {
        assert_eq!(join_group(&mut ledger, group, person(n)), Ok(()));
    }
    assert_eq!(ledger.group(&group).unwrap().participants.len(), 5);
    assert_eq!(
        join_group(&mut ledger, group, person(6)),
        Err(LedgerError::Group(GroupError::MaxParticipantsReached))
    );
    assert_eq!(
        ledger.group(&group).unwrap().participants,
        vec![person(b'A'), person(b'B'), person(3), person(4), person(5)]
    );
}

#[test]
fn rename_through_ledger() {
    let (mut ledger, group) = trip();
    assert_eq!(
        rename_group(&mut ledger, group, person(b'B'), text("Ours")),
        Err(LedgerError::Group(GroupError::NotAuthorized))
    );
    assert_eq!(
        rename_group(&mut ledger, group, person(b'A'), "n".repeat(33)),
        Err(LedgerError::Group(GroupError::NameTooLong))
    );
    assert_eq!(ledger.group(&group).unwrap().group_name, "Trip");
    assert_eq!(rename_group(&mut ledger, group, person(b'A'), text("Ours")), Ok(()));
    assert_eq!(ledger.group(&group).unwrap().group_name, "Ours");
    assert_eq!(ledger.group(&group).unwrap().participants, vec![person(b'A'), person(b'B')]);
}

#[test]
fn remove_through_ledger() {
    let (mut ledger, group) = trip();
    join_group(&mut ledger, group, person(3)).unwrap();
    assert_eq!(
        remove_member(&mut ledger, group, person(b'B'), person(3)),
        Err(LedgerError::Group(GroupError::NotAuthorized))
    );
    assert_eq!(
        remove_member(&mut ledger, group, person(b'A'), person(9)),
        Err(LedgerError::Group(GroupError::InvalidParticipant))
    );
    assert_eq!(remove_member(&mut ledger, group, person(b'A'), person(b'B')), Ok(()));
    assert_eq!(ledger.group(&group).unwrap().participants, vec![person(b'A'), person(3)]);
    // who has left may join again, now last
    assert_eq!(join_group(&mut ledger, group, person(b'B')), Ok(()));
    assert_eq!(
        ledger.group(&group).unwrap().participants,
        vec![person(b'A'), person(3), person(b'B')]
    );
}

#[test]
fn log_expense_stores_record_at_derived_address() {
    let (mut ledger, group) = trip();
    let a = person(b'A');
    let b = person(b'B');
    let (key, bump) = derive_expense_address(&program_key(), &group, &b, b"taxi").unwrap();
    assert_eq!(log_expense(&mut ledger, group, b, 7, vec![b, a], text("taxi"), 30), Ok(key));
    let stored = ledger.expense(&key).unwrap();
    assert_eq!(stored.bump, bump);
    assert_eq!(stored.participants, vec![b, a]);
    assert_eq!(stored.shares, vec![4, 3]);
    assert_eq!(stored.timestamp, 30);
    assert_eq!(stored.description, "taxi");
    // the group is read, not changed
    assert_eq!(ledger.group(&group).unwrap().participants, vec![a, b]);
}

#[test]
fn log_expense_twice_already_exists() {
    let (mut ledger, group) = trip();
    let a = person(b'A');
    let b = person(b'B');
    let first = log_expense(&mut ledger, group, a, 7, vec![a], text("taxi"), 30).unwrap();
    assert_eq!(
        log_expense(&mut ledger, group, a, 9, vec![a, b], text("taxi"), 31),
        Err(LedgerError::AlreadyExists)
    );
    assert_eq!(ledger.expense(&first).unwrap().amount, 7);
    // another payer or another description is another record
    let second = log_expense(&mut ledger, group, b, 9, vec![a, b], text("taxi"), 31).unwrap();
    let third = log_expense(&mut ledger, group, a, 9, vec![a, b], text("taxi 2"), 31).unwrap();
    assert_ne!(first, second);
    assert_ne!(first, third);
    assert_eq!(ledger.len(), 4);
}

#[test]
fn log_expense_validation_through_ledger() {
    let (mut ledger, group) = trip();
    let a = person(b'A');
    assert_eq!(
        log_expense(&mut ledger, group, a, 7, vec![a], "d".repeat(33), 30),
        Err(LedgerError::Expense(ExpenseError::DescriptionTooLong))
    );
    assert_eq!(
        log_expense(&mut ledger, group, a, 7, vec![], text("d"), 30),
        Err(LedgerError::Expense(ExpenseError::NoParticipants))
    );
    assert_eq!(
        log_expense(&mut ledger, group, a, 7, vec![a; 6], text("d"), 30),
        Err(LedgerError::Expense(ExpenseError::TooManyParticipants))
    );
    assert_eq!(
        log_expense(&mut ledger, group, person(9), 7, vec![a], text("d"), 30),
        Err(LedgerError::Expense(ExpenseError::NotGroupMember))
    );
    assert_eq!(
        log_expense(&mut ledger, group, a, 7, vec![a, person(9)], text("d"), 30),
        Err(LedgerError::Expense(ExpenseError::InvalidParticipant))
    );
    assert_eq!(ledger.len(), 1);
}

#[test]
fn log_expense_without_address() {
    let (mut ledger, group) = trip();
    let a = person(b'A');
    assert_eq!(
        log_expense_at(&mut ledger, None, group, a, 7, vec![a], text("d"), 30),
        Err(LedgerError::NoViableAddress)
    );
    assert_eq!(
        log_expense_at(&mut ledger, None, group, person(9), 7, vec![a], text("d"), 30),
        Err(LedgerError::Expense(ExpenseError::NotGroupMember))
    );
    assert_eq!(
        log_expense_at(&mut ledger, Some((group, 1)), group, a, 7, vec![a], text("d"), 30),
        Err(LedgerError::AlreadyExists)
    );
    assert_eq!(
        log_expense_at(&mut ledger, Some((person(60), 1)), group, a, 7, vec![a], text("d"), 30),
        Ok(person(60))
    );
    assert_eq!(ledger.expense(&person(60)).unwrap().bump, 1);
}

#[test]
fn removed_member_can_still_settle_old_expense() {
    let (mut ledger, group) = trip();
    let a = person(b'A');
    let b = person(b'B');
    let expense = log_expense(&mut ledger, group, a, 9, vec![a, b], text("tea"), 20).unwrap();
    remove_member(&mut ledger, group, a, b).unwrap();
    assert_eq!(
        settle_expense(&mut ledger, group, expense, b, a),
        Ok(Transfer { from: b, to: a, amount: 4 })
    );
}

#[test]
fn settlement_lookups() {
    let (mut ledger, group) = trip();
    let a = person(b'A');
    let b = person(b'B');
    let expense = log_expense(&mut ledger, group, a, 9, vec![a, b], text("tea"), 20).unwrap();
    let other = create_group(&mut ledger, b, [1; 16], text("Other"), text(""), 21).unwrap();
    assert_eq!(
        settle_expense(&mut ledger, person(99), expense, b, a),
        Err(LedgerError::UnknownGroup)
    );
    assert_eq!(
        settle_expense(&mut ledger, group, person(99), b, a),
        Err(LedgerError::UnknownExpense)
    );
    assert_eq!(
        settle_expense(&mut ledger, other, expense, b, a),
        Err(LedgerError::GroupMismatch)
    );
    assert_eq!(
        complete_settlement(&mut ledger, other, expense, b, a, true),
        Err(LedgerError::GroupMismatch)
    );
    assert!(!ledger.expense(&expense).unwrap().settled);
}

#[test]
fn settlement_refusals_through_ledger() {
    let (mut ledger, group) = trip();
    let a = person(b'A');
    let b = person(b'B');
    let expense = log_expense(&mut ledger, group, a, 9, vec![a, b], text("tea"), 20).unwrap();
    assert_eq!(
        settle_expense(&mut ledger, group, expense, person(3), a),
        Err(LedgerError::Settlement(SettlementError::NotParticipant))
    );
    assert_eq!(
        settle_expense(&mut ledger, group, expense, b, b),
        Err(LedgerError::Settlement(SettlementError::InvalidPayee))
    );
    assert_eq!(
        complete_settlement(&mut ledger, group, expense, person(3), a, true),
        Err(LedgerError::Settlement(SettlementError::NotParticipant))
    );
    assert!(!ledger.expense(&expense).unwrap().settled);
}

#[test]
fn failed_transfer_leaves_expense_unsettled() {
    let (mut ledger, group) = trip();
    let a = person(b'A');
    let b = person(b'B');
    let expense = log_expense(&mut ledger, group, a, 9, vec![a, b], text("tea"), 20).unwrap();
    assert!(settle_expense(&mut ledger, group, expense, b, a).is_ok());
    assert_eq!(
        complete_settlement(&mut ledger, group, expense, b, a, false),
        Err(LedgerError::Settlement(SettlementError::TransferFailed))
    );
    assert!(!ledger.expense(&expense).unwrap().settled);
    // the settlement can be submitted again
    assert_eq!(
        settle_expense(&mut ledger, group, expense, b, a),
        Ok(Transfer { from: b, to: a, amount: 4 })
    );
    assert_eq!(complete_settlement(&mut ledger, group, expense, b, a, true), Ok(()));
    assert!(ledger.expense(&expense).unwrap().settled);
}
