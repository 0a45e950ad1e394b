use ledgerandpay::expense::check_log_expense;
use ledgerandpay::{log_expense_handler, Address, ExpenseError, GroupAccount, LogExpense};

fn id(n: u8) -> Address {
    Address { bytes: [n; 32] }
}

fn context(payer: u8) -> LogExpense {
    LogExpense {
        payer: id(payer),
        bump: 250,
        group: GroupAccount {
            creator: id(1),
            unique_seed: [9; 16],
            bump: 254,
            group_name: String::from("Trip"),
            description: String::new(),
            participants: vec![id(1), id(2), id(3)],
            created_at: 1000,
        },
        group_key: id(100),
    }
}

#[test]
fn log_fills_the_record() {
    let ctx = context(1);
    let exp =
        log_expense_handler(&ctx, 101, vec![id(1), id(2)], String::from("dinner"), 55).unwrap();
    assert_eq!(exp.group, id(100));
    assert_eq!(exp.payer, id(1));
    assert_eq!(exp.amount, 101);
    assert_eq!(exp.participants, vec![id(1), id(2)]);
    assert_eq!(exp.shares, vec![51, 50]);
    assert_eq!(exp.description, "dinner");
    assert_eq!(exp.timestamp, 55);
    assert!(!exp.settled);
    assert_eq!(exp.bump, 250);
}

#[test]
fn log_splits_in_listed_order() {
    let ctx = context(2);
    let exp =
        log_expense_handler(&ctx, 10, vec![id(3), id(1), id(2)], String::from("taxi"), 55).unwrap();
    assert_eq!(exp.participants, vec![id(3), id(1), id(2)]);
    assert_eq!(exp.shares, vec![4, 3, 3]);
}

#[test]
fn log_accepts_payer_outside_participants() {
    let ctx = context(3);
    let exp = log_expense_handler(&ctx, 9, vec![id(1), id(2)], String::from("x"), 55).unwrap();
    assert_eq!(exp.payer, id(3));
    assert_eq!(exp.shares, vec![5, 4]);
}

#[test]
fn log_rejects_long_description() {
    let ctx = context(1);
    let r = log_expense_handler(&ctx, 1, vec![id(1)], "d".repeat(33), 55);
    assert_eq!(r, Err(ExpenseError::DescriptionTooLong));
    let r = log_expense_handler(&ctx, 1, vec![id(1)], "d".repeat(32), 55);
    assert!(r.is_ok());
}

#[test]
fn log_rejects_empty_list() {
    let ctx = context(1);
    let r = log_expense_handler(&ctx, 1, vec![], String::from("d"), 55);
    assert_eq!(r, Err(ExpenseError::NoParticipants));
}

#[test]
fn log_rejects_six_participants() {
    let ctx = context(1);
    let r = log_expense_handler(&ctx, 1, vec![id(1); 6], String::from("d"), 55);
    assert_eq!(r, Err(ExpenseError::TooManyParticipants));
    let r = log_expense_handler(&ctx, 1, vec![id(1); 5], String::from("d"), 55);
    assert!(r.is_ok());
}

#[test]
fn log_rejects_payer_outside_group() {
    let ctx = context(8);
    let r = log_expense_handler(&ctx, 1, vec![id(1)], String::from("d"), 55);
    assert_eq!(r, Err(ExpenseError::NotGroupMember));
}

#[test]
fn log_rejects_participant_outside_group() {
    let ctx = context(1);
    let r = log_expense_handler(&ctx, 1, vec![id(1), id(8)], String::from("d"), 55);
    assert_eq!(r, Err(ExpenseError::InvalidParticipant));
}

#[test]
fn log_checks_run_in_order() {
    let outsider = context(8);
    // description before everything else
    let r = log_expense_handler(&outsider, 1, vec![], "d".repeat(33), 55);
    assert_eq!(r, Err(ExpenseError::DescriptionTooLong));
    // count before membership
    let r = log_expense_handler(&outsider, 1, vec![], String::from("d"), 55);
    assert_eq!(r, Err(ExpenseError::NoParticipants));
    let r = log_expense_handler(&outsider, 1, vec![id(9); 6], String::from("d"), 55);
    assert_eq!(r, Err(ExpenseError::TooManyParticipants));
    // payer before participants
    let r = log_expense_handler(&outsider, 1, vec![id(9)], String::from("d"), 55);
    assert_eq!(r, Err(ExpenseError::NotGroupMember));
}

#[test]
fn check_agrees_with_handler() {
    let ctx = context(1);
    let members = &ctx.group.participants;
    assert_eq!(check_log_expense(members, &id(1), &vec![id(2)], &String::from("d")), None);
    assert_eq!(
        check_log_expense(members, &id(1), &vec![id(7)], &String::from("d")),
        Some(ExpenseError::InvalidParticipant)
    );
    assert_eq!(
        check_log_expense(members, &id(7), &vec![id(2)], &String::from("d")),
        Some(ExpenseError::NotGroupMember)
    );
}
