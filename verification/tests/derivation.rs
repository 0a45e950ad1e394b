use anchor_lang::prelude::Pubkey;
use ledgerandpay::address::{copy_bytes, derive_expense_address, derive_group_address};
use ledgerandpay::Address;

fn program() -> Address {
    let id = Pubkey::from_str_const("4UUkEZrwe8PoseD6Ph7WuUHJJ1ob5P4WevNcpFZt2LTC");
    Address { bytes: id.to_bytes() }
}

fn named(n: u8) -> Address {
    Address { bytes: [n; 32] }
}

#[test]
fn group_address_is_the_program_address_of_its_seeds() {
    let creator = named(1);
    let seed = [7u8; 16];
    let (expected, bump) = Pubkey::find_program_address(
        &[b"group", &creator.bytes, &seed],
        &Pubkey::new_from_array(program().bytes),
    );
    let derived = derive_group_address(&program(), &creator, &seed);
    assert_eq!(derived, Some((Address { bytes: expected.to_bytes() }, bump)));
    assert_ne!(derived.unwrap().0, program());
    assert_ne!(derived.unwrap().0, creator);
}

#[test]
fn expense_address_is_the_program_address_of_its_seeds() {
    let group = named(3);
    let payer = named(4);
    let (expected, bump) = Pubkey::find_program_address(
        &[b"expense", &group.bytes, &payer.bytes, b"dinner"],
        &Pubkey::new_from_array(program().bytes),
    );
    let derived = derive_expense_address(&program(), &group, &payer, b"dinner");
    assert_eq!(derived, Some((Address { bytes: expected.to_bytes() }, bump)));
    assert_ne!(derived.unwrap().0, program());
}

#[test]
fn derived_address_reproduces_from_its_bump() {
    let creator = named(1);
    let seed = [7u8; 16];
    let (key, bump) = derive_group_address(&program(), &creator, &seed).unwrap();
    let again = Pubkey::create_program_address(
        &[b"group", &creator.bytes, &seed, &[bump]],
        &Pubkey::new_from_array(program().bytes),
    )
    .unwrap();
    assert_eq!(key.bytes, again.to_bytes());
}

#[test]
fn derivation_repeats() {
    let first = derive_group_address(&program(), &named(1), &[7; 16]);
    let second = derive_group_address(&program(), &named(1), &[7; 16]);
    assert!(first.is_some());
    assert_eq!(first, second);
    let first = derive_expense_address(&program(), &named(3), &named(4), b"dinner");
    let second = derive_expense_address(&program(), &named(3), &named(4), b"dinner");
    assert!(first.is_some());
    assert_eq!(first, second);
}

#[test]
fn group_address_changes_with_each_input() {
    let base = derive_group_address(&program(), &named(1), &[7; 16]).unwrap().0;
    let other_creator = derive_group_address(&program(), &named(2), &[7; 16]).unwrap().0;
    let other_seed = derive_group_address(&program(), &named(1), &[8; 16]).unwrap().0;
    let other_program = derive_group_address(&named(9), &named(1), &[7; 16]).unwrap().0;
    assert_ne!(base, other_creator);
    assert_ne!(base, other_seed);
    assert_ne!(base, other_program);
    assert_ne!(other_creator, other_seed);
}

#[test]
fn expense_address_changes_with_each_input() {
    let base = derive_expense_address(&program(), &named(3), &named(4), b"dinner").unwrap().0;
    let other_group =
        derive_expense_address(&program(), &named(5), &named(4), b"dinner").unwrap().0;
    let other_payer =
        derive_expense_address(&program(), &named(3), &named(5), b"dinner").unwrap().0;
    let other_text = derive_expense_address(&program(), &named(3), &named(4), b"lunch").unwrap().0;
    assert_ne!(base, other_group);
    assert_ne!(base, other_payer);
    assert_ne!(base, other_text);
}

#[test]
fn group_and_expense_namespaces_differ() {
    // the same bytes after the tag: 32 + 16 for a group, 32 + 16 for an expense
    let as_group = derive_group_address(&program(), &named(1), &[1; 16]).unwrap().0;
    let as_expense =
        derive_expense_address(&program(), &named(1), &Address { bytes: [1; 32] }, &[]).unwrap().0;
    assert_ne!(as_group, as_expense);
}

#[test]
fn oversized_seed_has_no_address() {
    let long = [b'd'; 33];
    assert_eq!(derive_expense_address(&program(), &named(3), &named(4), &long), None);
    let longest = [b'd'; 32];
    assert!(derive_expense_address(&program(), &named(3), &named(4), &longest).is_some());
}

#[test]
fn copy_bytes_copies() {
    assert_eq!(copy_bytes(&[1, 2, 3]), vec![1, 2, 3]);
    assert_eq!(copy_bytes(&[]), Vec::<u8>::new());
}
