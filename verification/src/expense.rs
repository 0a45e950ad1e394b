//! Expense records, the equal split, and the logging of an expense.

use crate::address::{contains_address, Address};
use crate::group::{byte_len, GroupAccount};
use vstd::prelude::*;

verus! {

/// Why the logging of an expense was rejected.
#[derive(Clone, Copy, Debug, PartialEq, Eq, Structural)]
pub enum ExpenseError {
    /// The description is longer than 32 bytes.
    DescriptionTooLong,
    /// No participant was listed.
    NoParticipants,
    /// More than five participants were listed.
    TooManyParticipants,
    /// The payer is not a participant of the group.
    NotGroupMember,
    /// A listed participant is not a participant of the group.
    InvalidParticipant,
}

/// An expense that one member logged on behalf of a group.
#[derive(Clone, Debug, PartialEq, Eq)]
pub struct Expense {
    /// Address of the group that the expense belongs to.
    pub group: Address,
    /// The member who logged the expense.
    pub payer: Address,
    /// The amount that is split.
    pub amount: u64,
    /// Who shares the expense, in the order given at logging.
    pub participants: Vec<Address>,
    /// What each participant owes; as long as `participants`.
    pub shares: Vec<u64>,
    /// At most 32 bytes; also a seed of the record's address.
    pub description: String,
    /// When the expense was logged.
    pub timestamp: i64,
    /// Set once, by the first successful settlement.
    pub settled: bool,
    /// Bump seed of the record's address.
    pub bump: u8,
}

impl Expense {
    /// Most participants an expense can list.
    pub const MAX_PARTICIPANTS: usize = 5;

    /// Longest description, in bytes.
    pub const MAX_DESCRIPTION: usize = 32;

    /// Bytes that a stored expense record takes at most.
    pub const LEN: usize = 8 + 32 + 32 + 8 + 4 + (32 * 5) + 4 + (8 * 5) + 4 + 32 + 8 + 1 + 1;

    /// The record is as logging leaves it: between one and five
    /// participants, the equal split of the amount as shares, a description
    /// short enough to be a seed.
    pub open spec fn wf(&self) -> bool {
        &&& 1 <= self.participants@.len() <= 5
        &&& self.shares@ == equal_split(self.amount, self.participants@.len())
        &&& byte_len(self.description@) <= 32
    }
}

/// The share of the participant listed at position `i` when `amount` is
/// split among `n`: the quotient, and one unit more for each of the first
/// `amount mod n` positions.
pub open spec fn share_at(amount: u64, n: nat, i: int) -> u64
    recommends
        n > 0,
{
    if i < amount as nat % n {
        (amount as nat / n + 1) as u64
    } else {
        (amount as nat / n) as u64
    }
}

/// The shares of `n` participants in `amount`, in the order listed.
pub open spec fn equal_split(amount: u64, n: nat) -> Seq<u64> {
    Seq::new(n, |i: int| share_at(amount, n, i))
}

/// The sum of the shares.
pub open spec fn total(shares: Seq<u64>) -> int
    decreases shares.len(),
{
    if shares.len() == 0 {
        0
    } else {
        total(shares.drop_last()) + shares.last()
    }
}

/// The first `k` shares of a split among `n` add up to `k` quotients and one
/// unit for each of them that lies among the first `amount mod n`.
proof fn lemma_prefix_total(amount: u64, n: nat, k: nat)
    requires
        n >= 1,
        k <= n,
    ensures
        total(equal_split(amount, n).subrange(0, k as int)) == k * (amount as nat / n) + (if k
            < amount as nat % n {
            k
        } else {
            amount as nat % n
        }),
    decreases k,
{
    let s = equal_split(amount, n);
    let base = amount as nat / n;
    let rem = amount as nat % n;
    if k > 0 {
        let shorter = (k - 1) as nat;
        lemma_prefix_total(amount, n, shorter);
        assert(s.subrange(0, k as int).drop_last() =~= s.subrange(0, shorter as int));
        assert(s.subrange(0, k as int).last() == share_at(amount, n, shorter as int));
        assert(base <= amount && base + 1 <= u64::MAX || rem == 0) by (nonlinear_arith)
            requires
                base == amount as nat / n,
                rem == amount as nat % n,
                n >= 1,
        ;
        assert(k * base == shorter * base + base) by (nonlinear_arith)
            requires
                k == shorter + 1,
        ;
    } else {
        assert(0 * base == 0) by (nonlinear_arith);
    }
}

/// An equal split hands out the whole amount and nothing more; no two shares
/// differ by more than one unit; and a share is never smaller than one listed
/// after it, so the units that the division leaves over go to those listed
/// first.
pub proof fn lemma_equal_split(amount: u64, n: nat)
    requires
        n >= 1,
    ensures
        equal_split(amount, n).len() == n,
        total(equal_split(amount, n)) == amount,
        forall|i: int, j: int|
            0 <= i < n && 0 <= j < n ==> #[trigger] equal_split(amount, n)[i]
                <= #[trigger] equal_split(amount, n)[j] + 1,
        forall|i: int, j: int|
            0 <= i <= j < n ==> #[trigger] equal_split(amount, n)[i] >= #[trigger] equal_split(
                amount,
                n,
            )[j],
        forall|i: int|
            0 <= i < n ==> #[trigger] equal_split(amount, n)[i] == amount as nat / n + (if i
                < amount as nat % n {
                1nat
            } else {
                0nat
            }),
{
    let s = equal_split(amount, n);
    let base = amount as nat / n;
    let rem = amount as nat % n;
    lemma_prefix_total(amount, n, n);
    assert(s.subrange(0, n as int) =~= s);
    assert(n * base + rem == amount && rem < n && (rem == 0 || base + 1 <= u64::MAX) && base
        <= u64::MAX) by (nonlinear_arith)
        requires
            base == amount as nat / n,
            rem == amount as nat % n,
            n >= 1,
    ;
}

/// Splits `amount` among `count` participants.
pub fn split_equally(amount: u64, count: usize) -> (shares: Vec<u64>)
    ensures
        shares@ == equal_split(amount, count as nat),
{
    let mut shares: Vec<u64> = Vec::new();
    if count == 0 {
        assert(shares@ =~= equal_split(amount, 0));
        return shares;
    }
    let n: u64 = count as u64;
    let base: u64 = amount / n;
    let rem: u64 = amount % n;
    let mut i: usize = 0;
    while i < count
        invariant
            i <= count,
            0 < count,
            n == count,
            base == amount as nat / count as nat,
            rem == amount as nat % count as nat,
            shares@.len() == i,
            forall|j: int| 0 <= j < i ==> shares@[j] == share_at(amount, count as nat, j),
        decreases count - i,
    {
        if (i as u64) < rem {
            assert(base < amount) by (nonlinear_arith)
                requires
                    base == amount as nat / n as nat,
                    rem == amount as nat % n as nat,
                    n > 0,
                    rem > 0,
            ;
            shares.push(base + 1);
        } else {
            shares.push(base);
        }
        i += 1;
    }
    assert(shares@ =~= equal_split(amount, count as nat));
    shares
}

/// What the logging of an expense is given: the payer, the bump seed of the
/// address at which the new record will live, and the group with its address.
pub struct LogExpense {
    pub payer: Address,
    pub bump: u8,
    pub group: GroupAccount,
    pub group_key: Address,
}

/// Why, if at all, an expense with these inputs is rejected. The checks run
/// in this order and the first that fails decides.
pub open spec fn log_expense_rejection(
    members: Seq<Address>,
    payer: Address,
    participants: Seq<Address>,
    description: Seq<char>,
) -> Option<ExpenseError> {
    if byte_len(description) > 32 {
        Some(ExpenseError::DescriptionTooLong)
    } else if participants.len() == 0 {
        Some(ExpenseError::NoParticipants)
    } else if participants.len() > 5 {
        Some(ExpenseError::TooManyParticipants)
    } else if !members.contains(payer) {
        Some(ExpenseError::NotGroupMember)
    } else if exists|i: int| 0 <= i < participants.len() && !members.contains(participants[i]) {
        Some(ExpenseError::InvalidParticipant)
    } else {
        None
    }
}

/// Whether every entry of `list` occurs in `members`.
pub fn all_members(members: &Vec<Address>, list: &Vec<Address>) -> (r: bool)
    ensures
        r == (forall|i: int| 0 <= i < list@.len() ==> members@.contains(list@[i])),
{
    let mut i: usize = 0;
    while i < list.len()
        invariant
            i <= list@.len(),
            forall|j: int| 0 <= j < i ==> members@.contains(list@[j]),
        decreases list@.len() - i,
    {
        if !contains_address(members, &list[i]) {
            return false;
        }
        i += 1;
    }
    true
}

/// An expense with a short enough description and one to five participants
/// is turned away for a payer who is not in the group, and, where the payer
/// is, for a listed participant who is not.
pub proof fn lemma_log_expense_refusals(
    members: Seq<Address>,
    payer: Address,
    participants: Seq<Address>,
    description: Seq<char>,
    absent: int,
)
    requires
        byte_len(description) <= 32,
        1 <= participants.len() <= 5,
    ensures
        !members.contains(payer) ==> log_expense_rejection(
            members,
            payer,
            participants,
            description,
        ) == Some(ExpenseError::NotGroupMember),
        members.contains(payer) && 0 <= absent < participants.len() && !members.contains(
            participants[absent],
        ) ==> log_expense_rejection(members, payer, participants, description) == Some(
            ExpenseError::InvalidParticipant,
        ),
        members.contains(payer) && (forall|i: int|
            0 <= i < participants.len() ==> members.contains(#[trigger] participants[i]))
            ==> log_expense_rejection(members, payer, participants, description) is None,
{
}

/// Runs the checks of an expense to be logged, in their order.
pub fn check_log_expense(
    members: &Vec<Address>,
    payer: &Address,
    participants: &Vec<Address>,
    description: &String,
) -> (r: Option<ExpenseError>)
    ensures
        r == log_expense_rejection(members@, *payer, participants@, description@),
{
    if description.as_str().as_bytes().len() > Expense::MAX_DESCRIPTION {
        return Some(ExpenseError::DescriptionTooLong);
    }
    let count = participants.len();
    if count == 0 {
        return Some(ExpenseError::NoParticipants);
    }
    if count > Expense::MAX_PARTICIPANTS {
        return Some(ExpenseError::TooManyParticipants);
    }
    if !contains_address(members, payer) {
        return Some(ExpenseError::NotGroupMember);
    }
    if !all_members(members, participants) {
        return Some(ExpenseError::InvalidParticipant);
    }
    None
}

/// `expense` is as logging leaves it: unsettled, with the equal split of the
/// amount as shares.
pub open spec fn logged(
    expense: Expense,
    group_key: Address,
    payer: Address,
    bump: u8,
    amount: u64,
    participants: Seq<Address>,
    description: Seq<char>,
    now: i64,
) -> bool {
    &&& expense.group == group_key
    &&& expense.payer == payer
    &&& expense.amount == amount
    &&& expense.participants@ == participants
    &&& expense.shares@ == equal_split(amount, participants.len())
    &&& expense.description@ == description
    &&& expense.timestamp == now
    &&& !expense.settled
    &&& expense.bump == bump
}

/// Logs an expense against the group and splits it in equal shares.
pub fn log_expense_handler(
    ctx: &LogExpense,
    amount: u64,
    participants: Vec<Address>,
    description: String,
    now: i64,
) -> (r: Result<Expense, ExpenseError>)
    ensures
        match r {
            Ok(exp) => {
                &&& log_expense_rejection(
                    ctx.group.participants@,
                    ctx.payer,
                    participants@,
                    description@,
                ) is None
                &&& logged(
                    exp,
                    ctx.group_key,
                    ctx.payer,
                    ctx.bump,
                    amount,
                    participants@,
                    description@,
                    now,
                )
                &&& exp.wf()
            },
            Err(e) => log_expense_rejection(
                ctx.group.participants@,
                ctx.payer,
                participants@,
                description@,
            ) == Some(e),
        },
{
    if let Some(e) = check_log_expense(
        &ctx.group.participants,
        &ctx.payer,
        &participants,
        &description,
    ) {
        return Err(e);
    }
    let count = participants.len();
    let shares = split_equally(amount, count);
    Ok(
        Expense {
            group: ctx.group_key,
            payer: ctx.payer,
            amount,
            participants,
            shares,
            description,
            timestamp: now,
            settled: false,
            bump: ctx.bump,
        },
    )
}

} // verus!
