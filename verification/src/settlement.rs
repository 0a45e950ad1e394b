//! Settlement of an expense: the checks, the transfer to ask for, and the
//! one-way step from unsettled to settled.
//!
//! The value transfer itself is done by a service outside this library. So
//! a settlement runs in two steps: `settle_expense_handler` decides whether
//! the caller may settle and which transfer that takes, and once the service
//! has answered, `conclude_settlement` records the outcome.

use crate::address::{contains_address, Address};
use crate::expense::Expense;
use vstd::prelude::*;

verus! {

/// Why a settlement was rejected.
#[derive(Clone, Copy, Debug, PartialEq, Eq, Structural)]
pub enum SettlementError {
    /// The expense has been settled before.
    AlreadySettled,
    /// The caller is not a participant of the expense.
    NotParticipant,
    /// The payee is not the payer of the expense.
    InvalidPayee,
    /// The expense lists no participant to divide the amount among.
    MathError,
    /// The transfer service reported a failure.
    TransferFailed,
}

/// What a settlement is given: the expense with the address of the group it
/// is settled under, the caller who pays, and the payee.
pub struct SettleExpense {
    pub group: Address,
    pub expense: Expense,
    pub payer: Address,
    pub payee: Address,
}

/// A transfer for the value transfer service to perform: `amount` from the
/// value account of `from` to that of `to`.
#[derive(Clone, Copy, Debug, PartialEq, Eq)]
pub struct Transfer {
    pub from: Address,
    pub to: Address,
    pub amount: u64,
}

/// What one settlement transfers: the amount divided by the number of
/// participants, rounded down, whatever share is stored for the caller.
pub open spec fn settlement_share(expense: Expense) -> Option<u64> {
    if expense.participants@.len() == 0 {
        None
    } else {
        Some((expense.amount as nat / expense.participants@.len()) as u64)
    }
}

/// Why, if at all, `caller` may not settle `expense` by paying `payee`. The
/// checks run in this order and the first that fails decides.
pub open spec fn settlement_rejection(expense: Expense, caller: Address, payee: Address)
    -> Option<SettlementError> {
    if expense.settled {
        Some(SettlementError::AlreadySettled)
    } else if !expense.participants@.contains(caller) {
        Some(SettlementError::NotParticipant)
    } else if payee != expense.payer {
        Some(SettlementError::InvalidPayee)
    } else if settlement_share(expense) is None {
        Some(SettlementError::MathError)
    } else {
        None
    }
}

/// A settled expense turns every settlement away as already settled. An
/// unsettled one turns away a caller who is not among its participants, and
/// a participant who names another payee than its payer.
pub proof fn lemma_settlement_refusals(expense: Expense, caller: Address, payee: Address)
    ensures
        expense.settled ==> settlement_rejection(expense, caller, payee) == Some(
            SettlementError::AlreadySettled,
        ),
        !expense.settled && !expense.participants@.contains(caller) ==> settlement_rejection(
            expense,
            caller,
            payee,
        ) == Some(SettlementError::NotParticipant),
        !expense.settled && expense.participants@.contains(caller) && payee != expense.payer
            ==> settlement_rejection(expense, caller, payee) == Some(
            SettlementError::InvalidPayee,
        ),
        !expense.settled && expense.participants@.contains(caller) && payee == expense.payer
            ==> settlement_rejection(expense, caller, payee) is None,
{
    if expense.participants@.contains(caller) {
        assert(expense.participants@.len() > 0);
    }
}

/// The first settlement is the last: once one participant has settled, the
/// expense turns every other caller away, whoever it is and whomever they
/// would pay.
pub proof fn lemma_settled_once(
    before: SettleExpense,
    after: SettleExpense,
    caller: Address,
    payee: Address,
)
    requires
        settlement_rejection(before.expense, before.payer, before.payee) is None,
        after == (SettleExpense { expense: Expense { settled: true, ..before.expense }, ..before }),
    ensures
        settlement_rejection(after.expense, caller, payee) == Some(
            SettlementError::AlreadySettled,
        ),
{
}

/// The amount that a settlement of `expense` transfers.
pub fn compute_share(expense: &Expense) -> (r: Result<u64, SettlementError>)
    ensures
        match r {
            Ok(share) => settlement_share(*expense) == Some(share),
            Err(e) => e == SettlementError::MathError && settlement_share(*expense) is None,
        },
{
    let count = expense.participants.len() as u64;
    match expense.amount.checked_div(count) {
        Some(share) => Ok(share),
        None => Err(SettlementError::MathError),
    }
}

/// Decides whether the caller may settle the expense, and if so, which
/// transfer the settlement takes. Changes nothing.
pub fn settle_expense_handler(ctx: &SettleExpense) -> (r: Result<Transfer, SettlementError>)
    ensures
        match r {
            Ok(transfer) => {
                &&& settlement_rejection(ctx.expense, ctx.payer, ctx.payee) is None
                &&& transfer.from == ctx.payer
                &&& transfer.to == ctx.payee
                &&& Some(transfer.amount) == settlement_share(ctx.expense)
            },
            Err(e) => settlement_rejection(ctx.expense, ctx.payer, ctx.payee) == Some(e),
        },
        r != Err::<Transfer, SettlementError>(SettlementError::MathError),
        r != Err::<Transfer, SettlementError>(SettlementError::TransferFailed),
{
    if ctx.expense.settled {
        return Err(SettlementError::AlreadySettled);
    }
    if !contains_address(&ctx.expense.participants, &ctx.payer) {
        return Err(SettlementError::NotParticipant);
    }
    if !ctx.payee.same(&ctx.expense.payer) {
        return Err(SettlementError::InvalidPayee);
    }
    let share = compute_share(&ctx.expense)?;
    Ok(Transfer { from: ctx.payer, to: ctx.payee, amount: share })
}

/// Records what became of the transfer that `settle_expense_handler` asked
/// for. The expense becomes settled if the transfer succeeded and the
/// settlement is still admissible; otherwise nothing changes.
pub fn conclude_settlement(ctx: &mut SettleExpense, transferred: bool) -> (r: Result<
    (),
    SettlementError,
>)
    ensures
        match r {
            Ok(()) => {
                &&& transferred
                &&& settlement_rejection(old(ctx).expense, old(ctx).payer, old(ctx).payee) is None
                &&& final(ctx).expense.settled
                &&& *final(ctx) == (SettleExpense {
                    expense: Expense { settled: true, ..old(ctx).expense },
                    ..*old(ctx)
                })
            },
            Err(e) => {
                &&& *final(ctx) == *old(ctx)
                &&& e == match settlement_rejection(
                    old(ctx).expense,
                    old(ctx).payer,
                    old(ctx).payee,
                ) {
                    Some(why) => why,
                    None => SettlementError::TransferFailed,
                }
                &&& settlement_rejection(old(ctx).expense, old(ctx).payer, old(ctx).payee)
                    is None ==> !transferred
            },
        },
{
    match settle_expense_handler(ctx) {
        Err(e) => Err(e),
        Ok(_) => {
            if transferred {
                ctx.expense.settled = true;
                Ok(())
            } else {
                Err(SettlementError::TransferFailed)
            }
        },
    }
}

} // verus!
