//! The record store: every group and expense, each at its derived address.

use crate::address::{
    derive_expense_address, derive_group_address, expense_address, group_address,
    lemma_index_of_unique, position_of, Address,
};
use crate::expense::{
    check_log_expense, log_expense_handler, log_expense_rejection, logged, Expense, ExpenseError,
    LogExpense,
};
use crate::group::{
    check_create_group, create_group_handler, create_group_rejection, founded, join_group_handler,
    join_rejection, joined, remove_member_handler, remove_rejection, removed, rename_group_handler,
    rename_rejection, renamed, CreateGroup, GroupAccount, JoinGroup, RemoveMember, RenameGroup,
};
use crate::settlement::{
    conclude_settlement, settle_expense_handler, settlement_rejection, settlement_share,
    SettleExpense, SettlementError, Transfer,
};
use crate::GroupError;
use vstd::prelude::*;
use vstd::utf8::encode_utf8;

verus! {

/// What an address of the store holds.
#[derive(Clone, Debug, PartialEq, Eq)]
pub enum Record {
    Group(GroupAccount),
    Expense(Expense),
}

/// Why an operation on the ledger was rejected.
#[derive(Clone, Copy, Debug, PartialEq, Eq, Structural)]
pub enum LedgerError {
    /// The group operation itself was rejected.
    Group(GroupError),
    /// The logging of the expense was rejected.
    Expense(ExpenseError),
    /// The settlement was rejected.
    Settlement(SettlementError),
    /// The address derived for a new record already holds a record.
    AlreadyExists,
    /// No address can be derived from the seeds of the new record.
    NoViableAddress,
    /// The address named as a group holds no group.
    UnknownGroup,
    /// The address named as an expense holds no expense.
    UnknownExpense,
    /// The expense belongs to another group than the one named.
    GroupMismatch,
}

/// The record store. Records are added and changed, never taken away.
pub struct Ledger {
    program_id: Address,
    keys: Vec<Address>,
    records: Vec<Record>,
}

impl View for Ledger {
    type V = Map<Address, Record>;

    /// The store as a map from address to record.
    closed spec fn view(&self) -> Map<Address, Record> {
        Map::new(
            |key: Address| self.keys@.contains(key),
            |key: Address| self.records@[self.keys@.index_of(key)],
        )
    }
}

/// A record respects the bounds of its kind.
pub open spec fn record_wf(record: Record) -> bool {
    match record {
        Record::Group(group) => group.wf(),
        Record::Expense(expense) => expense.wf(),
    }
}

/// `record` may stand at `key` under `program`: the address derived from
/// the fields that make up its seeds is `key`, with the record's bump.
pub open spec fn record_addressed(program: Address, key: Address, record: Record) -> bool {
    match record {
        Record::Group(group) => group_address(program, group.creator, group.unique_seed@)
            == Some((key, group.bump)),
        Record::Expense(expense) => expense_address(
            program,
            expense.group,
            expense.payer,
            encode_utf8(expense.description@),
        ) == Some((key, expense.bump)),
    }
}

/// What may become of a record: a group keeps its creator, seed, bump and
/// creation time; an expense keeps everything but `settled`, which is never
/// reset.
pub open spec fn record_evolves(before: Record, after: Record) -> bool {
    match before {
        Record::Group(old_group) => {
            &&& after matches Record::Group(new_group)
            &&& new_group.creator == old_group.creator
            &&& new_group.unique_seed == old_group.unique_seed
            &&& new_group.bump == old_group.bump
            &&& new_group.created_at == old_group.created_at
            &&& new_group.description == old_group.description
        },
        Record::Expense(old_expense) => {
            &&& after matches Record::Expense(new_expense)
            &&& new_expense == (Expense { settled: new_expense.settled, ..old_expense })
            &&& old_expense.settled ==> new_expense.settled
        },
    }
}

impl Ledger {
    /// The program under which the addresses of the store are derived.
    pub closed spec fn program(&self) -> Address {
        self.program_id
    }

    /// The representation is consistent: one record for each address, and
    /// no address twice.
    pub closed spec fn inv(&self) -> bool {
        &&& self.keys@.len() == self.records@.len()
        &&& self.keys@.no_duplicates()
    }

    /// The store is valid: every record respects the bounds of its kind, and
    /// every expense belongs to a group of the store.
    pub open spec fn wf(&self) -> bool {
        &&& self.inv()
        &&& forall|key: Address| #[trigger]
            self@.contains_key(key) ==> record_wf(self@[key])
        &&& forall|key: Address| #[trigger]
            self.expense_at(key) is Some ==> self.group_at(self.expense_at(key)->Some_0.group)
                is Some
    }

    /// Every record stands at the address derived from its own fields.
    pub open spec fn addressed(&self) -> bool {
        forall|key: Address| #[trigger]
            self@.contains_key(key) ==> record_addressed(self.program(), key, self@[key])
    }

    /// `self` comes after `before`: no record is gone, and each has changed
    /// only as `record_evolves` allows.
    pub open spec fn extends(&self, before: Ledger) -> bool {
        &&& self.program() == before.program()
        &&& forall|key: Address| #[trigger]
            before@.contains_key(key) ==> self@.contains_key(key) && record_evolves(
                before@[key],
                self@[key],
            )
    }

    /// The group at `key`, if `key` holds one.
    pub open spec fn group_at(&self, key: Address) -> Option<GroupAccount> {
        if self@.contains_key(key) {
            match self@[key] {
                Record::Group(group) => Some(group),
                Record::Expense(_) => None,
            }
        } else {
            None
        }
    }

    /// The expense at `key`, if `key` holds one.
    pub open spec fn expense_at(&self, key: Address) -> Option<Expense> {
        if self@.contains_key(key) {
            match self@[key] {
                Record::Group(_) => None,
                Record::Expense(expense) => Some(expense),
            }
        } else {
            None
        }
    }

    /// An empty store for the records of `program_id`.
    pub fn new(program_id: Address) -> (ledger: Ledger)
        ensures
            ledger.wf(),
            ledger.addressed(),
            ledger.program() == program_id,
            ledger@ == Map::<Address, Record>::empty(),
    {
        let ledger = Ledger { program_id, keys: Vec::new(), records: Vec::new() };
        assert(ledger@ =~= Map::<Address, Record>::empty());
        ledger
    }

    /// The program under which the addresses of the store are derived.
    pub fn program_id(&self) -> (id: Address)
        ensures
            id == self.program(),
    {
        self.program_id
    }

    /// How many records the store holds.
    pub fn len(&self) -> (n: usize)
        requires
            self.inv(),
        ensures
            n == self@.dom().len(),
            self@.dom().finite(),
    {
        proof {
            self.lemma_domain();
        }
        self.keys.len()
    }

    /// Whether `key` holds a record.
    pub fn contains(&self, key: &Address) -> (r: bool)
        ensures
            r == self@.contains_key(*key),
    {
        position_of(&self.keys, key).is_some()
    }

    /// The group at `key`, if `key` holds one.
    pub fn group(&self, key: &Address) -> (r: Option<&GroupAccount>)
        requires
            self.inv(),
        ensures
            match r {
                Some(group) => self.group_at(*key) == Some(*group),
                None => self.group_at(*key) is None,
            },
    {
        match position_of(&self.keys, key) {
            None => None,
            Some(i) => {
                proof {
                    lemma_index_of_unique(self.keys@, i as int);
                }
                match &self.records[i] {
                    Record::Group(group) => Some(group),
                    Record::Expense(_) => None,
                }
            },
        }
    }

    /// The expense at `key`, if `key` holds one.
    pub fn expense(&self, key: &Address) -> (r: Option<&Expense>)
        requires
            self.inv(),
        ensures
            match r {
                Some(expense) => self.expense_at(*key) == Some(*expense),
                None => self.expense_at(*key) is None,
            },
    {
        match position_of(&self.keys, key) {
            None => None,
            Some(i) => {
                proof {
                    lemma_index_of_unique(self.keys@, i as int);
                }
                match &self.records[i] {
                    Record::Group(_) => None,
                    Record::Expense(expense) => Some(expense),
                }
            },
        }
    }

    /// The addresses of the store are those of its key list.
    proof fn lemma_domain(&self)
        requires
            self.inv(),
        ensures
            self@.dom() == self.keys@.to_set(),
            self@.dom().finite(),
            self@.dom().len() == self.keys@.len(),
    {
        assert(self@.dom() =~= self.keys@.to_set());
        self.keys@.unique_seq_to_set();
    }

    /// The record listed at position `i` is the one that the map holds for
    /// the key listed there.
    proof fn lemma_record_at(&self, i: int)
        requires
            self.inv(),
            0 <= i < self.keys@.len(),
        ensures
            self@.contains_key(self.keys@[i]),
            self@[self.keys@[i]] == self.records@[i],
    {
        lemma_index_of_unique(self.keys@, i);
    }

    /// Adds a record at an address that holds none yet.
    fn insert(&mut self, key: Address, record: Record)
        requires
            old(self).inv(),
            !old(self)@.contains_key(key),
        ensures
            final(self).inv(),
            final(self).program() == old(self).program(),
            final(self)@ == old(self)@.insert(key, record),
    {
        self.keys.push(key);
        self.records.push(record);
        proof {
            let before = *old(self);
            let after = *self;
            assert(after.keys@.no_duplicates());
            assert forall|other: Address| after@.contains_key(other) implies #[trigger] after@[other]
                == before@.insert(key, record)[other] by {
                let k = after.keys@.index_of(other);
                lemma_index_of_unique(after.keys@, k);
                if other != key {
                    assert(before.keys@[k] == other);
                    lemma_index_of_unique(before.keys@, k);
                } else {
                    lemma_index_of_unique(after.keys@, after.keys@.len() - 1);
                }
            }
            assert forall|other: Address| before@.insert(key, record).contains_key(other) implies
                after@.contains_key(other) by {
                if other != key {
                    let k = before.keys@.index_of(other);
                    assert(after.keys@[k] == other);
                } else {
                    assert(after.keys@[after.keys@.len() - 1] == key);
                }
            }
            assert(after@ =~= before@.insert(key, record));
        }
    }

    /// Takes the record listed at position `i` out of the record list, to be
    /// put back by `put_back`.
    fn take(&mut self, i: usize) -> (record: Record)
        requires
            old(self).inv(),
            i < old(self).keys@.len(),
        ensures
            record == old(self).records@[i as int],
            final(self).keys == old(self).keys,
            final(self).program_id == old(self).program_id,
            final(self).records@ == old(self).records@.remove(i as int),
    {
        self.records.remove(i)
    }

    /// Puts a record where `take` left the gap in `before`.
    fn put_back(&mut self, i: usize, record: Record, Ghost(before): Ghost<Ledger>)
        requires
            before.inv(),
            i < before.keys@.len(),
            old(self).keys == before.keys,
            old(self).program_id == before.program_id,
            old(self).records@ == before.records@.remove(i as int),
        ensures
            final(self).inv(),
            final(self).keys == before.keys,
            final(self).program() == before.program(),
            final(self)@ == before@.insert(before.keys@[i as int], record),
            record == before.records@[i as int] ==> final(self)@ == before@,
    {
        self.records.insert(i, record);
        proof {
            let after = *self;
            let key = before.keys@[i as int];
            assert(after.records@ =~= before.records@.update(i as int, record));
            lemma_index_of_unique(before.keys@, i as int);
            assert forall|other: Address| after@.contains_key(other) implies #[trigger] after@[other]
                == before@.insert(key, record)[other] by {
                let k = after.keys@.index_of(other);
                lemma_index_of_unique(after.keys@, k);
            }
            assert(after@ =~= before@.insert(key, record));
            if record == before.records@[i as int] {
                assert(before@.insert(key, record) =~= before@);
            }
        }
    }

    /// A valid store stays valid where one of its records evolves into
    /// another valid record.
    proof fn lemma_update(before: Ledger, after: Ledger, key: Address, record: Record)
        requires
            before.wf(),
            after.inv(),
            after.program() == before.program(),
            before@.contains_key(key),
            after@ == before@.insert(key, record),
            record_wf(record),
            record_evolves(before@[key], record),
        ensures
            after.wf(),
            after.extends(before),
            before.addressed() && record_addressed(before.program(), key, record)
                ==> after.addressed(),
    {
        assert forall|other: Address| #[trigger] after.expense_at(other) is Some implies
            after.group_at(after.expense_at(other)->Some_0.group) is Some by {
            assert(before.expense_at(other) is Some);
            let owner = before.expense_at(other)->Some_0.group;
            assert(before.group_at(owner) is Some);
        }
    }

    /// A valid store stays valid where a valid record is added at a free
    /// address, an expense only for a group of the store.
    proof fn lemma_insert(before: Ledger, after: Ledger, key: Address, record: Record)
        requires
            before.wf(),
            after.inv(),
            after.program() == before.program(),
            !before@.contains_key(key),
            after@ == before@.insert(key, record),
            record_wf(record),
            record matches Record::Expense(expense) ==> before.group_at(expense.group) is Some,
        ensures
            after.wf(),
            after.extends(before),
            before.addressed() && record_addressed(before.program(), key, record)
                ==> after.addressed(),
    {
        assert forall|other: Address| #[trigger] after.expense_at(other) is Some implies
            after.group_at(after.expense_at(other)->Some_0.group) is Some by {
            if other != key {
                assert(before.expense_at(other) is Some);
                let owner = before.expense_at(other)->Some_0.group;
                assert(before.group_at(owner) is Some);
            }
        }
    }

    /// A store with the records of a valid store is valid.
    proof fn lemma_unchanged(before: Ledger, after: Ledger)
        requires
            before.wf(),
            after.inv(),
            after.program() == before.program(),
            after@ == before@,
        ensures
            after.wf(),
            after.extends(before),
            before.addressed() ==> after.addressed(),
    {
        assert forall|key: Address| #[trigger] after.expense_at(key) is Some implies
            after.group_at(after.expense_at(key)->Some_0.group) is Some by {
            assert(before.expense_at(key) is Some);
            assert(before.group_at(before.expense_at(key)->Some_0.group) is Some);
        }
    }

    /// Where every record stands at its derived address, two groups of one
    /// creator and one seed are one record, and so are two expenses of one
    /// group, payer and description.
    pub proof fn lemma_one_record_per_seeds(self, first: Address, second: Address)
        requires
            self.addressed(),
            self@.contains_key(first),
            self@.contains_key(second),
        ensures
            match (self@[first], self@[second]) {
                (Record::Group(a), Record::Group(b)) => a.creator == b.creator && a.unique_seed
                    == b.unique_seed ==> first == second,
                (Record::Expense(a), Record::Expense(b)) => a.group == b.group && a.payer
                    == b.payer && a.description@ == b.description@ ==> first == second,
                _ => true,
            },
    {
    }

    /// Where `key` is listed, if the store holds it.
    fn position(&self, key: &Address) -> (r: Option<usize>)
        requires
            self.inv(),
        ensures
            match r {
                Some(i) => {
                    &&& i < self.keys@.len()
                    &&& self.keys@[i as int] == *key
                    &&& self@.contains_key(*key)
                    &&& self@[*key] == self.records@[i as int]
                },
                None => !self@.contains_key(*key),
            },
    {
        let r = position_of(&self.keys, key);
        proof {
            if let Some(i) = r {
                self.lemma_record_at(i as int);
            }
        }
        r
    }
}

/// What `join_group` makes of the store `before`.
pub open spec fn join_group_post(
    before: Ledger,
    after: Ledger,
    group: Address,
    joiner: Address,
    r: Result<(), LedgerError>,
) -> bool {
    match before.group_at(group) {
        None => r == Err::<(), LedgerError>(LedgerError::UnknownGroup) && after@ == before@,
        Some(found) => match join_rejection(found, joiner) {
            Some(e) => r == Err::<(), LedgerError>(LedgerError::Group(e)) && after@ == before@,
            None => {
                &&& r == Ok::<(), LedgerError>(())
                &&& after.group_at(group) is Some
                &&& joined(found, after.group_at(group)->Some_0, joiner)
                &&& after@ == before@.insert(group, after@[group])
            },
        },
    }
}

/// Lets `joiner` join the group at `group`.
pub fn join_group(ledger: &mut Ledger, group: Address, joiner: Address) -> (r: Result<
    (),
    LedgerError,
>)
    requires
        old(ledger).wf(),
    ensures
        final(ledger).wf(),
        final(ledger).extends(*old(ledger)),
        old(ledger).addressed() ==> final(ledger).addressed(),
        join_group_post(*old(ledger), *final(ledger), group, joiner, r),
{
    let ghost before = *ledger;
    let i = match ledger.position(&group) {
        Some(i) => i,
        None => { return Err(LedgerError::UnknownGroup); },
    };
    match ledger.take(i) {
        Record::Expense(expense) => {
            ledger.put_back(i, Record::Expense(expense), Ghost(before));
            proof {
                Ledger::lemma_unchanged(before, *ledger);
            }
            Err(LedgerError::UnknownGroup)
        },
        Record::Group(found) => {
            let mut ctx = JoinGroup { group: found, joiner };
            let outcome = join_group_handler(&mut ctx);
            ledger.put_back(i, Record::Group(ctx.group), Ghost(before));
            proof {
                if outcome is Ok {
                    Ledger::lemma_update(before, *ledger, group, Record::Group(ctx.group));
                } else {
                    Ledger::lemma_unchanged(before, *ledger);
                }
            }
            match outcome {
                Ok(()) => Ok(()),
                Err(e) => Err(LedgerError::Group(e)),
            }
        },
    }
}

/// What `rename_group` makes of the store `before`.
pub open spec fn rename_group_post(
    before: Ledger,
    after: Ledger,
    group: Address,
    caller: Address,
    new_name: Seq<char>,
    r: Result<(), LedgerError>,
) -> bool {
    match before.group_at(group) {
        None => r == Err::<(), LedgerError>(LedgerError::UnknownGroup) && after@ == before@,
        Some(found) => match rename_rejection(found, caller, new_name) {
            Some(e) => r == Err::<(), LedgerError>(LedgerError::Group(e)) && after@ == before@,
            None => {
                &&& r == Ok::<(), LedgerError>(())
                &&& after.group_at(group) is Some
                &&& renamed(found, after.group_at(group)->Some_0, new_name)
                &&& after@ == before@.insert(group, after@[group])
            },
        },
    }
}

/// Renames the group at `group` on behalf of `caller`.
pub fn rename_group(ledger: &mut Ledger, group: Address, caller: Address, new_name: String) -> (r:
    Result<(), LedgerError>)
    requires
        old(ledger).wf(),
    ensures
        final(ledger).wf(),
        final(ledger).extends(*old(ledger)),
        old(ledger).addressed() ==> final(ledger).addressed(),
        rename_group_post(*old(ledger), *final(ledger), group, caller, new_name@, r),
{
    let ghost before = *ledger;
    let i = match ledger.position(&group) {
        Some(i) => i,
        None => { return Err(LedgerError::UnknownGroup); },
    };
    match ledger.take(i) {
        Record::Expense(expense) => {
            ledger.put_back(i, Record::Expense(expense), Ghost(before));
            proof {
                Ledger::lemma_unchanged(before, *ledger);
            }
            Err(LedgerError::UnknownGroup)
        },
        Record::Group(found) => {
            let mut ctx = RenameGroup { group: found, creator: caller };
            let outcome = rename_group_handler(&mut ctx, new_name);
            ledger.put_back(i, Record::Group(ctx.group), Ghost(before));
            proof {
                if outcome is Ok {
                    Ledger::lemma_update(before, *ledger, group, Record::Group(ctx.group));
                } else {
                    Ledger::lemma_unchanged(before, *ledger);
                }
            }
            match outcome {
                Ok(()) => Ok(()),
                Err(e) => Err(LedgerError::Group(e)),
            }
        },
    }
}

/// What `remove_member` makes of the store `before`.
pub open spec fn remove_member_post(
    before: Ledger,
    after: Ledger,
    group: Address,
    caller: Address,
    member: Address,
    r: Result<(), LedgerError>,
) -> bool {
    match before.group_at(group) {
        None => r == Err::<(), LedgerError>(LedgerError::UnknownGroup) && after@ == before@,
        Some(found) => match remove_rejection(found, caller, member) {
            Some(e) => r == Err::<(), LedgerError>(LedgerError::Group(e)) && after@ == before@,
            None => {
                &&& r == Ok::<(), LedgerError>(())
                &&& after.group_at(group) is Some
                &&& removed(found, after.group_at(group)->Some_0, member)
                &&& after@ == before@.insert(group, after@[group])
            },
        },
    }
}

/// Removes `member` from the group at `group` on behalf of `caller`.
pub fn remove_member(ledger: &mut Ledger, group: Address, caller: Address, member: Address) -> (r:
    Result<(), LedgerError>)
    requires
        old(ledger).wf(),
    ensures
        final(ledger).wf(),
        final(ledger).extends(*old(ledger)),
        old(ledger).addressed() ==> final(ledger).addressed(),
        remove_member_post(*old(ledger), *final(ledger), group, caller, member, r),
{
    let ghost before = *ledger;
    let i = match ledger.position(&group) {
        Some(i) => i,
        None => { return Err(LedgerError::UnknownGroup); },
    };
    match ledger.take(i) {
        Record::Expense(expense) => {
            ledger.put_back(i, Record::Expense(expense), Ghost(before));
            proof {
                Ledger::lemma_unchanged(before, *ledger);
            }
            Err(LedgerError::UnknownGroup)
        },
        Record::Group(found) => {
            let mut ctx = RemoveMember { group: found, creator: caller };
            let outcome = remove_member_handler(&mut ctx, member);
            ledger.put_back(i, Record::Group(ctx.group), Ghost(before));
            proof {
                if outcome is Ok {
                    Ledger::lemma_update(before, *ledger, group, Record::Group(ctx.group));
                } else {
                    Ledger::lemma_unchanged(before, *ledger);
                }
            }
            match outcome {
                Ok(()) => Ok(()),
                Err(e) => Err(LedgerError::Group(e)),
            }
        },
    }
}

/// What the founding of a group makes of the store `before`, where
/// `derived` is the address derived for the new record with its bump seed.
pub open spec fn create_group_post(
    before: Ledger,
    after: Ledger,
    derived: Option<(Address, u8)>,
    creator: Address,
    unique_seed: [u8; 16],
    group_name: Seq<char>,
    description: Seq<char>,
    now: i64,
    r: Result<Address, LedgerError>,
) -> bool {
    match create_group_rejection(group_name, description) {
        Some(e) => r == Err::<Address, LedgerError>(LedgerError::Group(e)) && after@ == before@,
        None => match derived {
            None => r == Err::<Address, LedgerError>(LedgerError::NoViableAddress) && after@
                == before@,
            Some((key, bump)) => if before@.contains_key(key) {
                r == Err::<Address, LedgerError>(LedgerError::AlreadyExists) && after@ == before@
            } else {
                &&& r == Ok::<Address, LedgerError>(key)
                &&& after.group_at(key) is Some
                &&& founded(
                    after.group_at(key)->Some_0,
                    creator,
                    bump,
                    unique_seed,
                    group_name,
                    description,
                    now,
                )
                &&& after@ == before@.insert(key, after@[key])
            },
        },
    }
}

/// Founds a group at the address `derived`, which the caller has derived
/// for it; `None` says that no address could be derived.
pub fn create_group_at(
    ledger: &mut Ledger,
    derived: Option<(Address, u8)>,
    creator: Address,
    unique_seed: [u8; 16],
    group_name: String,
    description: String,
    now: i64,
) -> (r: Result<Address, LedgerError>)
    requires
        old(ledger).wf(),
    ensures
        final(ledger).wf(),
        final(ledger).extends(*old(ledger)),
        old(ledger).addressed() && derived == group_address(
            old(ledger).program(),
            creator,
            unique_seed@,
        ) ==> final(ledger).addressed(),
        create_group_post(
            *old(ledger),
            *final(ledger),
            derived,
            creator,
            unique_seed,
            group_name@,
            description@,
            now,
            r,
        ),
{
    let ghost before = *ledger;
    proof {
        Ledger::lemma_unchanged(before, *ledger);
    }
    let (key, bump) = match derived {
        Some(found) => found,
        None => {
            return match check_create_group(&group_name, &description) {
                Some(e) => Err(LedgerError::Group(e)),
                None => Err(LedgerError::NoViableAddress),
            };
        },
    };
    let ctx = CreateGroup { creator, bump };
    match create_group_handler(&ctx, unique_seed, group_name, description, now) {
        Err(e) => Err(LedgerError::Group(e)),
        Ok(group) => {
            if ledger.contains(&key) {
                return Err(LedgerError::AlreadyExists);
            }
            ledger.insert(key, Record::Group(group));
            proof {
                Ledger::lemma_insert(before, *ledger, key, Record::Group(group));
            }
            Ok(key)
        },
    }
}

/// Founds the group of `creator` and `unique_seed` at its derived address.
pub fn create_group(
    ledger: &mut Ledger,
    creator: Address,
    unique_seed: [u8; 16],
    group_name: String,
    description: String,
    now: i64,
) -> (r: Result<Address, LedgerError>)
    requires
        old(ledger).wf(),
    ensures
        final(ledger).wf(),
        final(ledger).extends(*old(ledger)),
        old(ledger).addressed() ==> final(ledger).addressed(),
        create_group_post(
            *old(ledger),
            *final(ledger),
            group_address(old(ledger).program(), creator, unique_seed@),
            creator,
            unique_seed,
            group_name@,
            description@,
            now,
            r,
        ),
{
    let program_id = ledger.program_id();
    let derived = derive_group_address(&program_id, &creator, &unique_seed);
    create_group_at(ledger, derived, creator, unique_seed, group_name, description, now)
}

/// What the logging of an expense makes of the store `before`, where
/// `derived` is the address derived for the new record with its bump seed.
pub open spec fn log_expense_post(
    before: Ledger,
    after: Ledger,
    derived: Option<(Address, u8)>,
    group: Address,
    payer: Address,
    amount: u64,
    participants: Seq<Address>,
    description: Seq<char>,
    now: i64,
    r: Result<Address, LedgerError>,
) -> bool {
    match before.group_at(group) {
        None => r == Err::<Address, LedgerError>(LedgerError::UnknownGroup) && after@ == before@,
        Some(found) => match log_expense_rejection(
            found.participants@,
            payer,
            participants,
            description,
        ) {
            Some(e) => r == Err::<Address, LedgerError>(LedgerError::Expense(e)) && after@
                == before@,
            None => match derived {
                None => r == Err::<Address, LedgerError>(LedgerError::NoViableAddress) && after@
                    == before@,
                Some((key, bump)) => if before@.contains_key(key) {
                    r == Err::<Address, LedgerError>(LedgerError::AlreadyExists) && after@
                        == before@
                } else {
                    &&& r == Ok::<Address, LedgerError>(key)
                    &&& after.expense_at(key) is Some
                    &&& logged(
                        after.expense_at(key)->Some_0,
                        group,
                        payer,
                        bump,
                        amount,
                        participants,
                        description,
                        now,
                    )
                    &&& after@ == before@.insert(key, after@[key])
                },
            },
        },
    }
}

/// Logs an expense of `payer` against the group at `group`, at the address
/// `derived`, which the caller has derived for it; `None` says that no
/// address could be derived.
pub fn log_expense_at(
    ledger: &mut Ledger,
    derived: Option<(Address, u8)>,
    group: Address,
    payer: Address,
    amount: u64,
    participants: Vec<Address>,
    description: String,
    now: i64,
) -> (r: Result<Address, LedgerError>)
    requires
        old(ledger).wf(),
    ensures
        final(ledger).wf(),
        final(ledger).extends(*old(ledger)),
        old(ledger).addressed() && derived == expense_address(
            old(ledger).program(),
            group,
            payer,
            encode_utf8(description@),
        ) ==> final(ledger).addressed(),
        log_expense_post(
            *old(ledger),
            *final(ledger),
            derived,
            group,
            payer,
            amount,
            participants@,
            description@,
            now,
            r,
        ),
{
    let ghost before = *ledger;
    let i = match ledger.position(&group) {
        Some(i) => i,
        None => { return Err(LedgerError::UnknownGroup); },
    };
    match ledger.take(i) {
        Record::Expense(expense) => {
            ledger.put_back(i, Record::Expense(expense), Ghost(before));
            proof {
                Ledger::lemma_unchanged(before, *ledger);
            }
            Err(LedgerError::UnknownGroup)
        },
        Record::Group(found) => {
            let bump = match derived {
                Some((_, bump)) => bump,
                None => 0,
            };
            let ctx = LogExpense { payer, bump, group: found, group_key: group };
            let checked = check_log_expense(
                &ctx.group.participants,
                &payer,
                &participants,
                &description,
            );
            let decided = match (checked, derived) {
                (Some(e), _) => Err(LedgerError::Expense(e)),
                (None, None) => Err(LedgerError::NoViableAddress),
                (None, Some((key, _))) => {
                    if position_of(&ledger.keys, &key).is_some() {
                        Err(LedgerError::AlreadyExists)
                    } else {
                        match log_expense_handler(&ctx, amount, participants, description, now) {
                            Ok(expense) => Ok((key, expense)),
                            Err(e) => Err(LedgerError::Expense(e)),
                        }
                    }
                },
            };
            ledger.put_back(i, Record::Group(ctx.group), Ghost(before));
            proof {
                Ledger::lemma_unchanged(before, *ledger);
            }
            match decided {
                Err(e) => Err(e),
                Ok((key, expense)) => {
                    let ghost restored = *ledger;
                    ledger.insert(key, Record::Expense(expense));
                    proof {
                        Ledger::lemma_insert(restored, *ledger, key, Record::Expense(expense));
                    }
                    Ok(key)
                },
            }
        },
    }
}

/// Logs an expense of `payer` against the group at `group`, at its derived
/// address.
pub fn log_expense(
    ledger: &mut Ledger,
    group: Address,
    payer: Address,
    amount: u64,
    participants: Vec<Address>,
    description: String,
    now: i64,
) -> (r: Result<Address, LedgerError>)
    requires
        old(ledger).wf(),
    ensures
        final(ledger).wf(),
        final(ledger).extends(*old(ledger)),
        old(ledger).addressed() ==> final(ledger).addressed(),
        log_expense_post(
            *old(ledger),
            *final(ledger),
            expense_address(old(ledger).program(), group, payer, encode_utf8(description@)),
            group,
            payer,
            amount,
            participants@,
            description@,
            now,
            r,
        ),
{
    let program_id = ledger.program_id();
    let derived = derive_expense_address(
        &program_id,
        &group,
        &payer,
        description.as_str().as_bytes(),
    );
    log_expense_at(ledger, derived, group, payer, amount, participants, description, now)
}

/// Why, if at all, the store cannot hand the expense at `expense` to a
/// settlement under the group at `group`.
pub open spec fn settlement_lookup(ledger: Ledger, group: Address, expense: Address) -> Option<
    LedgerError,
> {
    if ledger.group_at(group) is None {
        Some(LedgerError::UnknownGroup)
    } else if ledger.expense_at(expense) is None {
        Some(LedgerError::UnknownExpense)
    } else if ledger.expense_at(expense)->Some_0.group != group {
        Some(LedgerError::GroupMismatch)
    } else {
        None
    }
}

/// Why, if at all, `caller` may not settle the expense at `expense` under
/// the group at `group` by paying `payee`.
pub open spec fn settle_expense_rejection(
    ledger: Ledger,
    group: Address,
    expense: Address,
    caller: Address,
    payee: Address,
) -> Option<LedgerError> {
    match settlement_lookup(ledger, group, expense) {
        Some(e) => Some(e),
        None => match settlement_rejection(ledger.expense_at(expense)->Some_0, caller, payee) {
            Some(e) => Some(LedgerError::Settlement(e)),
            None => None,
        },
    }
}

/// Takes the expense at `expense` out for a settlement, with the position
/// where it is to be put back.
fn take_for_settlement(ledger: &mut Ledger, group: Address, expense: Address) -> (r: Result<
    (usize, Expense),
    LedgerError,
>)
    requires
        old(ledger).wf(),
    ensures
        match r {
            Ok((i, found)) => {
                &&& settlement_lookup(*old(ledger), group, expense) is None
                &&& old(ledger).expense_at(expense) == Some(found)
                &&& i < old(ledger).keys@.len()
                &&& old(ledger).keys@[i as int] == expense
                &&& old(ledger).records@[i as int] == Record::Expense(found)
                &&& final(ledger).keys == old(ledger).keys
                &&& final(ledger).program_id == old(ledger).program_id
                &&& final(ledger).records@ == old(ledger).records@.remove(i as int)
            },
            Err(e) => settlement_lookup(*old(ledger), group, expense) == Some(e) && *final(ledger)
                == *old(ledger),
        },
{
    let ghost before = *ledger;
    if ledger.group(&group).is_none() {
        return Err(LedgerError::UnknownGroup);
    }
    let owner = match ledger.expense(&expense) {
        Some(found) => found.group,
        None => { return Err(LedgerError::UnknownExpense); },
    };
    if owner != group {
        return Err(LedgerError::GroupMismatch);
    }
    let i = match ledger.position(&expense) {
        Some(i) => i,
        None => { return Err(LedgerError::UnknownExpense); },
    };
    match ledger.take(i) {
        Record::Expense(found) => Ok((i, found)),
        Record::Group(found) => {
            ledger.put_back(i, Record::Group(found), Ghost(before));
            Err(LedgerError::UnknownExpense)
        },
    }
}

/// Decides whether `caller` may settle the expense at `expense` by paying
/// `payee`, and if so, which transfer the settlement takes. The store keeps
/// its records as they are; `complete_settlement` records the outcome of the
/// transfer.
pub fn settle_expense(
    ledger: &mut Ledger,
    group: Address,
    expense: Address,
    caller: Address,
    payee: Address,
) -> (r: Result<Transfer, LedgerError>)
    requires
        old(ledger).wf(),
    ensures
        final(ledger).wf(),
        final(ledger).extends(*old(ledger)),
        old(ledger).addressed() ==> final(ledger).addressed(),
        final(ledger)@ == old(ledger)@,
        match r {
            Ok(transfer) => {
                &&& settle_expense_rejection(*old(ledger), group, expense, caller, payee) is None
                &&& transfer.from == caller
                &&& transfer.to == payee
                &&& Some(transfer.amount) == settlement_share(
                    old(ledger).expense_at(expense)->Some_0,
                )
            },
            Err(e) => settle_expense_rejection(*old(ledger), group, expense, caller, payee)
                == Some(e),
        },
{
    let ghost before = *ledger;
    proof {
        Ledger::lemma_unchanged(before, *ledger);
    }
    let (i, found) = match take_for_settlement(ledger, group, expense) {
        Ok(taken) => taken,
        Err(e) => { return Err(e); },
    };
    let ctx = SettleExpense { group, expense: found, payer: caller, payee };
    let outcome = settle_expense_handler(&ctx);
    ledger.put_back(i, Record::Expense(ctx.expense), Ghost(before));
    proof {
        Ledger::lemma_unchanged(before, *ledger);
    }
    match outcome {
        Ok(transfer) => Ok(transfer),
        Err(e) => Err(LedgerError::Settlement(e)),
    }
}

/// What `complete_settlement` makes of the store `before`.
pub open spec fn complete_settlement_post(
    before: Ledger,
    after: Ledger,
    group: Address,
    expense: Address,
    caller: Address,
    payee: Address,
    transferred: bool,
    r: Result<(), LedgerError>,
) -> bool {
    match settle_expense_rejection(before, group, expense, caller, payee) {
        Some(e) => r == Err::<(), LedgerError>(e) && after@ == before@,
        None => if transferred {
            &&& r == Ok::<(), LedgerError>(())
            &&& after@ == before@.insert(
                expense,
                Record::Expense(Expense { settled: true, ..before.expense_at(expense)->Some_0 }),
            )
        } else {
            r == Err::<(), LedgerError>(
                LedgerError::Settlement(SettlementError::TransferFailed),
            ) && after@ == before@
        },
    }
}

/// Records what became of the transfer that `settle_expense` asked for: the
/// expense becomes settled if the transfer succeeded and the settlement is
/// still admissible; otherwise the store stays as it is.
pub fn complete_settlement(
    ledger: &mut Ledger,
    group: Address,
    expense: Address,
    caller: Address,
    payee: Address,
    transferred: bool,
) -> (r: Result<(), LedgerError>)
    requires
        old(ledger).wf(),
    ensures
        final(ledger).wf(),
        final(ledger).extends(*old(ledger)),
        old(ledger).addressed() ==> final(ledger).addressed(),
        complete_settlement_post(
            *old(ledger),
            *final(ledger),
            group,
            expense,
            caller,
            payee,
            transferred,
            r,
        ),
{
    let ghost before = *ledger;
    proof {
        Ledger::lemma_unchanged(before, *ledger);
    }
    let (i, found) = match take_for_settlement(ledger, group, expense) {
        Ok(taken) => taken,
        Err(e) => { return Err(e); },
    };
    let mut ctx = SettleExpense { group, expense: found, payer: caller, payee };
    let outcome = conclude_settlement(&mut ctx, transferred);
    ledger.put_back(i, Record::Expense(ctx.expense), Ghost(before));
    proof {
        if outcome is Ok {
            Ledger::lemma_update(before, *ledger, expense, Record::Expense(ctx.expense));
        } else {
            Ledger::lemma_unchanged(before, *ledger);
        }
    }
    match outcome {
        Ok(()) => Ok(()),
        Err(e) => Err(LedgerError::Settlement(e)),
    }
}

} // verus!
