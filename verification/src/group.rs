//! Group records and the operations of their lifecycle.

use crate::address::{contains_address, lemma_index_of_unique, Address};
use crate::GroupError;
use vstd::prelude::*;
use vstd::utf8::encode_utf8;

verus! {

/// Longest group name, in bytes.
pub const MAX_NAME_LEN: usize = 32;

/// Longest group description, in bytes.
pub const MAX_GROUP_DESCRIPTION_LEN: usize = 200;

/// Most participants a group can hold.
pub const MAX_GROUP_PARTICIPANTS: usize = 5;

/// Length of a text in bytes, as it is stored.
pub open spec fn byte_len(text: Seq<char>) -> nat {
    encode_utf8(text).len()
}

/// `list` with every occurrence of `member` taken out, the rest in order.
pub open spec fn without(list: Seq<Address>, member: Address) -> Seq<Address> {
    list.filter(|a: Address| a != member)
}

/// A group of principals who share expenses.
#[derive(Clone, Debug, PartialEq, Eq)]
pub struct GroupAccount {
    /// The founding principal.
    pub creator: Address,
    /// Seed chosen at creation; lets one creator own several groups.
    pub unique_seed: [u8; 16],
    /// Bump seed of the record's address.
    pub bump: u8,
    /// Display name, at most 32 bytes.
    pub group_name: String,
    /// Display description, at most 200 bytes.
    pub description: String,
    /// Members, in the order in which they joined.
    pub participants: Vec<Address>,
    /// When the group was created.
    pub created_at: i64,
}

impl GroupAccount {
    /// Bytes that a stored group record takes at most.
    pub const LEN: usize = 8 + 32 + 16 + 1 + 4 + 32 + 4 + 200 + 4 + (32 * 5) + 8;

    /// The record respects the bounds and no member is listed twice.
    pub open spec fn wf(&self) -> bool {
        &&& byte_len(self.group_name@) <= MAX_NAME_LEN
        &&& byte_len(self.description@) <= MAX_GROUP_DESCRIPTION_LEN
        &&& self.participants@.len() <= MAX_GROUP_PARTICIPANTS
        &&& self.participants@.no_duplicates()
    }

    /// Whether `who` is a participant.
    pub open spec fn has_member(&self, who: Address) -> bool {
        self.participants@.contains(who)
    }

    /// Whether `who` is a participant.
    pub fn is_member(&self, who: &Address) -> (r: bool)
        ensures
            r == self.has_member(*who),
    {
        contains_address(&self.participants, who)
    }
}

/// What a group creation is given: the founder, and the bump seed of the
/// address at which the new record will live.
pub struct CreateGroup {
    pub creator: Address,
    pub bump: u8,
}

/// What a join is given: the group, and the principal who joins.
pub struct JoinGroup {
    pub group: GroupAccount,
    pub joiner: Address,
}

/// What a rename is given: the group, and the caller who claims to be its
/// creator.
pub struct RenameGroup {
    pub group: GroupAccount,
    pub creator: Address,
}

/// What a removal is given: the group, and the caller who claims to be its
/// creator.
pub struct RemoveMember {
    pub group: GroupAccount,
    pub creator: Address,
}

/// Why, if at all, a group with this name and description is not founded.
pub open spec fn create_group_rejection(group_name: Seq<char>, description: Seq<char>) -> Option<
    GroupError,
> {
    if byte_len(group_name) > MAX_NAME_LEN {
        Some(GroupError::NameTooLong)
    } else if byte_len(description) > MAX_GROUP_DESCRIPTION_LEN {
        Some(GroupError::DescriptionTooLong)
    } else {
        None
    }
}

/// `group` is as its founding leaves it: the creator is its only
/// participant.
pub open spec fn founded(
    group: GroupAccount,
    creator: Address,
    bump: u8,
    unique_seed: [u8; 16],
    group_name: Seq<char>,
    description: Seq<char>,
    now: i64,
) -> bool {
    &&& group.creator == creator
    &&& group.unique_seed == unique_seed
    &&& group.bump == bump
    &&& group.group_name@ == group_name
    &&& group.description@ == description
    &&& group.participants@ == seq![creator]
    &&& group.created_at == now
}

/// Why, if at all, `joiner` cannot join `group`. An existing member is
/// turned away as such even where the group is also full.
pub open spec fn join_rejection(group: GroupAccount, joiner: Address) -> Option<GroupError> {
    if group.has_member(joiner) {
        Some(GroupError::AlreadyParticipant)
    } else if group.participants@.len() >= MAX_GROUP_PARTICIPANTS {
        Some(GroupError::MaxParticipantsReached)
    } else {
        None
    }
}

/// `after` is `before` with `joiner` added at the end of the participants.
pub open spec fn joined(before: GroupAccount, after: GroupAccount, joiner: Address) -> bool {
    &&& after.participants@ == before.participants@.push(joiner)
    &&& after == (GroupAccount { participants: after.participants, ..before })
}

/// Why, if at all, `caller` cannot rename `group` to `new_name`.
pub open spec fn rename_rejection(group: GroupAccount, caller: Address, new_name: Seq<char>)
    -> Option<GroupError> {
    if caller != group.creator {
        Some(GroupError::NotAuthorized)
    } else if byte_len(new_name) > MAX_NAME_LEN {
        Some(GroupError::NameTooLong)
    } else {
        None
    }
}

/// `after` is `before` under the name `new_name`.
pub open spec fn renamed(before: GroupAccount, after: GroupAccount, new_name: Seq<char>) -> bool {
    &&& after.group_name@ == new_name
    &&& after == (GroupAccount { group_name: after.group_name, ..before })
}

/// Why, if at all, `caller` cannot remove `member` from `group`.
pub open spec fn remove_rejection(group: GroupAccount, caller: Address, member: Address)
    -> Option<GroupError> {
    if caller != group.creator {
        Some(GroupError::NotAuthorized)
    } else if !group.has_member(member) {
        Some(GroupError::InvalidParticipant)
    } else {
        None
    }
}

/// `after` is `before` with `member` taken out of the participants, the
/// others in their order.
pub open spec fn removed(before: GroupAccount, after: GroupAccount, member: Address) -> bool {
    &&& after.participants@ == without(before.participants@, member)
    &&& after == (GroupAccount { participants: after.participants, ..before })
}

/// One step of `without`: what the last entry contributes.
proof fn lemma_without_last(list: Seq<Address>, member: Address)
    requires
        list.len() > 0,
    ensures
        without(list, member) == if list.last() != member {
            without(list.drop_last(), member).push(list.last())
        } else {
            without(list.drop_last(), member)
        },
{
    reveal(Seq::filter);
}

/// Taking out a value that does not occur leaves the list as it is.
proof fn lemma_without_absent(list: Seq<Address>, member: Address)
    requires
        !list.contains(member),
    ensures
        without(list, member) == list,
    decreases list.len(),
{
    if list.len() == 0 {
        reveal(Seq::filter);
    } else {
        let rest = list.drop_last();
        assert forall|i: int| 0 <= i < rest.len() implies rest[i] != member by {
            assert(list[i] == rest[i]);
        }
        lemma_without_absent(rest, member);
        lemma_without_last(list, member);
        assert(list.last() == list[list.len() - 1]);
        assert(rest.push(list.last()) =~= list);
    }
}

/// Dropping one position of a list without repetitions: the value that stood
/// there is gone, all others stay, and nothing is repeated.
proof fn lemma_remove_position(list: Seq<Address>, k: int)
    requires
        list.no_duplicates(),
        0 <= k < list.len(),
    ensures
        list.remove(k).len() == list.len() - 1,
        list.remove(k).no_duplicates(),
        !list.remove(k).contains(list[k]),
        forall|other: Address|
            other != list[k] ==> (#[trigger] list.remove(k).contains(other) <==> list.contains(
                other,
            )),
{
    let out = list.remove(k);
    assert forall|i: int| 0 <= i < out.len() implies out[i] == (if i < k {
        list[i]
    } else {
        list[i + 1]
    }) by {}
    assert forall|other: Address| other != list[k] && list.contains(other) implies out.contains(
        other,
    ) by {
        let i = list.index_of(other);
        if i < k {
            assert(out[i] == other);
        } else {
            assert(out[i - 1] == other);
        }
    }
}

/// In a list without repetitions, taking out a value that occurs removes
/// exactly the one position that holds it: the list gets shorter by one, the
/// value is gone, and all others stay, in their order.
pub proof fn lemma_without_member(list: Seq<Address>, member: Address)
    requires
        list.no_duplicates(),
        list.contains(member),
    ensures
        0 <= list.index_of(member) < list.len(),
        list[list.index_of(member)] == member,
        without(list, member) == list.remove(list.index_of(member)),
        without(list, member).len() == list.len() - 1,
        !without(list, member).contains(member),
        without(list, member).no_duplicates(),
        forall|other: Address|
            other != member ==> (#[trigger] without(list, member).contains(other)
                <==> list.contains(other)),
    decreases list.len(),
{
    let k = list.index_of(member);
    let rest = list.drop_last();
    lemma_without_last(list, member);
    if list.last() == member {
        lemma_index_of_unique(list, list.len() - 1);
        assert forall|i: int| 0 <= i < rest.len() implies rest[i] != member by {
            assert(list[i] == rest[i]);
        }
        lemma_without_absent(rest, member);
        assert(list.remove(k) =~= rest);
    } else {
        assert(rest[k] == member);
        lemma_without_member(rest, member);
        lemma_index_of_unique(rest, k);
        assert(rest.remove(k).push(list.last()) =~= list.remove(k));
    }
    lemma_remove_position(list, k);
}

/// Taking a value out of a list never adds an entry nor a repetition.
pub proof fn lemma_without_keeps_wf(list: Seq<Address>, member: Address)
    ensures
        without(list, member).len() <= list.len(),
        list.no_duplicates() ==> without(list, member).no_duplicates(),
{
    list.lemma_filter_len(|a: Address| a != member);
    if list.no_duplicates() {
        if list.contains(member) {
            lemma_without_member(list, member);
        } else {
            lemma_without_absent(list, member);
        }
    }
}

/// A group never holds more than five participants, nor one twice: a valid
/// group that takes a joiner, a new name or a removal stays valid.
pub proof fn lemma_group_stays_valid(
    before: GroupAccount,
    after: GroupAccount,
    who: Address,
    new_name: Seq<char>,
)
    requires
        before.wf(),
        ({
            ||| join_rejection(before, who) is None && joined(before, after, who)
            ||| byte_len(new_name) <= MAX_NAME_LEN && renamed(before, after, new_name)
            ||| removed(before, after, who)
        }),
    ensures
        after.wf(),
        after.participants@.len() <= 5,
{
    lemma_without_keeps_wf(before.participants@, who);
}

/// A joiner who is already a participant is turned away as such; one who is
/// not is turned away from a group that is full.
pub proof fn lemma_join_refusals(group: GroupAccount, joiner: Address)
    ensures
        group.has_member(joiner) ==> join_rejection(group, joiner) == Some(
            GroupError::AlreadyParticipant,
        ),
        !group.has_member(joiner) && group.participants@.len() >= 5 ==> join_rejection(
            group,
            joiner,
        ) == Some(GroupError::MaxParticipantsReached),
        !group.has_member(joiner) && group.participants@.len() < 5 ==> join_rejection(
            group,
            joiner,
        ) is None,
{
}

/// The creator cannot remove who is not a participant. Removing a
/// participant from a valid group makes it shorter by exactly one: the
/// member is gone, and the others stand as before, in their order.
pub proof fn lemma_removal(before: GroupAccount, after: GroupAccount, member: Address)
    requires
        before.wf(),
    ensures
        !before.has_member(member) ==> remove_rejection(before, before.creator, member) == Some(
            GroupError::InvalidParticipant,
        ),
        before.has_member(member) ==> remove_rejection(before, before.creator, member) is None,
        before.has_member(member) && removed(before, after, member) ==> {
            &&& after.participants@.len() == before.participants@.len() - 1
            &&& !after.has_member(member)
            &&& after.participants@ == before.participants@.remove(
                before.participants@.index_of(member),
            )
            &&& forall|other: Address|
                other != member ==> (#[trigger] after.has_member(other) <==> before.has_member(
                    other,
                ))
        },
{
    if before.has_member(member) && removed(before, after, member) {
        lemma_without_member(before.participants@, member);
    }
}

/// The creator of a valid group stays a participant through every join and
/// rename, and through every removal but the creator's own.
pub proof fn lemma_creator_stays(
    before: GroupAccount,
    after: GroupAccount,
    who: Address,
    new_name: Seq<char>,
)
    requires
        before.wf(),
        before.has_member(before.creator),
        ({
            ||| joined(before, after, who)
            ||| renamed(before, after, new_name)
            ||| removed(before, after, who) && who != before.creator
        }),
    ensures
        after.creator == before.creator,
        after.has_member(after.creator),
{
    let list = before.participants@;
    if joined(before, after, who) {
        let i = list.index_of(before.creator);
        assert(list.push(who)[i] == before.creator);
    } else if removed(before, after, who) && who != before.creator {
        if list.contains(who) {
            lemma_without_member(list, who);
        } else {
            lemma_without_absent(list, who);
        }
    }
}

/// Checks the name and the description of a group to be founded.
pub fn check_create_group(group_name: &String, description: &String) -> (r: Option<GroupError>)
    ensures
        r == create_group_rejection(group_name@, description@),
{
    if group_name.as_str().as_bytes().len() > MAX_NAME_LEN {
        return Some(GroupError::NameTooLong);
    }
    if description.as_str().as_bytes().len() > MAX_GROUP_DESCRIPTION_LEN {
        return Some(GroupError::DescriptionTooLong);
    }
    None
}

/// Founds a group: the creator is its only participant.
pub fn create_group_handler(
    ctx: &CreateGroup,
    unique_seed: [u8; 16],
    group_name: String,
    description: String,
    now: i64,
) -> (r: Result<GroupAccount, GroupError>)
    ensures
        match r {
            Ok(group) => {
                &&& create_group_rejection(group_name@, description@) is None
                &&& founded(
                    group,
                    ctx.creator,
                    ctx.bump,
                    unique_seed,
                    group_name@,
                    description@,
                    now,
                )
                &&& group.wf()
            },
            Err(e) => create_group_rejection(group_name@, description@) == Some(e),
        },
{
    if let Some(e) = check_create_group(&group_name, &description) {
        return Err(e);
    }
    let mut participants: Vec<Address> = Vec::new();
    participants.push(ctx.creator);
    assert(participants@ =~= seq![ctx.creator]);
    Ok(
        GroupAccount {
            creator: ctx.creator,
            unique_seed,
            bump: ctx.bump,
            group_name,
            description,
            participants,
            created_at: now,
        },
    )
}

/// Adds the joiner at the end of the participant list.
pub fn join_group_handler(ctx: &mut JoinGroup) -> (r: Result<(), GroupError>)
    ensures
        final(ctx).joiner == old(ctx).joiner,
        match r {
            Ok(()) => {
                &&& join_rejection(old(ctx).group, old(ctx).joiner) is None
                &&& joined(old(ctx).group, final(ctx).group, old(ctx).joiner)
            },
            Err(e) => {
                &&& join_rejection(old(ctx).group, old(ctx).joiner) == Some(e)
                &&& *final(ctx) == *old(ctx)
            },
        },
        old(ctx).group.wf() ==> final(ctx).group.wf(),
{
    if contains_address(&ctx.group.participants, &ctx.joiner) {
        return Err(GroupError::AlreadyParticipant);
    }
    if ctx.group.participants.len() >= MAX_GROUP_PARTICIPANTS {
        return Err(GroupError::MaxParticipantsReached);
    }
    ctx.group.participants.push(ctx.joiner);
    Ok(())
}

/// Gives the group a new name; only its creator may.
pub fn rename_group_handler(ctx: &mut RenameGroup, new_name: String) -> (r: Result<
    (),
    GroupError,
>)
    ensures
        final(ctx).creator == old(ctx).creator,
        match r {
            Ok(()) => {
                &&& rename_rejection(old(ctx).group, old(ctx).creator, new_name@) is None
                &&& renamed(old(ctx).group, final(ctx).group, new_name@)
            },
            Err(e) => {
                &&& rename_rejection(old(ctx).group, old(ctx).creator, new_name@) == Some(e)
                &&& *final(ctx) == *old(ctx)
            },
        },
        old(ctx).group.wf() ==> final(ctx).group.wf(),
{
    if ctx.creator != ctx.group.creator {
        return Err(GroupError::NotAuthorized);
    }
    if new_name.as_str().as_bytes().len() > MAX_NAME_LEN {
        return Err(GroupError::NameTooLong);
    }
    ctx.group.group_name = new_name;
    Ok(())
}

/// `list` without `member`, the others in their order.
fn remove_address(list: &Vec<Address>, member: &Address) -> (r: Vec<Address>)
    ensures
        r@ == without(list@, *member),
{
    let mut out: Vec<Address> = Vec::new();
    let mut i: usize = 0;
    assert(list@.subrange(0, 0) =~= Seq::<Address>::empty());
    reveal(Seq::filter);
    while i < list.len()
        invariant
            i <= list@.len(),
            out@ == without(list@.subrange(0, i as int), *member),
        decreases list@.len() - i,
    {
        let ghost before = list@.subrange(0, i as int);
        let ghost after = list@.subrange(0, i as int + 1);
        assert(after.drop_last() =~= before);
        assert(after.last() == list@[i as int]);
        reveal(Seq::filter);
        if list[i] != *member {
            out.push(list[i]);
        }
        i += 1;
    }
    assert(list@.subrange(0, list@.len() as int) =~= list@);
    out
}

/// Takes a member out of the group; only its creator may.
pub fn remove_member_handler(ctx: &mut RemoveMember, member: Address) -> (r: Result<
    (),
    GroupError,
>)
    ensures
        final(ctx).creator == old(ctx).creator,
        match r {
            Ok(()) => {
                &&& remove_rejection(old(ctx).group, old(ctx).creator, member) is None
                &&& removed(old(ctx).group, final(ctx).group, member)
            },
            Err(e) => {
                &&& remove_rejection(old(ctx).group, old(ctx).creator, member) == Some(e)
                &&& *final(ctx) == *old(ctx)
            },
        },
        old(ctx).group.wf() ==> final(ctx).group.wf(),
{
    if ctx.creator != ctx.group.creator {
        return Err(GroupError::NotAuthorized);
    }
    if !contains_address(&ctx.group.participants, &member) {
        return Err(GroupError::InvalidParticipant);
    }
    proof {
        lemma_without_keeps_wf(ctx.group.participants@, member);
    }
    ctx.group.participants = remove_address(&ctx.group.participants, &member);
    Ok(())
}

} // verus!
