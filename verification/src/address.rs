//! Identities and derived storage addresses.
//!
//! Every record lives at an address computed from a namespace tag, the
//! identity that owns the record and further seed bytes. The computation
//! itself is the program-address search of the Solana SDK; this module fixes
//! which seeds go into it for each kind of record.

use anchor_lang::prelude::Pubkey;
use vstd::prelude::*;

verus! {

/// A 32-byte key: the identity of a principal or the address of a record.
#[derive(Clone, Copy, Debug)]
pub struct Address {
    pub bytes: [u8; 32],
}

impl View for Address {
    type V = Seq<u8>;

    open spec fn view(&self) -> Seq<u8> {
        self.bytes@
    }
}

impl Address {
    /// Byte-wise comparison.
    pub fn same(&self, other: &Address) -> (r: bool)
        ensures
            r == (self@ == other@),
            r == (*self == *other),
    {
        let mut i: usize = 0;
        while i < 32
            invariant
                i <= 32,
                forall|j: int| 0 <= j < i ==> self.bytes@[j] == other.bytes@[j],
            decreases 32 - i,
        {
            if self.bytes[i] != other.bytes[i] {
                return false;
            }
            i += 1;
        }
        assert(self.bytes@ =~= other.bytes@);
        assert(self.bytes =~= other.bytes);
        true
    }
}

impl PartialEq for Address {
    fn eq(&self, other: &Address) -> (r: bool) {
        self.same(other)
    }
}

impl Eq for Address {

}

impl vstd::std_specs::cmp::PartialEqSpecImpl for Address {
    open spec fn obeys_eq_spec() -> bool {
        true
    }

    open spec fn eq_spec(&self, other: &Address) -> bool {
        *self == *other
    }
}

/// Where `who` stands in `list`, if it occurs.
pub fn position_of(list: &Vec<Address>, who: &Address) -> (r: Option<usize>)
    ensures
        match r {
            Some(i) => i < list@.len() && list@[i as int] == *who && list@.contains(*who),
            None => !list@.contains(*who),
        },
{
    let mut i: usize = 0;
    while i < list.len()
        invariant
            i <= list@.len(),
            forall|j: int| 0 <= j < i ==> list@[j] != *who,
        decreases list@.len() - i,
    {
        if list[i] == *who {
            return Some(i);
        }
        i += 1;
    }
    None
}

/// Whether `who` occurs in `list`.
pub fn contains_address(list: &Vec<Address>, who: &Address) -> (r: bool)
    ensures
        r == list@.contains(*who),
{
    position_of(list, who).is_some()
}

/// In a list without repetitions a value is found where it stands.
pub proof fn lemma_index_of_unique(list: Seq<Address>, i: int)
    requires
        list.no_duplicates(),
        0 <= i < list.len(),
    ensures
        list.index_of(list[i]) == i,
{
    let k = list.index_of(list[i]);
    assert(0 <= k < list.len() && list[k] == list[i]);
}

/// Two addresses of the same bytes are the same address.
pub proof fn lemma_address_by_bytes(a: Address, b: Address)
    requires
        a@ == b@,
    ensures
        a == b,
{
    assert(a.bytes =~= b.bytes);
}

/// What the program-address search yields for `seeds` under `program_id`:
/// the address together with its bump seed, or `None` where the search finds
/// nothing.
pub uninterp spec fn program_address(seeds: Seq<Seq<u8>>, program_id: Seq<u8>) -> Option<
    (Seq<u8>, u8),
>;

/// Runs `Pubkey::try_find_program_address` on the given seeds.
///
/// Trusted: the search is a function of the seeds and the program id alone,
/// and its outcome is what `program_address` names. Nothing else is claimed
/// of it.
#[verifier::external_body]
fn try_find_program_address(seeds: &Vec<Vec<u8>>, program_id: &Address) -> (r: Option<
    (Address, u8),
>)
    ensures
        match r {
            Some((key, bump)) => program_address(seeds.deep_view(), program_id@) == Some(
                (key@, bump),
            ),
            None => program_address(seeds.deep_view(), program_id@) is None,
        },
{
    let parts: Vec<&[u8]> = seeds.iter().map(|s| s.as_slice()).collect();
    let found = Pubkey::try_find_program_address(
        &parts,
        &Pubkey::new_from_array(program_id.bytes),
    );
    found.map(|(key, bump)| (Address { bytes: key.to_bytes() }, bump))
}

/// The namespace tag of group records: the bytes of `group`.
pub open spec fn group_tag() -> Seq<u8> {
    seq![103u8, 114u8, 111u8, 117u8, 112u8]
}

/// The namespace tag of expense records: the bytes of `expense`.
pub open spec fn expense_tag() -> Seq<u8> {
    seq![101u8, 120u8, 112u8, 101u8, 110u8, 115u8, 101u8]
}

/// The seeds of a group record: tag, creator, the creator's chosen seed.
pub open spec fn group_seeds(creator: Seq<u8>, unique_seed: Seq<u8>) -> Seq<Seq<u8>> {
    seq![group_tag(), creator, unique_seed]
}

/// The seeds of an expense record: tag, owning group, payer, description.
pub open spec fn expense_seeds(group: Seq<u8>, payer: Seq<u8>, description: Seq<u8>) -> Seq<
    Seq<u8>,
> {
    seq![expense_tag(), group, payer, description]
}

/// The address that has these bytes.
pub open spec fn address_of(bytes: Seq<u8>) -> Address {
    choose|key: Address| key@ == bytes
}

/// A search result with its bytes taken as an address.
pub open spec fn as_derived(found: Option<(Seq<u8>, u8)>) -> Option<(Address, u8)> {
    match found {
        Some((bytes, bump)) => Some((address_of(bytes), bump)),
        None => None,
    }
}

/// Address and bump of the group that `creator` founds with `unique_seed`.
pub open spec fn group_address(program_id: Address, creator: Address, unique_seed: Seq<u8>)
    -> Option<(Address, u8)> {
    as_derived(program_address(group_seeds(creator@, unique_seed), program_id@))
}

/// Address and bump of the expense that `payer` logs against `group` under
/// a description of these bytes.
pub open spec fn expense_address(
    program_id: Address,
    group: Address,
    payer: Address,
    description: Seq<u8>,
) -> Option<(Address, u8)> {
    as_derived(program_address(expense_seeds(group@, payer@, description), program_id@))
}

/// An address is the address of its bytes.
pub proof fn lemma_address_of(key: Address)
    ensures
        address_of(key@) == key,
{
    lemma_address_by_bytes(address_of(key@), key);
}

/// Derivation is a function of its inputs: the same program, owner and seed
/// bytes give the same address and bump, for groups and for expenses.
pub proof fn lemma_derivation_repeats(
    program_id: Address,
    owner: Address,
    other_owner: Address,
    payer: Address,
    other_payer: Address,
    seed: Seq<u8>,
    other_seed: Seq<u8>,
)
    requires
        owner@ == other_owner@,
        payer@ == other_payer@,
        seed == other_seed,
    ensures
        group_address(program_id, owner, seed) == group_address(
            program_id,
            other_owner,
            other_seed,
        ),
        expense_address(program_id, owner, payer, seed) == expense_address(
            program_id,
            other_owner,
            other_payer,
            other_seed,
        ),
{
}

/// Copies a byte slice into a fresh vector.
pub fn copy_bytes(src: &[u8]) -> (r: Vec<u8>)
    ensures
        r@ == src@,
{
    let mut out: Vec<u8> = Vec::new();
    let mut i: usize = 0;
    while i < src.len()
        invariant
            i <= src@.len(),
            out@ == src@.subrange(0, i as int),
        decreases src@.len() - i,
    {
        out.push(src[i]);
        i += 1;
        assert(out@ =~= src@.subrange(0, i as int));
    }
    assert(src@.subrange(0, src@.len() as int) =~= src@);
    out
}

/// Derives where the group of `creator` and `unique_seed` lives.
pub fn derive_group_address(program_id: &Address, creator: &Address, unique_seed: &[u8; 16]) -> (r:
    Option<(Address, u8)>)
    ensures
        r == group_address(*program_id, *creator, unique_seed@),
{
    let mut seeds: Vec<Vec<u8>> = Vec::new();
    seeds.push(vec![103u8, 114u8, 111u8, 117u8, 112u8]);
    seeds.push(copy_bytes(creator.bytes.as_slice()));
    seeds.push(copy_bytes(unique_seed.as_slice()));
    assert(seeds.deep_view() =~~= group_seeds(creator@, unique_seed@));
    let r = try_find_program_address(&seeds, program_id);
    proof {
        if let Some((key, _)) = r {
            lemma_address_of(key);
        }
    }
    r
}

/// Derives where the expense of `payer` against `group` under
/// `description` lives.
pub fn derive_expense_address(
    program_id: &Address,
    group: &Address,
    payer: &Address,
    description: &[u8],
) -> (r: Option<(Address, u8)>)
    ensures
        r == expense_address(*program_id, *group, *payer, description@),
{
    let mut seeds: Vec<Vec<u8>> = Vec::new();
    seeds.push(vec![101u8, 120u8, 112u8, 101u8, 110u8, 115u8, 101u8]);
    seeds.push(copy_bytes(group.bytes.as_slice()));
    seeds.push(copy_bytes(payer.bytes.as_slice()));
    seeds.push(copy_bytes(description));
    assert(seeds.deep_view() =~~= expense_seeds(group@, payer@, description@));
    let r = try_find_program_address(&seeds, program_id);
    proof {
        if let Some((key, _)) = r {
            lemma_address_of(key);
        }
    }
    r
}

} // verus!
