//! Addresses of storage slots, and their derivation from seeds.
//!
//! An address is derived from an ordered list of byte-string seeds, the
//! identity of the owning program and a bump byte found by search. The
//! derivation itself (a hash and a curve test) is done by `Pubkey`; this
//! module names its results and fixes the seed lists of the four kinds of
//! address the store uses.
use anchor_lang::prelude::Pubkey;
use vstd::bytes::{spec_u64_to_le_bytes, u64_to_le_bytes};
use vstd::prelude::*;

verus! {

/// A 32-byte address: an identity that signs, or the place of a record.
#[derive(Clone, Copy, Debug, PartialEq, Eq, Hash)]
pub struct Address {
    pub bytes: [u8; 32],
}

impl View for Address {
    type V = Seq<u8>;

    open spec fn view(&self) -> Seq<u8> {
        self.bytes@
    }
}

impl Address {
    /// The address made of the given bytes.
    pub fn new(bytes: [u8; 32]) -> (a: Address)
        ensures
            a@ == bytes@,
    {
        Address { bytes }
    }

    /// Whether two addresses hold the same bytes.
    pub fn same(&self, other: &Address) -> (r: bool)
        ensures
            r == (self@ == other@),
    {
        let mut i: usize = 0;
        while i < 32
            invariant
                0 <= i <= 32,
                forall|j: int| 0 <= j < i ==> self.bytes@[j] == other.bytes@[j],
            decreases 32 - i,
        {
            if self.bytes[i] != other.bytes[i] {
                return false;
            }
            i += 1;
        }
        assert(self.bytes@ =~= other.bytes@);
        true
    }

    /// The bytes of the address, as a vector.
    pub fn to_vec(&self) -> (v: Vec<u8>)
        ensures
            v@ == self@,
    {
        let mut v: Vec<u8> = Vec::new();
        let mut i: usize = 0;
        while i < 32
            invariant
                0 <= i <= 32,
                v@ == self.bytes@.subrange(0, i as int),
            decreases 32 - i,
        {
            v.push(self.bytes[i]);
            assert(v@ =~= self.bytes@.subrange(0, i + 1));
            i += 1;
        }
        assert(v@ =~= self.bytes@);
        v
    }
}

/// The seeds as a sequence of byte strings.
pub open spec fn seeds_view(seeds: &Vec<Vec<u8>>) -> Seq<Seq<u8>> {
    seeds@.map_values(|seed: Vec<u8>| seed@)
}

/// The address and bump that `Pubkey::try_find_program_address` finds for
/// the seeds under the program, if it finds any.
pub uninterp spec fn found_address(seeds: Seq<Seq<u8>>, program: Seq<u8>) -> Option<(Seq<u8>, u8)>;

/// The address that `Pubkey::create_program_address` makes of the seeds
/// (the bump being the last of them) under the program, if it makes one.
pub uninterp spec fn created_address(seeds: Seq<Seq<u8>>, program: Seq<u8>) -> Option<Seq<u8>>;

/// Calls `Pubkey::try_find_program_address`, which searches the bumps from
/// 255 downwards for the first that, appended to the seeds, makes
/// `create_program_address` succeed. The contract names the outcome and
/// records that a found address is the one `create_program_address` makes
/// of the seeds followed by the found bump.
#[verifier::external_body]
fn try_find_program_address(seeds: &Vec<Vec<u8>>, program: &Address) -> (found: Option<(Address, u8)>)
    ensures
        match found {
            Some((address, bump)) => {
                &&& found_address(seeds_view(seeds), program@) == Some((address@, bump))
                &&& created_address(seeds_view(seeds).push(seq![bump]), program@) == Some(address@)
            },
            None => found_address(seeds_view(seeds), program@) is None,
        },
{
    let parts: Vec<&[u8]> = seeds.iter().map(|s| s.as_slice()).collect();
    Pubkey::try_find_program_address(&parts, &Pubkey::new_from_array(program.bytes))
        .map(|(key, bump)| (Address { bytes: key.to_bytes() }, bump))
}

/// Calls `Pubkey::create_program_address`, which hashes the seeds with the
/// program's identity and refuses seed lists that are too long and hashes
/// that lie on the curve. The contract names the outcome.
#[verifier::external_body]
fn create_program_address(seeds: &Vec<Vec<u8>>, program: &Address) -> (made: Option<Address>)
    ensures
        match made {
            Some(address) => created_address(seeds_view(seeds), program@) == Some(address@),
            None => created_address(seeds_view(seeds), program@) is None,
        },
{
    let parts: Vec<&[u8]> = seeds.iter().map(|s| s.as_slice()).collect();
    Pubkey::create_program_address(&parts, &Pubkey::new_from_array(program.bytes))
        .ok()
        .map(|key| Address { bytes: key.to_bytes() })
}

/// Whether re-deriving with the bump confirms a derivation: the seeds,
/// followed by the bump, make the same address.
pub open spec fn confirmed(seeds: Seq<Seq<u8>>, program: Seq<u8>, found: (Seq<u8>, u8)) -> bool {
    created_address(seeds.push(seq![found.1]), program) == Some(found.0)
}

/// The view of a derived address and its bump.
pub open spec fn derived_view(d: Option<(Address, u8)>) -> Option<(Seq<u8>, u8)> {
    match d {
        Some((address, bump)) => Some((address@, bump)),
        None => None,
    }
}

/// The view of an address that may be missing.
pub open spec fn address_view(a: Option<Address>) -> Option<Seq<u8>> {
    match a {
        Some(address) => Some(address@),
        None => None,
    }
}

/// Derives the canonical address of the seeds under the program, with the
/// bump that was found for it.
pub fn derive_address(seeds: &Vec<Vec<u8>>, program: &Address) -> (d: Option<(Address, u8)>)
    ensures
        derived_view(d) == found_address(seeds_view(seeds), program@),
        d matches Some((address, bump)) ==> confirmed(
            seeds_view(seeds),
            program@,
            (address@, bump),
        ),
{
    try_find_program_address(seeds, program)
}

/// Re-derives the address of the seeds under the program with a bump that
/// is already known, without searching.
pub fn rederive_address(seeds: &Vec<Vec<u8>>, bump: u8, program: &Address) -> (a: Option<Address>)
    ensures
        address_view(a) == created_address(seeds_view(seeds).push(seq![bump]), program@),
{
    let mut with_bump: Vec<Vec<u8>> = Vec::new();
    let mut i: usize = 0;
    while i < seeds.len()
        invariant
            0 <= i <= seeds.len(),
            with_bump@.len() == i,
            forall|j: int| 0 <= j < i ==> with_bump@[j]@ == seeds@[j]@,
        decreases seeds.len() - i,
    {
        let seed = copy_bytes(&seeds[i]);
        with_bump.push(seed);
        i += 1;
    }
    let mut last: Vec<u8> = Vec::new();
    last.push(bump);
    assert(last@ =~= seq![bump]);
    with_bump.push(last);
    assert(seeds_view(&with_bump) =~= seeds_view(seeds).push(seq![bump]));
    create_program_address(&with_bump, program)
}

/// A copy of the bytes.
pub(crate) fn copy_bytes(bytes: &Vec<u8>) -> (copy: Vec<u8>)
    ensures
        copy@ == bytes@,
{
    let mut copy: Vec<u8> = Vec::new();
    let mut i: usize = 0;
    while i < bytes.len()
        invariant
            0 <= i <= bytes.len(),
            copy@ == bytes@.subrange(0, i as int),
        decreases bytes.len() - i,
    {
        copy.push(bytes[i]);
        assert(copy@ =~= bytes@.subrange(0, i + 1));
        i += 1;
    }
    assert(copy@ =~= bytes@);
    copy
}

/// The seed that marks the address of a reply counter: the text
/// `counter`.
pub open spec fn counter_seed() -> Seq<u8> {
    seq![99u8, 111u8, 117u8, 110u8, 116u8, 101u8, 114u8]
}

/// The seed that marks the address of the reward mint: the text `mint`.
pub open spec fn mint_seed() -> Seq<u8> {
    seq![109u8, 105u8, 110u8, 116u8]
}

/// The seeds of an introduction: its owner's identity.
pub open spec fn intro_seeds_view(owner: Seq<u8>) -> Seq<Seq<u8>> {
    seq![owner]
}

/// The seeds of a reply counter: the marker, then the address of its
/// introduction.
pub open spec fn counter_seeds_view(intro: Seq<u8>) -> Seq<Seq<u8>> {
    seq![counter_seed(), intro]
}

/// The seeds of a reply: the address of its introduction, then its
/// position in the thread as 8 little-endian bytes.
pub open spec fn reply_seeds_view(intro: Seq<u8>, position: u64) -> Seq<Seq<u8>> {
    seq![intro, spec_u64_to_le_bytes(position)]
}

/// The seeds of the reward mint: the marker alone.
pub open spec fn mint_seeds_view() -> Seq<Seq<u8>> {
    seq![mint_seed()]
}

/// The seeds of the introduction that the owner may have.
pub fn intro_seeds(owner: &Address) -> (seeds: Vec<Vec<u8>>)
    ensures
        seeds_view(&seeds) == intro_seeds_view(owner@),
{
    let mut seeds: Vec<Vec<u8>> = Vec::new();
    seeds.push(owner.to_vec());
    assert(seeds_view(&seeds) =~= intro_seeds_view(owner@));
    seeds
}

/// The seeds of the reply counter that belongs to the introduction.
pub fn counter_seeds(intro: &Address) -> (seeds: Vec<Vec<u8>>)
    ensures
        seeds_view(&seeds) == counter_seeds_view(intro@),
{
    let mut marker: Vec<u8> = Vec::new();
    marker.push(99);
    marker.push(111);
    marker.push(117);
    marker.push(110);
    marker.push(116);
    marker.push(101);
    marker.push(114);
    assert(marker@ =~= counter_seed());
    let mut seeds: Vec<Vec<u8>> = Vec::new();
    seeds.push(marker);
    seeds.push(intro.to_vec());
    assert(seeds_view(&seeds) =~= counter_seeds_view(intro@));
    seeds
}

/// The seeds of the reply that takes the given position under the
/// introduction.
pub fn reply_seeds(intro: &Address, position: u64) -> (seeds: Vec<Vec<u8>>)
    ensures
        seeds_view(&seeds) == reply_seeds_view(intro@, position),
{
    let mut seeds: Vec<Vec<u8>> = Vec::new();
    seeds.push(intro.to_vec());
    seeds.push(u64_to_le_bytes(position));
    assert(seeds_view(&seeds) =~= reply_seeds_view(intro@, position));
    seeds
}

/// The seeds of the reward mint.
pub fn mint_seeds() -> (seeds: Vec<Vec<u8>>)
    ensures
        seeds_view(&seeds) == mint_seeds_view(),
{
    let mut marker: Vec<u8> = Vec::new();
    marker.push(109);
    marker.push(105);
    marker.push(110);
    marker.push(116);
    assert(marker@ =~= mint_seed());
    let mut seeds: Vec<Vec<u8>> = Vec::new();
    seeds.push(marker);
    assert(seeds_view(&seeds) =~= mint_seeds_view());
    seeds
}

} // verus!
