use anchor_lang::prelude::Pubkey;
use vstd::prelude::*;

verus! {

/// A 32-byte account identity.
#[derive(Clone, Copy, Debug)]
pub struct Address {
    pub bytes: [u8; 32],
}

impl View for Address {
    type V = Seq<u8>;

    open spec fn view(&self) -> Seq<u8> {
        self.bytes@
    }
}

impl PartialEq for Address {
    fn eq(&self, o: &Address) -> (r: bool) {
        let mut i: usize = 0;
        while i < 32
            invariant
                i <= 32,
                forall|j: int| 0 <= j < i ==> self.bytes@[j] == o.bytes@[j],
            decreases 32 - i,
        {
            if self.bytes[i] != o.bytes[i] {
                return false;
            }
            i = i + 1;
        }
        assert(self.bytes@ =~= o.bytes@);
        true
    }
}

impl vstd::std_specs::cmp::PartialEqSpecImpl for Address {
    open spec fn obeys_eq_spec() -> bool {
        true
    }

    open spec fn eq_spec(&self, o: &Address) -> bool {
        self@ == o@
    }
}

impl Address {
    pub fn new(bytes: [u8; 32]) -> (r: Address)
        ensures
            r@ == bytes@,
    {
        Address { bytes }
    }

    /// The all-zero identity, under which the host's system program runs.
    pub fn system_program() -> (r: Address)
        ensures
            r@ == Seq::new(32, |i: int| 0u8),
    {
        let r = Address { bytes: [0u8; 32] };
        assert(r@ =~= Seq::new(32, |i: int| 0u8));
        r
    }

    /// The identity as a derivation seed.
    pub fn to_seed(&self) -> (r: Vec<u8>)
        ensures
            r@ == self@,
    {
        let mut r: Vec<u8> = Vec::new();
        let mut i: usize = 0;
        while i < 32
            invariant
                i <= 32,
                r@ == self@.subrange(0, i as int),
            decreases 32 - i,
        {
            r.push(self.bytes[i]);
            i = i + 1;
            assert(r@ =~= self@.subrange(0, i as int));
        }
        assert(self@.subrange(0, 32) =~= self@);
        r
    }
}

/// The largest number of seeds a derivation accepts, bump included.
pub const MAX_SEEDS: usize = 16;

/// The largest length of a single seed.
pub const MAX_SEED_LEN: usize = 32;

/// The address derived from `seeds` (bump included) for `program_id`: the
/// digest of the seeds, the program id and a domain tag, accepted only when it
/// lies off the curve of user keypairs.
pub uninterp spec fn program_address(seeds: Seq<Seq<u8>>, program_id: Seq<u8>) -> Option<Seq<u8>>;

pub open spec fn seeds_view(seeds: Seq<Vec<u8>>) -> Seq<Seq<u8>> {
    seeds.map_values(|s: Vec<u8>| s@)
}

pub open spec fn seeds_fit(seeds: Seq<Seq<u8>>) -> bool {
    seeds.len() <= MAX_SEEDS && forall|i: int| 0 <= i < seeds.len() ==> seeds[i].len() <= MAX_SEED_LEN
}

/// Appends `bump` to `seeds` as a one-byte seed.
pub fn push_bump(seeds: &mut Vec<Vec<u8>>, bump: u8)
    ensures
        seeds_view(final(seeds)@) == with_bump(seeds_view(old(seeds)@), bump),
{
    let mut b: Vec<u8> = Vec::new();
    b.push(bump);
    assert(b@ =~= seq![bump]);
    seeds.push(b);
    assert(seeds_view(seeds@) =~= with_bump(seeds_view(old(seeds)@), bump));
}

/// `seeds` followed by the one-byte seed `bump`.
pub open spec fn with_bump(seeds: Seq<Seq<u8>>, bump: u8) -> Seq<Seq<u8>> {
    seeds.push(seq![bump])
}

/// `bump` is the first candidate, counting down from 255, whose derivation
/// succeeds.
pub open spec fn is_canonical_bump(seeds: Seq<Seq<u8>>, program_id: Seq<u8>, bump: u8) -> bool {
    &&& 1 <= bump
    &&& program_address(with_bump(seeds, bump), program_id) is Some
    &&& forall|c: u8| bump < c ==> program_address(with_bump(seeds, c), program_id) is None
}

/// At most one bump is canonical for given seeds.
pub proof fn lemma_canonical_unique(seeds: Seq<Seq<u8>>, program_id: Seq<u8>, b1: u8, b2: u8)
    requires
        is_canonical_bump(seeds, program_id, b1),
        is_canonical_bump(seeds, program_id, b2),
    ensures
        b1 == b2,
{
}

/// The canonical bump of `seeds`, if some bump derives an address.
pub open spec fn canonical_bump(seeds: Seq<Seq<u8>>, program_id: Seq<u8>) -> Option<u8> {
    if exists|b: u8| is_canonical_bump(seeds, program_id, b) {
        Some(choose|b: u8| is_canonical_bump(seeds, program_id, b))
    } else {
        None
    }
}

/// Relies on `Pubkey::create_program_address` (anchor_lang, from solana-pubkey):
/// the address is a function of the seeds and the program id; more than
/// `MAX_SEEDS` seeds or a seed longer than `MAX_SEED_LEN` is an error, and so is
/// a digest that lies on the curve.
#[verifier::external_body]
pub(crate) fn create_address(seeds: &Vec<Vec<u8>>, program_id: &Address) -> (r: Option<Address>)
    ensures
        match r {
            Some(a) => program_address(seeds_view(seeds@), program_id@) == Some(a@),
            None => program_address(seeds_view(seeds@), program_id@) is None,
        },
        r is Some ==> seeds_fit(seeds_view(seeds@)),
{
    let refs: Vec<&[u8]> = seeds.iter().map(|s| s.as_slice()).collect();
    let pid = Pubkey::new_from_array(program_id.bytes);
    Pubkey::create_program_address(&refs, &pid).ok().map(|k| Address { bytes: k.to_bytes() })
}

/// Relies on `Pubkey::try_find_program_address` (anchor_lang, from
/// solana-pubkey): it appends each bump from 255 down to 1 as a last seed and
/// returns the first address that `create_program_address` accepts, or nothing
/// when none is accepted.
#[verifier::external_body]
pub(crate) fn find_address(seeds: &Vec<Vec<u8>>, program_id: &Address) -> (r: Option<(Address, u8)>)
    ensures
        match r {
            Some((a, b)) => {
                &&& is_canonical_bump(seeds_view(seeds@), program_id@, b)
                &&& program_address(with_bump(seeds_view(seeds@), b), program_id@) == Some(a@)
            },
            None => forall|c: u8|
                1 <= c ==> program_address(with_bump(seeds_view(seeds@), c), program_id@) is None,
        },
{
    let refs: Vec<&[u8]> = seeds.iter().map(|s| s.as_slice()).collect();
    let pid = Pubkey::new_from_array(program_id.bytes);
    Pubkey::try_find_program_address(&refs, &pid).map(|(k, b)| (Address { bytes: k.to_bytes() }, b))
}

} // verus!
