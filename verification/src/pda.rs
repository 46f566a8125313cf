//! Deterministic record addressing. The host derives a record's address
//! from the program's namespace key, the literal tag "counter", and the
//! authority's identity. The derivation itself (a hash-based search for an
//! off-curve point) is the host SDK's; its result is named `pda_lookup`
//! and every contract about addresses speaks of that name.

use vstd::prelude::*;
use crate::identity::Pubkey;

verus! {

/// What the host's address derivation returns for a namespace, a seed tag
/// and an authority: `Some` derived 32-byte address, or `None` in the
/// statistically improbable event that no bump seed works.
pub uninterp spec fn pda_lookup(program: Seq<u8>, tag: Seq<u8>, authority: Seq<u8>) -> Option<Seq<u8>>;

/// The seed tag under which counter records are addressed: the bytes of
/// the literal "counter".
pub open spec fn counter_tag() -> Seq<u8> {
    seq![99u8, 111u8, 117u8, 110u8, 116u8, 101u8, 114u8]
}

/// The seed tag as a byte vector.
pub fn counter_tag_bytes() -> (r: Vec<u8>)
    ensures
        r@ == counter_tag(),
{
    let mut v: Vec<u8> = Vec::new();
    v.push(99);
    v.push(111);
    v.push(117);
    v.push(110);
    v.push(116);
    v.push(101);
    v.push(114);
    proof {
        assert(v@ =~= counter_tag());
    }
    v
}

/// Relies on `Pubkey::try_find_program_address` of the host SDK (re-exported
/// by anchor_lang): the derived address is a deterministic function of the
/// seeds and the program id alone, is 32 bytes long when one is found, and
/// is `None` only when no bump seed yields an off-curve point.
#[verifier::external_body]
fn try_derive_address(program: &Pubkey, tag: &Vec<u8>, authority: &Pubkey) -> (r: Option<Pubkey>)
    requires
        program.wf(),
        authority.wf(),
    ensures
        match r {
            Some(a) => a.wf() && pda_lookup(program@, tag@, authority@) == Some(a@),
            None => pda_lookup(program@, tag@, authority@) is None,
        },
{
    let program_id = anchor_lang::prelude::Pubkey::try_from(program.bytes.as_slice()).unwrap();
    let auth = anchor_lang::prelude::Pubkey::try_from(authority.bytes.as_slice()).unwrap();
    let auth_bytes = auth.to_bytes();
    let seeds: [&[u8]; 2] = [tag.as_slice(), &auth_bytes];
    anchor_lang::prelude::Pubkey::try_find_program_address(&seeds, &program_id)
        .map(|(a, _bump)| Pubkey { bytes: a.to_bytes().to_vec() })
}

/// The address at which the counter of `authority` lives within the
/// namespace `program_id`, when the derivation finds one.
pub fn counter_address(program_id: &Pubkey, authority: &Pubkey) -> (r: Option<Pubkey>)
    requires
        program_id.wf(),
        authority.wf(),
    ensures
        ({
            let d = pda_lookup(program_id@, counter_tag(), authority@);
            match r {
                Some(a) => a.wf() && d == Some(a@),
                None => d is None,
            }
        }),
{
    let tag = counter_tag_bytes();
    try_derive_address(program_id, &tag, authority)
}

} // verus!
