//! Laws of the counter program, stated over the same spec transitions that
//! the operations' contracts use, and proved once and for all. Every law
//! about a refused request also says the store is unchanged, because each
//! operation's contract makes every `Err` leave the store exactly as it was.

use vstd::prelude::*;
use crate::counter::CounterView;
use crate::errors::ErrorCode;
use crate::ops::{spec_get_count, spec_increment, spec_initialize, spec_transfer_authority};

verus! {

/// The transition refused the request with exactly the error `e`.
pub open spec fn refused_with(r: Result<Map<Seq<u8>, CounterView>, ErrorCode>, e: ErrorCode) -> bool {
    r == Err::<Map<Seq<u8>, CounterView>, ErrorCode>(e)
}

/// Initialize then GetCount returns the initial value: a counter freshly
/// created with value `v` reads back `v`.
pub proof fn lemma_initialize_then_get_count(
    m: Map<Seq<u8>, CounterView>,
    addr: Seq<u8>,
    auth: Seq<u8>,
    signed: bool,
    derived: Option<Seq<u8>>,
    v: u64,
    now: i64,
)
    requires
        spec_initialize(m, addr, auth, signed, derived, v, now) is Ok,
    ensures
        spec_get_count(spec_initialize(m, addr, auth, signed, derived, v, now).unwrap(), addr)
            == Ok::<u64, ErrorCode>(v),
{
}

/// The store after increments of the record at `addr` stamped with
/// `times[0]`, `times[1]`, ..., in that order, each signed by `auth` with
/// the derivation outcome `derived`.
pub open spec fn spec_increments(
    m: Map<Seq<u8>, CounterView>,
    addr: Seq<u8>,
    auth: Seq<u8>,
    derived: Option<Seq<u8>>,
    times: Seq<i64>,
) -> Result<Map<Seq<u8>, CounterView>, ErrorCode>
    decreases times.len(),
{
    if times.len() == 0 {
        Ok(m)
    } else {
        match spec_increments(m, addr, auth, derived, times.drop_last()) {
            Ok(m2) => spec_increment(m2, addr, auth, true, derived, times.last()),
            Err(e) => Err(e),
        }
    }
}

/// n sequential successful increments starting from count v leave count
/// v + n, and each call advances the record's stamp to a value at least the
/// previous one: under a clock that does not run backwards, the final stamp
/// is the last reading and is at least the stamp before the first call.
pub proof fn lemma_increments_accumulate(
    m: Map<Seq<u8>, CounterView>,
    addr: Seq<u8>,
    auth: Seq<u8>,
    derived: Option<Seq<u8>>,
    times: Seq<i64>,
)
    requires
        m.contains_key(addr),
        m[addr].authority == auth,
        derived == Some(addr),
        m[addr].count + times.len() <= u64::MAX,
        forall|k: int| 0 <= k < times.len()
            ==> (if k == 0 { m[addr].last_updated as int } else { times[k - 1] as int }) <= #[trigger] times[k] as int,
    ensures
        spec_increments(m, addr, auth, derived, times) is Ok,
        ({
            let m2 = spec_increments(m, addr, auth, derived, times).unwrap();
            &&& m2.contains_key(addr)
            &&& m2[addr].count == m[addr].count + times.len()
            &&& m2[addr].authority == auth
            &&& m[addr].last_updated <= m2[addr].last_updated
            &&& times.len() > 0 ==> m2[addr].last_updated == times.last()
            &&& times.len() == 0 ==> m2 == m
        }),
    decreases times.len(),
{
    if times.len() > 0 {
        let prefix = times.drop_last();
        assert(forall|k: int| 0 <= k < prefix.len() ==> prefix[k] == times[k]);
        lemma_increments_accumulate(m, addr, auth, derived, prefix);
        let m2 = spec_increments(m, addr, auth, derived, prefix).unwrap();
        if prefix.len() == 0 {
            assert(m2[addr].last_updated as int <= times.last() as int);
        } else {
            assert(m2[addr].last_updated == times[times.len() - 2]);
            assert(times[times.len() - 2] as int <= times[times.len() - 1] as int);
        }
    }
}

/// Each call, not only the last: under the same conditions, the k-th of the
/// increments stamps the record with `times[k]`, at or above the stamp it
/// found there.
pub proof fn lemma_increments_step_monotone(
    m: Map<Seq<u8>, CounterView>,
    addr: Seq<u8>,
    auth: Seq<u8>,
    derived: Option<Seq<u8>>,
    times: Seq<i64>,
    k: int,
)
    requires
        m.contains_key(addr),
        m[addr].authority == auth,
        derived == Some(addr),
        m[addr].count + times.len() <= u64::MAX,
        forall|j: int| 0 <= j < times.len()
            ==> (if j == 0 { m[addr].last_updated as int } else { times[j - 1] as int }) <= #[trigger] times[j] as int,
        0 <= k < times.len(),
    ensures
        spec_increments(m, addr, auth, derived, times.take(k)) is Ok,
        spec_increments(m, addr, auth, derived, times.take(k + 1)) is Ok,
        ({
            let before = spec_increments(m, addr, auth, derived, times.take(k)).unwrap();
            let after = spec_increments(m, addr, auth, derived, times.take(k + 1)).unwrap();
            &&& after[addr].last_updated == times[k]
            &&& before[addr].last_updated <= after[addr].last_updated
        }),
{
    let shorter = times.take(k);
    let longer = times.take(k + 1);
    assert(forall|j: int| 0 <= j < shorter.len() ==> shorter[j] == times[j]);
    assert(forall|j: int| 0 <= j < longer.len() ==> longer[j] == times[j]);
    lemma_increments_accumulate(m, addr, auth, derived, shorter);
    lemma_increments_accumulate(m, addr, auth, derived, longer);
    assert(longer.drop_last() =~= shorter);
    assert(longer.last() == times[k]);
}

/// An increment of a counter already at the unsigned 64-bit maximum is
/// refused with Overflow; a refusal leaves count and stamp unchanged.
pub proof fn lemma_increment_overflow(
    m: Map<Seq<u8>, CounterView>,
    addr: Seq<u8>,
    auth: Seq<u8>,
    derived: Option<Seq<u8>>,
    now: i64,
)
    requires
        m.contains_key(addr),
        m[addr].count == u64::MAX,
        m[addr].authority == auth,
        derived == Some(addr),
    ensures
        refused_with(spec_increment(m, addr, auth, true, derived, now), ErrorCode::Overflow),
{
}

/// An Increment or TransferAuthority whose signer is not the stored
/// authority is refused — with Unauthorized when a signature is present at
/// all — and a refusal leaves the record unchanged.
pub proof fn lemma_wrong_authority_rejected(
    m: Map<Seq<u8>, CounterView>,
    addr: Seq<u8>,
    auth: Seq<u8>,
    signed: bool,
    derived: Option<Seq<u8>>,
    now: i64,
    new_auth: Seq<u8>,
)
    requires
        m.contains_key(addr),
        m[addr].authority != auth,
    ensures
        spec_increment(m, addr, auth, signed, derived, now) is Err,
        spec_transfer_authority(m, addr, auth, signed, derived, new_auth) is Err,
        signed ==> refused_with(spec_increment(m, addr, auth, signed, derived, now), ErrorCode::Unauthorized),
        signed ==> refused_with(
            spec_transfer_authority(m, addr, auth, signed, derived, new_auth),
            ErrorCode::Unauthorized,
        ),
{
}

/// A second Initialize for the same authority — hence at the same derived
/// address — is refused with AlreadyExists, and the record written by the
/// first keeps its authority and value.
pub proof fn lemma_initialize_twice(
    m: Map<Seq<u8>, CounterView>,
    addr: Seq<u8>,
    auth: Seq<u8>,
    derived: Option<Seq<u8>>,
    v1: u64,
    now1: i64,
    v2: u64,
    now2: i64,
)
    requires
        spec_initialize(m, addr, auth, true, derived, v1, now1) is Ok,
    ensures
        ({
            let m1 = spec_initialize(m, addr, auth, true, derived, v1, now1).unwrap();
            &&& refused_with(spec_initialize(m1, addr, auth, true, derived, v2, now2), ErrorCode::AlreadyExists)
            &&& m1[addr].authority == auth
            &&& m1[addr].count == v1
            &&& m1[addr].last_updated == now1
        }),
{
}

/// After TransferAuthority(new_auth): an increment signed by the old
/// authority is refused with Unauthorized; one signed by anybody but the
/// new authority is refused; and one signed by the new authority, at an
/// address matching the derivation for it, succeeds while the count is
/// below the maximum.
pub proof fn lemma_transfer_gates_increment(
    m: Map<Seq<u8>, CounterView>,
    addr: Seq<u8>,
    auth: Seq<u8>,
    derived: Option<Seq<u8>>,
    new_auth: Seq<u8>,
    derived_new: Option<Seq<u8>>,
    now: i64,
    other: Seq<u8>,
    other_signed: bool,
    derived_other: Option<Seq<u8>>,
)
    requires
        spec_transfer_authority(m, addr, auth, true, derived, new_auth) is Ok,
    ensures
        ({
            let m1 = spec_transfer_authority(m, addr, auth, true, derived, new_auth).unwrap();
            &&& auth != new_auth
                ==> refused_with(spec_increment(m1, addr, auth, true, derived, now), ErrorCode::Unauthorized)
            &&& other != new_auth ==> spec_increment(m1, addr, other, other_signed, derived_other, now) is Err
            &&& (derived_new == Some(addr) && m1[addr].count < u64::MAX)
                ==> spec_increment(m1, addr, new_auth, true, derived_new, now) is Ok
        }),
{
}

/// GetCount succeeds for every existing record address, and its definition
/// takes no signer at all: reading asks for no signature.
pub proof fn lemma_get_count_no_signature(m: Map<Seq<u8>, CounterView>, addr: Seq<u8>)
    requires
        m.contains_key(addr),
    ensures
        spec_get_count(m, addr) == Ok::<u64, ErrorCode>(m[addr].count),
{
}

} // verus!
