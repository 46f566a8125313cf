//! The four operations of the counter program, each an atomic transition on
//! the record store. The substrate's declarative account constraints are
//! explicit ordered guard checks here: signature present, record present,
//! stored authority equal to the supplied one, supplied address equal to the
//! deterministic derivation. Each operation either commits in full or
//! refuses with one error and changes nothing.

use vstd::prelude::*;
use crate::counter::{Counter, CounterView};
use crate::errors::ErrorCode;
use crate::identity::Pubkey;
use crate::pda::{counter_address, counter_tag, pda_lookup};
use crate::store::{addresses_distinct, entries_wf, Ledger, LedgerEntry};
use crate::store::{lemma_map_of_index, lemma_map_of_push, lemma_map_of_update};

verus! {

/// Request to create a counter. `counter` is the address the caller supplies
/// for the new record; `authority` is the caller's identity, who becomes the
/// record's authority; `authority_signed` is the substrate's verdict on
/// whether a valid signature of that identity accompanies the request.
pub struct Initialize {
    pub counter: Pubkey,
    pub authority: Pubkey,
    pub authority_signed: bool,
}

/// Request to increment a counter, with the same three parts as `Initialize`.
pub struct Increment {
    pub counter: Pubkey,
    pub authority: Pubkey,
    pub authority_signed: bool,
}

/// Request to hand a counter to a new authority, with the same three parts.
pub struct TransferAuthority {
    pub counter: Pubkey,
    pub authority: Pubkey,
    pub authority_signed: bool,
}

/// Request to read a counter: only an address, no signature.
pub struct GetCount {
    pub counter: Pubkey,
}

impl Initialize {
    pub open spec fn wf(&self) -> bool {
        self.counter.wf() && self.authority.wf()
    }
}

impl Increment {
    pub open spec fn wf(&self) -> bool {
        self.counter.wf() && self.authority.wf()
    }
}

impl TransferAuthority {
    pub open spec fn wf(&self) -> bool {
        self.counter.wf() && self.authority.wf()
    }
}

impl GetCount {
    pub open spec fn wf(&self) -> bool {
        self.counter.wf()
    }
}

/// What Initialize does to the store: refuse an unsigned request, an address
/// other than the derivation for the signer (`derived` is what the
/// derivation returned), or an address already holding a record; otherwise
/// create the record with the signer as authority, the given value, and the
/// clock reading `now`.
pub open spec fn spec_initialize(
    m: Map<Seq<u8>, CounterView>,
    addr: Seq<u8>,
    auth: Seq<u8>,
    signed: bool,
    derived: Option<Seq<u8>>,
    initial_value: u64,
    now: i64,
) -> Result<Map<Seq<u8>, CounterView>, ErrorCode> {
    if !signed {
        Err(ErrorCode::Unauthorized)
    } else if derived != Some(addr) {
        Err(ErrorCode::AddressMismatch)
    } else if m.contains_key(addr) {
        Err(ErrorCode::AlreadyExists)
    } else {
        Ok(m.insert(addr, CounterView { authority: auth, count: initial_value, last_updated: now }))
    }
}

/// What Increment does to the store: refuse an unsigned request, an absent
/// record, a signer other than the stored authority, an address other than
/// the derivation for the signer, or a count at the maximum; otherwise add
/// one to the count and set the record's clock reading to `now`.
pub open spec fn spec_increment(
    m: Map<Seq<u8>, CounterView>,
    addr: Seq<u8>,
    auth: Seq<u8>,
    signed: bool,
    derived: Option<Seq<u8>>,
    now: i64,
) -> Result<Map<Seq<u8>, CounterView>, ErrorCode> {
    if !signed {
        Err(ErrorCode::Unauthorized)
    } else if !m.contains_key(addr) {
        Err(ErrorCode::NotFound)
    } else if m[addr].authority != auth {
        Err(ErrorCode::Unauthorized)
    } else if derived != Some(addr) {
        Err(ErrorCode::AddressMismatch)
    } else if m[addr].count == u64::MAX {
        Err(ErrorCode::Overflow)
    } else {
        Ok(m.insert(addr, CounterView {
            authority: m[addr].authority,
            count: (m[addr].count + 1) as u64,
            last_updated: now,
        }))
    }
}

/// What TransferAuthority does to the store: the same guards as Increment,
/// then replace the stored authority by `new_auth`. The count is kept, and
/// so is the record's clock reading: a transfer does not touch it.
pub open spec fn spec_transfer_authority(
    m: Map<Seq<u8>, CounterView>,
    addr: Seq<u8>,
    auth: Seq<u8>,
    signed: bool,
    derived: Option<Seq<u8>>,
    new_auth: Seq<u8>,
) -> Result<Map<Seq<u8>, CounterView>, ErrorCode> {
    if !signed {
        Err(ErrorCode::Unauthorized)
    } else if !m.contains_key(addr) {
        Err(ErrorCode::NotFound)
    } else if m[addr].authority != auth {
        Err(ErrorCode::Unauthorized)
    } else if derived != Some(addr) {
        Err(ErrorCode::AddressMismatch)
    } else {
        Ok(m.insert(addr, CounterView {
            authority: new_auth,
            count: m[addr].count,
            last_updated: m[addr].last_updated,
        }))
    }
}

/// What GetCount returns: the stored count, verbatim, for any address that
/// holds a record; no signature enters the decision.
pub open spec fn spec_get_count(m: Map<Seq<u8>, CounterView>, addr: Seq<u8>) -> Result<u64, ErrorCode> {
    if m.contains_key(addr) {
        Ok(m[addr].count)
    } else {
        Err(ErrorCode::NotFound)
    }
}

/// Creates the counter record for the signing authority, with `count` set to
/// `initial_value` and `last_updated` to the clock reading `now`.
pub fn initialize(ledger: &mut Ledger, ctx: Initialize, initial_value: u64, now: i64) -> (r: Result<(), ErrorCode>)
    requires
        old(ledger).wf(),
        ctx.wf(),
    ensures
        final(ledger).wf(),
        final(ledger).program_id@ == old(ledger).program_id@,
        ({
            let step = spec_initialize(
                old(ledger)@,
                ctx.counter@,
                ctx.authority@,
                ctx.authority_signed,
                pda_lookup(old(ledger).program_id@, counter_tag(), ctx.authority@),
                initial_value,
                now,
            );
            match step {
                Ok(m) => r is Ok && final(ledger)@ == m,
                Err(e) => r == Err::<(), ErrorCode>(e) && final(ledger)@ == old(ledger)@,
            }
        }),
{
    if !ctx.authority_signed {
        return Err(ErrorCode::Unauthorized);
    }
    let derived = counter_address(&ledger.program_id, &ctx.authority);
    let addr_ok = match &derived {
        Some(d) => d.eq_key(&ctx.counter),
        None => false,
    };
    if !addr_ok {
        return Err(ErrorCode::AddressMismatch);
    }
    if ledger.find(&ctx.counter).is_some() {
        return Err(ErrorCode::AlreadyExists);
    }
    proof {
        assert forall|k: int| 0 <= k < ledger.entries@.len()
            implies (#[trigger] ledger.entries@[k]).address@ != ctx.counter@ by {
            if ledger.entries@[k].address@ == ctx.counter@ {
                lemma_map_of_index(ledger.entries@, k);
            }
        }
    }
    let ghost pre = ledger.entries@;
    let entry = LedgerEntry {
        address: ctx.counter,
        record: Counter { authority: ctx.authority, count: initial_value, last_updated: now },
    };
    proof {
        lemma_map_of_push(pre, entry);
    }
    ledger.entries.push(entry);
    proof {
        assert(entries_wf(ledger.entries@));
        assert(addresses_distinct(ledger.entries@)) by {
            assert(forall|k: int| 0 <= k < pre.len() ==> ledger.entries@[k] == pre[k]);
        }
    }
    Ok(())
}

/// Adds one to the counter of the signing authority and stamps it with the
/// clock reading `now`. At the maximum the request is refused with
/// `Overflow` and the record is left exactly as it was.
pub fn increment(ledger: &mut Ledger, ctx: &Increment, now: i64) -> (r: Result<(), ErrorCode>)
    requires
        old(ledger).wf(),
        ctx.wf(),
    ensures
        final(ledger).wf(),
        final(ledger).program_id@ == old(ledger).program_id@,
        ({
            let step = spec_increment(
                old(ledger)@,
                ctx.counter@,
                ctx.authority@,
                ctx.authority_signed,
                pda_lookup(old(ledger).program_id@, counter_tag(), ctx.authority@),
                now,
            );
            match step {
                Ok(m) => r is Ok && final(ledger)@ == m,
                Err(e) => r == Err::<(), ErrorCode>(e) && final(ledger)@ == old(ledger)@,
            }
        }),
{
    if !ctx.authority_signed {
        return Err(ErrorCode::Unauthorized);
    }
    let i = match ledger.find(&ctx.counter) {
        None => {
            return Err(ErrorCode::NotFound);
        },
        Some(i) => i,
    };
    if !ledger.entries[i].record.authority.eq_key(&ctx.authority) {
        return Err(ErrorCode::Unauthorized);
    }
    let derived = counter_address(&ledger.program_id, &ctx.authority);
    let addr_ok = match &derived {
        Some(d) => d.eq_key(&ctx.counter),
        None => false,
    };
    if !addr_ok {
        return Err(ErrorCode::AddressMismatch);
    }
    let count = ledger.entries[i].record.count;
    if count == u64::MAX {
        return Err(ErrorCode::Overflow);
    }
    let ghost pre = ledger.entries@;
    let address = ledger.entries[i].address.clone();
    let authority = ledger.entries[i].record.authority.clone();
    let entry = LedgerEntry {
        address,
        record: Counter { authority, count: count + 1, last_updated: now },
    };
    proof {
        lemma_map_of_update(pre, i as int, entry);
    }
    ledger.entries[i] = entry;
    proof {
        assert(ledger.entries@ =~= pre.update(i as int, ledger.entries@[i as int]));
        assert(entries_wf(ledger.entries@));
        assert(addresses_distinct(ledger.entries@));
    }
    Ok(())
}

/// Hands the counter to `new_authority`. The count stays, and so does
/// `last_updated`: a transfer is not stamped.
pub fn transfer_authority(ledger: &mut Ledger, ctx: &TransferAuthority, new_authority: Pubkey) -> (r: Result<(), ErrorCode>)
    requires
        old(ledger).wf(),
        ctx.wf(),
        new_authority.wf(),
    ensures
        final(ledger).wf(),
        final(ledger).program_id@ == old(ledger).program_id@,
        ({
            let step = spec_transfer_authority(
                old(ledger)@,
                ctx.counter@,
                ctx.authority@,
                ctx.authority_signed,
                pda_lookup(old(ledger).program_id@, counter_tag(), ctx.authority@),
                new_authority@,
            );
            match step {
                Ok(m) => r is Ok && final(ledger)@ == m,
                Err(e) => r == Err::<(), ErrorCode>(e) && final(ledger)@ == old(ledger)@,
            }
        }),
{
    if !ctx.authority_signed {
        return Err(ErrorCode::Unauthorized);
    }
    let i = match ledger.find(&ctx.counter) {
        None => {
            return Err(ErrorCode::NotFound);
        },
        Some(i) => i,
    };
    if !ledger.entries[i].record.authority.eq_key(&ctx.authority) {
        return Err(ErrorCode::Unauthorized);
    }
    let derived = counter_address(&ledger.program_id, &ctx.authority);
    let addr_ok = match &derived {
        Some(d) => d.eq_key(&ctx.counter),
        None => false,
    };
    if !addr_ok {
        return Err(ErrorCode::AddressMismatch);
    }
    let ghost pre = ledger.entries@;
    let address = ledger.entries[i].address.clone();
    let count = ledger.entries[i].record.count;
    let last_updated = ledger.entries[i].record.last_updated;
    let entry = LedgerEntry {
        address,
        record: Counter { authority: new_authority, count, last_updated },
    };
    proof {
        lemma_map_of_update(pre, i as int, entry);
    }
    ledger.entries[i] = entry;
    proof {
        assert(ledger.entries@ =~= pre.update(i as int, ledger.entries@[i as int]));
        assert(entries_wf(ledger.entries@));
        assert(addresses_distinct(ledger.entries@));
    }
    Ok(())
}

/// Reads the count stored at the supplied address. Anybody may read any
/// counter: no signature, no authority check.
pub fn get_count(ledger: &Ledger, ctx: &GetCount) -> (r: Result<u64, ErrorCode>)
    requires
        ledger.wf(),
        ctx.wf(),
    ensures
        r == spec_get_count(ledger@, ctx.counter@),
{
    match ledger.find(&ctx.counter) {
        Some(i) => Ok(ledger.entries[i].record.count),
        None => Err(ErrorCode::NotFound),
    }
}

} // verus!
