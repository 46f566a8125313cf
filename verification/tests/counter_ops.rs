use quartz_counter::errors::ErrorCode;
use quartz_counter::identity::Pubkey;
use quartz_counter::ops::{
    get_count, increment, initialize, transfer_authority, GetCount, Increment, Initialize,
    TransferAuthority,
};
use quartz_counter::pda::counter_address;
use quartz_counter::store::Ledger;

fn key(fill: u8) -> Pubkey {
    Pubkey::new(vec![fill; 32])
}

fn fresh_ledger() -> Ledger {
    Ledger::new(key(0x11))
}

fn derived_for(ledger: &Ledger, authority: &Pubkey) -> Pubkey {
    counter_address(&ledger.program_id, authority).expect("no derivable address")
}

fn init_ctx(ledger: &Ledger, authority: &Pubkey, signed: bool) -> Initialize {
    Initialize {
        counter: derived_for(ledger, authority),
        authority: authority.clone(),
        authority_signed: signed,
    }
}

fn incr_ctx(counter: &Pubkey, authority: &Pubkey, signed: bool) -> Increment {
    Increment {
        counter: counter.clone(),
        authority: authority.clone(),
        authority_signed: signed,
    }
}

#[test]
fn initialize_then_get_count_returns_initial_value() {
    let mut ledger = fresh_ledger();
    let alice = key(0xA1);
    let ctx = init_ctx(&ledger, &alice, true);
    let addr = ctx.counter.clone();
    assert_eq!(initialize(&mut ledger, ctx, 42, 1_000), Ok(()));
    assert_eq!(get_count(&ledger, &GetCount { counter: addr }), Ok(42));
}

#[test]
fn sequential_increments_accumulate() {
    let mut ledger = fresh_ledger();
    let alice = key(0xA1);
    let ctx = init_ctx(&ledger, &alice, true);
    let addr = ctx.counter.clone();
    assert_eq!(initialize(&mut ledger, ctx, 5, 100), Ok(()));

    let mut previous_stamp = ledger.entries[0].record.last_updated;
    for (step, now) in [(1u64, 100i64), (2, 150), (3, 150), (4, 900)] {
        let ictx = incr_ctx(&addr, &alice, true);
        assert_eq!(increment(&mut ledger, &ictx, now), Ok(()));
        assert_eq!(get_count(&ledger, &GetCount { counter: addr.clone() }), Ok(5 + step));
        let stamp = ledger.entries[0].record.last_updated;
        assert!(stamp >= previous_stamp);
        assert_eq!(stamp, now);
        previous_stamp = stamp;
    }
}

#[test]
fn increment_at_max_fails_with_overflow() {
    let mut ledger = fresh_ledger();
    let alice = key(0xA1);
    let ctx = init_ctx(&ledger, &alice, true);
    let addr = ctx.counter.clone();
    assert_eq!(initialize(&mut ledger, ctx, u64::MAX, 777), Ok(()));

    let ictx = incr_ctx(&addr, &alice, true);
    assert_eq!(increment(&mut ledger, &ictx, 999), Err(ErrorCode::Overflow));
    assert_eq!(ledger.entries[0].record.count, u64::MAX);
    assert_eq!(ledger.entries[0].record.last_updated, 777);
}

#[test]
fn wrong_signer_rejected_and_record_unchanged() {
    let mut ledger = fresh_ledger();
    let alice = key(0xA1);
    let mallory = key(0xE5);
    let ctx = init_ctx(&ledger, &alice, true);
    let addr = ctx.counter.clone();
    assert_eq!(initialize(&mut ledger, ctx, 10, 50), Ok(()));

    let ictx = incr_ctx(&addr, &mallory, true);
    assert_eq!(increment(&mut ledger, &ictx, 60), Err(ErrorCode::Unauthorized));

    let tctx = TransferAuthority {
        counter: addr.clone(),
        authority: mallory.clone(),
        authority_signed: true,
    };
    assert_eq!(
        transfer_authority(&mut ledger, &tctx, mallory.clone()),
        Err(ErrorCode::Unauthorized)
    );

    assert_eq!(ledger.entries[0].record.count, 10);
    assert_eq!(ledger.entries[0].record.last_updated, 50);
    assert_eq!(ledger.entries[0].record.authority.bytes, alice.bytes);
}

#[test]
fn unsigned_request_rejected() {
    let mut ledger = fresh_ledger();
    let alice = key(0xA1);
    let ctx = init_ctx(&ledger, &alice, false);
    assert_eq!(initialize(&mut ledger, ctx, 1, 1), Err(ErrorCode::Unauthorized));
    assert!(ledger.entries.is_empty());
}

#[test]
fn initialize_twice_fails_with_already_exists() {
    let mut ledger = fresh_ledger();
    let alice = key(0xA1);
    let first = init_ctx(&ledger, &alice, true);
    let addr = first.counter.clone();
    assert_eq!(initialize(&mut ledger, first, 10, 100), Ok(()));

    let second = init_ctx(&ledger, &alice, true);
    assert_eq!(initialize(&mut ledger, second, 99, 200), Err(ErrorCode::AlreadyExists));

    assert_eq!(get_count(&ledger, &GetCount { counter: addr }), Ok(10));
    assert_eq!(ledger.entries[0].record.last_updated, 100);
}

#[test]
fn transfer_gates_increment() {
    let mut ledger = fresh_ledger();
    let alice = key(0xA1);
    let bob = key(0xB2);
    let ctx = init_ctx(&ledger, &alice, true);
    let addr = ctx.counter.clone();
    assert_eq!(initialize(&mut ledger, ctx, 3, 10), Ok(()));

    let tctx = TransferAuthority {
        counter: addr.clone(),
        authority: alice.clone(),
        authority_signed: true,
    };
    assert_eq!(transfer_authority(&mut ledger, &tctx, bob.clone()), Ok(()));
    assert_eq!(ledger.entries[0].record.authority.bytes, bob.bytes);

    // The old authority no longer passes the stored-authority check.
    let old_ictx = incr_ctx(&addr, &alice, true);
    assert_eq!(increment(&mut ledger, &old_ictx, 20), Err(ErrorCode::Unauthorized));

    // The new authority passes it, but the record still lives at the address
    // derived from the old authority, so the derivation check refuses the old
    // address and finds nothing at the new one.
    let bob_at_old_addr = incr_ctx(&addr, &bob, true);
    assert_eq!(increment(&mut ledger, &bob_at_old_addr, 20), Err(ErrorCode::AddressMismatch));
    let bob_addr = derived_for(&ledger, &bob);
    let bob_at_own_addr = incr_ctx(&bob_addr, &bob, true);
    assert_eq!(increment(&mut ledger, &bob_at_own_addr, 20), Err(ErrorCode::NotFound));

    assert_eq!(ledger.entries[0].record.count, 3);
}

#[test]
fn transfer_to_self_keeps_counting() {
    let mut ledger = fresh_ledger();
    let alice = key(0xA1);
    let ctx = init_ctx(&ledger, &alice, true);
    let addr = ctx.counter.clone();
    assert_eq!(initialize(&mut ledger, ctx, 3, 10), Ok(()));

    let tctx = TransferAuthority {
        counter: addr.clone(),
        authority: alice.clone(),
        authority_signed: true,
    };
    assert_eq!(transfer_authority(&mut ledger, &tctx, alice.clone()), Ok(()));

    let ictx = incr_ctx(&addr, &alice, true);
    assert_eq!(increment(&mut ledger, &ictx, 20), Ok(()));
    assert_eq!(get_count(&ledger, &GetCount { counter: addr }), Ok(4));
}

#[test]
fn transfer_does_not_touch_last_updated() {
    let mut ledger = fresh_ledger();
    let alice = key(0xA1);
    let bob = key(0xB2);
    let ctx = init_ctx(&ledger, &alice, true);
    let addr = ctx.counter.clone();
    assert_eq!(initialize(&mut ledger, ctx, 0, 123), Ok(()));

    let tctx = TransferAuthority {
        counter: addr,
        authority: alice,
        authority_signed: true,
    };
    assert_eq!(transfer_authority(&mut ledger, &tctx, bob), Ok(()));
    assert_eq!(ledger.entries[0].record.last_updated, 123);
}

#[test]
fn get_count_needs_no_signature() {
    let mut ledger = fresh_ledger();
    let alice = key(0xA1);
    let ctx = init_ctx(&ledger, &alice, true);
    let addr = ctx.counter.clone();
    assert_eq!(initialize(&mut ledger, ctx, 17, 1), Ok(()));

    // The read request carries an address and nothing else: no signer exists
    // in its shape at all.
    assert_eq!(get_count(&ledger, &GetCount { counter: addr }), Ok(17));
}

#[test]
fn get_count_at_unknown_address_is_not_found() {
    let ledger = fresh_ledger();
    let nowhere = key(0x77);
    assert_eq!(get_count(&ledger, &GetCount { counter: nowhere }), Err(ErrorCode::NotFound));
}

#[test]
fn increment_at_unknown_address_is_not_found() {
    let mut ledger = fresh_ledger();
    let alice = key(0xA1);
    let somewhere = derived_for(&ledger, &alice);
    let ictx = incr_ctx(&somewhere, &alice, true);
    assert_eq!(increment(&mut ledger, &ictx, 5), Err(ErrorCode::NotFound));
}

#[test]
fn initialize_at_wrong_address_is_address_mismatch() {
    let mut ledger = fresh_ledger();
    let alice = key(0xA1);
    // The authority's own key is never its counter's derived address.
    let ctx = Initialize {
        counter: alice.clone(),
        authority: alice,
        authority_signed: true,
    };
    assert_eq!(initialize(&mut ledger, ctx, 9, 9), Err(ErrorCode::AddressMismatch));
    assert!(ledger.entries.is_empty());
}
