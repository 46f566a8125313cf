//! The record store: the host keeps one table of records keyed by address.
//! Here it is a vector of entries with pairwise-distinct addresses, viewed
//! as a map from address to counter record.

use vstd::prelude::*;
use crate::counter::{Counter, CounterView};
use crate::identity::Pubkey;

verus! {

/// One stored record together with the address it lives at.
pub struct LedgerEntry {
    pub address: Pubkey,
    pub record: Counter,
}

/// The slice of the host's record store that belongs to this program:
/// the program's namespace key, and the records it owns.
pub struct Ledger {
    pub program_id: Pubkey,
    pub entries: Vec<LedgerEntry>,
}

/// The mathematical content of a sequence of entries: address to record.
pub open spec fn map_of(s: Seq<LedgerEntry>) -> Map<Seq<u8>, CounterView>
    decreases s.len(),
{
    if s.len() == 0 {
        Map::empty()
    } else {
        map_of(s.drop_last()).insert(s.last().address@, s.last().record@)
    }
}

impl View for Ledger {
    type V = Map<Seq<u8>, CounterView>;

    open spec fn view(&self) -> Map<Seq<u8>, CounterView> {
        map_of(self.entries@)
    }
}

/// No two entries share an address.
pub open spec fn addresses_distinct(s: Seq<LedgerEntry>) -> bool {
    forall|i: int, j: int| 0 <= i < j < s.len() ==> s[i].address@ != s[j].address@
}

/// Every entry holds a well-formed address and record.
pub open spec fn entries_wf(s: Seq<LedgerEntry>) -> bool {
    forall|i: int| 0 <= i < s.len() ==> (#[trigger] s[i]).address.wf() && s[i].record.wf()
}

/// An entry stored at `a` holds the record that the map view gives for `a`.
pub proof fn lemma_map_of_index(s: Seq<LedgerEntry>, i: int)
    requires
        addresses_distinct(s),
        0 <= i < s.len(),
    ensures
        map_of(s).contains_key(s[i].address@),
        map_of(s)[s[i].address@] == s[i].record@,
    decreases s.len(),
{
    if i < s.len() - 1 {
        assert(addresses_distinct(s.drop_last())) by {
            assert(forall|p: int, q: int|
                0 <= p < q < s.drop_last().len() ==> s.drop_last()[p] == s[p] && s.drop_last()[q] == s[q]);
        }
        lemma_map_of_index(s.drop_last(), i);
        assert(s.drop_last()[i] == s[i]);
        assert(s.last().address@ != s[i].address@);
    }
}

/// An address held by no entry is outside the map view.
pub proof fn lemma_map_of_absent(s: Seq<LedgerEntry>, a: Seq<u8>)
    requires
        forall|i: int| 0 <= i < s.len() ==> (#[trigger] s[i]).address@ != a,
    ensures
        !map_of(s).contains_key(a),
    decreases s.len(),
{
    if s.len() > 0 {
        assert(forall|i: int| 0 <= i < s.drop_last().len() ==> (#[trigger] s.drop_last()[i]).address@ != a);
        lemma_map_of_absent(s.drop_last(), a);
        assert(s.last().address@ != a);
    }
}

/// Replacing the entry at `i` by one at the same address updates the map
/// view at that address alone.
pub proof fn lemma_map_of_update(s: Seq<LedgerEntry>, i: int, e: LedgerEntry)
    requires
        addresses_distinct(s),
        0 <= i < s.len(),
        e.address@ == s[i].address@,
    ensures
        map_of(s.update(i, e)) == map_of(s).insert(e.address@, e.record@),
    decreases s.len(),
{
    let s2 = s.update(i, e);
    if i == s.len() - 1 {
        assert(s2.drop_last() =~= s.drop_last());
        assert(s2.last() == e);
        assert(map_of(s2) =~= map_of(s).insert(e.address@, e.record@));
    } else {
        assert(addresses_distinct(s.drop_last())) by {
            assert(forall|p: int, q: int|
                0 <= p < q < s.drop_last().len() ==> s.drop_last()[p] == s[p] && s.drop_last()[q] == s[q]);
        }
        lemma_map_of_update(s.drop_last(), i, e);
        assert(s2.drop_last() =~= s.drop_last().update(i, e));
        assert(s2.last() == s.last());
        assert(s.last().address@ != e.address@);
        assert(map_of(s2) =~= map_of(s).insert(e.address@, e.record@));
    }
}

/// Appending an entry adds exactly its address to the map view.
pub proof fn lemma_map_of_push(s: Seq<LedgerEntry>, e: LedgerEntry)
    ensures
        map_of(s.push(e)) == map_of(s).insert(e.address@, e.record@),
{
    assert(s.push(e).drop_last() =~= s);
    assert(s.push(e).last() == e);
}

impl Ledger {
    /// Well-formed: a 32-byte namespace, well-formed entries, and no two
    /// entries at one address.
    pub open spec fn wf(&self) -> bool {
        self.program_id.wf() && entries_wf(self.entries@) && addresses_distinct(self.entries@)
    }

    /// An empty store for a program namespace.
    pub fn new(program_id: Pubkey) -> (r: Ledger)
        requires
            program_id.wf(),
        ensures
            r.wf(),
            r@ == Map::<Seq<u8>, CounterView>::empty(),
            r.program_id@ == program_id@,
    {
        Ledger { program_id, entries: Vec::new() }
    }

    /// Finds the index of the entry stored at `addr`, if any.
    pub fn find(&self, addr: &Pubkey) -> (r: Option<usize>)
        requires
            self.wf(),
        ensures
            match r {
                Some(i) => i < self.entries@.len()
                    && self.entries@[i as int].address@ == addr@
                    && self@.contains_key(addr@)
                    && self@[addr@] == self.entries@[i as int].record@,
                None => !self@.contains_key(addr@),
            },
    {
        let n: usize = self.entries.len();
        let mut i: usize = 0;
        while i < n
            invariant
                n == self.entries@.len(),
                i <= n,
                self.wf(),
                forall|j: int| 0 <= j < i ==> (#[trigger] self.entries@[j]).address@ != addr@,
            decreases n - i,
        {
            if self.entries[i].address.eq_key(addr) {
                proof {
                    lemma_map_of_index(self.entries@, i as int);
                }
                return Some(i);
            }
            i += 1;
        }
        proof {
            lemma_map_of_absent(self.entries@, addr@);
        }
        None
    }
}

} // verus!
