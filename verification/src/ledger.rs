use vstd::prelude::*;
use crate::block::address_eq;
use crate::u256::U256;

verus! {

/// One address's holdings: its coin balance and its gas balance.
#[derive(Clone, Copy)]
pub struct LedgerEntry {
    pub balance: U256,
    pub gas: U256,
}

/// The ledger: coin and gas balances per 33-byte address. An address that
/// was never credited holds zero of both; the two states cannot be told
/// apart.
pub struct Ledger {
    pub entries: Vec<([u8; 33], LedgerEntry)>,
}

/// The first entry for an address in a row of entries, if any.
pub open spec fn find_entry(s: Seq<([u8; 33], LedgerEntry)>, addr: Seq<u8>) -> Option<LedgerEntry>
    decreases s.len(),
{
    if s.len() == 0 {
        None
    } else if s[0].0@ == addr {
        Some(s[0].1)
    } else {
        find_entry(s.skip(1), addr)
    }
}

/// When the first i entries miss the address, the search starts at i.
proof fn lemma_find_entry_skip(s: Seq<([u8; 33], LedgerEntry)>, addr: Seq<u8>, i: int)
    requires
        0 <= i <= s.len(),
        forall|j: int| 0 <= j < i ==> s[j].0@ != addr,
    ensures
        find_entry(s, addr) == find_entry(s.skip(i), addr),
    decreases i,
{
    if i == 0 {
        assert(s.skip(0) =~= s);
    } else {
        lemma_find_entry_skip(s, addr, i - 1);
        let t = s.skip(i - 1);
        assert(t[0] == s[i - 1]);
        assert(t.skip(1) =~= s.skip(i));
    }
}

/// Replacing the entry at a position leaves every other address's entry as
/// it was, and serves the replaced entry's own address from the new value
/// when no earlier entry shadows it.
proof fn lemma_find_entry_update(
    s: Seq<([u8; 33], LedgerEntry)>,
    i: int,
    v: ([u8; 33], LedgerEntry),
    addr: Seq<u8>,
)
    requires
        0 <= i < s.len(),
        s[i].0@ == v.0@,
        forall|j: int| 0 <= j < i ==> s[j].0@ != v.0@,
    ensures
        find_entry(s.update(i, v), addr) == if addr == v.0@ {
            Some(v.1)
        } else {
            find_entry(s, addr)
        },
    decreases i,
{
    let u = s.update(i, v);
    if i == 0 {
        assert(u[0] == v);
        assert(u.skip(1) =~= s.skip(1));
        if addr == v.0@ {
        } else {
            assert(s[0].0@ != addr || find_entry(s, addr) == Some(s[0].1));
        }
    } else {
        assert(u[0] == s[0]);
        assert(u.skip(1) =~= s.skip(1).update(i - 1, v));
        lemma_find_entry_update(s.skip(1), i - 1, v, addr);
    }
}

/// Appending an entry for a fresh address serves that address from the new
/// entry and leaves every other address's entry as it was.
proof fn lemma_find_entry_push(
    s: Seq<([u8; 33], LedgerEntry)>,
    v: ([u8; 33], LedgerEntry),
    addr: Seq<u8>,
)
    requires
        find_entry(s, v.0@) is None,
    ensures
        find_entry(s.push(v), addr) == if addr == v.0@ {
            Some(v.1)
        } else {
            find_entry(s, addr)
        },
    decreases s.len(),
{
    let u = s.push(v);
    if s.len() == 0 {
        assert(u.skip(1) =~= Seq::<([u8; 33], LedgerEntry)>::empty());
    } else {
        assert(u[0] == s[0]);
        assert(u.skip(1) =~= s.skip(1).push(v));
        lemma_find_entry_push(s.skip(1), v, addr);
    }
}

impl Ledger {
    /// The coin balance the ledger holds for an address.
    pub open spec fn balance_of(self, addr: Seq<u8>) -> nat {
        match find_entry(self.entries@, addr) {
            Some(e) => e.balance.as_nat(),
            None => 0,
        }
    }

    /// The gas balance the ledger holds for an address.
    pub open spec fn gas_of(self, addr: Seq<u8>) -> nat {
        match find_entry(self.entries@, addr) {
            Some(e) => e.gas.as_nat(),
            None => 0,
        }
    }

    /// An empty ledger: every address holds zero coin and zero gas.
    pub fn new() -> (r: Ledger)
        ensures
            forall|a: Seq<u8>| r.balance_of(a) == 0,
            forall|a: Seq<u8>| r.gas_of(a) == 0,
    {
        Ledger { entries: Vec::new() }
    }

    /// Look up the coin balance of an address.
    pub fn get_balance(&self, addr: &[u8; 33]) -> (r: U256)
        ensures
            r.as_nat() == self.balance_of(addr@),
    {
        match self.find(addr) {
            Some(i) => self.entries[i].1.balance,
            None => U256::zero(),
        }
    }

    /// Look up the gas balance of an address.
    pub fn get_gas(&self, addr: &[u8; 33]) -> (r: U256)
        ensures
            r.as_nat() == self.gas_of(addr@),
    {
        match self.find(addr) {
            Some(i) => self.entries[i].1.gas,
            None => U256::zero(),
        }
    }

    /// The position of the entry for an address, if one exists.
    fn find(&self, addr: &[u8; 33]) -> (r: Option<usize>)
        ensures
            match r {
                Some(i) => i < self.entries@.len() && self.entries@[i as int].0@ == addr@
                    && find_entry(self.entries@, addr@) == Some(self.entries@[i as int].1) && (
                forall|j: int| 0 <= j < i ==> self.entries@[j].0@ != addr@),
                None => find_entry(self.entries@, addr@) is None,
            },
    {
        let mut i: usize = 0;
        while i < self.entries.len()
            invariant
                i <= self.entries@.len(),
                forall|j: int| 0 <= j < i ==> self.entries@[j].0@ != addr@,
            decreases self.entries@.len() - i,
        {
            if address_eq(&self.entries[i].0, addr) {
                proof {
                    lemma_find_entry_skip(self.entries@, addr@, i as int);
                    assert(self.entries@.skip(i as int)[0] == self.entries@[i as int]);
                }
                return Some(i);
            }
            i += 1;
        }
        proof {
            lemma_find_entry_skip(self.entries@, addr@, self.entries@.len() as int);
        }
        None
    }

    /// Set the coin balance of an address, creating its entry if it has
    /// none yet. Gas balances and every other address are untouched.
    pub fn set_balance(&mut self, addr: &[u8; 33], value: U256)
        ensures
            final(self).balance_of(addr@) == value.as_nat(),
            forall|a: Seq<u8>| a != addr@ ==> final(self).balance_of(a) == old(self).balance_of(a),
            forall|a: Seq<u8>| final(self).gas_of(a) == old(self).gas_of(a),
    {
        match self.find(addr) {
            Some(i) => {
                let entry = LedgerEntry { balance: value, gas: self.entries[i].1.gas };
                let ghost s = self.entries@;
                let ghost v = (self.entries@[i as int].0, entry);
                self.entries[i] = (self.entries[i].0, entry);
                proof {
                    assert(self.entries@ =~= s.update(i as int, v));
                    assert forall|a: Seq<u8>| true implies find_entry(self.entries@, a) == (if a
                        == v.0@ {
                        Some(v.1)
                    } else {
                        find_entry(s, a)
                    }) by {
                        lemma_find_entry_update(s, i as int, v, a);
                    }
                }
            },
            None => {
                let entry = LedgerEntry { balance: value, gas: U256::zero() };
                let ghost s = self.entries@;
                let ghost v = (*addr, entry);
                self.entries.push((*addr, entry));
                proof {
                    assert(self.entries@ =~= s.push(v));
                    assert forall|a: Seq<u8>| true implies find_entry(self.entries@, a) == (if a
                        == v.0@ {
                        Some(v.1)
                    } else {
                        find_entry(s, a)
                    }) by {
                        lemma_find_entry_push(s, v, a);
                    }
                }
            },
        }
    }

    /// Set the gas balance of an address, creating its entry if it has none
    /// yet. Coin balances and every other address are untouched.
    pub fn set_gas(&mut self, addr: &[u8; 33], value: U256)
        ensures
            final(self).gas_of(addr@) == value.as_nat(),
            forall|a: Seq<u8>| a != addr@ ==> final(self).gas_of(a) == old(self).gas_of(a),
            forall|a: Seq<u8>| final(self).balance_of(a) == old(self).balance_of(a),
    {
        match self.find(addr) {
            Some(i) => {
                let entry = LedgerEntry { balance: self.entries[i].1.balance, gas: value };
                let ghost s = self.entries@;
                let ghost v = (self.entries@[i as int].0, entry);
                self.entries[i] = (self.entries[i].0, entry);
                proof {
                    assert(self.entries@ =~= s.update(i as int, v));
                    assert forall|a: Seq<u8>| true implies find_entry(self.entries@, a) == (if a
                        == v.0@ {
                        Some(v.1)
                    } else {
                        find_entry(s, a)
                    }) by {
                        lemma_find_entry_update(s, i as int, v, a);
                    }
                }
            },
            None => {
                let entry = LedgerEntry { balance: U256::zero(), gas: value };
                let ghost s = self.entries@;
                let ghost v = (*addr, entry);
                self.entries.push((*addr, entry));
                proof {
                    assert(self.entries@ =~= s.push(v));
                    assert forall|a: Seq<u8>| true implies find_entry(self.entries@, a) == (if a
                        == v.0@ {
                        Some(v.1)
                    } else {
                        find_entry(s, a)
                    }) by {
                        lemma_find_entry_push(s, v, a);
                    }
                }
            },
        }
    }
}

} // verus!
