//! A mapping from symbols to the fifteen-bit memory addresses they denote.
//!
//! The table is seeded with the predefined symbols, extended with labels
//! during the assembler's first pass and with variables during its second
//! pass, and never allows a name to be bound twice.

use vstd::prelude::*;

use crate::errors::AsmError;
use crate::instr::ADDRESS_LIMIT;
use crate::text::str_eq;

verus! {

/// The first address handed out to a variable.
pub const FIRST_VARIABLE_ADDRESS: u16 = 16;

/// The map an association list denotes, the first occurrence of a name
/// winning. Binds are only ever made for names not yet present, so no name
/// ever occurs twice in the list.
pub open spec fn first_wins_map(ps: Seq<(Seq<char>, u16)>) -> Map<Seq<char>, u16>
    decreases ps.len(),
{
    if ps.len() == 0 {
        Map::empty()
    } else {
        first_wins_map(ps.drop_first()).insert(ps[0].0, ps[0].1)
    }
}

/// The predefined symbols and their addresses, in seeding order.
pub open spec fn predefined_entries() -> Seq<(Seq<char>, u16)> {
    seq![
        ("R0"@, 0u16), ("R1"@, 1u16), ("R2"@, 2u16), ("R3"@, 3u16),
        ("R4"@, 4u16), ("R5"@, 5u16), ("R6"@, 6u16), ("R7"@, 7u16),
        ("R8"@, 8u16), ("R9"@, 9u16), ("R10"@, 10u16), ("R11"@, 11u16),
        ("R12"@, 12u16), ("R13"@, 13u16), ("R14"@, 14u16), ("R15"@, 15u16),
        ("SP"@, 0u16), ("LCL"@, 1u16), ("ARG"@, 2u16), ("THIS"@, 3u16),
        ("THAT"@, 4u16), ("SCREEN"@, 16384u16), ("KBD"@, 24576u16),
    ]
}

/// The addresses the predefined symbols denote.
pub open spec fn predefined_map() -> Map<Seq<char>, u16> {
    first_wins_map(predefined_entries())
}

/// The name/address pairs of an association list of owned strings.
pub open spec fn views_of(es: Seq<(String, u16)>) -> Seq<(Seq<char>, u16)> {
    es.map_values(|e: (String, u16)| (e.0@, e.1))
}

/// A name that matches no entry left of position `i` is bound to the value
/// at `i`.
proof fn lemma_first_wins_at(ps: Seq<(Seq<char>, u16)>, k: Seq<char>, i: int)
    requires
        0 <= i < ps.len(),
        ps[i].0 == k,
        forall|j: int| 0 <= j < i ==> (#[trigger] ps[j]).0 != k,
    ensures
        first_wins_map(ps).dom().contains(k),
        first_wins_map(ps)[k] == ps[i].1,
    decreases i,
{
    if i > 0 {
        assert(ps.drop_first()[i - 1] == ps[i]);
        assert forall|j: int| 0 <= j < i - 1 implies (#[trigger] ps.drop_first()[j]).0 != k by {
            assert(ps.drop_first()[j] == ps[j + 1]);
        }
        lemma_first_wins_at(ps.drop_first(), k, i - 1);
    }
}

/// A name is bound exactly when some entry carries it, and then its bound
/// value is some entry's value.
proof fn lemma_first_wins_contains(ps: Seq<(Seq<char>, u16)>, k: Seq<char>)
    ensures
        first_wins_map(ps).dom().contains(k) <==> exists|i: int|
            0 <= i < ps.len() && (#[trigger] ps[i]).0 == k,
        first_wins_map(ps).dom().contains(k) ==> exists|i: int|
            0 <= i < ps.len() && (#[trigger] ps[i]).0 == k
                && first_wins_map(ps)[k] == ps[i].1,
    decreases ps.len(),
{
    if ps.len() > 0 {
        lemma_first_wins_contains(ps.drop_first(), k);
        if ps[0].0 == k {
        } else {
            if first_wins_map(ps).dom().contains(k) {
                let i = choose|i: int|
                    0 <= i < ps.drop_first().len() && (#[trigger] ps.drop_first()[i]).0 == k
                        && first_wins_map(ps.drop_first())[k] == ps.drop_first()[i].1;
                assert(ps[i + 1] == ps.drop_first()[i]);
            }
            if exists|i: int| 0 <= i < ps.len() && (#[trigger] ps[i]).0 == k {
                let i = choose|i: int| 0 <= i < ps.len() && (#[trigger] ps[i]).0 == k;
                assert(ps.drop_first()[i - 1] == ps[i]);
            }
        }
    }
}

/// Appending an entry whose name is fresh extends the map by exactly that
/// binding.
proof fn lemma_first_wins_push(ps: Seq<(Seq<char>, u16)>, k: Seq<char>, v: u16)
    requires
        forall|i: int| 0 <= i < ps.len() ==> (#[trigger] ps[i]).0 != k,
    ensures
        first_wins_map(ps.push((k, v))) == first_wins_map(ps).insert(k, v),
    decreases ps.len(),
{
    let t = ps.push((k, v));
    if ps.len() == 0 {
        assert(t.len() == 1);
        assert(t[0] == (k, v));
        assert(t.drop_first() =~= Seq::<(Seq<char>, u16)>::empty());
        assert(first_wins_map(t.drop_first()) == Map::<Seq<char>, u16>::empty());
        assert(first_wins_map(t) =~= first_wins_map(ps).insert(k, v));
    } else {
        assert forall|i: int| 0 <= i < ps.drop_first().len()
            implies (#[trigger] ps.drop_first()[i]).0 != k by {
            assert(ps.drop_first()[i] == ps[i + 1]);
        }
        lemma_first_wins_push(ps.drop_first(), k, v);
        assert(t.drop_first() =~= ps.drop_first().push((k, v)));
        assert(t[0] == ps[0]);
        assert(first_wins_map(t)
            == first_wins_map(ps.drop_first()).insert(k, v).insert(ps[0].0, ps[0].1));
        assert(first_wins_map(ps.drop_first()).insert(k, v).insert(ps[0].0, ps[0].1)
            =~= first_wins_map(ps).insert(k, v));
    }
}

/// A mapping from symbols to the memory addresses they correspond to.
pub struct SymbolTable {
    entries: Vec<(String, u16)>,
    /// How many distinct variables have been assigned. This does not count
    /// predefined symbols or labels.
    num_variables: u16,
}

impl SymbolTable {
    /// The mathematical content of the table.
    pub closed spec fn map(self) -> Map<Seq<char>, u16> {
        first_wins_map(views_of(self.entries@))
    }

    /// How many variables have been allocated so far.
    pub closed spec fn vars(self) -> nat {
        self.num_variables as nat
    }

    /// Internal consistency: every bound address fits in fifteen bits, and
    /// the next variable address cannot overflow.
    pub closed spec fn wf(self) -> bool {
        &&& (forall|i: int| 0 <= i < self.entries@.len()
            ==> (#[trigger] self.entries@[i]).1 < ADDRESS_LIMIT)
        &&& FIRST_VARIABLE_ADDRESS + self.num_variables <= ADDRESS_LIMIT
    }

    /// Every address a well-formed table binds fits in fifteen bits.
    pub proof fn lemma_wf_values(self, k: Seq<char>)
        requires
            self.wf(),
            self.map().dom().contains(k),
        ensures
            self.map()[k] < ADDRESS_LIMIT,
    {
        let ps = views_of(self.entries@);
        lemma_first_wins_contains(ps, k);
        let i = choose|i: int|
            0 <= i < ps.len() && (#[trigger] ps[i]).0 == k && first_wins_map(ps)[k] == ps[i].1;
        assert(ps[i].1 == self.entries@[i].1);
    }

    /// Creates a new symbol table holding exactly the predefined symbols.
    pub fn new() -> (r: SymbolTable)
        ensures
            r.wf(),
            r.map() == predefined_map(),
            r.vars() == 0,
    {
        let mut entries: Vec<(String, u16)> = Vec::new();
        entries.push(("R0".to_owned(), 0));
        entries.push(("R1".to_owned(), 1));
        entries.push(("R2".to_owned(), 2));
        entries.push(("R3".to_owned(), 3));
        entries.push(("R4".to_owned(), 4));
        entries.push(("R5".to_owned(), 5));
        entries.push(("R6".to_owned(), 6));
        entries.push(("R7".to_owned(), 7));
        entries.push(("R8".to_owned(), 8));
        entries.push(("R9".to_owned(), 9));
        entries.push(("R10".to_owned(), 10));
        entries.push(("R11".to_owned(), 11));
        entries.push(("R12".to_owned(), 12));
        entries.push(("R13".to_owned(), 13));
        entries.push(("R14".to_owned(), 14));
        entries.push(("R15".to_owned(), 15));
        entries.push(("SP".to_owned(), 0));
        entries.push(("LCL".to_owned(), 1));
        entries.push(("ARG".to_owned(), 2));
        entries.push(("THIS".to_owned(), 3));
        entries.push(("THAT".to_owned(), 4));
        entries.push(("SCREEN".to_owned(), 16384));
        entries.push(("KBD".to_owned(), 24576));
        let r = SymbolTable { entries, num_variables: 0 };
        proof {
            assert(views_of(r.entries@) =~= predefined_entries());
        }
        r
    }

    /// Looks a symbol up. A pure read: the table is never changed.
    pub fn lookup_symbol(&self, symbol: &str) -> (r: Option<u16>)
        requires
            self.wf(),
        ensures
            r == (if self.map().dom().contains(symbol@) {
                Some(self.map()[symbol@])
            } else {
                None::<u16>
            }),
    {
        let ghost ps = views_of(self.entries@);
        let n = self.entries.len();
        let mut i: usize = 0;
        while i < n
            invariant
                n == self.entries@.len(),
                ps == views_of(self.entries@),
                i <= n,
                self.wf(),
                forall|j: int| 0 <= j < i ==> (#[trigger] ps[j]).0 != symbol@,
            decreases n - i,
        {
            proof {
                assert(ps[i as int].0 == self.entries@[i as int].0@);
            }
            if str_eq(self.entries[i].0.as_str(), symbol) {
                proof {
                    lemma_first_wins_at(ps, symbol@, i as int);
                }
                return Some(self.entries[i].1);
            }
            i = i + 1;
        }
        proof {
            lemma_first_wins_contains(ps, symbol@);
        }
        None
    }

    /// Binds a symbol, failing if it is already bound.
    fn try_insert(&mut self, symbol: String, value: u16) -> (r: Result<(), AsmError>)
        requires
            old(self).wf(),
            value < ADDRESS_LIMIT,
        ensures
            final(self).wf(),
            final(self).vars() == old(self).vars(),
            (r is Ok) == !old(self).map().dom().contains(symbol@),
            match r {
                Ok(()) => final(self).map() == old(self).map().insert(symbol@, value),
                Err(e) => e == AsmError::DuplicateSymbol && *final(self) == *old(self),
            },
    {
        match self.lookup_symbol(symbol.as_str()) {
            Some(_) => Err(AsmError::DuplicateSymbol),
            None => {
                let ghost pre = views_of(self.entries@);
                let ghost k = symbol@;
                proof {
                    lemma_first_wins_contains(pre, k);
                }
                self.entries.push((symbol, value));
                proof {
                    assert(views_of(self.entries@) =~= pre.push((k, value)));
                    lemma_first_wins_push(pre, k, value);
                }
                Ok(())
            },
        }
    }

    /// Binds a label to the offset of the instruction that follows it.
    pub fn new_label(&mut self, symbol: String, instruction_offset: u16) -> (r: Result<
        (),
        AsmError,
    >)
        requires
            old(self).wf(),
            instruction_offset < ADDRESS_LIMIT,
        ensures
            final(self).wf(),
            final(self).vars() == old(self).vars(),
            (r is Ok) == !old(self).map().dom().contains(symbol@),
            match r {
                Ok(()) => final(self).map() == old(self).map().insert(
                    symbol@,
                    instruction_offset,
                ),
                Err(e) => e == AsmError::DuplicateSymbol && *final(self) == *old(self),
            },
    {
        self.try_insert(symbol, instruction_offset)
    }

    /// Allocates the next variable address, starting from 16. Fails when
    /// the address space is exhausted or the symbol is already bound.
    pub fn new_variable(&mut self, symbol: String) -> (r: Result<u16, AsmError>)
        requires
            old(self).wf(),
        ensures
            final(self).wf(),
            (r is Ok) == (FIRST_VARIABLE_ADDRESS + old(self).vars() < ADDRESS_LIMIT
                && !old(self).map().dom().contains(symbol@)),
            match r {
                Ok(addr) => {
                    &&& addr == FIRST_VARIABLE_ADDRESS + old(self).vars()
                    &&& final(self).map() == old(self).map().insert(symbol@, addr)
                    &&& final(self).vars() == old(self).vars() + 1
                },
                Err(e) => {
                    &&& *final(self) == *old(self)
                    &&& e == (if FIRST_VARIABLE_ADDRESS + old(self).vars() >= ADDRESS_LIMIT {
                        AsmError::AddressSpaceExhausted
                    } else {
                        AsmError::DuplicateSymbol
                    })
                },
            },
    {
        let address = FIRST_VARIABLE_ADDRESS + self.num_variables;
        if address >= ADDRESS_LIMIT {
            return Err(AsmError::AddressSpaceExhausted);
        }
        match self.try_insert(symbol, address) {
            Ok(()) => {
                self.num_variables = self.num_variables + 1;
                Ok(address)
            },
            Err(e) => Err(e),
        }
    }
}

/// Law: once a bind of `name` has succeeded the table holds `name`, so any
/// further bind of it — as label or as variable, with the same address or
/// another — meets exactly the `DuplicateSymbol` case of `new_label` and
/// `new_variable`, whose contracts fail precisely when the name is bound.
pub proof fn lemma_second_bind_fails(m: Map<Seq<char>, u16>, name: Seq<char>, value: u16)
    ensures
        m.insert(name, value).dom().contains(name),
{
}

} // verus!
