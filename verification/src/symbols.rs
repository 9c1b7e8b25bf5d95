//! The symbol table and the resolution of address-instruction operands.
//!
//! The table maps symbol names to 16-bit addresses. Labels are entered by
//! the first pass; variables are entered here, on their first appearance
//! as an operand, at sequential addresses starting at 16. Predefined
//! symbols (`SP`, `LCL`, `ARG`, `THIS`, `THAT`, `SCREEN`, `KBD` and the
//! register aliases `R0` ..= `R15`) have fixed addresses and take
//! precedence over every table entry.

use crate::text::{all_digits, bytes_eq, copy_range, digits_to_end, digits_val, digits_value, eq2,
    eq3, eq4, eq6, is_digit};
use crate::AsmError;
use vstd::prelude::*;

verus! {

/// The mathematical state of a symbol table: its name-to-address map and
/// the next free variable address.
pub struct SymModel {
    /// Resolved name-to-address bindings: labels and assigned variables.
    pub table: Map<Seq<u8>, nat>,
    /// The address the next new variable will receive. It starts at 16
    /// and grows by one with each variable, so it always reads 16 plus
    /// the count of variables assigned so far.
    pub next_var: nat,
}

/// A non-empty run of decimal digits: a literal address operand.
pub open spec fn is_literal(name: Seq<u8>) -> bool {
    name.len() > 0 && all_digits(name, 0)
}

/// The numeric value of a literal address operand.
pub open spec fn literal_val(name: Seq<u8>) -> nat {
    digits_val(name, 0, name.len() as int)
}

/// Exactly the names `R0` ..= `R15`: `R` followed by the canonical
/// decimal digits (no leading zero) of a register number.
pub open spec fn is_register_name(name: Seq<u8>) -> bool {
    &&& name.len() >= 2
    &&& name[0] == ('R' as u8)
    &&& all_digits(name, 1)
    &&& (name.len() == 2 || name[1] != ('0' as u8))
    &&& digits_val(name, 1, name.len() as int) <= 15
}

/// `R` followed by any non-empty digit run: the register-alias operand
/// pattern, whose digits are read directly as an address.
pub open spec fn is_reg_ref(name: Seq<u8>) -> bool {
    name.len() >= 2 && name[0] == ('R' as u8) && all_digits(name, 1)
}

/// The fixed address of a predefined symbol, if `name` is one: the seven
/// architecture pointers and the sixteen register aliases.
pub open spec fn predefined(name: Seq<u8>) -> Option<nat> {
    if name == seq![('S' as u8), ('P' as u8)] {
        Some(0nat)
    } else if name == seq![('L' as u8), ('C' as u8), ('L' as u8)] {
        Some(1nat)
    } else if name == seq![('A' as u8), ('R' as u8), ('G' as u8)] {
        Some(2nat)
    } else if name == seq![('T' as u8), ('H' as u8), ('I' as u8), ('S' as u8)] {
        Some(3nat)
    } else if name == seq![('T' as u8), ('H' as u8), ('A' as u8), ('T' as u8)] {
        Some(4nat)
    } else if name == seq![('S' as u8), ('C' as u8), ('R' as u8), ('E' as u8), ('E' as u8), (
    'N' as u8)] {
        Some(16384nat)
    } else if name == seq![('K' as u8), ('B' as u8), ('D' as u8)] {
        Some(24576nat)
    } else if is_register_name(name) {
        Some(digits_val(name, 1, name.len() as int))
    } else {
        None
    }
}

/// Resolution of one operand against table state `m`, following the
/// fixed rule order: literal, predefined symbol, table entry, register
/// alias, new variable. Only the last rule changes the state: it binds
/// the name to the next free variable address. The returned address is
/// unbounded here; the 15-bit range check is the caller's.
pub open spec fn resolve_spec(m: SymModel, name: Seq<u8>) -> (SymModel, nat) {
    if is_literal(name) {
        (m, literal_val(name))
    } else {
        match predefined(name) {
            Some(a) => (m, a),
            None => if m.table.contains_key(name) {
                (m, m.table[name])
            } else if is_reg_ref(name) {
                (m, digits_val(name, 1, name.len() as int))
            } else {
                (
                    SymModel {
                        table: m.table.insert(name, m.next_var),
                        next_var: m.next_var + 1,
                    },
                    m.next_var,
                )
            },
        }
    }
}

/// One name-to-address binding held by the table.
struct SymEntry {
    name: Vec<u8>,
    addr: usize,
}

/// The map described by a sequence of bindings; a later binding for the
/// same name overrides an earlier one.
spec fn entries_map(s: Seq<SymEntry>) -> Map<Seq<u8>, nat>
    decreases s.len(),
{
    if s.len() == 0 {
        Map::empty()
    } else {
        entries_map(s.drop_last()).insert(s.last().name@, s.last().addr as nat)
    }
}

/// The symbol table: name-to-address bindings plus the next free
/// variable address.
pub struct SymbolTable {
    entries: Vec<SymEntry>,
    next_var: usize,
}

impl View for SymbolTable {
    type V = SymModel;

    closed spec fn view(&self) -> SymModel {
        SymModel { table: entries_map(self.entries@), next_var: self.next_var as nat }
    }
}

impl SymbolTable {
    /// The table is well formed while the variable counter stays in the
    /// 15-bit address range extended by one: addresses up to 32767 can
    /// still be handed out, and at 32768 every further variable is an
    /// overflow.
    pub open spec fn wf(self) -> bool {
        16 <= self@.next_var <= 32768
    }

    /// An empty table: no bindings, variables to start at address 16.
    pub fn new() -> (r: SymbolTable)
        ensures
            r.wf(),
            r@ == (SymModel { table: Map::empty(), next_var: 16nat }),
    {
        SymbolTable { entries: Vec::new(), next_var: 16 }
    }

    /// Bind `name` to `addr`, overriding any earlier binding of the same
    /// name. The first pass enters label addresses this way.
    pub fn insert(&mut self, name: Vec<u8>, addr: usize)
        ensures
            final(self)@ == (SymModel {
                table: old(self)@.table.insert(name@, addr as nat),
                next_var: old(self)@.next_var,
            }),
            final(self).wf() == old(self).wf(),
    {
        let ghost before = self.entries@;
        self.entries.push(SymEntry { name, addr });
        proof {
            assert(self.entries@.drop_last() =~= before);
        }
    }

    /// Look a name up among the bindings.
    pub fn lookup(&self, name: &Vec<u8>) -> (r: Option<usize>)
        ensures
            match r {
                Some(a) => self@.table.contains_key(name@) && self@.table[name@] == a as nat,
                None => !self@.table.contains_key(name@),
            },
    {
        let mut i: usize = self.entries.len();
        proof {
            assert(self.entries@.subrange(0, self.entries@.len() as int) =~= self.entries@);
        }
        while i > 0
            invariant
                0 <= i <= self.entries@.len(),
                entries_map(self.entries@).contains_key(name@) == entries_map(
                    self.entries@.subrange(0, i as int),
                ).contains_key(name@),
                entries_map(self.entries@).contains_key(name@) ==> entries_map(
                    self.entries@,
                )[name@] == entries_map(self.entries@.subrange(0, i as int))[name@],
            decreases i,
        {
            let e = &self.entries[i - 1];
            proof {
                assert(self.entries@.subrange(0, i as int).drop_last() =~= self.entries@.subrange(
                    0,
                    i as int - 1,
                ));
                assert(self.entries@.subrange(0, i as int).last() == self.entries@[i as int - 1]);
            }
            if bytes_eq(&e.name, name) {
                return Some(e.addr);
            }
            i = i - 1;
        }
        proof {
            assert(self.entries@.subrange(0, 0) =~= Seq::<SymEntry>::empty());
        }
        None
    }

    /// Resolve one address operand, applying the five resolution rules
    /// in order, and check the result against the 15-bit address range:
    /// an address beyond 32767 is an overflow and leaves the table
    /// unchanged.
    pub fn resolve(&mut self, name: &Vec<u8>) -> (r: Result<u16, AsmError>)
        requires
            old(self).wf(),
        ensures
            final(self).wf(),
            ({
                let (m2, a) = resolve_spec(old(self)@, name@);
                if a <= 32767 {
                    r == Ok::<u16, AsmError>(a as u16) && final(self)@ == m2
                } else {
                    r == Err::<u16, AsmError>(AsmError::AddressOverflow) && final(self)@ == old(
                        self,
                    )@
                }
            }),
    {
        if digits_to_end(name, 0) {
            return match digits_value(name, 0) {
                Some(a) => Ok(a),
                None => Err(AsmError::AddressOverflow),
            };
        }
        match predefined_lookup(name) {
            Some(a) => {
                return Ok(a);
            },
            None => {},
        }
        match self.lookup(name) {
            Some(a) => {
                return if a <= 32767 {
                    Ok(a as u16)
                } else {
                    Err(AsmError::AddressOverflow)
                };
            },
            None => {},
        }
        if name.len() >= 2 && name[0] == ('R' as u8) && digits_to_end(name, 1) {
            return match digits_value(name, 1) {
                Some(a) => Ok(a),
                None => Err(AsmError::AddressOverflow),
            };
        }
        let a = self.next_var;
        if a > 32767 {
            return Err(AsmError::AddressOverflow);
        }
        self.insert(copy_range(name, 0, name.len()), a);
        self.next_var = a + 1;
        proof {
            assert(name@.subrange(0, name@.len() as int) =~= name@);
        }
        Ok(a as u16)
    }
}

/// Relies on the fixed rule order: a predefined symbol resolves to its
/// fixed address whatever the table holds — a label of the same name may
/// sit in the table, but the predefined rule is consulted first, so the
/// resolved address is the same wherever the operand stands in the
/// source.
pub proof fn lemma_predefined_resolution(m: SymModel, name: Seq<u8>, a: nat)
    requires
        predefined(name) == Some(a),
    ensures
        resolve_spec(m, name) == (m, a),
{
    if is_literal(name) {
        assert(is_digit(name[0]));
    }
}

/// A fresh identifier — no literal, no predefined symbol, no table
/// entry, no register alias — is assigned exactly the next free variable
/// address, and the counter then advances by one: with the counter
/// starting at 16, the n-th new variable receives address 16 + n.
pub proof fn lemma_fresh_variable(m: SymModel, name: Seq<u8>)
    requires
        !is_literal(name),
        predefined(name) is None,
        !m.table.contains_key(name),
        !is_reg_ref(name),
    ensures
        resolve_spec(m, name).1 == m.next_var,
        resolve_spec(m, name).0.table == m.table.insert(name, m.next_var),
        resolve_spec(m, name).0.next_var == m.next_var + 1,
{
}

/// Every operand that is not a fresh identifier resolves without
/// touching the table or the variable counter.
pub proof fn lemma_resolve_preserves(m: SymModel, name: Seq<u8>)
    requires
        is_literal(name) || predefined(name) is Some || m.table.contains_key(name) || is_reg_ref(
            name,
        ),
    ensures
        resolve_spec(m, name).0 == m,
{
}

/// Resolving the same operand a second time yields the same address and
/// changes nothing: in particular, a variable keeps the address of its
/// first appearance, with no duplicate allocation.
pub proof fn lemma_resolve_stable(m: SymModel, name: Seq<u8>)
    ensures
        ({
            let (m1, a1) = resolve_spec(m, name);
            resolve_spec(m1, name) == (m1, a1)
        }),
{
}

/// Look a name up among the predefined symbols; the result is their
/// fixed address, always within the 15-bit range.
fn predefined_lookup(name: &Vec<u8>) -> (r: Option<u16>)
    ensures
        match r {
            Some(a) => predefined(name@) == Some(a as nat),
            None => predefined(name@) is None,
        },
{
    if eq2(name, ('S' as u8), ('P' as u8)) {
        return Some(0);
    }
    if eq3(name, ('L' as u8), ('C' as u8), ('L' as u8)) {
        return Some(1);
    }
    if eq3(name, ('A' as u8), ('R' as u8), ('G' as u8)) {
        return Some(2);
    }
    if eq4(name, ('T' as u8), ('H' as u8), ('I' as u8), ('S' as u8)) {
        return Some(3);
    }
    if eq4(name, ('T' as u8), ('H' as u8), ('A' as u8), ('T' as u8)) {
        return Some(4);
    }
    if eq6(name, ('S' as u8), ('C' as u8), ('R' as u8), ('E' as u8), ('E' as u8), ('N' as u8)) {
        return Some(16384);
    }
    if eq3(name, ('K' as u8), ('B' as u8), ('D' as u8)) {
        return Some(24576);
    }
    if name.len() >= 2 && name[0] == ('R' as u8) && digits_to_end(name, 1) && (name.len() == 2
        || name[1] != ('0' as u8)) {
        match digits_value(name, 1) {
            Some(v) => {
                if v <= 15 {
                    return Some(v);
                }
            },
            None => {},
        }
    }
    None
}

} // verus!
