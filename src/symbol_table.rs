use vstd::prelude::*;
use crate::text::same_text;

verus! {

/// The mathematical state of a symbol table: the bound names and the next
/// address to hand out to a variable.
pub struct SymbolState {
    pub bindings: Map<Seq<char>, nat>,
    pub next: nat,
}

impl SymbolState {
    /// The address that `name` resolves to: its binding, or the next free
    /// variable address when it is unbound.
    pub open spec fn address_of(self, name: Seq<char>) -> nat {
        if self.bindings.contains_key(name) {
            self.bindings[name]
        } else {
            self.next
        }
    }

    /// The state after resolving `name`: unchanged when bound, else `name`
    /// takes the next variable address and the cursor moves on by one.
    pub open spec fn resolve(self, name: Seq<char>) -> SymbolState {
        if self.bindings.contains_key(name) {
            self
        } else {
            SymbolState { bindings: self.bindings.insert(name, self.next), next: self.next + 1 }
        }
    }

    /// The state after binding a label: unchanged when `name` is already bound.
    pub open spec fn bind_label(self, name: Seq<char>, address: nat) -> SymbolState {
        if self.bindings.contains_key(name) {
            self
        } else {
            SymbolState { bindings: self.bindings.insert(name, address), next: self.next }
        }
    }
}

/// The names that the architecture defines, with their addresses.
pub open spec fn predefined_bindings() -> Map<Seq<char>, nat> {
    map![
        "R0"@ => 0nat, "R1"@ => 1nat, "R2"@ => 2nat, "R3"@ => 3nat,
        "R4"@ => 4nat, "R5"@ => 5nat, "R6"@ => 6nat, "R7"@ => 7nat,
        "R8"@ => 8nat, "R9"@ => 9nat, "R10"@ => 10nat, "R11"@ => 11nat,
        "R12"@ => 12nat, "R13"@ => 13nat, "R14"@ => 14nat, "R15"@ => 15nat,
        "SP"@ => 0nat, "LCL"@ => 1nat, "ARG"@ => 2nat, "THIS"@ => 3nat, "THAT"@ => 4nat,
        "SCREEN"@ => 16384nat, "KBD"@ => 24576nat,
    ]
}

/// The state of a fresh table: the predefined names, and variables from 16 on.
pub open spec fn initial_state() -> SymbolState {
    SymbolState { bindings: predefined_bindings(), next: 16 }
}

/// Law: fresh variables take sequential addresses from the cursor on, and a
/// name keeps the address it was first given.
pub proof fn lemma_variables_sequential(s: SymbolState, a: Seq<char>, b: Seq<char>)
    requires
        a != b,
        !s.bindings.contains_key(a),
        !s.bindings.contains_key(b),
    ensures
        s.address_of(a) == s.next,
        s.resolve(a).address_of(b) == s.next + 1,
        s.resolve(a).resolve(b).address_of(a) == s.next,
        s.resolve(a).resolve(b).resolve(a) == s.resolve(a).resolve(b),
{
}

/// Law: once bound, a name keeps its address, whatever is resolved or bound
/// after it.
pub proof fn lemma_bindings_kept(s: SymbolState, name: Seq<char>, other: Seq<char>, address: nat)
    requires
        s.bindings.contains_key(other),
    ensures
        s.resolve(name).bindings.contains_key(other),
        s.resolve(name).bindings[other] == s.bindings[other],
        s.bind_label(name, address).bindings.contains_key(other),
        s.bind_label(name, address).bindings[other] == s.bindings[other],
{
}

/// Law: a fresh table gives the first new variable address 16, the second 17,
/// and the first again 16.
pub proof fn lemma_first_variables(a: Seq<char>, b: Seq<char>)
    requires
        a != b,
        !predefined_bindings().contains_key(a),
        !predefined_bindings().contains_key(b),
    ensures
        initial_state().address_of(a) == 16,
        initial_state().resolve(a).address_of(b) == 17,
        initial_state().resolve(a).resolve(b).address_of(a) == 16,
{
    lemma_variables_sequential(initial_state(), a, b);
}

/// Names and their addresses: the predefined ones, labels, and variables.
pub struct SymbolTable {
    table: Vec<(String, u64)>,
    sp: u64,
}

/// The bindings that a list of entries holds; a later entry for a name
/// stands over an earlier one.
pub open spec fn bindings_of(entries: Seq<(String, u64)>) -> Map<Seq<char>, nat>
    decreases entries.len(),
{
    if entries.len() == 0 {
        Map::empty()
    } else {
        let last = entries.last();
        bindings_of(entries.drop_last()).insert(last.0@, last.1 as nat)
    }
}

impl View for SymbolTable {
    type V = SymbolState;

    closed spec fn view(&self) -> SymbolState {
        SymbolState { bindings: bindings_of(self.table@), next: self.sp as nat }
    }
}

impl SymbolTable {
    /// A table holding the predefined names, with the variable cursor at 16.
    pub fn new() -> (r: SymbolTable)
        ensures
            r@ == initial_state(),
    {
        let mut t = SymbolTable { table: Vec::new(), sp: 16 };
        proof {
            assert(t.table@ =~= Seq::<(String, u64)>::empty());
        }
        t.push("R0", 0);
        t.push("R1", 1);
        t.push("R2", 2);
        t.push("R3", 3);
        t.push("R4", 4);
        t.push("R5", 5);
        t.push("R6", 6);
        t.push("R7", 7);
        t.push("R8", 8);
        t.push("R9", 9);
        t.push("R10", 10);
        t.push("R11", 11);
        t.push("R12", 12);
        t.push("R13", 13);
        t.push("R14", 14);
        t.push("R15", 15);
        t.push("SP", 0);
        t.push("LCL", 1);
        t.push("ARG", 2);
        t.push("THIS", 3);
        t.push("THAT", 4);
        t.push("SCREEN", 16384);
        t.push("KBD", 24576);
        assert(t@.bindings =~= predefined_bindings());
        t
    }

    fn push(&mut self, symbol: &str, val: u64)
        ensures
            final(self)@.bindings == old(self)@.bindings.insert(symbol@, val as nat),
            final(self)@.next == old(self)@.next,
    {
        self.table.push((symbol.to_owned(), val));
        assert(self.table@.drop_last() =~= old(self).table@);
    }

    /// The next address that an unbound name would receive.
    pub(crate) fn next_address(&self) -> (r: u64)
        ensures
            r == self@.next,
    {
        self.sp
    }

    /// Returns the address bound to `symbol`, first binding it to the next
    /// variable address when it is unbound.
    pub fn get_symbol(&mut self, symbol: &str) -> (r: u64)
        requires
            old(self)@.bindings.contains_key(symbol@) || old(self)@.next < u64::MAX,
        ensures
            r == old(self)@.address_of(symbol@),
            final(self)@ == old(self)@.resolve(symbol@),
    {
        match self.lookup(symbol) {
            Some(v) => v,
            None => {
                let old_sp = self.sp;
                self.push(symbol, old_sp);
                self.sp = old_sp + 1;
                old_sp
            },
        }
    }

    /// Binds a label to `val` when `symbol` is unbound, returning `Some(val)`;
    /// returns `None` and leaves the table as it was when it is already bound.
    pub fn add_L_symbol(&mut self, symbol: &str, val: u64) -> (r: Option<u64>)
        ensures
            r == (if old(self)@.bindings.contains_key(symbol@) { None } else { Some(val) }),
            final(self)@ == old(self)@.bind_label(symbol@, val as nat),
    {
        match self.lookup(symbol) {
            Some(_) => None,
            None => {
                self.push(symbol, val);
                Some(val)
            },
        }
    }

    /// The address bound to `symbol`, if any; the table is left as it is.
    pub fn lookup(&self, symbol: &str) -> (r: Option<u64>)
        ensures
            r matches Some(v) ==> self@.bindings.contains_key(symbol@) && self@.bindings[symbol@] == v as nat,
            r is None ==> !self@.bindings.contains_key(symbol@),
    {
        let mut i: usize = self.table.len();
        assert(self.table@.take(i as int) =~= self.table@);
        while i > 0
            invariant
                i <= self.table@.len(),
                bindings_of(self.table@.take(i as int)).contains_key(symbol@)
                    == self@.bindings.contains_key(symbol@),
                self@.bindings.contains_key(symbol@) ==>
                    bindings_of(self.table@.take(i as int))[symbol@] == self@.bindings[symbol@],
            decreases i,
        {
            assert(self.table@.take(i as int).drop_last() =~= self.table@.take(i - 1));
            if same_text(self.table[i - 1].0.as_str(), symbol) {
                return Some(self.table[i - 1].1);
            }
            i = i - 1;
        }
        None
    }
}

} // verus!
