//! Interned identifiers.

use vstd::prelude::*;
use vstd::string::*;

verus! {

/// A symbol is a reference to an entry in a [`SymbolTable`].
#[derive(Debug, PartialEq, Eq, PartialOrd, Ord, Hash, Clone, Copy, Structural)]
pub struct Symbol(pub u32);

impl Symbol {
    pub fn new(name: u32) -> (symbol: Symbol)
        ensures
            symbol.0 == name,
    {
        Symbol(name)
    }

    pub fn to_usize(&self) -> (index: usize)
        ensures
            index == self.0,
    {
        self.0 as usize
    }
}

/// The largest number of names a table can hold: every name needs a 32-bit symbol.
pub open spec fn capacity() -> nat {
    0x1_0000_0000
}

/// Whether `names` holds no text twice.
pub open spec fn distinct(names: Seq<Seq<char>>) -> bool {
    forall|i: int, j: int| 0 <= i < j < names.len() ==> names[i] != names[j]
}

/// The position of `text` in `names`, or the length of `names` where it is absent.
pub open spec fn position(names: Seq<Seq<char>>, text: Seq<char>) -> nat
    decreases names.len(),
{
    if names.len() == 0 {
        0
    } else if names[0] == text {
        0
    } else {
        1 + position(names.drop_first(), text)
    }
}

/// The names after `text` was interned: unchanged where `text` is present,
/// with `text` appended where it is not.
pub open spec fn interned(names: Seq<Seq<char>>, text: Seq<char>) -> Seq<Seq<char>> {
    if names.contains(text) {
        names
    } else {
        names.push(text)
    }
}

pub proof fn lemma_position(names: Seq<Seq<char>>, text: Seq<char>)
    ensures
        position(names, text) <= names.len(),
        position(names, text) < names.len() <==> names.contains(text),
        names.contains(text) ==> names[position(names, text) as int] == text,
        forall|i: int| 0 <= i < position(names, text) ==> names[i] != text,
    decreases names.len(),
{
    if names.len() == 0 {
    } else if names[0] == text {
    } else {
        let rest = names.drop_first();
        lemma_position(rest, text);
        if rest.contains(text) {
            let k = position(rest, text) as int;
            assert(names[k + 1] == rest[k]);
        }
        if names.contains(text) {
            let i = choose|i: int| 0 <= i < names.len() && names[i] == text;
            assert(rest[i - 1] == text);
        }
        assert forall|i: int| 0 <= i < position(names, text) implies names[i] != text by {
            if i > 0 {
                assert(names[i] == rest[i - 1]);
            }
        }
    }
}

/// Interning a text gives it a symbol that stands for it, and interning it
/// again changes nothing and gives the same symbol; no name is removed, and
/// the symbols of the names that were there before stay as they are.
pub proof fn lemma_interning_is_idempotent(names: Seq<Seq<char>>, text: Seq<char>)
    requires
        distinct(names),
    ensures
        distinct(interned(names, text)),
        interned(names, text)[position(names, text) as int] == text,
        interned(interned(names, text), text) == interned(names, text),
        position(interned(names, text), text) == position(names, text),
        forall|i: int| 0 <= i < names.len() ==> (#[trigger] interned(names, text)[i]) == names[i],
        forall|other: Seq<char>|
            names.contains(other) ==> position(interned(names, text), other) == #[trigger] position(
                names,
                other,
            ),
{
    let after = interned(names, text);
    lemma_position(names, text);
    lemma_position(after, text);
    if !names.contains(text) {
        assert(after[names.len() as int] == text);
        assert forall|i: int, j: int| 0 <= i < j < after.len() implies after[i] != after[j] by {
            if j == names.len() {
                assert(names[i] == after[i]);
            }
        }
    }
    let at = position(names, text) as int;
    assert(after[at] == text);
    assert(position(after, text) == at) by {
        let found = position(after, text) as int;
        if found < at {
            assert(after[found] == text);
            assert(names[found] == after[found]);
        }
    }
    assert forall|other: Seq<char>| names.contains(other) implies position(after, other)
        == #[trigger] position(names, other) by {
        lemma_position(names, other);
        lemma_position(after, other);
        let old_at = position(names, other) as int;
        let new_at = position(after, other) as int;
        assert(after[old_at] == other);
        if new_at < old_at {
            assert(names[new_at] == after[new_at]);
        }
    }
}

/// A bi-directional mapping between strings and symbols.
#[derive(Debug)]
pub struct SymbolTable {
    strings: Vec<String>,
}

impl View for SymbolTable {
    type V = Seq<Seq<char>>;

    closed spec fn view(&self) -> Seq<Seq<char>> {
        Seq::new(self.strings@.len(), |i: int| self.strings@[i]@)
    }
}

impl SymbolTable {
    /// No name occurs twice, and every position fits a symbol.
    pub open spec fn wf(&self) -> bool {
        &&& distinct(self@)
        &&& self@.len() <= capacity()
    }

    pub fn new() -> (table: SymbolTable)
        ensures
            table@ == Seq::<Seq<char>>::empty(),
            table.wf(),
    {
        SymbolTable { strings: Vec::new() }
    }

    /// The number of names interned so far.
    pub fn len(&self) -> (n: usize)
        ensures
            n == self@.len(),
    {
        self.strings.len()
    }

    /// Looks `string` up, and adds it where it is new.
    pub fn get_symbol_for(&mut self, string: &str) -> (symbol: Symbol)
        requires
            old(self).wf(),
            old(self)@.contains(string@) || old(self)@.len() < capacity(),
        ensures
            final(self).wf(),
            final(self)@ == interned(old(self)@, string@),
            symbol.0 == position(old(self)@, string@),
            symbol.0 < final(self)@.len(),
            final(self)@[symbol.0 as int] == string@,
    {
        let owned = string.to_owned();
        let mut i: usize = 0;
        while i < self.strings.len()
            invariant
                i <= self.strings@.len(),
                owned@ == string@,
                forall|j: int| 0 <= j < i ==> self@[j] != string@,
                self@.len() == self.strings@.len(),
                self@ == old(self)@,
                old(self).wf(),
            decreases self.strings@.len() - i,
        {
            if self.strings[i] == owned {
                proof {
                    assert(self@[i as int] == string@);
                    lemma_position(self@, string@);
                }
                return Symbol(i as u32);
            }
            i += 1;
        }
        proof {
            lemma_position(self@, string@);
        }
        let ghost before = self@;
        let name = Symbol(self.strings.len() as u32);
        self.strings.push(owned);
        assert(self@ =~= before.push(string@));
        name
    }

    /// The text that `symbol` stands for.
    pub fn get_string(&self, symbol: Symbol) -> (string: &str)
        requires
            symbol.0 < self@.len(),
        ensures
            string@ == self@[symbol.0 as int],
    {
        self.strings[symbol.to_usize()].as_str()
    }
}

} // verus!
