//! Symbols: small handles for interned identifier texts.
//!
//! A `Generator` hands out one handle per distinct text, in first-seen order.
//! Once lexing and parsing are done it is frozen into a `SymbolTable`, which
//! turns a handle back into its text.
use vstd::prelude::*;

verus! {

/// A symbol: the position of its text in the table that interned it.
#[derive(Clone, Copy, PartialEq, Eq, Structural, PartialOrd, Ord, Hash, Debug)]
pub struct Symbol(pub usize);

/// No text occurs twice in `names`.
pub open spec fn distinct_texts(names: Seq<Seq<char>>) -> bool {
    forall|i: int, j: int| 0 <= i < j < names.len() ==> names[i] != names[j]
}

/// `s` has already been interned into `names`.
pub open spec fn is_interned(names: Seq<Seq<char>>, s: Seq<char>) -> bool {
    exists|i: int| 0 <= i < names.len() && names[i] == s
}

/// What interning `s` into `names` gives: the new table and the handle of `s`.
/// A text seen before keeps its handle; a new one is appended and gets the next
/// handle.
pub open spec fn intern_result(names: Seq<Seq<char>>, s: Seq<char>) -> (Seq<Seq<char>>, nat) {
    if is_interned(names, s) {
        (names, (choose|i: int| 0 <= i < names.len() && names[i] == s) as nat)
    } else {
        (names.push(s), names.len())
    }
}

/// Generates symbols while a program is lexed and parsed.
#[derive(Clone)]
pub struct Generator {
    symbols: Vec<String>,
}

impl View for Generator {
    type V = Seq<Seq<char>>;

    closed spec fn view(&self) -> Seq<Seq<char>> {
        self.symbols@.map_values(|s: String| s@)
    }
}

/// The frozen text of every symbol, indexed by handle.
#[derive(Clone)]
pub struct SymbolTable {
    names: Vec<String>,
}

impl View for SymbolTable {
    type V = Seq<Seq<char>>;

    closed spec fn view(&self) -> Seq<Seq<char>> {
        self.names@.map_values(|s: String| s@)
    }
}

impl Generator {
    /// A generator keeps its texts distinct.
    pub open spec fn wf(&self) -> bool {
        distinct_texts(self@)
    }

    /// Creates a new empty symbol generator ready to generate new symbols.
    pub fn new() -> (r: Generator)
        ensures
            r@ == Seq::<Seq<char>>::empty(),
            r.wf(),
    {
        let r = Generator { symbols: Vec::new() };
        assert(r@ =~= Seq::<Seq<char>>::empty());
        r
    }

    /// Interns `s`, returning the symbol of a previous occurrence of the same
    /// text if there is one, and a new symbol otherwise.
    pub fn intern(&mut self, s: &str) -> (r: Symbol)
        requires
            old(self).wf(),
        ensures
            final(self).wf(),
            (final(self)@, r.0 as nat) == intern_result(old(self)@, s@),
    {
        let key = String::from_str(s);
        let mut i: usize = 0;
        while i < self.symbols.len()
            invariant
                0 <= i <= self.symbols@.len(),
                key@ == s@,
                distinct_texts(self@),
                forall|j: int| 0 <= j < i ==> self@[j] != s@,
            decreases self.symbols@.len() - i,
        {
            if self.symbols[i] == key {
                proof {
                    assert(self@[i as int] == s@);
                    assert(is_interned(self@, s@));
                    let c = choose|j: int| 0 <= j < self@.len() && self@[j] == s@;
                    assert(c == i as int);
                }
                return Symbol(i);
            }
            i = i + 1;
        }
        let ret = self.symbols.len();
        proof {
            assert(!is_interned(self@, s@));
        }
        self.symbols.push(key);
        proof {
            assert(self@ =~= old(self)@.push(s@));
        }
        Symbol(ret)
    }

    /// Freezes the generator: from now on symbols are only turned back into
    /// their texts.
    pub fn store(self) -> (r: SymbolTable)
        ensures
            r@ == self@,
    {
        SymbolTable { names: self.symbols }
    }
}

impl SymbolTable {
    /// The number of symbols in the table.
    pub fn len(&self) -> (r: usize)
        ensures
            r as nat == self@.len(),
    {
        self.names.len()
    }

    /// The text of the symbol `sym`.
    pub fn name(&self, sym: Symbol) -> (r: &str)
        requires
            sym.0 < self@.len(),
        ensures
            r@ == self@[sym.0 as int],
    {
        self.names[sym.0].as_str()
    }
}

/// Interning a text twice gives the same symbol, and the second time leaves the
/// table as the first time left it.
pub proof fn lemma_intern_twice(names: Seq<Seq<char>>, s: Seq<char>)
    requires
        distinct_texts(names),
    ensures
        intern_result(intern_result(names, s).0, s) == intern_result(names, s),
{
    let (t, h) = intern_result(names, s);
    assert(t[h as int] == s);
    assert(is_interned(t, s));
    let c = choose|i: int| 0 <= i < t.len() && t[i] == s;
    if is_interned(names, s) {
    } else {
        assert(distinct_texts(t));
    }
    assert(c == h as int);
}

/// Two different texts get two different symbols, whichever is interned first.
pub proof fn lemma_intern_distinct(names: Seq<Seq<char>>, s1: Seq<char>, s2: Seq<char>)
    requires
        distinct_texts(names),
        s1 != s2,
    ensures
        intern_result(names, s1).1 != intern_result(intern_result(names, s1).0, s2).1,
{
    let (t1, h1) = intern_result(names, s1);
    let (t2, h2) = intern_result(t1, s2);
    lemma_intern_finds(names, s1);
    lemma_intern_finds(t1, s2);
    assert(t2[h1 as int] == s1);
}

/// Two different texts get two different symbols, however many other texts
/// are interned between them.
pub proof fn lemma_intern_distinct_later(
    names: Seq<Seq<char>>,
    s1: Seq<char>,
    later: Seq<Seq<char>>,
    s2: Seq<char>,
)
    requires
        distinct_texts(names),
        distinct_texts(later),
        intern_result(names, s1).0.is_prefix_of(later),
        s1 != s2,
    ensures
        intern_result(later, s2).1 != intern_result(names, s1).1,
{
    lemma_round_trip(names, s1, later);
    lemma_intern_finds(later, s2);
    assert(later.is_prefix_of(intern_result(later, s2).0));
    assert(intern_result(later, s2).0[intern_result(names, s1).1 as int] == s1);
}

/// A new text gets the next handle after every earlier one: handles are dealt
/// out in first-seen order, starting at 0.
pub proof fn lemma_intern_first_seen(names: Seq<Seq<char>>, s: Seq<char>)
    requires
        distinct_texts(names),
        forall|i: int| 0 <= i < names.len() ==> names[i] != s,
    ensures
        intern_result(names, s).1 == names.len(),
        intern_result(names, s).0 == names.push(s),
{
}

/// After interning, the symbol looks up to the interned text, and the earlier
/// symbols keep their texts; the table stays free of repeats.
pub proof fn lemma_intern_finds(names: Seq<Seq<char>>, s: Seq<char>)
    requires
        distinct_texts(names),
    ensures
        intern_result(names, s).1 < intern_result(names, s).0.len(),
        intern_result(names, s).0[intern_result(names, s).1 as int] == s,
        names.is_prefix_of(intern_result(names, s).0),
        distinct_texts(intern_result(names, s).0),
{
    if is_interned(names, s) {
    } else {
        let t = names.push(s);
        assert(names.is_prefix_of(t)) by {
            assert(t.subrange(0, names.len() as int) =~= names);
        }
    }
}

/// A frozen table turns the symbol of an interned text back into that text,
/// however many texts were interned after it.
pub proof fn lemma_round_trip(names: Seq<Seq<char>>, s: Seq<char>, later: Seq<Seq<char>>)
    requires
        distinct_texts(names),
        distinct_texts(later),
        intern_result(names, s).0.is_prefix_of(later),
    ensures
        later[intern_result(names, s).1 as int] == s,
        intern_result(later, s).1 == intern_result(names, s).1,
        intern_result(later, s).0 == later,
{
    lemma_intern_finds(names, s);
    let (t, h) = intern_result(names, s);
    assert(later[h as int] == t[h as int]);
    assert(is_interned(later, s));
    let c = choose|i: int| 0 <= i < later.len() && later[i] == s;
    assert(c == h as int);
}

} // verus!
