//! Names of definitions: a symbol is a name, a symbol list a path of names.
pub mod scope;
use vstd::prelude::*;
use vstd::string::StringExecFns;

verus! {

/// A name.
#[derive(Debug, PartialEq, Eq, Hash)]
pub struct Symbol {
    pub value: String,
}

/// A path of names, outermost first.
#[derive(Debug, PartialEq, Eq, Hash)]
pub struct SymbolList {
    pub symbols: Vec<Symbol>,
}

/// The names of `s` joined by `::`.
pub open spec fn joined(s: Seq<Seq<char>>) -> Seq<char>
    decreases s.len(),
{
    if s.len() == 0 {
        Seq::empty()
    } else if s.len() == 1 {
        s[0]
    } else {
        joined(s.drop_last()) + "::"@ + s.last()
    }
}

impl Symbol {
    pub fn new(value: String) -> (r: Self)
        ensures
            r.value@ == value@,
    {
        Symbol { value }
    }
}

impl SymbolList {
    /// The texts of the names.
    pub open spec fn texts(&self) -> Seq<Seq<char>> {
        self.symbols@.map_values(|s: Symbol| s.value@)
    }

    pub fn new(symbols: Vec<Symbol>) -> (r: Self)
        ensures
            r.symbols@ == symbols@,
    {
        SymbolList { symbols }
    }

    /// The path as one symbol: its names joined by `::`.
    pub fn to_symbol(&self) -> (r: Symbol)
        ensures
            r.value@ == joined(self.texts()),
    {
        let mut out = String::new();
        let n = self.symbols.len();
        let mut i: usize = 0;
        proof {
            reveal_strlit("::");
            assert(self.texts().take(0) =~= Seq::<Seq<char>>::empty());
        }
        while i < n
            invariant
                n == self.symbols@.len(),
                i <= n,
                out@ == joined(self.texts().take(i as int)),
            decreases n - i,
        {
            let ghost before = self.texts().take(i as int);
            if i > 0 {
                out.append("::");
            }
            out.append(self.symbols[i].value.as_str());
            proof {
                let now = self.texts().take(i + 1);
                assert(now.drop_last() =~= before);
                assert(now.last() == self.symbols@[i as int].value@);
                if i == 0 {
                    assert(now.len() == 1);
                    assert(out@ =~= now[0]);
                } else {
                    assert(out@ =~= joined(before) + "::"@ + now.last());
                }
            }
            i = i + 1;
        }
        proof {
            assert(self.texts().take(n as int) =~= self.texts());
        }
        Symbol { value: out }
    }

    /// The path with `symbol` added at the end.
    pub fn push(&self, symbol: Symbol) -> (r: Self)
        ensures
            r.texts() == self.texts().push(symbol.value@),
    {
        let mut symbols: Vec<Symbol> = Vec::new();
        let mut i: usize = 0;
        while i < self.symbols.len()
            invariant
                i <= self.symbols@.len(),
                symbols@.map_values(|s: Symbol| s.value@) == self.texts().take(i as int),
            decreases self.symbols@.len() - i,
        {
            let v = self.symbols[i].value.clone();
            let ghost before = symbols@;
            symbols.push(Symbol { value: v });
            proof {
                assert(symbols@.map_values(|s: Symbol| s.value@) =~= before.map_values(
                    |s: Symbol| s.value@,
                ).push(self.symbols@[i as int].value@));
                assert(self.texts().take(i + 1) =~= self.texts().take(i as int).push(
                    self.symbols@[i as int].value@,
                ));
            }
            i = i + 1;
        }
        let ghost before = symbols@;
        symbols.push(symbol);
        proof {
            assert(self.texts().take(self.symbols@.len() as int) =~= self.texts());
            assert(symbols@.map_values(|s: Symbol| s.value@) =~= before.map_values(
                |s: Symbol| s.value@,
            ).push(symbol.value@));
        }
        SymbolList { symbols }
    }
}

} // verus!
