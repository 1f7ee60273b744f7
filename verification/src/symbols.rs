//! Kernel symbols: looking up the address of a symbol of the kernel image by its name, as
//! written in the symbol table or demangled.

use vstd::prelude::*;
use crate::analyzer::{elf_contents, parse_elf, SymbolEntry, SymbolView};
use crate::text::{hex, push_hex};

verus! {

/// A symbol found in a symbol table.
pub enum Symbol {
    Address(usize),
}

impl Symbol {
    /// The address of the symbol.
    pub fn address(&self) -> (r: usize)
        ensures
            r == self->Address_0,
    {
        match self {
            Self::Address(a) => *a,
        }
    }
}

/// How a symbol's name is compared with the name looked up.
#[derive(Clone, Copy, Debug, PartialEq, Eq)]
pub enum NameForm {
    /// As written in the symbol table
    Raw,
    /// Demangled, without the trailing hash
    Demangled,
}

/// The text of a demangled symbol name; in the alternate form, without the trailing hash.
pub uninterp spec fn demangled_text(name: Seq<char>, alternate: bool) -> Seq<char>;

/// Demangle a symbol name.
///
/// Trusted: formats `rustc_demangle::demangle(name)` with `{:#}` where `alternate` is set,
/// else with `{}`. The contract names the result (`demangled_text`) as a function of the
/// name and the form alone; the demangling itself is not stated.
#[verifier::external_body]
fn demangle_name(name: &str, alternate: bool) -> (r: String)
    ensures
        r@ == demangled_text(name@, alternate),
{
    if alternate {
        format!("{:#}", rustc_demangle::demangle(name))
    } else {
        format!("{}", rustc_demangle::demangle(name))
    }
}

/// A name in the form used for comparison.
pub open spec fn shown_name(name: Seq<char>, form: NameForm) -> Seq<char> {
    match form {
        NameForm::Raw => name,
        NameForm::Demangled => demangled_text(name, true),
    }
}

/// The symbol matches: its name could be read and, in the given form, equals `target`.
pub open spec fn names(s: SymbolView, target: Seq<char>, form: NameForm) -> bool {
    match s.name {
        Some(n) => shown_name(n, form) == target,
        None => false,
    }
}

/// The index of the first symbol that matches.
pub open spec fn first_named(syms: Seq<SymbolView>, target: Seq<char>, form: NameForm) -> Option<
    int,
>
    decreases syms.len(),
{
    if syms.len() == 0 {
        None
    } else {
        match first_named(syms.drop_last(), target, form) {
            Some(i) => Some(i),
            None => if names(syms.last(), target, form) {
                Some(syms.len() - 1)
            } else {
                None
            },
        }
    }
}

/// A first match found in a prefix stays the first in the whole table.
pub proof fn lemma_first_named_prefix(
    syms: Seq<SymbolView>,
    k: int,
    target: Seq<char>,
    form: NameForm,
)
    requires
        0 <= k <= syms.len(),
        first_named(syms.take(k), target, form) is Some,
    ensures
        first_named(syms, target, form) == first_named(syms.take(k), target, form),
    decreases syms.len() - k,
{
    if k < syms.len() {
        assert(syms.take(k + 1).drop_last() =~= syms.take(k));
        lemma_first_named_prefix(syms, k + 1, target, form);
    } else {
        assert(syms.take(k) =~= syms);
    }
}

/// Looking up symbols by name.
pub trait SymbolsTrait {
    /// The first symbol whose name, in the given form, is `symbol`.
    fn find_symbol(&self, symbol: &str, form: NameForm) -> Option<Symbol>;
}

/// The symbols of a kernel image.
pub enum Symbols {
    ObjectSymbols(Vec<SymbolEntry>),
}

impl Symbols {
    /// The symbol table, as plain values.
    pub open spec fn table(&self) -> Seq<SymbolView> {
        match self {
            Symbols::ObjectSymbols(v) => v.deep_view(),
        }
    }

    /// The symbol that a lookup of `target` finds.
    pub open spec fn lookup(&self, target: Seq<char>, form: NameForm) -> Option<Symbol> {
        match first_named(self.table(), target, form) {
            Some(i) => Some(Symbol::Address(self.table()[i].address as usize)),
            None => None,
        }
    }

    /// Load the symbols of an ELF file; the error is the parser's message.
    pub fn load(data: &[u8]) -> (r: Result<Symbols, String>)
        ensures
            match elf_contents(data@) {
                Ok(v) => r matches Ok(s) && s.table() == v.symbols,
                Err(m) => r matches Err(e) && e@ == m,
            },
    {
        match parse_elf(data) {
            Ok(e) => Ok(Symbols::ObjectSymbols(e.symbols)),
            Err(m) => Err(m),
        }
    }
}

impl SymbolsTrait for Symbols {
    fn find_symbol(&self, symbol: &str, form: NameForm) -> (r: Option<Symbol>)
        ensures
            r == self.lookup(symbol@, form),
    {
        let target = symbol.to_string();
        match self {
            Symbols::ObjectSymbols(v) => {
                let ghost t = v.deep_view();
                let mut i: usize = 0;
                while i < v.len()
                    invariant
                        t == v.deep_view(),
                        t == self.table(),
                        target@ == symbol@,
                        i <= v.len(),
                        first_named(t.take(i as int), symbol@, form) is None,
                    decreases v.len() - i,
                {
                    let s = &v[i];
                    assert(t.take(i as int + 1).drop_last() =~= t.take(i as int));
                    assert(t[i as int] == s.deep_view());
                    assert(t.take(i as int + 1).last() == t[i as int]);
                    match &s.name {
                        Some(n) => {
                            let shown = match form {
                                NameForm::Raw => n.clone(),
                                NameForm::Demangled => demangle_name(n.as_str(), true),
                            };
                            if target == shown {
                                proof {
                                    lemma_first_named_prefix(t, i as int + 1, symbol@, form);
                                }
                                return Some(Symbol::Address(s.address as usize));
                            }
                        },
                        None => {},
                    }
                    i = i + 1;
                }
                assert(t.take(i as int) =~= t);
                None
            },
        }
    }
}

/// The line of the debugger's symbol file for one symbol table entry: its address in
/// hexadecimal, a space, its demangled name and a line end; nothing for a symbol whose name
/// could not be read.
pub open spec fn bochs_symbol_line(s: SymbolView) -> Seq<char> {
    match s.name {
        Some(n) => hex(s.address as nat) + " "@ + demangled_text(n, false) + "\n"@,
        None => Seq::empty(),
    }
}

/// The lines of the debugger's symbol file for the entries of a table, in order.
pub open spec fn bochs_symbol_text(syms: Seq<SymbolView>) -> Seq<char>
    decreases syms.len(),
{
    if syms.len() == 0 {
        Seq::empty()
    } else {
        bochs_symbol_text(syms.drop_last()) + bochs_symbol_line(syms.last())
    }
}

/// The symbol file that the bochs debugger reads for a kernel: one line per symbol with a
/// readable name, in table order.
pub fn make_symbols(symbols: &Symbols) -> (r: String)
    ensures
        r@ == bochs_symbol_text(symbols.table()),
{
    let mut syms = String::new();
    match symbols {
        Symbols::ObjectSymbols(v) => {
            let ghost t = v.deep_view();
            let mut i: usize = 0;
            while i < v.len()
                invariant
                    t == v.deep_view(),
                    i <= v.len(),
                    syms@ == bochs_symbol_text(t.take(i as int)),
                decreases v.len() - i,
            {
                let s = &v[i];
                assert(t.take(i as int + 1).drop_last() =~= t.take(i as int));
                assert(t[i as int] == s.deep_view());
                assert(t.take(i as int + 1).last() == t[i as int]);
                match &s.name {
                    Some(n) => {
                        push_hex(&mut syms, s.address);
                        syms.append(" ");
                        let d = demangle_name(n.as_str(), false);
                        syms.append(d.as_str());
                        syms.append("\n");
                    },
                    None => {},
                }
                assert(syms@ =~= bochs_symbol_text(t.take(i as int + 1)));
                i = i + 1;
            }
            assert(t.take(i as int) =~= t);
        },
    }
    syms
}

} // verus!
