//! The symbol table proper: an ordered collection of bindings with unique
//! names, under scope-stack discipline. `insert` is first-write-wins: a
//! duplicate name produces no change and signals a warning; `exit_scope`
//! discards every binding created at or above the scope depth being left.

use vstd::prelude::*;
use crate::symbol_table::symbol::{SpecSymbol, Symbol};
use crate::symbol_table::symbol_type::{SymbolType, spec_symbol_type_name, symbol_type_name};
use crate::text::{str_eq, spec_dec, usize_to_string};

verus! {

/// The mathematical image of the bindings, in insertion order.
pub open spec fn sym_views(ss: Seq<Symbol>) -> Seq<SpecSymbol> {
    ss.map_values(|s: Symbol| s@)
}

/// Whether some binding in `ss` has the given name.
pub open spec fn spec_contains_name(ss: Seq<SpecSymbol>, name: Seq<char>) -> bool {
    exists|i: int| 0 <= i < ss.len() && ss[i].name == name
}

/// Pairwise-distinct binding names.
pub open spec fn spec_names_unique(ss: Seq<SpecSymbol>) -> bool {
    forall|i: int, j: int| 0 <= i < j < ss.len() ==> ss[i].name != ss[j].name
}

/// The bindings of `ss` whose scope depth is below `level`, in order.
pub open spec fn spec_retain_below(ss: Seq<SpecSymbol>, level: int) -> Seq<SpecSymbol>
    decreases ss.len(),
{
    if ss.len() == 0 {
        Seq::<SpecSymbol>::empty()
    } else {
        (if ss[0].scope_level < level {
            seq![ss[0]]
        } else {
            Seq::<SpecSymbol>::empty()
        }) + spec_retain_below(ss.drop_first(), level)
    }
}

/// Retaining preserves membership, uniqueness, and keeps exactly the
/// bindings below `level`.
pub proof fn lemma_retain_below_props(ss: Seq<SpecSymbol>, level: int)
    ensures
        forall|n: Seq<char>|
            spec_contains_name(spec_retain_below(ss, level), n) ==> spec_contains_name(ss, n),
        spec_names_unique(ss) ==> spec_names_unique(spec_retain_below(ss, level)),
        forall|k: int|
            0 <= k < spec_retain_below(ss, level).len() ==> spec_retain_below(
                ss,
                level,
            )[k].scope_level < level,
    decreases ss.len(),
{
    if ss.len() > 0 {
        lemma_retain_below_props(ss.drop_first(), level);
        let rest = spec_retain_below(ss.drop_first(), level);
        assert forall|n: Seq<char>|
            spec_contains_name(spec_retain_below(ss, level), n) implies spec_contains_name(
            ss,
            n,
        ) by {
            let r = spec_retain_below(ss, level);
            let i = choose|i: int| 0 <= i < r.len() && r[i].name == n;
            if ss[0].scope_level < level && i == 0 {
                assert(ss[0].name == n);
            } else {
                let base: int = if ss[0].scope_level < level {
                    1
                } else {
                    0
                };
                assert(rest[i - base].name == n);
                assert(spec_contains_name(ss.drop_first(), n));
                let j = choose|j: int| 0 <= j < ss.drop_first().len() && ss.drop_first()[j].name
                    == n;
                assert(ss[j + 1].name == n);
            }
        }
        if spec_names_unique(ss) {
            assert(spec_names_unique(ss.drop_first())) by {
                assert forall|i: int, j: int|
                    0 <= i < j < ss.drop_first().len() implies ss.drop_first()[i].name
                    != ss.drop_first()[j].name by {
                    assert(ss.drop_first()[i] == ss[i + 1]);
                    assert(ss.drop_first()[j] == ss[j + 1]);
                }
            }
            if ss[0].scope_level < level {
                assert forall|i: int, j: int|
                    0 <= i < j < spec_retain_below(ss, level).len() implies spec_retain_below(
                    ss,
                    level,
                )[i].name != spec_retain_below(ss, level)[j].name by {
                    let r = spec_retain_below(ss, level);
                    if i == 0 {
                        if r[j].name == ss[0].name {
                            assert(rest[j - 1].name == ss[0].name);
                            assert(spec_contains_name(rest, ss[0].name));
                            assert(spec_contains_name(ss.drop_first(), ss[0].name));
                            let k = choose|k: int|
                                0 <= k < ss.drop_first().len() && ss.drop_first()[k].name == ss[0].name;
                            assert(ss[k + 1].name == ss[0].name);
                        }
                    } else {
                        assert(r[i] == rest[i - 1]);
                        assert(r[j] == rest[j - 1]);
                    }
                }
            }
        }
    }
}

/// A table of bindings with unique names and a current scope depth.
pub struct SymbolTable {
    pub symbols: Vec<Symbol>,
    pub scope_level: usize,
}

impl SymbolTable {
    /// Well-formedness: binding names are unique, and no binding sits
    /// above the current scope depth.
    pub open spec fn wf(&self) -> bool {
        spec_names_unique(sym_views(self.symbols@)) && (forall|i: int|
            0 <= i < self.symbols@.len() ==> self.symbols@[i]@.scope_level
                <= self.scope_level as int)
    }

    pub fn new() -> (r: SymbolTable)
        ensures
            r.wf(),
            r.symbols@ =~= Seq::<Symbol>::empty(),
            r.scope_level == 0,
    {
        SymbolTable { symbols: Vec::new(), scope_level: 0 }
    }

    /// First-write-wins insertion: if the name is already bound, nothing
    /// changes and `false` signals the duplicate (the caller may warn);
    /// otherwise the binding is appended at the current scope depth.
    #[verifier::loop_isolation(false)]
    pub fn insert(
        &mut self,
        name: &str,
        symbol_type: SymbolType,
        line: usize,
        column: usize,
    ) -> (inserted: bool)
        requires
            old(self).wf(),
        ensures
            final(self).wf(),
            final(self).scope_level == old(self).scope_level,
            inserted == !spec_contains_name(sym_views(old(self).symbols@), name@),
            inserted ==> sym_views(final(self).symbols@) =~= sym_views(old(self).symbols@).push(
                SpecSymbol {
                    name: name@,
                    symbol_type: symbol_type,
                    scope_level: old(self).scope_level as int,
                    line: line as int,
                    column: column as int,
                },
            ),
            !inserted ==> final(self).symbols == old(self).symbols,
    {
        let n = self.symbols.len();
        let mut i: usize = 0;
        while i < n
            invariant
                i <= n,
                forall|k: int| 0 <= k < i ==> self.symbols@[k]@.name != name@,
            decreases n - i,
        {
            if str_eq(self.symbols[i].name.as_str(), name) {
                proof {
                    assert(sym_views(self.symbols@)[i as int].name == name@);
                }
                return false;
            }
            i += 1;
        }
        proof {
            assert forall|k: int|
                0 <= k < sym_views(self.symbols@).len() implies sym_views(self.symbols@)[k].name
                != name@ by {
                assert(sym_views(self.symbols@)[k] == self.symbols@[k]@);
            }
        }
        let binding = Symbol {
            name: name.to_owned(),
            symbol_type,
            scope_level: self.scope_level,
            line,
            column,
        };
        let ghost before = self.symbols@;
        self.symbols.push(binding);
        proof {
            assert(sym_views(self.symbols@) =~= sym_views(before).push(self.symbols@.last()@));
        }
        true
    }

    /// The binding with the given name, or `None` when the name is
    /// unbound.
    #[verifier::loop_isolation(false)]
    pub fn lookup(&self, name: &str) -> (r: Option<&Symbol>)
        ensures
            (r is Some) == spec_contains_name(sym_views(self.symbols@), name@),
            match r {
                Some(sym) => sym@.name == name@ && (exists|i: int|
                    0 <= i < self.symbols@.len() && self.symbols@[i]@ == sym@),
                None => true,
            },
    {
        let n = self.symbols.len();
        let mut i: usize = 0;
        while i < n
            invariant
                i <= n,
                forall|k: int| 0 <= k < i ==> self.symbols@[k]@.name != name@,
            decreases n - i,
        {
            if str_eq(self.symbols[i].name.as_str(), name) {
                proof {
                    assert(sym_views(self.symbols@)[i as int].name == name@);
                }
                return Some(&self.symbols[i]);
            }
            i += 1;
        }
        proof {
            assert forall|k: int|
                0 <= k < sym_views(self.symbols@).len() implies sym_views(self.symbols@)[k].name
                != name@ by {
                assert(sym_views(self.symbols@)[k] == self.symbols@[k]@);
            }
        }
        None
    }

    /// Opens a new scope. The depth bound is forced by the machine.
    pub fn enter_scope(&mut self)
        requires
            old(self).scope_level < usize::MAX,
            old(self).wf(),
        ensures
            final(self).wf(),
            final(self).symbols == old(self).symbols,
            final(self).scope_level == old(self).scope_level + 1,
    {
        self.scope_level = self.scope_level + 1;
    }

    /// Leaves the current scope: every binding created at or above the
    /// current depth is discarded, in order, and the depth decreases by
    /// one. Requires an open scope, per stack discipline.
    #[verifier::loop_isolation(false)]
    pub fn exit_scope(&mut self)
        requires
            old(self).wf(),
            old(self).scope_level >= 1,
        ensures
            final(self).wf(),
            final(self).scope_level == old(self).scope_level - 1,
            sym_views(final(self).symbols@) =~= spec_retain_below(
                sym_views(old(self).symbols@),
                old(self).scope_level as int,
            ),
    {
        let ghost orig = sym_views(old(self).symbols@);
        let ghost level = self.scope_level as int;
        let mut i: usize = 0;
        let ghost mut j: int = 0;
        while i < self.symbols.len()
            invariant
                self.scope_level == old(self).scope_level,
                0 <= j <= orig.len(),
                i as int == spec_retain_below(orig.subrange(0, j), level).len(),
                sym_views(self.symbols@) =~= spec_retain_below(orig.subrange(0, j), level)
                    + orig.skip(j),
            decreases orig.len() - j,
        {
            proof {
                lemma_retain_prefix_snoc(orig, j, level);
                assert(orig.skip(j)[0] == orig[j]);
                assert(sym_views(self.symbols@)[i as int] == self.symbols@[i as int]@);
            }
            if self.symbols[i].scope_level >= self.scope_level {
                let ghost before = self.symbols@;
                self.symbols.remove(i);
                proof {
                    assert(sym_views(self.symbols@) =~= sym_views(before).remove(i as int));
                    assert(sym_views(before).remove(i as int) =~= spec_retain_below(
                        orig.subrange(0, j + 1),
                        level,
                    ) + orig.skip(j + 1));
                }
            } else {
                i += 1;
                proof {
                    assert(sym_views(self.symbols@) =~= spec_retain_below(
                        orig.subrange(0, j + 1),
                        level,
                    ) + orig.skip(j + 1));
                }
            }
            proof {
                j = j + 1;
            }
        }
        proof {
            assert(orig.subrange(0, orig.len() as int) =~= orig);
            assert(j == orig.len()) by {
                if j < orig.len() {
                    lemma_retain_prefix_len(orig, j, level);
                    assert(sym_views(self.symbols@).len() >= spec_retain_below(
                        orig.subrange(0, j),
                        level,
                    ).len() + 1);
                }
            }
            assert(orig.skip(orig.len() as int) =~= Seq::<SpecSymbol>::empty());
            assert(sym_views(self.symbols@) =~= spec_retain_below(orig, level));
            lemma_retain_below_props(orig, level);
            assert forall|k: int|
                0 <= k < self.symbols@.len() implies self.symbols@[k]@.scope_level <= (
            self.scope_level - 1) as int by {
                assert(sym_views(self.symbols@)[k] == self.symbols@[k]@);
            }
        }
        self.scope_level = self.scope_level - 1;
    }

    /// Renders the table: a header line, then one line per binding, in
    /// insertion order.
    #[verifier::loop_isolation(false)]
    pub fn print_table(&self) -> (r: String)
        ensures
            r@ == spec_render_table(sym_views(self.symbols@)),
    {
        let mut out = String::new();
        out.append("Tabela de Simbolos:\n");
        let n = self.symbols.len();
        let mut i: usize = 0;
        proof {
            assert(sym_views(self.symbols@).subrange(0, 0) =~= Seq::<SpecSymbol>::empty());
            assert(out@ =~= "Tabela de Simbolos:\n"@ + spec_render_symbol_lines(
                sym_views(self.symbols@).subrange(0, 0),
            ));
        }
        while i < n
            invariant
                i <= n,
                out@ == "Tabela de Simbolos:\n"@ + spec_render_symbol_lines(
                    sym_views(self.symbols@).subrange(0, i as int),
                ),
            decreases n - i,
        {
            let sym = &self.symbols[i];
            out.append("  - ");
            out.append(sym.name.as_str());
            out.append(" : ");
            out.append(symbol_type_name(sym.symbol_type));
            out.append(" (Escopo: ");
            let depth_digits = usize_to_string(sym.scope_level);
            out.append(depth_digits.as_str());
            out.append(", Linha: ");
            let line_digits = usize_to_string(sym.line);
            out.append(line_digits.as_str());
            out.append(", Coluna: ");
            let column_digits = usize_to_string(sym.column);
            out.append(column_digits.as_str());
            out.append(")\n");
            proof {
                let views = sym_views(self.symbols@);
                assert(views[i as int] == self.symbols@[i as int]@);
                lemma_render_symbol_lines_snoc(views, i as int);
                assert(out@ =~= "Tabela de Simbolos:\n"@ + spec_render_symbol_lines(
                    views.subrange(0, i as int + 1),
                ));
            }
            i += 1;
        }
        proof {
            assert(sym_views(self.symbols@).subrange(0, n as int) =~= sym_views(self.symbols@));
        }
        out
    }
}

/// The rendering of one binding's line.
pub open spec fn spec_render_symbol(s: SpecSymbol) -> Seq<char> {
    "  - "@ + s.name + " : "@ + spec_symbol_type_name(s.symbol_type) + " (Escopo: "@ + spec_dec(
        s.scope_level as nat,
    ) + ", Linha: "@ + spec_dec(s.line as nat) + ", Coluna: "@ + spec_dec(s.column as nat) + ")\n"@
}

/// The rendering of the binding lines, in order.
pub open spec fn spec_render_symbol_lines(ss: Seq<SpecSymbol>) -> Seq<char>
    decreases ss.len(),
{
    if ss.len() == 0 {
        Seq::<char>::empty()
    } else {
        spec_render_symbol(ss[0]) + spec_render_symbol_lines(ss.drop_first())
    }
}

/// The rendering of the whole table.
pub open spec fn spec_render_table(ss: Seq<SpecSymbol>) -> Seq<char> {
    "Tabela de Simbolos:\n"@ + spec_render_symbol_lines(ss)
}

/// One more retained element extends the retained prefix.
proof fn lemma_retain_prefix_snoc(ss: Seq<SpecSymbol>, j: int, level: int)
    requires
        0 <= j < ss.len(),
    ensures
        spec_retain_below(ss.subrange(0, j + 1), level) =~= spec_retain_below(
            ss.subrange(0, j),
            level,
        ) + (if ss[j].scope_level < level {
            seq![ss[j]]
        } else {
            Seq::<SpecSymbol>::empty()
        }),
    decreases j,
{
    if j == 0 {
        assert(ss.subrange(0, 1)[0] == ss[0]);
        assert(ss.subrange(0, 1).drop_first() =~= Seq::<SpecSymbol>::empty());
        assert(ss.subrange(0, 0) =~= Seq::<SpecSymbol>::empty());
    } else {
        lemma_retain_prefix_snoc(ss.drop_first(), j - 1, level);
        assert(ss.subrange(0, j + 1)[0] == ss[0]);
        assert(ss.subrange(0, j + 1).drop_first() =~= ss.drop_first().subrange(0, j));
        assert(ss.subrange(0, j)[0] == ss[0]);
        assert(ss.subrange(0, j).drop_first() =~= ss.drop_first().subrange(0, j - 1));
        assert(ss.drop_first()[j - 1] == ss[j]);
    }
}

/// The retained prefix never outgrows the prefix itself.
proof fn lemma_retain_prefix_len(ss: Seq<SpecSymbol>, j: int, level: int)
    requires
        0 <= j <= ss.len(),
    ensures
        spec_retain_below(ss.subrange(0, j), level).len() <= j,
    decreases j,
{
    if j > 0 {
        lemma_retain_prefix_len(ss, j - 1, level);
        lemma_retain_prefix_snoc(ss, j - 1, level);
    }
}

/// Rendering one more binding extends the rendered lines.
proof fn lemma_render_symbol_lines_snoc(ss: Seq<SpecSymbol>, i: int)
    requires
        0 <= i < ss.len(),
    ensures
        spec_render_symbol_lines(ss.subrange(0, i + 1)) =~= spec_render_symbol_lines(
            ss.subrange(0, i),
        ) + spec_render_symbol(ss[i]),
    decreases i,
{
    if i == 0 {
        assert(ss.subrange(0, 1)[0] == ss[0]);
        assert(ss.subrange(0, 1).drop_first() =~= Seq::<SpecSymbol>::empty());
        assert(ss.subrange(0, 0) =~= Seq::<SpecSymbol>::empty());
    } else {
        lemma_render_symbol_lines_snoc(ss.drop_first(), i - 1);
        assert(ss.subrange(0, i + 1)[0] == ss[0]);
        assert(ss.subrange(0, i + 1).drop_first() =~= ss.drop_first().subrange(0, i));
        assert(ss.subrange(0, i)[0] == ss[0]);
        assert(ss.subrange(0, i).drop_first() =~= ss.drop_first().subrange(0, i - 1));
        assert(ss.drop_first()[i - 1] == ss[i]);
    }
}

} // verus!
