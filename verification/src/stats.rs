//! Whole-index queries: per-file structure, statistics, and the rebuilding
//! of the class map.

use crate::cache::{entry_views, lemma_located_member, CacheData, Located};
use crate::hierarchy::{declares, lemma_first_type_named};
use crate::strmap::lemma_position_unique;
use crate::query::{derefs, QueryEngine};
use crate::strmap::StrMap;
use crate::symbol::{is_type_kind, meta_insert, meta_view, pairs_insert, Pairs, Symbol, SymbolKind};
use vstd::prelude::*;

verus! {

/// How many of the symbols are of the given kind.
pub open spec fn count_kind(symbols: Seq<Symbol>, kind: SymbolKind) -> nat {
    symbols.filter(|s: Symbol| s.kind == kind).len()
}

/// The number of symbols in an index, in all and by kind.
#[derive(Debug, Clone, Copy, PartialEq, Eq)]
pub struct Statistics {
    pub total_nodes: usize,
    pub classes: usize,
    pub functions: usize,
    pub methods: usize,
    pub method_calls: usize,
    pub interfaces: usize,
    pub structs: usize,
}

/// The name under which a kind is counted in the statistics.
pub open spec fn display_kind(kind: SymbolKind) -> Seq<char> {
    match kind {
        SymbolKind::Function => "Method/Function"@,
        SymbolKind::Class => "Class"@,
        SymbolKind::Interface => "Interface"@,
        SymbolKind::Method => "Method"@,
        SymbolKind::MethodCall => "MethodCall"@,
        SymbolKind::Struct => "Struct"@,
    }
}

/// The name under which a kind is counted in the statistics.
pub fn display_kind_name(kind: SymbolKind) -> (r: String)
    ensures
        r@ == display_kind(kind),
{
    match kind {
        SymbolKind::Function => "Method/Function".to_string(),
        SymbolKind::Class => "Class".to_string(),
        SymbolKind::Interface => "Interface".to_string(),
        SymbolKind::Method => "Method".to_string(),
        SymbolKind::MethodCall => "MethodCall".to_string(),
        SymbolKind::Struct => "Struct".to_string(),
    }
}

impl Statistics {
    /// The count for one kind.
    pub open spec fn of(&self, kind: SymbolKind) -> usize {
        match kind {
            SymbolKind::Class => self.classes,
            SymbolKind::Function => self.functions,
            SymbolKind::Method => self.methods,
            SymbolKind::MethodCall => self.method_calls,
            SymbolKind::Interface => self.interfaces,
            SymbolKind::Struct => self.structs,
        }
    }

    /// The count for one kind.
    pub fn count(&self, kind: SymbolKind) -> (n: usize)
        ensures
            n == self.of(kind),
    {
        match kind {
            SymbolKind::Class => self.classes,
            SymbolKind::Function => self.functions,
            SymbolKind::Method => self.methods,
            SymbolKind::MethodCall => self.method_calls,
            SymbolKind::Interface => self.interfaces,
            SymbolKind::Struct => self.structs,
        }
    }
}

/// The class map that a list of located symbols gives rise to, as pairs of
/// type name and file: every type symbol stores its file under its name, in
/// order, so that of two types with one name the later one decides.
pub open spec fn class_pairs(entries: Seq<Located>) -> Pairs
    decreases entries.len(),
{
    if entries.len() == 0 {
        Seq::empty()
    } else {
        let head = class_pairs(entries.drop_last());
        let e = entries.last();
        if is_type_kind(e.symbol.kind) {
            pairs_insert(head, e.symbol.name@, e.file)
        } else {
            head
        }
    }
}

/// Whether a located symbol is a type called `name` in the file `file`.
pub open spec fn is_source(e: Located, name: Seq<char>, file: Seq<char>) -> bool {
    is_type_kind(e.symbol.kind) && e.symbol.name@ == name && e.file == file
}

/// Every pair of a class map built from located symbols comes from one of
/// them: a type symbol with the pair's name in the pair's file.
pub proof fn lemma_class_pairs_sources(entries: Seq<Located>, i: int)
    requires
        0 <= i < class_pairs(entries).len(),
    ensures
        exists|k: int|
            0 <= k < entries.len() && is_source(
                #[trigger] entries[k],
                class_pairs(entries)[i].0,
                class_pairs(entries)[i].1,
            ),
    decreases entries.len(),
{
    let head = class_pairs(entries.drop_last());
    let e = entries.last();
    let all = class_pairs(entries);
    let last = entries.len() - 1;
    if is_type_kind(e.symbol.kind) && all[i] == (e.symbol.name@, e.file) {
        assert(is_source(entries[last], all[i].0, all[i].1));
    } else {
        assert(0 <= i < head.len() && head[i] == all[i]);
        lemma_class_pairs_sources(entries.drop_last(), i);
        let k = choose|k: int|
            0 <= k < entries.drop_last().len() && is_source(
                #[trigger] entries.drop_last()[k],
                head[i].0,
                head[i].1,
            );
        assert(is_source(entries[k], all[i].0, all[i].1));
    }
}

impl CacheData {
    /// Whether the class map and the index agree: every name in the class
    /// map resolves to a type declaration in the file that the map gives.
    pub open spec fn consistent(&self) -> bool {
        forall|i: int|
            0 <= i < self.class_map.keys().len() ==> self.class_symbol(
                #[trigger] self.class_map.keys()[i],
            ) is Some
    }
}

/// A class map that was built from the indexed files agrees with the
/// index.
pub proof fn lemma_rebuilt_consistent(c: CacheData)
    requires
        c.index.wf(),
        c.class_map.wf(),
        meta_view(&c.class_map) == class_pairs(c.located()),
    ensures
        c.consistent(),
{
    c.index.lemma_same_len();
    c.index.lemma_distinct();
    c.class_map.lemma_same_len();
    c.class_map.lemma_distinct();
    let pairs = meta_view(&c.class_map);
    let entries = c.located();
    assert forall|i: int| 0 <= i < c.class_map.keys().len() implies c.class_symbol(
        #[trigger] c.class_map.keys()[i],
    ) is Some by {
        let name = c.class_map.keys()[i];
        lemma_position_unique(c.class_map.keys(), name, i);
        let file = c.class_map.values()[i]@;
        assert(pairs[i] == (name, file));
        lemma_class_pairs_sources(entries, i);
        let k = choose|k: int|
            0 <= k < entries.len() && is_source(#[trigger] entries[k], pairs[i].0, pairs[i].1);
        lemma_located_member(c.index.keys(), c.index.values(), k);
        let (a, b) = choose|a: int, b: int|
            0 <= a < c.index.values().len() && 0 <= b < c.index.values()[a].symbols@.len()
                && entries[k] == (Located {
                file: c.index.keys()[a],
                symbol: #[trigger] c.index.values()[a].symbols@[b],
            });
        lemma_position_unique(c.index.keys(), file, a);
        let symbols = c.index.values()[a].symbols@;
        assert(declares(symbols[b], name));
        lemma_first_type_named(symbols, name);
    }
}

impl QueryEngine {
    /// The symbols of the file indexed under `file_path`, in the order of
    /// extraction; none for a path that is not indexed.
    pub fn get_file_structure(&self, file_path: &str) -> (r: Vec<&Symbol>)
        ensures
            derefs(r@) == if self.cache.index.has(file_path@) {
                self.cache.index.value_of(file_path@).symbols@
            } else {
                Seq::<Symbol>::empty()
            },
    {
        let mut r: Vec<&Symbol> = Vec::new();
        match self.cache.index.get(file_path) {
            None => {
                proof {
                    assert(derefs(r@) =~= Seq::<Symbol>::empty());
                }
            },
            Some(fi) => {
                let mut i: usize = 0;
                proof {
                    assert(derefs(r@) =~= fi.symbols@.take(0));
                }
                while i < fi.symbols.len()
                    invariant
                        i <= fi.symbols.len(),
                        derefs(r@) == fi.symbols@.take(i as int),
                    decreases fi.symbols.len() - i,
                {
                    let ghost before = derefs(r@);
                    let s = &fi.symbols[i];
                    r.push(s);
                    proof {
                        assert(derefs(r@) =~= before.push(*s));
                        assert(fi.symbols@.take(i as int).push(*s) =~= fi.symbols@.take(i + 1));
                    }
                    i += 1;
                }
                proof {
                    assert(fi.symbols@.take(fi.symbols.len() as int) =~= fi.symbols@);
                }
            },
        }
        r
    }

    /// The number of symbols in the index, in all and for each kind.
    pub fn get_statistics(&self) -> (st: Statistics)
        ensures
            st.total_nodes == self.cache.symbols().len(),
            forall|kind: SymbolKind| st.of(kind) == #[trigger] count_kind(self.cache.symbols(), kind),
    {
        let all = self.cache.symbol_refs();
        let mut st = Statistics {
            total_nodes: all.len(),
            classes: 0,
            functions: 0,
            methods: 0,
            method_calls: 0,
            interfaces: 0,
            structs: 0,
        };
        let mut i: usize = 0;
        proof {
            assert(derefs(all@).take(0) =~= Seq::empty());
            assert forall|kind: SymbolKind| count_kind(Seq::<Symbol>::empty(), kind) == 0 by {
                reveal(Seq::filter);
            }
        }
        while i < all.len()
            invariant
                i <= all.len(),
                st.total_nodes == all.len(),
                forall|kind: SymbolKind|
                    st.of(kind) == #[trigger] count_kind(derefs(all@).take(i as int), kind),
                forall|kind: SymbolKind| st.of(kind) <= i,
            decreases all.len() - i,
        {
            let s = all[i];
            let ghost before = st;
            proof {
                assert(derefs(all@).take(i as int).push(*s) =~= derefs(all@).take(i + 1));
                assert forall|kind: SymbolKind|
                    count_kind(derefs(all@).take(i + 1), kind) == count_kind(
                        derefs(all@).take(i as int),
                        kind,
                    ) + if s.kind == kind {
                        1nat
                    } else {
                        0nat
                    } by {
                    derefs(all@).take(i as int).lemma_filter_push(*s, |x: Symbol| x.kind == kind);
                }
                assert(before.of(s.kind) <= i);
            }
            match s.kind {
                SymbolKind::Class => {
                    st.classes = st.classes + 1;
                },
                SymbolKind::Function => {
                    st.functions = st.functions + 1;
                },
                SymbolKind::Method => {
                    st.methods = st.methods + 1;
                },
                SymbolKind::MethodCall => {
                    st.method_calls = st.method_calls + 1;
                },
                SymbolKind::Interface => {
                    st.interfaces = st.interfaces + 1;
                },
                SymbolKind::Struct => {
                    st.structs = st.structs + 1;
                },
            }
            proof {
                assert forall|kind: SymbolKind|
                    st.of(kind) == #[trigger] count_kind(derefs(all@).take(i + 1), kind) by {
                    assert(before.of(kind) == count_kind(derefs(all@).take(i as int), kind));
                }
                assert forall|kind: SymbolKind| st.of(kind) <= i + 1 by {
                    assert(before.of(kind) <= i);
                }
            }
            i += 1;
        }
        proof {
            assert(derefs(all@).take(all.len() as int) =~= derefs(all@));
        }
        st
    }

    /// Recomputes the class map from the indexed files alone.
    pub fn rebuild_class_map(&mut self)
        ensures
            final(self).cache.index == old(self).cache.index,
            final(self).cache.build_time == old(self).cache.build_time,
            meta_view(&final(self).cache.class_map) == class_pairs(old(self).cache.located()),
            final(self).cache.consistent(),
    {
        let map = build_class_map(&self.cache);
        self.cache.class_map = map;
        proof {
            use_type_invariant(&self.cache.index);
            use_type_invariant(&self.cache.class_map);
            lemma_rebuilt_consistent(self.cache);
        }
    }
}

/// The class map that the indexed files of `cache` give rise to.
pub fn build_class_map(cache: &CacheData) -> (map: StrMap<String>)
    ensures
        meta_view(&map) == class_pairs(cache.located()),
{
    let all = cache.entries();
    let mut map: StrMap<String> = StrMap::new();
    let mut i: usize = 0;
    proof {
        assert(entry_views(all@).take(0) =~= Seq::empty());
        assert(meta_view(&map) =~= Seq::empty());
    }
    while i < all.len()
        invariant
            i <= all.len(),
            meta_view(&map) == class_pairs(entry_views(all@).take(i as int)),
        decreases all.len() - i,
    {
        let file = all[i].0;
        let s = all[i].1;
        proof {
            assert(entry_views(all@).take(i + 1).drop_last() =~= entry_views(all@).take(i as int));
            assert(entry_views(all@).take(i + 1).last() == (Located { file: file@, symbol: *s }));
        }
        if s.kind.is_type() {
            meta_insert(&mut map, s.name.clone(), file.clone());
        }
        i += 1;
    }
    proof {
        assert(entry_views(all@).take(all.len() as int) =~= entry_views(all@));
    }
    map
}

} // verus!
