//! The agreement of class map and index, and the writes that keep it.

use crate::cache::CacheData;
use crate::engine::{lemma_without_owner, merged, removed, with_types, without_owner};
use crate::hierarchy::{declares, first_type_named, lemma_first_type_named};
use crate::strmap::{lemma_position_unique, lemma_remove_keeps_distinct, position_of};
use crate::symbol::{is_type_kind, meta_view, pair_keys, Pairs, Symbol};
use vstd::prelude::*;

verus! {

/// Whether some symbol of the list declares a type called `name`.
pub open spec fn declared_in(symbols: Seq<Symbol>, name: Seq<char>) -> bool {
    exists|b: int| 0 <= b < symbols.len() && declares(#[trigger] symbols[b], name)
}

/// Whether `pairs` holds the pair `p`.
pub open spec fn holds(pairs: Pairs, p: (Seq<char>, Seq<char>)) -> bool {
    exists|j: int| 0 <= j < pairs.len() && #[trigger] pairs[j] == p
}

/// Every pair of a class map after a file's types were entered is new,
/// with a type of the file as its name and the file as its value, or was
/// there before.
pub proof fn lemma_with_types_sources(base: Pairs, path: Seq<char>, symbols: Seq<Symbol>, i: int)
    requires
        0 <= i < with_types(base, path, symbols).len(),
    ensures
        ({
            let p = with_types(base, path, symbols)[i];
            (p.1 == path && declared_in(symbols, p.0)) || holds(base, p)
        }),
    decreases symbols.len(),
{
    if symbols.len() == 0 {
        assert(base[i] == with_types(base, path, symbols)[i]);
    } else {
        let rest = symbols.drop_last();
        let s = symbols.last();
        let head = with_types(base, path, rest);
        let all = with_types(base, path, symbols);
        let p = all[i];
        if is_type_kind(s.kind) && p == (s.name@, path) {
            assert(declares(symbols[symbols.len() - 1], p.0));
        } else {
            assert(0 <= i < head.len() && head[i] == p);
            lemma_with_types_sources(base, path, rest, i);
            if p.1 == path && declared_in(rest, p.0) {
                let b = choose|b: int| 0 <= b < rest.len() && declares(#[trigger] rest[b], p.0);
                assert(declares(symbols[b], p.0));
            }
        }
    }
}

/// Entering the types of a file that was not indexed before keeps class
/// map and index in agreement.
pub proof fn lemma_insert_keeps_consistency(
    before: CacheData,
    after: CacheData,
    path: Seq<char>,
    mtime: u64,
    symbols: Seq<Symbol>,
)
    requires
        before.index.wf(),
        before.class_map.wf(),
        after.index.wf(),
        after.class_map.wf(),
        before.consistent(),
        !before.index.has(path),
        merged(before, after, path, mtime, symbols),
    ensures
        after.consistent(),
{
    before.index.lemma_same_len();
    before.index.lemma_distinct();
    before.class_map.lemma_same_len();
    before.class_map.lemma_distinct();
    after.index.lemma_same_len();
    after.index.lemma_distinct();
    after.class_map.lemma_same_len();
    after.class_map.lemma_distinct();
    let old_pairs = meta_view(&before.class_map);
    let new_pairs = meta_view(&after.class_map);
    assert forall|i: int| 0 <= i < after.class_map.keys().len() implies after.class_symbol(
        #[trigger] after.class_map.keys()[i],
    ) is Some by {
        let name = after.class_map.keys()[i];
        let file = after.class_map.values()[i]@;
        lemma_position_unique(after.class_map.keys(), name, i);
        assert(new_pairs[i] == (name, file));
        lemma_with_types_sources(old_pairs, path, symbols, i);
        if file == path && declared_in(symbols, name) {
            lemma_first_type_named(symbols, name);
        } else {
            let j = choose|j: int| 0 <= j < old_pairs.len() && #[trigger] old_pairs[j] == (name, file);
            assert(before.class_map.keys()[j] == name);
            lemma_position_unique(before.class_map.keys(), name, j);
            assert(before.class_symbol(name) is Some);
            assert(before.index.has(file));
            let k = before.index.keys().index_of(file);
            assert(after.index.keys()[k] == file);
            lemma_position_unique(after.index.keys(), file, k);
        }
    }
}

/// Taking a file out of the index keeps class map and index in agreement.
pub proof fn lemma_remove_keeps_consistency(before: CacheData, after: CacheData, path: Seq<char>)
    requires
        before.index.wf(),
        before.class_map.wf(),
        after.index.wf(),
        after.class_map.wf(),
        before.consistent(),
        removed(before, after, path),
    ensures
        after.consistent(),
{
    before.index.lemma_same_len();
    before.index.lemma_distinct();
    before.class_map.lemma_same_len();
    before.class_map.lemma_distinct();
    after.index.lemma_same_len();
    after.index.lemma_distinct();
    after.class_map.lemma_same_len();
    after.class_map.lemma_distinct();
    let old_pairs = meta_view(&before.class_map);
    let new_pairs = meta_view(&after.class_map);
    assert(pair_keys(old_pairs) =~= before.class_map.keys());
    match position_of(before.index.keys(), path) {
        None => {
            assert forall|i: int| 0 <= i < after.class_map.keys().len() implies after.class_symbol(
                #[trigger] after.class_map.keys()[i],
            ) is Some by {
                let name = after.class_map.keys()[i];
                assert(new_pairs[i] == old_pairs[i]);
                assert(before.class_map.keys()[i] == name);
                assert(before.class_symbol(name) is Some);
                lemma_position_unique(before.class_map.keys(), name, i);
                lemma_position_unique(after.class_map.keys(), name, i);
            }
        },
        Some(gone) => {
            lemma_without_owner(old_pairs, path);
            assert forall|i: int| 0 <= i < after.class_map.keys().len() implies after.class_symbol(
                #[trigger] after.class_map.keys()[i],
            ) is Some by {
                let name = after.class_map.keys()[i];
                let file = after.class_map.values()[i]@;
                lemma_position_unique(after.class_map.keys(), name, i);
                assert(new_pairs[i] == (name, file));
                assert(without_owner(old_pairs, path)[i] == (name, file));
                let j = choose|j: int|
                    0 <= j < old_pairs.len() && #[trigger] old_pairs[j] == (name, file);
                assert(before.class_map.keys()[j] == name);
                lemma_position_unique(before.class_map.keys(), name, j);
                assert(before.class_symbol(name) is Some);
                let k = before.index.keys().index_of(file);
                let k2 = if k < gone {
                    k
                } else {
                    k - 1
                };
                assert(after.index.keys()[k2] == file);
                lemma_position_unique(after.index.keys(), file, k2);
            }
        },
    }
}

} // verus!
