//! The persisted index: per-file symbol lists keyed by path, and the map
//! from type names to the files that declare them.

use crate::strmap::StrMap;
use crate::symbol::Symbol;
use vstd::prelude::*;

verus! {

/// What was extracted from one file, with the modification time (seconds
/// since the epoch) that the file had when it was read.
#[derive(Debug)]
pub struct FileIndex {
    pub mtime: u64,
    pub symbols: Vec<Symbol>,
}

/// The index of a repository.
#[derive(Debug)]
pub struct CacheData {
    /// File path to what was extracted from that file.
    pub index: StrMap<FileIndex>,
    /// Type name to the path of the file that declares it.
    pub class_map: StrMap<String>,
    /// When the index was first built.
    pub build_time: String,
}

/// A symbol together with the path under which its file is indexed.
pub struct Located {
    pub file: Seq<char>,
    pub symbol: Symbol,
}

/// The symbols of one file, each with the file's path.
pub open spec fn file_entries(file: Seq<char>, symbols: Seq<Symbol>) -> Seq<Located> {
    symbols.map_values(|s: Symbol| Located { file, symbol: s })
}

/// The symbols of all files, file after file in the order of the index and
/// within a file in the order of extraction.
pub open spec fn located_in(keys: Seq<Seq<char>>, files: Seq<FileIndex>) -> Seq<Located>
    decreases files.len(),
{
    if files.len() == 0 || keys.len() != files.len() {
        Seq::empty()
    } else {
        located_in(keys.drop_last(), files.drop_last()) + file_entries(
            keys.last(),
            files.last().symbols@,
        )
    }
}

/// What a list of path-symbol pairs stands for.
pub open spec fn entry_views(v: Seq<(&String, &Symbol)>) -> Seq<Located> {
    v.map_values(|e: (&String, &Symbol)| Located { file: e.0@, symbol: *e.1 })
}

/// Every located symbol belongs to an indexed file and stands in that
/// file's symbol list.
pub proof fn lemma_located_member(keys: Seq<Seq<char>>, files: Seq<FileIndex>, k: int)
    requires
        keys.len() == files.len(),
        0 <= k < located_in(keys, files).len(),
    ensures
        exists|i: int, j: int|
            0 <= i < files.len() && 0 <= j < files[i].symbols@.len() && located_in(keys, files)[k]
                == (Located { file: keys[i], symbol: #[trigger] files[i].symbols@[j] }),
    decreases files.len(),
{
    if files.len() > 0 {
        let head = located_in(keys.drop_last(), files.drop_last());
        if k < head.len() {
            lemma_located_member(keys.drop_last(), files.drop_last(), k);
            let (i, j) = choose|i: int, j: int|
                0 <= i < files.drop_last().len() && 0 <= j < files.drop_last()[i].symbols@.len()
                    && head[k] == (Located {
                    file: keys.drop_last()[i],
                    symbol: #[trigger] files.drop_last()[i].symbols@[j],
                });
            assert(located_in(keys, files)[k] == (Located {
                file: keys[i],
                symbol: files[i].symbols@[j],
            }));
        } else {
            let i = files.len() - 1;
            let j = k - head.len();
            assert(located_in(keys, files)[k] == (Located {
                file: keys[i],
                symbol: files[i].symbols@[j],
            }));
        }
    }
}

/// Every symbol of every indexed file is among the located symbols.
pub proof fn lemma_member_located(keys: Seq<Seq<char>>, files: Seq<FileIndex>, i: int, j: int)
    requires
        keys.len() == files.len(),
        0 <= i < files.len(),
        0 <= j < files[i].symbols@.len(),
    ensures
        located_in(keys, files).contains(Located { file: keys[i], symbol: files[i].symbols@[j] }),
    decreases files.len(),
{
    let all = located_in(keys, files);
    let head = located_in(keys.drop_last(), files.drop_last());
    let target = Located { file: keys[i], symbol: files[i].symbols@[j] };
    if i == files.len() - 1 {
        assert(all[head.len() + j] == target);
    } else {
        lemma_member_located(keys.drop_last(), files.drop_last(), i, j);
        let k = choose|k: int| 0 <= k < head.len() && head[k] == target;
        assert(all[k] == target);
    }
}

impl CacheData {
    /// All symbols of the index, each with the path of its file.
    pub open spec fn located(&self) -> Seq<Located> {
        located_in(self.index.keys(), self.index.values())
    }

    /// All symbols of the index.
    pub open spec fn symbols(&self) -> Seq<Symbol> {
        self.located().map_values(|e: Located| e.symbol)
    }

    /// An index without files, built at `build_time`.
    pub fn empty(build_time: String) -> (c: Self)
        ensures
            c.index.keys() == Seq::<Seq<char>>::empty(),
            c.index.values() == Seq::<FileIndex>::empty(),
            c.class_map.keys() == Seq::<Seq<char>>::empty(),
            c.class_map.values() == Seq::<String>::empty(),
            c.build_time == build_time,
    {
        CacheData { index: StrMap::new(), class_map: StrMap::new(), build_time }
    }

    /// References to all symbols of the index.
    pub fn symbol_refs(&self) -> (r: Vec<&Symbol>)
        ensures
            r@.map_values(|s: &Symbol| *s) == self.symbols(),
    {
        let all = self.entries();
        let mut r: Vec<&Symbol> = Vec::new();
        let mut i: usize = 0;
        while i < all.len()
            invariant
                i <= all.len(),
                entry_views(all@) == self.located(),
                r@.map_values(|s: &Symbol| *s) == self.symbols().take(i as int),
            decreases all.len() - i,
        {
            let ghost before = r@.map_values(|s: &Symbol| *s);
            let s = all[i].1;
            r.push(s);
            proof {
                assert(entry_views(all@)[i as int].symbol == *s);
                assert(r@.map_values(|s: &Symbol| *s) =~= before.push(*s));
                assert(self.symbols().take(i as int).push(*s) =~= self.symbols().take(i + 1));
            }
            i += 1;
        }
        proof {
            assert(self.symbols().take(all.len() as int) =~= self.symbols());
        }
        r
    }

    /// References to all symbols of the index with their files' paths.
    pub fn entries(&self) -> (r: Vec<(&String, &Symbol)>)
        ensures
            entry_views(r@) == self.located(),
    {
        let mut r: Vec<(&String, &Symbol)> = Vec::new();
        let n = self.index.len();
        let mut i: usize = 0;
        proof {
            assert(self.index.keys().take(0) =~= Seq::empty());
            assert(self.index.values().take(0) =~= Seq::empty());
            assert(entry_views(r@) =~= Seq::empty());
        }
        while i < n
            invariant
                i <= n,
                n == self.index.keys().len(),
                n == self.index.values().len(),
                entry_views(r@) == located_in(
                    self.index.keys().take(i as int),
                    self.index.values().take(i as int),
                ),
            decreases n - i,
        {
            let key = self.index.key_at(i);
            let file = self.index.value_at(i);
            let ghost head = entry_views(r@);
            let ghost keys1 = self.index.keys().take(i + 1);
            let ghost files1 = self.index.values().take(i + 1);
            proof {
                assert(keys1.drop_last() =~= self.index.keys().take(i as int));
                assert(files1.drop_last() =~= self.index.values().take(i as int));
                assert(keys1.last() == key@);
                assert(files1.last() == *file);
            }
            let mut j: usize = 0;
            proof {
                assert(head + file_entries(key@, file.symbols@.take(0)) =~= head);
            }
            while j < file.symbols.len()
                invariant
                    j <= file.symbols.len(),
                    entry_views(r@) == head + file_entries(key@, file.symbols@.take(j as int)),
                decreases file.symbols.len() - j,
            {
                let ghost before = entry_views(r@);
                let s = &file.symbols[j];
                r.push((key, s));
                proof {
                    assert(entry_views(r@) =~= before.push(Located { file: key@, symbol: *s }));
                    assert(file_entries(key@, file.symbols@.take(j + 1)) =~= file_entries(
                        key@,
                        file.symbols@.take(j as int),
                    ).push(Located { file: key@, symbol: *s }));
                    assert(before.push(Located { file: key@, symbol: *s }) =~= head + file_entries(
                        key@,
                        file.symbols@.take(j + 1),
                    ));
                }
                j += 1;
            }
            proof {
                assert(file.symbols@.take(file.symbols.len() as int) =~= file.symbols@);
            }
            i += 1;
        }
        proof {
            assert(self.index.keys().take(n as int) =~= self.index.keys());
            assert(self.index.values().take(n as int) =~= self.index.values());
        }
        r
    }
}

} // verus!
