//! The indexing engine: the only write path into the index. It decides
//! what a file's state means for the index; reading files and walking
//! directories is left to the caller, who hands in what was read.

use crate::cache::{CacheData, FileIndex};
use crate::hierarchy::{hierarchy_of, ClassHierarchy, QueryError};
use crate::manager::CacheManager;
use crate::codec::{decoded, encoded};
use crate::persist::{cache_view, decode_cache, encode_cache};
use crate::parser::{
    are_symbols, is_known_extension, is_supported_file, ASTParser, ParseError,
};
use crate::query::{
    call_graph_of, derefs, graph_sound, is_call_of, name_matches, CallGraph, QueryEngine,
};
use crate::report::{cache_version, node_entries, report_entries, Report};
use crate::stats::{count_kind, Statistics};
use crate::strmap::position_of;
use crate::symbol::{
    is_type_kind, meta_insert, meta_view, new_metadata, pair_keys, pairs_insert, symbol_views,
    Metadata, Pairs, Symbol, SymbolKind,
};
use crate::text::{extension_of, trimmed};
use vstd::prelude::*;

verus! {

/// Why an engine operation did nothing.
#[derive(Debug)]
pub enum EngineError {
    /// No repository is attached.
    IndexNotLoaded,
    /// The file gave no symbols.
    Extract(ParseError),
}

/// What was observed of a file.
#[derive(Debug)]
pub enum FileState {
    /// The file does not exist.
    Missing,
    /// The file exists, with this modification time (seconds since the
    /// epoch) and this text.
    Present { mtime: u64, content: String },
}

/// What an update did to the index.
#[derive(Debug, Clone, Copy, PartialEq, Eq, Structural)]
pub enum UpdateOutcome {
    /// The file is gone; its entry was removed.
    Removed,
    /// The file is indexed with the observed modification time; nothing was
    /// extracted.
    Unchanged,
    /// The file was extracted anew and its entry replaced.
    Indexed,
}

/// A file handed to a scan: its path, modification time and text.
#[derive(Debug)]
pub struct FileInput {
    pub path: String,
    pub mtime: u64,
    pub content: String,
}

/// What came of one file of a scan whose files were extracted elsewhere.
#[derive(Debug)]
pub enum Extraction {
    /// The file is indexed with its observed modification time; it was not
    /// extracted.
    Current,
    /// The file was extracted: its path, its observed modification time,
    /// and its symbols.
    Fresh { path: String, mtime: u64, symbols: Vec<Symbol> },
    /// The file could not be read or gave no symbols.
    Failed,
}

/// What a scan did.
#[derive(Debug, Clone, Copy, PartialEq, Eq, Structural)]
pub struct ScanSummary {
    /// How many of the files handed in have an extension that is indexed.
    pub discovered: usize,
    /// How many of those are in the index with their observed modification
    /// time after the scan.
    pub processed: usize,
}

/// Whether the index holds the file at `path` with the modification time
/// `mtime`.
pub open spec fn is_current(cache: CacheData, path: Seq<char>, mtime: u64) -> bool {
    cache.index.has(path) && cache.index.value_of(path).mtime == mtime
}

/// The class map after the type symbols of a file stored at `path` have
/// been entered, in order: each stores the path under its name.
pub open spec fn with_types(base: Pairs, path: Seq<char>, symbols: Seq<Symbol>) -> Pairs
    decreases symbols.len(),
{
    if symbols.len() == 0 {
        base
    } else {
        let head = with_types(base, path, symbols.drop_last());
        if is_type_kind(symbols.last().kind) {
            pairs_insert(head, symbols.last().name@, path)
        } else {
            head
        }
    }
}

/// The class map without the entries that the file at `path` owns: the
/// pairs whose value is `path` are left out, the others keep their order.
pub open spec fn without_owner(base: Pairs, path: Seq<char>) -> Pairs
    decreases base.len(),
{
    if base.len() == 0 {
        base
    } else {
        let head = without_owner(base.drop_last(), path);
        if base.last().1 == path {
            head
        } else {
            head.push(base.last())
        }
    }
}

/// What is left of a class map without the entries that a file owns was
/// there before and belongs to another file; no name occurs twice in it
/// where none did before.
pub proof fn lemma_without_owner(base: Pairs, path: Seq<char>)
    ensures
        forall|i: int|
            0 <= i < without_owner(base, path).len() ==> (#[trigger] without_owner(base, path)[i]).1
                != path && exists|j: int|
                0 <= j < base.len() && #[trigger] base[j] == without_owner(base, path)[i],
        pair_keys(base).no_duplicates() ==> pair_keys(without_owner(base, path)).no_duplicates(),
    decreases base.len(),
{
    if base.len() > 0 {
        let rest = base.drop_last();
        let head = without_owner(rest, path);
        let all = without_owner(base, path);
        lemma_without_owner(rest, path);
        assert forall|i: int| 0 <= i < all.len() implies (#[trigger] all[i]).1 != path && exists|j: int|
            0 <= j < base.len() && #[trigger] base[j] == all[i] by {
            if i < head.len() {
                let j = choose|j: int| 0 <= j < rest.len() && #[trigger] rest[j] == head[i];
                assert(base[j] == all[i]);
            } else {
                assert(base[base.len() - 1] == all[i]);
            }
        }
        if pair_keys(base).no_duplicates() {
            assert(pair_keys(rest) =~= pair_keys(base).drop_last());
            assert forall|a: int, b: int|
                0 <= a < all.len() && 0 <= b < all.len() && a != b implies pair_keys(all)[a]
                != pair_keys(all)[b] by {
                let ja = choose|j: int| 0 <= j < base.len() && #[trigger] base[j] == all[a];
                let jb = choose|j: int| 0 <= j < base.len() && #[trigger] base[j] == all[b];
                if a < head.len() && b < head.len() {
                    assert(pair_keys(head)[a] != pair_keys(head)[b]);
                } else if a < head.len() {
                    let j = choose|j: int| 0 <= j < rest.len() && #[trigger] rest[j] == head[a];
                    assert(pair_keys(base)[j] != pair_keys(base)[base.len() - 1]);
                } else {
                    let j = choose|j: int| 0 <= j < rest.len() && #[trigger] rest[j] == head[b];
                    assert(pair_keys(base)[j] != pair_keys(base)[base.len() - 1]);
                }
            }
        }
    }
}

/// Whether `after` is `before` with the file at `path` merged in: the file
/// entry holds the given modification time and symbols, in place where the
/// path was indexed and at the end where it was not, and the class map has
/// the file's types entered.
pub open spec fn merged(
    before: CacheData,
    after: CacheData,
    path: Seq<char>,
    mtime: u64,
    symbols: Seq<Symbol>,
) -> bool {
    &&& after.build_time == before.build_time
    &&& meta_view(&after.class_map) == with_types(meta_view(&before.class_map), path, symbols)
    &&& after.index.has(path)
    &&& after.index.value_of(path).mtime == mtime
    &&& after.index.value_of(path).symbols@ == symbols
    &&& match position_of(before.index.keys(), path) {
        Some(i) => after.index.keys() == before.index.keys() && after.index.values().len()
            == before.index.values().len() && forall|k: int|
            0 <= k < before.index.values().len() && k != i ==> after.index.values()[k]
                == before.index.values()[k],
        None => after.index.keys() == before.index.keys().push(path) && after.index.values().len()
            == before.index.values().len() + 1 && forall|k: int|
            0 <= k < before.index.values().len() ==> after.index.values()[k]
                == before.index.values()[k],
    }
}

/// Whether `after` is `before` with the file at `path` removed: its entry
/// is gone, and so are the entries of the class map that it owned, those
/// whose value is `path`. Where the path was not indexed nothing differs.
pub open spec fn removed(before: CacheData, after: CacheData, path: Seq<char>) -> bool {
    &&& after.build_time == before.build_time
    &&& match position_of(before.index.keys(), path) {
        Some(i) => {
            &&& after.index.keys() == before.index.keys().remove(i)
            &&& after.index.values() == before.index.values().remove(i)
            &&& meta_view(&after.class_map) == without_owner(meta_view(&before.class_map), path)
        },
        None => {
            &&& after.index.keys() == before.index.keys()
            &&& after.index.values() == before.index.values()
            &&& meta_view(&after.class_map) == meta_view(&before.class_map)
        },
    }
}

/// Whether `after` is `before` with the file at `path` extracted anew: the
/// symbols of the text `content` merged in under the modification time
/// `mtime`.
pub open spec fn indexed(
    before: CacheData,
    after: CacheData,
    path: Seq<char>,
    mtime: u64,
    content: Seq<char>,
) -> bool {
    exists|symbols: Seq<Symbol>|
        are_symbols(path, content, symbol_views(symbols)) && #[trigger] merged(
            before,
            after,
            path,
            mtime,
            symbols,
        )
}

/// Whether a file handed to a scan is one that is indexed.
pub open spec fn is_candidate(f: FileInput) -> bool {
    is_known_extension(extension_of(f.path@))
}

/// Whether `after` is what a scan makes of the index `before` when it
/// comes to the file `f`, where `took` says whether the scan counts the
/// file as processed. A file that is not indexed is passed over. A file
/// that is current is counted and leaves the index as it is. Any other
/// file is counted where it was extracted anew, for which a grammar must
/// be registered for it, and leaves the index as it is where it was not.
pub open spec fn scan_step(
    parser: ASTParser,
    before: CacheData,
    after: CacheData,
    f: FileInput,
    took: bool,
) -> bool {
    if !is_candidate(f) {
        !took && after == before
    } else if is_current(before, f.path@, f.mtime) {
        took && after == before
    } else if took {
        parser.supports(extension_of(f.path@)) && indexed(
            before,
            after,
            f.path@,
            f.mtime,
            f.content@,
        )
    } else {
        after == before
    }
}

/// Whether `states` are the indexes that a scan of `files` goes through,
/// one before each file and one at the end, with `took` saying of each
/// file whether the scan counts it as processed.
pub open spec fn scan_trace(
    parser: ASTParser,
    states: Seq<CacheData>,
    took: Seq<bool>,
    files: Seq<FileInput>,
) -> bool {
    &&& states.len() == files.len() + 1
    &&& took.len() == files.len()
    &&& forall|k: int|
        0 <= k < files.len() ==> scan_step(
            parser,
            #[trigger] states[k],
            states[k + 1],
            files[k],
            took[k],
        )
}

/// Whether `after` is the index `before` with what came of one file
/// stored: a freshly extracted file merged, and nothing else changed.
pub open spec fn store_step(before: CacheData, after: CacheData, x: Extraction) -> bool {
    match x {
        Extraction::Fresh { path, mtime, symbols } => merged(before, after, path@, mtime, symbols@),
        _ => after == before,
    }
}

/// How many of the first `n` files are up to date: those that are current
/// or were extracted.
pub open spec fn up_to_date(batch: Seq<Extraction>, n: nat) -> nat
    decreases n,
{
    if n == 0 {
        0
    } else {
        up_to_date(batch, (n - 1) as nat) + if batch[n - 1] is Failed {
            0nat
        } else {
            1nat
        }
    }
}

/// How many of the answers are yes.
pub open spec fn count_yes(took: Seq<bool>) -> nat
    decreases took.len(),
{
    if took.len() == 0 {
        0
    } else {
        count_yes(took.drop_last()) + if took.last() {
            1nat
        } else {
            0nat
        }
    }
}

/// Idempotence of updates. Once a file has been merged with a modification
/// time, the index holds it with that time: an update that observes the
/// same time again finds the file current, so it extracts nothing and
/// leaves the index as it is.
pub proof fn lemma_update_settles(
    before: CacheData,
    after: CacheData,
    path: Seq<char>,
    mtime: u64,
    symbols: Seq<Symbol>,
)
    requires
        merged(before, after, path, mtime, symbols),
    ensures
        is_current(after, path, mtime),
        after.index.value_of(path).symbols@ == symbols,
{
}

/// Merging a file keeps every file that was indexed, keeps the time of
/// the build, and leaves the merged file in the index.
pub proof fn lemma_merge_keeps_files(
    before: CacheData,
    after: CacheData,
    path: Seq<char>,
    mtime: u64,
    symbols: Seq<Symbol>,
)
    requires
        merged(before, after, path, mtime, symbols),
    ensures
        after.build_time == before.build_time,
        after.index.has(path),
        forall|p: Seq<char>| before.index.has(p) ==> after.index.has(p),
{
    assert forall|p: Seq<char>| before.index.has(p) implies after.index.has(p) by {
        let k = before.index.keys().index_of(p);
        assert(before.index.keys()[k] == p);
        match position_of(before.index.keys(), path) {
            Some(i) => {},
            None => {
                assert(after.index.keys()[k] == p);
            },
        }
    }
}

/// Merges a file into the index: replaces the entry of `path` by the given
/// modification time and symbols, and enters the file's types into the
/// class map.
pub fn merge_file(cache: &mut CacheData, path: &str, mtime: u64, symbols: Vec<Symbol>)
    ensures
        merged(*old(cache), *final(cache), path@, mtime, symbols@),
{
    let ghost before = *cache;
    let ghost base = meta_view(&cache.class_map);
    let mut i: usize = 0;
    while i < symbols.len()
        invariant
            i <= symbols.len(),
            cache.index == before.index,
            cache.build_time == before.build_time,
            meta_view(&cache.class_map) == with_types(base, path@, symbols@.take(i as int)),
        decreases symbols.len() - i,
    {
        proof {
            assert(symbols@.take(i + 1).drop_last() =~= symbols@.take(i as int));
            assert(symbols@.take(i + 1).last() == symbols@[i as int]);
        }
        if symbols[i].kind.is_type() {
            meta_insert(&mut cache.class_map, symbols[i].name.clone(), path.to_string());
        }
        i += 1;
    }
    proof {
        assert(symbols@.take(symbols.len() as int) =~= symbols@);
        before.index.lemma_same_len();
    }
    let entry = FileIndex { mtime, symbols };
    cache.index.insert(path.to_string(), entry);
    proof {
        cache.index.lemma_same_len();
        let keys = before.index.keys();
        match position_of(keys, path@) {
            Some(k) => {
                assert(keys.contains(path@));
                assert(cache.index.values()[k] == entry);
            },
            None => {
                let k = keys.len() as int;
                assert(cache.index.keys()[k] == path@);
                use_type_invariant(&cache.index);
                cache.index.lemma_distinct();
                crate::strmap::lemma_position_unique(cache.index.keys(), path@, k);
                assert(cache.index.values()[k] == entry);
            },
        }
    }
}

/// Takes the entries that the file at `path` owns out of a class map: the
/// pairs whose value is `path`.
pub fn drop_owned(map: &mut Metadata, path: &str)
    ensures
        meta_view(final(map)) == without_owner(meta_view(old(map)), path@),
{
    let ghost base = meta_view(map);
    let mut kept: Metadata = new_metadata();
    let mut i: usize = 0;
    proof {
        use_type_invariant(&*map);
        map.lemma_distinct();
        map.lemma_same_len();
        assert(pair_keys(base) =~= map.keys());
        assert(base.take(0) =~= Seq::empty());
    }
    while i < map.len()
        invariant
            i <= map.keys().len(),
            base == meta_view(map),
            base.len() == map.keys().len(),
            pair_keys(base).no_duplicates(),
            meta_view(&kept) == without_owner(base.take(i as int), path@),
        decreases map.keys().len() - i,
    {
        proof {
            map.lemma_same_len();
            assert(base.take(i + 1).drop_last() =~= base.take(i as int));
            assert(base.take(i + 1).last() == base[i as int]);
        }
        if !map.value_at(i).as_str().eq(path) {
            let ghost before = meta_view(&kept);
            proof {
                lemma_without_owner(base.take(i as int), path@);
                if pair_keys(before).contains(base[i as int].0) {
                    let k = pair_keys(before).index_of(base[i as int].0);
                    let j = choose|j: int|
                        0 <= j < base.take(i as int).len() && #[trigger] base.take(i as int)[j]
                            == before[k];
                    assert(pair_keys(base)[j] == pair_keys(base)[i as int]);
                }
            }
            meta_insert(&mut kept, map.key_at(i).clone(), map.value_at(i).clone());
        }
        i += 1;
    }
    proof {
        map.lemma_same_len();
        assert(base.take(map.keys().len() as int) =~= base);
    }
    *map = kept;
}

/// Removes a file from the index: drops the entry of `path` and the entries
/// of the class map that the file owned.
pub fn remove_file(cache: &mut CacheData, path: &str)
    ensures
        removed(*old(cache), *final(cache), path@),
{
    match cache.index.remove(path) {
        None => {},
        Some(_) => {
            drop_owned(&mut cache.class_map, path);
        },
    }
}

/// The engine: a parser for every supported language, the cache store's
/// bookkeeping, and, once a repository is attached, the live index.
pub struct ASTEngine {
    pub parser: ASTParser,
    pub cache_manager: CacheManager,
    pub query_engine: Option<QueryEngine>,
}

impl ASTEngine {
    /// An engine whose caches live under `cache_dir`, with no repository
    /// attached.
    pub fn new(cache_dir: &str) -> (e: Self)
        ensures
            e.query_engine is None,
            e.cache_manager.base_dir() == cache_dir@,
            e.cache_manager.repository() is None,
    {
        ASTEngine {
            parser: ASTParser::new(),
            cache_manager: CacheManager::new(cache_dir),
            query_engine: None,
        }
    }

    /// Whether a repository is attached.
    pub fn is_loaded(&self) -> (r: bool)
        ensures
            r == self.query_engine is Some,
    {
        self.query_engine.is_some()
    }

    /// Attaches the repository at `repo_path`, its canonical absolute
    /// path. The index is `loaded`, the one saved before, where there is
    /// one; else an empty index built at `now`.
    pub fn attach(&mut self, repo_path: &str, loaded: Option<CacheData>, now: String)
        ensures
            final(self).cache_manager.repository() == Some(repo_path@),
            final(self).cache_manager.base_dir() == old(self).cache_manager.base_dir(),
            final(self).parser == old(self).parser,
            final(self).query_engine is Some,
            match loaded {
                Some(c) => final(self).query_engine->0.cache == c,
                None => {
                    let c = final(self).query_engine->0.cache;
                    &&& c.index.keys().len() == 0
                    &&& c.index.values().len() == 0
                    &&& c.class_map.keys().len() == 0
                    &&& c.build_time == now
                },
            },
    {
        self.cache_manager.use_repository(repo_path);
        let cache = match loaded {
            Some(c) => c,
            None => CacheData::empty(now),
        };
        self.query_engine = Some(QueryEngine::new(cache));
    }

    /// Attaches the repository at `repo_path`, its canonical absolute
    /// path, with what was found of its saved index. Bytes that stand for
    /// an index give that index; no bytes, or bytes that stand for none,
    /// give an empty index built at `now`.
    pub fn use_repository(&mut self, repo_path: &str, saved: Option<&[u8]>, now: String)
        ensures
            final(self).cache_manager.repository() == Some(repo_path@),
            final(self).cache_manager.base_dir() == old(self).cache_manager.base_dir(),
            final(self).parser == old(self).parser,
            final(self).query_engine is Some,
            match saved {
                Some(bytes) if decoded(bytes@) is Some => cache_view(
                    final(self).query_engine->0.cache,
                ) == decoded(bytes@)->0,
                _ => {
                    let c = final(self).query_engine->0.cache;
                    &&& c.index.keys().len() == 0
                    &&& c.index.values().len() == 0
                    &&& c.class_map.keys().len() == 0
                    &&& c.build_time == now
                },
            },
    {
        let loaded = match saved {
            Some(bytes) => decode_cache(bytes),
            None => None,
        };
        self.attach(repo_path, loaded, now);
    }

    /// The bytes to save for the index. Reading them gives back the index.
    pub fn save_cache(&self) -> (r: Result<Vec<u8>, EngineError>)
        ensures
            match self.query_engine {
                None => r is Err && r->Err_0 is IndexNotLoaded,
                Some(q) => r is Ok && r->Ok_0@ == encoded(cache_view(q.cache)) && decoded(r->Ok_0@)
                    == Some(cache_view(q.cache)),
            },
    {
        match &self.query_engine {
            None => Err(EngineError::IndexNotLoaded),
            Some(q) => Ok(encode_cache(&q.cache)),
        }
    }

    /// Whether the file at `path` has to be extracted, given the
    /// modification time it has now: it has unless it is indexed with just
    /// that time.
    pub fn needs_update(&self, path: &str, mtime: u64) -> (r: Result<bool, EngineError>)
        ensures
            match self.query_engine {
                None => r is Err && r->Err_0 is IndexNotLoaded,
                Some(q) => r == Ok::<bool, EngineError>(!is_current(q.cache, path@, mtime)),
            },
    {
        match &self.query_engine {
            None => Err(EngineError::IndexNotLoaded),
            Some(q) => match q.cache.index.get(path) {
                None => Ok(true),
                Some(entry) => Ok(self.cache_manager.is_file_changed(mtime, entry.mtime)),
            },
        }
    }

    /// Brings the index up to date with a file that exists, with the given
    /// modification time and text.
    ///
    /// A file that is indexed with that modification time is left alone
    /// and not extracted again. Any other file is extracted and merged;
    /// where extraction fails the index stays as it was.
    pub fn index_file(&mut self, path: &str, mtime: u64, content: &str) -> (r: Result<
        UpdateOutcome,
        EngineError,
    >)
        ensures
            final(self).parser == old(self).parser,
            final(self).cache_manager == old(self).cache_manager,
            old(self).query_engine is None ==> {
                &&& r is Err
                &&& r->Err_0 is IndexNotLoaded
                &&& final(self).query_engine is None
            },
            old(self).query_engine is Some ==> final(self).query_engine is Some,
            old(self).query_engine is Some && is_current(
                old(self).query_engine->0.cache,
                path@,
                mtime,
            ) ==> {
                &&& r == Ok::<UpdateOutcome, EngineError>(UpdateOutcome::Unchanged)
                &&& final(self).query_engine->0.cache == old(self).query_engine->0.cache
            },
            old(self).query_engine is Some && !is_current(
                old(self).query_engine->0.cache,
                path@,
                mtime,
            ) && r is Ok ==> {
                &&& r == Ok::<UpdateOutcome, EngineError>(UpdateOutcome::Indexed)
                &&& old(self).parser.supports(extension_of(path@))
                &&& is_current(final(self).query_engine->0.cache, path@, mtime)
                &&& indexed(
                    old(self).query_engine->0.cache,
                    final(self).query_engine->0.cache,
                    path@,
                    mtime,
                    content@,
                )
            },
            old(self).query_engine is Some && !is_current(
                old(self).query_engine->0.cache,
                path@,
                mtime,
            ) && !old(self).parser.supports(extension_of(path@)) ==> r is Err,
            old(self).query_engine is Some && r is Err ==> {
                &&& r->Err_0 is Extract
                &&& !is_current(old(self).query_engine->0.cache, path@, mtime)
                &&& final(self).query_engine->0.cache == old(self).query_engine->0.cache
                &&& r->Err_0->Extract_0 is UnsupportedLanguage <==> !old(self).parser.supports(
                    extension_of(path@),
                )
            },
    {
        if self.query_engine.is_none() {
            return Err(EngineError::IndexNotLoaded);
        }
        let mut engine = self.query_engine.take().unwrap();
        let ghost before = engine.cache;
        let current = match engine.cache.index.get(path) {
            None => false,
            Some(entry) => !self.cache_manager.is_file_changed(mtime, entry.mtime),
        };
        let r = if current {
            Ok(UpdateOutcome::Unchanged)
        } else {
            match self.parser.parse_file(path, content) {
                Err(e) => Err(EngineError::Extract(e)),
                Ok(symbols) => {
                    let ghost list = symbols@;
                    merge_file(&mut engine.cache, path, mtime, symbols);
                    proof {
                        assert(merged(before, engine.cache, path@, mtime, list));
                    }
                    Ok(UpdateOutcome::Indexed)
                },
            }
        };
        self.query_engine = Some(engine);
        r
    }

    /// Merges symbols that were extracted elsewhere into the index, as the
    /// content of the file at `path` with the modification time `mtime`.
    pub fn store_symbols(&mut self, path: &str, mtime: u64, symbols: Vec<Symbol>) -> (r: Result<
        UpdateOutcome,
        EngineError,
    >)
        ensures
            final(self).parser == old(self).parser,
            final(self).cache_manager == old(self).cache_manager,
            old(self).query_engine is None ==> {
                &&& r is Err
                &&& r->Err_0 is IndexNotLoaded
                &&& final(self).query_engine is None
            },
            old(self).query_engine is Some ==> {
                &&& final(self).query_engine is Some
                &&& r == Ok::<UpdateOutcome, EngineError>(UpdateOutcome::Indexed)
                &&& merged(
                    old(self).query_engine->0.cache,
                    final(self).query_engine->0.cache,
                    path@,
                    mtime,
                    symbols@,
                )
            },
    {
        if self.query_engine.is_none() {
            return Err(EngineError::IndexNotLoaded);
        }
        let mut engine = self.query_engine.take().unwrap();
        merge_file(&mut engine.cache, path, mtime, symbols);
        self.query_engine = Some(engine);
        Ok(UpdateOutcome::Indexed)
    }

    /// Stores what came of the files of a scan whose files were extracted
    /// elsewhere, file after file in the order given, and counts the files
    /// that are up to date afterwards: those that are current or were
    /// extracted.
    pub fn store_extracted(&mut self, batch: Vec<Extraction>) -> (r: Result<usize, EngineError>)
        ensures
            final(self).parser == old(self).parser,
            final(self).cache_manager == old(self).cache_manager,
            match old(self).query_engine {
                None => r is Err && r->Err_0 is IndexNotLoaded && final(self).query_engine is None,
                Some(q) => {
                    &&& final(self).query_engine is Some
                    &&& r is Ok
                    &&& r->Ok_0 == up_to_date(batch@, batch@.len())
                    &&& exists|states: Seq<CacheData>|
                        {
                            &&& states.len() == batch@.len() + 1
                            &&& states[0] == q.cache
                            &&& states[batch@.len() as int] == final(self).query_engine->0.cache
                            &&& forall|k: int|
                                0 <= k < batch@.len() ==> store_step(
                                    #[trigger] states[k],
                                    states[k + 1],
                                    batch@[k],
                                )
                        }
                },
            },
    {
        if self.query_engine.is_none() {
            return Err(EngineError::IndexNotLoaded);
        }
        let mut engine = self.query_engine.take().unwrap();
        let ghost all = batch@;
        let ghost mut states: Seq<CacheData> = seq![engine.cache];
        let total = batch.len();
        let mut rest = batch;
        let mut count: usize = 0;
        let ghost mut done: nat = 0;
        while rest.len() > 0
            invariant
                all.len() == total,
                done + rest@.len() == all.len(),
                rest@ == all.skip(done as int),
                count == up_to_date(all, done),
                count <= done,
                states.len() == done + 1,
                states[0] == old(self).query_engine->0.cache,
                states[done as int] == engine.cache,
                forall|k: int|
                    0 <= k < done ==> store_step(#[trigger] states[k], states[k + 1], all[k]),
            decreases rest@.len(),
        {
            let ghost before = engine.cache;
            let ghost earlier = states;
            let x = rest.remove(0);
            proof {
                assert(x == all[done as int]);
                assert(rest@ =~= all.skip((done + 1) as int));
            }
            match x {
                Extraction::Current => {
                    count = count + 1;
                },
                Extraction::Fresh { path, mtime, symbols } => {
                    merge_file(&mut engine.cache, path.as_str(), mtime, symbols);
                    count = count + 1;
                },
                Extraction::Failed => {},
            }
            proof {
                states = states.push(engine.cache);
                assert(store_step(before, engine.cache, all[done as int]));
                assert forall|k: int| 0 <= k < done + 1 implies store_step(
                    #[trigger] states[k],
                    states[k + 1],
                    all[k],
                ) by {
                    if k < done {
                        assert(states[k] == earlier[k]);
                        assert(states[k + 1] == earlier[k + 1]);
                    }
                }
                done = done + 1;
            }
        }
        self.query_engine = Some(engine);
        Ok(count)
    }

    /// Takes the file at `path`, which exists no more, out of the index.
    pub fn forget_file(&mut self, path: &str) -> (r: Result<UpdateOutcome, EngineError>)
        ensures
            final(self).parser == old(self).parser,
            final(self).cache_manager == old(self).cache_manager,
            old(self).query_engine is None ==> {
                &&& r is Err
                &&& r->Err_0 is IndexNotLoaded
                &&& final(self).query_engine is None
            },
            old(self).query_engine is Some ==> {
                &&& final(self).query_engine is Some
                &&& r == Ok::<UpdateOutcome, EngineError>(UpdateOutcome::Removed)
                &&& removed(
                    old(self).query_engine->0.cache,
                    final(self).query_engine->0.cache,
                    path@,
                )
            },
    {
        if self.query_engine.is_none() {
            return Err(EngineError::IndexNotLoaded);
        }
        let mut engine = self.query_engine.take().unwrap();
        remove_file(&mut engine.cache, path);
        self.query_engine = Some(engine);
        Ok(UpdateOutcome::Removed)
    }

    /// Brings the index up to date with what was observed of one file.
    ///
    /// A missing file is removed from the index. A file that is indexed
    /// with the observed modification time is left alone and not extracted
    /// again. Any other file is extracted and merged; where extraction
    /// fails the index stays as it was.
    pub fn update_file(&mut self, path: &str, state: &FileState) -> (r: Result<
        UpdateOutcome,
        EngineError,
    >)
        ensures
            final(self).parser == old(self).parser,
            final(self).cache_manager == old(self).cache_manager,
            old(self).query_engine is None ==> {
                &&& r is Err
                &&& r->Err_0 is IndexNotLoaded
                &&& final(self).query_engine is None
            },
            old(self).query_engine is Some ==> final(self).query_engine is Some,
            old(self).query_engine is Some && state is Missing ==> {
                &&& r == Ok::<UpdateOutcome, EngineError>(UpdateOutcome::Removed)
                &&& removed(
                    old(self).query_engine->0.cache,
                    final(self).query_engine->0.cache,
                    path@,
                )
            },
            old(self).query_engine is Some && state is Present && is_current(
                old(self).query_engine->0.cache,
                path@,
                state->mtime,
            ) ==> {
                &&& r == Ok::<UpdateOutcome, EngineError>(UpdateOutcome::Unchanged)
                &&& final(self).query_engine->0.cache == old(self).query_engine->0.cache
            },
            old(self).query_engine is Some && state is Present && !is_current(
                old(self).query_engine->0.cache,
                path@,
                state->mtime,
            ) && r is Ok ==> {
                &&& r == Ok::<UpdateOutcome, EngineError>(UpdateOutcome::Indexed)
                &&& old(self).parser.supports(extension_of(path@))
                &&& is_current(final(self).query_engine->0.cache, path@, state->mtime)
                &&& indexed(
                    old(self).query_engine->0.cache,
                    final(self).query_engine->0.cache,
                    path@,
                    state->mtime,
                    state->content@,
                )
            },
            old(self).query_engine is Some && state is Present && !is_current(
                old(self).query_engine->0.cache,
                path@,
                state->mtime,
            ) && !old(self).parser.supports(extension_of(path@)) ==> r is Err,
            old(self).query_engine is Some && r is Err ==> {
                &&& r->Err_0 is Extract
                &&& state is Present
                &&& !is_current(old(self).query_engine->0.cache, path@, state->mtime)
                &&& final(self).query_engine->0.cache == old(self).query_engine->0.cache
                &&& r->Err_0->Extract_0 is UnsupportedLanguage <==> !old(self).parser.supports(
                    extension_of(path@),
                )
            },
    {
        match state {
            FileState::Missing => self.forget_file(path),
            FileState::Present { mtime, content } => self.index_file(path, *mtime, content.as_str()),
        }
    }

    /// Brings the index up to date with a batch of files, one after the
    /// other. Files whose extension is not indexed are passed over. A file
    /// that fails to extract does not stop the batch and leaves the index as
    /// it is; it is not counted as processed. Every file that is counted
    /// as processed is in the index afterwards.
    pub fn scan_files(&mut self, files: &Vec<FileInput>) -> (r: Result<ScanSummary, EngineError>)
        ensures
            final(self).parser == old(self).parser,
            final(self).cache_manager == old(self).cache_manager,
            match old(self).query_engine {
                None => r is Err && r->Err_0 is IndexNotLoaded && final(self).query_engine is None,
                Some(q) => {
                    &&& final(self).query_engine is Some
                    &&& r is Ok
                    &&& r->Ok_0.discovered == files@.filter(|f: FileInput| is_candidate(f)).len()
                    &&& r->Ok_0.processed <= r->Ok_0.discovered
                    &&& final(self).query_engine->0.cache.build_time == q.cache.build_time
                    &&& exists|states: Seq<CacheData>, took: Seq<bool>|
                        {
                            &&& #[trigger] scan_trace(old(self).parser, states, took, files@)
                            &&& states[0] == q.cache
                            &&& states[files@.len() as int] == final(self).query_engine->0.cache
                            &&& r->Ok_0.processed == count_yes(took)
                            &&& forall|k: int|
                                0 <= k < files@.len() && #[trigger] took[k] ==> states[files@.len() as int].index.has(
                                    files@[k].path@,
                                )
                        }
                },
            },
    {
        if self.query_engine.is_none() {
            return Err(EngineError::IndexNotLoaded);
        }
        let ghost pred = |f: FileInput| is_candidate(f);
        let ghost start = self.query_engine->0.cache;
        let ghost parser = self.parser;
        let ghost mut states: Seq<CacheData> = seq![start];
        let ghost mut took: Seq<bool> = Seq::empty();
        let mut discovered: usize = 0;
        let mut processed: usize = 0;
        let mut i: usize = 0;
        proof {
            assert(files@.take(0) =~= Seq::empty());
            assert(files@.take(0).filter(pred).len() == 0) by {
                reveal(Seq::filter);
            }
        }
        while i < files.len()
            invariant
                i <= files.len(),
                pred == (|f: FileInput| is_candidate(f)),
                discovered == files@.take(i as int).filter(pred).len(),
                processed <= discovered <= i,
                parser == old(self).parser,
                self.parser == old(self).parser,
                self.cache_manager == old(self).cache_manager,
                self.query_engine is Some,
                self.query_engine->0.cache.build_time == start.build_time,
                states.len() == i + 1,
                took.len() == i,
                states[0] == start,
                states[i as int] == self.query_engine->0.cache,
                forall|k: int|
                    0 <= k < i ==> scan_step(
                        parser,
                        #[trigger] states[k],
                        states[k + 1],
                        files@[k],
                        took[k],
                    ),
                processed == count_yes(took),
                forall|k: int|
                    0 <= k < i && #[trigger] took[k] ==> self.query_engine->0.cache.index.has(
                        files@[k].path@,
                    ),
            decreases files.len() - i,
        {
            let f = &files[i];
            let ghost before = self.query_engine->0.cache;
            let ghost earlier = states;
            let ghost answers = took;
            let mut counted = false;
            proof {
                assert(files@.take(i as int).push(*f) =~= files@.take(i + 1));
                files@.take(i as int).lemma_filter_push(*f, pred);
            }
            if is_supported_file(f.path.as_str()) {
                discovered = discovered + 1;
                match self.index_file(f.path.as_str(), f.mtime, f.content.as_str()) {
                    Ok(_) => {
                        processed = processed + 1;
                        counted = true;
                    },
                    Err(_) => {},
                }
            }
            proof {
                let after = self.query_engine->0.cache;
                states = states.push(after);
                took = took.push(counted);
                assert(took.drop_last() =~= answers);
                assert(states[i as int] == before);
                assert(scan_step(parser, before, after, *f, counted));
                if after != before {
                    let symbols = choose|symbols: Seq<Symbol>|
                        are_symbols(f.path@, f.content@, symbol_views(symbols)) && #[trigger] merged(
                            before,
                            after,
                            f.path@,
                            f.mtime,
                            symbols,
                        );
                    lemma_merge_keeps_files(before, after, f.path@, f.mtime, symbols);
                }
                assert forall|k: int| 0 <= k < i + 1 implies scan_step(
                    parser,
                    #[trigger] states[k],
                    states[k + 1],
                    files@[k],
                    took[k],
                ) by {
                    if k < i {
                        assert(states[k] == earlier[k]);
                        assert(states[k + 1] == earlier[k + 1]);
                        assert(took[k] == answers[k]);
                    }
                }
                assert forall|k: int| 0 <= k < i + 1 && #[trigger] took[k] implies after.index.has(
                    files@[k].path@,
                ) by {
                    if k < i {
                        assert(took[k] == answers[k]);
                        assert(before.index.has(files@[k].path@));
                    }
                }
            }
            i += 1;
        }
        proof {
            assert(files@.take(files.len() as int) =~= files@);
            assert(scan_trace(parser, states, took, files@));
        }
        Ok(ScanSummary { discovered, processed })
    }

    /// The number of symbols in the index, in all and for each kind.
    pub fn get_statistics(&self) -> (r: Result<Statistics, EngineError>)
        ensures
            match self.query_engine {
                None => r is Err && r->Err_0 is IndexNotLoaded,
                Some(q) => r is Ok && r->Ok_0.total_nodes == q.cache.symbols().len() && forall|
                    kind: SymbolKind,
                | r->Ok_0.of(kind) == #[trigger] count_kind(q.cache.symbols(), kind),
            },
    {
        match &self.query_engine {
            None => Err(EngineError::IndexNotLoaded),
            Some(q) => Ok(q.get_statistics()),
        }
    }

    /// All symbols whose name holds `query`, letter case aside.
    pub fn search_symbols(&self, query: &str) -> (r: Result<Vec<&Symbol>, EngineError>)
        ensures
            match self.query_engine {
                None => r is Err && r->Err_0 is IndexNotLoaded,
                Some(q) => r is Ok && derefs(r->Ok_0@) == q.cache.symbols().filter(
                    |s: Symbol| name_matches(s, query@),
                ),
            },
    {
        match &self.query_engine {
            None => Err(EngineError::IndexNotLoaded),
            Some(q) => Ok(q.search_symbols(query)),
        }
    }

    /// All call symbols whose name is exactly `callee_name` trimmed.
    pub fn find_call_sites(&self, callee_name: &str) -> (r: Result<Vec<&Symbol>, EngineError>)
        ensures
            match self.query_engine {
                None => r is Err && r->Err_0 is IndexNotLoaded,
                Some(q) => r is Ok && derefs(r->Ok_0@) == if trimmed(callee_name@).len() == 0 {
                    Seq::<Symbol>::empty()
                } else {
                    q.cache.symbols().filter(|s: Symbol| is_call_of(s, trimmed(callee_name@)))
                },
            },
    {
        match &self.query_engine {
            None => Err(EngineError::IndexNotLoaded),
            Some(q) => Ok(q.find_call_sites(callee_name)),
        }
    }

    /// The call graph reached from `entry` within `max_depth` levels.
    pub fn get_call_graph(&self, entry: &str, max_depth: usize) -> (r: Result<CallGraph, EngineError>)
        ensures
            match self.query_engine {
                None => r is Err && r->Err_0 is IndexNotLoaded,
                Some(q) => r is Ok && r->Ok_0@ == call_graph_of(
                    q.cache.symbols(),
                    entry@,
                    max_depth as nat,
                ) && graph_sound(q.cache.symbols(), r->Ok_0@) && crate::reach::graph_reaches(
                    q.cache.symbols(),
                    entry@,
                    max_depth as nat,
                    r->Ok_0@,
                ),
            },
    {
        match &self.query_engine {
            None => Err(EngineError::IndexNotLoaded),
            Some(q) => Ok(q.get_call_graph(entry, max_depth)),
        }
    }

    /// The symbols of the file indexed under `file_path`.
    pub fn get_file_structure(&self, file_path: &str) -> (r: Result<Vec<&Symbol>, EngineError>)
        ensures
            match self.query_engine {
                None => r is Err && r->Err_0 is IndexNotLoaded,
                Some(q) => r is Ok && derefs(r->Ok_0@) == if q.cache.index.has(file_path@) {
                    q.cache.index.value_of(file_path@).symbols@
                } else {
                    Seq::<Symbol>::empty()
                },
            },
    {
        match &self.query_engine {
            None => Err(EngineError::IndexNotLoaded),
            Some(q) => Ok(q.get_file_structure(file_path)),
        }
    }

    /// The hierarchy of `class_name`. Inside the outer result, which fails
    /// only where no repository is attached, stands the query's own.
    pub fn get_class_hierarchy(&self, class_name: &str) -> (r: Result<
        Result<ClassHierarchy, QueryError>,
        EngineError,
    >)
        ensures
            match self.query_engine {
                None => r is Err && r->Err_0 is IndexNotLoaded,
                Some(q) => r is Ok && match r->Ok_0 {
                    Ok(h) => hierarchy_of(q.cache, class_name@) == Some(h@),
                    Err(QueryError::ClassNotFound(n)) => hierarchy_of(q.cache, class_name@) is None
                        && n@ == class_name@,
                },
            },
    {
        match &self.query_engine {
            None => Err(EngineError::IndexNotLoaded),
            Some(q) => Ok(q.get_class_hierarchy(class_name)),
        }
    }

    /// The report on the index, stamped with the time of the call.
    pub fn generate_report(&self, repository_path: &str) -> (r: Result<Report, EngineError>)
        ensures
            match self.query_engine {
                None => r is Err && r->Err_0 is IndexNotLoaded,
                Some(q) => r is Ok && node_entries(&r->Ok_0.nodes) == report_entries(
                    symbol_views(q.cache.symbols()),
                ) && r->Ok_0.metadata.node_count == r->Ok_0.nodes.keys().len()
                    && r->Ok_0.metadata.cache_version@ == cache_version()
                    && r->Ok_0.metadata.repository_path@ == repository_path@,
            },
    {
        match &self.query_engine {
            None => Err(EngineError::IndexNotLoaded),
            Some(q) => Ok(q.generate_report(repository_path)),
        }
    }
}

} // verus!
