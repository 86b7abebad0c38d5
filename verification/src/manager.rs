//! The cache store's bookkeeping: which directory holds the cache of which
//! repository, and when a file counts as changed.

use vstd::prelude::*;
use sha1::Digest;

verus! {

/// What `Sha1::digest` of the sha1 crate gives for the UTF-8 bytes of a
/// text, written in lower-case hexadecimal.
pub uninterp spec fn sha1_hex(data: Seq<char>) -> Seq<char>;

/// `Sha1::digest` of the sha1 crate on the bytes of `data`, formatted in
/// lower-case hexadecimal. The result is named, not spelled out: it is the
/// value of `sha1_hex` at the argument's characters.
#[verifier::external_body]
pub(crate) fn sha1_hex_digest(data: &str) -> (hex: String)
    ensures
        hex@ == sha1_hex(data@),
{
    format!("{:x}", sha1::Sha1::digest(data.as_bytes()))
}

/// What `Path::join` of std gives for a directory and a name, both given
/// as text.
pub uninterp spec fn joined_path(base: Seq<char>, name: Seq<char>) -> Seq<char>;

/// `Path::join` of std on paths given as strings. The result is named, not
/// spelled out: it is the value of `joined_path` at the arguments'
/// characters.
#[verifier::external_body]
pub(crate) fn join_path(base: &str, name: &str) -> (path: String)
    ensures
        path@ == joined_path(base@, name@),
{
    std::path::Path::new(base).join(name).to_string_lossy().into_owned()
}

/// The first `n` characters of `s`, all of it where it is shorter.
pub open spec fn prefix(s: Seq<char>, n: nat) -> Seq<char> {
    if s.len() <= n {
        s
    } else {
        s.take(n as int)
    }
}

/// The key under which the cache of the repository at `path` is kept: the
/// first sixteen characters of the hexadecimal SHA-1 digest of the path.
pub open spec fn cache_key(path: Seq<char>) -> Seq<char> {
    prefix(sha1_hex(path), 16)
}

/// The name of the file that holds the index.
pub open spec fn index_file_name() -> Seq<char> {
    "ast_index.bin"@
}

/// The name of the file that holds the analysis report.
pub open spec fn report_file_name() -> Seq<char> {
    "analysis_report.json"@
}

/// The first `n` characters of `s`.
pub fn take_prefix(s: &str, n: usize) -> (r: String)
    ensures
        r@ == prefix(s@, n as nat),
{
    let v = crate::text::to_chars(s);
    if v.len() <= n {
        return crate::text::from_chars(&v);
    }
    let mut out: Vec<char> = Vec::new();
    let mut i: usize = 0;
    while i < n
        invariant
            i <= n < v.len(),
            out@ == v@.take(i as int),
        decreases n - i,
    {
        out.push(v[i]);
        proof {
            assert(v@.take(i as int).push(v@[i as int]) =~= v@.take(i + 1));
        }
        i += 1;
    }
    crate::text::from_chars(&out)
}

/// Where the caches live, and which repository is in use.
#[derive(Debug)]
pub struct CacheManager {
    base_cache_dir: String,
    cache_dir: String,
    repository_path: Option<String>,
}

impl CacheManager {
    /// The directory under which all caches live.
    pub closed spec fn base_dir(&self) -> Seq<char> {
        self.base_cache_dir@
    }

    /// The directory of the cache in use.
    pub closed spec fn dir(&self) -> Seq<char> {
        self.cache_dir@
    }

    /// The repository in use, if one was chosen.
    pub closed spec fn repository(&self) -> Option<Seq<char>> {
        match self.repository_path {
            Some(p) => Some(p@),
            None => None,
        }
    }

    /// A manager for the caches under `base_cache_dir`, with no repository
    /// chosen: the cache directory is the base directory itself.
    pub fn new(base_cache_dir: &str) -> (m: Self)
        ensures
            m.base_dir() == base_cache_dir@,
            m.dir() == base_cache_dir@,
            m.repository() is None,
    {
        CacheManager {
            base_cache_dir: base_cache_dir.to_string(),
            cache_dir: base_cache_dir.to_string(),
            repository_path: None,
        }
    }

    /// Chooses the repository at `repo_path`, which is its canonical
    /// absolute path: the cache directory becomes the directory under the
    /// base that is named by the repository's key.
    pub fn use_repository(&mut self, repo_path: &str)
        ensures
            final(self).base_dir() == old(self).base_dir(),
            final(self).repository() == Some(repo_path@),
            final(self).dir() == joined_path(old(self).base_dir(), cache_key(repo_path@)),
    {
        let hex = sha1_hex_digest(repo_path);
        let key = take_prefix(hex.as_str(), 16);
        self.repository_path = Some(repo_path.to_string());
        self.cache_dir = join_path(self.base_cache_dir.as_str(), key.as_str());
    }

    /// Whether a file counts as changed: its modification time now differs
    /// from the one recorded, in whichever direction.
    pub fn is_file_changed(&self, current_mtime: u64, cached_mtime: u64) -> (changed: bool)
        ensures
            changed == (current_mtime != cached_mtime),
    {
        current_mtime != cached_mtime
    }

    /// The directory of the cache in use.
    pub fn get_cache_dir(&self) -> (dir: &str)
        ensures
            dir@ == self.dir(),
    {
        self.cache_dir.as_str()
    }

    /// The repository in use, if one was chosen.
    pub fn get_repository(&self) -> (r: Option<&String>)
        ensures
            match r {
                Some(p) => self.repository() == Some(p@),
                None => self.repository() is None,
            },
    {
        self.repository_path.as_ref()
    }

    /// The path of the file that holds the index.
    pub fn index_file(&self) -> (path: String)
        ensures
            path@ == joined_path(self.dir(), index_file_name()),
    {
        join_path(self.cache_dir.as_str(), "ast_index.bin")
    }

    /// The path of the file that holds the analysis report.
    pub fn report_file(&self) -> (path: String)
        ensures
            path@ == joined_path(self.dir(), report_file_name()),
    {
        join_path(self.cache_dir.as_str(), "analysis_report.json")
    }
}

} // verus!
