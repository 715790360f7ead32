//! Cache bookkeeping: the configuration record that remembers the game and
//! working folders, and the path under which a converted map texture is
//! cached as a PNG.

use vstd::prelude::*;
use vstd::string::StrSliceExecFns;
use vstd::string::StringExecFns;

verus! {

/// The tool's configuration: where the game and the working mod live.
/// Paths are carried as plain strings.
#[derive(Debug)]
pub struct CacheConfig {
    pub game_folder: Option<String>,
    pub working_dir: Option<String>,
}

impl CacheConfig {
    /// An empty configuration: no folders chosen yet.
    pub fn new() -> (r: CacheConfig)
        ensures
            r.game_folder is None,
            r.working_dir is None,
    {
        CacheConfig { game_folder: None, working_dir: None }
    }
}

/// The greatest index at which `c` occurs in `s`, or -1.
pub open spec fn last_index_of(s: Seq<char>, c: char) -> int
    decreases s.len(),
{
    if s.len() == 0 {
        -1
    } else if s.last() == c {
        s.len() - 1
    } else {
        last_index_of(s.drop_last(), c)
    }
}

/// The part of a path after its last separator.
pub open spec fn file_name_of(s: Seq<char>) -> Seq<char> {
    s.subrange(last_index_of(s, '/') + 1, s.len() as int)
}

/// A file name with its extension cut off: everything before the last dot,
/// unless the dot starts the name or there is none.
pub open spec fn stem_of(f: Seq<char>) -> Seq<char> {
    let d = last_index_of(f, '.');
    if d > 0 {
        f.subrange(0, d)
    } else {
        f
    }
}

/// An occurrence with nothing after it is the last occurrence.
proof fn lemma_last_index_at(s: Seq<char>, c: char, j: int)
    requires
        0 <= j < s.len(),
        s[j] == c,
        forall|m: int| j < m < s.len() ==> s[m] != c,
    ensures
        last_index_of(s, c) == j,
    decreases s.len(),
{
    if j < s.len() - 1 {
        lemma_last_index_at(s.drop_last(), c, j);
    }
}

/// Without any occurrence there is no last occurrence.
proof fn lemma_last_index_none(s: Seq<char>, c: char)
    requires
        forall|m: int| 0 <= m < s.len() ==> s[m] != c,
    ensures
        last_index_of(s, c) == -1,
    decreases s.len(),
{
    if s.len() > 0 {
        lemma_last_index_none(s.drop_last(), c);
    }
}

/// The greatest index at which the character occurs in an ascii string,
/// or -1.
fn rfind_char(s: &str, c: char) -> (r: i64)
    requires
        s@.len() < 0x1000_0000,
    ensures
        r == last_index_of(s@, c),
        -1 <= r < s@.len(),
{
    let n = s.unicode_len();
    let mut j: usize = n;
    while j > 0
        invariant
            n == s@.len(),
            n < 0x1000_0000,
            j <= n,
            forall|m: int| j <= m < n ==> s@[m] != c,
        decreases j,
    {
        if s.get_char(j - 1) == c {
            proof {
                lemma_last_index_at(s@, c, j - 1);
            }
            return (j - 1) as i64;
        }
        j = j - 1;
    }
    proof {
        lemma_last_index_none(s@, c);
    }
    -1
}

/// Converts one DDS map texture into the PNG cache; the conversion itself
/// is outside work, the cache path below is the record's own logic.
#[derive(Debug)]
pub struct DdsToPng {
    pub dds_file_path: String,
}

impl DdsToPng {
    /// Where the converted texture lands in the cache: the source file's
    /// name under the cache directory, its extension replaced by `png`.
    pub fn png_file_path(&self, cache_dir: String) -> (r: String)
        requires
            self.dds_file_path@.len() < 0x1000_0000,
            cache_dir@.len() < 0x1000_0000,
        ensures
            r@ == cache_dir@ + "/"@ + stem_of(file_name_of(self.dds_file_path@)) + ".png"@,
    {
        let path = self.dds_file_path.as_str();
        let n = path.unicode_len();
        let slash = rfind_char(path, '/');
        let name_start = if slash < 0 {
            0
        } else {
            (slash as usize) + 1
        };
        let file_name = path.substring_char(name_start, n);
        proof {
            assert(file_name@ == file_name_of(self.dds_file_path@));
        }
        let dot = rfind_char(file_name, '.');
        let stem = if dot > 0 {
            file_name.substring_char(0, dot as usize)
        } else {
            file_name
        };
        proof {
            assert(stem@ == stem_of(file_name_of(self.dds_file_path@)));
        }
        let with_sep = cache_dir.concat("/");
        let with_stem = with_sep.concat(stem);
        let result = with_stem.concat(".png");
        result
    }
}

} // verus!
