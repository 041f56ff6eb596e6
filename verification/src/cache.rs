//! Where generated maps are kept on disk, and under which names.

use vstd::prelude::*;
use vstd::string::{StrSliceExecFns, StringExecFns};

use crate::config;
use crate::text;

verus! {

/// The BLAKE3 hash of an input.
pub uninterp spec fn blake3_hashed(input: Seq<u8>) -> Seq<u8>;

/// `blake3::hash`: the 32 bytes are a function of the input.
#[verifier::external_body]
fn hash(input: &[u8]) -> (r: [u8; 32])
    ensures
        r@ == blake3_hashed(input@),
{
    *blake3::hash(input).as_bytes()
}

/// What every hashed input starts with: `autonomousim map cache v1` and a zero.
pub open spec fn prefix() -> Seq<u8> {
    seq![
        97u8,
        117,
        116,
        111,
        110,
        111,
        109,
        111,
        117,
        115,
        105,
        109,
        32,
        109,
        97,
        112,
        32,
        99,
        97,
        99,
        104,
        101,
        32,
        118,
        49,
        0,
    ]
}

/// What the key of a generator run is the hash of.
pub open spec fn key_input(generator: Seq<char>, version: u32, config: Seq<char>, seed: u64) -> Seq<u8> {
    prefix() + vstd::utf8::encode_utf8(generator) + seq![0u8] + vstd::bytes::spec_u32_to_le_bytes(version)
        + vstd::utf8::encode_utf8(config) + seq![0u8] + vstd::bytes::spec_u64_to_le_bytes(seed)
}

/// Whether a name could not be told from what follows it: it holds a zero.
pub open spec fn ambiguous(generator: Seq<char>) -> bool {
    vstd::utf8::encode_utf8(generator).contains(0u8)
}

/// Different generators, versions, configurations or seeds hash different inputs.
pub proof fn lemma_keys_hash_different_inputs(
    g1: Seq<char>,
    v1: u32,
    c1: Seq<char>,
    s1: u64,
    g2: Seq<char>,
    v2: u32,
    c2: Seq<char>,
    s2: u64,
)
    requires
        !ambiguous(g1),
        !ambiguous(g2),
        key_input(g1, v1, c1, s1) == key_input(g2, v2, c2, s2),
    ensures
        g1 == g2,
        v1 == v2,
        c1 == c2,
        s1 == s2,
{
    let (a, b) = (key_input(g1, v1, c1, s1), key_input(g2, v2, c2, s2));
    let (x, y) = (vstd::utf8::encode_utf8(g1), vstd::utf8::encode_utf8(g2));
    let (p, q) = (vstd::utf8::encode_utf8(c1), vstd::utf8::encode_utf8(c2));
    vstd::bytes::lemma_auto_spec_u32_to_from_le_bytes();
    vstd::bytes::lemma_auto_spec_u64_to_from_le_bytes();
    let n = prefix().len() as int;
    assert(forall|i: int| 0 <= i < x.len() ==> #[trigger] a[n + i] == x[i]);
    assert(forall|i: int| 0 <= i < y.len() ==> #[trigger] b[n + i] == y[i]);
    assert(a[n + x.len()] == 0);
    assert(b[n + y.len()] == 0);
    if x.len() < y.len() {
        assert(b[n + x.len()] == y[x.len() as int]);
        assert(y.contains(0u8));
    }
    if y.len() < x.len() {
        assert(a[n + y.len()] == x[y.len() as int]);
        assert(x.contains(0u8));
    }
    assert(x =~= a.subrange(n, n + x.len()));
    assert(y =~= b.subrange(n, n + y.len()));
    let m = n + x.len() + 1;
    assert(vstd::bytes::spec_u32_to_le_bytes(v1) =~= a.subrange(m, m + 4));
    assert(vstd::bytes::spec_u32_to_le_bytes(v2) =~= b.subrange(m, m + 4));
    assert(p =~= a.subrange(m + 4, a.len() - 9));
    assert(q =~= b.subrange(m + 4, b.len() - 9));
    assert(vstd::bytes::spec_u64_to_le_bytes(s1) =~= a.subrange(a.len() - 8, a.len() as int));
    assert(vstd::bytes::spec_u64_to_le_bytes(s2) =~= b.subrange(b.len() - 8, b.len() as int));
    vstd::utf8::encode_utf8_decode_utf8(g1);
    vstd::utf8::encode_utf8_decode_utf8(g2);
    vstd::utf8::encode_utf8_decode_utf8(c1);
    vstd::utf8::encode_utf8_decode_utf8(c2);
}

/// The path of `name` in directory `base`, with `/` between the two where one is needed; an absolute
/// name stands for itself.
pub open spec fn below(base: Seq<char>, name: Seq<char>) -> Seq<char> {
    if name.len() > 0 && name[0] == '/' {
        name
    } else if base.len() == 0 || base.last() == '/' {
        base + name
    } else {
        base + "/"@ + name
    }
}

fn path_below(base: &str, name: &str) -> (r: String)
    ensures
        r@ == below(base@, name@),
{
    let mut r = String::new();
    let (n, m): (usize, usize) = (base.unicode_len(), name.unicode_len());
    if m > 0 && name.get_char(0) == '/' {
        r.append(name);
        assert(r@ =~= name@);
        return r;
    }
    r.append(base);
    assert(r@ =~= base@);
    if n > 0 && base.get_char(n - 1) != '/' {
        r.append("/");
    }
    r.append(name);
    r
}

/// A variable that is set and not empty.
pub open spec fn given(v: Option<String>) -> bool {
    v is Some && (v->0)@.len() > 0
}

fn is_given(v: &Option<String>) -> (r: bool)
    ensures
        r == given(*v),
{
    match v {
        Some(s) => s.as_str().unicode_len() > 0,
        None => false,
    }
}

/// The directory that the variables name: the cache variable itself, else `autonomousim/maps` in the
/// cache directory, else in `.cache` of the home directory.
pub open spec fn named_dir(
    map_cache: Option<String>,
    cache_home: Option<String>,
    home: Option<String>,
) -> Option<Seq<char>> {
    if given(map_cache) {
        Some((map_cache->0)@)
    } else if given(cache_home) {
        Some(below(below((cache_home->0)@, "autonomousim"@), "maps"@))
    } else if given(home) {
        Some(below(below(below((home->0)@, ".cache"@), "autonomousim"@), "maps"@))
    } else {
        None
    }
}

/// A map generator.
#[derive(Clone, Copy, Debug, PartialEq, Eq, Structural)]
pub enum Generator {
    Wild,
    Rural,
}

impl Generator {
    pub open spec fn title(self) -> Seq<char> {
        match self {
            Generator::Wild => "wild"@,
            Generator::Rural => "rural"@,
        }
    }

    pub fn name(self) -> (r: &'static str)
        ensures
            r@ == self.title(),
    {
        match self {
            Generator::Wild => "wild",
            Generator::Rural => "rural",
        }
    }

    pub open spec fn release(self) -> u32 {
        match self {
            Generator::Wild => config::WILD_VERSION,
            Generator::Rural => config::RURAL_VERSION,
        }
    }

    /// The version, which changes whenever the maps do.
    pub fn version(self) -> (r: u32)
        ensures
            r == self.release(),
    {
        match self {
            Generator::Wild => config::WILD_VERSION,
            Generator::Rural => config::RURAL_VERSION,
        }
    }
}

/// Where a map came from.
#[derive(Clone, Copy, Debug, PartialEq, Eq, Structural)]
pub enum Origin {
    /// The cache.
    Loaded,
    /// The generator; the cache keeps it from now on.
    Cached,
    /// The generator, without a cache.
    Generated,
}

/// Where a map with a cache comes from, by its entry.
pub open spec fn source_of(there: bool, readable: bool) -> Origin {
    if there && readable {
        Origin::Loaded
    } else {
        Origin::Cached
    }
}

impl Origin {
    /// Where a map comes from: an entry that exists and can be read is loaded, a missing or
    /// unreadable one is generated and replaced.
    pub fn of_entry(exists: bool, readable: bool) -> (r: Origin)
        ensures
            r == source_of(exists, readable),
    {
        if exists && readable {
            Origin::Loaded
        } else {
            Origin::Cached
        }
    }

    /// What is said of the origin of a map with an entry at `path`.
    pub open spec fn said(self, path: Seq<char>) -> Seq<char> {
        match self {
            Origin::Loaded => "loaded from "@ + path,
            Origin::Cached => "generated, cached at "@ + path,
            Origin::Generated => "generated (cache disabled)"@,
        }
    }

    pub fn describe(self, path: &str) -> (r: String)
        ensures
            r@ == self.said(path@),
    {
        let mut r = match self {
            Origin::Loaded => "loaded from ".to_owned(),
            Origin::Cached => "generated, cached at ".to_owned(),
            Origin::Generated => {
                return "generated (cache disabled)".to_owned();
            },
        };
        r.append(path);
        r
    }
}

/// A directory of generated maps.
#[derive(Clone, Debug)]
pub struct MapCache {
    dir: String,
}

impl View for MapCache {
    type V = Seq<char>;

    closed spec fn view(&self) -> Seq<char> {
        self.dir@
    }
}

impl MapCache {
    pub fn new(dir: String) -> (c: MapCache)
        ensures
            c@ == dir@,
    {
        MapCache { dir }
    }

    /// The directory that `$AUTONOMOUSIM_MAP_CACHE`, `$XDG_CACHE_HOME` and `$HOME` name, given their
    /// values.
    pub fn default_dir(
        map_cache: Option<String>,
        cache_home: Option<String>,
        home: Option<String>,
    ) -> (r: Option<String>)
        ensures
            r is Some <==> named_dir(map_cache, cache_home, home) is Some,
            r is Some ==> Some((r->0)@) == named_dir(map_cache, cache_home, home),
    {
        if is_given(&map_cache) {
            return map_cache;
        }
        if let Some(base) = cache_home {
            if base.as_str().unicode_len() > 0 {
                let maps = path_below(base.as_str(), "autonomousim");
                return Some(path_below(maps.as_str(), "maps"));
            }
        }
        if let Some(base) = home {
            if base.as_str().unicode_len() > 0 {
                let cache = path_below(base.as_str(), ".cache");
                let maps = path_below(cache.as_str(), "autonomousim");
                return Some(path_below(maps.as_str(), "maps"));
            }
        }
        None
    }

    /// The cache in the directory that the variables name.
    pub fn user(
        map_cache: Option<String>,
        cache_home: Option<String>,
        home: Option<String>,
    ) -> (r: Option<MapCache>)
        ensures
            r is Some <==> named_dir(map_cache, cache_home, home) is Some,
            r is Some ==> Some((r->0)@) == named_dir(map_cache, cache_home, home),
    {
        match MapCache::default_dir(map_cache, cache_home, home) {
            Some(d) => Some(MapCache::new(d)),
            None => None,
        }
    }

    pub fn dir(&self) -> (r: &str)
        ensures
            r@ == self@,
    {
        self.dir.as_str()
    }

    /// Cache key of a generator run: the hash, in hexadecimal digits, of the generator name, its
    /// version, the configuration as JSON, and the seed.
    pub fn key(generator: &str, version: u32, config: &str, seed: u64) -> (r: String)
        ensures
            r@ == text::hex_of(blake3_hashed(key_input(generator@, version, config@, seed))),
            r@.len() == 64,
    {
        let mut input: Vec<u8> = vec![
            97u8,
            117,
            116,
            111,
            110,
            111,
            109,
            111,
            117,
            115,
            105,
            109,
            32,
            109,
            97,
            112,
            32,
            99,
            97,
            99,
            104,
            101,
            32,
            118,
            49,
            0,
        ];
        assert(input@ =~= prefix());
        input.extend_from_slice(generator.as_bytes());
        input.push(0);
        let v = vstd::bytes::u32_to_le_bytes(version);
        input.extend_from_slice(v.as_slice());
        input.extend_from_slice(config.as_bytes());
        input.push(0);
        let s = vstd::bytes::u64_to_le_bytes(seed);
        input.extend_from_slice(s.as_slice());
        assert(input@ =~= key_input(generator@, version, config@, seed));
        let digest = hash(input.as_slice());
        text::hex(digest.as_slice())
    }

    /// The file of an entry.
    pub fn path(&self, key: &str) -> (r: String)
        ensures
            r@ == below(self@, key@ + ".map"@),
    {
        let mut name = String::new();
        name.append(key);
        name.append(".map");
        assert(name@ =~= key@ + ".map"@);
        path_below(self.dir.as_str(), name.as_str())
    }

    /// The file of a generator's map for a configuration and a seed.
    pub fn entry(&self, generator: Generator, config: &str, seed: u64) -> (r: String)
        ensures
            r@ == below(
                self@,
                text::hex_of(
                    blake3_hashed(key_input(generator.title(), generator.release(), config@, seed)),
                ) + ".map"@,
            ),
    {
        let key = MapCache::key(generator.name(), generator.version(), config, seed);
        self.path(key.as_str())
    }
}

/// A relative name lies in its directory, with one separator before it where the directory is named and
/// does not end in one; an absolute name stands for itself.
pub proof fn lemma_paths_lie_below(base: Seq<char>, name: Seq<char>)
    ensures
        ({
            let r = below(base, name);
            let k = r.len() - name.len();
            &&& r.subrange(k, r.len() as int) == name
            &&& name.len() > 0 && name[0] == '/' ==> r == name
            &&& name.len() == 0 || name[0] != '/' ==> {
                &&& r.take(base.len() as int) == base
                &&& base.len() == 0 || base[base.len() - 1] == '/' ==> k == base.len()
                &&& base.len() > 0 && base[base.len() - 1] != '/' ==> k == base.len() + 1 && r[k - 1] == '/'
            }
        }),
{
    reveal_strlit("/");
    let r = below(base, name);
    let k = r.len() - name.len();
    assert(r.subrange(k, r.len() as int) =~= name);
    if name.len() == 0 || name[0] != '/' {
        assert(r.take(base.len() as int) =~= base);
    }
}

/// The variables come in their order, and empty ones count as not set: the cache variable names the
/// directory itself, the others a directory that holds it.
pub proof fn lemma_variables_name_the_directory(
    map_cache: Option<String>,
    cache_home: Option<String>,
    home: Option<String>,
)
    ensures
        ({
            let set = |v: Option<String>| v matches Some(s) && s@.len() > 0;
            let dir = named_dir(map_cache, cache_home, home);
            &&& dir is Some <==> set(map_cache) || set(cache_home) || set(home)
            &&& set(map_cache) ==> dir == Some((map_cache->0)@)
            &&& !set(map_cache) && set(cache_home) ==> dir == Some(
                below(below((cache_home->0)@, "autonomousim"@), "maps"@),
            )
            &&& !set(map_cache) && !set(cache_home) && set(home) ==> dir == Some(
                below(below(below((home->0)@, ".cache"@), "autonomousim"@), "maps"@),
            )
        }),
{
}

/// The prefix of hashed inputs is its text in bytes, and a zero.
pub proof fn lemma_prefix_is_text()
    ensures
        prefix() == vstd::utf8::encode_utf8("autonomousim map cache v1"@).push(0u8),
{
    let s = "autonomousim map cache v1"@;
    reveal_strlit("autonomousim map cache v1");
    assert(vstd::utf8::is_ascii_chars(s));
    vstd::utf8::is_ascii_chars_encode_utf8(s);
    assert(prefix() =~= vstd::utf8::encode_utf8(s).push(0u8));
}

/// Maps of different generators, configurations or seeds are kept under the hashes of different inputs,
/// and so are those of another release of a generator.
pub proof fn lemma_generators_keep_their_maps_apart(
    a: Generator,
    c1: Seq<char>,
    s1: u64,
    b: Generator,
    c2: Seq<char>,
    s2: u64,
)
    requires
        key_input(a.title(), a.release(), c1, s1) == key_input(b.title(), b.release(), c2, s2),
    ensures
        a == b,
        c1 == c2,
        s1 == s2,
{
    lemma_titles_are_plain(a);
    lemma_titles_are_plain(b);
    lemma_keys_hash_different_inputs(a.title(), a.release(), c1, s1, b.title(), b.release(), c2, s2);
    reveal_strlit("wild");
    reveal_strlit("rural");
    assert("wild"@.len() == 4 && "rural"@.len() == 5);
}

proof fn lemma_titles_are_plain(g: Generator)
    ensures
        !ambiguous(g.title()),
{
    let s = g.title();
    reveal_strlit("wild");
    reveal_strlit("rural");
    assert(vstd::utf8::is_ascii_chars(s));
    vstd::utf8::is_ascii_chars_encode_utf8(s);
    let e = vstd::utf8::encode_utf8(s);
    if e.contains(0u8) {
        let i = e.index_of(0u8);
        assert(s[i] as u8 == 0u8);
    }
}

/// What is said of a map names its entry, unless there is no cache, and tells where it came from.
pub proof fn lemma_origins_are_told(path: Seq<char>)
    ensures
        ({
            let (a, b) = (Origin::Loaded.said(path), Origin::Cached.said(path));
            &&& a.subrange(a.len() - path.len(), a.len() as int) == path
            &&& b.subrange(b.len() - path.len(), b.len() as int) == path
            &&& a.take("loaded"@.len() as int) == "loaded"@
            &&& b.take("generated, cached"@.len() as int) == "generated, cached"@
            &&& Origin::Generated.said(path) == Origin::Generated.said(Seq::empty())
        }),
{
    reveal_strlit("loaded from ");
    reveal_strlit("loaded");
    reveal_strlit("generated, cached at ");
    reveal_strlit("generated, cached");
    let (a, b) = (Origin::Loaded.said(path), Origin::Cached.said(path));
    assert(a.subrange(a.len() - path.len(), a.len() as int) =~= path);
    assert(b.subrange(b.len() - path.len(), b.len() as int) =~= path);
    assert(a.take("loaded"@.len() as int) =~= "loaded"@);
    assert(b.take("generated, cached"@.len() as int) =~= "generated, cached"@);
}

/// An entry is loaded exactly if it is there and can be read; with a cache every other map is kept.
pub proof fn lemma_entries_are_loaded_or_replaced(there: bool, readable: bool)
    ensures
        source_of(there, readable) == Origin::Loaded <==> there && readable,
        source_of(there, readable) == Origin::Cached <==> !there || !readable,
{
}

} // verus!
