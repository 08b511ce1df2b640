//! Content-addressed cache for rasterized vector icons.
//!
//! A raster or 3D candidate is already renderable and passes through
//! unchanged. A vector candidate is rasterized to PNG bytes and stored
//! under a name derived from a digest of its source bytes and the target
//! size, so repeated requests for the same source and size reuse the
//! first result and never render twice. The cache value here is the
//! record of the directory's contents; writing the files to disk, with
//! an atomic rename, is the caller's job.

use crate::icon::{Icon, IconType, IconView};
use crate::strutil::{file_stem, stem_of, str_eq};
use sha2::Digest;
use vstd::prelude::*;

verus! {

/// Why materialization failed: the vector source could not be parsed or
/// rendered.
#[derive(Debug, PartialEq, Eq, Clone, Copy, Structural)]
pub enum CacheError {
    InvalidData,
}

/// The SHA-224 digest of a byte sequence, by name; the digest function
/// itself is outside this crate.
pub uninterp spec fn sha224_of(data: Seq<u8>) -> Seq<u8>;

/// Relies on the sha2 crate's `Sha224` (through `Digest::digest`): the
/// digest depends on the input bytes alone and is 28 bytes long.
#[verifier::external_body]
fn sha224(data: &Vec<u8>) -> (r: Vec<u8>)
    ensures
        r@ == sha224_of(data@),
        r@.len() == 28,
{
    sha2::Sha224::digest(data.as_slice()).to_vec()
}

/// The PNG bytes that rasterizing an SVG source at a target size yields,
/// by name; `None` stands for a source that cannot be parsed or
/// rendered.
pub uninterp spec fn rasterized(svg: Seq<u8>, size: u16) -> Option<Seq<u8>>;

/// Relies on resvg: `usvg::Tree::from_data` parses the SVG bytes,
/// `resvg::render` rasterizes the tree into a square pixmap of the target
/// size fitted to its width, and tiny-skia's `Pixmap::encode_png` encodes
/// the pixels. External file references are disabled, so success and the
/// PNG bytes depend on the SVG bytes and the size alone. The size bound
/// keeps the pixmap allocation small.
#[verifier::external_body]
fn rasterize_svg(svg: &Vec<u8>, size: u16) -> (r: Result<Vec<u8>, CacheError>)
    requires
        1 <= size <= 4096,
    ensures
        match r {
            Result::Ok(png) => rasterized(svg@, size) == Option::Some(png@),
            Result::Err(e) => rasterized(svg@, size) is None && e == CacheError::InvalidData,
        },
{
    let mut opt = resvg::usvg::Options::default();
    opt.image_href_resolver.resolve_string = Box::new(|_, _| None);
    let tree = resvg::usvg::Tree::from_data(svg.as_slice(), &opt)
        .map_err(|_| CacheError::InvalidData)?;
    let mut pixmap = resvg::tiny_skia::Pixmap::new(size as u32, size as u32)
        .ok_or(CacheError::InvalidData)?;
    let fit = resvg::usvg::FitTo::Width(size as u32);
    let transform = resvg::tiny_skia::Transform::identity();
    resvg::render(&tree, fit, transform, pixmap.as_mut()).ok_or(CacheError::InvalidData)?;
    pixmap.encode_png().map_err(|_| CacheError::InvalidData)
}

/// The two little-endian bytes of a target size.
pub open spec fn size_bytes(size: u16) -> Seq<u8> {
    seq![(size % 256) as u8, (size / 256) as u8]
}

/// The bytes whose digest keys a cache entry: the source bytes followed
/// by the target size.
pub open spec fn key_input(source: Seq<u8>, size: u16) -> Seq<u8> {
    source + size_bytes(size)
}

/// The digest that keys a cache entry.
fn key_digest(source: &Vec<u8>, size: u16) -> (r: Vec<u8>)
    ensures
        r@ == sha224_of(key_input(source@, size)),
        r@.len() == 28,
{
    let mut inp: Vec<u8> = Vec::new();
    let n = source.len();
    let mut i: usize = 0;
    while i < n
        invariant
            n == source.len(),
            i <= n,
            inp@ == source@.take(i as int),
        decreases n - i,
    {
        inp.push(source[i]);
        proof {
            assert(inp@ =~= source@.take((i + 1) as int));
        }
        i = i + 1;
    }
    inp.push((size % 256) as u8);
    inp.push((size / 256) as u8);
    proof {
        assert(source@.take(n as int) =~= source@);
        assert(inp@ =~= key_input(source@, size));
    }
    sha224(&inp)
}

/// The hexadecimal digit for a value below 16, lower case.
pub open spec fn hex_digit(n: int) -> char {
    if n == 0 {
        '0'
    } else if n == 1 {
        '1'
    } else if n == 2 {
        '2'
    } else if n == 3 {
        '3'
    } else if n == 4 {
        '4'
    } else if n == 5 {
        '5'
    } else if n == 6 {
        '6'
    } else if n == 7 {
        '7'
    } else if n == 8 {
        '8'
    } else if n == 9 {
        '9'
    } else if n == 10 {
        'a'
    } else if n == 11 {
        'b'
    } else if n == 12 {
        'c'
    } else if n == 13 {
        'd'
    } else if n == 14 {
        'e'
    } else {
        'f'
    }
}

/// The lower-case hex encoding of a byte sequence, two digits per byte.
pub open spec fn hex_of(data: Seq<u8>) -> Seq<char>
    decreases data.len(),
{
    if data.len() == 0 {
        Seq::empty()
    } else {
        seq![hex_digit(data[0] as int / 16), hex_digit(data[0] as int % 16)] + hex_of(
            data.drop_first(),
        )
    }
}

fn hex_digit_ex(n: u8) -> (c: char)
    requires
        n < 16,
    ensures
        c == hex_digit(n as int),
{
    if n == 0 {
        '0'
    } else if n == 1 {
        '1'
    } else if n == 2 {
        '2'
    } else if n == 3 {
        '3'
    } else if n == 4 {
        '4'
    } else if n == 5 {
        '5'
    } else if n == 6 {
        '6'
    } else if n == 7 {
        '7'
    } else if n == 8 {
        '8'
    } else if n == 9 {
        '9'
    } else if n == 10 {
        'a'
    } else if n == 11 {
        'b'
    } else if n == 12 {
        'c'
    } else if n == 13 {
        'd'
    } else if n == 14 {
        'e'
    } else {
        'f'
    }
}

/// Encodes bytes as lower-case hex.
fn to_hex(data: &Vec<u8>) -> (r: String)
    ensures
        r@ == hex_of(data@),
{
    let mut r = String::new();
    let n = data.len();
    let mut i: usize = 0;
    proof {
        assert(data@.skip(0) =~= data@);
        assert(r@ + hex_of(data@) =~= hex_of(data@));
    }
    while i < n
        invariant
            n == data.len(),
            i <= n,
            r@ + hex_of(data@.skip(i as int)) == hex_of(data@),
        decreases n - i,
    {
        let ghost suffix = data@.skip(i as int);
        let ghost r0 = r@;
        proof {
            assert(suffix[0] == data@[i as int]);
            assert(suffix.drop_first() =~= data@.skip(i + 1));
        }
        let b = data[i];
        r.push(hex_digit_ex(b / 16));
        r.push(hex_digit_ex(b % 16));
        proof {
            assert(r@ =~= r0 + seq![
                hex_digit(suffix[0] as int / 16),
                hex_digit(suffix[0] as int % 16),
            ]);
            assert(r0 + hex_of(suffix) =~= (r0 + seq![
                hex_digit(suffix[0] as int / 16),
                hex_digit(suffix[0] as int % 16),
            ]) + hex_of(suffix.drop_first()));
        }
        i = i + 1;
    }
    proof {
        assert(data@.skip(n as int) =~= Seq::<u8>::empty());
        assert(r@ + Seq::<char>::empty() =~= r@);
    }
    r
}

/// The file name a vector source materializes to: the source path's stem,
/// a dash, the hex digest of the source bytes and target size, and the
/// PNG extension.
pub open spec fn cache_file_name(stem: Seq<char>, source: Seq<u8>, size: u16) -> Seq<char> {
    stem + seq!['-'] + hex_of(sha224_of(key_input(source, size))) + ".png"@
}

/// The directory the icon cache lives in: `XDG_CACHE_HOME` when set,
/// else the home directory's `.cache`, with the cache's own
/// subdirectory appended.
pub open spec fn image_cache_dir_spec(xdg_cache_home: Option<Seq<char>>, home: Seq<char>) -> Seq<
    char,
> {
    (match xdg_cache_home {
        Option::Some(c) => c,
        Option::None => home + "/.cache"@,
    }) + "/protostar_icon_cache"@
}

/// Composes the cache directory path from the value of `XDG_CACHE_HOME`
/// (if set) and the home directory. Creating the directory on disk is
/// the caller's job, done once when the cache is set up.
pub fn get_image_cache_dir(xdg_cache_home: &Option<String>, home: &str) -> (r: String)
    ensures
        r@ == image_cache_dir_spec(xdg_cache_home.deep_view(), home@),
{
    let mut base = match xdg_cache_home {
        Option::Some(c) => c.clone(),
        Option::None => {
            let mut h = String::from_str(home);
            h.append("/.cache");
            h
        },
    };
    base.append("/protostar_icon_cache");
    base
}

/// One cached file: its name in the cache directory and its bytes.
pub struct CacheFile {
    pub name: String,
    pub data: Vec<u8>,
}

/// The record of a cache directory's contents. The caller mirrors it on
/// disk: it creates the directory when the cache is set up and writes
/// each new entry's bytes under its name with an atomic rename, so that
/// concurrent writers of the same key cannot corrupt each other.
pub struct IconCache {
    dir: String,
    files: Vec<CacheFile>,
}

/// Mathematical image of an `IconCache`.
pub struct CacheModel {
    pub dir: Seq<char>,
    pub entries: Seq<(Seq<char>, Seq<u8>)>,
}

impl View for IconCache {
    type V = CacheModel;

    closed spec fn view(&self) -> CacheModel {
        CacheModel {
            dir: self.dir@,
            entries: Seq::new(
                self.files@.len(),
                |i: int| (self.files@[i].name@, self.files@[i].data@),
            ),
        }
    }
}

/// Whether the cache holds an entry under the given name.
pub open spec fn has_name(m: CacheModel, n: Seq<char>) -> bool {
    exists|i: int| 0 <= i < m.entries.len() && (#[trigger] m.entries[i]).0 == n
}

/// The bytes stored under a name the cache holds.
pub open spec fn data_of(m: CacheModel, n: Seq<char>) -> Seq<u8> {
    m.entries[choose|i: int| 0 <= i < m.entries.len() && (#[trigger] m.entries[i]).0 == n].1
}

/// Entry names are unique, so each name maps to one byte sequence.
pub open spec fn cache_wf(m: CacheModel) -> bool {
    forall|i: int, j: int|
        0 <= i < j < m.entries.len() ==> (#[trigger] m.entries[i]).0 != (
        #[trigger] m.entries[j]).0
}

/// What one materialization call returns and what it leaves in the
/// cache. Non-vector candidates pass through; a vector candidate reuses
/// the entry under its key when one exists, and otherwise renders and
/// appends exactly one entry.
pub open spec fn materialize_spec(
    m: CacheModel,
    icon: IconView,
    source: Seq<u8>,
    size: u16,
) -> (Result<MaterializedView, CacheError>, CacheModel) {
    if !(icon.icon_type is Svg) {
        (Result::Ok(MaterializedView { icon, rendered: false }), m)
    } else {
        let name = cache_file_name(stem_of(icon.path), source, size);
        let full = m.dir + seq!['/'] + name;
        let out = IconView { icon_type: IconType::Png, path: full, size };
        if has_name(m, name) {
            (Result::Ok(MaterializedView { icon: out, rendered: false }), m)
        } else {
            match rasterized(source, size) {
                Option::Some(png) => (
                    Result::Ok(MaterializedView { icon: out, rendered: true }),
                    CacheModel { dir: m.dir, entries: m.entries.push((name, png)) },
                ),
                Option::None => (Result::Err(CacheError::InvalidData), m),
            }
        }
    }
}

/// A renderable icon produced by the cache, and whether producing it
/// invoked the rasterizer.
#[derive(Debug)]
pub struct Materialized {
    pub icon: Icon,
    pub rendered: bool,
}

/// Mathematical image of a `Materialized`.
pub struct MaterializedView {
    pub icon: IconView,
    pub rendered: bool,
}

impl View for Materialized {
    type V = MaterializedView;

    open spec fn view(&self) -> MaterializedView {
        MaterializedView { icon: self.icon@, rendered: self.rendered }
    }
}

impl IconCache {
    /// An empty cache over the given directory.
    pub fn new(dir: String) -> (c: IconCache)
        ensures
            c@.dir == dir@,
            c@.entries.len() == 0,
            cache_wf(c@),
    {
        let c = IconCache { dir, files: Vec::new() };
        proof {
            assert(c@.entries =~= Seq::<(Seq<char>, Seq<u8>)>::empty());
        }
        c
    }

    /// How many entries the cache holds.
    pub fn len(&self) -> (n: usize)
        ensures
            n == self@.entries.len(),
    {
        self.files.len()
    }

    /// Records an entry that already exists, as when the directory's
    /// files from an earlier run are read back in. A name the cache
    /// already holds is refused, and nothing changes.
    pub fn record(&mut self, name: String, data: Vec<u8>) -> (ok: bool)
        requires
            cache_wf(old(self)@),
        ensures
            cache_wf(final(self)@),
            ok == !has_name(old(self)@, name@),
            ok ==> final(self)@ == (CacheModel {
                dir: old(self)@.dir,
                entries: old(self)@.entries.push((name@, data@)),
            }),
            !ok ==> final(self)@ == old(self)@,
    {
        match self.get(name.as_str()) {
            Option::Some(_) => false,
            Option::None => {
                let ghost m0 = self@;
                let ghost name_view = name@;
                let ghost data_view = data@;
                proof {
                    lemma_cache_push(m0, name_view, data_view);
                }
                self.files.push(CacheFile { name, data });
                proof {
                    assert(self@.entries =~= m0.entries.push((name_view, data_view)));
                }
                true
            },
        }
    }

    /// The bytes stored under a name, when the cache holds it.
    pub fn get(&self, name: &str) -> (r: Option<&Vec<u8>>)
        requires
            cache_wf(self@),
        ensures
            match r {
                Option::Some(d) => has_name(self@, name@) && d@ == data_of(self@, name@),
                Option::None => !has_name(self@, name@),
            },
    {
        let n = self.files.len();
        let mut i: usize = 0;
        while i < n
            invariant
                n == self.files.len(),
                i <= n,
                cache_wf(self@),
                forall|t: int| 0 <= t < i ==> (#[trigger] self@.entries[t]).0 != name@,
            decreases n - i,
        {
            if str_eq(self.files[i].name.as_str(), name) {
                proof {
                    assert(self@.entries[i as int].0 == name@);
                    let w = choose|t: int|
                        0 <= t < self@.entries.len() && (#[trigger] self@.entries[t]).0 == name@;
                    if w != i as int {
                        assert(self@.entries[w].0 == self@.entries[i as int].0);
                        assert(false);
                    }
                }
                return Option::Some(&self.files[i].data);
            }
            i = i + 1;
        }
        Option::None
    }
}

/// The cache's well-formedness survives appending a fresh name, and the
/// appended entry is then the one its name retrieves.
proof fn lemma_cache_push(m: CacheModel, name: Seq<char>, png: Seq<u8>)
    requires
        cache_wf(m),
        !has_name(m, name),
    ensures
        ({
            let m2 = CacheModel { dir: m.dir, entries: m.entries.push((name, png)) };
            &&& cache_wf(m2)
            &&& has_name(m2, name)
            &&& data_of(m2, name) == png
        }),
{
    let m2 = CacheModel { dir: m.dir, entries: m.entries.push((name, png)) };
    let last = m.entries.len() as int;
    assert(m2.entries[last] == (name, png));
    assert forall|i: int, j: int| 0 <= i < j < m2.entries.len() implies (
    #[trigger] m2.entries[i]).0 != (#[trigger] m2.entries[j]).0 by {
        if j < last {
            assert(m2.entries[i] == m.entries[i]);
            assert(m2.entries[j] == m.entries[j]);
        } else {
            assert(m2.entries[i] == m.entries[i]);
            if m.entries[i].0 == name {
                assert(false);
            }
        }
    }
    assert(has_name(m2, name));
    let w = choose|t: int| 0 <= t < m2.entries.len() && (#[trigger] m2.entries[t]).0 == name;
    if w != last {
        assert(m2.entries[w] == m.entries[w]);
        assert(has_name(m, name));
        assert(false);
    }
}

impl Icon {
    /// Makes this candidate renderable through the cache: raster and 3D
    /// candidates pass through unchanged; a vector candidate becomes the
    /// cached PNG rendered from `source` at `size`, rendered now only if
    /// the cache does not hold its key already. The returned `rendered`
    /// flag says whether the rasterizer ran.
    pub fn cached_process(&self, cache: &mut IconCache, source: &Vec<u8>, size: u16) -> (r: Result<
        Materialized,
        CacheError,
    >)
        requires
            1 <= size <= 4096,
            cache_wf(old(cache)@),
        ensures
            cache_wf(final(cache)@),
            ({
                let (rr, mm) = materialize_spec(old(cache)@, self@, source@, size);
                &&& final(cache)@ == mm
                &&& match (r, rr) {
                    (Result::Ok(a), Result::Ok(b)) => a@ == b,
                    (Result::Err(a), Result::Err(b)) => a == b,
                    _ => false,
                }
            }),
    {
        if !matches!(self.icon_type, IconType::Svg) {
            return Result::Ok(Materialized { icon: self.clone(), rendered: false });
        }
        let stem = file_stem(self.path.as_str());
        let digest = key_digest(source, size);
        let hexs = to_hex(&digest);
        let mut name = String::from_str(stem);
        name.push('-');
        name.append(hexs.as_str());
        name.append(".png");
        proof {
            assert(name@ =~= cache_file_name(stem_of(self@.path), source@, size));
        }
        let mut full = cache.dir.clone();
        full.push('/');
        full.append(name.as_str());
        proof {
            assert(full@ =~= cache@.dir + seq!['/'] + cache_file_name(
                stem_of(self@.path),
                source@,
                size,
            ));
        }
        match cache.get(name.as_str()) {
            Option::Some(_) => Result::Ok(
                Materialized {
                    icon: Icon { icon_type: IconType::Png, path: full, size },
                    rendered: false,
                },
            ),
            Option::None => {
                match rasterize_svg(source, size) {
                    Result::Err(e) => Result::Err(e),
                    Result::Ok(png) => {
                        let ghost m0 = cache@;
                        let ghost png_view = png@;
                        proof {
                            lemma_cache_push(m0, name@, png_view);
                        }
                        cache.files.push(CacheFile { name, data: png });
                        proof {
                            assert(cache@.entries =~= m0.entries.push(
                                (
                                    cache_file_name(stem_of(self@.path), source@, size),
                                    png_view,
                                ),
                            ));
                            assert(cache@.dir == m0.dir);
                        }
                        Result::Ok(
                            Materialized {
                                icon: Icon { icon_type: IconType::Png, path: full, size },
                                rendered: true,
                            },
                        )
                    },
                }
            },
        }
    }
}

/// Materializing the same source bytes at the same target size twice
/// yields the same output path and the same cached bytes, and the second
/// call does not invoke the rasterizer or change the cache.
pub proof fn lemma_materialize_idempotent(
    m: CacheModel,
    icon: IconView,
    source: Seq<u8>,
    size: u16,
)
    requires
        cache_wf(m),
        materialize_spec(m, icon, source, size).0 is Ok,
    ensures
        ({
            let (r1, m1) = materialize_spec(m, icon, source, size);
            let (r2, m2) = materialize_spec(m1, icon, source, size);
            &&& r2 is Ok
            &&& m2 == m1
            &&& match (r1, r2) {
                (Result::Ok(a), Result::Ok(b)) => {
                    &&& b.icon == a.icon
                    &&& b.rendered == false
                },
                _ => false,
            }
        }),
{
    if icon.icon_type is Svg {
        let name = cache_file_name(stem_of(icon.path), source, size);
        if !has_name(m, name) {
            let png = rasterized(source, size).unwrap();
            lemma_cache_push(m, name, png);
        }
    }
}

/// Materializing a source whose key the cache does not hold appends
/// exactly one entry and leaves every existing entry unchanged.
pub proof fn lemma_materialize_fresh(m: CacheModel, icon: IconView, source: Seq<u8>, size: u16)
    requires
        cache_wf(m),
        icon.icon_type is Svg,
        !has_name(m, cache_file_name(stem_of(icon.path), source, size)),
        rasterized(source, size) is Some,
    ensures
        ({
            let (r1, m1) = materialize_spec(m, icon, source, size);
            &&& r1 is Ok
            &&& m1.entries.len() == m.entries.len() + 1
            &&& forall|i: int| 0 <= i < m.entries.len() ==> m1.entries[i] == m.entries[i]
            &&& m1.entries.last() == (
                cache_file_name(stem_of(icon.path), source, size),
                rasterized(source, size).unwrap(),
            )
            &&& cache_wf(m1)
            &&& data_of(m1, cache_file_name(stem_of(icon.path), source, size)) == rasterized(
                source,
                size,
            ).unwrap()
        }),
{
    let name = cache_file_name(stem_of(icon.path), source, size);
    let png = rasterized(source, size).unwrap();
    lemma_cache_push(m, name, png);
}

} // verus!
