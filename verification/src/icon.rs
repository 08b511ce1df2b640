//! Icon assets: classification by file extension, the theme directories
//! to search, the candidates a directory listing yields for an entry, and
//! the selection of the best candidate.
//!
//! Scanning directories is the caller's job; the functions here turn a
//! listing of regular files into ranked candidates.

use crate::strutil::{ext_of, file_ext, file_stem, stem_of, str_eq};
use crate::xdg::{local_icon_path_spec, DesktopFile, DesktopFileView};
use vstd::prelude::*;

verus! {

/// How an icon asset is rendered: a raster image, a scalable vector
/// image, or a 3D model.
#[derive(Debug, PartialEq, Eq, Clone, Copy, Structural)]
pub enum IconType {
    Png,
    Svg,
    Gltf,
}

/// One discovered icon asset. `size` is the pixel size its directory
/// bucket declares; vector and 3D assets report 0.
#[derive(Debug, PartialEq, Eq)]
pub struct Icon {
    pub icon_type: IconType,
    pub path: String,
    pub size: u16,
}

/// Mathematical image of an `Icon`.
pub struct IconView {
    pub icon_type: IconType,
    pub path: Seq<char>,
    pub size: u16,
}

impl View for Icon {
    type V = IconView;

    open spec fn view(&self) -> IconView {
        IconView { icon_type: self.icon_type, path: self.path@, size: self.size }
    }
}

impl DeepView for Icon {
    type V = IconView;

    open spec fn deep_view(&self) -> IconView {
        self.view()
    }
}

impl Clone for Icon {
    fn clone(&self) -> (r: Self)
        ensures
            r == *self,
    {
        Icon { icon_type: self.icon_type, path: self.path.clone(), size: self.size }
    }
}

/// A path paired with the pixel size its directory bucket declares.
/// `icon_search_dirs` produces such pairs for directories; the caller
/// hands back one pair per regular file it finds inside them.
#[derive(Debug, Clone)]
pub struct SizedPath {
    pub path: String,
    pub size: u16,
}

/// Mathematical image of a `SizedPath`.
pub struct SizedPathView {
    pub path: Seq<char>,
    pub size: u16,
}

impl View for SizedPath {
    type V = SizedPathView;

    open spec fn view(&self) -> SizedPathView {
        SizedPathView { path: self.path@, size: self.size }
    }
}

impl DeepView for SizedPath {
    type V = SizedPathView;

    open spec fn deep_view(&self) -> SizedPathView {
        self.view()
    }
}

/// The icon kind a file extension stands for.
pub open spec fn icon_type_of_ext(e: Option<Seq<char>>) -> Option<IconType> {
    if e == Option::Some("png"@) {
        Option::Some(IconType::Png)
    } else if e == Option::Some("svg"@) {
        Option::Some(IconType::Svg)
    } else if e == Option::Some("glb"@) || e == Option::Some("gltf"@) {
        Option::Some(IconType::Gltf)
    } else {
        Option::None
    }
}

/// What classifying a path yields: an icon of the kind its extension
/// stands for, or nothing for an unrecognized extension.
pub open spec fn from_path_spec(path: Seq<char>, size: u16) -> Option<IconView> {
    match icon_type_of_ext(ext_of(path)) {
        Option::Some(t) => Option::Some(IconView { icon_type: t, path, size }),
        Option::None => Option::None,
    }
}

impl Icon {
    /// Classifies a path by its extension: `png`, `svg`, and `glb`/`gltf`
    /// make an icon; anything else makes none.
    pub fn from_path(path: String, size: u16) -> (r: Option<Icon>)
        ensures
            match r {
                Option::Some(ic) => from_path_spec(path@, size) == Option::Some(ic@),
                Option::None => from_path_spec(path@, size) is None,
            },
    {
        let t: Option<IconType> = match file_ext(path.as_str()) {
            Option::Some(e) => {
                if str_eq(e, "png") {
                    Option::Some(IconType::Png)
                } else if str_eq(e, "svg") {
                    Option::Some(IconType::Svg)
                } else if str_eq(e, "glb") || str_eq(e, "gltf") {
                    Option::Some(IconType::Gltf)
                } else {
                    Option::None
                }
            },
            Option::None => Option::None,
        };
        match t {
            Option::Some(icon_type) => Option::Some(Icon { icon_type, path, size }),
            Option::None => Option::None,
        }
    }
}

/// The names of the size buckets searched inside a theme, in search
/// order.
pub open spec fn bucket_names() -> Seq<Seq<char>> {
    seq!["64x64"@, "32x32"@, "scalable"@, "128x128"@]
}

/// The pixel size each bucket declares; `scalable` declares none.
pub open spec fn bucket_sizes() -> Seq<u16> {
    seq![64u16, 32u16, 0u16, 128u16]
}

/// One search directory: `<dir>/icons/<theme>/<bucket>/apps`.
pub open spec fn search_dir_spec(dir: Seq<char>, theme: Seq<char>, b: int) -> Seq<char> {
    dir + "/icons/"@ + theme + seq!['/'] + bucket_names()[b] + "/apps"@
}

/// The four bucket directories under one data directory.
pub open spec fn dir_buckets(dir: Seq<char>, theme: Seq<char>) -> Seq<SizedPathView> {
    Seq::new(4, |b: int| SizedPathView { path: search_dir_spec(dir, theme, b), size: bucket_sizes()[b] })
}

/// Every bucket directory of every data directory, in order.
pub open spec fn icon_search_dirs_spec(dirs: Seq<Seq<char>>, theme: Seq<char>) -> Seq<SizedPathView>
    decreases dirs.len(),
{
    if dirs.len() == 0 {
        Seq::empty()
    } else {
        dir_buckets(dirs[0], theme) + icon_search_dirs_spec(dirs.drop_first(), theme)
    }
}

/// The name and declared size of one size bucket.
fn bucket(b: usize) -> (r: (&'static str, u16))
    requires
        b < 4,
    ensures
        r.0@ == bucket_names()[b as int],
        r.1 == bucket_sizes()[b as int],
{
    if b == 0 {
        ("64x64", 64)
    } else if b == 1 {
        ("32x32", 32)
    } else if b == 2 {
        ("scalable", 0)
    } else {
        ("128x128", 128)
    }
}

/// The directories to scan for theme icons: every size bucket of the
/// given theme under every data directory. Which of them exist is for the
/// caller to check.
pub fn icon_search_dirs(data_dirs: &Vec<String>, theme: &str) -> (r: Vec<SizedPath>)
    ensures
        r.deep_view() == icon_search_dirs_spec(data_dirs.deep_view(), theme@),
{
    let mut r: Vec<SizedPath> = Vec::new();
    let n = data_dirs.len();
    let mut i: usize = 0;
    proof {
        assert(data_dirs.deep_view().skip(0) =~= data_dirs.deep_view());
        assert(r.deep_view() =~= Seq::<SizedPathView>::empty());
        assert(Seq::<SizedPathView>::empty() + icon_search_dirs_spec(data_dirs.deep_view(), theme@)
            =~= icon_search_dirs_spec(data_dirs.deep_view(), theme@));
    }
    while i < n
        invariant
            n == data_dirs.len(),
            i <= n,
            r.deep_view() + icon_search_dirs_spec(data_dirs.deep_view().skip(i as int), theme@)
                == icon_search_dirs_spec(data_dirs.deep_view(), theme@),
        decreases n - i,
    {
        let ghost suffix = data_dirs.deep_view().skip(i as int);
        let ghost dv0 = r.deep_view();
        let mut b: usize = 0;
        while b < 4
            invariant
                n == data_dirs.len(),
                i < n,
                b <= 4,
                suffix == data_dirs.deep_view().skip(i as int),
                r.deep_view() =~= dv0 + dir_buckets(data_dirs.deep_view()[i as int], theme@).take(
                    b as int,
                ),
            decreases 4 - b,
        {
            let (bn, bs) = bucket(b);
            let mut d = data_dirs[i].clone();
            d.append("/icons/");
            d.append(theme);
            d.push('/');
            d.append(bn);
            d.append("/apps");
            let ghost dvb = r.deep_view();
            r.push(SizedPath { path: d, size: bs });
            proof {
                assert(d@ =~= search_dir_spec(data_dirs.deep_view()[i as int], theme@, b as int));
                assert(r.deep_view() =~= dvb.push(
                    SizedPathView {
                        path: search_dir_spec(data_dirs.deep_view()[i as int], theme@, b as int),
                        size: bucket_sizes()[b as int],
                    },
                ));
                assert(dir_buckets(data_dirs.deep_view()[i as int], theme@).take((b + 1) as int)
                    =~= dir_buckets(data_dirs.deep_view()[i as int], theme@).take(b as int).push(
                    dir_buckets(data_dirs.deep_view()[i as int], theme@)[b as int],
                ));
            }
            b = b + 1;
        }
        proof {
            assert(dir_buckets(data_dirs.deep_view()[i as int], theme@).take(4)
                =~= dir_buckets(data_dirs.deep_view()[i as int], theme@));
            assert(suffix[0] == data_dirs.deep_view()[i as int]);
            assert(suffix.drop_first() =~= data_dirs.deep_view().skip(i + 1));
            assert(icon_search_dirs_spec(suffix, theme@) == dir_buckets(suffix[0], theme@)
                + icon_search_dirs_spec(suffix.drop_first(), theme@));
            assert(dv0 + icon_search_dirs_spec(suffix, theme@) =~= (dv0 + dir_buckets(
                suffix[0],
                theme@,
            )) + icon_search_dirs_spec(suffix.drop_first(), theme@));
        }
        i = i + 1;
    }
    proof {
        assert(data_dirs.deep_view().skip(n as int) =~= Seq::<Seq<char>>::empty());
        assert(r.deep_view() + Seq::<SizedPathView>::empty() =~= r.deep_view());
    }
    r
}

/// The size a candidate reports: raster icons report their bucket's size,
/// vector and 3D icons report 0.
pub open spec fn candidate_size(t: IconType, bucket_size: u16) -> u16 {
    if t is Png {
        bucket_size
    } else {
        0u16
    }
}

/// The candidates a listing of theme files yields for an icon name: the
/// files whose stem is the name and whose extension is recognized, in
/// listing order.
pub open spec fn theme_candidates(icon_name: Seq<char>, found: Seq<SizedPathView>) -> Seq<IconView>
    decreases found.len(),
{
    if found.len() == 0 {
        Seq::empty()
    } else {
        let f = found[0];
        (if stem_of(f.path) == icon_name {
            match icon_type_of_ext(ext_of(f.path)) {
                Option::Some(t) => seq![
                    IconView { icon_type: t, path: f.path, size: candidate_size(t, f.size) },
                ],
                Option::None => Seq::empty(),
            }
        } else {
            Seq::empty()
        }) + theme_candidates(icon_name, found.drop_first())
    }
}

/// Every candidate for an entry: none when the entry names no icon; the
/// icon next to the entry alone, when it exists and is recognized; else
/// the matching theme files.
pub open spec fn raw_icons_spec(
    v: DesktopFileView,
    local_exists: bool,
    found: Seq<SizedPathView>,
) -> Seq<IconView> {
    match v.icon {
        Option::None => Seq::empty(),
        Option::Some(name) => match local_icon_path_spec(v) {
            Option::None => Seq::empty(),
            Option::Some(lp) => {
                if local_exists {
                    match from_path_spec(lp, 128) {
                        Option::Some(iv) => seq![iv],
                        Option::None => theme_candidates(name, found),
                    }
                } else {
                    theme_candidates(name, found)
                }
            },
        },
    }
}

impl DesktopFile {
    /// The icon candidates for this entry. `local_exists` says whether a
    /// file exists at `local_icon_path()`; `found` lists the regular
    /// files the caller saw in the search directories, each with its
    /// bucket's size. An entry without an icon name has no candidates.
    pub fn get_raw_icons(&self, local_exists: bool, found: &Vec<SizedPath>) -> (r: Vec<Icon>)
        ensures
            r.deep_view() == raw_icons_spec(self@, local_exists, found.deep_view()),
            self@.icon is None ==> r@.len() == 0,
    {
        let name: &String = match &self.icon {
            Option::None => {
                let r: Vec<Icon> = Vec::new();
                proof {
                    assert(r.deep_view() =~= Seq::<IconView>::empty());
                }
                return r;
            },
            Option::Some(nm) => nm,
        };
        if local_exists {
            if let Option::Some(lp) = self.local_icon_path() {
                match Icon::from_path(lp, 128) {
                    Option::Some(ic) => {
                        let mut r: Vec<Icon> = Vec::new();
                        r.push(ic);
                        proof {
                            assert(r.deep_view() =~= seq![r@[0]@]);
                        }
                        return r;
                    },
                    Option::None => {},
                }
            }
        }
        let mut r: Vec<Icon> = Vec::new();
        let n = found.len();
        let mut j: usize = 0;
        proof {
            assert(found.deep_view().skip(0) =~= found.deep_view());
            assert(r.deep_view() =~= Seq::<IconView>::empty());
            assert(Seq::<IconView>::empty() + theme_candidates(name@, found.deep_view())
                =~= theme_candidates(name@, found.deep_view()));
        }
        while j < n
            invariant
                n == found.len(),
                j <= n,
                r.deep_view() + theme_candidates(name@, found.deep_view().skip(j as int))
                    == theme_candidates(name@, found.deep_view()),
            decreases n - j,
        {
            let ghost suffix = found.deep_view().skip(j as int);
            let ghost dv0 = r.deep_view();
            proof {
                assert(suffix[0] == found.deep_view()[j as int]);
                assert(suffix.drop_first() =~= found.deep_view().skip(j + 1));
            }
            let f = &found[j];
            if str_eq(file_stem(f.path.as_str()), name.as_str()) {
                match Icon::from_path(f.path.clone(), f.size) {
                    Option::Some(ic) => {
                        let sz: u16 = match ic.icon_type {
                            IconType::Png => ic.size,
                            _ => 0,
                        };
                        let picked = Icon { icon_type: ic.icon_type, path: ic.path, size: sz };
                        r.push(picked);
                        proof {
                            assert(r.deep_view() =~= dv0.push(r@[r@.len() - 1]@));
                            assert(dv0.push(r@[r@.len() - 1]@) =~= dv0 + seq![r@[r@.len() - 1]@]);
                            assert(dv0 + theme_candidates(name@, suffix) =~= (dv0 + seq![
                                r@[r@.len() - 1]@,
                            ]) + theme_candidates(name@, suffix.drop_first()));
                        }
                    },
                    Option::None => {
                        proof {
                            assert(theme_candidates(name@, suffix) =~= Seq::<IconView>::empty()
                                + theme_candidates(name@, suffix.drop_first()));
                            assert(dv0 + theme_candidates(name@, suffix) =~= dv0 + theme_candidates(
                                name@,
                                suffix.drop_first(),
                            ));
                        }
                    },
                }
            } else {
                proof {
                    assert(theme_candidates(name@, suffix) =~= Seq::<IconView>::empty()
                        + theme_candidates(name@, suffix.drop_first()));
                    assert(dv0 + theme_candidates(name@, suffix) =~= dv0 + theme_candidates(
                        name@,
                        suffix.drop_first(),
                    ));
                }
            }
            j = j + 1;
        }
        proof {
            assert(found.deep_view().skip(n as int) =~= Seq::<SizedPathView>::empty());
            assert(r.deep_view() + Seq::<IconView>::empty() =~= r.deep_view());
        }
        r
    }
}

/// The first 3D candidate, if any.
pub open spec fn find_gltf(icons: Seq<IconView>) -> Option<IconView>
    decreases icons.len(),
{
    if icons.len() == 0 {
        Option::None
    } else if icons[0].icon_type is Gltf {
        Option::Some(icons[0])
    } else {
        find_gltf(icons.drop_first())
    }
}

/// The candidate with the largest declared size; among candidates of
/// equal size the one listed last wins, so the pick is deterministic for
/// one listing order.
pub open spec fn max_icon(icons: Seq<IconView>) -> Option<IconView>
    decreases icons.len(),
{
    if icons.len() == 0 {
        Option::None
    } else {
        match max_icon(icons.drop_last()) {
            Option::None => Option::Some(icons.last()),
            Option::Some(b) => {
                if icons.last().size >= b.size {
                    Option::Some(icons.last())
                } else {
                    Option::Some(b)
                }
            },
        }
    }
}

/// The candidate that selection picks: with a 3D preference, the first 3D
/// candidate when one exists; otherwise the largest.
pub open spec fn select_icon_spec(icons: Seq<IconView>, prefer_3d: bool) -> Option<IconView> {
    if prefer_3d && find_gltf(icons) is Some {
        find_gltf(icons)
    } else {
        max_icon(icons)
    }
}

/// Picks the best candidate from a list.
pub fn select_icon(icons: &Vec<Icon>, prefer_3d: bool) -> (r: Option<Icon>)
    ensures
        match r {
            Option::Some(ic) => select_icon_spec(icons.deep_view(), prefer_3d) == Option::Some(
                ic@,
            ),
            Option::None => select_icon_spec(icons.deep_view(), prefer_3d) is None,
        },
{
    let n = icons.len();
    if prefer_3d {
        let mut j: usize = 0;
        proof {
            assert(icons.deep_view().skip(0) =~= icons.deep_view());
        }
        while j < n
            invariant
                prefer_3d,
                n == icons.len(),
                j <= n,
                find_gltf(icons.deep_view()) == find_gltf(icons.deep_view().skip(j as int)),
            decreases n - j,
        {
            let ghost suffix = icons.deep_view().skip(j as int);
            proof {
                assert(suffix[0] == icons.deep_view()[j as int]);
                assert(suffix.drop_first() =~= icons.deep_view().skip(j + 1));
            }
            if matches!(icons[j].icon_type, IconType::Gltf) {
                proof {
                    assert(icons.deep_view()[j as int] == icons@[j as int].deep_view());
                    assert(suffix[0].icon_type is Gltf);
                    assert(find_gltf(suffix) == Option::Some(suffix[0]));
                }
                let picked = icons[j].clone();
                proof {
                    assert(picked@ == suffix[0]);
                    assert(select_icon_spec(icons.deep_view(), prefer_3d) == Option::Some(
                        picked@,
                    ));
                }
                return Option::Some(picked);
            }
            j = j + 1;
        }
        proof {
            assert(icons.deep_view().skip(n as int) =~= Seq::<IconView>::empty());
        }
    }
    let mut best: Option<Icon> = Option::None;
    let mut j: usize = 0;
    proof {
        assert(icons.deep_view().take(0) =~= Seq::<IconView>::empty());
    }
    while j < n
        invariant
            n == icons.len(),
            j <= n,
            match best {
                Option::Some(b) => max_icon(icons.deep_view().take(j as int)) == Option::Some(b@),
                Option::None => max_icon(icons.deep_view().take(j as int)) is None && j == 0,
            },
        decreases n - j,
    {
        let ghost prefix1 = icons.deep_view().take((j + 1) as int);
        proof {
            assert(prefix1.drop_last() =~= icons.deep_view().take(j as int));
            assert(prefix1.last() == icons.deep_view()[j as int]);
        }
        let cur = &icons[j];
        best = match best {
            Option::None => Option::Some(cur.clone()),
            Option::Some(b) => {
                if cur.size >= b.size {
                    Option::Some(cur.clone())
                } else {
                    Option::Some(b)
                }
            },
        };
        j = j + 1;
    }
    proof {
        assert(icons.deep_view().take(n as int) =~= icons.deep_view());
    }
    best
}

} // verus!
