//! Desktop-entry files: the parsed record, the line-oriented parser, and
//! the composition of the standard search directories.
//!
//! A desktop-entry file is INI-style text. Only the `[Desktop Entry]`
//! section is read, and only the keys `Name`, `Exec`, `Categories`,
//! `Icon` and `NoDisplay`; blank lines and `#` comments are skipped and
//! unknown keys are ignored. Reading the file from disk is the caller's
//! job: the parser here takes the file's text and never fails.

use crate::strutil::{
    char_break, contains_seq, ext_of, file_ext, lemma_char_break_at, split_all, split_string,
    str_contains, str_eq,
};
use vstd::prelude::*;

verus! {

/// One parsed desktop-entry file.
#[derive(Debug)]
pub struct DesktopFile {
    pub path: String,
    pub name: Option<String>,
    pub command: Option<String>,
    pub categories: Vec<String>,
    pub icon: Option<String>,
    pub no_display: bool,
}

/// Mathematical image of a `DesktopFile`.
pub struct DesktopFileView {
    pub path: Seq<char>,
    pub name: Option<Seq<char>>,
    pub command: Option<Seq<char>>,
    pub categories: Seq<Seq<char>>,
    pub icon: Option<Seq<char>>,
    pub no_display: bool,
}

impl View for DesktopFile {
    type V = DesktopFileView;

    open spec fn view(&self) -> DesktopFileView {
        DesktopFileView {
            path: self.path@,
            name: self.name.deep_view(),
            command: self.command.deep_view(),
            categories: self.categories.deep_view(),
            icon: self.icon.deep_view(),
            no_display: self.no_display,
        }
    }
}

impl DeepView for DesktopFile {
    type V = DesktopFileView;

    open spec fn deep_view(&self) -> DesktopFileView {
        self.view()
    }
}

impl Clone for DesktopFile {
    fn clone(&self) -> (r: Self)
        ensures
            r@ == self@,
    {
        DesktopFile {
            path: self.path.clone(),
            name: crate::strutil::clone_string_opt(&self.name),
            command: crate::strutil::clone_string_opt(&self.command),
            categories: crate::strutil::clone_string_vec(&self.categories),
            icon: crate::strutil::clone_string_opt(&self.icon),
            no_display: self.no_display,
        }
    }
}

/// Parser state: the fields collected so far, and whether the current
/// section is the `[Desktop Entry]` one.
pub struct ParseState {
    pub in_entry: bool,
    pub name: Option<Seq<char>>,
    pub command: Option<Seq<char>>,
    pub categories: Seq<Seq<char>>,
    pub icon: Option<Seq<char>>,
    pub no_display: bool,
}

pub open spec fn initial_parse_state() -> ParseState {
    ParseState {
        in_entry: false,
        name: Option::None,
        command: Option::None,
        categories: Seq::empty(),
        icon: Option::None,
        no_display: false,
    }
}

/// Removes one carriage return at the end of a newline-terminated line.
pub open spec fn strip_cr(l: Seq<char>) -> Seq<char> {
    if l.len() > 0 && l[l.len() - 1] == '\r' {
        l.drop_last()
    } else {
        l
    }
}

/// The lines of `s`: pieces between `\n` characters, each stripped of one
/// trailing `\r`; the final piece keeps a trailing `\r`, as it was not
/// newline-terminated.
pub open spec fn lines_of(s: Seq<char>) -> Seq<Seq<char>>
    decreases s.len(),
{
    let k = char_break(s, '\n') as int;
    if k >= s.len() {
        seq![s]
    } else {
        seq![strip_cr(s.subrange(0, k))] + lines_of(s.subrange(k + 1, s.len() as int))
    }
}

/// A section-header line: `[` then any characters but `]`, then `]`.
pub open spec fn is_header(l: Seq<char>) -> bool {
    l.len() >= 2 && l[0] == '[' && l[l.len() - 1] == ']' && forall|j: int|
        1 <= j < l.len() - 1 ==> l[j] != ']'
}

/// The Categories tokens of a raw value: the pieces between `;`
/// separators, with empty pieces dropped.
pub open spec fn semi_tokens(s: Seq<char>) -> Seq<Seq<char>>
    decreases s.len(),
{
    let k = char_break(s, ';') as int;
    if k >= s.len() {
        if s.len() > 0 {
            seq![s]
        } else {
            Seq::empty()
        }
    } else {
        (if k > 0 {
            seq![s.subrange(0, k)]
        } else {
            Seq::empty()
        }) + semi_tokens(s.subrange(k + 1, s.len() as int))
    }
}

/// The effect of one line on the parser state. A header line switches the
/// section; inside the entry section a `key=value` line sets the matching
/// field and any other line is ignored.
pub open spec fn parse_line(st: ParseState, l: Seq<char>) -> ParseState {
    if l.len() == 0 || l[0] == '#' {
        st
    } else {
        let st1 = if is_header(l) {
            ParseState {
                in_entry: contains_seq(l.subrange(1, l.len() - 1), "Desktop Entry"@),
                ..st
            }
        } else {
            st
        };
        if !st1.in_entry {
            st1
        } else {
            let k = char_break(l, '=') as int;
            if k >= l.len() {
                st1
            } else {
                let key = l.subrange(0, k);
                let value = l.subrange(k + 1, l.len() as int);
                if key == "Name"@ {
                    ParseState { name: Option::Some(value), ..st1 }
                } else if key == "Exec"@ {
                    ParseState { command: Option::Some(value), ..st1 }
                } else if key == "Categories"@ {
                    ParseState { categories: semi_tokens(value), ..st1 }
                } else if key == "Icon"@ {
                    ParseState { icon: Option::Some(value), ..st1 }
                } else if key == "NoDisplay"@ {
                    ParseState { no_display: value == "true"@, ..st1 }
                } else {
                    st1
                }
            }
        }
    }
}

/// The parser state after a sequence of lines.
pub open spec fn parse_lines(st: ParseState, ls: Seq<Seq<char>>) -> ParseState
    decreases ls.len(),
{
    if ls.len() == 0 {
        st
    } else {
        parse_lines(parse_line(st, ls[0]), ls.drop_first())
    }
}

/// The record that parsing the given text produces.
pub open spec fn parse_result(path: Seq<char>, content: Seq<char>) -> DesktopFileView {
    let st = parse_lines(initial_parse_state(), lines_of(content));
    DesktopFileView {
        path,
        name: st.name,
        command: st.command,
        categories: st.categories,
        icon: st.icon,
        no_display: st.no_display,
    }
}

/// The parser state that a record and a section flag stand for.
pub open spec fn state_of(v: DesktopFileView, in_entry: bool) -> ParseState {
    ParseState {
        in_entry,
        name: v.name,
        command: v.command,
        categories: v.categories,
        icon: v.icon,
        no_display: v.no_display,
    }
}

/// The data directories to search: the colon-separated entries of
/// `XDG_DATA_DIRS` (or the standard pair when it is unset), then the
/// user's local share directory.
pub open spec fn data_dirs_spec(xdg_data_dirs: Option<Seq<char>>, home: Seq<char>) -> Seq<
    Seq<char>,
> {
    (match xdg_data_dirs {
        Option::Some(s) => split_all(s, ':'),
        Option::None => seq!["/usr/local/share"@, "/usr/share"@],
    }).push(home + "/.local/share"@)
}

/// Composes the data directories from the value of `XDG_DATA_DIRS` (if
/// set) and the home directory. Which of them exist on disk is for the
/// caller to check.
pub fn get_data_dirs(xdg_data_dirs: &Option<String>, home: &str) -> (r: Vec<String>)
    ensures
        r.deep_view() == data_dirs_spec(xdg_data_dirs.deep_view(), home@),
{
    let mut r: Vec<String> = match xdg_data_dirs {
        Option::Some(s) => split_string(s.as_str(), ':'),
        Option::None => {
            let mut v: Vec<String> = Vec::new();
            v.push(String::from_str("/usr/local/share"));
            v.push(String::from_str("/usr/share"));
            proof {
                assert(v.deep_view() =~= seq!["/usr/local/share"@, "/usr/share"@]);
            }
            v
        },
    };
    let ghost base = r.deep_view();
    let mut h = String::from_str(home);
    h.append("/.local/share");
    r.push(h);
    proof {
        assert(r.deep_view() =~= base.push(home@ + "/.local/share"@));
    }
    r
}

/// Each data directory with `/applications` appended.
pub open spec fn app_dirs_spec(dirs: Seq<Seq<char>>) -> Seq<Seq<char>> {
    dirs.map(|i: int, d: Seq<char>| d + "/applications"@)
}

/// The application directories under the given data directories.
pub fn get_app_dirs(data_dirs: &Vec<String>) -> (r: Vec<String>)
    ensures
        r.deep_view() == app_dirs_spec(data_dirs.deep_view()),
{
    let mut r: Vec<String> = Vec::new();
    let n = data_dirs.len();
    let mut i: usize = 0;
    while i < n
        invariant
            n == data_dirs.len(),
            i <= n,
            r.deep_view() =~= app_dirs_spec(data_dirs.deep_view().take(i as int)),
        decreases n - i,
    {
        let mut d = data_dirs[i].clone();
        d.append("/applications");
        let ghost dv0 = r.deep_view();
        r.push(d);
        proof {
            assert(r.deep_view() =~= dv0.push(data_dirs.deep_view()[i as int] + "/applications"@));
            assert(r.deep_view() =~= app_dirs_spec(data_dirs.deep_view().take(i + 1)));
        }
        i = i + 1;
    }
    proof {
        assert(data_dirs.deep_view().take(n as int) =~= data_dirs.deep_view());
    }
    r
}

/// The paths among `paths` that name desktop-entry files, in order: those
/// whose extension is `desktop`.
pub open spec fn desktop_files_spec(paths: Seq<Seq<char>>) -> Seq<Seq<char>>
    decreases paths.len(),
{
    if paths.len() == 0 {
        Seq::empty()
    } else {
        (if ext_of(paths[0]) == Option::Some("desktop"@) {
            seq![paths[0]]
        } else {
            Seq::empty()
        }) + desktop_files_spec(paths.drop_first())
    }
}

/// Selects the desktop-entry files from a directory listing.
pub fn get_desktop_files(paths: &Vec<String>) -> (r: Vec<String>)
    ensures
        r.deep_view() == desktop_files_spec(paths.deep_view()),
{
    let mut r: Vec<String> = Vec::new();
    let n = paths.len();
    let mut i: usize = 0;
    proof {
        assert(paths.deep_view().skip(0) =~= paths.deep_view());
        assert(Seq::<Seq<char>>::empty() + desktop_files_spec(paths.deep_view())
            =~= desktop_files_spec(paths.deep_view()));
        assert(r.deep_view() =~= Seq::<Seq<char>>::empty());
    }
    while i < n
        invariant
            n == paths.len(),
            i <= n,
            r.deep_view() + desktop_files_spec(paths.deep_view().skip(i as int))
                == desktop_files_spec(paths.deep_view()),
        decreases n - i,
    {
        let ghost dv0 = r.deep_view();
        let ghost suffix = paths.deep_view().skip(i as int);
        proof {
            assert(suffix[0] == paths.deep_view()[i as int]);
            assert(suffix.drop_first() =~= paths.deep_view().skip(i + 1));
        }
        let is_desktop = match file_ext(paths[i].as_str()) {
            Option::Some(e) => str_eq(e, "desktop"),
            Option::None => false,
        };
        if is_desktop {
            r.push(paths[i].clone());
            proof {
                assert(r.deep_view() =~= dv0.push(suffix[0]));
                assert(dv0.push(suffix[0]) =~= dv0 + seq![suffix[0]]);
                assert(dv0 + desktop_files_spec(suffix) =~= (dv0 + seq![suffix[0]])
                    + desktop_files_spec(suffix.drop_first()));
            }
        } else {
            proof {
                assert(desktop_files_spec(suffix) =~= Seq::<Seq<char>>::empty()
                    + desktop_files_spec(suffix.drop_first()));
                assert(dv0 + desktop_files_spec(suffix) =~= dv0 + desktop_files_spec(
                    suffix.drop_first(),
                ));
            }
        }
        i = i + 1;
    }
    proof {
        assert(paths.deep_view().skip(n as int) =~= Seq::<Seq<char>>::empty());
        assert(r.deep_view() + Seq::<Seq<char>>::empty() =~= r.deep_view());
    }
    r
}

/// The directory part of a path: everything before the last `/`, or `.`
/// when the path holds no `/`.
pub open spec fn dir_of(p: Seq<char>) -> Seq<char> {
    let sl = crate::strutil::last_index_of(p, '/');
    if sl == -1 {
        "."@
    } else {
        p.subrange(0, sl)
    }
}

/// Where an icon named next to the entry would live: the icon name
/// resolved against the entry's own directory, or the name itself when it
/// is already absolute.
pub open spec fn local_icon_path_spec(v: DesktopFileView) -> Option<Seq<char>> {
    match v.icon {
        Option::None => Option::None,
        Option::Some(ic) => Option::Some(
            if ic.len() > 0 && ic[0] == '/' {
                ic
            } else {
                dir_of(v.path) + seq!['/'] + ic
            },
        ),
    }
}

impl DesktopFile {
    /// The path the entry was parsed from.
    pub fn path(&self) -> (r: &String)
        ensures
            r@ == self@.path,
    {
        &self.path
    }

    /// The candidate path of an icon stored next to the entry itself.
    /// Whether a file exists there is for the caller to check.
    pub fn local_icon_path(&self) -> (r: Option<String>)
        ensures
            r.deep_view() == local_icon_path_spec(self@),
    {
        match &self.icon {
            Option::None => Option::None,
            Option::Some(ic) => {
                if ic.as_str().unicode_len() > 0 && ic.as_str().get_char(0) == '/' {
                    Option::Some(ic.clone())
                } else {
                    let mut d = match crate::strutil::last_char_index(self.path.as_str(), '/') {
                        Option::Some(sl) => String::from_str(
                            self.path.as_str().substring_char(0, sl),
                        ),
                        Option::None => String::from_str("."),
                    };
                    d.push('/');
                    let ghost with_slash = d@;
                    d.append(ic.as_str());
                    proof {
                        assert(with_slash =~= dir_of(self@.path) + seq!['/']);
                    }
                    Option::Some(d)
                }
            },
        }
    }
}

/// Splits a raw `Categories` value at `;`, dropping empty tokens.
fn split_categories(s: &str) -> (r: Vec<String>)
    ensures
        r.deep_view() == semi_tokens(s@),
{
    let n = s.unicode_len();
    let mut r: Vec<String> = Vec::new();
    let mut i: usize = 0;
    let mut done = false;
    proof {
        assert(s@.subrange(0, n as int) =~= s@);
        assert(r.deep_view() =~= Seq::<Seq<char>>::empty());
        assert(Seq::<Seq<char>>::empty() + semi_tokens(s@) =~= semi_tokens(s@));
    }
    while !done
        invariant
            s@.len() == n,
            i <= n,
            !done ==> r.deep_view() + semi_tokens(s@.subrange(i as int, n as int)) == semi_tokens(
                s@,
            ),
            done ==> r.deep_view() == semi_tokens(s@),
        decreases n - i + (if done { 0int } else { 1int }),
    {
        let ghost rem = s@.subrange(i as int, n as int);
        let ghost dv0 = r.deep_view();
        let mut k: usize = i;
        while k < n && s.get_char(k) != ';'
            invariant
                s@.len() == n,
                i <= k <= n,
                forall|j: int| i <= j < k ==> s@[j] != ';',
            decreases n - k,
        {
            k = k + 1;
        }
        proof {
            assert forall|j: int| 0 <= j < k - i implies rem[j] != ';' by {
                assert(rem[j] == s@[i + j]);
            }
            if k < n {
                assert(rem[k - i] == s@[k as int]);
            }
            lemma_char_break_at(rem, ';', k - i);
        }
        if k > i {
            let piece = s.substring_char(i, k);
            r.push(String::from_str(piece));
            proof {
                assert(r.deep_view() =~= dv0.push(piece@));
                assert(dv0.push(piece@) =~= dv0 + seq![piece@]);
            }
        }
        if k == n {
            proof {
                if k > i {
                    assert(rem =~= s@.subrange(i as int, k as int));
                    assert(semi_tokens(rem) == seq![rem]);
                    assert(r.deep_view() =~= dv0 + semi_tokens(rem));
                } else {
                    assert(rem =~= Seq::<char>::empty());
                    assert(semi_tokens(rem) =~= Seq::<Seq<char>>::empty());
                    assert(r.deep_view() =~= dv0 + semi_tokens(rem));
                }
            }
            done = true;
        } else {
            proof {
                let rest = semi_tokens(s@.subrange((k + 1) as int, n as int));
                assert(rem.subrange((k - i + 1) as int, rem.len() as int) =~= s@.subrange(
                    (k + 1) as int,
                    n as int,
                ));
                if k > i {
                    assert(rem.subrange(0, k - i) =~= s@.subrange(i as int, k as int));
                    assert(semi_tokens(rem) == seq![rem.subrange(0, k - i)] + rest);
                    assert(dv0 + semi_tokens(rem) =~= (dv0 + seq![rem.subrange(0, k - i)]) + rest);
                } else {
                    assert(semi_tokens(rem) =~= Seq::<Seq<char>>::empty() + rest);
                    assert(dv0 + semi_tokens(rem) =~= dv0 + rest);
                }
            }
            i = k + 1;
        }
    }
    r
}

/// Applies one line to the record being built and the section flag.
fn apply_line(df: &mut DesktopFile, in_entry: &mut bool, line: &str)
    ensures
        state_of(final(df)@, *final(in_entry)) == parse_line(
            state_of(old(df)@, *old(in_entry)),
            line@,
        ),
        final(df)@.path == old(df)@.path,
{
    let n = line.unicode_len();
    if n == 0 {
        return ;
    }
    let c0 = line.get_char(0);
    if c0 == '#' {
        return ;
    }
    let mut is_hdr = false;
    if n >= 2 && c0 == '[' && line.get_char(n - 1) == ']' {
        let mut has_bracket = false;
        let mut j: usize = 1;
        while j < n - 1
            invariant
                line@.len() == n,
                2 <= n,
                1 <= j <= n - 1,
                !has_bracket ==> forall|t: int| 1 <= t < j ==> line@[t] != ']',
                has_bracket ==> exists|t: int| 1 <= t < n - 1 && line@[t] == ']',
            decreases n - 1 - j,
        {
            if line.get_char(j) == ']' {
                has_bracket = true;
            }
            j = j + 1;
        }
        is_hdr = !has_bracket;
    }
    if is_hdr {
        let interior = line.substring_char(1, n - 1);
        *in_entry = str_contains(interior, "Desktop Entry");
    }
    if !*in_entry {
        return ;
    }
    let mut k: usize = 0;
    while k < n && line.get_char(k) != '='
        invariant
            line@.len() == n,
            k <= n,
            forall|j: int| 0 <= j < k ==> line@[j] != '=',
        decreases n - k,
    {
        k = k + 1;
    }
    proof {
        lemma_char_break_at(line@, '=', k as int);
    }
    if k == n {
        return ;
    }
    let key = line.substring_char(0, k);
    let value = line.substring_char(k + 1, n);
    if str_eq(key, "Name") {
        df.name = Option::Some(String::from_str(value));
    } else if str_eq(key, "Exec") {
        df.command = Option::Some(String::from_str(value));
    } else if str_eq(key, "Categories") {
        df.categories = split_categories(value);
    } else if str_eq(key, "Icon") {
        df.icon = Option::Some(String::from_str(value));
    } else if str_eq(key, "NoDisplay") {
        df.no_display = str_eq(value, "true");
    }
}

/// Parses the text of one desktop-entry file. `path` is recorded as the
/// file's origin; reading the text from disk is the caller's job, and a
/// file that cannot be read never reaches this function.
pub fn parse_desktop_file(path: &str, content: &str) -> (df: DesktopFile)
    ensures
        df@ == parse_result(path@, content@),
{
    let mut df = DesktopFile {
        path: String::from_str(path),
        name: Option::None,
        command: Option::None,
        categories: Vec::new(),
        icon: Option::None,
        no_display: false,
    };
    let mut in_entry = false;
    let n = content.unicode_len();
    let mut i: usize = 0;
    proof {
        assert(content@.subrange(0, n as int) =~= content@);
        assert(df@.categories =~= Seq::<Seq<char>>::empty());
        assert(state_of(df@, in_entry) == initial_parse_state());
    }
    while i < n
        invariant
            content@.len() == n,
            i <= n,
            df@.path == path@,
            parse_lines(state_of(df@, in_entry), lines_of(content@.subrange(i as int, n as int)))
                == parse_lines(initial_parse_state(), lines_of(content@)),
        decreases n - i,
    {
        let ghost rem = content@.subrange(i as int, n as int);
        let ghost st0 = state_of(df@, in_entry);
        let mut k: usize = i;
        while k < n && content.get_char(k) != '\n'
            invariant
                content@.len() == n,
                i <= k <= n,
                forall|j: int| i <= j < k ==> content@[j] != '\n',
            decreases n - k,
        {
            k = k + 1;
        }
        proof {
            assert forall|j: int| 0 <= j < k - i implies rem[j] != '\n' by {
                assert(rem[j] == content@[i + j]);
            }
            if k < n {
                assert(rem[k - i] == content@[k as int]);
            }
            lemma_char_break_at(rem, '\n', k - i);
        }
        if k == n {
            let line = content.substring_char(i, n);
            proof {
                assert(rem =~= line@);
                assert(lines_of(rem) == seq![rem]);
            }
            apply_line(&mut df, &mut in_entry, line);
            proof {
                assert(seq![rem].drop_first() =~= Seq::<Seq<char>>::empty());
                assert(parse_lines(state_of(df@, in_entry), seq![rem].drop_first())
                    == state_of(df@, in_entry));
                let e = Seq::<char>::empty();
                assert(content@.subrange(n as int, n as int) =~= e);
                assert(lines_of(e) == seq![e]);
                assert(parse_line(state_of(df@, in_entry), e) == state_of(df@, in_entry));
                assert(seq![e].drop_first() =~= Seq::<Seq<char>>::empty());
                assert(parse_lines(state_of(df@, in_entry), lines_of(e)) == state_of(df@, in_entry));
            }
            i = n;
        } else {
            let end = if k > i && content.get_char(k - 1) == '\r' {
                k - 1
            } else {
                k
            };
            let line = content.substring_char(i, end);
            proof {
                let piece = rem.subrange(0, k - i);
                assert(piece =~= content@.subrange(i as int, k as int));
                if k > i && content@[k - 1] == '\r' {
                    assert(piece[piece.len() - 1] == content@[k - 1]);
                    assert(strip_cr(piece) =~= content@.subrange(i as int, (k - 1) as int));
                } else {
                    if piece.len() > 0 {
                        assert(piece[piece.len() - 1] == content@[k - 1]);
                    }
                    assert(strip_cr(piece) =~= piece);
                }
                assert(strip_cr(piece) == line@);
                assert(rem.subrange((k - i + 1) as int, rem.len() as int) =~= content@.subrange(
                    (k + 1) as int,
                    n as int,
                ));
                assert(lines_of(rem) == seq![line@] + lines_of(
                    content@.subrange((k + 1) as int, n as int),
                ));
            }
            apply_line(&mut df, &mut in_entry, line);
            proof {
                let rest = lines_of(content@.subrange((k + 1) as int, n as int));
                assert((seq![line@] + rest)[0] == line@);
                assert((seq![line@] + rest).drop_first() =~= rest);
            }
            i = k + 1;
        }
    }
    proof {
        let st = state_of(df@, in_entry);
        let e = Seq::<char>::empty();
        assert(content@.subrange(n as int, n as int) =~= e);
        assert(lines_of(e) == seq![e]);
        assert(parse_line(st, e) == st);
        assert(seq![e].drop_first() =~= Seq::<Seq<char>>::empty());
        assert(seq![e][0] == e);
        assert(parse_lines(st, seq![e]) == parse_lines(parse_line(st, e), seq![e].drop_first()));
        assert(parse_lines(st, Seq::<Seq<char>>::empty()) == st);
        assert(parse_lines(st, lines_of(e)) == st);
    }
    df
}

} // verus!
