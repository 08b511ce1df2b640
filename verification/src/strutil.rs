//! Character-level string helpers shared by the parsing and path-building
//! modules: equality, substring search, and appending single characters.

use vstd::prelude::*;

verus! {

/// Relies on `alloc::string::String::push`: appends exactly the given
/// character at the end of the string.
pub assume_specification[ String::push ](s: &mut String, c: char)
    ensures
        final(s)@ == old(s)@.push(c),
;

/// Whether `sub` occurs somewhere in `s` as a contiguous run of characters.
pub open spec fn contains_seq(s: Seq<char>, sub: Seq<char>) -> bool {
    exists|k: int| 0 <= k <= s.len() - sub.len() && #[trigger] s.subrange(k, k + sub.len()) == sub
}

/// Character-for-character string equality.
pub fn str_eq(a: &str, b: &str) -> (r: bool)
    ensures
        r == (a@ == b@),
{
    let n = a.unicode_len();
    if n != b.unicode_len() {
        return false;
    }
    let mut i: usize = 0;
    while i < n
        invariant
            a@.len() == n,
            b@.len() == n,
            i <= n,
            forall|j: int| 0 <= j < i ==> a@[j] == b@[j],
        decreases n - i,
    {
        if a.get_char(i) != b.get_char(i) {
            return false;
        }
        i = i + 1;
    }
    proof {
        assert(a@ =~= b@);
    }
    true
}

/// Index of the last occurrence of `c` in `s`, or `-1` if `c` does not
/// occur.
pub open spec fn last_index_of(s: Seq<char>, c: char) -> int
    decreases s.len(),
{
    if s.len() == 0 {
        -1
    } else if s[s.len() - 1] == c {
        s.len() - 1
    } else {
        last_index_of(s.drop_last(), c)
    }
}

/// What `last_index_of` returns: the index holds `c`, and no later index
/// does; `-1` means `c` does not occur at all.
pub proof fn lemma_last_index_of(s: Seq<char>, c: char)
    ensures
        -1 <= last_index_of(s, c) < s.len(),
        forall|j: int| last_index_of(s, c) < j < s.len() ==> #[trigger] s[j] != c,
        last_index_of(s, c) >= 0 ==> s[last_index_of(s, c)] == c,
    decreases s.len(),
{
    if s.len() == 0 {
    } else if s[s.len() - 1] == c {
    } else {
        lemma_last_index_of(s.drop_last(), c);
        let li = last_index_of(s, c);
        assert forall|j: int| li < j < s.len() implies #[trigger] s[j] != c by {
            if j < s.len() - 1 {
                assert(s.drop_last()[j] == s[j]);
            }
        }
        if li >= 0 {
            assert(s.drop_last()[li] == s[li]);
        }
    }
}

/// The index found by a backwards scan is exactly `last_index_of`.
proof fn lemma_last_index_of_at(s: Seq<char>, c: char, k: int)
    requires
        0 <= k < s.len(),
        s[k] == c,
        forall|j: int| k < j < s.len() ==> #[trigger] s[j] != c,
    ensures
        last_index_of(s, c) == k,
{
    lemma_last_index_of(s, c);
    let li = last_index_of(s, c);
    if li < k {
        assert(s[k] != c);
        assert(false);
    }
    if li > k {
        assert(s[li] != c);
        assert(false);
    }
}

/// The file-name portion of a path: everything after the last `/`, or the
/// whole path when it holds no `/`.
pub open spec fn file_name_of(p: Seq<char>) -> Seq<char> {
    let sl = last_index_of(p, '/');
    if sl == -1 {
        p
    } else {
        p.subrange(sl + 1, p.len() as int)
    }
}

/// The extension of a path: the part of the file name after its last `.`.
/// A name without a `.`, or whose only `.` starts it, has no extension.
pub open spec fn ext_of(p: Seq<char>) -> Option<Seq<char>> {
    let n = file_name_of(p);
    let d = last_index_of(n, '.');
    if d <= 0 {
        Option::None
    } else {
        Option::Some(n.subrange(d + 1, n.len() as int))
    }
}

/// The stem of a path: the file name with its extension removed.
pub open spec fn stem_of(p: Seq<char>) -> Seq<char> {
    let n = file_name_of(p);
    let d = last_index_of(n, '.');
    if d <= 0 {
        n
    } else {
        n.subrange(0, d)
    }
}

/// Backwards scan for the last occurrence of a character.
pub fn last_char_index(s: &str, c: char) -> (r: Option<usize>)
    ensures
        match r {
            Option::Some(i) => i < s@.len() && i as int == last_index_of(s@, c),
            Option::None => last_index_of(s@, c) == -1,
        },
{
    let n = s.unicode_len();
    let mut i: usize = n;
    while i > 0
        invariant
            s@.len() == n,
            i <= n,
            forall|j: int| i <= j < n ==> s@[j] != c,
        decreases i,
    {
        i = i - 1;
        if s.get_char(i) == c {
            proof {
                lemma_last_index_of_at(s@, c, i as int);
            }
            return Some(i);
        }
    }
    proof {
        lemma_last_index_of(s@, c);
        if last_index_of(s@, c) >= 0 {
            assert(s@[last_index_of(s@, c)] != c);
        }
    }
    None
}

/// The file-name portion of a path.
pub fn file_name<'a>(p: &'a str) -> (r: &'a str)
    ensures
        r@ == file_name_of(p@),
{
    let n = p.unicode_len();
    match last_char_index(p, '/') {
        Some(sl) => p.substring_char(sl + 1, n),
        None => p,
    }
}

/// The extension of a path, if it has one.
pub fn file_ext<'a>(p: &'a str) -> (r: Option<&'a str>)
    ensures
        match r {
            Option::Some(e) => ext_of(p@) == Option::Some(e@),
            Option::None => ext_of(p@) is None,
        },
{
    let n = file_name(p);
    let len = n.unicode_len();
    match last_char_index(n, '.') {
        Some(d) => {
            if d == 0 {
                None
            } else {
                Some(n.substring_char(d + 1, len))
            }
        },
        None => None,
    }
}

/// The stem of a path: its file name without the extension.
pub fn file_stem<'a>(p: &'a str) -> (r: &'a str)
    ensures
        r@ == stem_of(p@),
{
    let n = file_name(p);
    match last_char_index(n, '.') {
        Some(d) => {
            if d == 0 {
                n
            } else {
                n.substring_char(0, d)
            }
        },
        None => n,
    }
}

/// Index of the first occurrence of `c` in `s`, or the length of `s` when
/// `c` does not occur.
pub open spec fn char_break(s: Seq<char>, c: char) -> nat
    decreases s.len(),
{
    if s.len() == 0 {
        0
    } else if s[0] == c {
        0
    } else {
        1 + char_break(s.drop_first(), c)
    }
}

/// What `char_break` returns: nothing before it is `c`, and it points at
/// `c` unless it is the length of `s`.
pub proof fn lemma_char_break(s: Seq<char>, c: char)
    ensures
        char_break(s, c) <= s.len(),
        char_break(s, c) < s.len() ==> s[char_break(s, c) as int] == c,
        forall|j: int| 0 <= j < char_break(s, c) ==> s[j] != c,
    decreases s.len(),
{
    if s.len() == 0 {
    } else if s[0] == c {
    } else {
        lemma_char_break(s.drop_first(), c);
        assert(forall|j: int| 0 <= j < s.len() - 1 ==> s.drop_first()[j] == s[j + 1]);
        assert forall|j: int| 0 <= j < char_break(s, c) implies s[j] != c by {
            if j > 0 {
                assert(s.drop_first()[j - 1] == s[j]);
            }
        }
    }
}

/// The index found by a forwards scan is exactly `char_break`.
pub proof fn lemma_char_break_at(s: Seq<char>, c: char, k: int)
    requires
        0 <= k <= s.len(),
        forall|j: int| 0 <= j < k ==> s[j] != c,
        k < s.len() ==> s[k] == c,
    ensures
        char_break(s, c) == k,
{
    lemma_char_break(s, c);
    let cb = char_break(s, c) as int;
    if cb < k {
        assert(s[cb] != c);
    }
    if cb > k {
        assert(s[k] != c);
    }
}

/// The pieces of `s` between occurrences of the separator `c`, in order,
/// empty pieces included: a string without the separator is one piece.
pub open spec fn split_all(s: Seq<char>, c: char) -> Seq<Seq<char>>
    decreases s.len(),
{
    let k = char_break(s, c) as int;
    if k >= s.len() {
        seq![s]
    } else {
        seq![s.subrange(0, k)] + split_all(s.subrange(k + 1, s.len() as int), c)
    }
}

/// Splits `s` at every occurrence of the separator, keeping empty pieces.
pub fn split_string(s: &str, sep: char) -> (r: Vec<String>)
    ensures
        r.deep_view() == split_all(s@, sep),
{
    let n = s.unicode_len();
    let mut r: Vec<String> = Vec::new();
    let mut i: usize = 0;
    let mut done = false;
    proof {
        assert(s@.subrange(0, n as int) =~= s@);
        assert(r.deep_view() =~= Seq::<Seq<char>>::empty());
        assert(Seq::<Seq<char>>::empty() + split_all(s@, sep) =~= split_all(s@, sep));
    }
    while !done
        invariant
            s@.len() == n,
            i <= n,
            !done ==> r.deep_view() + split_all(s@.subrange(i as int, n as int), sep) == split_all(
                s@,
                sep,
            ),
            done ==> r.deep_view() == split_all(s@, sep),
        decreases n - i + (if done { 0int } else { 1int }),
    {
        let ghost rem = s@.subrange(i as int, n as int);
        let ghost dv0 = r.deep_view();
        let mut k: usize = i;
        while k < n && s.get_char(k) != sep
            invariant
                s@.len() == n,
                i <= k <= n,
                forall|j: int| i <= j < k ==> s@[j] != sep,
            decreases n - k,
        {
            k = k + 1;
        }
        proof {
            assert forall|j: int| 0 <= j < k - i implies rem[j] != sep by {
                assert(rem[j] == s@[i + j]);
            }
            lemma_char_break_at(rem, sep, k - i);
        }
        let piece = s.substring_char(i, k);
        r.push(String::from_str(piece));
        proof {
            assert(r.deep_view() =~= dv0.push(piece@));
            assert(dv0.push(piece@) =~= dv0 + seq![piece@]);
        }
        if k == n {
            proof {
                assert(rem =~= piece@);
                assert(split_all(rem, sep) == seq![rem]);
                assert(r.deep_view() =~= dv0 + split_all(rem, sep));
            }
            done = true;
        } else {
            proof {
                assert(rem.subrange(0, k - i) =~= piece@);
                assert(rem.subrange((k - i + 1) as int, rem.len() as int) =~= s@.subrange(
                    (k + 1) as int,
                    n as int,
                ));
                assert(split_all(rem, sep) == seq![piece@] + split_all(
                    s@.subrange((k + 1) as int, n as int),
                    sep,
                ));
                assert(dv0 + split_all(rem, sep) =~= (dv0 + seq![piece@]) + split_all(
                    s@.subrange((k + 1) as int, n as int),
                    sep,
                ));
            }
            i = k + 1;
        }
    }
    r
}

/// An element-for-element copy of a vector of strings.
pub fn clone_string_vec(v: &Vec<String>) -> (r: Vec<String>)
    ensures
        r@ == v@,
{
    let mut r: Vec<String> = Vec::new();
    let n = v.len();
    let mut i: usize = 0;
    while i < n
        invariant
            n == v.len(),
            i <= n,
            r@ =~= v@.take(i as int),
        decreases n - i,
    {
        r.push(v[i].clone());
        proof {
            assert(r@ =~= v@.take((i + 1) as int));
        }
        i = i + 1;
    }
    proof {
        assert(v@.take(n as int) =~= v@);
    }
    r
}

/// An exact copy of an optional string.
pub fn clone_string_opt(o: &Option<String>) -> (r: Option<String>)
    ensures
        r == *o,
{
    match o {
        Option::Some(s) => Option::Some(s.clone()),
        Option::None => Option::None,
    }
}

/// Substring search for `sub` inside `s`.
pub fn str_contains(s: &str, sub: &str) -> (r: bool)
    ensures
        r == contains_seq(s@, sub@),
{
    let n = s.unicode_len();
    let m = sub.unicode_len();
    if m > n {
        return false;
    }
    if m == 0 {
        proof {
            assert(s@.subrange(0, 0 + sub@.len() as int) =~= sub@);
        }
        return true;
    }
    let mut k: usize = 0;
    while k <= n - m
        invariant
            s@.len() == n,
            sub@.len() == m,
            1 <= m <= n,
            k <= n - m + 1,
            forall|k2: int| 0 <= k2 < k ==> #[trigger] s@.subrange(k2, k2 + m) != sub@,
        decreases n + 1 - m - k,
    {
        let mut all_eq = true;
        let mut j: usize = 0;
        while j < m
            invariant
                s@.len() == n,
                sub@.len() == m,
                m <= n,
                k <= n - m,
                j <= m,
                all_eq ==> forall|t: int| 0 <= t < j ==> s@[k + t] == sub@[t],
                !all_eq ==> s@.subrange(k as int, k + m) != sub@,
            decreases m - j,
        {
            if all_eq && s.get_char(k + j) != sub.get_char(j) {
                all_eq = false;
            }
            j = j + 1;
        }
        if all_eq {
            proof {
                assert(s@.subrange(k as int, k + m) =~= sub@);
            }
            return true;
        }
        k = k + 1;
    }
    false
}

} // verus!
