//! Plain-text clean-up of caller-supplied fields.
//!
//! Titles, icon references and command lines arrive from input forms and
//! from the store; these helpers trim them, derive folder names from titles,
//! and normalise icon paths (dropping a trailing `,index` part and expanding
//! a leading `%USERPROFILE%` placeholder against a caller-supplied home
//! directory).

use crate::text::push_char;
use crate::types::ContextCommandInfo;
use vstd::prelude::*;
use vstd::string::StringExecFns;

verus! {

/// The whitespace characters that trimming removes.
pub open spec fn is_space(c: char) -> bool {
    c == ' ' || c == '\t' || c == '\n' || c == '\r'
}

/// The first position at or after `i` whose character is not whitespace
/// (or the length when all of the rest is).
pub open spec fn trim_from(s: Seq<char>, i: int) -> int
    decreases s.len() - i,
{
    if 0 <= i < s.len() && is_space(s[i]) {
        trim_from(s, i + 1)
    } else {
        i
    }
}

/// The first position at or before `j` such that the character just before
/// it is not whitespace (or zero when all before is).
pub open spec fn trim_back(s: Seq<char>, j: int) -> int
    decreases j,
{
    if 0 < j <= s.len() && is_space(s[j - 1]) {
        trim_back(s, j - 1)
    } else {
        j
    }
}

/// `s` without leading and trailing whitespace.
pub open spec fn trimmed(s: Seq<char>) -> Seq<char> {
    let a = trim_from(s, 0);
    let b = trim_back(s, s.len() as int);
    if a <= b {
        s.subrange(a, b)
    } else {
        Seq::empty()
    }
}

/// `s` without any space characters.
pub open spec fn without_spaces(s: Seq<char>) -> Seq<char>
    decreases s.len(),
{
    if s.len() == 0 {
        Seq::empty()
    } else if s[0] == ' ' {
        without_spaces(s.drop_first())
    } else {
        seq![s[0]] + without_spaces(s.drop_first())
    }
}

/// Whether `pat` occurs in `s` starting at position `i`.
pub open spec fn match_at(s: Seq<char>, pat: Seq<char>, i: int) -> bool {
    0 <= i && i + pat.len() <= s.len() && s.subrange(i, i + pat.len()) == pat
}

/// The first position at or after `i` where `pat` occurs in `s`, or `-1`.
pub open spec fn find_from(s: Seq<char>, pat: Seq<char>, i: int) -> int
    decreases s.len() - i + 1,
{
    if i < 0 || i + pat.len() > s.len() {
        -1
    } else if match_at(s, pat, i) {
        i
    } else {
        find_from(s, pat, i + 1)
    }
}

/// `s` cut off just before its first comma.
pub open spec fn strip_after_comma(s: Seq<char>) -> Seq<char> {
    let i = find_from(s, ","@, 0);
    if i < 0 {
        s
    } else {
        s.subrange(0, i)
    }
}

/// `s` with everything up to and including the first `%USERPROFILE%`
/// replaced by the home directory (or dropped when none is known);
/// unchanged when the placeholder does not occur.
pub open spec fn expand_home(s: Seq<char>, home: Option<Seq<char>>) -> Seq<char> {
    let i = find_from(s, "%USERPROFILE%"@, 0);
    if i < 0 {
        s
    } else {
        let suffix = s.subrange(i + "%USERPROFILE%"@.len() as int, s.len() as int);
        match home {
            Option::Some(h) => h + suffix,
            Option::None => suffix,
        }
    }
}

/// The full path clean-up: cut at the first comma, then expand the home
/// placeholder.
pub open spec fn sanitized_path(s: Seq<char>, home: Option<Seq<char>>) -> Seq<char> {
    expand_home(strip_after_comma(s), home)
}

/// Whether `c` is one of the characters trimming removes.
fn is_space_char(c: char) -> (r: bool)
    ensures
        r == is_space(c),
{
    c == ' ' || c == '\t' || c == '\n' || c == '\r'
}

/// The first position in `s` holding a non-whitespace character.
fn first_non_space(s: &str) -> (r: usize)
    ensures
        r == trim_from(s@, 0),
        r <= s@.len(),
{
    let n = s.unicode_len();
    let mut a: usize = 0;
    while a < n
        invariant
            a <= n,
            n == s@.len(),
            trim_from(s@, 0) == trim_from(s@, a as int),
        decreases n - a,
    {
        if !is_space_char(s.get_char(a)) {
            return a;
        }
        a += 1;
    }
    n
}

/// One past the last position in `s` holding a non-whitespace character.
fn last_non_space(s: &str) -> (r: usize)
    ensures
        r == trim_back(s@, s@.len() as int),
        r <= s@.len(),
{
    let n = s.unicode_len();
    let mut b: usize = n;
    while b > 0
        invariant
            b <= n,
            n == s@.len(),
            trim_back(s@, n as int) == trim_back(s@, b as int),
        decreases b,
    {
        if !is_space_char(s.get_char(b - 1)) {
            return b;
        }
        b -= 1;
    }
    0
}

/// `s` without leading and trailing whitespace.
pub fn sanitize(s: String) -> (r: String)
    ensures
        r@ == trimmed(s@),
{
    let st = s.as_str();
    let a = first_non_space(st);
    let b = last_non_space(st);
    if a <= b {
        st.substring_char(a, b).to_owned()
    } else {
        String::new()
    }
}

/// The folder name derived from a title: the title with spaces removed.
pub fn folderize_title(s: &String) -> (r: String)
    ensures
        r@ == without_spaces(s@),
{
    let st = s.as_str();
    let n = st.unicode_len();
    let mut out = String::new();
    let mut i: usize = 0;
    proof {
        assert(st@.skip(0) =~= st@);
    }
    while i < n
        invariant
            i <= n,
            n == st@.len(),
            st@ == s@,
            out@ + without_spaces(st@.skip(i as int)) == without_spaces(st@),
        decreases n - i,
    {
        proof {
            assert(st@.skip(i as int)[0] == st@[i as int]);
            assert(st@.skip(i as int).drop_first() =~= st@.skip(i as int + 1));
        }
        let ghost before = out@;
        let c = st.get_char(i);
        if c != ' ' {
            push_char(&mut out, c);
            proof {
                assert(out@ =~= before + seq![st@[i as int]]);
            }
        }
        proof {
            assert(out@ + without_spaces(st@.skip(i as int + 1)) =~= before + without_spaces(
                st@.skip(i as int),
            ));
        }
        i += 1;
    }
    proof {
        assert(st@.skip(n as int) =~= Seq::<char>::empty());
        assert(out@ =~= out@ + without_spaces(st@.skip(n as int)));
    }
    out
}

/// The first occurrence of `pat` in `s`, scanning left to right.
fn find_substring(s: &str, pat: &str) -> (r: Option<usize>)
    ensures
        match r {
            Option::Some(i) => i == find_from(s@, pat@, 0) && find_from(s@, pat@, 0) >= 0
                && match_at(s@, pat@, i as int),
            Option::None => find_from(s@, pat@, 0) == -1,
        },
{
    let n = s.unicode_len();
    let m = pat.unicode_len();
    if m > n {
        return None;
    }
    if m == 0 {
        proof {
            assert(s@.subrange(0, 0) =~= pat@);
            assert(match_at(s@, pat@, 0));
        }
        return Some(0);
    }
    let mut i: usize = 0;
    while i <= n - m
        invariant
            1 <= m <= n,
            i <= n - m + 1,
            n == s@.len(),
            m == pat@.len(),
            find_from(s@, pat@, 0) == find_from(s@, pat@, i as int),
        decreases n - i,
    {
        let mut j: usize = 0;
        let mut matched = true;
        while j < m
            invariant
                j <= m,
                i + m <= n,
                n == s@.len(),
                m == pat@.len(),
                matched ==> forall|k: int| 0 <= k < j ==> s@[i + k] == pat@[k],
                !matched ==> !match_at(s@, pat@, i as int),
            decreases m - j,
        {
            if s.get_char(i + j) != pat.get_char(j) {
                proof {
                    let sub = s@.subrange(i as int, i + m);
                    assert(sub[j as int] == s@[i + j]);
                    assert(sub != pat@);
                }
                matched = false;
                j = m;
            } else {
                j += 1;
            }
        }
        if matched {
            proof {
                assert(s@.subrange(i as int, i + m) =~= pat@);
                assert(match_at(s@, pat@, i as int));
            }
            return Some(i);
        }
        proof {
            assert(find_from(s@, pat@, i as int) == find_from(s@, pat@, i as int + 1));
        }
        i += 1;
    }
    proof {
        assert(find_from(s@, pat@, i as int) == -1);
    }
    None
}

/// Normalises an icon or title path: cuts a trailing `,index` part and
/// expands a leading `%USERPROFILE%` against the supplied home directory.
pub fn sanitize_path(path: String, home: Option<&str>) -> (r: String)
    ensures
        r@ == sanitized_path(path@, home.deep_view()),
{
    let st = path.as_str();
    let first = match find_substring(st, ",") {
        Option::Some(i) => st.substring_char(0, i),
        Option::None => st,
    };
    proof {
        assert(first@ == strip_after_comma(path@));
    }
    match find_substring(first, "%USERPROFILE%") {
        Option::Some(i) => {
            let m = "%USERPROFILE%".unicode_len();
            let flen = first.unicode_len();
            proof {
                assert(i + m <= flen);
            }
            let suffix = first.substring_char(i + m, flen);
            match home {
                Option::Some(h) => {
                    let mut out = h.to_owned();
                    out.append(suffix);
                    proof {
                        assert(out@ == sanitized_path(path@, home.deep_view()));
                    }
                    out
                },
                Option::None => suffix.to_owned(),
            }
        },
        Option::None => first.to_owned(),
    }
}

/// A fresh entry with its title and icon paths normalised; command, folder
/// and path carry over, under a new identity.
pub fn sanitize_command(cmd: ContextCommandInfo, home: Option<&str>) -> (r: ContextCommandInfo)
    ensures
        r.title@ == sanitized_path(cmd.title@, home.deep_view()),
        r.icon@ == sanitized_path(cmd.icon@, home.deep_view()),
        r.command == cmd.command,
        r.folder == cmd.folder,
        r.path == cmd.path,
{
    let title = sanitize_path(cmd.title, home);
    let icon = sanitize_path(cmd.icon, home);
    ContextCommandInfo::new(title, icon, cmd.command, cmd.folder, cmd.path)
}

/// A search-path value extended by one directory, separated by a semicolon.
pub fn extended_path_value(current: &str, dir: &str) -> (r: String)
    ensures
        r@ == current@ + ";"@ + dir@,
{
    let mut out = current.to_owned();
    out.append(";");
    out.append(dir);
    proof {
        assert(out@ =~= current@ + ";"@ + dir@);
    }
    out
}

} // verus!
