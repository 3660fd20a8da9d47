//! Choosing a free name in the downloads folder: the received name first,
//! then `stem (1).ext`, `stem (2).ext`, ... and, when all of those are taken,
//! the name prefixed with the time.

use vstd::prelude::*;

use crate::system::Platform;
use crate::text::{
    chars_between, chars_of, decimal, decimal_chars, lemma_decimal_injective,
    lemma_decimal_nonempty, split_chars, split_on, string_of, views,
};

verus! {

/// The highest number that a numbered name gets before the time is used.
pub const LAST_NUMBERED_ATTEMPT: u32 = 9999;

/// The last piece that names a file or folder: not empty and not `.`.
pub open spec fn last_proper_piece(pieces: Seq<Seq<char>>) -> Option<Seq<char>>
    decreases pieces.len(),
{
    if pieces.len() == 0 {
        None
    } else if pieces.last().len() > 0 && pieces.last() != seq!['.'] {
        Some(pieces.last())
    } else {
        last_proper_piece(pieces.drop_last())
    }
}

/// A character that separates path components: `/`, and on Windows `\`
/// too.
pub open spec fn is_separator(platform: Platform, c: char) -> bool {
    c == '/' || (platform == Platform::Windows && c == '\\')
}

/// An ASCII letter, as a drive letter is.
pub open spec fn is_ascii_letter(c: char) -> bool {
    ('a' <= c && c <= 'z') || ('A' <= c && c <= 'Z')
}

/// Whether a name starts with a Windows drive prefix such as `C:`.
pub open spec fn has_drive_prefix(platform: Platform, name: Seq<char>) -> bool {
    platform == Platform::Windows && name.len() >= 2 && is_ascii_letter(name[0]) && name[1] == ':'
}

/// `/` or `\`: the characters that separate the parts of a Windows
/// prefix.
pub open spec fn is_any_separator(c: char) -> bool {
    c == '/' || c == '\\'
}

/// The length of the first piece of a text, up to its first separator:
/// `\` alone in a verbatim prefix, `/` or `\` elsewhere.
pub open spec fn piece_len(s: Seq<char>, verbatim: bool) -> nat
    decreases s.len(),
{
    if s.len() == 0 || s[0] == '\\' || (!verbatim && s[0] == '/') {
        0
    } else {
        1 + piece_len(s.skip(1), verbatim)
    }
}

/// Whether a path begins with `\\?\`, the verbatim prefix of Windows.
pub open spec fn is_verbatim(name: Seq<char>) -> bool {
    name.len() >= 4 && name[0] == '\\' && name[1] == '\\' && name[2] == '?' && name[3] == '\\'
}

/// The length of a path's Windows prefix, as `Path::components` reads it;
/// 0 when there is none. The forms are `\\?\UNC\server\share`, `\\?\C:`
/// and `\\?\name` (verbatim, whose parts are separated by `\` alone),
/// `\\.\device`, `\\server\share` (both parts not empty), and a drive
/// such as `C:`. The separators of `\\.\` and `\\server\share`, and the one
/// after `UNC`, may be written `/`; the first four characters of a
/// verbatim prefix may not.
pub open spec fn windows_prefix_len(name: Seq<char>) -> nat {
    if name.len() >= 2 && is_any_separator(name[0]) && is_any_separator(name[1]) {
        if is_verbatim(name) {
            let p = name.skip(4);
            if p.len() >= 4 && p[0] == 'U' && p[1] == 'N' && p[2] == 'C' && is_any_separator(p[3]) {
                let q = p.skip(4);
                let server = piece_len(q, true);
                let share = if server < q.len() {
                    piece_len(q.skip(server + 1int), true)
                } else {
                    0
                };
                8 + server + if share > 0 {
                    1 + share
                } else {
                    0
                }
            } else if p.len() >= 2 && is_ascii_letter(p[0]) && p[1] == ':' && (p.len() == 2
                || is_any_separator(p[2])) {
                6
            } else {
                4 + piece_len(p, true)
            }
        } else if name.len() >= 4 && name[2] == '.' && is_any_separator(name[3]) {
            4 + piece_len(name.skip(4), false)
        } else {
            let r = name.skip(2);
            let server = piece_len(r, false);
            let share = if server < r.len() {
                piece_len(r.skip(server + 1int), false)
            } else {
                0
            };
            if server > 0 && share > 0 {
                3 + server + share
            } else {
                0
            }
        }
    } else if name.len() >= 2 && is_ascii_letter(name[0]) && name[1] == ':' {
        2
    } else {
        0
    }
}

/// A path without its prefix: the Windows prefix on Windows, none
/// elsewhere.
pub open spec fn after_prefix(platform: Platform, name: Seq<char>) -> Seq<char> {
    if platform == Platform::Windows {
        name.skip(windows_prefix_len(name) as int)
    } else {
        name
    }
}

/// A name with every separator written as `/`.
pub open spec fn with_slashes(platform: Platform, s: Seq<char>) -> Seq<char> {
    Seq::new(s.len(), |i: int| if is_separator(platform, s[i]) { '/' } else { s[i] })
}

/// The last piece that is not empty.
pub open spec fn last_nonempty_piece(pieces: Seq<Seq<char>>) -> Option<Seq<char>>
    decreases pieces.len(),
{
    if pieces.len() == 0 {
        None
    } else if pieces.last().len() > 0 {
        Some(pieces.last())
    } else {
        last_nonempty_piece(pieces.drop_last())
    }
}

/// The final component of a path without prefix whose separators are all
/// `/`: the last piece that is neither empty nor `.`, unless it is `..`.
pub open spec fn plain_final(w: Seq<char>) -> Option<Seq<char>> {
    match last_proper_piece(split_on(w, '/')) {
        Some(p) => if p == seq!['.', '.'] {
            None
        } else {
            Some(p)
        },
        None => None,
    }
}

/// The final component of what follows a verbatim prefix: after a first
/// separator (the root), the pieces are separated by `\` alone, and a last
/// piece `.` or `..` is no name.
pub open spec fn verbatim_final(rest: Seq<char>) -> Option<Seq<char>> {
    let body = if rest.len() > 0 && is_any_separator(rest[0]) {
        rest.skip(1)
    } else {
        rest
    };
    match last_nonempty_piece(split_on(body, '\\')) {
        Some(p) => if p == seq!['.'] || p == seq!['.', '.'] {
            None
        } else {
            Some(p)
        },
        None => None,
    }
}

/// The final component of a path, as `Path::file_name` gives it: `None`
/// when there is none or it is `..`. Components follow the prefix (see
/// [`windows_prefix_len`]) and are separated by `/`, and on Windows by `\`
/// too; after a verbatim prefix by `\` alone, and there `.` is a component.
pub open spec fn final_component(name: Seq<char>, platform: Platform) -> Option<Seq<char>> {
    if platform == Platform::Windows && is_verbatim(name) {
        verbatim_final(after_prefix(platform, name))
    } else {
        plain_final(with_slashes(platform, after_prefix(platform, name)))
    }
}

/// The index of the last `.` in a text.
pub open spec fn last_dot(s: Seq<char>) -> Option<int>
    decreases s.len(),
{
    if s.len() == 0 {
        None
    } else if s.last() == '.' {
        Some(s.len() - 1)
    } else {
        last_dot(s.drop_last())
    }
}

/// The stem of a name, as `Path::file_stem` gives it, or `file` when the name
/// has no final component: the part before the last `.`, unless that `.` is
/// the first character.
pub open spec fn stem_of(name: Seq<char>, platform: Platform) -> Seq<char> {
    match final_component(name, platform) {
        Some(f) => match last_dot(f) {
            Some(i) => if i > 0 {
                f.take(i)
            } else {
                f
            },
            None => f,
        },
        None => seq!['f', 'i', 'l', 'e'],
    }
}

/// The extension of a name, as `Path::extension` gives it: the part after
/// the last `.`, unless that `.` is the first character.
pub open spec fn extension_of(name: Seq<char>, platform: Platform) -> Option<Seq<char>> {
    match final_component(name, platform) {
        Some(f) => match last_dot(f) {
            Some(i) => if i > 0 {
                Some(f.skip(i + 1))
            } else {
                None
            },
            None => None,
        },
        None => None,
    }
}

/// `stem (n).ext`, or `stem (n)` for a name without extension.
pub open spec fn numbered_name(name: Seq<char>, n: nat, platform: Platform) -> Seq<char> {
    let base = stem_of(name, platform) + seq![' ', '('] + decimal(n) + seq![')'];
    match extension_of(name, platform) {
        Some(ext) => base + seq!['.'] + ext,
        None => base,
    }
}

/// The name tried at a given attempt: the name itself first, then the
/// numbered ones.
pub open spec fn candidate_name(name: Seq<char>, attempt: nat, platform: Platform) -> Seq<char> {
    if attempt == 0 {
        name
    } else {
        numbered_name(name, attempt, platform)
    }
}

/// The name used when every numbered name is taken: the time in seconds,
/// `-`, then the name.
pub open spec fn timestamped_name(seconds: nat, name: Seq<char>) -> Seq<char> {
    decimal(seconds) + seq!['-'] + name
}

fn last_proper(pieces: &Vec<Vec<char>>) -> (res: Option<Vec<char>>)
    ensures
        res is Some <==> last_proper_piece(views(pieces@)) is Some,
        res matches Some(r) ==> r@ == last_proper_piece(views(pieces@)).unwrap(),
{
    let mut k = pieces.len();
    assert(views(pieces@).take(k as int) =~= views(pieces@));
    while k > 0
        invariant
            k <= pieces@.len(),
            last_proper_piece(views(pieces@)) == last_proper_piece(views(pieces@).take(k as int)),
        decreases k,
    {
        let p = &pieces[k - 1];
        assert(views(pieces@).take(k as int).last() == p@);
        assert(views(pieces@).take(k as int).drop_last() =~= views(pieces@).take(k - 1));
        if p.len() > 0 && !(p.len() == 1 && p[0] == '.') {
            assert(p@ != seq!['.']) by {
                if p@ == seq!['.'] {
                    assert(p@.len() == 1 && p@[0] == '.');
                }
            }
            return Some(p.clone());
        }
        assert(p@.len() == 1 ==> p@ =~= seq![p@[0]]);
        k = k - 1;
    }
    None
}

fn last_nonempty(pieces: &Vec<Vec<char>>) -> (res: Option<Vec<char>>)
    ensures
        res is Some <==> last_nonempty_piece(views(pieces@)) is Some,
        res matches Some(r) ==> r@ == last_nonempty_piece(views(pieces@)).unwrap(),
{
    let mut k = pieces.len();
    assert(views(pieces@).take(k as int) =~= views(pieces@));
    while k > 0
        invariant
            k <= pieces@.len(),
            last_nonempty_piece(views(pieces@)) == last_nonempty_piece(views(pieces@).take(k as int)),
        decreases k,
    {
        let p = &pieces[k - 1];
        assert(views(pieces@).take(k as int).last() == p@);
        assert(views(pieces@).take(k as int).drop_last() =~= views(pieces@).take(k - 1));
        if p.len() > 0 {
            return Some(p.clone());
        }
        k = k - 1;
    }
    None
}

fn is_slash(c: char) -> (res: bool)
    ensures
        res == is_any_separator(c),
{
    c == '/' || c == '\\'
}

proof fn lemma_piece_len_bound(s: Seq<char>, verbatim: bool)
    ensures
        piece_len(s, verbatim) <= s.len(),
    decreases s.len(),
{
    if s.len() > 0 {
        lemma_piece_len_bound(s.skip(1), verbatim);
    }
}

fn piece_length(s: &[char], start: usize, verbatim: bool) -> (res: usize)
    requires
        start <= s@.len(),
    ensures
        res == piece_len(s@.skip(start as int), verbatim),
        start + res <= s@.len(),
{
    let n = s.len();
    let mut i = start;
    while i < n && !(s[i] == '\\' || (!verbatim && s[i] == '/'))
        invariant
            start <= i <= n,
            n == s@.len(),
            piece_len(s@.skip(start as int), verbatim) == (i - start) + piece_len(
                s@.skip(i as int),
                verbatim,
            ),
        decreases n - i,
    {
        assert(s@.skip(i as int)[0] == s@[i as int]);
        assert(s@.skip(i as int).skip(1) =~= s@.skip(i + 1));
        i = i + 1;
    }
    if i < n {
        assert(s@.skip(i as int)[0] == s@[i as int]);
    } else {
        assert(s@.skip(i as int).len() == 0);
    }
    i - start
}

proof fn lemma_windows_prefix_len_bound(name: Seq<char>)
    ensures
        windows_prefix_len(name) <= name.len(),
{
    let p = name.skip(4);
    let q = p.skip(4);
    let r = name.skip(2);
    lemma_piece_len_bound(p, true);
    lemma_piece_len_bound(name.skip(4), false);
    lemma_piece_len_bound(q, true);
    lemma_piece_len_bound(r, false);
    let sq = piece_len(q, true);
    let sr = piece_len(r, false);
    if sq < q.len() {
        lemma_piece_len_bound(q.skip(sq + 1int), true);
    }
    if sr < r.len() {
        lemma_piece_len_bound(r.skip(sr + 1int), false);
    }
}

fn windows_prefix_length(name: &[char]) -> (res: usize)
    ensures
        res == windows_prefix_len(name@),
{
    let n = name.len();
    let ghost v = name@;
    if n >= 2 && is_slash(name[0]) && is_slash(name[1]) {
        if n >= 4 && name[0] == '\\' && name[1] == '\\' && name[2] == '?' && name[3] == '\\' {
            if n >= 8 && name[4] == 'U' && name[5] == 'N' && name[6] == 'C' && is_slash(name[7]) {
                assert(v.skip(4).skip(4) =~= v.skip(8));
                let server = piece_length(name, 8, true);
                let share = if 8 + server < n {
                    assert(v.skip(8).skip(server + 1) =~= v.skip(8 + server + 1));
                    piece_length(name, 8 + server + 1, true)
                } else {
                    0
                };
                if share > 0 {
                    8 + server + 1 + share
                } else {
                    8 + server
                }
            } else if n >= 6 && (('a' <= name[4] && name[4] <= 'z') || ('A' <= name[4] && name[4]
                <= 'Z')) && name[5] == ':' && (n == 6 || is_slash(name[6])) {
                6
            } else {
                4 + piece_length(name, 4, true)
            }
        } else if n >= 4 && name[2] == '.' && is_slash(name[3]) {
            4 + piece_length(name, 4, false)
        } else {
            let server = piece_length(name, 2, false);
            let share = if 2 + server < n {
                assert(v.skip(2).skip(server + 1) =~= v.skip(2 + server + 1));
                piece_length(name, 2 + server + 1, false)
            } else {
                0
            };
            if server > 0 && share > 0 {
                3 + server + share
            } else {
                0
            }
        }
    } else if n >= 2 && (('a' <= name[0] && name[0] <= 'z') || ('A' <= name[0] && name[0] <= 'Z'))
        && name[1] == ':' {
        2
    } else {
        0
    }
}

fn slashes_from(name: &[char], start: usize, platform: Platform) -> (res: Vec<char>)
    requires
        start <= name@.len(),
    ensures
        res@ == with_slashes(platform, name@.skip(start as int)),
{
    let windows = match platform {
        Platform::Windows => true,
        _ => false,
    };
    let n = name.len();
    let ghost rest = name@.skip(start as int);
    let mut out: Vec<char> = Vec::new();
    let mut i = start;
    while i < n
        invariant
            start <= i <= n,
            n == name@.len(),
            rest == name@.skip(start as int),
            windows == (platform == Platform::Windows),
            out@ =~= with_slashes(platform, rest).take(i - start),
        decreases n - i,
    {
        let c = name[i];
        if c == '/' || (windows && c == '\\') {
            out.push('/');
        } else {
            out.push(c);
        }
        assert(rest[i - start] == c);
        assert(with_slashes(platform, rest).take(i + 1 - start) =~= with_slashes(platform, rest).take(
            i - start,
        ).push(with_slashes(platform, rest)[i - start]));
        i = i + 1;
    }
    assert(with_slashes(platform, rest).take(n - start) =~= with_slashes(platform, rest));
    out
}

fn final_component_chars(name: &[char], platform: Platform) -> (res: Option<Vec<char>>)
    ensures
        res is Some <==> final_component(name@, platform) is Some,
        res matches Some(r) ==> r@ == final_component(name@, platform).unwrap(),
{
    let windows = match platform {
        Platform::Windows => true,
        _ => false,
    };
    let n = name.len();
    let start = if windows {
        windows_prefix_length(name)
    } else {
        0
    };
    proof {
        lemma_windows_prefix_len_bound(name@);
    }
    assert(after_prefix(platform, name@) =~= name@.skip(start as int));
    if windows && n >= 4 && name[0] == '\\' && name[1] == '\\' && name[2] == '?' && name[3] == '\\' {
        let ghost rest = name@.skip(start as int);
        let body_start = if start < n && is_slash(name[start]) {
            start + 1
        } else {
            start
        };
        let body = chars_between(name, body_start, n);
        assert(body@ =~= (if rest.len() > 0 && is_any_separator(rest[0]) {
            rest.skip(1)
        } else {
            rest
        }));
        let pieces = split_chars(body.as_slice(), '\\');
        match last_nonempty(&pieces) {
            Some(p) => {
                if (p.len() == 1 && p[0] == '.') || (p.len() == 2 && p[0] == '.' && p[1] == '.') {
                    assert(p@ =~= seq!['.'] || p@ =~= seq!['.', '.']);
                    None
                } else {
                    assert(p@ != seq!['.'] && p@ != seq!['.', '.']) by {
                        if p@ == seq!['.'] {
                            assert(p@.len() == 1 && p@[0] == '.');
                        }
                        if p@ == seq!['.', '.'] {
                            assert(p@.len() == 2 && p@[0] == '.' && p@[1] == '.');
                        }
                    }
                    Some(p)
                }
            },
            None => None,
        }
    } else {
        let path = slashes_from(name, start, platform);
        let pieces = split_chars(path.as_slice(), '/');
        match last_proper(&pieces) {
            Some(p) => {
                if p.len() == 2 && p[0] == '.' && p[1] == '.' {
                    assert(p@ =~= seq!['.', '.']);
                    None
                } else {
                    assert(p@ != seq!['.', '.']) by {
                        if p@ == seq!['.', '.'] {
                            assert(p@.len() == 2 && p@[0] == '.' && p@[1] == '.');
                        }
                    }
                    Some(p)
                }
            },
            None => None,
        }
    }
}

fn find_last_dot(s: &[char]) -> (res: Option<usize>)
    ensures
        match res {
            Some(i) => last_dot(s@) == Some(i as int) && i < s@.len(),
            None => last_dot(s@) is None,
        },
{
    let mut k = s.len();
    assert(s@.take(k as int) =~= s@);
    while k > 0
        invariant
            k <= s@.len(),
            last_dot(s@) == last_dot(s@.take(k as int)),
        decreases k,
    {
        assert(s@.take(k as int).drop_last() =~= s@.take(k - 1));
        if s[k - 1] == '.' {
            return Some(k - 1);
        }
        k = k - 1;
    }
    None
}

fn append_chars(out: &mut Vec<char>, more: &[char])
    ensures
        final(out)@ == old(out)@ + more@,
{
    let n = more.len();
    let ghost start = out@;
    for i in 0..n
        invariant
            n == more@.len(),
            out@ == start + more@.take(i as int),
    {
        out.push(more[i]);
        assert(more@.take(i + 1) =~= more@.take(i as int).push(more@[i as int]));
        assert(start + more@.take(i + 1) =~= (start + more@.take(i as int)).push(more@[i as int]));
    }
    assert(more@.take(n as int) =~= more@);
}

/// The name tried at attempt `attempt` on a platform: see
/// [`candidate_name`].
pub fn download_name_candidate(file_name: &str, attempt: u32, platform: Platform) -> (res: String)
    ensures
        res@ == candidate_name(file_name@, attempt as nat, platform),
{
    if attempt == 0 {
        return string_of(chars_of(file_name).as_slice());
    }
    let name = chars_of(file_name);
    let (stem, extension) = match final_component_chars(name.as_slice(), platform) {
        Some(f) => match find_last_dot(f.as_slice()) {
            Some(i) => if i > 0 {
                (chars_between(f.as_slice(), 0, i), Some(chars_between(f.as_slice(), i + 1, f.len())))
            } else {
                (f, None)
            },
            None => (f, None),
        },
        None => (vec!['f', 'i', 'l', 'e'], None),
    };
    assert(stem@ =~= stem_of(name@, platform));
    let mut out = stem;
    out.push(' ');
    out.push('(');
    let digits = decimal_chars(attempt as u64);
    append_chars(&mut out, digits.as_slice());
    out.push(')');
    assert(out@ =~= stem_of(name@, platform) + seq![' ', '('] + decimal(attempt as nat) + seq![')']);
    match extension {
        Some(ext) => {
            out.push('.');
            append_chars(&mut out, ext.as_slice());
            assert(extension_of(name@, platform) == Some(ext@));
        },
        None => {
            assert(extension_of(name@, platform) is None);
        },
    }
    string_of(out.as_slice())
}

/// The name used when every numbered name is taken: see
/// [`timestamped_name`].
pub fn timestamped_download_name(seconds: u64, file_name: &str) -> (res: String)
    ensures
        res@ == timestamped_name(seconds as nat, file_name@),
{
    let mut out = decimal_chars(seconds);
    out.push('-');
    let name = chars_of(file_name);
    append_chars(&mut out, name.as_slice());
    string_of(out.as_slice())
}

} // verus!

verus! {

/// What to do once it is known whether the name tried at an attempt is
/// taken.
pub enum NameSearch {
    /// The name is free: save the download under it.
    Use(String),
    /// The name is taken: try the name of this attempt next.
    Try(u32),
    /// Every numbered name is taken: use [`timestamped_download_name`].
    UseTimestamped,
}

/// One step of the search for a free name in the downloads folder: the name
/// tried at `attempt` (see [`download_name_candidate`]) is free or `taken`.
/// A free name is used; a taken one leads to the next attempt, up to
/// [`LAST_NUMBERED_ATTEMPT`], and then to the timestamped name.
pub fn available_download_path(file_name: &str, attempt: u32, taken: bool, platform: Platform) -> (res: NameSearch)
    ensures
        match res {
            NameSearch::Use(name) => !taken && name@ == candidate_name(
                file_name@,
                attempt as nat,
                platform,
            ),
            NameSearch::Try(next) => taken && attempt < LAST_NUMBERED_ATTEMPT && next == attempt + 1,
            NameSearch::UseTimestamped => taken && attempt >= LAST_NUMBERED_ATTEMPT,
        },
{
    if !taken {
        NameSearch::Use(download_name_candidate(file_name, attempt, platform))
    } else if attempt < LAST_NUMBERED_ATTEMPT {
        NameSearch::Try(attempt + 1)
    } else {
        NameSearch::UseTimestamped
    }
}

proof fn lemma_last_proper_piece_is_a_piece(pieces: Seq<Seq<char>>)
    ensures
        last_proper_piece(pieces) matches Some(p) ==> pieces.contains(p) && p.len() > 0,
    decreases pieces.len(),
{
    if pieces.len() > 0 {
        lemma_last_proper_piece_is_a_piece(pieces.drop_last());
        if let Some(p) = last_proper_piece(pieces) {
            if pieces.last().len() > 0 && pieces.last() != seq!['.'] {
                assert(pieces[pieces.len() - 1] == p);
            } else {
                let k = choose|k: int| 0 <= k < pieces.drop_last().len() && pieces.drop_last()[k] == p;
                assert(pieces[k] == p);
            }
        }
    }
}

proof fn lemma_last_dot_in_range(s: Seq<char>)
    ensures
        last_dot(s) matches Some(i) ==> 0 <= i < s.len(),
    decreases s.len(),
{
    if s.len() > 0 {
        lemma_last_dot_in_range(s.drop_last());
    }
}


proof fn lemma_last_nonempty_piece_is_a_piece(pieces: Seq<Seq<char>>)
    ensures
        last_nonempty_piece(pieces) matches Some(p) ==> pieces.contains(p) && p.len() > 0,
    decreases pieces.len(),
{
    if pieces.len() > 0 {
        lemma_last_nonempty_piece_is_a_piece(pieces.drop_last());
        if let Some(p) = last_nonempty_piece(pieces) {
            if pieces.last().len() > 0 {
                assert(pieces[pieces.len() - 1] == p);
            } else {
                let k = choose|k: int| 0 <= k < pieces.drop_last().len() && pieces.drop_last()[k] == p;
                assert(pieces[k] == p);
            }
        }
    }
}

proof fn lemma_path_chars(platform: Platform, name: Seq<char>)
    ensures
        !with_slashes(platform, after_prefix(platform, name)).contains('\\') || platform
            != Platform::Windows,
        after_prefix(platform, name).len() <= name.len(),
        has_drive_prefix(platform, name) ==> name.len() == after_prefix(platform, name).len() + 2,
        (forall|i: int| 0 <= i < name.len() ==> !is_separator(platform, #[trigger] name[i]))
            ==> with_slashes(platform, after_prefix(platform, name)) == after_prefix(platform, name)
            && !after_prefix(platform, name).contains('/') && !(platform == Platform::Windows
            && is_verbatim(name)) && (platform == Platform::Windows ==> windows_prefix_len(name) == (
        if has_drive_prefix(platform, name) {
            2nat
        } else {
            0nat
        })),
{
    lemma_windows_prefix_len_bound(name);
    let k: int = if platform == Platform::Windows {
        windows_prefix_len(name) as int
    } else {
        0
    };
    let d = after_prefix(platform, name);
    assert(d =~= name.skip(k));
    let w = with_slashes(platform, d);
    if platform == Platform::Windows && w.contains('\\') {
        let j = choose|j: int| 0 <= j < w.len() && #[trigger] w[j] == '\\';
        assert(w[j] == (if is_separator(platform, d[j]) { '/' } else { d[j] }));
    }
    if forall|i: int| 0 <= i < name.len() ==> !is_separator(platform, #[trigger] name[i]) {
        if name.len() > 0 {
            assert(!is_separator(platform, name[0]));
        }
        assert forall|i: int| 0 <= i < d.len() implies !is_separator(platform, #[trigger] d[i]) by {
            assert(d[i] == name[i + k]);
        }
        assert(w =~= d);
        if d.contains('/') {
            let j = choose|j: int| 0 <= j < d.len() && #[trigger] d[j] == '/';
            assert(is_separator(platform, d[j]));
        }
    }
}

proof fn lemma_final_component_lacks(name: Seq<char>, platform: Platform, c: char)
    requires
        is_separator(platform, c),
        platform == Platform::Windows && is_verbatim(name) ==> c == '\\',
    ensures
        final_component(name, platform) matches Some(f) ==> !f.contains(c) && f.len() > 0,
{
    lemma_path_chars(platform, name);
    if platform == Platform::Windows && is_verbatim(name) {
        let rest = after_prefix(platform, name);
        let body = if rest.len() > 0 && is_any_separator(rest[0]) {
            rest.skip(1)
        } else {
            rest
        };
        let pieces = split_on(body, '\\');
        lemma_last_nonempty_piece_is_a_piece(pieces);
        crate::text::lemma_split_pieces_lack_separator(body, '\\');
        if let Some(f) = final_component(name, platform) {
            let k = choose|k: int| 0 <= k < pieces.len() && pieces[k] == f;
            assert(!pieces[k].contains(c));
        }
    } else {
        let w = with_slashes(platform, after_prefix(platform, name));
        let pieces = split_on(w, '/');
        lemma_last_proper_piece_is_a_piece(pieces);
        if c == '/' {
            crate::text::lemma_split_pieces_lack_separator(w, '/');
        } else {
            crate::text::lemma_split_pieces_lack(w, '/', c);
        }
        if let Some(f) = final_component(name, platform) {
            let k = choose|k: int| 0 <= k < pieces.len() && pieces[k] == f;
            assert(!pieces[k].contains(c));
        }
    }
}

proof fn lemma_concat_lacks(a: Seq<char>, b: Seq<char>, c: char)
    requires
        !a.contains(c),
        !b.contains(c),
    ensures
        !(a + b).contains(c),
{
    if (a + b).contains(c) {
        let k = choose|k: int| 0 <= k < (a + b).len() && (a + b)[k] == c;
        if k < a.len() {
            assert(a[k] == c);
        } else {
            assert(b[k - a.len()] == c);
        }
    }
}

proof fn lemma_short_lacks(s: Seq<char>, c: char)
    requires
        s.len() <= 4,
        s.len() > 0 ==> s[0] != c,
        s.len() > 1 ==> s[1] != c,
        s.len() > 2 ==> s[2] != c,
        s.len() > 3 ==> s[3] != c,
    ensures
        !s.contains(c),
{
}

proof fn lemma_decimal_lacks(n: nat, c: char)
    requires
        c == '/' || c == '\\',
    ensures
        !decimal(n).contains(c),
    decreases n,
{
    if n >= 10 {
        lemma_decimal_lacks(n / 10, c);
        lemma_concat_lacks(decimal(n / 10), seq![crate::text::digit_char(n % 10)], c);
        assert(decimal(n / 10).push(crate::text::digit_char(n % 10)) =~= decimal(n / 10) + seq![
            crate::text::digit_char(n % 10),
        ]);
    } else {
        lemma_short_lacks(decimal(n), c);
    }
}

proof fn lemma_numbered_name_lacks(name: Seq<char>, n: nat, platform: Platform, c: char)
    requires
        is_separator(platform, c),
        final_component(name, platform) matches Some(f) ==> !f.contains(c),
    ensures
        !numbered_name(name, n, platform).contains(c),
{
    lemma_decimal_lacks(n, c);
    let st = stem_of(name, platform);
    if let Some(f) = final_component(name, platform) {
        lemma_last_dot_in_range(f);
        if let Some(i) = last_dot(f) {
            if i > 0 {
                assert(!f.take(i).contains(c)) by {
                    if f.take(i).contains(c) {
                        let k = choose|k: int| 0 <= k < f.take(i).len() && #[trigger] f.take(i)[k] == c;
                        assert(f[k] == c);
                    }
                }
                assert(!f.skip(i + 1).contains(c)) by {
                    if f.skip(i + 1).contains(c) {
                        let k = choose|k: int| 0 <= k < f.skip(i + 1).len() && #[trigger] f.skip(i + 1)[k] == c;
                        assert(f[k + i + 1] == c);
                    }
                }
            }
        }
    } else {
        lemma_short_lacks(seq!['f', 'i', 'l', 'e'], c);
    }
    assert(!st.contains(c));
    lemma_short_lacks(seq![' ', '('], c);
    lemma_short_lacks(seq![')'], c);
    lemma_short_lacks(seq!['.'], c);
    lemma_concat_lacks(st, seq![' ', '('], c);
    lemma_concat_lacks(st + seq![' ', '('], decimal(n), c);
    lemma_concat_lacks(st + seq![' ', '('] + decimal(n), seq![')'], c);
    let base = st + seq![' ', '('] + decimal(n) + seq![')'];
    if let Some(ext) = extension_of(name, platform) {
        lemma_concat_lacks(base, seq!['.'], c);
        lemma_concat_lacks(base + seq!['.'], ext, c);
    }
}

/// A numbered name holds no path separator of its platform: the numbered
/// names are single file names, whatever the received name, except a
/// Windows verbatim path (`\\?\...`) whose final component holds a `/`,
/// which such a path does not read as a separator.
pub proof fn numbered_names_have_no_separator(name: Seq<char>, n: nat, platform: Platform)
    requires
        platform == Platform::Windows && is_verbatim(name) ==> (final_component(name, platform) matches Some(
            f,
        ) ==> !f.contains('/')),
    ensures
        forall|i: int|
            0 <= i < numbered_name(name, n, platform).len() ==> !is_separator(
                platform,
                #[trigger] numbered_name(name, n, platform)[i],
            ),
{
    if !(platform == Platform::Windows && is_verbatim(name)) {
        lemma_final_component_lacks(name, platform, '/');
    }
    lemma_numbered_name_lacks(name, n, platform, '/');
    if platform == Platform::Windows {
        lemma_final_component_lacks(name, platform, '\\');
        lemma_numbered_name_lacks(name, n, platform, '\\');
    }
    let m = numbered_name(name, n, platform);
    assert forall|i: int| 0 <= i < m.len() implies !is_separator(platform, #[trigger] m[i]) by {
        if is_separator(platform, m[i]) {
            assert(m.contains(m[i]));
        }
    }
}

/// The length of a numbered name, for a name without separators: longer
/// than the name, by three and the number's digits beyond its final
/// component.
proof fn lemma_numbered_name_len(name: Seq<char>, n: nat, platform: Platform)
    requires
        forall|i: int| 0 <= i < name.len() ==> !is_separator(platform, #[trigger] name[i]),
    ensures
        numbered_name(name, n, platform).len() > name.len(),
{
    lemma_path_chars(platform, name);
    lemma_decimal_nonempty(n);
    let d = after_prefix(platform, name);
    crate::text::lemma_split_without_separator(d, '/');
    let pieces = split_on(with_slashes(platform, d), '/');
    assert(pieces == seq![d]);
    assert(pieces.drop_last() =~= Seq::<Seq<char>>::empty());
    assert(pieces.last() == d);
    assert(last_proper_piece(pieces.drop_last()) is None);
    if let Some(f) = final_component(name, platform) {
        assert(f == d);
        lemma_last_dot_in_range(f);
    } else {
        if d.len() > 0 && d != seq!['.'] {
            assert(d == seq!['.', '.']);
        }
    }
}

/// The search never tries one name twice: the names of different attempts
/// differ.
pub proof fn candidate_names_differ(name: Seq<char>, a: nat, b: nat, platform: Platform)
    requires
        a != b,
    ensures
        candidate_name(name, a, platform) != candidate_name(name, b, platform),
{
    lemma_decimal_nonempty(a);
    lemma_decimal_nonempty(b);
    if a == 0 || b == 0 {
        let n = if a == 0 { b } else { a };
        if forall|i: int| 0 <= i < name.len() ==> !is_separator(platform, #[trigger] name[i]) {
            lemma_numbered_name_len(name, n, platform);
        } else if platform == Platform::Windows && is_verbatim(name) {
            lemma_final_component_lacks(name, platform, '\\');
            lemma_numbered_name_lacks(name, n, platform, '\\');
            if numbered_name(name, n, platform) == name {
                assert(name[0] == '\\');
                assert(numbered_name(name, n, platform).contains('\\'));
            }
        } else {
            numbered_names_have_no_separator(name, n, platform);
            let k = choose|k: int| 0 <= k < name.len() && is_separator(platform, #[trigger] name[k]);
            if numbered_name(name, n, platform) == name {
                assert(!is_separator(platform, numbered_name(name, n, platform)[k]));
            }
        }
    } else {
        let x = numbered_name(name, a, platform);
        let y = numbered_name(name, b, platform);
        if x == y {
            let st = stem_of(name, platform);
            let start: int = st.len() + 2int;
            assert(x.len() == y.len());
            assert(decimal(a).len() == decimal(b).len());
            assert(x.subrange(start, start + decimal(a).len() as int) =~= decimal(a));
            assert(y.subrange(start, start + decimal(b).len() as int) =~= decimal(b));
            lemma_decimal_injective(a, b);
        }
    }
}


/// A name that is one plain component of a path on its platform: not
/// empty, neither `.` nor `..`, without separators and without a drive
/// prefix, so that joined to a folder it names an entry right inside it.
pub open spec fn is_single_component(platform: Platform, n: Seq<char>) -> bool {
    &&& n.len() > 0
    &&& n != seq!['.']
    &&& n != seq!['.', '.']
    &&& forall|i: int| 0 <= i < n.len() ==> !is_separator(platform, #[trigger] n[i])
    &&& !has_drive_prefix(platform, n)
}

proof fn lemma_single_component_is_final(name: Seq<char>, platform: Platform)
    requires
        is_single_component(platform, name),
    ensures
        final_component(name, platform) == Some(name),
{
    lemma_path_chars(platform, name);
    let d = after_prefix(platform, name);
    assert(d == name);
    crate::text::lemma_split_without_separator(d, '/');
    let pieces = split_on(with_slashes(platform, d), '/');
    assert(pieces == seq![d]);
    assert(pieces.last() == d);
}

/// Every name that the search can pick, for a received name that is a
/// single path component, is a single path component too: the name itself,
/// each numbered name and the timestamped name.
pub proof fn chosen_names_are_single_components(
    name: Seq<char>,
    attempt: nat,
    seconds: nat,
    platform: Platform,
)
    requires
        is_single_component(platform, name),
    ensures
        is_single_component(platform, candidate_name(name, attempt, platform)),
        is_single_component(platform, timestamped_name(seconds, name)),
{
    if attempt > 0 {
        let m = numbered_name(name, attempt, platform);
        numbered_names_have_no_separator(name, attempt, platform);
        lemma_single_component_is_final(name, platform);
        lemma_last_dot_in_range(name);
        lemma_decimal_nonempty(attempt);
        let st = stem_of(name, platform);
        assert(st.len() >= 1);
        assert(m.len() >= 5);
        assert(m != seq!['.']) by {
            if m == seq!['.'] {
                assert(m.len() == 1);
            }
        }
        assert(m != seq!['.', '.']) by {
            if m == seq!['.', '.'] {
                assert(m.len() == 2);
            }
        }
        assert(m[0] == st[0]);
        assert(st[0] == name[0]);
        if st.len() >= 2 {
            assert(m[1] == st[1]);
            assert(st[1] == name[1]);
        } else {
            assert(m[1] == ' ');
        }
    }
    let t = timestamped_name(seconds, name);
    lemma_decimal_nonempty(seconds);
    let dec = decimal(seconds);
    assert(dec.len() >= 1);
    lemma_decimal_lacks(seconds, '/');
    lemma_decimal_lacks(seconds, '\\');
    assert forall|i: int| 0 <= i < t.len() implies !is_separator(platform, #[trigger] t[i]) by {
        if i < dec.len() {
            assert(t[i] == dec[i]);
            assert(dec.contains(dec[i]));
        } else if i > dec.len() {
            assert(t[i] == name[i - dec.len() - 1]);
        }
    }
    assert(t.len() >= 2);
    assert(t != seq!['.']) by {
        if t == seq!['.'] {
            assert(t.len() == 1);
        }
    }
    assert(t != seq!['.', '.']) by {
        if t == seq!['.', '.'] {
            assert(t[1] == '.');
            if dec.len() == 1 {
                assert(t[1] == '-');
            } else {
                assert(t[0] == dec[0]);
            }
        }
    }
    assert(!has_drive_prefix(platform, t)) by {
        lemma_first_digit(seconds);
        assert(t[0] == dec[0]);
    }
}

proof fn lemma_first_digit(n: nat)
    ensures
        !is_ascii_letter(decimal(n)[0]),
        decimal(n)[0] != '.',
    decreases n,
{
    lemma_decimal_nonempty(n);
    if n >= 10 {
        lemma_first_digit(n / 10);
        lemma_decimal_nonempty(n / 10);
        assert(decimal(n)[0] == decimal(n / 10)[0]);
    }
}

} // verus!
