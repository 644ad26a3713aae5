//! Installing on Windows: a per-user directory added to the user's PATH.
use vstd::prelude::*;
use crate::text::{chars_of, find_char, first_pos, is_white_space, push_range, push_str, split_on, string_of, trim, trim_bounds, trim_end, trim_start, lemma_first_pos, lemma_first_pos_absent};

verus! {

/// A path separator outside verbatim paths.
pub open spec fn is_sep(c: char) -> bool {
    c == '\\' || c == '/'
}

/// The length of the first component: up to the first separator (only `\` in a
/// verbatim path).
pub open spec fn component_len(s: Seq<char>, verbatim: bool) -> nat
    decreases s.len(),
{
    if s.len() == 0 || s[0] == '\\' || (!verbatim && s[0] == '/') {
        0
    } else {
        1 + component_len(s.drop_first(), verbatim)
    }
}

/// What follows the first component and the separator after it.
pub open spec fn after_component(s: Seq<char>, verbatim: bool) -> Seq<char> {
    let n = component_len(s, verbatim);
    if n < s.len() {
        s.skip(n + 1 as int)
    } else {
        Seq::<char>::empty()
    }
}

/// Whether the path starts with the verbatim prefix `\\?\`.
pub open spec fn is_verbatim(s: Seq<char>) -> bool {
    s.len() >= 4 && s[0] == '\\' && s[1] == '\\' && s[2] == '?' && s[3] == '\\'
}

/// `\\?\UNC\` (the last separator may also be `/`).
pub open spec fn is_verbatim_unc(s: Seq<char>) -> bool {
    is_verbatim(s) && s.len() >= 8 && s[4] == 'U' && s[5] == 'N' && s[6] == 'C' && is_sep(s[7])
}

/// The length of a verbatim path's prefix: `\\?\UNC\SERVER\SHARE` (the share
/// only when it is not empty), or `\\?\` and the first component.
pub open spec fn verbatim_prefix_len(s: Seq<char>) -> nat {
    if is_verbatim_unc(s) {
        let r = s.skip(8);
        let server = component_len(r, true);
        let share = component_len(after_component(r, true), true);
        8 + server + if share > 0 {
            1 + share
        } else {
            0
        }
    } else {
        4 + component_len(s.skip(4), true)
    }
}

/// A verbatim path's components after the prefix, each after one `\`: empty
/// components (runs of `\`) are dropped. `pending` says whether a `\` is owed
/// before the next component.
pub open spec fn rebuilt(s: Seq<char>, pending: bool) -> Seq<char>
    decreases s.len(),
{
    if s.len() == 0 {
        Seq::<char>::empty()
    } else if s[0] == '\\' {
        rebuilt(s.drop_first(), true)
    } else {
        (if pending {
            seq!['\\']
        } else {
            Seq::<char>::empty()
        }) + seq![s[0]] + rebuilt(s.drop_first(), false)
    }
}

pub open spec fn is_drive_letter(c: char) -> bool {
    ('a' <= c && c <= 'z') || ('A' <= c && c <= 'Z')
}

/// The path is only a drive, such as `C:`.
pub open spec fn is_drive_only(s: Seq<char>) -> bool {
    s.len() == 2 && is_drive_letter(s[0]) && s[1] == ':'
}

/// `PathBuf::join` on Windows with a relative `name` that holds one plain
/// component. A verbatim base is rebuilt from its components, as Windows reads
/// such paths literally; any other base gets a `\` unless it ends in a separator
/// or is only a drive.
pub open spec fn join_windows(base: Seq<char>, name: Seq<char>) -> Seq<char> {
    if is_verbatim(base) {
        let p = verbatim_prefix_len(base);
        base.take(p as int) + rebuilt(base.skip(p as int), true) + seq!['\\'] + name
    } else if base.len() > 0 && !is_sep(base.last()) && !is_drive_only(base) {
        base + seq!['\\'] + name
    } else {
        base + name
    }
}

/// `Path::is_absolute` on Windows: a verbatim (`\\?\`) or device (`\\.\`) path,
/// a UNC path `\\SERVER\SHARE`, or a drive followed by a separator (`C:\`).
pub open spec fn windows_absolute(s: Seq<char>) -> bool {
    if is_verbatim(s) {
        true
    } else if s.len() >= 2 && is_sep(s[0]) && is_sep(s[1]) {
        if s.len() >= 4 && s[2] == '.' && is_sep(s[3]) {
            true
        } else {
            let r = s.skip(2);
            component_len(r, false) > 0 && component_len(after_component(r, false), false) > 0
        }
    } else {
        s.len() >= 3 && is_drive_letter(s[0]) && s[1] == ':' && is_sep(s[2])
    }
}

/// Where the first component of `v[lo..]` ends.
fn component_end(v: &Vec<char>, lo: usize, verbatim: bool) -> (r: usize)
    requires
        lo <= v.len(),
    ensures
        lo <= r <= v.len(),
        r - lo == component_len(v@.skip(lo as int), verbatim),
{
    let mut i = lo;
    assert(v@.skip(lo as int) =~= v@.skip(i as int));
    while i < v.len() && v[i] != '\\' && (verbatim || v[i] != '/')
        invariant
            lo <= i <= v.len(),
            component_len(v@.skip(lo as int), verbatim) == (i - lo) + component_len(
                v@.skip(i as int),
                verbatim,
            ),
        decreases v.len() - i,
    {
        assert(v@.skip(i as int).drop_first() =~= v@.skip(i + 1));
        i = i + 1;
    }
    i
}

fn prefix_end(v: &Vec<char>) -> (r: usize)
    requires
        is_verbatim(v@),
    ensures
        r == verbatim_prefix_len(v@),
        4 <= r <= v.len(),
{
    let n = v.len();
    if n >= 8 && v[4] == 'U' && v[5] == 'N' && v[6] == 'C' && (v[7] == '\\' || v[7] == '/') {
        let server_end = component_end(v, 8, true);
        let ghost r = v@.skip(8);
        if server_end < n {
            proof {
                assert(r.skip(server_end - 8 + 1) =~= v@.skip(server_end + 1));
            }
            let share_end = component_end(v, server_end + 1, true);
            if share_end > server_end + 1 {
                share_end
            } else {
                server_end
            }
        } else {
            server_end
        }
    } else {
        component_end(v, 4, true)
    }
}

fn push_rebuilt(out: &mut String, v: &Vec<char>, lo: usize)
    requires
        lo <= v.len(),
    ensures
        final(out)@ == old(out)@ + rebuilt(v@.skip(lo as int), true),
{
    let mut i = lo;
    let mut pending = true;
    assert(v@.skip(lo as int) =~= v@.skip(i as int));
    while i < v.len()
        invariant
            lo <= i <= v.len(),
            old(out)@ + rebuilt(v@.skip(lo as int), true) == out@ + rebuilt(
                v@.skip(i as int),
                pending,
            ),
        decreases v.len() - i,
    {
        assert(v@.skip(i as int).drop_first() =~= v@.skip(i + 1));
        assert(v@.skip(i as int)[0] == v[i as int]);
        let c = v[i];
        if c == '\\' {
            pending = true;
        } else {
            let ghost before = out@;
            if pending {
                out.push('\\');
            }
            out.push(c);
            pending = false;
        }
        i = i + 1;
    }
    assert(v@.skip(i as int) =~= Seq::<char>::empty());
    assert(out@ =~= old(out)@ + rebuilt(v@.skip(lo as int), true));
}

fn join(base: &str, name: &str) -> (r: String)
    ensures
        r@ == join_windows(base@, name@),
{
    let b = chars_of(base);
    let n = b.len();
    if n >= 4 && b[0] == '\\' && b[1] == '\\' && b[2] == '?' && b[3] == '\\' {
        let p = prefix_end(&b);
        let mut s = String::new();
        push_range(&mut s, &b, 0, p);
        assert(b@.subrange(0, p as int) =~= b@.take(p as int));
        push_rebuilt(&mut s, &b, p);
        s.push('\\');
        push_str(&mut s, name);
        assert(s@ =~= join_windows(base@, name@));
        s
    } else {
        let mut s = string_of(base);
        let drive_only = n == 2 && (('a' <= b[0] && b[0] <= 'z') || ('A' <= b[0] && b[0] <= 'Z'))
            && b[1] == ':';
        if n > 0 && b[n - 1] != '\\' && b[n - 1] != '/' && !drive_only {
            s.push('\\');
        }
        push_str(&mut s, name);
        assert(s@ =~= join_windows(base@, name@));
        s
    }
}

/// Whether `s` is an absolute Windows path.
pub fn is_absolute(s: &str) -> (r: bool)
    ensures
        r == windows_absolute(s@),
{
    let v = chars_of(s);
    let n = v.len();
    if n >= 4 && v[0] == '\\' && v[1] == '\\' && v[2] == '?' && v[3] == '\\' {
        true
    } else if n >= 2 && (v[0] == '\\' || v[0] == '/') && (v[1] == '\\' || v[1] == '/') {
        if n >= 4 && v[2] == '.' && (v[3] == '\\' || v[3] == '/') {
            true
        } else {
            let server_end = component_end(&v, 2, false);
            if server_end == 2 || server_end == n {
                proof {
                    if server_end == n {
                        assert(after_component(v@.skip(2), false) =~= Seq::<char>::empty());
                    }
                }
                false
            } else {
                proof {
                    assert(v@.skip(2).skip(server_end - 2 + 1) =~= v@.skip(server_end + 1));
                }
                let share_end = component_end(&v, server_end + 1, false);
                share_end > server_end + 1
            }
        }
    } else {
        n >= 3 && (('a' <= v[0] && v[0] <= 'z') || ('A' <= v[0] && v[0] <= 'Z')) && v[1] == ':'
            && (v[2] == '\\' || v[2] == '/')
    }
}

/// Where the executable goes on Windows.
pub struct Plan {
    directory: String,
}

/// `%LOCALAPPDATA%\Programs\prox`.
pub open spec fn install_directory(local_app_data: Seq<char>) -> Seq<char> {
    join_windows(join_windows(local_app_data, "Programs"@), "prox"@)
}

/// The install directory for the value of `LOCALAPPDATA`, or the error.
pub open spec fn plan_windows(local_app_data: Option<Seq<char>>) -> Result<Seq<char>, Seq<char>> {
    match local_app_data {
        None => Err("LOCALAPPDATA is not set"@),
        Some(v) => if !windows_absolute(v) {
            Err("LOCALAPPDATA must be an absolute path"@)
        } else if install_directory(v).contains(';') || install_directory(v).contains('\0') {
            Err("install directory cannot contain a semicolon or NUL"@)
        } else {
            Ok(install_directory(v))
        },
    }
}

impl Plan {
    pub closed spec fn directory_view(&self) -> Seq<char> {
        self.directory@
    }

    /// `%LOCALAPPDATA%\Programs\prox`, given the value of `LOCALAPPDATA` when it
    /// is set: it must be absolute, and the directory cannot hold a `;` (the PATH
    /// separator) or a NUL. The directory is one that PATH comparison leaves as
    /// it is.
    pub fn new(local_app_data: Option<String>) -> (r: Result<Plan, String>)
        ensures
            match (r, plan_windows(crate::install::unix::text_opt(local_app_data))) {
                (Ok(p), Ok(d)) => p.directory_view() == d && clean_directory(d),
                (Err(e), Err(m)) => e@ == m,
                _ => false,
            },
    {
        let local_app_data = match local_app_data {
            None => {
                return Err(string_of("LOCALAPPDATA is not set"));
            },
            Some(v) => v,
        };
        if !is_absolute(local_app_data.as_str()) {
            return Err(string_of("LOCALAPPDATA must be an absolute path"));
        }
        let programs = join(local_app_data.as_str(), "Programs");
        let directory = join(programs.as_str(), "prox");
        let d = chars_of(directory.as_str());
        let mut i: usize = 0;
        #[verifier::loop_isolation(false)]
        while i < d.len()
            invariant
                i <= d.len(),
                d@ == directory@,
                directory@ == install_directory(local_app_data@),
                forall|j: int| 0 <= j < i ==> d@[j] != ';' && d@[j] != '\0',
            decreases d.len() - i,
        {
            if d[i] == ';' || d[i] == '\0' {
                proof {
                    let dir = install_directory(local_app_data@);
                    assert(dir[i as int] == d@[i as int]);
                    if d@[i as int] == ';' {
                        assert(dir.contains(';'));
                    } else {
                        assert(dir.contains('\0'));
                    }
                }
                return Err(string_of("install directory cannot contain a semicolon or NUL"));
            }
            i = i + 1;
        }
        proof {
            lemma_install_directory_clean(local_app_data@);
        }
        Ok(Plan { directory })
    }

    /// Where the executable goes.
    pub fn directory(&self) -> (r: &str)
        ensures
            r@ == self.directory_view(),
    {
        self.directory.as_str()
    }
}

/// UTF-16 of one character.
pub open spec fn utf16_char(c: char) -> Seq<u16> {
    let n = c as u32;
    if n < 0x10000 {
        seq![n as u16]
    } else {
        seq![
            (0xD800 + (n - 0x10000) / 1024) as u16,
            (0xDC00 + (n - 0x10000) % 1024) as u16,
        ]
    }
}

/// `str::encode_utf16`.
pub open spec fn utf16(s: Seq<char>) -> Seq<u16>
    decreases s.len(),
{
    if s.len() == 0 {
        seq![]
    } else {
        utf16(s.drop_last()) + utf16_char(s.last())
    }
}

/// `value` as a NUL-terminated UTF-16 string, as the Windows API takes it.
pub fn wide(value: &str) -> (r: Vec<u16>)
    ensures
        r@ == utf16(value@).push(0),
{
    let v = chars_of(value);
    let mut r: Vec<u16> = Vec::new();
    let mut i: usize = 0;
    while i < v.len()
        invariant
            i <= v.len(),
            r@ == utf16(v@.take(i as int)),
        decreases v.len() - i,
    {
        proof {
            assert(v@.take(i + 1).drop_last() =~= v@.take(i as int));
        }
        let n = v[i] as u32;
        if n < 0x10000 {
            r.push(n as u16);
        } else {
            let m = n - 0x10000;
            r.push((0xD800 + m / 1024) as u16);
            r.push((0xDC00 + m % 1024) as u16);
        }
        i = i + 1;
        assert(r@ =~= utf16(v@.take(i as int)));
    }
    assert(v@.take(v.len() as int) =~= value@);
    r.push(0);
    r
}

} // verus!

verus! {

/// ASCII letters folded to lower case; other characters kept.
pub open spec fn ascii_lower(c: char) -> char {
    if 'A' <= c && c <= 'Z' {
        ((c as u32) + 32) as char
    } else {
        c
    }
}

/// `str::eq_ignore_ascii_case`.
pub open spec fn eq_ignore_case(a: Seq<char>, b: Seq<char>) -> bool {
    a.len() == b.len() && forall|i: int| 0 <= i < a.len() ==> ascii_lower(#[trigger] a[i])
        == ascii_lower(b[i])
}

/// `trim_start_matches(c)`.
pub open spec fn strip_start(s: Seq<char>, c: char) -> Seq<char>
    decreases s.len(),
{
    if s.len() > 0 && s[0] == c {
        strip_start(s.drop_first(), c)
    } else {
        s
    }
}

/// `trim_end_matches(c)`.
pub open spec fn strip_end(s: Seq<char>, c: char) -> Seq<char>
    decreases s.len(),
{
    if s.len() > 0 && s.last() == c {
        strip_end(s.drop_last(), c)
    } else {
        s
    }
}

/// `trim_end_matches(['\\', '/'])`.
pub open spec fn strip_separators(s: Seq<char>) -> Seq<char>
    decreases s.len(),
{
    if s.len() > 0 && (s.last() == '\\' || s.last() == '/') {
        strip_separators(s.drop_last())
    } else {
        s
    }
}

/// A PATH entry as it is compared: white space and quotes around it and
/// separators after it removed.
pub open spec fn path_entry(e: Seq<char>) -> Seq<char> {
    strip_separators(strip_end(strip_start(trim(e), '"'), '"'))
}

/// Some entry of the `;`-separated `value` names `directory` (ASCII case aside).
pub open spec fn path_present(value: Seq<char>, directory: Seq<char>) -> bool {
    exists|i: int|
        0 <= i < split_on(value, ';').len() && eq_ignore_case(
            path_entry(#[trigger] split_on(value, ';')[i]),
            directory,
        )
}

/// The user PATH after installing into `directory`: unchanged (`None`) when it is
/// already there, else with `directory` appended after a `;`.
pub open spec fn path_update_spec(value: Seq<char>, directory: Seq<char>) -> Option<Seq<char>> {
    if path_present(value, directory) {
        None
    } else if value.len() > 0 && value.last() != ';' {
        Some(value + seq![';'] + directory)
    } else {
        Some(value + directory)
    }
}

fn strip_bounds(v: &Vec<char>, lo: usize, hi: usize) -> (r: (usize, usize))
    requires
        lo <= hi <= v.len(),
    ensures
        lo <= r.0 <= r.1 <= hi,
        v@.subrange(r.0 as int, r.1 as int) == path_entry(v@.subrange(lo as int, hi as int)),
{
    let (a0, b0) = trim_bounds(v, lo, hi);
    let mut a = a0;
    while a < b0 && v[a] == '"'
        invariant
            a0 <= a <= b0 <= v.len(),
            strip_start(v@.subrange(a0 as int, b0 as int), '"') == strip_start(
                v@.subrange(a as int, b0 as int),
                '"',
            ),
        decreases b0 - a,
    {
        assert(v@.subrange(a as int, b0 as int).drop_first() =~= v@.subrange(a + 1, b0 as int));
        a = a + 1;
    }
    assert(strip_start(v@.subrange(a as int, b0 as int), '"') == v@.subrange(a as int, b0 as int));
    let mut b = b0;
    while b > a && v[b - 1] == '"'
        invariant
            a <= b <= b0 <= v.len(),
            strip_end(v@.subrange(a as int, b0 as int), '"') == strip_end(
                v@.subrange(a as int, b as int),
                '"',
            ),
        decreases b - a,
    {
        assert(v@.subrange(a as int, b as int).drop_last() =~= v@.subrange(a as int, b - 1));
        b = b - 1;
    }
    assert(strip_end(v@.subrange(a as int, b as int), '"') == v@.subrange(a as int, b as int));
    let b1 = b;
    while b > a && (v[b - 1] == '\\' || v[b - 1] == '/')
        invariant
            a <= b <= b1 <= v.len(),
            strip_separators(v@.subrange(a as int, b1 as int)) == strip_separators(
                v@.subrange(a as int, b as int),
            ),
        decreases b - a,
    {
        assert(v@.subrange(a as int, b as int).drop_last() =~= v@.subrange(a as int, b - 1));
        b = b - 1;
    }
    assert(strip_separators(v@.subrange(a as int, b as int)) == v@.subrange(a as int, b as int));
    (a, b)
}

fn lower(c: char) -> (r: char)
    ensures
        r == ascii_lower(c),
{
    if 'A' <= c && c <= 'Z' {
        ((c as u8) + 32) as char
    } else {
        c
    }
}

fn same_ignoring_case(v: &Vec<char>, lo: usize, hi: usize, d: &Vec<char>) -> (r: bool)
    requires
        lo <= hi <= v.len(),
    ensures
        r == eq_ignore_case(v@.subrange(lo as int, hi as int), d@),
{
    let ghost s = v@.subrange(lo as int, hi as int);
    if hi - lo != d.len() {
        return false;
    }
    let mut i: usize = 0;
    while i < d.len()
        invariant
            lo <= hi <= v.len(),
            hi - lo == d.len(),
            s == v@.subrange(lo as int, hi as int),
            i <= d.len(),
            forall|j: int| 0 <= j < i ==> ascii_lower(#[trigger] s[j]) == ascii_lower(d@[j]),
        decreases d.len() - i,
    {
        if lower(v[lo + i]) != lower(d[i]) {
            assert(ascii_lower(s[i as int]) != ascii_lower(d@[i as int]));
            return false;
        }
        i = i + 1;
    }
    true
}

/// Decides the new user PATH (`Plan::configure_path` writes it to the registry).
pub fn path_update(value: &str, directory: &str) -> (r: Option<String>)
    ensures
        match (r, path_update_spec(value@, directory@)) {
            (Some(a), Some(b)) => a@ == b,
            (None, None) => true,
            _ => false,
        },
{
    let v = chars_of(value);
    let d = chars_of(directory);
    let n = v.len();
    let mut pos: usize = 0;
    let ghost pieces = split_on(value@, ';');
    let ghost mut k: int = 0;
    assert(v@.skip(0) =~= v@);
    loop
        invariant_except_break
            pieces.skip(k) == split_on(v@.skip(pos as int), ';'),
        invariant
            n == v.len(),
            v@ == value@,
            d@ == directory@,
            pos <= n,
            pieces == split_on(value@, ';'),
            0 <= k <= pieces.len(),
            forall|j: int| 0 <= j < k ==> !eq_ignore_case(path_entry(#[trigger] pieces[j]), directory@),
        ensures
            !path_present(value@, directory@),
        decreases n - pos,
    {
        let end = find_char(&v, pos, n, ';');
        let ghost rest = v@.skip(pos as int);
        let ghost piece = v@.subrange(pos as int, end as int);
        proof {
            assert(v@.subrange(pos as int, n as int) =~= rest);
            assert(rest.take(end - pos) =~= piece);
            assert(split_on(rest, ';').len() >= 1);
            assert(k < pieces.len());
            assert(pieces.skip(k)[0] == pieces[k]);
            if end < n {
                assert(rest.skip(end - pos + 1) =~= v@.skip(end + 1));
                assert(split_on(rest, ';') == seq![piece] + split_on(v@.skip(end + 1), ';'));
                assert(pieces.skip(k + 1) =~= pieces.skip(k).drop_first());
                assert((seq![piece] + split_on(v@.skip(end + 1), ';')).drop_first() =~= split_on(
                    v@.skip(end + 1),
                    ';',
                ));
            } else {
                assert(split_on(rest, ';') == seq![piece]);
                assert(pieces.skip(k).len() == 1);
            }
            assert(pieces[k] == piece);
        }
        let (a, b) = strip_bounds(&v, pos, end);
        if same_ignoring_case(&v, a, b, &d) {
            proof {
                assert(eq_ignore_case(path_entry(pieces[k]), directory@));
            }
            return None;
        }
        proof {
            k = k + 1;
        }
        if end == n {
            proof {
                assert(k == pieces.len());
            }
            break;
        }
        pos = end + 1;
    }
    let mut s = string_of(value);
    if n > 0 && v[n - 1] != ';' {
        s.push(';');
    }
    push_str(&mut s, directory);
    Some(s)
}

} // verus!

verus! {

proof fn lemma_split_last(x: Seq<char>, c: char, b: Seq<char>)
    requires
        !b.contains(c),
    ensures
        split_on(x + seq![c] + b, c).len() >= 1,
        split_on(x + seq![c] + b, c).last() == b,
    decreases x.len(),
{
    let s = x + seq![c] + b;
    lemma_first_pos(s, c);
    let p = first_pos(s, c);
    assert(s[x.len() as int] == c);
    assert(p <= x.len());
    if p == x.len() {
        assert(s.skip(p + 1 as int) =~= b);
        assert forall|i: int| 0 <= i < b.len() implies b[i] != c by {
            if b[i] == c {
                assert(b.contains(c));
            }
        }
        lemma_first_pos_absent(b, c);
        assert(split_on(b, c) == seq![b]);
        assert(split_on(s, c) == seq![s.take(p as int)] + split_on(b, c));
    } else {
        let x2 = x.skip(p + 1 as int);
        assert(s.skip(p + 1 as int) =~= x2 + seq![c] + b);
        lemma_split_last(x2, c, b);
        let t = split_on(x2 + seq![c] + b, c);
        assert(split_on(s, c) == seq![s.take(p as int)] + t);
        assert((seq![s.take(p as int)] + t).last() == t.last());
    }
}

/// A directory that a PATH entry names exactly: no `;`, and nothing that the
/// comparison strips (white space or quotes around it, a trailing separator).
pub open spec fn clean_directory(d: Seq<char>) -> bool {
    !d.contains(';') && path_entry(d) == d
}

/// Law: installing twice adds the directory to the user PATH once: after the
/// update, the directory is found and the value is left alone.
pub proof fn law_path_update_idempotent(value: Seq<char>, directory: Seq<char>)
    requires
        clean_directory(directory),
    ensures
        path_update_spec(value, directory) matches Some(v) ==> path_update_spec(v, directory)
            is None,
{
    if let Some(v) = path_update_spec(value, directory) {
        let pieces = split_on(v, ';');
        if value.len() > 0 && value.last() != ';' {
            lemma_split_last(value, ';', directory);
        } else if value.len() > 0 {
            let y = value.drop_last();
            assert(v =~= y + seq![';'] + directory);
            lemma_split_last(y, ';', directory);
        } else {
            assert(v =~= directory);
            assert forall|i: int| 0 <= i < directory.len() implies directory[i] != ';' by {
                if directory[i] == ';' {
                    assert(directory.contains(';'));
                }
            }
            lemma_first_pos_absent(directory, ';');
        }
        let last = pieces.len() - 1;
        assert(pieces[last] == directory);
        assert(eq_ignore_case(path_entry(pieces[last]), directory));
        assert(path_present(v, directory));
    }
}

} // verus!

verus! {

/// A joined path starts as its base does and ends with the name joined.
proof fn lemma_join_ends(base: Seq<char>, name: Seq<char>)
    requires
        base.len() > 0,
        name.len() > 0,
    ensures
        join_windows(base, name)[0] == base[0],
        join_windows(base, name).last() == name.last(),
        join_windows(base, name).len() > 0,
{
    let j = join_windows(base, name);
    if is_verbatim(base) {
        let p = verbatim_prefix_len(base);
        assert(p >= 4 && p <= base.len()) by {
            if is_verbatim_unc(base) {
                let r = base.skip(8);
                lemma_component_len_bound(r, true);
                lemma_component_len_bound(after_component(r, true), true);
            } else {
                lemma_component_len_bound(base.skip(4), true);
            }
        }
        assert(j[0] == base.take(p as int)[0]);
    }
    assert(j.last() == name.last());
}

proof fn lemma_component_len_bound(s: Seq<char>, verbatim: bool)
    ensures
        component_len(s, verbatim) <= s.len(),
    decreases s.len(),
{
    if s.len() > 0 {
        lemma_component_len_bound(s.drop_first(), verbatim);
    }
}

/// An absolute Windows path starts with a separator or a drive letter.
proof fn lemma_absolute_start(s: Seq<char>)
    requires
        windows_absolute(s),
    ensures
        s.len() > 0 && (is_sep(s[0]) || is_drive_letter(s[0])),
{
}

/// The install directory starts as `local_app_data` does and ends in `prox`, so
/// nothing is stripped from it when PATH entries are compared.
proof fn lemma_install_directory_clean(local_app_data: Seq<char>)
    requires
        windows_absolute(local_app_data),
        !install_directory(local_app_data).contains(';'),
    ensures
        clean_directory(install_directory(local_app_data)),
{
    reveal_strlit("Programs");
    reveal_strlit("prox");
    lemma_absolute_start(local_app_data);
    let programs = join_windows(local_app_data, "Programs"@);
    lemma_join_ends(local_app_data, "Programs"@);
    lemma_join_ends(programs, "prox"@);
    let d = install_directory(local_app_data);
    assert(d[0] == local_app_data[0]);
    assert(d.last() == 'x');
    assert(!is_white_space(d[0]));
    assert(trim_start(d) == d);
    assert(trim_end(d) == d);
    assert(trim(d) == d);
    assert(strip_start(d, '"') == d);
    assert(strip_end(d, '"') == d);
    assert(strip_separators(d) == d);
}

/// Law: installing twice adds the install directory to the user PATH once, for
/// every value of `LOCALAPPDATA` that `Plan::new` accepts.
pub proof fn law_install_path_added_once(local_app_data: Seq<char>, value: Seq<char>)
    requires
        plan_windows(Some(local_app_data)) is Ok,
    ensures
        path_update_spec(value, install_directory(local_app_data)) matches Some(v)
            ==> path_update_spec(v, install_directory(local_app_data)) is None,
{
    lemma_install_directory_clean(local_app_data);
    law_path_update_idempotent(value, install_directory(local_app_data));
}

} // verus!
