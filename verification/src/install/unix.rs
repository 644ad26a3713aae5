//! Installing on macOS and Linux: a per-user directory and a marked block in the
//! shell's startup files that puts it on PATH.
use vstd::prelude::*;
use crate::cli::arg_views;
use crate::text::{
    chars_of, contains, contains_seq, find_char, first_pos, push_range, push_str, split_on,
    str_eq, string_of,
};

verus! {

/// `PathBuf::join` on Unix for a relative `rel`: a `/` goes between unless `base`
/// is empty or already ends with one.
pub open spec fn join_path(base: Seq<char>, rel: Seq<char>) -> Seq<char> {
    if base.len() == 0 || base.last() == '/' {
        base + rel
    } else {
        base + "/"@ + rel
    }
}

pub fn join(base: &str, rel: &str) -> (r: String)
    ensures
        r@ == join_path(base@, rel@),
{
    let b = chars_of(base);
    let mut s = string_of(base);
    if b.len() > 0 && b[b.len() - 1] != '/' {
        push_str(&mut s, "/");
    }
    push_str(&mut s, rel);
    s
}

/// `Path::is_absolute` on Unix: the path starts at the root.
pub open spec fn is_absolute(s: Seq<char>) -> bool {
    s.len() > 0 && s[0] == '/'
}

pub open spec fn absolute_spec(name: Seq<char>, value: Option<Seq<char>>) -> Result<Seq<char>, Seq<char>> {
    match value {
        None => Err(name + " is not set"@),
        Some(v) => if is_absolute(v) {
            Ok(v)
        } else {
            Err(name + " must be an absolute path"@)
        },
    }
}

/// The value of the variable `name`, which must be set to an absolute path.
pub fn absolute_env(name: &str, value: Option<String>) -> (r: Result<String, String>)
    ensures
        match (r, absolute_spec(name@, text_opt(value))) {
            (Ok(v), Ok(w)) => v@ == w,
            (Err(e), Err(m)) => e@ == m,
            _ => false,
        },
{
    match value {
        None => {
            let mut e = string_of(name);
            push_str(&mut e, " is not set");
            Err(e)
        },
        Some(v) => {
            let c = chars_of(v.as_str());
            if c.len() > 0 && c[0] == '/' {
                Ok(v)
            } else {
                let mut e = string_of(name);
                push_str(&mut e, " must be an absolute path");
                Err(e)
            }
        },
    }
}

pub open spec fn text_opt(o: Option<String>) -> Option<Seq<char>> {
    match o {
        Some(s) => Some(s@),
        None => None,
    }
}

/// Empty pieces and `.` name no component.
pub open spec fn skipped_piece(p: Seq<char>) -> bool {
    p.len() == 0 || p == "."@
}

/// The last piece that names a component, or `acc` when there is none.
pub open spec fn last_piece(pieces: Seq<Seq<char>>, acc: Option<Seq<char>>) -> Option<Seq<char>>
    decreases pieces.len(),
{
    if pieces.len() == 0 {
        acc
    } else {
        last_piece(
            pieces.drop_first(),
            if skipped_piece(pieces[0]) {
                acc
            } else {
                Some(pieces[0])
            },
        )
    }
}

/// `Path::file_name` on Unix: the last component, unless it is `..` or missing.
pub open spec fn file_name_spec(s: Seq<char>) -> Option<Seq<char>> {
    match last_piece(split_on(s, '/'), None) {
        Some(c) => if c == ".."@ {
            None
        } else {
            Some(c)
        },
        None => None,
    }
}

/// The last component of a Unix path.
pub fn file_name(path: &str) -> (r: Option<String>)
    ensures
        text_opt(r) == file_name_spec(path@),
{
    let v = chars_of(path);
    let n = v.len();
    let mut pos: usize = 0;
    let mut last: Option<String> = None;
    assert(v@.skip(0) =~= v@);
    loop
        invariant
            n == v.len(),
            v@ == path@,
            pos <= n,
            last_piece(split_on(path@, '/'), None) == last_piece(
                split_on(v@.skip(pos as int), '/'),
                text_opt(last),
            ),
        ensures
            last_piece(split_on(path@, '/'), None) == text_opt(last),
        decreases n - pos,
    {
        let end = find_char(&v, pos, n, '/');
        let ghost rest = v@.skip(pos as int);
        let ghost piece = v@.subrange(pos as int, end as int);
        proof {
            assert(v@.subrange(pos as int, n as int) =~= rest);
            assert(rest.take(end - pos) =~= piece);
            if end < n {
                assert(rest.skip(end - pos + 1) =~= v@.skip(end + 1));
                assert(split_on(rest, '/') == seq![piece] + split_on(v@.skip(end + 1), '/'));
                assert((seq![piece] + split_on(v@.skip(end + 1), '/')).drop_first() =~= split_on(
                    v@.skip(end + 1),
                    '/',
                ));
            } else {
                assert(split_on(rest, '/') == seq![piece]);
                assert(seq![piece].drop_first() =~= Seq::<Seq<char>>::empty());
            }
        }
        let mut p = String::new();
        push_range(&mut p, &v, pos, end);
        let ghost before = text_opt(last);
        if !(end == pos || str_eq(p.as_str(), ".")) {
            last = Some(p);
        }
        proof {
            assert(p@ =~= piece);
            assert(text_opt(last) == if skipped_piece(piece) {
                before
            } else {
                Some(piece)
            });
        }
        if end == n {
            assert(last_piece(Seq::<Seq<char>>::empty(), text_opt(last)) == text_opt(last));
            break;
        }
        pos = end + 1;
    }
    match last {
        Some(c) => if str_eq(c.as_str(), "..") {
            None
        } else {
            Some(c)
        },
        None => None,
    }
}

} // verus!

verus! {

/// How one character of the install path is written inside single quotes.
pub open spec fn escape_char(c: char, fish: bool) -> Seq<char> {
    if fish {
        if c == '\\' {
            seq!['\\', '\\']
        } else if c == '\'' {
            seq!['\\', '\'']
        } else {
            seq![c]
        }
    } else if c == '\'' {
        seq!['\'', '\\', '\'', '\'']
    } else {
        seq![c]
    }
}

pub open spec fn escape(s: Seq<char>, fish: bool) -> Seq<char>
    decreases s.len(),
{
    if s.len() == 0 {
        seq![]
    } else {
        escape(s.drop_last(), fish) + escape_char(s.last(), fish)
    }
}

/// The install path as a single-quoted shell word.
pub open spec fn quoted_path(path: Seq<char>, fish: bool) -> Seq<char> {
    seq!['\''] + escape(path, fish) + seq!['\'']
}

pub open spec fn path_command(q: Seq<char>, fish: bool) -> Seq<char> {
    if fish {
        "if not contains -- "@ + q + " $PATH\n    set -gx PATH "@ + q + " $PATH\nend"@
    } else {
        "case \":$PATH:\" in\n    *:"@ + q + ":*) ;;\n    *) export PATH="@ + q
            + ":\"$PATH\" ;;\nesac"@
    }
}

pub open spec fn block_start() -> Seq<char> {
    "# >>> prox PATH >>>"@
}

/// The marked block that puts `path` first on PATH.
pub open spec fn path_block(path: Seq<char>, fish: bool) -> Seq<char> {
    block_start() + "\n"@ + path_command(quoted_path(path, fish), fish) + "\n# <<< prox PATH <<<\n"@
}

fn quote(path: &str, fish: bool) -> (r: String)
    ensures
        r@ == quoted_path(path@, fish),
{
    let v = chars_of(path);
    let mut s = String::new();
    s.push('\'');
    let ghost start = s@;
    let mut i: usize = 0;
    while i < v.len()
        invariant
            i <= v.len(),
            start == seq!['\''],
            s@ == start + escape(v@.take(i as int), fish),
        decreases v.len() - i,
    {
        proof {
            assert(v@.take(i + 1).drop_last() =~= v@.take(i as int));
        }
        let c = v[i];
        if fish && c == '\\' {
            s.push('\\');
            s.push('\\');
        } else if c == '\'' {
            if fish {
                s.push('\\');
                s.push('\'');
            } else {
                s.push('\'');
                s.push('\\');
                s.push('\'');
                s.push('\'');
            }
        } else {
            s.push(c);
        }
        i = i + 1;
        assert(s@ =~= start + escape(v@.take(i as int), fish));
    }
    assert(v@.take(v.len() as int) =~= path@);
    s.push('\'');
    assert(s@ =~= quoted_path(path@, fish));
    s
}

/// The block to add to shell startup files for `path`.
pub fn make_block(path: &str, fish: bool) -> (r: String)
    ensures
        r@ == path_block(path@, fish),
{
    let q = quote(path, fish);
    let mut s = string_of("# >>> prox PATH >>>");
    push_str(&mut s, "\n");
    if fish {
        push_str(&mut s, "if not contains -- ");
        push_str(&mut s, q.as_str());
        push_str(&mut s, " $PATH\n    set -gx PATH ");
        push_str(&mut s, q.as_str());
        push_str(&mut s, " $PATH\nend");
    } else {
        push_str(&mut s, "case \":$PATH:\" in\n    *:");
        push_str(&mut s, q.as_str());
        push_str(&mut s, ":*) ;;\n    *) export PATH=");
        push_str(&mut s, q.as_str());
        push_str(&mut s, ":\"$PATH\" ;;\nesac");
    }
    push_str(&mut s, "\n# <<< prox PATH <<<\n");
    assert(s@ =~= path_block(path@, fish));
    s
}

pub open spec fn edited_block_error() -> Seq<char> {
    "an existing prox PATH block was edited or points elsewhere; remove that block and rerun prox install"@
}

/// A startup file may hold a prox block only if it is exactly `block`.
pub open spec fn check_block_spec(content: Seq<char>, block: Seq<char>) -> bool {
    !(contains_seq(content, block_start()) && !contains_seq(content, block))
}

pub fn check_block(content: &str, block: &str) -> (r: Result<(), String>)
    ensures
        r is Ok == check_block_spec(content@, block@),
        r matches Err(e) ==> e@ == edited_block_error(),
{
    if contains(content, "# >>> prox PATH >>>") && !contains(content, block) {
        return Err(
            string_of(
                "an existing prox PATH block was edited or points elsewhere; remove that block and rerun prox install",
            ),
        );
    }
    Ok(())
}

/// What to append to a startup file holding `content`: nothing when the block is
/// there, else the block (after a newline if the file does not end with one).
pub open spec fn addition_spec(content: Seq<char>, block: Seq<char>) -> Result<
    Option<Seq<char>>,
    Seq<char>,
> {
    if !check_block_spec(content, block) {
        Err(edited_block_error())
    } else if contains_seq(content, block) {
        Ok(None)
    } else if content.len() > 0 && content.last() != '\n' {
        Ok(Some(seq!['\n'] + block))
    } else {
        Ok(Some(block))
    }
}

/// Decides how a startup file changes (`Plan::configure_path` writes it).
pub fn profile_addition(content: &str, block: &str) -> (r: Result<Option<String>, String>)
    ensures
        match (r, addition_spec(content@, block@)) {
            (Ok(Some(a)), Ok(Some(b))) => a@ == b,
            (Ok(None), Ok(None)) => true,
            (Err(e), Err(m)) => e@ == m,
            _ => false,
        },
{
    check_block(content, block)?;
    if contains(content, block) {
        return Ok(None);
    }
    let v = chars_of(content);
    let mut s = String::new();
    if v.len() > 0 && v[v.len() - 1] != '\n' {
        s.push('\n');
    }
    push_str(&mut s, block);
    assert(s@ =~= addition_spec(content@, block@)->Ok_0->Some_0);
    Ok(Some(s))
}

/// Every existing startup file holds no prox block, or exactly `block`.
pub open spec fn profiles_clean(contents: Seq<Seq<char>>, block: Seq<char>) -> bool {
    forall|i: int| 0 <= i < contents.len() ==> check_block_spec(#[trigger] contents[i], block)
}

/// Checks the existing startup files (their contents, in order) before anything
/// is copied or changed; the error is that of `check_block`.
pub fn check_profiles(contents: &Vec<String>, block: &str) -> (r: Result<(), String>)
    ensures
        r is Ok == profiles_clean(arg_views(contents@), block@),
        r matches Err(e) ==> e@ == edited_block_error(),
{
    let ghost views = arg_views(contents@);
    let mut i: usize = 0;
    while i < contents.len()
        invariant
            i <= contents.len(),
            views == arg_views(contents@),
            views.len() == contents.len(),
            forall|j: int| 0 <= j < i ==> check_block_spec(#[trigger] views[j], block@),
        decreases contents.len() - i,
    {
        assert(views[i as int] == contents@[i as int]@);
        check_block(contents[i].as_str(), block)?;
        i = i + 1;
    }
    Ok(())
}

/// Law: running the installer again adds nothing: once a startup file has had the
/// addition appended, the next run finds the block and leaves it alone.
pub proof fn law_profile_setup_idempotent(content: Seq<char>, block: Seq<char>)
    ensures
        addition_spec(content, block) matches Ok(Some(a)) ==> addition_spec(content + a, block)
            == Ok::<Option<Seq<char>>, Seq<char>>(None),
{
    if let Ok(Some(a)) = addition_spec(content, block) {
        let c = content + a;
        let i = c.len() - block.len();
        assert(c.subrange(i, i + block.len()) =~= block);
        assert(contains_seq(c, block));
    }
}

} // verus!

verus! {

/// A worked-out installation: where the executable goes, which startup files to
/// edit, and the block they get.
pub struct Plan {
    directory: String,
    profiles: Vec<String>,
    block: String,
}

pub struct PlanModel {
    pub directory: Seq<char>,
    pub profiles: Seq<Seq<char>>,
    pub block: Seq<char>,
}

impl View for Plan {
    type V = PlanModel;

    closed spec fn view(&self) -> PlanModel {
        PlanModel {
            directory: self.directory@,
            profiles: arg_views(self.profiles@),
            block: self.block@,
        }
    }
}

pub open spec fn unsupported_shell_error(shell: Seq<char>) -> Seq<char> {
    "automatic PATH setup supports bash, zsh, fish, sh, dash and ksh; found "@ + shell
}

/// The startup files of the shell named `shell`. `zdotdir` and `xdg` are the
/// values of `ZDOTDIR` and `XDG_CONFIG_HOME`; `logins[i]` says whether
/// `~/.bash_profile`, `~/.bash_login` and `~/.profile` exist.
pub open spec fn profiles_spec(
    shell: Seq<char>,
    home: Seq<char>,
    zdotdir: Option<Seq<char>>,
    xdg: Option<Seq<char>>,
    logins: Seq<bool>,
) -> Result<Seq<Seq<char>>, Seq<char>> {
    if shell == "zsh"@ {
        let dir = if zdotdir is Some {
            absolute_spec("ZDOTDIR"@, zdotdir)
        } else {
            Ok(home)
        };
        match dir {
            Ok(d) => Ok(seq![join_path(d, ".zprofile"@), join_path(d, ".zshrc"@)]),
            Err(e) => Err(e),
        }
    } else if shell == "bash"@ {
        let login = if logins[0] {
            ".bash_profile"@
        } else if logins[1] {
            ".bash_login"@
        } else {
            ".profile"@
        };
        Ok(seq![join_path(home, login), join_path(home, ".bashrc"@)])
    } else if shell == "sh"@ || shell == "dash"@ || shell == "ksh"@ {
        Ok(seq![join_path(home, ".profile"@)])
    } else if shell == "fish"@ {
        let config = if xdg is Some && xdg->0.len() > 0 {
            absolute_spec("XDG_CONFIG_HOME"@, xdg)
        } else {
            Ok(join_path(home, ".config"@))
        };
        match config {
            Ok(c) => Ok(seq![join_path(c, "fish/conf.d/prox.fish"@)]),
            Err(e) => Err(e),
        }
    } else {
        Err(unsupported_shell_error(shell))
    }
}

pub open spec fn bad_path_char(c: char) -> bool {
    c == '\n' || c == '\r' || c == ':'
}

/// A newline, carriage return or colon occurs (PATH cannot hold such a path).
pub open spec fn has_bad_path_char(s: Seq<char>) -> bool {
    exists|i: int| 0 <= i < s.len() && bad_path_char(#[trigger] s[i])
}

/// The whole plan. `home`, `shell`, `zdotdir` and `xdg` are the values of `HOME`,
/// `SHELL`, `ZDOTDIR` and `XDG_CONFIG_HOME` when set; `HOME` must be absolute.
/// `home_is_text` says whether `HOME` is valid Unicode, as the install path must
/// be (when it is not, `home` holds it with the invalid parts replaced).
pub open spec fn plan_spec(
    home: Option<Seq<char>>,
    home_is_text: bool,
    macos: bool,
    shell: Option<Seq<char>>,
    zdotdir: Option<Seq<char>>,
    xdg: Option<Seq<char>>,
    logins: Seq<bool>,
) -> Result<PlanModel, Seq<char>> {
    match absolute_spec("HOME"@, home) {
        Err(e) => Err(e),
        Ok(home) => plan_at(home, home_is_text, macos, shell, zdotdir, xdg, logins),
    }
}

/// The plan for the home directory `home`.
pub open spec fn plan_at(
    home: Seq<char>,
    home_is_text: bool,
    macos: bool,
    shell: Option<Seq<char>>,
    zdotdir: Option<Seq<char>>,
    xdg: Option<Seq<char>>,
    logins: Seq<bool>,
) -> Result<PlanModel, Seq<char>> {
    let directory = join_path(
        home,
        if macos {
            "Applications/prox/bin"@
        } else {
            ".local/bin"@
        },
    );
    let shell_path = match shell {
        Some(s) => s,
        None => if macos {
            "/bin/zsh"@
        } else {
            "/bin/bash"@
        },
    };
    match file_name_spec(shell_path) {
        None => Err("cannot identify your shell"@),
        Some(name) => match profiles_spec(name, home, zdotdir, xdg, logins) {
            Err(e) => Err(e),
            Ok(profiles) => if !home_is_text {
                Err("install path must be valid UTF-8"@)
            } else if has_bad_path_char(directory) {
                Err("install path cannot contain a newline or colon"@)
            } else {
                Ok(
                    PlanModel {
                        directory,
                        profiles,
                        block: path_block(directory, name == "fish"@),
                    },
                )
            },
        },
    }
}

fn is(a: &String, lit: &str) -> (r: bool)
    ensures
        r == (a@ == lit@),
{
    str_eq(a.as_str(), lit)
}

fn profiles(
    shell: &String,
    home: &str,
    zdotdir: Option<String>,
    xdg: Option<String>,
    logins: &Vec<bool>,
) -> (r: Result<Vec<String>, String>)
    requires
        logins.len() == 3,
    ensures
        match (r, profiles_spec(shell@, home@, text_opt(zdotdir), text_opt(xdg), logins@)) {
            (Ok(v), Ok(w)) => arg_views(v@) == w,
            (Err(e), Err(m)) => e@ == m,
            _ => false,
        },
{
    let mut v: Vec<String> = Vec::new();
    if is(shell, "zsh") {
        let dir = match zdotdir {
            Some(z) => absolute_env("ZDOTDIR", Some(z))?,
            None => string_of(home),
        };
        v.push(join(dir.as_str(), ".zprofile"));
        v.push(join(dir.as_str(), ".zshrc"));
    } else if is(shell, "bash") {
        let login = if logins[0] {
            ".bash_profile"
        } else if logins[1] {
            ".bash_login"
        } else {
            ".profile"
        };
        v.push(join(home, login));
        v.push(join(home, ".bashrc"));
    } else if is(shell, "sh") || is(shell, "dash") || is(shell, "ksh") {
        v.push(join(home, ".profile"));
    } else if is(shell, "fish") {
        let set = match &xdg {
            Some(x) => x.as_str().unicode_len() > 0,
            None => false,
        };
        let config = if set {
            absolute_env("XDG_CONFIG_HOME", xdg)?
        } else {
            join(home, ".config")
        };
        v.push(join(config.as_str(), "fish/conf.d/prox.fish"));
    } else {
        let mut e = string_of(
            "automatic PATH setup supports bash, zsh, fish, sh, dash and ksh; found ",
        );
        push_str(&mut e, shell.as_str());
        return Err(e);
    }
    proof {
        let w = profiles_spec(shell@, home@, text_opt(zdotdir), text_opt(xdg), logins@)->Ok_0;
        assert(arg_views(v@) =~= w);
    }
    Ok(v)
}

impl Plan {
    /// Works out the installation. `home`, `shell`, `zdotdir` and
    /// `xdg_config_home` are the values of `HOME`, `SHELL`, `ZDOTDIR` and
    /// `XDG_CONFIG_HOME` when set, `home_is_text` whether `HOME` is valid Unicode,
    /// and `logins[i]` whether `~/.bash_profile`, `~/.bash_login` and `~/.profile`
    /// exist. The caller then checks the startup files that exist with
    /// `check_profiles`.
    pub fn new(
        home: Option<String>,
        home_is_text: bool,
        macos: bool,
        shell: Option<String>,
        zdotdir: Option<String>,
        xdg_config_home: Option<String>,
        logins: &Vec<bool>,
    ) -> (r: Result<Plan, String>)
        requires
            logins.len() == 3,
        ensures
            match (
                r,
                plan_spec(
                    text_opt(home),
                    home_is_text,
                    macos,
                    text_opt(shell),
                    text_opt(zdotdir),
                    text_opt(xdg_config_home),
                    logins@,
                ),
            ) {
                (Ok(p), Ok(m)) => p@ == m,
                (Err(e), Err(m)) => e@ == m,
                _ => false,
            },
    {
        let home = absolute_env("HOME", home)?;
        let home = home.as_str();
        let directory = join(
            home,
            if macos {
                "Applications/prox/bin"
            } else {
                ".local/bin"
            },
        );
        let shell_path = match shell {
            Some(s) => s,
            None => string_of(
                if macos {
                    "/bin/zsh"
                } else {
                    "/bin/bash"
                },
            ),
        };
        let name = match file_name(shell_path.as_str()) {
            None => {
                return Err(string_of("cannot identify your shell"));
            },
            Some(n) => n,
        };
        let fish = is(&name, "fish");
        let profiles = profiles(&name, home, zdotdir, xdg_config_home, logins)?;
        if !home_is_text {
            return Err(string_of("install path must be valid UTF-8"));
        }
        let d = chars_of(directory.as_str());
        let mut i: usize = 0;
        #[verifier::loop_isolation(false)]
        while i < d.len()
            invariant
                i <= d.len(),
                d@ == directory@,
                forall|j: int| 0 <= j < i ==> !bad_path_char(#[trigger] d@[j]),
            decreases d.len() - i,
        {
            if d[i] == '\n' || d[i] == '\r' || d[i] == ':' {
                proof {
                    assert(bad_path_char(directory@[i as int]));

                }
                return Err(string_of("install path cannot contain a newline or colon"));
            }
            i = i + 1;
        }
        let block = make_block(directory.as_str(), fish);
        Ok(Plan { directory, profiles, block })
    }

    /// Where the executable goes.
    pub fn directory(&self) -> (r: &str)
        ensures
            r@ == self@.directory,
    {
        self.directory.as_str()
    }

    /// The startup files to edit, in order.
    pub fn profiles(&self) -> (r: &Vec<String>)
        ensures
            arg_views(r@) == self@.profiles,
    {
        &self.profiles
    }

    /// The block each startup file must hold.
    pub fn block(&self) -> (r: &str)
        ensures
            r@ == self@.block,
    {
        self.block.as_str()
    }
}

} // verus!

verus! {

/// Law: for bash, the login file edited is the first of `~/.bash_profile`,
/// `~/.bash_login` and `~/.profile` that exists (`~/.profile` when none does),
/// followed by `~/.bashrc`.
pub proof fn law_bash_login_file(
    home: Seq<char>,
    zdotdir: Option<Seq<char>>,
    xdg: Option<Seq<char>>,
    logins: Seq<bool>,
)
    requires
        logins.len() == 3,
    ensures
        logins[0] ==> profiles_spec("bash"@, home, zdotdir, xdg, logins) == Ok::<
            Seq<Seq<char>>,
            Seq<char>,
        >(seq![join_path(home, ".bash_profile"@), join_path(home, ".bashrc"@)]),
        !logins[0] && logins[1] ==> profiles_spec("bash"@, home, zdotdir, xdg, logins) == Ok::<
            Seq<Seq<char>>,
            Seq<char>,
        >(seq![join_path(home, ".bash_login"@), join_path(home, ".bashrc"@)]),
        !logins[0] && !logins[1] ==> profiles_spec("bash"@, home, zdotdir, xdg, logins) == Ok::<
            Seq<Seq<char>>,
            Seq<char>,
        >(seq![join_path(home, ".profile"@), join_path(home, ".bashrc"@)]),
{
    reveal_strlit("bash");
    reveal_strlit("zsh");
    assert("bash"@.len() == 4 && "zsh"@.len() == 3);
}

} // verus!
