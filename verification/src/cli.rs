//! Command-line grammar: environment names, hosts, port lists and commands.
use vstd::prelude::*;
use crate::environments::{law_parsed_ports_valid, valid_ports};
use crate::text::{decimal, find_char, first_pos, parse_u16, parse_u16_range, push_decimal, push_range, push_str, split_on, trim, trim_bounds, alphanumeric, chars_of, control, is_alphanumeric, is_control, is_white_space, str_eq, string_of, white_space};

verus! {

/// The text of `prox --help`.
pub const HELP: &'static str = "prox — TCP forwarding to your dev machine

Usage:
  prox                       Pick a saved environment interactively
  prox -p 3000,12345,25565 [-d] [--host HOST]
  prox -p 3000:8080,25565
  prox status
  prox stop
  prox install
  prox -e NAME [-d]
  prox env [list]
  prox env add NAME
  prox env remove NAME
  prox env NAME host set HOST
  prox env NAME ports set LIST
  prox env NAME host clear
  prox env NAME ports clear
  prox env NAME get

Options:
  -p, --ports LIST   Comma-separated LOCAL[:REMOTE] ports
  -d, --daemon       Keep running after the terminal closes
  -e, --env NAME     Use a saved environment
      --host HOST    Destination IP or hostname (overrides saved host and PROX_HOST)
  -h, --help         Show help
  -V, --version      Show version

Listeners bind to 127.0.0.1. Foreground mode stops on Ctrl+C.
3000:8080 means localhost:3000 → destination:8080. TCP only.";

/// One forwarded port: `127.0.0.1:local` goes to `host:remote`.
#[derive(Debug, Clone, Copy, PartialEq, Eq, Structural)]
pub struct Port {
    pub local: u16,
    pub remote: u16,
}

pub open spec fn name_error() -> Seq<char> {
    "environment names must start with a letter or number, use only letters, numbers, _ or -, and be at most 64 characters; add/remove/list/help are reserved"@
}

pub open spec fn host_error() -> Seq<char> {
    "host must be an IP address or hostname, without a URL or whitespace"@
}

pub open spec fn is_name_char(c: char) -> bool {
    is_alphanumeric(c) || c == '_' || c == '-'
}

/// A valid environment name: 1 to 64 letters, digits, `_` or `-`, starting with a
/// letter or digit, and none of the reserved words.
pub open spec fn is_environment_name(s: Seq<char>) -> bool {
    &&& 1 <= s.len() <= 64
    &&& is_alphanumeric(s[0])
    &&& forall|i: int| 0 <= i < s.len() ==> is_name_char(#[trigger] s[i])
    &&& s != "add"@
    &&& s != "remove"@
    &&& s != "list"@
    &&& s != "help"@
}

pub open spec fn is_host_char(c: char) -> bool {
    !is_white_space(c) && !is_control(c) && c != '/' && c != '\\'
}

/// A valid destination: not empty, and no white space, control character or slash.
pub open spec fn is_host(s: Seq<char>) -> bool {
    s.len() > 0 && forall|i: int| 0 <= i < s.len() ==> is_host_char(#[trigger] s[i])
}

/// `r` is `Ok(())` exactly when `ok`, and otherwise the error `message`.
pub open spec fn checked(r: Result<(), String>, ok: bool, message: Seq<char>) -> bool {
    match r {
        Ok(()) => ok,
        Err(e) => !ok && e@ == message,
    }
}

pub fn environment_name(name: &str) -> (r: Result<(), String>)
    ensures
        checked(r, is_environment_name(name@), name_error()),
{
    let v = chars_of(name);
    let n = v.len();
    let mut ok = 1 <= n && n <= 64 && alphanumeric(v[0]);
    let mut i: usize = 0;
    while ok && i < n
        invariant
            n == v.len(),
            v@ == name@,
            i <= n,
            ok ==> (1 <= n <= 64 && is_alphanumeric(v@[0])),
            ok ==> forall|j: int| 0 <= j < i ==> is_name_char(#[trigger] v@[j]),
            !ok ==> !is_environment_name(name@),
        decreases n - i,
    {
        let c = v[i];
        if !(alphanumeric(c) || c == '_' || c == '-') {
            ok = false;
        }
        i = i + 1;
    }
    if ok && (str_eq(name, "add") || str_eq(name, "remove") || str_eq(name, "list") || str_eq(
        name,
        "help",
    )) {
        ok = false;
    }
    if ok {
        Ok(())
    } else {
        Err(string_of(
            "environment names must start with a letter or number, use only letters, numbers, _ or -, and be at most 64 characters; add/remove/list/help are reserved",
        ))
    }
}

pub fn validate_host(host: &str) -> (r: Result<(), String>)
    ensures
        checked(r, is_host(host@), host_error()),
{
    let v = chars_of(host);
    let n = v.len();
    let mut ok = n > 0;
    let mut i: usize = 0;
    while ok && i < n
        invariant
            n == v.len(),
            v@ == host@,
            i <= n,
            ok ==> n > 0,
            ok ==> forall|j: int| 0 <= j < i ==> is_host_char(#[trigger] v@[j]),
            !ok ==> !is_host(host@),
        decreases n - i,
    {
        let c = v[i];
        if white_space(c) || control(c) || c == '/' || c == '\\' {
            ok = false;
        }
        i = i + 1;
    }
    if ok {
        Ok(())
    } else {
        Err(string_of("host must be an IP address or hostname, without a URL or whitespace"))
    }
}

} // verus!

verus! {

pub open spec fn port_error(entry: Seq<char>) -> Seq<char> {
    "invalid port in '"@ + entry + "': use 1–65535"@
}

pub open spec fn duplicate_error(local: u16) -> Seq<char> {
    "local port "@ + decimal(local as nat) + " appears more than once"@
}

/// A port number: white space around it is ignored, and it must be 1..=65535.
pub open spec fn port_number(s: Seq<char>) -> Option<u16> {
    let n = parse_u16(trim(s));
    if n is Some && n->0 > 0 {
        n
    } else {
        None
    }
}

/// One entry of a port list: `PORT` (same port on both sides) or `LOCAL:REMOTE`,
/// split at the first colon.
pub open spec fn entry_port(entry: Seq<char>) -> Result<Port, Seq<char>> {
    let p = first_pos(entry, ':');
    let local = if p < entry.len() {
        entry.take(p as int)
    } else {
        entry
    };
    let remote = if p < entry.len() {
        entry.skip(p + 1 as int)
    } else {
        entry
    };
    if port_number(local) is Some && port_number(remote) is Some {
        Ok(Port { local: port_number(local)->0, remote: port_number(remote)->0 })
    } else {
        Err(port_error(entry))
    }
}

/// The entries in order; the first bad entry, or the first local port seen twice,
/// is the error.
pub open spec fn parse_entries(entries: Seq<Seq<char>>, seen: Set<u16>) -> Result<
    Seq<Port>,
    Seq<char>,
>
    decreases entries.len(),
{
    if entries.len() == 0 {
        Ok(seq![])
    } else {
        match entry_port(entries[0]) {
            Err(e) => Err(e),
            Ok(port) => if seen.contains(port.local) {
                Err(duplicate_error(port.local))
            } else {
                match parse_entries(entries.drop_first(), seen.insert(port.local)) {
                    Ok(rest) => Ok(seq![port] + rest),
                    Err(e) => Err(e),
                }
            },
        }
    }
}

/// A comma-separated list of `LOCAL[:REMOTE]` entries.
pub open spec fn parse_ports(value: Seq<char>) -> Result<Seq<Port>, Seq<char>> {
    parse_entries(split_on(value, ','), Set::empty())
}

pub open spec fn prepend(done: Seq<Port>, r: Result<Seq<Port>, Seq<char>>) -> Result<
    Seq<Port>,
    Seq<char>,
> {
    match r {
        Ok(rest) => Ok(done + rest),
        Err(e) => Err(e),
    }
}

/// The executable result `r` is the model result `m`.
pub open spec fn same_ports(r: Result<Vec<Port>, String>, m: Result<Seq<Port>, Seq<char>>) -> bool {
    match (r, m) {
        (Ok(v), Ok(s)) => v@ == s,
        (Err(e), Err(s)) => e@ == s,
        _ => false,
    }
}

fn port_number_range(v: &Vec<char>, lo: usize, hi: usize) -> (r: Option<u16>)
    requires
        lo <= hi <= v.len(),
    ensures
        r == port_number(v@.subrange(lo as int, hi as int)),
{
    let (a, b) = trim_bounds(v, lo, hi);
    match parse_u16_range(v, a, b) {
        Some(n) => if n > 0 {
            Some(n)
        } else {
            None
        },
        None => None,
    }
}

fn entry_port_range(v: &Vec<char>, lo: usize, hi: usize) -> (r: Result<Port, String>)
    requires
        lo <= hi <= v.len(),
    ensures
        match (r, entry_port(v@.subrange(lo as int, hi as int))) {
            (Ok(p), Ok(q)) => p == q,
            (Err(e), Err(m)) => e@ == m,
            _ => false,
        },
{
    let ghost entry = v@.subrange(lo as int, hi as int);
    let c = find_char(v, lo, hi, ':');
    let (local, remote) = if c < hi {
        proof {
            assert(entry.take(c - lo) =~= v@.subrange(lo as int, c as int));
            assert(entry.skip(c - lo + 1) =~= v@.subrange(c + 1, hi as int));
        }
        (port_number_range(v, lo, c), port_number_range(v, c + 1, hi))
    } else {
        (port_number_range(v, lo, hi), port_number_range(v, lo, hi))
    };
    match (local, remote) {
        (Some(l), Some(r)) => Ok(Port { local: l, remote: r }),
        _ => {
            let mut e = string_of("invalid port in '");
            push_range(&mut e, v, lo, hi);
            push_str(&mut e, "': use 1–65535");
            Err(e)
        },
    }
}

fn has_local(ports: &Vec<Port>, local: u16) -> (r: bool)
    ensures
        r == exists|i: int| 0 <= i < ports.len() && (#[trigger] ports@[i]).local == local,
{
    let mut i: usize = 0;
    while i < ports.len()
        invariant
            i <= ports.len(),
            forall|j: int| 0 <= j < i ==> (#[trigger] ports@[j]).local != local,
        decreases ports.len() - i,
    {
        if ports[i].local == local {
            return true;
        }
        i = i + 1;
    }
    false
}

/// Parses `LOCAL[:REMOTE],...`.
pub fn ports(value: &str) -> (r: Result<Vec<Port>, String>)
    ensures
        same_ports(r, parse_ports(value@)),
{
    let v = chars_of(value);
    let n = v.len();
    let mut done: Vec<Port> = Vec::new();
    let mut pos: usize = 0;
    let ghost mut seen: Set<u16> = Set::empty();
    assert(v@.skip(0) =~= v@);
    loop
        invariant
            n == v.len(),
            v@ == value@,
            pos <= n,
            forall|l: u16|
                seen.contains(l) <==> exists|i: int|
                    0 <= i < done.len() && (#[trigger] done@[i]).local == l,
            parse_ports(value@) == prepend(
                done@,
                parse_entries(split_on(v@.skip(pos as int), ','), seen),
            ),
        decreases n - pos,
    {
        let end = find_char(&v, pos, n, ',');
        let ghost rest = v@.skip(pos as int);
        proof {
            assert(v@.subrange(pos as int, n as int) =~= rest);
            assert(rest.take(end - pos) =~= v@.subrange(pos as int, end as int));
            if end < n {
                assert(rest.skip(end - pos + 1) =~= v@.skip(end + 1));
            }
        }
        let ghost entries = split_on(rest, ',');
        let ghost tail_entries = if end < n {
            split_on(v@.skip(end + 1), ',')
        } else {
            Seq::<Seq<char>>::empty()
        };
        proof {
            if end < n {
                assert(entries == seq![rest.take(end - pos)] + split_on(
                    rest.skip(end - pos + 1),
                    ',',
                ));
                assert(entries.drop_first() =~= tail_entries);
            } else {
                assert(entries == seq![rest]);
                assert(entries.drop_first() =~= tail_entries);
            }
        }
        assert(entries[0] == v@.subrange(pos as int, end as int));
        match entry_port_range(&v, pos, end) {
            Err(e) => {
                return Err(e);
            },
            Ok(port) => {
                if has_local(&done, port.local) {
                    assert(seen.contains(port.local));
                    let mut e = string_of("local port ");
                    push_decimal(&mut e, port.local as u64);
                    push_str(&mut e, " appears more than once");
                    return Err(e);
                }
                proof {
                    assert(!seen.contains(port.local));
                }
                let ghost before = done@;
                let ghost seen0 = seen;
                done.push(port);
                proof {
                    let next = parse_entries(tail_entries, seen0.insert(port.local));
                    assert(parse_entries(entries, seen0) == match next {
                        Ok(rest) => Ok(seq![port] + rest),
                        Err(e) => Err(e),
                    });
                    assert(before + seq![port] =~= done@);
                    match next {
                        Ok(tail) => {
                            assert(before + (seq![port] + tail) =~= done@ + tail);
                        },
                        Err(_) => {},
                    }
                    seen = seen0.insert(port.local);
                    assert(done@[done.len() - 1] == port);
                    assert forall|l: u16|
                        seen.contains(l) <==> exists|i: int|
                            0 <= i < done.len() && (#[trigger] done@[i]).local == l by {
                        if l == port.local {
                            assert(done@[done.len() - 1].local == l);
                        } else {
                            if seen0.contains(l) {
                                let i = choose|i: int|
                                    0 <= i < before.len() && (#[trigger] before[i]).local == l;
                                assert(done@[i] == before[i]);
                            }
                            if exists|i: int| 0 <= i < done.len() && (#[trigger] done@[i]).local == l {
                                let i = choose|i: int|
                                    0 <= i < done.len() && (#[trigger] done@[i]).local == l;
                                assert(i < before.len());
                                assert(before[i] == done@[i]);
                            }
                        }
                    }
                }
                if end == n {
                    proof {
                        assert(done@ + seq![] =~= done@);
                    }
                    return Ok(done);
                }
                pos = end + 1;
            },
        }
    }
}

} // verus!

verus! {

/// A subcommand of `prox env`.
#[derive(Debug)]
pub enum EnvCommand {
    List,
    Add(String),
    Remove(String),
    Get(String),
    Host(String, Option<String>),
    Ports(String, Option<Vec<Port>>),
}

/// What `prox` was asked to do.
#[derive(Debug)]
pub enum Command {
    Run {
        ports: Option<Vec<Port>>,
        host: Option<String>,
        environment: Option<String>,
        daemon: bool,
        worker: bool,
    },
    Status,
    Stop,
    Install,
    Env(EnvCommand),
    Interactive,
    Help,
    Version,
}

/// The model of an [`EnvCommand`].
pub enum EnvRequest {
    List,
    Add(Seq<char>),
    Remove(Seq<char>),
    Get(Seq<char>),
    Host(Seq<char>, Option<Seq<char>>),
    Ports(Seq<char>, Option<Seq<Port>>),
}

/// The model of a [`Command`].
pub enum Request {
    Run {
        ports: Option<Seq<Port>>,
        host: Option<Seq<char>>,
        environment: Option<Seq<char>>,
        daemon: bool,
        worker: bool,
    },
    Status,
    Stop,
    Install,
    Env(EnvRequest),
    Interactive,
    Help,
    Version,
}

pub open spec fn text_view(o: Option<String>) -> Option<Seq<char>> {
    match o {
        Some(s) => Some(s@),
        None => None,
    }
}

pub open spec fn ports_view(o: Option<Vec<Port>>) -> Option<Seq<Port>> {
    match o {
        Some(v) => Some(v@),
        None => None,
    }
}

/// The characters of each argument.
pub open spec fn arg_views(args: Seq<String>) -> Seq<Seq<char>> {
    args.map_values(|a: String| a@)
}

impl View for EnvCommand {
    type V = EnvRequest;

    open spec fn view(&self) -> EnvRequest {
        match self {
            EnvCommand::List => EnvRequest::List,
            EnvCommand::Add(n) => EnvRequest::Add(n@),
            EnvCommand::Remove(n) => EnvRequest::Remove(n@),
            EnvCommand::Get(n) => EnvRequest::Get(n@),
            EnvCommand::Host(n, h) => EnvRequest::Host(n@, text_view(*h)),
            EnvCommand::Ports(n, p) => EnvRequest::Ports(n@, ports_view(*p)),
        }
    }
}

impl View for Command {
    type V = Request;

    open spec fn view(&self) -> Request {
        match self {
            Command::Run { ports, host, environment, daemon, worker } => Request::Run {
                ports: ports_view(*ports),
                host: text_view(*host),
                environment: text_view(*environment),
                daemon: *daemon,
                worker: *worker,
            },
            Command::Status => Request::Status,
            Command::Stop => Request::Stop,
            Command::Install => Request::Install,
            Command::Env(e) => Request::Env(e@),
            Command::Interactive => Request::Interactive,
            Command::Help => Request::Help,
            Command::Version => Request::Version,
        }
    }
}

pub open spec fn invalid_env_error() -> Seq<char> {
    "invalid env command; see prox --help"@
}

/// `prox env ARGS`: the subcommand and the environment name it must check.
pub open spec fn env_shape(a: Seq<Seq<char>>) -> Result<(Seq<char>, EnvRequest), Seq<char>> {
    if a.len() == 2 && a[0] == "add"@ {
        Ok((a[1], EnvRequest::Add(a[1])))
    } else if a.len() == 2 && a[0] == "remove"@ {
        Ok((a[1], EnvRequest::Remove(a[1])))
    } else if a.len() == 2 && a[1] == "get"@ {
        Ok((a[0], EnvRequest::Get(a[0])))
    } else if a.len() == 4 && a[1] == "host"@ && a[2] == "set"@ {
        if is_host(a[3]) {
            Ok((a[0], EnvRequest::Host(a[0], Some(a[3]))))
        } else {
            Err(host_error())
        }
    } else if a.len() == 4 && a[1] == "ports"@ && a[2] == "set"@ {
        match parse_ports(a[3]) {
            Ok(p) => Ok((a[0], EnvRequest::Ports(a[0], Some(p)))),
            Err(e) => Err(e),
        }
    } else if a.len() == 3 && a[1] == "host"@ && a[2] == "clear"@ {
        Ok((a[0], EnvRequest::Host(a[0], None)))
    } else if a.len() == 3 && a[1] == "ports"@ && a[2] == "clear"@ {
        Ok((a[0], EnvRequest::Ports(a[0], None)))
    } else {
        Err(invalid_env_error())
    }
}

pub open spec fn parse_env_spec(a: Seq<Seq<char>>) -> Result<EnvRequest, Seq<char>> {
    if a.len() == 0 || (a.len() == 1 && a[0] == "list"@) {
        Ok(EnvRequest::List)
    } else {
        match env_shape(a) {
            Err(e) => Err(e),
            Ok((name, request)) => if is_environment_name(name) {
                Ok(request)
            } else {
                Err(name_error())
            },
        }
    }
}

/// The executable result `r` is the model result `m`.
pub open spec fn same_env(r: Result<EnvCommand, String>, m: Result<EnvRequest, Seq<char>>) -> bool {
    match (r, m) {
        (Ok(c), Ok(x)) => c@ == x,
        (Err(e), Err(s)) => e@ == s,
        _ => false,
    }
}

fn is(a: &String, lit: &str) -> (r: bool)
    ensures
        r == (a@ == lit@),
{
    str_eq(a.as_str(), lit)
}

/// Parses the arguments after `prox env`.
pub fn parse_env(args: &Vec<String>) -> (r: Result<EnvCommand, String>)
    ensures
        same_env(r, parse_env_spec(arg_views(args@))),
{
    let ghost a = arg_views(args@);
    let n = args.len();
    assert(a.len() == n);
    assert(forall|i: int| 0 <= i < n ==> a[i] == (#[trigger] args@[i])@);
    if n == 0 || (n == 1 && is(&args[0], "list")) {
        return Ok(EnvCommand::List);
    }
    let (name, command) = if n == 2 && is(&args[0], "add") {
        (args[1].clone(), EnvCommand::Add(args[1].clone()))
    } else if n == 2 && is(&args[0], "remove") {
        (args[1].clone(), EnvCommand::Remove(args[1].clone()))
    } else if n == 2 && is(&args[1], "get") {
        (args[0].clone(), EnvCommand::Get(args[0].clone()))
    } else if n == 4 && is(&args[1], "host") && is(&args[2], "set") {
        match validate_host(args[3].as_str()) {
            Err(e) => {
                return Err(e);
            },
            Ok(()) => {},
        }
        (args[0].clone(), EnvCommand::Host(args[0].clone(), Some(args[3].clone())))
    } else if n == 4 && is(&args[1], "ports") && is(&args[2], "set") {
        let p = match ports(args[3].as_str()) {
            Err(e) => {
                return Err(e);
            },
            Ok(p) => p,
        };
        (args[0].clone(), EnvCommand::Ports(args[0].clone(), Some(p)))
    } else if n == 3 && is(&args[1], "host") && is(&args[2], "clear") {
        (args[0].clone(), EnvCommand::Host(args[0].clone(), None))
    } else if n == 3 && is(&args[1], "ports") && is(&args[2], "clear") {
        (args[0].clone(), EnvCommand::Ports(args[0].clone(), None))
    } else {
        return Err(string_of("invalid env command; see prox --help"));
    };
    assert(env_shape(a) matches Ok((m, x)) && m == name@ && x == command@);
    match environment_name(name.as_str()) {
        Err(e) => Err(e),
        Ok(()) => Ok(command),
    }
}

} // verus!

verus! {

/// The options gathered while reading `prox [OPTIONS]`.
pub struct RunFlags {
    pub ports: Option<Seq<Port>>,
    pub host: Option<Seq<char>>,
    pub environment: Option<Seq<char>>,
    pub daemon: bool,
    pub worker: bool,
}

pub open spec fn no_flags() -> RunFlags {
    RunFlags { ports: None, host: None, environment: None, daemon: false, worker: false }
}

pub open spec fn unknown_argument_error(arg: Seq<char>) -> Seq<char> {
    "unknown argument '"@ + arg + "'; see prox --help"@
}

/// Reads options left to right; the first problem is the error.
pub open spec fn parse_flags(a: Seq<Seq<char>>, st: RunFlags) -> Result<RunFlags, Seq<char>>
    decreases a.len(),
{
    if a.len() == 0 {
        Ok(st)
    } else {
        let arg = a[0];
        let rest = a.drop_first();
        if arg == "-p"@ || arg == "--ports"@ {
            if st.ports is Some {
                Err("specify --ports only once"@)
            } else if rest.len() == 0 {
                Err("--ports needs a value"@)
            } else {
                match parse_ports(rest[0]) {
                    Err(e) => Err(e),
                    Ok(p) => parse_flags(rest.drop_first(), RunFlags { ports: Some(p), ..st }),
                }
            }
        } else if arg == "--host"@ {
            if rest.len() == 0 {
                Err("--host needs a value"@)
            } else {
                parse_flags(rest.drop_first(), RunFlags { host: Some(rest[0]), ..st })
            }
        } else if arg == "-e"@ || arg == "--env"@ {
            if st.environment is Some {
                Err("specify --env only once"@)
            } else if rest.len() == 0 {
                Err("--env needs a name"@)
            } else if !is_environment_name(rest[0]) {
                Err(name_error())
            } else {
                parse_flags(rest.drop_first(), RunFlags { environment: Some(rest[0]), ..st })
            }
        } else if arg == "-d"@ || arg == "--daemon"@ || arg == "--detach"@ {
            parse_flags(rest, RunFlags { daemon: true, ..st })
        } else if arg == "--worker"@ {
            parse_flags(rest, RunFlags { worker: true, ..st })
        } else {
            Err(unknown_argument_error(arg))
        }
    }
}

/// The command line (without the program name).
pub open spec fn parse_spec(a: Seq<Seq<char>>) -> Result<Request, Seq<char>> {
    if a.len() > 0 && a[0] == "env"@ {
        match parse_env_spec(a.drop_first()) {
            Ok(e) => Ok(Request::Env(e)),
            Err(e) => Err(e),
        }
    } else if a.len() == 0 {
        Ok(Request::Interactive)
    } else if a.len() == 1 && a[0] == "status"@ {
        Ok(Request::Status)
    } else if a.len() == 1 && a[0] == "stop"@ {
        Ok(Request::Stop)
    } else if a.len() == 1 && a[0] == "install"@ {
        Ok(Request::Install)
    } else if a.len() == 1 && (a[0] == "-h"@ || a[0] == "--help"@) {
        Ok(Request::Help)
    } else if a.len() == 1 && (a[0] == "-V"@ || a[0] == "--version"@) {
        Ok(Request::Version)
    } else {
        run_request(parse_flags(a, no_flags()))
    }
}

/// A `Run` request from the options read, once the host is checked.
pub open spec fn run_request(r: Result<RunFlags, Seq<char>>) -> Result<Request, Seq<char>> {
    match r {
        Err(e) => Err(e),
        Ok(f) => if f.host is Some && !is_host(f.host->0) {
            Err(host_error())
        } else {
            Ok(
                Request::Run {
                    ports: f.ports,
                    host: f.host,
                    environment: f.environment,
                    daemon: f.daemon,
                    worker: f.worker,
                },
            )
        },
    }
}

/// The executable result `r` is the model result `m`.
pub open spec fn same_command(r: Result<Command, String>, m: Result<Request, Seq<char>>) -> bool {
    match (r, m) {
        (Ok(c), Ok(x)) => c@ == x,
        (Err(e), Err(s)) => e@ == s,
        _ => false,
    }
}

proof fn lemma_skip_step(a: Seq<Seq<char>>, i: int)
    requires
        0 <= i < a.len(),
    ensures
        a.skip(i)[0] == a[i],
        a.skip(i).drop_first() == a.skip(i + 1),
        a.skip(i).len() == a.len() - i,
{
    assert(a.skip(i).drop_first() =~= a.skip(i + 1));
}

/// Parses the command line (without the program name).
pub fn parse(args: Vec<String>) -> (r: Result<Command, String>)
    ensures
        same_command(r, parse_spec(arg_views(args@))),
{
    let ghost a = arg_views(args@);
    let n = args.len();
    assert(a.len() == n);
    assert(forall|i: int| 0 <= i < n ==> a[i] == (#[trigger] args@[i])@);
    if n > 0 && is(&args[0], "env") {
        let mut rest: Vec<String> = Vec::new();
        let mut i: usize = 1;
        while i < n
            invariant
                1 <= i <= n,
                n == args.len(),
                a == arg_views(args@),
                a.len() == n,
                forall|j: int| 0 <= j < n ==> a[j] == (#[trigger] args@[j])@,
                arg_views(rest@) == a.subrange(1, i as int),
            decreases n - i,
        {
            let ghost before = rest@;
            rest.push(args[i].clone());
            proof {
                assert(arg_views(rest@) =~= arg_views(before).push(args@[i as int]@));
                assert(a.subrange(1, i + 1) =~= a.subrange(1, i as int).push(a[i as int]));
            }
            i = i + 1;
        }
        assert(a.subrange(1, n as int) =~= a.drop_first());
        return match parse_env(&rest) {
            Ok(e) => Ok(Command::Env(e)),
            Err(e) => Err(e),
        };
    }
    if n == 0 {
        return Ok(Command::Interactive);
    }
    if n == 1 && is(&args[0], "status") {
        return Ok(Command::Status);
    }
    if n == 1 && is(&args[0], "stop") {
        return Ok(Command::Stop);
    }
    if n == 1 && is(&args[0], "install") {
        return Ok(Command::Install);
    }
    if n == 1 && (is(&args[0], "-h") || is(&args[0], "--help")) {
        return Ok(Command::Help);
    }
    if n == 1 && (is(&args[0], "-V") || is(&args[0], "--version")) {
        return Ok(Command::Version);
    }
    let mut mappings: Option<Vec<Port>> = None;
    let mut host: Option<String> = None;
    let mut environment: Option<String> = None;
    let mut daemon = false;
    let mut worker = false;
    let mut i: usize = 0;
    assert(a.skip(0) =~= a);
    assert(parse_spec(a) == run_request(parse_flags(a, no_flags())));
    while i < n
        invariant
            i <= n,
            parse_spec(a) == run_request(parse_flags(a, no_flags())),
            n == args.len(),
            a == arg_views(args@),
            a.len() == n,
            forall|j: int| 0 <= j < n ==> a[j] == (#[trigger] args@[j])@,
            parse_flags(a, no_flags()) == parse_flags(
                a.skip(i as int),
                RunFlags {
                    ports: ports_view(mappings),
                    host: text_view(host),
                    environment: text_view(environment),
                    daemon,
                    worker,
                },
            ),
        decreases n - i,
    {
        proof {
            lemma_skip_step(a, i as int);
            if i + 1 < n {
                lemma_skip_step(a, i + 1);
            }
        }
        let arg = &args[i];
        if is(arg, "-p") || is(arg, "--ports") {
            if mappings.is_some() {
                return Err(string_of("specify --ports only once"));
            }
            if i + 1 >= n {
                return Err(string_of("--ports needs a value"));
            }
            match ports(args[i + 1].as_str()) {
                Err(e) => {
                    return Err(e);
                },
                Ok(p) => {
                    mappings = Some(p);
                },
            }
            i = i + 2;
        } else if is(arg, "--host") {
            if i + 1 >= n {
                return Err(string_of("--host needs a value"));
            }
            host = Some(args[i + 1].clone());
            i = i + 2;
        } else if is(arg, "-e") || is(arg, "--env") {
            if environment.is_some() {
                return Err(string_of("specify --env only once"));
            }
            if i + 1 >= n {
                return Err(string_of("--env needs a name"));
            }
            let name = args[i + 1].clone();
            match environment_name(name.as_str()) {
                Err(e) => {
                    return Err(e);
                },
                Ok(()) => {},
            }
            environment = Some(name);
            i = i + 2;
        } else if is(arg, "-d") || is(arg, "--daemon") || is(arg, "--detach") {
            daemon = true;
            i = i + 1;
        } else if is(arg, "--worker") {
            worker = true;
            i = i + 1;
        } else {
            let mut e = string_of("unknown argument '");
            push_str(&mut e, arg.as_str());
            push_str(&mut e, "'; see prox --help");
            return Err(e);
        }
    }
    assert(a.skip(n as int).len() == 0);
    match &host {
        Some(h) => match validate_host(h.as_str()) {
            Err(e) => {
                return Err(e);
            },
            Ok(()) => {},
        },
        None => {},
    }
    Ok(Command::Run { ports: mappings, host, environment, daemon, worker })
}

} // verus!

verus! {

/// Options that take the next argument as their value.
pub open spec fn takes_value(w: Seq<char>) -> bool {
    w == "-p"@ || w == "--ports"@ || w == "--host"@ || w == "-e"@ || w == "--env"@
}

/// The arguments after the option `a[0]` and its value, if it takes one.
pub open spec fn after_option(a: Seq<Seq<char>>) -> Seq<Seq<char>>
    recommends
        a.len() > 0,
{
    if takes_value(a[0]) && a.len() >= 2 {
        a.skip(2)
    } else {
        a.drop_first()
    }
}

/// The option `w` is given: it stands where an option stands, not as the value
/// of another.
pub open spec fn has_option(a: Seq<Seq<char>>, w: Seq<char>) -> bool
    decreases a.len(),
{
    if a.len() == 0 {
        false
    } else {
        a[0] == w || has_option(after_option(a), w)
    }
}

/// The value of the last option `w1` or `w2`, when one is given with a value.
pub open spec fn option_value(a: Seq<Seq<char>>, w1: Seq<char>, w2: Seq<char>) -> Option<
    Seq<char>,
>
    decreases a.len(),
{
    if a.len() == 0 {
        None
    } else {
        let later = option_value(after_option(a), w1, w2);
        if later is Some {
            later
        } else if (a[0] == w1 || a[0] == w2) && a.len() >= 2 {
            Some(a[1])
        } else {
            None
        }
    }
}

proof fn lemma_option_words()
    ensures
        "-p"@ != "--ports"@,
        "-p"@ != "--host"@,
        "-p"@ != "-e"@,
        "-p"@ != "--env"@,
        "-p"@ != "-d"@,
        "-p"@ != "--daemon"@,
        "-p"@ != "--detach"@,
        "-p"@ != "--worker"@,
        "--ports"@ != "--host"@,
        "--ports"@ != "-e"@,
        "--ports"@ != "--env"@,
        "--ports"@ != "-d"@,
        "--ports"@ != "--daemon"@,
        "--ports"@ != "--detach"@,
        "--ports"@ != "--worker"@,
        "--host"@ != "-e"@,
        "--host"@ != "--env"@,
        "--host"@ != "-d"@,
        "--host"@ != "--daemon"@,
        "--host"@ != "--detach"@,
        "--host"@ != "--worker"@,
        "-e"@ != "--env"@,
        "-e"@ != "-d"@,
        "-e"@ != "--daemon"@,
        "-e"@ != "--detach"@,
        "-e"@ != "--worker"@,
        "--env"@ != "-d"@,
        "--env"@ != "--daemon"@,
        "--env"@ != "--detach"@,
        "--env"@ != "--worker"@,
        "-d"@ != "--daemon"@,
        "-d"@ != "--detach"@,
        "-d"@ != "--worker"@,
        "--daemon"@ != "--detach"@,
        "--daemon"@ != "--worker"@,
        "--detach"@ != "--worker"@,
{
    reveal_strlit("-p");
    reveal_strlit("--ports");
    reveal_strlit("--host");
    reveal_strlit("-e");
    reveal_strlit("--env");
    reveal_strlit("-d");
    reveal_strlit("--daemon");
    reveal_strlit("--detach");
    reveal_strlit("--worker");
    assert("-p"@.len() == 2 && "-p"@[1] == 'p');
    assert("-e"@.len() == 2 && "-e"@[1] == 'e');
    assert("-d"@.len() == 2 && "-d"@[1] == 'd');
    assert("--ports"@.len() == 7);
    assert("--host"@.len() == 6);
    assert("--env"@.len() == 5);
    assert("--daemon"@.len() == 8 && "--daemon"@[3] == 'a');
    assert("--detach"@.len() == 8 && "--detach"@[3] == 'e');
    assert("--worker"@.len() == 8 && "--worker"@[2] == 'w' && "--daemon"@[2] == 'd'
        && "--detach"@[2] == 'd');
}

/// What the options `a` set on top of `st`, when they are read without error.
proof fn lemma_options_read(a: Seq<Seq<char>>, st: RunFlags)
    ensures
        parse_flags(a, st) matches Ok(f) ==> {
            &&& f.daemon == (st.daemon || has_option(a, "-d"@) || has_option(a, "--daemon"@)
                || has_option(a, "--detach"@))
            &&& f.worker == (st.worker || has_option(a, "--worker"@))
            &&& f.host == (if option_value(a, "--host"@, "--host"@) is Some {
                option_value(a, "--host"@, "--host"@)
            } else {
                st.host
            })
            &&& f.environment == (if option_value(a, "-e"@, "--env"@) is Some {
                option_value(a, "-e"@, "--env"@)
            } else {
                st.environment
            })
            &&& option_value(a, "-e"@, "--env"@) matches Some(n) ==> is_environment_name(n)
            &&& option_value(a, "-p"@, "--ports"@) matches Some(v) ==> parse_ports(v) matches Ok(
                p,
            ) && f.ports == Some(p)
            &&& option_value(a, "-p"@, "--ports"@) is None ==> f.ports == st.ports
        },
    decreases a.len(),
{
    if a.len() > 0 {
        lemma_option_words();
        let arg = a[0];
        let rest = a.drop_first();
        if takes_value(arg) && a.len() >= 2 {
            assert(rest.drop_first() =~= a.skip(2));
        }
        assert(after_option(a).len() < a.len());
        if arg == "-p"@ || arg == "--ports"@ {
            if !(st.ports is Some) && rest.len() > 0 {
                if let Ok(p) = parse_ports(rest[0]) {
                    lemma_options_read(a.skip(2), RunFlags { ports: Some(p), ..st });
                }
            }
        } else if arg == "--host"@ {
            if rest.len() > 0 {
                lemma_options_read(a.skip(2), RunFlags { host: Some(rest[0]), ..st });
            }
        } else if arg == "-e"@ || arg == "--env"@ {
            if !(st.environment is Some) && rest.len() > 0 && is_environment_name(rest[0]) {
                lemma_options_read(a.skip(2), RunFlags { environment: Some(rest[0]), ..st });
            }
        } else if arg == "-d"@ || arg == "--daemon"@ || arg == "--detach"@ {
            lemma_options_read(rest, RunFlags { daemon: true, ..st });
        } else if arg == "--worker"@ {
            lemma_options_read(rest, RunFlags { worker: true, ..st });
        }
    }
}

/// Law: a command line read as a run sets exactly what its options say: `-d`,
/// `--daemon` or `--detach` make it a daemon, `--worker` a worker; the host is
/// the value of the last `--host`, the environment that of `-e`/`--env`, and the
/// ports those that the value of `-p`/`--ports` lists; each value given passes
/// its check.
pub proof fn law_run_options(a: Seq<Seq<char>>)
    ensures
        parse_spec(a) matches Ok(Request::Run { ports, host, environment, daemon, worker })
            ==> {
            &&& a.len() > 0 && a[0] != "env"@
            &&& daemon == (has_option(a, "-d"@) || has_option(a, "--daemon"@) || has_option(
                a,
                "--detach"@,
            ))
            &&& worker == has_option(a, "--worker"@)
            &&& host == option_value(a, "--host"@, "--host"@)
            &&& environment == option_value(a, "-e"@, "--env"@)
            &&& (ports is Some <==> option_value(a, "-p"@, "--ports"@) is Some)
            &&& option_value(a, "-p"@, "--ports"@) matches Some(v) ==> parse_ports(v)
                == Ok::<Seq<Port>, Seq<char>>(ports->0)
            &&& host matches Some(h) ==> is_host(h)
            &&& environment matches Some(n) ==> is_environment_name(n)
            &&& ports matches Some(p) ==> p.len() > 0 && valid_ports(p)
        },
{
    lemma_options_read(a, no_flags());
    if let Some(v) = option_value(a, "-p"@, "--ports"@) {
        law_parsed_ports_valid(v);
    }
}

} // verus!

verus! {

/// Law: every daemon option is accepted: `-p LIST --host HOST W`, with `W` one of
/// `-d`, `--daemon` and `--detach`, a port list that parses and a valid host, is
/// a daemon run of exactly those ports and that host.
pub proof fn law_daemon_options_accepted(v: Seq<char>, h: Seq<char>, w: Seq<char>)
    requires
        parse_ports(v) is Ok,
        is_host(h),
        w == "-d"@ || w == "--daemon"@ || w == "--detach"@,
    ensures
        parse_spec(seq!["-p"@, v, "--host"@, h, w]) == Ok::<Request, Seq<char>>(
            Request::Run {
                ports: Some(parse_ports(v)->Ok_0),
                host: Some(h),
                environment: None,
                daemon: true,
                worker: false,
            },
        ),
{
    lemma_option_words();
    reveal_strlit("-p");
    reveal_strlit("env");
    assert("-p"@.len() == 2 && "env"@.len() == 3);
    let a = seq!["-p"@, v, "--host"@, h, w];
    let p = parse_ports(v)->Ok_0;
    let st1 = RunFlags { ports: Some(p), ..no_flags() };
    let st2 = RunFlags { host: Some(h), ..st1 };
    let st3 = RunFlags { daemon: true, ..st2 };
    let r1 = a.drop_first();
    assert(r1.drop_first() =~= seq!["--host"@, h, w]);
    let r2 = r1.drop_first();
    assert(r2.drop_first().drop_first() =~= seq![w]);
    let r3 = r2.drop_first().drop_first();
    assert(r3.drop_first() =~= Seq::<Seq<char>>::empty());
    assert(parse_flags(r3.drop_first(), st3) == Ok::<RunFlags, Seq<char>>(st3));
    assert(parse_flags(r3, st2) == Ok::<RunFlags, Seq<char>>(st3));
    assert(parse_flags(r2, st1) == Ok::<RunFlags, Seq<char>>(st3));
    assert(parse_flags(a, no_flags()) == Ok::<RunFlags, Seq<char>>(st3));
}

/// Law: `--worker` and `-e NAME` are accepted too: `-p LIST --host HOST -e NAME
/// --worker` is a worker run (not a daemon) of those ports, host and environment.
pub proof fn law_worker_and_environment_accepted(v: Seq<char>, h: Seq<char>, n: Seq<char>)
    requires
        parse_ports(v) is Ok,
        is_host(h),
        is_environment_name(n),
    ensures
        parse_spec(seq!["-p"@, v, "--host"@, h, "-e"@, n, "--worker"@]) == Ok::<
            Request,
            Seq<char>,
        >(
            Request::Run {
                ports: Some(parse_ports(v)->Ok_0),
                host: Some(h),
                environment: Some(n),
                daemon: false,
                worker: true,
            },
        ),
{
    lemma_option_words();
    reveal_strlit("-p");
    reveal_strlit("env");
    assert("-p"@.len() == 2 && "env"@.len() == 3);
    let a = seq!["-p"@, v, "--host"@, h, "-e"@, n, "--worker"@];
    let p = parse_ports(v)->Ok_0;
    let st1 = RunFlags { ports: Some(p), ..no_flags() };
    let st2 = RunFlags { host: Some(h), ..st1 };
    let st3 = RunFlags { environment: Some(n), ..st2 };
    let st4 = RunFlags { worker: true, ..st3 };
    let r1 = a.drop_first();
    let r2 = r1.drop_first();
    assert(r2 =~= seq!["--host"@, h, "-e"@, n, "--worker"@]);
    let r3 = r2.drop_first().drop_first();
    assert(r3 =~= seq!["-e"@, n, "--worker"@]);
    let r4 = r3.drop_first().drop_first();
    assert(r4 =~= seq!["--worker"@]);
    assert(r4.drop_first() =~= Seq::<Seq<char>>::empty());
    assert(parse_flags(r4.drop_first(), st4) == Ok::<RunFlags, Seq<char>>(st4));
    assert(parse_flags(r4, st3) == Ok::<RunFlags, Seq<char>>(st4));
    assert(parse_flags(r3, st2) == Ok::<RunFlags, Seq<char>>(st4));
    assert(parse_flags(r2, st1) == Ok::<RunFlags, Seq<char>>(st4));
    assert(parse_flags(a, no_flags()) == Ok::<RunFlags, Seq<char>>(st4));
}

} // verus!

verus! {

proof fn lemma_env_words()
    ensures
        "host"@ != "ports"@,
        "set"@ != "clear"@,
        "add"@ != "remove"@,
        "get"@ != "host"@,
        "get"@ != "ports"@,
        "add"@ != "list"@,
        "remove"@ != "list"@,
{
    reveal_strlit("host");
    reveal_strlit("ports");
    reveal_strlit("set");
    reveal_strlit("clear");
    reveal_strlit("add");
    reveal_strlit("remove");
    reveal_strlit("get");
    reveal_strlit("list");
    assert("host"@.len() == 4 && "ports"@.len() == 5 && "set"@.len() == 3 && "clear"@.len() == 5);
    assert("add"@.len() == 3 && "remove"@.len() == 6 && "get"@.len() == 3 && "list"@.len() == 4);
}

/// Law: every `prox env` subcommand is read for any valid environment name `n`:
/// `add`, `remove`, `get`, `host set` with a valid host, `host clear`, `ports
/// set` with a list that parses, and `ports clear`.
pub proof fn law_env_commands_accepted(n: Seq<char>, h: Seq<char>, v: Seq<char>)
    requires
        is_environment_name(n),
    ensures
        parse_env_spec(seq!["add"@, n]) == Ok::<EnvRequest, Seq<char>>(EnvRequest::Add(n)),
        parse_env_spec(seq!["remove"@, n]) == Ok::<EnvRequest, Seq<char>>(EnvRequest::Remove(n)),
        parse_env_spec(seq![n, "get"@]) == Ok::<EnvRequest, Seq<char>>(EnvRequest::Get(n)),
        is_host(h) ==> parse_env_spec(seq![n, "host"@, "set"@, h]) == Ok::<EnvRequest, Seq<char>>(
            EnvRequest::Host(n, Some(h)),
        ),
        parse_env_spec(seq![n, "host"@, "clear"@]) == Ok::<EnvRequest, Seq<char>>(
            EnvRequest::Host(n, None),
        ),
        parse_ports(v) is Ok ==> parse_env_spec(seq![n, "ports"@, "set"@, v]) == Ok::<
            EnvRequest,
            Seq<char>,
        >(EnvRequest::Ports(n, Some(parse_ports(v)->Ok_0))),
        parse_env_spec(seq![n, "ports"@, "clear"@]) == Ok::<EnvRequest, Seq<char>>(
            EnvRequest::Ports(n, None),
        ),
{
    lemma_env_words();
    assert(n != "add"@ && n != "remove"@ && n != "list"@);
}

} // verus!

verus! {

/// Law: a destination with white space, a control character or a slash of
/// either kind anywhere, or an empty one, is refused.
pub proof fn law_host_refusals(s: Seq<char>, i: int)
    requires
        0 <= i < s.len(),
        is_white_space(s[i]) || is_control(s[i]) || s[i] == '/' || s[i] == '\\',
    ensures
        !is_host(s),
        !is_host(Seq::<char>::empty()),
{
    assert(!is_host_char(s[i]));
}

/// Law: an environment name longer than 64 characters, one that starts with `_`
/// or `-`, one with any other character than letters, digits, `_` and `-`, and
/// the reserved words, are refused.
pub proof fn law_name_refusals(s: Seq<char>, i: int)
    ensures
        s.len() > 64 ==> !is_environment_name(s),
        s.len() > 0 && (s[0] == '_' || s[0] == '-') ==> !is_environment_name(s),
        0 <= i < s.len() && !is_name_char(s[i]) ==> !is_environment_name(s),
        !is_environment_name("add"@),
        !is_environment_name("remove"@),
        !is_environment_name("list"@),
        !is_environment_name("help"@),
{
}

} // verus!
