//! The running proxy: its summary, the arguments a daemon is started with, the
//! control protocol of `status` and `stop`, and the launcher's startup check.
use vstd::prelude::*;
use crate::cli::{
    arg_views, is_host, parse_spec, Port, Request, parse_ports, parse_flags, no_flags,
    run_request, RunFlags,
};
use crate::environments::{entry_text, joined_text, lemma_joined_text_last, lemma_parse_joined, valid_ports};
use crate::state::State;
use crate::text::{
    decimal, push_decimal, push_str, string_of, str_eq, trim, trim_end, trimmed, trimmed_end,
};

verus! {

/// `  127.0.0.1:LOCAL → HOST:REMOTE`, one line per port.
pub open spec fn port_lines(host: Seq<char>, ps: Seq<Port>) -> Seq<char>
    decreases ps.len(),
{
    if ps.len() == 0 {
        seq![]
    } else {
        port_lines(host, ps.drop_last()) + "  127.0.0.1:"@ + decimal(ps.last().local as nat)
            + " → "@ + host + ":"@ + decimal(ps.last().remote as nat) + "\n"@
    }
}

/// What `prox status` prints about a running proxy.
pub open spec fn describe_text(pid: u32, host: Seq<char>, ps: Seq<Port>) -> Seq<char> {
    "prox running (PID "@ + decimal(pid as nat) + ")\n"@ + port_lines(host, ps)
}

/// The summary of a running proxy.
pub fn describe(state: &State) -> (r: String)
    ensures
        r@ == describe_text(state.pid, state.host@, state.ports@),
{
    let mut s = string_of("prox running (PID ");
    push_decimal(&mut s, state.pid as u64);
    push_str(&mut s, ")\n");
    let ghost head = s@;
    let ps = &state.ports;
    let mut i: usize = 0;
    while i < ps.len()
        invariant
            i <= ps.len(),
            ps@ == state.ports@,
            head == "prox running (PID "@ + decimal(state.pid as nat) + ")\n"@,
            s@ == head + port_lines(state.host@, ps@.take(i as int)),
        decreases ps.len() - i,
    {
        proof {
            assert(ps@.take(i + 1).drop_last() =~= ps@.take(i as int));
        }
        push_str(&mut s, "  127.0.0.1:");
        push_decimal(&mut s, ps[i].local as u64);
        push_str(&mut s, " → ");
        push_str(&mut s, state.host.as_str());
        push_str(&mut s, ":");
        push_decimal(&mut s, ps[i].remote as u64);
        push_str(&mut s, "\n");
        i = i + 1;
        assert(s@ =~= head + port_lines(state.host@, ps@.take(i as int)));
    }
    assert(ps@.take(ps.len() as int) =~= ps@);
    assert(s@ =~= describe_text(state.pid, state.host@, state.ports@));
    s
}

/// `LOCAL:REMOTE` for every port, even when both sides agree.
pub open spec fn mapping_text(p: Port) -> Seq<char> {
    entry_text(p, true)
}

/// The mappings joined by commas.
pub open spec fn mappings_text(ps: Seq<Port>) -> Seq<char> {
    joined_text(ps, true)
}

fn mappings(ports: &Vec<Port>) -> (r: String)
    ensures
        r@ == mappings_text(ports@),
{
    let mut s = String::new();
    let mut i: usize = 0;
    while i < ports.len()
        invariant
            i <= ports.len(),
            s@ == mappings_text(ports@.take(i as int)),
        decreases ports.len() - i,
    {
        proof {
            if i >= 1 {
                lemma_joined_text_last(ports@.take(i + 1), true);
                assert(ports@.take(i + 1).drop_last() =~= ports@.take(i as int));
            } else {
                assert(ports@.take(0) =~= Seq::<Port>::empty());
            }
        }
        if i > 0 {
            s.push(',');
        }
        push_decimal(&mut s, ports[i].local as u64);
        s.push(':');
        push_decimal(&mut s, ports[i].remote as u64);
        i = i + 1;
        assert(s@ =~= mappings_text(ports@.take(i as int)));
    }
    assert(ports@.take(ports.len() as int) =~= ports@);
    s
}

/// The arguments a daemon is started with: `-p MAPPINGS --host HOST --worker`.
pub open spec fn worker_args(ps: Seq<Port>, host: Seq<char>) -> Seq<Seq<char>> {
    seq!["-p"@, mappings_text(ps), "--host"@, host, "--worker"@]
}

/// The arguments that start a daemon for `ports` and `host`.
pub fn worker_arguments(ports: &Vec<Port>, host: &str) -> (r: Vec<String>)
    ensures
        arg_views(r@) == worker_args(ports@, host@),
{
    let mut r: Vec<String> = Vec::new();
    r.push(string_of("-p"));
    r.push(mappings(ports));
    r.push(string_of("--host"));
    r.push(string_of(host));
    r.push(string_of("--worker"));
    assert(arg_views(r@) =~= worker_args(ports@, host@));
    r
}

} // verus!

verus! {

/// The option words are distinct.
proof fn lemma_flag_words()
    ensures
        "-p"@ != "env"@,
        "--host"@ != "-p"@,
        "--host"@ != "--ports"@,
        "--worker"@ != "-p"@,
        "--worker"@ != "--ports"@,
        "--worker"@ != "--host"@,
        "--worker"@ != "-e"@,
        "--worker"@ != "--env"@,
        "--worker"@ != "-d"@,
        "--worker"@ != "--daemon"@,
        "--worker"@ != "--detach"@,
{
    reveal_strlit("-p");
    reveal_strlit("env");
    reveal_strlit("--ports");
    reveal_strlit("--host");
    reveal_strlit("-e");
    reveal_strlit("--env");
    reveal_strlit("-d");
    reveal_strlit("--daemon");
    reveal_strlit("--detach");
    reveal_strlit("--worker");
    assert("-p"@.len() == 2);
    assert("env"@.len() == 3);
    assert("--ports"@.len() == 7);
    assert("--host"@.len() == 6);
    assert("-e"@.len() == 2);
    assert("--env"@.len() == 5);
    assert("-d"@.len() == 2);
    assert("--daemon"@.len() == 8);
    assert("--detach"@.len() == 8);
    assert("--worker"@.len() == 8);
    assert("--worker"@[2] != "--daemon"@[2]);
    assert("--worker"@[2] != "--detach"@[2]);
}

proof fn lemma_worker_flags(ps: Seq<Port>, host: Seq<char>)
    requires
        parse_ports(mappings_text(ps)) == Ok::<Seq<Port>, Seq<char>>(ps),
    ensures
        parse_flags(worker_args(ps, host), no_flags()) == Ok::<RunFlags, Seq<char>>(
            RunFlags {
                ports: Some(ps),
                host: Some(host),
                environment: None,
                daemon: false,
                worker: true,
            },
        ),
{
    lemma_flag_words();
    let a = worker_args(ps, host);
    let rest1 = a.drop_first();
    assert(rest1 =~= seq![mappings_text(ps), "--host"@, host, "--worker"@]);
    let rest2 = rest1.drop_first();
    assert(rest2 =~= seq!["--host"@, host, "--worker"@]);
    let rest3 = rest2.drop_first().drop_first();
    assert(rest3 =~= seq!["--worker"@]);
    let st1 = RunFlags { ports: Some(ps), ..no_flags() };
    let st2 = RunFlags { host: Some(host), ..st1 };
    let st3 = RunFlags { worker: true, ..st2 };
    assert(rest3.drop_first() =~= Seq::<Seq<char>>::empty());
    assert(parse_flags(Seq::<Seq<char>>::empty(), st3) == Ok::<RunFlags, Seq<char>>(st3));
    assert(rest3[0] == "--worker"@);
    assert(parse_flags(rest3, st2) == Ok::<RunFlags, Seq<char>>(st3));
    assert(parse_flags(rest2, st1) == Ok::<RunFlags, Seq<char>>(st3));
}

/// Law: a daemon started for a valid port list and host parses its arguments back
/// into exactly that run, as a worker in the foreground.
pub proof fn law_worker_arguments_parse(ps: Seq<Port>, host: Seq<char>)
    requires
        ps.len() > 0,
        valid_ports(ps),
        is_host(host),
    ensures
        parse_spec(worker_args(ps, host)) == Ok::<Request, Seq<char>>(
            Request::Run {
                ports: Some(ps),
                host: Some(host),
                environment: None,
                daemon: false,
                worker: true,
            },
        ),
{
    lemma_flag_words();
    lemma_parse_joined(ps, Set::empty(), true);
    lemma_worker_flags(ps, host);
}

} // verus!

verus! {

pub open spec fn verb(stop: bool) -> Seq<char> {
    if stop {
        "stop"@
    } else {
        "status"@
    }
}

/// The line a client sends: `TOKEN stop` or `TOKEN status`.
pub open spec fn request_text(token: Seq<char>, stop: bool) -> Seq<char> {
    token + " "@ + verb(stop) + "\n"@
}

/// The line `prox status` or `prox stop` sends to the running proxy.
pub fn control_request(token: &str, stop: bool) -> (r: String)
    ensures
        r@ == request_text(token@, stop),
{
    let mut s = string_of(token);
    push_str(&mut s, " ");
    if stop {
        push_str(&mut s, "stop");
    } else {
        push_str(&mut s, "status");
    }
    push_str(&mut s, "\n");
    s
}

/// What the proxy does with a line received on its control port.
#[derive(Debug, Clone, Copy, PartialEq, Eq, Structural)]
pub enum ControlAction {
    /// Answer `ok` and shut down.
    Stop,
    /// Answer `ok`.
    Status,
    /// Answer nothing.
    Ignore,
}

/// Only `TOKEN stop` and `TOKEN status` (trailing white space aside) are answered.
pub open spec fn control_spec(token: Seq<char>, line: Seq<char>) -> ControlAction {
    let t = trim_end(line);
    if t == token + " stop"@ {
        ControlAction::Stop
    } else if t == token + " status"@ {
        ControlAction::Status
    } else {
        ControlAction::Ignore
    }
}

/// Authenticates a control line against the proxy's token.
pub fn control_reply(token: &str, line: &str) -> (r: ControlAction)
    ensures
        r == control_spec(token@, line@),
{
    let t = trimmed_end(line);
    let mut stop = string_of(token);
    push_str(&mut stop, " stop");
    if str_eq(t.as_str(), stop.as_str()) {
        return ControlAction::Stop;
    }
    let mut status = string_of(token);
    push_str(&mut status, " status");
    if str_eq(t.as_str(), status.as_str()) {
        ControlAction::Status
    } else {
        ControlAction::Ignore
    }
}

/// What an answered control line gets back.
pub open spec fn ok_text() -> Seq<char> {
    "ok\n"@
}

/// Whether the reply of the running proxy confirms the request.
pub fn response_accepted(response: &str) -> (r: bool)
    ensures
        r == (response@ == ok_text()),
{
    str_eq(response, "ok\n")
}

proof fn lemma_request_line(token: Seq<char>, stop: bool)
    ensures
        trim_end(request_text(token, stop)) == token + " "@ + verb(stop),
        token + " "@ + verb(stop) == token + (if stop {
            " stop"@
        } else {
            " status"@
        }),
{
    reveal_strlit(" ");
    reveal_strlit("stop");
    reveal_strlit("status");
    reveal_strlit(" stop");
    reveal_strlit(" status");
    reveal_strlit("\n");
    assert("\n"@.len() == 1);
    assert(" "@.len() == 1);
    assert("stop"@.len() == 4);
    assert("status"@.len() == 6);
    assert(" stop"@.len() == 5);
    assert(" status"@.len() == 7);
    let body = token + " "@ + verb(stop);
    let line = request_text(token, stop);
    assert(line.drop_last() =~= body);
    assert(line.last() == '\n');
    assert(body.last() == verb(stop).last());
    assert(trim_end(body) == body);
    assert(trim_end(line) == trim_end(line.drop_last()));
    assert(token + " "@ + verb(stop) =~= token + (if stop {
        " stop"@
    } else {
        " status"@
    }));
}

/// Law: the proxy answers the request of a client that holds its token: `stop`
/// stops it and `status` only reports.
pub proof fn law_own_token_answered(token: Seq<char>, stop: bool)
    ensures
        control_spec(token, request_text(token, stop)) == if stop {
            ControlAction::Stop
        } else {
            ControlAction::Status
        },
{
    lemma_request_line(token, stop);
    reveal_strlit(" stop");
    reveal_strlit(" status");
    assert(" stop"@.len() == 5);
    assert(" status"@.len() == 7);
    if !stop {
        assert((token + " status"@).len() != (token + " stop"@).len());
    }
}

/// Law: a request made with any other token is never answered.
pub proof fn law_other_token_ignored(token: Seq<char>, other: Seq<char>, stop: bool)
    requires
        other != token,
    ensures
        control_spec(token, request_text(other, stop)) == ControlAction::Ignore,
{
    lemma_request_line(other, stop);
    reveal_strlit(" stop");
    reveal_strlit(" status");
    let t = trim_end(request_text(other, stop));
    let sent = if stop {
        " stop"@
    } else {
        " status"@
    };
    assert(t == other + sent);
    assert(t.last() == sent.last());
    if t == token + " stop"@ {
        assert(t.last() == 'p');
        assert(stop);
        assert(t.take(other.len() as int) =~= other);
        assert(t.take(token.len() as int) =~= token);
    }
    if t == token + " status"@ {
        assert(t.last() == 's');
        assert(!stop);
        assert(t.take(other.len() as int) =~= other);
        assert(t.take(token.len() as int) =~= token);
    }
}

pub open spec fn startup_spec(line: Option<Seq<char>>, log: Seq<char>) -> Result<(), Seq<char>> {
    match line {
        Some(l) => if trim(l) == "ready"@ {
            Ok(())
        } else if trim(l).len() > 0 {
            Err(trim(l))
        } else {
            Err("daemon did not start; see "@ + log)
        },
        None => Err("daemon did not start; see "@ + log),
    }
}

/// Judges the first line a starting daemon writes (`None` when none came in
/// time): `ready` means started; any other text is the error it reported.
pub fn startup_outcome(line: Option<&str>, log: &str) -> (r: Result<(), String>)
    ensures
        match (
            r,
            startup_spec(
                match line {
                    Some(l) => Some(l@),
                    None => None,
                },
                log@,
            ),
        ) {
            (Ok(()), Ok(())) => true,
            (Err(e), Err(m)) => e@ == m,
            _ => false,
        },
{
    match line {
        Some(l) => {
            let t = trimmed(l);
            if str_eq(t.as_str(), "ready") {
                return Ok(());
            }
            if t.as_str().unicode_len() > 0 {
                return Err(t);
            }
        },
        None => {},
    }
    let mut e = string_of("daemon did not start; see ");
    push_str(&mut e, log);
    Err(e)
}

} // verus!

verus! {

/// How many times `prox stop` looks for the proxy to have let go of its lock,
/// 50 ms apart, before giving up.
pub const STOP_CHECKS: u32 = 100;

/// What `prox stop` does after one look at the lock.
#[derive(Debug, Clone, Copy, PartialEq, Eq, Structural)]
pub enum StopWait {
    /// The lock is free: the proxy has stopped.
    Stopped,
    /// Wait, then look again.
    Retry,
    /// Wait, then report that the proxy did not stop in time.
    GiveUp,
}

pub open spec fn stop_wait_spec(checks: nat, unlocked: bool) -> StopWait {
    if unlocked {
        StopWait::Stopped
    } else if checks + 1 < STOP_CHECKS {
        StopWait::Retry
    } else {
        StopWait::GiveUp
    }
}

/// Decides the next step of `prox stop`, after `checks` earlier looks found the
/// lock held and this one found it free (`unlocked`) or not.
pub fn stop_wait(checks: u32, unlocked: bool) -> (r: StopWait)
    ensures
        r == stop_wait_spec(checks as nat, unlocked),
{
    if unlocked {
        StopWait::Stopped
    } else if checks < STOP_CHECKS - 1 {
        StopWait::Retry
    } else {
        StopWait::GiveUp
    }
}

} // verus!
