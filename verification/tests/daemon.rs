use prox::cli::{parse, Command, Port};
use prox::daemon::{stop_wait, StopWait};
use prox::daemon::{
    control_reply, control_request, describe, response_accepted, startup_outcome,
    worker_arguments, ControlAction,
};
use prox::random::{new_token, random_staging_name, staging_name};
use prox::state::{config_directory, state_directory, DirectoryBase, State};

#[test]
fn describe_lists_each_forward() {
    let state = State {
        pid: 42,
        control_port: 5000,
        token: "t".into(),
        host: "example.com".into(),
        ports: vec![Port { local: 3000, remote: 8080 }, Port { local: 1, remote: 1 }],
    };
    assert_eq!(
        describe(&state),
        "prox running (PID 42)\n  127.0.0.1:3000 → example.com:8080\n  127.0.0.1:1 → example.com:1\n"
    );
}

#[test]
fn worker_arguments_parse_back() {
    let ports = vec![Port { local: 3000, remote: 3000 }, Port { local: 1, remote: 2 }];
    let args = worker_arguments(&ports, "example.com");
    assert_eq!(args, vec!["-p", "3000:3000,1:2", "--host", "example.com", "--worker"]);
    match parse(args).unwrap() {
        Command::Run { ports: p, host, environment, daemon, worker } => {
            assert_eq!(p.unwrap(), ports);
            assert_eq!(host.unwrap(), "example.com");
            assert_eq!(environment, None);
            assert!(!daemon);
            assert!(worker);
        }
        other => panic!("{other:?}"),
    }
}

#[test]
fn control_protocol_needs_the_token() {
    assert_eq!(control_request("abc", true), "abc stop\n");
    assert_eq!(control_request("abc", false), "abc status\n");
    assert_eq!(control_reply("abc", "abc stop\n"), ControlAction::Stop);
    assert_eq!(control_reply("abc", "abc status \r\n"), ControlAction::Status);
    assert_eq!(control_reply("abc", "abd stop\n"), ControlAction::Ignore);
    assert_eq!(control_reply("abc", " abc stop\n"), ControlAction::Ignore);
    assert_eq!(control_reply("abc", "abc"), ControlAction::Ignore);
    assert_eq!(control_reply("abc", &control_request("ab", true)), ControlAction::Ignore);
    assert_eq!(control_reply("abc", &control_request("abcd", false)), ControlAction::Ignore);
    assert_eq!(control_reply("abc", &control_request("abc", false)), ControlAction::Status);
    assert!(response_accepted("ok\n"));
    assert!(!response_accepted("ok"));
}

#[test]
fn startup_reports_the_daemon_line() {
    assert!(startup_outcome(Some("ready\n"), "/s/prox.log").is_ok());
    assert_eq!(startup_outcome(Some("error: boom\n"), "/s/prox.log").unwrap_err(), "error: boom");
    assert_eq!(
        startup_outcome(Some("\n"), "/s/prox.log").unwrap_err(),
        "daemon did not start; see /s/prox.log"
    );
    assert_eq!(
        startup_outcome(None, "/s/prox.log").unwrap_err(),
        "daemon did not start; see /s/prox.log"
    );
}

#[test]
fn staging_names_and_tokens() {
    assert_eq!(staging_name("environments", 0xbeef), ".environments-000000000000beef.tmp");
    assert_eq!(staging_name("prox", u64::MAX), ".prox-ffffffffffffffff.tmp");
    let name = random_staging_name("prox", "cannot create installer staging file").unwrap();
    assert!(name.starts_with(".prox-") && name.ends_with(".tmp") && name.len() == 26);
    let token = new_token().unwrap();
    assert_eq!(token.len(), 64);
    assert!(token.chars().all(|c| c.is_ascii_hexdigit() && !c.is_ascii_uppercase()));
    assert_ne!(token, new_token().unwrap());
}

#[test]
fn directories_follow_the_variables() {
    let l = state_directory(true, false, false, false, false).unwrap();
    assert_eq!((l.base, l.suffix.as_str()), (DirectoryBase::Explicit, ""));
    let l = state_directory(false, true, true, true, true).unwrap();
    assert_eq!((l.base, l.suffix.as_str()), (DirectoryBase::LocalAppData, "prox"));
    assert_eq!(state_directory(false, true, false, true, true).unwrap_err(), "LOCALAPPDATA is not set");
    let l = state_directory(false, false, false, false, true).unwrap();
    assert_eq!((l.base, l.suffix.as_str()), (DirectoryBase::Home, ".local/state/prox"));
    assert_eq!(state_directory(false, false, false, false, false).unwrap_err(), "HOME is not set");
    let l = config_directory(false, false, false, true, true).unwrap();
    assert_eq!((l.base, l.suffix.as_str()), (DirectoryBase::Xdg, "prox"));
    let l = config_directory(false, false, false, false, true).unwrap();
    assert_eq!((l.base, l.suffix.as_str()), (DirectoryBase::Home, ".config/prox"));
}

#[test]
fn stop_waits_for_one_hundred_looks() {
    assert_eq!(stop_wait(0, true), StopWait::Stopped);
    assert_eq!(stop_wait(99, true), StopWait::Stopped);
    assert_eq!(stop_wait(0, false), StopWait::Retry);
    assert_eq!(stop_wait(98, false), StopWait::Retry);
    assert_eq!(stop_wait(99, false), StopWait::GiveUp);
    let mut looks = 0;
    let mut checks = 0;
    loop {
        looks += 1;
        match stop_wait(checks, false) {
            StopWait::Retry => checks += 1,
            _ => break,
        }
    }
    assert_eq!(looks, 100);
}
