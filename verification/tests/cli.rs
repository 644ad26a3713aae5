use prox::cli::{environment_name, parse, parse_env, ports, validate_host, Command, EnvCommand, Port};

fn args(list: &[&str]) -> Vec<String> {
    list.iter().map(|s| s.to_string()).collect()
}

#[test]
fn mixed_mappings_have_local_first() {
    assert_eq!(
        ports("3000,12345:8080,25565").unwrap(),
        vec![
            Port {
                local: 3000,
                remote: 3000
            },
            Port {
                local: 12345,
                remote: 8080
            },
            Port {
                local: 25565,
                remote: 25565
            },
        ]
    );
}

#[test]
fn rejects_ambiguous_or_invalid_mappings() {
    for value in [
        "",
        "0",
        "65536",
        "-1",
        "3000,",
        ":80",
        "80:",
        "1:2:3",
        "3000,3000:80",
        "http",
    ] {
        assert!(ports(value).is_err(), "accepted {value}");
    }
}

#[test]
fn port_errors_name_the_entry_or_the_duplicate() {
    assert_eq!(ports("80,x").unwrap_err(), "invalid port in 'x': use 1–65535");
    assert_eq!(ports("1:2:3").unwrap_err(), "invalid port in '1:2:3': use 1–65535");
    assert_eq!(ports("3000,3000:80").unwrap_err(), "local port 3000 appears more than once");
    assert_eq!(ports("").unwrap_err(), "invalid port in '': use 1–65535");
}

#[test]
fn ports_accept_spaces_plus_signs_and_leading_zeros() {
    assert_eq!(
        ports(" 80 : +443 ,0080:1").unwrap_err(),
        "local port 80 appears more than once"
    );
    assert_eq!(
        ports(" 80 : +443 ,65535").unwrap(),
        vec![Port { local: 80, remote: 443 }, Port { local: 65535, remote: 65535 }]
    );
    assert!(ports("+").is_err());
    assert!(ports("1:65536").is_err());
}

#[test]
fn environment_names_follow_the_rules() {
    for ok in ["dev", "a", "Dev_1-x", "0", &"a".repeat(64)] {
        assert!(environment_name(ok).is_ok(), "{ok}");
    }
    for bad in ["", "_dev", "-x", "a b", "dév", "add", "remove", "list", "help", &"a".repeat(65)] {
        assert_eq!(
            environment_name(bad).unwrap_err(),
            "environment names must start with a letter or number, use only letters, numbers, _ or -, and be at most 64 characters; add/remove/list/help are reserved",
            "{bad}"
        );
    }
}

#[test]
fn hosts_reject_urls_and_white_space() {
    for ok in ["example.com", "10.0.0.1", "::1", "héllo"] {
        assert!(validate_host(ok).is_ok(), "{ok}");
    }
    for bad in ["", "a b", "http://x", "a\\b", "a\tb", "a\u{7f}", "a\u{3000}b"] {
        assert_eq!(
            validate_host(bad).unwrap_err(),
            "host must be an IP address or hostname, without a URL or whitespace",
            "{bad:?}"
        );
    }
}

#[test]
fn single_words_are_commands() {
    assert!(matches!(parse(args(&[])).unwrap(), Command::Interactive));
    assert!(matches!(parse(args(&["status"])).unwrap(), Command::Status));
    assert!(matches!(parse(args(&["stop"])).unwrap(), Command::Stop));
    assert!(matches!(parse(args(&["install"])).unwrap(), Command::Install));
    assert!(matches!(parse(args(&["-h"])).unwrap(), Command::Help));
    assert!(matches!(parse(args(&["--help"])).unwrap(), Command::Help));
    assert!(matches!(parse(args(&["-V"])).unwrap(), Command::Version));
    assert!(matches!(parse(args(&["--version"])).unwrap(), Command::Version));
}

#[test]
fn run_flags_are_collected() {
    match parse(args(&["-p", "3000:8080,25565", "--host", "example.com", "-d"])).unwrap() {
        Command::Run { ports, host, environment, daemon, worker } => {
            assert_eq!(
                ports.unwrap(),
                vec![Port { local: 3000, remote: 8080 }, Port { local: 25565, remote: 25565 }]
            );
            assert_eq!(host.unwrap(), "example.com");
            assert_eq!(environment, None);
            assert!(daemon);
            assert!(!worker);
        }
        other => panic!("{other:?}"),
    }
    match parse(args(&["-e", "dev", "--worker", "--detach"])).unwrap() {
        Command::Run { ports, host, environment, daemon, worker } => {
            assert_eq!(ports, None);
            assert_eq!(host, None);
            assert_eq!(environment.unwrap(), "dev");
            assert!(daemon);
            assert!(worker);
        }
        other => panic!("{other:?}"),
    }
}

#[test]
fn run_flags_report_the_first_problem() {
    assert_eq!(parse(args(&["-p", "80", "-p", "81"])).unwrap_err(), "specify --ports only once");
    assert_eq!(parse(args(&["--ports"])).unwrap_err(), "--ports needs a value");
    assert_eq!(parse(args(&["--host"])).unwrap_err(), "--host needs a value");
    assert_eq!(parse(args(&["-e"])).unwrap_err(), "--env needs a name");
    assert_eq!(parse(args(&["-e", "a", "--env", "b"])).unwrap_err(), "specify --env only once");
    assert_eq!(parse(args(&["-x"])).unwrap_err(), "unknown argument '-x'; see prox --help");
    assert_eq!(parse(args(&["status", "now"])).unwrap_err(), "unknown argument 'status'; see prox --help");
    assert_eq!(
        parse(args(&["--host", "a b", "-q"])).unwrap_err(),
        "unknown argument '-q'; see prox --help"
    );
    assert_eq!(
        parse(args(&["--host", "a b"])).unwrap_err(),
        "host must be an IP address or hostname, without a URL or whitespace"
    );
    assert!(parse(args(&["-e", "list"])).is_err());
}

#[test]
fn env_commands_parse() {
    assert!(matches!(parse_env(&args(&[])).unwrap(), EnvCommand::List));
    assert!(matches!(parse_env(&args(&["list"])).unwrap(), EnvCommand::List));
    assert!(matches!(parse_env(&args(&["add", "dev"])).unwrap(), EnvCommand::Add(n) if n == "dev"));
    assert!(matches!(parse_env(&args(&["remove", "dev"])).unwrap(), EnvCommand::Remove(n) if n == "dev"));
    assert!(matches!(parse_env(&args(&["dev", "get"])).unwrap(), EnvCommand::Get(n) if n == "dev"));
    assert!(matches!(
        parse_env(&args(&["dev", "host", "set", "example.com"])).unwrap(),
        EnvCommand::Host(n, Some(h)) if n == "dev" && h == "example.com"
    ));
    assert!(matches!(
        parse_env(&args(&["dev", "host", "clear"])).unwrap(),
        EnvCommand::Host(n, None) if n == "dev"
    ));
    assert!(matches!(
        parse_env(&args(&["dev", "ports", "set", "80,81:82"])).unwrap(),
        EnvCommand::Ports(n, Some(p)) if n == "dev" && p == vec![Port { local: 80, remote: 80 }, Port { local: 81, remote: 82 }]
    ));
    assert!(matches!(
        parse_env(&args(&["dev", "ports", "clear"])).unwrap(),
        EnvCommand::Ports(n, None) if n == "dev"
    ));
    assert!(matches!(
        parse(args(&["env", "add", "get"])).unwrap(),
        Command::Env(EnvCommand::Add(n)) if n == "get"
    ));
}

#[test]
fn env_commands_report_errors() {
    assert_eq!(parse_env(&args(&["dev"])).unwrap_err(), "invalid env command; see prox --help");
    assert_eq!(
        parse_env(&args(&["add", "help"])).unwrap_err(),
        "environment names must start with a letter or number, use only letters, numbers, _ or -, and be at most 64 characters; add/remove/list/help are reserved"
    );
    assert_eq!(
        parse_env(&args(&["-x", "host", "set", "a b"])).unwrap_err(),
        "host must be an IP address or hostname, without a URL or whitespace"
    );
    assert_eq!(
        parse_env(&args(&["dev", "ports", "set", "0"])).unwrap_err(),
        "invalid port in '0': use 1–65535"
    );
    assert!(parse_env(&args(&["add", "host", "clear"])).is_err());
}

#[test]
fn run_options_set_what_they_say() {
    let args = |words: &[&str]| words.iter().map(|w| w.to_string()).collect::<Vec<String>>();
    match prox::cli::parse(args(&["--host", "a", "-d", "--host", "b.example", "-e", "dev", "-p", "1,2:3"])).unwrap() {
        prox::cli::Command::Run { ports, host, environment, daemon, worker } => {
            assert_eq!(ports, Some(vec![prox::cli::Port { local: 1, remote: 1 }, prox::cli::Port { local: 2, remote: 3 }]));
            assert_eq!(host.as_deref(), Some("b.example"));
            assert_eq!(environment.as_deref(), Some("dev"));
            assert!(daemon);
            assert!(!worker);
        }
        other => panic!("{other:?}"),
    }
    match prox::cli::parse(args(&["--host", "--worker"])).unwrap() {
        prox::cli::Command::Run { host, worker, daemon, .. } => {
            assert_eq!(host.as_deref(), Some("--worker"));
            assert!(!worker && !daemon);
        }
        other => panic!("{other:?}"),
    }
}
