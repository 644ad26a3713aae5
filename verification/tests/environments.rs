use prox::cli::{EnvCommand, Port};
use prox::environments::interactive::{prompt_step, select_step, Field, PromptStep, SelectStep};
use prox::environments::{create, execute, format_ports, prompt, resolve, select_index, Config, Environment};

fn port(local: u16, remote: u16) -> Port {
    Port { local, remote }
}

fn run(config: &mut Config, command: EnvCommand) -> Result<(bool, String), String> {
    execute(config, command).map(|o| (o.save, o.output))
}

#[test]
fn picker_accepts_names_and_numbers_and_retries_invalid_input() {
    let names = vec!["dev".into(), "staging".into()];
    for (input, expected) in [
        ("2\n", Some(1)),
        ("3\n", Some(2)),
        ("0\nunknown\ndev\n", Some(0)),
        ("q\n", None),
        ("", None),
    ] {
        assert_eq!(select_index(&names, input, &mut String::new()), expected);
    }
}

#[test]
fn creation_prompts_validate_and_allow_cancellation() {
    let mut output = String::new();
    let input = "bad host\nexample.com\n";
    assert_eq!(
        prompt("Host", input, &mut output, &Field::Host),
        Some("example.com".into())
    );
    assert!(output.contains("without a URL or whitespace"));
    assert_eq!(prompt("Host", "q\n", &mut String::new(), &Field::Host), None);
}

#[test]
fn picker_writes_the_menu_and_hints() {
    let names = vec!["dev".to_string(), "staging".to_string()];
    let mut output = String::new();
    assert_eq!(select_index(&names, "x\n 1 \n", &mut output), Some(0));
    assert_eq!(
        output,
        "Pick an environment:\n  1) dev\n  2) staging\n  3) create a new environment\n\
         Environment (number/name, q to quit): Choose a number or name from the list.\n\
         Environment (number/name, q to quit): "
    );
}

#[test]
fn picker_steps() {
    let names = vec!["dev".to_string(), "q".to_string()];
    assert_eq!(select_step(&names, None), SelectStep::Quit);
    assert_eq!(select_step(&names, Some("q\n")), SelectStep::Quit);
    assert_eq!(select_step(&names, Some("dev")), SelectStep::Chosen(0));
    assert_eq!(select_step(&names, Some("+3")), SelectStep::Chosen(2));
    assert_eq!(select_step(&names, Some("4")), SelectStep::Retry);
    assert_eq!(select_step(&names, Some("0")), SelectStep::Retry);
    assert_eq!(select_step(&names, Some("")), SelectStep::Retry);
}

#[test]
fn prompt_steps_check_each_field() {
    let taken = Field::Name(vec!["dev".to_string()]);
    assert!(matches!(prompt_step(Some("new\n"), &taken), PromptStep::Accept(v) if v == "new"));
    assert!(matches!(prompt_step(Some("dev\n"), &taken), PromptStep::Retry(m) if m == "that environment already exists\n"));
    assert!(matches!(prompt_step(Some("add"), &taken), PromptStep::Retry(m) if m.starts_with("environment names must")));
    assert!(matches!(prompt_step(Some(" q "), &taken), PromptStep::Cancel));
    assert!(matches!(prompt_step(None, &Field::Ports), PromptStep::Cancel));
    assert!(matches!(prompt_step(Some("80,80"), &Field::Ports), PromptStep::Retry(m) if m == "local port 80 appears more than once\n"));
    assert!(matches!(prompt_step(Some("80:81\n"), &Field::Ports), PromptStep::Accept(v) if v == "80:81"));
}

#[test]
fn prompt_stops_at_end_of_input() {
    let mut output = String::new();
    assert_eq!(prompt("Ports", "0\n", &mut output, &Field::Ports), None);
    assert_eq!(output, "Ports: invalid port in '0': use 1–65535\nPorts: ");
}

#[test]
fn format_ports_collapses_equal_sides() {
    assert_eq!(format_ports(&vec![port(3000, 3000), port(12345, 8080)]), "3000,12345:8080");
    assert_eq!(format_ports(&vec![]), "");
}

#[test]
fn config_keeps_names_in_order() {
    let mut config = Config::new();
    config.insert("staging".into(), Environment::empty());
    config.insert("dev".into(), Environment::empty());
    config.insert("Zed".into(), Environment::empty());
    config.insert("dev".into(), Environment { host: Some("h".into()), ports: None });
    assert_eq!(config.names_vec(), vec!["Zed", "dev", "staging"]);
    assert_eq!(config.get("dev").unwrap().host.as_deref(), Some("h"));
    config.remove("dev");
    assert_eq!(config.names_vec(), vec!["Zed", "staging"]);
    assert_eq!(config.get("dev").unwrap_err(), "environment 'dev' does not exist");
}

#[test]
fn env_commands_change_and_report() {
    let mut config = Config::new();
    assert_eq!(
        run(&mut config, EnvCommand::List).unwrap(),
        (false, "No saved environments. Add one with: prox env add NAME\n".to_string())
    );
    assert_eq!(
        run(&mut config, EnvCommand::Add("dev".into())).unwrap(),
        (true, "Added environment 'dev'.\n".to_string())
    );
    assert_eq!(
        run(&mut config, EnvCommand::Add("dev".into())).unwrap_err(),
        "environment 'dev' already exists"
    );
    assert_eq!(
        run(&mut config, EnvCommand::Get("dev".into())).unwrap(),
        (false, "dev\n  host: (not set)\n  ports: (not set)\n".to_string())
    );
    assert_eq!(
        run(&mut config, EnvCommand::Host("dev".into(), Some("example.com".into()))).unwrap(),
        (true, "Updated host for 'dev'.\n".to_string())
    );
    assert_eq!(
        run(&mut config, EnvCommand::Ports("dev".into(), Some(vec![port(3000, 3000), port(8080, 80)]))).unwrap(),
        (true, "Updated ports for 'dev'.\n".to_string())
    );
    assert_eq!(
        run(&mut config, EnvCommand::Get("dev".into())).unwrap().1,
        "dev\n  host: example.com\n  ports: 3000,8080:80\n"
    );
    run(&mut config, EnvCommand::Add("alpha".into())).unwrap();
    assert_eq!(run(&mut config, EnvCommand::List).unwrap().1, "alpha\ndev\n");
    run(&mut config, EnvCommand::Host("dev".into(), None)).unwrap();
    assert_eq!(
        run(&mut config, EnvCommand::Get("dev".into())).unwrap().1,
        "dev\n  host: (not set)\n  ports: 3000,8080:80\n"
    );
    assert_eq!(
        run(&mut config, EnvCommand::Remove("dev".into())).unwrap(),
        (true, "Removed environment 'dev'.\n".to_string())
    );
    assert_eq!(
        run(&mut config, EnvCommand::Remove("dev".into())).unwrap_err(),
        "environment 'dev' does not exist"
    );
    assert_eq!(
        run(&mut config, EnvCommand::Ports("dev".into(), None)).unwrap_err(),
        "environment 'dev' does not exist"
    );
}

#[test]
fn loaded_config_is_checked_in_name_order() {
    let mut config = Config::new();
    config.insert("b".into(), Environment { host: Some("bad host".into()), ports: None });
    config.insert("a".into(), Environment { host: None, ports: Some(vec![port(1, 1), port(1, 2)]) });
    assert_eq!(config.check().unwrap_err(), "local port 1 appears more than once");
    config.remove("a");
    assert!(config.check().unwrap_err().contains("without a URL"));
    config.remove("b");
    config.insert("ok".into(), Environment { host: Some("h".into()), ports: Some(vec![port(1, 2)]) });
    assert!(config.check().is_ok());
    config.insert("x y".into(), Environment::empty());
    assert!(config.check().unwrap_err().starts_with("environment names must"));
    let mut empty_ports = Config::new();
    empty_ports.insert("z".into(), Environment { host: None, ports: Some(vec![]) });
    assert_eq!(empty_ports.check().unwrap_err(), "invalid port in '': use 1–65535");
}

#[test]
fn resolve_prefers_flags_then_environment_then_prox_host() {
    let mut config = Config::new();
    config.insert("dev".into(), Environment { host: Some("saved".into()), ports: Some(vec![port(1, 1)]) });
    config.insert("bare".into(), Environment::empty());
    let (p, h) = resolve(Some(vec![port(2, 3)]), Some("flag".into()), Some("dev"), &config, Some("env".into())).unwrap();
    assert_eq!((p, h.as_str()), (vec![port(2, 3)], "flag"));
    let (p, h) = resolve(None, None, Some("dev"), &config, Some("env".into())).unwrap();
    assert_eq!((p, h.as_str()), (vec![port(1, 1)], "saved"));
    let (_, h) = resolve(Some(vec![port(5, 5)]), None, Some("bare"), &config, Some("env".into())).unwrap();
    assert_eq!(h, "env");
    assert_eq!(
        resolve(Some(vec![port(5, 5)]), None, None, &config, None).unwrap_err(),
        "missing destination; use --host HOST, set an environment host, or set PROX_HOST"
    );
    assert_eq!(
        resolve(None, Some("h".into()), Some("bare"), &config, None).unwrap_err(),
        "missing ports; use -p PORTS or set an environment's ports"
    );
    assert_eq!(
        resolve(None, None, Some("nope"), &config, None).unwrap_err(),
        "environment 'nope' does not exist"
    );
    assert_eq!(
        resolve(None, None, None, &config, Some("a/b".into())).unwrap_err(),
        "host must be an IP address or hostname, without a URL or whitespace"
    );
}

#[test]
fn create_refuses_a_name_taken_meanwhile() {
    let mut config = Config::new();
    assert_eq!(
        create(&mut config, "dev".into(), "h".into(), vec![port(1, 1)]).unwrap(),
        "Saved environment 'dev'.\n"
    );
    assert_eq!(
        create(&mut config, "dev".into(), "h".into(), vec![port(1, 1)]).unwrap_err(),
        "environment 'dev' was created by another process; existing config was left unchanged"
    );
    assert_eq!(config.get("dev").unwrap().ports.as_ref().unwrap(), &vec![port(1, 1)]);
}

#[test]
fn environments_written_by_commands_pass_the_load_check() {
    let mut config = Config::new();
    let args = |words: &[&str]| words.iter().map(|w| w.to_string()).collect::<Vec<String>>();
    for words in [
        &["add", "dev"][..],
        &["dev", "host", "set", "example.com"][..],
        &["dev", "ports", "set", " 3000 ,12345:8080,+25565"][..],
        &["add", "b-2"][..],
        &["b-2", "ports", "set", "80"][..],
        &["b-2", "host", "clear"][..],
    ] {
        let command = prox::cli::parse_env(&args(words)).unwrap();
        execute(&mut config, command).unwrap();
    }
    assert_eq!(config.check(), Ok(()));
    let (_, text) = run(&mut config, EnvCommand::Get("dev".into())).unwrap();
    assert_eq!(text, "dev\n  host: example.com\n  ports: 3000,12345:8080,25565\n");
    create(&mut config, "new".into(), "10.0.0.1".into(), prox::cli::ports("1:2,3").unwrap()).unwrap();
    assert_eq!(config.check(), Ok(()));
}

#[test]
fn q_cancels_whatever_follows() {
    let mut output = String::new();
    assert_eq!(prompt("Name", "q\nfresh\n", &mut output, &Field::Name(vec![])), None);
    assert_eq!(output, "Name: ");
    let names = vec!["q".to_string(), "dev".to_string()];
    let mut output = String::new();
    assert_eq!(select_index(&names, "q\n1\n", &mut output), None);
    assert!(output.ends_with("Environment (number/name, q to quit): "));
    assert!(!output.contains("Choose a number"));
}
