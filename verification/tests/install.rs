use prox::install::unix::{check_block, check_profiles, file_name, join, make_block, profile_addition, Plan};
use prox::install::windows::{path_update, wide, Plan as WindowsPlan};

#[test]
fn unix_plan_for_each_shell() {
    let none = vec![false, false, false];
    let p = Plan::new(Some("/home/u".into()), true, false, Some("/usr/bin/zsh".into()), None, None, &none).unwrap();
    assert_eq!(p.directory(), "/home/u/.local/bin");
    assert_eq!(p.profiles(), &vec!["/home/u/.zprofile".to_string(), "/home/u/.zshrc".to_string()]);
    let p = Plan::new(Some("/home/u/".into()), true, true, Some("zsh".into()), Some("/z".into()), None, &none).unwrap();
    assert_eq!(p.directory(), "/home/u/Applications/prox/bin");
    assert_eq!(p.profiles(), &vec!["/z/.zprofile".to_string(), "/z/.zshrc".to_string()]);
    let p = Plan::new(Some("/h".into()), true, false, None, None, None, &vec![false, true, true]).unwrap();
    assert_eq!(p.profiles(), &vec!["/h/.bash_login".to_string(), "/h/.bashrc".to_string()]);
    let p = Plan::new(Some("/h".into()), true, false, Some("/bin/dash".into()), None, None, &none).unwrap();
    assert_eq!(p.profiles(), &vec!["/h/.profile".to_string()]);
    let p = Plan::new(Some("/h".into()), true, false, Some("/usr/bin/fish".into()), None, Some("".into()), &none).unwrap();
    assert_eq!(p.profiles(), &vec!["/h/.config/fish/conf.d/prox.fish".to_string()]);
    assert!(p.block().starts_with("# >>> prox PATH >>>\nif not contains -- '/h/.local/bin' $PATH\n"));
    let p = Plan::new(Some("/h".into()), true, false, Some("/usr/bin/fish".into()), None, Some("/x".into()), &none).unwrap();
    assert_eq!(p.profiles(), &vec!["/x/fish/conf.d/prox.fish".to_string()]);
}

#[test]
fn unix_plan_errors() {
    let none = vec![false, false, false];
    assert_eq!(
        Plan::new(Some("/h".into()), true, false, Some("/bin/tcsh".into()), None, None, &none).err().unwrap(),
        "automatic PATH setup supports bash, zsh, fish, sh, dash and ksh; found tcsh"
    );
    assert_eq!(
        Plan::new(Some("/h".into()), true, false, Some("/bin/..".into()), None, None, &none).err().unwrap(),
        "cannot identify your shell"
    );
    assert_eq!(
        Plan::new(Some("/h".into()), true, false, Some("zsh".into()), Some("".into()), None, &none).err().unwrap(),
        "ZDOTDIR must be an absolute path"
    );
    assert_eq!(
        Plan::new(Some("/h".into()), true, false, Some("fish".into()), None, Some("rel".into()), &none).err().unwrap(),
        "XDG_CONFIG_HOME must be an absolute path"
    );
    assert_eq!(
        Plan::new(Some("/a:b".into()), true, false, Some("sh".into()), None, None, &none).err().unwrap(),
        "install path cannot contain a newline or colon"
    );
    assert_eq!(
        Plan::new(None, true, false, Some("sh".into()), None, None, &none).err().unwrap(),
        "HOME is not set"
    );
    assert_eq!(
        Plan::new(Some("home".into()), true, false, Some("sh".into()), None, None, &none).err().unwrap(),
        "HOME must be an absolute path"
    );
    assert_eq!(
        Plan::new(Some("/h\u{fffd}".into()), false, false, Some("sh".into()), None, None, &none).err().unwrap(),
        "install path must be valid UTF-8"
    );
    assert_eq!(
        Plan::new(Some("/h\u{fffd}".into()), false, false, Some("tcsh".into()), None, None, &none).err().unwrap(),
        "automatic PATH setup supports bash, zsh, fish, sh, dash and ksh; found tcsh"
    );
}

#[test]
fn blocks_quote_the_path() {
    assert_eq!(
        make_block("/it's", false),
        "# >>> prox PATH >>>\ncase \":$PATH:\" in\n    *:'/it'\\''s':*) ;;\n    *) export PATH='/it'\\''s':\"$PATH\" ;;\nesac\n# <<< prox PATH <<<\n"
    );
    assert_eq!(
        make_block("/a\\b'c", true),
        "# >>> prox PATH >>>\nif not contains -- '/a\\\\b\\'c' $PATH\n    set -gx PATH '/a\\\\b\\'c' $PATH\nend\n# <<< prox PATH <<<\n"
    );
}

#[test]
fn file_names_and_joins() {
    assert_eq!(file_name("/bin/zsh/").as_deref(), Some("zsh"));
    assert_eq!(file_name("/bin/zsh/.").as_deref(), Some("zsh"));
    assert_eq!(file_name("bash").as_deref(), Some("bash"));
    assert_eq!(file_name("/"), None);
    assert_eq!(file_name(""), None);
    assert_eq!(file_name("a/.."), None);
    assert_eq!(join("/h", ".x"), "/h/.x");
    assert_eq!(join("/h/", ".x"), "/h/.x");
    assert_eq!(join("", ".x"), ".x");
}

#[test]
fn profile_changes_are_idempotent() {
    let block = make_block("/h/.local/bin", false);
    let first = profile_addition("export A=1", &block).unwrap().unwrap();
    assert_eq!(first, format!("\n{block}"));
    let content = format!("export A=1{first}");
    assert_eq!(profile_addition(&content, &block).unwrap(), None);
    assert_eq!(profile_addition("", &block).unwrap().unwrap(), block);
    assert_eq!(profile_addition("x\n", &block).unwrap().unwrap(), block);
    let edited = "# >>> prox PATH >>>\nsomething else\n";
    assert_eq!(
        profile_addition(edited, &block).unwrap_err(),
        "an existing prox PATH block was edited or points elsewhere; remove that block and rerun prox install"
    );
    assert!(check_block(edited, &block).is_err());
    assert!(check_block(&content, &block).is_ok());
}

#[test]
fn windows_plan_and_path() {
    let plan = |v: &str| WindowsPlan::new(Some(v.to_string()));
    let p = plan("C:\\Users\\u\\AppData\\Local").unwrap();
    assert_eq!(p.directory(), "C:\\Users\\u\\AppData\\Local\\Programs\\prox");
    let p = plan("C:\\Local\\").unwrap();
    assert_eq!(p.directory(), "C:\\Local\\Programs\\prox");
    assert_eq!(plan("C:/Local").unwrap().directory(), "C:/Local\\Programs\\prox");
    assert_eq!(plan("\\\\server\\share").unwrap().directory(), "\\\\server\\share\\Programs\\prox");
    assert_eq!(plan("\\\\?\\C:\\L\\\\").unwrap().directory(), "\\\\?\\C:\\L\\Programs\\prox");
    assert_eq!(plan("\\\\?\\C:\\a\\.\\b/c").unwrap().directory(), "\\\\?\\C:\\a\\.\\b/c\\Programs\\prox");
    assert_eq!(
        plan("\\\\?\\UNC\\srv\\share\\\\x\\").unwrap().directory(),
        "\\\\?\\UNC\\srv\\share\\x\\Programs\\prox"
    );
    assert_eq!(plan("\\\\.\\dev").unwrap().directory(), "\\\\.\\dev\\Programs\\prox");
    assert_eq!(
        plan("C:\\a;b").err().unwrap(),
        "install directory cannot contain a semicolon or NUL"
    );
    for relative in ["", "Local", "C:", "C:Local", "\\Local", "\\\\server", "\\\\server\\"] {
        assert_eq!(plan(relative).err().unwrap(), "LOCALAPPDATA must be an absolute path", "{relative}");
    }
    assert_eq!(WindowsPlan::new(None).err().unwrap(), "LOCALAPPDATA is not set");
    let dir = "C:\\Local\\Programs\\prox";
    assert_eq!(path_update("C:\\bin", dir).unwrap(), "C:\\bin;C:\\Local\\Programs\\prox");
    assert_eq!(path_update("C:\\bin;", dir).unwrap(), "C:\\bin;C:\\Local\\Programs\\prox");
    assert_eq!(path_update("", dir).unwrap(), dir);
    assert_eq!(path_update("x; \"c:\\local\\programs\\PROX\\\" ;y", dir), None);
    let once = path_update("C:\\bin", dir).unwrap();
    assert_eq!(path_update(&once, dir), None);
}

#[test]
fn wide_strings_end_with_nul() {
    assert_eq!(wide("Path"), vec![80, 97, 116, 104, 0]);
    assert_eq!(wide("a\u{1F600}"), "a\u{1F600}".encode_utf16().chain(Some(0)).collect::<Vec<u16>>());
}

#[test]
fn existing_profiles_are_checked_before_anything_changes() {
    let block = make_block("/h/.local/bin", false);
    let other = make_block("/elsewhere", false);
    assert_eq!(check_profiles(&vec![], &block), Ok(()));
    assert_eq!(check_profiles(&vec!["export A=1\n".to_string(), format!("x\n{block}")], &block), Ok(()));
    assert_eq!(
        check_profiles(&vec!["fine\n".to_string(), other], &block).err().unwrap(),
        "an existing prox PATH block was edited or points elsewhere; remove that block and rerun prox install"
    );
}

#[test]
fn configuration_directory_must_be_absolute() {
    let check = prox::state::check_config_directory;
    assert_eq!(check("/home/u/.config/prox", false), Ok(()));
    assert_eq!(check("home/.config/prox", false).err().unwrap(), "configuration directory must be an absolute path");
    assert_eq!(check("C:\\Users\\u\\prox", true), Ok(()));
    assert_eq!(check("\\\\?\\C:\\x", true), Ok(()));
    assert!(check("/home/u", true).is_err());
    assert!(check("C:prox", true).is_err());
}
