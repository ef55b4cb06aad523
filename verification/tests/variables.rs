use init_anything::{
    replaceVars, replaceVarsPanics, substitute, validateConfig, CommandString, Config, RunCommand,
    Substituted, Var,
};

fn strings(words: &[&str]) -> Vec<String> {
    words.iter().map(|w| w.to_string()).collect()
}

fn var(name: &str, req_for: Option<&str>, default: Option<&str>) -> Var {
    Var {
        name: name.to_string(),
        reqFor: req_for.map(|s| s.to_string()),
        default: default.map(|s| s.to_string()),
    }
}

fn run_command(name: &str, lines: &[&str]) -> RunCommand {
    RunCommand {
        name: name.to_string(),
        runAsync: None,
        commands: lines
            .iter()
            .map(|l| CommandString { command: l.to_string(), execDir: None })
            .collect(),
    }
}

fn config(run: Vec<RunCommand>, vars: Option<Vec<Var>>) -> Config {
    Config {
        name: "T".to_string(),
        runCommands: Some(run),
        initCommands: None,
        addDeps: None,
        vars,
        varFiles: None,
        forceInitVerbose: None,
    }
}

#[test]
fn replace_vars_uses_flag_values() {
    let vars = vec![var("port0", None, Some("3017")), var("port1", None, Some("3018"))];
    let flags = strings(&["--port0=8080", "--port1=8081"]);
    let r = replaceVars(
        "live-server --port=$port0 --proxy=http://127.0.0.1:$port1/api/".to_string(),
        &vars,
        &flags,
        "dev".to_string(),
    );
    assert_eq!(r.ok().unwrap(), "live-server --port=8080 --proxy=http://127.0.0.1:8081/api/");
}

#[test]
fn replace_vars_falls_back_to_defaults() {
    let vars = vec![var("port0", None, Some("3017")), var("port1", None, Some("3018"))];
    let r = replaceVars("a $port0 $port1 $port0".to_string(), &vars, &vec![], "dev".to_string());
    assert_eq!(r.ok().unwrap(), "a 3017 3018 3017");
}

#[test]
fn replace_vars_reports_missing_variable() {
    let vars = vec![var("port0", None, Some("1")), var("projectName", None, None)];
    let r = replaceVars("./$projectName".to_string(), &vars, &vec![], "start".to_string());
    match r {
        Err(e) => assert_eq!(e.message, "Could not find variable projectName and no default was given!"),
        Ok(_) => panic!("expected an error"),
    }
}

#[test]
fn replace_vars_respects_req_for() {
    let vars = vec![var("projectName", Some("init, start"), None)];
    let flags = strings(&["--projectName=Example"]);
    let r = replaceVars("./$projectName".to_string(), &vars, &flags, "start".to_string());
    assert_eq!(r.ok().unwrap(), "./Example");
    let r = replaceVars("./$projectName".to_string(), &vars, &flags, "init".to_string());
    assert_eq!(r.ok().unwrap(), "./Example");
    // A command that the variable is not required for leaves it alone, even without a value.
    let r = replaceVars("./$projectName".to_string(), &vars, &vec![], "dev".to_string());
    assert_eq!(r.ok().unwrap(), "./$projectName");
}

#[test]
fn replace_vars_uses_given_value_in_any_command() {
    let vars = vec![var("projectName", Some("init"), None)];
    let flags = strings(&["--projectName=Example"]);
    let r = replaceVars("./$projectName".to_string(), &vars, &flags, "start".to_string());
    assert_eq!(r.ok().unwrap(), "./Example");
    let vars = vec![var("port", Some("dev"), Some("3000"))];
    let r = replaceVars(":$port".to_string(), &vars, &vec![], "start".to_string());
    assert_eq!(r.ok().unwrap(), ":3000");
}

#[test]
fn replace_vars_empty_req_for_requires_everywhere() {
    let vars = vec![var("x", Some(""), None)];
    match replaceVars("$x".to_string(), &vars, &vec![], "dev".to_string()) {
        Err(e) => assert_eq!(e.message, "Could not find variable x and no default was given!"),
        Ok(_) => panic!("expected an error"),
    }
}

#[test]
fn replace_vars_unrequired_valueless_flag_is_ignored() {
    let vars = vec![var("v", Some("init"), None)];
    let flags = strings(&["-v"]);
    assert!(!replaceVarsPanics(&"$v".to_string(), &vars, &flags, &"dev".to_string()));
    let r = replaceVars("$v".to_string(), &vars, &flags, "dev".to_string());
    assert_eq!(r.ok().unwrap(), "$v");
}

#[test]
fn replace_vars_first_flag_wins_and_value_ends_at_second_equals() {
    let vars = vec![var("x", None, None)];
    let flags = strings(&["--x=a=b", "--x=c"]);
    let r = replaceVars("[$x]".to_string(), &vars, &flags, "dev".to_string());
    assert_eq!(r.ok().unwrap(), "[a]");
}

#[test]
fn replace_vars_flag_name_ignores_dashes() {
    let vars = vec![var("x", None, None)];
    let flags = strings(&["-x=1-"]);
    let r = replaceVars("$x".to_string(), &vars, &flags, "dev".to_string());
    assert_eq!(r.ok().unwrap(), "1-");
}

#[test]
fn text_without_references_is_unchanged() {
    let vars = vec![var("a", None, Some("1")), var("b", None, Some("2"))];
    let r = replaceVars("cargo build --release".to_string(), &vars, &vec![], "dev".to_string());
    assert_eq!(r.ok().unwrap(), "cargo build --release");
}

#[test]
fn replace_vars_panics_on_flag_without_value() {
    let vars = vec![var("v", None, None)];
    let flags = strings(&["-v"]);
    assert!(replaceVarsPanics(&"$v".to_string(), &vars, &flags, &"dev".to_string()));
    assert!(matches!(
        substitute(&"$v".to_string(), &vars, &flags, &"dev".to_string()),
        Substituted::Malformed
    ));
    assert!(!replaceVarsPanics(&"$v".to_string(), &vars, &strings(&["-v=1"]), &"dev".to_string()));
}

#[test]
fn substitute_stops_at_first_missing() {
    let vars = vec![var("a", None, None), var("v", None, None)];
    let flags = strings(&["-v"]);
    match substitute(&"$a $v".to_string(), &vars, &flags, &"dev".to_string()) {
        Substituted::Missing(name) => assert_eq!(name, "a"),
        _ => panic!("expected a missing variable"),
    }
}

#[test]
fn validate_accepts_documented_cmake_config() {
    let c = config(
        vec![run_command("start", &["cmake ..", "make", "./$projectName"])],
        Some(vec![var("projectName", Some("init, start"), None)]),
    );
    assert!(validateConfig(&c).is_ok());
}

#[test]
fn validate_rejects_unknown_command() {
    let c = config(
        vec![run_command("start", &["make"])],
        Some(vec![var("a", Some("init"), None), var("b", Some("start,build, test"), None)]),
    );
    match validateConfig(&c) {
        Err(e) => assert_eq!(e.message, "No command build found in config!"),
        Ok(()) => panic!("expected an error"),
    }
}

#[test]
fn validate_names_entry_as_written() {
    let c = config(vec![run_command("start", &["make"])], Some(vec![var("a", Some("init, deploy"), None)]));
    match validateConfig(&c) {
        Err(e) => assert_eq!(e.message, "No command  deploy found in config!"),
        Ok(()) => panic!("expected an error"),
    }
}

#[test]
fn validate_accepts_empty_or_absent_req_for() {
    let c = config(vec![], Some(vec![var("a", Some(""), None), var("b", None, None)]));
    assert!(validateConfig(&c).is_ok());
    let c = config(vec![], None);
    assert!(validateConfig(&c).is_ok());
}
