use init_anything::{
    collectTemplates, commandExecuteError, copyStep, initFailure, initTemplate, InitAction,
    initTemplatePanics, renderVarFile, renderVarFilePanics, runCmd, runCmdPanics, runFailure,
    CommandString, Config, DependencyAdd, Execution, RunCommand, Template, TemplateCandidate, Var,
};

fn strings(words: &[&str]) -> Vec<String> {
    words.iter().map(|w| w.to_string()).collect()
}

fn var(name: &str, req_for: Option<&str>, default: Option<&str>) -> Var {
    Var {
        name: name.to_string(),
        reqFor: req_for.map(|s| s.to_string()),
        default: default.map(|s| s.to_string()),
    }
}

fn line(command: &str, exec_dir: Option<&str>) -> CommandString {
    CommandString { command: command.to_string(), execDir: exec_dir.map(|s| s.to_string()) }
}

fn empty_config(name: &str) -> Config {
    Config {
        name: name.to_string(),
        runCommands: None,
        initCommands: None,
        addDeps: None,
        vars: None,
        varFiles: None,
        forceInitVerbose: None,
    }
}

fn cmake_config() -> Config {
    let mut c = empty_config("Cmake");
    c.runCommands = Some(vec![RunCommand {
        name: "start".to_string(),
        runAsync: None,
        commands: vec![line("cmake ..", Some("./build")), line("make", None), line("./$projectName", None)],
    }]);
    c.varFiles = Some(strings(&["./CMakeLists.txt"]));
    c.vars = Some(vec![var("projectName", Some("init, start"), None)]);
    c
}

fn tide_config() -> Config {
    let mut c = empty_config("Rust - Tide - HTMX - Alpine");
    c.runCommands = Some(vec![RunCommand {
        name: "dev".to_string(),
        runAsync: Some(true),
        commands: vec![
            line("live-server --port=$port0 ./pages", None),
            line("cargo watch -x run%20$port1", None),
        ],
    }]);
    c.initCommands = Some(vec![line("cargo init", None), line("git init", None)]);
    c.forceInitVerbose = Some(true);
    c.addDeps = Some(vec![DependencyAdd {
        command: "cargo add".to_string(),
        deps: strings(&["serde --features=derive", "tide"]),
    }]);
    c.vars = Some(vec![var("port0", None, Some("3017")), var("port1", None, Some("3018"))]);
    c
}

fn check_step(step: &Execution, program: &str, args: &[&[&str]], flags: &[&str], run_async: bool, dir: Option<&str>) {
    assert_eq!(step.program, program);
    let expected: Vec<Vec<String>> = args.iter().map(|g| strings(g)).collect();
    assert_eq!(step.args, expected);
    assert_eq!(step.flags, strings(flags));
    assert_eq!(step.runAsync, run_async);
    assert_eq!(step.workDir, dir.map(|s| s.to_string()));
}

#[test]
fn run_plans_documented_cmake_start() {
    let config = cmake_config();
    let flags = strings(&["--projectName=Example"]);
    let args = strings(&["init-anything", "run", "start"]);
    assert!(!runCmdPanics(&config, &flags, &args));
    let plan = runCmd(&config, &flags, &args);
    assert!(plan.outcome.is_ok());
    assert_eq!(plan.steps.len(), 3);
    check_step(&plan.steps[0], "cmake", &[&[".."]], &["--projectName=Example"], false, Some("./build"));
    check_step(&plan.steps[1], "make", &[&[]], &["--projectName=Example"], false, None);
    check_step(&plan.steps[2], "./Example", &[&[]], &["-v"], false, None);
}

#[test]
fn run_last_line_waits_others_follow_run_async() {
    let config = tide_config();
    let flags = strings(&["--port0=8080"]);
    let plan = runCmd(&config, &flags, &strings(&["ia", "run", "dev"]));
    assert!(plan.outcome.is_ok());
    assert_eq!(plan.steps.len(), 2);
    check_step(&plan.steps[0], "live-server", &[&["--port=8080", "./pages"]], &["--port0=8080"], true, None);
    check_step(&plan.steps[1], "cargo", &[&["watch", "-x", "run 3018"]], &["-v"], false, None);
}

#[test]
fn run_stops_at_missing_variable() {
    let config = cmake_config();
    // Every line needs the variable, whether it mentions it or not.
    let plan = runCmd(&config, &vec![], &strings(&["ia", "run", "start"]));
    assert_eq!(plan.steps.len(), 0);
    match plan.outcome {
        Err(e) => assert_eq!(e.message, "Could not find variable projectName and no default was given!"),
        Ok(()) => panic!("expected an error"),
    }
}

#[test]
fn run_reports_unknown_command() {
    let config = cmake_config();
    let plan = runCmd(&config, &vec![], &strings(&["ia", "run", "build"]));
    assert!(plan.steps.is_empty());
    match plan.outcome {
        Err(e) => assert_eq!(e.message, "No command build found in config!"),
        Ok(()) => panic!("expected an error"),
    }
}

#[test]
fn run_reports_missing_run_commands() {
    let mut config = empty_config("x");
    let plan = runCmd(&config, &vec![], &strings(&["ia", "run"]));
    assert!(plan.steps.is_empty());
    match plan.outcome {
        Err(e) => assert_eq!(e.message, "No commands found in config!"),
        Ok(()) => panic!("expected an error"),
    }
    config.runCommands = Some(vec![]);
    let plan = runCmd(&config, &vec![], &strings(&["ia", "run", "x"]));
    assert!(matches!(plan.outcome, Err(_)));
}

#[test]
fn run_panics_on_missing_name_or_valueless_flag() {
    let config = cmake_config();
    assert!(runCmdPanics(&config, &vec![], &strings(&["ia", "run"])));
    let mut c = tide_config();
    c.vars = Some(vec![var("v", None, None)]);
    assert!(runCmdPanics(&c, &strings(&["-v"]), &strings(&["ia", "run", "dev"])));
    assert!(!runCmdPanics(&c, &strings(&["-v"]), &strings(&["ia", "run", "other"])));
}

#[test]
fn run_failure_message() {
    let e = runFailure(commandExecuteError { message: "No such file".to_string(), command: "make".to_string() });
    assert_eq!(e.message, "Error running command make: No such file");
}

fn run_of(action: &InitAction) -> &Execution {
    match action {
        InitAction::Run(e) => e,
        _ => panic!("expected a program to start"),
    }
}

#[test]
fn init_plans_commands_copies_files_and_dependencies_in_order() {
    let mut config = tide_config();
    config.varFiles = Some(strings(&["./Cargo.toml", "./src/main.rs"]));
    let template = Template { config, path: "/t".to_string() };
    let flags = strings(&["-v"]);
    assert!(!initTemplatePanics(&template, &flags));
    let actions = initTemplate(&template, &flags);
    assert_eq!(actions.len(), 7);
    check_step(run_of(&actions[0]), "cargo", &[&["init"]], &["-v"], false, None);
    check_step(run_of(&actions[1]), "git", &[&["init"]], &["-v"], false, None);
    assert!(matches!(actions[2], InitAction::CopyTemplateFiles));
    match (&actions[3], &actions[4]) {
        (InitAction::SubstituteFile(a), InitAction::SubstituteFile(b)) => {
            assert_eq!(a, "./Cargo.toml");
            assert_eq!(b, "./src/main.rs");
        },
        _ => panic!("expected the variable files"),
    }
    check_step(run_of(&actions[5]), "cargo", &[&["add"], &["serde", "--features=derive"]], &["-v"], false, None);
    check_step(run_of(&actions[6]), "cargo", &[&["add"], &["tide"]], &["-v"], false, None);
}

#[test]
fn init_without_commands_copies_then_adds() {
    let mut config = empty_config("plain");
    config.addDeps = Some(vec![DependencyAdd { command: "npm install".to_string(), deps: strings(&["htmx.org"]) }]);
    let actions = initTemplate(&Template { config, path: "/t".to_string() }, &vec![]);
    assert_eq!(actions.len(), 2);
    assert!(matches!(actions[0], InitAction::CopyTemplateFiles));
    check_step(run_of(&actions[1]), "npm", &[&["install"], &["htmx.org"]], &[], false, None);
}

#[test]
fn init_substitutes_variables_for_init() {
    let mut config = cmake_config();
    config.initCommands = Some(vec![line("mkdir $projectName", None), line("echo done", Some("./$projectName"))]);
    config.addDeps = Some(vec![DependencyAdd { command: "x".to_string(), deps: strings(&["y"]) }]);
    let template = Template { config, path: "/t".to_string() };
    let actions = initTemplate(&template, &strings(&["--projectName=demo"]));
    assert_eq!(actions.len(), 5);
    check_step(run_of(&actions[0]), "mkdir", &[&["demo"]], &["--projectName=demo"], false, None);
    // An init command runs in its own `execDir`, taken as written.
    check_step(run_of(&actions[1]), "echo", &[&["done"]], &["--projectName=demo"], false, Some("./$projectName"));
    let actions = initTemplate(&template, &vec![]);
    assert_eq!(actions.len(), 1);
    match &actions[0] {
        InitAction::Fail(e) => assert_eq!(e.message, "Could not find variable projectName and no default was given!"),
        _ => panic!("expected the initialization to end with an error"),
    }
}

#[test]
fn copy_step_copies_entry_recursively() {
    let step = copyStep(&"/home/u/.init-anything/templates/rust/src".to_string(), &strings(&["-v"]));
    check_step(&step, "cp", &[&["-r", "/home/u/.init-anything/templates/rust/src", "./"]], &["-v"], false, None);
}

#[test]
fn var_file_rendering() {
    let config = cmake_config();
    let flags = strings(&["--projectName=Example"]);
    let content = "project($projectName)\nadd_executable($projectName main.cpp)\n".to_string();
    assert!(!renderVarFilePanics(&content, &config, &flags));
    let r = renderVarFile(content, &config, &flags);
    assert_eq!(r.ok().unwrap(), "project(Example)\nadd_executable(Example main.cpp)\n");
    match renderVarFile("$projectName".to_string(), &config, &vec![]) {
        Err(e) => assert_eq!(e.message, "Could not find variable projectName and no default was given!"),
        Ok(_) => panic!("expected an error"),
    }
}

#[test]
fn init_failure_keeps_message() {
    let e = initFailure(commandExecuteError { message: "denied".to_string(), command: "cp".to_string() });
    assert_eq!(e.message, "denied");
}

#[test]
fn collect_templates_in_order() {
    let candidates = vec![
        TemplateCandidate { path: "/t/a".to_string(), configPath: "/t/a/init-anything.json".to_string(), parsed: Ok(cmake_config()) },
        TemplateCandidate { path: "/t/b".to_string(), configPath: "/t/b/init-anything.json".to_string(), parsed: Ok(tide_config()) },
    ];
    let ts = collectTemplates(candidates).ok().unwrap();
    assert_eq!(ts.len(), 2);
    assert_eq!(ts[0].path, "/t/a");
    assert_eq!(ts[0].config.name, "Cmake");
    assert_eq!(ts[1].config.name, "Rust - Tide - HTMX - Alpine");
}

#[test]
fn collect_templates_reports_parse_error() {
    let candidates = vec![
        TemplateCandidate { path: "/t/a".to_string(), configPath: "/t/a/init-anything.json".to_string(), parsed: Ok(cmake_config()) },
        TemplateCandidate { path: "/t/b".to_string(), configPath: "/t/b/init-anything.json".to_string(), parsed: Err("expected value at line 1 column 1".to_string()) },
    ];
    match collectTemplates(candidates) {
        Err(e) => {
            assert_eq!(e.message, "expected value at line 1 column 1");
            assert_eq!(e.configPath, Some("/t/b/init-anything.json".to_string()));
        },
        Ok(_) => panic!("expected an error"),
    }
}

#[test]
fn collect_templates_reports_invalid_config() {
    let mut bad = cmake_config();
    bad.vars = Some(vec![var("projectName", Some("init, build"), None)]);
    let candidates = vec![TemplateCandidate { path: "/t/a".to_string(), configPath: "/t/a/init-anything.json".to_string(), parsed: Ok(bad) }];
    match collectTemplates(candidates) {
        Err(e) => {
            // The entry is named as it is written, with its leading space.
            assert_eq!(e.message, "No command  build found in config!");
            assert_eq!(e.configPath, Some("/t/a/init-anything.json".to_string()));
        },
        Ok(_) => panic!("expected an error"),
    }
}

#[test]
fn collect_templates_needs_one() {
    match collectTemplates(vec![]) {
        Err(e) => {
            assert_eq!(e.message, "No init-anything.json files found");
            assert!(e.configPath.is_none());
        },
        Ok(_) => panic!("expected an error"),
    }
}
