use init_anything::text::{replace_str, split_char, trim_matches_char};
use init_anything::{getCommandArgs, initFlags, isVerbose, parseMode, passFlags, Config, Mode};

fn strings(words: &[&str]) -> Vec<String> {
    words.iter().map(|w| w.to_string()).collect()
}

fn empty_config(name: &str) -> Config {
    Config {
        name: name.to_string(),
        runCommands: None,
        initCommands: None,
        addDeps: None,
        vars: None,
        varFiles: None,
        forceInitVerbose: None,
    }
}

#[test]
fn pass_flags_splits_flags_from_arguments() {
    let total = strings(&["init-anything", "run", "dev", "--port0=8080", "-v", "extra"]);
    let (args, flags) = passFlags(total);
    assert_eq!(args, strings(&["init-anything", "run", "dev", "extra"]));
    assert_eq!(flags, strings(&["--port0=8080", "-v"]));
}

#[test]
fn pass_flags_without_flags() {
    let (args, flags) = passFlags(strings(&["init-anything", "init"]));
    assert_eq!(args, strings(&["init-anything", "init"]));
    assert!(flags.is_empty());
}

#[test]
fn pass_flags_partition_law_example() {
    let total = strings(&["a", "-b", "--c=d", "e", "-"]);
    let n = total.len();
    let (args, flags) = passFlags(total);
    assert_eq!(args.len() + flags.len(), n);
    assert_eq!(flags, strings(&["-b", "--c=d", "-"]));
}

#[test]
fn command_args_split_at_spaces() {
    assert_eq!(getCommandArgs("cargo init"), strings(&["cargo", "init"]));
    assert_eq!(getCommandArgs("git"), strings(&["git"]));
}

#[test]
fn command_args_keep_escaped_spaces_in_one_argument() {
    let args = getCommandArgs("cargo watch --ignore \"static\" -x run%20$port1");
    assert_eq!(args, strings(&["cargo", "watch", "--ignore", "\"static\"", "-x", "run $port1"]));
}

#[test]
fn command_args_keep_empty_pieces() {
    assert_eq!(getCommandArgs("a  b"), strings(&["a", "", "b"]));
    assert_eq!(getCommandArgs(""), strings(&[""]));
    assert_eq!(getCommandArgs(" x "), strings(&["", "x", ""]));
}

#[test]
fn command_args_count_law_example() {
    let c = "cmake .. -DX=a%20b  -j";
    let spaces = c.chars().filter(|&ch| ch == ' ').count();
    assert_eq!(getCommandArgs(c).len(), spaces + 1);
}

#[test]
fn command_args_join_law_example() {
    for c in ["cargo watch -x run%20$port1", "a  b%20c ", "%20%20", ""] {
        assert_eq!(getCommandArgs(c).join(" "), c.replace("%20", " "));
    }
}

#[test]
fn split_char_matches_str_split() {
    for (s, c) in [("a,b,,c", ','), ("", ','), (",", ','), ("no-sep", ','), ("x=y=z", '=')] {
        let expected: Vec<String> = s.split(c).map(|p| p.to_string()).collect();
        assert_eq!(split_char(s, c), expected);
    }
}

#[test]
fn trim_matches_char_matches_str_trim_matches() {
    for (s, c) in [("--port=1-", '-'), ("---", '-'), ("", '-'), (" init ", ' '), ("a-b", '-')] {
        assert_eq!(trim_matches_char(s, c), s.trim_matches(c).to_string());
    }
}

#[test]
fn replace_str_matches_str_replace() {
    for (s, p, r) in [
        ("$a $ab $a", "$a", "1"),
        ("aaaa", "aa", "b"),
        ("run%20$port1", "%20", " "),
        ("", "x", "y"),
        ("$port0$port0", "$port0", "$port0$"),
    ] {
        assert_eq!(replace_str(s, p, r), s.replace(p, r));
    }
}

#[test]
fn parse_mode_recognizes_init_and_run() {
    assert!(matches!(parseMode(&strings(&["ia", "init"])), Mode::Init));
    assert!(matches!(parseMode(&strings(&["ia", "run", "dev"])), Mode::Run));
    assert!(matches!(parseMode(&strings(&["ia", "run"])), Mode::Usage));
    assert!(matches!(parseMode(&strings(&["ia", "init", "x"])), Mode::Usage));
    assert!(matches!(parseMode(&strings(&["ia"])), Mode::Usage));
}

#[test]
fn init_flags_adds_verbose_when_forced() {
    let mut config = empty_config("Rust");
    config.forceInitVerbose = Some(true);
    let flags = initFlags(&config, strings(&["--x=1"]));
    assert_eq!(flags, strings(&["--x=1", "-v"]));
    assert!(isVerbose(&flags));
}

#[test]
fn init_flags_unchanged_otherwise() {
    let mut config = empty_config("Rust");
    config.forceInitVerbose = Some(false);
    assert_eq!(initFlags(&config, strings(&["--x=1"])), strings(&["--x=1"]));
    config.forceInitVerbose = None;
    let flags = initFlags(&config, vec![]);
    assert!(flags.is_empty());
    assert!(!isVerbose(&flags));
}

#[test]
fn is_verbose_looks_for_exact_flag() {
    assert!(isVerbose(&strings(&["--a=b", "-v"])));
    assert!(!isVerbose(&strings(&["-vv", "--v"])));
}
