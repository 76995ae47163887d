use humsh::command_line::{join_tokens, Arg, ArgOrder, ArgValue, CommandLine, ProgramError};

fn strings(v: &[&str]) -> Vec<String> {
    v.iter().map(|s| s.to_string()).collect()
}

#[test]
fn toggle_twice_restores_line() {
    let mut line = CommandLine::from_args(vec![Arg::program("git"), Arg::switch("--all")]);
    let before = line.to_args();
    line.toggle_arg(Arg::switch("--dry-run"));
    assert_eq!(line.to_args(), strings(&["git", "--all", "--dry-run"]));
    line.toggle_arg(Arg::switch("--dry-run"));
    assert_eq!(line.to_args(), before);
    line.toggle_arg(Arg::switch("--all"));
    line.toggle_arg(Arg::switch("--all"));
    assert_eq!(line.to_args(), before);
}

#[test]
fn render_in_tier_order_program_first() {
    let mut line = CommandLine::new();
    line.add_arg(Arg::positional("origin"));
    line.add_arg(Arg::switch("--dry-run"));
    line.add_arg(Arg::subcommand("push"));
    line.add_arg(Arg::program("git"));
    assert_eq!(line.to_args(), strings(&["git", "push", "--dry-run", "origin"]));
    assert_eq!(line.to_string(), "git push --dry-run origin");
}

#[test]
fn same_tier_sorted_by_value() {
    let mut line = CommandLine::new();
    line.add_arg(Arg::switch("--b"));
    line.add_arg(Arg::switch("--a"));
    line.add_arg(Arg::new(ArgOrder::flag(), ArgValue::Multi(strings(&["--a", "x"]))));
    assert_eq!(line.to_args(), strings(&["--a", "--b", "--a", "x"]));
}

#[test]
fn add_is_idempotent() {
    let mut line = CommandLine::new();
    line.add_arg(Arg::switch("--x"));
    line.add_arg(Arg::switch("--x"));
    assert_eq!(line.args().len(), 1);
    assert!(line.contains(&Arg::switch("--x")));
    assert!(!line.contains(&Arg::subcommand("--x")));
}

#[test]
fn custom_tier_between_subcommands() {
    let mut line = CommandLine::new();
    line.add_arg(Arg::subcommand_order("create", 1));
    line.add_arg(Arg::subcommand("branch"));
    line.add_arg(Arg::program("jj"));
    assert_eq!(line.to_args(), strings(&["jj", "branch", "create"]));
    assert_eq!(ArgOrder::custom(201), ArgOrder::custom(201));
}

#[test]
fn subcommand_words_stay_together() {
    let mut line = CommandLine::from_args(vec![Arg::program("jj")]);
    line.add_arg(Arg::subcommands(strings(&["git", "push"])));
    line.add_arg(Arg::switch("--all"));
    assert_eq!(line.to_string(), "jj git push --all");
}

#[test]
fn remove_reports_presence() {
    let mut line = CommandLine::from_args(vec![Arg::program("git"), Arg::switch("--v")]);
    assert!(line.remove_arg(&Arg::switch("--v")));
    assert!(!line.remove_arg(&Arg::switch("--v")));
    assert_eq!(line.to_args(), strings(&["git"]));
}

#[test]
fn argv_splits_program() {
    let line = CommandLine::from_args(vec![Arg::program("git"), Arg::subcommand("log"), Arg::switch("-p")]);
    let (program, rest) = line.to_argv().unwrap();
    assert_eq!(program, "git");
    assert_eq!(rest, strings(&["log", "-p"]));
}

#[test]
fn argv_errors() {
    assert_eq!(CommandLine::new().to_argv().unwrap_err(), ProgramError::Missing);
    let line = CommandLine::from_args(vec![Arg::new(ArgOrder::program(), ArgValue::Multi(strings(&["a", "b"])))]);
    assert_eq!(line.to_argv().unwrap_err(), ProgramError::NotSingle);
}

#[test]
fn value_rendering() {
    let mut out = vec!["x".to_string()];
    ArgValue::Multi(strings(&["--revision", "abc"])).add_to(&mut out);
    assert_eq!(out, strings(&["x", "--revision", "abc"]));
    assert_eq!(ArgValue::Multi(strings(&["a", "b", "c"])).to_string(), "a b c");
    assert_eq!(ArgValue::Single("one".to_string()).to_string(), "one");
    assert_eq!(join_tokens(&Vec::new()), "");
}

#[test]
fn duplicate_is_equal() {
    let line = CommandLine::from_args(vec![Arg::program("git"), Arg::switch("--all")]);
    let copy = line.duplicate();
    assert_eq!(copy.to_args(), line.to_args());
    let a = Arg::switch("--q");
    assert_eq!(a.duplicate(), a);
}
