use humsh::cp::{contains_name, join, Cp, CpError};
use humsh::multi_term::{find_tab, parse_new_tab, parse_tabs, parse_u64, MultiTerm, TabError, TabHandle};
use humsh::pick::{fzf_selection, picked_fields, PickError};
use humsh::text::{split_once, split_text};
use humsh::shell_context::configured;
use humsh::util::{exit_status_to_error, ExitError};

#[test]
fn fzf_choice_and_query() {
    assert_eq!(fzf_selection(Some(0), "que\n  abc1  \n"), Ok("abc1".to_string()));
    assert_eq!(fzf_selection(Some(1), " new-contest \n"), Ok("new-contest".to_string()));
    assert_eq!(fzf_selection(Some(0), "only"), Err(PickError::UnexpectedOutput));
    assert_eq!(fzf_selection(Some(130), ""), Err(PickError::Cancelled));
    assert_eq!(fzf_selection(Some(2), ""), Err(PickError::UnexpectedCode));
    assert_eq!(fzf_selection(None, "x\ny"), Err(PickError::UnexpectedCode));
}

#[test]
fn picked_revisions_and_branches() {
    let revs = picked_fields("\n  kx 2024 me\r\nzz abc\n\n", ' ');
    assert_eq!(revs, Ok(vec!["kx".to_string(), "zz".to_string()]));
    assert_eq!(picked_fields("main: abc\ndev: def", ':'), Ok(vec!["main".to_string(), "dev".to_string()]));
    assert_eq!(picked_fields("   ", ' '), Ok(vec![]));
    assert_eq!(picked_fields("abc", ' '), Err(PickError::UnexpectedOutput));
}

#[test]
fn text_splitting() {
    assert_eq!(split_text("a,b,,c", ','), vec!["a", "b", "", "c"]);
    assert_eq!(split_text("", ','), vec![""]);
    assert_eq!(split_once("k=v=w", '='), Some(("k".to_string(), "v=w".to_string())));
    assert_eq!(split_once("kv", '='), None);
}

#[test]
fn workspace_paths() {
    let mut cp = Cp::new("/home/u/cp".to_string());
    assert_eq!(cp.current_problem_path(), Err(CpError::NoActiveContest));
    assert_eq!(cp.problem_path("a"), Err(CpError::NoActiveContest));
    cp.set_active_contest("abc300");
    assert_eq!(cp.current_problem_path(), Err(CpError::NoActiveProblem));
    cp.set_active_problem("d");
    assert_eq!(cp.current_problem_path(), Ok("/home/u/cp/abc300/d".to_string()));
    assert_eq!(cp.code_path(), Ok("/home/u/cp/abc300/d/main.cpp".to_string()));
    assert_eq!(cp.tests_path(), Ok("/home/u/cp/abc300/d/tests".to_string()));
    assert_eq!(cp.contest_path("x"), "/home/u/cp/x");
    assert_eq!(cp.current_contest(), Some("abc300".to_string()));
    assert_eq!(cp.current_problem(), Some("d".to_string()));
    assert_eq!(cp.base_path(), "/home/u/cp");
    cp.restore(None, Some("e".to_string()));
    assert_eq!(cp.current_contest(), None);
    assert_eq!(cp.current_problem_path(), Err(CpError::NoActiveContest));
}

#[test]
fn path_join_rules() {
    assert_eq!(join("a/", "b"), "a/b");
    assert_eq!(join("", "b"), "b");
    assert_eq!(join("a", "/abs"), "/abs");
}

#[test]
fn picking_contest_reports_new_ones() {
    let mut cp = Cp::new("base".to_string());
    let known = vec!["abc1".to_string(), "abc2".to_string()];
    assert!(!cp.select_contest_with_fzf(&known, "abc2"));
    assert_eq!(cp.current_contest(), Some("abc2".to_string()));
    assert!(cp.select_contest_with_fzf(&known, "abc3"));
    assert!(cp.select_problem_with_fzf(&vec![], "a"));
    assert_eq!(cp.current_problem(), Some("a".to_string()));
    assert!(contains_name(&known, "abc1"));
    assert!(!contains_name(&known, "abc"));
}

#[test]
fn tmux_tabs() {
    let tabs = parse_tabs("@1,editor,1\n@2,\"shell, two\",2\n").unwrap();
    assert_eq!(tabs.len(), 2);
    assert_eq!(tabs[1].name(), "shell, two");
    assert_eq!(tabs[1].number(), 2);
    assert_eq!(tabs[0].window_id(), "@1");
    assert_eq!(find_tab(&tabs, 2), Some(1));
    assert_eq!(find_tab(&tabs, 9), None);
    assert_eq!(parse_tabs("@1,a,x\n"), Err(TabError::BadRecord));
    assert_eq!(parse_tabs("@1,a\n"), Err(TabError::BadRecord));
    assert_eq!(parse_tabs(""), Ok(vec![]));
    assert_eq!(parse_new_tab(""), Err(TabError::Empty));
    let t = parse_new_tab("@7,hx,3\n").unwrap();
    assert_eq!(t, TabHandle::new("@7".to_string(), "hx".to_string(), 3));
}

#[test]
fn decimal_numbers() {
    assert_eq!(parse_u64("0"), Some(0));
    assert_eq!(parse_u64("+42"), Some(42));
    assert_eq!(parse_u64("18446744073709551615"), Some(u64::MAX));
    assert_eq!(parse_u64("18446744073709551616"), None);
    assert_eq!(parse_u64(""), None);
    assert_eq!(parse_u64("+"), None);
    assert_eq!(parse_u64("1a"), None);
}

#[test]
fn tmux_arguments() {
    let m = MultiTerm::tmux();
    let args = m.new_window_args(
        &vec![("A".to_string(), "1".to_string())],
        "hx",
        &vec![".".to_string()],
    );
    assert_eq!(
        args,
        vec!["new-window", "-F#{window_id},#{window_name},#{window_index}", "-P", "-eA=1", "hx", "."]
    );
    assert_eq!(m.list_windows_args(), vec!["list-windows", "-F#{window_id},#{window_name},#{window_index}"]);
    let t = TabHandle::new("@3".to_string(), "x".to_string(), 1);
    assert_eq!(m.focus_args(&t), vec!["select-window", "-t", "@3"]);
}

#[test]
fn exit_codes() {
    assert_eq!(exit_status_to_error(true, Some(0)), Ok(()));
    assert_eq!(exit_status_to_error(false, Some(2)), Err(ExitError { code: 2 }));
    assert_eq!(exit_status_to_error(false, None), Err(ExitError { code: -1 }));
}

#[test]
fn project_setting_overrides_user() {
    assert_eq!(configured(Some(false), Some(true)), Some(false));
    assert_eq!(configured(None, Some(true)), Some(true));
    assert_eq!(configured(None, None), None);
}
