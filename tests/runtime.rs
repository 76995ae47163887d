use humsh::command_line::{Arg, CommandLine};
use humsh::data::{
    button, exec_button, exec_cmd, flag_button, group, page, prompt_button, prompt_arg,
    subcommand_page_button, Handler, Menu, PageAction, Program,
};
use humsh::input::Key;
use humsh::ui::{BgTaskId, Effect, EscapeAction, Event, Ui};
use humsh::input::KeyOutcome;

fn strings(v: &[&str]) -> Vec<String> {
    v.iter().map(|s| s.to_string()).collect()
}

/// Presses `c` on the top page and runs what the state can run by itself.
fn press(ui: &mut Ui, menu: &Menu, c: char) -> Option<Effect> {
    let page = menu.page(ui.currrent_page()).unwrap();
    let keys = page.keybinds();
    match ui.process_event(Event::Key(Key::Char(c)), &keys) {
        Some(KeyOutcome::Run(i)) => {
            let handler = page.button(i).unwrap().handler.clone();
            Some(ui.apply_handler(&handler))
        }
        _ => None,
    }
}

fn push_menu() -> (Menu, Program) {
    let mut menu = Menu::new();
    let push_page = menu.add_page(page(vec![group(
        "Arguments",
        vec![flag_button("n", "Dry run", "--dry-run"), flag_button("a", "All", "--all")],
    )]));
    let program = Program { base: CommandLine::from_args(vec![Arg::program("git")]), start: push_page };
    (menu, program)
}

#[test]
fn toggle_flag_end_to_end() {
    let (menu, program) = push_menu();
    let mut ui = Ui::new(program.base, program.start);
    assert_eq!(press(&mut ui, &menu, 'n'), Some(Effect::Done));
    assert_eq!(ui.command_line().to_args(), strings(&["git", "--dry-run"]));
    assert_eq!(press(&mut ui, &menu, 'n'), Some(Effect::Done));
    assert_eq!(ui.command_line().to_args(), strings(&["git"]));
}

#[test]
fn escape_drops_subpage_arguments() {
    let mut menu = Menu::new();
    let push = subcommand_page_button(
        &mut menu,
        "p",
        "Push",
        strings(&["push"]),
        vec![flag_button("n", "Dry run", "--dry-run")],
        vec![exec_button("p", "Push", vec![], PageAction::Pop)],
    );
    let home = menu.add_page(page(vec![group("Commands", vec![push])]));
    let mut ui = Ui::new(CommandLine::from_args(vec![Arg::program("git")]), home);
    assert_eq!(press(&mut ui, &menu, 'p'), Some(Effect::Done));
    assert!(!ui.is_root());
    assert_eq!(ui.command_line().to_args(), strings(&["git", "push"]));
    assert_eq!(press(&mut ui, &menu, 'n'), Some(Effect::Done));
    assert_eq!(ui.command_line().to_args(), strings(&["git", "push", "--dry-run"]));
    assert_eq!(ui.escape(), EscapeAction::Popped);
    assert_eq!(ui.command_line().to_args(), strings(&["git"]));
    assert_eq!(ui.currrent_page(), home);
    assert_eq!(ui.escape(), EscapeAction::Exit);
}

#[test]
fn pop_at_root_refused() {
    let mut ui = Ui::new(CommandLine::from_args(vec![Arg::program("git")]), 3);
    assert!(!ui.pop_page());
    assert!(ui.is_root());
    assert_eq!(ui.currrent_page(), 3);
    assert_eq!(ui.command_line().to_args(), strings(&["git"]));
}

#[test]
fn push_then_pop_restores_snapshot() {
    let mut ui = Ui::new(CommandLine::from_args(vec![Arg::program("git")]), 0);
    ui.command_line_mut().add_arg(Arg::switch("--all"));
    ui.push_page(1);
    assert_eq!(ui.currrent_page(), 1);
    ui.command_line_mut().add_arg(Arg::subcommand("push"));
    ui.command_line_mut().toggle_arg(Arg::switch("--all"));
    assert!(ui.pop_page());
    assert_eq!(ui.currrent_page(), 0);
    assert_eq!(ui.command_line().to_args(), strings(&["git", "--all"]));
}

#[test]
fn replace_keeps_command_line() {
    let mut ui = Ui::new(CommandLine::from_args(vec![Arg::program("git")]), 0);
    ui.push_page(1);
    ui.command_line_mut().add_arg(Arg::switch("-v"));
    ui.replace_page(7);
    assert_eq!(ui.currrent_page(), 7);
    assert_eq!(ui.command_line().to_args(), strings(&["git", "-v"]));
    ui.replace_page(8);
    assert!(ui.pop_page());
    ui.replace_page(9);
    assert_eq!(ui.currrent_page(), 9);
    assert!(ui.is_root());
}

#[test]
fn escape_hides_command_view_first() {
    let mut ui = Ui::new(CommandLine::new(), 0);
    ui.push_page(1);
    ui.toggle_cmd();
    assert!(ui.showing_cmd());
    assert_eq!(ui.escape(), EscapeAction::HideCommand);
    assert!(!ui.showing_cmd());
    assert_eq!(ui.escape(), EscapeAction::Popped);
    ui.show_cmd();
    ui.hide_cmd();
    assert_eq!(ui.escape(), EscapeAction::Exit);
}

#[test]
fn status_events_only_touch_status() {
    let mut ui = Ui::new(CommandLine::new(), 0);
    let none = Vec::new();
    assert_eq!(ui.process_event(Event::Status(BgTaskId(2), "direnv loading".to_string()), &none), None);
    assert_eq!(ui.process_event(Event::Status(BgTaskId(1), "fetch".to_string()), &none), None);
    assert_eq!(ui.status().values().cloned().collect::<Vec<_>>(), strings(&["fetch", "direnv loading"]));
    ui.process_event(Event::Status(BgTaskId(2), "direnv ready".to_string()), &none);
    assert_eq!(ui.status().get(&2).unwrap(), "direnv ready");
    ui.process_event(Event::RemoveStatus(BgTaskId(2)), &none);
    assert_eq!(ui.status().len(), 1);
    assert_eq!(ui.process_event(Event::Other, &none), None);
    assert!(ui.is_root());
}

#[test]
fn pending_prefix_visible() {
    let mut ui = Ui::new(CommandLine::new(), 0);
    let keys = vec![humsh::input::Keybind("tt".to_string())];
    assert_eq!(ui.process_event(Event::Key(Key::Char('t')), &keys), Some(KeyOutcome::Pending));
    assert_eq!(ui.key_prefix(), "t");
    assert_eq!(ui.process_event(Event::Key(Key::Char('t')), &keys), Some(KeyOutcome::Run(0)));
    assert_eq!(ui.key_prefix(), "");
}

#[test]
fn prompt_button_sets_and_unsets() {
    let mut menu = Menu::new();
    let p = menu.add_page(page(vec![group("Arguments", vec![prompt_button("b", "Branch", "--branch", 4)])]));
    let mut ui = Ui::new(CommandLine::from_args(vec![Arg::program("jj")]), p);
    assert_eq!(press(&mut ui, &menu, 'b'), Some(Effect::Ask(4)));
    let handler = menu.page(p).unwrap().button(0).unwrap().handler.clone();
    let Handler::Prompt(prompt) = handler else { panic!("prompt expected") };
    prompt.set_values(ui.command_line_mut(), strings(&["main", "dev"]));
    assert_eq!(ui.command_line().to_args(), strings(&["jj", "--branch", "main", "--branch", "dev"]));
    assert_eq!(prompt.get_value(ui.command_line()), Some("main dev".to_string()));
    assert_eq!(press(&mut ui, &menu, 'b'), Some(Effect::Done));
    assert_eq!(ui.command_line().to_args(), strings(&["jj"]));
    assert_eq!(prompt.get_value(ui.command_line()), None);
}

#[test]
fn exec_and_custom_effects() {
    let mut menu = Menu::new();
    let p = menu.add_page(page(vec![group(
        "Commands",
        vec![exec_button("l", "Log", vec![Arg::subcommand("log")], PageAction::Stay), button("s", "Shell", Handler::Custom(11))],
    )]));
    let mut ui = Ui::new(CommandLine::from_args(vec![Arg::program("jj")]), p);
    assert_eq!(press(&mut ui, &menu, 'l'), Some(Effect::Exec));
    assert_eq!(press(&mut ui, &menu, 's'), Some(Effect::Custom(11)));
    assert_eq!(ui.command_line().to_args(), strings(&["jj"]));
    let run = exec_cmd(ui.command_line(), &vec![Arg::subcommand("log"), Arg::switch("-r")]);
    assert_eq!(run.to_args(), strings(&["jj", "log", "-r"]));
    assert_eq!(ui.command_line().to_args(), strings(&["jj"]));
    prompt_arg(ui.command_line_mut(), vec![Arg::switch("--revision=abc")]);
    assert_eq!(ui.command_line().to_string(), "jj --revision=abc");
}
