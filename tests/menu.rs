use humsh::command_line::{Arg, CommandLine};
use humsh::data::{
    args_page, button, flag_button, group, page, subcommand_button, ButtonValue, Handler, Menu,
    Page, PromptButton, ToggleFlag,
};

#[test]
fn keybinds_flatten_groups_in_order() {
    let p = page(vec![
        group("A", vec![flag_button("a", "A", "--a"), flag_button("b", "B", "--b")]),
        group("Empty", vec![]),
        group("C", vec![button("cc", "C", Handler::Custom(1))]),
    ]);
    let keys: Vec<String> = p.keybinds().into_iter().map(|k| k.0).collect();
    assert_eq!(keys, vec!["a", "b", "cc"]);
    assert_eq!(p.button(2).unwrap().key.0, "cc");
    assert_eq!(p.button(1).unwrap().description, "B");
    assert!(p.button(3).is_none());
}

#[test]
fn page_status_and_groups() {
    let mut p = Page::empty();
    assert_eq!(p.status(), None);
    p.status_cache = Some("clean".to_string());
    assert_eq!(p.status(), Some("clean"));
    p.add_group(group("G", vec![]));
    assert_eq!(p.groups.len(), 1);
    let a = args_page(vec![flag_button("x", "X", "-x")], vec![]);
    assert_eq!(a.groups[0].description, "Arguments");
    assert_eq!(a.groups[1].description, "Action");
}

#[test]
fn menu_pages_by_number() {
    let mut menu = Menu::new();
    assert_eq!(menu.add_page(Page::empty()), 0);
    assert_eq!(menu.add_page(page(vec![group("G", vec![flag_button("q", "Q", "-q")])])), 1);
    assert_eq!(menu.keybinds(1).len(), 1);
    assert_eq!(menu.keybinds(5).len(), 0);
    assert!(menu.page(2).is_none());
    menu.set_page(0, page(vec![group("H", vec![])]));
    assert_eq!(menu.page(0).unwrap().groups[0].description, "H");
}

#[test]
fn handler_values() {
    let mut line = CommandLine::from_args(vec![Arg::program("jj")]);
    let t = Handler::Toggle(ToggleFlag("--all".to_string()));
    assert_eq!(t.value(&line), Some(ButtonValue::Bool { name: "--all".to_string(), value: false }));
    line.add_arg(Arg::switch("--all"));
    assert_eq!(t.value(&line), Some(ButtonValue::Bool { name: "--all".to_string(), value: true }));
    let p = PromptButton::new("--to".to_string(), 0);
    assert_eq!(
        Handler::Prompt(p.clone()).value(&line),
        Some(ButtonValue::String { name: "--to".to_string(), value: None })
    );
    p.set_values(&mut line, vec!["x".to_string()]);
    assert_eq!(
        Handler::Prompt(p.clone()).value(&line),
        Some(ButtonValue::String { name: "--to".to_string(), value: Some("x".to_string()) })
    );
    p.unset_value(&mut line);
    assert_eq!(line.to_string(), "jj --all");
    assert_eq!(Handler::Custom(3).value(&line), None);
    let s = subcommand_button("p", "Push", vec!["git".to_string(), "push".to_string()], 4);
    match s.handler {
        Handler::SubPage { arg, page } => {
            assert_eq!(page, 4);
            assert_eq!(arg.value.to_string(), "git push");
        }
        _ => panic!("sub-page expected"),
    }
}
