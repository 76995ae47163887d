//! The menu model: pages of groups of buttons, and what pressing a button does
//! to the command line.
use vstd::prelude::*;
use vstd::string::StringExecFns;
use crate::command_line::{
    Arg, ArgOrder, ArgValue, ArgView, CommandLine, FLAG_TIER, ValueView, arg_set, args_view,
    join_spaced, join_tokens, strings_view, toggled,
};
use crate::input::{Keybind, keys_view};

verus! {

/// Whether a button leaves its page after running.
#[derive(Clone, Copy, Debug, PartialEq, Eq, Structural)]
pub enum PageAction {
    Pop,
    Stay,
}

/// What a button shows beside its description.
#[allow(inconsistent_fields)]
#[derive(Clone, Debug, PartialEq, Eq)]
pub enum ButtonValue {
    /// A prompted option and the values captured for it, if any.
    String { name: String, value: Option<String> },
    /// A flag and whether it is on the command line.
    Bool { name: String, value: bool },
}

/// A button that toggles a flag on the command line.
#[derive(Clone, Debug)]
pub struct ToggleFlag(pub String);

/// A button that asks for values of an option through a picker, and drops
/// them again when pressed while they are set.
#[derive(Clone, Debug)]
pub struct PromptButton {
    arg: String,
    picker: u64,
}

/// What pressing a prompt button asks for.
#[derive(Clone, Copy, Debug, PartialEq, Eq, Structural)]
pub enum PromptStep {
    /// The option's values were on the command line and are gone now.
    Unset,
    /// The option is unset: run the picker with this number, then `set_values`.
    Ask(u64),
}

/// The behaviour bound to a button.
#[derive(Clone, Debug)]
pub enum Handler {
    /// Toggles a flag.
    Toggle(ToggleFlag),
    /// Captures values of an option through a picker.
    Prompt(PromptButton),
    /// Enters a page, adding an argument to the new page's command line.
    SubPage { arg: Arg, page: usize },
    /// Runs the command line with extra arguments, after asking the picker with
    /// the given number (if any) for more; then stays or leaves the page.
    Exec { args: Vec<Arg>, action: PageAction, prompt: Option<u64> },
    /// Behaviour supplied by the application, under this number.
    Custom(u64),
}

/// One keybinding of a page.
#[derive(Clone, Debug)]
pub struct Button {
    pub key: Keybind,
    pub description: String,
    pub handler: Handler,
}

/// A named list of buttons.
#[derive(Clone, Debug)]
pub struct Group {
    pub description: String,
    pub buttons: Vec<Button>,
}

/// A screen of the menu: groups of buttons, and the status text last computed
/// for it, if it has any.
#[derive(Clone, Debug)]
pub struct Page {
    pub status_cache: Option<String>,
    pub groups: Vec<Group>,
}

/// Where the program starts: the base command line and the start page.
#[derive(Debug)]
pub struct Program {
    pub base: CommandLine,
    pub start: usize,
}

/// The view of a flag argument.
pub open spec fn switch_view(flag: Seq<char>) -> ArgView {
    ArgView { order: FLAG_TIER, value: ValueView::Single(flag) }
}

impl ToggleFlag {
    /// Toggles the flag on the command line.
    pub fn run(&self, command_line: &mut CommandLine)
        ensures
            final(command_line).set() == toggled(old(command_line).set(), switch_view(self.0@)),
    {
        command_line.toggle_arg(Arg::switch(self.0.as_str()));
    }

    /// The flag and whether it is on the command line.
    pub fn value(&self, command_line: &CommandLine) -> (r: ButtonValue)
        ensures
            r matches ButtonValue::Bool { name, value } && name@ == self.0@
                && value == command_line.set().contains(switch_view(self.0@)),
    {
        ButtonValue::Bool {
            name: self.0.clone(),
            value: command_line.contains(&Arg::switch(self.0.as_str())),
        }
    }
}

/// The argument holds values captured for option `name`: a token list led by it.
pub open spec fn holds_option(a: ArgView, name: Seq<char>) -> bool {
    &&& a.value is Multi
    &&& a.value.tokens().len() > 0
    &&& a.value.tokens()[0] == name
}

/// `k` is the first argument of `s` that holds values for option `name`.
pub open spec fn first_option(s: Seq<ArgView>, name: Seq<char>, k: int) -> bool {
    &&& 0 <= k < s.len()
    &&& holds_option(s[k], name)
    &&& forall|j: int| 0 <= j < k ==> !holds_option(#[trigger] s[j], name)
}

/// The tokens at odd positions: the values of a `name value name value ...` list.
pub open spec fn odd_tokens(t: Seq<Seq<char>>) -> Seq<Seq<char>>
    decreases t.len(),
{
    if t.len() == 0 {
        Seq::empty()
    } else if (t.len() - 1) % 2 == 1 {
        odd_tokens(t.drop_last()).push(t.last())
    } else {
        odd_tokens(t.drop_last())
    }
}

/// Each value preceded by the option's name.
pub open spec fn interleave(name: Seq<char>, values: Seq<Seq<char>>) -> Seq<Seq<char>>
    decreases values.len(),
{
    if values.len() == 0 {
        Seq::empty()
    } else {
        interleave(name, values.drop_last()) + seq![name, values.last()]
    }
}

/// The values captured for option `name` on a command line, joined by spaces.
pub open spec fn prompt_value(s: Seq<ArgView>, name: Seq<char>) -> Option<Seq<char>> {
    if exists|k: int| first_option(s, name, k) {
        let k = choose|k: int| first_option(s, name, k);
        Some(join_spaced(odd_tokens(s[k].value.tokens())))
    } else {
        None
    }
}

impl PromptButton {
    /// A prompt for option `arg`, filled by the picker with number `picker`.
    pub fn new(arg: String, picker: u64) -> (r: PromptButton)
        ensures
            r.name()@ == arg@,
            r.picker() == picker,
    {
        PromptButton { arg, picker }
    }

    pub closed spec fn name(&self) -> String {
        self.arg
    }

    pub closed spec fn picker(&self) -> u64 {
        self.picker
    }

    /// Where the option's values stand on the command line, if they do.
    fn find(&self, command_line: &CommandLine) -> (r: Option<usize>)
        ensures
            match r {
                Some(k) => first_option(command_line@, self.arg@, k as int),
                None => forall|k: int| 0 <= k < command_line@.len() ==> !holds_option(#[trigger] command_line@[k], self.arg@),
            },
    {
        let args = command_line.args();
        let mut i: usize = 0;
        while i < args.len()
            invariant
                args_view(args@) == command_line@,
                i <= args@.len(),
                forall|j: int| 0 <= j < i ==> !holds_option(#[trigger] command_line@[j], self.arg@),
            decreases args@.len() - i,
        {
            assert(command_line@[i as int] == args@[i as int]@);
            match &args[i].value {
                ArgValue::Multi(m) => {
                    if m.len() > 0 && m[0] == self.arg {
                        proof {
                            assert(command_line@[i as int].value.tokens()[0] == m@[0]@);
                        }
                        return Some(i);
                    }
                    proof {
                        if m@.len() > 0 {
                            assert(command_line@[i as int].value.tokens()[0] == m@[0]@);
                        }
                    }
                },
                ArgValue::Single(_) => {},
            }
            i = i + 1;
        }
        None
    }

    /// The values captured for the option, joined by spaces, if any are set.
    pub fn get_value(&self, command_line: &CommandLine) -> (r: Option<String>)
        ensures
            match r {
                Some(v) => prompt_value(command_line@, self.name()@) == Some(v@),
                None => prompt_value(command_line@, self.name()@) is None,
            },
    {
        match self.find(command_line) {
            None => None,
            Some(k) => {
                let args = command_line.args();
                assert(command_line@[k as int] == args@[k as int]@);
                match &args[k].value {
                    ArgValue::Multi(m) => {
                        let mut values: Vec<String> = Vec::new();
                        let mut i: usize = 0;
                        let ghost t = strings_view(m@);
                        while i < m.len()
                            invariant
                                t == strings_view(m@),
                                i <= m@.len(),
                                strings_view(values@) == odd_tokens(t.take(i as int)),
                            decreases m@.len() - i,
                        {
                            let ghost prev = values@;
                            proof {
                                let u = t.take(i as int + 1);
                                assert(u.drop_last() =~= t.take(i as int));
                                assert(u.last() == m@[i as int]@);
                            }
                            if i % 2 == 1 {
                                values.push(m[i].clone());
                                proof {
                                    assert(strings_view(values@) =~= strings_view(prev).push(m@[i as int]@));
                                }
                            }
                            i = i + 1;
                        }
                        proof {
                            assert(t.take(i as int) =~= t);
                            let kk = choose|kk: int| first_option(command_line@, self.arg@, kk);
                            assert(kk == k as int) by {
                                if kk < k {
                                    assert(!holds_option(command_line@[kk], self.arg@));
                                } else if kk > k {
                                    assert(!holds_option(command_line@[k as int], self.arg@));
                                }
                            }
                        }
                        Some(join_tokens(&values))
                    },
                    ArgValue::Single(_) => None,
                }
            },
        }
    }

    /// Puts the picked values on the command line as one flag argument:
    /// the option's name before each value.
    pub fn set_values(&self, command_line: &mut CommandLine, values: Vec<String>)
        ensures
            final(command_line).set() == old(command_line).set().insert(ArgView {
                order: FLAG_TIER,
                value: ValueView::Multi(interleave(self.name()@, strings_view(values@))),
            }),
    {
        let mut args: Vec<String> = Vec::new();
        let mut i: usize = 0;
        while i < values.len()
            invariant
                i <= values@.len(),
                strings_view(args@) == interleave(self.arg@, strings_view(values@).take(i as int)),
            decreases values@.len() - i,
        {
            let ghost prev = args@;
            args.push(self.arg.clone());
            args.push(values[i].clone());
            proof {
                let u = strings_view(values@).take(i as int + 1);
                assert(u.drop_last() =~= strings_view(values@).take(i as int));
                assert(u.last() == values@[i as int]@);
                assert(strings_view(args@) =~= strings_view(prev) + seq![self.arg@, values@[i as int]@]);
            }
            i = i + 1;
        }
        proof {
            assert(strings_view(values@).take(i as int) =~= strings_view(values@));
        }
        command_line.add_arg(Arg::new(ArgOrder::flag(), ArgValue::Multi(args)));
    }

    /// Drops the option's values from the command line, if they are there.
    pub fn unset_value(&self, command_line: &mut CommandLine)
        ensures
            match prompt_value(old(command_line)@, self.name()@) {
                None => final(command_line).set() == old(command_line).set(),
                Some(_) => exists|k: int|
                    first_option(old(command_line)@, self.name()@, k)
                        && final(command_line).set() == old(command_line).set().remove(old(command_line)@[k]),
            },
    {
        match self.find(command_line) {
            None => {},
            Some(k) => {
                let arg = command_line.args()[k].duplicate();
                let ghost before = *command_line;
                command_line.remove_arg(&arg);
                proof {
                    assert(first_option(before@, self.arg@, k as int));
                }
            },
        }
    }

    /// Pressing the button: drops the values if set; else the picker must run.
    pub fn press(&self, command_line: &mut CommandLine) -> (r: PromptStep)
        ensures
            prompt_value(old(command_line)@, self.name()@) is Some ==> r == PromptStep::Unset
                && exists|k: int|
                    first_option(old(command_line)@, self.name()@, k)
                        && final(command_line).set() == old(command_line).set().remove(old(command_line)@[k]),
            prompt_value(old(command_line)@, self.name()@) is None ==> r == PromptStep::Ask(self.picker())
                && final(command_line).set() == old(command_line).set(),
    {
        if self.get_value(command_line).is_some() {
            self.unset_value(command_line);
            PromptStep::Unset
        } else {
            PromptStep::Ask(self.picker)
        }
    }

    /// The option and the values captured for it, if any.
    pub fn value(&self, command_line: &CommandLine) -> (r: ButtonValue)
        ensures
            r matches ButtonValue::String { name, value } && name@ == self.name()@ && match value {
                Some(v) => prompt_value(command_line@, self.name()@) == Some(v@),
                None => prompt_value(command_line@, self.name()@) is None,
            },
    {
        ButtonValue::String { name: self.arg.clone(), value: self.get_value(command_line) }
    }
}

impl Handler {
    /// What the button shows beside its description: only toggles and prompts show anything.
    pub fn value(&self, command_line: &CommandLine) -> (r: Option<ButtonValue>)
        ensures
            match self {
                Handler::Toggle(t) => r matches Some(ButtonValue::Bool { name, value }) && name@ == t.0@
                    && value == command_line.set().contains(switch_view(t.0@)),
                Handler::Prompt(p) => r matches Some(ButtonValue::String { name, value }) && name@ == p.name()@
                    && match value {
                        Some(v) => prompt_value(command_line@, p.name()@) == Some(v@),
                        None => prompt_value(command_line@, p.name()@) is None,
                    },
                _ => r is None,
            },
    {
        match self {
            Handler::Toggle(t) => Some(t.value(command_line)),
            Handler::Prompt(p) => Some(p.value(command_line)),
            _ => None,
        }
    }
}

/// The command line to run for an exec button: the current one with the
/// button's extra arguments added.
pub fn exec_cmd(command_line: &CommandLine, args: &Vec<Arg>) -> (r: CommandLine)
    ensures
        r.set() == command_line.set().union(arg_set(args_view(args@))),
{
    let mut cmd = command_line.duplicate();
    let mut i: usize = 0;
    proof {
        assert(cmd.set() =~= command_line.set().union(arg_set(args_view(args@).take(0))));
    }
    while i < args.len()
        invariant
            i <= args@.len(),
            cmd.set() == command_line.set().union(arg_set(args_view(args@).take(i as int))),
        decreases args@.len() - i,
    {
        cmd.add_arg(args[i].duplicate());
        proof {
            lemma_arg_set_push(args_view(args@), i as int);
            assert(cmd.set() =~= command_line.set().union(arg_set(args_view(args@).take(i as int + 1))));
        }
        i = i + 1;
    }
    proof {
        assert(args_view(args@).take(i as int) =~= args_view(args@));
    }
    cmd
}

/// Adds the arguments that a prompt returned to the command line.
pub fn prompt_arg(command_line: &mut CommandLine, args: Vec<Arg>)
    ensures
        final(command_line).set() == old(command_line).set().union(arg_set(args_view(args@))),
{
    let mut i: usize = 0;
    proof {
        assert(command_line.set() =~= old(command_line).set().union(arg_set(args_view(args@).take(0))));
    }
    while i < args.len()
        invariant
            i <= args@.len(),
            command_line.set() == old(command_line).set().union(arg_set(args_view(args@).take(i as int))),
        decreases args@.len() - i,
    {
        command_line.add_arg(args[i].duplicate());
        proof {
            lemma_arg_set_push(args_view(args@), i as int);
            assert(command_line.set() =~= old(command_line).set().union(arg_set(args_view(args@).take(i as int + 1))));
        }
        i = i + 1;
    }
    proof {
        assert(args_view(args@).take(i as int) =~= args_view(args@));
    }
}

proof fn lemma_arg_set_push(s: Seq<ArgView>, i: int)
    requires
        0 <= i < s.len(),
    ensures
        arg_set(s.take(i + 1)) == arg_set(s.take(i)).insert(s[i]),
{
    let t = s.take(i + 1);
    let u = s.take(i);
    assert forall|x: ArgView| arg_set(t).contains(x) == arg_set(u).insert(s[i]).contains(x) by {
        if u.contains(x) {
            let k = choose|k: int| 0 <= k < u.len() && u[k] == x;
            assert(t[k] == x);
        }
        if t.contains(x) {
            let k = choose|k: int| 0 <= k < t.len() && t[k] == x;
            if k < i {
                assert(u[k] == x);
            }
        }
        assert(t[i] == s[i]);
    }
    assert(arg_set(t) =~= arg_set(u).insert(s[i]));
}

/// A page of the given groups, without status.
pub fn page(groups: Vec<Group>) -> (r: Page)
    ensures
        r.groups@ == groups@,
        r.status_cache is None,
{
    Page { status_cache: None, groups }
}

/// A group of buttons under a heading.
pub fn group(description: &str, buttons: Vec<Button>) -> (r: Group)
    ensures
        r.description@ == description@,
        r.buttons@ == buttons@,
{
    Group { description: String::from_str(description), buttons }
}

/// A button with the given behaviour.
pub fn button(key: &str, description: &str, handler: Handler) -> (r: Button)
    ensures
        r.key.0@ == key@,
        r.description@ == description@,
        r.handler == handler,
{
    Button { key: Keybind(String::from_str(key)), description: String::from_str(description), handler }
}

/// A button that toggles `flag`.
pub fn flag_button(key: &str, description: &str, flag: &str) -> (r: Button)
    ensures
        r.key.0@ == key@,
        r.description@ == description@,
        r.handler matches Handler::Toggle(t) && t.0@ == flag@,
{
    button(key, description, Handler::Toggle(ToggleFlag(String::from_str(flag))))
}

/// A button that captures values of option `name` through picker `picker`.
pub fn prompt_button(key: &str, description: &str, name: &str, picker: u64) -> (r: Button)
    ensures
        r.key.0@ == key@,
        r.description@ == description@,
        r.handler matches Handler::Prompt(p) && p.name()@ == name@ && p.picker() == picker,
{
    button(key, description, Handler::Prompt(PromptButton::new(String::from_str(name), picker)))
}

/// A button that enters `page`, adding the subcommand words `words` as one argument.
pub fn subcommand_button(key: &str, description: &str, words: Vec<String>, page: usize) -> (r: Button)
    ensures
        r.key.0@ == key@,
        r.description@ == description@,
        r.handler matches Handler::SubPage { arg, page: p } && p == page
            && arg@ == (ArgView { order: crate::command_line::SUBCOMMAND_TIER, value: ValueView::Multi(strings_view(words@)) }),
{
    button(key, description, Handler::SubPage { arg: Arg::subcommands(words), page })
}

/// A button that runs the command line with `args` added, then applies `action`.
pub fn exec_button(key: &str, description: &str, args: Vec<Arg>, action: PageAction) -> (r: Button)
    ensures
        r.key.0@ == key@,
        r.description@ == description@,
        r.handler matches Handler::Exec { args: a, action: x, prompt } && a@ == args@ && x == action && prompt is None,
{
    button(key, description, Handler::Exec { args, action, prompt: None })
}

/// Like `exec_button`, asking picker `prompt` for more arguments first.
pub fn exec_button_arg_prompt(key: &str, description: &str, args: Vec<Arg>, action: PageAction, prompt: u64) -> (r: Button)
    ensures
        r.key.0@ == key@,
        r.description@ == description@,
        r.handler matches Handler::Exec { args: a, action: x, prompt: p } && a@ == args@ && x == action
            && p == Some(prompt),
{
    button(key, description, Handler::Exec { args, action, prompt: Some(prompt) })
}

/// A page with an "Arguments" group and an "Action" group.
pub fn args_page(args: Vec<Button>, actions: Vec<Button>) -> (r: Page)
    ensures
        r.groups@.len() == 2,
        r.groups@[0].buttons@ == args@,
        r.groups@[1].buttons@ == actions@,
        r.status_cache is None,
{
    let mut groups: Vec<Group> = Vec::new();
    groups.push(group("Arguments", args));
    groups.push(group("Action", actions));
    page(groups)
}

/// All pages of a menu; buttons and the page stack name pages by position here,
/// so that entering a page shares it rather than copying it.
#[derive(Debug)]
pub struct Menu {
    pages: Vec<Page>,
}

impl View for Menu {
    type V = Seq<Page>;

    closed spec fn view(&self) -> Seq<Page> {
        self.pages@
    }
}

impl Menu {
    /// A menu without pages.
    pub fn new() -> (r: Menu)
        ensures
            r@ == Seq::<Page>::empty(),
    {
        Menu { pages: Vec::new() }
    }

    /// Adds a page and returns its number.
    pub fn add_page(&mut self, page: Page) -> (r: usize)
        ensures
            final(self)@ == old(self)@.push(page),
            r == old(self)@.len(),
    {
        let r = self.pages.len();
        self.pages.push(page);
        r
    }

    /// The page with number `id`.
    pub fn page(&self, id: usize) -> (r: Option<&Page>)
        ensures
            id < self@.len() ==> r == Some(&self@[id as int]),
            id >= self@.len() ==> r is None,
    {
        if id < self.pages.len() {
            Some(&self.pages[id])
        } else {
            None
        }
    }

    /// Swaps the page with number `id`; a number without a page changes nothing.
    pub fn set_page(&mut self, id: usize, page: Page)
        ensures
            id < old(self)@.len() ==> final(self)@ == old(self)@.update(id as int, page),
            id >= old(self)@.len() ==> final(self)@ == old(self)@,
    {
        if id < self.pages.len() {
            self.pages.set(id, page);
        }
    }

    /// The keys of the buttons of page `id`, in order; none for a number without a page.
    pub fn keybinds(&self, id: usize) -> (r: Vec<Keybind>)
        ensures
            id < self@.len() ==> keys_view(r@) == group_keys(self@[id as int].groups@),
            id >= self@.len() ==> r@.len() == 0,
    {
        if id < self.pages.len() {
            self.pages[id].keybinds()
        } else {
            Vec::new()
        }
    }
}

/// A button that enters a new page made of `args` and `actions` buttons,
/// adding the subcommand words `words`; the page joins `menu`.
pub fn subcommand_page_button(
    menu: &mut Menu,
    key: &str,
    name: &str,
    words: Vec<String>,
    args: Vec<Button>,
    actions: Vec<Button>,
) -> (r: Button)
    ensures
        final(menu)@.len() == old(menu)@.len() + 1,
        final(menu)@.drop_last() == old(menu)@,
        final(menu)@.last().groups@.len() == 2,
        final(menu)@.last().groups@[0].buttons@ == args@,
        final(menu)@.last().groups@[1].buttons@ == actions@,
        r.key.0@ == key@,
        r.description@ == name@,
        r.handler matches Handler::SubPage { arg, page } && page == old(menu)@.len()
            && arg@ == (ArgView { order: crate::command_line::SUBCOMMAND_TIER, value: ValueView::Multi(strings_view(words@)) }),
{
    let id = menu.add_page(args_page(args, actions));
    proof {
        assert(menu@.drop_last() =~= old(menu)@);
    }
    subcommand_button(key, name, words, id)
}

/// The keys of the buttons of some groups, group by group, in order.
pub open spec fn group_keys(groups: Seq<Group>) -> Seq<Seq<char>>
    decreases groups.len(),
{
    if groups.len() == 0 {
        Seq::empty()
    } else {
        group_keys(groups.drop_last()) + groups.last().buttons@.map_values(|b: Button| b.key.0@)
    }
}

/// The buttons of some groups, group by group, in order.
pub open spec fn group_buttons(groups: Seq<Group>) -> Seq<Button>
    decreases groups.len(),
{
    if groups.len() == 0 {
        Seq::empty()
    } else {
        group_buttons(groups.drop_last()) + groups.last().buttons@
    }
}

proof fn lemma_group_keys(groups: Seq<Group>)
    ensures
        group_keys(groups) == group_buttons(groups).map_values(|b: Button| b.key.0@),
    decreases groups.len(),
{
    if groups.len() > 0 {
        lemma_group_keys(groups.drop_last());
        assert(group_keys(groups) =~= group_buttons(groups).map_values(|b: Button| b.key.0@));
    }
}

impl Page {
    /// A page without buttons or status.
    pub fn empty() -> (r: Page)
        ensures
            r.groups@.len() == 0,
            r.status_cache is None,
    {
        Page { status_cache: None, groups: Vec::new() }
    }

    /// The status text last computed for the page.
    pub fn status(&self) -> (r: Option<&str>)
        ensures
            match self.status_cache {
                Some(s) => r matches Some(t) && t@ == s@,
                None => r is None,
            },
    {
        match &self.status_cache {
            Some(s) => Some(s.as_str()),
            None => None,
        }
    }

    /// Appends a group of buttons.
    pub fn add_group(&mut self, group: Group)
        ensures
            final(self).groups@ == old(self).groups@.push(group),
            final(self).status_cache == old(self).status_cache,
    {
        self.groups.push(group);
    }

    /// The keys of all buttons, group by group, in order.
    pub fn keybinds(&self) -> (r: Vec<Keybind>)
        ensures
            keys_view(r@) == group_keys(self.groups@),
            keys_view(r@) == group_buttons(self.groups@).map_values(|b: Button| b.key.0@),
    {
        proof {
            lemma_group_keys(self.groups@);
        }
        let mut r: Vec<Keybind> = Vec::new();
        let mut g: usize = 0;
        proof {
            assert(keys_view(r@) =~= group_keys(self.groups@.take(0)));
        }
        while g < self.groups.len()
            invariant
                g <= self.groups@.len(),
                keys_view(r@) == group_keys(self.groups@.take(g as int)),
            decreases self.groups@.len() - g,
        {
            let buttons = &self.groups[g].buttons;
            let ghost start = keys_view(r@);
            let mut b: usize = 0;
            while b < buttons.len()
                invariant
                    b <= buttons@.len(),
                    buttons == self.groups@[g as int].buttons,
                    keys_view(r@) == start + buttons@.take(b as int).map_values(|x: Button| x.key.0@),
                decreases buttons@.len() - b,
            {
                let ghost prev = r@;
                r.push(Keybind(buttons[b].key.0.clone()));
                proof {
                    assert(keys_view(r@) =~= keys_view(prev).push(buttons@[b as int].key.0@));
                    assert(buttons@.take(b as int + 1) =~= buttons@.take(b as int).push(buttons@[b as int]));
                    assert(keys_view(r@) =~= start + buttons@.take(b as int + 1).map_values(|x: Button| x.key.0@));
                }
                b = b + 1;
            }
            proof {
                let t = self.groups@.take(g as int + 1);
                assert(t.drop_last() =~= self.groups@.take(g as int));
                assert(buttons@.take(b as int) =~= buttons@);
                assert(keys_view(r@) =~= group_keys(t));
            }
            g = g + 1;
        }
        proof {
            assert(self.groups@.take(g as int) =~= self.groups@);
        }
        r
    }

    /// The button at position `index` of all buttons, group by group.
    pub fn button(&self, index: usize) -> (r: Option<&Button>)
        ensures
            index < group_buttons(self.groups@).len() ==> r == Some(&group_buttons(self.groups@)[index as int]),
            index >= group_buttons(self.groups@).len() ==> r is None,
    {
        let mut g: usize = 0;
        let mut skipped: usize = 0;
        proof {
            assert(self.groups@.take(0) =~= Seq::<Group>::empty());
            lemma_group_buttons_split(self.groups@, 0);
        }
        while g < self.groups.len()
            invariant
                g <= self.groups@.len(),
                skipped == group_buttons(self.groups@.take(g as int)).len(),
                skipped <= index,
                group_buttons(self.groups@) == group_buttons(self.groups@.take(g as int))
                    + group_buttons_from(self.groups@, g as int),
            decreases self.groups@.len() - g,
        {
            let n = self.groups[g].buttons.len();
            proof {
                lemma_group_buttons_step(self.groups@, g as int);
            }
            if index - skipped < n {
                proof {
                    assert(group_buttons(self.groups@)[index as int] == self.groups@[g as int].buttons@[index - skipped]);
                }
                return Some(&self.groups[g].buttons[index - skipped]);
            }
            skipped = skipped + n;
            g = g + 1;
        }
        proof {
            assert(self.groups@.take(g as int) =~= self.groups@);
        }
        None
    }
}

/// The buttons of the groups from position `g` on.
pub open spec fn group_buttons_from(groups: Seq<Group>, g: int) -> Seq<Button>
    decreases groups.len() - g,
{
    if g >= groups.len() || g < 0 {
        Seq::empty()
    } else {
        groups[g].buttons@ + group_buttons_from(groups, g + 1)
    }
}

proof fn lemma_group_buttons_split(groups: Seq<Group>, g: int)
    requires
        0 <= g <= groups.len(),
    ensures
        group_buttons(groups) == group_buttons(groups.take(g)) + group_buttons_from(groups, g),
    decreases groups.len() - g,
{
    if g < groups.len() {
        lemma_group_buttons_split(groups, g + 1);
        let t = groups.take(g + 1);
        assert(t.drop_last() =~= groups.take(g));
        assert(group_buttons(t) == group_buttons(groups.take(g)) + groups[g].buttons@);
        assert(group_buttons(groups) =~= group_buttons(groups.take(g)) + group_buttons_from(groups, g));
    } else {
        assert(groups.take(g) =~= groups);
    }
}

proof fn lemma_group_buttons_step(groups: Seq<Group>, g: int)
    requires
        0 <= g < groups.len(),
    ensures
        group_buttons(groups.take(g + 1)) == group_buttons(groups.take(g)) + groups[g].buttons@,
        group_buttons_from(groups, g) == groups[g].buttons@ + group_buttons_from(groups, g + 1),
        group_buttons(groups) == group_buttons(groups.take(g + 1)) + group_buttons_from(groups, g + 1),
{
    let t = groups.take(g + 1);
    assert(t.drop_last() =~= groups.take(g));
    lemma_group_buttons_split(groups, g + 1);
}

} // verus!
