//! The runtime state behind the menu: the page stack, the key dispatcher, the
//! command view and the status lines of background work.
use vstd::prelude::*;
use std::collections::BTreeMap;
use crate::command_line::{Arg, ArgView, CommandLine, arg_set, toggled};
use crate::data::{Handler, PromptStep, first_option, prompt_value, switch_view};
use crate::input::{Key, KeyHandler, KeyOutcome, Keybind, dispatch, keys_view};

verus! {

/// Names one piece of background work that shows a status line.
#[derive(Clone, Copy, Debug, PartialEq, Eq, Structural, PartialOrd, Ord, Hash)]
pub struct BgTaskId(pub u64);

/// One event of the merged input stream.
#[derive(Clone, Debug)]
pub enum Event {
    /// A key press from the terminal.
    Key(Key),
    /// Background work shows or changes its status line.
    Status(BgTaskId, String),
    /// Background work is done; its status line goes.
    RemoveStatus(BgTaskId),
    /// A terminal event that carries no key (resize, focus).
    Other,
}

/// What remains to be done after a button's handler ran on the state.
#[derive(Clone, Copy, Debug, PartialEq, Eq, Structural)]
pub enum Effect {
    /// The handler is done.
    Done,
    /// Run the picker with this number, then hand its values to the prompt's
    /// `set_values` on the top command line.
    Ask(u64),
    /// Run the command line (see `data::exec_cmd`) as the exec handler says.
    Exec,
    /// Run the application's behaviour with this number.
    Custom(u64),
}

/// What Escape does in a given state.
#[derive(Clone, Copy, Debug, PartialEq, Eq, Structural)]
pub enum EscapeAction {
    /// The command view was shown; it is hidden again.
    HideCommand,
    /// The top page was left.
    Popped,
    /// At the root page: the program ends.
    Exit,
}

/// The status lines as character sequences, by task number.
pub open spec fn status_view(m: Map<u64, String>) -> Map<u64, Seq<char>> {
    m.map_values(|s: String| s@)
}

/// The runtime state: a stack of (command line, page) entries that is never
/// empty, the keys typed so far, whether the command view is shown, and the
/// status lines of background work.
#[derive(Debug)]
pub struct Ui {
    root: (CommandLine, usize),
    above: Vec<(CommandLine, usize)>,
    key_handler: KeyHandler,
    showing_cmd: bool,
    status: BTreeMap<u64, String>,
}

impl Ui {
    /// The command lines of the stack, bottom first.
    pub closed spec fn lines(&self) -> Seq<Seq<ArgView>> {
        seq![self.root.0@] + self.above@.map_values(|e: (CommandLine, usize)| e.0@)
    }

    /// The pages of the stack, bottom first.
    pub closed spec fn pages(&self) -> Seq<usize> {
        seq![self.root.1] + self.above@.map_values(|e: (CommandLine, usize)| e.1)
    }

    /// The keys typed so far towards a binding.
    pub closed spec fn prefix(&self) -> Seq<char> {
        self.key_handler@
    }

    /// Whether the command view is shown.
    pub closed spec fn showing(&self) -> bool {
        self.showing_cmd
    }

    /// The status lines, by task number.
    pub closed spec fn statuses(&self) -> Map<u64, Seq<char>> {
        status_view(self.status@)
    }

    /// The command line of the top entry.
    pub open spec fn top_line(&self) -> Seq<ArgView> {
        self.lines().last()
    }

    /// The page of the top entry.
    pub open spec fn top_page(&self) -> usize {
        self.pages().last()
    }

    proof fn lemma_shape(&self)
        ensures
            self.lines().len() == self.above@.len() + 1,
            self.pages().len() == self.lines().len(),
            self.lines()[0] == self.root.0@,
            self.pages()[0] == self.root.1,
            forall|i: int| 0 <= i < self.above@.len() ==> self.lines()[i + 1] == (#[trigger] self.above@[i]).0@,
            forall|i: int| 0 <= i < self.above@.len() ==> self.pages()[i + 1] == (#[trigger] self.above@[i]).1,
    {
    }

    /// The state at startup: one entry, the program's base command line on its start page.
    pub fn new(base: CommandLine, start: usize) -> (r: Ui)
        ensures
            r.lines() == seq![base@],
            r.pages() == seq![start],
            r.prefix() == Seq::<char>::empty(),
            !r.showing(),
            r.statuses() == Map::<u64, Seq<char>>::empty(),
    {
        let r = Ui {
            root: (base, start),
            above: Vec::new(),
            key_handler: KeyHandler::new(),
            showing_cmd: false,
            status: BTreeMap::new(),
        };
        proof {
            assert(r.lines() =~= seq![base@]);
            assert(r.pages() =~= seq![start]);
            assert(r.statuses() =~= Map::<u64, Seq<char>>::empty());
        }
        r
    }

    /// Whether only the root entry is on the stack.
    pub fn is_root(&self) -> (r: bool)
        ensures
            r == (self.lines().len() == 1),
    {
        proof {
            self.lemma_shape();
        }
        self.above.len() == 0
    }

    /// The command line of the top entry.
    pub fn command_line(&self) -> (r: &CommandLine)
        ensures
            r@ == self.top_line(),
    {
        proof {
            self.lemma_shape();
        }
        if self.above.len() == 0 {
            &self.root.0
        } else {
            &self.above[self.above.len() - 1].0
        }
    }

    /// The page of the top entry.
    pub fn currrent_page(&self) -> (r: usize)
        ensures
            r == self.top_page(),
    {
        proof {
            self.lemma_shape();
        }
        if self.above.len() == 0 {
            self.root.1
        } else {
            self.above[self.above.len() - 1].1
        }
    }

    /// Enters `page`, on a copy of the current command line: what the page
    /// adds vanishes again when it is left.
    pub fn push_page(&mut self, page: usize)
        ensures
            final(self).lines() == old(self).lines().push(old(self).top_line()),
            final(self).pages() == old(self).pages().push(page),
            final(self).prefix() == old(self).prefix(),
            final(self).showing() == old(self).showing(),
            final(self).statuses() == old(self).statuses(),
    {
        proof {
            self.lemma_shape();
        }
        let line = self.command_line().duplicate();
        let ghost before = *self;
        self.above.push((line, page));
        proof {
            assert(self.lines() =~= before.lines().push(before.top_line()));
            assert(self.pages() =~= before.pages().push(page));
        }
    }

    /// Swaps the page of the top entry, keeping its command line.
    pub fn replace_page(&mut self, page: usize)
        ensures
            final(self).lines() == old(self).lines(),
            final(self).pages() == old(self).pages().update(old(self).pages().len() - 1, page),
            final(self).prefix() == old(self).prefix(),
            final(self).showing() == old(self).showing(),
            final(self).statuses() == old(self).statuses(),
    {
        proof {
            self.lemma_shape();
        }
        let ghost before = *self;
        if self.above.len() == 0 {
            self.root.1 = page;
        } else {
            let n = self.above.len() - 1;
            let (line, _) = self.above.remove(n);
            self.above.push((line, page));
        }
        proof {
            assert(self.lines() =~= before.lines());
            assert(self.pages() =~= before.pages().update(before.pages().len() - 1, page));
        }
    }

    /// The command line of the top entry, to change in place.
    pub fn command_line_mut(&mut self) -> (r: &mut CommandLine)
        ensures
            r@ == old(self).top_line(),
            final(self).lines() == old(self).lines().update(old(self).lines().len() - 1, final(r)@),
            final(self).pages() == old(self).pages(),
            final(self).prefix() == old(self).prefix(),
            final(self).showing() == old(self).showing(),
            final(self).statuses() == old(self).statuses(),
    {
        proof {
            self.lemma_shape();
        }
        if self.above.len() == 0 {
            &mut self.root.0
        } else {
            let n = self.above.len() - 1;
            &mut self.above[n].0
        }
    }

    /// Whether the command view is shown.
    pub fn showing_cmd(&self) -> (r: bool)
        ensures
            r == self.showing(),
    {
        self.showing_cmd
    }

    /// Shows the command view.
    pub fn show_cmd(&mut self)
        ensures
            final(self).showing(),
            final(self).lines() == old(self).lines(),
            final(self).pages() == old(self).pages(),
            final(self).prefix() == old(self).prefix(),
            final(self).statuses() == old(self).statuses(),
    {
        self.showing_cmd = true;
    }

    /// Hides the command view.
    pub fn hide_cmd(&mut self)
        ensures
            !final(self).showing(),
            final(self).lines() == old(self).lines(),
            final(self).pages() == old(self).pages(),
            final(self).prefix() == old(self).prefix(),
            final(self).statuses() == old(self).statuses(),
    {
        self.showing_cmd = false;
    }

    /// Shows the command view if hidden, hides it if shown.
    pub fn toggle_cmd(&mut self)
        ensures
            final(self).showing() == !old(self).showing(),
            final(self).lines() == old(self).lines(),
            final(self).pages() == old(self).pages(),
            final(self).prefix() == old(self).prefix(),
            final(self).statuses() == old(self).statuses(),
    {
        self.showing_cmd = !self.showing_cmd;
    }

    /// The keys typed so far towards a binding.
    pub fn key_prefix(&self) -> (r: &str)
        ensures
            r@ == self.prefix(),
    {
        self.key_handler.prefix()
    }

    /// The status lines of background work, by task number.
    pub fn status(&self) -> (r: &BTreeMap<u64, String>)
        ensures
            status_view(r@) == self.statuses(),
    {
        &self.status
    }

    /// Takes one event. Status events change only the status lines; a key
    /// goes to the dispatcher against `bindings`, the keys of the top page's
    /// buttons in order, and what it asks for is returned.
    pub fn process_event(&mut self, event: Event, bindings: &Vec<Keybind>) -> (r: Option<KeyOutcome>)
        ensures
            final(self).lines() == old(self).lines(),
            final(self).pages() == old(self).pages(),
            final(self).showing() == old(self).showing(),
            match event {
                Event::Key(k) => {
                    &&& r == Some(dispatch(keys_view(bindings@), old(self).prefix(), k).0)
                    &&& final(self).prefix() == dispatch(keys_view(bindings@), old(self).prefix(), k).1
                    &&& final(self).statuses() == old(self).statuses()
                },
                Event::Status(id, text) => {
                    &&& r is None
                    &&& final(self).prefix() == old(self).prefix()
                    &&& final(self).statuses() == old(self).statuses().insert(id.0, text@)
                },
                Event::RemoveStatus(id) => {
                    &&& r is None
                    &&& final(self).prefix() == old(self).prefix()
                    &&& final(self).statuses() == old(self).statuses().remove(id.0)
                },
                Event::Other => {
                    &&& r is None
                    &&& final(self).prefix() == old(self).prefix()
                    &&& final(self).statuses() == old(self).statuses()
                },
            },
    {
        match event {
            Event::Key(k) => Some(self.key_handler.handle_key(k, bindings)),
            Event::Status(id, text) => {
                let ghost before = self.status@;
                let ghost t = text@;
                self.status.insert(id.0, text);
                proof {
                    assert(status_view(self.status@) =~= status_view(before).insert(id.0, t));
                }
                None
            },
            Event::RemoveStatus(id) => {
                let ghost before = self.status@;
                self.status.remove(&id.0);
                proof {
                    assert(status_view(self.status@) =~= status_view(before).remove(id.0));
                }
                None
            },
            Event::Other => None,
        }
    }

    /// Escape: hides the command view if shown, else leaves the top page, or
    /// at the root page asks for the program to end.
    pub fn escape(&mut self) -> (r: EscapeAction)
        ensures
            old(self).showing() ==> r == EscapeAction::HideCommand && !final(self).showing()
                && final(self).lines() == old(self).lines() && final(self).pages() == old(self).pages(),
            !old(self).showing() && old(self).lines().len() > 1 ==> r == EscapeAction::Popped
                && final(self).lines() == old(self).lines().drop_last()
                && final(self).pages() == old(self).pages().drop_last(),
            !old(self).showing() && old(self).lines().len() == 1 ==> r == EscapeAction::Exit
                && final(self).lines() == old(self).lines() && final(self).pages() == old(self).pages(),
            final(self).prefix() == old(self).prefix(),
            final(self).statuses() == old(self).statuses(),
    {
        proof {
            self.lemma_shape();
        }
        if self.showing_cmd {
            self.hide_cmd();
            EscapeAction::HideCommand
        } else if self.pop_page() {
            EscapeAction::Popped
        } else {
            EscapeAction::Exit
        }
    }

    /// Enters `page` and adds `arg` to the new top command line only.
    pub fn enter_subpage(&mut self, arg: &Arg, page: usize)
        ensures
            final(self).lines().len() == old(self).lines().len() + 1,
            final(self).lines().drop_last() == old(self).lines(),
            arg_set(final(self).top_line()) == arg_set(old(self).top_line()).insert(arg@),
            final(self).pages() == old(self).pages().push(page),
            final(self).prefix() == old(self).prefix(),
            final(self).showing() == old(self).showing(),
            final(self).statuses() == old(self).statuses(),
    {
        self.push_page(page);
        let ghost pushed = *self;
        self.command_line_mut().add_arg(arg.duplicate());
        proof {
            assert(self.lines().drop_last() =~= pushed.lines().drop_last());
            assert(pushed.lines().drop_last() =~= old(self).lines());
        }
    }

    /// Runs what `handler` does to the state itself: a toggle or a prompt
    /// changes the top command line, a sub-page button enters its page; what
    /// needs the outside world is returned.
    pub fn apply_handler(&mut self, handler: &Handler) -> (r: Effect)
        ensures
            final(self).prefix() == old(self).prefix(),
            final(self).showing() == old(self).showing(),
            final(self).statuses() == old(self).statuses(),
            match handler {
                Handler::Toggle(t) => {
                    &&& r == Effect::Done
                    &&& final(self).lines().len() == old(self).lines().len()
                    &&& final(self).lines().drop_last() == old(self).lines().drop_last()
                    &&& arg_set(final(self).top_line()) == toggled(arg_set(old(self).top_line()), switch_view(t.0@))
                    &&& final(self).pages() == old(self).pages()
                },
                Handler::Prompt(p) => {
                    &&& final(self).lines().len() == old(self).lines().len()
                    &&& final(self).lines().drop_last() == old(self).lines().drop_last()
                    &&& final(self).pages() == old(self).pages()
                    &&& prompt_value(old(self).top_line(), p.name()@) is Some ==> r == Effect::Done
                        && exists|k: int| first_option(old(self).top_line(), p.name()@, k)
                            && arg_set(final(self).top_line()) == arg_set(old(self).top_line()).remove(old(self).top_line()[k])
                    &&& prompt_value(old(self).top_line(), p.name()@) is None ==> r == Effect::Ask(p.picker())
                        && arg_set(final(self).top_line()) == arg_set(old(self).top_line())
                },
                Handler::SubPage { arg, page } => {
                    &&& r == Effect::Done
                    &&& final(self).lines().len() == old(self).lines().len() + 1
                    &&& final(self).lines().drop_last() == old(self).lines()
                    &&& arg_set(final(self).top_line()) == arg_set(old(self).top_line()).insert(arg@)
                    &&& final(self).pages() == old(self).pages().push(*page)
                },
                Handler::Exec { .. } => {
                    &&& r == Effect::Exec
                    &&& final(self).lines() == old(self).lines()
                    &&& final(self).pages() == old(self).pages()
                },
                Handler::Custom(n) => {
                    &&& r == Effect::Custom(*n)
                    &&& final(self).lines() == old(self).lines()
                    &&& final(self).pages() == old(self).pages()
                },
            },
    {
        proof {
            self.lemma_shape();
        }
        match handler {
            Handler::Toggle(t) => {
                t.run(self.command_line_mut());
                proof {
                    assert(self.lines().drop_last() =~= old(self).lines().drop_last());
                }
                Effect::Done
            },
            Handler::Prompt(p) => {
                let step = p.press(self.command_line_mut());
                proof {
                    assert(self.lines().drop_last() =~= old(self).lines().drop_last());
                }
                match step {
                    PromptStep::Unset => Effect::Done,
                    PromptStep::Ask(n) => Effect::Ask(n),
                }
            },
            Handler::SubPage { arg, page } => {
                self.enter_subpage(arg, *page);
                Effect::Done
            },
            Handler::Exec { .. } => Effect::Exec,
            Handler::Custom(n) => Effect::Custom(*n),
        }
    }

    /// Leaves the top entry unless it is the only one; says whether it did.
    pub fn pop_page(&mut self) -> (r: bool)
        ensures
            r == (old(self).lines().len() > 1),
            r ==> final(self).lines() == old(self).lines().drop_last(),
            r ==> final(self).pages() == old(self).pages().drop_last(),
            !r ==> final(self).lines() == old(self).lines(),
            !r ==> final(self).pages() == old(self).pages(),
            final(self).prefix() == old(self).prefix(),
            final(self).showing() == old(self).showing(),
            final(self).statuses() == old(self).statuses(),
    {
        proof {
            self.lemma_shape();
        }
        let ghost before = *self;
        if self.above.len() == 0 {
            false
        } else {
            self.above.pop();
            proof {
                assert(self.lines() =~= before.lines().drop_last());
                assert(self.pages() =~= before.pages().drop_last());
            }
            true
        }
    }
}

/// Entering a page and then leaving it restores the stack exactly: the same
/// pages, and the command line as it was before the page was entered, whatever
/// the page added to its own copy.
pub proof fn lemma_push_then_pop(before: Ui, page: usize, pushed: Ui, changed: Ui, popped: Ui, left: bool)
    requires
        pushed.lines() == before.lines().push(before.top_line()),
        pushed.pages() == before.pages().push(page),
        changed.lines().len() == pushed.lines().len(),
        changed.lines().drop_last() == pushed.lines().drop_last(),
        changed.pages() == pushed.pages(),
        left == (changed.lines().len() > 1),
        left ==> popped.lines() == changed.lines().drop_last(),
        left ==> popped.pages() == changed.pages().drop_last(),
    ensures
        left,
        popped.lines() == before.lines(),
        popped.pages() == before.pages(),
        popped.top_line() == before.top_line(),
{
    before.lemma_shape();
    assert(pushed.lines().drop_last() =~= before.lines());
    assert(pushed.pages().drop_last() =~= before.pages());
}

/// Entering a sub-page (which adds its argument to the new top command line
/// only) and then pressing Escape with the command view hidden brings back the
/// command line and pages as they were before.
pub proof fn lemma_subpage_then_escape(before: Ui, page: usize, entered: Ui, after: Ui)
    requires
        entered.lines().len() == before.lines().len() + 1,
        entered.lines().drop_last() == before.lines(),
        entered.pages() == before.pages().push(page),
        !entered.showing(),
        !entered.showing() && entered.lines().len() > 1 ==> after.lines() == entered.lines().drop_last()
            && after.pages() == entered.pages().drop_last(),
    ensures
        after.lines() == before.lines(),
        after.pages() == before.pages(),
        after.top_line() == before.top_line(),
{
    before.lemma_shape();
    assert(entered.pages().drop_last() =~= before.pages());
}

/// At the root page, leaving is refused and the stack stays as it is.
pub proof fn lemma_root_pop_refused(root: Ui, after: Ui, left: bool)
    requires
        root.lines().len() == 1,
        left == (root.lines().len() > 1),
        !left ==> after.lines() == root.lines(),
        !left ==> after.pages() == root.pages(),
    ensures
        !left,
        after.lines() == root.lines(),
        after.pages() == root.pages(),
{
}

} // verus!
