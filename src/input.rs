//! The key dispatcher: turns single key presses into a button of the active page.
use vstd::prelude::*;
use vstd::string::StrSliceExecFns;
use crate::text::push_char;

verus! {

/// The key sequence that presses a button.
#[derive(Clone, Debug, PartialEq, Eq, PartialOrd, Ord, Hash)]
pub struct Keybind(pub String);

/// A key press, as far as the dispatcher tells keys apart.
#[derive(Clone, Copy, Debug, PartialEq, Eq, Structural)]
pub enum Key {
    Char(char),
    Esc,
    F(u8),
    Other,
}

/// The character that shows or hides the command view.
pub const TOGGLE_COMMAND_KEY: char = '`';

/// The function key that acts as Escape.
pub const ESCAPE_FUNCTION_KEY: u8 = 9;

/// What a key press asks for.
#[derive(Clone, Copy, Debug, PartialEq, Eq, Structural)]
pub enum KeyOutcome {
    /// Show or hide the command view.
    ToggleCommand,
    /// Leave the current page, or the program at the root.
    Escape,
    /// Run the handler of the button at this index of the page's bindings.
    Run(usize),
    /// The keys so far begin some binding: wait for more.
    Pending,
    /// No binding begins with the keys so far; they are dropped.
    NoMatch,
    /// A key that the dispatcher does not use.
    Ignored,
}

/// The keys of a list of bindings.
pub open spec fn keys_view(v: Seq<Keybind>) -> Seq<Seq<char>> {
    v.map_values(|k: Keybind| k.0@)
}

/// `p` is a prefix of `s` (possibly all of it).
pub open spec fn is_prefix(p: Seq<char>, s: Seq<char>) -> bool {
    p.len() <= s.len() && s.take(p.len() as int) == p
}

/// `i` is the first binding whose keys are exactly `p`.
pub open spec fn first_exact(keys: Seq<Seq<char>>, p: Seq<char>, i: int) -> bool {
    &&& 0 <= i < keys.len()
    &&& keys[i] == p
    &&& forall|j: int| 0 <= j < i ==> keys[j] != p
}

/// The outcome of typing `p` against `keys`, and the prefix kept afterwards.
pub open spec fn resolve(keys: Seq<Seq<char>>, p: Seq<char>) -> (KeyOutcome, Seq<char>) {
    if exists|i: int| 0 <= i < keys.len() && keys[i] == p {
        let i = choose|i: int| first_exact(keys, p, i);
        (KeyOutcome::Run(i as usize), Seq::empty())
    } else if exists|i: int| 0 <= i < keys.len() && is_prefix(p, #[trigger] keys[i]) {
        (KeyOutcome::Pending, p)
    } else {
        (KeyOutcome::NoMatch, Seq::empty())
    }
}

/// The outcome of a key press with prefix `prefix` pending, and the prefix after it.
pub open spec fn dispatch(keys: Seq<Seq<char>>, prefix: Seq<char>, key: Key) -> (KeyOutcome, Seq<char>) {
    match key {
        Key::Char(c) => {
            if c == TOGGLE_COMMAND_KEY {
                (KeyOutcome::ToggleCommand, Seq::empty())
            } else {
                resolve(keys, prefix.push(c))
            }
        },
        Key::Esc => (KeyOutcome::Escape, Seq::empty()),
        Key::F(n) => {
            if n == ESCAPE_FUNCTION_KEY {
                (KeyOutcome::Escape, Seq::empty())
            } else {
                (KeyOutcome::Ignored, prefix)
            }
        },
        Key::Other => (KeyOutcome::Ignored, prefix),
    }
}

/// A two-key binding is reached key by key: after its first key the dispatcher
/// waits, keeping that key, and its second key runs it, provided no binding
/// consists of the first key alone.
pub proof fn lemma_two_key_binding(keys: Seq<Seq<char>>, i: int, a: char, b: char)
    requires
        0 <= i < keys.len(),
        keys[i] == seq![a, b],
        a != TOGGLE_COMMAND_KEY,
        b != TOGGLE_COMMAND_KEY,
        forall|j: int| 0 <= j < keys.len() ==> keys[j] != seq![a],
        forall|j: int| 0 <= j < i ==> keys[j] != seq![a, b],
    ensures
        dispatch(keys, Seq::empty(), Key::Char(a)) == (KeyOutcome::Pending, seq![a]),
        dispatch(keys, seq![a], Key::Char(b)) == (KeyOutcome::Run(i as usize), Seq::<char>::empty()),
{
    assert(Seq::<char>::empty().push(a) =~= seq![a]);
    assert(seq![a].push(b) =~= seq![a, b]);
    assert(keys[i].take(1) =~= seq![a]);
    assert(is_prefix(seq![a], keys[i]));
    assert(first_exact(keys, seq![a, b], i));
    let k = choose|k: int| first_exact(keys, seq![a, b], k);
    assert(k == i) by {
        if k < i {
            assert(keys[k] != seq![a, b]);
        } else if k > i {
            assert(keys[i] != seq![a, b]);
        }
    }
}

/// Keys that begin no binding are dropped together, so the next key is
/// matched on its own: a one-key binding then runs at once.
pub proof fn lemma_unmatched_keys_dropped(keys: Seq<Seq<char>>, prefix: Seq<char>, c: char, i: int, a: char)
    requires
        c != TOGGLE_COMMAND_KEY,
        a != TOGGLE_COMMAND_KEY,
        forall|j: int| 0 <= j < keys.len() ==> !is_prefix(prefix.push(c), #[trigger] keys[j]),
        0 <= i < keys.len(),
        keys[i] == seq![a],
        forall|j: int| 0 <= j < i ==> keys[j] != seq![a],
    ensures
        dispatch(keys, prefix, Key::Char(c)) == (KeyOutcome::NoMatch, Seq::<char>::empty()),
        dispatch(keys, Seq::empty(), Key::Char(a)) == (KeyOutcome::Run(i as usize), Seq::<char>::empty()),
{
    assert forall|j: int| 0 <= j < keys.len() implies keys[j] != prefix.push(c) by {
        if keys[j] == prefix.push(c) {
            assert(keys[j].take(keys[j].len() as int) =~= keys[j]);
        }
    }
    assert(Seq::<char>::empty().push(a) =~= seq![a]);
    assert(first_exact(keys, seq![a], i));
    let k = choose|k: int| first_exact(keys, seq![a], k);
    assert(k == i) by {
        if k < i {
            assert(keys[k] != seq![a]);
        } else if k > i {
            assert(keys[i] != seq![a]);
        }
    }
}

/// Whether `p` is a prefix of `s`.
pub fn starts_with(s: &str, p: &str) -> (r: bool)
    ensures
        r == is_prefix(p@, s@),
{
    let ls = s.unicode_len();
    let lp = p.unicode_len();
    if lp > ls {
        return false;
    }
    let mut i: usize = 0;
    while i < lp
        invariant
            ls == s@.len(),
            lp == p@.len(),
            lp <= ls,
            i <= lp,
            s@.take(i as int) == p@.take(i as int),
        decreases lp - i,
    {
        if s.get_char(i) != p.get_char(i) {
            proof {
                assert(s@.take(lp as int)[i as int] != p@[i as int]);
            }
            return false;
        }
        proof {
            assert(s@.take(i as int + 1) =~= s@.take(i as int).push(s@[i as int]));
            assert(p@.take(i as int + 1) =~= p@.take(i as int).push(p@[i as int]));
        }
        i = i + 1;
    }
    proof {
        assert(p@.take(lp as int) =~= p@);
    }
    true
}

/// The dispatcher's state: the keys typed so far towards a binding.
#[derive(Clone, Debug, Default)]
pub struct KeyHandler {
    current_keys: String,
}

impl View for KeyHandler {
    type V = Seq<char>;

    closed spec fn view(&self) -> Seq<char> {
        self.current_keys@
    }
}

impl KeyHandler {
    /// A dispatcher with nothing pending.
    pub fn new() -> (r: KeyHandler)
        ensures
            r@ == Seq::<char>::empty(),
    {
        KeyHandler { current_keys: String::new() }
    }

    /// The keys typed so far towards a binding.
    pub fn prefix(&self) -> (r: &str)
        ensures
            r@ == self@,
    {
        self.current_keys.as_str()
    }

    /// Drops the pending keys.
    pub fn reset(&mut self)
        ensures
            final(self)@ == Seq::<char>::empty(),
    {
        self.current_keys = String::new();
    }

    /// Takes one key press against the bindings of the active page, in order.
    pub fn handle_key(&mut self, key: Key, bindings: &Vec<Keybind>) -> (r: KeyOutcome)
        ensures
            (r, final(self)@) == dispatch(keys_view(bindings@), old(self)@, key),
    {
        let ghost keys = keys_view(bindings@);
        let c = match key {
            Key::Char(c) => {
                if c == TOGGLE_COMMAND_KEY {
                    self.reset();
                    return KeyOutcome::ToggleCommand;
                }
                c
            },
            Key::Esc => {
                self.reset();
                return KeyOutcome::Escape;
            },
            Key::F(n) => {
                if n == ESCAPE_FUNCTION_KEY {
                    self.reset();
                    return KeyOutcome::Escape;
                }
                return KeyOutcome::Ignored;
            },
            Key::Other => {
                return KeyOutcome::Ignored;
            },
        };
        push_char(&mut self.current_keys, c);
        let ghost p = self@;
        let n = bindings.len();
        let mut i: usize = 0;
        let mut pending = false;
        while i < n
            invariant
                n == keys.len(),
                keys == keys_view(bindings@),
                p == self@,
                p == old(self)@.push(c),
                key == Key::Char(c),
                c != TOGGLE_COMMAND_KEY,
                i <= n,
                forall|j: int| 0 <= j < i ==> keys[j] != p,
                pending == exists|j: int| 0 <= j < i && is_prefix(p, #[trigger] keys[j]),
            decreases n - i,
        {
            assert(keys[i as int] == bindings@[i as int].0@);
            if bindings[i].0 == self.current_keys {
                self.reset();
                proof {
                    assert(keys[i as int] == p);
                    assert(first_exact(keys, p, i as int));
                    let k = choose|k: int| first_exact(keys, p, k);
                    assert(k == i) by {
                        if k < i {
                            assert(keys[k] != p);
                        } else if k > i {
                            assert(keys[i as int] != p);
                        }
                    }
                    assert(resolve(keys, p) == (KeyOutcome::Run(i), Seq::<char>::empty()));
                    assert(old(self)@.push(c) == p);
                }
                return KeyOutcome::Run(i);
            }
            if starts_with(bindings[i].0.as_str(), self.current_keys.as_str()) {
                pending = true;
            }
            i = i + 1;
        }
        if pending {
            KeyOutcome::Pending
        } else {
            self.reset();
            KeyOutcome::NoMatch
        }
    }
}

} // verus!
