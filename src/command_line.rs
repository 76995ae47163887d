//! The argument model: typed, ordered, de-duplicated pieces of a command line.
use vstd::prelude::*;
use vstd::string::{StrSliceExecFns, StringExecFns};
use std::cmp::Ordering;

verus! {

pub const PROGRAM_TIER: u64 = 100;
pub const SUBCOMMAND_TIER: u64 = 200;
pub const FLAG_TIER: u64 = 300;
pub const POSITIONAL_TIER: u64 = 400;

/// The tier of an argument; arguments are rendered in ascending tier order.
#[derive(Clone, Copy, Debug, PartialEq, Eq, Structural, PartialOrd, Ord, Hash)]
pub struct ArgOrder(pub u64);

impl ArgOrder {
    /// The tier of the program name, rendered first.
    pub fn program() -> (r: ArgOrder)
        ensures
            r.0 == PROGRAM_TIER,
    {
        ArgOrder(PROGRAM_TIER)
    }

    pub fn subcommand() -> (r: ArgOrder)
        ensures
            r.0 == SUBCOMMAND_TIER,
    {
        ArgOrder(SUBCOMMAND_TIER)
    }

    pub fn flag() -> (r: ArgOrder)
        ensures
            r.0 == FLAG_TIER,
    {
        ArgOrder(FLAG_TIER)
    }

    pub fn positional() -> (r: ArgOrder)
        ensures
            r.0 == POSITIONAL_TIER,
    {
        ArgOrder(POSITIONAL_TIER)
    }

    /// A tier of the caller's choice, e.g. to interleave subcommand words.
    pub fn custom(value: u64) -> (r: ArgOrder)
        ensures
            r.0 == value,
    {
        ArgOrder(value)
    }
}

/// Strict lexicographic order on character sequences, by code point.
pub open spec fn chars_lt(a: Seq<char>, b: Seq<char>) -> bool
    decreases a.len(),
{
    if a.len() == 0 {
        b.len() > 0
    } else if b.len() == 0 {
        false
    } else if a[0] != b[0] {
        (a[0] as int) < (b[0] as int)
    } else {
        chars_lt(a.drop_first(), b.drop_first())
    }
}

pub proof fn lemma_chars_lt_irreflexive(a: Seq<char>)
    ensures
        !chars_lt(a, a),
    decreases a.len(),
{
    if a.len() > 0 {
        lemma_chars_lt_irreflexive(a.drop_first());
    }
}

pub proof fn lemma_chars_lt_transitive(a: Seq<char>, b: Seq<char>, c: Seq<char>)
    requires
        chars_lt(a, b),
        chars_lt(b, c),
    ensures
        chars_lt(a, c),
    decreases a.len(),
{
    if a.len() > 0 && b.len() > 0 && c.len() > 0 && a[0] == b[0] && b[0] == c[0] {
        lemma_chars_lt_transitive(a.drop_first(), b.drop_first(), c.drop_first());
    }
}

pub proof fn lemma_chars_lt_total(a: Seq<char>, b: Seq<char>)
    ensures
        a == b || chars_lt(a, b) || chars_lt(b, a),
    decreases a.len(),
{
    if a.len() > 0 && b.len() > 0 {
        if a[0] == b[0] {
            lemma_chars_lt_total(a.drop_first(), b.drop_first());
            if a.drop_first() == b.drop_first() {
                assert(a =~= seq![a[0]] + a.drop_first());
                assert(b =~= seq![b[0]] + b.drop_first());
            }
        } else {
            assert((a[0] as int) != (b[0] as int));
        }
    } else if a.len() == 0 && b.len() == 0 {
        assert(a =~= b);
    }
}

proof fn lemma_chars_lt_skip(a: Seq<char>, b: Seq<char>, i: int)
    requires
        0 <= i < a.len(),
        i < b.len(),
        a[i] == b[i],
    ensures
        chars_lt(a.skip(i), b.skip(i)) == chars_lt(a.skip(i + 1), b.skip(i + 1)),
{
    assert(a.skip(i).drop_first() =~= a.skip(i + 1));
    assert(b.skip(i).drop_first() =~= b.skip(i + 1));
}

/// Compares two strings by code point, as `str`'s own ordering does.
pub fn compare_str(a: &str, b: &str) -> (r: Ordering)
    ensures
        (r == Ordering::Less) == chars_lt(a@, b@),
        (r == Ordering::Equal) == (a@ == b@),
        (r == Ordering::Greater) == chars_lt(b@, a@),
{
    let la = a.unicode_len();
    let lb = b.unicode_len();
    let mut i: usize = 0;
    proof {
        assert(a@.skip(0) =~= a@);
        assert(b@.skip(0) =~= b@);
        lemma_chars_lt_irreflexive(a@);
        lemma_chars_lt_total(a@, b@);
    }
    while i < la && i < lb
        invariant
            la == a@.len(),
            lb == b@.len(),
            0 <= i <= la,
            i <= lb,
            a@.take(i as int) == b@.take(i as int),
            chars_lt(a@, b@) == chars_lt(a@.skip(i as int), b@.skip(i as int)),
            chars_lt(b@, a@) == chars_lt(b@.skip(i as int), a@.skip(i as int)),
        decreases la - i,
    {
        let ca = a.get_char(i);
        let cb = b.get_char(i);
        if ca != cb {
            proof {
                assert(a@.skip(i as int)[0] == ca);
                assert(b@.skip(i as int)[0] == cb);
                assert(a@ != b@);
                assert((ca as int) != (cb as int));
            }
            if (ca as u32) < (cb as u32) {
                return Ordering::Less;
            } else {
                return Ordering::Greater;
            }
        }
        proof {
            lemma_chars_lt_skip(a@, b@, i as int);
            lemma_chars_lt_skip(b@, a@, i as int);
            assert(a@.take(i as int + 1) =~= a@.take(i as int).push(ca));
            assert(b@.take(i as int + 1) =~= b@.take(i as int).push(cb));
        }
        i = i + 1;
    }
    if i < lb {
        proof {
            assert(a@.skip(i as int).len() == 0);
            assert(a@ != b@);
        }
        Ordering::Less
    } else if i < la {
        proof {
            assert(b@.skip(i as int).len() == 0);
            assert(a@ != b@);
        }
        Ordering::Greater
    } else {
        proof {
            assert(a@ =~= a@.take(i as int));
            assert(b@ =~= b@.take(i as int));
            lemma_chars_lt_irreflexive(a@);
        }
        Ordering::Equal
    }
}

/// Strict lexicographic order on token sequences, each token ordered by `chars_lt`.
pub open spec fn tokens_lt(a: Seq<Seq<char>>, b: Seq<Seq<char>>) -> bool
    decreases a.len(),
{
    if a.len() == 0 {
        b.len() > 0
    } else if b.len() == 0 {
        false
    } else if a[0] != b[0] {
        chars_lt(a[0], b[0])
    } else {
        tokens_lt(a.drop_first(), b.drop_first())
    }
}

pub proof fn lemma_tokens_lt_irreflexive(a: Seq<Seq<char>>)
    ensures
        !tokens_lt(a, a),
    decreases a.len(),
{
    if a.len() > 0 {
        lemma_tokens_lt_irreflexive(a.drop_first());
    }
}

pub proof fn lemma_tokens_lt_transitive(a: Seq<Seq<char>>, b: Seq<Seq<char>>, c: Seq<Seq<char>>)
    requires
        tokens_lt(a, b),
        tokens_lt(b, c),
    ensures
        tokens_lt(a, c),
    decreases a.len(),
{
    if a.len() > 0 && b.len() > 0 && c.len() > 0 {
        if a[0] == b[0] && b[0] == c[0] {
            lemma_tokens_lt_transitive(a.drop_first(), b.drop_first(), c.drop_first());
        } else if a[0] != b[0] && b[0] != c[0] {
            lemma_chars_lt_transitive(a[0], b[0], c[0]);
            if a[0] == c[0] {
                lemma_chars_lt_irreflexive(a[0]);
            }
        }
    }
}

pub proof fn lemma_tokens_lt_total(a: Seq<Seq<char>>, b: Seq<Seq<char>>)
    ensures
        a == b || tokens_lt(a, b) || tokens_lt(b, a),
    decreases a.len(),
{
    if a.len() > 0 && b.len() > 0 {
        if a[0] == b[0] {
            lemma_tokens_lt_total(a.drop_first(), b.drop_first());
            if a.drop_first() == b.drop_first() {
                assert(a =~= seq![a[0]] + a.drop_first());
                assert(b =~= seq![b[0]] + b.drop_first());
            }
        } else {
            lemma_chars_lt_total(a[0], b[0]);
        }
    } else if a.len() == 0 && b.len() == 0 {
        assert(a =~= b);
    }
}

proof fn lemma_tokens_lt_skip(a: Seq<Seq<char>>, b: Seq<Seq<char>>, i: int)
    requires
        0 <= i < a.len(),
        i < b.len(),
        a[i] == b[i],
    ensures
        tokens_lt(a.skip(i), b.skip(i)) == tokens_lt(a.skip(i + 1), b.skip(i + 1)),
{
    assert(a.skip(i).drop_first() =~= a.skip(i + 1));
    assert(b.skip(i).drop_first() =~= b.skip(i + 1));
}

/// The character sequences of a list of strings.
pub open spec fn strings_view(v: Seq<String>) -> Seq<Seq<char>> {
    v.map_values(|s: String| s@)
}

/// Compares two token lists lexicographically, as `Vec<String>`'s own ordering does.
pub fn compare_tokens(a: &Vec<String>, b: &Vec<String>) -> (r: Ordering)
    ensures
        (r == Ordering::Less) == tokens_lt(strings_view(a@), strings_view(b@)),
        (r == Ordering::Equal) == (strings_view(a@) == strings_view(b@)),
        (r == Ordering::Greater) == tokens_lt(strings_view(b@), strings_view(a@)),
{
    let ghost sa = strings_view(a@);
    let ghost sb = strings_view(b@);
    let la = a.len();
    let lb = b.len();
    let mut i: usize = 0;
    proof {
        assert(sa.skip(0) =~= sa);
        assert(sb.skip(0) =~= sb);
        lemma_tokens_lt_irreflexive(sa);
        lemma_tokens_lt_total(sa, sb);
    }
    while i < la && i < lb
        invariant
            sa == strings_view(a@),
            sb == strings_view(b@),
            la == sa.len(),
            lb == sb.len(),
            0 <= i <= la,
            i <= lb,
            sa.take(i as int) == sb.take(i as int),
            tokens_lt(sa, sb) == tokens_lt(sa.skip(i as int), sb.skip(i as int)),
            tokens_lt(sb, sa) == tokens_lt(sb.skip(i as int), sa.skip(i as int)),
        decreases la - i,
    {
        let c = compare_str(a[i].as_str(), b[i].as_str());
        proof {
            assert(sa[i as int] == a@[i as int]@);
            assert(sb[i as int] == b@[i as int]@);
            assert(sa.skip(i as int)[0] == sa[i as int]);
            assert(sb.skip(i as int)[0] == sb[i as int]);
        }
        match c {
            Ordering::Equal => {},
            _ => {
                proof {
                    assert(sa != sb) by {
                        if sa == sb {
                            assert(sa[i as int] == sb[i as int]);
                        }
                    }
                }
                return c;
            },
        }
        proof {
            lemma_tokens_lt_skip(sa, sb, i as int);
            lemma_tokens_lt_skip(sb, sa, i as int);
            assert(sa.take(i as int + 1) =~= sa.take(i as int).push(sa[i as int]));
            assert(sb.take(i as int + 1) =~= sb.take(i as int).push(sb[i as int]));
        }
        i = i + 1;
    }
    if i < lb {
        proof {
            assert(sa.skip(i as int).len() == 0);
            assert(sa != sb);
        }
        Ordering::Less
    } else if i < la {
        proof {
            assert(sb.skip(i as int).len() == 0);
            assert(sa != sb);
        }
        Ordering::Greater
    } else {
        proof {
            assert(sa =~= sa.take(i as int));
            assert(sb =~= sb.take(i as int));
            lemma_tokens_lt_irreflexive(sa);
        }
        Ordering::Equal
    }
}

/// The value of an argument: one token, or several rendered in order.
#[derive(Clone, Debug, PartialEq, Eq, PartialOrd, Ord, Hash)]
pub enum ArgValue {
    Single(String),
    Multi(Vec<String>),
}

/// What an `ArgValue` holds, as character sequences.
pub enum ValueView {
    Single(Seq<char>),
    Multi(Seq<Seq<char>>),
}

impl ValueView {
    /// The tokens that the value renders to.
    pub open spec fn tokens(self) -> Seq<Seq<char>> {
        match self {
            ValueView::Single(s) => seq![s],
            ValueView::Multi(m) => m,
        }
    }
}

impl View for ArgValue {
    type V = ValueView;

    open spec fn view(&self) -> ValueView {
        match self {
            ArgValue::Single(s) => ValueView::Single(s@),
            ArgValue::Multi(m) => ValueView::Multi(strings_view(m@)),
        }
    }
}

/// The order of values: every single token before every list, then by contents.
pub open spec fn value_lt(a: ValueView, b: ValueView) -> bool {
    match (a, b) {
        (ValueView::Single(x), ValueView::Single(y)) => chars_lt(x, y),
        (ValueView::Single(_), ValueView::Multi(_)) => true,
        (ValueView::Multi(_), ValueView::Single(_)) => false,
        (ValueView::Multi(x), ValueView::Multi(y)) => tokens_lt(x, y),
    }
}

/// One argument of a command line.
#[derive(Clone, Debug, PartialEq, Eq, PartialOrd, Ord, Hash)]
pub struct Arg {
    pub order: ArgOrder,
    pub value: ArgValue,
}

/// What an `Arg` holds: its tier and its value.
pub struct ArgView {
    pub order: u64,
    pub value: ValueView,
}

impl View for Arg {
    type V = ArgView;

    open spec fn view(&self) -> ArgView {
        ArgView { order: self.order.0, value: self.value@ }
    }
}

/// The key order of arguments: by tier, then by value.
pub open spec fn arg_lt(a: ArgView, b: ArgView) -> bool {
    a.order < b.order || (a.order == b.order && value_lt(a.value, b.value))
}

pub proof fn lemma_arg_lt_irreflexive(a: ArgView)
    ensures
        !arg_lt(a, a),
{
    match a.value {
        ValueView::Single(x) => lemma_chars_lt_irreflexive(x),
        ValueView::Multi(x) => lemma_tokens_lt_irreflexive(x),
    }
}

pub proof fn lemma_arg_lt_transitive(a: ArgView, b: ArgView, c: ArgView)
    requires
        arg_lt(a, b),
        arg_lt(b, c),
    ensures
        arg_lt(a, c),
{
    if a.order == b.order && b.order == c.order {
        match (a.value, b.value, c.value) {
            (ValueView::Single(x), ValueView::Single(y), ValueView::Single(z)) => {
                lemma_chars_lt_transitive(x, y, z);
            },
            (ValueView::Multi(x), ValueView::Multi(y), ValueView::Multi(z)) => {
                lemma_tokens_lt_transitive(x, y, z);
            },
            _ => {},
        }
    }
}

pub proof fn lemma_arg_lt_total(a: ArgView, b: ArgView)
    ensures
        a == b || arg_lt(a, b) || arg_lt(b, a),
{
    match (a.value, b.value) {
        (ValueView::Single(x), ValueView::Single(y)) => lemma_chars_lt_total(x, y),
        (ValueView::Multi(x), ValueView::Multi(y)) => lemma_tokens_lt_total(x, y),
        _ => {},
    }
}

impl ArgValue {
    /// A copy of the value.
    pub fn duplicate(&self) -> (r: ArgValue)
        ensures
            r@ == self@,
    {
        match self {
            ArgValue::Single(s) => ArgValue::Single(s.clone()),
            ArgValue::Multi(m) => {
                let c = m.clone();
                proof {
                    assert(strings_view(c@) =~= strings_view(m@));
                }
                ArgValue::Multi(c)
            },
        }
    }

    /// Appends the value's tokens to `args`.
    pub fn add_to(&self, args: &mut Vec<String>)
        ensures
            strings_view(final(args)@) == strings_view(old(args)@) + self@.tokens(),
    {
        match self {
            ArgValue::Single(s) => {
                args.push(s.clone());
                proof {
                    assert(strings_view(args@) =~= strings_view(old(args)@) + self@.tokens());
                }
            },
            ArgValue::Multi(m) => {
                let mut i: usize = 0;
                while i < m.len()
                    invariant
                        i <= m@.len(),
                        strings_view(args@) == strings_view(old(args)@) + strings_view(m@).take(i as int),
                    decreases m@.len() - i,
                {
                    let ghost prev = args@;
                    args.push(m[i].clone());
                    proof {
                        assert(strings_view(m@).take(i as int + 1) =~= strings_view(m@).take(i as int).push(m@[i as int]@));
                        assert(strings_view(args@) =~= strings_view(prev).push(m@[i as int]@));
                    }
                    i = i + 1;
                }
                proof {
                    assert(strings_view(m@).take(i as int) =~= strings_view(m@));
                }
            },
        }
    }

    /// The value's tokens joined by spaces.
    pub fn to_string(&self) -> (r: String)
        ensures
            r@ == join_spaced(self@.tokens()),
    {
        let mut args: Vec<String> = Vec::new();
        self.add_to(&mut args);
        proof {
            assert(strings_view(args@) =~= self@.tokens());
        }
        join_tokens(&args)
    }

    /// Compares two values in key order.
    pub fn compare(&self, other: &ArgValue) -> (r: Ordering)
        ensures
            (r == Ordering::Less) == value_lt(self@, other@),
            (r == Ordering::Equal) == (self@ == other@),
            (r == Ordering::Greater) == value_lt(other@, self@),
    {
        match (self, other) {
            (ArgValue::Single(x), ArgValue::Single(y)) => compare_str(x.as_str(), y.as_str()),
            (ArgValue::Single(_), ArgValue::Multi(_)) => Ordering::Less,
            (ArgValue::Multi(_), ArgValue::Single(_)) => Ordering::Greater,
            (ArgValue::Multi(x), ArgValue::Multi(y)) => compare_tokens(x, y),
        }
    }
}

impl Arg {
    pub fn new(order: ArgOrder, value: ArgValue) -> (r: Arg)
        ensures
            r.order == order,
            r.value == value,
    {
        Arg { order, value }
    }

    /// A flag, such as `--dry-run`.
    pub fn switch(value: &str) -> (r: Arg)
        ensures
            r@ == (ArgView { order: FLAG_TIER, value: ValueView::Single(value@) }),
    {
        Arg::new(ArgOrder::flag(), ArgValue::Single(String::from_str(value)))
    }

    /// The program name.
    pub fn program(value: &str) -> (r: Arg)
        ensures
            r@ == (ArgView { order: PROGRAM_TIER, value: ValueView::Single(value@) }),
    {
        Arg::new(ArgOrder::program(), ArgValue::Single(String::from_str(value)))
    }

    /// A subcommand word, such as `log`.
    pub fn subcommand(value: &str) -> (r: Arg)
        ensures
            r@ == (ArgView { order: SUBCOMMAND_TIER, value: ValueView::Single(value@) }),
    {
        Arg::new(ArgOrder::subcommand(), ArgValue::Single(String::from_str(value)))
    }

    /// A positional argument.
    pub fn positional(value: &str) -> (r: Arg)
        ensures
            r@ == (ArgView { order: POSITIONAL_TIER, value: ValueView::Single(value@) }),
    {
        Arg::new(ArgOrder::positional(), ArgValue::Single(String::from_str(value)))
    }

    /// Several subcommand words kept together, such as `git push`.
    pub fn subcommands(words: Vec<String>) -> (r: Arg)
        ensures
            r@ == (ArgView { order: SUBCOMMAND_TIER, value: ValueView::Multi(strings_view(words@)) }),
    {
        Arg::new(ArgOrder::subcommand(), ArgValue::Multi(words))
    }

    /// A subcommand word placed `offset` tiers after the subcommand tier.
    pub fn subcommand_order(value: &str, offset: u64) -> (r: Arg)
        requires
            offset <= u64::MAX - SUBCOMMAND_TIER,
        ensures
            r@ == (ArgView {
                order: (SUBCOMMAND_TIER + offset) as u64,
                value: ValueView::Single(value@),
            }),
    {
        Arg::new(ArgOrder::custom(SUBCOMMAND_TIER + offset), ArgValue::Single(String::from_str(value)))
    }

    /// A copy of the argument.
    pub fn duplicate(&self) -> (r: Arg)
        ensures
            r@ == self@,
    {
        Arg { order: self.order, value: self.value.duplicate() }
    }

    /// Compares two arguments in key order.
    pub fn compare(&self, other: &Arg) -> (r: Ordering)
        ensures
            (r == Ordering::Less) == arg_lt(self@, other@),
            (r == Ordering::Equal) == (self@ == other@),
            (r == Ordering::Greater) == arg_lt(other@, self@),
    {
        if self.order.0 < other.order.0 {
            Ordering::Less
        } else if self.order.0 > other.order.0 {
            Ordering::Greater
        } else {
            self.value.compare(&other.value)
        }
    }
}

/// Arguments in strictly ascending key order (so no argument occurs twice).
pub open spec fn sorted_args(s: Seq<ArgView>) -> bool {
    forall|i: int, j: int| 0 <= i < j < s.len() ==> arg_lt(#[trigger] s[i], #[trigger] s[j])
}

/// The arguments of a sequence, as a set.
pub open spec fn arg_set(s: Seq<ArgView>) -> Set<ArgView> {
    Set::new(|x: ArgView| s.contains(x))
}

/// The set after a toggle: the argument leaves if present, else joins.
pub open spec fn toggled(s: Set<ArgView>, a: ArgView) -> Set<ArgView> {
    if s.contains(a) {
        s.remove(a)
    } else {
        s.insert(a)
    }
}

/// The tokens of a sequence of arguments, each argument's tokens in turn.
pub open spec fn render(s: Seq<ArgView>) -> Seq<Seq<char>>
    decreases s.len(),
{
    if s.len() == 0 {
        Seq::empty()
    } else {
        render(s.drop_last()) + s.last().value.tokens()
    }
}

/// Tokens joined by single spaces.
pub open spec fn join_spaced(t: Seq<Seq<char>>) -> Seq<char>
    decreases t.len(),
{
    if t.len() == 0 {
        Seq::empty()
    } else if t.len() == 1 {
        t[0]
    } else {
        join_spaced(t.drop_last()) + seq![' '] + t.last()
    }
}

/// Joins strings with single spaces.
pub fn join_tokens(v: &Vec<String>) -> (r: String)
    ensures
        r@ == join_spaced(strings_view(v@)),
{
    let mut r = String::new();
    let mut i: usize = 0;
    while i < v.len()
        invariant
            i <= v@.len(),
            r@ == join_spaced(strings_view(v@).take(i as int)),
        decreases v@.len() - i,
    {
        let ghost t = strings_view(v@).take(i as int + 1);
        proof {
            assert(t.drop_last() =~= strings_view(v@).take(i as int));
            assert(t.last() == v@[i as int]@);
        }
        if i > 0 {
            r.append(" ");
            proof {
                reveal_strlit(" ");
            }
        } else {
            proof {
                assert(strings_view(v@).take(0) =~= Seq::<Seq<char>>::empty());
            }
        }
        r.append(v[i].as_str());
        proof {
            if i > 0 {
                assert(r@ =~= join_spaced(t.drop_last()) + seq![' '] + t.last());
            } else {
                assert(r@ =~= t[0]);
            }
        }
        i = i + 1;
    }
    proof {
        assert(strings_view(v@).take(i as int) =~= strings_view(v@));
    }
    r
}

/// Rendering peels off the first argument as well as the last.
pub proof fn lemma_render_first(s: Seq<ArgView>)
    requires
        s.len() > 0,
    ensures
        render(s) == s[0].value.tokens() + render(s.drop_first()),
    decreases s.len(),
{
    if s.len() == 1 {
        assert(s.drop_last() =~= Seq::<ArgView>::empty());
        assert(s.drop_first() =~= Seq::<ArgView>::empty());
        assert(render(s) =~= s[0].value.tokens() + render(s.drop_first()));
    } else {
        lemma_render_first(s.drop_last());
        assert(s.drop_last().drop_first() =~= s.drop_first().drop_last());
        assert(s.drop_first().last() == s.last());
        assert(render(s) =~= s[0].value.tokens() + render(s.drop_first()));
    }
}

/// Two key-ordered argument sequences that hold the same arguments are the same.
pub proof fn lemma_sorted_args_unique(s: Seq<ArgView>, t: Seq<ArgView>)
    requires
        sorted_args(s),
        sorted_args(t),
        arg_set(s) == arg_set(t),
    ensures
        s == t,
    decreases s.len(),
{
    if s.len() == 0 || t.len() == 0 {
        if s.len() > 0 {
            assert(arg_set(s).contains(s[0]));
        }
        if t.len() > 0 {
            assert(arg_set(t).contains(t[0]));
        }
        assert(s =~= t);
    } else {
        assert(arg_set(s).contains(s[0]));
        assert(arg_set(t).contains(t[0]));
        let k = choose|k: int| 0 <= k < t.len() && t[k] == s[0];
        let m = choose|m: int| 0 <= m < s.len() && s[m] == t[0];
        if s[0] != t[0] {
            assert(arg_lt(t[0], t[k]));
            assert(arg_lt(s[0], s[m]));
            lemma_arg_lt_transitive(s[0], t[0], s[0]);
            lemma_arg_lt_irreflexive(s[0]);
        }
        let s1 = s.drop_first();
        let t1 = t.drop_first();
        assert forall|x: ArgView| arg_set(s1).contains(x) == arg_set(t1).contains(x) by {
            if s1.contains(x) {
                let a = choose|a: int| 0 <= a < s1.len() && s1[a] == x;
                assert(s[a + 1] == x);
                assert(arg_set(t).contains(x));
                let b = choose|b: int| 0 <= b < t.len() && t[b] == x;
                if b == 0 {
                    assert(arg_lt(s[0], s[a + 1]));
                    lemma_arg_lt_irreflexive(x);
                } else {
                    assert(t1[b - 1] == x);
                }
            }
            if t1.contains(x) {
                let a = choose|a: int| 0 <= a < t1.len() && t1[a] == x;
                assert(t[a + 1] == x);
                assert(arg_set(s).contains(x));
                let b = choose|b: int| 0 <= b < s.len() && s[b] == x;
                if b == 0 {
                    assert(arg_lt(t[0], t[a + 1]));
                    lemma_arg_lt_irreflexive(x);
                } else {
                    assert(s1[b - 1] == x);
                }
            }
        }
        assert(arg_set(s1) =~= arg_set(t1));
        lemma_sorted_args_unique(s1, t1);
        assert(s =~= seq![s[0]] + s1);
        assert(t =~= seq![t[0]] + t1);
    }
}

/// Toggling the same argument twice leaves the command line exactly as it was:
/// the same arguments, in the same order.
pub proof fn lemma_toggle_twice(before: Seq<ArgView>, between: Seq<ArgView>, after: Seq<ArgView>, a: ArgView)
    requires
        sorted_args(before),
        sorted_args(between),
        sorted_args(after),
        arg_set(between) == toggled(arg_set(before), a),
        arg_set(after) == toggled(arg_set(between), a),
    ensures
        arg_set(after) == arg_set(before),
        after == before,
{
    assert(toggled(toggled(arg_set(before), a), a) =~= arg_set(before));
    lemma_sorted_args_unique(after, before);
}

/// Rendering lists the arguments' tokens in key order; when the program is the
/// only argument in a tier at or below the program tier, its name comes first.
pub proof fn lemma_program_first(s: Seq<ArgView>, program: Seq<char>)
    requires
        sorted_args(s),
        s.contains(ArgView { order: PROGRAM_TIER, value: ValueView::Single(program) }),
        forall|i: int|
            0 <= i < s.len() && (#[trigger] s[i]).order <= PROGRAM_TIER ==> s[i] == (ArgView {
                order: PROGRAM_TIER,
                value: ValueView::Single(program),
            }),
    ensures
        s[0] == (ArgView { order: PROGRAM_TIER, value: ValueView::Single(program) }),
        render(s) == seq![program] + render(s.drop_first()),
        render(s)[0] == program,
{
    let p = ArgView { order: PROGRAM_TIER, value: ValueView::Single(program) };
    let k = choose|k: int| 0 <= k < s.len() && s[k] == p;
    if k > 0 {
        assert(arg_lt(s[0], s[k]));
        assert(s[0].order <= PROGRAM_TIER);
        lemma_arg_lt_irreflexive(p);
    }
    lemma_render_first(s);
    assert(p.value.tokens() =~= seq![program]);
}

/// Why a command line cannot be run.
#[derive(Clone, Copy, Debug, PartialEq, Eq, Structural)]
pub enum ProgramError {
    /// The line holds no argument at all.
    Missing,
    /// The first argument is a list of tokens, not one program name.
    NotSingle,
}

/// The views of a list of arguments.
pub open spec fn args_view(v: Seq<Arg>) -> Seq<ArgView> {
    v.map_values(|a: Arg| a@)
}

/// A command line under construction: a set of arguments kept in key order.
#[derive(Debug)]
pub struct CommandLine {
    args: Vec<Arg>,
}

impl View for CommandLine {
    type V = Seq<ArgView>;

    closed spec fn view(&self) -> Seq<ArgView> {
        args_view(self.args@)
    }
}

proof fn lemma_sorted_insert(s: Seq<ArgView>, p: int, a: ArgView)
    requires
        sorted_args(s),
        0 <= p <= s.len(),
        forall|k: int| 0 <= k < p ==> arg_lt(#[trigger] s[k], a),
        p < s.len() ==> arg_lt(a, s[p]),
    ensures
        sorted_args(s.insert(p, a)),
        arg_set(s.insert(p, a)) == arg_set(s).insert(a),
{
    let t = s.insert(p, a);
    assert forall|i: int, j: int| 0 <= i < j < t.len() implies arg_lt(#[trigger] t[i], #[trigger] t[j]) by {
        if j == p {
        } else if i == p {
            if j > p + 1 {
                lemma_arg_lt_transitive(a, s[p], s[j - 1]);
            }
        } else if i < p && j > p {
            assert(arg_lt(s[i], a));
            if j - 1 > p {
                lemma_arg_lt_transitive(a, s[p], s[j - 1]);
            }
            lemma_arg_lt_transitive(s[i], a, s[j - 1]);
        }
    }
    assert forall|x: ArgView| arg_set(t).contains(x) == arg_set(s).insert(a).contains(x) by {
        if s.contains(x) {
            let k = choose|k: int| 0 <= k < s.len() && s[k] == x;
            if k < p {
                assert(t[k] == x);
            } else {
                assert(t[k + 1] == x);
            }
        }
        if t.contains(x) {
            let k = choose|k: int| 0 <= k < t.len() && t[k] == x;
            if k < p {
                assert(s[k] == x);
            } else if k > p {
                assert(s[k - 1] == x);
            }
        }
        assert(t[p] == a);
    }
    assert(arg_set(t) =~= arg_set(s).insert(a));
}

proof fn lemma_sorted_remove(s: Seq<ArgView>, p: int)
    requires
        sorted_args(s),
        0 <= p < s.len(),
    ensures
        sorted_args(s.remove(p)),
        arg_set(s.remove(p)) == arg_set(s).remove(s[p]),
{
    let t = s.remove(p);
    assert forall|i: int, j: int| 0 <= i < j < t.len() implies arg_lt(#[trigger] t[i], #[trigger] t[j]) by {
        let si = if i < p { i } else { i + 1 };
        let sj = if j < p { j } else { j + 1 };
        assert(s[si] == t[i] && s[sj] == t[j]);
    }
    assert forall|x: ArgView| arg_set(t).contains(x) == arg_set(s).remove(s[p]).contains(x) by {
        if s.contains(x) && x != s[p] {
            let k = choose|k: int| 0 <= k < s.len() && s[k] == x;
            if k < p {
                assert(t[k] == x);
            } else {
                assert(t[k - 1] == x);
            }
        }
        if t.contains(x) {
            let k = choose|k: int| 0 <= k < t.len() && t[k] == x;
            if k < p {
                assert(s[k] == x);
                lemma_arg_lt_irreflexive(x);
            } else {
                assert(s[k + 1] == x);
                lemma_arg_lt_irreflexive(x);
            }
        }
    }
    assert(arg_set(t) =~= arg_set(s).remove(s[p]));
}

impl CommandLine {
    #[verifier::type_invariant]
    spec fn inv(&self) -> bool {
        sorted_args(self@)
    }

    /// The arguments, as a set.
    pub open spec fn set(&self) -> Set<ArgView> {
        arg_set(self@)
    }

    /// An empty command line.
    pub fn new() -> (r: CommandLine)
        ensures
            r@ == Seq::<ArgView>::empty(),
    {
        let args: Vec<Arg> = Vec::new();
        assert(args_view(args@) =~= Seq::<ArgView>::empty());
        CommandLine { args }
    }

    /// Where `arg` stands or would stand: the first position not below it, and
    /// whether the argument there is `arg` itself.
    fn locate(&self, arg: &Arg) -> (r: (usize, bool))
        ensures
            sorted_args(self@),
            r.0 <= self@.len(),
            forall|k: int| 0 <= k < r.0 ==> arg_lt(#[trigger] self@[k], arg@),
            r.1 ==> r.0 < self@.len() && self@[r.0 as int] == arg@,
            !r.1 ==> r.0 < self@.len() ==> arg_lt(arg@, self@[r.0 as int]),
            r.1 == self@.contains(arg@),
    {
        proof {
            use_type_invariant(self);
        }
        let n = self.args.len();
        let mut i: usize = 0;
        while i < n
            invariant
                n == self@.len(),
                i <= n,
                sorted_args(self@),
                forall|k: int| 0 <= k < i ==> arg_lt(#[trigger] self@[k], arg@),
            decreases n - i,
        {
            let c = self.args[i].compare(arg);
            assert(self@[i as int] == self.args@[i as int]@);
            match c {
                Ordering::Less => {},
                Ordering::Equal => {
                    return (i, true);
                },
                Ordering::Greater => {
                    proof {
                        assert forall|k: int| 0 <= k < self@.len() implies #[trigger] self@[k] != arg@ by {
                            lemma_arg_lt_irreflexive(arg@);
                            if k > i {
                                lemma_arg_lt_transitive(arg@, self@[i as int], self@[k]);
                            }
                        }
                    }
                    return (i, false);
                },
            }
            i = i + 1;
        }
        proof {
            assert forall|k: int| 0 <= k < self@.len() implies #[trigger] self@[k] != arg@ by {
                lemma_arg_lt_irreflexive(arg@);
            }
        }
        (i, false)
    }

    /// A copy of the argument list.
    fn copy_args(&self) -> (r: Vec<Arg>)
        ensures
            args_view(r@) == self@,
    {
        let mut r: Vec<Arg> = Vec::new();
        let mut i: usize = 0;
        while i < self.args.len()
            invariant
                i <= self.args@.len(),
                args_view(r@) == args_view(self.args@).take(i as int),
            decreases self.args@.len() - i,
        {
            r.push(self.args[i].duplicate());
            proof {
                assert(args_view(self.args@).take(i as int + 1) =~= args_view(self.args@).take(i as int).push(self.args@[i as int]@));
            }
            i = i + 1;
        }
        proof {
            assert(args_view(self.args@).take(i as int) =~= args_view(self.args@));
        }
        r
    }

    /// A copy of the command line, e.g. the snapshot kept when a page is entered.
    pub fn duplicate(&self) -> (r: CommandLine)
        ensures
            r@ == self@,
    {
        proof {
            use_type_invariant(self);
        }
        let args = self.copy_args();
        assert(sorted_args(args_view(args@)));
        CommandLine { args }
    }

    /// A command line holding the given arguments, each once.
    pub fn from_args(args: Vec<Arg>) -> (r: CommandLine)
        ensures
            r.set() == arg_set(args_view(args@)),
            sorted_args(r@),
    {
        let mut r = CommandLine::new();
        let mut i: usize = 0;
        proof {
            assert(arg_set(r@) =~= arg_set(args_view(args@).take(0)));
        }
        while i < args.len()
            invariant
                i <= args@.len(),
                r.set() == arg_set(args_view(args@).take(i as int)),
            decreases args@.len() - i,
        {
            r.add_arg(args[i].duplicate());
            proof {
                let t = args_view(args@).take(i as int + 1);
                let u = args_view(args@).take(i as int);
                assert(t =~= u.push(args@[i as int]@));
                assert forall|x: ArgView| arg_set(t).contains(x) == arg_set(u).insert(args@[i as int]@).contains(x) by {
                    if u.contains(x) {
                        let k = choose|k: int| 0 <= k < u.len() && u[k] == x;
                        assert(t[k] == x);
                    }
                    if t.contains(x) {
                        let k = choose|k: int| 0 <= k < t.len() && t[k] == x;
                        if k < u.len() {
                            assert(u[k] == x);
                        }
                    }
                    assert(t[i as int] == args@[i as int]@);
                }
                assert(arg_set(t) =~= arg_set(u).insert(args@[i as int]@));
            }
            i = i + 1;
        }
        proof {
            assert(args_view(args@).take(i as int) =~= args_view(args@));
            use_type_invariant(&r);
        }
        r
    }

    /// The arguments in key order.
    pub fn args(&self) -> (r: &Vec<Arg>)
        ensures
            args_view(r@) == self@,
            sorted_args(self@),
    {
        proof {
            use_type_invariant(self);
        }
        &self.args
    }

    /// The tokens of the command line: each argument's tokens, in key order.
    pub fn to_args(&self) -> (r: Vec<String>)
        ensures
            strings_view(r@) == render(self@),
            sorted_args(self@),
    {
        proof {
            use_type_invariant(self);
        }
        let mut r: Vec<String> = Vec::new();
        let mut i: usize = 0;
        proof {
            assert(self@.take(0) =~= Seq::<ArgView>::empty());
            assert(strings_view(r@) =~= Seq::<Seq<char>>::empty());
        }
        while i < self.args.len()
            invariant
                i <= self@.len(),
                strings_view(r@) == render(self@.take(i as int)),
            decreases self@.len() - i,
        {
            self.args[i].value.add_to(&mut r);
            proof {
                let t = self@.take(i as int + 1);
                assert(t.drop_last() =~= self@.take(i as int));
                assert(t.last() == self.args@[i as int]@);
            }
            i = i + 1;
        }
        proof {
            assert(self@.take(i as int) =~= self@);
        }
        r
    }

    /// The command line as one string, tokens joined by spaces.
    pub fn to_string(&self) -> (r: String)
        ensures
            r@ == join_spaced(render(self@)),
    {
        let args = self.to_args();
        join_tokens(&args)
    }

    /// The program name and the tokens that follow it, ready to be run.
    pub fn to_argv(&self) -> (r: Result<(String, Vec<String>), ProgramError>)
        ensures
            self@.len() == 0 ==> r == Err::<(String, Vec<String>), ProgramError>(ProgramError::Missing),
            self@.len() > 0 && self@[0].value is Multi ==> r == Err::<(String, Vec<String>), ProgramError>(ProgramError::NotSingle),
            r is Ok <==> self@.len() > 0 && self@[0].value is Single,
            r matches Ok((program, rest)) ==> {
                &&& seq![program@] + strings_view(rest@) == render(self@)
                &&& strings_view(rest@) == render(self@.drop_first())
            },
    {
        proof {
            use_type_invariant(self);
        }
        if self.args.len() == 0 {
            return Err(ProgramError::Missing);
        }
        let program = match &self.args[0].value {
            ArgValue::Single(s) => s.clone(),
            ArgValue::Multi(_) => {
                return Err(ProgramError::NotSingle);
            },
        };
        let mut rest: Vec<String> = Vec::new();
        let mut i: usize = 1;
        proof {
            assert(self@.drop_first().take(0) =~= Seq::<ArgView>::empty());
            assert(strings_view(rest@) =~= Seq::<Seq<char>>::empty());
        }
        while i < self.args.len()
            invariant
                1 <= i <= self@.len(),
                strings_view(rest@) == render(self@.drop_first().take(i - 1)),
            decreases self@.len() - i,
        {
            self.args[i].value.add_to(&mut rest);
            proof {
                let t = self@.drop_first().take(i as int);
                assert(t.drop_last() =~= self@.drop_first().take(i - 1));
                assert(t.last() == self.args@[i as int]@);
            }
            i = i + 1;
        }
        proof {
            assert(self@.drop_first().take(i - 1) =~= self@.drop_first());
            lemma_render_first(self@);
            assert(self@[0].value.tokens() =~= seq![program@]);
        }
        Ok((program, rest))
    }

    /// Whether `arg` is on the command line.
    pub fn contains(&self, arg: &Arg) -> (r: bool)
        ensures
            r == self.set().contains(arg@),
    {
        self.locate(arg).1
    }

    /// Adds `arg`; adding one already present changes nothing.
    pub fn add_arg(&mut self, arg: Arg)
        ensures
            final(self).set() == old(self).set().insert(arg@),
            sorted_args(final(self)@),
    {
        let (p, found) = self.locate(&arg);
        if !found {
            let ghost a = arg@;
            proof {
                lemma_sorted_insert(self@, p as int, a);
            }
            let mut args = self.copy_args();
            let ghost before = args@;
            args.insert(p, arg);
            proof {
                assert(args_view(args@) =~= args_view(before).insert(p as int, a));
            }
            self.args = args;
        } else {
            proof {
                assert(arg_set(self@) =~= arg_set(self@).insert(arg@));
            }
        }
    }

    /// Removes `arg` and says whether it was there.
    pub fn remove_arg(&mut self, arg: &Arg) -> (r: bool)
        ensures
            r == old(self).set().contains(arg@),
            final(self).set() == old(self).set().remove(arg@),
            sorted_args(final(self)@),
    {
        let (p, found) = self.locate(arg);
        if found {
            proof {
                lemma_sorted_remove(self@, p as int);
            }
            let mut args = self.copy_args();
            let ghost before = args@;
            args.remove(p);
            proof {
                assert(args_view(args@) =~= args_view(before).remove(p as int));
            }
            self.args = args;
        } else {
            proof {
                assert(arg_set(self@) =~= arg_set(self@).remove(arg@));
            }
        }
        found
    }

    /// Removes `arg` if present, else adds it.
    pub fn toggle_arg(&mut self, arg: Arg)
        ensures
            final(self).set() == toggled(old(self).set(), arg@),
            sorted_args(final(self)@),
    {
        if !self.remove_arg(&arg) {
            self.add_arg(arg);
        }
    }
}

} // verus!
