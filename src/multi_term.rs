//! Opening commands in new tabs of a terminal multiplexer (tmux): the
//! arguments to hand it, and reading back the tabs it reports.
use vstd::prelude::*;
use vstd::string::{StrSliceExecFns, StringExecFns};
use crate::command_line::strings_view;

verus! {

#[verifier::external_type_specification]
#[verifier::external_body]
pub struct ExCsvError(csv::Error);

/// The fields of each record that csv reads from a text without a header row.
pub uninterp spec fn csv_records_of(text: Seq<char>) -> Seq<Seq<Seq<char>>>;

/// The character sequences of some records.
pub open spec fn records_view(v: Seq<Vec<String>>) -> Seq<Seq<Seq<char>>> {
    v.map_values(|r: Vec<String>| strings_view(r@))
}

/// Relies on csv's `Reader::records` over a `ReaderBuilder` without headers:
/// the fields of each record of the text, or csv's error.
#[verifier::external_body]
fn read_records(text: &str) -> (r: Result<Vec<Vec<String>>, csv::Error>)
    ensures
        r matches Ok(v) ==> records_view(v@) == csv_records_of(text@),
{
    csv::ReaderBuilder::new()
        .has_headers(false)
        .from_reader(text.as_bytes())
        .records()
        .map(|rec| rec.map(|rec| rec.iter().map(String::from).collect()))
        .collect()
}

/// A tab (tmux window): its id, its name and its number.
#[derive(Clone, Debug, PartialEq, Eq)]
pub struct TabHandle {
    window_id: String,
    name: String,
    number: u64,
}

impl TabHandle {
    pub closed spec fn id_view(&self) -> Seq<char> {
        self.window_id@
    }

    pub closed spec fn name_view(&self) -> Seq<char> {
        self.name@
    }

    pub closed spec fn number_view(&self) -> u64 {
        self.number
    }

    pub fn new(window_id: String, name: String, number: u64) -> (r: TabHandle)
        ensures
            r.id_view() == window_id@,
            r.name_view() == name@,
            r.number_view() == number,
    {
        TabHandle { window_id, name, number }
    }

    pub fn number(&self) -> (r: u64)
        ensures
            r == self.number_view(),
    {
        self.number
    }

    pub fn name(&self) -> (r: &str)
        ensures
            r@ == self.name_view(),
    {
        self.name.as_str()
    }

    pub fn window_id(&self) -> (r: &str)
        ensures
            r@ == self.id_view(),
    {
        self.window_id.as_str()
    }
}

/// Why the multiplexer's report cannot be read.
#[derive(Clone, Copy, Debug, PartialEq, Eq, Structural)]
pub enum TabError {
    /// The text is not well-formed CSV.
    Csv,
    /// A record does not hold an id, a name and a number.
    BadRecord,
    /// The report names no tab at all.
    Empty,
}

/// The value of a digit character.
pub open spec fn digit_value(c: char) -> int {
    (c as int) - ('0' as int)
}

pub open spec fn is_digit(c: char) -> bool {
    '0' <= c && c <= '9'
}

/// The number that a sequence of decimal digits writes.
pub open spec fn decimal_value(s: Seq<char>) -> int
    decreases s.len(),
{
    if s.len() == 0 {
        0
    } else {
        decimal_value(s.drop_last()) * 10 + digit_value(s.last())
    }
}

/// The digits of an unsigned decimal number: an optional `+` before them.
pub open spec fn number_digits(s: Seq<char>) -> Seq<char> {
    if s.len() > 0 && s[0] == '+' {
        s.drop_first()
    } else {
        s
    }
}

/// `s` writes a `u64` in decimal, as `u64::from_str` reads it.
pub open spec fn parses_as_u64(s: Seq<char>) -> bool {
    let d = number_digits(s);
    &&& d.len() > 0
    &&& forall|i: int| 0 <= i < d.len() ==> is_digit(#[trigger] d[i])
    &&& decimal_value(d) <= u64::MAX
}

proof fn lemma_decimal_monotone(s: Seq<char>, k: int)
    requires
        0 <= k <= s.len(),
        forall|i: int| 0 <= i < s.len() ==> is_digit(#[trigger] s[i]),
    ensures
        0 <= decimal_value(s.take(k)) <= decimal_value(s),
    decreases s.len() - k,
{
    if k < s.len() {
        lemma_decimal_monotone(s, k + 1);
        let t = s.take(k + 1);
        assert(t.drop_last() =~= s.take(k));
        assert(is_digit(t.last()));
        lemma_decimal_nonneg(s.take(k));
    } else {
        assert(s.take(k) =~= s);
        lemma_decimal_nonneg(s);
    }
}

proof fn lemma_decimal_nonneg(s: Seq<char>)
    requires
        forall|i: int| 0 <= i < s.len() ==> is_digit(#[trigger] s[i]),
    ensures
        decimal_value(s) >= 0,
    decreases s.len(),
{
    if s.len() > 0 {
        lemma_decimal_nonneg(s.drop_last());
        assert(is_digit(s.last()));
    }
}

/// Reads an unsigned decimal number.
pub fn parse_u64(s: &str) -> (r: Option<u64>)
    ensures
        parses_as_u64(s@) ==> r == Some(decimal_value(number_digits(s@)) as u64),
        !parses_as_u64(s@) ==> r is None,
{
    let n = s.unicode_len();
    let start: usize = if n > 0 && s.get_char(0) == '+' { 1 } else { 0 };
    let ghost d = number_digits(s@);
    proof {
        if start == 1 {
            assert(d =~= s@.subrange(1, n as int));
        } else {
            assert(d =~= s@.subrange(0, n as int));
        }
    }
    if start == n {
        return None;
    }
    let mut value: u64 = 0;
    let mut i: usize = start;
    proof {
        assert(d.take(0) =~= Seq::<char>::empty());
    }
    while i < n
        invariant
            start <= i <= n,
            n == s@.len(),
            d == s@.subrange(start as int, n as int),
            d == number_digits(s@),
            forall|k: int| 0 <= k < i - start ==> is_digit(#[trigger] d[k]),
            value == decimal_value(d.take(i - start)),
        decreases n - i,
    {
        let c = s.get_char(i);
        assert(c == d[i - start]);
        if !('0' <= c && c <= '9') {
            return None;
        }
        let digit = (c as u32 - '0' as u32) as u64;
        proof {
            let t = d.take(i - start + 1);
            assert(t.drop_last() =~= d.take(i - start));
            assert(t.last() == c);
        }
        if value > (u64::MAX - digit) / 10 {
            proof {
                assert(decimal_value(d.take(i - start + 1)) == value * 10 + digit) by (nonlinear_arith)
                    requires value > (u64::MAX - digit) / 10, decimal_value(d.take(i - start + 1)) == value * 10 + digit;
                assert(value * 10 + digit > u64::MAX) by (nonlinear_arith)
                    requires value > (u64::MAX - digit) / 10, digit <= 9;
                assert forall|k: int| 0 <= k < d.len() implies is_digit(#[trigger] d[k]) || !parses_as_u64(s@) by {}
                if parses_as_u64(s@) {
                    lemma_decimal_monotone(d, i - start + 1);
                }
            }
            return None;
        }
        proof {
            assert(value * 10 + digit <= u64::MAX) by (nonlinear_arith)
                requires value <= (u64::MAX - digit) / 10, digit <= 9;
        }
        value = value * 10 + digit;
        i = i + 1;
    }
    proof {
        assert(d.take(n - start) =~= d);
    }
    Some(value)
}

/// The tabs that a report of `#{window_id},#{window_name},#{window_index}`
/// records describes, in order; `None` if some record does not.
pub open spec fn tabs_spec(records: Seq<Seq<Seq<char>>>) -> Option<Seq<(Seq<char>, Seq<char>, u64)>>
    decreases records.len(),
{
    if records.len() == 0 {
        Some(Seq::empty())
    } else {
        let r = records.last();
        match tabs_spec(records.drop_last()) {
            Some(tabs) => if r.len() == 3 && parses_as_u64(r[2]) {
                Some(tabs.push((r[0], r[1], decimal_value(number_digits(r[2])) as u64)))
            } else {
                None
            },
            None => None,
        }
    }
}

/// The id, name and number of some tabs.
pub open spec fn tabs_view(v: Seq<TabHandle>) -> Seq<(Seq<char>, Seq<char>, u64)> {
    v.map_values(|t: TabHandle| (t.id_view(), t.name_view(), t.number_view()))
}

proof fn lemma_tabs_none(records: Seq<Seq<Seq<char>>>, k: int)
    requires
        0 < k <= records.len(),
        tabs_spec(records.take(k)) is None,
    ensures
        tabs_spec(records) is None,
    decreases records.len() - k,
{
    if k < records.len() {
        let u = records.take(k + 1);
        assert(u.drop_last() =~= records.take(k));
        lemma_tabs_none(records, k + 1);
    } else {
        assert(records.take(k) =~= records);
    }
}

/// Reads the tabs that tmux lists, one CSV record per tab.
pub fn parse_tabs(text: &str) -> (r: Result<Vec<TabHandle>, TabError>)
    ensures
        r matches Ok(v) ==> tabs_spec(csv_records_of(text@)) == Some(tabs_view(v@)),
        r == Err::<Vec<TabHandle>, TabError>(TabError::BadRecord) ==> tabs_spec(csv_records_of(text@)) is None,
        r is Err ==> r == Err::<Vec<TabHandle>, TabError>(TabError::BadRecord)
            || r == Err::<Vec<TabHandle>, TabError>(TabError::Csv),
{
    let records = match read_records(text) {
        Ok(v) => v,
        Err(_) => {
            return Err(TabError::Csv);
        },
    };
    let ghost recs = csv_records_of(text@);
    let mut tabs: Vec<TabHandle> = Vec::new();
    let mut i: usize = 0;
    proof {
        assert(recs.take(0) =~= Seq::<Seq<Seq<char>>>::empty());
        assert(tabs_view(tabs@) =~= Seq::<(Seq<char>, Seq<char>, u64)>::empty());
    }
    while i < records.len()
        invariant
            records_view(records@) == recs,
            recs == csv_records_of(text@),
            i <= records@.len(),
            tabs_spec(recs.take(i as int)) == Some(tabs_view(tabs@)),
        decreases records@.len() - i,
    {
        let rec = &records[i];
        proof {
            let u = recs.take(i as int + 1);
            assert(u.drop_last() =~= recs.take(i as int));
            assert(u.last() == strings_view(rec@));
        }
        if rec.len() != 3 {
            proof {
                lemma_tabs_none(recs, i as int + 1);
            }
            return Err(TabError::BadRecord);
        }
        let number = match parse_u64(rec[2].as_str()) {
            Some(n) => n,
            None => {
                proof {
                    assert(strings_view(rec@)[2] == rec@[2]@);
                    lemma_tabs_none(recs, i as int + 1);
                }
                return Err(TabError::BadRecord);
            },
        };
        let ghost prev = tabs@;
        tabs.push(TabHandle::new(rec[0].clone(), rec[1].clone(), number));
        proof {
            assert(strings_view(rec@)[0] == rec@[0]@);
            assert(strings_view(rec@)[1] == rec@[1]@);
            assert(strings_view(rec@)[2] == rec@[2]@);
            assert(tabs_view(tabs@) =~= tabs_view(prev).push((rec@[0]@, rec@[1]@, number)));
        }
        i = i + 1;
    }
    proof {
        assert(recs.take(i as int) =~= recs);
    }
    Ok(tabs)
}

/// The tab that `tmux new-window -P` reports: the first record of its output.
pub fn parse_new_tab(text: &str) -> (r: Result<TabHandle, TabError>)
    ensures
        r matches Ok(t) ==> tabs_spec(csv_records_of(text@)) matches Some(v) && v.len() > 0
            && v[0] == (t.id_view(), t.name_view(), t.number_view()),
        r == Err::<TabHandle, TabError>(TabError::Empty) ==> tabs_spec(csv_records_of(text@))
            == Some(Seq::<(Seq<char>, Seq<char>, u64)>::empty()),
        r == Err::<TabHandle, TabError>(TabError::BadRecord) ==> tabs_spec(csv_records_of(text@)) is None,
{
    let mut tabs = parse_tabs(text)?;
    if tabs.len() == 0 {
        proof {
            assert(tabs_view(tabs@) =~= Seq::<(Seq<char>, Seq<char>, u64)>::empty());
        }
        return Err(TabError::Empty);
    }
    let ghost v = tabs@;
    let t = tabs.swap_remove(0);
    proof {
        assert(tabs_view(v)[0] == (t.id_view(), t.name_view(), t.number_view()));
    }
    Ok(t)
}

/// The first tab numbered `number`, if any.
pub fn find_tab(tabs: &Vec<TabHandle>, number: u64) -> (r: Option<usize>)
    ensures
        match r {
            Some(i) => i < tabs@.len() && tabs@[i as int].number_view() == number
                && forall|j: int| 0 <= j < i ==> (#[trigger] tabs@[j]).number_view() != number,
            None => forall|j: int| 0 <= j < tabs@.len() ==> (#[trigger] tabs@[j]).number_view() != number,
        },
{
    let mut i: usize = 0;
    while i < tabs.len()
        invariant
            i <= tabs@.len(),
            forall|j: int| 0 <= j < i ==> (#[trigger] tabs@[j]).number_view() != number,
        decreases tabs@.len() - i,
    {
        if tabs[i].number() == number {
            return Some(i);
        }
        i = i + 1;
    }
    None
}

/// The format in which tmux reports a tab: id, name and number, comma-separated.
pub const TAB_FORMAT: &'static str = "-F#{window_id},#{window_name},#{window_index}";

/// The `-e` option that sets variable `k` to `v` in a new tmux window.
pub open spec fn env_flag(k: Seq<char>, v: Seq<char>) -> Seq<char> {
    "-e"@ + k + "="@ + v
}

/// The `-e` options for some variables, in order.
pub open spec fn env_flags(envs: Seq<(Seq<char>, Seq<char>)>) -> Seq<Seq<char>> {
    envs.map_values(|p: (Seq<char>, Seq<char>)| env_flag(p.0, p.1))
}

/// The kinds of multiplexer the program can drive.
#[derive(Clone, Copy, Debug, PartialEq, Eq, Structural)]
pub enum TermKind {
    Tmux,
}

/// A terminal multiplexer the program runs inside.
#[derive(Clone, Copy, Debug, PartialEq, Eq, Structural)]
pub struct MultiTerm {
    kind: TermKind,
}

impl MultiTerm {
    /// The tmux session the program runs inside.
    pub closed spec fn kind_view(&self) -> TermKind {
        self.kind
    }

    pub fn tmux() -> (r: MultiTerm)
        ensures
            r.kind_view() == TermKind::Tmux,
    {
        MultiTerm { kind: TermKind::Tmux }
    }

    /// The arguments of `tmux` that open a new tab running `program` with
    /// `args`, with the variables `envs` set, and print the new tab.
    pub fn new_window_args(&self, envs: &Vec<(String, String)>, program: &str, args: &Vec<String>) -> (r: Vec<String>)
        ensures
            strings_view(r@) == seq!["new-window"@, TAB_FORMAT@, "-P"@]
                + env_flags(crate::direnv::pairs_view(envs@)) + seq![program@] + strings_view(args@),
    {
        let mut r: Vec<String> = Vec::new();
        r.push(String::from_str("new-window"));
        r.push(String::from_str(TAB_FORMAT));
        r.push(String::from_str("-P"));
        let ghost head = seq!["new-window"@, TAB_FORMAT@, "-P"@];
        proof {
            assert(strings_view(r@) =~= head);
        }
        let mut i: usize = 0;
        let ghost ev = crate::direnv::pairs_view(envs@);
        proof {
            assert(env_flags(ev).take(0) =~= Seq::<Seq<char>>::empty());
        }
        while i < envs.len()
            invariant
                i <= envs@.len(),
                ev == crate::direnv::pairs_view(envs@),
                strings_view(r@) == head + env_flags(ev).take(i as int),
            decreases envs@.len() - i,
        {
            let (k, v) = &envs[i];
            let mut flag = String::from_str("-e");
            flag.append(k.as_str());
            flag.append("=");
            flag.append(v.as_str());
            let ghost prev = r@;
            r.push(flag);
            proof {
                assert(flag@ =~= env_flag(k@, v@));
                assert(env_flags(ev).take(i as int + 1) =~= env_flags(ev).take(i as int).push(env_flag(k@, v@)));
                assert(strings_view(r@) =~= strings_view(prev).push(flag@));
            }
            i = i + 1;
        }
        let ghost mid = strings_view(r@);
        r.push(String::from_str(program));
        let mut j: usize = 0;
        proof {
            assert(env_flags(ev).take(i as int) =~= env_flags(ev));
            assert(strings_view(r@) =~= mid + seq![program@] + strings_view(args@).take(0));
        }
        while j < args.len()
            invariant
                j <= args@.len(),
                strings_view(r@) == mid + seq![program@] + strings_view(args@).take(j as int),
            decreases args@.len() - j,
        {
            let ghost prev = r@;
            r.push(args[j].clone());
            proof {
                assert(strings_view(args@).take(j as int + 1) =~= strings_view(args@).take(j as int).push(args@[j as int]@));
                assert(strings_view(r@) =~= strings_view(prev).push(args@[j as int]@));
            }
            j = j + 1;
        }
        proof {
            assert(strings_view(args@).take(j as int) =~= strings_view(args@));
        }
        r
    }

    /// The arguments of `tmux` that list the tabs.
    pub fn list_windows_args(&self) -> (r: Vec<String>)
        ensures
            strings_view(r@) == seq!["list-windows"@, TAB_FORMAT@],
    {
        let mut r: Vec<String> = Vec::new();
        r.push(String::from_str("list-windows"));
        r.push(String::from_str(TAB_FORMAT));
        proof {
            assert(strings_view(r@) =~= seq!["list-windows"@, TAB_FORMAT@]);
        }
        r
    }

    /// The arguments of `tmux` that bring `tab` to the front.
    pub fn focus_args(&self, tab: &TabHandle) -> (r: Vec<String>)
        ensures
            strings_view(r@) == seq!["select-window"@, "-t"@, tab.id_view()],
    {
        let mut r: Vec<String> = Vec::new();
        r.push(String::from_str("select-window"));
        r.push(String::from_str("-t"));
        r.push(String::from_str(tab.window_id()));
        proof {
            assert(strings_view(r@) =~= seq!["select-window"@, "-t"@, tab.id_view()]);
        }
        r
    }
}

} // verus!
