//! Competitive-programming workspace: which contest and problem are active,
//! and where their files live.
use vstd::prelude::*;
use vstd::string::{StrSliceExecFns, StringExecFns};
use crate::command_line::compare_str;

verus! {

/// `comp` appended to path `base`, as `Path::join` does on Unix: an absolute
/// `comp` replaces `base`, and a separator is added where `base` lacks one.
pub open spec fn join_path(base: Seq<char>, comp: Seq<char>) -> Seq<char> {
    if comp.len() > 0 && comp[0] == '/' {
        comp
    } else if base.len() == 0 || base.last() == '/' {
        base + comp
    } else {
        base + seq!['/'] + comp
    }
}

/// Joins a path component to a path.
pub fn join(base: &str, comp: &str) -> (r: String)
    ensures
        r@ == join_path(base@, comp@),
{
    let lc = comp.unicode_len();
    if lc > 0 && comp.get_char(0) == '/' {
        return String::from_str(comp);
    }
    let lb = base.unicode_len();
    let mut r = String::from_str(base);
    if lb > 0 && base.get_char(lb - 1) != '/' {
        r.append("/");
        proof {
            reveal_strlit("/");
        }
    }
    r.append(comp);
    r
}

/// The name of the file that keeps the active contest and problem.
pub const STATE_FILE: &'static str = ".cp.json";

/// The name of a problem's source file.
pub const CODE_FILE: &'static str = "main.cpp";

/// The name of a problem's directory of test cases.
pub const TESTS_DIR: &'static str = "tests";

/// Why a path of the workspace cannot be given.
#[derive(Clone, Copy, Debug, PartialEq, Eq, Structural)]
pub enum CpError {
    NoActiveContest,
    NoActiveProblem,
}

/// The workspace state: the directory of contests and the active selection.
#[derive(Clone, Debug)]
pub struct Cp {
    active_contest: Option<String>,
    active_problem: Option<String>,
    base_path: String,
}

/// A string's characters, if any.
pub open spec fn opt_view(o: Option<String>) -> Option<Seq<char>> {
    match o {
        Some(s) => Some(s@),
        None => None,
    }
}

impl Cp {
    pub closed spec fn contest(&self) -> Option<Seq<char>> {
        opt_view(self.active_contest)
    }

    pub closed spec fn problem(&self) -> Option<Seq<char>> {
        opt_view(self.active_problem)
    }

    pub closed spec fn base(&self) -> Seq<char> {
        self.base_path@
    }

    /// A workspace rooted at `base_path`, with nothing selected.
    pub fn new(base_path: String) -> (r: Cp)
        ensures
            r.base() == base_path@,
            r.contest() is None,
            r.problem() is None,
    {
        Cp { active_contest: None, active_problem: None, base_path }
    }

    /// Restores a saved selection.
    pub fn restore(&mut self, contest: Option<String>, problem: Option<String>)
        ensures
            final(self).base() == old(self).base(),
            final(self).contest() == opt_view(contest),
            final(self).problem() == opt_view(problem),
    {
        self.active_contest = contest;
        self.active_problem = problem;
    }

    /// The workspace's directory.
    pub fn base_path(&self) -> (r: &str)
        ensures
            r@ == self.base(),
    {
        self.base_path.as_str()
    }

    pub fn set_active_contest(&mut self, contest_name: &str)
        ensures
            final(self).contest() == Some(contest_name@),
            final(self).problem() == old(self).problem(),
            final(self).base() == old(self).base(),
    {
        self.active_contest = Some(String::from_str(contest_name));
    }

    pub fn set_active_problem(&mut self, problem_name: &str)
        ensures
            final(self).problem() == Some(problem_name@),
            final(self).contest() == old(self).contest(),
            final(self).base() == old(self).base(),
    {
        self.active_problem = Some(String::from_str(problem_name));
    }

    pub fn current_contest(&self) -> (r: Option<String>)
        ensures
            opt_view(r) == self.contest(),
    {
        match &self.active_contest {
            Some(s) => Some(s.clone()),
            None => None,
        }
    }

    pub fn current_problem(&self) -> (r: Option<String>)
        ensures
            opt_view(r) == self.problem(),
    {
        match &self.active_problem {
            Some(s) => Some(s.clone()),
            None => None,
        }
    }

    /// The directory of contest `contest_name`.
    pub fn contest_path(&self, contest_name: &str) -> (r: String)
        ensures
            r@ == join_path(self.base(), contest_name@),
    {
        join(self.base_path.as_str(), contest_name)
    }

    /// The directory of problem `problem_name` in the active contest.
    pub fn problem_path(&self, problem_name: &str) -> (r: Result<String, CpError>)
        ensures
            match self.contest() {
                Some(c) => r matches Ok(p) && p@ == join_path(join_path(self.base(), c), problem_name@),
                None => r == Err::<String, CpError>(CpError::NoActiveContest),
            },
    {
        match &self.active_contest {
            Some(c) => {
                let dir = join(self.base_path.as_str(), c.as_str());
                Ok(join(dir.as_str(), problem_name))
            },
            None => Err(CpError::NoActiveContest),
        }
    }

    /// The directory of the active problem.
    pub fn current_problem_path(&self) -> (r: Result<String, CpError>)
        ensures
            match (self.contest(), self.problem()) {
                (Some(c), Some(p)) => r matches Ok(x) && x@ == join_path(join_path(self.base(), c), p),
                (None, _) => r == Err::<String, CpError>(CpError::NoActiveContest),
                (Some(_), None) => r == Err::<String, CpError>(CpError::NoActiveProblem),
            },
    {
        match &self.active_problem {
            Some(p) => self.problem_path(p.as_str()),
            None => {
                if self.active_contest.is_none() {
                    Err(CpError::NoActiveContest)
                } else {
                    Err(CpError::NoActiveProblem)
                }
            },
        }
    }

    /// The source file of the active problem.
    pub fn code_path(&self) -> (r: Result<String, CpError>)
        ensures
            match (self.contest(), self.problem()) {
                (Some(c), Some(p)) => r matches Ok(x)
                    && x@ == join_path(join_path(join_path(self.base(), c), p), CODE_FILE@),
                (None, _) => r == Err::<String, CpError>(CpError::NoActiveContest),
                (Some(_), None) => r == Err::<String, CpError>(CpError::NoActiveProblem),
            },
    {
        match self.current_problem_path() {
            Ok(dir) => Ok(join(dir.as_str(), CODE_FILE)),
            Err(e) => Err(e),
        }
    }

    /// The test-case directory of the active problem.
    pub fn tests_path(&self) -> (r: Result<String, CpError>)
        ensures
            match (self.contest(), self.problem()) {
                (Some(c), Some(p)) => r matches Ok(x)
                    && x@ == join_path(join_path(join_path(self.base(), c), p), TESTS_DIR@),
                (None, _) => r == Err::<String, CpError>(CpError::NoActiveContest),
                (Some(_), None) => r == Err::<String, CpError>(CpError::NoActiveProblem),
            },
    {
        match self.current_problem_path() {
            Ok(dir) => Ok(join(dir.as_str(), TESTS_DIR)),
            Err(e) => Err(e),
        }
    }

    /// Takes the contest picked among `contests`; says whether it is a new one
    /// whose directory must be made.
    pub fn select_contest_with_fzf(&mut self, contests: &Vec<String>, selected: &str) -> (r: bool)
        ensures
            r == !contests@.map_values(|s: String| s@).contains(selected@),
            final(self).contest() == Some(selected@),
            final(self).problem() == old(self).problem(),
            final(self).base() == old(self).base(),
    {
        let known = contains_name(contests, selected);
        self.set_active_contest(selected);
        !known
    }

    /// Takes the problem picked among `problems`; says whether it is a new one
    /// whose directory must be made.
    pub fn select_problem_with_fzf(&mut self, problems: &Vec<String>, selected: &str) -> (r: bool)
        ensures
            r == !problems@.map_values(|s: String| s@).contains(selected@),
            final(self).problem() == Some(selected@),
            final(self).contest() == old(self).contest(),
            final(self).base() == old(self).base(),
    {
        let known = contains_name(problems, selected);
        self.set_active_problem(selected);
        !known
    }
}

/// Whether `name` is among `names`.
pub fn contains_name(names: &Vec<String>, name: &str) -> (r: bool)
    ensures
        r == names@.map_values(|s: String| s@).contains(name@),
{
    let mut i: usize = 0;
    while i < names.len()
        invariant
            i <= names@.len(),
            forall|k: int| 0 <= k < i ==> names@[k]@ != name@,
        decreases names@.len() - i,
    {
        if matches!(compare_str(names[i].as_str(), name), std::cmp::Ordering::Equal) {
            proof {
                assert(names@.map_values(|s: String| s@)[i as int] == name@);
            }
            return true;
        }
        i = i + 1;
    }
    proof {
        let v = names@.map_values(|s: String| s@);
        if v.contains(name@) {
            let k = choose|k: int| 0 <= k < v.len() && #[trigger] v[k] == name@;
            assert(names@[k]@ == name@);
        }
    }
    false
}

} // verus!
