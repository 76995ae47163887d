//! A value produced once in the background and read, possibly many times, by
//! the loop that needs it.
use vstd::prelude::*;

verus! {

/// Where a background computation stands.
#[derive(Clone, Debug, PartialEq, Eq)]
pub enum Resolution<T> {
    /// The producer has not finished.
    Pending,
    /// The producer finished with this value.
    Ready(T),
    /// The producer failed with this message.
    Failed(String),
}

/// The state after the producer reports `outcome`: the first outcome is kept,
/// later ones are dropped.
pub open spec fn after_outcome<T>(state: Resolution<T>, outcome: Result<T, String>) -> Resolution<T> {
    match state {
        Resolution::Pending => match outcome {
            Ok(v) => Resolution::Ready(v),
            Err(e) => Resolution::Failed(e),
        },
        _ => state,
    }
}

/// The memo of a one-shot background computation.
#[derive(Debug)]
pub struct BackgroundResolver<T> {
    state: Resolution<T>,
}

impl<T> BackgroundResolver<T> {
    /// Where the computation stands.
    pub closed spec fn state(&self) -> Resolution<T> {
        self.state
    }

    /// A resolver whose producer has just been started.
    pub fn new() -> (r: BackgroundResolver<T>)
        ensures
            r.state() == Resolution::<T>::Pending,
    {
        BackgroundResolver { state: Resolution::Pending }
    }

    /// Whether the producer has finished, well or not.
    pub fn is_done(&self) -> (r: bool)
        ensures
            r == !(self.state() is Pending),
    {
        match self.state {
            Resolution::Pending => false,
            _ => true,
        }
    }

    /// Records what the producer reported; says whether it was the first report.
    pub fn complete(&mut self, outcome: Result<T, String>) -> (r: bool)
        ensures
            r == (old(self).state() is Pending),
            final(self).state() == after_outcome(old(self).state(), outcome),
    {
        match self.state {
            Resolution::Pending => {
                self.state = match outcome {
                    Ok(v) => Resolution::Ready(v),
                    Err(e) => Resolution::Failed(e),
                };
                true
            },
            _ => false,
        }
    }

    /// The memoized outcome; `None` while the producer runs.
    pub fn get(&self) -> (r: Option<Result<&T, &str>>)
        ensures
            match self.state() {
                Resolution::Pending => r is None,
                Resolution::Ready(v) => r == Some(Ok::<&T, &str>(&v)),
                Resolution::Failed(e) => r matches Some(Err(m)) && m@ == e@,
            },
    {
        match &self.state {
            Resolution::Pending => None,
            Resolution::Ready(v) => Some(Ok(v)),
            Resolution::Failed(e) => Some(Err(e.as_str())),
        }
    }
}

/// Once the producer has reported, the outcome never changes: whatever is
/// reported later, every read sees the first outcome, value or error alike.
pub proof fn lemma_first_outcome_kept<T>(first: Result<T, String>, later: Seq<Result<T, String>>)
    ensures
        later.fold_left(after_outcome(Resolution::Pending, first), |s: Resolution<T>, o: Result<T, String>| after_outcome(s, o))
            == after_outcome(Resolution::<T>::Pending, first),
    decreases later.len(),
{
    let f = |s: Resolution<T>, o: Result<T, String>| after_outcome(s, o);
    let start = after_outcome(Resolution::<T>::Pending, first);
    if later.len() > 0 {
        lemma_first_outcome_kept(first, later.drop_last());
        assert(later.fold_left(start, f) == f(later.drop_last().fold_left(start, f), later.last()));
    }
}

} // verus!
