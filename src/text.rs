//! Splitting the text that helper programs print.
use vstd::prelude::*;
use vstd::std_specs::iter::IteratorSpec;
use vstd::string::{StrSliceExecFns, StringExecFns};

verus! {

broadcast use vstd::string::group_string_axioms;

/// The pieces of `s` between occurrences of `sep`, as `str::split` gives them:
/// always at least one, empty ones included.
pub open spec fn split_on(s: Seq<char>, sep: char) -> Seq<Seq<char>>
    decreases s.len(),
{
    if s.len() == 0 {
        seq![Seq::empty()]
    } else if s.last() == sep {
        split_on(s.drop_last(), sep).push(Seq::empty())
    } else {
        let p = split_on(s.drop_last(), sep);
        p.update(p.len() - 1, p.last().push(s.last()))
    }
}

pub proof fn lemma_split_on_len(s: Seq<char>, sep: char)
    ensures
        split_on(s, sep).len() >= 1,
    decreases s.len(),
{
    if s.len() > 0 {
        lemma_split_on_len(s.drop_last(), sep);
    }
}

/// The position of the first `c` in `s`, if any.
pub open spec fn find_char(s: Seq<char>, c: char) -> Option<int> {
    if exists|i: int| 0 <= i < s.len() && s[i] == c {
        Some(choose|i: int| 0 <= i < s.len() && s[i] == c && forall|j: int| 0 <= j < i ==> s[j] != c)
    } else {
        None
    }
}

/// Relies on `String::push`: appends one character.
#[verifier::external_body]
pub(crate) fn push_char(s: &mut String, c: char)
    ensures
        final(s)@ == old(s)@.push(c),
{
    s.push(c)
}

/// The pieces of `s` between occurrences of `sep`.
pub fn split_text(s: &str, sep: char) -> (r: Vec<String>)
    ensures
        r@.map_values(|x: String| x@) == split_on(s@, sep),
{
    let mut done: Vec<String> = Vec::new();
    let mut current = String::new();
    let mut it = s.chars();
    let ghost mut i: int = 0;
    proof {
        assert(s@.take(0) =~= Seq::<char>::empty());
        assert(done@.map_values(|x: String| x@).push(current@) =~= split_on(s@.take(0), sep));
        assert(s@.skip(0) =~= s@);
    }
    loop
        invariant
            0 <= i <= s@.len(),
            it.remaining() == s@.skip(i),
            done@.map_values(|x: String| x@).push(current@) == split_on(s@.take(i), sep),
        ensures
            i == s@.len(),
            done@.map_values(|x: String| x@).push(current@) == split_on(s@.take(i), sep),
        decreases s@.len() - i,
    {
        let ghost before = it;
        match it.next() {
            None => {
                proof {
                    assert(s@.skip(i).len() == 0);
                    assert(i == s@.len());
                }
                break;
            },
            Some(c) => {
                proof {
                    assert(c == s@[i]);
                    let t = s@.take(i + 1);
                    assert(t.drop_last() =~= s@.take(i));
                    assert(t.last() == c);
                    assert(s@.skip(i).drop_first() =~= s@.skip(i + 1));
                }
                let ghost prev_done = done@;
                let ghost prev_current = current@;
                if c == sep {
                    let piece = current;
                    done.push(piece);
                    current = String::new();
                    proof {
                        assert(done@.map_values(|x: String| x@) =~= prev_done.map_values(|x: String| x@).push(prev_current));
                        assert(done@.map_values(|x: String| x@).push(current@) =~= split_on(s@.take(i + 1), sep));
                    }
                } else {
                    push_char(&mut current, c);
                    proof {
                        assert(done@.map_values(|x: String| x@).push(current@) =~= split_on(s@.take(i + 1), sep));
                    }
                }
                proof {
                    i = i + 1;
                }
            },
        }
    }
    proof {
        assert(s@.take(i) =~= s@);
    }
    done.push(current);
    done
}

/// Splits `s` at the first `c`: the text before it and the text after it.
pub fn split_once(s: &str, c: char) -> (r: Option<(String, String)>)
    ensures
        match find_char(s@, c) {
            Some(i) => r matches Some((a, b)) && a@ == s@.take(i) && b@ == s@.skip(i + 1),
            None => r is None,
        },
{
    let mut before = String::new();
    let mut it = s.chars();
    let mut found = false;
    let ghost mut i: int = 0;
    proof {
        assert(s@.skip(0) =~= s@);
        assert(s@.take(0) =~= Seq::<char>::empty());
    }
    loop
        invariant_except_break
            0 <= i <= s@.len(),
            it.remaining() == s@.skip(i),
            before@ == s@.take(i),
            forall|j: int| 0 <= j < i ==> s@[j] != c,
            !found,
        ensures
            0 <= i <= s@.len(),
            before@ == s@.take(i),
            forall|j: int| 0 <= j < i ==> s@[j] != c,
            found ==> i < s@.len() && s@[i] == c && it.remaining() == s@.skip(i + 1),
            !found ==> i == s@.len(),
        decreases s@.len() - i,
    {
        match it.next() {
            None => {
                proof {
                    assert(s@.skip(i).len() == 0);
                }
                break;
            },
            Some(ch) => {
                proof {
                    assert(ch == s@[i]);
                    assert(s@.skip(i).drop_first() =~= s@.skip(i + 1));
                }
                if ch == c {
                    found = true;
                    break;
                }
                push_char(&mut before, ch);
                proof {
                    assert(before@ =~= s@.take(i + 1));
                    i = i + 1;
                }
            },
        }
    }
    if !found {
        proof {
            assert(!(exists|k: int| 0 <= k < s@.len() && s@[k] == c));
        }
        return None;
    }
    let at: Ghost<int> = Ghost(i);
    let len = s.unicode_len();
    let count = before.as_str().unicode_len();
    let after = String::from_str(s.substring_char(count + 1, len));
    proof {
        let k = choose|k: int| 0 <= k < s@.len() && s@[k] == c && forall|j: int| 0 <= j < k ==> s@[j] != c;
        assert(k == at@) by {
            if k < at@ {
                assert(s@[k] != c);
            } else if k > at@ {
                assert(s@[at@] != c);
            }
        }
    }
    Some((before, after))
}

} // verus!
