//! Reading what an interactive picker (fzf) printed.
use vstd::prelude::*;
use crate::command_line::strings_view;
use crate::text::{find_char, split_on, split_once, split_text, lemma_split_on_len};
use vstd::string::{StrSliceExecFns, StringExecFns};

verus! {

/// What `str::trim` leaves of a text: it without leading and trailing white space.
pub uninterp spec fn trim_of(s: Seq<char>) -> Seq<char>;

/// Relies on `str::trim`: the text without leading and trailing white space;
/// an empty text stays empty.
#[verifier::external_body]
fn trim(s: &str) -> (r: String)
    ensures
        r@ == trim_of(s@),
        s@.len() == 0 ==> r@.len() == 0,
{
    s.trim().to_string()
}

/// Why nothing was picked.
#[derive(Clone, Copy, Debug, PartialEq, Eq, Structural)]
pub enum PickError {
    /// The user cancelled the picker.
    Cancelled,
    /// The picker ended with an exit code it does not document.
    UnexpectedCode,
    /// The picker's output lacks the line that its exit code promises.
    UnexpectedOutput,
}

/// The exit code of fzf when the user chose an entry.
pub const FZF_CHOSEN: i32 = 0;
/// The exit code of fzf when nothing matched; the typed query is then used.
pub const FZF_NO_MATCH: i32 = 1;
/// The exit code of fzf when the user cancelled.
pub const FZF_CANCELLED: i32 = 130;

/// What `fzf --print-query` selected, from its exit code and output: the
/// chosen entry (second line) after a choice, the typed query (first line)
/// when nothing matched; each trimmed.
pub open spec fn fzf_selection_spec(code: Option<i32>, output: Seq<char>) -> Result<Seq<char>, PickError> {
    let lines = split_on(output, '\n');
    if code == Some(FZF_CHOSEN) {
        if lines.len() > 1 {
            Ok(trim_of(lines[1]))
        } else {
            Err(PickError::UnexpectedOutput)
        }
    } else if code == Some(FZF_NO_MATCH) {
        Ok(trim_of(lines[0]))
    } else if code == Some(FZF_CANCELLED) {
        Err(PickError::Cancelled)
    } else {
        Err(PickError::UnexpectedCode)
    }
}

/// Reads what `fzf --print-query` selected.
pub fn fzf_selection(code: Option<i32>, output: &str) -> (r: Result<String, PickError>)
    ensures
        match fzf_selection_spec(code, output@) {
            Ok(s) => r matches Ok(t) && t@ == s,
            Err(e) => r == Err::<String, PickError>(e),
        },
{
    let lines = split_text(output, '\n');
    proof {
        lemma_split_on_len(output@, '\n');
        assert(lines@.len() == split_on(output@, '\n').len());
    }
    match code {
        Some(c) => {
            if c == FZF_CHOSEN {
                if lines.len() > 1 {
                    proof {
                        assert(lines@[1]@ == split_on(output@, '\n')[1]);
                    }
                    Ok(trim(lines[1].as_str()))
                } else {
                    Err(PickError::UnexpectedOutput)
                }
            } else if c == FZF_NO_MATCH {
                proof {
                    assert(lines@[0]@ == split_on(output@, '\n')[0]);
                }
                Ok(trim(lines[0].as_str()))
            } else if c == FZF_CANCELLED {
                Err(PickError::Cancelled)
            } else {
                Err(PickError::UnexpectedCode)
            }
        },
        None => Err(PickError::UnexpectedCode),
    }
}

/// A line without its trailing carriage return, as `str::lines` gives it.
pub open spec fn strip_cr(l: Seq<char>) -> Seq<char> {
    if l.len() > 0 && l.last() == '\r' {
        l.drop_last()
    } else {
        l
    }
}

/// The lines of a text, as `str::lines` gives them: none for an empty text,
/// no empty last line after a final newline.
pub open spec fn text_lines(s: Seq<char>) -> Seq<Seq<char>> {
    let pieces = split_on(s, '\n');
    let kept = if s.len() == 0 || (s.len() > 0 && s.last() == '\n') {
        pieces.drop_last()
    } else {
        pieces
    };
    kept.map_values(|l: Seq<char>| strip_cr(l))
}

/// Each line's text up to its first `sep`; `None` when some line has no `sep`.
pub open spec fn leading_fields_spec(lines: Seq<Seq<char>>, sep: char) -> Option<Seq<Seq<char>>>
    decreases lines.len(),
{
    if lines.len() == 0 {
        Some(Seq::empty())
    } else {
        match (leading_fields_spec(lines.drop_last(), sep), find_char(lines.last(), sep)) {
            (Some(f), Some(i)) => Some(f.push(lines.last().take(i))),
            _ => None,
        }
    }
}

/// The entries picked from a listing: of each line of the trimmed output, the
/// text up to the first `sep` (a revision id before a space, a branch name
/// before a colon).
pub fn picked_fields(output: &str, sep: char) -> (r: Result<Vec<String>, PickError>)
    ensures
        match leading_fields_spec(text_lines(trim_of(output@)), sep) {
            Some(f) => r matches Ok(v) && strings_view(v@) == f,
            None => r == Err::<Vec<String>, PickError>(PickError::UnexpectedOutput),
        },
{
    let text = trim(output);
    let ghost t = text@;
    let pieces = split_text(text.as_str(), '\n');
    let ghost lines = text_lines(t);
    proof {
        lemma_split_on_len(t, '\n');
    }
    let n = pieces.len();
    let count: usize = if text.as_str().unicode_len() == 0 {
        n - 1
    } else {
        let last = pieces[n - 1].as_str();
        if last.unicode_len() == 0 { n - 1 } else { n }
    };
    proof {
        let p = split_on(t, '\n');
        assert(pieces@.map_values(|x: String| x@) == p);
        if t.len() > 0 && t.last() == '\n' {
            assert(p.last().len() == 0);
        }
        if t.len() > 0 && t.last() != '\n' {
            let q = split_on(t.drop_last(), '\n');
            lemma_split_on_len(t.drop_last(), '\n');
            assert(p == q.update(q.len() - 1, q.last().push(t.last())));
            assert(p.last() == q.last().push(t.last()));
            assert(p.last().len() > 0);
        }
        assert(lines.len() == count);
    }
    let mut r: Vec<String> = Vec::new();
    let mut i: usize = 0;
    proof {
        assert(lines.take(0) =~= Seq::<Seq<char>>::empty());
    }
    while i < count
        invariant
            count == lines.len(),
            count <= pieces@.len(),
            lines == text_lines(t),
            t == trim_of(output@),
            pieces@.map_values(|x: String| x@) == split_on(t, '\n'),
            forall|k: int| 0 <= k < count ==> lines[k] == strip_cr(#[trigger] pieces@[k]@),
            i <= count,
            leading_fields_spec(lines.take(i as int), sep) == Some(strings_view(r@)),
        decreases count - i,
    {
        let line = strip_carriage_return(pieces[i].as_str());
        proof {
            let u = lines.take(i as int + 1);
            assert(u.drop_last() =~= lines.take(i as int));
            assert(u.last() == line@);
        }
        match split_once(line.as_str(), sep) {
            Some((head, _)) => {
                let ghost prev = r@;
                r.push(head);
                proof {
                    assert(strings_view(r@) =~= strings_view(prev).push(head@));
                }
            },
            None => {
                proof {
                    let u = lines.take(i as int + 1);
                    assert(find_char(u.last(), sep) is None);
                    assert(leading_fields_spec(u, sep) is None);
                    lemma_leading_fields_none(lines, i as int + 1, sep);
                    assert(leading_fields_spec(lines, sep) is None);
                    assert(lines == text_lines(trim_of(output@)));
                }
                return Err(PickError::UnexpectedOutput);
            },
        }
        i = i + 1;
    }
    proof {
        assert(lines.take(i as int) =~= lines);
    }
    Ok(r)
}

proof fn lemma_leading_fields_none(lines: Seq<Seq<char>>, k: int, sep: char)
    requires
        0 < k <= lines.len(),
        leading_fields_spec(lines.take(k), sep) is None,
    ensures
        leading_fields_spec(lines, sep) is None,
    decreases lines.len() - k,
{
    if k < lines.len() {
        let u = lines.take(k + 1);
        assert(u.drop_last() =~= lines.take(k));
        lemma_leading_fields_none(lines, k + 1, sep);
    } else {
        assert(lines.take(k) =~= lines);
    }
}

/// The line without a trailing carriage return.
fn strip_carriage_return(l: &str) -> (r: String)
    ensures
        r@ == strip_cr(l@),
{
    let n = l.unicode_len();
    if n > 0 && l.get_char(n - 1) == '\r' {
        String::from_str(l.substring_char(0, n - 1))
    } else {
        String::from_str(l)
    }
}

} // verus!
