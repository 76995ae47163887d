//! The environment that `direnv` resolves for a directory.
use vstd::prelude::*;
use crate::text::{find_char, split_on, split_once, split_text};

verus! {

/// The `KEY=VALUE` pairs of some records, in order; a record without `=` gives none.
pub open spec fn env_pairs(records: Seq<Seq<char>>) -> Seq<(Seq<char>, Seq<char>)>
    decreases records.len(),
{
    if records.len() == 0 {
        Seq::empty()
    } else {
        let r = records.last();
        env_pairs(records.drop_last()) + match find_char(r, '=') {
            Some(i) => seq![(r.take(i), r.skip(i + 1))],
            None => Seq::empty(),
        }
    }
}

/// The character sequences of some pairs of strings.
pub open spec fn pairs_view(v: Seq<(String, String)>) -> Seq<(Seq<char>, Seq<char>)> {
    v.map_values(|p: (String, String)| (p.0@, p.1@))
}

/// The variables in the output of `env -0`: NUL-terminated `KEY=VALUE` records,
/// each split at its first `=`; records without `=` are skipped.
pub fn parse_env(output: &str) -> (r: Vec<(String, String)>)
    ensures
        pairs_view(r@) == env_pairs(split_on(output@, '\0')),
{
    let records = split_text(output, '\0');
    let ghost recs = split_on(output@, '\0');
    let mut r: Vec<(String, String)> = Vec::new();
    let mut i: usize = 0;
    proof {
        assert(recs.take(0) =~= Seq::<Seq<char>>::empty());
        assert(pairs_view(r@) =~= env_pairs(recs.take(0)));
    }
    while i < records.len()
        invariant
            records@.map_values(|x: String| x@) == recs,
            recs == split_on(output@, '\0'),
            i <= records@.len(),
            pairs_view(r@) == env_pairs(recs.take(i as int)),
        decreases records@.len() - i,
    {
        let ghost prev = r@;
        proof {
            let t = recs.take(i as int + 1);
            assert(t.drop_last() =~= recs.take(i as int));
            assert(t.last() == records@[i as int]@);
        }
        match split_once(records[i].as_str(), '=') {
            Some(pair) => {
                r.push(pair);
                proof {
                    assert(pairs_view(r@) =~= pairs_view(prev).push((pair.0@, pair.1@)));
                }
            },
            None => {},
        }
        proof {
            let t = recs.take(i as int + 1);
            assert(pairs_view(r@) =~= env_pairs(t));
        }
        i = i + 1;
    }
    proof {
        assert(recs.take(i as int) =~= recs);
    }
    r
}

} // verus!
