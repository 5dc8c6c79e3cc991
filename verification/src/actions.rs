//! Parsing the output of `ghostty +list-actions`: one action name per
//! line, trimmed, blank lines skipped.

use vstd::prelude::*;

use crate::chars::{chars_of, spec_lines, spec_trim, split_lines, string_of, trim_chars};

verus! {

/// The trimmed, non-empty lines, in order.
pub open spec fn actions_of_lines(ls: Seq<Seq<char>>) -> Seq<Seq<char>>
    decreases ls.len(),
{
    if ls.len() == 0 {
        Seq::empty()
    } else {
        let rest = actions_of_lines(ls.drop_last());
        let t = spec_trim(ls.last());
        if t.len() > 0 {
            rest.push(t)
        } else {
            rest
        }
    }
}

/// The action names that the listing text holds, in order.
pub open spec fn spec_action_list(text: Seq<char>) -> Seq<Seq<char>> {
    actions_of_lines(spec_lines(text))
}

/// Parses the action listing: each line trimmed, blank lines skipped.
pub fn parse_action_list(output: &str) -> (r: Vec<String>)
    ensures
        r@.map_values(|s: String| s@) == spec_action_list(output@),
{
    let cs = chars_of(output);
    let lines = split_lines(cs.as_slice());
    let ghost ls = spec_lines(output@);
    let mut r: Vec<String> = Vec::new();
    let mut i: usize = 0;
    proof {
        assert(ls.take(0) =~= Seq::<Seq<char>>::empty());
        assert(r@.map_values(|s: String| s@) =~= actions_of_lines(ls.take(0)));
    }
    while i < lines.len()
        invariant
            i <= lines@.len(),
            lines@.map_values(|l: Vec<char>| l@) == ls,
            r@.map_values(|s: String| s@) == actions_of_lines(ls.take(i as int)),
        decreases lines@.len() - i,
    {
        let ghost prev = r@;
        proof {
            assert(lines@[i as int]@ == ls[i as int]);
            assert(ls.take(i + 1).drop_last() =~= ls.take(i as int));
            assert(ls.take(i + 1).last() == ls[i as int]);
        }
        let t = trim_chars(lines[i].as_slice());
        if t.len() > 0 {
            let ghost tv = t@;
            r.push(string_of(t.as_slice()));
            proof {
                assert(r@.map_values(|s: String| s@) =~= prev.map_values(|s: String| s@).push(tv));
            }
        }
        i = i + 1;
    }
    proof {
        assert(ls.take(ls.len() as int) =~= ls);
    }
    r
}

} // verus!
