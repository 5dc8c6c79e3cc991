//! Parsing the output of `ghostty +list-keybinds`: lines of the shape
//! `keybind = trigger=action`.

use vstd::prelude::*;

use crate::chars::{
    chars_of, copy_range, lemma_find_at, spec_find, spec_lines, spec_trim, split_lines,
    starts_with_chars, string_of, trim_chars,
};

verus! {

/// Mathematical model of a keybinding: its trigger and its action.
pub struct KeybindModel {
    pub trigger: Seq<char>,
    pub action: Seq<char>,
}

/// A parsed keybinding.
pub struct Keybinding {
    pub trigger: String,
    pub action: String,
}

impl View for Keybinding {
    type V = KeybindModel;

    open spec fn view(&self) -> KeybindModel {
        KeybindModel { trigger: self.trigger@, action: self.action@ }
    }
}

/// The keybinding that one listing line denotes, if any: the line is
/// trimmed, a leading `keybind` marker and its `=` are stripped, and
/// what remains splits at its first `=` into trigger and action.
pub open spec fn keybind_of_line(l: Seq<char>) -> Option<KeybindModel> {
    let t = spec_trim(l);
    if t.len() == 0 {
        None
    } else {
        let c1 = if "keybind"@.is_prefix_of(t) {
            t.skip("keybind"@.len() as int)
        } else {
            t
        };
        let ct = spec_trim(c1);
        let c2 = if ct.len() > 0 && ct[0] == '=' {
            spec_trim(ct.drop_first())
        } else {
            ct
        };
        if c2.contains('=') {
            let e = spec_find(c2, '=');
            Some(
                KeybindModel {
                    trigger: spec_trim(c2.take(e as int)),
                    action: spec_trim(c2.skip(e + 1 as int)),
                },
            )
        } else {
            None
        }
    }
}

/// The keybindings of the listing's lines, in order.
pub open spec fn keybinds_of_lines(ls: Seq<Seq<char>>) -> Seq<KeybindModel>
    decreases ls.len(),
{
    if ls.len() == 0 {
        Seq::empty()
    } else {
        let rest = keybinds_of_lines(ls.drop_last());
        match keybind_of_line(ls.last()) {
            Some(kb) => rest.push(kb),
            None => rest,
        }
    }
}

/// The keybindings that the listing text holds, in order.
pub open spec fn spec_keybind_list(text: Seq<char>) -> Seq<KeybindModel> {
    keybinds_of_lines(spec_lines(text))
}

/// The keybinding of one listing line, if any.
fn keybind_of_line_exec(line: &[char]) -> (r: Option<Keybinding>)
    ensures
        match r {
            Some(kb) => keybind_of_line(line@) == Some(kb@),
            None => keybind_of_line(line@) is None,
        },
{
    let t = trim_chars(line);
    if t.len() == 0 {
        return None;
    }
    let marker = chars_of("keybind");
    let c1: Vec<char> = if starts_with_chars(t.as_slice(), marker.as_slice()) {
        let r = copy_range(t.as_slice(), marker.len(), t.len());
        proof {
            assert(r@ =~= t@.skip("keybind"@.len() as int));
        }
        r
    } else {
        t
    };
    let ct = trim_chars(c1.as_slice());
    let c2: Vec<char> = if ct.len() > 0 && ct[0] == '=' {
        let inner = copy_range(ct.as_slice(), 1, ct.len());
        proof {
            assert(inner@ =~= ct@.drop_first());
        }
        trim_chars(inner.as_slice())
    } else {
        ct
    };
    let v = c2.as_slice();
    let n: usize = v.len();
    let mut e: usize = 0;
    while e < n && v[e] != '='
        invariant
            e <= n,
            n == v@.len(),
            forall|j: int| 0 <= j < e ==> v@[j] != '=',
        decreases n - e,
    {
        e = e + 1;
    }
    proof {
        lemma_find_at(v@, '=', e as int);
    }
    if e < n {
        proof {
            assert(v@.contains('=')) by {
                assert(v@[e as int] == '=');
            }
        }
        let trigger = trim_chars(copy_range(v, 0, e).as_slice());
        let action = trim_chars(copy_range(v, e + 1, n).as_slice());
        proof {
            assert(v@.subrange(0, e as int) =~= v@.take(e as int));
            assert(v@.subrange(e + 1, n as int) =~= v@.skip(e + 1));
        }
        Some(
            Keybinding {
                trigger: string_of(trigger.as_slice()),
                action: string_of(action.as_slice()),
            },
        )
    } else {
        proof {
            assert(!v@.contains('=')) by {
                if v@.contains('=') {
                    let j = choose|j: int| 0 <= j < v@.len() && v@[j] == '=';
                }
            }
        }
        None
    }
}

/// Parses the keybind listing, line by line.
pub fn parse_keybind_list(output: &str) -> (r: Vec<Keybinding>)
    ensures
        r@.map_values(|kb: Keybinding| kb@) == spec_keybind_list(output@),
{
    let cs = chars_of(output);
    let lines = split_lines(cs.as_slice());
    let ghost ls = spec_lines(output@);
    let mut r: Vec<Keybinding> = Vec::new();
    let mut i: usize = 0;
    proof {
        assert(ls.take(0) =~= Seq::<Seq<char>>::empty());
        assert(r@.map_values(|kb: Keybinding| kb@) =~= keybinds_of_lines(ls.take(0)));
    }
    while i < lines.len()
        invariant
            i <= lines@.len(),
            lines@.map_values(|l: Vec<char>| l@) == ls,
            r@.map_values(|kb: Keybinding| kb@) == keybinds_of_lines(ls.take(i as int)),
        decreases lines@.len() - i,
    {
        let ghost prev = r@;
        proof {
            assert(lines@[i as int]@ == ls[i as int]);
            assert(ls.take(i + 1).drop_last() =~= ls.take(i as int));
            assert(ls.take(i + 1).last() == ls[i as int]);
        }
        match keybind_of_line_exec(lines[i].as_slice()) {
            Some(kb) => {
                let ghost kv = kb@;
                r.push(kb);
                proof {
                    assert(r@.map_values(|kb: Keybinding| kb@) =~= prev.map_values(
                        |kb: Keybinding| kb@,
                    ).push(kv));
                }
            },
            None => {},
        }
        i = i + 1;
    }
    proof {
        assert(ls.take(ls.len() as int) =~= ls);
    }
    r
}

} // verus!
