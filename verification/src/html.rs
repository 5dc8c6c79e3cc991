//! HTML fragments served to the browser: toast notifications, the
//! unsaved-changes badge, and the terminal preview's palette colors.

use vstd::prelude::*;

use crate::chars::{
    chars_of, copy_range, dec_string, is_usize_literal, lemma_find_at, parse_usize_chars,
    spec_dec_digits, spec_find, spec_trim, string_of, trim_chars, usize_literal_val,
};
use vstd::string::StrSliceExecFns;
use vstd::string::StringExecFns;

verus! {

/// The toast markup: a colored box around the message, amber for
/// errors, emerald otherwise.
pub open spec fn spec_toast_html(message: Seq<char>, is_error: bool) -> Seq<char> {
    "<div class=\""@ + (if is_error {
        "bg-amber-500"@
    } else {
        "bg-emerald-500"@
    })
        + " text-white px-4 py-2 rounded-lg shadow-lg text-sm font-medium animate-fade-in\" style=\"animation: fadeIn 0.2s ease-out, fadeOut 0.3s ease-in 1.7s forwards;\">"@
        + message + "</div>"@
}

/// The toast markup for a message.
pub fn toast_html(message: &str, is_error: bool) -> (r: String)
    ensures
        r@ == spec_toast_html(message@, is_error),
{
    let mut r = "<div class=\"".to_owned();
    if is_error {
        r.append("bg-amber-500");
    } else {
        r.append("bg-emerald-500");
    }
    r.append(
        " text-white px-4 py-2 rounded-lg shadow-lg text-sm font-medium animate-fade-in\" style=\"animation: fadeIn 0.2s ease-out, fadeOut 0.3s ease-in 1.7s forwards;\">",
    );
    r.append(message);
    r.append("</div>");
    proof {
        assert(r@ =~= spec_toast_html(message@, is_error));
    }
    r
}

/// The out-of-band badge markup: the count of unsaved keys in a red
/// dot, or an empty badge where nothing is unsaved.
pub open spec fn spec_unsaved_badge(count: int) -> Seq<char> {
    "<span id=\"unsaved-badge\" hx-swap-oob=\"innerHTML\">"@ + (if count > 0 {
        "<span class=\"inline-flex items-center justify-center w-5 h-5 text-xs font-bold text-white bg-red-500 rounded-full\">"@
            + spec_dec_digits(count) + "</span>"@
    } else {
        Seq::<char>::empty()
    }) + "</span>"@
}

/// The out-of-band swap that updates the unsaved badge in the header.
pub fn unsaved_badge_oob(count: usize) -> (r: String)
    ensures
        r@ == spec_unsaved_badge(count as int),
{
    let mut r = "<span id=\"unsaved-badge\" hx-swap-oob=\"innerHTML\">".to_owned();
    if count > 0 {
        r.append(
            "<span class=\"inline-flex items-center justify-center w-5 h-5 text-xs font-bold text-white bg-red-500 rounded-full\">",
        );
        let digits = dec_string(count as u64);
        r.append(digits.as_str());
        r.append("</span>");
    }
    r.append("</span>");
    proof {
        assert(r@ =~= spec_unsaved_badge(count as int));
    }
    r
}

/// A toast followed by the out-of-band badge update.
pub fn toast_with_badge(message: &str, is_error: bool, unsaved_count: usize) -> (r: String)
    ensures
        r@ == spec_toast_html(message@, is_error) + spec_unsaved_badge(unsaved_count as int),
{
    let mut r = toast_html(message, is_error);
    let badge = unsaved_badge_oob(unsaved_count);
    r.append(badge.as_str());
    r
}

/// The preview's fallback color for each of the 16 palette slots.
pub open spec fn spec_default_palette(index: int) -> Seq<char> {
    if index == 0 {
        "#21222c"@
    } else if index == 1 {
        "#ff5555"@
    } else if index == 2 {
        "#50fa7b"@
    } else if index == 3 {
        "#f1fa8c"@
    } else if index == 4 {
        "#bd93f9"@
    } else if index == 5 {
        "#ff79c6"@
    } else if index == 6 {
        "#8be9fd"@
    } else if index == 7 {
        "#f8f8f2"@
    } else if index == 8 {
        "#6272a4"@
    } else if index == 9 {
        "#ff6e6e"@
    } else if index == 10 {
        "#69ff94"@
    } else if index == 11 {
        "#ffffa5"@
    } else if index == 12 {
        "#d6acff"@
    } else if index == 13 {
        "#ff92df"@
    } else if index == 14 {
        "#a4ffff"@
    } else {
        "#ffffff"@
    }
}

/// The preview's fallback color for a palette slot.
pub fn default_palette_color(index: usize) -> (r: String)
    ensures
        r@ == spec_default_palette(index as int),
{
    let s: &str = if index == 0 {
        "#21222c"
    } else if index == 1 {
        "#ff5555"
    } else if index == 2 {
        "#50fa7b"
    } else if index == 3 {
        "#f1fa8c"
    } else if index == 4 {
        "#bd93f9"
    } else if index == 5 {
        "#ff79c6"
    } else if index == 6 {
        "#8be9fd"
    } else if index == 7 {
        "#f8f8f2"
    } else if index == 8 {
        "#6272a4"
    } else if index == 9 {
        "#ff6e6e"
    } else if index == 10 {
        "#69ff94"
    } else if index == 11 {
        "#ffffa5"
    } else if index == 12 {
        "#d6acff"
    } else if index == 13 {
        "#ff92df"
    } else if index == 14 {
        "#a4ffff"
    } else {
        "#ffffff"
    };
    s.to_owned()
}

/// Whether a `palette` value of the shape `N=#color` names slot
/// `index`.
pub open spec fn palette_entry_matches(v: Seq<char>, index: int) -> bool {
    v.contains('=') && {
        let e = spec_find(v, '=');
        let idx = spec_trim(v.take(e as int));
        is_usize_literal(idx) && usize_literal_val(idx) == index
    }
}

/// The color of a `palette` value of the shape `N=#color`.
pub open spec fn palette_entry_color(v: Seq<char>) -> Seq<char> {
    let e = spec_find(v, '=');
    spec_trim(v.skip(e + 1 as int))
}

/// The first palette value that names slot `index`, if any.
pub open spec fn spec_palette_override(vs: Seq<Seq<char>>, index: int) -> Option<Seq<char>>
    decreases vs.len(),
{
    if vs.len() == 0 {
        None
    } else if palette_entry_matches(vs[0], index) {
        Some(palette_entry_color(vs[0]))
    } else {
        spec_palette_override(vs.drop_first(), index)
    }
}

/// The color that the document's `palette` values set for slot `index`,
/// if any: the first value of the shape `N=#color` with `N` naming the
/// slot, its color trimmed.
pub fn palette_override(values: &Vec<&str>, index: usize) -> (r: Option<String>)
    ensures
        match r {
            Some(c) => spec_palette_override(values@.map_values(|v: &str| v@), index as int)
                == Some(c@),
            None => spec_palette_override(values@.map_values(|v: &str| v@), index as int) is None,
        },
{
    let ghost m = values@.map_values(|v: &str| v@);
    let mut i: usize = 0;
    proof {
        assert(m.skip(0) =~= m);
    }
    while i < values.len()
        invariant
            i <= values@.len(),
            m == values@.map_values(|v: &str| v@),
            spec_palette_override(m, index as int) == spec_palette_override(
                m.skip(i as int),
                index as int,
            ),
        decreases values@.len() - i,
    {
        proof {
            assert(m[i as int] == values@[i as int]@);
            assert(m.skip(i as int)[0] == m[i as int]);
            assert(m.skip(i as int).drop_first() =~= m.skip(i + 1));
        }
        let vc = chars_of(values[i]);
        let v = vc.as_slice();
        let n: usize = v.len();
        let mut e: usize = 0;
        while e < n && v[e] != '='
            invariant
                e <= n,
                n == v@.len(),
                forall|j: int| 0 <= j < e ==> v@[j] != '=',
            decreases n - e,
        {
            e = e + 1;
        }
        proof {
            lemma_find_at(v@, '=', e as int);
        }
        if e < n {
            proof {
                assert(v@.contains('=')) by {
                    assert(v@[e as int] == '=');
                }
            }
            let idx = trim_chars(copy_range(v, 0, e).as_slice());
            proof {
                assert(v@.subrange(0, e as int) =~= v@.take(e as int));
            }
            match parse_usize_chars(idx.as_slice()) {
                Some(parsed) => {
                    if parsed == index {
                        let color = trim_chars(copy_range(v, e + 1, n).as_slice());
                        proof {
                            assert(v@.subrange(e + 1, n as int) =~= v@.skip(e + 1));
                        }
                        return Some(string_of(color.as_slice()));
                    }
                },
                None => {},
            }
        } else {
            proof {
                assert(!v@.contains('=')) by {
                    if v@.contains('=') {
                        let j = choose|j: int| 0 <= j < v@.len() && v@[j] == '=';
                    }
                }
            }
        }
        i = i + 1;
    }
    proof {
        assert(m.skip(m.len() as int) =~= Seq::<Seq<char>>::empty());
    }
    None
}

} // verus!
