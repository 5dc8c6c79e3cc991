//! The type inferencer: decides the semantic value type of a config
//! option from its key, default value and free-text documentation. Pure,
//! deterministic and total.

use vstd::prelude::*;

use crate::chars::{
    chars_of, contains_char, contains_chars, contains_seq, copy_range, is_float_chars,
    is_float_literal, is_i64_chars, is_i64_literal, is_space, is_space_char, lemma_find_at, lemma_ws_run_at,
    seq_eq, spec_find, spec_lines, split_lines, starts_with_chars, str_eq, string_of, ws_run,
};
use crate::model::{ConfigValueType, ValueTypeModel};

verus! {

/// The enum token of one documentation line, if the line is a bullet of
/// the shape `<whitespace> * <whitespace> `token`` with a non-empty
/// token: whitespace, an asterisk, whitespace, then a backtick-delimited
/// run of non-backtick characters.
pub open spec fn bullet_token(l: Seq<char>) -> Option<Seq<char>> {
    let a = ws_run(l);
    if a == 0 || a >= l.len() || l[a as int] != '*' {
        None
    } else {
        let b = a + 1 + ws_run(l.skip(a + 1 as int));
        if b == a + 1 || b >= l.len() || l[b as int] != '`' {
            None
        } else {
            let k = b + 1 + spec_find(l.skip(b + 1 as int), '`');
            if k >= l.len() || k == b + 1 {
                None
            } else {
                Some(l.subrange(b + 1 as int, k as int))
            }
        }
    }
}

/// Whether a bullet token counts as an enum value: no space, no `=`,
/// and not an example marked `e.g`.
pub open spec fn enum_token_ok(tok: Seq<char>) -> bool {
    !tok.contains(' ') && !tok.contains('=') && !"e.g"@.is_prefix_of(tok)
}

/// The enum tokens of the documentation lines, in order. Lines that are
/// no bullets never terminate collection: documentation may interleave
/// paragraphs with the bullet list.
pub open spec fn enum_values_of_lines(ls: Seq<Seq<char>>) -> Seq<Seq<char>>
    decreases ls.len(),
{
    if ls.len() == 0 {
        Seq::empty()
    } else {
        let rest = enum_values_of_lines(ls.drop_last());
        match bullet_token(ls.last()) {
            Some(tok) => if enum_token_ok(tok) {
                rest.push(tok)
            } else {
                rest
            },
            None => rest,
        }
    }
}

/// The enum values that the documentation text offers, in order.
pub open spec fn spec_enum_values(docs: Seq<char>) -> Seq<Seq<char>> {
    enum_values_of_lines(spec_lines(docs))
}

/// Whether the collected values hold at least two distinct ones; fewer
/// do not make an enum.
pub open spec fn has_two_distinct(vs: Seq<Seq<char>>) -> bool {
    exists|i: int, j: int|
        0 <= i < vs.len() && 0 <= j < vs.len() && #[trigger] vs[i] != #[trigger] vs[j]
}

/// The fixed table of keys whose type cannot be inferred reliably from
/// shape alone.
pub open spec fn spec_manual_override(key: Seq<char>) -> Option<ValueTypeModel> {
    if key == "font-size"@ || key == "faint-opacity"@ {
        Some(ValueTypeModel::Float)
    } else if key == "adjust-cell-width"@ || key == "adjust-cell-height"@ || key
        == "adjust-font-baseline"@ || key == "adjust-underline-position"@ || key
        == "adjust-underline-thickness"@ || key == "adjust-strikethrough-position"@ || key
        == "adjust-strikethrough-thickness"@ || key == "adjust-overline-position"@ || key
        == "adjust-overline-thickness"@ || key == "adjust-cursor-thickness"@ || key
        == "adjust-cursor-height"@ || key == "adjust-box-thickness"@ || key
        == "window-padding-x"@ || key == "window-padding-y"@ {
        Some(ValueTypeModel::Text)
    } else if key == "window-padding-balance"@ {
        Some(ValueTypeModel::Boolean)
    } else if key == "scrollback-limit"@ || key == "image-storage-limit"@ || key
        == "font-thicken-strength"@ {
        Some(ValueTypeModel::Integer)
    } else {
        None
    }
}

/// The keys that may legitimately appear multiple times with distinct
/// values.
pub open spec fn spec_is_repeatable(key: Seq<char>) -> bool {
    ||| key == "keybind"@
    ||| key == "palette"@
    ||| key == "font-family"@
    ||| key == "font-family-bold"@
    ||| key == "font-family-italic"@
    ||| key == "font-family-bold-italic"@
    ||| key == "font-feature"@
    ||| key == "font-variation"@
    ||| key == "font-variation-bold"@
    ||| key == "font-variation-italic"@
    ||| key == "font-variation-bold-italic"@
    ||| key == "font-codepoint-map"@
    ||| key == "config-file"@
    ||| key == "custom-shader"@
}

/// The inferred value type, by the resolution order: manual override,
/// the keybind and palette keys, the font-family keys, boolean
/// defaults, color-like keys with hex-like defaults, path-like keys,
/// enums offered by the documentation, float and integer defaults,
/// comma-separated keys, and text as the fallback.
pub open spec fn spec_infer_type(key: Seq<char>, default: Seq<char>, docs: Seq<char>)
    -> ValueTypeModel {
    match spec_manual_override(key) {
        Some(t) => t,
        None => spec_infer_unoverridden(key, default, docs),
    }
}

/// The inference cascade past the manual-override table.
pub open spec fn spec_infer_unoverridden(key: Seq<char>, default: Seq<char>, docs: Seq<char>)
    -> ValueTypeModel {
    if key == "keybind"@ {
        ValueTypeModel::Keybind
    } else if key == "palette"@ {
        ValueTypeModel::Palette
    } else if key == "font-family"@ || key == "font-family-bold"@ || key == "font-family-italic"@
        || key == "font-family-bold-italic"@ {
        ValueTypeModel::Font
    } else if default == "true"@ || default == "false"@ {
        ValueTypeModel::Boolean
    } else if (contains_seq(key, "color"@) || key == "background"@ || key == "foreground"@
        || "selection-"@.is_prefix_of(key) || key == "cursor-text"@ || key == "bold-color"@
        || "split-"@.is_prefix_of(key)) && (default.len() == 0 || default[0] == '#') {
        ValueTypeModel::Color
    } else if key == "config-file"@ || key == "working-directory"@ || "custom-shader"@.is_prefix_of(
        key,
    ) {
        ValueTypeModel::Path
    } else if has_two_distinct(spec_enum_values(docs)) {
        ValueTypeModel::Enum(spec_enum_values(docs))
    } else if default.contains('.') && is_float_literal(default) {
        ValueTypeModel::Float
    } else if default.len() > 0 && is_i64_literal(default) {
        ValueTypeModel::Integer
    } else if key == "font-synthetic-style"@ || key == "font-feature"@ {
        ValueTypeModel::CommaSeparated(Box::new(ValueTypeModel::Text))
    } else {
        ValueTypeModel::Text
    }
}

/// The enum token of one documentation line, if it is a bullet.
fn bullet_token_exec(l: &[char]) -> (r: Option<Vec<char>>)
    ensures
        match r {
            Some(v) => bullet_token(l@) == Some(v@),
            None => bullet_token(l@) is None,
        },
{
    let n: usize = l.len();
    let mut a: usize = 0;
    while a < n && is_space(l[a])
        invariant
            a <= n,
            n == l@.len(),
            forall|j: int| 0 <= j < a ==> is_space_char(#[trigger] l@[j]),
        decreases n - a,
    {
        a = a + 1;
    }
    proof {
        lemma_ws_run_at(l@, a as int);
    }
    if a == 0 || a >= n {
        return None;
    }
    if l[a] != '*' {
        return None;
    }
    let mut b: usize = a + 1;
    while b < n && is_space(l[b])
        invariant
            a + 1 <= b <= n,
            n == l@.len(),
            forall|j: int| a + 1 <= j < b ==> is_space_char(#[trigger] l@[j]),
        decreases n - b,
    {
        b = b + 1;
    }
    proof {
        let t = l@.skip(a + 1);
        assert(forall|j: int| 0 <= j < b - a - 1 ==> t[j] == l@[j + a + 1]);
        lemma_ws_run_at(t, b - a - 1);
    }
    if b == a + 1 || b >= n {
        return None;
    }
    if l[b] != '`' {
        return None;
    }
    let mut k: usize = b + 1;
    while k < n && l[k] != '`'
        invariant
            b + 1 <= k <= n,
            n == l@.len(),
            forall|j: int| b + 1 <= j < k ==> l@[j] != '`',
        decreases n - k,
    {
        k = k + 1;
    }
    proof {
        let t = l@.skip(b + 1);
        assert(forall|j: int| 0 <= j < k - b - 1 ==> t[j] == l@[j + b + 1]);
        lemma_find_at(t, '`', k - b - 1);
    }
    if k >= n {
        return None;
    }
    if k == b + 1 {
        return None;
    }
    Some(copy_range(l, b + 1, k))
}

/// Extracts enum values from documentation bullet lists of the shape
/// ``  * `value` — description``, in order.
pub fn extract_enum_values(docs: &str) -> (r: Vec<String>)
    ensures
        r@.map_values(|v: String| v@) == spec_enum_values(docs@),
{
    let cs = chars_of(docs);
    let lines = split_lines(cs.as_slice());
    let ghost ls = spec_lines(docs@);
    let eg = chars_of("e.g");
    let mut r: Vec<String> = Vec::new();
    let mut i: usize = 0;
    proof {
        assert(ls.take(0) =~= Seq::<Seq<char>>::empty());
        assert(r@.map_values(|v: String| v@) =~= enum_values_of_lines(ls.take(0)));
    }
    while i < lines.len()
        invariant
            i <= lines@.len(),
            lines@.map_values(|l: Vec<char>| l@) == ls,
            eg@ == "e.g"@,
            r@.map_values(|v: String| v@) == enum_values_of_lines(ls.take(i as int)),
        decreases lines@.len() - i,
    {
        let ghost prev = r@;
        proof {
            assert(lines@[i as int]@ == ls[i as int]);
            assert(ls.take(i + 1).drop_last() =~= ls.take(i as int));
            assert(ls.take(i + 1).last() == ls[i as int]);
        }
        match bullet_token_exec(lines[i].as_slice()) {
            Some(tok) => {
                let keep = !contains_char(tok.as_slice(), ' ') && !contains_char(
                    tok.as_slice(),
                    '=',
                ) && !starts_with_chars(tok.as_slice(), eg.as_slice());
                if keep {
                    let ghost tv = tok@;
                    r.push(string_of(tok.as_slice()));
                    proof {
                        assert(r@.map_values(|v: String| v@) =~= prev.map_values(
                            |v: String| v@,
                        ).push(tv));
                    }
                }
            },
            None => {},
        }
        i = i + 1;
    }
    proof {
        assert(ls.take(ls.len() as int) =~= ls);
    }
    r
}

/// The fixed manual-override table for keys whose type cannot be
/// inferred reliably from shape alone.
pub fn manual_override(key: &str) -> (r: Option<ConfigValueType>)
    ensures
        match r {
            Some(t) => spec_manual_override(key@) == Some(t@),
            None => spec_manual_override(key@) is None,
        },
{
    if str_eq(key, "font-size") || str_eq(key, "faint-opacity") {
        Some(ConfigValueType::Float)
    } else if str_eq(key, "adjust-cell-width") || str_eq(key, "adjust-cell-height") || str_eq(
        key,
        "adjust-font-baseline",
    ) || str_eq(key, "adjust-underline-position") || str_eq(key, "adjust-underline-thickness")
        || str_eq(key, "adjust-strikethrough-position") || str_eq(
        key,
        "adjust-strikethrough-thickness",
    ) || str_eq(key, "adjust-overline-position") || str_eq(key, "adjust-overline-thickness")
        || str_eq(key, "adjust-cursor-thickness") || str_eq(key, "adjust-cursor-height") || str_eq(
        key,
        "adjust-box-thickness",
    ) || str_eq(key, "window-padding-x") || str_eq(key, "window-padding-y") {
        Some(ConfigValueType::Text)
    } else if str_eq(key, "window-padding-balance") {
        Some(ConfigValueType::Boolean)
    } else if str_eq(key, "scrollback-limit") || str_eq(key, "image-storage-limit") || str_eq(
        key,
        "font-thicken-strength",
    ) {
        Some(ConfigValueType::Integer)
    } else {
        None
    }
}

/// Whether `key` is known to be repeatable.
pub fn is_repeatable(key: &str) -> (r: bool)
    ensures
        r == spec_is_repeatable(key@),
{
    str_eq(key, "keybind") || str_eq(key, "palette") || str_eq(key, "font-family") || str_eq(
        key,
        "font-family-bold",
    ) || str_eq(key, "font-family-italic") || str_eq(key, "font-family-bold-italic") || str_eq(
        key,
        "font-feature",
    ) || str_eq(key, "font-variation") || str_eq(key, "font-variation-bold") || str_eq(
        key,
        "font-variation-italic",
    ) || str_eq(key, "font-variation-bold-italic") || str_eq(key, "font-codepoint-map") || str_eq(
        key,
        "config-file",
    ) || str_eq(key, "custom-shader")
}

/// Whether the collected values hold at least two distinct ones.
fn two_distinct(vs: &Vec<Vec<char>>) -> (r: bool)
    ensures
        r == has_two_distinct(vs@.map_values(|v: Vec<char>| v@)),
{
    let ghost m = vs@.map_values(|v: Vec<char>| v@);
    if vs.len() < 2 {
        proof {
            if has_two_distinct(m) {
                let (i, j) = choose|i: int, j: int|
                    0 <= i < m.len() && 0 <= j < m.len() && #[trigger] m[i] != #[trigger] m[j];
            }
        }
        return false;
    }
    let mut j: usize = 1;
    while j < vs.len()
        invariant
            1 <= j <= vs@.len(),
            m == vs@.map_values(|v: Vec<char>| v@),
            forall|t: int| 0 <= t < j ==> #[trigger] m[t] == m[0],
        decreases vs@.len() - j,
    {
        if !seq_eq(vs[0].as_slice(), vs[j].as_slice()) {
            proof {
                assert(m[0] != m[j as int]);
            }
            return true;
        }
        j = j + 1;
    }
    proof {
        if has_two_distinct(m) {
            let (i, j2) = choose|i: int, j2: int|
                0 <= i < m.len() && 0 <= j2 < m.len() && #[trigger] m[i] != #[trigger] m[j2];
            assert(m[i] == m[0]);
            assert(m[j2] == m[0]);
        }
    }
    false
}

/// Infers the value type of a config option from its key, default value
/// and documentation. Pure, deterministic and total.
pub fn infer_type(key: &str, default: &str, docs: &str) -> (t: ConfigValueType)
    ensures
        t@ == spec_infer_type(key@, default@, docs@),
{
    match manual_override(key) {
        Some(t) => {
            return t;
        },
        None => {},
    }
    if str_eq(key, "keybind") {
        return ConfigValueType::Keybind;
    }
    if str_eq(key, "palette") {
        return ConfigValueType::Palette;
    }
    if str_eq(key, "font-family") || str_eq(key, "font-family-bold") || str_eq(
        key,
        "font-family-italic",
    ) || str_eq(key, "font-family-bold-italic") {
        return ConfigValueType::Font;
    }
    if str_eq(default, "true") || str_eq(default, "false") {
        return ConfigValueType::Boolean;
    }
    let kc = chars_of(key);
    let dc = chars_of(default);
    let color_key = contains_chars(kc.as_slice(), chars_of("color").as_slice()) || str_eq(
        key,
        "background",
    ) || str_eq(key, "foreground") || starts_with_chars(
        kc.as_slice(),
        chars_of("selection-").as_slice(),
    ) || str_eq(key, "cursor-text") || str_eq(key, "bold-color") || starts_with_chars(
        kc.as_slice(),
        chars_of("split-").as_slice(),
    );
    if color_key && (dc.len() == 0 || dc[0] == '#') {
        return ConfigValueType::Color;
    }
    if str_eq(key, "config-file") || str_eq(key, "working-directory") || starts_with_chars(
        kc.as_slice(),
        chars_of("custom-shader").as_slice(),
    ) {
        return ConfigValueType::Path;
    }
    let cs = chars_of(docs);
    let lines = split_lines(cs.as_slice());
    let eg = chars_of("e.g");
    let ghost ls = spec_lines(docs@);
    let mut toks: Vec<Vec<char>> = Vec::new();
    let mut i: usize = 0;
    proof {
        assert(ls.take(0) =~= Seq::<Seq<char>>::empty());
        assert(toks@.map_values(|v: Vec<char>| v@) =~= enum_values_of_lines(ls.take(0)));
    }
    while i < lines.len()
        invariant
            i <= lines@.len(),
            lines@.map_values(|l: Vec<char>| l@) == ls,
            eg@ == "e.g"@,
            toks@.map_values(|v: Vec<char>| v@) == enum_values_of_lines(ls.take(i as int)),
        decreases lines@.len() - i,
    {
        let ghost prev = toks@;
        proof {
            assert(lines@[i as int]@ == ls[i as int]);
            assert(ls.take(i + 1).drop_last() =~= ls.take(i as int));
            assert(ls.take(i + 1).last() == ls[i as int]);
        }
        match bullet_token_exec(lines[i].as_slice()) {
            Some(tok) => {
                let keep = !contains_char(tok.as_slice(), ' ') && !contains_char(
                    tok.as_slice(),
                    '=',
                ) && !starts_with_chars(tok.as_slice(), eg.as_slice());
                if keep {
                    let ghost tv = tok@;
                    toks.push(tok);
                    proof {
                        assert(toks@.map_values(|v: Vec<char>| v@) =~= prev.map_values(
                            |v: Vec<char>| v@,
                        ).push(tv));
                    }
                }
            },
            None => {},
        }
        i = i + 1;
    }
    proof {
        assert(ls.take(ls.len() as int) =~= ls);
    }
    if two_distinct(&toks) {
        let mut vals: Vec<String> = Vec::new();
        let mut j: usize = 0;
        proof {
            assert(vals@.map_values(|v: String| v@) =~= toks@.map_values(
                |v: Vec<char>| v@,
            ).take(0));
        }
        while j < toks.len()
            invariant
                j <= toks@.len(),
                toks@.map_values(|v: Vec<char>| v@) == spec_enum_values(docs@),
                vals@.map_values(|v: String| v@) == toks@.map_values(|v: Vec<char>| v@).take(
                    j as int,
                ),
            decreases toks@.len() - j,
        {
            let ghost prev = vals@;
            let s = string_of(toks[j].as_slice());
            let ghost sv = s@;
            vals.push(s);
            proof {
                assert(sv == toks@.map_values(|v: Vec<char>| v@)[j as int]);
                assert(vals@.map_values(|v: String| v@) =~= prev.map_values(|v: String| v@).push(
                    sv,
                ));
                assert(toks@.map_values(|v: Vec<char>| v@).take(j + 1) =~= toks@.map_values(
                    |v: Vec<char>| v@,
                ).take(j as int).push(sv));
            }
            j = j + 1;
        }
        proof {
            assert(spec_enum_values(docs@).take(spec_enum_values(docs@).len() as int)
                =~= spec_enum_values(docs@));
        }
        return ConfigValueType::Enum(vals);
    }
    if contains_char(dc.as_slice(), '.') && is_float_chars(dc.as_slice()) {
        return ConfigValueType::Float;
    }
    if dc.len() > 0 && is_i64_chars(dc.as_slice()) {
        return ConfigValueType::Integer;
    }
    if str_eq(key, "font-synthetic-style") || str_eq(key, "font-feature") {
        proof {
            assert(crate::model::vt_model(ConfigValueType::Text) == ValueTypeModel::Text);
        }
        return ConfigValueType::CommaSeparated(Box::new(ConfigValueType::Text));
    }
    ConfigValueType::Text
}

} // verus!
