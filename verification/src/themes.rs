//! Theme files: extracting the colors of a theme and judging whether a
//! background color reads as dark.

use vstd::prelude::*;

use crate::chars::{
    chars_of, contains_chars, contains_seq, copy_range, hex_pair, hex_pair_val, is_usize_literal,
    lemma_find_at, parse_usize_chars, spec_find, spec_lines, spec_trim, split_lines, string_of,
    str_eq, trim_chars, usize_literal_val,
};
use crate::chars::vec_string_clone;
use crate::fonts::{lex_leq, lower_of, lowercase};
use crate::model::ThemeInfo;
use vstd::string::StrSliceExecFns;

verus! {

/// The number of `#` characters at the start of `s`.
pub open spec fn hash_run(s: Seq<char>) -> nat
    decreases s.len(),
{
    if s.len() > 0 && s[0] == '#' {
        (1 + hash_run(s.drop_first())) as nat
    } else {
        0
    }
}

proof fn lemma_hash_run_at(s: Seq<char>, k: int)
    requires
        0 <= k <= s.len(),
        forall|j: int| 0 <= j < k ==> s[j] == '#',
        k < s.len() ==> s[k] != '#',
    ensures
        hash_run(s) == k,
    decreases k,
{
    if k > 0 {
        let t = s.drop_first();
        assert(forall|j: int| 0 <= j < k - 1 ==> t[j] == s[j + 1]);
        lemma_hash_run_at(t, k - 1);
    }
}

/// Whether a hex color is dark: with the leading `#` markers stripped,
/// a color of fewer than six digits counts as dark, and otherwise the
/// comparison `0.299 r + 0.587 g + 0.114 b < 128` decides, evaluated
/// exactly over the integers as `299 r + 587 g + 114 b < 128000`. A
/// pair that is no pair of hex digits reads as 0.
pub open spec fn spec_is_dark(hex: Seq<char>) -> bool {
    let h = hex.skip(hash_run(hex) as int);
    if h.len() < 6 {
        true
    } else {
        299 * hex_pair_val(h[0], h[1]) + 587 * hex_pair_val(h[2], h[3]) + 114 * hex_pair_val(
            h[4],
            h[5],
        ) < 128000
    }
}

/// Whether a hex color is dark, by its relative luminance.
pub fn is_dark_color(hex: &str) -> (r: bool)
    ensures
        r == spec_is_dark(hex@),
{
    let cs = chars_of(hex);
    let s = cs.as_slice();
    let n: usize = s.len();
    let mut p: usize = 0;
    while p < n && s[p] == '#'
        invariant
            p <= n,
            n == s@.len(),
            forall|j: int| 0 <= j < p ==> s@[j] == '#',
        decreases n - p,
    {
        p = p + 1;
    }
    proof {
        lemma_hash_run_at(s@, p as int);
    }
    if n - p < 6 {
        return true;
    }
    let ghost h = s@.skip(p as int);
    proof {
        assert(forall|j: int| 0 <= j < h.len() ==> h[j] == s@[p + j]);
    }
    let rv: u32 = hex_pair(s[p], s[p + 1]);
    let gv: u32 = hex_pair(s[p + 2], s[p + 3]);
    let bv: u32 = hex_pair(s[p + 4], s[p + 5]);
    let lum: u32 = 299 * rv + 587 * gv + 114 * bv;
    lum < 128000
}

/// Whether a theme passes the browse filters: an empty search or the
/// search as a substring of the lowercased theme name, and the
/// `dark` / `light` filter against the theme's darkness; any other
/// filter admits every theme.
pub open spec fn spec_theme_matches(
    name: Seq<char>,
    is_dark: bool,
    search: Seq<char>,
    filter: Seq<char>,
) -> bool {
    (search.len() == 0 || contains_seq(lower_of(name), search)) && !(filter == "dark"@ && !is_dark)
        && !(filter == "light"@ && is_dark)
}

/// Whether a theme passes the browse filters; the search is expected
/// already lowercased.
pub fn theme_matches(theme: &ThemeInfo, search: &str, filter: &str) -> (r: bool)
    ensures
        r == spec_theme_matches(theme.name@, theme.is_dark, search@, filter@),
{
    let search_ok: bool = if search.is_empty() {
        true
    } else {
        let lowered = lowercase(theme.name.as_str());
        let lc = chars_of(lowered.as_str());
        let sc = chars_of(search);
        contains_chars(lc.as_slice(), sc.as_slice())
    };
    if !search_ok {
        return false;
    }
    if str_eq(filter, "dark") && !theme.is_dark {
        return false;
    }
    if str_eq(filter, "light") && theme.is_dark {
        return false;
    }
    true
}

/// Mathematical model of a theme: its colors as character sequences.
pub struct ThemeModel {
    pub name: Seq<char>,
    pub background: Seq<char>,
    pub foreground: Seq<char>,
    pub palette: Seq<Seq<char>>,
    pub is_dark: bool,
    pub cursor_color: Option<Seq<char>>,
    pub selection_background: Option<Seq<char>>,
}

impl View for ThemeInfo {
    type V = ThemeModel;

    open spec fn view(&self) -> ThemeModel {
        ThemeModel {
            name: self.name@,
            background: self.background@,
            foreground: self.foreground@,
            palette: self.palette@.map_values(|c: String| c@),
            is_dark: self.is_dark,
            cursor_color: match self.cursor_color {
                Some(c) => Some(c@),
                None => None,
            },
            selection_background: match self.selection_background {
                Some(c) => Some(c@),
                None => None,
            },
        }
    }
}

/// The sort order of themes: by lowercased name, lexicographically.
pub open spec fn theme_leq(a: ThemeModel, b: ThemeModel) -> bool {
    lex_leq(lower_of(a.name), lower_of(b.name))
}

/// `x` inserted after every theme that ranks at or before it: one step
/// of a stable insertion sort.
pub open spec fn insert_sorted_theme(s: Seq<ThemeModel>, x: ThemeModel) -> Seq<ThemeModel>
    decreases s.len(),
{
    if s.len() > 0 && !theme_leq(s.last(), x) {
        insert_sorted_theme(s.drop_last(), x).push(s.last())
    } else {
        s.push(x)
    }
}

/// The themes in sort order: each inserted in turn after every
/// earlier-ranked one, so that equal names keep their original order,
/// as a stable sort by lowercased name leaves them.
pub open spec fn spec_sort_themes(s: Seq<ThemeModel>) -> Seq<ThemeModel>
    decreases s.len(),
{
    if s.len() == 0 {
        s
    } else {
        insert_sorted_theme(spec_sort_themes(s.drop_last()), s.last())
    }
}

proof fn lemma_insert_theme_at(s: Seq<ThemeModel>, x: ThemeModel, j: int)
    requires
        0 <= j <= s.len(),
        forall|m: int| j <= m < s.len() ==> !theme_leq(#[trigger] s[m], x),
        j > 0 ==> theme_leq(s[j - 1], x),
    ensures
        insert_sorted_theme(s, x) == s.take(j) + seq![x] + s.skip(j),
    decreases s.len(),
{
    if j == s.len() {
        assert(s.take(j) + seq![x] + s.skip(j) =~= s.push(x));
    } else {
        let t = s.drop_last();
        assert(forall|m: int| j <= m < t.len() ==> t[m] == s[m]);
        if j > 0 {
            assert(t[j - 1] == s[j - 1]);
        }
        lemma_insert_theme_at(t, x, j);
        assert((t.take(j) + seq![x] + t.skip(j)).push(s.last()) =~= s.take(j) + seq![x] + s.skip(
            j,
        ));
    }
}

/// Whether `a` ranks at or before `b` in the theme sort order.
fn theme_leq_exec(a: &ThemeInfo, b: &ThemeInfo) -> (r: bool)
    ensures
        r == theme_leq(a@, b@),
{
    let la = lowercase(a.name.as_str());
    let lb = lowercase(b.name.as_str());
    let lac = chars_of(la.as_str());
    let lbc = chars_of(lb.as_str());
    crate::fonts::lex_leq_chars(lac.as_slice(), lbc.as_slice())
}

/// A copy of `t` denoting the same theme.
fn theme_clone(t: &ThemeInfo) -> (r: ThemeInfo)
    ensures
        r@ == t@,
{
    ThemeInfo {
        name: t.name.clone(),
        background: t.background.clone(),
        foreground: t.foreground.clone(),
        palette: vec_string_clone(&t.palette),
        is_dark: t.is_dark,
        cursor_color: match &t.cursor_color {
            Some(c) => Some(c.clone()),
            None => None,
        },
        selection_background: match &t.selection_background {
            Some(c) => Some(c.clone()),
            None => None,
        },
    }
}

/// Inserts `x` after every theme that ranks at or before it.
fn insert_theme(v: &mut Vec<ThemeInfo>, x: ThemeInfo)
    ensures
        final(v)@.map_values(|t: ThemeInfo| t@) == insert_sorted_theme(
            old(v)@.map_values(|t: ThemeInfo| t@),
            x@,
        ),
{
    let ghost m = v@.map_values(|t: ThemeInfo| t@);
    let ghost xv = x@;
    let mut j: usize = v.len();
    while j > 0 && !theme_leq_exec(&v[j - 1], &x)
        invariant
            j <= v@.len(),
            *v == *old(v),
            x@ == xv,
            m == v@.map_values(|t: ThemeInfo| t@),
            forall|t: int| j <= t < m.len() ==> !theme_leq(#[trigger] m[t], xv),
        decreases j,
    {
        proof {
            assert(m[j - 1] == v@[j - 1]@);
        }
        j = j - 1;
    }
    proof {
        if j > 0 {
            assert(m[j - 1] == v@[j - 1]@);
        }
        lemma_insert_theme_at(m, xv, j as int);
    }
    v.insert(j, x);
    proof {
        assert(v@.map_values(|t: ThemeInfo| t@) =~= m.take(j as int) + seq![xv] + m.skip(
            j as int,
        ));
    }
}

/// The themes sorted by name, case-insensitively; equal names keep
/// their original order.
pub fn sort_themes(themes: &Vec<ThemeInfo>) -> (r: Vec<ThemeInfo>)
    ensures
        r@.map_values(|t: ThemeInfo| t@) == spec_sort_themes(
            themes@.map_values(|t: ThemeInfo| t@),
        ),
{
    let ghost m = themes@.map_values(|t: ThemeInfo| t@);
    let mut out: Vec<ThemeInfo> = Vec::new();
    let mut i: usize = 0;
    proof {
        assert(m.take(0) =~= Seq::<ThemeModel>::empty());
        assert(out@.map_values(|t: ThemeInfo| t@) =~= spec_sort_themes(m.take(0)));
    }
    while i < themes.len()
        invariant
            i <= themes@.len(),
            m == themes@.map_values(|t: ThemeInfo| t@),
            out@.map_values(|t: ThemeInfo| t@) == spec_sort_themes(m.take(i as int)),
        decreases themes@.len() - i,
    {
        proof {
            assert(m[i as int] == themes@[i as int]@);
            assert(m.take(i + 1).drop_last() =~= m.take(i as int));
            assert(m.take(i + 1).last() == m[i as int]);
        }
        let t = theme_clone(&themes[i]);
        insert_theme(&mut out, t);
        i = i + 1;
    }
    proof {
        assert(m.take(m.len() as int) =~= m);
    }
    out
}

/// The colors gathered while scanning a theme file.
pub struct ThemeState {
    pub background: Seq<char>,
    pub foreground: Seq<char>,
    pub palette: Seq<Seq<char>>,
    pub cursor_color: Option<Seq<char>>,
    pub selection_background: Option<Seq<char>>,
}

/// The colors before any line is read: black on white, an empty
/// 16-slot palette, no cursor or selection color.
pub open spec fn theme_init() -> ThemeState {
    ThemeState {
        background: "#000000"@,
        foreground: "#ffffff"@,
        palette: Seq::new(16, |i: int| Seq::empty()),
        cursor_color: None,
        selection_background: None,
    }
}

/// One theme-file line's effect: blank lines and comments are skipped;
/// a `key = value` line sets the matching color; a `palette` value of
/// the shape `N=#color` with `N` under 16 fills that slot; everything
/// else is ignored.
pub open spec fn theme_step(st: ThemeState, l: Seq<char>) -> ThemeState {
    let t = spec_trim(l);
    if t.len() == 0 || t[0] == '#' {
        st
    } else if t.contains('=') {
        let e = spec_find(t, '=');
        let k = spec_trim(t.take(e as int));
        let v = spec_trim(t.skip(e + 1 as int));
        if k == "background"@ {
            ThemeState { background: v, ..st }
        } else if k == "foreground"@ {
            ThemeState { foreground: v, ..st }
        } else if k == "cursor-color"@ {
            ThemeState { cursor_color: Some(v), ..st }
        } else if k == "selection-background"@ {
            ThemeState { selection_background: Some(v), ..st }
        } else if k == "palette"@ {
            if v.contains('=') {
                let e2 = spec_find(v, '=');
                let idx = spec_trim(v.take(e2 as int));
                let col = spec_trim(v.skip(e2 + 1 as int));
                if is_usize_literal(idx) && usize_literal_val(idx) < 16 {
                    ThemeState { palette: st.palette.update(usize_literal_val(idx), col), ..st }
                } else {
                    st
                }
            } else {
                st
            }
        } else {
            st
        }
    } else {
        st
    }
}

/// The colors after scanning each line of `ls`, from `st` on.
pub open spec fn theme_fold(ls: Seq<Seq<char>>, st: ThemeState) -> ThemeState
    decreases ls.len(),
{
    if ls.len() == 0 {
        st
    } else {
        theme_fold(ls.drop_first(), theme_step(st, ls[0]))
    }
}

/// The theme that a theme file's text denotes, under the given name.
pub open spec fn spec_parse_theme(name: Seq<char>, content: Seq<char>) -> ThemeModel {
    let st = theme_fold(spec_lines(content), theme_init());
    ThemeModel {
        name: name,
        background: st.background,
        foreground: st.foreground,
        palette: st.palette,
        is_dark: spec_is_dark(st.background),
        cursor_color: st.cursor_color,
        selection_background: st.selection_background,
    }
}

proof fn lemma_theme_fold_concat(a: Seq<Seq<char>>, b: Seq<Seq<char>>, st: ThemeState)
    ensures
        theme_fold(a + b, st) == theme_fold(b, theme_fold(a, st)),
    decreases a.len(),
{
    if a.len() == 0 {
        assert(a + b =~= b);
    } else {
        assert((a + b)[0] == a[0]);
        assert((a + b).drop_first() =~= a.drop_first() + b);
        lemma_theme_fold_concat(a.drop_first(), b, theme_step(st, a[0]));
    }
}

/// Extracts a theme's colors from its file text. Total: unparseable
/// lines are skipped.
pub fn parse_theme_text(name: &str, content: &str) -> (r: ThemeInfo)
    ensures
        r@ == spec_parse_theme(name@, content@),
{
    let cs = chars_of(content);
    let lines = split_lines(cs.as_slice());
    let ghost ls = spec_lines(content@);
    let mut background = "#000000".to_owned();
    let mut foreground = "#ffffff".to_owned();
    let mut palette: Vec<String> = Vec::new();
    let mut cursor_color: Option<String> = None;
    let mut selection_background: Option<String> = None;
    let mut k: usize = 0;
    while k < 16
        invariant
            k <= 16,
            palette@.len() == k,
            forall|j: int| 0 <= j < k ==> (#[trigger] palette@[j])@ == Seq::<char>::empty(),
        decreases 16 - k,
    {
        palette.push(String::new());
        k = k + 1;
    }
    proof {
        assert(palette@.map_values(|c: String| c@) =~= theme_init().palette);
    }
    let mut i: usize = 0;
    proof {
        assert(ls.take(0) =~= Seq::<Seq<char>>::empty());
    }
    while i < lines.len()
        invariant
            i <= lines@.len(),
            lines@.map_values(|l: Vec<char>| l@) == ls,
            palette@.len() == 16,
            ({
                let st = theme_fold(ls.take(i as int), theme_init());
                background@ == st.background && foreground@ == st.foreground
                    && palette@.map_values(|c: String| c@) == st.palette && (match cursor_color {
                    Some(c) => st.cursor_color == Some(c@),
                    None => st.cursor_color is None,
                }) && (match selection_background {
                    Some(c) => st.selection_background == Some(c@),
                    None => st.selection_background is None,
                })
            }),
        decreases lines@.len() - i,
    {
        let ghost cur = theme_fold(ls.take(i as int), theme_init());
        let ghost lv = ls[i as int];
        proof {
            assert(lines@[i as int]@ == lv);
        }
        let line = lines[i].as_slice();
        let tvec = trim_chars(line);
        let t = tvec.as_slice();
        let n: usize = t.len();
        if n == 0 || t[0] == '#' {
        } else {
            let mut e: usize = 0;
            while e < n && t[e] != '='
                invariant
                    e <= n,
                    n == t@.len(),
                    forall|j: int| 0 <= j < e ==> t@[j] != '=',
                decreases n - e,
            {
                e = e + 1;
            }
            proof {
                lemma_find_at(t@, '=', e as int);
            }
            if e < n {
                proof {
                    assert(t@.contains('=')) by {
                        assert(t@[e as int] == '=');
                    }
                }
                let kvec = trim_chars(copy_range(t, 0, e).as_slice());
                let vvec = trim_chars(copy_range(t, e + 1, n).as_slice());
                proof {
                    assert(t@.subrange(0, e as int) =~= t@.take(e as int));
                    assert(t@.subrange(e + 1, n as int) =~= t@.skip(e + 1));
                }
                let key = string_of(kvec.as_slice());
                if str_eq(key.as_str(), "background") {
                    background = string_of(vvec.as_slice());
                } else if str_eq(key.as_str(), "foreground") {
                    foreground = string_of(vvec.as_slice());
                } else if str_eq(key.as_str(), "cursor-color") {
                    cursor_color = Some(string_of(vvec.as_slice()));
                } else if str_eq(key.as_str(), "selection-background") {
                    selection_background = Some(string_of(vvec.as_slice()));
                } else if str_eq(key.as_str(), "palette") {
                    let v = vvec.as_slice();
                    let vn: usize = v.len();
                    let mut e2: usize = 0;
                    while e2 < vn && v[e2] != '='
                        invariant
                            e2 <= vn,
                            vn == v@.len(),
                            forall|j: int| 0 <= j < e2 ==> v@[j] != '=',
                        decreases vn - e2,
                    {
                        e2 = e2 + 1;
                    }
                    proof {
                        lemma_find_at(v@, '=', e2 as int);
                    }
                    if e2 < vn {
                        proof {
                            assert(v@.contains('=')) by {
                                assert(v@[e2 as int] == '=');
                            }
                        }
                        let idx = trim_chars(copy_range(v, 0, e2).as_slice());
                        let col = trim_chars(copy_range(v, e2 + 1, vn).as_slice());
                        proof {
                            assert(v@.subrange(0, e2 as int) =~= v@.take(e2 as int));
                            assert(v@.subrange(e2 + 1, vn as int) =~= v@.skip(e2 + 1));
                        }
                        match parse_usize_chars(idx.as_slice()) {
                            Some(slot) => {
                                if slot < 16 {
                                    let ghost prevp = palette@;
                                    let colv = string_of(col.as_slice());
                                    palette.set(slot, colv);
                                    proof {
                                        assert(palette@.map_values(|c: String| c@)
                                            =~= prevp.map_values(|c: String| c@).update(
                                            slot as int,
                                            col@,
                                        ));
                                    }
                                }
                            },
                            None => {},
                        }
                    } else {
                        proof {
                            assert(!v@.contains('=')) by {
                                if v@.contains('=') {
                                    let j = choose|j: int| 0 <= j < v@.len() && v@[j] == '=';
                                }
                            }
                        }
                    }
                }
            } else {
                proof {
                    assert(!t@.contains('=')) by {
                        if t@.contains('=') {
                            let j = choose|j: int| 0 <= j < t@.len() && t@[j] == '=';
                        }
                    }
                }
            }
        }
        proof {
            assert(ls.take(i + 1) =~= ls.take(i as int) + seq![lv]);
            lemma_theme_fold_concat(ls.take(i as int), seq![lv], theme_init());
            assert(seq![lv].drop_first() =~= Seq::<Seq<char>>::empty());
            assert(theme_fold(Seq::<Seq<char>>::empty(), theme_step(cur, lv)) == theme_step(
                cur,
                lv,
            ));
            assert(theme_fold(ls.take(i + 1), theme_init()) == theme_step(cur, lv));
        }
        i = i + 1;
    }
    proof {
        assert(ls.take(ls.len() as int) =~= ls);
    }
    let r = ThemeInfo {
        name: name.to_owned(),
        is_dark: is_dark_color(background.as_str()),
        background,
        foreground,
        palette,
        cursor_color,
        selection_background,
    };
    r
}

} // verus!
