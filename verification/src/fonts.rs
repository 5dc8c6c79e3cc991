//! Parsing the output of `ghostty +list-fonts`: family-name lines, each
//! followed by indented style lines, families separated by blank lines;
//! the result is sorted by name, case-insensitively.

use vstd::prelude::*;

use crate::chars::{chars_of, contains_chars, contains_seq, spec_lines, spec_trim, split_lines,
    starts_with_chars, string_of, trim_chars};
use crate::model::FontFamily;
use vstd::string::StrSliceExecFns;

verus! {

/// Mathematical model of a font family: its name and its styles.
pub struct FontModel {
    pub name: Seq<char>,
    pub styles: Seq<Seq<char>>,
}

impl View for FontFamily {
    type V = FontModel;

    open spec fn view(&self) -> FontModel {
        FontModel { name: self.name@, styles: self.styles@.map_values(|s: String| s@) }
    }
}

/// The lowercase form of a string, as `str::to_lowercase` gives it.
pub uninterp spec fn lower_of(s: Seq<char>) -> Seq<char>;

/// Relies on `str::to_lowercase`: the result depends on the characters
/// alone.
#[verifier::external_body]
pub(crate) fn lowercase(s: &str) -> (r: String)
    ensures
        r@ == lower_of(s@),
{
    s.to_lowercase()
}

/// Lexicographic order on character sequences, by code point: the order
/// in which `str::cmp` ranks the same characters.
pub open spec fn lex_leq(a: Seq<char>, b: Seq<char>) -> bool
    decreases a.len(),
{
    if a.len() == 0 {
        true
    } else if b.len() == 0 {
        false
    } else if a[0] != b[0] {
        (a[0] as u32) < (b[0] as u32)
    } else {
        lex_leq(a.drop_first(), b.drop_first())
    }
}

proof fn lemma_lex_common(a: Seq<char>, b: Seq<char>, i: int)
    requires
        0 <= i <= a.len(),
        i <= b.len(),
        forall|j: int| 0 <= j < i ==> a[j] == b[j],
    ensures
        lex_leq(a, b) == lex_leq(a.skip(i), b.skip(i)),
    decreases i,
{
    if i == 0 {
        assert(a.skip(0) =~= a);
        assert(b.skip(0) =~= b);
    } else {
        assert(a.drop_first() =~= a.skip(1));
        assert(b.drop_first() =~= b.skip(1));
        assert(forall|j: int| 0 <= j < i - 1 ==> a.skip(1)[j] == b.skip(1)[j]);
        lemma_lex_common(a.skip(1), b.skip(1), i - 1);
        assert(a.skip(1).skip(i - 1) =~= a.skip(i));
        assert(b.skip(1).skip(i - 1) =~= b.skip(i));
    }
}

/// Whether `a` ranks at or before `b` lexicographically.
pub(crate) fn lex_leq_chars(a: &[char], b: &[char]) -> (r: bool)
    ensures
        r == lex_leq(a@, b@),
{
    let mut i: usize = 0;
    while i < a.len() && i < b.len()
        invariant
            i <= a@.len(),
            i <= b@.len(),
            forall|j: int| 0 <= j < i ==> a@[j] == b@[j],
        decreases a@.len() - i,
    {
        if a[i] != b[i] {
            proof {
                lemma_lex_common(a@, b@, i as int);
                assert(a@.skip(i as int)[0] == a@[i as int]);
                assert(b@.skip(i as int)[0] == b@[i as int]);
            }
            return (a[i] as u32) < (b[i] as u32);
        }
        i = i + 1;
    }
    proof {
        lemma_lex_common(a@, b@, i as int);
        if i == a@.len() {
            assert(a@.skip(i as int).len() == 0);
        } else {
            assert(b@.skip(i as int).len() == 0);
            assert(a@.skip(i as int).len() > 0);
        }
    }
    a.len() <= b.len()
}

/// The sort order of families: by lowercased name, lexicographically.
pub open spec fn fam_leq(a: FontModel, b: FontModel) -> bool {
    lex_leq(lower_of(a.name), lower_of(b.name))
}

/// `x` inserted after every element that ranks at or before it: one
/// step of a stable insertion sort.
pub open spec fn insert_sorted(s: Seq<FontModel>, x: FontModel) -> Seq<FontModel>
    decreases s.len(),
{
    if s.len() > 0 && !fam_leq(s.last(), x) {
        insert_sorted(s.drop_last(), x).push(s.last())
    } else {
        s.push(x)
    }
}

/// The families in sort order: each inserted in turn after every
/// earlier-ranked element, so that equal names keep their original
/// order, as a stable sort by lowercased name leaves them.
pub open spec fn sort_fams(s: Seq<FontModel>) -> Seq<FontModel>
    decreases s.len(),
{
    if s.len() == 0 {
        s
    } else {
        insert_sorted(sort_fams(s.drop_last()), s.last())
    }
}

proof fn lemma_insert_at(s: Seq<FontModel>, x: FontModel, j: int)
    requires
        0 <= j <= s.len(),
        forall|m: int| j <= m < s.len() ==> !fam_leq(#[trigger] s[m], x),
        j > 0 ==> fam_leq(s[j - 1], x),
    ensures
        insert_sorted(s, x) == s.take(j) + seq![x] + s.skip(j),
    decreases s.len(),
{
    if j == s.len() {
        assert(s.take(j) + seq![x] + s.skip(j) =~= s.push(x));
    } else {
        let t = s.drop_last();
        assert(forall|m: int| j <= m < t.len() ==> t[m] == s[m]);
        if j > 0 {
            assert(t[j - 1] == s[j - 1]);
        }
        lemma_insert_at(t, x, j);
        assert((t.take(j) + seq![x] + t.skip(j)).push(s.last()) =~= s.take(j) + seq![x] + s.skip(
            j,
        ));
    }
}

/// Whether `a` ranks at or before `b` in the family sort order.
fn fam_leq_exec(a: &FontFamily, b: &FontFamily) -> (r: bool)
    ensures
        r == fam_leq(a@, b@),
{
    let la = lowercase(a.name.as_str());
    let lb = lowercase(b.name.as_str());
    let lac = chars_of(la.as_str());
    let lbc = chars_of(lb.as_str());
    lex_leq_chars(lac.as_slice(), lbc.as_slice())
}

/// Inserts `x` after every element that ranks at or before it.
fn insert_family(v: &mut Vec<FontFamily>, x: FontFamily)
    ensures
        final(v)@.map_values(|f: FontFamily| f@) == insert_sorted(
            old(v)@.map_values(|f: FontFamily| f@),
            x@,
        ),
{
    let ghost m = v@.map_values(|f: FontFamily| f@);
    let ghost xv = x@;
    let mut j: usize = v.len();
    while j > 0 && !fam_leq_exec(&v[j - 1], &x)
        invariant
            j <= v@.len(),
            *v == *old(v),
            x@ == xv,
            m == v@.map_values(|f: FontFamily| f@),
            forall|t: int| j <= t < m.len() ==> !fam_leq(#[trigger] m[t], xv),
        decreases j,
    {
        proof {
            assert(m[j - 1] == v@[j - 1]@);
        }
        j = j - 1;
    }
    proof {
        if j > 0 {
            assert(m[j - 1] == v@[j - 1]@);
        }
        lemma_insert_at(m, xv, j as int);
    }
    v.insert(j, x);
    proof {
        assert(v@.map_values(|f: FontFamily| f@) =~= m.take(j as int) + seq![xv] + m.skip(
            j as int,
        ));
    }
}

/// Whether a font family passes the search box: an empty search, or
/// the search as a substring of the lowercased family name.
pub open spec fn spec_font_matches(name: Seq<char>, search: Seq<char>) -> bool {
    search.len() == 0 || contains_seq(lower_of(name), search)
}

/// Whether a font family passes the search box; the search is expected
/// already lowercased.
pub fn font_matches(font: &FontFamily, search: &str) -> (r: bool)
    ensures
        r == spec_font_matches(font.name@, search@),
{
    if search.is_empty() {
        return true;
    }
    let lowered = lowercase(font.name.as_str());
    let lc = chars_of(lowered.as_str());
    let sc = chars_of(search);
    contains_chars(lc.as_slice(), sc.as_slice())
}

/// The parser's running state: the finished families, the family name
/// being gathered, and its styles so far.
pub struct FontState {
    pub fams: Seq<FontModel>,
    pub current: Option<Seq<char>>,
    pub styles: Seq<Seq<char>>,
}

/// The gathered family flushed onto the list, if one is open.
pub open spec fn font_flush(st: FontState) -> FontState {
    match st.current {
        Some(nm) => FontState {
            fams: st.fams.push(FontModel { name: nm, styles: st.styles }),
            current: None,
            styles: Seq::empty(),
        },
        None => st,
    }
}

/// One listing line's effect: a blank line ends the open family; an
/// indented line adds a style to it; any other line ends the open
/// family and starts a new one.
pub open spec fn font_step(st: FontState, l: Seq<char>) -> FontState {
    if l.len() == 0 {
        font_flush(st)
    } else if "  "@.is_prefix_of(l) || l[0] == '\t' {
        FontState { styles: st.styles.push(spec_trim(l)), ..st }
    } else {
        let f = font_flush(st);
        FontState { current: Some(spec_trim(l)), ..f }
    }
}

/// The parser state after consuming each line of `ls`, from `st` on.
pub open spec fn font_fold(ls: Seq<Seq<char>>, st: FontState) -> FontState
    decreases ls.len(),
{
    if ls.len() == 0 {
        st
    } else {
        font_fold(ls.drop_first(), font_step(st, ls[0]))
    }
}

/// The font families that the listing text holds, in listing order.
pub open spec fn families_of(text: Seq<char>) -> Seq<FontModel> {
    let st = font_fold(
        spec_lines(text),
        FontState { fams: Seq::empty(), current: None, styles: Seq::empty() },
    );
    font_flush(st).fams
}

/// The font families of the listing, sorted by lowercased name.
pub open spec fn spec_font_list(text: Seq<char>) -> Seq<FontModel> {
    sort_fams(families_of(text))
}

proof fn lemma_font_fold_concat(a: Seq<Seq<char>>, b: Seq<Seq<char>>, st: FontState)
    ensures
        font_fold(a + b, st) == font_fold(b, font_fold(a, st)),
    decreases a.len(),
{
    if a.len() == 0 {
        assert(a + b =~= b);
    } else {
        assert((a + b)[0] == a[0]);
        assert((a + b).drop_first() =~= a.drop_first() + b);
        lemma_font_fold_concat(a.drop_first(), b, font_step(st, a[0]));
    }
}

/// Parses the font listing and sorts the families by name,
/// case-insensitively. Styles keep their listing order.
pub fn parse_font_list(output: &str) -> (r: Vec<FontFamily>)
    ensures
        r@.map_values(|f: FontFamily| f@) == spec_font_list(output@),
{
    let cs = chars_of(output);
    let lines = split_lines(cs.as_slice());
    let ghost ls = spec_lines(output@);
    let ghost init = FontState { fams: Seq::empty(), current: None, styles: Seq::empty() };
    let two_spaces = chars_of("  ");
    let mut out: Vec<FontFamily> = Vec::new();
    let mut current: Option<String> = None;
    let mut styles: Vec<String> = Vec::new();
    let mut i: usize = 0;
    proof {
        assert(ls.take(0) =~= Seq::<Seq<char>>::empty());
        assert(out@.map_values(|f: FontFamily| f@) =~= sort_fams(Seq::<FontModel>::empty()));
    }
    while i < lines.len()
        invariant
            i <= lines@.len(),
            lines@.map_values(|l: Vec<char>| l@) == ls,
            two_spaces@ == "  "@,
            init == (FontState {
                fams: Seq::<FontModel>::empty(),
                current: None,
                styles: Seq::<Seq<char>>::empty(),
            }),
            ({
                let st = font_fold(ls.take(i as int), init);
                out@.map_values(|f: FontFamily| f@) == sort_fams(st.fams) && (match current {
                    Some(nm) => st.current == Some(nm@),
                    None => st.current is None,
                }) && styles@.map_values(|s: String| s@) == st.styles
            }),
        decreases lines@.len() - i,
    {
        let ghost cur = font_fold(ls.take(i as int), init);
        let ghost lv = ls[i as int];
        proof {
            assert(lines@[i as int]@ == lv);
        }
        let line = lines[i].as_slice();
        if line.len() == 0 {
            let taken = current;
            current = None;
            match taken {
                Some(nm) => {
                    let st = styles;
                    styles = Vec::new();
                    let ghost fam = FontModel { name: nm@, styles: st@.map_values(|s: String| s@) };
                    let f = FontFamily { name: nm, styles: st };
                    proof {
                        assert(f@ == fam);
                        assert(font_flush(cur).fams =~= cur.fams.push(fam));
                        assert(sort_fams(cur.fams.push(fam)) == insert_sorted(
                            sort_fams(cur.fams),
                            fam,
                        )) by {
                            assert(cur.fams.push(fam).drop_last() =~= cur.fams);
                            assert(cur.fams.push(fam).last() == fam);
                        }
                    }
                    insert_family(&mut out, f);
                    proof {
                        assert(styles@.map_values(|s: String| s@) =~= font_step(cur, lv).styles);
                    }
                },
                None => {},
            }
        } else if starts_with_chars(line, two_spaces.as_slice()) || line[0] == '\t' {
            let ghost prevs = styles@;
            let t = trim_chars(line);
            let ghost tv = t@;
            styles.push(string_of(t.as_slice()));
            proof {
                assert(styles@.map_values(|s: String| s@) =~= prevs.map_values(
                    |s: String| s@,
                ).push(tv));
            }
        } else {
            let taken = current;
            match taken {
                Some(nm) => {
                    let st = styles;
                    styles = Vec::new();
                    let ghost fam = FontModel { name: nm@, styles: st@.map_values(|s: String| s@) };
                    let f = FontFamily { name: nm, styles: st };
                    proof {
                        assert(f@ == fam);
                        assert(font_flush(cur).fams =~= cur.fams.push(fam));
                        assert(sort_fams(cur.fams.push(fam)) == insert_sorted(
                            sort_fams(cur.fams),
                            fam,
                        )) by {
                            assert(cur.fams.push(fam).drop_last() =~= cur.fams);
                            assert(cur.fams.push(fam).last() == fam);
                        }
                    }
                    insert_family(&mut out, f);
                },
                None => {},
            }
            let t = trim_chars(line);
            current = Some(string_of(t.as_slice()));
            proof {
                assert(styles@.map_values(|s: String| s@) =~= font_step(cur, lv).styles);
            }
        }
        proof {
            assert(ls.take(i + 1) =~= ls.take(i as int) + seq![lv]);
            lemma_font_fold_concat(ls.take(i as int), seq![lv], init);
            assert(seq![lv].drop_first() =~= Seq::<Seq<char>>::empty());
            assert(font_fold(Seq::<Seq<char>>::empty(), font_step(cur, lv)) == font_step(cur, lv));
            assert(font_fold(ls.take(i + 1), init) == font_step(cur, lv));
        }
        i = i + 1;
    }
    proof {
        assert(ls.take(ls.len() as int) =~= ls);
    }
    let ghost fin = font_fold(ls, init);
    match current {
        Some(nm) => {
            let st = styles;
            let ghost fam = FontModel { name: nm@, styles: st@.map_values(|s: String| s@) };
            let f = FontFamily { name: nm, styles: st };
            proof {
                assert(f@ == fam);
                assert(font_flush(fin).fams =~= fin.fams.push(fam));
                assert(sort_fams(fin.fams.push(fam)) == insert_sorted(sort_fams(fin.fams), fam))
                    by {
                    assert(fin.fams.push(fam).drop_last() =~= fin.fams);
                    assert(fin.fams.push(fam).last() == fam);
                }
            }
            insert_family(&mut out, f);
        },
        None => {
            proof {
                assert(font_flush(fin).fams == fin.fams);
            }
        },
    }
    out
}

} // verus!
