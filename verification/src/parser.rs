//! The schema parser: turns the full documentation-and-defaults dump of
//! `ghostty +show-config --default --docs` into a list of typed schema
//! entries, de-duplicating repeated keys in favor of the documented
//! variant.

use vstd::prelude::*;

use crate::categorize::{categorize_key, spec_categorize};
use crate::chars::{
    chars_of, copy_range, join_lines, lemma_find_at, spec_find, spec_join_nl, spec_lines,
    spec_trim, split_lines, string_of, str_eq, trim_chars, vec_string_clone,
};
use crate::error::AppError;
use crate::model::{ConfigOption, ConfigSchema, ConfigValueType, OptionModel, find_opt};
use crate::type_inference::{infer_type, is_repeatable, spec_infer_type, spec_is_repeatable};

verus! {

/// The parser's running state: the documentation lines accumulated for
/// the coming key, and the options emitted so far.
pub struct ParseState {
    pub docs: Seq<Seq<char>>,
    pub opts: Seq<OptionModel>,
}

/// The schema entry built for one `key = value` line and its
/// documentation, through the type inferencer, the categorizer and the
/// repeatability table.
pub open spec fn mk_option(key: Seq<char>, value: Seq<char>, documentation: Seq<char>)
    -> OptionModel {
    OptionModel {
        key: key,
        default_value: value,
        documentation: documentation,
        value_type: spec_infer_type(key, value, documentation),
        category: spec_categorize(key),
        is_repeatable: spec_is_repeatable(key),
    }
}

/// The accumulated documentation with its trailing blank lines removed.
pub open spec fn drop_trailing_blanks(docs: Seq<Seq<char>>) -> Seq<Seq<char>>
    decreases docs.len(),
{
    if docs.len() > 0 && docs.last().len() == 0 {
        drop_trailing_blanks(docs.drop_last())
    } else {
        docs
    }
}

/// One line's effect on the parser state. A `#` line appends its text
/// (marker and one optional following space stripped) to the
/// documentation; a blank line is kept only inside documentation; a
/// line with `=` finalizes the block into an option; anything else is
/// ignored. A repeated key replaces the earlier occurrence only when it
/// carries non-empty documentation, and is silently dropped otherwise.
pub open spec fn parse_step(st: ParseState, line: Seq<char>) -> ParseState {
    if line.len() > 0 && line[0] == '#' {
        let stripped = line.drop_first();
        let doc = if stripped.len() > 0 && stripped[0] == ' ' {
            stripped.drop_first()
        } else {
            stripped
        };
        ParseState { docs: st.docs.push(doc), opts: st.opts }
    } else if spec_trim(line).len() == 0 {
        if st.docs.len() == 0 {
            st
        } else {
            ParseState { docs: st.docs.push(Seq::empty()), opts: st.opts }
        }
    } else if line.contains('=') {
        let e = spec_find(line, '=');
        let key = spec_trim(line.take(e as int));
        let value = spec_trim(line.skip(e + 1 as int));
        let documentation = spec_join_nl(drop_trailing_blanks(st.docs));
        let opts = if find_opt(st.opts, key) is None {
            st.opts.push(mk_option(key, value, documentation))
        } else if documentation.len() > 0 {
            st.opts.filter(|o: OptionModel| o.key != key).push(
                mk_option(key, value, documentation),
            )
        } else {
            st.opts
        };
        ParseState { docs: Seq::empty(), opts: opts }
    } else {
        st
    }
}

/// The parser state after consuming each line of `ls`, from `st` on.
pub open spec fn parse_lines_from(ls: Seq<Seq<char>>, st: ParseState) -> ParseState
    decreases ls.len(),
{
    if ls.len() == 0 {
        st
    } else {
        parse_lines_from(ls.drop_first(), parse_step(st, ls[0]))
    }
}

/// The options that the schema dump `text` denotes.
pub open spec fn spec_parse_schema(text: Seq<char>) -> Seq<OptionModel> {
    parse_lines_from(
        spec_lines(text),
        ParseState { docs: Seq::empty(), opts: Seq::empty() },
    ).opts
}

proof fn lemma_parse_lines_concat(a: Seq<Seq<char>>, b: Seq<Seq<char>>, st: ParseState)
    ensures
        parse_lines_from(a + b, st) == parse_lines_from(b, parse_lines_from(a, st)),
    decreases a.len(),
{
    if a.len() == 0 {
        assert(a + b =~= b);
    } else {
        assert((a + b)[0] == a[0]);
        assert((a + b).drop_first() =~= a.drop_first() + b);
        lemma_parse_lines_concat(a.drop_first(), b, parse_step(st, a[0]));
    }
}

/// Whether no two options share a key.
pub open spec fn keys_unique(opts: Seq<OptionModel>) -> bool {
    forall|i: int, j: int|
        0 <= i < j < opts.len() ==> #[trigger] opts[i].key != #[trigger] opts[j].key
}

proof fn lemma_find_opt_none(opts: Seq<OptionModel>, k: Seq<char>)
    ensures
        (find_opt(opts, k) is None) <==> (forall|i: int|
            0 <= i < opts.len() ==> (#[trigger] opts[i]).key != k),
    decreases opts.len(),
{
    if opts.len() > 0 {
        lemma_find_opt_none(opts.drop_first(), k);
        assert(forall|i: int| 0 <= i < opts.len() - 1 ==> #[trigger] opts.drop_first()[i]
            == opts[i + 1]);
        if opts[0].key != k && (find_opt(opts.drop_first(), k) is None) {
            assert forall|i: int| 0 <= i < opts.len() implies (#[trigger] opts[i]).key != k by {
                if i > 0 {
                    assert(opts.drop_first()[i - 1] == opts[i]);
                }
            }
        }
    }
}

proof fn lemma_filter_key_not_in(s: Seq<OptionModel>, p: spec_fn(OptionModel) -> bool, k: Seq<char>)
    requires
        forall|i: int| 0 <= i < s.len() ==> (#[trigger] s[i]).key != k,
    ensures
        forall|i: int| 0 <= i < s.filter(p).len() ==> (#[trigger] s.filter(p)[i]).key != k,
    decreases s.len(),
{
    reveal(Seq::filter);
    if s.len() > 0 {
        assert(forall|i: int| 0 <= i < s.len() - 1 ==> #[trigger] s.drop_last()[i] == s[i]);
        lemma_filter_key_not_in(s.drop_last(), p, k);
        let rest = s.drop_last().filter(p);
        if p(s.last()) {
            assert(s.filter(p) == rest.push(s.last()));
            assert(forall|i: int| 0 <= i < rest.len() ==> #[trigger] s.filter(p)[i] == rest[i]);
            assert(s.filter(p)[s.filter(p).len() - 1] == s.last());
        }
    }
}

proof fn lemma_filter_keeps_unique(s: Seq<OptionModel>, p: spec_fn(OptionModel) -> bool)
    requires
        keys_unique(s),
    ensures
        keys_unique(s.filter(p)),
    decreases s.len(),
{
    reveal(Seq::filter);
    if s.len() > 0 {
        assert(forall|i: int| 0 <= i < s.len() - 1 ==> #[trigger] s.drop_last()[i] == s[i]);
        lemma_filter_keeps_unique(s.drop_last(), p);
        let rest = s.drop_last().filter(p);
        if p(s.last()) {
            assert(forall|i: int| 0 <= i < s.len() - 1 ==> (#[trigger] s.drop_last()[i]).key
                != s.last().key);
            lemma_filter_key_not_in(s.drop_last(), p, s.last().key);
            assert(s.filter(p) == rest.push(s.last()));
            assert(forall|i: int| 0 <= i < rest.len() ==> #[trigger] s.filter(p)[i] == rest[i]);
        }
    }
}

proof fn lemma_step_keeps_unique(st: ParseState, line: Seq<char>)
    requires
        keys_unique(st.opts),
    ensures
        keys_unique(parse_step(st, line).opts),
{
    reveal(Seq::filter);
    let after = parse_step(st, line).opts;
    if !(line.len() > 0 && line[0] == '#') && spec_trim(line).len() != 0 && line.contains('=') {
        let e = spec_find(line, '=');
        let key = spec_trim(line.take(e as int));
        let documentation = spec_join_nl(drop_trailing_blanks(st.docs));
        if find_opt(st.opts, key) is None {
            lemma_find_opt_none(st.opts, key);
            assert(forall|i: int| 0 <= i < st.opts.len() ==> #[trigger] after[i] == st.opts[i]);
            assert(after[after.len() - 1].key == key);
        } else if documentation.len() > 0 {
            let pred = |o: OptionModel| o.key != key;
            let kept = st.opts.filter(pred);
            lemma_filter_keeps_unique(st.opts, pred);
            assert forall|i: int| 0 <= i < kept.len() implies (#[trigger] kept[i]).key != key by {
                st.opts.lemma_filter_pred(pred, i);
            }
            assert(forall|i: int| 0 <= i < kept.len() ==> #[trigger] after[i] == kept[i]);
            assert(after[after.len() - 1].key == key);
        }
    }
}

proof fn lemma_parse_keeps_unique(ls: Seq<Seq<char>>, st: ParseState)
    requires
        keys_unique(st.opts),
    ensures
        keys_unique(parse_lines_from(ls, st).opts),
    decreases ls.len(),
{
    if ls.len() > 0 {
        lemma_step_keeps_unique(st, ls[0]);
        lemma_parse_keeps_unique(ls.drop_first(), parse_step(st, ls[0]));
    }
}

/// Law: de-duplication is complete. Whatever the schema dump holds, no
/// two options of the parsed schema share a key: a repeated key either
/// replaces the earlier occurrence or is dropped.
pub proof fn lemma_schema_keys_unique(text: Seq<char>)
    ensures
        keys_unique(spec_parse_schema(text)),
{
    lemma_parse_keeps_unique(
        spec_lines(text),
        ParseState { docs: Seq::empty(), opts: Seq::empty() },
    );
}

/// Whether some option in `options` already has key `key`.
fn options_has_key(options: &Vec<ConfigOption>, key: &str) -> (r: bool)
    ensures
        r == (find_opt(options@.map_values(|o: ConfigOption| o@), key@) is Some),
{
    let ghost m = options@.map_values(|o: ConfigOption| o@);
    let mut i: usize = 0;
    proof {
        assert(m.skip(0) =~= m);
    }
    while i < options.len()
        invariant
            i <= options@.len(),
            m == options@.map_values(|o: ConfigOption| o@),
            find_opt(m, key@) == find_opt(m.skip(i as int), key@),
        decreases options@.len() - i,
    {
        proof {
            assert(m[i as int] == options@[i as int]@);
            assert(m.skip(i as int)[0] == m[i as int]);
            assert(m.skip(i as int).drop_first() =~= m.skip(i + 1));
        }
        if str_eq(options[i].key.as_str(), key) {
            return true;
        }
        i = i + 1;
    }
    proof {
        assert(m.skip(m.len() as int) =~= Seq::<OptionModel>::empty());
    }
    false
}

/// A copy of `t` denoting the same value type.
fn clone_value_type(t: &ConfigValueType) -> (r: ConfigValueType)
    ensures
        r@ == t@,
    decreases t,
{
    match t {
        ConfigValueType::Boolean => ConfigValueType::Boolean,
        ConfigValueType::Integer => ConfigValueType::Integer,
        ConfigValueType::Float => ConfigValueType::Float,
        ConfigValueType::Color => ConfigValueType::Color,
        ConfigValueType::Enum(vs) => ConfigValueType::Enum(vec_string_clone(vs)),
        ConfigValueType::Text => ConfigValueType::Text,
        ConfigValueType::Font => ConfigValueType::Font,
        ConfigValueType::Path => ConfigValueType::Path,
        ConfigValueType::Keybind => ConfigValueType::Keybind,
        ConfigValueType::Palette => ConfigValueType::Palette,
        ConfigValueType::CommaSeparated(inner) => ConfigValueType::CommaSeparated(
            Box::new(clone_value_type(&**inner)),
        ),
    }
}

/// A copy of `o` denoting the same option.
fn option_clone(o: &ConfigOption) -> (r: ConfigOption)
    ensures
        r@ == o@,
{
    ConfigOption {
        key: o.key.clone(),
        default_value: o.default_value.clone(),
        documentation: o.documentation.clone(),
        value_type: clone_value_type(&o.value_type),
        category: o.category,
        is_repeatable: o.is_repeatable,
    }
}

/// The options with every entry for `key` removed, in order.
fn options_remove_key(options: &Vec<ConfigOption>, key: &str) -> (r: Vec<ConfigOption>)
    ensures
        r@.map_values(|o: ConfigOption| o@) == options@.map_values(|o: ConfigOption| o@).filter(
            |o: OptionModel| o.key != key@,
        ),
{
    let ghost m = options@.map_values(|o: ConfigOption| o@);
    let ghost pred = |o: OptionModel| o.key != key@;
    let mut r: Vec<ConfigOption> = Vec::new();
    let mut i: usize = 0;
    proof {
        reveal(Seq::filter);
        assert(m.take(0) =~= Seq::<OptionModel>::empty());
        assert(r@.map_values(|o: ConfigOption| o@) =~= m.take(0).filter(pred));
    }
    while i < options.len()
        invariant
            i <= options@.len(),
            m == options@.map_values(|o: ConfigOption| o@),
            pred == (|o: OptionModel| o.key != key@),
            r@.map_values(|o: ConfigOption| o@) == m.take(i as int).filter(pred),
        decreases options@.len() - i,
    {
        let ghost prev = r@;
        if !str_eq(options[i].key.as_str(), key) {
            let o = option_clone(&options[i]);
            r.push(o);
        }
        proof {
            reveal(Seq::filter);
            assert(m[i as int] == options@[i as int]@);
            assert(m.take(i + 1).last() == m[i as int]);
            assert(m.take(i + 1).drop_last() =~= m.take(i as int));
            if pred(m[i as int]) {
                assert(r@.map_values(|o: ConfigOption| o@) =~= prev.map_values(
                    |o: ConfigOption| o@,
                ).push(m[i as int]));
            }
            assert(r@.map_values(|o: ConfigOption| o@) =~= m.take(i + 1).filter(pred));
        }
        i = i + 1;
    }
    proof {
        assert(m.take(m.len() as int) =~= m);
    }
    r
}

/// The schema entry for one `key = value` line and its documentation.
fn make_option(key: String, value: String, documentation: String) -> (r: ConfigOption)
    ensures
        r@ == mk_option(key@, value@, documentation@),
{
    let value_type = infer_type(key.as_str(), value.as_str(), documentation.as_str());
    let category = categorize_key(key.as_str());
    let repeatable = is_repeatable(key.as_str());
    ConfigOption {
        key: key,
        default_value: value,
        documentation: documentation,
        value_type: value_type,
        category: category,
        is_repeatable: repeatable,
    }
}

/// Parses the schema dump into a `ConfigSchema`. Total over any string
/// input: unparseable lines are ignored and never abort the parse, so
/// the result is always `Ok`.
pub fn parse_show_config(output: &str) -> (r: Result<ConfigSchema, AppError>)
    ensures
        r matches Ok(schema) && schema@ == spec_parse_schema(output@),
{
    let cs = chars_of(output);
    let lines = split_lines(cs.as_slice());
    let ghost ls = spec_lines(output@);
    let ghost init = ParseState { docs: Seq::empty(), opts: Seq::empty() };
    let mut doc_lines: Vec<Vec<char>> = Vec::new();
    let mut options: Vec<ConfigOption> = Vec::new();
    let mut i: usize = 0;
    proof {
        assert(ls.take(0) =~= Seq::<Seq<char>>::empty());
    }
    while i < lines.len()
        invariant
            i <= lines@.len(),
            lines@.map_values(|l: Vec<char>| l@) == ls,
            ls == spec_lines(output@),
            init == (ParseState { docs: Seq::<Seq<char>>::empty(), opts: Seq::<OptionModel>::empty() }),
            doc_lines@.map_values(|l: Vec<char>| l@) == parse_lines_from(
                ls.take(i as int),
                init,
            ).docs,
            options@.map_values(|o: ConfigOption| o@) == parse_lines_from(
                ls.take(i as int),
                init,
            ).opts,
        decreases lines@.len() - i,
    {
        let ghost cur = parse_lines_from(ls.take(i as int), init);
        let ghost lv = ls[i as int];
        proof {
            assert(lines@[i as int]@ == lv);
        }
        let line = lines[i].as_slice();
        let n: usize = line.len();
        if n > 0 && line[0] == '#' {
            let start: usize = if n > 1 && line[1] == ' ' {
                2
            } else {
                1
            };
            let doc = copy_range(line, start, n);
            proof {
                if start == 2 {
                    assert(doc@ =~= lv.drop_first().drop_first());
                } else {
                    assert(doc@ =~= lv.drop_first());
                }
            }
            doc_lines.push(doc);
            proof {
                assert(doc_lines@.map_values(|l: Vec<char>| l@) =~= parse_step(cur, lv).docs);
            }
        } else {
            let t = trim_chars(line);
            if t.len() == 0 {
                if doc_lines.len() > 0 {
                    doc_lines.push(Vec::new());
                    proof {
                        assert(doc_lines@.map_values(|l: Vec<char>| l@) =~= parse_step(
                            cur,
                            lv,
                        ).docs);
                    }
                }
            } else {
                let mut e: usize = 0;
                while e < n && line[e] != '='
                    invariant
                        e <= n,
                        n == line@.len(),
                        forall|j: int| 0 <= j < e ==> line@[j] != '=',
                    decreases n - e,
                {
                    e = e + 1;
                }
                proof {
                    lemma_find_at(lv, '=', e as int);
                }
                if e < n {
                    proof {
                        assert(lv.contains('=')) by {
                            assert(lv[e as int] == '=');
                        }
                    }
                    let key_s = string_of(
                        trim_chars(copy_range(line, 0, e).as_slice()).as_slice(),
                    );
                    let value_s = string_of(
                        trim_chars(copy_range(line, e + 1, n).as_slice()).as_slice(),
                    );
                    proof {
                        assert(line@.subrange(0, e as int) =~= lv.take(e as int));
                        assert(line@.subrange(e + 1, n as int) =~= lv.skip(e + 1));
                    }
                    let ghost docs0 = doc_lines@.map_values(|l: Vec<char>| l@);
                    while doc_lines.len() > 0 && doc_lines[doc_lines.len() - 1].len() == 0
                        invariant
                            drop_trailing_blanks(doc_lines@.map_values(|l: Vec<char>| l@))
                                == drop_trailing_blanks(docs0),
                        decreases doc_lines@.len(),
                    {
                        proof {
                            let dm = doc_lines@.map_values(|l: Vec<char>| l@);
                            assert(dm.last().len() == 0);
                            assert(dm.drop_last() =~= doc_lines@.drop_last().map_values(
                                |l: Vec<char>| l@,
                            ));
                        }
                        doc_lines.pop();
                    }
                    proof {
                        let dm = doc_lines@.map_values(|l: Vec<char>| l@);
                        assert(drop_trailing_blanks(dm) == dm);
                        assert(dm == drop_trailing_blanks(docs0));
                    }
                    let doc_chars = join_lines(&doc_lines);
                    let doc_nonempty = doc_chars.len() > 0;
                    let documentation = string_of(doc_chars.as_slice());
                    let already = options_has_key(&options, key_s.as_str());
                    if !already {
                        let o = make_option(key_s, value_s, documentation);
                        options.push(o);
                        proof {
                            assert(options@.map_values(|o: ConfigOption| o@) =~= parse_step(
                                cur,
                                lv,
                            ).opts);
                        }
                    } else if doc_nonempty {
                        options = options_remove_key(&options, key_s.as_str());
                        let o = make_option(key_s, value_s, documentation);
                        options.push(o);
                        proof {
                            assert(options@.map_values(|o: ConfigOption| o@) =~= parse_step(
                                cur,
                                lv,
                            ).opts);
                        }
                    }
                    doc_lines = Vec::new();
                    proof {
                        assert(doc_lines@.map_values(|l: Vec<char>| l@) =~= parse_step(
                            cur,
                            lv,
                        ).docs);
                        assert(options@.map_values(|o: ConfigOption| o@) =~= parse_step(
                            cur,
                            lv,
                        ).opts);
                    }
                }
            }
        }
        proof {
            assert(ls.take(i + 1) =~= ls.take(i as int) + seq![lv]);
            lemma_parse_lines_concat(ls.take(i as int), seq![lv], init);
            assert(seq![lv].drop_first() =~= Seq::<Seq<char>>::empty());
            assert(parse_lines_from(Seq::<Seq<char>>::empty(), parse_step(cur, lv)) == parse_step(
                cur,
                lv,
            ));
            assert(parse_lines_from(ls.take(i + 1), init) == parse_step(cur, lv));
        }
        i = i + 1;
    }
    proof {
        assert(ls.take(ls.len() as int) =~= ls);
    }
    Ok(ConfigSchema { options })
}

} // verus!
