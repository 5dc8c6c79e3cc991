//! The textual form of a user config: parsing file text into a document
//! and serializing a document back to file text. Comments and blank lines
//! are reproduced byte-for-byte; key-value lines are normalized to
//! `key = value` on re-write.

use vstd::prelude::*;

use crate::chars::{
    chars_of, is_space_char, lemma_find_at, lemma_find_bounds, push_char, spec_find, spec_lines,
    copy_range, spec_trim, spec_trim_end, split_lines, string_of, strip_cr, trim_chars,
};
use crate::model::{ConfigEntry, EntryModel, UserConfig};
use vstd::string::StringExecFns;

verus! {

/// The entry that one line of config text denotes: a blank line where
/// only whitespace remains, a comment where the line starts with `#`, a
/// key-value pair at the first `=` with both sides trimmed, and an
/// opaque comment-like entry for anything else, so that no well-formed
/// text is ever rejected.
pub open spec fn classify_line(l: Seq<char>) -> EntryModel {
    if spec_trim(l).len() == 0 {
        EntryModel::Blank
    } else if l.len() > 0 && l[0] == '#' {
        EntryModel::Comment(l)
    } else if l.contains('=') {
        let e = spec_find(l, '=');
        EntryModel::KeyValue(spec_trim(l.take(e as int)), spec_trim(l.skip(e + 1 as int)))
    } else {
        EntryModel::Comment(l)
    }
}

/// The document that a config file's text denotes, line by line.
pub open spec fn spec_parse_doc(text: Seq<char>) -> Seq<EntryModel> {
    spec_lines(text).map_values(|l: Seq<char>| classify_line(l))
}

/// The text that one entry serializes to, terminating newline included.
pub open spec fn entry_text(e: EntryModel) -> Seq<char> {
    match e {
        EntryModel::Comment(t) => t.push('\n'),
        EntryModel::Blank => seq!['\n'],
        EntryModel::KeyValue(k, v) => k + seq![' ', '=', ' '] + v + seq!['\n'],
    }
}

/// The text that a document serializes to.
pub open spec fn spec_serialize(s: Seq<EntryModel>) -> Seq<char>
    decreases s.len(),
{
    if s.len() == 0 {
        Seq::empty()
    } else {
        spec_serialize(s.drop_last()) + entry_text(s.last())
    }
}

proof fn lemma_serialize_concat(a: Seq<EntryModel>, b: Seq<EntryModel>)
    ensures
        spec_serialize(a + b) == spec_serialize(a) + spec_serialize(b),
    decreases b.len(),
{
    if b.len() == 0 {
        assert(a + b =~= a);
        assert(spec_serialize(a) + Seq::<char>::empty() =~= spec_serialize(a));
    } else {
        assert((a + b).drop_last() =~= a + b.drop_last());
        assert((a + b).last() == b.last());
        lemma_serialize_concat(a, b.drop_last());
        assert(spec_serialize(a) + spec_serialize(b.drop_last()) + entry_text(b.last())
            =~= spec_serialize(a) + (spec_serialize(b.drop_last()) + entry_text(b.last())));
    }
}

proof fn lemma_serialize_singleton(e: EntryModel)
    ensures
        spec_serialize(seq![e]) == entry_text(e),
{
    assert(spec_serialize(Seq::<EntryModel>::empty()) =~= Seq::<char>::empty());
    assert(seq![e].drop_last() =~= Seq::<EntryModel>::empty());
    assert(seq![e].last() == e);
    assert(Seq::<char>::empty() + entry_text(e) =~= entry_text(e));
}

proof fn lemma_trim_end_keeps_head(s: Seq<char>)
    requires
        s.len() > 0,
        !is_space_char(s[0]),
    ensures
        spec_trim_end(s).len() > 0,
    decreases s.len(),
{
    if is_space_char(s.last()) {
        lemma_trim_end_keeps_head(s.drop_last());
    }
}

proof fn lemma_trim_keeps_head(s: Seq<char>)
    requires
        s.len() > 0,
        !is_space_char(s[0]),
    ensures
        spec_trim(s).len() > 0,
{
    lemma_trim_end_keeps_head(s);
}

/// One serialized line followed by more text splits back into that line
/// and the lines of the rest.
proof fn lemma_lines_step(t: Seq<char>, rest: Seq<char>)
    requires
        !t.contains('\n'),
        t.len() > 0 ==> t.last() != '\r',
    ensures
        spec_lines(t + seq!['\n'] + rest) == seq![t] + spec_lines(rest),
{
    let s = t + seq!['\n'] + rest;
    assert forall|j: int| 0 <= j < t.len() implies s[j] != '\n' by {
        assert(s[j] == t[j]);
        if t[j] == '\n' {
            assert(t.contains('\n'));
        }
    }
    assert(s[t.len() as int] == '\n');
    lemma_find_at(s, '\n', t.len() as int);
    assert(s.take(t.len() as int) =~= t);
    assert(s.skip(t.len() + 1 as int) =~= rest);
    assert(spec_lines(s) == seq![strip_cr(t)] + spec_lines(rest));
}

/// A comment line that re-parses as the same comment: it holds no line
/// break, and either begins with the comment marker or is a non-blank
/// line with no key-value delimiter.
pub open spec fn comment_roundtrips(t: Seq<char>) -> bool {
    &&& !t.contains('\n')
    &&& !t.contains('\r')
    &&& if t.len() > 0 && t[0] == '#' {
        true
    } else {
        spec_trim(t).len() > 0 && !t.contains('=')
    }
}

/// An entry of the kind that survives a write-then-read round trip
/// unchanged: a blank line, or a comment whose text re-parses as the
/// same comment.
pub open spec fn entry_roundtrips(e: EntryModel) -> bool {
    match e {
        EntryModel::Comment(t) => comment_roundtrips(t),
        EntryModel::Blank => true,
        EntryModel::KeyValue(_, _) => false,
    }
}

proof fn lemma_classify_comment(t: Seq<char>)
    requires
        comment_roundtrips(t),
    ensures
        classify_line(t) == EntryModel::Comment(t),
{
    if t.len() > 0 && t[0] == '#' {
        assert(!is_space_char(t[0]));
        lemma_trim_keeps_head(t);
    } else {
        assert(spec_trim(t).len() > 0);
        assert(t.len() > 0) by {
            if t.len() == 0 {
                assert(spec_trim(t) == t);
            }
        }
    }
}

/// Round-trip law: a document holding only blank lines and well-formed
/// comments comes back from its own serialized text with the identical
/// entry sequence. (A comment whose text holds a line break, re-parses
/// as blank, or holds a `=` — say, `Comment("a=b")` — does not survive,
/// and key-value lines are re-written in normalized form; those are left
/// out here.)
pub proof fn lemma_write_read_round_trip(s: Seq<EntryModel>)
    requires
        forall|i: int| 0 <= i < s.len() ==> entry_roundtrips(#[trigger] s[i]),
    ensures
        spec_parse_doc(spec_serialize(s)) == s,
    decreases s.len(),
{
    if s.len() == 0 {
        assert(spec_parse_doc(spec_serialize(s)) =~= s);
    } else {
        let e0 = s[0];
        let tail = s.drop_first();
        assert(seq![e0] + tail =~= s);
        lemma_serialize_concat(seq![e0], tail);
        let t: Seq<char> = match e0 {
            EntryModel::Comment(tt) => tt,
            _ => Seq::empty(),
        };
        lemma_serialize_singleton(e0);
        assert(entry_text(e0) =~= t + seq!['\n']);
        assert(t + seq!['\n'] + spec_serialize(tail) =~= spec_serialize(s));
        if t.len() > 0 {
            assert(!t.contains('\n') && t.last() != '\r') by {
                assert(entry_roundtrips(s[0]));
                if t.last() == '\r' {
                    assert(t.contains('\r'));
                }
            }
        } else {
            assert(!t.contains('\n'));
        }
        lemma_lines_step(t, spec_serialize(tail));
        assert(classify_line(t) == e0) by {
            match e0 {
                EntryModel::Comment(_) => {
                    lemma_classify_comment(t);
                },
                EntryModel::Blank => {
                    assert(spec_trim(t) == t);
                },
                EntryModel::KeyValue(_, _) => {
                    assert(false);
                },
            }
        }
        assert(forall|i: int| 0 <= i < tail.len() ==> tail[i] == s[i + 1]);
        lemma_write_read_round_trip(tail);
        assert(spec_parse_doc(spec_serialize(s)) =~= s) by {
            assert(spec_lines(spec_serialize(s)) == seq![t] + spec_lines(spec_serialize(tail)));
        }
    }
}

/// A line of config text that serializes back to itself: empty, a
/// comment, or non-blank with no key-value delimiter.
pub open spec fn line_roundtrips(l: Seq<char>) -> bool {
    l.len() == 0 || l[0] == '#' || (spec_trim(l).len() > 0 && !l.contains('='))
}

/// Round-trip law: config text whose lines hold no key-value pairs and
/// no carriage returns, each line either empty or a comment, ending in a
/// newline where non-empty, is reproduced byte-for-byte by a
/// read-then-write round trip. (A whitespace-only non-empty line comes
/// back as an empty one, and a key-value line comes back normalized;
/// those are left out here.)
pub proof fn lemma_read_write_round_trip(text: Seq<char>)
    requires
        !text.contains('\r'),
        text.len() > 0 ==> text.last() == '\n',
        forall|i: int| 0 <= i < spec_lines(text).len() ==> line_roundtrips(
            #[trigger] spec_lines(text)[i],
        ),
    ensures
        spec_serialize(spec_parse_doc(text)) == text,
    decreases text.len(),
{
    if text.len() == 0 {
        assert(spec_serialize(spec_parse_doc(text)) =~= text);
    } else {
        lemma_find_bounds(text, '\n');
        let i = spec_find(text, '\n');
        assert(i < text.len()) by {
            if i >= text.len() {
                assert(text[text.len() - 1] != '\n');
            }
        }
        let t = text.take(i as int);
        let rest = text.skip(i + 1 as int);
        assert(text =~= t + seq!['\n'] + rest);
        assert forall|j: int| 0 <= j < t.len() implies !(t[j] == '\n') && !(t[j] == '\r') by {
            assert(t[j] == text[j]);
            if text[j] == '\r' {
                assert(text.contains('\r'));
            }
        }
        assert(!t.contains('\n')) by {
            if t.contains('\n') {
                let j = choose|j: int| 0 <= j < t.len() && t[j] == '\n';
            }
        }
        assert(t.len() > 0 ==> t.last() != '\r');
        lemma_lines_step(t, rest);
        assert(spec_lines(text) == seq![t] + spec_lines(rest));
        assert(!rest.contains('\r')) by {
            if rest.contains('\r') {
                let j = choose|j: int| 0 <= j < rest.len() && rest[j] == '\r';
                assert(text[i + 1 + j] == rest[j]);
                assert(text.contains('\r'));
            }
        }
        assert(rest.len() > 0 ==> rest.last() == '\n') by {
            if rest.len() > 0 {
                assert(rest.last() == text.last());
            }
        }
        assert forall|m: int| 0 <= m < spec_lines(rest).len() implies line_roundtrips(
            #[trigger] spec_lines(rest)[m],
        ) by {
            assert(spec_lines(rest)[m] == spec_lines(text)[m + 1]);
        }
        lemma_read_write_round_trip(rest);
        assert(line_roundtrips(spec_lines(text)[0]));
        assert(spec_lines(text)[0] == t);
        let e0 = classify_line(t);
        assert(entry_text(e0) == t + seq!['\n']) by {
            if t.len() == 0 {
                assert(spec_trim(t) == t);
                assert(entry_text(EntryModel::Blank) =~= t + seq!['\n']);
            } else if t[0] == '#' {
                assert(!is_space_char(t[0]));
                lemma_trim_keeps_head(t);
                assert(entry_text(EntryModel::Comment(t)) =~= t + seq!['\n']);
            } else {
                assert(entry_text(EntryModel::Comment(t)) =~= t + seq!['\n']);
            }
        }
        let doc = spec_parse_doc(text);
        assert(doc =~= seq![e0] + spec_parse_doc(rest));
        lemma_serialize_concat(seq![e0], spec_parse_doc(rest));
        lemma_serialize_singleton(e0);
        assert(spec_serialize(doc) =~= text);
    }
}

/// The entry that one line of config text denotes.
fn classify_line_exec(line: &[char]) -> (e: ConfigEntry)
    ensures
        e@ == classify_line(line@),
{
    let t = trim_chars(line);
    if t.len() == 0 {
        return ConfigEntry::BlankLine;
    }
    if line.len() > 0 && line[0] == '#' {
        return ConfigEntry::Comment(string_of(line));
    }
    let n: usize = line.len();
    let mut e: usize = 0;
    while e < n && line[e] != '='
        invariant
            e <= n,
            n == line@.len(),
            forall|j: int| 0 <= j < e ==> line@[j] != '=',
        decreases n - e,
    {
        e = e + 1;
    }
    proof {
        lemma_find_at(line@, '=', e as int);
    }
    if e < n {
        proof {
            assert(line@.contains('=')) by {
                assert(line@[e as int] == '=');
            }
        }
        let key = trim_chars(copy_range(line, 0, e).as_slice());
        let value = trim_chars(copy_range(line, e + 1, n).as_slice());
        proof {
            assert(line@.subrange(0, e as int) =~= line@.take(e as int));
            assert(line@.subrange(e + 1, n as int) =~= line@.skip(e + 1));
        }
        ConfigEntry::KeyValue {
            key: string_of(key.as_slice()),
            value: string_of(value.as_slice()),
        }
    } else {
        proof {
            assert(!line@.contains('=')) by {
                if line@.contains('=') {
                    let j = choose|j: int| 0 <= j < line@.len() && line@[j] == '=';
                }
            }
        }
        ConfigEntry::Comment(string_of(line))
    }
}

/// Parses config file text into a document backed by `file_path`. Never
/// fails: every line becomes an entry.
pub fn parse_config_text(file_path: String, text: &str) -> (r: UserConfig)
    ensures
        r@ == spec_parse_doc(text@),
        r.file_path == file_path,
{
    let cs = chars_of(text);
    let lines = split_lines(cs.as_slice());
    let ghost ls = spec_lines(text@);
    let mut entries: Vec<ConfigEntry> = Vec::new();
    let mut i: usize = 0;
    while i < lines.len()
        invariant
            i <= lines@.len(),
            lines@.map_values(|l: Vec<char>| l@) == ls,
            ls == spec_lines(text@),
            entries@.map_values(|e: ConfigEntry| e@) == ls.take(i as int).map_values(
                |l: Seq<char>| classify_line(l),
            ),
        decreases lines@.len() - i,
    {
        let ghost prev = entries@;
        let e = classify_line_exec(lines[i].as_slice());
        let ghost em = e@;
        entries.push(e);
        proof {
            assert(lines@[i as int]@ == ls[i as int]);
            assert(em == classify_line(ls[i as int]));
            assert(entries@ == prev.push(e));
            assert(entries@.map_values(|x: ConfigEntry| x@) =~= prev.map_values(
                |x: ConfigEntry| x@,
            ).push(em));
            assert(ls.take(i + 1).map_values(|l: Seq<char>| classify_line(l)) =~= ls.take(
                i as int,
            ).map_values(|l: Seq<char>| classify_line(l)).push(classify_line(ls[i as int])));
        }
        i = i + 1;
    }
    proof {
        assert(ls.take(ls.len() as int) =~= ls);
    }
    let r = UserConfig { entries, file_path };
    proof {
        assert(r@ =~= spec_parse_doc(text@));
    }
    r
}

/// Serializes the document in order: comments and blank lines
/// byte-for-byte, key-value lines as `key = value`, each line ending in
/// a newline.
pub fn serialize_config(config: &UserConfig) -> (r: String)
    ensures
        r@ == spec_serialize(config@),
{
    let mut out = String::new();
    let mut i: usize = 0;
    proof {
        assert(config@.take(0) =~= Seq::<EntryModel>::empty());
    }
    while i < config.entries.len()
        invariant
            i <= config.entries@.len(),
            config@.len() == config.entries@.len(),
            out@ == spec_serialize(config@.take(i as int)),
        decreases config.entries@.len() - i,
    {
        proof {
            assert(config@[i as int] == config.entries@[i as int]@);
            assert(config@.take(i + 1).last() == config@[i as int]);
            assert(config@.take(i + 1).drop_last() =~= config@.take(i as int));
        }
        match &config.entries[i] {
            ConfigEntry::Comment(text) => {
                out.append(text.as_str());
                push_char(&mut out, '\n');
            },
            ConfigEntry::BlankLine => {
                push_char(&mut out, '\n');
            },
            ConfigEntry::KeyValue { key, value } => {
                out.append(key.as_str());
                proof {
                    reveal_strlit(" = ");
                    assert(" = "@ =~= seq![' ', '=', ' ']);
                }
                out.append(" = ");
                out.append(value.as_str());
                push_char(&mut out, '\n');
            },
        }
        i = i + 1;
        proof {
            assert(out@ =~= spec_serialize(config@.take(i as int)));
        }
    }
    proof {
        assert(config@.take(config@.len() as int) =~= config@);
    }
    out
}

} // verus!
