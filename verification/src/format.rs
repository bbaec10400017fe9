//! The file format of the store.
//!
//! A file is the records one after another. A record is the key, the
//! separator `|>!<|`, the value, and the terminator `|<!>|` with a newline
//! behind it. Nothing is escaped: a key or a value that holds one of these
//! two sentinels, or forms one together with the separator, is written as it
//! is, and the file is then not read back as it was written.

use crate::text::{chars_of, find, find_from, find_in, lemma_find_from, lemma_find_skip};
use vstd::prelude::*;
use vstd::slice::slice_subrange;

verus! {

/// The separator between key and value, as it is written in the file.
pub const KV_SPLIT: &'static str = "|>!<|";

/// The end of a record, as it is written in the file.
pub const LINE_TERM: &'static str = "|<!>|\n";

/// The characters of `KV_SPLIT`.
pub open spec fn kv_sep() -> Seq<char> {
    seq!['|', '>', '!', '<', '|']
}

/// The characters of `LINE_TERM`.
pub open spec fn line_term() -> Seq<char> {
    seq!['|', '<', '!', '>', '|', '\n']
}

/// The two constants hold the characters that the format is stated over.
pub proof fn lemma_sentinels()
    ensures
        KV_SPLIT@ == kv_sep(),
        LINE_TERM@ == line_term(),
{
    reveal_strlit("|>!<|");
    reveal_strlit("|<!>|\n");
    assert(KV_SPLIT@ =~= kv_sep());
    assert(LINE_TERM@ =~= line_term());
}

/// One record as it stands in the file.
pub open spec fn encode_record(key: Seq<char>, value: Seq<char>) -> Seq<char> {
    key + kv_sep() + value + line_term()
}

/// The file that holds `entries`, in their order.
pub open spec fn encode_all(entries: Seq<(Seq<char>, Seq<char>)>) -> Seq<char>
    decreases entries.len(),
{
    if entries.len() == 0 {
        Seq::empty()
    } else {
        encode_record(entries[0].0, entries[0].1) + encode_all(entries.drop_first())
    }
}

/// Key and value of a line (a record without its terminator): what stands
/// before and behind the separator, where the line holds it exactly once.
pub open spec fn split_fields(line: Seq<char>) -> Option<(Seq<char>, Seq<char>)> {
    match find(line, kv_sep()) {
        Some(i) => if find_from(line, kv_sep(), i + 1) is None {
            Some((line.take(i), line.skip(i + kv_sep().len())))
        } else {
            None
        },
        None => None,
    }
}

/// The records of a file, in its order, or the first line that is none: one
/// that holds the separator not at all or more than once (given with its
/// terminator), or what is left behind the last terminator.
pub open spec fn parse(content: Seq<char>) -> Result<Seq<(Seq<char>, Seq<char>)>, Seq<char>>
    decreases content.len(),
{
    if content.len() == 0 {
        Ok(Seq::empty())
    } else {
        match find(content, line_term()) {
            None => Err(content),
            Some(i) => {
                let end = i + line_term().len();
                proof {
                    lemma_find_from(content, line_term(), 0);
                }
                match split_fields(content.take(i)) {
                    None => Err(content.take(end)),
                    Some(fields) => match parse(content.skip(end)) {
                        Ok(rest) => Ok(seq![fields] + rest),
                        Err(line) => Err(line),
                    },
                }
            },
        }
    }
}

/// `parsed` with the records `done` before it, or its bad line.
pub open spec fn prepend(
    done: Seq<(Seq<char>, Seq<char>)>,
    parsed: Result<Seq<(Seq<char>, Seq<char>)>, Seq<char>>,
) -> Result<Seq<(Seq<char>, Seq<char>)>, Seq<char>> {
    match parsed {
        Ok(rest) => Ok(done + rest),
        Err(line) => Err(line),
    }
}

/// The views of a list of pairs of strings.
pub open spec fn pairs_view(pairs: Seq<(String, String)>) -> Seq<(Seq<char>, Seq<char>)> {
    Seq::new(pairs.len(), |i: int| (pairs[i].0@, pairs[i].1@))
}

/// Writing out one more record adds its text at the end of the file.
pub proof fn lemma_encode_all_push(entries: Seq<(Seq<char>, Seq<char>)>, key: Seq<char>, value: Seq<char>)
    ensures
        encode_all(entries.push((key, value))) == encode_all(entries) + encode_record(key, value),
    decreases entries.len(),
{
    let longer = entries.push((key, value));
    if entries.len() == 0 {
        assert(longer.drop_first() =~= entries);
        assert(encode_all(longer) =~= encode_all(entries) + encode_record(key, value));
    } else {
        assert(longer.drop_first() =~= entries.drop_first().push((key, value)));
        lemma_encode_all_push(entries.drop_first(), key, value);
        assert(encode_all(longer) =~= encode_all(entries) + encode_record(key, value));
    }
}

/// Where the separator stands in `line`, if it holds it exactly once.
fn separator_index(line: &[char], sep: &[char]) -> (r: Option<usize>)
    requires
        sep@ == kv_sep(),
    ensures
        match r {
            Some(j) => j + 5 <= line@.len() && split_fields(line@) == Some(
                (line@.take(j as int), line@.skip(j + 5)),
            ),
            None => split_fields(line@) is None,
        },
{
    match find_in(line, sep, 0) {
        None => None,
        Some(j) => {
            proof {
                lemma_find_from(line@, kv_sep(), 0);
            }
            assert(j + 5 <= line.len());
            match find_in(line, sep, j + 1) {
                None => Some(j),
                Some(_) => None,
            }
        },
    }
}

/// Reads a file: its records in the file's order, or the first line that is
/// no record.
pub fn decode(content: &str) -> (r: Result<Vec<(String, String)>, String>)
    ensures
        match r {
            Ok(pairs) => parse(content@) == Ok::<_, Seq<char>>(pairs_view(pairs@)),
            Err(line) => parse(content@) == Err::<Seq<(Seq<char>, Seq<char>)>, _>(line@),
        },
{
    proof {
        lemma_sentinels();
    }
    let chars = chars_of(content);
    let sep = chars_of(KV_SPLIT);
    let term = chars_of(LINE_TERM);
    let n = chars.len();
    let mut pairs: Vec<(String, String)> = Vec::new();
    let mut pos: usize = 0;
    assert(content@.skip(0) =~= content@);
    assert(pairs_view(pairs@) + parse(content@)->Ok_0 =~= parse(content@)->Ok_0);
    while pos < n
        invariant
            pos <= n == chars.len(),
            chars@ == content@,
            sep@ == kv_sep(),
            term@ == line_term(),
            parse(content@) == prepend(pairs_view(pairs@), parse(content@.skip(pos as int))),
        decreases n - pos,
    {
        let ghost rest = content@.skip(pos as int);
        proof {
            lemma_find_skip(content@, line_term(), pos as int);
            lemma_find_from(content@, line_term(), pos as int);
        }
        match find_in(chars.as_slice(), term.as_slice(), pos) {
            None => {
                let tail = content.substring_char(pos, n);
                assert(tail@ =~= rest);
                return Err(tail.to_owned());
            },
            Some(i) => {
                let end = i + 6;
                let line = slice_subrange(chars.as_slice(), pos, i);
                assert(line@ =~= rest.take(i - pos));
                match separator_index(line, sep.as_slice()) {
                    None => {
                        let bad = content.substring_char(pos, end);
                        assert(bad@ =~= rest.take(end - pos));
                        return Err(bad.to_owned());
                    },
                    Some(j) => {
                        let key = content.substring_char(pos, pos + j);
                        let value = content.substring_char(pos + j + 5, i);
                        assert(key@ =~= line@.take(j as int));
                        assert(value@ =~= line@.skip(j + 5));
                        let ghost done = pairs_view(pairs@);
                        pairs.push((key.to_owned(), value.to_owned()));
                        proof {
                            let fields = (key@, value@);
                            assert(pairs_view(pairs@) =~= done.push(fields));
                            assert(rest.skip(end - pos) =~= content@.skip(end as int));
                            match parse(content@.skip(end as int)) {
                                Ok(more) => assert(done + (seq![fields] + more) =~= done.push(
                                    fields,
                                ) + more),
                                Err(_) => {},
                            }
                        }
                        pos = end;
                    },
                }
            },
        }
    }
    proof {
        assert(pairs_view(pairs@) + Seq::<(Seq<char>, Seq<char>)>::empty() =~= pairs_view(pairs@));
    }
    Ok(pairs)
}

/// Writes records out as a file, in their order.
pub fn encode(pairs: &Vec<(String, String)>) -> (r: String)
    ensures
        r@ == encode_all(pairs_view(pairs@)),
{
    proof {
        lemma_sentinels();
    }
    let mut out = String::new();
    let mut i: usize = 0;
    assert(pairs_view(pairs@).take(0) =~= Seq::<(Seq<char>, Seq<char>)>::empty());
    while i < pairs.len()
        invariant
            i <= pairs.len(),
            KV_SPLIT@ == kv_sep(),
            LINE_TERM@ == line_term(),
            out@ == encode_all(pairs_view(pairs@).take(i as int)),
        decreases pairs.len() - i,
    {
        let ghost before = out@;
        out.append(pairs[i].0.as_str());
        out.append(KV_SPLIT);
        out.append(pairs[i].1.as_str());
        out.append(LINE_TERM);
        proof {
            let entries = pairs_view(pairs@);
            assert(entries.take(i + 1) =~= entries.take(i as int).push(entries[i as int]));
            lemma_encode_all_push(entries.take(i as int), entries[i as int].0, entries[i as int].1);
            assert(out@ =~= before + encode_record(entries[i as int].0, entries[i as int].1));
        }
        i += 1;
    }
    assert(pairs_view(pairs@).take(pairs.len() as int) =~= pairs_view(pairs@));
    out
}

} // verus!
