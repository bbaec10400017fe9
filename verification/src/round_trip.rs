//! Reading back what was written: which records come out of the file as they
//! went in, and what a line that is no record does to the file.

use crate::format::{encode_all, kv_sep, line_term, parse, prepend, split_fields};
use crate::text::{
    ends_with, find, lemma_find_from, lemma_find_from_leftmost, lemma_occurrence_chars,
    lemma_occurs_at_middle, lemma_occurs_at_take, occurs_at, occurs_in, starts_with,
};
use vstd::prelude::*;

verus! {

/// Neither the key nor the value holds a sentinel, and none comes about
/// where they meet the separator: the key does not end with `|>!<`, and the
/// value begins neither with `>!<|` nor with `<!>|` and a newline.
pub open spec fn free_of_sentinels(key: Seq<char>, value: Seq<char>) -> bool {
    &&& !occurs_in(key, kv_sep())
    &&& !occurs_in(key, line_term())
    &&& !occurs_in(value, kv_sep())
    &&& !occurs_in(value, line_term())
    &&& !ends_with(key, kv_sep().drop_last())
    &&& !starts_with(value, kv_sep().drop_first())
    &&& !starts_with(value, line_term().drop_first())
}

/// Every record of `entries` is free of sentinels.
pub open spec fn all_free_of_sentinels(entries: Seq<(Seq<char>, Seq<char>)>) -> bool {
    forall|i: int|
        0 <= i < entries.len() ==> free_of_sentinels(#[trigger] entries[i].0, entries[i].1)
}

/// Written out, the line of the record holds no terminator, and the
/// separator only where the key ends.
spec fn well_delimited(key: Seq<char>, value: Seq<char>) -> bool {
    let line = key + kv_sep() + value;
    &&& !occurs_in(line, line_term())
    &&& forall|i: int| occurs_at(line, kv_sep(), i) ==> i == key.len()
}

/// Every record of `entries` is well delimited.
spec fn all_well_delimited(entries: Seq<(Seq<char>, Seq<char>)>) -> bool {
    forall|i: int|
        0 <= i < entries.len() ==> well_delimited(#[trigger] entries[i].0, entries[i].1)
}

/// The characters of the separator.
proof fn lemma_separator_chars()
    ensures
        kv_sep().len() == 5,
        kv_sep()[0] == '|',
        kv_sep()[1] == '>',
        kv_sep()[2] == '!',
        kv_sep()[3] == '<',
        kv_sep()[4] == '|',
{
}

/// The characters of the terminator.
proof fn lemma_terminator_chars()
    ensures
        line_term().len() == 6,
        line_term()[0] == '|',
        line_term()[1] == '<',
        line_term()[2] == '!',
        line_term()[3] == '>',
        line_term()[4] == '|',
        line_term()[5] == '\n',
{
}

/// A well-delimited record holds no sentinel in its key or value.
proof fn lemma_well_delimited_parts(key: Seq<char>, value: Seq<char>)
    requires
        well_delimited(key, value),
    ensures
        !occurs_in(key, kv_sep()),
        !occurs_in(key, line_term()),
        !occurs_in(value, kv_sep()),
        !occurs_in(value, line_term()),
{
    let line = key + kv_sep() + value;
    let none = Seq::<char>::empty();
    assert(none + key + (kv_sep() + value) =~= line);
    assert(forall|i: int| occurs_at(line, line_term(), i) ==> occurs_in(line, line_term()));
    assert forall|i: int| !occurs_at(key, kv_sep(), i) by {
        if occurs_at(key, kv_sep(), i) {
            lemma_occurs_at_middle(none, key, kv_sep() + value, kv_sep(), i);
        }
    }
    assert forall|i: int| !occurs_at(key, line_term(), i) by {
        if occurs_at(key, line_term(), i) {
            lemma_occurs_at_middle(none, key, kv_sep() + value, line_term(), i);
        }
    }
    assert((key + kv_sep()) + value + none =~= line);
    assert forall|i: int| !occurs_at(value, kv_sep(), i) by {
        if occurs_at(value, kv_sep(), i) {
            lemma_occurs_at_middle(key + kv_sep(), value, none, kv_sep(), i);
        }
    }
    assert forall|i: int| !occurs_at(value, line_term(), i) by {
        if occurs_at(value, line_term(), i) {
            lemma_occurs_at_middle(key + kv_sep(), value, none, line_term(), i);
        }
    }
}

/// In a well-delimited record no sentinel comes about where key and value
/// meet the separator.
proof fn lemma_well_delimited_joints(key: Seq<char>, value: Seq<char>)
    requires
        well_delimited(key, value),
    ensures
        !ends_with(key, kv_sep().drop_last()),
        !starts_with(value, kv_sep().drop_first()),
        !starts_with(value, line_term().drop_first()),
{
    let line = key + kv_sep() + value;
    let k = key.len() as int;
    lemma_separator_chars();
    lemma_terminator_chars();
    if ends_with(key, kv_sep().drop_last()) {
        lemma_occurrence_chars(key, kv_sep().drop_last(), k - 4);
        assert forall|j: int| 0 <= j < 5 implies line[k - 4 + j] == kv_sep()[j] by {
            if j < 4 {
                assert(kv_sep().drop_last()[j] == kv_sep()[j]);
            }
        }
        assert(line.subrange(k - 4, k + 1) =~= kv_sep());
        assert(occurs_at(line, kv_sep(), k - 4));
    }
    if starts_with(value, kv_sep().drop_first()) {
        lemma_occurrence_chars(value, kv_sep().drop_first(), 0);
        assert forall|j: int| 0 <= j < 5 implies line[k + 4 + j] == kv_sep()[j] by {
            if j > 0 {
                assert(kv_sep().drop_first()[j - 1] == kv_sep()[j]);
                assert(line[k + 4 + j] == value[j - 1]);
            }
        }
        assert(line.subrange(k + 4, k + 9) =~= kv_sep());
        assert(occurs_at(line, kv_sep(), k + 4));
    }
    if starts_with(value, line_term().drop_first()) {
        lemma_occurrence_chars(value, line_term().drop_first(), 0);
        assert forall|j: int| 0 <= j < 6 implies line[k + 4 + j] == line_term()[j] by {
            if j > 0 {
                assert(line_term().drop_first()[j - 1] == line_term()[j]);
                assert(line[k + 4 + j] == value[j - 1]);
            }
        }
        assert(line.subrange(k + 4, k + 10) =~= line_term());
        assert(occurs_at(line, line_term(), k + 4));
    }
}

/// The characters at an occurrence of the separator.
proof fn lemma_separator_at(text: Seq<char>, i: int)
    requires
        occurs_at(text, kv_sep(), i),
    ensures
        i + 5 <= text.len(),
        text[i] == '|',
        text[i + 1] == '>',
        text[i + 2] == '!',
        text[i + 3] == '<',
        text[i + 4] == '|',
{
    let found = text.subrange(i, i + 5);
    assert(found[0] == text[i]);
    assert(found[1] == text[i + 1]);
    assert(found[2] == text[i + 2]);
    assert(found[3] == text[i + 3]);
    assert(found[4] == text[i + 4]);
}

/// The characters at an occurrence of the terminator.
proof fn lemma_terminator_at(text: Seq<char>, i: int)
    requires
        occurs_at(text, line_term(), i),
    ensures
        i + 6 <= text.len(),
        text[i] == '|',
        text[i + 1] == '<',
        text[i + 2] == '!',
        text[i + 3] == '>',
        text[i + 4] == '|',
        text[i + 5] == '\n',
{
    let found = text.subrange(i, i + 6);
    assert(found[0] == text[i]);
    assert(found[1] == text[i + 1]);
    assert(found[2] == text[i + 2]);
    assert(found[3] == text[i + 3]);
    assert(found[4] == text[i + 4]);
    assert(found[5] == text[i + 5]);
}

/// A separator that begins in the key and ends in the record's separator
/// shares its last bar with the first bar of that one.
proof fn lemma_separator_across_key(key: Seq<char>, value: Seq<char>, i: int)
    requires
        occurs_at(key + kv_sep() + value, kv_sep(), i),
        i < key.len() < i + 5,
    ensures
        ends_with(key, kv_sep().drop_last()),
{
    let front = key + kv_sep();
    let line = front + value;
    let k = key.len() as int;
    lemma_separator_chars();
    lemma_separator_at(line, i);
    assert(front.len() == k + 5);
    assert(line[k] == front[k]);
    assert(front[k] == kv_sep()[0]);
    assert(i == k - 4);
    let head = kv_sep().drop_last();
    assert(head.len() == 4);
    assert(head[0] == '|' && head[1] == '>' && head[2] == '!' && head[3] == '<');
    assert(key[k - 4] == line[i]);
    assert(key[k - 3] == line[i + 1]);
    assert(key[k - 2] == line[i + 2]);
    assert(key[k - 1] == line[i + 3]);
    assert(key.subrange(k - 4, k) =~= head);
}

/// A separator that begins in the record's separator and ends in the value
/// shares its first bar with the last bar of that one.
proof fn lemma_separator_across_value(key: Seq<char>, value: Seq<char>, i: int)
    requires
        occurs_at(key + kv_sep() + value, kv_sep(), i),
        key.len() < i < key.len() + 5,
    ensures
        starts_with(value, kv_sep().drop_first()),
{
    let front = key + kv_sep();
    let line = front + value;
    let k = key.len() as int;
    lemma_separator_chars();
    lemma_separator_at(line, i);
    assert(front.len() == k + 5);
    assert(line[i] == front[i]);
    assert(front[i] == kv_sep()[i - k]);
    assert(i == k + 4);
    let tail = kv_sep().drop_first();
    assert(tail.len() == 4);
    assert(tail[0] == '>' && tail[1] == '!' && tail[2] == '<' && tail[3] == '|');
    assert(value.len() >= 4);
    assert(value[0] == line[i + 1]);
    assert(value[1] == line[i + 2]);
    assert(value[2] == line[i + 3]);
    assert(value[3] == line[i + 4]);
    assert(value.subrange(0, 4) =~= tail);
}

/// The line of a record that is free of sentinels holds the separator only
/// where the key ends.
proof fn lemma_separator_once(key: Seq<char>, value: Seq<char>, i: int)
    requires
        free_of_sentinels(key, value),
        occurs_at(key + kv_sep() + value, kv_sep(), i),
    ensures
        i == key.len(),
{
    let line = key + kv_sep() + value;
    let k = key.len() as int;
    let none = Seq::<char>::empty();
    if i + 5 <= k {
        assert(none + key + (kv_sep() + value) =~= line);
        lemma_occurs_at_middle(none, key, kv_sep() + value, kv_sep(), i);
    } else if i >= k + 5 {
        assert((key + kv_sep()) + value + none =~= line);
        lemma_occurs_at_middle(key + kv_sep(), value, none, kv_sep(), i - k - 5);
    } else if i < k {
        lemma_separator_across_key(key, value, i);
    } else if i > k {
        lemma_separator_across_value(key, value, i);
    }
}

/// The line of a record that is free of sentinels holds no terminator.
proof fn lemma_no_terminator(key: Seq<char>, value: Seq<char>, i: int)
    requires
        free_of_sentinels(key, value),
    ensures
        !occurs_at(key + kv_sep() + value, line_term(), i),
{
    let line = key + kv_sep() + value;
    let k = key.len() as int;
    let none = Seq::<char>::empty();
    if occurs_at(line, line_term(), i) {
        if i + 6 <= k {
            assert(none + key + (kv_sep() + value) =~= line);
            lemma_occurs_at_middle(none, key, kv_sep() + value, line_term(), i);
        } else if i >= k + 5 {
            assert((key + kv_sep()) + value + none =~= line);
            lemma_occurs_at_middle(key + kv_sep(), value, none, line_term(), i - k - 5);
        } else {
            lemma_terminator_at(line, i);
            assert(line.subrange(k, k + 5) =~= kv_sep());
            lemma_separator_at(line, k);
            // Of the terminator only the first bar can stand in the separator,
            // on its last bar.
            assert(i == k + 4);
            assert(value.subrange(0, 5) =~= line_term().drop_first()) by {
                assert(value[0] == line[i + 1]);
                assert(value[1] == line[i + 2]);
                assert(value[2] == line[i + 3]);
                assert(value[3] == line[i + 4]);
                assert(value[4] == line[i + 5]);
            }
            assert(starts_with(value, line_term().drop_first()));
        }
    }
}

/// A record is well delimited exactly if it is free of sentinels.
proof fn lemma_well_delimited(key: Seq<char>, value: Seq<char>)
    ensures
        well_delimited(key, value) <==> free_of_sentinels(key, value),
{
    if well_delimited(key, value) {
        lemma_well_delimited_parts(key, value);
        lemma_well_delimited_joints(key, value);
    }
    if free_of_sentinels(key, value) {
        assert forall|i: int| occurs_at(key + kv_sep() + value, kv_sep(), i) implies i
            == key.len() by {
            lemma_separator_once(key, value, i);
        }
        assert forall|i: int| !occurs_at(key + kv_sep() + value, line_term(), i) by {
            lemma_no_terminator(key, value, i);
        }
    }
}

/// Records are well delimited exactly if they are free of sentinels.
proof fn lemma_all_well_delimited(entries: Seq<(Seq<char>, Seq<char>)>)
    ensures
        all_well_delimited(entries) <==> all_free_of_sentinels(entries),
{
    assert forall|i: int| 0 <= i < entries.len() implies (well_delimited(
        #[trigger] entries[i].0,
        entries[i].1,
    ) <==> free_of_sentinels(entries[i].0, entries[i].1)) by {
        lemma_well_delimited(entries[i].0, entries[i].1);
    }
}

/// The newline stands only at the end of the terminator.
proof fn lemma_newline_ends_terminator(t: int)
    requires
        0 <= t < 5,
    ensures
        line_term().len() == 6,
        line_term()[5] == '\n',
        line_term()[t] != '\n',
{
}

/// Behind a line without a terminator, the first terminator of the file is
/// the line's own: none begins in the line and ends in the terminator.
proof fn lemma_first_terminator(line: Seq<char>, after: Seq<char>)
    requires
        !occurs_in(line, line_term()),
    ensures
        find(line + line_term() + after, line_term()) == Some(line.len() as int),
{
    let term = line_term();
    let content = line + term + after;
    let n = line.len() as int;
    lemma_newline_ends_terminator(0);
    assert(content.subrange(n, n + 6) =~= term);
    assert forall|j: int| 0 <= j < n implies !occurs_at(content, term, j) by {
        if occurs_at(content, term, j) {
            let found = content.subrange(j, j + 6);
            assert(found[5] == content[j + 5]);
            if j + 6 <= n {
                assert(line.subrange(j, j + 6) =~= found);
                assert(occurs_at(line, term, j));
            } else {
                lemma_newline_ends_terminator(j + 5 - n);
                assert(content[j + 5] == term[j + 5 - n]);
            }
        }
    }
    lemma_find_from_leftmost(content, term, 0, n);
}

/// The line of a well-delimited record splits into its key and value.
proof fn lemma_split_fields(key: Seq<char>, value: Seq<char>)
    requires
        well_delimited(key, value),
    ensures
        split_fields(key + kv_sep() + value) == Some((key, value)),
{
    let line = key + kv_sep() + value;
    let k = key.len() as int;
    assert(line.subrange(k, k + 5) =~= kv_sep());
    lemma_find_from_leftmost(line, kv_sep(), 0, k);
    lemma_find_from(line, kv_sep(), k + 1);
    assert(line.take(k) =~= key);
    assert(line.skip(k + 5) =~= value);
}

/// A file that begins with well-delimited records parses to these records
/// and then as what follows them does.
proof fn lemma_parse_behind(entries: Seq<(Seq<char>, Seq<char>)>, rest: Seq<char>)
    requires
        all_well_delimited(entries),
    ensures
        parse(encode_all(entries) + rest) == prepend(entries, parse(rest)),
    decreases entries.len(),
{
    if entries.len() == 0 {
        assert(encode_all(entries) + rest =~= rest);
        match parse(rest) {
            Ok(records) => assert(entries + records =~= records),
            Err(_) => {},
        }
    } else {
        let (key, value) = entries[0];
        let line = key + kv_sep() + value;
        let tail = entries.drop_first();
        let after = encode_all(tail) + rest;
        let content = encode_all(entries) + rest;
        let n = line.len() as int;
        assert(well_delimited(entries[0].0, entries[0].1));
        assert(content =~= line + line_term() + after);
        lemma_first_terminator(line, after);
        assert(content.take(n) =~= line);
        assert(content.skip(n + 6) =~= after);
        lemma_split_fields(key, value);
        assert forall|i: int| 0 <= i < tail.len() implies well_delimited(
            #[trigger] tail[i].0,
            tail[i].1,
        ) by {
            assert(tail[i] == entries[i + 1]);
        }
        lemma_parse_behind(tail, rest);
        match parse(rest) {
            Ok(records) => assert(seq![(key, value)] + (tail + records) =~= entries + records),
            Err(_) => {},
        }
    }
}

/// What a file parses to is written out as that file, and each of its
/// records is well delimited.
proof fn lemma_parsed_is_well_delimited(content: Seq<char>)
    ensures
        parse(content) matches Ok(entries) ==> content == encode_all(entries)
            && all_well_delimited(entries),
    decreases content.len(),
{
    if content.len() > 0 && parse(content) is Ok {
        let entries = parse(content)->Ok_0;
        lemma_find_from(content, line_term(), 0);
        let i = find(content, line_term())->0;
        let line = content.take(i);
        let after = content.skip(i + 6);
        lemma_find_from(line, kv_sep(), 0);
        let j = find(line, kv_sep())->0;
        lemma_find_from(line, kv_sep(), j + 1);
        let key = line.take(j);
        let value = line.skip(j + 5);
        assert(line =~= key + kv_sep() + value);
        assert(content =~= line + line_term() + after);
        assert forall|p: int| !occurs_at(line, line_term(), p) by {
            lemma_occurs_at_take(content, line_term(), i, p);
        }
        assert(well_delimited(key, value));
        lemma_parsed_is_well_delimited(after);
        let rest = parse(after)->Ok_0;
        assert(entries.drop_first() =~= rest);
        assert forall|k: int| 0 <= k < entries.len() implies well_delimited(
            #[trigger] entries[k].0,
            entries[k].1,
        ) by {
            if k > 0 {
                assert(entries[k] == rest[k - 1]);
            }
        }
    }
}

/// A file that begins with records free of sentinels parses to these records
/// and then as what follows them does.
pub proof fn lemma_parse_prefix(entries: Seq<(Seq<char>, Seq<char>)>, rest: Seq<char>)
    requires
        all_free_of_sentinels(entries),
    ensures
        parse(encode_all(entries) + rest) == prepend(entries, parse(rest)),
{
    lemma_all_well_delimited(entries);
    lemma_parse_behind(entries, rest);
}

/// Writing records out and reading the file back gives the same records in
/// the same order, if they are free of sentinels.
pub proof fn lemma_round_trip(entries: Seq<(Seq<char>, Seq<char>)>)
    requires
        all_free_of_sentinels(entries),
    ensures
        parse(encode_all(entries)) == Ok::<_, Seq<char>>(entries),
{
    lemma_parse_prefix(entries, Seq::empty());
    assert(encode_all(entries) + Seq::<char>::empty() =~= encode_all(entries));
    assert(entries + Seq::<(Seq<char>, Seq<char>)>::empty() =~= entries);
}

/// What a file parses to is written out as that file, and is free of
/// sentinels.
pub proof fn lemma_parse_sound(content: Seq<char>)
    ensures
        parse(content) matches Ok(entries) ==> content == encode_all(entries)
            && all_free_of_sentinels(entries),
{
    lemma_parsed_is_well_delimited(content);
    if parse(content) is Ok {
        lemma_all_well_delimited(parse(content)->Ok_0);
    }
}

/// A file parses to `entries` exactly if it is `entries` written out and
/// they are free of sentinels.
pub proof fn lemma_parse_is_inverse_of_encode(
    content: Seq<char>,
    entries: Seq<(Seq<char>, Seq<char>)>,
)
    ensures
        parse(content) == Ok::<_, Seq<char>>(entries) <==> content == encode_all(entries)
            && all_free_of_sentinels(entries),
{
    lemma_parse_sound(content);
    if all_free_of_sentinels(entries) {
        lemma_round_trip(entries);
    }
}

/// Records that are not free of sentinels are not read back from the file
/// that they were written to.
pub proof fn lemma_round_trip_fails(entries: Seq<(Seq<char>, Seq<char>)>)
    requires
        !all_free_of_sentinels(entries),
    ensures
        parse(encode_all(entries)) != Ok::<_, Seq<char>>(entries),
{
    lemma_parse_sound(encode_all(entries));
}

/// One line that is no record, such as one without a separator, makes the
/// whole file fail, whatever stands before and behind it: no part of the file
/// is read.
pub proof fn lemma_bad_line_fails(
    before: Seq<(Seq<char>, Seq<char>)>,
    line: Seq<char>,
    after: Seq<char>,
)
    requires
        all_free_of_sentinels(before),
        !occurs_in(line, line_term()),
        split_fields(line) is None,
    ensures
        parse(encode_all(before) + (line + line_term() + after)) == Err::<
            Seq<(Seq<char>, Seq<char>)>,
            _,
        >(line + line_term()),
{
    let rest = line + line_term() + after;
    let n = line.len() as int;
    lemma_parse_prefix(before, rest);
    lemma_first_terminator(line, after);
    assert(rest.take(n) =~= line);
    assert(rest.take(n + 6) =~= line + line_term());
}

/// Text behind the last terminator makes the whole file fail.
pub proof fn lemma_unterminated_tail_fails(before: Seq<(Seq<char>, Seq<char>)>, tail: Seq<char>)
    requires
        all_free_of_sentinels(before),
        tail.len() > 0,
        !occurs_in(tail, line_term()),
    ensures
        parse(encode_all(before) + tail) == Err::<Seq<(Seq<char>, Seq<char>)>, _>(tail),
{
    lemma_parse_prefix(before, tail);
    lemma_find_from(tail, line_term(), 0);
}

} // verus!
