//! Text as a sequence of characters: finding a pattern in it, cutting it at a
//! separator, and joining pieces with one.

use vstd::prelude::*;

verus! {

/// `pat` stands in `text` at index `i`.
pub open spec fn occurs_at(text: Seq<char>, pat: Seq<char>, i: int) -> bool {
    &&& 0 <= i
    &&& i + pat.len() <= text.len()
    &&& text.subrange(i, i + pat.len()) == pat
}

/// `pat` stands somewhere in `text`.
pub open spec fn occurs_in(text: Seq<char>, pat: Seq<char>) -> bool {
    exists|i: int| occurs_at(text, pat, i)
}

/// `text` begins with `prefix`.
pub open spec fn starts_with(text: Seq<char>, prefix: Seq<char>) -> bool {
    occurs_at(text, prefix, 0)
}

/// `text` ends with `suffix`.
pub open spec fn ends_with(text: Seq<char>, suffix: Seq<char>) -> bool {
    occurs_at(text, suffix, text.len() - suffix.len())
}

/// The index of the leftmost occurrence of `pat` in `text` that starts at
/// `start` or later.
pub open spec fn find_from(text: Seq<char>, pat: Seq<char>, start: int) -> Option<int>
    decreases text.len() + 1 - start,
{
    if start < 0 || start + pat.len() > text.len() {
        None
    } else if occurs_at(text, pat, start) {
        Some(start)
    } else {
        find_from(text, pat, start + 1)
    }
}

/// The index of the leftmost occurrence of `pat` in `text`.
pub open spec fn find(text: Seq<char>, pat: Seq<char>) -> Option<int> {
    find_from(text, pat, 0)
}

/// What `find_from` returns is an occurrence with none between `start` and
/// it; where it returns nothing there is none from `start` on.
pub proof fn lemma_find_from(text: Seq<char>, pat: Seq<char>, start: int)
    requires
        0 <= start,
    ensures
        match find_from(text, pat, start) {
            Some(i) => start <= i && occurs_at(text, pat, i) && forall|j: int|
                start <= j < i ==> !occurs_at(text, pat, j),
            None => forall|j: int| start <= j ==> !occurs_at(text, pat, j),
        },
    decreases text.len() + 1 - start,
{
    if start + pat.len() <= text.len() && !occurs_at(text, pat, start) {
        lemma_find_from(text, pat, start + 1);
    }
}

/// The leftmost occurrence at or after `start` is what `find_from` returns.
pub proof fn lemma_find_from_leftmost(text: Seq<char>, pat: Seq<char>, start: int, i: int)
    requires
        0 <= start <= i,
        occurs_at(text, pat, i),
        forall|j: int| start <= j < i ==> !occurs_at(text, pat, j),
    ensures
        find_from(text, pat, start) == Some(i),
    decreases i - start,
{
    if start < i {
        lemma_find_from_leftmost(text, pat, start + 1, i);
    }
}

/// An occurrence in what follows the first `n` characters of `text` is one in
/// `text`, `n` places further on.
pub proof fn lemma_occurs_at_skip(text: Seq<char>, pat: Seq<char>, n: int, i: int)
    requires
        0 <= n <= text.len(),
    ensures
        occurs_at(text.skip(n), pat, i) == (0 <= i && occurs_at(text, pat, n + i)),
{
    if 0 <= i && n + i + pat.len() <= text.len() {
        assert(text.skip(n).subrange(i, i + pat.len()) =~= text.subrange(
            n + i,
            n + i + pat.len(),
        ));
    }
}

/// An occurrence in the first `n` characters of `text` is one in `text` that
/// ends at `n` or before.
pub proof fn lemma_occurs_at_take(text: Seq<char>, pat: Seq<char>, n: int, i: int)
    requires
        0 <= n <= text.len(),
    ensures
        occurs_at(text.take(n), pat, i) == (i + pat.len() <= n && occurs_at(text, pat, i)),
{
    if 0 <= i && i + pat.len() <= n {
        assert(text.take(n).subrange(i, i + pat.len()) =~= text.subrange(i, i + pat.len()));
    }
}

/// Where a pattern fits into the middle one of three pieces, it stands there
/// exactly if it stands at that place in the three put together.
pub proof fn lemma_occurs_at_middle(
    front: Seq<char>,
    text: Seq<char>,
    back: Seq<char>,
    pat: Seq<char>,
    i: int,
)
    requires
        0 <= i,
        i + pat.len() <= text.len(),
    ensures
        occurs_at(text, pat, i) == occurs_at(front + text + back, pat, front.len() + i),
{
    let whole = front + text + back;
    let at = front.len() + i;
    assert(whole.subrange(at, at + pat.len()) =~= text.subrange(i, i + pat.len()));
}

/// The characters of an occurrence are those of the pattern.
pub proof fn lemma_occurrence_chars(text: Seq<char>, pat: Seq<char>, i: int)
    requires
        occurs_at(text, pat, i),
    ensures
        forall|j: int| 0 <= j < pat.len() ==> text[i + j] == #[trigger] pat[j],
{
    assert forall|j: int| 0 <= j < pat.len() implies text[i + j] == #[trigger] pat[j] by {
        assert(text.subrange(i, i + pat.len())[j] == text[i + j]);
    }
}

/// Searching what follows the first `n` characters is searching `text` from
/// `n`, with the index counted from `n`.
pub proof fn lemma_find_skip(text: Seq<char>, pat: Seq<char>, n: int)
    requires
        0 <= n <= text.len(),
    ensures
        find(text.skip(n), pat) == match find_from(text, pat, n) {
            Some(i) => Some(i - n),
            None => None,
        },
{
    lemma_find_from(text, pat, n);
    lemma_find_from(text.skip(n), pat, 0);
    match find_from(text, pat, n) {
        Some(i) => {
            lemma_occurs_at_skip(text, pat, n, i - n);
            assert forall|j: int| 0 <= j < i - n implies !occurs_at(text.skip(n), pat, j) by {
                lemma_occurs_at_skip(text, pat, n, j);
            }
            lemma_find_from_leftmost(text.skip(n), pat, 0, i - n);
        },
        None => {
            match find(text.skip(n), pat) {
                Some(k) => {
                    lemma_occurs_at_skip(text, pat, n, k);
                },
                None => {},
            }
        },
    }
}

/// The characters of a string, in order.
pub fn chars_of(s: &str) -> (chars: Vec<char>)
    ensures
        chars@ == s@,
{
    let mut chars: Vec<char> = Vec::new();
    for c in it: s.chars()
        invariant
            chars@ == it.seq().take(it.index()),
            it.seq() == s@,
    {
        chars.push(c);
    }
    chars
}

/// Whether `pat` stands in `text` at index `i`.
pub fn matches_at(text: &[char], pat: &[char], i: usize) -> (r: bool)
    ensures
        r == occurs_at(text@, pat@, i as int),
{
    if pat.len() > text.len() || i > text.len() - pat.len() {
        return false;
    }
    let mut k: usize = 0;
    while k < pat.len()
        invariant
            k <= pat.len(),
            i + pat.len() <= text.len(),
            forall|j: int| 0 <= j < k ==> text@[i + j] == pat@[j],
        decreases pat.len() - k,
    {
        if text[i + k] != pat[k] {
            assert(text@.subrange(i as int, i + pat.len())[k as int] == text@[i + k]);
            return false;
        }
        k += 1;
    }
    assert(text@.subrange(i as int, i + pat.len()) =~= pat@);
    true
}

/// The index of the leftmost occurrence of `pat` in `text` that starts at
/// `start` or later.
pub fn find_in(text: &[char], pat: &[char], start: usize) -> (r: Option<usize>)
    ensures
        find_from(text@, pat@, start as int) == match r {
            Some(i) => Some(i as int),
            None => None,
        },
{
    if pat.len() > text.len() {
        return None;
    }
    let last: usize = text.len() - pat.len();
    let mut i: usize = start;
    while i <= last
        invariant
            start <= i,
            last == text.len() - pat.len(),
            find_from(text@, pat@, start as int) == find_from(text@, pat@, i as int),
        decreases last + 1 - i,
    {
        if matches_at(text, pat, i) {
            return Some(i);
        }
        if i == last {
            assert(find_from(text@, pat@, i + 1) is None);
            return None;
        }
        i += 1;
    }
    None
}

/// The views of a list of strings.
pub open spec fn texts(strings: Seq<String>) -> Seq<Seq<char>> {
    Seq::new(strings.len(), |i: int| strings[i]@)
}

/// The pieces one after another, with `sep` between each two.
pub open spec fn join(pieces: Seq<Seq<char>>, sep: Seq<char>) -> Seq<char>
    decreases pieces.len(),
{
    if pieces.len() == 0 {
        Seq::empty()
    } else if pieces.len() == 1 {
        pieces[0]
    } else {
        join(pieces.drop_last(), sep) + sep + pieces.last()
    }
}

/// The pieces into which the occurrences of the character `sep` cut `text`:
/// one more than there are occurrences, empty ones among them where `sep`
/// stands at an end or twice in a row.
pub open spec fn split_on(text: Seq<char>, sep: char) -> Seq<Seq<char>>
    decreases text.len(),
{
    match find(text, seq![sep]) {
        None => seq![text],
        Some(i) => {
            proof {
                lemma_find_from(text, seq![sep], 0);
            }
            seq![text.take(i)] + split_on(text.skip(i + 1), sep)
        },
    }
}

/// Joining the pieces of a cut with the character that cut them gives the
/// text back.
pub proof fn lemma_join_split(text: Seq<char>, sep: char)
    ensures
        split_on(text, sep).len() >= 1,
        join(split_on(text, sep), seq![sep]) == text,
    decreases text.len(),
{
    match find(text, seq![sep]) {
        None => {},
        Some(i) => {
            lemma_find_from(text, seq![sep], 0);
            let rest = text.skip(i + 1);
            lemma_join_split(rest, sep);
            lemma_join_prepend(text.take(i), split_on(rest, sep), seq![sep]);
            assert(text.subrange(i, i + 1) =~= seq![sep]);
            assert(text.take(i) + seq![sep] + rest =~= text);
        },
    }
}

/// Joining with one more piece in front puts the piece and `sep` in front.
pub proof fn lemma_join_prepend(first: Seq<char>, pieces: Seq<Seq<char>>, sep: Seq<char>)
    requires
        pieces.len() >= 1,
    ensures
        join(seq![first] + pieces, sep) == first + sep + join(pieces, sep),
    decreases pieces.len(),
{
    let all = seq![first] + pieces;
    assert(all.drop_last() =~= seq![first] + pieces.drop_last());
    assert(all.last() == pieces.last());
    if pieces.len() == 1 {
        assert(all.drop_last() =~= seq![first]);
        assert(join(all.drop_last(), sep) == first);
    } else {
        lemma_join_prepend(first, pieces.drop_last(), sep);
        assert(join(all, sep) =~= first + sep + join(pieces, sep));
    }
}

/// The strings one after another, with `sep` between each two.
pub fn join_strings(pieces: &Vec<String>, sep: &str) -> (joined: String)
    ensures
        joined@ == join(texts(pieces@), sep@),
{
    let mut joined = String::new();
    let mut i: usize = 0;
    assert(texts(pieces@).take(0) =~= Seq::<Seq<char>>::empty());
    while i < pieces.len()
        invariant
            i <= pieces.len(),
            joined@ == join(texts(pieces@).take(i as int), sep@),
        decreases pieces.len() - i,
    {
        let ghost before = joined@;
        if i > 0 {
            joined.append(sep);
        }
        joined.append(pieces[i].as_str());
        proof {
            let next = texts(pieces@).take(i + 1);
            assert(next.drop_last() =~= texts(pieces@).take(i as int));
            assert(next.last() == pieces[i as int]@);
            if i == 0 {
                assert(joined@ =~= pieces[i as int]@);
            }
        }
        i += 1;
    }
    assert(texts(pieces@).take(pieces.len() as int) =~= texts(pieces@));
    joined
}

/// The pieces into which the occurrences of the character `sep` cut `text`.
pub fn split_text(text: &str, sep: char) -> (pieces: Vec<String>)
    ensures
        texts(pieces@) == split_on(text@, sep),
{
    let chars = chars_of(text);
    let mut pat: Vec<char> = Vec::new();
    pat.push(sep);
    assert(pat@ =~= seq![sep]);
    let n = chars.len();
    let mut pieces: Vec<String> = Vec::new();
    let mut pos: usize = 0;
    assert(text@.skip(0) =~= text@);
    assert(texts(pieces@) + split_on(text@, sep) =~= split_on(text@, sep));
    loop
        invariant
            pos <= n == chars.len(),
            chars@ == text@,
            pat@ == seq![sep],
            split_on(text@, sep) == texts(pieces@) + split_on(text@.skip(pos as int), sep),
        decreases n - pos,
    {
        let ghost rest = text@.skip(pos as int);
        let ghost done = texts(pieces@);
        proof {
            lemma_find_skip(text@, pat@, pos as int);
            lemma_find_from(text@, pat@, pos as int);
        }
        match find_in(chars.as_slice(), pat.as_slice(), pos) {
            None => {
                let last = text.substring_char(pos, n);
                pieces.push(last.to_owned());
                assert(last@ =~= rest);
                assert(texts(pieces@) =~= done + seq![rest]);
                return pieces;
            },
            Some(i) => {
                let piece = text.substring_char(pos, i);
                pieces.push(piece.to_owned());
                proof {
                    assert(piece@ =~= rest.take(i - pos));
                    assert(rest.skip(i - pos + 1) =~= text@.skip(i + 1));
                    assert(texts(pieces@) =~= done + seq![piece@]);
                    assert(done + (seq![piece@] + split_on(text@.skip(i + 1), sep)) =~= (done
                        + seq![piece@]) + split_on(text@.skip(i + 1), sep));
                }
                pos = i + 1;
            },
        }
    }
}

} // verus!
