//! Characters and strings: what the parsers and the messages are built from.

use vstd::prelude::*;
use vstd::string::StringExecFns;

verus! {

/// The characters of a string, in order.
pub fn chars_of(text: &str) -> (chars: Vec<char>)
    ensures
        chars@ == text@,
{
    let mut chars: Vec<char> = Vec::new();
    for c in it: text.chars()
        invariant
            it.seq() == text@,
            chars@ == text@.take(it.index() as int),
    {
        chars.push(c);
    }
    chars
}

/// `String::push` of std: the string afterwards is the string before with the
/// character appended.
#[verifier::external_body]
fn push_char(string: &mut String, c: char)
    ensures
        final(string)@ == old(string)@.push(c),
{
    string.push(c)
}

/// Appends the characters to the string.
pub fn append_chars(string: &mut String, chars: &Vec<char>)
    ensures
        final(string)@ == old(string)@ + chars@,
{
    let mut i: usize = 0;
    while i < chars.len()
        invariant
            i <= chars.len(),
            string@ == old(string)@ + chars@.take(i as int),
        decreases chars.len() - i,
    {
        push_char(string, chars[i]);
        i += 1;
    }
}

/// The string that holds the characters.
pub fn string_of(chars: &Vec<char>) -> (string: String)
    ensures
        string@ == chars@,
{
    let mut string = String::new();
    append_chars(&mut string, chars);
    string
}

/// The rows of a table of characters, each as a sequence.
pub open spec fn rows(table: Seq<Vec<char>>) -> Seq<Seq<char>> {
    table.map_values(|row: Vec<char>| row@)
}

/// The pieces of `s` between the characters that `seps` lists. A piece may be
/// empty; there is always one piece more than there are separators in `s`.
pub open spec fn split_at_any(s: Seq<char>, seps: Seq<char>) -> Seq<Seq<char>>
    decreases s.len(),
{
    if s.len() == 0 {
        seq![Seq::empty()]
    } else {
        let before = split_at_any(s.drop_last(), seps);
        if seps.contains(s.last()) {
            before.push(Seq::empty())
        } else {
            before.drop_last().push(before.last().push(s.last()))
        }
    }
}

/// The pieces put together again, with `sep` between each two.
pub open spec fn join_with(pieces: Seq<Seq<char>>, sep: char) -> Seq<char>
    decreases pieces.len(),
{
    if pieces.len() == 0 {
        Seq::empty()
    } else if pieces.len() == 1 {
        pieces[0]
    } else {
        join_with(pieces.drop_last(), sep).push(sep) + pieces.last()
    }
}

/// Whether `s` holds none of the characters that `seps` lists.
pub open spec fn free_of(s: Seq<char>, seps: Seq<char>) -> bool {
    forall|i: int| 0 <= i < s.len() ==> !seps.contains(#[trigger] s[i])
}

/// Splitting gives at least one piece, and no piece holds a separator.
pub proof fn lemma_split_pieces(s: Seq<char>, seps: Seq<char>)
    ensures
        split_at_any(s, seps).len() >= 1,
        forall|k: int|
            0 <= k < split_at_any(s, seps).len() ==> free_of(
                #[trigger] split_at_any(s, seps)[k],
                seps,
            ),
    decreases s.len(),
{
    if s.len() > 0 {
        lemma_split_pieces(s.drop_last(), seps);
    }
}

/// Text without separators, appended to `a`, lengthens the last piece of `a`
/// and leaves the others as they are.
pub proof fn lemma_split_append_plain(a: Seq<char>, b: Seq<char>, seps: Seq<char>)
    requires
        free_of(b, seps),
    ensures
        split_at_any(a + b, seps) == split_at_any(a, seps).drop_last().push(
            split_at_any(a, seps).last() + b,
        ),
    decreases b.len(),
{
    lemma_split_pieces(a, seps);
    if b.len() > 0 {
        let shorter = b.drop_last();
        assert(free_of(shorter, seps));
        lemma_split_append_plain(a, shorter, seps);
        assert((a + b).drop_last() =~= a + shorter);
        assert(split_at_any(a + shorter, seps).last().push(b.last()) =~= split_at_any(
            a,
            seps,
        ).last() + b);
    }
}

/// Pieces that hold no separator, joined by a separator, split into
/// themselves.
pub proof fn lemma_split_of_join(pieces: Seq<Seq<char>>, sep: char, seps: Seq<char>)
    requires
        pieces.len() >= 1,
        seps.contains(sep),
        forall|k: int| 0 <= k < pieces.len() ==> free_of(#[trigger] pieces[k], seps),
    ensures
        split_at_any(join_with(pieces, sep), seps) == pieces,
    decreases pieces.len(),
{
    if pieces.len() == 1 {
        lemma_split_append_plain(Seq::empty(), pieces[0], seps);
    } else {
        let front = pieces.drop_last();
        assert forall|k: int| 0 <= k < front.len() implies free_of(#[trigger] front[k], seps) by {
            assert(front[k] == pieces[k]);
        }
        lemma_split_of_join(front, sep, seps);
        let marked = join_with(front, sep).push(sep);
        assert(marked.drop_last() =~= join_with(front, sep));
        lemma_split_append_plain(marked, pieces.last(), seps);
    }
}

/// Lengthening the last piece by a character lengthens the joined text by it.
proof fn lemma_join_extended(pieces: Seq<Seq<char>>, sep: char, c: char)
    requires
        pieces.len() >= 1,
    ensures
        join_with(pieces.drop_last().push(pieces.last().push(c)), sep) == join_with(
            pieces,
            sep,
        ).push(c),
{
    let longer = pieces.drop_last().push(pieces.last().push(c));
    assert(longer.drop_last() =~= pieces.drop_last());
}

/// The pieces of a text that is cut at one separator, joined by that
/// separator, are the text again. Together with [`lemma_split_pieces`] this
/// says what the pieces are: the one way to write the text as pieces without
/// the separator, with the separator between each two.
pub proof fn law_join_of_split(s: Seq<char>, sep: char)
    ensures
        join_with(split_at_any(s, seq![sep]), sep) == s,
    decreases s.len(),
{
    let seps = seq![sep];
    if s.len() > 0 {
        let before = split_at_any(s.drop_last(), seps);
        law_join_of_split(s.drop_last(), sep);
        lemma_split_pieces(s.drop_last(), seps);
        if seps.contains(s.last()) {
            assert(before.push(Seq::empty()).drop_last() =~= before);
        } else {
            lemma_join_extended(before, sep, s.last());
        }
    }
}

/// Whether the list holds the character.
pub fn contains_char(chars: &Vec<char>, c: char) -> (found: bool)
    ensures
        found == chars@.contains(c),
{
    let mut i: usize = 0;
    while i < chars.len()
        invariant
            i <= chars.len(),
            forall|j: int| 0 <= j < i ==> chars@[j] != c,
        decreases chars.len() - i,
    {
        if chars[i] == c {
            return true;
        }
        i += 1;
    }
    false
}

/// Appends the characters of `chars` to `out`.
pub fn push_all(out: &mut Vec<char>, chars: &Vec<char>)
    ensures
        final(out)@ == old(out)@ + chars@,
{
    let mut i: usize = 0;
    while i < chars.len()
        invariant
            i <= chars.len(),
            out@ == old(out)@ + chars@.take(i as int),
        decreases chars.len() - i,
    {
        out.push(chars[i]);
        i += 1;
    }
}

/// Cuts the text at each character that `seps` lists: see [`split_at_any`].
pub fn split(chars: &Vec<char>, seps: &Vec<char>) -> (pieces: Vec<Vec<char>>)
    ensures
        rows(pieces@) == split_at_any(chars@, seps@),
        pieces.len() >= 1,
{
    let mut pieces: Vec<Vec<char>> = Vec::new();
    let mut current: Vec<char> = Vec::new();
    let mut i: usize = 0;
    while i < chars.len()
        invariant
            i <= chars.len(),
            rows(pieces@).push(current@) == split_at_any(chars@.take(i as int), seps@),
        decreases chars.len() - i,
    {
        let c = chars[i];
        let ghost before = rows(pieces@).push(current@);
        proof {
            let longer = chars@.take(i as int + 1);
            assert(longer.drop_last() =~= chars@.take(i as int));
        }
        if contains_char(seps, c) {
            pieces.push(current);
            current = Vec::new();
        } else {
            current.push(c);
            assert(rows(pieces@).push(current@) =~= before.drop_last().push(
                before.last().push(c),
            ));
        }
        i += 1;
    }
    assert(chars@.take(i as int) =~= chars@);
    pieces.push(current);
    pieces
}

} // verus!
