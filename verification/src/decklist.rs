//! The decklist parser: from the text of a decklist to the searches to make.
//!
//! A decklist holds one card per line: a count, the words of the card's name,
//! and usually a set code in brackets with a collector number behind it:
//!
//! ```text
//! 4 Tasigur, the Golden Fang (FRF) 87
//! ```
//!
//! Lines end at `\n` or `\r`; empty lines are passed over. A line is cut at
//! each single space. Its first piece is the count: an optional `+` and
//! decimal digits, at least 1. The name is made of the pieces after it that
//! are not empty, up to the first that holds a `(`.

use crate::decimal::{
    decimal, decimal_of, is_digit, law_parse_decimal, parse_u32, spec_parse_u32, unsigned_part,
};
use crate::text::{
    append_chars, chars_of, contains_char, free_of, join_with, lemma_split_of_join, push_all,
    rows, split, split_at_any, string_of,
};
use vstd::prelude::*;
use vstd::string::StringExecFns;

verus! {

/// One line of a decklist: how many copies, and the search that finds the card.
#[derive(Debug, Clone, PartialEq, Eq)]
pub struct DecklistEntry {
    pub amount: u32,
    pub query: String,
}

/// A decklist entry as a mathematical value.
pub struct DecklistEntryView {
    pub amount: nat,
    pub query: Seq<char>,
}

impl DecklistEntry {
    /// An entry stands for at least one copy.
    pub open spec fn wf(&self) -> bool {
        self.amount >= 1
    }
}

impl View for DecklistEntry {
    type V = DecklistEntryView;

    open spec fn view(&self) -> DecklistEntryView {
        DecklistEntryView { amount: self.amount as nat, query: self.query@ }
    }
}

/// A line that does not start with a count of at least 1.
#[derive(Debug, Clone, PartialEq, Eq)]
pub struct ParseError {
    /// Which of the decklist's non-empty lines it is, counted from 1.
    pub line: usize,
    /// The line itself.
    pub text: String,
}

impl ParseError {
    /// What is wrong, in words.
    pub open spec fn spec_message(&self) -> Seq<char> {
        "No card count at the start of line "@ + decimal(self.line as nat) + ": "@ + self.text@
    }

    /// What is wrong, in words: the number of the line and the line itself.
    pub fn message(&self) -> (message: String)
        ensures
            message@ == self.spec_message(),
    {
        let mut message = String::from_str("No card count at the start of line ");
        let digits = decimal_of(self.line as u64);
        append_chars(&mut message, &digits);
        message.append(": ");
        message.append(self.text.as_str());
        message
    }
}

/// The characters at which a decklist is cut into lines.
pub open spec fn line_breaks() -> Seq<char> {
    seq!['\n', '\r']
}

/// The character at which a line is cut into pieces.
pub open spec fn spaces() -> Seq<char> {
    seq![' ']
}

/// The test that keeps the lines that are not empty.
pub open spec fn not_empty() -> spec_fn(Seq<char>) -> bool {
    |line: Seq<char>| line.len() > 0
}

/// The lines of a decklist that are not empty.
pub open spec fn lines_of(text: Seq<char>) -> Seq<Seq<char>> {
    split_at_any(text, line_breaks()).filter(not_empty())
}

/// The words of the card name among the pieces that follow the count: the
/// pieces that are not empty, up to the first that holds a `(`.
pub open spec fn name_words(pieces: Seq<Seq<char>>) -> Seq<Seq<char>>
    decreases pieces.len(),
{
    if pieces.len() == 0 {
        Seq::empty()
    } else if pieces[0].len() == 0 {
        name_words(pieces.drop_first())
    } else if pieces[0].contains('(') {
        Seq::empty()
    } else {
        seq![pieces[0]] + name_words(pieces.drop_first())
    }
}

/// The search that matches a card name exactly.
pub open spec fn query_for(name: Seq<char>) -> Seq<char> {
    "name:/^"@ + name + "$/"@
}

/// The count at the start of a line, where there is one of at least 1.
pub open spec fn amount_of(line: Seq<char>) -> Option<u32> {
    match spec_parse_u32(split_at_any(line, spaces())[0]) {
        Some(amount) => if amount >= 1 {
            Some(amount)
        } else {
            None
        },
        None => None,
    }
}

/// The card name on a line: its name words with one space between each two.
pub open spec fn name_of(line: Seq<char>) -> Seq<char> {
    join_with(name_words(split_at_any(line, spaces()).drop_first()), ' ')
}

/// What a line stands for: nothing unless it starts with a count of at least 1.
pub open spec fn spec_parse_line(line: Seq<char>) -> Option<DecklistEntryView> {
    match amount_of(line) {
        Some(amount) => Some(
            DecklistEntryView { amount: amount as nat, query: query_for(name_of(line)) },
        ),
        None => None,
    }
}

/// Whether every non-empty line of the decklist stands for an entry.
pub open spec fn all_lines_parse(text: Seq<char>) -> bool {
    forall|i: int| 0 <= i < lines_of(text).len() ==> spec_parse_line(#[trigger] lines_of(text)[i])
        is Some
}

/// Whether `result` is what parsing `text` must give: an entry for each line
/// in order, or else the first line that stands for none.
pub open spec fn is_parse_of(
    text: Seq<char>,
    result: Result<Vec<DecklistEntry>, ParseError>,
) -> bool {
    let lines = lines_of(text);
    match result {
        Ok(entries) => {
            &&& entries.len() == lines.len()
            &&& forall|i: int|
                0 <= i < lines.len() ==> spec_parse_line(lines[i]) == Some(#[trigger] entries[i]@)
        },
        Err(error) => {
            &&& 1 <= error.line <= lines.len()
            &&& error.text@ == lines[error.line - 1]
            &&& spec_parse_line(lines[error.line - 1]) is None
            &&& forall|i: int|
                0 <= i < error.line - 1 ==> spec_parse_line(#[trigger] lines[i]) is Some
        },
    }
}

/// Reads the name words among the pieces from `from` on, joined by spaces.
fn join_name(pieces: &Vec<Vec<char>>, from: usize) -> (name: Vec<char>)
    requires
        from <= pieces.len(),
    ensures
        name@ == join_with(
            name_words(rows(pieces@).subrange(from as int, pieces.len() as int)),
            ' ',
        ),
{
    let mut name: Vec<char> = Vec::new();
    let mut i: usize = from;
    let mut first = true;
    let mut done = false;
    let ghost all = rows(pieces@).subrange(from as int, pieces.len() as int);
    let ghost mut words: Seq<Seq<char>> = Seq::empty();
    while i < pieces.len() && !done
        invariant
            from <= i <= pieces.len(),
            all == rows(pieces@).subrange(from as int, pieces.len() as int),
            name@ == join_with(words, ' '),
            first == (words.len() == 0),
            !done ==> name_words(all) == words + name_words(
                rows(pieces@).subrange(i as int, pieces.len() as int),
            ),
            done ==> name_words(all) == words,
        decreases pieces.len() - i + (if done { 0int } else { 1int }),
    {
        let piece = &pieces[i];
        let ghost rest = rows(pieces@).subrange(i as int, pieces.len() as int);
        assert(rest.drop_first() =~= rows(pieces@).subrange(i as int + 1, pieces.len() as int));
        if piece.len() == 0 {
            i += 1;
        } else if contains_char(piece, '(') {
            done = true;
        } else {
            let ghost longer = words.push(piece@);
            proof {
                assert(longer.drop_last() =~= words);
                assert(words + (seq![piece@] + name_words(rest.drop_first())) =~= longer
                    + name_words(rest.drop_first()));
            }
            if !first {
                name.push(' ');
            }
            push_all(&mut name, piece);
            proof {
                words = longer;
            }
            first = false;
            i += 1;
        }
    }
    proof {
        if !done {
            assert(rows(pieces@).subrange(i as int, pieces.len() as int) =~= Seq::<
                Seq<char>,
            >::empty());
        }
    }
    name
}

/// Reads one line: see [`spec_parse_line`].
pub fn parse_line(line: &Vec<char>) -> (entry: Option<DecklistEntry>)
    ensures
        match entry {
            Some(entry) => spec_parse_line(line@) == Some(entry@) && entry.wf(),
            None => spec_parse_line(line@) is None,
        },
{
    let space: Vec<char> = vec![' '];
    assert(space@ =~= spaces());
    let pieces = split(line, &space);
    let amount = match parse_u32(&pieces[0]) {
        Some(amount) => amount,
        None => {
            return None;
        },
    };
    if amount == 0 {
        return None;
    }
    let name = join_name(&pieces, 1);
    let mut query = String::from_str("name:/^");
    append_chars(&mut query, &name);
    query.append("$/");
    Some(DecklistEntry { amount, query })
}

/// Reads a decklist: an entry for each non-empty line, in the order of the
/// lines. Where a line does not start with a count of at least 1, the whole
/// decklist is refused, and the error tells the first such line.
pub fn parse_decklist(text: &str) -> (result: Result<Vec<DecklistEntry>, ParseError>)
    ensures
        is_parse_of(text@, result),
        result is Ok <==> all_lines_parse(text@),
        result matches Ok(entries) ==> forall|i: int|
            0 <= i < entries.len() ==> (#[trigger] entries[i]).wf(),
{
    let chars = chars_of(text);
    let breaks: Vec<char> = vec!['\n', '\r'];
    let pieces = split(&chars, &breaks);
    let ghost kept = not_empty();
    let mut entries: Vec<DecklistEntry> = Vec::new();
    let mut i: usize = 0;
    assert(rows(pieces@).take(0).filter(kept) =~= Seq::<Seq<char>>::empty()) by {
        reveal(Seq::filter);
    }
    while i < pieces.len()
        invariant
            i <= pieces.len(),
            kept == not_empty(),
            rows(pieces@) == split_at_any(text@, line_breaks()),
            entries.len() == rows(pieces@).take(i as int).filter(kept).len(),
            forall|k: int|
                0 <= k < entries.len() ==> spec_parse_line(
                    rows(pieces@).take(i as int).filter(kept)[k],
                ) == Some(#[trigger] entries[k]@),
            forall|k: int| 0 <= k < entries.len() ==> (#[trigger] entries[k]).wf(),
        decreases pieces.len() - i,
    {
        let piece = &pieces[i];
        let ghost seen = rows(pieces@).take(i as int).filter(kept);
        let ghost next = rows(pieces@).take(i as int + 1);
        proof {
            reveal(Seq::filter);
            assert(next.drop_last() =~= rows(pieces@).take(i as int));
        }
        if piece.len() > 0 {
            match parse_line(piece) {
                Some(entry) => {
                    entries.push(entry);
                },
                None => {
                    let error = ParseError { line: entries.len() + 1, text: string_of(piece) };
                    proof {
                        lemma_filter_of_take(rows(pieces@), kept, i as int + 1);
                        let lines = lines_of(text@);
                        let found = next.filter(kept);
                        assert(found[error.line - 1] == piece@);
                        assert forall|k: int| 0 <= k < error.line - 1 implies spec_parse_line(
                            #[trigger] lines[k],
                        ) is Some by {
                            assert(found[k] == seen[k]);
                            assert(spec_parse_line(seen[k]) == Some(entries[k]@));
                        }
                    }
                    return Err(error);
                },
            }
        }
        i += 1;
    }
    proof {
        assert(rows(pieces@).take(i as int) =~= rows(pieces@));
        let lines = lines_of(text@);
        assert forall|k: int| 0 <= k < lines.len() implies spec_parse_line(
            #[trigger] lines_of(text@)[k],
        ) is Some by {
            assert(spec_parse_line(lines[k]) == Some(entries[k]@));
        }
    }
    Ok(entries)
}

/// What is kept of the first `k` items is the beginning of what is kept of
/// them all.
proof fn lemma_filter_of_take(s: Seq<Seq<char>>, kept: spec_fn(Seq<char>) -> bool, k: int)
    requires
        0 <= k <= s.len(),
    ensures
        s.take(k).filter(kept).len() <= s.filter(kept).len(),
        s.take(k).filter(kept) == s.filter(kept).take(s.take(k).filter(kept).len() as int),
    decreases s.len() - k,
{
    reveal(Seq::filter);
    if k == s.len() {
        assert(s.take(k) =~= s);
    } else {
        lemma_filter_of_take(s, kept, k + 1);
        assert(s.take(k + 1).drop_last() =~= s.take(k));
    }
}

/// Whether a piece can be a word of a card name: it is not empty and holds
/// neither a space nor a `(`.
pub open spec fn is_name_word(piece: Seq<char>) -> bool {
    piece.len() > 0 && !piece.contains(' ') && !piece.contains('(')
}

/// A token that stands for a number holds no space.
pub proof fn lemma_number_has_no_space(token: Seq<char>)
    requires
        spec_parse_u32(token) is Some,
    ensures
        !token.contains(' '),
{
    let digits = unsigned_part(token);
    if token.contains(' ') {
        let k = choose|k: int| 0 <= k < token.len() && token[k] == ' ';
        if token[0] == '+' {
            assert(digits[k - 1] == ' ');
        } else {
            assert(digits[k] == ' ');
        }
    }
}

/// A piece without a space holds no character at which a line is cut.
proof fn lemma_free_of_spaces(piece: Seq<char>)
    requires
        !piece.contains(' '),
    ensures
        free_of(piece, spaces()),
{
    assert forall|i: int| 0 <= i < piece.len() implies !spaces().contains(#[trigger] piece[i]) by {
        assert(piece.contains(piece[i]));
    }
}

/// The name words of name words followed by a piece with a `(` are the name
/// words themselves: what stands after the set code does not count.
pub proof fn lemma_name_words_stop(name: Seq<Seq<char>>, set_code: Seq<char>, rest: Seq<Seq<char>>)
    requires
        forall|k: int| 0 <= k < name.len() ==> is_name_word(#[trigger] name[k]),
        set_code.len() > 0,
        set_code.contains('('),
    ensures
        name_words(name + seq![set_code] + rest) == name,
    decreases name.len(),
{
    let pieces = name + seq![set_code] + rest;
    if name.len() > 0 {
        let shorter = name.drop_first();
        assert forall|k: int| 0 <= k < shorter.len() implies is_name_word(
            #[trigger] shorter[k],
        ) by {
            assert(shorter[k] == name[k + 1]);
        }
        lemma_name_words_stop(shorter, set_code, rest);
        assert(pieces.drop_first() =~= shorter + seq![set_code] + rest);
    }
}

/// A line of the usual form stands for its count and its name: where a line
/// is a count, the words of a name, a set code in brackets and whatever
/// follows it, each a space apart, the entry has that count, and its query
/// holds the words of the name a space apart and nothing of the set code or
/// of what follows it.
pub proof fn law_line_with_set_code(
    count: Seq<char>,
    amount: u32,
    name: Seq<Seq<char>>,
    set_code: Seq<char>,
    rest: Seq<Seq<char>>,
)
    requires
        spec_parse_u32(count) == Some(amount),
        amount >= 1,
        forall|k: int| 0 <= k < name.len() ==> is_name_word(#[trigger] name[k]),
        set_code.contains('('),
        !set_code.contains(' '),
        forall|k: int| 0 <= k < rest.len() ==> !(#[trigger] rest[k]).contains(' '),
    ensures
        spec_parse_line(join_with(seq![count] + name + seq![set_code] + rest, ' ')) == Some(
            DecklistEntryView { amount: amount as nat, query: query_for(join_with(name, ' ')) },
        ),
{
    let pieces = seq![count] + name + seq![set_code] + rest;
    lemma_number_has_no_space(count);
    assert forall|k: int| 0 <= k < pieces.len() implies free_of(#[trigger] pieces[k], spaces()) by {
        if k == 0 {
            lemma_free_of_spaces(count);
        } else if k <= name.len() {
            lemma_free_of_spaces(name[k - 1]);
        } else if k == name.len() + 1 {
            lemma_free_of_spaces(set_code);
        } else {
            lemma_free_of_spaces(rest[k - name.len() - 2]);
        }
    }
    assert(spaces().contains(' ')) by {
        assert(spaces()[0] == ' ');
    }
    lemma_split_of_join(pieces, ' ', spaces());
    assert(pieces.drop_first() =~= name + seq![set_code] + rest);
    lemma_name_words_stop(name, set_code, rest);
}

/// The name words of name words alone are the name words themselves.
pub proof fn lemma_name_words_alone(name: Seq<Seq<char>>)
    requires
        forall|k: int| 0 <= k < name.len() ==> is_name_word(#[trigger] name[k]),
    ensures
        name_words(name) == name,
    decreases name.len(),
{
    if name.len() > 0 {
        let shorter = name.drop_first();
        assert forall|k: int| 0 <= k < shorter.len() implies is_name_word(
            #[trigger] shorter[k],
        ) by {
            assert(shorter[k] == name[k + 1]);
        }
        lemma_name_words_alone(shorter);
    }
}

/// A line without a set code stands for its count and its name: where a line
/// is a count and the words of a name, each a space apart, the entry has that
/// count and the query for those words. With no word at all, the line is a
/// count alone, and the query is the one for the empty name.
pub proof fn law_line_without_set_code(count: Seq<char>, amount: u32, name: Seq<Seq<char>>)
    requires
        spec_parse_u32(count) == Some(amount),
        amount >= 1,
        forall|k: int| 0 <= k < name.len() ==> is_name_word(#[trigger] name[k]),
    ensures
        spec_parse_line(join_with(seq![count] + name, ' ')) == Some(
            DecklistEntryView { amount: amount as nat, query: query_for(join_with(name, ' ')) },
        ),
{
    let pieces = seq![count] + name;
    lemma_number_has_no_space(count);
    assert forall|k: int| 0 <= k < pieces.len() implies free_of(#[trigger] pieces[k], spaces()) by {
        if k == 0 {
            lemma_free_of_spaces(count);
        } else {
            lemma_free_of_spaces(name[k - 1]);
        }
    }
    assert(spaces().contains(' ')) by {
        assert(spaces()[0] == ' ');
    }
    lemma_split_of_join(pieces, ' ', spaces());
    assert(pieces.drop_first() =~= name);
    lemma_name_words_alone(name);
}

/// A line whose first piece is no count of at least 1 stands for nothing,
/// whatever follows the piece.
pub proof fn law_line_without_count(first: Seq<char>, rest: Seq<Seq<char>>)
    requires
        !first.contains(' '),
        forall|k: int| 0 <= k < rest.len() ==> !(#[trigger] rest[k]).contains(' '),
        spec_parse_u32(first) is None || spec_parse_u32(first) == Some(0u32),
    ensures
        spec_parse_line(join_with(seq![first] + rest, ' ')) is None,
{
    let pieces = seq![first] + rest;
    assert forall|k: int| 0 <= k < pieces.len() implies free_of(#[trigger] pieces[k], spaces()) by {
        if k == 0 {
            lemma_free_of_spaces(first);
        } else {
            lemma_free_of_spaces(rest[k - 1]);
        }
    }
    assert(spaces().contains(' ')) by {
        assert(spaces()[0] == ' ');
    }
    lemma_split_of_join(pieces, ' ', spaces());
}

/// Joining two lists of pieces at once is joining each and putting a
/// separator between them.
pub proof fn lemma_join_of_two(first: Seq<Seq<char>>, second: Seq<Seq<char>>, sep: char)
    requires
        first.len() >= 1,
        second.len() >= 1,
    ensures
        join_with(first + second, sep) == join_with(first, sep).push(sep) + join_with(second, sep),
    decreases second.len(),
{
    let all = first + second;
    if second.len() == 1 {
        assert(all.drop_last() =~= first);
    } else {
        lemma_join_of_two(first, second.drop_last(), sep);
        assert(all.drop_last() =~= first + second.drop_last());
    }
}

/// The line `<n> <name> (<set>) <number>` stands for `n` copies of `name`:
/// whatever the set and the number are, the entry's count is `n` and its
/// query is the one for the name alone.
pub proof fn law_written_line(
    amount: u32,
    name: Seq<Seq<char>>,
    set: Seq<char>,
    number: Seq<char>,
)
    requires
        amount >= 1,
        name.len() >= 1,
        forall|k: int| 0 <= k < name.len() ==> is_name_word(#[trigger] name[k]),
        !set.contains(' '),
        !number.contains(' '),
    ensures
        spec_parse_line(
            decimal(amount as nat).push(' ') + join_with(name, ' ') + seq![' ', '('] + set + seq![
                ')',
                ' ',
            ] + number,
        ) == Some(
            DecklistEntryView { amount: amount as nat, query: query_for(join_with(name, ' ')) },
        ),
{
    let count = decimal(amount as nat);
    let set_code = seq!['('] + set + seq![')'];
    let rest = seq![number];
    law_parse_decimal(amount);
    assert(set_code[0] == '(');
    assert(!set_code.contains(' ')) by {
        if set_code.contains(' ') {
            let k = choose|k: int| 0 <= k < set_code.len() && set_code[k] == ' ';
            assert(set[k - 1] == ' ');
        }
    }
    law_line_with_set_code(count, amount, name, set_code, rest);
    let tail = seq![set_code] + rest;
    assert(tail.drop_last() =~= seq![set_code]);
    assert(join_with(seq![set_code], ' ') == set_code);
    lemma_join_of_two(name, tail, ' ');
    lemma_join_of_two(seq![count], name + tail, ' ');
    assert(seq![count] + (name + tail) =~= seq![count] + name + seq![set_code] + rest);
    assert(join_with(seq![count] + name + seq![set_code] + rest, ' ') =~= decimal(
        amount as nat,
    ).push(' ') + join_with(name, ' ') + seq![' ', '('] + set + seq![')', ' '] + number);
}

/// Lines that are not empty and hold no line break, put one under the other,
/// are the lines of the text that this gives.
pub proof fn law_lines_of_joined(lines: Seq<Seq<char>>, line_break: char)
    requires
        lines.len() >= 1,
        line_break == '\n' || line_break == '\r',
        forall|k: int|
            0 <= k < lines.len() ==> (#[trigger] lines[k]).len() > 0 && free_of(
                lines[k],
                line_breaks(),
            ),
    ensures
        lines_of(join_with(lines, line_break)) == lines,
{
    assert(line_breaks().contains(line_break)) by {
        assert(line_breaks()[0] == '\n' && line_breaks()[1] == '\r');
    }
    lemma_split_of_join(lines, line_break, line_breaks());
    lemma_filter_keeps_all(lines);
}

/// Where no line is empty, all are kept.
proof fn lemma_filter_keeps_all(lines: Seq<Seq<char>>)
    requires
        forall|k: int| 0 <= k < lines.len() ==> (#[trigger] lines[k]).len() > 0,
    ensures
        lines.filter(not_empty()) == lines,
    decreases lines.len(),
{
    reveal(Seq::filter);
    if lines.len() > 0 {
        let shorter = lines.drop_last();
        assert forall|k: int| 0 <= k < shorter.len() implies (#[trigger] shorter[k]).len() > 0 by {
            assert(shorter[k] == lines[k]);
        }
        lemma_filter_keeps_all(shorter);
    }
}

} // verus!
