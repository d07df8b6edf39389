//! From the looked-up entries to the card list and the warnings that the user
//! is shown.

use crate::card::{CardObject, ResponseList, SearchResult};
use crate::decimal::{decimal, decimal_of};
use crate::search::{LookupError, ResolvedEntry};
use crate::text::{join_with, string_of};
use vstd::prelude::*;
use vstd::string::StringExecFns;

verus! {

/// The strings of a list, each as a sequence of characters.
pub open spec fn texts(strings: Seq<String>) -> Seq<Seq<char>> {
    strings.map_values(|string: String| string@)
}

/// The card that an entry brings to the card list, with the count of the
/// entry; none where the search found nothing.
pub open spec fn card_of(entry: ResolvedEntry) -> Option<(u32, CardObject)> {
    match entry.outcome {
        SearchResult::MultipleHits(_, _, card) => Some((entry.amount, card)),
        SearchResult::OneHit(card) => Some((entry.amount, card)),
        SearchResult::NoHits(_) => None,
    }
}

/// The warning that an entry gives rise to; none where the search found just
/// one card.
pub open spec fn warning_of(entry: ResolvedEntry) -> Option<Seq<char>> {
    match entry.outcome {
        SearchResult::MultipleHits(query, total, card) => Some(
            decimal(total as nat) + " hits for "@ + query@ + ", using the first one: "@
                + card.name@,
        ),
        SearchResult::OneHit(_) => None,
        SearchResult::NoHits(query) => Some("No card with name "@ + query@ + " found"@),
    }
}

/// The cards of the entries, in the order of the entries.
pub open spec fn cards_of(resolved: Seq<ResolvedEntry>) -> Seq<(u32, CardObject)>
    decreases resolved.len(),
{
    if resolved.len() == 0 {
        Seq::empty()
    } else {
        match card_of(resolved.last()) {
            Some(card) => cards_of(resolved.drop_last()).push(card),
            None => cards_of(resolved.drop_last()),
        }
    }
}

/// The warnings of the entries, in the order of the entries.
pub open spec fn warnings_of(resolved: Seq<ResolvedEntry>) -> Seq<Seq<char>>
    decreases resolved.len(),
{
    if resolved.len() == 0 {
        Seq::empty()
    } else {
        match warning_of(resolved.last()) {
            Some(warning) => warnings_of(resolved.drop_last()).push(warning),
            None => warnings_of(resolved.drop_last()),
        }
    }
}

/// How many of the cards count as spells. Each entry counts once, whatever
/// its count.
pub open spec fn spells_among(cards: Seq<(u32, CardObject)>) -> nat
    decreases cards.len(),
{
    if cards.len() == 0 {
        0
    } else if cards.last().1.spec_is_nonland() {
        spells_among(cards.drop_last()) + 1
    } else {
        spells_among(cards.drop_last())
    }
}

/// The text of the warnings: the heading `warnings:`, then one warning to a
/// line.
pub open spec fn spec_warnings_text(warnings: Seq<Seq<char>>) -> Seq<char> {
    join_with(seq!["warnings:"@] + warnings, '\n')
}

/// The warning for a search that found several cards.
fn warning_for_several(query: &String, total: u32, name: &String) -> (warning: String)
    ensures
        warning@ == decimal(total as nat) + " hits for "@ + query@ + ", using the first one: "@
            + name@,
{
    let digits = decimal_of(total as u64);
    let mut warning = string_of(&digits);
    warning.append(" hits for ");
    warning.append(query.as_str());
    warning.append(", using the first one: ");
    warning.append(name.as_str());
    warning
}

/// The warning for a search that found nothing.
fn warning_for_none(query: &String) -> (warning: String)
    ensures
        warning@ == "No card with name "@ + query@ + " found"@,
{
    let mut warning = String::from_str("No card with name ");
    warning.append(query.as_str());
    warning.append(" found");
    warning
}

/// Sorts the looked-up entries into the card list and the warnings. A search
/// with one hit gives its card and no warning. A search with several hits
/// gives its first card, and a warning that tells how many there were, for
/// which query, and which card was taken. A search without a hit gives no
/// card, and a warning that names the query. Each card keeps the count of its
/// entry; cards and warnings come in the order of the entries.
pub fn aggregate(resolved: Vec<ResolvedEntry>) -> (out: (Vec<(u32, CardObject)>, Vec<String>))
    ensures
        out.0@ == cards_of(resolved@),
        texts(out.1@) == warnings_of(resolved@),
{
    let mut cards: Vec<(u32, CardObject)> = Vec::new();
    let mut warnings: Vec<String> = Vec::new();
    for entry in it: resolved
        invariant
            it.seq() == resolved@,
            cards@ == cards_of(resolved@.take(it.index() as int)),
            texts(warnings@) == warnings_of(resolved@.take(it.index() as int)),
    {
        assert(resolved@.take(it.index() + 1).drop_last() =~= resolved@.take(it.index() as int));
        let amount = entry.amount;
        match entry.outcome {
            SearchResult::MultipleHits(query, total, card) => {
                let warning = warning_for_several(&query, total, &card.name);
                warnings.push(warning);
                cards.push((amount, card));
            },
            SearchResult::OneHit(card) => {
                cards.push((amount, card));
            },
            SearchResult::NoHits(query) => {
                let warning = warning_for_none(&query);
                warnings.push(warning);
            },
        }
    }
    assert(resolved@.take(resolved@.len() as int) =~= resolved@);
    (cards, warnings)
}

/// How many of the cards count as spells rather than lands. Each entry counts
/// once, whatever its count.
pub fn count_spells(cards: &Vec<(u32, CardObject)>) -> (spells: usize)
    ensures
        spells == spells_among(cards@),
{
    let mut spells: usize = 0;
    let mut i: usize = 0;
    while i < cards.len()
        invariant
            i <= cards.len(),
            spells <= i,
            spells == spells_among(cards@.take(i as int)),
        decreases cards.len() - i,
    {
        assert(cards@.take(i as int + 1).drop_last() =~= cards@.take(i as int));
        if cards[i].1.is_nonland() {
            spells += 1;
        }
        i += 1;
    }
    assert(cards@.take(i as int) =~= cards@);
    spells
}

/// The text of the warnings: the heading `warnings:`, then one warning to a
/// line.
pub fn warnings_text(warnings: &Vec<String>) -> (text: String)
    ensures
        text@ == spec_warnings_text(texts(warnings@)),
{
    let mut text = String::from_str("warnings:");
    let ghost heading = seq!["warnings:"@];
    let mut i: usize = 0;
    while i < warnings.len()
        invariant
            i <= warnings.len(),
            heading == seq!["warnings:"@],
            text@ == join_with(heading + texts(warnings@).take(i as int), '\n'),
        decreases warnings.len() - i,
    {
        proof {
            let lines = heading + texts(warnings@).take(i as int + 1);
            assert(lines.drop_last() =~= heading + texts(warnings@).take(i as int));
            reveal_strlit("\n");
        }
        text.append("\n");
        text.append(warnings[i].as_str());
        i += 1;
    }
    assert(texts(warnings@).take(i as int) =~= texts(warnings@));
    text
}

/// The messages of the failed lookups, in their order.
pub fn failure_messages(failures: &Vec<LookupError>) -> (messages: Vec<String>)
    ensures
        messages.len() == failures.len(),
        forall|i: int|
            0 <= i < failures.len() ==> (#[trigger] messages@[i])@ == failures@[i].spec_message(),
{
    let mut messages: Vec<String> = Vec::new();
    let mut i: usize = 0;
    while i < failures.len()
        invariant
            i <= failures.len(),
            messages.len() == i,
            forall|j: int| 0 <= j < i ==> (#[trigger] messages@[j])@ == failures@[j].spec_message(),
        decreases failures.len() - i,
    {
        messages.push(failures[i].message());
        i += 1;
    }
    messages
}

/// The entry that a page of cards gives for a decklist entry with this count
/// and this query.
pub open spec fn entry_for(amount: u32, query: String, page: ResponseList) -> ResolvedEntry {
    ResolvedEntry { amount, outcome: page.spec_card_or(query) }
}

/// What a single entry gives: its card, if it has one, and its warning, if
/// it has one.
proof fn lemma_single_entry(entry: ResolvedEntry)
    ensures
        cards_of(seq![entry]) == match card_of(entry) {
            Some(card) => seq![card],
            None => Seq::empty(),
        },
        warnings_of(seq![entry]) == match warning_of(entry) {
            Some(warning) => seq![warning],
            None => Seq::empty(),
        },
{
    let before = seq![entry].drop_last();
    assert(cards_of(before) =~= Seq::<(u32, CardObject)>::empty());
    assert(warnings_of(before) =~= Seq::<Seq<char>>::empty());
}

/// A page with one card gives that card, with the count of the entry, and no
/// warning.
pub proof fn law_one_hit(amount: u32, query: String, page: ResponseList)
    requires
        page.data.len() == 1,
    ensures
        cards_of(seq![entry_for(amount, query, page)]) == seq![(amount, page.data@[0])],
        warnings_of(seq![entry_for(amount, query, page)]) == Seq::<Seq<char>>::empty(),
{
    lemma_single_entry(entry_for(amount, query, page));
}

/// A page with several cards gives the first of them, with the count of the
/// entry, and one warning, which holds the total that the service reported,
/// the query and the name of that card.
pub proof fn law_several_hits(amount: u32, query: String, page: ResponseList)
    requires
        page.data.len() >= 2,
    ensures
        cards_of(seq![entry_for(amount, query, page)]) == seq![(amount, page.data@[0])],
        warnings_of(seq![entry_for(amount, query, page)]) == seq![
            decimal(page.total_cards as nat) + " hits for "@ + query@
                + ", using the first one: "@ + page.data@[0].name@,
        ],
{
    lemma_single_entry(entry_for(amount, query, page));
}

/// An empty page gives no card, whatever total the service reported, and one
/// warning, which holds the query.
pub proof fn law_no_hits(amount: u32, query: String, page: ResponseList)
    requires
        page.data.len() == 0,
    ensures
        cards_of(seq![entry_for(amount, query, page)]) == Seq::<(u32, CardObject)>::empty(),
        warnings_of(seq![entry_for(amount, query, page)]) == seq![
            "No card with name "@ + query@ + " found"@,
        ],
{
    lemma_single_entry(entry_for(amount, query, page));
}

/// Each card in the card list comes from an entry, with the count of that
/// entry: no card is made up, and no count is changed.
pub proof fn law_cards_keep_their_counts(resolved: Seq<ResolvedEntry>, at: int)
    requires
        0 <= at < cards_of(resolved).len(),
    ensures
        exists|k: int|
            0 <= k < resolved.len() && card_of(#[trigger] resolved[k]) == Some(
                cards_of(resolved)[at],
            ),
    decreases resolved.len(),
{
    let shorter = resolved.drop_last();
    if card_of(resolved.last()) is None || at < cards_of(shorter).len() {
        law_cards_keep_their_counts(shorter, at);
        let k = choose|k: int|
            0 <= k < shorter.len() && card_of(#[trigger] shorter[k]) == Some(
                cards_of(shorter)[at],
            );
        assert(resolved[k] == shorter[k]);
    } else {
        assert(card_of(resolved[resolved.len() - 1]) == Some(cards_of(resolved)[at]));
    }
}

} // verus!
