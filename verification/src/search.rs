//! Looking the entries of a decklist up: which requests may be out at a time,
//! and what each reply comes to.
//!
//! The library sends nothing itself. A [`Resolver`] tells its caller which
//! request to send next and is told each reply as it comes in, in whatever
//! order that is. It never lets more requests be out than its limit allows.
//! A lookup that fails does not stop the others: the entry is left out of the
//! results and its failure is kept, so that the caller can report it.

use crate::card::{ResponseList, SearchResult};
use crate::decimal::{decimal, decimal_of};
use crate::decklist::DecklistEntry;
use crate::text::append_chars;
use vstd::prelude::*;
use vstd::string::StringExecFns;

verus! {

/// How many requests may be out at a time, unless the caller says otherwise.
pub const CONCURRENT_REQUESTS: usize = 9;

/// The status that tells the client to slow down.
pub const TOO_MANY_REQUESTS: u16 = 429;

/// What came back for one request.
#[derive(Debug, Clone)]
pub enum Reply {
    /// Nothing: the request failed on the way, or no answer came in time.
    NoAnswer,
    /// An answer, with its status and, where the body could be read as one, the
    /// page of cards that it held.
    Answer { status: u16, page: Option<ResponseList> },
}

/// Why a lookup gave no result. Each kind holds the query that was looked up.
#[derive(Debug, Clone)]
pub enum LookupError {
    /// No answer came.
    Transport(String),
    /// The service asked the client to slow down.
    RateLimited(String),
    /// The service answered with this status, which is no success.
    Status(String, u16),
    /// The answer was a success, but its body was no page of cards.
    Malformed(String),
}

/// A decklist entry after its lookup: the count of the entry, and what the
/// search for its card came to.
#[derive(Debug, Clone)]
pub struct ResolvedEntry {
    pub amount: u32,
    pub outcome: SearchResult,
}

/// A request that the caller is to send.
#[derive(Debug, Clone)]
pub struct Request {
    /// Names the request: the caller hands it back with the reply.
    pub ticket: usize,
    /// The query to search for.
    pub query: String,
}

/// Whether a status is a success: 200 to 299.
pub open spec fn spec_is_success(status: u16) -> bool {
    200 <= status <= 299
}

/// Whether a status is a success: 200 to 299.
#[verifier::when_used_as_spec(spec_is_success)]
pub fn is_success(status: u16) -> (success: bool)
    ensures
        success == spec_is_success(status),
{
    200 <= status && status <= 299
}

/// What a reply to the search `query` comes to.
pub open spec fn spec_interpret(query: String, reply: Reply) -> Result<SearchResult, LookupError> {
    match reply {
        Reply::NoAnswer => Err(LookupError::Transport(query)),
        Reply::Answer { status, page } => if status == TOO_MANY_REQUESTS {
            Err(LookupError::RateLimited(query))
        } else if !spec_is_success(status) {
            Err(LookupError::Status(query, status))
        } else {
            match page {
                Some(page) => Ok(page.spec_card_or(query)),
                None => Err(LookupError::Malformed(query)),
            }
        },
    }
}

/// What a reply to the search `query` comes to. A success with a page of
/// cards gives what [`ResponseList::card_or`] makes of the page. Anything
/// else is an error: the status 429 one of its own kind, so that it can be
/// told from other failures.
pub fn interpret(query: String, reply: Reply) -> (result: Result<SearchResult, LookupError>)
    ensures
        result == spec_interpret(query, reply),
{
    match reply {
        Reply::NoAnswer => Err(LookupError::Transport(query)),
        Reply::Answer { status, page } => {
            if status == TOO_MANY_REQUESTS {
                Err(LookupError::RateLimited(query))
            } else if !is_success(status) {
                Err(LookupError::Status(query, status))
            } else {
                match page {
                    Some(page) => Ok(page.card_or(query)),
                    None => Err(LookupError::Malformed(query)),
                }
            }
        },
    }
}

impl LookupError {
    /// The query whose lookup failed.
    pub open spec fn spec_query(&self) -> String {
        match self {
            LookupError::Transport(query) => *query,
            LookupError::RateLimited(query) => *query,
            LookupError::Status(query, _) => *query,
            LookupError::Malformed(query) => *query,
        }
    }

    /// The query whose lookup failed.
    pub fn query<'a>(&'a self) -> (query: &'a String)
        ensures
            *query == self.spec_query(),
    {
        match self {
            LookupError::Transport(query) => query,
            LookupError::RateLimited(query) => query,
            LookupError::Status(query, _) => query,
            LookupError::Malformed(query) => query,
        }
    }

    /// What went wrong, in words.
    pub open spec fn spec_message(&self) -> Seq<char> {
        match self {
            LookupError::Transport(query) => "No answer to the search for "@ + query@,
            LookupError::RateLimited(query) => "Too many requests, so no search for "@ + query@,
            LookupError::Status(query, status) => "Status "@ + decimal(*status as nat)
                + " in answer to the search for "@ + query@,
            LookupError::Malformed(query) => "Unreadable answer to the search for "@ + query@,
        }
    }

    /// What went wrong, in words: which query, and for which of the four
    /// reasons its lookup failed.
    pub fn message(&self) -> (message: String)
        ensures
            message@ == self.spec_message(),
    {
        match self {
            LookupError::Transport(query) => {
                let mut message = String::from_str("No answer to the search for ");
                message.append(query.as_str());
                message
            },
            LookupError::RateLimited(query) => {
                let mut message = String::from_str("Too many requests, so no search for ");
                message.append(query.as_str());
                message
            },
            LookupError::Status(query, status) => {
                let mut message = String::from_str("Status ");
                let digits = decimal_of(*status as u64);
                append_chars(&mut message, &digits);
                message.append(" in answer to the search for ");
                message.append(query.as_str());
                message
            },
            LookupError::Malformed(query) => {
                let mut message = String::from_str("Unreadable answer to the search for ");
                message.append(query.as_str());
                message
            },
        }
    }

    /// Whether the service asked the client to slow down.
    pub fn is_rate_limited(&self) -> (limited: bool)
        ensures
            limited == (self is RateLimited),
    {
        match self {
            LookupError::RateLimited(_) => true,
            _ => false,
        }
    }
}

/// Whether `result` is what some reply to the lookup of `entry` comes to, with
/// the count of the entry.
pub open spec fn is_result_of(entry: DecklistEntry, result: ResolvedEntry) -> bool {
    &&& result.amount == entry.amount
    &&& exists|reply: Reply| #[trigger]
        spec_interpret(entry.query, reply) == Ok::<SearchResult, LookupError>(result.outcome)
}

/// Whether `failure` is what some reply to the lookup of `entry` comes to.
pub open spec fn is_failure_of(entry: DecklistEntry, failure: LookupError) -> bool {
    exists|reply: Reply| #[trigger]
        spec_interpret(entry.query, reply) == Err::<SearchResult, LookupError>(failure)
}

/// Whether no ticket is in both lists.
pub open spec fn no_ticket_shared(first: Seq<usize>, second: Seq<usize>) -> bool {
    forall|i: int, j: int|
        0 <= i < first.len() && 0 <= j < second.len() ==> #[trigger] first[i]
            != #[trigger] second[j]
}

/// The state of one pass over a decklist: which entries have been asked for,
/// which requests are still out, and what has come back.
pub struct Resolver {
    limit: usize,
    entries: Vec<DecklistEntry>,
    issued: usize,
    outstanding: Vec<usize>,
    resolved: Vec<ResolvedEntry>,
    resolved_from: Vec<usize>,
    failures: Vec<LookupError>,
    failed_from: Vec<usize>,
}

impl Resolver {
    /// How many requests may be out at a time.
    pub closed spec fn limit(&self) -> nat {
        self.limit as nat
    }

    /// The entries to look up, in the order of the decklist.
    pub closed spec fn entries(&self) -> Seq<DecklistEntry> {
        self.entries@
    }

    /// How many entries have been asked for so far. The ticket of a request is
    /// the place of its entry in the decklist, and requests are handed out in
    /// that order: the tickets below this number are the ones in use.
    pub closed spec fn issued(&self) -> nat {
        self.issued as nat
    }

    /// The tickets of the requests that are out.
    pub closed spec fn outstanding(&self) -> Seq<usize> {
        self.outstanding@
    }

    /// The entries whose lookup gave a result, in the order in which the
    /// replies came in.
    pub closed spec fn resolved(&self) -> Seq<ResolvedEntry> {
        self.resolved@
    }

    /// For each result, the ticket of the request that it answers.
    pub closed spec fn resolved_from(&self) -> Seq<usize> {
        self.resolved_from@
    }

    /// The lookups that failed, in the order in which the replies came in.
    pub closed spec fn failures(&self) -> Seq<LookupError> {
        self.failures@
    }

    /// For each failure, the ticket of the request that it answers.
    pub closed spec fn failed_from(&self) -> Seq<usize> {
        self.failed_from@
    }

    /// No more requests are out than the limit allows.
    pub open spec fn bounded(&self) -> bool {
        self.outstanding().len() <= self.limit()
    }

    /// Every ticket that was handed out is in one place and one only: its
    /// request is out, or it has given a result, or it has given a failure.
    pub open spec fn tickets_accounted_for(&self) -> bool {
        &&& self.issued() <= self.entries().len()
        &&& self.outstanding().len() + self.resolved_from().len() + self.failed_from().len()
            == self.issued()
        &&& self.outstanding().no_duplicates()
        &&& self.resolved_from().no_duplicates()
        &&& self.failed_from().no_duplicates()
        &&& no_ticket_shared(self.outstanding(), self.resolved_from())
        &&& no_ticket_shared(self.outstanding(), self.failed_from())
        &&& no_ticket_shared(self.resolved_from(), self.failed_from())
        &&& forall|ticket: usize|
            ticket < self.issued() <==> self.outstanding().contains(ticket)
                || self.resolved_from().contains(ticket) || self.failed_from().contains(ticket)
    }

    /// Each result and each failure is what a reply to the lookup of its own
    /// entry came to, and each result has the count of that entry.
    pub open spec fn answers_match_entries(&self) -> bool {
        &&& self.resolved_from().len() == self.resolved().len()
        &&& self.failed_from().len() == self.failures().len()
        &&& forall|i: int|
            0 <= i < self.resolved().len() ==> is_result_of(
                self.entries()[self.resolved_from()[i] as int],
                #[trigger] self.resolved()[i],
            )
        &&& forall|i: int|
            0 <= i < self.failures().len() ==> is_failure_of(
                self.entries()[self.failed_from()[i] as int],
                #[trigger] self.failures()[i],
            )
    }

    /// What holds of a resolver at all times.
    pub open spec fn wf(&self) -> bool {
        &&& self.bounded()
        &&& self.tickets_accounted_for()
        &&& self.answers_match_entries()
    }

    /// Whether every entry has been asked for and every reply has come in.
    pub open spec fn spec_is_done(&self) -> bool {
        self.issued() == self.entries().len() && self.outstanding().len() == 0
    }

    /// Whether a request may be handed out now: an entry is left to ask for,
    /// and fewer requests are out than the limit allows.
    pub open spec fn may_issue(&self) -> bool {
        self.issued() < self.entries().len() && self.outstanding().len() < self.limit()
    }

    /// A resolver for the entries, with nothing asked for yet.
    pub fn new(entries: Vec<DecklistEntry>, limit: usize) -> (resolver: Resolver)
        ensures
            resolver.wf(),
            resolver.limit() == limit,
            resolver.entries() == entries@,
            resolver.issued() == 0,
            resolver.outstanding() == Seq::<usize>::empty(),
            resolver.resolved() == Seq::<ResolvedEntry>::empty(),
            resolver.failures() == Seq::<LookupError>::empty(),
    {
        Resolver {
            limit,
            entries,
            issued: 0,
            outstanding: Vec::new(),
            resolved: Vec::new(),
            resolved_from: Vec::new(),
            failures: Vec::new(),
            failed_from: Vec::new(),
        }
    }

    /// How many requests are out.
    pub fn in_flight(&self) -> (count: usize)
        ensures
            count == self.outstanding().len(),
    {
        self.outstanding.len()
    }

    /// Whether every entry has been asked for and every reply has come in.
    #[verifier::when_used_as_spec(spec_is_done)]
    pub fn is_done(&self) -> (done: bool)
        ensures
            done == self.spec_is_done(),
    {
        self.issued == self.entries.len() && self.outstanding.len() == 0
    }

    /// The next request to send, if one may be sent now. The entries are asked
    /// for in the order of the decklist. Where the limit is reached, or no
    /// entry is left, there is none, and nothing changes.
    pub fn next_request(&mut self) -> (request: Option<Request>)
        requires
            old(self).wf(),
        ensures
            final(self).wf(),
            final(self).limit() == old(self).limit(),
            final(self).entries() == old(self).entries(),
            final(self).resolved() == old(self).resolved(),
            final(self).resolved_from() == old(self).resolved_from(),
            final(self).failures() == old(self).failures(),
            final(self).failed_from() == old(self).failed_from(),
            request is Some <==> old(self).may_issue(),
            match request {
                Some(request) => {
                    &&& request.ticket == old(self).issued()
                    &&& request.query == old(self).entries()[request.ticket as int].query
                    &&& final(self).issued() == old(self).issued() + 1
                    &&& final(self).outstanding() == old(self).outstanding().push(request.ticket)
                },
                None => {
                    &&& final(self).issued() == old(self).issued()
                    &&& final(self).outstanding() == old(self).outstanding()
                },
            },
    {
        if self.issued >= self.entries.len() || self.outstanding.len() >= self.limit {
            return None;
        }
        let ticket = self.issued;
        let query = self.entries[ticket].query.clone();
        self.outstanding.push(ticket);
        self.issued = ticket + 1;
        proof {
            let before = old(self).outstanding();
            let after = self.outstanding();
            let results = self.resolved_from();
            let failures = self.failed_from();
            assert forall|i: int| 0 <= i < before.len() implies before[i] < ticket by {
                assert(before.contains(before[i]));
            }
            assert forall|i: int| 0 <= i < results.len() implies results[i] < ticket by {
                assert(results.contains(results[i]));
            }
            assert forall|i: int| 0 <= i < failures.len() implies failures[i] < ticket by {
                assert(failures.contains(failures[i]));
            }
            assert(after.no_duplicates());
            assert(no_ticket_shared(after, results));
            assert(no_ticket_shared(after, failures));
            assert forall|other: usize|
                other < self.issued() <==> after.contains(other) || self.resolved_from().contains(
                    other,
                ) || self.failed_from().contains(other) by {
                lemma_pushed(before, ticket, other);
            }
        }
        Some(Request { ticket, query })
    }

    /// Takes in the reply to the request with this ticket. The result is
    /// `false`, and nothing changes, if no such request is out. Else the
    /// request is out no longer, and what its reply comes to is kept: a
    /// result, with the count of the entry that the request was made for, or
    /// a failure.
    pub fn complete(&mut self, ticket: usize, reply: Reply) -> (known: bool)
        requires
            old(self).wf(),
        ensures
            final(self).wf(),
            final(self).limit() == old(self).limit(),
            final(self).entries() == old(self).entries(),
            final(self).issued() == old(self).issued(),
            known == old(self).outstanding().contains(ticket),
            !known ==> {
                &&& final(self).outstanding() == old(self).outstanding()
                &&& final(self).resolved() == old(self).resolved()
                &&& final(self).resolved_from() == old(self).resolved_from()
                &&& final(self).failures() == old(self).failures()
                &&& final(self).failed_from() == old(self).failed_from()
            },
            known ==> {
                &&& exists|k: int|
                    0 <= k < old(self).outstanding().len() && old(self).outstanding()[k] == ticket
                        && final(self).outstanding() == old(self).outstanding().remove(k)
                &&& match spec_interpret(old(self).entries()[ticket as int].query, reply) {
                    Ok(outcome) => {
                        &&& final(self).resolved() == old(self).resolved().push(
                            ResolvedEntry {
                                amount: old(self).entries()[ticket as int].amount,
                                outcome,
                            },
                        )
                        &&& final(self).resolved_from() == old(self).resolved_from().push(ticket)
                        &&& final(self).failures() == old(self).failures()
                        &&& final(self).failed_from() == old(self).failed_from()
                    },
                    Err(error) => {
                        &&& final(self).resolved() == old(self).resolved()
                        &&& final(self).resolved_from() == old(self).resolved_from()
                        &&& final(self).failures() == old(self).failures().push(error)
                        &&& final(self).failed_from() == old(self).failed_from().push(ticket)
                    },
                }
            },
    {
        let mut at: usize = 0;
        while at < self.outstanding.len() && self.outstanding[at] != ticket
            invariant
                at <= self.outstanding.len(),
                *self == *old(self),
                forall|j: int| 0 <= j < at ==> self.outstanding@[j] != ticket,
            decreases self.outstanding.len() - at,
        {
            at += 1;
        }
        if at == self.outstanding.len() {
            return false;
        }
        assert(old(self).outstanding().contains(ticket));
        self.outstanding.remove(at);
        let amount = self.entries[ticket].amount;
        let query = self.entries[ticket].query.clone();
        match interpret(query, reply) {
            Ok(outcome) => {
                self.resolved.push(ResolvedEntry { amount, outcome });
                self.resolved_from.push(ticket);
                proof {
                    lemma_moved(
                        old(self).outstanding(),
                        at as int,
                        old(self).resolved_from(),
                        old(self).failed_from(),
                    );
                    assert forall|other: usize|
                        other < self.issued() <==> self.outstanding().contains(other)
                            || self.resolved_from().contains(other) || self.failed_from().contains(
                            other,
                        ) by {
                        lemma_pushed(old(self).resolved_from(), ticket, other);
                        lemma_removed(old(self).outstanding(), at as int, other);
                    }
                }
            },
            Err(error) => {
                self.failures.push(error);
                self.failed_from.push(ticket);
                proof {
                    lemma_moved(
                        old(self).outstanding(),
                        at as int,
                        old(self).failed_from(),
                        old(self).resolved_from(),
                    );
                    assert forall|other: usize|
                        other < self.issued() <==> self.outstanding().contains(other)
                            || self.resolved_from().contains(other) || self.failed_from().contains(
                            other,
                        ) by {
                        lemma_pushed(old(self).failed_from(), ticket, other);
                        lemma_removed(old(self).outstanding(), at as int, other);
                    }
                }
            },
        }
        true
    }

    /// Ends the pass: the results and the failures, each in the order in which
    /// the replies came in. Requests that are still out are given up.
    pub fn finish(self) -> (out: (Vec<ResolvedEntry>, Vec<LookupError>))
        ensures
            out.0@ == self.resolved(),
            out.1@ == self.failures(),
    {
        (self.resolved, self.failures)
    }
}

/// What a list holds after one more ticket was put at its end.
proof fn lemma_pushed(tickets: Seq<usize>, ticket: usize, other: usize)
    ensures
        tickets.push(ticket).contains(other) <==> tickets.contains(other) || other == ticket,
{
    let longer = tickets.push(ticket);
    if tickets.contains(other) {
        let k = choose|k: int| 0 <= k < tickets.len() && tickets[k] == other;
        assert(longer[k] == other);
    }
    if other == ticket {
        assert(longer[tickets.len() as int] == other);
    }
}

/// What a list without duplicates holds after the ticket at `at` was taken out.
proof fn lemma_removed(tickets: Seq<usize>, at: int, other: usize)
    requires
        0 <= at < tickets.len(),
        tickets.no_duplicates(),
    ensures
        tickets.remove(at).contains(other) <==> tickets.contains(other) && other != tickets[at],
{
    let shorter = tickets.remove(at);
    if tickets.contains(other) && other != tickets[at] {
        let k = choose|k: int| 0 <= k < tickets.len() && tickets[k] == other;
        let to = if k < at { k } else { k - 1 };
        assert(shorter[to] == other);
    }
}

/// A ticket that moves from the list `from` to the end of the list `to` leaves
/// all three lists without duplicates and without a ticket in common. That
/// `to` and `third` have none in common may be known in either order.
proof fn lemma_moved(from: Seq<usize>, at: int, to: Seq<usize>, third: Seq<usize>)
    requires
        0 <= at < from.len(),
        from.no_duplicates(),
        to.no_duplicates(),
        no_ticket_shared(from, to),
        no_ticket_shared(from, third),
        no_ticket_shared(to, third) || no_ticket_shared(third, to),
    ensures
        from.remove(at).no_duplicates(),
        to.push(from[at]).no_duplicates(),
        no_ticket_shared(from.remove(at), to.push(from[at])),
        no_ticket_shared(from.remove(at), third),
        no_ticket_shared(to.push(from[at]), third),
        no_ticket_shared(third, to.push(from[at])),
{
    let shorter = from.remove(at);
    let longer = to.push(from[at]);
    assert forall|i: int| 0 <= i < shorter.len() implies #[trigger] shorter[i] == from[if i < at {
        i
    } else {
        i + 1
    }] by {}
    assert(shorter.no_duplicates());
    assert(longer.no_duplicates());
    assert(no_ticket_shared(shorter, longer));
    assert(no_ticket_shared(shorter, third));
    assert(no_ticket_shared(longer, third));
}

/// At no time are more requests out than the limit allows.
pub proof fn law_in_flight_bounded(resolver: Resolver)
    requires
        resolver.wf(),
    ensures
        resolver.outstanding().len() <= resolver.limit(),
{
}

/// Every entry that was asked for is accounted for: it is still out, or it has
/// given one result or one failure. At the end of a pass the results and the
/// failures are as many as the entries.
pub proof fn law_entries_accounted_for(resolver: Resolver)
    requires
        resolver.wf(),
    ensures
        resolver.resolved().len() + resolver.failures().len() + resolver.outstanding().len()
            == resolver.issued(),
        resolver.spec_is_done() ==> resolver.resolved().len() + resolver.failures().len()
            == resolver.entries().len(),
{
}

/// A pass with a limit of at least 1 cannot get stuck: until it is done, a
/// request may be handed out or a reply is still to come.
pub proof fn law_progress(resolver: Resolver)
    requires
        resolver.wf(),
        resolver.limit() >= 1,
        !resolver.spec_is_done(),
    ensures
        resolver.may_issue() || resolver.outstanding().len() > 0,
{
}

/// Each result belongs to an entry of the decklist: it has the count of that
/// entry, and its outcome is what a reply to the search for that entry came
/// to. The place of a result among the results says nothing; its ticket does.
pub proof fn law_results_come_from_entries(resolver: Resolver, i: int)
    requires
        resolver.wf(),
        0 <= i < resolver.resolved().len(),
    ensures
        resolver.resolved_from()[i] < resolver.entries().len(),
        is_result_of(
            resolver.entries()[resolver.resolved_from()[i] as int],
            resolver.resolved()[i],
        ),
{
    let ticket = resolver.resolved_from()[i];
    assert(resolver.resolved_from().contains(ticket));
}

/// Each failure belongs to an entry of the decklist: it is what a reply to the
/// search for that entry came to.
pub proof fn law_failures_come_from_entries(resolver: Resolver, i: int)
    requires
        resolver.wf(),
        0 <= i < resolver.failures().len(),
    ensures
        resolver.failed_from()[i] < resolver.entries().len(),
        is_failure_of(
            resolver.entries()[resolver.failed_from()[i] as int],
            resolver.failures()[i],
        ),
{
    let ticket = resolver.failed_from()[i];
    assert(resolver.failed_from().contains(ticket));
}

/// At the end of a pass each entry of the decklist has been answered once:
/// its ticket stands once among the tickets of the results or once among
/// those of the failures, and not in both.
pub proof fn law_each_entry_answered_once(resolver: Resolver, ticket: usize)
    requires
        resolver.wf(),
        resolver.spec_is_done(),
        ticket < resolver.entries().len(),
    ensures
        resolver.resolved_from().contains(ticket) != resolver.failed_from().contains(ticket),
        resolver.resolved_from().no_duplicates(),
        resolver.failed_from().no_duplicates(),
{
    if resolver.resolved_from().contains(ticket) && resolver.failed_from().contains(ticket) {
        let i = choose|i: int|
            0 <= i < resolver.resolved_from().len() && resolver.resolved_from()[i] == ticket;
        let j = choose|j: int|
            0 <= j < resolver.failed_from().len() && resolver.failed_from()[j] == ticket;
        assert(resolver.resolved_from()[i] != resolver.failed_from()[j]);
    }
}

} // verus!
