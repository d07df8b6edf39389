//! Counting the lands for a Magic: The Gathering deck.
//!
//! The library does the part of the work that needs no network and no window:
//!
//! - [`decklist`] reads the text of a decklist into entries, each a count and
//!   the search that finds the card;
//! - [`search`] decides which of the searches may be out at a time, and what
//!   each reply comes to: one card, the first of several, none, or a failure;
//! - [`card`] holds the card records that the search service sends, and tells
//!   a spell from a land;
//! - [`colours`] packs the colour letters of a card into five bits and writes
//!   them out again;
//! - [`aggregate`] sorts what was found into the card list and the warnings
//!   that the user is shown;
//! - [`bulk_files`] picks the file of all cards out of the service's index;
//! - [`decimal`] and [`text`] read and write numbers and cut and join text.
//!
//! A caller reads the decklist with [`decklist::parse_decklist`], hands the
//! entries to a [`search::Resolver`], sends each request that the resolver
//! hands out and tells it the reply, and gives the results to
//! [`aggregate::aggregate`].

pub mod aggregate;
pub mod bulk_files;
pub mod card;
pub mod colours;
pub mod decimal;
pub mod decklist;
pub mod search;
pub mod text;
