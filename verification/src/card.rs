//! The card records that the search service sends, and what a search came to.

use crate::colours::Colours;
use serde_json::Number;
use std::collections::HashMap;
use uuid::Uuid;
use vstd::prelude::*;

verus! {

/// `uuid::Uuid`, the identifier that the service gives to cards, sets and
/// artists. The library carries such a value along and never looks inside.
#[verifier::external_type_specification]
#[verifier::external_body]
pub struct ExUuid(uuid::Uuid);

/// `serde_json::Number`, a number as it stood in the service's answer: a mana
/// value may be whole or fractional. The library carries such a value along
/// and never looks inside.
#[verifier::external_type_specification]
#[verifier::external_body]
pub struct ExNumber(serde_json::Number);

/// `Clone::clone` of `uuid::Uuid`, which the crate derives: the copy is the
/// identifier itself.
pub assume_specification[ <uuid::Uuid as Clone>::clone ](id: &uuid::Uuid) -> (copy: uuid::Uuid)
    ensures
        copy == *id,
;

/// `Clone::clone` of `serde_json::Number`, which the crate derives: the copy
/// is the same number.
pub assume_specification[ <serde_json::Number as Clone>::clone ](
    number: &serde_json::Number,
) -> (copy: serde_json::Number)
    ensures
        copy == *number,
;

/// A card as the search service describes it.
#[derive(Debug, PartialEq, Clone)]
pub struct CardObject {
    pub arena_id: Option<u32>,
    pub id: Uuid,
    pub lang: String,
    pub mtgo_id: Option<u32>,
    pub mtgo_foil_id: Option<u32>,
    pub multiverse_ids: Vec<u32>,
    pub tcgplayer_id: Option<u32>,
    pub tcgplayer_etched_id: Option<u32>,
    pub cardmarket_id: Option<u32>,
    pub object: String,
    pub layout: String,
    pub oracle_id: Option<Uuid>,
    pub prints_search_uri: String,
    pub rulings_uri: String,
    pub scryfall_uri: String,
    pub uri: String,
    pub all_parts: Vec<RelatedCardObject>,
    pub card_faces: Vec<CardFace>,
    pub cmc: Number,
    pub color_identity: Colours,
    pub color_indicator: Vec<char>,
    pub colors: Colours,
    pub defence: Option<String>,
    pub edh_rank: Option<u32>,
    pub hand_modifier: Option<String>,
    pub keywords: Vec<String>,
    pub legalities: HashMap<String, String>,
    pub life_modifier: Option<String>,
    pub loyalty: Option<String>,
    pub mana_cost: Option<String>,
    pub name: String,
    pub oracle_text: Option<String>,
    pub penny_rank: Option<u32>,
    pub power: Option<String>,
    pub produced_mana: Vec<char>,
    pub reserved: bool,
    pub toughness: Option<String>,
    pub type_line: String,
    pub artist: Option<String>,
    pub artist_ids: Vec<Uuid>,
    pub attraction_lights: Vec<String>,
    pub booster: bool,
    pub border_color: String,
    pub card_back_id: Option<Uuid>,
    pub collector_number: String,
    pub content_warning: Option<bool>,
    pub digital: bool,
    pub finishes: Vec<String>,
    pub flavor_name: Option<String>,
    pub frame_effects: Vec<String>,
    pub frame: String,
    pub full_art: bool,
    pub games: Vec<String>,
    pub highres_image: bool,
    pub illustration_id: Option<Uuid>,
    pub image_status: String,
    pub image_uris: HashMap<String, String>,
    pub oversized: bool,
    pub prices: HashMap<String, Option<String>>,
    pub printed_name: Option<String>,
    pub printed_text: Option<String>,
    pub printed_type_line: Option<String>,
    pub promo: bool,
    pub promo_types: Vec<String>,
    pub purchase_uris: HashMap<String, String>,
    pub rarity: String,
    pub related_uris: HashMap<String, String>,
    pub released_at: String,
    pub reprint: bool,
    pub scryfall_set_uri: String,
    pub set_name: String,
    pub set_search_uri: String,
    pub set_type: String,
    pub set_uri: String,
    pub set: String,
    pub set_id: Uuid,
    pub story_spotlight: bool,
    pub textless: bool,
    pub variation: bool,
    pub variation_of: Option<Uuid>,
    pub security_stamp: Option<String>,
    pub watermark: Option<String>,
    pub previewed_at: Option<String>,
    pub source_uri: Option<String>,
    pub source: Option<String>,
}

impl CardObject {
    /// Whether the card counts as a spell rather than a land: it has a colour
    /// of its own, or a mana cost that is not empty, or its first or its last
    /// face has a colour. A card with two faces may carry its colours on a
    /// face only.
    pub open spec fn spec_is_nonland(&self) -> bool {
        ||| self.colors.0 > 0
        ||| (self.mana_cost matches Some(cost) && cost@.len() > 0)
        ||| (self.card_faces.len() > 0 && self.card_faces@.first().colors.len() > 0)
        ||| (self.card_faces.len() > 0 && self.card_faces@.last().colors.len() > 0)
    }

    /// Whether the card counts as a spell rather than a land.
    pub fn is_nonland(&self) -> (nonland: bool)
        ensures
            nonland == self.spec_is_nonland(),
    {
        let has_colour: bool = !self.colors.is_colourless();
        let faces: usize = self.card_faces.len();
        let back_side_has_colour: bool = if faces > 0 {
            self.card_faces[faces - 1].colors.len() > 0
        } else {
            false
        };
        let front_side_has_colour: bool = if faces > 0 {
            self.card_faces[0].colors.len() > 0
        } else {
            false
        };
        let has_mana_cost: bool = match &self.mana_cost {
            Some(cost) => !cost.as_str().is_empty(),
            None => false,
        };
        has_colour || has_mana_cost || front_side_has_colour || back_side_has_colour
    }

    /// The colours of the card itself.
    pub fn get_colours<'a>(&'a self) -> (colours: &'a Colours)
        ensures
            *colours == self.colors,
    {
        &self.colors
    }

    /// The colours that the card counts as when a deck is built.
    pub fn get_identity<'a>(&'a self) -> (colours: &'a Colours)
        ensures
            *colours == self.color_identity,
    {
        &self.color_identity
    }
}

/// A card that belongs together with another: a token, a partner, a part of a
/// meld.
#[derive(Debug, Default, PartialEq, Clone)]
pub struct RelatedCardObject {
    pub id: Uuid,
    pub object: String,
    pub component: String,
    pub name: String,
    pub type_line: String,
    pub uri: String,
}

/// One face of a card that has more than one.
#[derive(Debug, Default, PartialEq, Clone)]
pub struct CardFace {
    pub artist: Option<String>,
    pub artist_id: Option<Uuid>,
    pub cmc: Option<Number>,
    pub color_indicator: Vec<char>,
    pub colors: Vec<char>,
    pub defence: Option<String>,
    pub flavor_text: Option<String>,
    pub illustration_id: Option<Uuid>,
    pub image_uris: HashMap<String, String>,
    pub layout: String,
    pub loyalty: String,
    pub mana_cost: String,
    pub name: String,
    pub object: String,
    pub oracle_id: Option<Uuid>,
    pub oracle_text: Option<String>,
    pub power: Option<String>,
    pub printed_name: Option<String>,
    pub printed_text: Option<String>,
    pub printed_type_line: Option<String>,
    pub toughness: Option<String>,
    pub type_line: Option<String>,
    pub watermark: Option<String>,
}

/// One page of the answer to a search.
#[derive(Debug, Default, PartialEq, Clone)]
pub struct ResponseList {
    pub object: String,
    /// How many cards the service found in all, on this page or not.
    pub total_cards: u32,
    pub has_more: bool,
    /// The cards on this page.
    pub data: Vec<CardObject>,
}

impl ResponseList {
    /// What the answer comes to: see [`ResponseList::card_or`].
    pub open spec fn spec_card_or(self, query: String) -> SearchResult {
        if self.data.len() == 0 {
            SearchResult::NoHits(query)
        } else if self.data.len() == 1 {
            SearchResult::OneHit(self.data@[0])
        } else {
            SearchResult::MultipleHits(query, self.total_cards, self.data@[0])
        }
    }

    /// What the answer to the search `query` comes to. An empty page is no
    /// hit, whatever total the service claims. A page of one card is that
    /// card. A page of more is the first card of the page, with the query and
    /// the total that the service reported.
    pub fn card_or(self, query: String) -> (result: SearchResult)
        ensures
            result == self.spec_card_or(query),
    {
        let total_cards = self.total_cards;
        let mut data = self.data;
        if data.len() == 0 {
            return SearchResult::NoHits(query);
        }
        let several = data.len() > 1;
        let card = data.swap_remove(0);
        if several {
            SearchResult::MultipleHits(query, total_cards, card)
        } else {
            SearchResult::OneHit(card)
        }
    }
}

/// What a search came to.
#[derive(Debug, Clone)]
pub enum SearchResult {
    /// The query, how many cards the service found, and the first of them.
    MultipleHits(String, u32, CardObject),
    /// The one card that was found.
    OneHit(CardObject),
    /// The query that found nothing.
    NoHits(String),
}

impl SearchResult {
    /// The card that stands for the search, if it found any.
    pub open spec fn spec_card(&self) -> Option<CardObject> {
        match self {
            SearchResult::MultipleHits(_, _, card) => Some(*card),
            SearchResult::OneHit(card) => Some(*card),
            SearchResult::NoHits(_) => None,
        }
    }

    /// The card that stands for the search, if it found any.
    pub fn get_card_ref<'a>(&'a self) -> (card: Option<&'a CardObject>)
        ensures
            match card {
                Some(card) => self.spec_card() == Some(*card),
                None => self.spec_card() is None,
            },
    {
        match self {
            SearchResult::MultipleHits(_, _, card) => Some(card),
            SearchResult::OneHit(card) => Some(card),
            SearchResult::NoHits(_) => None,
        }
    }
}

/// A card with a mana cost that is not empty counts as a spell, though it may
/// have no colour.
pub proof fn law_cost_makes_a_spell(card: CardObject)
    requires
        card.mana_cost matches Some(cost) && cost@.len() > 0,
    ensures
        card.spec_is_nonland(),
{
}

/// A card with a colour of its own counts as a spell.
pub proof fn law_colour_makes_a_spell(card: CardObject)
    requires
        card.colors.0 > 0,
    ensures
        card.spec_is_nonland(),
{
}

/// A card whose last face has a colour counts as a spell, though the card
/// itself and its other faces may have none: so does a card with two faces
/// that is coloured on its back only.
pub proof fn law_back_face_makes_a_spell(card: CardObject)
    requires
        card.card_faces.len() >= 1,
        card.card_faces@.last().colors.len() > 0,
    ensures
        card.spec_is_nonland(),
{
}

/// A card whose first face has a colour counts as a spell.
pub proof fn law_front_face_makes_a_spell(card: CardObject)
    requires
        card.card_faces.len() >= 1,
        card.card_faces@.first().colors.len() > 0,
    ensures
        card.spec_is_nonland(),
{
}

/// A card without a colour on itself or on any face, and with no mana cost or
/// an empty one, counts as a land.
pub proof fn law_land(card: CardObject)
    requires
        card.colors.0 == 0,
        card.mana_cost matches Some(cost) ==> cost@.len() == 0,
        forall|k: int|
            0 <= k < card.card_faces.len() ==> (#[trigger] card.card_faces@[k]).colors.len() == 0,
    ensures
        !card.spec_is_nonland(),
{
}

} // verus!
