use land_count::card::{CardFace, CardObject, RelatedCardObject, ResponseList, SearchResult};
use land_count::colours::Colours;
use serde_json::Number;
use std::collections::HashMap;
use uuid::Uuid;

/// A card with this name and nothing else: no colours, no cost, no faces.
fn card(name: &str) -> CardObject {
    CardObject {
        arena_id: None,
        id: Uuid::nil(),
        lang: String::new(),
        mtgo_id: None,
        mtgo_foil_id: None,
        multiverse_ids: Vec::new(),
        tcgplayer_id: None,
        tcgplayer_etched_id: None,
        cardmarket_id: None,
        object: String::new(),
        layout: String::new(),
        oracle_id: None,
        prints_search_uri: String::new(),
        rulings_uri: String::new(),
        scryfall_uri: String::new(),
        uri: String::new(),
        all_parts: Vec::new(),
        card_faces: Vec::new(),
        cmc: Number::from(0u64),
        color_identity: Colours(0),
        color_indicator: Vec::new(),
        colors: Colours(0),
        defence: None,
        edh_rank: None,
        hand_modifier: None,
        keywords: Vec::new(),
        legalities: HashMap::new(),
        life_modifier: None,
        loyalty: None,
        mana_cost: None,
        name: name.to_string(),
        oracle_text: None,
        penny_rank: None,
        power: None,
        produced_mana: Vec::new(),
        reserved: false,
        toughness: None,
        type_line: String::new(),
        artist: None,
        artist_ids: Vec::new(),
        attraction_lights: Vec::new(),
        booster: false,
        border_color: String::new(),
        card_back_id: None,
        collector_number: String::new(),
        content_warning: None,
        digital: false,
        finishes: Vec::new(),
        flavor_name: None,
        frame_effects: Vec::new(),
        frame: String::new(),
        full_art: false,
        games: Vec::new(),
        highres_image: false,
        illustration_id: None,
        image_status: String::new(),
        image_uris: HashMap::new(),
        oversized: false,
        prices: HashMap::new(),
        printed_name: None,
        printed_text: None,
        printed_type_line: None,
        promo: false,
        promo_types: Vec::new(),
        purchase_uris: HashMap::new(),
        rarity: String::new(),
        related_uris: HashMap::new(),
        released_at: String::new(),
        reprint: false,
        scryfall_set_uri: String::new(),
        set_name: String::new(),
        set_search_uri: String::new(),
        set_type: String::new(),
        set_uri: String::new(),
        set: String::new(),
        set_id: Uuid::nil(),
        story_spotlight: false,
        textless: false,
        variation: false,
        variation_of: None,
        security_stamp: None,
        watermark: None,
        previewed_at: None,
        source_uri: None,
        source: None,
    }
}

/// A face with these colour letters and nothing else.
fn face(colours: &[char]) -> CardFace {
    CardFace { colors: colours.to_vec(), ..CardFace::default() }
}

/// A page of the service's answer with these cards.
fn page(total_cards: u32, data: Vec<CardObject>) -> ResponseList {
    ResponseList { object: "list".to_string(), total_cards, has_more: false, data }
}

#[test]
fn test_tasigur_colour() {
    let mut tasigur = card("Tasigur, the Golden Fang");
    tasigur.colors = Colours::deserialize(vec!['B']);
    tasigur.color_identity = Colours::deserialize(vec!['B', 'G', 'U']);
    let response = page(1, vec![tasigur]);
    let search_result = response.card_or("".to_string());
    let tasigur = search_result.get_card_ref().unwrap();

    assert!(tasigur.get_colours().0 == 0b00000100);
    assert!(tasigur.get_identity().0 == 0b00001101);
}

#[test]
fn a_card_with_a_mana_cost_and_no_colour_is_a_spell() {
    let mut sol_ring = card("Sol Ring");
    sol_ring.mana_cost = Some("{1}".to_string());
    assert!(sol_ring.is_nonland());
}

#[test]
fn a_card_with_a_colour_is_a_spell() {
    let mut bolt = card("Lightning Bolt");
    bolt.colors = Colours::deserialize(vec!['R']);
    assert!(bolt.is_nonland());
}

#[test]
fn a_card_coloured_on_its_back_face_only_is_a_spell() {
    let mut two_faced = card("Westvale Abbey // Ormendahl, Profane Prince");
    two_faced.card_faces = vec![face(&[]), face(&['B'])];
    assert!(two_faced.is_nonland());
}

#[test]
fn a_card_coloured_on_its_front_face_only_is_a_spell() {
    let mut two_faced = card("Valki, God of Lies // Tibalt, Cosmic Impostor");
    two_faced.card_faces = vec![face(&['B']), face(&[])];
    assert!(two_faced.is_nonland());
}

#[test]
fn a_card_coloured_on_its_only_face_is_a_spell() {
    let mut one_faced = card("Odd One");
    one_faced.card_faces = vec![face(&['G'])];
    assert!(one_faced.is_nonland());
}

#[test]
fn a_colour_on_a_middle_face_does_not_count() {
    let mut three_faced = card("Three Faces");
    three_faced.card_faces = vec![face(&[]), face(&['W']), face(&[])];
    assert!(!three_faced.is_nonland());
}

#[test]
fn a_card_without_colour_or_cost_is_a_land() {
    assert!(!card("Forest").is_nonland());

    let mut with_empty_cost = card("Island");
    with_empty_cost.mana_cost = Some(String::new());
    assert!(!with_empty_cost.is_nonland());

    let mut with_colourless_faces = card("Branchloft Pathway // Boulderloft Pathway");
    with_colourless_faces.card_faces = vec![face(&[]), face(&[])];
    assert!(!with_colourless_faces.is_nonland());
}

#[test]
fn the_cost_of_a_face_does_not_count() {
    let mut split = card("Costly Face");
    let mut front = face(&[]);
    front.mana_cost = "{2}".to_string();
    split.card_faces = vec![front];
    assert!(!split.is_nonland());
}

#[test]
fn an_empty_page_is_no_hit() {
    match page(0, Vec::new()).card_or("name:/^Nothing$/".to_string()) {
        SearchResult::NoHits(query) => assert_eq!(query, "name:/^Nothing$/"),
        other => panic!("{:?}", other),
    }
}

#[test]
fn an_empty_page_is_no_hit_whatever_the_total() {
    let result = page(7, Vec::new()).card_or("name:/^Nothing$/".to_string());
    assert!(matches!(result, SearchResult::NoHits(_)));
    assert!(result.get_card_ref().is_none());
}

#[test]
fn a_page_of_one_card_is_one_hit() {
    match page(1, vec![card("Bog")]).card_or("name:/^Bog$/".to_string()) {
        SearchResult::OneHit(found) => assert_eq!(found, card("Bog")),
        other => panic!("{:?}", other),
    }
}

#[test]
fn a_page_of_one_card_is_one_hit_whatever_the_total() {
    let result = page(3, vec![card("Bog")]).card_or("name:/^Bog$/".to_string());
    assert!(matches!(result, SearchResult::OneHit(_)));
}

#[test]
fn a_page_of_several_cards_gives_the_first_and_the_total() {
    let cards = vec![card("Bog Imp"), card("Bog Rats"), card("Bog Wraith")];
    match page(3, cards).card_or("name:/Bog/".to_string()) {
        SearchResult::MultipleHits(query, total, first) => {
            assert_eq!(query, "name:/Bog/");
            assert_eq!(total, 3);
            assert_eq!(first, card("Bog Imp"));
        },
        other => panic!("{:?}", other),
    }
}

#[test]
fn the_total_is_the_services_not_the_length_of_the_page() {
    let cards = vec![card("Bog Imp"), card("Bog Rats")];
    match page(200, cards).card_or("name:/Bog/".to_string()) {
        SearchResult::MultipleHits(_, total, first) => {
            assert_eq!(total, 200);
            assert_eq!(first.name, "Bog Imp");
        },
        other => panic!("{:?}", other),
    }
}

#[test]
fn the_card_of_a_search_result() {
    let several = SearchResult::MultipleHits("q".to_string(), 2, card("First"));
    assert_eq!(several.get_card_ref(), Some(&card("First")));
    let one = SearchResult::OneHit(card("Only"));
    assert_eq!(one.get_card_ref(), Some(&card("Only")));
    let none = SearchResult::NoHits("q".to_string());
    assert_eq!(none.get_card_ref(), None);
}

#[test]
fn a_card_keeps_what_it_is_given() {
    let mut elaborate = card("Elaborate");
    elaborate.id = Uuid::from_u128(0x0123_4567_89ab_cdef_0123_4567_89ab_cdef);
    elaborate.cmc = Number::from(6u64);
    elaborate.all_parts = vec![RelatedCardObject {
        name: "Part".to_string(),
        ..RelatedCardObject::default()
    }];
    let copy = elaborate.clone();
    assert_eq!(copy, elaborate);
    assert_eq!(copy.cmc.as_u64(), Some(6));
    assert_eq!(copy.all_parts[0].name, "Part");
    assert_eq!(ResponseList::default().data.len(), 0);
}
