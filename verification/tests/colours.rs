use land_count::colours::{Colours, ColoursVisitor, BLACK, BLUE, GREEN, RED, WHITE};

#[test]
fn black_green_blue_in_any_order() {
    let first = ColoursVisitor::new().visit_seq(vec!['B', 'G', 'U']);
    let second = ColoursVisitor::new().visit_seq(vec!['U', 'B', 'G']);
    assert_eq!(first, second);
    assert_eq!(first.0, 0b0000_1101);
    assert_eq!(first.0, BLACK | GREEN | BLUE);
}

#[test]
fn each_letter_has_its_bit() {
    assert_eq!(Colours::deserialize(vec!['W']).0, 0b0001_0000);
    assert_eq!(Colours::deserialize(vec!['U']).0, 0b0000_1000);
    assert_eq!(Colours::deserialize(vec!['B']).0, 0b0000_0100);
    assert_eq!(Colours::deserialize(vec!['R']).0, 0b0000_0010);
    assert_eq!(Colours::deserialize(vec!['G']).0, 0b0000_0001);
    assert_eq!(WHITE | BLUE | BLACK | RED | GREEN, 31);
}

#[test]
fn no_letters_is_colourless() {
    let none = Colours::deserialize(Vec::new());
    assert_eq!(none, Colours(0));
    assert_eq!(none, Colours::default());
    assert!(none.is_colourless());
    assert!(none.serialize().is_empty());
}

#[test]
fn other_characters_are_passed_over() {
    assert_eq!(Colours::deserialize(vec!['X', 'w', 'g', ' ', 'C']), Colours(0));
    assert_eq!(Colours::deserialize(vec!['X', 'R', '1']), Colours(RED));
}

#[test]
fn a_repeated_letter_counts_once() {
    assert_eq!(Colours::deserialize(vec!['G', 'G', 'W', 'G']), Colours(WHITE | GREEN));
}

#[test]
fn letters_come_out_lowest_bit_first() {
    assert_eq!(Colours(0b0001_1111).serialize(), vec!['G', 'R', 'B', 'U', 'W']);
    assert_eq!(Colours(0b0000_1101).serialize(), vec!['G', 'B', 'U']);
    assert_eq!(Colours(0b0001_0000).serialize(), vec!['W']);
}

#[test]
fn every_colour_set_survives_the_round_trip() {
    for bits in 0u8..32 {
        let colours = Colours(bits);
        assert_eq!(Colours::deserialize(colours.serialize()), colours);
    }
}

#[test]
fn bits_above_the_five_are_not_written_out() {
    let odd = Colours::from(0b0010_0001);
    assert_eq!(odd.0, 0b0010_0001);
    assert_eq!(odd.serialize(), vec!['G']);
    assert_eq!(Colours::deserialize(odd.serialize()), Colours(GREEN));
}

#[test]
fn from_keeps_the_byte() {
    assert_eq!(Colours::from(13).0, 13);
    let through_into: Colours = 4u8.into();
    assert_eq!(through_into, Colours(BLACK));
}

#[test]
fn colour_sets_are_ordered_as_their_bytes() {
    assert!(Colours(GREEN) < Colours(RED));
    assert!(Colours(WHITE) > Colours(BLUE | BLACK | RED | GREEN));
    assert!(Colours(BLACK) <= Colours(BLACK));
    assert_eq!(Colours(3).partial_cmp(&Colours(3)), Some(std::cmp::Ordering::Equal));
    assert_eq!(Colours(3).partial_cmp(&Colours(4)), Some(std::cmp::Ordering::Less));
    assert_eq!(Colours(5).partial_cmp(&Colours(4)), Some(std::cmp::Ordering::Greater));
}

#[test]
fn the_visitor_says_what_it_expects() {
    assert_eq!(ColoursVisitor::new().expecting(), "a list of mtg colours");
}
