use land_count::decklist::{parse_decklist, parse_line, DecklistEntry, ParseError};

fn chars(text: &str) -> Vec<char> {
    text.chars().collect()
}

fn entry(amount: u32, query: &str) -> DecklistEntry {
    DecklistEntry { amount, query: query.to_string() }
}

#[test]
fn a_line_with_set_code_and_number() {
    let entries = parse_decklist("4 Tasigur, the Golden Fang (AAA) 123").unwrap();
    assert_eq!(entries, vec![entry(4, "name:/^Tasigur, the Golden Fang$/")]);
}

#[test]
fn the_query_holds_nothing_of_set_or_number() {
    let entries = parse_decklist("1 Bog (FRF) 87\n").unwrap();
    assert_eq!(entries.len(), 1);
    assert_eq!(entries[0].amount, 1);
    assert_eq!(entries[0].query, "name:/^Bog$/");
    assert!(!entries[0].query.contains("FRF"));
    assert!(!entries[0].query.contains("87"));
}

#[test]
fn a_line_without_set_code() {
    assert_eq!(parse_decklist("12 Snow-Covered Island").unwrap(), vec![entry(
        12,
        "name:/^Snow-Covered Island$/"
    )]);
}

#[test]
fn several_lines_in_order() {
    let text = "1 Sol Ring (C21) 263\n2 Island (M21) 265\n30 Forest\n";
    assert_eq!(parse_decklist(text).unwrap(), vec![
        entry(1, "name:/^Sol Ring$/"),
        entry(2, "name:/^Island$/"),
        entry(30, "name:/^Forest$/"),
    ]);
}

#[test]
fn empty_lines_and_both_line_ends_are_passed_over() {
    let text = "\n\r\n1 Sol Ring\r\n\r\n\n2 Island\r3 Swamp";
    assert_eq!(parse_decklist(text).unwrap(), vec![
        entry(1, "name:/^Sol Ring$/"),
        entry(2, "name:/^Island$/"),
        entry(3, "name:/^Swamp$/"),
    ]);
}

#[test]
fn an_empty_decklist_has_no_entries() {
    assert_eq!(parse_decklist("").unwrap(), Vec::<DecklistEntry>::new());
    assert_eq!(parse_decklist("\n\n\r\n").unwrap(), Vec::<DecklistEntry>::new());
}

#[test]
fn double_spaces_in_a_name_count_once() {
    assert_eq!(parse_decklist("3  Lightning   Bolt  (M10) 146").unwrap(), vec![entry(
        3,
        "name:/^Lightning Bolt$/"
    )]);
}

#[test]
fn a_line_with_only_a_count_gives_an_empty_name() {
    assert_eq!(parse_decklist("4").unwrap(), vec![entry(4, "name:/^$/")]);
    assert_eq!(parse_decklist("4 ").unwrap(), vec![entry(4, "name:/^$/")]);
    assert_eq!(parse_decklist("4 (AAA) 123").unwrap(), vec![entry(4, "name:/^$/")]);
}

#[test]
fn the_name_ends_at_the_first_piece_with_a_bracket() {
    assert_eq!(parse_decklist("1 Fire (Ice) Storm (AAA) 1").unwrap(), vec![entry(
        1,
        "name:/^Fire$/"
    )]);
    assert_eq!(parse_decklist("1 Who/What(When) Where").unwrap(), vec![entry(1, "name:/^$/")]);
}

#[test]
fn a_count_with_plus_or_leading_zeros() {
    assert_eq!(parse_decklist("+4 Bog").unwrap(), vec![entry(4, "name:/^Bog$/")]);
    assert_eq!(parse_decklist("04 Bog").unwrap(), vec![entry(4, "name:/^Bog$/")]);
    assert_eq!(parse_decklist("4294967295 Bog").unwrap(), vec![entry(u32::MAX, "name:/^Bog$/")]);
}

#[test]
fn a_line_without_count_is_refused() {
    assert_eq!(
        parse_decklist("Sol Ring (C21) 263"),
        Err(ParseError { line: 1, text: "Sol Ring (C21) 263".to_string() })
    );
}

#[test]
fn a_count_of_zero_is_refused() {
    assert_eq!(parse_decklist("0 Bog"), Err(ParseError { line: 1, text: "0 Bog".to_string() }));
    assert_eq!(parse_decklist("+000 Bog"), Err(ParseError {
        line: 1,
        text: "+000 Bog".to_string()
    }));
}

#[test]
fn a_count_beyond_32_bits_is_refused() {
    assert_eq!(parse_decklist("4294967296 Bog"), Err(ParseError {
        line: 1,
        text: "4294967296 Bog".to_string()
    }));
}

#[test]
fn a_line_that_starts_with_a_space_is_refused() {
    assert_eq!(parse_decklist(" 4 Bog"), Err(ParseError { line: 1, text: " 4 Bog".to_string() }));
    assert_eq!(parse_decklist("   "), Err(ParseError { line: 1, text: "   ".to_string() }));
}

#[test]
fn a_tab_is_no_space() {
    assert_eq!(parse_decklist("4\tBog"), Err(ParseError { line: 1, text: "4\tBog".to_string() }));
}

#[test]
fn the_error_tells_the_first_bad_line() {
    let text = "1 Sol Ring\n\nx Island\n2 Swamp\ny Forest\n";
    let error = parse_decklist(text).unwrap_err();
    assert_eq!(error, ParseError { line: 2, text: "x Island".to_string() });
    assert_eq!(error.message(), "No card count at the start of line 2: x Island");
}

#[test]
fn one_line_alone() {
    let parsed = parse_line(&chars("2 Nissa, Who Shakes the World (WAR) 169")).unwrap();
    assert_eq!(parsed, entry(2, "name:/^Nissa, Who Shakes the World$/"));
    assert_eq!(parse_line(&chars("two Nissa")), None);
    assert_eq!(parse_line(&chars("")), None);
}
