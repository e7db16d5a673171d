use station_photos::text::{
    chars_eq_ignoring_ascii_case, chars_of, same_text, split_chars, string_of, to_ascii_lower,
};

fn pieces(text: &str, separator: char) -> Vec<String> {
    split_chars(&chars_of(text), separator).iter().map(string_of).collect()
}

#[test]
fn a_text_is_its_characters() {
    assert_eq!(chars_of("a经b"), vec!['a', '经', 'b']);
    assert_eq!(chars_of(""), Vec::<char>::new());
    assert_eq!(string_of(&vec!['a', '经', 'b']), "a经b");
    assert_eq!(string_of(&Vec::new()), "");
}

#[test]
fn texts_are_the_same_when_their_characters_are() {
    assert!(same_text("Placemark", "Placemark"));
    assert!(!same_text("Placemark", "placemark"));
    assert!(!same_text("Placemark", "Placemarks"));
    assert!(same_text("", ""));
}

#[test]
fn a_text_splits_into_the_pieces_between_separators() {
    assert_eq!(pieces("a,b,c", ','), vec!["a", "b", "c"]);
    assert_eq!(pieces("abc", ','), vec!["abc"]);
    assert_eq!(pieces("", ','), vec![""]);
    assert_eq!(pieces(",", ','), vec!["", ""]);
    assert_eq!(pieces("a,,b,", ','), vec!["a", "", "b", ""]);
    assert_eq!(pieces("120 deg 30 min", ' '), vec!["120", "deg", "30", "min"]);
}

#[test]
fn only_ascii_capitals_are_lowered() {
    assert_eq!(to_ascii_lower('A'), 'a');
    assert_eq!(to_ascii_lower('Z'), 'z');
    assert_eq!(to_ascii_lower('a'), 'a');
    assert_eq!(to_ascii_lower('@'), '@');
    assert_eq!(to_ascii_lower('['), '[');
    assert_eq!(to_ascii_lower('Ä'), 'Ä');
    assert_eq!(to_ascii_lower('5'), '5');
}

#[test]
fn case_is_passed_over_for_ascii_letters_only() {
    assert!(chars_eq_ignoring_ascii_case(&chars_of("KmL"), &chars_of("kml")));
    assert!(!chars_eq_ignoring_ascii_case(&chars_of("kml"), &chars_of("kmz")));
    assert!(!chars_eq_ignoring_ascii_case(&chars_of("kml"), &chars_of("kmll")));
    assert!(!chars_eq_ignoring_ascii_case(&chars_of("Ä"), &chars_of("ä")));
    assert!(chars_eq_ignoring_ascii_case(&chars_of(""), &chars_of("")));
}
