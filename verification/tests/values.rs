use mutation_engine::values::{Alignment, Parser, ParseError};

fn parser_of(words: &[&str]) -> Parser {
    Parser::new(words.iter().map(|w| w.to_string()).collect())
}

#[test]
fn alignment_keywords_parse() {
    let cases = [
        ("start", Alignment::Start),
        ("center", Alignment::Center),
        ("end", Alignment::End),
        ("space-between", Alignment::SpaceBetween),
        ("space-evenly", Alignment::SpaceEvenly),
        ("space-around", Alignment::SpaceAround),
    ];
    for (word, expected) in cases {
        let mut p = parser_of(&[word]);
        assert_eq!(Alignment::from_parser(&mut p), Ok(expected));
        assert_eq!(p.pos, 1);
    }
}

#[test]
fn unknown_keyword_is_an_error_and_consumes_nothing() {
    let mut p = parser_of(&["middle"]);
    assert_eq!(Alignment::from_parser(&mut p), Err(ParseError));
    assert_eq!(p.pos, 0);
}

#[test]
fn exhausted_parser_is_an_error() {
    let mut p = parser_of(&[]);
    assert_eq!(Alignment::from_parser(&mut p), Err(ParseError));
}

#[test]
fn consecutive_tokens_parse_in_order() {
    let mut p = parser_of(&["start", "end"]);
    assert_eq!(Alignment::from_parser(&mut p), Ok(Alignment::Start));
    assert_eq!(Alignment::from_parser(&mut p), Ok(Alignment::End));
    assert_eq!(Alignment::from_parser(&mut p), Err(ParseError));
}
