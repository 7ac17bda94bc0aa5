use bluebrick_bindings_generator::bindings::{Error, ParseError, Parser};
use bluebrick_bindings_generator::number::NumberFault;
use bluebrick_bindings_generator::rect::CharRect;

fn rest(parser: &Parser) -> String {
    parser.peek_chars(usize::MAX)
}

#[test]
fn text_is_normalised_before_it_is_read() {
    let parser = Parser::new("f", "  a   b \n\n  c\r\nd ");
    assert_eq!(rest(&parser), "a b\nc\nd");
    let parser = Parser::new("f", "\t one\t\ttwo\u{a0}three  ");
    assert_eq!(rest(&parser), "one two three");
}

#[test]
fn normalising_nothing_gives_nothing() {
    for text in ["", "   ", "\n", "\r\n\r\n", " \n \t\n"] {
        let parser = Parser::new("f", text);
        assert_eq!(rest(&parser), "", "{:?}", text);
        assert!(!parser.has_chars());
    }
}

#[test]
fn normalising_keeps_single_spaces_and_line_feeds() {
    let parser = Parser::new("f", "a b\nc d");
    assert_eq!(rest(&parser), "a b\nc d");
    let parser = Parser::new("f", "a\rb");
    assert_eq!(rest(&parser), "a\nb");
    let parser = Parser::new("f", "\n\n a \n\n\n b\n\n");
    assert_eq!(rest(&parser), "a\nb");
}

#[test]
fn a_new_parser_stands_at_the_origin() {
    let parser = Parser::new("f", "a");
    assert_eq!(parser.current_pos(), (0, 0));
    assert!(parser.has_chars());
}

#[test]
fn peek_chars_shows_and_takes_nothing() {
    let parser = Parser::new("f", "abc def");
    assert_eq!(parser.peek_chars(0), "");
    assert_eq!(parser.peek_chars(2), "ab");
    assert_eq!(parser.peek_chars(7), "abc def");
    assert_eq!(parser.peek_chars(100), "abc def");
    assert_eq!(parser.peek_chars(2), "ab");
    assert_eq!(parser.current_pos(), (0, 0));
}

#[test]
fn drop_chars_lets_characters_go_and_keeps_the_position() {
    let mut parser = Parser::new("f", "a::b");
    assert_eq!(parser.word(), "a");
    assert_eq!(parser.peek_chars(2), "::");
    parser.drop_chars(2);
    assert_eq!(parser.current_pos(), (0, 1));
    assert_eq!(parser.word(), "b");
    parser.drop_chars(5);
    assert!(!parser.has_chars());
    let mut parser = Parser::new("f", "abc");
    parser.drop_chars(0);
    assert_eq!(rest(&parser), "abc");
    parser.drop_chars(100);
    assert_eq!(rest(&parser), "");
}

#[test]
fn words_end_at_white_space_which_goes_with_them() {
    let mut parser = Parser::new("f", "class Foo bar");
    assert_eq!(parser.word(), "class");
    assert_eq!(parser.current_pos(), (0, 6));
    assert_eq!(rest(&parser), "Foo bar");
    assert_eq!(parser.word(), "Foo");
    assert_eq!(parser.current_pos(), (0, 10));
    assert_eq!(parser.word(), "bar");
    assert_eq!(parser.current_pos(), (0, 13));
    assert_eq!(parser.word(), "");
    assert!(!parser.has_chars());
}

#[test]
fn a_line_feed_moves_to_the_next_line() {
    let mut parser = Parser::new("f", "a\nbc\nd");
    assert_eq!(parser.word(), "a");
    assert_eq!(parser.current_pos(), (1, 0));
    assert_eq!(parser.word(), "bc");
    assert_eq!(parser.current_pos(), (2, 0));
    assert_eq!(parser.word(), "d");
    assert_eq!(parser.current_pos(), (2, 1));
}

#[test]
fn symbols_end_words_and_are_words_of_their_own() {
    let mut parser = Parser::new("f", "x: arr<i32>");
    assert_eq!(parser.word(), "x");
    assert_eq!(parser.current_pos(), (0, 1));
    assert_eq!(parser.word(), ":");
    assert_eq!(parser.current_pos(), (0, 2));
    assert_eq!(rest(&parser), "arr<i32>");
    assert_eq!(parser.word(), "arr");
    assert_eq!(parser.word(), "<");
    assert_eq!(parser.word(), "i32");
    assert_eq!(parser.word(), ">");
    assert_eq!(parser.word(), "");
}

#[test]
fn every_symbol_is_a_word() {
    let mut parser = Parser::new("f", ":=[{]},()<>");
    for symbol in [":", "=", "[", "{", "]", "}", ",", "(", ")", "<", ">"] {
        assert_eq!(parser.word(), symbol);
    }
    assert!(!parser.has_chars());
}

#[test]
fn a_white_space_behind_a_symbol_goes_with_it() {
    let mut parser = Parser::new("f", "= x");
    assert_eq!(parser.word(), "=");
    assert_eq!(rest(&parser), "x");
    assert_eq!(parser.current_pos(), (0, 1));
}

#[test]
fn a_white_space_before_a_word_is_passed_over() {
    let mut parser = Parser::new("f", "a: b");
    parser.drop_chars(2);
    assert_eq!(rest(&parser), " b");
    assert_eq!(parser.word(), "b");
    assert_eq!(parser.current_pos(), (0, 2));
}

#[test]
fn word_parser_expect_word_accepts_an_option() {
    let mut parser = Parser::new("f", "mod a");
    assert_eq!(parser.expect_word(&["class", "mod"]).unwrap(), "mod");
    assert_eq!(parser.expect_word(&["a"]).unwrap(), "a");
}

#[test]
fn word_parser_expect_word_refuses_another_word() {
    let mut parser = Parser::new("unit", "klass Foo");
    let e = parser.expect_word(&["mod", "class"]).unwrap_err();
    assert_eq!(e.file_name, "unit");
    assert_eq!(e.char_rect, CharRect::new((0, 0), (0, 6)));
    match &e.err {
        ParseError::UnexpectedWord { word, options } => {
            assert_eq!(word, "klass");
            assert_eq!(options, &vec!["mod".to_string(), "class".to_string()]);
        }
        other => panic!("{:?}", other),
    }
    assert_eq!(
        e.to_string(),
        "Failed to parse unit.bb from 0, 0, to 0, 6: Unexpected word \"klass\", expected one of [\"mod\", \"class\"]"
    );
    assert_eq!(parser.word(), "Foo");
}

#[test]
fn expect_word_at_the_end_of_the_text() {
    let mut parser = Parser::new("unit", "a");
    parser.word();
    let e = parser.expect_word(&["mod"]).unwrap_err();
    assert!(matches!(&e.err, ParseError::FoundEOFWord { options } if options == &vec!["mod".to_string()]));
    assert_eq!(e.char_rect, CharRect::new((0, 1), (0, 1)));
    assert_eq!(e.err.to_string(), "Found EOF, expected one of [\"mod\"]");
}

#[test]
fn expect_char_accepts_an_option() {
    let mut parser = Parser::new("f", "= [x");
    assert_eq!(parser.expect_char(&['=']).unwrap(), '=');
    assert_eq!(parser.expect_char(&['(', '[']).unwrap(), '[');
    assert_eq!(parser.expect_char(&['x']).unwrap(), 'x');
}

#[test]
fn expect_char_refuses_another_character() {
    let mut parser = Parser::new("f", "a: b");
    parser.word();
    let e = parser.expect_char(&['=', ',']).unwrap_err();
    assert!(matches!(&e.err, ParseError::UnexpectedChar { symbol: ':', options } if options == &vec!['=', ',']));
    assert_eq!(e.char_rect, CharRect::new((0, 1), (0, 2)));
    assert_eq!(e.err.to_string(), "Unexpected symbol ':', expected one of ['=', ',']");
}

#[test]
fn expect_char_refuses_a_longer_word() {
    let mut parser = Parser::new("f", "ab =");
    let e = parser.expect_char(&['=']).unwrap_err();
    assert!(matches!(&e.err, ParseError::InvalidChar { word, options } if word == "ab" && options == &vec!['=']));
    assert_eq!(e.err.to_string(), "Unexpected word \"ab\", expected one of ['=']");
}

#[test]
fn expect_char_at_the_end_of_the_text() {
    let mut parser = Parser::new("f", "");
    let e = parser.expect_char(&['=']).unwrap_err();
    assert!(matches!(&e.err, ParseError::FoundEOFChar { options } if options == &vec!['=']));
    assert_eq!(e.err.to_string(), "Found EOF, expected one of ['=']");
}

#[test]
fn word_parser_expect_num_reads_all_four_bases() {
    let mut parser = Parser::new("f", "0x1A 0b101 0o17 42 0x10");
    assert_eq!(parser.expect_num::<u32>().unwrap(), 26);
    assert_eq!(parser.expect_num::<u32>().unwrap(), 5);
    assert_eq!(parser.expect_num::<u32>().unwrap(), 15);
    assert_eq!(parser.expect_num::<u32>().unwrap(), 42);
    assert_eq!(parser.expect_num::<usize>().unwrap(), 16);
}

#[test]
fn expect_num_stops_at_a_symbol() {
    let mut parser = Parser::new("f", "12=x");
    assert_eq!(parser.expect_num::<u32>().unwrap(), 12);
    assert_eq!(parser.word(), "=");
}

#[test]
fn word_parser_expect_num_refuses_what_is_no_number() {
    let mut parser = Parser::new("f", "0xZZ");
    let e = parser.expect_num::<u32>().unwrap_err();
    match &e.err {
        ParseError::InvalidNumber { word, num_type, e } => {
            assert_eq!(word, "0xZZ");
            assert_eq!(num_type, "u32");
            assert_eq!(*e, NumberFault::InvalidDigit);
        }
        other => panic!("{:?}", other),
    }
    assert_eq!(e.char_rect, CharRect::new((0, 0), (0, 4)));
    assert_eq!(e.err.to_string(), "\"0xZZ\" is not a valid u32: invalid digit found in string");
    let mut parser = Parser::new("f", "4294967296");
    let e = parser.expect_num::<u32>().unwrap_err();
    assert!(matches!(&e.err, ParseError::InvalidNumber { e: NumberFault::PosOverflow, .. }));
}

#[test]
fn expect_num_at_the_end_of_the_text() {
    let mut parser = Parser::new("f", "");
    let e = parser.expect_num::<usize>().unwrap_err();
    assert!(matches!(&e.err, ParseError::FoundEOFNum { num_type } if num_type == "usize"));
    assert_eq!(e.err.to_string(), "Found EOF, expected usize");
}

#[test]
fn make_error_spans_from_the_last_word_to_the_current_place() {
    let mut parser = Parser::new("unit", "ab\ncd ef");
    parser.word();
    parser.word();
    let e: Error = parser.make_error(ParseError::FoundEOFNum { num_type: "u8".to_string() });
    assert_eq!(e.file_name, "unit");
    assert_eq!(e.char_rect, CharRect::new((1, 0), (1, 3)));
    assert_eq!(e.to_string(), "Failed to parse unit.bb from 1, 0, to 1, 3: Found EOF, expected u8");
}
