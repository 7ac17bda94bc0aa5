use bluebrick_bindings_generator::error::{BindingError, Error, ParseError};
use bluebrick_bindings_generator::generator::BBFile;
use bluebrick_bindings_generator::number::NumberFault;
use bluebrick_bindings_generator::parser::Parser;
use bluebrick_bindings_generator::rect::CharRect;
use bluebrick_bindings_generator::tokens::general_tokens::CallingConvention;

fn parser_on(text: &str) -> Parser {
    Parser::new(BBFile {
        name: "unit".to_string(),
        path: "dir/unit.bb".to_string(),
        contents: text.to_string(),
    })
}

fn parse_error(e: &Error) -> &ParseError {
    match &e.err {
        BindingError::Parse(inner) => inner,
        BindingError::Compute(_) => panic!("a validation error where a parse error was expected"),
    }
}

#[test]
fn new_parser_keeps_its_file() {
    let parser = parser_on("a");
    assert_eq!(parser.file().name, "unit");
    assert_eq!(parser.file().path, "dir/unit.bb");
    assert_eq!(parser.file().contents, "a");
}

#[test]
fn take_word_hands_out_words_in_order() {
    let mut parser = parser_on("one two");
    assert_eq!(parser.take_word().unwrap(), "one");
    assert_eq!(parser.take_word().unwrap(), "two");
    assert!(!parser.has_more());
}

#[test]
fn take_word_at_the_end_of_input() {
    let mut parser = parser_on("");
    let e = parser.take_word().unwrap_err();
    assert!(matches!(parse_error(&e), ParseError::WantWordGotEOF()));
    assert_eq!(e.char_rect, CharRect::default());
    assert_eq!(e.file_name, "dir/unit.bb");
}

#[test]
fn take_word_on_a_reserved_symbol() {
    let mut parser = parser_on("  =");
    let e = parser.take_word().unwrap_err();
    assert!(matches!(parse_error(&e), ParseError::WantWordGotReserved(r) if r == "="));
    assert_eq!(e.char_rect, CharRect::new((1, 3), (1, 3)));
    assert!(!parser.has_more());
}

#[test]
fn take_reserved_hands_out_symbols() {
    let mut parser = parser_on(":: =");
    assert_eq!(parser.take_reserved().unwrap(), "::");
    assert_eq!(parser.take_reserved().unwrap(), "=");
}

#[test]
fn take_reserved_on_a_word() {
    let mut parser = parser_on("word");
    let e = parser.take_reserved().unwrap_err();
    assert!(matches!(parse_error(&e), ParseError::WantReservedGotWord(w) if w == "word"));
    assert_eq!(e.char_rect, CharRect::new((1, 1), (1, 4)));
}

#[test]
fn take_reserved_at_the_end_of_input() {
    let mut parser = parser_on("// only a comment");
    let e = parser.take_reserved().unwrap_err();
    assert!(matches!(parse_error(&e), ParseError::WantReservedGotEOF()));
    assert_eq!(e.char_rect, CharRect::default());
}

#[test]
fn comments_are_passed_over_by_takes() {
    let mut parser = parser_on("/* a */ x // b\n /* c */ = y");
    assert_eq!(parser.take_word().unwrap(), "x");
    assert_eq!(parser.take_reserved().unwrap(), "=");
    assert_eq!(parser.take_word().unwrap(), "y");
}

#[test]
fn peeks_look_past_comments_and_take_nothing() {
    let parser = parser_on("/* a */ x");
    assert_eq!(parser.peek_word(), Some("x".to_string()));
    assert_eq!(parser.peek_reserved(), None);
    assert_eq!(parser.peek_word(), Some("x".to_string()));
    let parser = parser_on("// a\n::");
    assert_eq!(parser.peek_reserved(), Some("::".to_string()));
    assert_eq!(parser.peek_word(), None);
}

#[test]
fn peeks_at_the_end_of_input() {
    let parser = parser_on("/* only */");
    assert_eq!(parser.peek_word(), None);
    assert_eq!(parser.peek_reserved(), None);
    assert!(!parser.has_more());
}

#[test]
fn span_of_a_node_covers_words_and_comments_it_took() {
    let mut parser = parser_on("/* c */ x = y");
    parser.start_token();
    parser.take_word().unwrap();
    assert_eq!(parser.token_char_rect().unwrap(), CharRect::new((1, 1), (1, 9)));
    parser.take_reserved().unwrap();
    parser.take_word().unwrap();
    assert_eq!(parser.token_char_rect().unwrap(), CharRect::new((1, 1), (1, 13)));
}

#[test]
fn span_of_a_node_that_took_nothing_is_all_zero() {
    let mut parser = parser_on("x");
    parser.start_token();
    assert_eq!(parser.token_char_rect().unwrap(), CharRect::default());
}

#[test]
fn span_outside_any_node_is_an_error() {
    let mut parser = parser_on("x");
    parser.take_word().unwrap();
    let e = parser.token_char_rect().unwrap_err();
    assert!(matches!(parse_error(&e), ParseError::NoLastUsedBasic));
    assert_eq!(e.char_rect, CharRect::default());
}

#[test]
fn inner_node_span_is_its_own_and_outer_span_covers_it() {
    let mut parser = parser_on("a b c d");
    parser.start_token();
    parser.take_word().unwrap();
    parser.start_token();
    parser.take_word().unwrap();
    parser.take_word().unwrap();
    assert_eq!(parser.token_char_rect().unwrap(), CharRect::new((1, 3), (1, 5)));
    parser.end_token();
    assert_eq!(parser.token_char_rect().unwrap(), CharRect::new((1, 1), (1, 5)));
    parser.take_word().unwrap();
    assert_eq!(parser.token_char_rect().unwrap(), CharRect::new((1, 1), (1, 7)));
    parser.end_token();
    assert!(parser.token_char_rect().is_err());
}

#[test]
fn make_error_sits_at_the_last_token_that_is_no_comment() {
    let mut parser = parser_on("a /* note */ b");
    parser.start_token();
    parser.take_word().unwrap();
    let e = parser.make_error(ParseError::EmptyModule);
    assert!(matches!(parse_error(&e), ParseError::EmptyModule));
    assert_eq!(e.char_rect, CharRect::new((1, 1), (1, 1)));
    assert_eq!(e.file_name, "dir/unit.bb");
    parser.start_token();
    let e = parser.make_error(ParseError::EmptyModule);
    assert_eq!(e.char_rect, CharRect::new((1, 1), (1, 1)));
    parser.take_word().unwrap();
    let e = parser.make_error(ParseError::EmptyModule);
    assert_eq!(e.char_rect, CharRect::new((1, 14), (1, 14)));
}

#[test]
fn make_error_before_anything_was_taken() {
    let mut parser = parser_on("a");
    parser.start_token();
    let e = parser.make_error(ParseError::EmptyModule);
    assert!(matches!(parse_error(&e), ParseError::NoLastUsedBasic));
    assert_eq!(e.char_rect, CharRect::default());
}

#[test]
fn drop_word_and_drop_reserved() {
    let mut parser = parser_on("a = b");
    assert!(parser.drop_word().is_ok());
    assert!(parser.drop_reserved().is_ok());
    assert!(parser.drop_reserved().is_err());
    assert!(!parser.has_more());
    let mut parser = parser_on("=");
    assert!(parser.drop_word().is_err());
}

#[test]
fn if_word_takes_only_the_word_it_names() {
    let mut parser = parser_on("alpha beta =");
    assert_eq!(parser.if_word("beta").unwrap(), false);
    assert_eq!(parser.peek_word(), Some("alpha".to_string()));
    assert_eq!(parser.if_word("alpha").unwrap(), true);
    assert_eq!(parser.peek_word(), Some("beta".to_string()));
    assert_eq!(parser.if_word("beta").unwrap(), true);
    assert_eq!(parser.if_word("=").unwrap(), false);
    assert_eq!(parser.peek_reserved(), Some("=".to_string()));
}

#[test]
fn if_reserved_looks_and_takes_nothing() {
    let parser = parser_on("/* c */ < a");
    assert_eq!(parser.if_reserved("<").unwrap(), true);
    assert_eq!(parser.if_reserved(">").unwrap(), false);
    assert_eq!(parser.peek_reserved(), Some("<".to_string()));
    let parser = parser_on("a");
    assert_eq!(parser.if_reserved("<").unwrap(), false);
}

#[test]
fn if_reserved_refuses_what_is_no_symbol() {
    let parser = parser_on("<");
    for text in ["word", "", "/", "*", ":::", "<<"] {
        let e = parser.if_reserved(text).unwrap_err();
        assert!(matches!(parse_error(&e), ParseError::NoLastUsedBasic));
    }
    let mut parser = parser_on("x <");
    parser.start_token();
    parser.take_word().unwrap();
    let e = parser.if_reserved("word").unwrap_err();
    assert!(matches!(parse_error(&e), ParseError::NotAReserved(t) if t == "word"));
    assert_eq!(e.char_rect, CharRect::new((1, 1), (1, 1)));
}

#[test]
fn is_reserved_knows_the_fifteen_symbols() {
    for text in ["//", "/*", "*/", "::", ":", "=", ",", "[", "]", "{", "}", "(", ")", "<", ">"] {
        assert!(Parser::is_reserved(text), "{}", text);
    }
    for text in ["", "/", "*", "a", ":=", ":::", "[]", " ", "\u{e9}"] {
        assert!(!Parser::is_reserved(text), "{}", text);
    }
}

#[test]
fn expect_word_accepts_an_option() {
    let mut parser = parser_on("class Foo");
    assert_eq!(parser.expect_word(&["mod", "class"]).unwrap(), "class");
    assert_eq!(parser.peek_word(), Some("Foo".to_string()));
}

#[test]
fn expect_word_refuses_another_word() {
    let mut parser = parser_on("klass Foo");
    parser.start_token();
    let e = parser.expect_word(&["mod", "class"]).unwrap_err();
    match parse_error(&e) {
        ParseError::UnexpectedWord { word, options } => {
            assert_eq!(word, "klass");
            assert_eq!(options, &vec!["mod".to_string(), "class".to_string()]);
        }
        other => panic!("{:?}", other),
    }
    assert_eq!(e.char_rect, CharRect::new((1, 1), (1, 5)));
    assert_eq!(parser.peek_word(), Some("Foo".to_string()));
}

#[test]
fn expect_word_passes_on_the_errors_of_take_word() {
    let mut parser = parser_on("[");
    let e = parser.expect_word(&["a"]).unwrap_err();
    assert!(matches!(parse_error(&e), ParseError::WantWordGotReserved(r) if r == "["));
    let mut parser = parser_on("");
    let e = parser.expect_word(&["a"]).unwrap_err();
    assert!(matches!(parse_error(&e), ParseError::WantWordGotEOF()));
}

#[test]
fn expect_reserved_accepts_an_option() {
    let mut parser = parser_on("{ x");
    assert_eq!(parser.expect_reserved(&["[", "{"]).unwrap(), "{");
    assert_eq!(parser.peek_word(), Some("x".to_string()));
}

#[test]
fn expect_reserved_refuses_another_symbol() {
    let mut parser = parser_on("( x");
    parser.start_token();
    let e = parser.expect_reserved(&["[", "{"]).unwrap_err();
    match parse_error(&e) {
        ParseError::UnexpectedReserved { reserved, options } => {
            assert_eq!(reserved, "(");
            assert_eq!(options, &vec!["[".to_string(), "{".to_string()]);
        }
        other => panic!("{:?}", other),
    }
    assert_eq!(e.char_rect, CharRect::new((1, 1), (1, 1)));
}

#[test]
fn expect_reserved_checks_its_options_first() {
    let mut parser = parser_on("[ x");
    parser.start_token();
    let e = parser.expect_reserved(&["[", "begin", "also"]).unwrap_err();
    assert!(matches!(parse_error(&e), ParseError::NoLastUsedBasic));
    assert_eq!(parser.peek_reserved(), Some("[".to_string()));
    parser.take_reserved().unwrap();
    let e = parser.expect_reserved(&["begin", "also"]).unwrap_err();
    assert!(matches!(parse_error(&e), ParseError::NotAReserved(t) if t == "begin"));
    assert_eq!(parser.peek_word(), Some("x".to_string()));
}

#[test]
fn expect_reserved_passes_on_the_errors_of_take_reserved() {
    let mut parser = parser_on("x");
    let e = parser.expect_reserved(&["["]).unwrap_err();
    assert!(matches!(parse_error(&e), ParseError::WantReservedGotWord(w) if w == "x"));
    let mut parser = parser_on("");
    let e = parser.expect_symbol("[").unwrap_err();
    assert!(matches!(parse_error(&e), ParseError::WantReservedGotEOF()));
}

#[test]
fn expect_symbol_takes_the_one_symbol() {
    let mut parser = parser_on("= :");
    assert_eq!(parser.expect_symbol("=").unwrap(), "=");
    assert!(parser.expect_symbol("=").is_err());
}

#[test]
fn expect_num_reads_all_four_bases() {
    let mut parser = parser_on("0x1A 0b101 0o17 42");
    assert_eq!(parser.expect_num::<u32>().unwrap(), 26);
    assert_eq!(parser.expect_num::<u32>().unwrap(), 5);
    assert_eq!(parser.expect_num::<u32>().unwrap(), 15);
    assert_eq!(parser.expect_num::<u32>().unwrap(), 42);
}

#[test]
fn expect_num_reads_digits_of_either_case_and_a_plus_sign() {
    let mut parser = parser_on("0xff 0xFF +7 0x+1a 0 007");
    assert_eq!(parser.expect_num::<u32>().unwrap(), 255);
    assert_eq!(parser.expect_num::<u32>().unwrap(), 255);
    assert_eq!(parser.expect_num::<u32>().unwrap(), 7);
    assert_eq!(parser.expect_num::<u32>().unwrap(), 26);
    assert_eq!(parser.expect_num::<u32>().unwrap(), 0);
    assert_eq!(parser.expect_num::<u32>().unwrap(), 7);
}

#[test]
fn expect_num_reads_usize() {
    let mut parser = parser_on("0x10 4294967296");
    assert_eq!(parser.expect_num::<usize>().unwrap(), 16);
    assert_eq!(parser.expect_num::<usize>().unwrap() as u64, 4294967296u64);
}

#[test]
fn expect_num_up_to_the_limit_of_the_type() {
    let mut parser = parser_on("4294967295 4294967296 0xFFFFFFFF 0x100000000");
    parser.start_token();
    assert_eq!(parser.expect_num::<u32>().unwrap(), u32::MAX);
    let e = parser.expect_num::<u32>().unwrap_err();
    match parse_error(&e) {
        ParseError::InvalidNumber { word, num_type, e } => {
            assert_eq!(word, "4294967296");
            assert_eq!(num_type, "u32");
            assert_eq!(*e, NumberFault::PosOverflow);
        }
        other => panic!("{:?}", other),
    }
    assert_eq!(parser.expect_num::<u32>().unwrap(), u32::MAX);
    assert!(parser.expect_num::<u32>().is_err());
}

#[test]
fn expect_num_refuses_what_is_no_number() {
    let mut parser = parser_on("0xZZ");
    parser.start_token();
    let e = parser.expect_num::<u32>().unwrap_err();
    match parse_error(&e) {
        ParseError::InvalidNumber { word, num_type, e } => {
            assert_eq!(word, "ZZ");
            assert_eq!(num_type, "u32");
            assert_eq!(*e, NumberFault::InvalidDigit);
        }
        other => panic!("{:?}", other),
    }
    assert_eq!(e.char_rect, CharRect::new((1, 1), (1, 4)));
}

#[test]
fn expect_num_names_the_type_it_wanted() {
    let mut parser = parser_on("many");
    let e = parser.expect_num::<usize>().unwrap_err();
    assert!(matches!(parse_error(&e), ParseError::NoLastUsedBasic));
    let mut parser = parser_on("many");
    parser.start_token();
    let e = parser.expect_num::<usize>().unwrap_err();
    assert!(
        matches!(parse_error(&e), ParseError::InvalidNumber { word, num_type, .. } if word == "many" && num_type == "usize")
    );
}

#[test]
fn expect_num_faults() {
    for (text, fault) in [
        ("0x", NumberFault::Empty),
        ("0b", NumberFault::Empty),
        ("0b2", NumberFault::InvalidDigit),
        ("0o8", NumberFault::InvalidDigit),
        ("12a", NumberFault::InvalidDigit),
        ("-1", NumberFault::InvalidDigit),
        ("+", NumberFault::InvalidDigit),
        ("1_000", NumberFault::InvalidDigit),
        ("0X1A", NumberFault::InvalidDigit),
    ] {
        let mut parser = parser_on(text);
        parser.start_token();
        let e = parser.expect_num::<u32>().unwrap_err();
        match parse_error(&e) {
            ParseError::InvalidNumber { e, .. } => assert_eq!(*e, fault, "{}", text),
            other => panic!("{}: {:?}", text, other),
        }
    }
}

#[test]
fn expect_num_passes_on_the_errors_of_take_word() {
    let mut parser = parser_on("=");
    let e = parser.expect_num::<u32>().unwrap_err();
    assert!(matches!(parse_error(&e), ParseError::WantWordGotReserved(r) if r == "="));
}

#[test]
fn from_word_reads_calling_conventions() {
    let mut parser = parser_on("cdecl stdcall fastcall thiscall");
    assert_eq!(parser.from_word::<CallingConvention>().unwrap(), CallingConvention::Cdecl);
    assert_eq!(parser.from_word::<CallingConvention>().unwrap(), CallingConvention::Stdcall);
    assert_eq!(parser.from_word::<CallingConvention>().unwrap(), CallingConvention::Fastcall);
    assert_eq!(parser.from_word::<CallingConvention>().unwrap(), CallingConvention::Thiscall);
}

#[test]
fn from_word_refuses_other_words() {
    let mut parser = parser_on("pascal");
    parser.start_token();
    let e = parser.from_word::<CallingConvention>().unwrap_err();
    assert!(matches!(parse_error(&e), ParseError::InvalidCallConv(w) if w == "pascal"));
    assert_eq!(e.char_rect, CharRect::new((1, 1), (1, 6)));
    let mut parser = parser_on("");
    let e = parser.from_word::<CallingConvention>().unwrap_err();
    assert!(matches!(parse_error(&e), ParseError::WantWordGotEOF()));
}

#[test]
fn errors_are_equal_when_they_lie_at_the_same_place() {
    let mut parser = parser_on("a");
    parser.start_token();
    parser.take_word().unwrap();
    let first = parser.make_error(ParseError::EmptyModule);
    let second = parser.make_error(ParseError::RanOutOfUsedBasics);
    assert!(first == second);
    let mut other = parser_on("  a");
    other.start_token();
    other.take_word().unwrap();
    let third = other.make_error(ParseError::EmptyModule);
    assert!(first != third);
}

#[test]
fn trace_lines_are_indented_by_the_nodes_around() {
    let mut parser = parser_on("a");
    assert_eq!(parser.token_tabs_by_depth(), "");
    parser.start_token();
    assert_eq!(parser.token_tabs_by_depth(), "");
    parser.start_token();
    assert_eq!(parser.token_tabs_by_depth(), "\t");
    parser.start_token();
    assert_eq!(parser.token_tabs_by_depth(), "\t\t");
    parser.end_token();
    parser.end_token();
    assert_eq!(parser.token_tabs_by_depth(), "");
}
