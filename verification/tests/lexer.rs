use bluebrick_bindings_generator::generator::BBFile;
use bluebrick_bindings_generator::lexer::{split_to_basics, BasicToken, BasicTokenVariant};
use bluebrick_bindings_generator::rect::CharRect;

fn lex_text(text: &str) -> Vec<BasicToken> {
    let file = BBFile { name: "test".to_string(), path: "test.bb".to_string(), contents: text.to_string() };
    split_to_basics(&file)
}

fn shape(token: &BasicToken) -> (char, String, (usize, usize), (usize, usize)) {
    let (kind, text) = match &token.variant {
        BasicTokenVariant::Word(text) => ('w', text.clone()),
        BasicTokenVariant::Reserved(text) => ('r', text.clone()),
        BasicTokenVariant::Comment(text) => ('c', text.clone()),
    };
    (kind, text, token.char_rect.start(), token.char_rect.end())
}

fn shapes(text: &str) -> Vec<(char, String, (usize, usize), (usize, usize))> {
    lex_text(text).iter().map(shape).collect()
}

fn tok(kind: char, text: &str, start: (usize, usize), end: (usize, usize)) -> (char, String, (usize, usize), (usize, usize)) {
    (kind, text.to_string(), start, end)
}

#[test]
fn empty_text_has_no_tokens() {
    assert!(shapes("").is_empty());
    assert!(shapes(" \t\n\r\n ").is_empty());
}

#[test]
fn words_and_symbols_with_positions() {
    assert_eq!(
        shapes("mod a::b"),
        vec![
            tok('w', "mod", (1, 1), (1, 3)),
            tok('w', "a", (1, 5), (1, 5)),
            tok('r', "::", (1, 6), (1, 7)),
            tok('w', "b", (1, 8), (1, 8)),
        ]
    );
}

#[test]
fn a_line_feed_starts_a_new_line_at_column_one() {
    assert_eq!(
        shapes("a\nbc\n\n  d"),
        vec![
            tok('w', "a", (1, 1), (1, 1)),
            tok('w', "bc", (2, 1), (2, 2)),
            tok('w', "d", (4, 3), (4, 3)),
        ]
    );
}

#[test]
fn every_white_space_takes_one_column() {
    assert_eq!(
        shapes("a\t\tb \r c"),
        vec![
            tok('w', "a", (1, 1), (1, 1)),
            tok('w', "b", (1, 4), (1, 4)),
            tok('w', "c", (1, 8), (1, 8)),
        ]
    );
}

#[test]
fn all_single_reserved_symbols() {
    let found = shapes(":=,[]{}()<>");
    let texts: Vec<String> = found.iter().map(|t| t.1.clone()).collect();
    assert_eq!(texts, vec![":", "=", ",", "[", "]", "{", "}", "(", ")", "<", ">"]);
    for (i, token) in found.iter().enumerate() {
        assert_eq!(token.0, 'r');
        assert_eq!(token.2, (1, i + 1));
        assert_eq!(token.3, (1, i + 1));
    }
}

#[test]
fn the_longest_reserved_symbol_wins() {
    assert_eq!(
        shapes(":::"),
        vec![tok('r', "::", (1, 1), (1, 2)), tok('r', ":", (1, 3), (1, 3))]
    );
}

#[test]
fn a_double_symbol_at_the_very_end_is_one_token() {
    assert_eq!(
        shapes("a::"),
        vec![tok('w', "a", (1, 1), (1, 1)), tok('r', "::", (1, 2), (1, 3))]
    );
}

#[test]
fn lone_slash_and_star_are_symbols_of_their_own() {
    assert_eq!(
        shapes("/ * */"),
        vec![
            tok('r', "/", (1, 1), (1, 1)),
            tok('r', "*", (1, 3), (1, 3)),
            tok('r', "*/", (1, 5), (1, 6)),
        ]
    );
}

#[test]
fn a_symbol_ends_a_word() {
    assert_eq!(
        shapes("x:i32"),
        vec![
            tok('w', "x", (1, 1), (1, 1)),
            tok('r', ":", (1, 2), (1, 2)),
            tok('w', "i32", (1, 3), (1, 5)),
        ]
    );
}

#[test]
fn line_comment_runs_to_the_end_of_the_line() {
    assert_eq!(
        shapes("x // hi\r\ny"),
        vec![
            tok('w', "x", (1, 1), (1, 1)),
            tok('c', "// hi", (1, 3), (1, 8)),
            tok('w', "y", (2, 1), (2, 1)),
        ]
    );
}

#[test]
fn line_comment_at_the_end_of_the_text() {
    assert_eq!(shapes("//"), vec![tok('c', "//", (1, 1), (1, 2))]);
    assert_eq!(shapes("// a"), vec![tok('c', "// a", (1, 1), (1, 4))]);
}

#[test]
fn block_comment_spans_lines_and_leaves_out_its_end() {
    assert_eq!(
        shapes("/* a\nb */ c"),
        vec![tok('c', "/* a\nb ", (1, 1), (2, 4)), tok('w', "c", (2, 6), (2, 6))]
    );
}

#[test]
fn block_comment_keeps_carriage_returns() {
    assert_eq!(shapes("/*a\r*/"), vec![tok('c', "/*a\r", (1, 1), (1, 6))]);
}

#[test]
fn block_comment_without_end_runs_to_the_end_of_the_text() {
    assert_eq!(shapes("/* x"), vec![tok('c', "/* x", (1, 1), (1, 4))]);
    assert_eq!(shapes("/*"), vec![tok('c', "/*", (1, 1), (1, 2))]);
    assert_eq!(shapes("/*/"), vec![tok('c', "/*/", (1, 1), (1, 3))]);
}

#[test]
fn block_comment_that_ends_in_a_line_feed() {
    assert_eq!(shapes("/*a\n"), vec![tok('c', "/*a\n", (1, 1), (1, 4))]);
}

#[test]
fn columns_after_a_block_comment_count_from_the_line_start() {
    assert_eq!(
        shapes("/*\n*/ x"),
        vec![tok('c', "/*\n", (1, 1), (2, 2)), tok('w', "x", (2, 4), (2, 4))]
    );
}

#[test]
fn words_may_hold_any_other_character() {
    assert_eq!(shapes("h\u{e9}llo_1.5"), vec![tok('w', "h\u{e9}llo_1.5", (1, 1), (1, 9))]);
}

#[test]
fn lexing_twice_gives_the_same_tokens() {
    let text = "mod a::b /* c */ class X [ fields = [ 0 = x: i32 ] ] // end";
    assert_eq!(shapes(text), shapes(text));
}

#[test]
fn spans_are_char_rects() {
    let tokens = lex_text("ab");
    assert_eq!(tokens[0].char_rect, CharRect::new((1, 1), (1, 2)));
}
