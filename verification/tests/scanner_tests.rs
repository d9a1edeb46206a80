//! End-to-end tests of the scanner: scenarios, losslessness, line counts,
//! repeatability, and the classification rules.

use syntax_scan::line::SyntaxBlocks;
use syntax_scan::scanner::parse;
use syntax_scan::token::SyntaxType;
use syntax_scan::token::TextType;

fn scan(text: &str) -> SyntaxBlocks {
    let chars: Vec<char> = text.chars().collect();
    let mut blocks: SyntaxBlocks = Vec::new();
    parse(&chars, &mut blocks);
    blocks
}

fn line_tokens(blocks: &SyntaxBlocks, i: usize) -> Vec<(SyntaxType, TextType)> {
    let line = &blocks[i];
    let mut out: Vec<(SyntaxType, TextType)> = Vec::new();
    let mut j = 0;
    while j < line.len() {
        out.push(line.get(j).clone());
        j += 1;
    }
    out
}

fn tok_s(t: SyntaxType, s: &str) -> (SyntaxType, TextType) {
    (t, TextType::String(s.to_string()))
}

fn tok_c(t: SyntaxType, c: char) -> (SyntaxType, TextType) {
    (t, TextType::Char(c))
}

fn reconstruct(blocks: &SyntaxBlocks) -> String {
    let mut out = String::new();
    for i in 0..blocks.len() {
        let line = &blocks[i];
        for j in 0..line.len() {
            out.push_str(&line.get(j).1.to_text());
        }
    }
    out
}

fn without_cr(text: &str) -> String {
    text.chars().filter(|c| *c != '\r').collect()
}

#[test]
fn special_keyword_true_single_token() {
    let blocks = scan("true");
    assert_eq!(blocks.len(), 1);
    assert_eq!(
        line_tokens(&blocks, 0),
        vec![tok_s(SyntaxType::SpecialKeyword, "true")]
    );
}

#[test]
fn let_statement_tokens() {
    let blocks = scan("let x = 1;");
    assert_eq!(blocks.len(), 1);
    assert_eq!(
        line_tokens(&blocks, 0),
        vec![
            tok_s(SyntaxType::Keyword, "let"),
            tok_s(SyntaxType::Unknown, " "),
            tok_s(SyntaxType::Unknown, "x"),
            tok_s(SyntaxType::Unknown, " "),
            tok_c(SyntaxType::Punctuation, '='),
            tok_s(SyntaxType::Unknown, " "),
            tok_c(SyntaxType::Number, '1'),
            tok_c(SyntaxType::Punctuation, ';'),
        ]
    );
}

#[test]
fn one_line_comment_then_code() {
    let blocks = scan("// comment\ncode");
    assert_eq!(blocks.len(), 2);
    assert_eq!(
        line_tokens(&blocks, 0),
        vec![tok_s(SyntaxType::Comment, "// comment\n")]
    );
    assert_eq!(
        line_tokens(&blocks, 1),
        vec![tok_s(SyntaxType::Unknown, "code")]
    );
}

#[test]
fn multi_line_comment_carries_mode_across_lines() {
    let blocks = scan("/* a\nb */x");
    assert_eq!(blocks.len(), 2);
    assert_eq!(
        line_tokens(&blocks, 0),
        vec![tok_s(SyntaxType::Comment, "/* a\n")]
    );
    assert_eq!(
        line_tokens(&blocks, 1),
        vec![
            tok_s(SyntaxType::Comment, "b */"),
            tok_s(SyntaxType::Unknown, "x"),
        ]
    );
}

#[test]
fn multi_line_comment_closing_on_one_line() {
    let blocks = scan("/*a*/b");
    assert_eq!(blocks.len(), 1);
    assert_eq!(
        line_tokens(&blocks, 0),
        vec![
            tok_s(SyntaxType::Comment, "/*a*/"),
            tok_s(SyntaxType::Unknown, "b"),
        ]
    );
}

#[test]
fn one_line_comment_keeps_star_slash() {
    let blocks = scan("// x */ y");
    assert_eq!(blocks.len(), 1);
    assert_eq!(
        line_tokens(&blocks, 0),
        vec![tok_s(SyntaxType::Comment, "// x */ y")]
    );
}

#[test]
fn comment_swallows_quote() {
    let blocks = scan("/*\"*/");
    assert_eq!(blocks.len(), 1);
    assert_eq!(
        line_tokens(&blocks, 0),
        vec![tok_s(SyntaxType::Comment, "/*\"*/")]
    );
}

#[test]
fn lossless_on_plain_code() {
    let inputs = [
        "let x = 1;",
        "fn main() { println(\"hi\"); }",
        "// c\ncode\n/* m\nulti */ tail",
        "a.b.c(1,2)[3]",
        "  leading and  trailing  ",
        "\"unterminated\nnext",
        "/ not a comment * /",
    ];
    for input in inputs {
        let blocks = scan(input);
        assert_eq!(reconstruct(&blocks), without_cr(input));
    }
}

#[test]
fn lossless_with_carriage_returns() {
    let inputs = ["a\r\nb", "x\ry", "\r", "line\r\n\r\nend\r"];
    for input in inputs {
        let blocks = scan(input);
        assert_eq!(reconstruct(&blocks), without_cr(input));
    }
}

#[test]
fn line_counts() {
    assert_eq!(scan("").len(), 0);
    assert_eq!(scan("a").len(), 1);
    assert_eq!(scan("a\n").len(), 1);
    assert_eq!(scan("a\nb").len(), 2);
    assert_eq!(scan("\n").len(), 1);
    assert_eq!(scan("\n\n").len(), 2);
    assert_eq!(scan("a\r").len(), 1);
    assert_eq!(scan("\r").len(), 0);
    assert_eq!(scan("one\ntwo\nthree").len(), 3);
}

#[test]
fn scan_twice_is_identical() {
    let text: Vec<char> = "let x = 1; // done\n\"s\".y(2)".chars().collect();
    let mut blocks: SyntaxBlocks = Vec::new();
    parse(&text, &mut blocks);
    let first: Vec<Vec<(SyntaxType, TextType)>> =
        (0..blocks.len()).map(|i| line_tokens(&blocks, i)).collect();
    parse(&text, &mut blocks);
    let second: Vec<Vec<(SyntaxType, TextType)>> =
        (0..blocks.len()).map(|i| line_tokens(&blocks, i)).collect();
    assert_eq!(first, second);
}

#[test]
fn scan_clears_previous_output() {
    let mut blocks: SyntaxBlocks = Vec::new();
    let old: Vec<char> = "completely different\ntext".chars().collect();
    parse(&old, &mut blocks);
    let text: Vec<char> = "true".chars().collect();
    parse(&text, &mut blocks);
    assert_eq!(blocks.len(), 1);
    assert_eq!(
        line_tokens(&blocks, 0),
        vec![tok_s(SyntaxType::SpecialKeyword, "true")]
    );
}

#[test]
fn all_caps_word_is_special_keyword() {
    let blocks = scan("CONST");
    assert_eq!(blocks.len(), 1);
    assert_eq!(
        line_tokens(&blocks, 0),
        vec![tok_s(SyntaxType::SpecialKeyword, "CONST")]
    );
}

#[test]
fn non_ascii_lowercase_word_is_not_special() {
    let blocks = scan("ß");
    assert_eq!(
        line_tokens(&blocks, 0),
        vec![tok_s(SyntaxType::Unknown, "ß")]
    );
}

#[test]
fn non_ascii_capitals_are_special() {
    let blocks = scan("ÉÀ");
    assert_eq!(
        line_tokens(&blocks, 0),
        vec![tok_s(SyntaxType::SpecialKeyword, "ÉÀ")]
    );
}

#[test]
fn generic_keywords_classify() {
    let blocks = scan("use impl fn");
    assert_eq!(
        line_tokens(&blocks, 0),
        vec![
            tok_s(SyntaxType::Keyword, "use"),
            tok_s(SyntaxType::Unknown, " "),
            tok_s(SyntaxType::Keyword, "impl"),
            tok_s(SyntaxType::Unknown, " "),
            tok_s(SyntaxType::Keyword, "fn"),
        ]
    );
}

#[test]
fn special_keywords_classify() {
    let blocks = scan("self Self false");
    assert_eq!(
        line_tokens(&blocks, 0),
        vec![
            tok_s(SyntaxType::SpecialKeyword, "self"),
            tok_s(SyntaxType::Unknown, " "),
            tok_s(SyntaxType::SpecialKeyword, "Self"),
            tok_s(SyntaxType::Unknown, " "),
            tok_s(SyntaxType::SpecialKeyword, "false"),
        ]
    );
}

#[test]
fn property_after_dot() {
    let blocks = scan("a.b");
    assert_eq!(
        line_tokens(&blocks, 0),
        vec![
            tok_s(SyntaxType::Unknown, "a"),
            tok_c(SyntaxType::Punctuation, '.'),
            tok_s(SyntaxType::Property, "b"),
        ]
    );
}

#[test]
fn property_flag_sticks_across_punctuation() {
    let blocks = scan(".{x");
    assert_eq!(
        line_tokens(&blocks, 0),
        vec![
            tok_c(SyntaxType::Punctuation, '.'),
            tok_c(SyntaxType::Punctuation, '{'),
            tok_s(SyntaxType::Property, "x"),
        ]
    );
}

#[test]
fn property_flag_spent_after_one_word() {
    let blocks = scan("a.b c");
    assert_eq!(
        line_tokens(&blocks, 0),
        vec![
            tok_s(SyntaxType::Unknown, "a"),
            tok_c(SyntaxType::Punctuation, '.'),
            tok_s(SyntaxType::Property, "b"),
            tok_s(SyntaxType::Unknown, " "),
            tok_s(SyntaxType::Unknown, "c"),
        ]
    );
}

#[test]
fn number_keeps_property_flag() {
    let blocks = scan(".1x");
    assert_eq!(
        line_tokens(&blocks, 0),
        vec![
            tok_c(SyntaxType::Punctuation, '.'),
            tok_c(SyntaxType::Number, '1'),
            tok_s(SyntaxType::Property, "x"),
        ]
    );
}

#[test]
fn whitespace_keeps_property_flag() {
    let blocks = scan("a. b");
    assert_eq!(
        line_tokens(&blocks, 0),
        vec![
            tok_s(SyntaxType::Unknown, "a"),
            tok_c(SyntaxType::Punctuation, '.'),
            tok_s(SyntaxType::Unknown, " "),
            tok_s(SyntaxType::Property, "b"),
        ]
    );
}

#[test]
fn digits_tokenize_individually() {
    let blocks = scan("12");
    assert_eq!(
        line_tokens(&blocks, 0),
        vec![
            tok_c(SyntaxType::Number, '1'),
            tok_c(SyntaxType::Number, '2'),
        ]
    );
}

#[test]
fn string_literal_single_token() {
    let blocks = scan("\"a b\"c");
    assert_eq!(
        line_tokens(&blocks, 0),
        vec![
            tok_s(SyntaxType::String, "\"a b\""),
            tok_s(SyntaxType::Unknown, "c"),
        ]
    );
}

#[test]
fn unterminated_string_closes_at_line_end() {
    let blocks = scan("\"ab");
    assert_eq!(blocks.len(), 1);
    assert_eq!(
        line_tokens(&blocks, 0),
        vec![tok_s(SyntaxType::String, "\"ab")]
    );
}

#[test]
fn unterminated_string_does_not_leak_into_next_line() {
    let blocks = scan("\"a\nb");
    assert_eq!(blocks.len(), 2);
    assert_eq!(
        line_tokens(&blocks, 0),
        vec![tok_s(SyntaxType::String, "\"a\n")]
    );
    assert_eq!(
        line_tokens(&blocks, 1),
        vec![tok_s(SyntaxType::Unknown, "b")]
    );
}

#[test]
fn new_string_can_open_after_implicit_closure() {
    let blocks = scan("\"a\n\"b\"c");
    assert_eq!(blocks.len(), 2);
    assert_eq!(
        line_tokens(&blocks, 0),
        vec![tok_s(SyntaxType::String, "\"a\n")]
    );
    assert_eq!(
        line_tokens(&blocks, 1),
        vec![
            tok_s(SyntaxType::String, "\"b\""),
            tok_s(SyntaxType::Unknown, "c"),
        ]
    );
}

#[test]
fn punctuation_set_single_char_tokens() {
    let input = "{}()=;',><][#&-+^\\";
    let blocks = scan(input);
    let tokens = line_tokens(&blocks, 0);
    let expected: Vec<(SyntaxType, TextType)> = input
        .chars()
        .map(|c| tok_c(SyntaxType::Punctuation, c))
        .collect();
    assert_eq!(tokens, expected);
}

#[test]
fn whitespace_runs_are_separate_tokens() {
    let blocks = scan("a b");
    assert_eq!(
        line_tokens(&blocks, 0),
        vec![
            tok_s(SyntaxType::Unknown, "a"),
            tok_s(SyntaxType::Unknown, " "),
            tok_s(SyntaxType::Unknown, "b"),
        ]
    );
    let tab = scan("a\tb");
    assert_eq!(
        line_tokens(&tab, 0),
        vec![
            tok_s(SyntaxType::Unknown, "a"),
            tok_s(SyntaxType::Unknown, "\t"),
            tok_s(SyntaxType::Unknown, "b"),
        ]
    );
}

#[test]
fn newline_is_a_token_of_its_line() {
    let blocks = scan("a\nb");
    assert_eq!(
        line_tokens(&blocks, 0),
        vec![
            tok_s(SyntaxType::Unknown, "a"),
            tok_s(SyntaxType::Unknown, "\n"),
        ]
    );
    assert_eq!(line_tokens(&blocks, 1), vec![tok_s(SyntaxType::Unknown, "b")]);
}

#[test]
fn empty_input_yields_no_lines() {
    let blocks = scan("");
    assert_eq!(blocks.len(), 0);
}

#[test]
fn color_mapping_is_fixed() {
    assert_eq!(SyntaxType::Keyword.color(), "rgb(215, 85, 67)");
    assert_eq!(SyntaxType::String.color(), "rgb(184, 187, 38)");
    assert_eq!(SyntaxType::Number.color(), "rgb(211, 134, 155)");
    assert_eq!(SyntaxType::Punctuation.color(), "rgb(104, 157, 96)");
    assert_eq!(SyntaxType::Unknown.color(), "rgb(189, 174, 147)");
    assert_eq!(SyntaxType::Property.color(), "rgb(168, 168, 37)");
    assert_eq!(SyntaxType::SpecialKeyword.color(), "rgb(211, 134, 155)");
    assert_eq!(SyntaxType::Comment.color(), "gray");
}

#[test]
fn text_payloads_reproduce_their_text() {
    assert_eq!(TextType::Char('x').to_text(), "x");
    assert_eq!(TextType::String("hi there".to_string()).to_text(), "hi there");
}
