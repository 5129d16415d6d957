use mini_sql::query::Token::{
    COMMA, CREATE, DATABASE, DELETE, EQ, FROM, IDENTIFIER, ILLEGAL, INSERT, INTO, LPARENT, RPARENT,
    VALUES, WHERE,
};
use mini_sql::query::{classify_word, get_keyword_token, next_token, parse, skip_whitespace, Token};
use mini_sql::text::chars_of;

fn chars(text: &str) -> Vec<char> {
    text.chars().collect()
}

fn ident(text: &str) -> Token {
    IDENTIFIER(text.to_string())
}

#[test]
pub fn create_db_query() {
    let expected_tokens = vec![CREATE, DATABASE, IDENTIFIER("users".to_string())];
    let actual_tokens = parse("create database users").unwrap();
    assert_eq!(expected_tokens, actual_tokens);

    let expected_tokens = vec![CREATE, DATABASE, IDENTIFIER("users_1".to_string())];
    let actual_tokens = parse("create database users_1").unwrap();
    assert_eq!(expected_tokens, actual_tokens);
}

#[test]
pub fn create_insert_query() {
    let expected_tokens = vec![INSERT, INTO, IDENTIFIER("role".to_string())];
    let actual_tokens = parse("insert into role").unwrap();
    assert_eq!(expected_tokens, actual_tokens);

    let expected_tokens = vec![INSERT, INTO, IDENTIFIER("role_1".to_string())];
    let actual_tokens = parse("insert into role_1").unwrap();
    assert_eq!(expected_tokens, actual_tokens);

    let expected_tokens = vec![
        INSERT,
        INTO,
        IDENTIFIER("role_1".to_string()),
        LPARENT,
        IDENTIFIER("column1".to_string()),
        COMMA,
        IDENTIFIER("column2".to_string()),
        RPARENT,
    ];
    let actual_tokens = parse("insert into role_1 (column1, column2)").unwrap();
    assert_eq!(expected_tokens, actual_tokens);

    let expected_tokens = vec![
        INSERT,
        INTO,
        IDENTIFIER("role_1".to_string()),
        LPARENT,
        IDENTIFIER("column1".to_string()),
        COMMA,
        IDENTIFIER("column2".to_string()),
        RPARENT,
        VALUES,
        LPARENT,
        IDENTIFIER("val1".to_string()),
        COMMA,
        IDENTIFIER("val2".to_string()),
        RPARENT,
    ];
    let actual_tokens =
        parse("INSERT INTO role_1 (column1, column2) VALUES (val1, val2)").unwrap();
    assert_eq!(expected_tokens, actual_tokens);
}

#[test]
pub fn test_delete_query() {
    let expected_tokens = vec![
        DELETE,
        FROM,
        IDENTIFIER("table_name".to_string()),
        WHERE,
        IDENTIFIER("id".to_string()),
        EQ,
        IDENTIFIER("1".to_string()),
    ];
    let actual_tokens = parse("DELETE FROM table_name WHERE id = 1").unwrap();
    assert_eq!(expected_tokens, actual_tokens);
}

#[test]
fn keywords_match_in_any_case() {
    assert_eq!(parse("CREATE").unwrap(), vec![CREATE]);
    assert_eq!(parse("create").unwrap(), vec![CREATE]);
    assert_eq!(parse("Create").unwrap(), vec![CREATE]);
    assert_eq!(parse("dAtAbAsE").unwrap(), vec![DATABASE]);
}

#[test]
fn every_keyword_is_recognised() {
    assert_eq!(
        parse("create insert delete into values from where database").unwrap(),
        vec![CREATE, INSERT, DELETE, INTO, VALUES, FROM, WHERE, DATABASE]
    );
}

#[test]
fn identifier_keeps_its_case() {
    assert_eq!(parse("Users_1").unwrap(), vec![ident("Users_1")]);
    assert_ne!(parse("Users_1").unwrap(), vec![ident("users_1")]);
}

#[test]
fn keyword_prefix_is_an_identifier() {
    assert_eq!(parse("creates intox").unwrap(), vec![ident("creates"), ident("intox")]);
}

#[test]
fn whitespace_only_gives_no_token() {
    assert_eq!(parse("   ").unwrap(), Vec::<Token>::new());
    assert_eq!(parse(" \t\n ").unwrap(), Vec::<Token>::new());
}

#[test]
fn empty_text_gives_no_token() {
    assert_eq!(parse("").unwrap(), Vec::<Token>::new());
}

#[test]
fn single_punctuation_gives_one_token() {
    assert_eq!(parse("(").unwrap(), vec![LPARENT]);
    assert_eq!(parse(")").unwrap(), vec![RPARENT]);
    assert_eq!(parse(",").unwrap(), vec![COMMA]);
    assert_eq!(parse("=").unwrap(), vec![EQ]);
}

#[test]
fn punctuation_without_spaces() {
    assert_eq!(
        parse("a=(b,c)").unwrap(),
        vec![ident("a"), EQ, LPARENT, ident("b"), COMMA, ident("c"), RPARENT]
    );
    assert_eq!(parse("((").unwrap(), vec![LPARENT, LPARENT]);
}

#[test]
fn leading_and_trailing_whitespace() {
    assert_eq!(parse("  from  x  ").unwrap(), vec![FROM, ident("x")]);
    assert_eq!(parse(" ( ").unwrap(), vec![LPARENT]);
}

#[test]
fn other_characters_separate_words() {
    assert_eq!(parse("a@b").unwrap(), vec![ident("a"), ident("b")]);
    assert_eq!(parse("@abc").unwrap(), vec![ident("abc")]);
    assert_eq!(parse("x ;; y").unwrap(), vec![ident("x"), ident("y")]);
    assert_eq!(parse("*").unwrap(), Vec::<Token>::new());
}

#[test]
fn non_ascii_words() {
    assert_eq!(parse("caf\u{e9}_1 \u{4e2d}\u{6587}").unwrap(), vec![
        ident("caf\u{e9}_1"),
        ident("\u{4e2d}\u{6587}")
    ]);
    assert_eq!(parse("a\u{a0}b").unwrap(), vec![ident("a"), ident("b")]);
}

#[test]
fn illegal_never_appears() {
    for text in ["", " ", "(", " ( ", "a b", "@", "@ (", "a,,b", "  x=1  "] {
        let tokens = parse(text).unwrap();
        assert!(tokens.iter().all(|t| *t != ILLEGAL));
    }
}

#[test]
fn no_more_tokens_than_segments() {
    assert_eq!(parse("insert into t (a, b)").unwrap().len(), 8);
    assert_eq!(parse("a b  c").unwrap().len(), 3);
    assert_eq!(parse("a@b").unwrap().len(), 2);
    assert_eq!(parse(" , ").unwrap().len(), 1);
}

#[test]
fn chars_of_gives_the_characters() {
    assert_eq!(chars_of("a(\u{e9}"), vec!['a', '(', '\u{e9}']);
    assert_eq!(chars_of(""), Vec::<char>::new());
}

#[test]
fn keyword_token_of_a_word() {
    assert_eq!(get_keyword_token("CREATE".to_string()), CREATE);
    assert_eq!(get_keyword_token("Insert".to_string()), INSERT);
    assert_eq!(get_keyword_token("delete".to_string()), DELETE);
    assert_eq!(get_keyword_token("INTO".to_string()), INTO);
    assert_eq!(get_keyword_token("Values".to_string()), VALUES);
    assert_eq!(get_keyword_token("FROM".to_string()), FROM);
    assert_eq!(get_keyword_token("wHERE".to_string()), WHERE);
    assert_eq!(get_keyword_token("DataBase".to_string()), DATABASE);
    assert_eq!(get_keyword_token("Select".to_string()), ident("Select"));
    assert_eq!(get_keyword_token("".to_string()), ident(""));
}

#[test]
fn classify_word_goes_by_the_lower_case_form() {
    assert_eq!(classify_word(&"where".to_string(), "WHERE".to_string()), WHERE);
    assert_eq!(classify_word(&"WHERE".to_string(), "WHERE".to_string()), ident("WHERE"));
    assert_eq!(classify_word(&"abc".to_string(), "Abc".to_string()), ident("Abc"));
}

#[test]
fn skip_whitespace_steps() {
    let text = chars("a   b  ");
    assert_eq!(skip_whitespace(0, &text), Some(1));
    assert_eq!(skip_whitespace(1, &text), Some(4));
    assert_eq!(skip_whitespace(3, &text), Some(4));
    assert_eq!(skip_whitespace(4, &text), Some(5));
    assert_eq!(skip_whitespace(5, &text), None);
    assert_eq!(skip_whitespace(6, &text), None);
    assert_eq!(skip_whitespace(7, &text), None);
    assert_eq!(skip_whitespace(0, &chars("")), None);
    assert_eq!(skip_whitespace(0, &chars("x")), Some(1));
}

#[test]
fn next_token_steps() {
    let text = chars("ab cd");
    assert_eq!(next_token(0, &text), Some((1, ident("ab"))));
    assert_eq!(next_token(2, &text), Some((5, ident("cd"))));
    assert_eq!(next_token(3, &text), Some((5, ident("cd"))));
    assert_eq!(next_token(5, &text), None);
    assert_eq!(next_token(6, &text), None);

    let text = chars("from(x) ");
    assert_eq!(next_token(0, &text), Some((3, FROM)));
    assert_eq!(next_token(4, &text), Some((4, LPARENT)));
    assert_eq!(next_token(5, &text), Some((5, ident("x"))));
    assert_eq!(next_token(6, &text), Some((6, RPARENT)));
    assert_eq!(next_token(7, &text), None);
}

#[test]
fn next_token_marks_an_empty_word() {
    assert_eq!(next_token(0, &chars(" (")), Some((0, ILLEGAL)));
    assert_eq!(next_token(0, &chars("@(")), Some((0, ILLEGAL)));
    assert_eq!(next_token(0, &chars("  @")), Some((1, ILLEGAL)));
    assert_eq!(next_token(0, &chars("@")), Some((1, ILLEGAL)));
    assert_eq!(next_token(0, &chars("@ab,")), Some((2, ident("ab"))));
    assert_eq!(next_token(0, &chars("  ab")), Some((4, ident("ab"))));
}
