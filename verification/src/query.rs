//! The tokenizer: query text to a sequence of tokens.

use vstd::prelude::*;
use crate::text::{char_is_alphanumeric, char_is_whitespace, chars_of, lowercase, string_of};

verus! {

/// A lexical unit of a query.
#[derive(Debug, PartialEq, Eq)]
pub enum Token {
    CREATE,
    INSERT,
    DELETE,
    INTO,
    VALUES,
    LPARENT,
    RPARENT,
    EQ,
    COMMA,
    FROM,
    WHERE,
    DATABASE,
    /// A word that is no keyword, spelled as it was typed.
    IDENTIFIER(String),
    /// An empty word. The scanner drops it.
    ILLEGAL,
}

/// The mathematical value of a `Token`.
pub enum TokenView {
    CREATE,
    INSERT,
    DELETE,
    INTO,
    VALUES,
    LPARENT,
    RPARENT,
    EQ,
    COMMA,
    FROM,
    WHERE,
    DATABASE,
    IDENTIFIER(Seq<char>),
    ILLEGAL,
}

impl View for Token {
    type V = TokenView;

    open spec fn view(&self) -> TokenView {
        match self {
            Token::CREATE => TokenView::CREATE,
            Token::INSERT => TokenView::INSERT,
            Token::DELETE => TokenView::DELETE,
            Token::INTO => TokenView::INTO,
            Token::VALUES => TokenView::VALUES,
            Token::LPARENT => TokenView::LPARENT,
            Token::RPARENT => TokenView::RPARENT,
            Token::EQ => TokenView::EQ,
            Token::COMMA => TokenView::COMMA,
            Token::FROM => TokenView::FROM,
            Token::WHERE => TokenView::WHERE,
            Token::DATABASE => TokenView::DATABASE,
            Token::IDENTIFIER(text) => TokenView::IDENTIFIER(text@),
            Token::ILLEGAL => TokenView::ILLEGAL,
        }
    }
}

/// The values of a sequence of tokens, in order.
pub open spec fn token_views(tokens: Seq<Token>) -> Seq<TokenView> {
    Seq::new(tokens.len(), |i: int| tokens[i]@)
}

/// The four characters that are tokens by themselves.
pub open spec fn is_punctuation(c: char) -> bool {
    c == '(' || c == ')' || c == ',' || c == '='
}

/// The token of a punctuation character.
pub open spec fn punctuation_token(c: char) -> TokenView {
    if c == '(' {
        TokenView::LPARENT
    } else if c == ')' {
        TokenView::RPARENT
    } else if c == ',' {
        TokenView::COMMA
    } else {
        TokenView::EQ
    }
}

/// A character that can stand in a word: a letter, a digit or `_`.
pub open spec fn is_word_char(c: char) -> bool {
    c == '_' || char_is_alphanumeric(c)
}

/// The token of a word whose lower-case form is `lower` and whose spelling
/// is `spelling`: the keyword that `lower` spells, else an identifier that
/// keeps the spelling.
pub open spec fn keyword_token(lower: Seq<char>, spelling: Seq<char>) -> TokenView {
    if lower == "create"@ {
        TokenView::CREATE
    } else if lower == "insert"@ {
        TokenView::INSERT
    } else if lower == "delete"@ {
        TokenView::DELETE
    } else if lower == "into"@ {
        TokenView::INTO
    } else if lower == "values"@ {
        TokenView::VALUES
    } else if lower == "from"@ {
        TokenView::FROM
    } else if lower == "where"@ {
        TokenView::WHERE
    } else if lower == "database"@ {
        TokenView::DATABASE
    } else {
        TokenView::IDENTIFIER(spelling)
    }
}

/// The token of the characters gathered for a word: the illegal marker when
/// there are none, else the keyword or identifier they spell.
pub open spec fn word_token(word: Seq<char>) -> TokenView {
    if word.len() == 0 {
        TokenView::ILLEGAL
    } else {
        keyword_token(lowercase(word), word)
    }
}

/// How many whitespace characters stand in a row from `from` on.
pub open spec fn space_run(chars: Seq<char>, from: int) -> nat
    decreases chars.len() - from,
{
    if 0 <= from < chars.len() && char_is_whitespace(chars[from]) {
        1 + space_run(chars, from + 1)
    } else {
        0
    }
}

/// How many word characters stand in a row from `from` on.
pub open spec fn word_run(chars: Seq<char>, from: int) -> nat
    decreases chars.len() - from,
{
    if 0 <= from < chars.len() && is_word_char(chars[from]) {
        1 + word_run(chars, from + 1)
    } else {
        0
    }
}

/// Where reading goes on after the character at `position`: behind that
/// character when it is no whitespace; else at the first character behind the
/// whitespace run that starts there, and nowhere when the run reaches the end
/// of the text.
pub open spec fn skip_whitespace_spec(chars: Seq<char>, position: int) -> Option<int> {
    if position < 0 || position >= chars.len() {
        None
    } else if !char_is_whitespace(chars[position]) {
        Some(position + 1)
    } else {
        let next = position + space_run(chars, position);
        if next < chars.len() {
            Some(next)
        } else {
            None
        }
    }
}

/// Where the word read at `position` begins: at `position` when a word
/// character stands there, else where `skip_whitespace_spec` leads.
pub open spec fn word_start(chars: Seq<char>, position: int) -> Option<int> {
    if 0 <= position < chars.len() && is_word_char(chars[position]) {
        Some(position)
    } else {
        skip_whitespace_spec(chars, position)
    }
}

/// One step of the scanner at `position`. Past the end there is none. A
/// punctuation character is its own token and the step ends on it. Otherwise
/// the step reads the longest run of word characters from `word_start` on. It
/// ends on the character before the one that stopped the run, or on the
/// text's length when the run reaches the end of the text.
pub open spec fn next_token_spec(chars: Seq<char>, position: int) -> Option<(int, TokenView)> {
    if position < 0 || position >= chars.len() {
        None
    } else if is_punctuation(chars[position]) {
        Some((position, punctuation_token(chars[position])))
    } else {
        match word_start(chars, position) {
            None => None,
            Some(start) => {
                let end = start + word_run(chars, start);
                let last = if end < chars.len() {
                    end - 1
                } else {
                    chars.len() as int
                };
                Some((last, word_token(chars.subrange(start, end))))
            },
        }
    }
}

/// What a step's token adds to the output: nothing for the illegal marker.
pub open spec fn emitted(token: TokenView) -> Seq<TokenView> {
    if token is ILLEGAL {
        Seq::empty()
    } else {
        seq![token]
    }
}

/// The tokens that scanning yields from `position` on: the steps' tokens
/// without the illegal markers, each step starting behind the position on
/// which the one before it ended.
pub open spec fn scan_from(chars: Seq<char>, position: int) -> Seq<TokenView>
    decreases chars.len() + 1 - position,
    via scan_from_decreases
{
    match next_token_spec(chars, position) {
        None => Seq::empty(),
        Some((last, token)) => emitted(token) + scan_from(chars, last + 1),
    }
}

#[via_fn]
proof fn scan_from_decreases(chars: Seq<char>, position: int) {
    lemma_step_advances(chars, position);
}

/// The tokens of a whole text.
pub open spec fn scan(chars: Seq<char>) -> Seq<TokenView> {
    scan_from(chars, 0)
}

/// A run of whitespace ends within the text.
pub proof fn lemma_space_run_bound(chars: Seq<char>, from: int)
    requires
        0 <= from <= chars.len(),
    ensures
        from + space_run(chars, from) <= chars.len(),
    decreases chars.len() - from,
{
    if from < chars.len() && char_is_whitespace(chars[from]) {
        lemma_space_run_bound(chars, from + 1);
    }
}

/// A run of word characters ends within the text.
pub proof fn lemma_word_run_bound(chars: Seq<char>, from: int)
    requires
        0 <= from <= chars.len(),
    ensures
        from + word_run(chars, from) <= chars.len(),
        from + word_run(chars, from) < chars.len() ==> !is_word_char(
            chars[from + word_run(chars, from)],
        ),
    decreases chars.len() - from,
{
    if from < chars.len() && is_word_char(chars[from]) {
        lemma_word_run_bound(chars, from + 1);
    }
}

/// A step never ends before the position it started at, nor past the text's
/// length.
pub proof fn lemma_step_advances(chars: Seq<char>, position: int)
    ensures
        match next_token_spec(chars, position) {
            None => true,
            Some((last, token)) => position <= last <= chars.len(),
        },
{
    if 0 <= position < chars.len() && !is_punctuation(chars[position]) {
        match word_start(chars, position) {
            None => {},
            Some(start) => {
                lemma_space_run_bound(chars, position);
                lemma_word_run_bound(chars, start);
            },
        }
    }
}

/// A character that ends a word: whitespace, punctuation, or any other
/// character that cannot stand in a word.
pub open spec fn is_delimiter(c: char) -> bool {
    char_is_whitespace(c) || is_punctuation(c) || !is_word_char(c)
}

/// Whether a segment of the text begins at `i`. A punctuation character is a
/// segment by itself. A word character begins a segment where it is the
/// first character of the text or stands behind a delimiter.
pub open spec fn starts_segment(chars: Seq<char>, i: int) -> bool {
    0 <= i < chars.len() && (is_punctuation(chars[i]) || (is_word_char(chars[i]) && (i == 0
        || is_delimiter(chars[i - 1]))))
}

/// The number of segments that begin at `from` or behind it.
pub open spec fn segment_count(chars: Seq<char>, from: int) -> nat
    decreases chars.len() - from,
{
    if from < 0 || from >= chars.len() {
        0
    } else if starts_segment(chars, from) {
        1 + segment_count(chars, from + 1)
    } else {
        segment_count(chars, from + 1)
    }
}

/// Every character of a whitespace run is whitespace.
pub proof fn lemma_space_run_members(chars: Seq<char>, from: int, i: int)
    requires
        0 <= from <= i < from + space_run(chars, from),
    ensures
        i < chars.len(),
        char_is_whitespace(chars[i]),
    decreases chars.len() - from,
{
    if i > from {
        lemma_space_run_members(chars, from + 1, i);
    }
}

/// Fewer segments begin behind a later position.
pub proof fn lemma_segment_count_monotonic(chars: Seq<char>, from: int, to: int)
    requires
        0 <= from <= to,
    ensures
        segment_count(chars, to) <= segment_count(chars, from),
    decreases to - from,
{
    if from < to {
        lemma_segment_count_monotonic(chars, from + 1, to);
    }
}

/// Scanning from a position at which no word is under way yields no more
/// tokens than segments begin from there on.
pub proof fn lemma_scan_from_bound(chars: Seq<char>, position: int)
    requires
        0 <= position,
        position < chars.len() && is_word_char(chars[position]) && !is_punctuation(
            chars[position],
        ) ==> starts_segment(chars, position),
    ensures
        scan_from(chars, position).len() <= segment_count(chars, position),
    decreases chars.len() + 1 - position,
{
    lemma_step_advances(chars, position);
    match next_token_spec(chars, position) {
        None => {},
        Some((last, token)) => {
            if is_punctuation(chars[position]) {
                lemma_scan_from_bound(chars, position + 1);
            } else {
                let start = word_start(chars, position).unwrap();
                let end = start + word_run(chars, start);
                lemma_space_run_bound(chars, position);
                lemma_word_run_bound(chars, start);
                lemma_segment_count_monotonic(chars, position, start);
                if end < chars.len() {
                    lemma_scan_from_bound(chars, end);
                } else {
                    assert(scan_from(chars, last + 1).len() == 0);
                }
                if end > start {
                    if start > position && char_is_whitespace(chars[position]) {
                        lemma_space_run_members(chars, position, start - 1);
                    }
                    assert(starts_segment(chars, start));
                    lemma_segment_count_monotonic(chars, start + 1, end);
                }
            }
        },
    }
}

/// Scanning yields no more tokens than the text has segments, where a
/// segment is a punctuation character or a longest run of word characters
/// between delimiters.
pub proof fn lemma_scan_length_bound(chars: Seq<char>)
    ensures
        scan(chars).len() <= segment_count(chars, 0),
{
    lemma_scan_from_bound(chars, 0);
}

/// No illegal marker stands among the tokens of a text.
pub proof fn lemma_scan_drops_illegal(chars: Seq<char>)
    ensures
        forall|i: int| 0 <= i < scan(chars).len() ==> !(#[trigger] scan(chars)[i] is ILLEGAL),
{
    lemma_scan_from_drops_illegal(chars, 0);
}

/// No illegal marker stands among the tokens that scanning yields from a
/// position on.
pub proof fn lemma_scan_from_drops_illegal(chars: Seq<char>, position: int)
    ensures
        forall|i: int|
            0 <= i < scan_from(chars, position).len() ==> !(#[trigger] scan_from(
                chars,
                position,
            )[i] is ILLEGAL),
    decreases chars.len() + 1 - position,
{
    lemma_step_advances(chars, position);
    match next_token_spec(chars, position) {
        None => {},
        Some((last, token)) => {
            lemma_scan_from_drops_illegal(chars, last + 1);
        },
    }
}

/// A text without punctuation and without word characters, such as one of
/// blanks alone, yields no token.
pub proof fn lemma_scan_without_words(chars: Seq<char>)
    requires
        forall|i: int|
            0 <= i < chars.len() ==> !is_punctuation(#[trigger] chars[i]) && !is_word_char(
                chars[i],
            ),
    ensures
        scan(chars) == Seq::<TokenView>::empty(),
{
    lemma_scan_from_without_words(chars, 0);
    assert(scan(chars) =~= Seq::<TokenView>::empty());
}

/// In a text without punctuation and without word characters, scanning
/// yields no token from any position on.
pub proof fn lemma_scan_from_without_words(chars: Seq<char>, position: int)
    requires
        forall|i: int|
            0 <= i < chars.len() ==> !is_punctuation(#[trigger] chars[i]) && !is_word_char(
                chars[i],
            ),
    ensures
        scan_from(chars, position).len() == 0,
    decreases chars.len() + 1 - position,
{
    lemma_step_advances(chars, position);
    match next_token_spec(chars, position) {
        None => {},
        Some((last, token)) => {
            let start = word_start(chars, position).unwrap();
            lemma_space_run_bound(chars, position);
            assert(word_run(chars, start) == 0);
            assert(chars.subrange(start, start).len() == 0);
            lemma_scan_from_without_words(chars, last + 1);
        },
    }
}

/// The tokens of a text read off directly, from `position` on: each
/// punctuation character and each longest run of word characters, in order.
/// Every other character only separates.
pub open spec fn tokens_from(chars: Seq<char>, position: int) -> Seq<TokenView>
    decreases chars.len() - position,
    via tokens_from_decreases
{
    if position < 0 || position >= chars.len() {
        Seq::empty()
    } else if is_punctuation(chars[position]) {
        seq![punctuation_token(chars[position])] + tokens_from(chars, position + 1)
    } else if is_word_char(chars[position]) {
        let end = position + word_run(chars, position);
        seq![word_token(chars.subrange(position, end))] + tokens_from(chars, end)
    } else {
        tokens_from(chars, position + 1)
    }
}

#[via_fn]
proof fn tokens_from_decreases(chars: Seq<char>, position: int) {
    if 0 <= position < chars.len() {
        lemma_word_run_bound(chars, position);
    }
}

/// The three classes of characters do not overlap in the text: no word
/// character is punctuation or whitespace, and no punctuation character is
/// whitespace.
pub open spec fn classes_apart(chars: Seq<char>) -> bool {
    forall|i: int|
        0 <= i < chars.len() ==> {
            &&& is_word_char(#[trigger] chars[i]) ==> !is_punctuation(chars[i])
                && !char_is_whitespace(chars[i])
            &&& is_punctuation(chars[i]) ==> !char_is_whitespace(chars[i])
        }
}

/// A run of whitespace adds nothing to the tokens read off directly.
pub proof fn lemma_tokens_from_skips_spaces(chars: Seq<char>, from: int)
    requires
        classes_apart(chars),
        0 <= from,
    ensures
        tokens_from(chars, from) == tokens_from(chars, from + space_run(chars, from)),
    decreases chars.len() - from,
{
    if from < chars.len() && char_is_whitespace(chars[from]) {
        lemma_tokens_from_skips_spaces(chars, from + 1);
    }
}

/// Where the classes of characters do not overlap, scanning from a position
/// on yields the tokens read off directly from there.
pub proof fn lemma_scan_from_is_tokens_from(chars: Seq<char>, position: int)
    requires
        classes_apart(chars),
        0 <= position,
    ensures
        scan_from(chars, position) == tokens_from(chars, position),
    decreases chars.len() + 1 - position,
{
    lemma_step_advances(chars, position);
    let n = chars.len() as int;
    assert(scan_from(chars, n + 1) =~= Seq::<TokenView>::empty());
    assert(tokens_from(chars, n) =~= Seq::<TokenView>::empty());
    if position >= n {
    } else if is_punctuation(chars[position]) {
        lemma_scan_from_is_tokens_from(chars, position + 1);
    } else {
        lemma_space_run_bound(chars, position);
        lemma_tokens_from_skips_spaces(chars, position);
        match word_start(chars, position) {
            None => {},
            Some(start) => {
                let end = start + word_run(chars, start);
                lemma_word_run_bound(chars, start);
                assert(tokens_from(chars, position) == tokens_from(chars, start));
                if end == start {
                    assert(chars.subrange(start, end).len() == 0);
                    if start < n {
                        lemma_scan_from_is_tokens_from(chars, start);
                    }
                } else {
                    assert(chars.subrange(start, end).len() > 0);
                    if end < n {
                        lemma_scan_from_is_tokens_from(chars, end);
                    }
                }
            },
        }
    }
}

/// Where no word character is punctuation or whitespace and no punctuation
/// character is whitespace, the tokens of a text are its punctuation
/// characters and its longest runs of word characters, in order.
pub proof fn lemma_scan_is_tokens(chars: Seq<char>)
    requires
        classes_apart(chars),
    ensures
        scan(chars) == tokens_from(chars, 0),
{
    lemma_scan_from_is_tokens_from(chars, 0);
}

fn is_word_character(c: char) -> (r: bool)
    ensures
        r == is_word_char(c),
{
    c == '_' || c.is_alphanumeric()
}

/// The token of a word: see `keyword_token`. `lower` is the word in lower
/// case, `spelling` the word as it was typed.
pub fn classify_word(lower: &String, spelling: String) -> (token: Token)
    ensures
        token@ == keyword_token(lower@, spelling@),
{
    if *lower == String::from_str("create") {
        Token::CREATE
    } else if *lower == String::from_str("insert") {
        Token::INSERT
    } else if *lower == String::from_str("delete") {
        Token::DELETE
    } else if *lower == String::from_str("into") {
        Token::INTO
    } else if *lower == String::from_str("values") {
        Token::VALUES
    } else if *lower == String::from_str("from") {
        Token::FROM
    } else if *lower == String::from_str("where") {
        Token::WHERE
    } else if *lower == String::from_str("database") {
        Token::DATABASE
    } else {
        Token::IDENTIFIER(spelling)
    }
}

/// The token of the word `value`: a keyword when its lower-case form spells
/// one, else an identifier that keeps the spelling.
pub fn get_keyword_token(value: String) -> (token: Token)
    ensures
        token@ == keyword_token(lowercase(value@), value@),
{
    let lower = value.as_str().to_lowercase();
    classify_word(&lower, value)
}

/// Where reading goes on after the character at `position`.
pub fn skip_whitespace(position: usize, chars: &Vec<char>) -> (next: Option<usize>)
    ensures
        match skip_whitespace_spec(chars@, position as int) {
            None => next is None,
            Some(p) => next == Some(p as usize) && p <= chars.len(),
        },
{
    if position >= chars.len() {
        return None;
    }
    if !chars[position].is_whitespace() {
        return Some(position + 1);
    }
    let mut next: usize = position + 1;
    while next < chars.len() && chars[next].is_whitespace()
        invariant
            position < next <= chars.len(),
            space_run(chars@, position as int) == (next - position) + space_run(
                chars@,
                next as int,
            ),
        decreases chars.len() - next,
    {
        next += 1;
    }
    if next < chars.len() {
        Some(next)
    } else {
        None
    }
}

/// One step of the scanner: the position on which the step ended, and its
/// token.
pub fn next_token(position: usize, chars: &Vec<char>) -> (step: Option<(usize, Token)>)
    ensures
        match next_token_spec(chars@, position as int) {
            None => step is None,
            Some((last, token)) => step matches Some((p, t)) && p == last && t@ == token,
        },
{
    if position >= chars.len() {
        return None;
    }
    let ch = chars[position];
    if ch == '(' {
        return Some((position, Token::LPARENT));
    }
    if ch == ')' {
        return Some((position, Token::RPARENT));
    }
    if ch == ',' {
        return Some((position, Token::COMMA));
    }
    if ch == '=' {
        return Some((position, Token::EQ));
    }
    let start: usize = if is_word_character(ch) {
        position
    } else {
        match skip_whitespace(position, chars) {
            None => {
                return None;
            },
            Some(after) => after,
        }
    };
    let mut word: Vec<char> = Vec::new();
    let mut next: usize = start;
    while next < chars.len() && is_word_character(chars[next])
        invariant
            start <= next <= chars.len(),
            word@ == chars@.subrange(start as int, next as int),
            word_run(chars@, start as int) == (next - start) + word_run(chars@, next as int),
        decreases chars.len() - next,
    {
        word.push(chars[next]);
        next += 1;
        assert(word@ =~= chars@.subrange(start as int, next as int));
    }
    let last: usize = if next < chars.len() {
        next - 1
    } else {
        next
    };
    if word.len() == 0 {
        return Some((last, Token::ILLEGAL));
    }
    let value = string_of(&word);
    Some((last, get_keyword_token(value)))
}

/// The tokens of `query`, in the order in which they stand in it. Scanning
/// never fails.
pub fn parse(query: &str) -> (tokens: Option<Vec<Token>>)
    ensures
        tokens is Some,
        token_views(tokens.unwrap()@) == scan(query@),
        forall|i: int| 0 <= i < tokens.unwrap()@.len() ==> !(#[trigger] tokens.unwrap()@[i] is ILLEGAL),
{
    let chars = chars_of(query);
    let mut tokens: Vec<Token> = Vec::new();
    let mut position: usize = 0;
    loop
        invariant_except_break
            position <= chars.len(),
            token_views(tokens@) + scan_from(chars@, position as int) == scan_from(chars@, 0),
        ensures
            token_views(tokens@) == scan_from(chars@, 0),
        decreases chars.len() - position,
    {
        proof {
            lemma_step_advances(chars@, position as int);
        }
        let ghost before = token_views(tokens@);
        match next_token(position, &chars) {
            None => {
                assert(before + Seq::<TokenView>::empty() =~= before);
                break;
            },
            Some((last, token)) => {
                match token {
                    Token::ILLEGAL => {},
                    other => {
                        tokens.push(other);
                    },
                }
                assert(token_views(tokens@) =~= before + emitted(token@));
                assert((before + emitted(token@)) + scan_from(chars@, last + 1) =~= before + (
                    emitted(token@) + scan_from(chars@, last + 1)));
                if last >= chars.len() {
                    assert(scan_from(chars@, last + 1) =~= Seq::<TokenView>::empty());
                    assert(token_views(tokens@) + Seq::<TokenView>::empty() =~= token_views(
                        tokens@,
                    ));
                    break;
                }
                position = last + 1;
            },
        }
    }
    proof {
        lemma_scan_from_drops_illegal(chars@, 0);
        assert forall|i: int| 0 <= i < tokens@.len() implies !(#[trigger] tokens@[i] is ILLEGAL) by {
            assert(token_views(tokens@)[i] == tokens@[i]@);
        }
    }
    Some(tokens)
}

} // verus!
