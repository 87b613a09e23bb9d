//! The tokens of a script.

use crate::json::{is_plain_path_char, plain_path_char};
use crate::text::chars_of;
use vstd::prelude::*;
use vstd::string::StringExecFns;

verus! {

/// Why a script cannot be cut into tokens; each error holds the places of
/// the first and the last character it is about.
#[derive(Debug, Clone, Copy, PartialEq, Eq, Hash)]
pub enum LexerError {
    /// This string literal has an unclosed quote.
    UnclosedQuote(usize, usize),
    /// An empty string is not allowed in this position.
    EmptyString(usize, usize),
    /// Only letters, digits, `_` and `-` are allowed in this position.
    IsNotAlphanumeric(usize, usize),
    /// The name of an accumulator must not be empty.
    EmptyAccName(usize, usize),
    /// This character cannot stand in a JSON path.
    InvalidJsonPath(usize, usize),
}

/// What a lexer error says.
pub open spec fn lexer_text(e: LexerError) -> Seq<char> {
    match e {
        LexerError::UnclosedQuote(_, _) => "this string literal has unclosed quote"@,
        LexerError::EmptyString(_, _) => "empty string aren't allowed in this position"@,
        LexerError::IsNotAlphanumeric(_, _) => {
            "only alphanumeric and _, - characters are allowed in this position"@
        },
        LexerError::EmptyAccName(_, _) => "an accumulator name should be non empty"@,
        LexerError::InvalidJsonPath(_, _) => "invalid character in json path"@,
    }
}

impl LexerError {
    /// What the error says; see [`lexer_text`].
    pub fn message(&self) -> (r: &'static str)
        ensures
            r@ == lexer_text(*self),
    {
        match self {
            LexerError::UnclosedQuote(_, _) => "this string literal has unclosed quote",
            LexerError::EmptyString(_, _) => "empty string aren't allowed in this position",
            LexerError::IsNotAlphanumeric(_, _) => {
                "only alphanumeric and _, - characters are allowed in this position"
            },
            LexerError::EmptyAccName(_, _) => "an accumulator name should be non empty",
            LexerError::InvalidJsonPath(_, _) => "invalid character in json path",
        }
    }
}

/// A token of a script.
#[derive(Debug, PartialEq, Eq)]
pub enum Token {
    OpenRoundBracket,
    CloseRoundBracket,
    OpenSquareBracket,
    CloseSquareBracket,
    StringLiteral(String),
    Alphanumeric(String),
    JsonPath { variable: String, path: String },
    Accumulator(String),
    InitPeerId,
    Call,
    Sequence,
    Par,
    Null,
    Fold,
    Xor,
    Next,
    Match,
    MisMatch,
}

/// The mathematical value of a [`Token`].
pub enum TokenView {
    OpenRoundBracket,
    CloseRoundBracket,
    OpenSquareBracket,
    CloseSquareBracket,
    StringLiteral(Seq<char>),
    Alphanumeric(Seq<char>),
    JsonPath { variable: Seq<char>, path: Seq<char> },
    Accumulator(Seq<char>),
    InitPeerId,
    Call,
    Sequence,
    Par,
    Null,
    Fold,
    Xor,
    Next,
    Match,
    MisMatch,
}

impl View for Token {
    type V = TokenView;

    open spec fn view(&self) -> TokenView {
        match self {
            Token::OpenRoundBracket => TokenView::OpenRoundBracket,
            Token::CloseRoundBracket => TokenView::CloseRoundBracket,
            Token::OpenSquareBracket => TokenView::OpenSquareBracket,
            Token::CloseSquareBracket => TokenView::CloseSquareBracket,
            Token::StringLiteral(text) => TokenView::StringLiteral(text@),
            Token::Alphanumeric(name) => TokenView::Alphanumeric(name@),
            Token::JsonPath { variable, path } => TokenView::JsonPath {
                variable: variable@,
                path: path@,
            },
            Token::Accumulator(name) => TokenView::Accumulator(name@),
            Token::InitPeerId => TokenView::InitPeerId,
            Token::Call => TokenView::Call,
            Token::Sequence => TokenView::Sequence,
            Token::Par => TokenView::Par,
            Token::Null => TokenView::Null,
            Token::Fold => TokenView::Fold,
            Token::Xor => TokenView::Xor,
            Token::Next => TokenView::Next,
            Token::Match => TokenView::Match,
            Token::MisMatch => TokenView::MisMatch,
        }
    }
}

/// A token with the places of its first character and behind its last.
#[derive(Debug, PartialEq, Eq)]
pub struct Spanned {
    pub start: usize,
    pub token: Token,
    pub end: usize,
}

/// The mathematical value of a [`Spanned`].
pub struct SpannedView {
    pub start: int,
    pub token: TokenView,
    pub end: int,
}

impl View for Spanned {
    type V = SpannedView;

    open spec fn view(&self) -> SpannedView {
        SpannedView { start: self.start as int, token: self.token@, end: self.end as int }
    }
}

/// Whether a character is white space, as `char::is_whitespace` tells it.
pub uninterp spec fn is_space(c: char) -> bool;

/// Whether a character is a letter or a digit, as `char::is_alphanumeric`
/// tells it.
pub uninterp spec fn is_alphanumeric(c: char) -> bool;

/// `char::is_whitespace` tells whether a character has the Unicode property
/// `White_Space`; what it tells depends on the character alone and is named
/// [`is_space`]. Of the ASCII characters the space and the five from the
/// tabulator to the carriage return have that property, and no other.
pub assume_specification[ char::is_whitespace ](c: char) -> (r: bool)
    ensures
        r == is_space(c),
        c <= '\x7f' ==> r == (c == ' ' || ('\x09' <= c && c <= '\x0d')),
;

/// `char::is_alphanumeric` tells whether a character is alphabetic or
/// numeric by the Unicode tables; what it tells depends on the character
/// alone and is named [`is_alphanumeric`]. Of the ASCII characters the
/// letters `a` to `z` and `A` to `Z` and the digits `0` to `9` are so, and
/// no other.
pub assume_specification[ char::is_alphanumeric ](c: char) -> (r: bool)
    ensures
        r == is_alphanumeric(c),
        c <= '\x7f' ==> r == (('a' <= c && c <= 'z') || ('A' <= c && c <= 'Z') || ('0' <= c && c
            <= '9')),
;

/// The characters of a name: letters, digits, `_` and `-`.
pub open spec fn is_name_char(c: char) -> bool {
    is_alphanumeric(c) || c == '_' || c == '-'
}

/// The place behind the word that holds the character at `pos`. A word
/// ends before a space, and before a bracket that closes what the word did
/// not open; `round` and `square` count the brackets that it has open.
pub open spec fn word_end(input: Seq<char>, pos: int, round: nat, square: nat) -> int
    decreases input.len() - pos,
{
    if pos < 0 || pos >= input.len() {
        input.len() as int
    } else {
        let c = input[pos];
        if is_space(c) || (c == ')' && round == 0) || (c == ']' && square == 0) {
            pos
        } else {
            word_end(
                input,
                pos + 1,
                if c == '(' {
                    round + 1
                } else if c == ')' {
                    (round - 1) as nat
                } else {
                    round
                },
                if c == '[' {
                    square + 1
                } else if c == ']' {
                    (square - 1) as nat
                } else {
                    square
                },
            )
        }
    }
}

/// A word ends behind its start and inside the script.
proof fn lemma_word_end_bounds(input: Seq<char>, pos: int, round: nat, square: nat)
    requires
        0 <= pos <= input.len(),
    ensures
        pos <= word_end(input, pos, round, square) <= input.len(),
    decreases input.len() - pos,
{
    if pos < input.len() {
        let c = input[pos];
        if !(is_space(c) || (c == ')' && round == 0) || (c == ']' && square == 0)) {
            lemma_word_end_bounds(
                input,
                pos + 1,
                if c == '(' {
                    round + 1
                } else if c == ')' {
                    (round - 1) as nat
                } else {
                    round
                },
                if c == '[' {
                    square + 1
                } else if c == ']' {
                    (square - 1) as nat
                } else {
                    square
                },
            );
        }
    }
}

/// The first place from `from` on at which `text` holds `c`.
pub open spec fn first_char(text: Seq<char>, c: char, from: int) -> Option<int>
    decreases text.len() - from,
{
    if from < 0 || from >= text.len() {
        None
    } else if text[from] == c {
        Some(from)
    } else {
        first_char(text, c, from + 1)
    }
}

/// The first place from `from` on at which `text` holds a character that
/// is no name character, or, where `in_path` is set, no character of a
/// plain JSON path.
pub open spec fn first_bad(text: Seq<char>, in_path: bool, from: int) -> Option<int>
    decreases text.len() - from,
{
    if from < 0 || from >= text.len() {
        None
    } else if (in_path && !plain_path_char(text[from])) || (!in_path && !is_name_char(text[from])) {
        Some(from)
    } else {
        first_bad(text, in_path, from + 1)
    }
}

/// Whether a word ends in `[]`.
pub open spec fn ends_in_brackets(word: Seq<char>) -> bool {
    word.len() >= 2 && word[word.len() - 2] == '[' && word[word.len() - 1] == ']'
}

/// The keyword that a word is, if it is one.
pub open spec fn keyword(word: Seq<char>) -> Option<TokenView> {
    if word == "call"@ {
        Some(TokenView::Call)
    } else if word == "seq"@ {
        Some(TokenView::Sequence)
    } else if word == "par"@ {
        Some(TokenView::Par)
    } else if word == "null"@ {
        Some(TokenView::Null)
    } else if word == "fold"@ {
        Some(TokenView::Fold)
    } else if word == "xor"@ {
        Some(TokenView::Xor)
    } else if word == "next"@ {
        Some(TokenView::Next)
    } else if word == "match"@ {
        Some(TokenView::Match)
    } else if word == "mismatch"@ {
        Some(TokenView::MisMatch)
    } else if word == "%init_peer_id%"@ {
        Some(TokenView::InitPeerId)
    } else {
        None
    }
}

/// The token that a word is; `start` is the place of the word in the
/// script. A word with a `.` is a variable and a JSON path behind the first
/// `.`; a word that ends in `[]` is an accumulator; every other word is a
/// name.
pub open spec fn classify(word: Seq<char>, start: int) -> Result<TokenView, LexerError> {
    match keyword(word) {
        Some(token) => Ok(token),
        None => match first_char(word, '.', 0) {
            Some(dot) => match first_bad(word.subrange(0, dot), false, 0) {
                Some(k) => Err(
                    LexerError::IsNotAlphanumeric((start + k) as usize, (start + k) as usize),
                ),
                None => match first_bad(word.subrange(dot + 1, word.len() as int), true, 0) {
                    Some(k) => Err(
                        LexerError::InvalidJsonPath(
                            (start + dot + 1 + k) as usize,
                            (start + dot + 1 + k) as usize,
                        ),
                    ),
                    None => Ok(
                        TokenView::JsonPath {
                            variable: word.subrange(0, dot),
                            path: word.subrange(dot + 1, word.len() as int),
                        },
                    ),
                },
            },
            None => if ends_in_brackets(word) {
                if word.len() == 2 {
                    Err(LexerError::EmptyAccName(start as usize, (start + 2) as usize))
                } else {
                    match first_bad(word.subrange(0, word.len() - 2), false, 0) {
                        Some(k) => Err(
                            LexerError::IsNotAlphanumeric(
                                (start + k) as usize,
                                (start + k) as usize,
                            ),
                        ),
                        None => Ok(TokenView::Accumulator(word.subrange(0, word.len() - 2))),
                    }
                }
            } else {
                match first_bad(word, false, 0) {
                    Some(k) => Err(
                        LexerError::IsNotAlphanumeric((start + k) as usize, (start + k) as usize),
                    ),
                    None => Ok(TokenView::Alphanumeric(word)),
                }
            },
        },
    }
}

/// The token that starts at `pos`, where a character that is no space
/// stands, and the place behind it.
pub open spec fn token_at(input: Seq<char>, pos: int) -> Result<(TokenView, int), LexerError> {
    let c = input[pos];
    if c == '(' {
        Ok((TokenView::OpenRoundBracket, pos + 1))
    } else if c == ')' {
        Ok((TokenView::CloseRoundBracket, pos + 1))
    } else if c == '[' {
        Ok((TokenView::OpenSquareBracket, pos + 1))
    } else if c == ']' {
        Ok((TokenView::CloseSquareBracket, pos + 1))
    } else if c == '"' {
        match first_char(input, '"', pos + 1) {
            None => Err(LexerError::UnclosedQuote(pos as usize, input.len() as usize)),
            Some(quote) => Ok((TokenView::StringLiteral(input.subrange(pos + 1, quote)), quote + 1)),
        }
    } else {
        let end = word_end(input, pos, 0, 0);
        match classify(input.subrange(pos, end), pos) {
            Err(e) => Err(e),
            Ok(token) => Ok((token, end)),
        }
    }
}

/// The tokens of a script from `pos` on, put behind `done`.
pub open spec fn lex_from(input: Seq<char>, pos: int, done: Seq<SpannedView>) -> Result<
    Seq<SpannedView>,
    LexerError,
>
    decreases input.len() - pos,
{
    if pos < 0 || pos >= input.len() {
        Ok(done)
    } else if is_space(input[pos]) {
        lex_from(input, pos + 1, done)
    } else {
        match token_at(input, pos) {
            Err(e) => Err(e),
            Ok((token, end)) => if end <= pos || end > input.len() {
                Ok(done)
            } else {
                lex_from(input, end, done.push(SpannedView { start: pos, token, end }))
            },
        }
    }
}

/// The tokens of a script, or the first error in it.
pub open spec fn lex_spec(input: Seq<char>) -> Result<Seq<SpannedView>, LexerError> {
    lex_from(input, 0, Seq::empty())
}

/// The values of a list of tokens.
pub open spec fn tokens_view(tokens: Seq<Spanned>) -> Seq<SpannedView> {
    Seq::new(tokens.len(), |i: int| tokens[i]@)
}

/// Tests a character against [`is_space`].
pub fn is_space_char(c: char) -> (r: bool)
    ensures
        r == is_space(c),
{
    c.is_whitespace()
}

/// Tests a character against [`is_name_char`].
pub fn is_aqua_alphanumeric(c: char) -> (r: bool)
    ensures
        r == is_name_char(c),
{
    c.is_alphanumeric() || c == '_' || c == '-'
}

/// Finds the end of a word; see [`word_end`].
pub fn advance_to_token_end(chars: &Vec<char>, start: usize) -> (r: usize)
    requires
        start <= chars.len(),
    ensures
        r == word_end(chars@, start as int, 0, 0),
        start <= r <= chars.len(),
{
    let mut pos = start;
    let mut round: usize = 0;
    let mut square: usize = 0;
    proof {
        lemma_word_end_bounds(chars@, start as int, 0, 0);
    }
    while pos < chars.len()
        invariant
            start <= pos <= chars.len(),
            round <= pos - start,
            square <= pos - start,
            word_end(chars@, start as int, 0, 0) == word_end(
                chars@,
                pos as int,
                round as nat,
                square as nat,
            ),
        decreases chars.len() - pos,
    {
        let c = chars[pos];
        if is_space_char(c) || (c == ')' && round == 0) || (c == ']' && square == 0) {
            return pos;
        }
        if c == '(' {
            round = round + 1;
        } else if c == ')' {
            round = round - 1;
        }
        if c == '[' {
            square = square + 1;
        } else if c == ']' {
            square = square - 1;
        }
        pos = pos + 1;
    }
    pos
}

/// Finds a character; see [`first_char`].
pub fn find_char(chars: &Vec<char>, c: char, from: usize, to: usize) -> (r: Option<usize>)
    requires
        from <= to <= chars.len(),
    ensures
        match r {
            Some(i) => first_char(chars@.subrange(0, to as int), c, from as int) == Some(i as int)
                && from <= i < to,
            None => first_char(chars@.subrange(0, to as int), c, from as int) is None,
        },
{
    let ghost text = chars@.subrange(0, to as int);
    let mut i = from;
    while i < to
        invariant
            from <= i <= to <= chars.len(),
            text == chars@.subrange(0, to as int),
            first_char(text, c, from as int) == first_char(text, c, i as int),
        decreases to - i,
    {
        if chars[i] == c {
            return Some(i);
        }
        i += 1;
    }
    None
}

/// Finds the first character that may not stand in a name or in a path,
/// in the part of `chars` from `from` up to `to`; see [`first_bad`].
pub fn find_bad(chars: &Vec<char>, in_path: bool, from: usize, to: usize) -> (r: Option<usize>)
    requires
        from <= to <= chars.len(),
    ensures
        match r {
            Some(i) => first_bad(chars@.subrange(from as int, to as int), in_path, 0) == Some(
                i - from,
            ) && from <= i < to,
            None => first_bad(chars@.subrange(from as int, to as int), in_path, 0) is None,
        },
{
    let ghost text = chars@.subrange(from as int, to as int);
    let mut i = from;
    while i < to
        invariant
            from <= i <= to <= chars.len(),
            text == chars@.subrange(from as int, to as int),
            first_bad(text, in_path, 0) == first_bad(text, in_path, i - from),
        decreases to - i,
    {
        let c = chars[i];
        assert(text[i - from] == c);
        let bad = if in_path {
            !is_plain_path_char(c)
        } else {
            !is_aqua_alphanumeric(c)
        };
        if bad {
            return Some(i);
        }
        i += 1;
    }
    None
}

/// Whether the part of `chars` from `from` up to `to` is the text `word`.
pub fn word_is(chars: &Vec<char>, from: usize, to: usize, word: &str) -> (r: bool)
    requires
        from <= to <= chars.len(),
    ensures
        r == (chars@.subrange(from as int, to as int) == word@),
{
    let n = word.unicode_len();
    if to - from != n {
        return false;
    }
    let mut i: usize = 0;
    while i < n
        invariant
            i <= n,
            n == word@.len(),
            to - from == n,
            from <= to <= chars.len(),
            forall|k: int| 0 <= k < i ==> chars@[from + k] == word@[k],
        decreases n - i,
    {
        if chars[from + i] != word.get_char(i) {
            assert(chars@.subrange(from as int, to as int)[i as int] != word@[i as int]);
            return false;
        }
        i += 1;
    }
    assert(chars@.subrange(from as int, to as int) =~= word@);
    true
}

/// The keyword that a word is; see [`keyword`].
pub fn keyword_token(chars: &Vec<char>, from: usize, to: usize) -> (r: Option<Token>)
    requires
        from <= to <= chars.len(),
    ensures
        match r {
            Some(token) => keyword(chars@.subrange(from as int, to as int)) == Some(token@),
            None => keyword(chars@.subrange(from as int, to as int)) is None,
        },
{
    if word_is(chars, from, to, "call") {
        Some(Token::Call)
    } else if word_is(chars, from, to, "seq") {
        Some(Token::Sequence)
    } else if word_is(chars, from, to, "par") {
        Some(Token::Par)
    } else if word_is(chars, from, to, "null") {
        Some(Token::Null)
    } else if word_is(chars, from, to, "fold") {
        Some(Token::Fold)
    } else if word_is(chars, from, to, "xor") {
        Some(Token::Xor)
    } else if word_is(chars, from, to, "next") {
        Some(Token::Next)
    } else if word_is(chars, from, to, "match") {
        Some(Token::Match)
    } else if word_is(chars, from, to, "mismatch") {
        Some(Token::MisMatch)
    } else if word_is(chars, from, to, "%init_peer_id%") {
        Some(Token::InitPeerId)
    } else {
        None
    }
}

/// The part of the script from `from` up to `to` as a text of its own.
pub fn text_of(input: &str, from: usize, to: usize) -> (r: String)
    requires
        from <= to <= input@.len(),
    ensures
        r@ == input@.subrange(from as int, to as int),
{
    String::from_str(input.substring_char(from, to))
}

/// Makes a token of a word; see [`classify`].
pub fn string_to_token(input: &str, chars: &Vec<char>, from: usize, to: usize) -> (r: Result<
    Token,
    LexerError,
>)
    requires
        chars@ == input@,
        from < to <= chars.len(),
    ensures
        match r {
            Ok(token) => classify(chars@.subrange(from as int, to as int), from as int) == Ok::<
                TokenView,
                LexerError,
            >(token@),
            Err(e) => classify(chars@.subrange(from as int, to as int), from as int) == Err::<
                TokenView,
                LexerError,
            >(e),
        },
{
    let ghost word = chars@.subrange(from as int, to as int);
    if let Some(token) = keyword_token(chars, from, to) {
        return Ok(token);
    }
    proof {
        assert(chars@.subrange(0, to as int).subrange(from as int, to as int) =~= word);
        lemma_first_char_shift(chars@.subrange(0, to as int), '.', from as int, from as int);
    }
    match find_char(chars, '.', from, to) {
        Some(dot) => {
            assert(word.subrange(0, dot - from) =~= chars@.subrange(from as int, dot as int));
            assert(word.subrange(dot - from + 1, word.len() as int) =~= chars@.subrange(
                dot + 1,
                to as int,
            ));
            if let Some(k) = find_bad(chars, false, from, dot) {
                return Err(LexerError::IsNotAlphanumeric(k, k));
            }
            if let Some(k) = find_bad(chars, true, dot + 1, to) {
                return Err(LexerError::InvalidJsonPath(k, k));
            }
            Ok(
                Token::JsonPath {
                    variable: text_of(input, from, dot),
                    path: text_of(input, dot + 1, to),
                },
            )
        },
        None => {
            if to - from >= 2 && chars[to - 2] == '[' && chars[to - 1] == ']' {
                assert(word[word.len() - 2] == '[' && word[word.len() - 1] == ']');
                if to - from == 2 {
                    return Err(LexerError::EmptyAccName(from, from + 2));
                }
                assert(word.subrange(0, word.len() - 2) =~= chars@.subrange(
                    from as int,
                    to - 2,
                ));
                if let Some(k) = find_bad(chars, false, from, to - 2) {
                    return Err(LexerError::IsNotAlphanumeric(k, k));
                }
                Ok(Token::Accumulator(text_of(input, from, to - 2)))
            } else {
                assert(!ends_in_brackets(word)) by {
                    if word.len() >= 2 {
                        assert(word[word.len() - 2] == chars@[to - 2]);
                        assert(word[word.len() - 1] == chars@[to - 1]);
                    }
                }
                if let Some(k) = find_bad(chars, false, from, to) {
                    return Err(LexerError::IsNotAlphanumeric(k, k));
                }
                Ok(Token::Alphanumeric(text_of(input, from, to)))
            }
        },
    }
}

/// Looking for a character in a text from `from` on is looking for it in
/// the part of the text behind `cut`, as far as `from` lies behind `cut`.
proof fn lemma_first_char_shift(text: Seq<char>, c: char, cut: int, from: int)
    requires
        0 <= cut <= from <= text.len(),
    ensures
        first_char(text.subrange(cut, text.len() as int), c, from - cut) == match first_char(
            text,
            c,
            from,
        ) {
            Some(i) => Some(i - cut),
            None => None,
        },
    decreases text.len() - from,
{
    if from < text.len() {
        assert(text.subrange(cut, text.len() as int)[from - cut] == text[from]);
        if text[from] != c {
            lemma_first_char_shift(text, c, cut, from + 1);
        }
    }
}

/// Takes the token that starts at `pos`; see [`token_at`].
pub fn next_token(input: &str, chars: &Vec<char>, pos: usize) -> (r: Result<
    (Token, usize),
    LexerError,
>)
    requires
        chars@ == input@,
        pos < chars.len(),
        !is_space(chars@[pos as int]),
    ensures
        match r {
            Ok((token, end)) => token_at(chars@, pos as int) == Ok::<(TokenView, int), LexerError>(
                (token@, end as int),
            ) && pos < end <= chars.len(),
            Err(e) => token_at(chars@, pos as int) == Err::<(TokenView, int), LexerError>(e),
        },
{
    let c = chars[pos];
    if c == '(' {
        Ok((Token::OpenRoundBracket, pos + 1))
    } else if c == ')' {
        Ok((Token::CloseRoundBracket, pos + 1))
    } else if c == '[' {
        Ok((Token::OpenSquareBracket, pos + 1))
    } else if c == ']' {
        Ok((Token::CloseSquareBracket, pos + 1))
    } else if c == '"' {
        proof {
            assert(chars@.subrange(0, chars.len() as int) =~= chars@);
        }
        match find_char(chars, '"', pos + 1, chars.len()) {
            None => Err(LexerError::UnclosedQuote(pos, chars.len())),
            Some(quote) => Ok((Token::StringLiteral(text_of(input, pos + 1, quote)), quote + 1)),
        }
    } else {
        let end = advance_to_token_end(chars, pos);
        proof {
            lemma_word_end_bounds(chars@, pos + 1, 0, 0);
        }
        match string_to_token(input, chars, pos, end) {
            Err(e) => Err(e),
            Ok(token) => Ok((token, end)),
        }
    }
}

/// Cuts a script into tokens; see [`lex_spec`].
pub fn lex(input: &str) -> (r: Result<Vec<Spanned>, LexerError>)
    ensures
        match r {
            Ok(tokens) => lex_spec(input@) == Ok::<Seq<SpannedView>, LexerError>(
                tokens_view(tokens@),
            ),
            Err(e) => lex_spec(input@) == Err::<Seq<SpannedView>, LexerError>(e),
        },
{
    let chars = chars_of(input);
    let mut tokens: Vec<Spanned> = Vec::new();
    let mut pos: usize = 0;
    assert(tokens_view(tokens@) =~= Seq::empty());
    while pos < chars.len()
        invariant
            pos <= chars.len(),
            chars@ == input@,
            lex_spec(input@) == lex_from(input@, pos as int, tokens_view(tokens@)),
        decreases chars.len() - pos,
    {
        if is_space_char(chars[pos]) {
            pos = pos + 1;
        } else {
            match next_token(input, &chars, pos) {
                Err(e) => {
                    return Err(e);
                },
                Ok((token, end)) => {
                    let spanned = Spanned { start: pos, token, end };
                    assert(tokens_view(tokens@.push(spanned)) =~= tokens_view(tokens@).push(
                        spanned@,
                    ));
                    tokens.push(spanned);
                    pos = end;
                },
            }
        }
    }
    Ok(tokens)
}

} // verus!
