//! The lexer: source text to tokens.

use vstd::prelude::*;
use vstd::string::*;
use crate::error::{ErrorType, ErrorView};
use crate::token::{tokens_view, Literal, LiteralView, Token, TokenType, TokenView};

verus! {

/// Whether the character is a digit.
pub open spec fn is_digit(c: char) -> bool {
    '0' <= c <= '9'
}

/// Whether a word can start with the character: a letter or an underscore.
pub open spec fn is_word_start(c: char) -> bool {
    ('a' <= c <= 'z') || ('A' <= c <= 'Z') || c == '_'
}

/// Whether the character can stand in a word: a letter, a digit or an underscore.
pub open spec fn is_word_char(c: char) -> bool {
    is_word_start(c) || is_digit(c)
}

/// How many digits stand in a row from `from` on.
pub open spec fn digits(s: Seq<char>, from: int) -> nat
    decreases s.len() - from,
{
    if 0 <= from < s.len() && is_digit(s[from]) {
        1 + digits(s, from + 1)
    } else {
        0
    }
}

/// How many letters, digits and underscores stand in a row from `from` on.
pub open spec fn word_chars(s: Seq<char>, from: int) -> nat
    decreases s.len() - from,
{
    if 0 <= from < s.len() && is_word_char(s[from]) {
        1 + word_chars(s, from + 1)
    } else {
        0
    }
}

/// How many characters other than `stop` stand in a row from `from` on.
pub open spec fn until(s: Seq<char>, from: int, stop: char) -> nat
    decreases s.len() - from,
{
    if 0 <= from < s.len() && s[from] != stop {
        1 + until(s, from + 1, stop)
    } else {
        0
    }
}

/// The kind of a word: that of the keyword it is, else `Identifier`.
pub open spec fn word_kind(word: Seq<char>) -> TokenType {
    if word == "and"@ {
        TokenType::And
    } else if word == "break"@ {
        TokenType::Break
    } else if word == "else"@ {
        TokenType::Else
    } else if word == "false"@ {
        TokenType::False
    } else if word == "func"@ {
        TokenType::Func
    } else if word == "for"@ {
        TokenType::For
    } else if word == "if"@ {
        TokenType::If
    } else if word == "null"@ {
        TokenType::Null
    } else if word == "or"@ {
        TokenType::Or
    } else if word == "print"@ {
        TokenType::Print
    } else if word == "return"@ {
        TokenType::Return
    } else if word == "true"@ {
        TokenType::True
    } else if word == "var"@ {
        TokenType::Var
    } else if word == "while"@ {
        TokenType::While
    } else {
        TokenType::Identifier
    }
}

/// The kind of the token that is a single character, if the character is one.
pub open spec fn single_kind(c: char) -> Option<TokenType> {
    if c == '(' {
        Some(TokenType::LeftParen)
    } else if c == ')' {
        Some(TokenType::RightParen)
    } else if c == '{' {
        Some(TokenType::LeftCurly)
    } else if c == '}' {
        Some(TokenType::RightCurly)
    } else if c == '[' {
        Some(TokenType::LeftSquare)
    } else if c == ']' {
        Some(TokenType::RightSquare)
    } else if c == ':' {
        Some(TokenType::Colon)
    } else if c == ',' {
        Some(TokenType::Comma)
    } else if c == '-' {
        Some(TokenType::Minus)
    } else if c == '%' {
        Some(TokenType::Percent)
    } else if c == '+' {
        Some(TokenType::Plus)
    } else if c == ';' {
        Some(TokenType::Semicolon)
    } else if c == '/' {
        Some(TokenType::Slash)
    } else if c == '*' {
        Some(TokenType::Star)
    } else {
        None
    }
}

/// For a character that starts an operator of one or two characters: the kind of
/// the operator alone, and its kind when `=` follows.
pub open spec fn double_kind(c: char) -> Option<(TokenType, TokenType)> {
    if c == '!' {
        Some((TokenType::Bang, TokenType::BangEqual))
    } else if c == '=' {
        Some((TokenType::Equal, TokenType::EqualEqual))
    } else if c == '>' {
        Some((TokenType::Greater, TokenType::GreaterEqual))
    } else if c == '<' {
        Some((TokenType::Less, TokenType::LessEqual))
    } else {
        None
    }
}

/// What the lexer finds at a position of the source.
pub ghost enum Lexed {
    /// A token of this kind, made of the character at the position and `more` after it.
    Token { kind: TokenType, more: nat },
    /// Nothing: white space or a comment, of one character and `more` after it.
    /// `newline` says whether a line ended in it.
    Skip { more: nat, newline: bool },
    /// A character that starts nothing.
    Unexpected { character: char },
    /// A string that is still open at the end of the source.
    Unterminated,
}

/// How many characters after its first digit a number at `p` has: the rest of its
/// digits and, if a dot and a digit follow them, the dot and the digits after it.
pub open spec fn number_more(s: Seq<char>, p: int) -> nat {
    let whole = digits(s, p + 1);
    let dot = p + 1 + whole;
    if dot + 1 < s.len() && s[dot] == '.' && is_digit(s[dot + 1]) {
        whole + 1 + digits(s, dot + 1)
    } else {
        whole
    }
}

/// What stands at position `p` of the source `s`.
pub open spec fn lex_at(s: Seq<char>, p: int) -> Lexed
    recommends
        0 <= p < s.len(),
{
    let c = s[p];
    if single_kind(c) is Some {
        Lexed::Token { kind: single_kind(c).unwrap(), more: 0 }
    } else if double_kind(c) is Some {
        if p + 1 < s.len() && s[p + 1] == '=' {
            Lexed::Token { kind: double_kind(c).unwrap().1, more: 1 }
        } else {
            Lexed::Token { kind: double_kind(c).unwrap().0, more: 0 }
        }
    } else if c == '"' || c == '\'' {
        let inside = until(s, p + 1, c);
        if p + 1 + inside < s.len() {
            Lexed::Token { kind: TokenType::String_, more: inside + 1 }
        } else {
            Lexed::Unterminated
        }
    } else if is_digit(c) {
        Lexed::Token { kind: TokenType::Number, more: number_more(s, p) }
    } else if is_word_start(c) {
        let more = word_chars(s, p + 1);
        Lexed::Token { kind: word_kind(s.subrange(p, p + 1 + more)), more }
    } else if c == '#' {
        let rest = until(s, p + 1, '\n');
        if p + 1 + rest < s.len() {
            Lexed::Skip { more: rest + 1, newline: true }
        } else {
            Lexed::Skip { more: rest, newline: false }
        }
    } else if c == ' ' || c == '\r' || c == '\t' {
        Lexed::Skip { more: 0, newline: false }
    } else if c == '\n' {
        Lexed::Skip { more: 0, newline: true }
    } else {
        Lexed::Unexpected { character: c }
    }
}

/// Where a numeral starts once the zeros that stand before another digit are left out.
pub open spec fn numeral_start(s: Seq<char>, i: int) -> int
    decreases s.len() - i,
{
    if 0 <= i && i + 1 < s.len() && s[i] == '0' && is_digit(s[i + 1]) {
        numeral_start(s, i + 1)
    } else {
        i
    }
}

/// Where a numeral ends once the zeros at the end of its fraction are left out;
/// `dot` is the index of its dot.
pub open spec fn numeral_end(s: Seq<char>, j: int, dot: int) -> int
    decreases j,
{
    if 0 <= dot && dot + 1 < j && j <= s.len() && s[j - 1] == '0' {
        numeral_end(s, j - 1, dot)
    } else {
        j
    }
}

/// A numeral in its shortest form: without zeros before its first digit, without
/// zeros at the end of its fraction, and without a dot that nothing follows. Two
/// numerals of one shortest form stand for the same number.
pub open spec fn shortest(s: Seq<char>) -> Seq<char> {
    let dot = until(s, 0, '.') as int;
    let from = numeral_start(s, 0);
    if dot >= s.len() {
        s.subrange(from, s.len() as int)
    } else {
        let to = numeral_end(s, s.len() as int, dot);
        if to == dot + 1 {
            s.subrange(from, dot)
        } else {
            s.subrange(from, to)
        }
    }
}

/// The constant that a token of this kind and lexeme stands for. A number is
/// kept as its numeral in shortest form.
pub open spec fn literal_of(kind: TokenType, lexeme: Seq<char>) -> LiteralView {
    match kind {
        TokenType::String_ => LiteralView::String_(lexeme.subrange(1, lexeme.len() - 1)),
        TokenType::Number => LiteralView::Number(shortest(lexeme)),
        TokenType::True => LiteralView::Bool(true),
        TokenType::False => LiteralView::Bool(false),
        _ => LiteralView::Null,
    }
}

/// The token that ends the token sequence.
pub open spec fn eof_token(line: usize) -> TokenView {
    TokenView { type_: TokenType::Eof, lexeme: Seq::empty(), literal: LiteralView::Null, line }
}

/// The number of the line after line `line`; the count stops at `usize::MAX`.
pub open spec fn next_line(line: usize) -> usize {
    if line < usize::MAX {
        (line + 1) as usize
    } else {
        line
    }
}

/// The tokens of the source `s` from position `p` on, with the end token last; or
/// the error that stops the lexer. `line` is the count of lines at `p`: it goes up
/// at a line end that is white space or ends a comment, and not at a line end
/// inside a string literal. Each token carries the count at which it is made.
pub open spec fn lex(s: Seq<char>, p: int, line: usize) -> Result<Seq<TokenView>, ErrorView>
    decreases (if p < s.len() { s.len() - p } else { 0 }),
{
    if p < 0 || p >= s.len() {
        Ok(seq![eof_token(line)])
    } else {
        match lex_at(s, p) {
            Lexed::Token { kind, more } => {
                let lexeme = s.subrange(p, p + 1 + more);
                let token = TokenView { type_: kind, lexeme, literal: literal_of(kind, lexeme), line };
                match lex(s, p + 1 + more, line) {
                    Ok(rest) => Ok(seq![token] + rest),
                    Err(e) => Err(e),
                }
            },
            Lexed::Skip { more, newline } => lex(s, p + 1 + more, if newline { next_line(line) } else { line }),
            Lexed::Unexpected { character } => Err(ErrorView::UnexpectedCharacter { character, line }),
            Lexed::Unterminated => Err(ErrorView::UnterminatedString),
        }
    }
}

/// Where the lexer stops when it starts at position `p` with the line count
/// `line`: at the end of the source or at what it refuses; and the line count then.
pub open spec fn lex_end(s: Seq<char>, p: int, line: usize) -> (int, usize)
    decreases (if p < s.len() { s.len() - p } else { 0 }),
{
    if p < 0 || p >= s.len() {
        (p, line)
    } else {
        match lex_at(s, p) {
            Lexed::Token { kind, more } => lex_end(s, p + 1 + more, line),
            Lexed::Skip { more, newline } => lex_end(s, p + 1 + more, if newline { next_line(line) } else { line }),
            _ => (p, line),
        }
    }
}

/// The tokens that the lexer makes before it stops, without the end token.
pub open spec fn lex_tokens(s: Seq<char>, p: int, line: usize) -> Seq<TokenView>
    decreases (if p < s.len() { s.len() - p } else { 0 }),
{
    if p < 0 || p >= s.len() {
        Seq::empty()
    } else {
        match lex_at(s, p) {
            Lexed::Token { kind, more } => {
                let lexeme = s.subrange(p, p + 1 + more);
                seq![TokenView { type_: kind, lexeme, literal: literal_of(kind, lexeme), line }] + lex_tokens(
                    s,
                    p + 1 + more,
                    line,
                )
            },
            Lexed::Skip { more, newline } => lex_tokens(
                s,
                p + 1 + more,
                if newline { next_line(line) } else { line },
            ),
            _ => Seq::empty(),
        }
    }
}

/// The number of line ends in `s` before position `p`.
pub open spec fn newlines(s: Seq<char>, p: int) -> nat
    decreases p,
{
    if p <= 0 || p > s.len() {
        0
    } else {
        newlines(s, p - 1) + if s[p - 1] == '\n' { 1nat } else { 0nat }
    }
}

/// The number of lines of a source: one more than it has line ends.
pub open spec fn line_count(s: Seq<char>) -> nat {
    1 + newlines(s, s.len() as int)
}

proof fn lemma_newlines_grow(s: Seq<char>, p: int, q: int)
    requires
        0 <= p <= q <= s.len(),
    ensures
        newlines(s, p) <= newlines(s, q),
    decreases q - p,
{
    if p < q {
        lemma_newlines_grow(s, p, q - 1);
    }
}

proof fn lemma_run_lengths(s: Seq<char>, from: int, stop: char)
    requires
        0 <= from <= s.len(),
    ensures
        from + digits(s, from) <= s.len(),
        from + word_chars(s, from) <= s.len(),
        from + until(s, from, stop) <= s.len(),
        from + until(s, from, stop) < s.len() ==> s[from + until(s, from, stop)] == stop,
    decreases s.len() - from,
{
    if from < s.len() {
        lemma_run_lengths(s, from + 1, stop);
    }
}

/// What is read at a position ends within the source, and where a line ends in
/// it, a line end is its last character.
proof fn lemma_lex_at(s: Seq<char>, p: int)
    requires
        0 <= p < s.len(),
    ensures
        match lex_at(s, p) {
            Lexed::Token { kind, more } => p + 1 + more <= s.len(),
            Lexed::Skip { more, newline } => p + 1 + more <= s.len() && (newline ==> s[p + more] == '\n'),
            _ => true,
        },
{
    lemma_run_lengths(s, p + 1, s[p]);
    lemma_run_lengths(s, p + 1, '\n');
    let whole = digits(s, p + 1);
    if p + 1 + whole < s.len() {
        lemma_run_lengths(s, p + 1 + whole + 1, '\n');
    }
}

/// Whether every token is on a line from `low` up to `high`.
pub open spec fn token_lines_within(tokens: Seq<TokenView>, low: int, high: int) -> bool {
    forall|i: int| 0 <= i < tokens.len() ==> low <= (#[trigger] tokens[i]).line <= high
}

proof fn lemma_lex_lines(s: Seq<char>, p: int, line: usize)
    requires
        0 <= p <= s.len(),
        1 <= line <= 1 + newlines(s, p),
    ensures
        match lex(s, p, line) {
            Ok(tokens) => token_lines_within(tokens, line as int, line_count(s) as int),
            Err(ErrorView::UnexpectedCharacter { character, line: at }) => line <= at <= line_count(s),
            Err(_) => true,
        },
    decreases s.len() - p,
{
    lemma_newlines_grow(s, p, s.len() as int);
    if p < s.len() {
        lemma_lex_at(s, p);
        match lex_at(s, p) {
            Lexed::Token { kind, more } => {
                lemma_newlines_grow(s, p, p + 1 + more);
                lemma_lex_lines(s, p + 1 + more, line);
            },
            Lexed::Skip { more, newline } => {
                lemma_newlines_grow(s, p, p + more);
                if newline {
                    assert(newlines(s, p + 1 + more) == newlines(s, p + more) + 1);
                    lemma_lex_lines(s, p + 1 + more, next_line(line));
                } else {
                    lemma_newlines_grow(s, p, p + 1 + more);
                    lemma_lex_lines(s, p + 1 + more, line);
                }
            },
            _ => {},
        }
    }
}

/// Every token carries a line of the source: a number from 1 up to the number of
/// lines, and a source has one line more than it has line ends. The same holds
/// of the line of a character that is refused. (The line of a token is the
/// lexer's count, which leaves out the line ends inside string literals: after a
/// string over several lines it is smaller than the line the token stands on.)
pub proof fn law_token_lines(s: Seq<char>)
    ensures
        match lex(s, 0, 1) {
            Ok(tokens) => token_lines_within(tokens, 1, line_count(s) as int),
            Err(ErrorView::UnexpectedCharacter { character, line }) => 1 <= line <= line_count(s),
            Err(_) => true,
        },
{
    lemma_lex_lines(s, 0, 1);
}

/// An empty source has the end token alone.
pub proof fn law_empty_source(s: Seq<char>)
    requires
        s.len() == 0,
    ensures
        lex(s, 0, 1) == Ok::<Seq<TokenView>, ErrorView>(seq![eof_token(1)]),
{
}

/// Whether two texts are the same.
pub fn same_text(a: &str, b: &str) -> (r: bool)
    ensures
        r == (a@ == b@),
{
    let n = a.unicode_len();
    if n != b.unicode_len() {
        return false;
    }
    let mut i: usize = 0;
    while i < n
        invariant
            i <= n,
            n == a@.len(),
            n == b@.len(),
            forall|j: int| 0 <= j < i ==> a@[j] == b@[j],
        decreases n - i,
    {
        if a.get_char(i) != b.get_char(i) {
            return false;
        }
        i += 1;
    }
    assert(a@ =~= b@);
    true
}

fn digit(c: char) -> (r: bool)
    ensures
        r == is_digit(c),
{
    '0' <= c && c <= '9'
}

fn word_start(c: char) -> (r: bool)
    ensures
        r == is_word_start(c),
{
    ('a' <= c && c <= 'z') || ('A' <= c && c <= 'Z') || c == '_'
}

fn kind_of_word(word: &str) -> (r: TokenType)
    ensures
        r == word_kind(word@),
{
    if same_text(word, "and") {
        TokenType::And
    } else if same_text(word, "break") {
        TokenType::Break
    } else if same_text(word, "else") {
        TokenType::Else
    } else if same_text(word, "false") {
        TokenType::False
    } else if same_text(word, "func") {
        TokenType::Func
    } else if same_text(word, "for") {
        TokenType::For
    } else if same_text(word, "if") {
        TokenType::If
    } else if same_text(word, "null") {
        TokenType::Null
    } else if same_text(word, "or") {
        TokenType::Or
    } else if same_text(word, "print") {
        TokenType::Print
    } else if same_text(word, "return") {
        TokenType::Return
    } else if same_text(word, "true") {
        TokenType::True
    } else if same_text(word, "var") {
        TokenType::Var
    } else if same_text(word, "while") {
        TokenType::While
    } else {
        TokenType::Identifier
    }
}

fn kind_of_single(c: char) -> (r: Option<TokenType>)
    ensures
        r == single_kind(c),
{
    if c == '(' {
        Some(TokenType::LeftParen)
    } else if c == ')' {
        Some(TokenType::RightParen)
    } else if c == '{' {
        Some(TokenType::LeftCurly)
    } else if c == '}' {
        Some(TokenType::RightCurly)
    } else if c == '[' {
        Some(TokenType::LeftSquare)
    } else if c == ']' {
        Some(TokenType::RightSquare)
    } else if c == ':' {
        Some(TokenType::Colon)
    } else if c == ',' {
        Some(TokenType::Comma)
    } else if c == '-' {
        Some(TokenType::Minus)
    } else if c == '%' {
        Some(TokenType::Percent)
    } else if c == '+' {
        Some(TokenType::Plus)
    } else if c == ';' {
        Some(TokenType::Semicolon)
    } else if c == '/' {
        Some(TokenType::Slash)
    } else if c == '*' {
        Some(TokenType::Star)
    } else {
        None
    }
}

fn kind_of_double(c: char) -> (r: Option<(TokenType, TokenType)>)
    ensures
        r == double_kind(c),
{
    if c == '!' {
        Some((TokenType::Bang, TokenType::BangEqual))
    } else if c == '=' {
        Some((TokenType::Equal, TokenType::EqualEqual))
    } else if c == '>' {
        Some((TokenType::Greater, TokenType::GreaterEqual))
    } else if c == '<' {
        Some((TokenType::Less, TokenType::LessEqual))
    } else {
        None
    }
}

/// Counts the digits that stand in a row from `from` on.
fn count_digits(source: &str, from: usize, length: usize) -> (n: usize)
    requires
        from <= length,
        length == source@.len(),
    ensures
        n == digits(source@, from as int),
        from + n <= length,
{
    let mut k: usize = from;
    let mut going = true;
    while going && k < length
        invariant
            from <= k <= length,
            length == source@.len(),
            digits(source@, from as int) == (k - from) + digits(source@, k as int),
            !going ==> k < length && !is_digit(source@[k as int]),
        decreases (length - k) + (if going { 1nat } else { 0nat }),
    {
        if digit(source.get_char(k)) {
            k += 1;
        } else {
            going = false;
        }
    }
    k - from
}

/// Counts the word characters that stand in a row from `from` on.
fn count_word_chars(source: &str, from: usize, length: usize) -> (n: usize)
    requires
        from <= length,
        length == source@.len(),
    ensures
        n == word_chars(source@, from as int),
        from + n <= length,
{
    let mut k: usize = from;
    let mut going = true;
    while going && k < length
        invariant
            from <= k <= length,
            length == source@.len(),
            word_chars(source@, from as int) == (k - from) + word_chars(source@, k as int),
            !going ==> k < length && !is_word_char(source@[k as int]),
        decreases (length - k) + (if going { 1nat } else { 0nat }),
    {
        let c = source.get_char(k);
        if word_start(c) || digit(c) {
            k += 1;
        } else {
            going = false;
        }
    }
    k - from
}

/// Counts the characters other than `stop` that stand in a row from `from` on.
fn count_until(source: &str, from: usize, length: usize, stop: char) -> (n: usize)
    requires
        from <= length,
        length == source@.len(),
    ensures
        n == until(source@, from as int, stop),
        from + n <= length,
        from + n < length ==> source@[from + n] == stop,
{
    let mut k: usize = from;
    let mut going = true;
    while going && k < length
        invariant
            from <= k <= length,
            length == source@.len(),
            until(source@, from as int, stop) == (k - from) + until(source@, k as int, stop),
            !going ==> k < length && source@[k as int] == stop,
        decreases (length - k) + (if going { 1nat } else { 0nat }),
    {
        if source.get_char(k) != stop {
            k += 1;
        } else {
            going = false;
        }
    }
    k - from
}

/// Puts a numeral into its shortest form.
pub fn shortest_numeral(text: &str) -> (r: String)
    ensures
        r@ == shortest(text@),
{
    let length = text.unicode_len();
    let dot = count_until(text, 0, length, '.');
    let mut from: usize = 0;
    let mut going = true;
    while going
        invariant
            from <= dot <= length,
            length == text@.len(),
            dot < length ==> text@[dot as int] == '.',
            numeral_start(text@, from as int) == numeral_start(text@, 0),
            !going ==> numeral_start(text@, from as int) == from,
        decreases (length - from) + (if going { 1nat } else { 0nat }),
    {
        if length - from > 1 && text.get_char(from) == '0' && digit(text.get_char(from + 1)) {
            from += 1;
        } else {
            going = false;
        }
    }
    if dot >= length {
        String::from_str(text.substring_char(from, length))
    } else {
        let mut to: usize = length;
        let mut going = true;
        while going
            invariant
                dot < to <= length,
                length == text@.len(),
                numeral_end(text@, to as int, dot as int) == numeral_end(text@, length as int, dot as int),
                !going ==> numeral_end(text@, to as int, dot as int) == to,
            decreases to + (if going { 1nat } else { 0nat }),
        {
            if to - dot > 1 && text.get_char(to - 1) == '0' {
                to -= 1;
            } else {
                going = false;
            }
        }
        if to == dot + 1 {
            String::from_str(text.substring_char(from, dot))
        } else {
            String::from_str(text.substring_char(from, to))
        }
    }
}

/// Makes the token of kind `kind` from the characters `start` to `end` of the source.
fn construct_token(source: &str, kind: TokenType, start: usize, end: usize, line: usize) -> (r: Token)
    requires
        start < end <= source@.len(),
        kind == TokenType::String_ ==> start + 2 <= end,
    ensures
        r@ == (TokenView {
            type_: kind,
            lexeme: source@.subrange(start as int, end as int),
            literal: literal_of(kind, source@.subrange(start as int, end as int)),
            line,
        }),
{
    let text = source.substring_char(start, end);
    let literal = match kind {
        TokenType::String_ => {
            let inner = source.substring_char(start + 1, end - 1);
            assert(inner@ =~= text@.subrange(1, text@.len() - 1));
            Literal::String_(String::from_str(inner))
        },
        TokenType::Number => Literal::Number(shortest_numeral(text)),
        TokenType::True => Literal::Bool(true),
        TokenType::False => Literal::Bool(false),
        _ => Literal::Null,
    };
    Token { type_: kind, lexeme: String::from_str(text), literal, line }
}

/// The lexer over one source text.
pub struct Tokenizer<'a> {
    source: &'a str,
    tokens: Vec<Token>,
    start: usize,
    current_index: usize,
    current_line: usize,
}

impl<'a> Tokenizer<'a> {
    /// The source text.
    pub closed spec fn source(&self) -> Seq<char> {
        self.source@
    }

    /// The position of the next character to read.
    pub closed spec fn position(&self) -> int {
        self.current_index as int
    }

    /// The count of lines at the next character to read: one more than the line
    /// ends read so far outside of string literals.
    pub closed spec fn line(&self) -> usize {
        self.current_line
    }

    /// The tokens made so far.
    pub closed spec fn scanned(&self) -> Seq<TokenView> {
        tokens_view(self.tokens@)
    }

    /// A lexer at the start of `source`.
    pub fn new(source: &'a str) -> (r: Self)
        ensures
            r.source() == source@,
            r.position() == 0,
            r.line() == 1,
            r.scanned() == Seq::<TokenView>::empty(),
    {
        let r = Tokenizer { source, tokens: Vec::new(), start: 0, current_index: 0, current_line: 1 };
        assert(tokens_view(r.tokens@) =~= Seq::<TokenView>::empty());
        r
    }

    /// Reads what stands at the current position: a token, or white space or a
    /// comment, for which it gives `None`.
    fn scan_token(&mut self, length: usize) -> (r: Result<Option<Token>, ErrorType>)
        requires
            old(self).current_index < length,
            length == old(self).source@.len(),
        ensures
            final(self).source == old(self).source,
            final(self).tokens == old(self).tokens,
            r is Ok ==> old(self).current_index < final(self).current_index <= length,
            r is Err ==> final(self).current_index == old(self).current_index && final(self).current_line == old(
                self,
            ).current_line,
            match lex_at(old(self).source@, old(self).current_index as int) {
                Lexed::Token { kind, more } => {
                    &&& r matches Ok(Some(token))
                    &&& token@ == (TokenView {
                        type_: kind,
                        lexeme: old(self).source@.subrange(
                            old(self).current_index as int,
                            old(self).current_index + 1 + more,
                        ),
                        literal: literal_of(
                            kind,
                            old(self).source@.subrange(
                                old(self).current_index as int,
                                old(self).current_index + 1 + more,
                            ),
                        ),
                        line: old(self).current_line,
                    })
                    &&& final(self).current_index == old(self).current_index + 1 + more
                    &&& final(self).current_line == old(self).current_line
                },
                Lexed::Skip { more, newline } => {
                    &&& r matches Ok(None)
                    &&& final(self).current_index == old(self).current_index + 1 + more
                    &&& final(self).current_line == if newline {
                        next_line(old(self).current_line)
                    } else {
                        old(self).current_line
                    }
                },
                Lexed::Unexpected { character } => r matches Err(e) && e@ == (ErrorView::UnexpectedCharacter {
                    character,
                    line: old(self).current_line,
                }),
                Lexed::Unterminated => r matches Err(e) && e@ == ErrorView::UnterminatedString,
            },
    {
        let source = self.source;
        let start = self.current_index;
        let line = self.current_line;
        self.start = start;
        let c = source.get_char(start);
        if let Some(kind) = kind_of_single(c) {
            self.current_index = start + 1;
            return Ok(Some(construct_token(source, kind, start, start + 1, line)));
        }
        if let Some(kinds) = kind_of_double(c) {
            if start + 1 < length && source.get_char(start + 1) == '=' {
                self.current_index = start + 2;
                return Ok(Some(construct_token(source, kinds.1, start, start + 2, line)));
            } else {
                self.current_index = start + 1;
                return Ok(Some(construct_token(source, kinds.0, start, start + 1, line)));
            }
        }
        if c == '"' || c == '\'' {
            let inside = count_until(source, start + 1, length, c);
            if start + 1 + inside < length {
                self.current_index = start + 2 + inside;
                return Ok(Some(construct_token(source, TokenType::String_, start, start + 2 + inside, line)));
            } else {
                return Err(ErrorType::UnterminatedString);
            }
        }
        if digit(c) {
            let whole = count_digits(source, start + 1, length);
            let dot = start + 1 + whole;
            let mut end = dot;
            if dot < length && dot + 1 < length {
                if source.get_char(dot) == '.' && digit(source.get_char(dot + 1)) {
                    end = dot + 1 + count_digits(source, dot + 1, length);
                }
            }
            self.current_index = end;
            return Ok(Some(construct_token(source, TokenType::Number, start, end, line)));
        }
        if word_start(c) {
            let more = count_word_chars(source, start + 1, length);
            let end = start + 1 + more;
            let kind = kind_of_word(source.substring_char(start, end));
            self.current_index = end;
            return Ok(Some(construct_token(source, kind, start, end, line)));
        }
        if c == '#' {
            let rest = count_until(source, start + 1, length, '\n');
            if start + 1 + rest < length {
                self.current_index = start + 2 + rest;
                if line < usize::MAX {
                    self.current_line = line + 1;
                }
            } else {
                self.current_index = start + 1 + rest;
            }
            return Ok(None);
        }
        if c == ' ' || c == '\r' || c == '\t' {
            self.current_index = start + 1;
            return Ok(None);
        }
        if c == '\n' {
            self.current_index = start + 1;
            if line < usize::MAX {
                self.current_line = line + 1;
            }
            return Ok(None);
        }
        Err(ErrorType::UnexpectedCharacter { character: c, line })
    }

    /// Turns the rest of the source into tokens, and gives all tokens made, with
    /// the end token last; or the error at the first character that starts nothing,
    /// or at a string that is not closed.
    pub fn tokenize(&mut self) -> (r: Result<Vec<Token>, ErrorType>)
        ensures
            match lex(old(self).source(), old(self).position(), old(self).line()) {
                Ok(rest) => r matches Ok(tokens) && tokens_view(tokens@) == old(self).scanned() + rest,
                Err(e) => r matches Err(found) && found@ == e,
            },
            final(self).source() == old(self).source(),
            (final(self).position(), final(self).line()) == lex_end(
                old(self).source(),
                old(self).position(),
                old(self).line(),
            ),
            final(self).scanned() == old(self).scanned() + lex_tokens(
                old(self).source(),
                old(self).position(),
                old(self).line(),
            ) + if r is Ok {
                seq![eof_token(final(self).line())]
            } else {
                Seq::empty()
            },
    {
        let length = self.source.unicode_len();
        let ghost s = self.source@;
        let ghost start_scanned = tokens_view(self.tokens@);
        let ghost goal = lex(s, self.current_index as int, self.current_line);
        while self.current_index < length
            invariant
                self.source@ == s,
                s == old(self).source@,
                goal == lex(s, old(self).current_index as int, old(self).current_line),
                start_scanned == tokens_view(old(self).tokens@),
                length == s.len(),
                match lex(s, self.current_index as int, self.current_line) {
                    Ok(rest) => goal matches Ok(all) && start_scanned + all == tokens_view(self.tokens@) + rest,
                    Err(e) => goal == Err::<Seq<TokenView>, ErrorView>(e),
                },
                lex_end(s, self.current_index as int, self.current_line) == lex_end(
                    s,
                    old(self).current_index as int,
                    old(self).current_line,
                ),
                start_scanned + lex_tokens(s, old(self).current_index as int, old(self).current_line)
                    == tokens_view(self.tokens@) + lex_tokens(s, self.current_index as int, self.current_line),
            decreases length - self.current_index,
        {
            let ghost before = tokens_view(self.tokens@);
            let ghost here = self.current_index as int;
            let ghost on = self.current_line;
            match self.scan_token(length) {
                Ok(Some(token)) => {
                    let ghost view = token@;
                    self.tokens.push(token);
                    proof {
                        assert(tokens_view(self.tokens@) =~= before.push(view));
                        assert(before + (seq![view] + lex_tokens(s, self.current_index as int, self.current_line))
                            =~= before.push(view) + lex_tokens(s, self.current_index as int, self.current_line));
                        match lex(s, self.current_index as int, self.current_line) {
                            Ok(rest) => {
                                assert(before + (seq![view] + rest) =~= before.push(view) + rest);
                            },
                            Err(e) => {},
                        }
                    }
                },
                Ok(None) => {},
                Err(e) => {
                    proof {
                        assert(tokens_view(self.tokens@) + lex_tokens(s, here, on) =~= tokens_view(self.tokens@));
                        assert(tokens_view(self.tokens@) + Seq::<TokenView>::empty() =~= tokens_view(self.tokens@));
                    }
                    return Err(e);
                },
            }
        }
        let ghost before = tokens_view(self.tokens@);
        proof {
            assert(before + lex_tokens(s, self.current_index as int, self.current_line) =~= before);
        }
        self.tokens.push(
            Token { type_: TokenType::Eof, lexeme: String::from_str(""), literal: Literal::Null, line: self.current_line },
        );
        proof {
            reveal_strlit("");
            assert("".view() =~= Seq::<char>::empty());
            assert(tokens_view(self.tokens@) =~= before + seq![eof_token(self.current_line)]);
        }
        let mut out: Vec<Token> = Vec::new();
        let mut i: usize = 0;
        while i < self.tokens.len()
            invariant
                i <= self.tokens.len(),
                out@.len() == i,
                forall|j: int| 0 <= j < i ==> out@[j]@ == self.tokens@[j]@,
            decreases self.tokens.len() - i,
        {
            out.push(self.tokens[i].clone());
            i += 1;
        }
        assert(tokens_view(out@) =~= tokens_view(self.tokens@));
        Ok(out)
    }
}

/// The tokens of `source`.
pub fn tokenize(source: &str) -> (r: Result<Vec<Token>, ErrorType>)
    ensures
        match lex(source@, 0, 1) {
            Ok(all) => r matches Ok(tokens) && tokens_view(tokens@) == all,
            Err(e) => r matches Err(found) && found@ == e,
        },
{
    let mut tokenizer = Tokenizer::new(source);
    let r = tokenizer.tokenize();
    proof {
        match lex(source@, 0, 1) {
            Ok(all) => {
                assert(Seq::<TokenView>::empty() + all =~= all);
            },
            Err(e) => {},
        }
    }
    r
}

} // verus!
