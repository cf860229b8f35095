//! Turns source text into tokens, one at a time.
use vstd::prelude::*;
use crate::scanner::{Scanner, spec_char_at};
use crate::text::{push_char, str_equals_chars};
use crate::token::{Keyword, SpecToken, Token};

verus! {

// ---------------------------------------------------------------------------
// The token grammar, as functions on the character sequence.
// ---------------------------------------------------------------------------

/// Characters that separate tokens.
pub open spec fn is_space(c: char) -> bool {
    c == ' ' || c == '\t' || c == '\r' || c == '\n'
}

/// A decimal digit.
pub open spec fn is_digit(c: char) -> bool {
    '0' <= c && c <= '9'
}

/// Characters that may start a name.
pub open spec fn is_name_start(c: char) -> bool {
    ('a' <= c && c <= 'z') || ('A' <= c && c <= 'Z') || c == '_'
}

/// Characters that may continue a name.
pub open spec fn is_name_char(c: char) -> bool {
    is_name_start(c) || is_digit(c)
}

/// The first index at or after `i` that holds no separator.
pub open spec fn space_end(s: Seq<char>, i: int) -> int
    decreases s.len() - i,
{
    if 0 <= i < s.len() && is_space(s[i]) {
        space_end(s, i + 1)
    } else {
        i
    }
}

/// The first index at or after `i` that holds no digit.
pub open spec fn digits_end(s: Seq<char>, i: int) -> int
    decreases s.len() - i,
{
    if 0 <= i < s.len() && is_digit(s[i]) {
        digits_end(s, i + 1)
    } else {
        i
    }
}

/// The first index at or after `i` that holds no name character.
pub open spec fn name_end(s: Seq<char>, i: int) -> int
    decreases s.len() - i,
{
    if 0 <= i < s.len() && is_name_char(s[i]) {
        name_end(s, i + 1)
    } else {
        i
    }
}

/// The index of the first line break at or after `i`, or the end of the text.
pub open spec fn line_end(s: Seq<char>, i: int) -> int
    decreases s.len() - i,
{
    if 0 <= i < s.len() && s[i] != '\n' {
        line_end(s, i + 1)
    } else {
        i
    }
}

/// The index just past the first `*/` at or after `i`, or the end of the text.
pub open spec fn block_end(s: Seq<char>, i: int) -> int
    decreases s.len() - i,
{
    if 0 <= i < s.len() {
        if s[i] == '*' && spec_char_at(s, i + 1) == Some('/') {
            i + 2
        } else {
            block_end(s, i + 1)
        }
    } else {
        i
    }
}

/// The end of a number literal whose digits start at `i`: the digits, then a
/// fraction when a dot is followed by a digit.
pub open spec fn number_end(s: Seq<char>, i: int) -> int {
    let j = digits_end(s, i);
    if spec_char_at(s, j) == Some('.') && (spec_char_at(s, j + 1) matches Some(d) && is_digit(d)) {
        digits_end(s, j + 1)
    } else {
        j
    }
}

/// What an escape `\c` inside a string literal stands for.
pub open spec fn escaped(c: char) -> Seq<char> {
    if c == 'n' {
        seq!['\n']
    } else if c == 't' {
        seq!['\t']
    } else if c == '"' {
        seq!['"']
    } else if c == '\\' {
        seq!['\\']
    } else {
        seq!['\\', c]
    }
}

/// The body of a string literal from index `i` on, with `acc` read so far: the
/// string token and the index after the closing quote, or `EOF` at the end of
/// the text when no quote closes it.
pub open spec fn string_literal(s: Seq<char>, i: int, acc: Seq<char>) -> (SpecToken, int)
    decreases s.len() - i,
{
    if 0 <= i < s.len() {
        let c = s[i];
        if c == '"' {
            (SpecToken::String(acc), i + 1)
        } else if c == '\\' {
            if i + 1 < s.len() {
                string_literal(s, i + 2, acc + escaped(s[i + 1]))
            } else {
                string_literal(s, i + 1, acc)
            }
        } else {
            string_literal(s, i + 1, acc.push(c))
        }
    } else {
        (SpecToken::EOF, i)
    }
}

/// The reserved word that a name spells, if any.
pub open spec fn keyword_of(t: Seq<char>) -> Option<Keyword> {
    if t == seq!['l', 'e', 't'] {
        Some(Keyword::Let)
    } else if t == seq!['f', 'n'] {
        Some(Keyword::Fn)
    } else if t == seq!['i', 'f'] {
        Some(Keyword::If)
    } else if t == seq!['e', 'l', 's', 'e'] {
        Some(Keyword::Else)
    } else if t == seq!['w', 'h', 'i', 'l', 'e'] {
        Some(Keyword::While)
    } else if t == seq!['f', 'o', 'r'] {
        Some(Keyword::For)
    } else if t == seq!['r', 'e', 't', 'u', 'r', 'n'] {
        Some(Keyword::Return)
    } else if t == seq!['b', 'r', 'e', 'a', 'k'] {
        Some(Keyword::Break)
    } else if t == seq!['c', 'o', 'n', 't', 'i', 'n', 'u', 'e'] {
        Some(Keyword::Continue)
    } else if t == seq!['t', 'r', 'u', 'e'] {
        Some(Keyword::True)
    } else if t == seq!['f', 'a', 'l', 's', 'e'] {
        Some(Keyword::False)
    } else if t == seq!['n', 'u', 'l', 'l'] {
        Some(Keyword::Null)
    } else if t == seq!['i', 'm', 'p', 'o', 'r', 't'] {
        Some(Keyword::Import)
    } else if t == seq!['p', 'r', 'i', 'n', 't'] {
        Some(Keyword::Print)
    } else {
        None
    }
}

/// The token that a name spells: a reserved word or an identifier.
pub open spec fn name_token(t: Seq<char>) -> SpecToken {
    match keyword_of(t) {
        Some(k) => SpecToken::Keyword(k),
        None => SpecToken::Identifier(t),
    }
}

/// A token of one character, or of that character and `second`, when `second` follows.
pub open spec fn one_or_two(s: Seq<char>, q: int, second: char, one: SpecToken, two: SpecToken) -> (SpecToken, int) {
    if spec_char_at(s, q) == Some(second) {
        (two, q + 1)
    } else {
        (one, q)
    }
}

/// The next token of `s` from index `i` on, and the index just after it.
/// Separators and comments before it are skipped; at the end of the text the
/// token is `EOF`.
pub open spec fn spec_next_token(s: Seq<char>, i: int) -> (SpecToken, int)
    decreases s.len() - i,
{
    let p = space_end(s, i);
    if p < 0 || p >= s.len() {
        (SpecToken::EOF, p)
    } else {
        let c = s[p];
        let q = p + 1;
        if c == '+' {
            (SpecToken::Plus, q)
        } else if c == '-' {
            (SpecToken::Minus, q)
        } else if c == '*' {
            (SpecToken::Star, q)
        } else if c == '/' {
            if spec_char_at(s, q) == Some('/') {
                let e = line_end(s, q + 1);
                if i < e <= s.len() { spec_next_token(s, e) } else { (SpecToken::EOF, e) }
            } else if spec_char_at(s, q) == Some('*') {
                let e = block_end(s, q + 1);
                if i < e <= s.len() { spec_next_token(s, e) } else { (SpecToken::EOF, e) }
            } else {
                (SpecToken::Slash, q)
            }
        } else if c == '%' {
            (SpecToken::Percent, q)
        } else if c == '=' {
            one_or_two(s, q, '=', SpecToken::Equal, SpecToken::EqualEqual)
        } else if c == '!' {
            one_or_two(s, q, '=', SpecToken::Bang, SpecToken::BangEqual)
        } else if c == '<' {
            one_or_two(s, q, '=', SpecToken::Less, SpecToken::LessEqual)
        } else if c == '>' {
            one_or_two(s, q, '=', SpecToken::Greater, SpecToken::GreaterEqual)
        } else if c == '&' {
            one_or_two(s, q, '&', SpecToken::EOF, SpecToken::AndAnd)
        } else if c == '|' {
            one_or_two(s, q, '|', SpecToken::EOF, SpecToken::OrOr)
        } else if c == ';' {
            (SpecToken::Semicolon, q)
        } else if c == ',' {
            (SpecToken::Comma, q)
        } else if c == '.' {
            (SpecToken::Dot, q)
        } else if c == ':' {
            (SpecToken::Colon, q)
        } else if c == '(' {
            (SpecToken::LeftParen, q)
        } else if c == ')' {
            (SpecToken::RightParen, q)
        } else if c == '{' {
            (SpecToken::LeftBrace, q)
        } else if c == '}' {
            (SpecToken::RightBrace, q)
        } else if c == '[' {
            (SpecToken::LeftBracket, q)
        } else if c == ']' {
            (SpecToken::RightBracket, q)
        } else if c == '"' {
            string_literal(s, q, Seq::empty())
        } else if is_digit(c) {
            let e = number_end(s, q);
            (SpecToken::Number(s.subrange(p, e)), e)
        } else if is_name_start(c) {
            let e = name_end(s, q);
            (name_token(s.subrange(p, e)), e)
        } else {
            (SpecToken::Illegal(c), q)
        }
    }
}

// ---------------------------------------------------------------------------
// Facts about the grammar functions.
// ---------------------------------------------------------------------------

proof fn lemma_space_end(s: Seq<char>, i: int)
    requires
        0 <= i <= s.len(),
    ensures
        i <= space_end(s, i) <= s.len(),
    decreases s.len() - i,
{
    if i < s.len() && is_space(s[i]) {
        lemma_space_end(s, i + 1);
    }
}

proof fn lemma_digits_end(s: Seq<char>, i: int)
    requires
        0 <= i <= s.len(),
    ensures
        i <= digits_end(s, i) <= s.len(),
    decreases s.len() - i,
{
    if i < s.len() && is_digit(s[i]) {
        lemma_digits_end(s, i + 1);
    }
}

proof fn lemma_name_end(s: Seq<char>, i: int)
    requires
        0 <= i <= s.len(),
    ensures
        i <= name_end(s, i) <= s.len(),
    decreases s.len() - i,
{
    if i < s.len() && is_name_char(s[i]) {
        lemma_name_end(s, i + 1);
    }
}

proof fn lemma_line_end(s: Seq<char>, i: int)
    requires
        0 <= i <= s.len(),
    ensures
        i <= line_end(s, i) <= s.len(),
    decreases s.len() - i,
{
    if i < s.len() && s[i] != '\n' {
        lemma_line_end(s, i + 1);
    }
}

proof fn lemma_block_end(s: Seq<char>, i: int)
    requires
        0 <= i <= s.len(),
    ensures
        i <= block_end(s, i) <= s.len(),
    decreases s.len() - i,
{
    if i < s.len() && !(s[i] == '*' && spec_char_at(s, i + 1) == Some('/')) {
        lemma_block_end(s, i + 1);
    }
}

proof fn lemma_string_literal(s: Seq<char>, i: int, acc: Seq<char>)
    requires
        0 <= i <= s.len(),
    ensures
        i <= string_literal(s, i, acc).1 <= s.len(),
    decreases s.len() - i,
{
    if i < s.len() {
        let c = s[i];
        if c == '"' {
        } else if c == '\\' {
            if i + 1 < s.len() {
                lemma_string_literal(s, i + 2, acc + escaped(s[i + 1]));
            } else {
                lemma_string_literal(s, i + 1, acc);
            }
        } else {
            lemma_string_literal(s, i + 1, acc.push(c));
        }
    }
}

/// The next token ends within the text, after where the search began; every
/// token but `EOF` ends strictly after it.
pub proof fn lemma_next_token_progress(s: Seq<char>, i: int)
    requires
        0 <= i <= s.len(),
    ensures
        i <= spec_next_token(s, i).1 <= s.len(),
        !(spec_next_token(s, i).0 is EOF) ==> i < spec_next_token(s, i).1,
    decreases s.len() - i,
{
    lemma_space_end(s, i);
    let p = space_end(s, i);
    if p < s.len() {
        let c = s[p];
        let q = p + 1;
        if c == '/' {
            if spec_char_at(s, q) == Some('/') {
                lemma_line_end(s, q + 1);
                lemma_next_token_progress(s, line_end(s, q + 1));
            } else if spec_char_at(s, q) == Some('*') {
                lemma_block_end(s, q + 1);
                lemma_next_token_progress(s, block_end(s, q + 1));
            }
        } else if c == '"' {
            lemma_string_literal(s, q, Seq::empty());
        } else if is_digit(c) {
            lemma_digits_end(s, q);
            let j = digits_end(s, q);
            if spec_char_at(s, j) == Some('.') && (spec_char_at(s, j + 1) matches Some(d) && is_digit(d)) {
                lemma_digits_end(s, j + 1);
            }
        } else if is_name_start(c) {
            lemma_name_end(s, q);
        }
    }
}

// ---------------------------------------------------------------------------
// The lexer.
// ---------------------------------------------------------------------------

/// Reads tokens from a source text.
pub struct Lexer {
    scanner: Scanner,
}

impl Lexer {
    /// The characters being read.
    pub closed spec fn chars(&self) -> Seq<char> {
        self.scanner.chars()
    }

    /// The index of the next character to read.
    pub closed spec fn pos(&self) -> nat {
        self.scanner.pos()
    }

    /// The position never passes the end of the text.
    pub open spec fn valid(&self) -> bool {
        self.pos() <= self.chars().len()
    }

    /// A lexer at the start of `source`.
    pub fn new(source: String) -> (r: Self)
        ensures
            r.chars() == source@,
            r.pos() == 0,
            r.valid(),
    {
        Self { scanner: Scanner::new(source) }
    }

    /// Reads the rest of a name whose first character, `first`, was just read.
    fn read_identifier(&mut self, first: char) -> (r: String)
        requires
            old(self).valid(),
        ensures
            final(self).valid(),
            final(self).chars() == old(self).chars(),
            final(self).pos() == name_end(old(self).chars(), old(self).pos() as int),
            r@ == seq![first] + old(self).chars().subrange(old(self).pos() as int, final(self).pos() as int),
    {
        let ghost s = self.chars();
        let ghost start = self.pos() as int;
        let mut ident = String::new();
        push_char(&mut ident, first);
        loop
            invariant_except_break
                self.valid(),
                self.chars() == s,
                0 <= start <= self.pos(),
                name_end(s, start) == name_end(s, self.pos() as int),
                ident@ == seq![first] + s.subrange(start, self.pos() as int),
            ensures
                self.valid(),
                self.chars() == s,
                self.pos() == name_end(s, start),
                ident@ == seq![first] + s.subrange(start, self.pos() as int),
            decreases s.len() - self.pos(),
        {
            match self.scanner.peek() {
                Some(ch) => {
                    if is_name_char_exec(ch) {
                        let ghost p0 = self.pos() as int;
                        let c = self.scanner.advance();
                        let ch2 = c.unwrap();
                        assert(ch2 == s[p0]);
                        push_char(&mut ident, ch2);
                        assert(s.subrange(start, p0 + 1) =~= s.subrange(start, p0).push(s[p0]));
                        assert(ident@ =~= seq![first] + s.subrange(start, self.pos() as int));
                    } else {
                        break;
                    }
                }
                None => {
                    break;
                }
            }
        }
        ident
    }

    /// The token that a name spells: a reserved word or an identifier.
    fn identifier_or_keyword(&self, text: String) -> (r: Token)
        ensures
            r@ == name_token(text@),
    {
        let t = text.as_str();
        if str_equals_chars(t, &['l', 'e', 't']) {
            assert(t@ =~= seq!['l', 'e', 't']);
            Token::Keyword(Keyword::Let)
        } else if str_equals_chars(t, &['f', 'n']) {
            assert(t@ =~= seq!['f', 'n']);
            Token::Keyword(Keyword::Fn)
        } else if str_equals_chars(t, &['i', 'f']) {
            assert(t@ =~= seq!['i', 'f']);
            Token::Keyword(Keyword::If)
        } else if str_equals_chars(t, &['e', 'l', 's', 'e']) {
            assert(t@ =~= seq!['e', 'l', 's', 'e']);
            Token::Keyword(Keyword::Else)
        } else if str_equals_chars(t, &['w', 'h', 'i', 'l', 'e']) {
            assert(t@ =~= seq!['w', 'h', 'i', 'l', 'e']);
            Token::Keyword(Keyword::While)
        } else if str_equals_chars(t, &['f', 'o', 'r']) {
            assert(t@ =~= seq!['f', 'o', 'r']);
            Token::Keyword(Keyword::For)
        } else if str_equals_chars(t, &['r', 'e', 't', 'u', 'r', 'n']) {
            assert(t@ =~= seq!['r', 'e', 't', 'u', 'r', 'n']);
            Token::Keyword(Keyword::Return)
        } else if str_equals_chars(t, &['b', 'r', 'e', 'a', 'k']) {
            assert(t@ =~= seq!['b', 'r', 'e', 'a', 'k']);
            Token::Keyword(Keyword::Break)
        } else if str_equals_chars(t, &['c', 'o', 'n', 't', 'i', 'n', 'u', 'e']) {
            assert(t@ =~= seq!['c', 'o', 'n', 't', 'i', 'n', 'u', 'e']);
            Token::Keyword(Keyword::Continue)
        } else if str_equals_chars(t, &['t', 'r', 'u', 'e']) {
            assert(t@ =~= seq!['t', 'r', 'u', 'e']);
            Token::Keyword(Keyword::True)
        } else if str_equals_chars(t, &['f', 'a', 'l', 's', 'e']) {
            assert(t@ =~= seq!['f', 'a', 'l', 's', 'e']);
            Token::Keyword(Keyword::False)
        } else if str_equals_chars(t, &['n', 'u', 'l', 'l']) {
            assert(t@ =~= seq!['n', 'u', 'l', 'l']);
            Token::Keyword(Keyword::Null)
        } else if str_equals_chars(t, &['i', 'm', 'p', 'o', 'r', 't']) {
            assert(t@ =~= seq!['i', 'm', 'p', 'o', 'r', 't']);
            Token::Keyword(Keyword::Import)
        } else if str_equals_chars(t, &['p', 'r', 'i', 'n', 't']) {
            assert(t@ =~= seq!['p', 'r', 'i', 'n', 't']);
            Token::Keyword(Keyword::Print)
        } else {
            Token::Identifier(text)
        }
    }
}


impl Lexer {
    /// Reads the rest of a number literal whose first digit, `first`, was just read.
    fn read_number(&mut self, first: char) -> (r: Token)
        requires
            old(self).valid(),
        ensures
            final(self).valid(),
            final(self).chars() == old(self).chars(),
            final(self).pos() == number_end(old(self).chars(), old(self).pos() as int),
            r@ == SpecToken::Number(
                seq![first] + old(self).chars().subrange(old(self).pos() as int, final(self).pos() as int),
            ),
    {
        let ghost s = self.chars();
        let ghost start = self.pos() as int;
        let mut number = String::new();
        push_char(&mut number, first);
        self.read_digits(&mut number, Ghost(start), Ghost(first));
        let ghost j = self.pos() as int;
        proof { lemma_digits_end(s, start); }
        if is_char(self.scanner.peek(), '.') {
            match self.scanner.peek_next() {
                Some(next) => {
                    if '0' <= next && next <= '9' {
                        let ghost p0 = self.pos() as int;
                        let dot = self.scanner.advance().unwrap();
                        push_char(&mut number, dot);
                        assert(s.subrange(start, p0 + 1) =~= s.subrange(start, p0).push(s[p0]));
                        assert(number@ =~= seq![first] + s.subrange(start, self.pos() as int));
                        self.read_digits(&mut number, Ghost(start), Ghost(first));
                    }
                }
                None => {}
            }
        }
        Token::Number(number)
    }

    /// Reads digits onto the end of `number`, which holds `first` and the text read since `start`.
    fn read_digits(&mut self, number: &mut String, Ghost(start): Ghost<int>, Ghost(first): Ghost<char>)
        requires
            old(self).valid(),
            0 <= start <= old(self).pos(),
            old(number)@ == seq![first] + old(self).chars().subrange(start, old(self).pos() as int),
        ensures
            final(self).valid(),
            final(self).chars() == old(self).chars(),
            final(self).pos() == digits_end(old(self).chars(), old(self).pos() as int),
            final(number)@ == seq![first] + old(self).chars().subrange(start, final(self).pos() as int),
    {
        let ghost s = self.chars();
        let ghost begin = self.pos() as int;
        loop
            invariant_except_break
                self.valid(),
                self.chars() == s,
                0 <= start <= begin <= self.pos(),
                digits_end(s, begin) == digits_end(s, self.pos() as int),
                number@ == seq![first] + s.subrange(start, self.pos() as int),
            ensures
                self.valid(),
                self.chars() == s,
                self.pos() == digits_end(s, begin),
                number@ == seq![first] + s.subrange(start, self.pos() as int),
            decreases s.len() - self.pos(),
        {
            match self.scanner.peek() {
                Some(ch) => {
                    if '0' <= ch && ch <= '9' {
                        let ghost p0 = self.pos() as int;
                        let c = self.scanner.advance().unwrap();
                        push_char(number, c);
                        assert(s.subrange(start, p0 + 1) =~= s.subrange(start, p0).push(s[p0]));
                    } else {
                        break;
                    }
                }
                None => {
                    break;
                }
            }
        }
    }

    /// Reads the rest of a string literal whose opening quote was just read.
    fn read_string(&mut self) -> (r: Token)
        requires
            old(self).valid(),
        ensures
            final(self).valid(),
            final(self).chars() == old(self).chars(),
            (r@, final(self).pos() as int) == string_literal(old(self).chars(), old(self).pos() as int, Seq::empty()),
    {
        let ghost s = self.chars();
        let ghost start = self.pos() as int;
        let mut value = String::new();
        loop
            invariant
                self.valid(),
                self.chars() == s,
                s == old(self).chars(),
                start == old(self).pos(),
                string_literal(s, self.pos() as int, value@) == string_literal(s, start, Seq::empty()),
            decreases s.len() - self.pos(),
        {
            let ghost p0 = self.pos() as int;
            match self.scanner.advance() {
                None => {
                    return Token::EOF;
                }
                Some(ch) => {
                    if ch == '"' {
                        return Token::String(value);
                    }
                    if ch == '\\' {
                        match self.scanner.advance() {
                            Some(next) => {
                                let ghost v0 = value@;
                                if next == 'n' {
                                    push_char(&mut value, '\n');
                                } else if next == 't' {
                                    push_char(&mut value, '\t');
                                } else if next == '"' {
                                    push_char(&mut value, '"');
                                } else if next == '\\' {
                                    push_char(&mut value, '\\');
                                } else {
                                    push_char(&mut value, '\\');
                                    push_char(&mut value, next);
                                }
                                assert(value@ =~= v0 + escaped(next));
                            }
                            None => {}
                        }
                    } else {
                        push_char(&mut value, ch);
                    }
                }
            }
        }
    }

    /// Moves past the next character when it is `expected`.
    fn match_char(&mut self, expected: char) -> (r: bool)
        requires
            old(self).valid(),
        ensures
            final(self).valid(),
            final(self).chars() == old(self).chars(),
            r == (spec_char_at(old(self).chars(), old(self).pos() as int) == Some(expected)),
            final(self).pos() == if r { old(self).pos() + 1 } else { old(self).pos() },
    {
        if is_char(self.scanner.peek(), expected) {
            self.scanner.advance();
            true
        } else {
            false
        }
    }

    /// Skips to the end of the line, stopping before the line break.
    fn skip_line_comment(&mut self)
        requires
            old(self).valid(),
        ensures
            final(self).valid(),
            final(self).chars() == old(self).chars(),
            final(self).pos() == line_end(old(self).chars(), old(self).pos() as int),
    {
        let ghost s = self.chars();
        let ghost begin = self.pos() as int;
        loop
            invariant_except_break
                self.valid(),
                self.chars() == s,
                line_end(s, begin) == line_end(s, self.pos() as int),
            ensures
                self.valid(),
                self.chars() == s,
                self.pos() == line_end(s, begin),
            decreases s.len() - self.pos(),
        {
            match self.scanner.peek() {
                Some(ch) => {
                    if ch == '\n' {
                        break;
                    }
                    self.scanner.advance();
                }
                None => {
                    break;
                }
            }
        }
    }

    /// Skips past the `*/` that closes a block comment, or to the end of the text.
    fn skip_block_comment(&mut self)
        requires
            old(self).valid(),
        ensures
            final(self).valid(),
            final(self).chars() == old(self).chars(),
            final(self).pos() == block_end(old(self).chars(), old(self).pos() as int),
    {
        let ghost s = self.chars();
        let ghost begin = self.pos() as int;
        loop
            invariant_except_break
                self.valid(),
                self.chars() == s,
                block_end(s, begin) == block_end(s, self.pos() as int),
            ensures
                self.valid(),
                self.chars() == s,
                self.pos() == block_end(s, begin),
            decreases s.len() - self.pos(),
        {
            match self.scanner.advance() {
                Some(ch) => {
                    if ch == '*' && is_char(self.scanner.peek(), '/') {
                        self.scanner.advance();
                        break;
                    }
                }
                None => {
                    break;
                }
            }
        }
    }

    /// Reads the next token. Separators and comments before it are skipped; at
    /// the end of the text the token is `EOF`.
    pub fn next_token(&mut self) -> (r: Token)
        ensures
            final(self).valid(),
            final(self).chars() == old(self).chars(),
            (r@, final(self).pos() as int) == spec_next_token(old(self).chars(), old(self).pos() as int),
        decreases old(self).chars().len() - old(self).pos(),
    {
        proof {
            use_type_invariant(&self.scanner);
        }
        let ghost s = self.chars();
        let ghost begin = self.pos() as int;
        loop
            invariant_except_break
                self.valid(),
                self.chars() == s,
                begin <= self.pos(),
                space_end(s, begin) == space_end(s, self.pos() as int),
            ensures
                self.valid(),
                self.chars() == s,
                begin <= self.pos(),
                self.pos() == space_end(s, begin),
            decreases s.len() - self.pos(),
        {
            match self.scanner.peek() {
                Some(ch) => {
                    if ch == ' ' || ch == '\t' || ch == '\r' || ch == '\n' {
                        self.scanner.advance();
                    } else {
                        break;
                    }
                }
                None => {
                    break;
                }
            }
        }
        if self.scanner.is_at_end() {
            return Token::EOF;
        }
        let ghost p = self.pos() as int;
        let ch = self.scanner.advance().unwrap();
        if ch == '+' {
            Token::Plus
        } else if ch == '-' {
            Token::Minus
        } else if ch == '*' {
            Token::Star
        } else if ch == '/' {
            if self.match_char('/') {
                self.skip_line_comment();
                proof { lemma_line_end(s, p + 2); }
                return self.next_token();
            }
            if self.match_char('*') {
                self.skip_block_comment();
                proof { lemma_block_end(s, p + 2); }
                return self.next_token();
            }
            Token::Slash
        } else if ch == '%' {
            Token::Percent
        } else if ch == '=' {
            if is_char(self.scanner.peek(), '=') {
                self.scanner.advance();
                Token::EqualEqual
            } else {
                Token::Equal
            }
        } else if ch == '!' {
            if self.match_char('=') { Token::BangEqual } else { Token::Bang }
        } else if ch == '<' {
            if self.match_char('=') { Token::LessEqual } else { Token::Less }
        } else if ch == '>' {
            if self.match_char('=') { Token::GreaterEqual } else { Token::Greater }
        } else if ch == '&' {
            if self.match_char('&') { Token::AndAnd } else { Token::EOF }
        } else if ch == '|' {
            if self.match_char('|') { Token::OrOr } else { Token::EOF }
        } else if ch == ';' {
            Token::Semicolon
        } else if ch == ',' {
            Token::Comma
        } else if ch == '.' {
            Token::Dot
        } else if ch == ':' {
            Token::Colon
        } else if ch == '(' {
            Token::LeftParen
        } else if ch == ')' {
            Token::RightParen
        } else if ch == '{' {
            Token::LeftBrace
        } else if ch == '}' {
            Token::RightBrace
        } else if ch == '[' {
            Token::LeftBracket
        } else if ch == ']' {
            Token::RightBracket
        } else if ch == '"' {
            self.read_string()
        } else if '0' <= ch && ch <= '9' {
            let t = self.read_number(ch);
            proof {
                lemma_digits_end(s, p + 1);
                lemma_digits_end(s, digits_end(s, p + 1));
                if digits_end(s, p + 1) + 1 <= s.len() {
                    lemma_digits_end(s, digits_end(s, p + 1) + 1);
                }
            }
            assert(seq![ch] + s.subrange(p + 1, self.pos() as int) =~= s.subrange(p, self.pos() as int));
            t
        } else if ('a' <= ch && ch <= 'z') || ('A' <= ch && ch <= 'Z') || ch == '_' {
            let ident = self.read_identifier(ch);
            proof { lemma_name_end(s, p + 1); }
            assert(seq![ch] + s.subrange(p + 1, self.pos() as int) =~= s.subrange(p, self.pos() as int));
            self.identifier_or_keyword(ident)
        } else {
            Token::Illegal(ch)
        }
    }
}

fn is_char(o: Option<char>, c: char) -> (r: bool)
    ensures
        r == (o == Some(c)),
{
    match o {
        Some(d) => d == c,
        None => false,
    }
}

fn is_name_char_exec(c: char) -> (r: bool)
    ensures
        r == is_name_char(c),
{
    ('a' <= c && c <= 'z') || ('A' <= c && c <= 'Z') || c == '_' || ('0' <= c && c <= '9')
}

} // verus!
