//! The executable scanner.
use vstd::prelude::*;

use crate::lexer::{char_at, class_of, lex, lex_from, lemma_step_advances, operator_of, opt_seq, prepend, step, ident_run, is_alpha, is_digit, is_ident_char, is_number_char, number_run, punct_of, CharClass};
use crate::token::{lexemes, Error, Lexeme, Token, TokenStr};

verus! {

/// Relies on `String::push`: the character is appended at the end.
#[verifier::external_body]
fn push_char(s: &mut String, c: char)
    ensures
        final(s)@ == old(s)@.push(c),
{
    s.push(c);
}

pub fn is_digit_char(c: char) -> (r: bool)
    ensures
        r == is_digit(c),
{
    '0' <= c && c <= '9'
}

pub fn is_alpha_char(c: char) -> (r: bool)
    ensures
        r == is_alpha(c),
{
    ('a' <= c && c <= 'z') || ('A' <= c && c <= 'Z')
}

/// Whether `c` continues an identifier: a letter, a digit or an underscore.
pub fn is_identifier(c: &char) -> (r: bool)
    ensures
        r == is_ident_char(*c),
{
    is_alpha_char(*c) || is_digit_char(*c) || *c == '_'
}

/// The token of a one-character punctuation mark, if `c` is one.
pub fn punctuation(c: char) -> (r: Option<Token>)
    ensures
        r == punct_of(c),
{
    match c {
        '(' => Some(Token::LeftParen),
        ')' => Some(Token::RightParen),
        '{' => Some(Token::LeftBrace),
        '}' => Some(Token::RightBrace),
        '[' => Some(Token::LeftBracket),
        ']' => Some(Token::RightBracket),
        ',' => Some(Token::Comma),
        '.' => Some(Token::Dot),
        ':' => Some(Token::Colon),
        ';' => Some(Token::Semicolon),
        '%' => Some(Token::Mod),
        _ => None,
    }
}

/// What `c` starts: a number, an identifier, a punctuation mark, an
/// operator, whitespace, or nothing.
pub fn classify(c: char) -> (r: CharClass)
    ensures
        r == class_of(c),
{
    if is_digit_char(c) {
        CharClass::Digit
    } else if is_alpha_char(c) {
        CharClass::Alpha
    } else if punctuation(c).is_some() {
        CharClass::Punct
    } else if c == '=' || c == '!' || c == '*' || c == '-' || c == '/' || c == '&' || c == '+' {
        CharClass::Operator
    } else if c == ' ' || c == '\n' {
        CharClass::Space
    } else {
        CharClass::Invalid
    }
}

/// A cursor over the characters of one input text.
pub struct Scanner {
    chars: Vec<char>,
    pos: usize,
}

impl Scanner {
    /// The characters being scanned.
    pub closed spec fn text(&self) -> Seq<char> {
        self.chars@
    }

    /// How many characters have been consumed.
    pub closed spec fn cursor(&self) -> int {
        self.pos as int
    }

    pub closed spec fn wf(&self) -> bool {
        self.pos <= self.chars@.len()
    }

    /// A well-formed scanner's cursor lies within its text.
    pub proof fn lemma_cursor_in_bounds(&self)
        requires
            self.wf(),
        ensures
            0 <= self.cursor() <= self.text().len(),
    {
    }

    /// The next character, not yet consumed.
    pub open spec fn lookahead(&self) -> Option<char> {
        char_at(self.text(), self.cursor())
    }

    /// A scanner positioned at the first character of `input`.
    pub fn new(input: &str) -> (r: Scanner)
        ensures
            r.wf(),
            r.text() == input@,
            r.cursor() == 0,
    {
        let mut chars: Vec<char> = Vec::new();
        for c in it: input.chars()
            invariant
                chars@ == it.seq().take(it.index() as int),
        {
            chars.push(c);
        }
        assert(chars@ =~= input@);
        Scanner { chars, pos: 0 }
    }

    /// Consumes and returns the next character; `None` at the end, where
    /// nothing moves.
    pub fn advance(&mut self) -> (r: Option<char>)
        requires
            old(self).wf(),
        ensures
            final(self).wf(),
            final(self).text() == old(self).text(),
            r == old(self).lookahead(),
            final(self).cursor() == old(self).cursor() + if r is Some { 1int } else { 0int },
    {
        if self.pos < self.chars.len() {
            let c = self.chars[self.pos];
            self.pos = self.pos + 1;
            Some(c)
        } else {
            None
        }
    }

    /// Whether the next character is `terminal`; nothing is consumed.
    pub fn peek(&self, terminal: char) -> (r: bool)
        requires
            self.wf(),
        ensures
            r == (self.lookahead() == Some(terminal)),
    {
        self.pos < self.chars.len() && self.chars[self.pos] == terminal
    }

    /// Consumes the next character when it is `terminal`, and says whether
    /// it did; otherwise the scanner is left exactly as it was.
    pub fn match_char(&mut self, terminal: char) -> (r: bool)
        requires
            old(self).wf(),
        ensures
            final(self).wf(),
            r == (old(self).lookahead() == Some(terminal)),
            r ==> final(self).text() == old(self).text() && final(self).cursor() == old(self).cursor() + 1,
            !r ==> *final(self) == *old(self),
    {
        if self.peek(terminal) {
            assert(self.pos < self.chars.len());
            self.pos = self.pos + 1;
            true
        } else {
            false
        }
    }

    /// The number that `init`, just consumed, begins: `init` and every digit
    /// or decimal point that follows it. The first other character is left
    /// unconsumed.
    pub fn number(&mut self, init: char) -> (r: Token)
        requires
            old(self).wf(),
            is_digit(init),
        ensures
            final(self).wf(),
            final(self).text() == old(self).text(),
            final(self).cursor() == old(self).cursor() + number_run(old(self).text(), old(self).cursor()),
            r@ == Lexeme::Number(seq![init] + old(self).text().subrange(old(self).cursor(), final(self).cursor())),
    {
        let ghost s = self.text();
        let ghost start = self.cursor();
        let mut tok_str = TokenStr::new();
        push_char(&mut tok_str, init);
        while self.pos < self.chars.len() && is_number_char_exec(self.chars[self.pos])
            invariant
                self.wf(),
                self.text() == s,
                start <= self.cursor(),
                start + number_run(s, start) == self.cursor() + number_run(s, self.cursor()),
                tok_str@ == seq![init] + s.subrange(start, self.cursor()),
            decreases s.len() - self.cursor(),
        {
            let c = self.chars[self.pos];
            push_char(&mut tok_str, c);
            self.pos = self.pos + 1;
            assert(s.subrange(start, self.cursor()) =~= s.subrange(start, self.cursor() - 1).push(c));
        }
        Token::Number(tok_str)
    }

    /// The identifier that `init`, just consumed, begins: `init` and every
    /// letter, digit or underscore that follows it. The first other
    /// character is left unconsumed.
    pub fn identifier(&mut self, init: char) -> (r: Token)
        requires
            old(self).wf(),
            is_alpha(init),
        ensures
            final(self).wf(),
            final(self).text() == old(self).text(),
            final(self).cursor() == old(self).cursor() + ident_run(old(self).text(), old(self).cursor()),
            r@ == Lexeme::Identifier(seq![init] + old(self).text().subrange(old(self).cursor(), final(self).cursor())),
    {
        let ghost s = self.text();
        let ghost start = self.cursor();
        let mut tok_str = TokenStr::new();
        push_char(&mut tok_str, init);
        while self.pos < self.chars.len() && is_identifier(&self.chars[self.pos])
            invariant
                self.wf(),
                self.text() == s,
                start <= self.cursor(),
                start + ident_run(s, start) == self.cursor() + ident_run(s, self.cursor()),
                tok_str@ == seq![init] + s.subrange(start, self.cursor()),
            decreases s.len() - self.cursor(),
        {
            let c = self.chars[self.pos];
            push_char(&mut tok_str, c);
            self.pos = self.pos + 1;
            assert(s.subrange(start, self.cursor()) =~= s.subrange(start, self.cursor() - 1).push(c));
        }
        Token::Identifier(tok_str)
    }
}

fn is_number_char_exec(c: char) -> (r: bool)
    ensures
        r == is_number_char(c),
{
    is_digit_char(c) || c == '.'
}

/// Resolves the token that `terminal`, just consumed, begins. For an
/// operator, a second character that forms a two-character operator with it
/// is consumed too; otherwise the one-character operator is taken. A letter
/// begins an identifier. Any other character (a lone `&` among them) is an
/// error, and nothing is consumed.
pub fn multi(scanner: &mut Scanner, terminal: char) -> (r: Result<Token, Error>)
    requires
        old(scanner).wf(),
    ensures
        final(scanner).wf(),
        final(scanner).text() == old(scanner).text(),
        is_alpha(terminal) ==> {
            &&& r matches Ok(t)
            &&& final(scanner).cursor() == old(scanner).cursor() + ident_run(old(scanner).text(), old(scanner).cursor())
            &&& t@ == Lexeme::Identifier(seq![terminal] + old(scanner).text().subrange(old(scanner).cursor(), final(scanner).cursor()))
        },
        !is_alpha(terminal) ==> match operator_of(terminal, old(scanner).lookahead()) {
            Some((t, w)) => r == Ok::<Token, Error>(t) && final(scanner).cursor() == old(scanner).cursor() + w - 1,
            None => r == Err::<Token, Error>(Error::Terminal) && *final(scanner) == *old(scanner),
        },
{
    match terminal {
        '=' => {
            if scanner.match_char('=') {
                return Ok(Token::EqualEqual);
            }
            Ok(Token::Equal)
        },
        '!' => {
            if scanner.match_char('=') {
                return Ok(Token::BangEqual);
            }
            Ok(Token::Bang)
        },
        '*' => {
            if scanner.match_char('=') {
                return Ok(Token::StarEqual);
            }
            Ok(Token::Star)
        },
        '/' => {
            if scanner.match_char('=') {
                return Ok(Token::SlashEqual);
            }
            Ok(Token::Slash)
        },
        '-' => {
            if scanner.match_char('=') {
                return Ok(Token::MinusEqual);
            }
            if scanner.match_char('-') {
                return Ok(Token::MinusMinus);
            }
            Ok(Token::Minus)
        },
        '+' => {
            if scanner.match_char('=') {
                return Ok(Token::PlusEqual);
            }
            if scanner.match_char('+') {
                return Ok(Token::PlusPlus);
            }
            Ok(Token::Plus)
        },
        '&' => {
            if scanner.match_char('&') {
                return Ok(Token::And);
            }
            Err(Error::Terminal)
        },
        _ => {
            if is_alpha_char(terminal) {
                return Ok(scanner.identifier(terminal));
            }
            Err(Error::Terminal)
        },
    }
}

/// Scans a whole text into its tokens, ending with `End`; the first
/// character that starts no token fails the scan.
pub fn source(input: String) -> (r: Result<Vec<Token>, Error>)
    ensures
        r is Ok <==> lex(input@) is Ok,
        r matches Ok(ts) ==> lex(input@)->Ok_0 == lexemes(ts@),
        r matches Err(e) ==> lex(input@) == Err::<Seq<Lexeme>, Error>(e),
{
    let ghost s = input@;
    let mut tokens: Vec<Token> = Vec::new();
    let mut scanner = Scanner::new(input.as_str());
    loop
        invariant
            scanner.wf(),
            scanner.text() == s,
            input@ == s,
            lex(s) == prepend(lexemes(tokens@), lex_from(s, scanner.cursor())),
        decreases s.len() - scanner.cursor(),
    {
        let ghost before = tokens@;
        let ghost i = scanner.cursor();
        let terminal = match scanner.advance() {
            Some(c) => c,
            None => {
                assert(lex_from(s, i) == Ok::<Seq<Lexeme>, Error>(seq![Lexeme::Fixed(Token::End)]));
                tokens.push(Token::End);
                assert(lexemes(tokens@) =~= lexemes(before) + seq![Lexeme::Fixed(Token::End)]);
                return Ok(tokens);
            },
        };
        match classify(terminal) {
            CharClass::Digit => {
                let t = scanner.number(terminal);
                assert(seq![terminal] + s.subrange(i + 1, scanner.cursor()) =~= s.subrange(i, scanner.cursor()));
                tokens.push(t);
            },
            CharClass::Alpha => {
                let t = scanner.identifier(terminal);
                assert(seq![terminal] + s.subrange(i + 1, scanner.cursor()) =~= s.subrange(i, scanner.cursor()));
                tokens.push(t);
            },
            CharClass::Punct => {
                match punctuation(terminal) {
                    Some(t) => tokens.push(t),
                    None => {},
                }
            },
            CharClass::Operator => {
                match multi(&mut scanner, terminal) {
                    Ok(t) => tokens.push(t),
                    Err(e) => return Err(e),
                }
            },
            CharClass::Space => {},
            CharClass::Invalid => {
                return Err(Error::Terminal);
            },
        }
        proof {
            lemma_step_advances(s, i);
            let (l, j) = step(s, i)->Ok_0;
            assert(j == scanner.cursor());
            assert(lexemes(tokens@) =~= lexemes(before) + lexemes(tokens@.subrange(before.len() as int, tokens@.len() as int)));
            assert(lexemes(tokens@) =~= lexemes(before) + opt_seq(l));
            match lex_from(s, j) {
                Ok(rest) => {
                    assert(lexemes(before) + (opt_seq(l) + rest) =~= lexemes(tokens@) + rest);
                },
                Err(_) => {},
            }
        }
    }
}

} // verus!
