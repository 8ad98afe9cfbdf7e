//! The lexical grammar as mathematics: what scanning a text yields.
use vstd::prelude::*;

use crate::token::{Error, Lexeme, Token};

verus! {

pub open spec fn is_digit(c: char) -> bool {
    '0' <= c && c <= '9'
}

pub open spec fn is_alpha(c: char) -> bool {
    ('a' <= c && c <= 'z') || ('A' <= c && c <= 'Z')
}

/// Characters that continue a number: digits and the decimal point.
pub open spec fn is_number_char(c: char) -> bool {
    is_digit(c) || c == '.'
}

/// Characters that continue an identifier.
pub open spec fn is_ident_char(c: char) -> bool {
    is_alpha(c) || is_digit(c) || c == '_'
}

pub open spec fn is_space(c: char) -> bool {
    c == ' ' || c == '\n'
}

/// The token of a one-character punctuation mark.
pub open spec fn punct_of(c: char) -> Option<Token> {
    if c == '(' {
        Some(Token::LeftParen)
    } else if c == ')' {
        Some(Token::RightParen)
    } else if c == '{' {
        Some(Token::LeftBrace)
    } else if c == '}' {
        Some(Token::RightBrace)
    } else if c == '[' {
        Some(Token::LeftBracket)
    } else if c == ']' {
        Some(Token::RightBracket)
    } else if c == ',' {
        Some(Token::Comma)
    } else if c == '.' {
        Some(Token::Dot)
    } else if c == ':' {
        Some(Token::Colon)
    } else if c == ';' {
        Some(Token::Semicolon)
    } else if c == '%' {
        Some(Token::Mod)
    } else {
        None
    }
}

/// Characters that may begin a two-character operator.
pub open spec fn is_operator_start(c: char) -> bool {
    c == '=' || c == '!' || c == '*' || c == '-' || c == '/' || c == '&' || c == '+'
}

/// What a character starts, decided on that character alone.
#[derive(Debug, Clone, Copy, PartialEq, Eq, Structural)]
pub enum CharClass {
    Digit,
    Alpha,
    Punct,
    Operator,
    Space,
    Invalid,
}

pub open spec fn class_of(c: char) -> CharClass {
    if is_digit(c) {
        CharClass::Digit
    } else if is_alpha(c) {
        CharClass::Alpha
    } else if punct_of(c) is Some {
        CharClass::Punct
    } else if is_operator_start(c) {
        CharClass::Operator
    } else if is_space(c) {
        CharClass::Space
    } else {
        CharClass::Invalid
    }
}

/// The operator that `c` starts when `next` follows it, with the number of
/// characters it takes (one or two); `None` when there is none.
pub open spec fn operator_of(c: char, next: Option<char>) -> Option<(Token, nat)> {
    if c == '=' {
        if next == Some('=') { Some((Token::EqualEqual, 2)) } else { Some((Token::Equal, 1)) }
    } else if c == '!' {
        if next == Some('=') { Some((Token::BangEqual, 2)) } else { Some((Token::Bang, 1)) }
    } else if c == '*' {
        if next == Some('=') { Some((Token::StarEqual, 2)) } else { Some((Token::Star, 1)) }
    } else if c == '/' {
        if next == Some('=') { Some((Token::SlashEqual, 2)) } else { Some((Token::Slash, 1)) }
    } else if c == '-' {
        if next == Some('=') {
            Some((Token::MinusEqual, 2))
        } else if next == Some('-') {
            Some((Token::MinusMinus, 2))
        } else {
            Some((Token::Minus, 1))
        }
    } else if c == '+' {
        if next == Some('=') {
            Some((Token::PlusEqual, 2))
        } else if next == Some('+') {
            Some((Token::PlusPlus, 2))
        } else {
            Some((Token::Plus, 1))
        }
    } else if c == '&' {
        if next == Some('&') { Some((Token::And, 2)) } else { None }
    } else {
        None
    }
}

/// The character at `i`, if there is one.
pub open spec fn char_at(s: Seq<char>, i: int) -> Option<char> {
    if 0 <= i < s.len() { Some(s[i]) } else { None }
}

/// How many characters from `i` on are digits or decimal points.
pub open spec fn number_run(s: Seq<char>, i: int) -> nat
    decreases s.len() - i,
{
    if 0 <= i < s.len() && is_number_char(s[i]) { 1 + number_run(s, i + 1) } else { 0 }
}

/// How many characters from `i` on continue an identifier.
pub open spec fn ident_run(s: Seq<char>, i: int) -> nat
    decreases s.len() - i,
{
    if 0 <= i < s.len() && is_ident_char(s[i]) { 1 + ident_run(s, i + 1) } else { 0 }
}

pub proof fn lemma_number_run_bound(s: Seq<char>, i: int)
    requires
        0 <= i <= s.len(),
    ensures
        i + number_run(s, i) <= s.len(),
    decreases s.len() - i,
{
    if i < s.len() {
        lemma_number_run_bound(s, i + 1);
    }
}

pub proof fn lemma_ident_run_bound(s: Seq<char>, i: int)
    requires
        0 <= i <= s.len(),
    ensures
        i + ident_run(s, i) <= s.len(),
    decreases s.len() - i,
{
    if i < s.len() {
        lemma_ident_run_bound(s, i + 1);
    }
}

/// One step of the scan at `i` (which must be in the text): the lexeme that
/// the characters from `i` on begin with, if any (whitespace gives none), and
/// the position after it; or the error that stops the scan there.
pub open spec fn step(s: Seq<char>, i: int) -> Result<(Option<Lexeme>, int), Error> {
    let c = s[i];
    match class_of(c) {
        CharClass::Digit => {
            let j = i + 1 + number_run(s, i + 1);
            Ok((Some(Lexeme::Number(s.subrange(i, j))), j))
        },
        CharClass::Alpha => {
            let j = i + 1 + ident_run(s, i + 1);
            Ok((Some(Lexeme::Identifier(s.subrange(i, j))), j))
        },
        CharClass::Punct => Ok((Some(Lexeme::Fixed(punct_of(c)->0)), i + 1)),
        CharClass::Operator => match operator_of(c, char_at(s, i + 1)) {
            Some((t, w)) => Ok((Some(Lexeme::Fixed(t)), i + w)),
            None => Err(Error::Terminal),
        },
        CharClass::Space => Ok((None, i + 1)),
        CharClass::Invalid => Err(Error::Terminal),
    }
}

pub proof fn lemma_step_advances(s: Seq<char>, i: int)
    requires
        0 <= i < s.len(),
        step(s, i) is Ok,
    ensures
        i < step(s, i)->Ok_0.1 <= s.len(),
{
    lemma_number_run_bound(s, i + 1);
    lemma_ident_run_bound(s, i + 1);
}

/// `ls` placed before the lexemes of `r`, an error passing through.
pub open spec fn prepend(ls: Seq<Lexeme>, r: Result<Seq<Lexeme>, Error>) -> Result<Seq<Lexeme>, Error> {
    match r {
        Ok(rest) => Ok(ls + rest),
        Err(e) => Err(e),
    }
}

pub open spec fn opt_seq(l: Option<Lexeme>) -> Seq<Lexeme> {
    match l {
        Some(x) => seq![x],
        None => Seq::empty(),
    }
}

/// The scan of the text from position `i` on.
pub open spec fn lex_from(s: Seq<char>, i: int) -> Result<Seq<Lexeme>, Error>
    decreases s.len() - i,
{
    if i < 0 || i >= s.len() {
        Ok(seq![Lexeme::Fixed(Token::End)])
    } else {
        match step(s, i) {
            Err(e) => Err(e),
            Ok((l, j)) => {
                proof {
                    lemma_step_advances(s, i);
                }
                prepend(opt_seq(l), lex_from(s, j))
            },
        }
    }
}

/// The scan of a whole text.
pub open spec fn lex(s: Seq<char>) -> Result<Seq<Lexeme>, Error> {
    lex_from(s, 0)
}

pub open spec fn is_end(l: Lexeme) -> bool {
    l == Lexeme::Fixed(Token::End)
}

/// A successful scan ends with `End`, and holds no other `End`.
pub open spec fn ends_once(ls: Seq<Lexeme>) -> bool {
    &&& ls.len() >= 1
    &&& is_end(ls.last())
    &&& forall|k: int| 0 <= k < ls.len() - 1 ==> !is_end(#[trigger] ls[k])
}

proof fn lemma_lex_from_ends_once(s: Seq<char>, i: int)
    requires
        lex_from(s, i) is Ok,
    ensures
        ends_once(lex_from(s, i)->Ok_0),
    decreases s.len() - i,
{
    if 0 <= i < s.len() {
        lemma_step_advances(s, i);
        let (l, j) = step(s, i)->Ok_0;
        lemma_lex_from_ends_once(s, j);
        let rest = lex_from(s, j)->Ok_0;
        let ls = opt_seq(l) + rest;
        assert(ls.last() == rest.last());
        if let Some(x) = l {
            assert(!is_end(x));
            assert forall|k: int| 0 <= k < ls.len() - 1 implies !is_end(#[trigger] ls[k]) by {
                if k > 0 {
                    assert(ls[k] == rest[k - 1]);
                }
            }
        } else {
            assert(ls =~= rest);
        }
    }
}

/// Every successful scan ends with exactly one `End` token, and `End`
/// stands nowhere else in it.
pub proof fn lemma_scan_ends_once(s: Seq<char>)
    requires
        lex(s) is Ok,
    ensures
        ends_once(lex(s)->Ok_0),
{
    lemma_lex_from_ends_once(s, 0);
}

/// How many `&` stand immediately before position `i`.
pub open spec fn amp_run_before(s: Seq<char>, i: int) -> nat
    decreases i,
{
    if 0 < i <= s.len() && s[i - 1] == '&' { 1 + amp_run_before(s, i - 1) } else { 0 }
}

/// Every maximal run of `&` in the text has even length: each `&` that
/// opens a pair is followed by the `&` that closes it.
pub open spec fn amps_paired(s: Seq<char>) -> bool {
    forall|k: int|
        0 <= k < s.len() && #[trigger] s[k] == '&' && amp_run_before(s, k) % 2 == 0 ==> k + 1
            < s.len() && s[k + 1] == '&'
}

/// Every character begins some token or is whitespace.
pub open spec fn all_starters(s: Seq<char>) -> bool {
    forall|k: int| 0 <= k < s.len() ==> class_of(#[trigger] s[k]) != CharClass::Invalid
}

/// Within one step, an `&` can only belong to an `&&` token, and a step
/// that is not `&&` does not end on an `&`.
proof fn lemma_step_amps(s: Seq<char>, i: int)
    requires
        0 <= i < s.len(),
        step(s, i) is Ok,
    ensures
        ({
            let (l, j) = step(s, i)->Ok_0;
            &&& l == Some(Lexeme::Fixed(Token::And)) ==> j == i + 2 && s[i] == '&' && s[i + 1] == '&'
            &&& l != Some(Lexeme::Fixed(Token::And)) ==> forall|k: int| i <= k < j ==> #[trigger] s[k] != '&'
        }),
{
    lemma_step_advances(s, i);
    let (l, j) = step(s, i)->Ok_0;
    match class_of(s[i]) {
        CharClass::Digit => {
            assert forall|k: int| i <= k < j implies #[trigger] s[k] != '&' by {
                if k > i {
                    lemma_number_run_chars(s, i + 1, k);
                }
            }
        },
        CharClass::Alpha => {
            assert forall|k: int| i <= k < j implies #[trigger] s[k] != '&' by {
                if k > i {
                    lemma_ident_run_chars(s, i + 1, k);
                }
            }
        },
        _ => {},
    }
}

/// The `&` run before the position after a step is even when the one
/// before the step was.
proof fn lemma_step_keeps_pairing(s: Seq<char>, i: int)
    requires
        0 <= i < s.len(),
        step(s, i) is Ok,
        amp_run_before(s, i) % 2 == 0,
    ensures
        amp_run_before(s, step(s, i)->Ok_0.1) % 2 == 0,
{
    lemma_step_advances(s, i);
    lemma_step_amps(s, i);
    let (l, j) = step(s, i)->Ok_0;
    if l == Some(Lexeme::Fixed(Token::And)) {
        assert(amp_run_before(s, i + 1) == 1 + amp_run_before(s, i));
        assert(amp_run_before(s, i + 2) == 1 + amp_run_before(s, i + 1));
    } else {
        assert(s[j - 1] != '&');
    }
}

proof fn lemma_lex_from_total(s: Seq<char>, i: int)
    requires
        0 <= i,
        all_starters(s),
        amps_paired(s),
        amp_run_before(s, i) % 2 == 0,
    ensures
        lex_from(s, i) is Ok,
    decreases s.len() - i,
{
    if i < s.len() {
        assert(class_of(s[i]) != CharClass::Invalid);
        if s[i] == '&' {
            assert(s[i + 1] == '&');
        }
        lemma_step_advances(s, i);
        lemma_step_keeps_pairing(s, i);
        lemma_lex_from_total(s, step(s, i)->Ok_0.1);
    }
}

/// A text in which every character begins a token or is whitespace, and
/// whose `&` come in pairs, is scanned successfully.
pub proof fn lemma_scan_total(s: Seq<char>)
    requires
        all_starters(s),
        amps_paired(s),
    ensures
        lex(s) is Ok,
{
    lemma_lex_from_total(s, 0);
}

proof fn lemma_lex_from_error(s: Seq<char>, i: int)
    requires
        lex_from(s, i) is Err,
    ensures
        lex_from(s, i) == Err::<Seq<Lexeme>, Error>(Error::Terminal),
    decreases s.len() - i,
{
    if 0 <= i < s.len() && step(s, i) is Ok {
        lemma_step_advances(s, i);
        lemma_lex_from_error(s, step(s, i)->Ok_0.1);
    }
}

proof fn lemma_lex_from_pairs(s: Seq<char>, i: int, k: int)
    requires
        0 <= i <= k < s.len(),
        lex_from(s, i) is Ok,
        amp_run_before(s, i) % 2 == 0,
        s[k] == '&',
        amp_run_before(s, k) % 2 == 0,
    ensures
        k + 1 < s.len() && s[k + 1] == '&',
    decreases s.len() - i,
{
    lemma_step_advances(s, i);
    lemma_step_amps(s, i);
    let (l, j) = step(s, i)->Ok_0;
    if k >= j {
        lemma_step_keeps_pairing(s, i);
        lemma_lex_from_pairs(s, j, k);
    } else if k == i + 1 {
        assert(amp_run_before(s, i + 1) == 1 + amp_run_before(s, i));
    }
}

/// A text with an `&` that is not paired with a second one fails to scan,
/// with the error for an unrecognized character.
pub proof fn lemma_scan_unpaired_amp_fails(s: Seq<char>)
    requires
        !amps_paired(s),
    ensures
        lex(s) == Err::<Seq<Lexeme>, Error>(Error::Terminal),
{
    if lex(s) is Ok {
        let k = choose|k: int|
            !(0 <= k < s.len() && #[trigger] s[k] == '&' && amp_run_before(s, k) % 2 == 0 ==> k + 1
                < s.len() && s[k + 1] == '&');
        lemma_lex_from_pairs(s, 0, k);
    } else {
        lemma_lex_from_error(s, 0);
    }
}

/// How many characters of the text a token without a payload stands for.
pub open spec fn fixed_width(t: Token) -> nat {
    match t {
        Token::SlashEqual | Token::StarEqual | Token::PlusPlus | Token::PlusEqual
        | Token::MinusMinus | Token::MinusEqual | Token::BangEqual | Token::EqualEqual
        | Token::GreaterEqual | Token::LessEqual | Token::And => 2,
        Token::End => 0,
        _ => 1,
    }
}

/// How many characters of the text a lexeme stands for.
pub open spec fn width(l: Lexeme) -> nat {
    match l {
        Lexeme::Fixed(t) => fixed_width(t),
        Lexeme::Identifier(text) => text.len(),
        Lexeme::String(text) => text.len(),
        Lexeme::Number(text) => text.len(),
    }
}

/// How many characters a sequence of lexemes stands for.
pub open spec fn total_width(ls: Seq<Lexeme>) -> nat
    decreases ls.len(),
{
    if ls.len() == 0 { 0 } else { width(ls[0]) + total_width(ls.drop_first()) }
}

proof fn lemma_total_width_cons(x: Lexeme, rest: Seq<Lexeme>)
    ensures
        total_width(seq![x] + rest) == width(x) + total_width(rest),
{
    assert((seq![x] + rest).drop_first() =~= rest);
}

proof fn lemma_total_width_opt(l: Option<Lexeme>, rest: Seq<Lexeme>)
    ensures
        total_width(opt_seq(l) + rest) == total_width(opt_seq(l)) + total_width(rest),
{
    lemma_total_width_single(l);
    if let Some(x) = l {
        lemma_total_width_cons(x, rest);
    } else {
        assert(opt_seq(l) + rest =~= rest);
    }
}

proof fn lemma_total_width_single(l: Option<Lexeme>)
    ensures
        total_width(opt_seq(l)) == match l {
            Some(x) => width(x),
            None => 0,
        },
{
    if let Some(x) = l {
        lemma_total_width_cons(x, Seq::empty());
        assert(seq![x] + Seq::<Lexeme>::empty() =~= seq![x]);
    }
}

/// How many whitespace characters the text holds from `i` on.
pub open spec fn spaces_from(s: Seq<char>, i: int) -> nat
    decreases s.len() - i,
{
    if 0 <= i < s.len() {
        (if is_space(s[i]) { 1nat } else { 0nat }) + spaces_from(s, i + 1)
    } else {
        0
    }
}

/// How many whitespace characters the text holds.
pub open spec fn space_count(s: Seq<char>) -> nat {
    spaces_from(s, 0)
}

proof fn lemma_spaces_skip_run(s: Seq<char>, i: int, j: int)
    requires
        0 <= i <= j <= s.len(),
        forall|k: int| i <= k < j ==> !is_space(#[trigger] s[k]),
    ensures
        spaces_from(s, i) == spaces_from(s, j),
    decreases j - i,
{
    if i < j {
        lemma_spaces_skip_run(s, i + 1, j);
    }
}

proof fn lemma_number_run_chars(s: Seq<char>, i: int, k: int)
    requires
        0 <= i <= k < i + number_run(s, i),
    ensures
        is_number_char(s[k]),
    decreases k - i,
{
    if i < k {
        lemma_number_run_chars(s, i + 1, k);
    }
}

proof fn lemma_ident_run_chars(s: Seq<char>, i: int, k: int)
    requires
        0 <= i <= k < i + ident_run(s, i),
    ensures
        is_ident_char(s[k]),
    decreases k - i,
{
    if i < k {
        lemma_ident_run_chars(s, i + 1, k);
    }
}

proof fn lemma_step_width(s: Seq<char>, i: int)
    requires
        0 <= i < s.len(),
        step(s, i) is Ok,
    ensures
        ({
            let (l, j) = step(s, i)->Ok_0;
            total_width(opt_seq(l)) + spaces_from(s, i) == (j - i) + spaces_from(s, j)
        }),
{
    lemma_step_advances(s, i);
    let (l, j) = step(s, i)->Ok_0;
    let c = s[i];
    lemma_total_width_single(l);
    match class_of(c) {
        CharClass::Digit => {
            assert forall|k: int| i <= k < j implies !is_space(#[trigger] s[k]) by {
                if k > i {
                    lemma_number_run_chars(s, i + 1, k);
                }
            }
            lemma_spaces_skip_run(s, i, j);
        },
        CharClass::Alpha => {
            assert forall|k: int| i <= k < j implies !is_space(#[trigger] s[k]) by {
                if k > i {
                    lemma_ident_run_chars(s, i + 1, k);
                }
            }
            lemma_spaces_skip_run(s, i, j);
        },
        CharClass::Punct => {
            assert(spaces_from(s, i) == spaces_from(s, i + 1));
            assert(width(l->0) == 1);
        },
        CharClass::Operator => {
            assert(spaces_from(s, i) == spaces_from(s, i + 1));
            if j == i + 2 {
                assert(!is_space(s[i + 1]));
                assert(spaces_from(s, i + 1) == spaces_from(s, i + 2));
            }
            assert(width(l->0) == j - i);
        },
        _ => {
            assert(spaces_from(s, i) == 1 + spaces_from(s, i + 1));
        },
    }
}

proof fn lemma_lex_from_coverage(s: Seq<char>, i: int)
    requires
        0 <= i <= s.len(),
        lex_from(s, i) is Ok,
    ensures
        total_width(lex_from(s, i)->Ok_0) + spaces_from(s, i) == s.len() - i,
    decreases s.len() - i,
{
    if i < s.len() {
        lemma_step_advances(s, i);
        lemma_step_width(s, i);
        let (l, j) = step(s, i)->Ok_0;
        lemma_lex_from_coverage(s, j);
        lemma_total_width_opt(l, lex_from(s, j)->Ok_0);
    } else {
        lemma_total_width_single(Some(Lexeme::Fixed(Token::End)));
    }
}

/// Every character is accounted for by a successful scan: the characters
/// that its tokens stand for, together with the whitespace skipped, are
/// exactly as many as the text holds.
pub proof fn lemma_scan_coverage(s: Seq<char>)
    requires
        lex(s) is Ok,
    ensures
        total_width(lex(s)->Ok_0) + space_count(s) == s.len(),
{
    lemma_lex_from_coverage(s, 0);
}

/// How a token without a payload is written in the text.
pub open spec fn fixed_spelling(t: Token) -> Seq<char> {
    match t {
        Token::LeftParen => seq!['('],
        Token::RightParen => seq![')'],
        Token::LeftBrace => seq!['{'],
        Token::RightBrace => seq!['}'],
        Token::LeftBracket => seq!['['],
        Token::RightBracket => seq![']'],
        Token::Comma => seq![','],
        Token::Dot => seq!['.'],
        Token::Colon => seq![':'],
        Token::Semicolon => seq![';'],
        Token::Slash => seq!['/'],
        Token::SlashEqual => seq!['/', '='],
        Token::Star => seq!['*'],
        Token::StarEqual => seq!['*', '='],
        Token::Mod => seq!['%'],
        Token::Plus => seq!['+'],
        Token::PlusPlus => seq!['+', '+'],
        Token::PlusEqual => seq!['+', '='],
        Token::Minus => seq!['-'],
        Token::MinusMinus => seq!['-', '-'],
        Token::MinusEqual => seq!['-', '='],
        Token::Bang => seq!['!'],
        Token::BangEqual => seq!['!', '='],
        Token::Equal => seq!['='],
        Token::EqualEqual => seq!['=', '='],
        Token::Greater => seq!['>'],
        Token::GreaterEqual => seq!['>', '='],
        Token::Less => seq!['<'],
        Token::LessEqual => seq!['<', '='],
        Token::And => seq!['&', '&'],
        _ => Seq::empty(),
    }
}

/// The characters of the text that a lexeme stands for.
pub open spec fn spelling(l: Lexeme) -> Seq<char> {
    match l {
        Lexeme::Fixed(t) => fixed_spelling(t),
        Lexeme::Identifier(text) => text,
        Lexeme::String(text) => text,
        Lexeme::Number(text) => text,
    }
}

/// The spellings of a sequence of lexemes, joined in order.
pub open spec fn spelled(ls: Seq<Lexeme>) -> Seq<char>
    decreases ls.len(),
{
    if ls.len() == 0 { Seq::empty() } else { spelling(ls[0]) + spelled(ls.drop_first()) }
}

/// The characters of the text from `i` on that are not whitespace, in order.
pub open spec fn non_space_from(s: Seq<char>, i: int) -> Seq<char>
    decreases s.len() - i,
{
    if 0 <= i < s.len() {
        (if is_space(s[i]) { Seq::empty() } else { seq![s[i]] }) + non_space_from(s, i + 1)
    } else {
        Seq::empty()
    }
}

/// The text with every whitespace character removed.
pub open spec fn without_spaces(s: Seq<char>) -> Seq<char> {
    non_space_from(s, 0)
}

proof fn lemma_spelled_cons(x: Lexeme, rest: Seq<Lexeme>)
    ensures
        spelled(seq![x] + rest) == spelling(x) + spelled(rest),
{
    assert((seq![x] + rest).drop_first() =~= rest);
}

proof fn lemma_spelled_opt(l: Option<Lexeme>, rest: Seq<Lexeme>)
    ensures
        spelled(opt_seq(l) + rest) == spelled(opt_seq(l)) + spelled(rest),
{
    lemma_spelled_single(l);
    if let Some(x) = l {
        lemma_spelled_cons(x, rest);
    } else {
        assert(opt_seq(l) + rest =~= rest);
        assert(Seq::<char>::empty() + spelled(rest) =~= spelled(rest));
    }
}

proof fn lemma_spelled_single(l: Option<Lexeme>)
    ensures
        spelled(opt_seq(l)) == match l {
            Some(x) => spelling(x),
            None => Seq::<char>::empty(),
        },
{
    if let Some(x) = l {
        lemma_spelled_cons(x, Seq::empty());
        assert(seq![x] + Seq::<Lexeme>::empty() =~= seq![x]);
        assert(spelling(x) + Seq::<char>::empty() =~= spelling(x));
    }
}

proof fn lemma_non_space_run(s: Seq<char>, i: int, j: int)
    requires
        0 <= i <= j <= s.len(),
        forall|k: int| i <= k < j ==> !is_space(#[trigger] s[k]),
    ensures
        non_space_from(s, i) == s.subrange(i, j) + non_space_from(s, j),
    decreases j - i,
{
    if i < j {
        lemma_non_space_run(s, i + 1, j);
        assert(s.subrange(i, j) =~= seq![s[i]] + s.subrange(i + 1, j));
        assert(seq![s[i]] + (s.subrange(i + 1, j) + non_space_from(s, j)) =~= s.subrange(i, j)
            + non_space_from(s, j));
    } else {
        assert(s.subrange(i, j) + non_space_from(s, j) =~= non_space_from(s, j));
    }
}

proof fn lemma_step_spelling(s: Seq<char>, i: int)
    requires
        0 <= i < s.len(),
        step(s, i) is Ok,
    ensures
        ({
            let (l, j) = step(s, i)->Ok_0;
            spelled(opt_seq(l)) + non_space_from(s, j) == non_space_from(s, i)
        }),
{
    lemma_step_advances(s, i);
    let (l, j) = step(s, i)->Ok_0;
    let c = s[i];
    lemma_spelled_single(l);
    match class_of(c) {
        CharClass::Digit => {
            assert forall|k: int| i <= k < j implies !is_space(#[trigger] s[k]) by {
                if k > i {
                    lemma_number_run_chars(s, i + 1, k);
                }
            }
            lemma_non_space_run(s, i, j);
            assert(spelled(opt_seq(l)) == s.subrange(i, j));
        },
        CharClass::Alpha => {
            assert forall|k: int| i <= k < j implies !is_space(#[trigger] s[k]) by {
                if k > i {
                    lemma_ident_run_chars(s, i + 1, k);
                }
            }
            lemma_non_space_run(s, i, j);
        },
        CharClass::Punct => {
            assert(fixed_spelling(punct_of(c)->0) =~= s.subrange(i, i + 1));
            lemma_non_space_run(s, i, j);
        },
        CharClass::Operator => {
            if j == i + 2 {
                assert(!is_space(s[i + 1]));
                assert(fixed_spelling(l->0->Fixed_0) =~= s.subrange(i, i + 2));
            } else {
                assert(fixed_spelling(l->0->Fixed_0) =~= s.subrange(i, i + 1));
            }
            lemma_non_space_run(s, i, j);
        },
        _ => {
            assert(Seq::<char>::empty() + non_space_from(s, i + 1) =~= non_space_from(s, i + 1));
        },
    }
}

proof fn lemma_lex_from_spelling(s: Seq<char>, i: int)
    requires
        0 <= i <= s.len(),
        lex_from(s, i) is Ok,
    ensures
        spelled(lex_from(s, i)->Ok_0) == non_space_from(s, i),
    decreases s.len() - i,
{
    if i < s.len() {
        lemma_step_advances(s, i);
        lemma_step_spelling(s, i);
        let (l, j) = step(s, i)->Ok_0;
        lemma_lex_from_spelling(s, j);
        lemma_spelled_opt(l, lex_from(s, j)->Ok_0);
    } else {
        lemma_spelled_cons(Lexeme::Fixed(Token::End), Seq::empty());
        assert(seq![Lexeme::Fixed(Token::End)] + Seq::<Lexeme>::empty() =~= seq![Lexeme::Fixed(Token::End)]);
        assert(Seq::<char>::empty() + Seq::<char>::empty() =~= Seq::<char>::empty());
    }
}

/// A successful scan loses and invents no character: the spellings of its
/// tokens, joined in order, are the text with its whitespace removed.
pub proof fn lemma_scan_spelling(s: Seq<char>)
    requires
        lex(s) is Ok,
    ensures
        spelled(lex(s)->Ok_0) == without_spaces(s),
{
    lemma_lex_from_spelling(s, 0);
}

} // verus!
