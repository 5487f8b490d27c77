use vstd::prelude::*;
use crate::shared::{Error, JsonTokenInfo};

verus! {

// ---------------------------------------------------------------------------
// Tokens
// ---------------------------------------------------------------------------

/// One lexical unit of JSON text and where it begins.
#[derive(Debug, PartialEq, Eq)]
pub struct JsonToken {
    pub location: JsonTokenInfo,
    pub token_type: JsonTokenType,
}

/// The kind of a token; a string literal carries its decoded value.
/// `Bool` is part of the vocabulary but no input produces it yet.
#[derive(Debug, PartialEq, Eq, Clone)]
pub enum JsonTokenType {
    ObjectStart,
    ObjectEnd,
    ArrayStart,
    ArrayEnd,
    String(String),
    Float,
    Int,
    Bool,
    Colon,
}

/// The mathematical value of a token kind: a string literal carries its
/// decoded characters.
pub enum TokenKindView {
    ObjectStart,
    ObjectEnd,
    ArrayStart,
    ArrayEnd,
    String(Seq<char>),
    Float,
    Int,
    Bool,
    Colon,
}

/// The mathematical value of a token.
pub struct TokenView {
    pub kind: TokenKindView,
    pub location: JsonTokenInfo,
}

impl View for JsonTokenType {
    type V = TokenKindView;

    open spec fn view(&self) -> TokenKindView {
        match self {
            JsonTokenType::ObjectStart => TokenKindView::ObjectStart,
            JsonTokenType::ObjectEnd => TokenKindView::ObjectEnd,
            JsonTokenType::ArrayStart => TokenKindView::ArrayStart,
            JsonTokenType::ArrayEnd => TokenKindView::ArrayEnd,
            JsonTokenType::String(s) => TokenKindView::String(s@),
            JsonTokenType::Float => TokenKindView::Float,
            JsonTokenType::Int => TokenKindView::Int,
            JsonTokenType::Bool => TokenKindView::Bool,
            JsonTokenType::Colon => TokenKindView::Colon,
        }
    }
}

impl View for JsonToken {
    type V = TokenView;

    open spec fn view(&self) -> TokenView {
        TokenView { kind: self.token_type@, location: self.location }
    }
}

impl JsonToken {
    pub fn new(token_type: JsonTokenType, location: JsonTokenInfo) -> (r: JsonToken)
        ensures
            r.token_type == token_type,
            r.location == location,
    {
        JsonToken { location, token_type }
    }
}

/// The views of a sequence of tokens, in order.
pub open spec fn views(ts: Seq<JsonToken>) -> Seq<TokenView> {
    ts.map_values(|t: JsonToken| t@)
}

proof fn lemma_views_push(ts: Seq<JsonToken>, t: JsonToken)
    ensures
        views(ts.push(t)) == views(ts).push(t@),
{
    assert(views(ts.push(t)) =~= views(ts).push(t@));
}

// ---------------------------------------------------------------------------
// The scanner as a state machine over characters
// ---------------------------------------------------------------------------

/// The scanner's mode between two characters.
pub enum ScanState {
    Ready,
    ReadingString { start: JsonTokenInfo, value: Seq<char>, escape_next: bool },
    ReadingNumber { start: JsonTokenInfo, seen_decimal: bool, seen_exponent: bool },
}

pub open spec fn is_digit(c: char) -> bool {
    '0' <= c && c <= '9'
}

/// The location of the character at index `i`. Lines are not advanced by
/// newline characters: every character counts as one column of line 1.
pub open spec fn location_at(i: int) -> JsonTokenInfo {
    JsonTokenInfo { line: 1, column: (i + 1) as i64, char: i as i64 }
}

/// The structural token that a punctuation character stands for.
pub open spec fn structural_kind(c: char) -> Option<TokenKindView> {
    if c == '{' {
        Some(TokenKindView::ObjectStart)
    } else if c == '}' {
        Some(TokenKindView::ObjectEnd)
    } else if c == '[' {
        Some(TokenKindView::ArrayStart)
    } else if c == ']' {
        Some(TokenKindView::ArrayEnd)
    } else if c == ':' {
        Some(TokenKindView::Colon)
    } else {
        None
    }
}

/// The token of a finished number: a float if it held a decimal point.
pub open spec fn number_token(start: JsonTokenInfo, seen_decimal: bool) -> TokenView {
    TokenView {
        kind: if seen_decimal { TokenKindView::Float } else { TokenKindView::Int },
        location: start,
    }
}

/// One transition: the next mode and the tokens emitted for character `c`
/// at location `loc`, or the fault that stops the scan.
pub open spec fn step(st: ScanState, c: char, loc: JsonTokenInfo) -> Result<
    (ScanState, Seq<TokenView>),
    Error,
> {
    match st {
        ScanState::Ready => {
            if structural_kind(c) is Some {
                Ok((ScanState::Ready, seq![TokenView { kind: structural_kind(c)->0, location: loc }]))
            } else if c == ',' || c == ' ' {
                Ok((ScanState::Ready, seq![]))
            } else if c == '"' {
                Ok((ScanState::ReadingString { start: loc, value: seq![], escape_next: false }, seq![]))
            } else if c == '0' {
                Err(Error::NumbersCannotStartWithZero(loc))
            } else if is_digit(c) {
                Ok((ScanState::ReadingNumber { start: loc, seen_decimal: false, seen_exponent: false }, seq![]))
            } else {
                Err(Error::UnknownJsonCharacter(loc, c))
            }
        },
        ScanState::ReadingString { start, value, escape_next } => {
            if escape_next {
                Ok((ScanState::ReadingString { start, value: value.push(c), escape_next: false }, seq![]))
            } else if c == '"' {
                Ok((ScanState::Ready, seq![TokenView { kind: TokenKindView::String(value), location: start }]))
            } else if c == '\\' {
                Ok((ScanState::ReadingString { start, value, escape_next: true }, seq![]))
            } else {
                Ok((ScanState::ReadingString { start, value: value.push(c), escape_next: false }, seq![]))
            }
        },
        ScanState::ReadingNumber { start, seen_decimal, seen_exponent } => {
            if c == '.' {
                if seen_decimal {
                    Err(Error::MultipleDecimalSeparators(start))
                } else if seen_exponent {
                    Err(Error::DecimalAfterExponent(start))
                } else {
                    Ok((ScanState::ReadingNumber { start, seen_decimal: true, seen_exponent }, seq![]))
                }
            } else if c == 'e' || c == 'E' {
                if seen_exponent {
                    Err(Error::MultipleExponentCharacters(start))
                } else {
                    Ok((ScanState::ReadingNumber { start, seen_decimal, seen_exponent: true }, seq![]))
                }
            } else if is_digit(c) {
                Ok((st, seq![]))
            } else if c == ',' {
                Ok((ScanState::Ready, seq![number_token(start, seen_decimal)]))
            } else if c == ']' || c == '}' {
                Ok((
                    ScanState::Ready,
                    seq![
                        number_token(start, seen_decimal),
                        TokenView { kind: structural_kind(c)->0, location: loc },
                    ],
                ))
            } else {
                Err(Error::InvalidNumberCharacter(start, c))
            }
        },
    }
}

/// What the end of the input adds: a pending number is finished, a pending
/// string is a fault.
pub open spec fn finish(st: ScanState) -> Result<Seq<TokenView>, Error> {
    match st {
        ScanState::Ready => Ok(seq![]),
        ScanState::ReadingString { start, .. } => Err(Error::UnclosedString(start)),
        ScanState::ReadingNumber { start, seen_decimal, .. } => Ok(seq![number_token(start, seen_decimal)]),
    }
}

/// The mode and the tokens after reading all of `s`, or the first fault.
pub open spec fn scan(s: Seq<char>) -> Result<(ScanState, Seq<TokenView>), Error>
    decreases s.len(),
{
    if s.len() == 0 {
        Ok((ScanState::Ready, seq![]))
    } else {
        match scan(s.drop_last()) {
            Err(e) => Err(e),
            Ok((st, toks)) => match step(st, s.last(), location_at(s.len() - 1)) {
                Err(e) => Err(e),
                Ok((next, out)) => Ok((next, toks + out)),
            },
        }
    }
}

/// The token sequence of the whole text `s`, or its first fault.
pub open spec fn tokenize(s: Seq<char>) -> Result<Seq<TokenView>, Error> {
    match scan(s) {
        Err(e) => Err(e),
        Ok((st, toks)) => match finish(st) {
            Err(e) => Err(e),
            Ok(out) => Ok(toks + out),
        },
    }
}

/// A fault ends the scan: whatever follows a faulty prefix, the scan of the
/// whole text fails with the prefix's fault.
pub proof fn lemma_scan_stops_at_fault(s: Seq<char>, k: int)
    requires
        0 <= k <= s.len(),
        scan(s.take(k)) is Err,
    ensures
        scan(s) == scan(s.take(k)),
        tokenize(s) == Err::<Seq<TokenView>, Error>(scan(s.take(k))->Err_0),
    decreases s.len(),
{
    if k == s.len() {
        assert(s.take(k) =~= s);
    } else {
        assert(s.drop_last().take(k) =~= s.take(k));
        lemma_scan_stops_at_fault(s.drop_last(), k);
    }
}

// ---------------------------------------------------------------------------
// Executable scanner
// ---------------------------------------------------------------------------

/// The mode while inside a string literal.
pub struct TokenizerStringReadingState {
    pub starting_location: JsonTokenInfo,
    pub value: String,
    pub escape_next: bool,
}

/// The mode while inside a number.
#[derive(Clone, Copy)]
pub struct TokenizerNumberReadingState {
    pub starting_location: JsonTokenInfo,
    pub seen_decimal_char: bool,
    pub seen_exponent: bool,
}

impl TokenizerNumberReadingState {
    pub fn new(starting_location: JsonTokenInfo) -> (r: TokenizerNumberReadingState)
        ensures
            r.starting_location == starting_location,
            !r.seen_decimal_char,
            !r.seen_exponent,
    {
        TokenizerNumberReadingState { starting_location, seen_exponent: false, seen_decimal_char: false }
    }
}

/// The scanner's mode; every transition replaces it with a fresh value.
pub enum TokenizerState {
    Ready,
    ReadingString(TokenizerStringReadingState),
    ReadingNumber(TokenizerNumberReadingState),
}

impl View for TokenizerState {
    type V = ScanState;

    open spec fn view(&self) -> ScanState {
        match self {
            TokenizerState::Ready => ScanState::Ready,
            TokenizerState::ReadingString(s) => ScanState::ReadingString {
                start: s.starting_location,
                value: s.value@,
                escape_next: s.escape_next,
            },
            TokenizerState::ReadingNumber(s) => ScanState::ReadingNumber {
                start: s.starting_location,
                seen_decimal: s.seen_decimal_char,
                seen_exponent: s.seen_exponent,
            },
        }
    }
}

/// Relies on String::push: the character is appended at the end.
pub assume_specification[ std::string::String::push ](s: &mut std::string::String, ch: char)
    ensures
        final(s)@ == old(s)@.push(ch),
;

fn chars_of(s: &str) -> (r: Vec<char>)
    ensures
        r@ == s@,
{
    let mut r: Vec<char> = Vec::new();
    for c in it: s.chars()
        invariant
            r@ == it.seq().take(it.index() as int),
    {
        r.push(c);
    }
    r
}

/// Appends the token of a finished number: a float if it held a decimal
/// point, otherwise an integer, at the number's starting location.
fn add_number_to_tokens(tokens: &mut Vec<JsonToken>, s: TokenizerNumberReadingState)
    ensures
        views(final(tokens)@) == views(old(tokens)@).push(
            number_token(s.starting_location, s.seen_decimal_char),
        ),
{
    let t = if s.seen_decimal_char {
        JsonToken::new(JsonTokenType::Float, s.starting_location)
    } else {
        JsonToken::new(JsonTokenType::Int, s.starting_location)
    };
    proof {
        lemma_views_push(tokens@, t);
    }
    tokens.push(t);
}

/// Closes the scan at the end of the input: a pending number is emitted,
/// a pending string is an `UnclosedString` fault.
fn end_current_token(tokens: &mut Vec<JsonToken>, state: &TokenizerState) -> (r: Result<
    TokenizerState,
    Error,
>)
    ensures
        match finish(state@) {
            Ok(out) => r is Ok && r->Ok_0@ == ScanState::Ready && views(final(tokens)@) == views(
                old(tokens)@,
            ) + out,
            Err(e) => r == Err::<TokenizerState, Error>(e) && final(tokens)@ == old(tokens)@,
        },
{
    match state {
        TokenizerState::ReadingString(s) => {
            return Err(Error::UnclosedString(s.starting_location));
        },
        TokenizerState::ReadingNumber(s) => {
            add_number_to_tokens(tokens, *s);
        },
        TokenizerState::Ready => {
            assert(views(old(tokens)@) + seq![] =~= views(old(tokens)@));
        },
    }
    Ok(TokenizerState::Ready)
}

/// Pushes a token that carries no content.
fn push_token(tokens: &mut Vec<JsonToken>, token_type: JsonTokenType, location: JsonTokenInfo)
    ensures
        views(final(tokens)@) == views(old(tokens)@).push(
            TokenView { kind: token_type@, location },
        ),
{
    let t = JsonToken::new(token_type, location);
    proof {
        lemma_views_push(tokens@, t);
    }
    tokens.push(t);
}

/// Reads one character `c` at `location` in mode `state`: returns the next
/// mode and appends the tokens the character completes, or returns the
/// fault it causes.
fn scan_char(
    state: TokenizerState,
    c: char,
    location: JsonTokenInfo,
    tokens: &mut Vec<JsonToken>,
) -> (r: Result<TokenizerState, Error>)
    ensures
        match step(state@, c, location) {
            Ok((next, out)) => r is Ok && r->Ok_0@ == next && views(final(tokens)@) == views(
                old(tokens)@,
            ) + out,
            Err(e) => r == Err::<TokenizerState, Error>(e),
        },
{
    let ghost before = views(tokens@);
    match state {
        TokenizerState::Ready => {
            if c == '{' {
                push_token(tokens, JsonTokenType::ObjectStart, location);
            } else if c == '}' {
                push_token(tokens, JsonTokenType::ObjectEnd, location);
            } else if c == '[' {
                push_token(tokens, JsonTokenType::ArrayStart, location);
            } else if c == ']' {
                push_token(tokens, JsonTokenType::ArrayEnd, location);
            } else if c == ':' {
                push_token(tokens, JsonTokenType::Colon, location);
            } else if c == ',' || c == ' ' {
                // commas and spaces carry no token
                assert(before + seq![] =~= before);
            } else if c == '"' {
                assert(before + seq![] =~= before);
                return Ok(
                    TokenizerState::ReadingString(
                        TokenizerStringReadingState {
                            starting_location: location,
                            value: String::new(),
                            escape_next: false,
                        },
                    ),
                );
            } else if c == '0' {
                return Err(Error::NumbersCannotStartWithZero(location));
            } else if '1' <= c && c <= '9' {
                assert(before + seq![] =~= before);
                return Ok(
                    TokenizerState::ReadingNumber(TokenizerNumberReadingState::new(location)),
                );
            } else {
                return Err(Error::UnknownJsonCharacter(location, c));
            }
            assert(before.push(TokenView { kind: structural_kind(c)->0, location }) =~= before
                + seq![TokenView { kind: structural_kind(c)->0, location }]);
            Ok(TokenizerState::Ready)
        },
        TokenizerState::ReadingString(s) => {
            assert(before + seq![] =~= before);
            let TokenizerStringReadingState { starting_location, value, escape_next } = s;
            let mut value = value;
            if escape_next {
                // an escaped character is taken literally
                value.push(c);
                Ok(
                    TokenizerState::ReadingString(
                        TokenizerStringReadingState { starting_location, value, escape_next: false },
                    ),
                )
            } else if c == '"' {
                let ghost v = value@;
                push_token(tokens, JsonTokenType::String(value), starting_location);
                assert(before.push(
                    TokenView { kind: TokenKindView::String(v), location: starting_location },
                ) =~= before + seq![
                    TokenView { kind: TokenKindView::String(v), location: starting_location },
                ]);
                Ok(TokenizerState::Ready)
            } else if c == '\\' {
                Ok(
                    TokenizerState::ReadingString(
                        TokenizerStringReadingState { starting_location, value, escape_next: true },
                    ),
                )
            } else {
                value.push(c);
                Ok(
                    TokenizerState::ReadingString(
                        TokenizerStringReadingState { starting_location, value, escape_next: false },
                    ),
                )
            }
        },
        TokenizerState::ReadingNumber(s) => {
            if c == '.' {
                if s.seen_decimal_char {
                    return Err(Error::MultipleDecimalSeparators(s.starting_location));
                }
                if s.seen_exponent {
                    return Err(Error::DecimalAfterExponent(s.starting_location));
                }
                assert(before + seq![] =~= before);
                Ok(
                    TokenizerState::ReadingNumber(
                        TokenizerNumberReadingState { seen_decimal_char: true, ..s },
                    ),
                )
            } else if c == 'e' || c == 'E' {
                if s.seen_exponent {
                    return Err(Error::MultipleExponentCharacters(s.starting_location));
                }
                assert(before + seq![] =~= before);
                Ok(
                    TokenizerState::ReadingNumber(
                        TokenizerNumberReadingState { seen_exponent: true, ..s },
                    ),
                )
            } else if '0' <= c && c <= '9' {
                assert(before + seq![] =~= before);
                Ok(TokenizerState::ReadingNumber(s))
            } else if c == ',' || c == ']' || c == '}' {
                // the character after a number ends it
                add_number_to_tokens(tokens, s);
                let ghost num = number_token(s.starting_location, s.seen_decimal_char);
                if c == ']' {
                    push_token(tokens, JsonTokenType::ArrayEnd, location);
                } else if c == '}' {
                    push_token(tokens, JsonTokenType::ObjectEnd, location);
                }
                assert(c != ',' ==> before.push(num).push(
                    TokenView { kind: structural_kind(c)->0, location },
                ) =~= before + seq![num, TokenView { kind: structural_kind(c)->0, location }]);
                assert(before.push(num) =~= before + seq![num]);
                Ok(TokenizerState::Ready)
            } else {
                Err(Error::InvalidNumberCharacter(s.starting_location, c))
            }
        },
    }
}

/// Splits JSON text into its tokens, in order, or returns the first lexical
/// fault. Commas and spaces produce no token; the space is the only
/// insignificant whitespace, so a tab or a newline outside a string is an
/// unknown character. Escapes in strings are taken literally: `\x` adds `x`.
pub fn tokenize_json(json: &str) -> (r: Result<Vec<JsonToken>, Error>)
    requires
        json@.len() < i64::MAX,
    ensures
        match r {
            Ok(ts) => tokenize(json@) == Ok::<Seq<TokenView>, Error>(views(ts@)),
            Err(e) => tokenize(json@) == Err::<Seq<TokenView>, Error>(e),
        },
{
    let chars = chars_of(json);
    let n = chars.len();
    let mut tokens: Vec<JsonToken> = Vec::new();
    let mut state = TokenizerState::Ready;
    // newline characters do not advance the line: see `location_at`
    let line_number: i64 = 1;
    let mut i: usize = 0;
    assert(chars@.take(0) =~= Seq::<char>::empty());
    assert(views(tokens@) =~= Seq::<TokenView>::empty());
    while i < n
        invariant
            n == chars@.len(),
            chars@ == json@,
            n < i64::MAX,
            line_number == 1,
            i <= n,
            scan(chars@.take(i as int)) == Ok::<(ScanState, Seq<TokenView>), Error>(
                (state@, views(tokens@)),
            ),
        decreases n - i,
    {
        let location = JsonTokenInfo::new(line_number, (i + 1) as i64, i as i64);
        let c = chars[i];
        assert(chars@.take(i + 1).drop_last() =~= chars@.take(i as int));
        assert(location == location_at(i as int));
        let ghost prefix = chars@.take(i + 1);
        assert(prefix.last() == c);
        match scan_char(state, c, location, &mut tokens) {
            Ok(next) => {
                state = next;
            },
            Err(e) => {
                proof {
                    lemma_scan_stops_at_fault(chars@, i + 1);
                }
                return Err(e);
            },
        }
        i += 1;
    }
    assert(chars@.take(n as int) =~= chars@);
    end_current_token(&mut tokens, &state)?;
    Ok(tokens)
}

} // verus!
