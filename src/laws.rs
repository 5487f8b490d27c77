use vstd::prelude::*;
use crate::shared::{Error, JsonTokenInfo};
use crate::tokenizer::{
    finish, is_digit, location_at, number_token, scan, step, structural_kind, tokenize,
    lemma_scan_stops_at_fault, ScanState, TokenKindView, TokenView,
};

verus! {

/// Reading one more character is one transition from where the scan stood.
proof fn lemma_scan_push(s: Seq<char>, c: char)
    ensures
        scan(s.push(c)) == match scan(s) {
            Err(e) => Err(e),
            Ok((st, toks)) => match step(st, c, location_at(s.len() as int)) {
                Err(e) => Err(e),
                Ok((next, out)) => Ok((next, toks + out)),
            },
        },
{
    assert(s.push(c).drop_last() =~= s);
}

/// The scan of `s` ended in the ready mode with the tokens `toks`.
pub open spec fn ends_ready(s: Seq<char>, toks: Seq<TokenView>) -> bool {
    scan(s) == Ok::<(ScanState, Seq<TokenView>), Error>((ScanState::Ready, toks))
}

// ---------------------------------------------------------------------------
// Punctuation
// ---------------------------------------------------------------------------

/// A character that is punctuation or a space.
pub open spec fn is_punctuation(c: char) -> bool {
    structural_kind(c) is Some || c == ',' || c == ' '
}

/// The structural tokens of `s`, one for each brace, bracket or colon, in
/// the order of the characters.
pub open spec fn structural_tokens(s: Seq<char>) -> Seq<TokenView>
    decreases s.len(),
{
    if s.len() == 0 {
        seq![]
    } else if structural_kind(s.last()) is Some {
        structural_tokens(s.drop_last()).push(
            TokenView { kind: structural_kind(s.last())->0, location: location_at(s.len() - 1) },
        )
    } else {
        structural_tokens(s.drop_last())
    }
}

/// Text made only of braces, brackets, colons, commas and spaces never
/// fails, and yields one structural token per brace, bracket or colon, in
/// order; commas and spaces yield none.
pub proof fn punctuation_tokenizes_in_order(s: Seq<char>)
    requires
        forall|i: int| 0 <= i < s.len() ==> is_punctuation(#[trigger] s[i]),
    ensures
        tokenize(s) == Ok::<Seq<TokenView>, Error>(structural_tokens(s)),
    decreases s.len(),
{
    lemma_punctuation_scan(s);
    assert(structural_tokens(s) + seq![] =~= structural_tokens(s));
}

proof fn lemma_punctuation_scan(s: Seq<char>)
    requires
        forall|i: int| 0 <= i < s.len() ==> is_punctuation(#[trigger] s[i]),
    ensures
        ends_ready(s, structural_tokens(s)),
    decreases s.len(),
{
    if s.len() > 0 {
        let d = s.drop_last();
        assert forall|i: int| 0 <= i < d.len() implies is_punctuation(#[trigger] d[i]) by {
            assert(d[i] == s[i]);
        }
        lemma_punctuation_scan(d);
        lemma_scan_push(d, s.last());
        assert(d.push(s.last()) =~= s);
        assert(is_punctuation(s[s.len() - 1]));
        let t = structural_tokens(d);
        assert(t + seq![] =~= t);
        if structural_kind(s.last()) is Some {
            assert(t + seq![
                TokenView { kind: structural_kind(s.last())->0, location: location_at(s.len() - 1) },
            ] =~= t.push(
                TokenView { kind: structural_kind(s.last())->0, location: location_at(s.len() - 1) },
            ));
        }
    }
}

// ---------------------------------------------------------------------------
// Strings
// ---------------------------------------------------------------------------

proof fn lemma_string_body(p: Seq<char>, toks: Seq<TokenView>, content: Seq<char>, k: int)
    requires
        ends_ready(p, toks),
        0 <= k <= content.len(),
        forall|i: int| 0 <= i < content.len() ==> #[trigger] content[i] != '"' && content[i] != '\\',
    ensures
        scan(p.push('"') + content.take(k)) == Ok::<(ScanState, Seq<TokenView>), Error>(
            (
                ScanState::ReadingString {
                    start: location_at(p.len() as int),
                    value: content.take(k),
                    escape_next: false,
                },
                toks,
            ),
        ),
    decreases k,
{
    if k == 0 {
        assert(p.push('"') + content.take(0) =~= p.push('"'));
        lemma_scan_push(p, '"');
        assert(toks + seq![] =~= toks);
        assert(content.take(0) =~= seq![]);
    } else {
        lemma_string_body(p, toks, content, k - 1);
        let c = content[k - 1];
        lemma_scan_push(p.push('"') + content.take(k - 1), c);
        assert((p.push('"') + content.take(k - 1)).push(c) =~= p.push('"') + content.take(k));
        assert(content.take(k - 1).push(c) =~= content.take(k));
        assert(toks + seq![] =~= toks);
    }
}

/// A string literal without quotes or backslashes inside yields one string
/// token whose value is exactly the text between its quotes, located at the
/// opening quote.
pub proof fn string_literal_round_trip(p: Seq<char>, toks: Seq<TokenView>, content: Seq<char>)
    requires
        ends_ready(p, toks),
        forall|i: int| 0 <= i < content.len() ==> #[trigger] content[i] != '"' && content[i] != '\\',
    ensures
        ends_ready(
            p.push('"') + content.push('"'),
            toks.push(
                TokenView {
                    kind: TokenKindView::String(content),
                    location: location_at(p.len() as int),
                },
            ),
        ),
        tokenize(p.push('"') + content.push('"')) == Ok::<Seq<TokenView>, Error>(
            toks.push(
                TokenView {
                    kind: TokenKindView::String(content),
                    location: location_at(p.len() as int),
                },
            ),
        ),
{
    lemma_string_body(p, toks, content, content.len() as int);
    assert(content.take(content.len() as int) =~= content);
    lemma_scan_push(p.push('"') + content, '"');
    assert((p.push('"') + content).push('"') =~= p.push('"') + content.push('"'));
    let t = TokenView { kind: TokenKindView::String(content), location: location_at(p.len() as int) };
    assert(toks + seq![t] =~= toks.push(t));
    assert(toks.push(t) + seq![] =~= toks.push(t));
}

/// Inside a string, a backslash followed by a quote or a backslash adds that
/// one character to the value and leaves the string open, with no escape
/// pending.
pub proof fn escaped_quote_and_backslash(
    p: Seq<char>,
    toks: Seq<TokenView>,
    start: JsonTokenInfo,
    value: Seq<char>,
    c: char,
)
    requires
        scan(p) == Ok::<(ScanState, Seq<TokenView>), Error>(
            (ScanState::ReadingString { start, value, escape_next: false }, toks),
        ),
        c == '"' || c == '\\',
    ensures
        scan(p.push('\\').push(c)) == Ok::<(ScanState, Seq<TokenView>), Error>(
            (ScanState::ReadingString { start, value: value.push(c), escape_next: false }, toks),
        ),
{
    lemma_scan_push(p, '\\');
    lemma_scan_push(p.push('\\'), c);
    assert(toks + seq![] =~= toks);
    assert(toks + seq![] + seq![] =~= toks);
}

// ---------------------------------------------------------------------------
// Numbers
// ---------------------------------------------------------------------------

/// A character that may continue a number.
pub open spec fn is_number_char(c: char) -> bool {
    is_digit(c) || c == '.' || c == 'e' || c == 'E'
}

pub open spec fn has_decimal(m: Seq<char>) -> bool {
    m.contains('.')
}

pub open spec fn has_exponent(m: Seq<char>) -> bool {
    m.contains('e') || m.contains('E')
}

/// What follows the first digit of a number that the scanner accepts:
/// digits, at most one decimal point, at most one exponent marker, and no
/// decimal point after the exponent marker.
pub open spec fn valid_number_tail(m: Seq<char>) -> bool
    decreases m.len(),
{
    if m.len() == 0 {
        true
    } else {
        let c = m.last();
        let d = m.drop_last();
        &&& valid_number_tail(d)
        &&& is_digit(c) || (c == '.' && !has_decimal(d) && !has_exponent(d)) || ((c == 'e' || c
            == 'E') && !has_exponent(d))
    }
}

proof fn lemma_contains_push(m: Seq<char>, c: char, x: char)
    ensures
        m.push(c).contains(x) == (m.contains(x) || c == x),
{
    if m.contains(x) {
        let i = choose|i: int| 0 <= i < m.len() && m[i] == x;
        assert(m.push(c)[i] == x);
    }
    if c == x {
        assert(m.push(c)[m.len() as int] == x);
    }
    if m.push(c).contains(x) {
        let i = choose|i: int| 0 <= i < m.push(c).len() && m.push(c)[i] == x;
        if i < m.len() {
            assert(m[i] == x);
        }
    }
}

proof fn lemma_number_body(p: Seq<char>, toks: Seq<TokenView>, d: char, m: Seq<char>)
    requires
        ends_ready(p, toks),
        '1' <= d <= '9',
        valid_number_tail(m),
    ensures
        scan(p.push(d) + m) == Ok::<(ScanState, Seq<TokenView>), Error>(
            (
                ScanState::ReadingNumber {
                    start: location_at(p.len() as int),
                    seen_decimal: has_decimal(m),
                    seen_exponent: has_exponent(m),
                },
                toks,
            ),
        ),
    decreases m.len(),
{
    assert(toks + seq![] =~= toks);
    if m.len() == 0 {
        assert(p.push(d) + m =~= p.push(d));
        lemma_scan_push(p, d);
    } else {
        let c = m.last();
        let k = m.drop_last();
        lemma_number_body(p, toks, d, k);
        lemma_scan_push(p.push(d) + k, c);
        assert((p.push(d) + k).push(c) =~= p.push(d) + m);
        assert(k.push(c) =~= m);
        lemma_contains_push(k, c, '.');
        lemma_contains_push(k, c, 'e');
        lemma_contains_push(k, c, 'E');
    }
}

/// A number that reaches the end of the input is still emitted, at its first
/// digit: a float if it holds a decimal point, an integer if it is digits
/// alone.
pub proof fn number_classification(p: Seq<char>, toks: Seq<TokenView>, d: char, m: Seq<char>)
    requires
        ends_ready(p, toks),
        '1' <= d <= '9',
        valid_number_tail(m),
    ensures
        tokenize(p.push(d) + m) == Ok::<Seq<TokenView>, Error>(
            toks.push(number_token(location_at(p.len() as int), has_decimal(m))),
        ),
        has_decimal(m) ==> tokenize(p.push(d) + m) == Ok::<Seq<TokenView>, Error>(
            toks.push(TokenView { kind: TokenKindView::Float, location: location_at(p.len() as int) }),
        ),
        (forall|i: int| 0 <= i < m.len() ==> is_digit(#[trigger] m[i])) ==> tokenize(p.push(d) + m)
            == Ok::<Seq<TokenView>, Error>(
            toks.push(TokenView { kind: TokenKindView::Int, location: location_at(p.len() as int) }),
        ),
{
    lemma_number_body(p, toks, d, m);
    let t = number_token(location_at(p.len() as int), has_decimal(m));
    assert(toks + seq![t] =~= toks.push(t));
    if forall|i: int| 0 <= i < m.len() ==> is_digit(#[trigger] m[i]) {
        if has_decimal(m) {
            let i = choose|i: int| 0 <= i < m.len() && m[i] == '.';
            assert(is_digit(m[i]));
        }
    }
}

/// A second decimal point, a second exponent marker, or a decimal point
/// after the exponent marker fails with its own fault, located at the
/// number's first digit, whatever follows.
pub proof fn number_faults(
    p: Seq<char>,
    toks: Seq<TokenView>,
    d: char,
    m: Seq<char>,
    x: char,
    rest: Seq<char>,
)
    requires
        ends_ready(p, toks),
        '1' <= d <= '9',
        valid_number_tail(m),
    ensures
        x == '.' && has_decimal(m) ==> tokenize(p.push(d) + m.push(x) + rest) == Err::<
            Seq<TokenView>,
            Error,
        >(Error::MultipleDecimalSeparators(location_at(p.len() as int))),
        x == '.' && !has_decimal(m) && has_exponent(m) ==> tokenize(p.push(d) + m.push(x) + rest)
            == Err::<Seq<TokenView>, Error>(Error::DecimalAfterExponent(location_at(p.len() as int))),
        (x == 'e' || x == 'E') && has_exponent(m) ==> tokenize(p.push(d) + m.push(x) + rest) == Err::<
            Seq<TokenView>,
            Error,
        >(Error::MultipleExponentCharacters(location_at(p.len() as int))),
{
    lemma_number_body(p, toks, d, m);
    lemma_scan_push(p.push(d) + m, x);
    let whole = p.push(d) + m.push(x) + rest;
    let k = (p.len() + 1 + m.len() + 1) as int;
    assert(whole.take(k) =~= (p.push(d) + m).push(x));
    if scan(whole.take(k)) is Err {
        lemma_scan_stops_at_fault(whole, k);
    }
}

/// A number ends at a comma, a closing bracket or a closing brace; a closing
/// bracket or brace then yields its own token, at its own location.
pub proof fn number_termination(p: Seq<char>, toks: Seq<TokenView>, d: char, m: Seq<char>, t: char)
    requires
        ends_ready(p, toks),
        '1' <= d <= '9',
        valid_number_tail(m),
        t == ',' || t == ']' || t == '}',
    ensures
        t == ',' ==> ends_ready(
            p.push(d) + m.push(t),
            toks.push(number_token(location_at(p.len() as int), has_decimal(m))),
        ),
        t != ',' ==> ends_ready(
            p.push(d) + m.push(t),
            toks.push(number_token(location_at(p.len() as int), has_decimal(m))).push(
                TokenView {
                    kind: structural_kind(t)->0,
                    location: location_at((p.len() + 1 + m.len()) as int),
                },
            ),
        ),
{
    lemma_number_body(p, toks, d, m);
    lemma_scan_push(p.push(d) + m, t);
    assert((p.push(d) + m).push(t) =~= p.push(d) + m.push(t));
    let n = number_token(location_at(p.len() as int), has_decimal(m));
    let b = TokenView { kind: structural_kind(t)->0, location: location_at((p.len() + 1 + m.len()) as int) };
    assert(toks + seq![n] =~= toks.push(n));
    assert(toks + seq![n, b] =~= toks.push(n).push(b));
}

/// A number whose first digit is `0` fails at that digit, whatever follows.
pub proof fn leading_zero_fails(p: Seq<char>, toks: Seq<TokenView>, rest: Seq<char>)
    requires
        ends_ready(p, toks),
    ensures
        tokenize(p.push('0') + rest) == Err::<Seq<TokenView>, Error>(
            Error::NumbersCannotStartWithZero(location_at(p.len() as int)),
        ),
{
    lemma_scan_push(p, '0');
    let whole = p.push('0') + rest;
    assert(whole.take((p.len() + 1) as int) =~= p.push('0'));
    lemma_scan_stops_at_fault(whole, (p.len() + 1) as int);
}

} // verus!
