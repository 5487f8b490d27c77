use json_tokenizer::shared::{Error, JsonTokenInfo};
use json_tokenizer::tokenizer::{tokenize_json, JsonToken, JsonTokenType};

fn simple_tokenize(json: &str) -> Vec<JsonTokenType> {
    tokenize_json(json)
        .unwrap()
        .into_iter()
        .map(|v| v.token_type)
        .collect()
}

#[test]
fn tokenizes_a_simple_object() {
    let result = simple_tokenize(r#"{}"#);

    assert_eq!(
        result,
        vec![JsonTokenType::ObjectStart, JsonTokenType::ObjectEnd]
    )
}

#[test]
fn tokenizes_a_simple_array() {
    let result = simple_tokenize(r#"[]"#);

    assert_eq!(
        result,
        vec![JsonTokenType::ArrayStart, JsonTokenType::ArrayEnd]
    )
}

#[test]
fn tokenizes_simple_key_value_object() {
    let result = simple_tokenize(r#"{"foo": "bar"}"#);

    assert_eq!(
        result,
        vec![
            JsonTokenType::ObjectStart,
            JsonTokenType::String("foo".into()),
            JsonTokenType::Colon,
            JsonTokenType::String("bar".into()),
            JsonTokenType::ObjectEnd
        ]
    )
}

#[test]
fn tokenizes_simple_string_array() {
    let result = simple_tokenize(r#"["foo"]"#);

    assert_eq!(
        result,
        vec![
            JsonTokenType::ArrayStart,
            JsonTokenType::String("foo".into()),
            JsonTokenType::ArrayEnd
        ]
    )
}

#[test]
fn tokenizes_simple_int_array() {
    let result = simple_tokenize(r#"[42]"#);

    assert_eq!(
        result,
        vec![
            JsonTokenType::ArrayStart,
            JsonTokenType::Int,
            JsonTokenType::ArrayEnd
        ]
    )
}

#[test]
fn tokenizes_simple_float_array() {
    let result = simple_tokenize(r#"[42.5]"#);

    assert_eq!(
        result,
        vec![
            JsonTokenType::ArrayStart,
            JsonTokenType::Float,
            JsonTokenType::ArrayEnd
        ]
    )
}

#[test]
fn tokenizes_multiple_object_key_pairs() {
    let result = simple_tokenize(r#"{"foo": "bar", "baz": "bing"}"#);

    assert_eq!(
        result,
        vec![
            JsonTokenType::ObjectStart,
            JsonTokenType::String("foo".into()),
            JsonTokenType::Colon,
            JsonTokenType::String("bar".into()),
            JsonTokenType::String("baz".into()),
            JsonTokenType::Colon,
            JsonTokenType::String("bing".into()),
            JsonTokenType::ObjectEnd
        ]
    )
}

#[test]
fn error_on_double_decimal() {
    let result = tokenize_json("5.5.5");
    assert_eq!(
        result,
        Err(Error::MultipleDecimalSeparators(JsonTokenInfo::new(1, 1, 0)))
    )
}

#[test]
fn error_on_double_exponent() {
    let result = tokenize_json("5e5e5");
    assert_eq!(
        result,
        Err(Error::MultipleExponentCharacters(JsonTokenInfo::new(1, 1, 0)))
    )
}

#[test]
fn error_on_decimal_after_exponent() {
    let result = tokenize_json("5e5.5");
    assert_eq!(
        result,
        Err(Error::DecimalAfterExponent(JsonTokenInfo::new(1, 1, 0)))
    )
}

#[test]
fn error_on_unclosed_string() {
    let result = tokenize_json(r#""foo"#);
    assert_eq!(
        result,
        Err(Error::UnclosedString(JsonTokenInfo::new(1, 1, 0)))
    )
}

#[test]
fn error_if_number_starts_with_0() {
    let result = tokenize_json("042");
    assert_eq!(
        result,
        Err(Error::NumbersCannotStartWithZero(JsonTokenInfo::new(1, 1, 0)))
    )
}

#[test]
fn nested_objects() {
    let result = simple_tokenize(r#"{"foo": {"bar": "baz"}}"#);

    assert_eq!(
        result,
        vec![
            JsonTokenType::ObjectStart,
            JsonTokenType::String("foo".into()),
            JsonTokenType::Colon,
            JsonTokenType::ObjectStart,
            JsonTokenType::String("bar".into()),
            JsonTokenType::Colon,
            JsonTokenType::String("baz".into()),
            JsonTokenType::ObjectEnd,
            JsonTokenType::ObjectEnd,
        ]
    )
}

fn token(token_type: JsonTokenType, index: i64) -> JsonToken {
    JsonToken::new(token_type, JsonTokenInfo::new(1, index + 1, index))
}

#[test]
fn empty_input_yields_no_tokens() {
    assert_eq!(tokenize_json(""), Ok(vec![]));
}

#[test]
fn punctuation_tokens_keep_order_and_locations() {
    let result = tokenize_json("[ , { : } ,] ");
    assert_eq!(
        result,
        Ok(vec![
            token(JsonTokenType::ArrayStart, 0),
            token(JsonTokenType::ObjectStart, 4),
            token(JsonTokenType::Colon, 6),
            token(JsonTokenType::ObjectEnd, 8),
            token(JsonTokenType::ArrayEnd, 11),
        ])
    );
}

#[test]
fn string_value_is_text_between_quotes() {
    let result = tokenize_json(r#"[ "a b{}:,[]7é" ]"#);
    assert_eq!(
        result,
        Ok(vec![
            token(JsonTokenType::ArrayStart, 0),
            token(JsonTokenType::String("a b{}:,[]7é".into()), 2),
            token(JsonTokenType::ArrayEnd, 16),
        ])
    );
}

#[test]
fn empty_string_literal() {
    assert_eq!(
        tokenize_json(r#""""#),
        Ok(vec![token(JsonTokenType::String(String::new()), 0)])
    );
}

#[test]
fn escaped_quote_and_backslash_are_kept_literally() {
    assert_eq!(
        simple_tokenize(r#""bar\"baz""#),
        vec![JsonTokenType::String("bar\"baz".into())]
    );
    assert_eq!(
        simple_tokenize(r#""bar\\baz""#),
        vec![JsonTokenType::String("bar\\baz".into())]
    );
    assert_eq!(
        simple_tokenize(r#""\\""#),
        vec![JsonTokenType::String("\\".into())]
    );
}

#[test]
fn other_escapes_are_not_interpreted() {
    assert_eq!(
        simple_tokenize(r#""a\nb\u0041""#),
        vec![JsonTokenType::String("anbu0041".into())]
    );
}

#[test]
fn number_kinds() {
    assert_eq!(simple_tokenize("7"), vec![JsonTokenType::Int]);
    assert_eq!(simple_tokenize("1234567890"), vec![JsonTokenType::Int]);
    assert_eq!(simple_tokenize("3.25"), vec![JsonTokenType::Float]);
    assert_eq!(simple_tokenize("3."), vec![JsonTokenType::Float]);
    assert_eq!(simple_tokenize("3e10"), vec![JsonTokenType::Int]);
    assert_eq!(simple_tokenize("3.5E7"), vec![JsonTokenType::Float]);
}

#[test]
fn number_faults_whatever_follows() {
    assert_eq!(
        tokenize_json("[ 12.3.4 xyz"),
        Err(Error::MultipleDecimalSeparators(JsonTokenInfo::new(1, 3, 2)))
    );
    assert_eq!(
        tokenize_json("[9E1e"),
        Err(Error::MultipleExponentCharacters(JsonTokenInfo::new(1, 2, 1)))
    );
    assert_eq!(
        tokenize_json("9e1."),
        Err(Error::DecimalAfterExponent(JsonTokenInfo::new(1, 1, 0)))
    );
}

#[test]
fn number_ends_at_comma_bracket_brace_or_end() {
    assert_eq!(
        tokenize_json("[12,3.5]"),
        Ok(vec![
            token(JsonTokenType::ArrayStart, 0),
            token(JsonTokenType::Int, 1),
            token(JsonTokenType::Float, 4),
            token(JsonTokenType::ArrayEnd, 7),
        ])
    );
    assert_eq!(
        tokenize_json(r#"{"a":15}"#),
        Ok(vec![
            token(JsonTokenType::ObjectStart, 0),
            token(JsonTokenType::String("a".into()), 1),
            token(JsonTokenType::Colon, 4),
            token(JsonTokenType::Int, 5),
            token(JsonTokenType::ObjectEnd, 7),
        ])
    );
    assert_eq!(tokenize_json("88"), Ok(vec![token(JsonTokenType::Int, 0)]));
}

#[test]
fn leading_zero_fails_wherever_a_number_starts() {
    assert_eq!(
        tokenize_json("0"),
        Err(Error::NumbersCannotStartWithZero(JsonTokenInfo::new(1, 1, 0)))
    );
    assert_eq!(
        tokenize_json("[1, 0.5]"),
        Err(Error::NumbersCannotStartWithZero(JsonTokenInfo::new(1, 5, 4)))
    );
}

#[test]
fn invalid_number_character_reports_number_start() {
    assert_eq!(
        tokenize_json("[ 12x]"),
        Err(Error::InvalidNumberCharacter(JsonTokenInfo::new(1, 3, 2), 'x'))
    );
    assert_eq!(
        tokenize_json("1 "),
        Err(Error::InvalidNumberCharacter(JsonTokenInfo::new(1, 1, 0), ' '))
    );
}

#[test]
fn unknown_character_in_ready_mode() {
    assert_eq!(
        tokenize_json("[true]"),
        Err(Error::UnknownJsonCharacter(JsonTokenInfo::new(1, 2, 1), 't'))
    );
    assert_eq!(
        tokenize_json("{\n}"),
        Err(Error::UnknownJsonCharacter(JsonTokenInfo::new(1, 2, 1), '\n'))
    );
    assert_eq!(
        tokenize_json("\t"),
        Err(Error::UnknownJsonCharacter(JsonTokenInfo::new(1, 1, 0), '\t'))
    );
}

#[test]
fn unclosed_string_after_other_tokens() {
    assert_eq!(
        tokenize_json(r#"{"a": "b\"}"#),
        Err(Error::UnclosedString(JsonTokenInfo::new(1, 7, 6)))
    );
}

#[test]
fn structure_is_not_validated() {
    assert_eq!(
        simple_tokenize("[}"),
        vec![JsonTokenType::ArrayStart, JsonTokenType::ObjectEnd]
    );
}
