use load_balancer::lexer::tokenize;
use load_balancer::lexer::Token;
use load_balancer::lexer::TokenizerError;
use load_balancer::parser::parse;
use load_balancer::parser::JsonAST;
use load_balancer::parser::ParserError;

fn num(text: &str) -> Token {
    Token::Number(text.to_string())
}

#[test]
fn mod_tokenize_should_correctly_deal_with_known_tokens() {
    let result = tokenize("{\"foobar\": [\"apple\",\"banana\"], true false 1000.123 null}")
        .expect("should extract tokens");
    assert_eq!(
        result,
        vec!(
            Token::LeftBrace,
            Token::TString("foobar".to_string()),
            Token::Colon,
            Token::LeftBracket,
            Token::TString("apple".to_string()),
            Token::Comma,
            Token::TString("banana".to_string()),
            Token::RightBracket,
            Token::Comma,
            Token::True,
            Token::False,
            num("1000.123"),
            Token::Null,
            Token::RightBrace
        )
    )
}

#[test]
fn lexer_tokenize_should_correctly_deal_with_known_tokens() {
    mod_tokenize_should_correctly_deal_with_known_tokens()
}

#[test]
fn mod_tokenize_should_correctly_deal_with_known_tokens2() {
    let result = tokenize(
        "
            {

            }
        ",
    )
    .expect("should extract tokens");
    assert_eq!(result, vec!(Token::LeftBrace, Token::RightBrace))
}

#[test]
fn lexer_tokenize_should_correctly_deal_with_known_tokens2() {
    mod_tokenize_should_correctly_deal_with_known_tokens2()
}

#[test]
fn mod_tokenize_should_correctly_deal_with_known_tokens3() {
    let result = tokenize(
        "{\"foo\": 123, \"bar\":\"spectacular\", \"baz\":null, \"b1\":true, \"b2\":false}",
    )
    .expect("should extract tokens");
    assert_eq!(
        result,
        vec!(
            Token::LeftBrace,
            Token::TString("foo".to_string()),
            Token::Colon,
            num("123"),
            Token::Comma,
            Token::TString("bar".to_string()),
            Token::Colon,
            Token::TString("spectacular".to_string()),
            Token::Comma,
            Token::TString("baz".to_string()),
            Token::Colon,
            Token::Null,
            Token::Comma,
            Token::TString("b1".to_string()),
            Token::Colon,
            Token::True,
            Token::Comma,
            Token::TString("b2".to_string()),
            Token::Colon,
            Token::False,
            Token::RightBrace,
        )
    )
}

#[test]
fn lexer_tokenize_should_correctly_deal_with_known_tokens3() {
    mod_tokenize_should_correctly_deal_with_known_tokens3()
}

#[test]
fn mod_tokenize_should_fail_if_unclosed_quote() {
    let error = tokenize("{\"foobar}").err().unwrap();
    assert_eq!(error, TokenizerError::MismatchTokenExpectation('"', '}'));
}

#[test]
fn lexer_tokenize_should_fail_if_unclosed_quote() {
    mod_tokenize_should_fail_if_unclosed_quote()
}

#[test]
fn mod_tokenize_should_fail_if_unknown_token() {
    let error = tokenize("?").err().unwrap();
    assert_eq!(error, TokenizerError::InvalidCharacter('?'));
}

#[test]
fn lexer_tokenize_should_fail_if_unknown_token() {
    mod_tokenize_should_fail_if_unknown_token()
}

#[test]
fn mod_invalid_empty_json_should_fail() {
    let result = parse("").err().unwrap();
    assert_eq!(result, ParserError::UnexpectedEOF);
}

#[test]
fn parser_invalid_empty_json_should_fail() {
    mod_invalid_empty_json_should_fail()
}

#[test]
fn mod_valid_empty_json_should_succeed() {
    let result = parse("{}").unwrap();
    assert_eq!(result, JsonAST::JObject(Vec::new()))
}

#[test]
fn parser_valid_empty_json_should_succeed() {
    mod_valid_empty_json_should_succeed()
}

#[test]
fn mod_valid_json_should_succeed_one_field() {
    let result = parse("{ \"foo\": 12}").unwrap();
    assert_eq!(
        result,
        JsonAST::JObject(vec!(("foo".to_string(), JsonAST::JNumber("12".to_string()))))
    )
}

#[test]
fn parser_valid_json_should_succeed_one_field() {
    mod_valid_json_should_succeed_one_field()
}

#[test]
fn mod_valid_json_should_succeed_two_fields() {
    let result = parse("{\"foo\": 12,\"bar\": \"aloha\"}").unwrap();
    assert_eq!(
        result,
        JsonAST::JObject(vec!(
            ("foo".to_string(), JsonAST::JNumber("12".to_string())),
            ("bar".to_string(), JsonAST::JString("aloha".to_string()))
        ))
    )
}

#[test]
fn parser_valid_json_should_succeed_two_fields() {
    mod_valid_json_should_succeed_two_fields()
}

#[test]
fn mod_valid_json_should_succeed_including_list_of_strings() {
    let result =
        parse("{\"foo\": 12,\"bar\": \"aloha\", \"baz\": [ \"foo\", \"bar\", \"baz\"]}").unwrap();
    assert_eq!(
        result,
        JsonAST::JObject(vec!(
            ("foo".to_string(), JsonAST::JNumber("12".to_string())),
            ("bar".to_string(), JsonAST::JString("aloha".to_string())),
            (
                "baz".to_string(),
                JsonAST::JArray(vec!(
                    JsonAST::JString("foo".to_string()),
                    JsonAST::JString("bar".to_string()),
                    JsonAST::JString("baz".to_string())
                ))
            ),
        ))
    )
}

#[test]
fn parser_valid_json_should_succeed_including_list_of_strings() {
    mod_valid_json_should_succeed_including_list_of_strings()
}

#[test]
fn mod_valid_json_should_succeed_when_directly_a_list_of_strings() {
    let result = parse("[ \"foo\", \"bar\", \"baz\"]").unwrap();
    assert_eq!(
        result,
        JsonAST::JArray(vec!(
            JsonAST::JString("foo".to_string()),
            JsonAST::JString("bar".to_string()),
            JsonAST::JString("baz".to_string())
        ))
    )
}

#[test]
fn parser_valid_json_should_succeed_when_directly_a_list_of_strings() {
    mod_valid_json_should_succeed_when_directly_a_list_of_strings()
}

#[test]
fn mod_valid_2_json_step_4_should_succeed() {
    let result = parse(
        "
            {
                \"key\": \"value\",
                \"key-n\": 101,
                \"key-o\": {
                    \"inner key\": \"inner value\"
                },
                \"key-l\": [\"list value\"]
            }
        ",
    )
    .unwrap();
    assert_eq!(
        result,
        JsonAST::JObject(vec!(
            ("key".to_string(), JsonAST::JString("value".to_string())),
            ("key-n".to_string(), JsonAST::JNumber("101".to_string())),
            (
                "key-o".to_string(),
                JsonAST::JObject(vec!((
                    "inner key".to_string(),
                    JsonAST::JString("inner value".to_string())
                )))
            ),
            (
                "key-l".to_string(),
                JsonAST::JArray(vec!(JsonAST::JString("list value".to_string())))
            )
        ))
    )
}

#[test]
fn parser_valid_2_json_step_4_should_succeed() {
    mod_valid_2_json_step_4_should_succeed()
}

#[test]
fn mod_valid_json_step_4_should_succeed() {
    let result = parse(
        "
            {
                \"key\": \"value\",
                \"key-n\": 101,
                \"key-o\": {},
                \"key-l\": []
            }
        ",
    )
    .unwrap();
    assert_eq!(
        result,
        JsonAST::JObject(vec!(
            ("key".to_string(), JsonAST::JString("value".to_string())),
            ("key-n".to_string(), JsonAST::JNumber("101".to_string())),
            ("key-o".to_string(), JsonAST::JObject(Vec::new())),
            ("key-l".to_string(), JsonAST::JArray(Vec::new()))
        ))
    )
}

#[test]
fn parser_valid_json_step_4_should_succeed() {
    mod_valid_json_step_4_should_succeed()
}

#[test]
fn valid_json_step_4_followed_by_more_input_should_fail() {
    let result = parse(
        "
            {
                \"key\": \"value\",
                \"key-n\": 101,
                \"key-o\": {},
                \"key-l\": []
            } \"aloha\"
        ",
    )
    .err()
    .unwrap();
    assert_eq!(
        result,
        ParserError::UnexpectedTokenAfterEOF(Token::TString("aloha".to_string()))
    )
}

#[test]
fn start_of_json_and_end_of_input_should_fail() {
    let result = parse(
        "
            {
        ",
    )
    .err()
    .unwrap();
    assert_eq!(result, ParserError::UnexpectedEOF)
}

#[test]
fn tokenize_keeps_a_number_text_as_written() {
    let result = tokenize("{\"n\": 007.50}").expect("should extract tokens");
    assert_eq!(
        result,
        vec!(
            Token::LeftBrace,
            Token::TString("n".to_string()),
            Token::Colon,
            num("007.50"),
            Token::RightBrace
        )
    );

    let error = tokenize("{\"n\": 1.2.3}").err().unwrap();
    assert_eq!(error, TokenizerError::ParseNumberError);
}
