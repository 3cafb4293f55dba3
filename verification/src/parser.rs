//! The JSON parser: recursive descent over the token list, consumed
//! as a stack from its reversed end, mirroring the tokenizer's pair.
//! A number value carries its text as written.

use vstd::prelude::*;
use crate::lexer::SpecTok;
use crate::lexer::views_of;
use crate::lexer::Token;
use crate::lexer::TokenizerError;
use crate::lexer::SpecTokErr;

verus! {

/// A JSON document. A number carries its text as written.
#[derive(Debug, PartialEq, Eq)]
pub enum JsonAST {
    JObject(Vec<(String, JsonAST)>),
    JArray(Vec<JsonAST>),
    JString(String),
    JBoolean(bool),
    JNumber(String),
    JNull,
}

/// The mathematical value of a JSON document.
pub enum SpecJson {
    Object(Seq<(Seq<char>, SpecJson)>),
    Array(Seq<SpecJson>),
    Text(Seq<char>),
    Boolean(bool),
    Number(Seq<char>),
    Null,
}

/// The value of a document, structurally.
pub open spec fn spec_view(ast: JsonAST) -> SpecJson
    decreases ast, 1int, 0int,
{
    match ast {
        JsonAST::JObject(fields) => SpecJson::Object(view_fields(fields, 0)),
        JsonAST::JArray(items) => SpecJson::Array(view_items(items, 0)),
        JsonAST::JString(s) => SpecJson::Text(s@),
        JsonAST::JBoolean(b) => SpecJson::Boolean(b),
        JsonAST::JNumber(n) => SpecJson::Number(n@),
        JsonAST::JNull => SpecJson::Null,
    }
}

/// The values of an object's fields from position `k` on.
pub open spec fn view_fields(fields: Vec<(String, JsonAST)>, k: int) -> Seq<(Seq<char>, SpecJson)>
    decreases fields, 0int, fields@.len() - k,
    via view_fields_dec
{
    if k < 0 || k >= fields@.len() {
        Seq::empty()
    } else {
        seq![(fields@[k].0@, spec_view(fields@[k].1))] + view_fields(fields, k + 1)
    }
}

#[via_fn]
proof fn view_fields_dec(fields: Vec<(String, JsonAST)>, k: int) {
    if 0 <= k < fields@.len() {
        assert(decreases_to!(fields => fields@));
        assert(decreases_to!(fields@ => fields@[k]));
        assert(decreases_to!(fields@[k] => fields@[k].1));
    }
}

/// The values of an array's items from position `k` on.
pub open spec fn view_items(items: Vec<JsonAST>, k: int) -> Seq<SpecJson>
    decreases items, 0int, items@.len() - k,
    via view_items_dec
{
    if k < 0 || k >= items@.len() {
        Seq::empty()
    } else {
        seq![spec_view(items@[k])] + view_items(items, k + 1)
    }
}

#[via_fn]
proof fn view_items_dec(items: Vec<JsonAST>, k: int) {
    if 0 <= k < items@.len() {
        assert(decreases_to!(items => items@));
        assert(decreases_to!(items@ => items@[k]));
    }
}

impl View for JsonAST {
    type V = SpecJson;

    open spec fn view(&self) -> SpecJson {
        spec_view(*self)
    }
}

/// The values of a field list.
pub open spec fn pair_views(s: Seq<(String, JsonAST)>) -> Seq<(Seq<char>, SpecJson)> {
    s.map_values(|p: (String, JsonAST)| (p.0@, spec_view(p.1)))
}

/// The values of an item list.
pub open spec fn item_views(s: Seq<JsonAST>) -> Seq<SpecJson> {
    s.map_values(|a: JsonAST| spec_view(a))
}

proof fn lemma_view_fields_map(fields: Vec<(String, JsonAST)>, k: int)
    requires
        0 <= k <= fields@.len(),
    ensures
        view_fields(fields, k) == pair_views(fields@).skip(k),
    decreases fields@.len() - k,
{
    if k == fields@.len() {
        assert(view_fields(fields, k) =~= pair_views(fields@).skip(k));
    } else {
        lemma_view_fields_map(fields, k + 1);
        assert(view_fields(fields, k) =~= pair_views(fields@).skip(k));
    }
}

proof fn lemma_view_items_map(items: Vec<JsonAST>, k: int)
    requires
        0 <= k <= items@.len(),
    ensures
        view_items(items, k) == item_views(items@).skip(k),
    decreases items@.len() - k,
{
    if k == items@.len() {
        assert(view_items(items, k) =~= item_views(items@).skip(k));
    } else {
        lemma_view_items_map(items, k + 1);
        assert(view_items(items, k) =~= item_views(items@).skip(k));
    }
}

/// Why parsing failed.
#[derive(Debug, PartialEq, Eq)]
pub enum ParserError {
    /// A token found where another was expected.
    ExpectedTokenMismatch(Token, Token),
    /// A token no value can start with.
    UnexpectedToken(Token),
    /// Something other than a string where an object key belongs.
    ExpectedKey(Token),
    /// The tokens ran out mid-value.
    UnexpectedEOF,
    /// A complete value followed by more input.
    UnexpectedTokenAfterEOF(Token),
    /// The input could not be tokenized at all.
    TokenisingError(TokenizerError),
}

/// The mathematical value of a parser error.
pub enum SpecParseErr {
    ExpectedTokenMismatch(SpecTok, SpecTok),
    UnexpectedToken(SpecTok),
    ExpectedKey(SpecTok),
    UnexpectedEOF,
    UnexpectedTokenAfterEOF(SpecTok),
    TokenisingError(SpecTokErr),
}

impl View for ParserError {
    type V = SpecParseErr;

    open spec fn view(&self) -> SpecParseErr {
        match self {
            ParserError::ExpectedTokenMismatch(a, b) => SpecParseErr::ExpectedTokenMismatch(
                a@,
                b@,
            ),
            ParserError::UnexpectedToken(t) => SpecParseErr::UnexpectedToken(t@),
            ParserError::ExpectedKey(t) => SpecParseErr::ExpectedKey(t@),
            ParserError::UnexpectedEOF => SpecParseErr::UnexpectedEOF,
            ParserError::UnexpectedTokenAfterEOF(t) => SpecParseErr::UnexpectedTokenAfterEOF(t@),
            ParserError::TokenisingError(e) => SpecParseErr::TokenisingError(e@),
        }
    }
}

/// The token list of a JSON value, reversed — the order in which the
/// parser's stack holds it, the value's first token on top.
pub open spec fn rtoks(v: SpecJson) -> Seq<SpecTok>
    decreases v, 1int, 0int,
{
    match v {
        SpecJson::Null => seq![SpecTok::Null],
        SpecJson::Boolean(b) => if b {
            seq![SpecTok::True]
        } else {
            seq![SpecTok::False]
        },
        SpecJson::Number(n) => seq![SpecTok::Number(n)],
        SpecJson::Text(s) => seq![SpecTok::Text(s)],
        SpecJson::Object(fields) => rfields(fields, 0) + seq![SpecTok::LeftBrace],
        SpecJson::Array(items) => ritems(items, 0) + seq![SpecTok::LeftBracket],
    }
}

/// The reversed tokens of an object's fields from `k` on, up to and
/// including the closing brace: each field is its key, a colon and its
/// value, fields are separated by commas.
pub open spec fn rfields(fields: Seq<(Seq<char>, SpecJson)>, k: int) -> Seq<SpecTok>
    decreases SpecJson::Object(fields), 0int, fields.len() - k,
    via rfields_dec
{
    if k < 0 || k >= fields.len() {
        seq![SpecTok::RightBrace]
    } else {
        rfields(fields, k + 1) + (if k + 1 == fields.len() {
            Seq::empty()
        } else {
            seq![SpecTok::Comma]
        }) + rtoks(fields[k].1) + seq![SpecTok::Colon, SpecTok::Text(fields[k].0)]
    }
}

#[via_fn]
proof fn rfields_dec(fields: Seq<(Seq<char>, SpecJson)>, k: int) {
    if 0 <= k < fields.len() {
        let o = SpecJson::Object(fields);
        assert(o->Object_0 == fields);
        assert(decreases_to!(o => o->Object_0));
        assert(decreases_to!(fields => fields[k]));
        assert(decreases_to!(fields[k] => fields[k].1));
    }
}

/// The reversed tokens of an array's items from `k` on, up to and
/// including the closing bracket.
pub open spec fn ritems(items: Seq<SpecJson>, k: int) -> Seq<SpecTok>
    decreases SpecJson::Array(items), 0int, items.len() - k,
    via ritems_dec
{
    if k < 0 || k >= items.len() {
        seq![SpecTok::RightBracket]
    } else {
        ritems(items, k + 1) + (if k + 1 == items.len() {
            Seq::empty()
        } else {
            seq![SpecTok::Comma]
        }) + rtoks(items[k])
    }
}

#[via_fn]
proof fn ritems_dec(items: Seq<SpecJson>, k: int) {
    if 0 <= k < items.len() {
        let o = SpecJson::Array(items);
        assert(o->Array_0 == items);
        assert(decreases_to!(o => o->Array_0));
        assert(decreases_to!(items => items[k]));
    }
}

/// The value `v` parses from the stack with `head` on top, leaving
/// `rest`: the stack up to `rest` holds exactly the value's tokens.
pub open spec fn value_parses(stack: Seq<SpecTok>, head: SpecTok, v: SpecJson, rest: Seq<
    SpecTok,
>) -> bool {
    stack.push(head) == rest + rtoks(v)
}

/// An object body (after its opening brace) parses from the stack,
/// leaving `rest`.
pub open spec fn object_parses(stack: Seq<SpecTok>, fields: Seq<(Seq<char>, SpecJson)>, rest: Seq<
    SpecTok,
>) -> bool {
    stack == rest + rfields(fields, 0)
}

/// An array body (after its opening bracket) parses from the stack,
/// leaving `rest`.
pub open spec fn array_parses(stack: Seq<SpecTok>, items: Seq<SpecJson>, rest: Seq<
    SpecTok,
>) -> bool {
    stack == rest + ritems(items, 0)
}

/// A value's reversed tokens are never empty, and their top (last)
/// token names the value's variant.
proof fn lemma_rtoks_top(v: SpecJson)
    ensures
        rtoks(v).len() >= 1,
        match v {
            SpecJson::Null => rtoks(v) == seq![SpecTok::Null],
            SpecJson::Boolean(b) => rtoks(v) == (if b {
                seq![SpecTok::True]
            } else {
                seq![SpecTok::False]
            }),
            SpecJson::Number(n) => rtoks(v) == seq![SpecTok::Number(n)],
            SpecJson::Text(s) => rtoks(v) == seq![SpecTok::Text(s)],
            SpecJson::Object(fields) => rtoks(v).last() == SpecTok::LeftBrace && rtoks(v).drop_last()
                == rfields(fields, 0),
            SpecJson::Array(items) => rtoks(v).last() == SpecTok::LeftBracket && rtoks(
                v,
            ).drop_last() == ritems(items, 0),
        },
{
    match v {
        SpecJson::Object(fields) => {
            assert((rfields(fields, 0) + seq![SpecTok::LeftBrace]).drop_last() =~= rfields(
                fields,
                0,
            ));
        },
        SpecJson::Array(items) => {
            assert((ritems(items, 0) + seq![SpecTok::LeftBracket]).drop_last() =~= ritems(
                items,
                0,
            ));
        },
        _ => {},
    }
}

/// The reversed tokens that follow field `k`'s value: a separating
/// comma and the later fields, or just the closing brace after the
/// last field.
pub open spec fn after_field(fields: Seq<(Seq<char>, SpecJson)>, k: int) -> Seq<SpecTok> {
    rfields(fields, k + 1) + (if k + 1 == fields.len() {
        Seq::empty()
    } else {
        seq![SpecTok::Comma]
    })
}

/// The reversed tokens that follow item `k`: a separating comma and
/// the later items, or just the closing bracket after the last item.
pub open spec fn after_item(items: Seq<SpecJson>, k: int) -> Seq<SpecTok> {
    ritems(items, k + 1) + (if k + 1 == items.len() {
        Seq::empty()
    } else {
        seq![SpecTok::Comma]
    })
}

proof fn lemma_rfields_len(fields: Seq<(Seq<char>, SpecJson)>, k: int)
    ensures
        rfields(fields, k).len() >= 1,
{
    if k < 0 || k >= fields.len() {
        assert(rfields(fields, k) == seq![SpecTok::RightBrace]);
    } else {
        assert(rfields(fields, k) == rfields(fields, k + 1) + (if k + 1 == fields.len() {
            Seq::empty()
        } else {
            seq![SpecTok::Comma]
        }) + rtoks(fields[k].1) + seq![SpecTok::Colon, SpecTok::Text(fields[k].0)]);
    }
}

proof fn lemma_ritems_len(items: Seq<SpecJson>, k: int)
    ensures
        ritems(items, k).len() >= 1,
{
    if k < 0 || k >= items.len() {
        assert(ritems(items, k) == seq![SpecTok::RightBracket]);
    } else {
        lemma_rtoks_top(items[k]);
        assert(ritems(items, k) == ritems(items, k + 1) + (if k + 1 == items.len() {
            Seq::empty()
        } else {
            seq![SpecTok::Comma]
        }) + rtoks(items[k]));
    }
}

/// Unfold one field of the object relation: with the stack standing at
/// field `k`, the key, the colon and the field's value sit on top, and
/// what the value leaves behind is the continuation for field `k+1`.
proof fn lemma_rfields_step(g0: Seq<SpecTok>, fields: Seq<(Seq<char>, SpecJson)>, k: int, rest: Seq<
    SpecTok,
>)
    requires
        0 <= k < fields.len(),
        g0 == rest + rfields(fields, k),
    ensures
        g0.len() >= rest.len() + 4,
        g0.last() == SpecTok::Text(fields[k].0),
        g0.drop_last().last() == SpecTok::Colon,
        ({
            let u = rest + after_field(fields, k);
            let g2 = g0.drop_last().drop_last();
            g2 == u + rtoks(fields[k].1) && g2.len() >= u.len() + 1 && value_parses(
                g2.drop_last(),
                g2.last(),
                fields[k].1,
                u,
            ) && (k + 1 == fields.len() ==> u == rest.push(SpecTok::RightBrace)) && (k + 1
                < fields.len() ==> u == (rest + rfields(fields, k + 1)).push(SpecTok::Comma))
        }),
{
    lemma_rtoks_top(fields[k].1);
    lemma_rfields_len(fields, k + 1);
    let u = rest + after_field(fields, k);
    let tail = seq![SpecTok::Colon, SpecTok::Text(fields[k].0)];
    assert(rfields(fields, k) == after_field(fields, k) + rtoks(fields[k].1) + tail);
    assert(g0 == u + rtoks(fields[k].1) + tail) by {
        assert(rest + (after_field(fields, k) + rtoks(fields[k].1) + tail) =~= (rest + after_field(
            fields,
            k,
        ) + rtoks(fields[k].1)) + tail);
    }
    assert(g0.last() == SpecTok::Text(fields[k].0));
    assert(g0.drop_last() =~= u + rtoks(fields[k].1) + seq![SpecTok::Colon]);
    assert(g0.drop_last().last() == SpecTok::Colon);
    let g2 = g0.drop_last().drop_last();
    assert(g2 =~= u + rtoks(fields[k].1));
    assert(g2.drop_last().push(g2.last()) =~= g2);
    assert(g2.last() == rtoks(fields[k].1).last());
    assert(value_parses(g2.drop_last(), g2.last(), fields[k].1, u));
    if k + 1 == fields.len() {
        assert(u =~= rest.push(SpecTok::RightBrace));
    } else {
        assert(u =~= (rest + rfields(fields, k + 1)).push(SpecTok::Comma));
    }
}

/// Unfold one item of the array relation.
proof fn lemma_ritems_step(g0: Seq<SpecTok>, items: Seq<SpecJson>, k: int, rest: Seq<SpecTok>)
    requires
        0 <= k < items.len(),
        g0 == rest + ritems(items, k),
    ensures
        g0.len() >= rest.len() + 2,
        ({
            let u = rest + after_item(items, k);
            g0 == u + rtoks(items[k]) && g0.len() >= u.len() + 1 && value_parses(
                g0.drop_last(),
                g0.last(),
                items[k],
                u,
            ) && (k + 1 == items.len() ==> u == rest.push(SpecTok::RightBracket)) && (k + 1
                < items.len() ==> u == (rest + ritems(items, k + 1)).push(SpecTok::Comma))
        }),
{
    lemma_rtoks_top(items[k]);
    lemma_ritems_len(items, k + 1);
    let u = rest + after_item(items, k);
    assert(ritems(items, k) == after_item(items, k) + rtoks(items[k]));
    assert(g0 == u + rtoks(items[k])) by {
        assert(rest + (after_item(items, k) + rtoks(items[k])) =~= (rest + after_item(items, k))
            + rtoks(items[k]));
    }
    assert(g0.drop_last().push(g0.last()) =~= g0);
    assert(g0.last() == rtoks(items[k]).last());
    assert(value_parses(g0.drop_last(), g0.last(), items[k], u));
    if k + 1 == items.len() {
        assert(u =~= rest.push(SpecTok::RightBracket));
    } else {
        assert(u =~= (rest + ritems(items, k + 1)).push(SpecTok::Comma));
    }
}

/// Parse one value whose first token, already taken off the stack, is
/// `token`. On every input that is a complete value the result is
/// exactly that value, with exactly its tokens consumed.
pub fn parse_json_value(tokens: &mut Vec<Token>, token: Token) -> (r: Result<JsonAST, ParserError>)
    ensures
        final(tokens)@.len() <= old(tokens)@.len(),
        forall|v: SpecJson, rest: Seq<SpecTok>|
            #[trigger] value_parses(views_of(old(tokens)@), token@, v, rest) ==> (r matches Ok(
                ast,
            ) && ast@ == v && views_of(final(tokens)@) == rest),
    decreases tokens@.len(), 1int,
{
    let ghost s0 = views_of(tokens@);
    let ghost h = token@;
    match token {
        Token::Null => {
            proof {
                assert forall|v: SpecJson, rest: Seq<SpecTok>|
                    #[trigger] value_parses(s0, h, v, rest) implies (v == SpecJson::Null && rest
                    == s0) by {
                    lemma_atom_case(s0, h, v, rest);
                }
            }
            Ok(JsonAST::JNull)
        },
        Token::True => {
            proof {
                assert forall|v: SpecJson, rest: Seq<SpecTok>|
                    #[trigger] value_parses(s0, h, v, rest) implies (v == SpecJson::Boolean(true)
                    && rest == s0) by {
                    lemma_atom_case(s0, h, v, rest);
                }
            }
            Ok(JsonAST::JBoolean(true))
        },
        Token::False => {
            proof {
                assert forall|v: SpecJson, rest: Seq<SpecTok>|
                    #[trigger] value_parses(s0, h, v, rest) implies (v == SpecJson::Boolean(false)
                    && rest == s0) by {
                    lemma_atom_case(s0, h, v, rest);
                }
            }
            Ok(JsonAST::JBoolean(false))
        },
        Token::Number(n) => {
            proof {
                assert forall|v: SpecJson, rest: Seq<SpecTok>|
                    #[trigger] value_parses(s0, h, v, rest) implies (v == SpecJson::Number(n@)
                    && rest == s0) by {
                    lemma_atom_case(s0, h, v, rest);
                }
            }
            Ok(JsonAST::JNumber(n))
        },
        Token::TString(s) => {
            proof {
                assert forall|v: SpecJson, rest: Seq<SpecTok>|
                    #[trigger] value_parses(s0, h, v, rest) implies (v == SpecJson::Text(s@)
                    && rest == s0) by {
                    lemma_atom_case(s0, h, v, rest);
                }
            }
            Ok(JsonAST::JString(s))
        },
        Token::LeftBrace => {
            let r2 = parse_json_object(tokens);
            proof {
                assert forall|v: SpecJson, rest: Seq<SpecTok>|
                    #[trigger] value_parses(s0, h, v, rest) implies (r2 matches Ok(ast) && ast@
                    == v && views_of(final(tokens)@) == rest) by {
                    lemma_rtoks_top(v);
                    match v {
                        SpecJson::Object(fields) => {
                            assert(s0.push(h).drop_last() =~= s0);
                            assert((rest + rtoks(v)).drop_last() =~= rest + rfields(fields, 0));
                            assert(object_parses(s0, fields, rest));
                        },
                        _ => {
                            assert((rest + rtoks(v)).last() == rtoks(v).last());
                            assert(false);
                        },
                    }
                }
            }
            match r2 {
                Ok(ast) => Ok(ast),
                Err(e) => Err(e),
            }
        },
        Token::LeftBracket => {
            let r2 = parse_array(tokens);
            proof {
                assert forall|v: SpecJson, rest: Seq<SpecTok>|
                    #[trigger] value_parses(s0, h, v, rest) implies (r2 matches Ok(ast) && ast@
                    == v && views_of(final(tokens)@) == rest) by {
                    lemma_rtoks_top(v);
                    match v {
                        SpecJson::Array(items) => {
                            assert(s0.push(h).drop_last() =~= s0);
                            assert((rest + rtoks(v)).drop_last() =~= rest + ritems(items, 0));
                            assert(array_parses(s0, items, rest));
                        },
                        _ => {
                            assert((rest + rtoks(v)).last() == rtoks(v).last());
                            assert(false);
                        },
                    }
                }
            }
            match r2 {
                Ok(ast) => Ok(ast),
                Err(e) => Err(e),
            }
        },
        t => {
            proof {
                assert forall|v: SpecJson, rest: Seq<SpecTok>|
                    #[trigger] value_parses(s0, h, v, rest) implies false by {
                    lemma_rtoks_top(v);
                    assert((rest + rtoks(v)).last() == rtoks(v).last());
                }
            }
            Err(ParserError::UnexpectedToken(t))
        },
    }
}

/// Parse an object body, its opening brace already consumed: key,
/// colon and value per field, fields separated by commas, closed by a
/// brace. On every input that is a complete object body the result is
/// exactly its fields, with exactly its tokens consumed.
pub fn parse_json_object(tokens: &mut Vec<Token>) -> (r: Result<JsonAST, ParserError>)
    ensures
        final(tokens)@.len() <= old(tokens)@.len(),
        forall|fields: Seq<(Seq<char>, SpecJson)>, rest: Seq<SpecTok>|
            #[trigger] object_parses(views_of(old(tokens)@), fields, rest) ==> (r matches Ok(
                ast,
            ) && ast@ == SpecJson::Object(fields) && views_of(final(tokens)@) == rest),
    decreases tokens@.len(), 0int,
{
    let ghost s0 = views_of(tokens@);
    let mut obj: Vec<(String, JsonAST)> = Vec::new();
    loop
        invariant
            tokens@.len() <= old(tokens)@.len(),
            s0 == views_of(old(tokens)@),
            forall|fields: Seq<(Seq<char>, SpecJson)>, rest: Seq<SpecTok>|
                #[trigger] object_parses(s0, fields, rest) ==> obj@.len() <= fields.len()
                    && pair_views(obj@) == fields.take(obj@.len() as int) && views_of(tokens@)
                    == rest + rfields(fields, obj@.len() as int),
        decreases tokens@.len(),
    {
        let ghost g0 = views_of(tokens@);
        let ghost k = obj@.len() as int;
        let token = match tokens.pop() {
            Some(t) => t,
            None => {
                proof {
                    assert forall|fields: Seq<(Seq<char>, SpecJson)>, rest: Seq<SpecTok>|
                        #[trigger] object_parses(s0, fields, rest) implies false by {
                        lemma_rfields_len(fields, k);
                    }
                }
                return Err(ParserError::UnexpectedEOF);
            },
        };
        proof {
            assert(views_of(tokens@) =~= g0.drop_last());
            assert(g0.last() == token@);
        }
        match token {
            Token::RightBrace => {
                proof {
                    lemma_view_fields_map(obj, 0);
                    assert(pair_views(obj@).skip(0) =~= pair_views(obj@));
                    assert forall|fields: Seq<(Seq<char>, SpecJson)>, rest: Seq<SpecTok>|
                        #[trigger] object_parses(s0, fields, rest) implies (k == fields.len()
                        && fields == pair_views(obj@) && views_of(tokens@) == rest) by {
                        if k < fields.len() {
                            lemma_rfields_step(g0, fields, k, rest);
                            assert(false);
                        }
                        assert(fields.take(k) =~= fields);
                        assert((rest + seq![SpecTok::RightBrace]).drop_last() =~= rest);
                    }
                }
                return Ok(JsonAST::JObject(obj));
            },
            Token::TString(key) => {
                let ghost g1 = views_of(tokens@);
                let token = match tokens.pop() {
                    Some(t) => t,
                    None => {
                        proof {
                            assert forall|fields: Seq<(Seq<char>, SpecJson)>, rest: Seq<SpecTok>|
                                #[trigger] object_parses(s0, fields, rest) implies false by {
                                if k < fields.len() {
                                    lemma_rfields_step(g0, fields, k, rest);
                                } else {
                                    assert(g0 == rest + seq![SpecTok::RightBrace]);
                                    assert(g0.last() == SpecTok::RightBrace);
                                }
                            }
                        }
                        return Err(ParserError::UnexpectedEOF);
                    },
                };
                proof {
                    assert(views_of(tokens@) =~= g1.drop_last());
                    assert(g1.last() == token@);
                }
                match token {
                    Token::Colon => {},
                    t => {
                        proof {
                            assert forall|fields: Seq<(Seq<char>, SpecJson)>, rest: Seq<SpecTok>|
                                #[trigger] object_parses(s0, fields, rest) implies false by {
                                if k < fields.len() {
                                    lemma_rfields_step(g0, fields, k, rest);
                                }
                            }
                        }
                        return Err(ParserError::ExpectedTokenMismatch(t, Token::Colon));
                    },
                }
                let ghost g2 = views_of(tokens@);
                let token = match tokens.pop() {
                    Some(t) => t,
                    None => {
                        proof {
                            assert forall|fields: Seq<(Seq<char>, SpecJson)>, rest: Seq<SpecTok>|
                                #[trigger] object_parses(s0, fields, rest) implies false by {
                                if k < fields.len() {
                                    lemma_rfields_step(g0, fields, k, rest);
                                }
                            }
                        }
                        return Err(ParserError::UnexpectedEOF);
                    },
                };
                proof {
                    assert(views_of(tokens@) =~= g2.drop_last());
                    assert(g2.last() == token@);
                }
                let ghost g3 = views_of(tokens@);
                let ghost h3 = token@;
                let value = match parse_json_value(tokens, token) {
                    Ok(v) => v,
                    Err(e) => {
                        proof {
                            assert forall|fields: Seq<(Seq<char>, SpecJson)>, rest: Seq<SpecTok>|
                                #[trigger] object_parses(s0, fields, rest) implies false by {
                                if k < fields.len() {
                                    lemma_rfields_step(g0, fields, k, rest);
                                    assert(value_parses(
                                        g3,
                                        h3,
                                        fields[k].1,
                                        rest + after_field(fields, k),
                                    ));
                                } else {
                                    lemma_rfields_step(g0, fields, k, rest);
                                }
                            }
                        }
                        return Err(e);
                    },
                };
                let ghost val = value;
                let ghost obj_before = obj@;
                obj.push((key, value));
                proof {
                    assert(pair_views(obj@) =~= pair_views(obj_before).push((key@, val@)));
                }
                let ghost g4 = views_of(tokens@);
                let token = match tokens.pop() {
                    Some(t) => t,
                    None => {
                        proof {
                            assert forall|fields: Seq<(Seq<char>, SpecJson)>, rest: Seq<SpecTok>|
                                #[trigger] object_parses(s0, fields, rest) implies false by {
                                object_after_value(s0, g0, g3, h3, g4, k, fields, rest, val);
                                lemma_rfields_len(fields, k + 1);
                                assert(g4.len() >= 1);
                                assert(g4.len() == tokens@.len());
                            }
                        }
                        return Err(ParserError::UnexpectedEOF);
                    },
                };
                proof {
                    assert(views_of(tokens@) =~= g4.drop_last());
                    assert(g4.last() == token@);
                }
                match token {
                    Token::RightBrace => {
                        proof {
                            lemma_view_fields_map(obj, 0);
                            assert(pair_views(obj@).skip(0) =~= pair_views(obj@));
                            assert forall|fields: Seq<(Seq<char>, SpecJson)>, rest: Seq<SpecTok>|
                                #[trigger] object_parses(s0, fields, rest) implies (fields
                                == pair_views(obj@) && views_of(tokens@) == rest) by {
                                object_after_value(s0, g0, g3, h3, g4, k, fields, rest, val);
                                if k + 1 < fields.len() {
                                    assert(false);
                                }
                                assert(g4 == rest.push(SpecTok::RightBrace));
                                assert(g4.drop_last() =~= rest);
                                assert(fields.take(k + 1) =~= fields);
                                assert(fields[k].0 == key@ && fields[k].1 == val@);
                                assert(pair_views(obj@) =~= fields);
                            }
                        }
                        return Ok(JsonAST::JObject(obj));
                    },
                    Token::Comma => {
                        proof {
                            assert forall|fields: Seq<(Seq<char>, SpecJson)>, rest: Seq<SpecTok>|
                                #[trigger] object_parses(s0, fields, rest) implies (obj@.len()
                                <= fields.len() && pair_views(obj@) == fields.take(
                                obj@.len() as int,
                            ) && views_of(tokens@) == rest + rfields(fields, obj@.len() as int))
                                by {
                                object_after_value(s0, g0, g3, h3, g4, k, fields, rest, val);
                                if k + 1 == fields.len() {
                                    assert(false);
                                }
                                assert(g4 == (rest + rfields(fields, k + 1)).push(SpecTok::Comma));
                                assert(g4.drop_last() =~= rest + rfields(fields, k + 1));
                                assert(fields[k].0 == key@ && fields[k].1 == val@);
                                assert(fields.take(k + 1) =~= fields.take(k).push(fields[k]));
                                assert(pair_views(obj@) =~= fields.take(k + 1));
                            }
                        }
                    },
                    _ => {
                        // a separator that is neither comma nor
                        // closing brace is skipped and the scan goes on
                        proof {
                            assert forall|fields: Seq<(Seq<char>, SpecJson)>, rest: Seq<SpecTok>|
                                #[trigger] object_parses(s0, fields, rest) implies false by {
                                object_after_value(s0, g0, g3, h3, g4, k, fields, rest, val);
                                lemma_rfields_len(fields, k + 1);
                                assert(g4.len() >= 1);
                                assert(g4.len() == tokens@.len());
                            }
                        }
                    },
                }
            },
            t => {
                proof {
                    assert forall|fields: Seq<(Seq<char>, SpecJson)>, rest: Seq<SpecTok>|
                        #[trigger] object_parses(s0, fields, rest) implies false by {
                        if k < fields.len() {
                            lemma_rfields_step(g0, fields, k, rest);
                        }
                    }
                }
                return Err(ParserError::ExpectedKey(t));
            },
        }
    }
}

/// The stack after field `k`'s value, as the object relation has it.
proof fn object_after_value(
    s0: Seq<SpecTok>,
    g0: Seq<SpecTok>,
    g3: Seq<SpecTok>,
    h3: SpecTok,
    g4: Seq<SpecTok>,
    k: int,
    fields: Seq<(Seq<char>, SpecJson)>,
    rest: Seq<SpecTok>,
    val: JsonAST,
)
    requires
        object_parses(s0, fields, rest),
        k <= fields.len(),
        g0 == rest + rfields(fields, k),
        g0.len() >= 1,
        g0.last() matches SpecTok::Text(_),
        k < fields.len() ==> g3 == g0.drop_last().drop_last().drop_last() && h3
            == g0.drop_last().drop_last().last() && g0.len() >= 3,
        forall|w: SpecJson, u: Seq<SpecTok>|
            #[trigger] value_parses(g3, h3, w, u) ==> spec_view(val) == w && g4 == u,
    ensures
        k < fields.len(),
        fields[k].1 == spec_view(val),
        g4 == rest + after_field(fields, k),
        k + 1 == fields.len() ==> g4 == rest.push(SpecTok::RightBrace),
        k + 1 < fields.len() ==> g4 == (rest + rfields(fields, k + 1)).push(SpecTok::Comma),
{
    if k == fields.len() {
        assert(g0.last() == SpecTok::RightBrace);
        assert(false);
    }
    lemma_rfields_step(g0, fields, k, rest);
    let u = rest + after_field(fields, k);
    let g2 = g0.drop_last().drop_last();
    assert(g3 == g2.drop_last() && h3 == g2.last());
    assert(value_parses(g3, h3, fields[k].1, u));
}

/// Parse an array body, its opening bracket already consumed. On every
/// input that is a complete array body the result is exactly its
/// items, with exactly its tokens consumed.
pub fn parse_array(tokens: &mut Vec<Token>) -> (r: Result<JsonAST, ParserError>)
    ensures
        final(tokens)@.len() <= old(tokens)@.len(),
        forall|items: Seq<SpecJson>, rest: Seq<SpecTok>|
            #[trigger] array_parses(views_of(old(tokens)@), items, rest) ==> (r matches Ok(
                ast,
            ) && ast@ == SpecJson::Array(items) && views_of(final(tokens)@) == rest),
    decreases tokens@.len(), 0int,
{
    let ghost s0 = views_of(tokens@);
    let mut list: Vec<JsonAST> = Vec::new();
    loop
        invariant
            tokens@.len() <= old(tokens)@.len(),
            s0 == views_of(old(tokens)@),
            forall|items: Seq<SpecJson>, rest: Seq<SpecTok>|
                #[trigger] array_parses(s0, items, rest) ==> list@.len() <= items.len()
                    && item_views(list@) == items.take(list@.len() as int) && views_of(tokens@)
                    == rest + ritems(items, list@.len() as int),
        decreases tokens@.len(),
    {
        let ghost g0 = views_of(tokens@);
        let ghost k = list@.len() as int;
        let token = match tokens.pop() {
            Some(t) => t,
            None => {
                proof {
                    assert forall|items: Seq<SpecJson>, rest: Seq<SpecTok>|
                        #[trigger] array_parses(s0, items, rest) implies false by {
                        lemma_ritems_len(items, k);
                    }
                }
                return Err(ParserError::UnexpectedEOF);
            },
        };
        proof {
            assert(views_of(tokens@) =~= g0.drop_last());
            assert(g0.last() == token@);
        }
        let token = match token {
            Token::RightBracket => {
                proof {
                    lemma_view_items_map(list, 0);
                    assert(item_views(list@).skip(0) =~= item_views(list@));
                    assert forall|items: Seq<SpecJson>, rest: Seq<SpecTok>|
                        #[trigger] array_parses(s0, items, rest) implies (k == items.len() && items
                        == item_views(list@) && views_of(tokens@) == rest) by {
                        if k < items.len() {
                            lemma_ritems_step(g0, items, k, rest);
                            lemma_rtoks_top(items[k]);
                            assert((rest + after_item(items, k) + rtoks(items[k])).last() == rtoks(
                                items[k],
                            ).last());
                            assert(false);
                        }
                        assert(items.take(k) =~= items);
                        assert((rest + seq![SpecTok::RightBracket]).drop_last() =~= rest);
                    }
                }
                return Ok(JsonAST::JArray(list));
            },
            t => t,
        };
        let ghost g1 = views_of(tokens@);
        let ghost h1 = token@;
        let value = match parse_json_value(tokens, token) {
            Ok(v) => v,
            Err(e) => {
                proof {
                    assert forall|items: Seq<SpecJson>, rest: Seq<SpecTok>|
                        #[trigger] array_parses(s0, items, rest) implies false by {
                        if k < items.len() {
                            lemma_ritems_step(g0, items, k, rest);
                            assert(value_parses(g1, h1, items[k], rest + after_item(items, k)));
                        } else {
                            assert(g0.last() == SpecTok::RightBracket);
                        }
                    }
                }
                return Err(e);
            },
        };
        let ghost val = value;
        let ghost g4 = views_of(tokens@);
        let token = match tokens.pop() {
            Some(t) => t,
            None => {
                proof {
                    assert forall|items: Seq<SpecJson>, rest: Seq<SpecTok>|
                        #[trigger] array_parses(s0, items, rest) implies false by {
                        array_after_value(s0, g0, g1, h1, g4, k, items, rest, val);
                        lemma_ritems_len(items, k + 1);
                        assert(g4.len() >= 1);
                        assert(g4.len() == tokens@.len());
                    }
                }
                return Err(ParserError::UnexpectedEOF);
            },
        };
        proof {
            assert(views_of(tokens@) =~= g4.drop_last());
            assert(g4.last() == token@);
        }
        let ghost list_before = list@;
        list.push(value);
        proof {
            assert(item_views(list@) =~= item_views(list_before).push(val@));
        }
        match token {
            Token::RightBracket => {
                proof {
                    lemma_view_items_map(list, 0);
                    assert(item_views(list@).skip(0) =~= item_views(list@));
                    assert forall|items: Seq<SpecJson>, rest: Seq<SpecTok>|
                        #[trigger] array_parses(s0, items, rest) implies (items == item_views(
                        list@,
                    ) && views_of(tokens@) == rest) by {
                        array_after_value(s0, g0, g1, h1, g4, k, items, rest, val);
                        if k + 1 < items.len() {
                            assert(false);
                        }
                        assert(g4 == rest.push(SpecTok::RightBracket));
                        assert(g4.drop_last() =~= rest);
                        assert(items.take(k + 1) =~= items);
                        assert(items[k] == val@);
                        assert(item_views(list@) =~= items);
                    }
                }
                return Ok(JsonAST::JArray(list));
            },
            Token::Comma => {
                proof {
                    assert forall|items: Seq<SpecJson>, rest: Seq<SpecTok>|
                        #[trigger] array_parses(s0, items, rest) implies (list@.len()
                        <= items.len() && item_views(list@) == items.take(list@.len() as int)
                        && views_of(tokens@) == rest + ritems(items, list@.len() as int)) by {
                        array_after_value(s0, g0, g1, h1, g4, k, items, rest, val);
                        if k + 1 == items.len() {
                            assert(false);
                        }
                        assert(g4 == (rest + ritems(items, k + 1)).push(SpecTok::Comma));
                        assert(g4.drop_last() =~= rest + ritems(items, k + 1));
                        assert(items[k] == val@);
                        assert(items.take(k + 1) =~= items.take(k).push(items[k]));
                        assert(item_views(list@) =~= items.take(k + 1));
                    }
                }
            },
            _ => {
                // a separator that is neither comma nor closing
                // bracket is skipped and the scan goes on
                proof {
                    assert forall|items: Seq<SpecJson>, rest: Seq<SpecTok>|
                        #[trigger] array_parses(s0, items, rest) implies false by {
                        array_after_value(s0, g0, g1, h1, g4, k, items, rest, val);
                        lemma_ritems_len(items, k + 1);
                        assert(g4.len() >= 1);
                        assert(g4.len() == tokens@.len());
                    }
                }
            },
        }
    }
}

/// The stack after item `k`'s value, as the array relation has it.
proof fn array_after_value(
    s0: Seq<SpecTok>,
    g0: Seq<SpecTok>,
    g1: Seq<SpecTok>,
    h1: SpecTok,
    g4: Seq<SpecTok>,
    k: int,
    items: Seq<SpecJson>,
    rest: Seq<SpecTok>,
    val: JsonAST,
)
    requires
        array_parses(s0, items, rest),
        k <= items.len(),
        g0 == rest + ritems(items, k),
        g0.len() >= 1,
        !(g0.last() matches SpecTok::RightBracket),
        g1 == g0.drop_last(),
        h1 == g0.last(),
        forall|w: SpecJson, u: Seq<SpecTok>|
            #[trigger] value_parses(g1, h1, w, u) ==> spec_view(val) == w && g4 == u,
    ensures
        k < items.len(),
        items[k] == spec_view(val),
        g4 == rest + after_item(items, k),
        k + 1 == items.len() ==> g4 == rest.push(SpecTok::RightBracket),
        k + 1 < items.len() ==> g4 == (rest + ritems(items, k + 1)).push(SpecTok::Comma),
{
    if k == items.len() {
        assert(g0.last() == SpecTok::RightBracket);
        assert(false);
    }
    lemma_ritems_step(g0, items, k, rest);
    assert(value_parses(g1, h1, items[k], rest + after_item(items, k)));
}

/// A whole document parses from the stack, leaving `rest`: only an
/// object or an array may stand at the top level.
pub open spec fn top_parses(stack: Seq<SpecTok>, v: SpecJson, rest: Seq<SpecTok>) -> bool {
    stack == rest + rtoks(v) && ((v matches SpecJson::Object(_)) || (v matches SpecJson::Array(_)))
}

/// Parse a whole document off the stack: an object or an array;
/// anything else on top is rejected, an empty stack most of all.
pub fn parse_token_list(tokens: &mut Vec<Token>) -> (r: Result<JsonAST, ParserError>)
    ensures
        final(tokens)@.len() <= old(tokens)@.len(),
        old(tokens)@.len() == 0 ==> (r matches Err(e) && e@ == SpecParseErr::UnexpectedEOF),
        old(tokens)@.len() > 0 && !(views_of(old(tokens)@).last() matches SpecTok::LeftBrace) && !(
        views_of(old(tokens)@).last() matches SpecTok::LeftBracket) ==> (r matches Err(e) && e@
            == SpecParseErr::UnexpectedToken(views_of(old(tokens)@).last())),
        forall|v: SpecJson, rest: Seq<SpecTok>|
            #[trigger] top_parses(views_of(old(tokens)@), v, rest) ==> (r matches Ok(ast) && ast@
                == v && views_of(final(tokens)@) == rest),
{
    let ghost s0 = views_of(tokens@);
    let token = match tokens.pop() {
        Some(t) => t,
        None => {
            proof {
                assert forall|v: SpecJson, rest: Seq<SpecTok>|
                    #[trigger] top_parses(s0, v, rest) implies false by {
                    lemma_rtoks_top(v);
                }
            }
            return Err(ParserError::UnexpectedEOF);
        },
    };
    proof {
        assert(views_of(tokens@) =~= s0.drop_last());
        assert(s0.last() == token@);
    }
    match token {
        Token::LeftBrace => {
            let r2 = parse_json_object(tokens);
            proof {
                assert forall|v: SpecJson, rest: Seq<SpecTok>|
                    #[trigger] top_parses(s0, v, rest) implies (r2 matches Ok(ast) && ast@ == v
                    && views_of(final(tokens)@) == rest) by {
                    lemma_rtoks_top(v);
                    assert((rest + rtoks(v)).last() == rtoks(v).last());
                    match v {
                        SpecJson::Object(fields) => {
                            assert(s0.drop_last() =~= rest + rfields(fields, 0));
                            assert(object_parses(s0.drop_last(), fields, rest));
                        },
                        _ => {
                            assert(false);
                        },
                    }
                }
            }
            r2
        },
        Token::LeftBracket => {
            let r2 = parse_array(tokens);
            proof {
                assert forall|v: SpecJson, rest: Seq<SpecTok>|
                    #[trigger] top_parses(s0, v, rest) implies (r2 matches Ok(ast) && ast@ == v
                    && views_of(final(tokens)@) == rest) by {
                    lemma_rtoks_top(v);
                    assert((rest + rtoks(v)).last() == rtoks(v).last());
                    match v {
                        SpecJson::Array(items) => {
                            assert(s0.drop_last() =~= rest + ritems(items, 0));
                            assert(array_parses(s0.drop_last(), items, rest));
                        },
                        _ => {
                            assert(false);
                        },
                    }
                }
            }
            r2
        },
        t => {
            proof {
                assert forall|v: SpecJson, rest: Seq<SpecTok>|
                    #[trigger] top_parses(s0, v, rest) implies false by {
                    lemma_rtoks_top(v);
                    assert((rest + rtoks(v)).last() == rtoks(v).last());
                }
            }
            Err(ParserError::UnexpectedToken(t))
        },
    }
}

/// An input whose tokens spell exactly one top-level document.
pub open spec fn complete_input(tk: Result<Seq<SpecTok>, SpecTokErr>, v: SpecJson) -> bool {
    tk == Ok::<Seq<SpecTok>, SpecTokErr>(rtoks(v).reverse()) && ((v matches SpecJson::Object(_))
        || (v matches SpecJson::Array(_)))
}

/// Parse an input: tokenize it and parse one document that must take
/// the tokens whole. On an input whose tokens spell exactly one
/// object or array, the result is exactly that value; an input that
/// does not tokenize fails with the tokenizer's error; an empty input
/// has no document in it.
pub fn parse(input: &str) -> (r: Result<JsonAST, ParserError>)
    ensures
        crate::lexer::spec_tokenize(input@) matches Err(te) ==> (r matches Err(pe) && pe@
            == SpecParseErr::TokenisingError(te)),
        crate::lexer::spec_tokenize(input@) == Ok::<Seq<SpecTok>, SpecTokErr>(
            Seq::<SpecTok>::empty(),
        ) ==> (r matches Err(pe) && pe@ == SpecParseErr::UnexpectedEOF),
        forall|v: SpecJson|
            #[trigger] complete_input(crate::lexer::spec_tokenize(input@), v) ==> (r matches Ok(
                ast,
            ) && ast@ == v),
{
    let mut ts = match crate::lexer::tokenize(input) {
        Ok(ts) => ts,
        Err(e) => {
            return Err(ParserError::TokenisingError(e));
        },
    };
    let ghost ts0 = ts@;
    let mut tokens: Vec<Token> = Vec::new();
    loop
        invariant
            ts@.len() + tokens@.len() == ts0.len(),
            ts@ == ts0.take(ts@.len() as int),
            forall|j: int|
                0 <= j < tokens@.len() ==> #[trigger] tokens@[j] == ts0[ts0.len() - 1 - j],
        ensures
            ts@.len() == 0,
            tokens@.len() == ts0.len(),
            forall|j: int|
                0 <= j < tokens@.len() ==> #[trigger] tokens@[j] == ts0[ts0.len() - 1 - j],
        decreases ts@.len(),
    {
        match ts.pop() {
            Some(t) => {
                tokens.push(t);
            },
            None => {
                break ;
            },
        }
    }
    let ghost st0 = views_of(tokens@);
    proof {
        assert(st0.len() == ts0.len());
        assert forall|j: int| 0 <= j < ts0.len() implies #[trigger] st0[j] == views_of(
            ts0,
        )[ts0.len() - 1 - j] by {
            assert(tokens@[j] == ts0[ts0.len() - 1 - j]);
        }
    }
    let result = parse_token_list(&mut tokens);
    proof {
        assert forall|v: SpecJson|
            #[trigger] complete_input(crate::lexer::spec_tokenize(input@), v) implies (result
            matches Ok(ast) && ast@ == v && views_of(tokens@) =~= Seq::<SpecTok>::empty()) by {
            assert(views_of(ts0) == rtoks(v).reverse());
            assert(rtoks(v).reverse().len() == rtoks(v).len());
            assert(st0 =~= rtoks(v)) by {
                assert forall|j: int| 0 <= j < rtoks(v).len() implies st0[j] == rtoks(v)[j] by {
                    assert(st0[j] == views_of(ts0)[ts0.len() - 1 - j]);
                    assert(views_of(ts0)[ts0.len() - 1 - j] == rtoks(v).reverse()[ts0.len() - 1
                        - j]);
                    assert(rtoks(v).reverse()[ts0.len() - 1 - j] == rtoks(v)[j]);
                }
            }
            assert(top_parses(st0, v, Seq::<SpecTok>::empty())) by {
                assert(Seq::<SpecTok>::empty() + rtoks(v) =~= rtoks(v));
            }
        }
    }
    if let Some(t) = tokens.pop() {
        proof {
            assert forall|v: SpecJson|
                !complete_input(crate::lexer::spec_tokenize(input@), v) by {
                if complete_input(crate::lexer::spec_tokenize(input@), v) {
                    assert(views_of(tokens@).len() >= 1);
                }
            }
        }
        Err(ParserError::UnexpectedTokenAfterEOF(t))
    } else {
        result
    }
}

/// An atom token parses exactly to its own value, consuming nothing
/// further.
proof fn lemma_atom_case(s0: Seq<SpecTok>, h: SpecTok, v: SpecJson, rest: Seq<SpecTok>)
    requires
        value_parses(s0, h, v, rest),
        h matches SpecTok::Null || h matches SpecTok::True || h matches SpecTok::False || (h
            matches SpecTok::Number(_)) || (h matches SpecTok::Text(_)),
    ensures
        rtoks(v) == seq![h],
        rest == s0,
        match h {
            SpecTok::Null => v == SpecJson::Null,
            SpecTok::True => v == SpecJson::Boolean(true),
            SpecTok::False => v == SpecJson::Boolean(false),
            SpecTok::Number(n) => v == SpecJson::Number(n),
            SpecTok::Text(s) => v == SpecJson::Text(s),
            _ => false,
        },
{
    lemma_rtoks_top(v);
    assert((rest + rtoks(v)).last() == rtoks(v).last());
    assert(rtoks(v).last() == h);
    match v {
        SpecJson::Object(_) => {
            assert(false);
        },
        SpecJson::Array(_) => {
            assert(false);
        },
        _ => {},
    }
    assert(rtoks(v) =~= seq![h]);
    assert(s0.push(h).drop_last() =~= s0);
    assert((rest + rtoks(v)).drop_last() =~= rest);
}

} // verus!
