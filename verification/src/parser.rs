//! The recursive-descent parser: a single forward cursor over the token
//! sequence with one token of lookahead, building the value tree bottom-up
//! or failing on the first structurally invalid token.
//!
//! The first token must open an object or an array; a bare scalar at the
//! root is rejected.  Tokens past the root document are ignored.

use vstd::pervasive::VecAdditionalExecFns;
use vstd::prelude::*;

use crate::tokenizer::{token_models, Token, TokenModel};
use crate::types::{
    doc_model, doc_wf, entries_model, lemma_obj_insert_entry_source, lemma_obj_insert_unique,
    obj_insert, unique_keys, value_model, value_wf, values_model, DocModel, ErrorKind,
    JsonDocument, JsonValue, Number, ValueModel,
};

verus! {

/// Parsing one value whose first token stands at `i`: the value and the
/// position just past it, or the first error.  An opening brace or bracket
/// recurses into a nested document; the scalar tokens map directly; any
/// other token, or running out of tokens, is unexpected.
pub open spec fn spec_parse_value(ts: Seq<TokenModel>, i: int) -> Result<
    (ValueModel, int),
    ErrorKind,
>
    decreases ts.len() - i, 0int,
{
    if i < 0 || i >= ts.len() {
        Err(ErrorKind::UnexpectedToken)
    } else {
        match ts[i] {
            TokenModel::LeftBrace => match spec_parse_object(ts, i + 1, Seq::empty()) {
                Ok((d, j)) => Ok((ValueModel::Doc(d), j)),
                Err(e) => Err(e),
            },
            TokenModel::LeftBracket => match spec_parse_array(ts, i + 1, Seq::empty()) {
                Ok((d, j)) => Ok((ValueModel::Doc(d), j)),
                Err(e) => Err(e),
            },
            TokenModel::Null => Ok((ValueModel::Null, i + 1)),
            TokenModel::Num(n) => Ok((ValueModel::Num(n), i + 1)),
            TokenModel::Str(s) => Ok((ValueModel::Str(s), i + 1)),
            TokenModel::Bool(b) => Ok((ValueModel::Bool(b), i + 1)),
            _ => Err(ErrorKind::UnexpectedToken),
        }
    }
}

/// Parsing the entries of an object from `i` (just after the opening brace
/// or a comma), with `acc` the entries gathered so far: the object and the
/// position just past its closing brace, or the first error.  Each entry is
/// a string key, a colon and a value; a duplicate key overwrites the earlier
/// entry in place.
pub open spec fn spec_parse_object(
    ts: Seq<TokenModel>,
    i: int,
    acc: Seq<(Seq<char>, ValueModel)>,
) -> Result<(DocModel, int), ErrorKind>
    decreases ts.len() - i, 1int,
{
    if i < 0 || i >= ts.len() {
        Err(ErrorKind::UnexpectedToken)
    } else {
        match ts[i] {
            TokenModel::RightBrace => Ok((DocModel::Obj(acc), i + 1)),
            TokenModel::Str(key) => {
                if i + 1 >= ts.len() || ts[i + 1] != TokenModel::Colon {
                    Err(ErrorKind::UnexpectedToken)
                } else {
                    match spec_parse_value(ts, i + 2) {
                        Ok((v, j)) => {
                            let entries = obj_insert(acc, key, v);
                            if j <= i + 2 || j >= ts.len() {
                                // a parsed value consumes tokens, so only
                                // running out of tokens is reachable here
                                Err(ErrorKind::UnexpectedToken)
                            } else if ts[j] == TokenModel::Comma {
                                spec_parse_object(ts, j + 1, entries)
                            } else if ts[j] == TokenModel::RightBrace {
                                Ok((DocModel::Obj(entries), j + 1))
                            } else {
                                Err(ErrorKind::UnexpectedToken)
                            }
                        },
                        Err(e) => Err(e),
                    }
                }
            },
            _ => Err(ErrorKind::UnexpectedToken),
        }
    }
}

/// Parsing the elements of an array from `i` (just after the opening bracket
/// or a comma), with `acc` the elements gathered so far: the array and the
/// position just past its closing bracket, or the first error.
pub open spec fn spec_parse_array(ts: Seq<TokenModel>, i: int, acc: Seq<ValueModel>) -> Result<
    (DocModel, int),
    ErrorKind,
>
    decreases ts.len() - i, 1int,
{
    if i < 0 || i >= ts.len() {
        Err(ErrorKind::UnexpectedEndOfArray)
    } else if ts[i] == TokenModel::RightBracket {
        Ok((DocModel::Arr(acc), i + 1))
    } else {
        match spec_parse_value(ts, i) {
            Ok((v, j)) => {
                let items = acc.push(v);
                if j <= i || j >= ts.len() {
                    // a parsed value consumes tokens, so only running out of
                    // tokens is reachable here
                    Err(ErrorKind::UnexpectedToken)
                } else if ts[j] == TokenModel::Comma {
                    spec_parse_array(ts, j + 1, items)
                } else if ts[j] == TokenModel::RightBracket {
                    Ok((DocModel::Arr(items), j + 1))
                } else {
                    Err(ErrorKind::UnexpectedToken)
                }
            },
            Err(e) => Err(e),
        }
    }
}

/// Parsing a whole token sequence: the root document, or the first error.
/// The first token must be an opening brace or bracket; tokens past the root
/// document are ignored.
pub open spec fn spec_parse_tokens(ts: Seq<TokenModel>) -> Result<DocModel, ErrorKind> {
    if ts.len() == 0 {
        Err(ErrorKind::InvalidJson)
    } else if ts[0] == TokenModel::LeftBrace {
        match spec_parse_object(ts, 1, Seq::empty()) {
            Ok((d, _)) => Ok(d),
            Err(e) => Err(e),
        }
    } else if ts[0] == TokenModel::LeftBracket {
        match spec_parse_array(ts, 1, Seq::empty()) {
            Ok((d, _)) => Ok(d),
            Err(e) => Err(e),
        }
    } else {
        Err(ErrorKind::InvalidJson)
    }
}

/// Every value a parse produces is well formed: each object anywhere inside
/// it has unique keys.
pub proof fn lemma_parse_value_wf(ts: Seq<TokenModel>, i: int)
    ensures
        spec_parse_value(ts, i) matches Ok((v, j)) ==> value_wf(v),
    decreases ts.len() - i, 0int,
{
    if 0 <= i < ts.len() {
        match ts[i] {
            TokenModel::LeftBrace => {
                lemma_parse_object_wf(ts, i + 1, Seq::empty());
            },
            TokenModel::LeftBracket => {
                lemma_parse_array_wf(ts, i + 1, Seq::empty());
            },
            _ => {},
        }
    }
}

/// Every object a parse produces from well-formed gathered entries is well
/// formed: inserting keeps keys unique and entries well formed.
pub proof fn lemma_parse_object_wf(
    ts: Seq<TokenModel>,
    i: int,
    acc: Seq<(Seq<char>, ValueModel)>,
)
    requires
        unique_keys(acc),
        forall|k: int| 0 <= k < acc.len() ==> value_wf(#[trigger] acc[k].1),
    ensures
        spec_parse_object(ts, i, acc) matches Ok((d, j)) ==> doc_wf(d),
    decreases ts.len() - i, 1int,
{
    if 0 <= i < ts.len() {
        match ts[i] {
            TokenModel::Str(key) => {
                if i + 1 < ts.len() && ts[i + 1] == TokenModel::Colon {
                    lemma_parse_value_wf(ts, i + 2);
                    match spec_parse_value(ts, i + 2) {
                        Ok((v, j)) => {
                            let entries = obj_insert(acc, key, v);
                            lemma_obj_insert_unique(acc, key, v);
                            assert forall|k: int|
                                0 <= k < entries.len() implies value_wf(
                                #[trigger] entries[k].1,
                            ) by {
                                lemma_obj_insert_entry_source(acc, key, v, k);
                                if entries[k] != (key, v) {
                                    let m = choose|m: int|
                                        0 <= m < acc.len() && acc[m] == entries[k];
                                    assert(value_wf(acc[m].1));
                                }
                            }
                            if i + 2 < j < ts.len() && ts[j] == TokenModel::Comma {
                                lemma_parse_object_wf(ts, j + 1, entries);
                            }
                        },
                        Err(_) => {},
                    }
                }
            },
            _ => {},
        }
    }
}

/// Every array a parse produces from well-formed gathered elements is well
/// formed.
pub proof fn lemma_parse_array_wf(ts: Seq<TokenModel>, i: int, acc: Seq<ValueModel>)
    requires
        forall|k: int| 0 <= k < acc.len() ==> value_wf(#[trigger] acc[k]),
    ensures
        spec_parse_array(ts, i, acc) matches Ok((d, j)) ==> doc_wf(d),
    decreases ts.len() - i, 1int,
{
    if 0 <= i < ts.len() && ts[i] != TokenModel::RightBracket {
        lemma_parse_value_wf(ts, i);
        match spec_parse_value(ts, i) {
            Ok((v, j)) => {
                let items = acc.push(v);
                assert forall|k: int| 0 <= k < items.len() implies value_wf(
                    #[trigger] items[k],
                ) by {
                    if k < acc.len() {
                        assert(value_wf(acc[k]));
                    }
                }
                if i < j < ts.len() && ts[j] == TokenModel::Comma {
                    lemma_parse_array_wf(ts, j + 1, items);
                }
            },
            Err(_) => {},
        }
    }
}

/// A parsed root document is well formed.
pub proof fn lemma_parse_tokens_wf(ts: Seq<TokenModel>)
    ensures
        spec_parse_tokens(ts) matches Ok(m) ==> doc_wf(m),
{
    if ts.len() > 0 {
        if ts[0] == TokenModel::LeftBrace {
            lemma_parse_object_wf(ts, 1, Seq::empty());
        } else if ts[0] == TokenModel::LeftBracket {
            lemma_parse_array_wf(ts, 1, Seq::empty());
        }
    }
}

/// An owned copy of a number token's payload.
fn clone_number(n: &Number) -> (r: Number)
    ensures
        r@ == n@,
{
    match n {
        Number::Float(s) => Number::Float(s.clone()),
        Number::Int(i) => Number::Int(*i),
    }
}

/// The first entry with the given key is overwritten in place; a fresh key
/// is appended at the end.
proof fn lemma_obj_insert_hit(
    es: Seq<(Seq<char>, ValueModel)>,
    key: Seq<char>,
    v: ValueModel,
    k: int,
)
    requires
        0 <= k < es.len(),
        es[k].0 == key,
        forall|j: int| 0 <= j < k ==> es[j].0 != key,
    ensures
        obj_insert(es, key, v) == es.update(k, (key, v)),
    decreases k,
{
    if k == 0 {
        assert(obj_insert(es, key, v) =~= es.update(0, (key, v)));
    } else {
        lemma_obj_insert_hit(es.skip(1), key, v, k - 1);
        assert(obj_insert(es, key, v) =~= es.update(k, (key, v)));
    }
}

/// A key that matches no entry is appended at the end.
proof fn lemma_obj_insert_miss(es: Seq<(Seq<char>, ValueModel)>, key: Seq<char>, v: ValueModel)
    requires
        forall|j: int| 0 <= j < es.len() ==> es[j].0 != key,
    ensures
        obj_insert(es, key, v) == es.push((key, v)),
    decreases es.len(),
{
    if es.len() == 0 {
        assert(obj_insert(es, key, v) =~= es.push((key, v)));
    } else {
        lemma_obj_insert_miss(es.skip(1), key, v);
        assert(obj_insert(es, key, v) =~= es.push((key, v)));
    }
}

/// Inserts a key/value pair as an object insert does: overwriting the entry
/// with the same key in place, or appending a fresh key at the end.
fn object_insert(entries: &mut Vec<(String, JsonValue)>, key: String, value: JsonValue)
    ensures
        entries_model(final(entries)@) == obj_insert(
            entries_model(old(entries)@),
            key@,
            value_model(value),
        ),
{
    let ghost es0 = entries_model(entries@);
    let n = entries.len();
    let mut k: usize = 0;
    while k < n
        invariant
            entries@ == old(entries)@,
            es0 == entries_model(entries@),
            n == entries@.len(),
            0 <= k <= n,
            forall|j: int| 0 <= j < k ==> entries@[j].0@ != key@,
        decreases n - k,
    {
        if entries[k].0 == key {
            let ghost kk = k as int;
            entries.set(k, (key, value));
            proof {
                assert(entries_model(entries@) =~= es0.update(
                    kk,
                    (key@, value_model(value)),
                ));
                lemma_obj_insert_hit(es0, key@, value_model(value), kk);
            }
            return ;
        }
        k += 1;
    }
    entries.push((key, value));
    proof {
        assert(entries_model(entries@) =~= es0.push((key@, value_model(value))));
        lemma_obj_insert_miss(es0, key@, value_model(value));
    }
}

/// The parser: a forward cursor over the token sequence.
#[derive(Debug)]
pub struct Parser {
    pub tokens: Vec<Token>,
}

impl Parser {
    /// Parses the whole token sequence into the root document, or reports
    /// the first grammar violation.
    pub fn parse_tokens(&self) -> (r: Result<JsonDocument, ErrorKind>)
        ensures
            match (r, spec_parse_tokens(token_models(self.tokens@))) {
                (Ok(d), Ok(m)) => doc_model(d) == m,
                (Err(e1), Err(e2)) => e1 == e2,
                _ => false,
            },
    {
        if self.tokens.len() == 0 {
            return Err(ErrorKind::InvalidJson);
        }
        let mut pos: usize = 1;
        match &self.tokens[0] {
            Token::LeftBrace => self.parse_object(&mut pos),
            Token::LeftBracket => self.parse_array(&mut pos),
            _ => Err(ErrorKind::InvalidJson),
        }
    }

    /// Parses one value whose first token stands at `pos`.
    fn parse_value(&self, pos: &mut usize) -> (r: Result<JsonValue, ErrorKind>)
        requires
            *old(pos) <= self.tokens@.len(),
        ensures
            *old(pos) <= *final(pos) <= self.tokens@.len(),
            r is Ok ==> *old(pos) < *final(pos),
            match (r, spec_parse_value(token_models(self.tokens@), *old(pos) as int)) {
                (Ok(v), Ok((m, j))) => value_model(v) == m && *final(pos) == j,
                (Err(e1), Err(e2)) => e1 == e2,
                _ => false,
            },
        decreases self.tokens@.len() - *old(pos), 0int,
    {
        let n = self.tokens.len();
        if *pos >= n {
            return Err(ErrorKind::UnexpectedToken);
        }
        let idx = *pos;
        *pos += 1;
        match &self.tokens[idx] {
            Token::LeftBrace => match self.parse_object(pos) {
                Ok(d) => Ok(JsonValue::Document(Box::new(d))),
                Err(e) => Err(e),
            },
            Token::LeftBracket => match self.parse_array(pos) {
                Ok(d) => Ok(JsonValue::Document(Box::new(d))),
                Err(e) => Err(e),
            },
            Token::Null => Ok(JsonValue::Null),
            Token::Number(num) => Ok(JsonValue::Number(clone_number(num))),
            Token::String(st) => Ok(JsonValue::String(st.clone())),
            Token::Boolean(b) => Ok(JsonValue::Boolean(*b)),
            _ => Err(ErrorKind::UnexpectedToken),
        }
    }

    /// Parses the entries of an object, `pos` standing just after the
    /// opening brace.
    fn parse_object(&self, pos: &mut usize) -> (r: Result<JsonDocument, ErrorKind>)
        requires
            *old(pos) <= self.tokens@.len(),
        ensures
            *old(pos) <= *final(pos) <= self.tokens@.len(),
            match (r, spec_parse_object(
                token_models(self.tokens@),
                *old(pos) as int,
                Seq::empty(),
            )) {
                (Ok(d), Ok((m, j))) => doc_model(d) == m && *final(pos) == j,
                (Err(e1), Err(e2)) => e1 == e2,
                _ => false,
            },
        decreases self.tokens@.len() - *old(pos), 1int,
    {
        let ghost ts = token_models(self.tokens@);
        let ghost i0 = *old(pos) as int;
        let n = self.tokens.len();
        let mut entries: Vec<(String, JsonValue)> = Vec::new();
        proof {
            assert(entries_model(entries@) =~= Seq::<(Seq<char>, ValueModel)>::empty());
        }
        loop
            invariant
                ts == token_models(self.tokens@),
                n == self.tokens@.len(),
                i0 == *old(pos),
                i0 <= *pos <= n,
                spec_parse_object(ts, i0, Seq::empty()) == spec_parse_object(
                    ts,
                    *pos as int,
                    entries_model(entries@),
                ),
            decreases n - *pos,
        {
            if *pos >= n {
                return Err(ErrorKind::UnexpectedToken);
            }
            let idx = *pos;
            *pos += 1;
            match &self.tokens[idx] {
                Token::RightBrace => {
                    return Ok(JsonDocument::Object(entries));
                },
                Token::String(key_ref) => {
                    let key = key_ref.clone();
                    if *pos >= n {
                        return Err(ErrorKind::UnexpectedToken);
                    }
                    let is_colon = match &self.tokens[*pos] {
                        Token::Colon => true,
                        _ => false,
                    };
                    if !is_colon {
                        return Err(ErrorKind::UnexpectedToken);
                    }
                    *pos += 1;
                    match self.parse_value(pos) {
                        Ok(value) => {
                            object_insert(&mut entries, key, value);
                            if *pos >= n {
                                return Err(ErrorKind::UnexpectedToken);
                            }
                            let idx2 = *pos;
                            *pos += 1;
                            match &self.tokens[idx2] {
                                Token::Comma => {
                                    continue;
                                },
                                Token::RightBrace => {
                                    return Ok(JsonDocument::Object(entries));
                                },
                                _ => {
                                    return Err(ErrorKind::UnexpectedToken);
                                },
                            }
                        },
                        Err(e) => {
                            return Err(e);
                        },
                    }
                },
                _ => {
                    return Err(ErrorKind::UnexpectedToken);
                },
            }
        }
    }

    /// Parses the elements of an array, `pos` standing just after the
    /// opening bracket.
    fn parse_array(&self, pos: &mut usize) -> (r: Result<JsonDocument, ErrorKind>)
        requires
            *old(pos) <= self.tokens@.len(),
        ensures
            *old(pos) <= *final(pos) <= self.tokens@.len(),
            match (r, spec_parse_array(
                token_models(self.tokens@),
                *old(pos) as int,
                Seq::empty(),
            )) {
                (Ok(d), Ok((m, j))) => doc_model(d) == m && *final(pos) == j,
                (Err(e1), Err(e2)) => e1 == e2,
                _ => false,
            },
        decreases self.tokens@.len() - *old(pos), 1int,
    {
        let ghost ts = token_models(self.tokens@);
        let ghost i0 = *old(pos) as int;
        let n = self.tokens.len();
        let mut items: Vec<JsonValue> = Vec::new();
        proof {
            assert(values_model(items@) =~= Seq::<ValueModel>::empty());
        }
        loop
            invariant
                ts == token_models(self.tokens@),
                n == self.tokens@.len(),
                i0 == *old(pos),
                i0 <= *pos <= n,
                spec_parse_array(ts, i0, Seq::empty()) == spec_parse_array(
                    ts,
                    *pos as int,
                    values_model(items@),
                ),
            decreases n - *pos,
        {
            if *pos >= n {
                return Err(ErrorKind::UnexpectedEndOfArray);
            }
            let is_close = match &self.tokens[*pos] {
                Token::RightBracket => true,
                _ => false,
            };
            if is_close {
                *pos += 1;
                return Ok(JsonDocument::Array(items));
            }
            match self.parse_value(pos) {
                Ok(value) => {
                    let ghost items0 = values_model(items@);
                    let ghost vm = value_model(value);
                    items.push(value);
                    proof {
                        assert(values_model(items@) =~= items0.push(vm));
                    }
                    if *pos >= n {
                        return Err(ErrorKind::UnexpectedToken);
                    }
                    let idx2 = *pos;
                    *pos += 1;
                    match &self.tokens[idx2] {
                        Token::Comma => {
                            continue;
                        },
                        Token::RightBracket => {
                            return Ok(JsonDocument::Array(items));
                        },
                        _ => {
                            return Err(ErrorKind::UnexpectedToken);
                        },
                    }
                },
                Err(e) => {
                    return Err(e);
                },
            }
        }
    }
}

} // verus!
