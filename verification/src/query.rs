//! Retrieval-augmented query composition and answer extraction. The
//! request carries a fixed system instruction and one user message that
//! embeds the retrieved context and the question. The completion
//! endpoint's reply is read at `choices[0].message.content`; a reply that
//! parses but lacks that path degrades to the empty string, while a body
//! that is not JSON at all is a parse error.

use vstd::prelude::*;

use crate::node::GaiaError;
use crate::text::str_eq;

verus! {

#[verifier::external_type_specification]
#[verifier::external_body]
pub struct ExJsonValue(serde_json::Value);

/// The JSON shape the answer extraction reads: strings, arrays and
/// objects; numbers, booleans and null all read the same way here and
/// fold into `Other`.
pub enum JsonNode {
    Str(String),
    Arr(Vec<JsonNode>),
    Obj(Vec<(String, JsonNode)>),
    Other,
}

/// The tree a JSON text parses to, or nothing when the text is not JSON.
/// Parsing depends on the text alone.
pub uninterp spec fn json_tree_of(s: Seq<char>) -> Option<JsonNode>;

/// Relies on `serde_json::from_str::<serde_json::Value>`: parses the text
/// into a JSON value, or reports why it is not JSON; the outcome is a
/// function of the text alone.
#[verifier::external_body]
fn parse_json(s: &str) -> (r: Result<JsonNode, String>)
    ensures
        r matches Ok(n) ==> json_tree_of(s@) == Some(n),
        r matches Err(_) ==> json_tree_of(s@) is None,
{
    match serde_json::from_str::<serde_json::Value>(s) {
        Ok(v) => Ok(node_of_value(&v)),
        Err(e) => Err(e.to_string()),
    }
}

/// Relies on `serde_json::Value`'s variant structure: folds a parsed
/// value into the shape the extraction reads, one arm per variant.
#[verifier::external_body]
fn node_of_value(v: &serde_json::Value) -> JsonNode {
    match v {
        serde_json::Value::String(s) => JsonNode::Str(s.clone()),
        serde_json::Value::Array(a) => JsonNode::Arr(a.iter().map(node_of_value).collect()),
        serde_json::Value::Object(m) => JsonNode::Obj(
            m.iter().map(|(k, x)| (k.clone(), node_of_value(x))).collect(),
        ),
        _ => JsonNode::Other,
    }
}

/// The value under `key`, by first match, when the fields are an object's.
pub open spec fn obj_lookup(fields: Seq<(String, JsonNode)>, key: Seq<char>) -> Option<JsonNode>
    decreases fields.len(),
{
    if fields.len() == 0 {
        Option::None
    } else if fields[0].0@ == key {
        Option::Some(fields[0].1)
    } else {
        obj_lookup(fields.drop_first(), key)
    }
}

/// The member of an object under `key`; anything else has no members.
pub open spec fn spec_get_key(n: JsonNode, key: Seq<char>) -> Option<JsonNode> {
    match n {
        JsonNode::Obj(fields) => obj_lookup(fields@, key),
        _ => Option::None,
    }
}

/// The element of an array at `i`; anything else has no elements.
pub open spec fn spec_get_index(n: JsonNode, i: int) -> Option<JsonNode> {
    match n {
        JsonNode::Arr(items) => if 0 <= i < items@.len() {
            Option::Some(items@[i])
        } else {
            Option::None
        },
        _ => Option::None,
    }
}

/// The characters of a string node; anything else is no string.
pub open spec fn spec_as_str(n: JsonNode) -> Option<Seq<char>> {
    match n {
        JsonNode::Str(s) => Option::Some(s@),
        _ => Option::None,
    }
}

/// The answer text a completion reply carries: the string at
/// `choices[0].message.content`, or empty when any step of that path is
/// missing or not of the expected shape.
pub open spec fn answer_of(n: JsonNode) -> Seq<char> {
    match spec_get_key(n, "choices"@) {
        Option::Some(choices) => match spec_get_index(choices, 0) {
            Option::Some(first) => match spec_get_key(first, "message"@) {
                Option::Some(message) => match spec_get_key(message, "content"@) {
                    Option::Some(content) => match spec_as_str(content) {
                        Option::Some(s) => s,
                        Option::None => Seq::empty(),
                    },
                    Option::None => Seq::empty(),
                },
                Option::None => Seq::empty(),
            },
            Option::None => Seq::empty(),
        },
        Option::None => Seq::empty(),
    }
}

/// Looks a key up in a node, as object member access.
#[verifier::loop_isolation(false)]
fn get_key<'a>(n: &'a JsonNode, key: &str) -> (r: Option<&'a JsonNode>)
    ensures
        match r {
            Option::Some(x) => spec_get_key(*n, key@) == Option::Some(*x),
            Option::None => spec_get_key(*n, key@) is None,
        },
{
    match n {
        JsonNode::Obj(fields) => {
            let ghost full = fields@;
            let mut i: usize = 0;
            proof {
                assert(full.skip(0) =~= full);
            }
            while i < fields.len()
                invariant
                    full == fields@,
                    0 <= i <= full.len(),
                    obj_lookup(full, key@) == obj_lookup(full.skip(i as int), key@),
                decreases full.len() - i,
            {
                proof {
                    assert(full.skip(i as int)[0] == full[i as int]);
                    assert(full.skip(i as int).drop_first() =~= full.skip(i + 1));
                }
                let field: &(String, JsonNode) = &fields[i];
                if str_eq(field.0.as_str(), key) {
                    assert(obj_lookup(full.skip(i as int), key@) == Option::Some(full[i as int].1));
                    return Some(&field.1);
                }
                i = i + 1;
            }
            assert(full.skip(full.len() as int) =~= Seq::<(String, JsonNode)>::empty());
            None
        },
        _ => None,
    }
}

/// Indexes into a node, as array element access.
fn get_index<'a>(n: &'a JsonNode, i: usize) -> (r: Option<&'a JsonNode>)
    ensures
        match r {
            Option::Some(x) => spec_get_index(*n, i as int) == Option::Some(*x),
            Option::None => spec_get_index(*n, i as int) is None,
        },
{
    match n {
        JsonNode::Arr(items) => if i < items.len() {
            Some(&items[i])
        } else {
            None
        },
        _ => None,
    }
}

/// Reads the answer text out of a parsed completion reply; a reply
/// without the expected path yields the empty string rather than an
/// error.
pub fn extract_answer(completion: &JsonNode) -> (r: String)
    ensures
        r@ == answer_of(*completion),
{
    let choices = match get_key(completion, "choices") {
        Some(c) => c,
        None => {
            return String::new();
        },
    };
    let first = match get_index(choices, 0) {
        Some(c) => c,
        None => {
            return String::new();
        },
    };
    let message = match get_key(first, "message") {
        Some(m) => m,
        None => {
            return String::new();
        },
    };
    let content = match get_key(message, "content") {
        Some(c) => c,
        None => {
            return String::new();
        },
    };
    match content {
        JsonNode::Str(s) => s.clone(),
        _ => String::new(),
    }
}

/// Decodes a completion endpoint's response body: a body that is not
/// JSON is a parse error; a JSON body yields the answer text, possibly
/// empty when the reply is of an unexpected shape.
pub fn decode_answer(body: &str) -> (r: Result<String, GaiaError>)
    ensures
        json_tree_of(body@) matches Some(n) ==> (r matches Ok(s) && s@ == answer_of(n)),
        json_tree_of(body@) is None ==> (r matches Err(e) && e matches GaiaError::ParseError(_)),
{
    match parse_json(body) {
        Ok(node) => Ok(extract_answer(&node)),
        Err(m) => Err(GaiaError::ParseError(m)),
    }
}

/// The fixed system instruction of every retrieval-augmented request.
pub fn system_instruction() -> (r: String)
    ensures
        r@ == "You are a helpful assistant. Use the provided context to answer questions."@,
{
    String::from_str("You are a helpful assistant. Use the provided context to answer questions.")
}

/// The user message: the retrieved context, then the question.
pub fn build_user_message(context: &str, user_query: &str) -> (r: String)
    ensures
        r@ == "Context: "@ + context@ + "\n\nQuestion: "@ + user_query@,
{
    let mut s = String::from_str("Context: ");
    s.append(context);
    s.append("\n\nQuestion: ");
    s.append(user_query);
    s
}

/// One message of a chat request.
pub struct RagMessage {
    pub role: String,
    pub content: String,
}

/// The two messages of a retrieval-augmented request: the fixed system
/// instruction, then the user message embedding context and question.
pub fn build_chat_messages(user_query: &str, context: &str) -> (msgs: Vec<RagMessage>)
    ensures
        msgs@.len() == 2,
        msgs@[0].role@ == "system"@,
        msgs@[0].content@
            == "You are a helpful assistant. Use the provided context to answer questions."@,
        msgs@[1].role@ == "user"@,
        msgs@[1].content@ == "Context: "@ + context@ + "\n\nQuestion: "@ + user_query@,
{
    let mut msgs: Vec<RagMessage> = Vec::new();
    msgs.push(RagMessage { role: String::from_str("system"), content: system_instruction() });
    msgs.push(
        RagMessage {
            role: String::from_str("user"),
            content: build_user_message(context, user_query),
        },
    );
    msgs
}

} // verus!
