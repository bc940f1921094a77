//! The answer to clients that probe a server before they initialise it.
//!
//! Some clients of the Model Context Protocol send the request `server/discover` first, which is
//! not part of the protocol. It is answered with an error and kept from the server, which would
//! otherwise end the connection. Everything else passes through.

use vstd::prelude::*;

use crate::json::{json_bytes, json_document, parse_bytes, to_bytes};
use crate::number::{json_int, Num};
use crate::text::same;
use crate::value::{find_member, lemma_last_member, push_member, take_member, Json, JsonTree};

verus! {

/// The request that such clients send.
pub const PROBE_METHOD: &'static str = "server/discover";

/// A request to the method `server/discover`: an object with that method and an id.
pub open spec fn is_probe(msg: JsonTree) -> bool {
    &&& msg is Object
    &&& msg->Object_0.dom().contains("method"@)
    &&& msg->Object_0["method"@] == JsonTree::Str(PROBE_METHOD@)
    &&& msg->Object_0.dom().contains("id"@)
}

/// The answer to the request with the id `id`: that there is no such method.
pub open spec fn not_found(id: JsonTree) -> JsonTree {
    JsonTree::Object(
        map![
            "jsonrpc"@ => JsonTree::Str("2.0"@),
            "id"@ => id,
            "error"@ => JsonTree::Object(map![
                "code"@ => JsonTree::Number(Num::Int(-32601)),
                "message"@ => JsonTree::Str("Method not found"@),
            ]),
        ],
    )
}

/// The answer to a message, if it is a probe.
pub open spec fn probe_spec(msg: JsonTree) -> Option<JsonTree> {
    if is_probe(msg) {
        Some(not_found(msg->Object_0["id"@]))
    } else {
        None
    }
}

/// The line that answers the line `line`, if that is a probe.
pub open spec fn intercept_spec(line: Seq<u8>) -> Option<Seq<u8>> {
    match json_document(line) {
        Some(msg) => match probe_spec(msg) {
            Some(reply) => Some(json_bytes(reply).push(10u8)),
            None => None,
        },
        None => None,
    }
}

/// The answer to a message, if it is a probe.
pub fn probe_reply(msg: Json) -> (r: Option<Json>)
    ensures
        match r {
            Some(reply) => probe_spec(msg@) == Some(reply@),
            None => probe_spec(msg@) is None,
        },
{
    let members = match msg {
        Json::Object(members) => members,
        _ => {
            return None;
        },
    };
    proof {
        lemma_last_member(members@, "method"@);
        lemma_last_member(members@, "id"@);
    }
    match find_member(&members, "method") {
        Some(Json::String(method)) => if !same(method.as_str(), PROBE_METHOD) {
            return None;
        },
        _ => {
            return None;
        },
    }
    let id = match take_member(members, "id") {
        Some(id) => id,
        None => {
            return None;
        },
    };
    let mut error: Vec<(String, Json)> = Vec::new();
    push_member(&mut error, "code", Json::Number(json_int(-32601)));
    push_member(&mut error, "message", Json::String("Method not found".to_owned()));
    let mut reply: Vec<(String, Json)> = Vec::new();
    push_member(&mut reply, "jsonrpc", Json::String("2.0".to_owned()));
    push_member(&mut reply, "id", id);
    push_member(&mut reply, "error", Json::Object(error));
    Some(Json::Object(reply))
}

/// The line that answers the line `line` if that is a probe, which then must not reach the
/// server. `None` for any other line, which must. The answer ends in its only line feed.
pub fn intercept_probe(line: &[u8]) -> (r: Option<Vec<u8>>)
    ensures
        match r {
            Some(reply) => {
                &&& intercept_spec(line@) == Some(reply@)
                &&& forall|i: int|
                    0 <= i < reply@.len() ==> (#[trigger] reply@[i] == 10u8 <==> i
                        == reply@.len() - 1)
            },
            None => intercept_spec(line@) is None,
        },
{
    let msg = match parse_bytes(line) {
        Some(msg) => msg,
        None => {
            return None;
        },
    };
    match probe_reply(msg) {
        Some(reply) => {
            let mut bytes = to_bytes(reply);
            bytes.push(10);
            Some(bytes)
        },
        None => None,
    }
}

/// A message with another method than that of a probe, such as `initialize`, is never answered
/// here.
pub proof fn other_methods_pass(msg: JsonTree, method: Seq<char>)
    requires
        msg is Object,
        msg->Object_0["method"@] == JsonTree::Str(method),
        method != PROBE_METHOD@,
    ensures
        probe_spec(msg) is None,
{
}

/// What asks for no answer, a message without an id, gets none.
pub proof fn notifications_pass(msg: JsonTree)
    requires
        msg is Object,
        !msg->Object_0.dom().contains("id"@),
    ensures
        probe_spec(msg) is None,
{
}

/// The answer to a probe has the id of the probe, and says that there is no such method.
pub proof fn probe_gets_its_id_back(msg: JsonTree)
    requires
        is_probe(msg),
    ensures
        probe_spec(msg) is Some,
        probe_spec(msg)->0 is Object,
        probe_spec(msg)->0->Object_0["id"@] == msg->Object_0["id"@],
        probe_spec(msg)->0->Object_0["jsonrpc"@] == JsonTree::Str("2.0"@),
        probe_spec(msg)->0->Object_0["error"@] is Object,
        probe_spec(msg)->0->Object_0["error"@]->Object_0["code"@] == JsonTree::Number(Num::Int(-32601)),
{
    reveal_strlit("jsonrpc");
    reveal_strlit("id");
    reveal_strlit("error");
    reveal_strlit("code");
    reveal_strlit("message");
    assert("jsonrpc"@.len() == 7);
    assert("id"@.len() == 2);
    assert("error"@.len() == 5);
    assert("code"@.len() == 4);
    assert("message"@.len() == 7);
}

/// A line is answered exactly if it writes a JSON object with an id whose method is
/// `server/discover`. The answer is one line with the version of the protocol, that id and the error
/// that there is no such method, and with nothing else.
pub proof fn only_probes_are_answered(line: Seq<u8>, name: Seq<char>)
    ensures
        intercept_spec(line) is Some <==> (json_document(line) matches Some(JsonTree::Object(m))
            && m.dom().contains("id"@) && m.dom().contains("method"@) && m["method"@]
            == JsonTree::Str("server/discover"@)),
        intercept_spec(line) matches Some(answer) ==> exists|reply: JsonTree|
            {
                let m = json_document(line)->0->Object_0;
                let error = reply->Object_0["error"@];
                &&& answer == #[trigger] json_bytes(reply).push(10u8)
                &&& reply is Object
                &&& reply->Object_0.dom().contains(name) <==> name == "jsonrpc"@ || name == "id"@ || name
                    == "error"@
                &&& reply->Object_0["jsonrpc"@] == JsonTree::Str("2.0"@)
                &&& reply->Object_0["id"@] == m["id"@]
                &&& error is Object
                &&& error->Object_0.dom().contains(name) <==> name == "code"@ || name == "message"@
                &&& error->Object_0["code"@] == JsonTree::Number(Num::Int(-32601))
                &&& error->Object_0["message"@] == JsonTree::Str("Method not found"@)
            },
{
    reveal_strlit("jsonrpc");
    reveal_strlit("id");
    reveal_strlit("error");
    reveal_strlit("code");
    reveal_strlit("message");
    assert("jsonrpc"@.len() == 7);
    assert("id"@.len() == 2);
    assert("error"@.len() == 5);
    assert("code"@.len() == 4);
    assert("message"@.len() == 7);
    if intercept_spec(line) is Some {
        let m = json_document(line)->0->Object_0;
        let reply = not_found(m["id"@]);
        assert(intercept_spec(line)->0 == json_bytes(reply).push(10u8));
    }
}

} // verus!
