//! Calls of the service inside a base: where they go, how they are authorised,
//! and what a reply says.

use vstd::prelude::*;
use vstd::utf8::encode_utf8;

use crate::codec;
use crate::json::{self, Json, Level, LevelView, Tree};
use crate::text;

verus! {

/// The service of one base.
#[derive(Debug, Clone)]
pub struct McpClient {
    /// The address of its procedures.
    pub rpc_url: String,
    /// The value of the header `Authorization`.
    pub auth_header: String,
    pub api_key: String,
}

/// The value of the header `Authorization` for a user.
pub open spec fn basic_auth(username: Seq<char>, password: Seq<char>) -> Seq<char> {
    "Basic "@ + codec::base64_text(encode_utf8(username + ":"@ + password))
}

/// The value of the header `Authorization`, from the encoded login.
pub fn auth_header_of(encoded: &str) -> (r: String)
    ensures
        r@ == "Basic "@ + encoded@,
{
    let mut s = "Basic ".to_owned();
    s.append(encoded);
    s
}

/// The address of the procedures of a service.
pub fn rpc_url_of(base_url: &str) -> (r: String)
    ensures
        r@ == text::trim_end_of(base_url@, "/"@) + "/rpc"@,
{
    let mut s = text::trimmed_end_of(base_url, "/");
    s.append("/rpc");
    s
}

impl McpClient {
    /// The service at an address, for a user and a key.
    pub fn new(base_url: &str, username: &str, password: &str, api_key: String) -> (r: Self)
        requires
            encode_utf8(username@ + ":"@ + password@).len() <= usize::MAX / 8,
        ensures
            r.rpc_url@ == text::trim_end_of(base_url@, "/"@) + "/rpc"@,
            r.auth_header@ == basic_auth(username@, password@),
            r.api_key == api_key,
    {
        let mut login = username.to_owned();
        login.append(":");
        login.append(password);
        let encoded = codec::base64(login.as_str().as_bytes());
        McpClient { rpc_url: rpc_url_of(base_url), auth_header: auth_header_of(&encoded), api_key }
    }
}

/// What a reply says.
#[derive(Debug)]
pub enum ToolReply {
    /// The text that the tool gave.
    Text(String),
    /// The reply is no JSON.
    NotJson,
    /// The service refused the call; what it said of the error.
    Refused(String),
    /// The reply holds no text of a tool.
    NoText,
}

/// What a reply says.
pub enum ReplyView {
    Text(Seq<char>),
    NotJson,
    Refused(Seq<char>),
    NoText,
}

impl View for ToolReply {
    type V = ReplyView;

    open spec fn view(&self) -> ReplyView {
        match *self {
            ToolReply::Text(s) => ReplyView::Text(s@),
            ToolReply::NotJson => ReplyView::NotJson,
            ToolReply::Refused(s) => ReplyView::Refused(s@),
            ToolReply::NoText => ReplyView::NoText,
        }
    }
}

/// The text at `result.content[0].text`.
pub open spec fn tool_text(t: Tree) -> Option<Seq<char>> {
    match json::field(t, "result"@) {
        Some(result) => match json::field(result, "content"@) {
            Some(Tree::List(items)) => if items.len() > 0 {
                json::text_field(items[0], "text"@)
            } else {
                None
            },
            _ => None,
        },
        None => None,
    }
}

/// The text of the last field of the given name.
pub open spec fn pair_in(fields: Seq<(Seq<char>, Seq<char>)>, key: Seq<char>) -> Option<Seq<char>>
    decreases fields.len(),
{
    if fields.len() == 0 {
        None
    } else if fields.last().0 == key {
        Some(fields.last().1)
    } else {
        pair_in(fields.drop_last(), key)
    }
}

/// The error in a reply, as it is written.
pub open spec fn error_in(level: Option<LevelView>) -> Option<Seq<char>> {
    match level {
        Some(LevelView::Object(fields)) => pair_in(fields, "error"@),
        _ => None,
    }
}

/// What a reply says, where `error` is the error in it and `value` its value.
pub open spec fn reply_of(error: Option<Seq<char>>, value: Option<Tree>) -> ReplyView {
    match (error, value) {
        (Some(e), _) => ReplyView::Refused(e),
        (None, None) => ReplyView::NotJson,
        (None, Some(t)) => match tool_text(t) {
            Some(s) => ReplyView::Text(s),
            None => ReplyView::NoText,
        },
    }
}

/// The text at `result.content[0].text`.
fn find_text(value: &Json) -> (r: Option<String>)
    ensures
        text::opt_view(r) == tool_text(value@),
{
    match value.get("result") {
        Some(result) => match result.get("content") {
            Some(Json::List(items)) => {
                proof {
                    json::lemma_trees(items@);
                }
                if items.len() > 0 {
                    items[0].text("text")
                } else {
                    None
                }
            },
            _ => None,
        },
        None => None,
    }
}

/// What a reply says, where `error` is the error in it and `value` its value.
pub fn judge_reply(error: Option<String>, value: &Option<Json>) -> (r: ToolReply)
    ensures
        r@ == reply_of(text::opt_view(error), json::opt_tree(*value)),
{
    match error {
        Some(e) => ToolReply::Refused(e),
        None => match value {
            None => ToolReply::NotJson,
            Some(v) => match find_text(v) {
                Some(s) => ToolReply::Text(s),
                None => ToolReply::NoText,
            },
        },
    }
}

/// The error in a reply, as it is written.
fn find_error(raw: &str) -> (r: Option<String>)
    ensures
        text::opt_view(r) == error_in(json::json_level(raw@)),
{
    match json::read_level(raw) {
        Some(Level::Object(fields)) => {
            let ghost all = json::pairs(fields@);
            let mut i: usize = fields.len();
            assert(all.take(all.len() as int) =~= all);
            while i > 0
                invariant
                    i <= fields@.len(),
                    all == json::pairs(fields@),
                    json::json_level(raw@) == Some(LevelView::Object(all)),
                    pair_in(all.take(i as int), "error"@) == pair_in(all, "error"@),
                decreases i,
            {
                i = i - 1;
                assert(all.take(i + 1).drop_last() =~= all.take(i as int));
                assert(all.take(i + 1).last() == all[i as int]);
                if text::same(&fields[i].0, "error") {
                    return Some(fields[i].1.clone());
                }
            }
            None
        },
        _ => None,
    }
}

/// What the text of a reply says.
pub fn read_reply(raw: &str) -> (r: ToolReply)
    ensures
        r@ == reply_of(error_in(json::json_level(raw@)), json::json(raw@)),
{
    judge_reply(find_error(raw), &json::parse_json(raw))
}

/// What came of sending a call.
#[derive(Debug)]
pub enum HttpReply {
    /// The call could not be sent; why.
    Unsent(String),
    /// The service answered with a status that tells of a failure.
    Status { status: String, body: String },
    /// The answer could not be read; why.
    Unread(String),
    /// The answer.
    Body(String),
}

/// How the messages about a call of a tool begin.
pub open spec fn about_call(name: Seq<char>) -> Seq<char> {
    "MCP tools/call '"@ + name + "' "@
}

/// How the messages about a call of a tool begin.
fn call_message(name: &str) -> (r: String)
    ensures
        r@ == about_call(name@),
{
    let mut m = "MCP tools/call '".to_owned();
    m.append(name);
    m.append("' ");
    m
}

/// What a tool gave, or the message about what went wrong, where `raw` is the
/// answer, `written` what it is written again and `said` what it says.
pub open spec fn answer_of(
    name: Seq<char>,
    raw: Seq<char>,
    written: Result<Seq<char>, Seq<char>>,
    said: ReplyView,
) -> Result<Seq<char>, Seq<char>> {
    match (written, said) {
        (Err(e), _) => Err(
            about_call(name) + "не JSON: "@ + e + "\nraw[:500]="@ + text::first(raw, 500),
        ),
        (Ok(_), ReplyView::Text(s)) => Ok(s),
        (Ok(_), ReplyView::Refused(e)) => Err(about_call(name) + "JSON-RPC error: "@ + e),
        (Ok(body), _) => Err(
            about_call(name) + "нет result.content[0].text. body="@ + body,
        ),
    }
}

/// What a tool gave, or the message about what went wrong.
pub open spec fn called(name: Seq<char>, reply: HttpReply) -> Result<Seq<char>, Seq<char>> {
    match reply {
        HttpReply::Unsent(e) => Err(about_call(name) + "запрос упал: "@ + e@),
        HttpReply::Status { status, body } => Err(
            about_call(name) + "вернул HTTP "@ + status@ + ": "@ + body@,
        ),
        HttpReply::Unread(e) => Err(about_call(name) + "чтение тела: "@ + e@),
        HttpReply::Body(raw) => answer_of(
            name,
            raw@,
            json::json_text(raw@),
            reply_of(error_in(json::json_level(raw@)), json::json(raw@)),
        ),
    }
}

/// What a tool gave, or the message about what went wrong, where `raw` is the
/// answer, `written` what it is written again and `said` what it says.
pub fn judge_answer(name: &str, raw: &str, written: Result<String, String>, said: ToolReply) -> (r:
    Result<String, String>)
    ensures
        json::text_result(r) == answer_of(name@, raw@, json::text_result(written), said@),
{
    let body = match written {
        Ok(body) => body,
        Err(e) => {
            let mut m = call_message(name);
            m.append("не JSON: ");
            m.append(&e);
            m.append("\nraw[:500]=");
            let head = text::first_chars(raw, 500);
            m.append(&head);
            return Err(m);
        },
    };
    match said {
        ToolReply::Text(s) => Ok(s),
        ToolReply::Refused(e) => {
            let mut m = call_message(name);
            m.append("JSON-RPC error: ");
            m.append(&e);
            Err(m)
        },
        _ => {
            let mut m = call_message(name);
            m.append("нет result.content[0].text. body=");
            m.append(&body);
            Err(m)
        },
    }
}

/// The request that calls a tool.
pub open spec fn call_request(name: Seq<char>, arguments: Tree) -> Tree {
    Tree::Object(
        seq![
            ("id"@, Tree::Number("1"@)),
            ("jsonrpc"@, Tree::Text("2.0"@)),
            ("method"@, Tree::Text("tools/call"@)),
            (
                "params"@,
                Tree::Object(seq![("arguments"@, arguments), ("name"@, Tree::Text(name))]),
            ),
        ],
    )
}

impl McpClient {
    /// The request that calls a tool of the service.
    pub fn tool_request(name: &str, arguments: Json) -> (r: Json)
        ensures
            r@ == call_request(name@, arguments@),
    {
        let params = vec![
            ("arguments".to_owned(), arguments),
            ("name".to_owned(), json::text_json(name)),
        ];
        proof {
            json::lemma_field_trees(params@);
            assert(json::field_trees(params@) =~= seq![
                ("arguments"@, arguments@),
                ("name"@, Tree::Text(name@)),
            ]);
        }
        let params = Json::Object(params);
        let fields = vec![
            ("id".to_owned(), Json::Number("1".to_owned())),
            ("jsonrpc".to_owned(), json::text_json("2.0")),
            ("method".to_owned(), json::text_json("tools/call")),
            ("params".to_owned(), params),
        ];
        proof {
            json::lemma_field_trees(fields@);
            assert(json::field_trees(fields@) =~= seq![
                ("id"@, Tree::Number("1"@)),
                ("jsonrpc"@, Tree::Text("2.0"@)),
                ("method"@, Tree::Text("tools/call"@)),
                ("params"@, params@),
            ]);
        }
        Json::Object(fields)
    }

    /// What a tool of the service gave, or the message about what went wrong.
    pub fn call_tool(name: &str, reply: HttpReply) -> (r: Result<String, String>)
        ensures
            json::text_result(r) == called(name@, reply),
    {
        match reply {
            HttpReply::Unsent(e) => {
                let mut m = call_message(name);
                m.append("запрос упал: ");
                m.append(&e);
                Err(m)
            },
            HttpReply::Status { status, body } => {
                let mut m = call_message(name);
                m.append("вернул HTTP ");
                m.append(&status);
                m.append(": ");
                m.append(&body);
                Err(m)
            },
            HttpReply::Unread(e) => {
                let mut m = call_message(name);
                m.append("чтение тела: ");
                m.append(&e);
                Err(m)
            },
            HttpReply::Body(raw) => {
                judge_answer(name, &raw, json::write_again(&raw), read_reply(&raw))
            },
        }
    }
}

/// The address that tells a proxy to forget what it keeps of a base.
pub fn flush_url(proxy_url: &str, base_alias: &str) -> (r: String)
    ensures
        r@ == text::trim_end_of(proxy_url@, "/"@) + "/flush?base="@ + base_alias@,
{
    let mut s = text::trimmed_end_of(proxy_url, "/");
    s.append("/flush?base=");
    s.append(base_alias);
    s
}

proof fn lemma_trim_slashes(s: Seq<char>, t: Seq<char>)
    requires
        forall|i: int| 0 <= i < t.len() ==> t[i] == '/',
    ensures
        text::trim_end_of(s + t, "/"@) == text::trim_end_of(s, "/"@),
    decreases t.len(),
{
    if t.len() == 0 {
        assert(s + t =~= s);
    } else {
        reveal_strlit("/");
        assert("/"@[0] == '/');
        assert("/"@.contains('/'));
        assert((s + t).last() == '/');
        assert((s + t).drop_last() =~= s + t.drop_last());
        lemma_trim_slashes(s, t.drop_last());
    }
}

/// Slashes at the end of the address of a service or of a proxy do not matter.
pub proof fn slashes_at_the_end_do_not_matter(url: Seq<char>, slashes: Seq<char>)
    requires
        forall|i: int| 0 <= i < slashes.len() ==> slashes[i] == '/',
    ensures
        text::trim_end_of(url + slashes, "/"@) == text::trim_end_of(url, "/"@),
{
    lemma_trim_slashes(url, slashes);
}

/// A user authorises with the name and the password, in the encoding of the
/// protocol.
pub proof fn login_is_sent_encoded(username: Seq<char>, password: Seq<char>)
    ensures
        basic_auth(username, password) == "Basic "@ + codec::base64_text(
            encode_utf8(username + ":"@ + password),
        ),
{
}

/// A call names its tool and hands over its arguments, in the form of the
/// protocol.
#[verifier::rlimit(40)]
pub proof fn call_names_its_tool(name: Seq<char>, arguments: Tree)
    ensures
        ({
            let r = call_request(name, arguments);
            &&& json::text_field(r, "jsonrpc"@) == Some("2.0"@)
            &&& json::text_field(r, "method"@) == Some("tools/call"@)
            &&& json::field(r, "id"@) == Some(Tree::Number("1"@))
            &&& json::field(r, "params"@) matches Some(p) && json::text_field(p, "name"@) == Some(
                name,
            ) && json::field(p, "arguments"@) == Some(arguments)
        }),
{
    reveal_strlit("id");
    reveal_strlit("jsonrpc");
    reveal_strlit("method");
    reveal_strlit("params");
    reveal_strlit("arguments");
    reveal_strlit("name");
    assert("id"@.len() == 2 && "jsonrpc"@.len() == 7);
    assert("method"@.len() == 6 && "method"@[0] == 'm');
    assert("params"@.len() == 6 && "params"@[0] == 'p');
    assert("arguments"@.len() == 9 && "name"@.len() == 4);
    let params = Tree::Object(seq![("arguments"@, arguments), ("name"@, Tree::Text(name))]);
    let a = seq![("id"@, Tree::Number("1"@))];
    let b = a.push(("jsonrpc"@, Tree::Text("2.0"@)));
    let c = b.push(("method"@, Tree::Text("tools/call"@)));
    let d = c.push(("params"@, params));
    assert(call_request(name, arguments) == Tree::Object(d)) by {
        assert(d =~= seq![
            ("id"@, Tree::Number("1"@)),
            ("jsonrpc"@, Tree::Text("2.0"@)),
            ("method"@, Tree::Text("tools/call"@)),
            ("params"@, params),
        ]);
    }
    assert(d.drop_last() =~= c && c.drop_last() =~= b && b.drop_last() =~= a);
    assert(json::field_in(a, "id"@) == Some(a[0].1));
    assert(json::field_in(b, "id"@) == Some(a[0].1));
    assert(json::field_in(c, "id"@) == Some(a[0].1));
    assert(json::field_in(d, "id"@) == Some(a[0].1));
    assert(json::field_in(b, "jsonrpc"@) == Some(Tree::Text("2.0"@)));
    assert(json::field_in(c, "jsonrpc"@) == Some(Tree::Text("2.0"@)));
    assert(json::field_in(d, "jsonrpc"@) == Some(Tree::Text("2.0"@)));
    assert(json::field_in(c, "method"@) == Some(Tree::Text("tools/call"@)));
    assert(json::field_in(d, "method"@) == Some(Tree::Text("tools/call"@)));
    assert(json::field_in(d, "params"@) == Some(params));
    let x = seq![("arguments"@, arguments)];
    let y = seq![("arguments"@, arguments), ("name"@, Tree::Text(name))];
    assert(y.drop_last() =~= x);
    assert(json::field_in(x, "arguments"@) == Some(arguments));
    assert(json::field_in(y, "arguments"@) == Some(arguments));
    assert(json::field_in(y, "name"@) == Some(Tree::Text(name)));
}

/// The answer of a tool is the text of its first content; an error of the service
/// comes before it, and every other answer is an error that shows itself.
pub proof fn answer_is_the_first_text(
    name: Seq<char>,
    raw: Seq<char>,
    body: Seq<char>,
    error: Seq<char>,
    value: Tree,
    result: Tree,
    items: Seq<Tree>,
    s: Seq<char>,
)
    ensures
        reply_of(Some(error), Some(value)) == ReplyView::Refused(error),
        reply_of(Some(error), None) == ReplyView::Refused(error),
        reply_of(None, None) == ReplyView::NotJson,
        json::field(value, "result"@) == Some(result) && json::field(result, "content"@) == Some(
            Tree::List(items),
        ) && items.len() > 0 && json::text_field(items[0], "text"@) == Some(s) ==> reply_of(
            None,
            Some(value),
        ) == ReplyView::Text(s),
        json::field(value, "result"@) is None ==> reply_of(None, Some(value)) == ReplyView::NoText,
        answer_of(name, raw, Ok(body), ReplyView::Text(s)) == (Ok::<Seq<char>, Seq<char>>(s)),
        answer_of(name, raw, Ok(body), ReplyView::Refused(error)) == (Err::<Seq<char>, Seq<char>>(
            "MCP tools/call '"@ + name + "' "@ + "JSON-RPC error: "@ + error,
        )),
        answer_of(name, raw, Ok(body), ReplyView::NoText) == (Err::<Seq<char>, Seq<char>>(
            "MCP tools/call '"@ + name + "' "@ + "нет result.content[0].text. body="@ + body,
        )),
        answer_of(name, raw, Err(error), ReplyView::Text(s)) == (Err::<Seq<char>, Seq<char>>(
            "MCP tools/call '"@ + name + "' "@ + "не JSON: "@ + error + "\nraw[:500]="@
                + text::first(raw, 500),
        )),
{
}

/// A request that fails on its way is an error that names the tool.
pub proof fn failed_requests_are_errors(name: Seq<char>, e: String, status: String, body: String)
    ensures
        called(name, HttpReply::Unsent(e)) == (Err::<Seq<char>, Seq<char>>(
            "MCP tools/call '"@ + name + "' "@ + "запрос упал: "@ + e@,
        )),
        called(name, HttpReply::Unread(e)) == (Err::<Seq<char>, Seq<char>>(
            "MCP tools/call '"@ + name + "' "@ + "чтение тела: "@ + e@,
        )),
        called(name, HttpReply::Status { status, body }) == (Err::<Seq<char>, Seq<char>>(
            "MCP tools/call '"@ + name + "' "@ + "вернул HTTP "@ + status@ + ": "@ + body@,
        )),
{
}

/// The error of an answer is the last field of that name at its top.
pub proof fn error_stands_at_the_top(
    fields: Seq<(Seq<char>, Seq<char>)>,
    key: Seq<char>,
    value: Seq<char>,
)
    ensures
        error_in(Some(LevelView::Object(fields.push(("error"@, value))))) == Some(value),
        key != "error"@ ==> error_in(Some(LevelView::Object(fields.push((key, value)))))
            == error_in(Some(LevelView::Object(fields))),
        error_in(Some(LevelView::Object(Seq::empty()))) is None,
        error_in(None) is None,
{
    assert(fields.push(("error"@, value)).drop_last() =~= fields);
    assert(fields.push((key, value)).drop_last() =~= fields);
}

} // verus!
