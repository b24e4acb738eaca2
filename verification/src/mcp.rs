//! Outside tool servers: requests and replies over lines of JSON, the list of
//! tools and the results of calls.

use vstd::prelude::*;

use crate::json::{json_parsed, json_printed, parse, print, views, Json, JsonView};
use crate::rpc::VERSION;
use crate::text::{
    ascii_alnum, chars_of, dec, dec_string, head, head_string, is_ascii_alnum, join, join_strings, occurs_at,
    starts_with, str_eq, str_less, strs, text_less, trim, trim_string,
};
use crate::types::ToolSchema;

verus! {

/// The version of the protocol.
pub const PROTOCOL_VERSION: &'static str = "2024-11-05";

/// Seconds to wait for a reply.
pub const DEFAULT_TIMEOUT_SECS: u64 = 30;

// ---------- names ----------

/// A character of a tool's name.
pub open spec fn tool_char(c: char) -> bool {
    ascii_alnum(c) || c == '_'
}

/// A name with every other character replaced by `_`.
pub open spec fn sanitized(s: Seq<char>) -> Seq<char> {
    Seq::new(
        s.len(),
        |i: int|
            if tool_char(s[i]) {
                s[i]
            } else {
                '_'
            },
    )
}

pub fn sanitize_name(s: &str) -> (r: String)
    ensures
        r@ == sanitized(s@),
{
    let v: Vec<char> = chars_of(s);
    let mut out: String = String::new();
    let mut i: usize = 0;
    while i < v.len()
        invariant
            i <= v.len(),
            v@ == s@,
            out@ == sanitized(s@.take(i as int)),
        decreases v.len() - i,
    {
        let c: char = if is_ascii_alnum(v[i]) || v[i] == '_' {
            v[i]
        } else {
            '_'
        };
        out.push(c);
        i += 1;
        assert(out@ =~= sanitized(s@.take(i as int)));
    }
    assert(s@.take(i as int) =~= s@);
    out
}

/// A name that was made safe is safe and stays as it is.
pub proof fn law_sanitized_is_settled(s: Seq<char>)
    ensures
        sanitized(sanitized(s)) == sanitized(s),
        forall|i: int| 0 <= i < sanitized(s).len() ==> tool_char(#[trigger] sanitized(s)[i]),
{
    assert(sanitized(sanitized(s)) =~= sanitized(s));
}

/// The name under which a server's tool is offered.
pub open spec fn tool_name(server: Seq<char>, tool: Seq<char>) -> Seq<char> {
    "mcp_"@ + sanitized(server) + "_"@ + sanitized(tool)
}

pub fn tool_name_of(server: &str, tool: &str) -> (r: String)
    ensures
        r@ == tool_name(server@, tool@),
{
    let mut s: String = "mcp_".to_string();
    let a: String = sanitize_name(server);
    s.append(a.as_str());
    s.append("_");
    let b: String = sanitize_name(tool);
    s.append(b.as_str());
    s
}

// ---------- requests and replies ----------

/// The connection to a server: its name and the next request's number.
pub struct McpConnection {
    name: String,
    next_id: u64,
}

/// What became of a line from the server.
pub enum LineOutcome {
    /// The line does not answer the request.
    Skip,
    /// The result of the request.
    Result(Json),
    /// The request failed.
    Failed(String),
}

/// What the outcome of a line holds.
pub enum LineView {
    Skip,
    Result(JsonView),
    Failed(Seq<char>),
}

impl View for LineOutcome {
    type V = LineView;

    open spec fn view(&self) -> LineView {
        match *self {
            LineOutcome::Skip => LineView::Skip,
            LineOutcome::Result(j) => LineView::Result(j@),
            LineOutcome::Failed(e) => LineView::Failed(e@),
        }
    }
}

pub open spec fn request_form(id: u64, method: Seq<char>, params: JsonView) -> JsonView {
    JsonView::obj().with("jsonrpc"@, JsonView::Str("2.0"@)).with("id"@, JsonView::Uint(id)).with(
        "method"@,
        JsonView::Str(method),
    ).with("params"@, params)
}

/// What a JSON value from the server means for the request `id`: values
/// without an id or with another one do not answer it.
pub open spec fn reply_meaning(server: Seq<char>, id: u64, v: JsonView) -> LineView {
    match v.get("id"@) {
        None => LineView::Skip,
        Some(i) => if i.as_u64() != Some(id) {
            LineView::Skip
        } else {
            match v.get("error"@) {
                Some(e) => LineView::Failed(
                    "MCP server "@ + server + " 返回 JSON-RPC 错误："@ + json_printed(e),
                ),
                None => LineView::Result(
                    match v.get("result"@) {
                        Some(r) => r,
                        None => JsonView::Null,
                    },
                ),
            }
        },
    }
}

/// What a line from the server means for the request `id`.
pub open spec fn line_meaning(server: Seq<char>, id: u64, line: Seq<char>) -> LineView {
    if trim(line).len() == 0 {
        LineView::Skip
    } else {
        match json_parsed(line) {
            Err(e) => LineView::Failed(
                "MCP server "@ + server + " 返回无法解析的行："@ + e + "（内容："@ + head(line, 120) + "）"@,
            ),
            Ok(v) => reply_meaning(server, id, v),
        }
    }
}

/// The tool that an entry of the server's list describes; entries without a
/// name are passed over.
pub open spec fn listed_tool(v: JsonView) -> Option<(Seq<char>, Seq<char>, JsonView)> {
    match v.get_str("name"@) {
        Some(name) => Some(
            (
                name,
                match v.get_str("description"@) {
                    Some(d) => d,
                    None => Seq::empty(),
                },
                match v.get("inputSchema"@) {
                    Some(p) => p,
                    None => JsonView::obj().with("type"@, JsonView::Str("object"@)).with(
                        "properties"@,
                        JsonView::obj(),
                    ),
                },
            ),
        ),
        None => None,
    }
}

pub open spec fn schema_view(t: ToolSchema) -> (Seq<char>, Seq<char>, JsonView) {
    (t.name@, t.description@, t.parameters@)
}

pub open spec fn schema_views(v: Seq<ToolSchema>) -> Seq<(Seq<char>, Seq<char>, JsonView)> {
    Seq::new(v.len(), |i: int| schema_view(v[i]))
}

/// The tools that a server's list describes.
pub open spec fn listed_tools(v: Seq<JsonView>) -> Seq<(Seq<char>, Seq<char>, JsonView)>
    decreases v.len(),
{
    if v.len() == 0 {
        Seq::empty()
    } else {
        match listed_tool(v.last()) {
            Some(t) => listed_tools(v.drop_last()).push(t),
            None => listed_tools(v.drop_last()),
        }
    }
}

/// The text of a block of a result, if it is a text.
pub open spec fn block_text(v: JsonView) -> Option<Seq<char>> {
    if v.get_str("type"@) == Some("text"@) {
        v.get_str("text"@)
    } else {
        None
    }
}

/// The texts of blocks.
pub open spec fn block_texts(v: Seq<JsonView>) -> Seq<Seq<char>>
    decreases v.len(),
{
    if v.len() == 0 {
        Seq::empty()
    } else {
        match block_text(v.last()) {
            Some(t) => block_texts(v.drop_last()).push(t),
            None => block_texts(v.drop_last()),
        }
    }
}

/// The text of a result: its text blocks, one per line.
pub open spec fn content_of(v: JsonView) -> Seq<char> {
    match v.get("content"@) {
        Some(c) => match c.as_arr() {
            Some(a) => join(block_texts(a), "\n"@),
            None => Seq::empty(),
        },
        None => Seq::empty(),
    }
}

/// Puts the text blocks of a result together.
pub fn concat_text_content(result: &Json) -> (r: String)
    ensures
        r@ == content_of(result@),
{
    match result.get("content") {
        Some(c) => match c.as_arr() {
            Some(a) => {
                let ghost all = views(a@);
                let mut parts: Vec<String> = Vec::new();
                let mut i: usize = 0;
                assert(strs(parts@) =~= block_texts(all.take(0)));
                while i < a.len()
                    invariant
                        i <= a.len(),
                        all == views(a@),
                        strs(parts@) == block_texts(all.take(i as int)),
                    decreases a.len() - i,
                {
                    let ghost before = strs(parts@);
                    proof {
                        assert(all.take(i as int + 1).drop_last() =~= all.take(i as int));
                        assert(all.take(i as int + 1).last() == a@[i as int]@);
                    }
                    let is_text: bool = match a[i].get_str("type") {
                        Some(t) => str_eq(t, "text"),
                        None => false,
                    };
                    if is_text {
                        if let Some(t) = a[i].get_str("text") {
                            parts.push(t.to_string());
                            assert(strs(parts@) =~= before.push(t@));
                        }
                    }
                    i += 1;
                }
                assert(all.take(i as int) =~= all);
                join_strings(&parts, "\n")
            },
            None => String::new(),
        },
        None => String::new(),
    }
}

/// Whether a result says that the tool failed.
pub open spec fn says_error(v: JsonView) -> bool {
    match v.get("isError"@) {
        Some(b) => b.as_bool() == Some(true),
        None => false,
    }
}

impl McpConnection {
    pub closed spec fn server(&self) -> Seq<char> {
        self.name@
    }

    pub closed spec fn next(&self) -> u64 {
        self.next_id
    }

    /// A connection whose first request has the number one.
    pub fn new(name: String) -> (r: McpConnection)
        ensures
            r.server() == name@,
            r.next() == 1,
    {
        McpConnection { name, next_id: 1 }
    }

    /// The next request: its number and its line.
    pub fn request(&mut self, method: &str, params: Json) -> (r: (u64, String))
        requires
            old(self).next() < u64::MAX,
        ensures
            r.0 == old(self).next(),
            r.1@ == json_printed(request_form(old(self).next(), method@, params@)),
            !r.1@.contains('\n'),
            final(self).next() == old(self).next() + 1,
            final(self).server() == old(self).server(),
    {
        let id: u64 = self.next_id;
        self.next_id = id + 1;
        let j: Json = Json::obj().with("jsonrpc", Json::text("2.0")).with("id", Json::Uint(id)).with(
            "method",
            Json::text(method),
        ).with("params", params);
        (id, print(&j))
    }

    /// The first request of a connection.
    pub fn connect(&mut self) -> (r: (u64, String))
        requires
            old(self).next() < u64::MAX,
        ensures
            r.0 == old(self).next(),
            r.1@ == json_printed(
                request_form(
                    old(self).next(),
                    "initialize"@,
                    JsonView::obj().with("protocolVersion"@, JsonView::Str(PROTOCOL_VERSION@)).with(
                        "capabilities"@,
                        JsonView::obj().with("tools"@, JsonView::obj()),
                    ).with(
                        "clientInfo"@,
                        JsonView::obj().with("name"@, JsonView::Str("r2-agent"@)).with(
                            "version"@,
                            JsonView::Str(VERSION@),
                        ),
                    ),
                ),
            ),
            final(self).next() == old(self).next() + 1,
            final(self).server() == old(self).server(),
    {
        let params: Json = Json::obj().with("protocolVersion", Json::text(PROTOCOL_VERSION)).with(
            "capabilities",
            Json::obj().with("tools", Json::obj()),
        ).with(
            "clientInfo",
            Json::obj().with("name", Json::text("r2-agent")).with("version", Json::text(VERSION)),
        );
        self.request("initialize", params)
    }

    /// The line of a notification.
    pub fn notify(&self, method: &str) -> (r: String)
        ensures
            r@ == json_printed(
                JsonView::obj().with("jsonrpc"@, JsonView::Str("2.0"@)).with("method"@, JsonView::Str(method@)),
            ),
            !r@.contains('\n'),
    {
        let j: Json = Json::obj().with("jsonrpc", Json::text("2.0")).with("method", Json::text(method));
        print(&j)
    }

    /// What a JSON value from the server means for the request `id`.
    pub fn on_value(&self, id: u64, v: &Json) -> (r: LineOutcome)
        ensures
            r@ == reply_meaning(self.server(), id, v@),
    {
        match v.get("id") {
            None => {
                return LineOutcome::Skip;
            },
            Some(i) => match i.as_u64() {
                Some(n) => if n != id {
                    return LineOutcome::Skip;
                },
                None => {
                    return LineOutcome::Skip;
                },
            },
        }
        if let Some(e) = v.get("error") {
            let mut m: String = "MCP server ".to_string();
            m.append(self.name.as_str());
            m.append(" 返回 JSON-RPC 错误：");
            let p: String = print(e);
            m.append(p.as_str());
            return LineOutcome::Failed(m);
        }
        match v.get("result") {
            Some(r) => LineOutcome::Result(r.dup()),
            None => LineOutcome::Result(Json::Null),
        }
    }

    /// What a line from the server means for the request `id`.
    pub fn on_line(&self, id: u64, line: &str) -> (r: LineOutcome)
        ensures
            r@ == line_meaning(self.server(), id, line@),
    {
        let t: String = trim_string(line);
        if t.as_str().is_empty() {
            return LineOutcome::Skip;
        }
        match parse(line) {
            Ok(v) => self.on_value(id, &v),
            Err(e) => {
                let mut m: String = "MCP server ".to_string();
                m.append(self.name.as_str());
                m.append(" 返回无法解析的行：");
                m.append(e.as_str());
                m.append("（内容：");
                let h: String = head_string(line, 120);
                m.append(h.as_str());
                m.append("）");
                LineOutcome::Failed(m)
            },
        }
    }

    /// What is said when no reply comes in time.
    pub fn timed_out(&self, method: &str, timeout_secs: u64) -> (r: String)
        ensures
            r@ == "MCP server "@ + self.server() + " 请求 "@ + method@ + " 超时（"@ + dec(
                timeout_secs as nat,
            ) + "s）"@,
    {
        let mut m: String = "MCP server ".to_string();
        m.append(self.name.as_str());
        m.append(" 请求 ");
        m.append(method);
        m.append(" 超时（");
        let d: String = dec_string(timeout_secs);
        m.append(d.as_str());
        m.append("s）");
        m
    }

    /// Reads the list of tools out of a result.
    pub fn list_tools(&self, result: &Json) -> (r: Result<Vec<ToolSchema>, String>)
        ensures
            match result@.get("tools"@) {
                Some(JsonView::Arr(a)) => r is Ok && schema_views(r->Ok_0@) == listed_tools(a),
                _ => r is Err && r->Err_0@ == "MCP server "@ + self.server()
                    + " 的 tools/list 响应缺少 tools 数组"@,
            },
    {
        let tools: &Vec<Json> = match result.get("tools") {
            Some(t) => match t.as_arr() {
                Some(a) => a,
                None => {
                    return Err(self.no_tools());
                },
            },
            None => {
                return Err(self.no_tools());
            },
        };
        let ghost all = views(tools@);
        let mut out: Vec<ToolSchema> = Vec::new();
        let mut i: usize = 0;
        assert(schema_views(out@) =~= listed_tools(all.take(0)));
        while i < tools.len()
            invariant
                i <= tools.len(),
                all == views(tools@),
                schema_views(out@) == listed_tools(all.take(i as int)),
            decreases tools.len() - i,
        {
            let ghost before = schema_views(out@);
            proof {
                assert(all.take(i as int + 1).drop_last() =~= all.take(i as int));
                assert(all.take(i as int + 1).last() == tools@[i as int]@);
            }
            let t: &Json = &tools[i];
            if let Some(name) = t.get_str("name") {
                let description: String = match t.get_str("description") {
                    Some(d) => d.to_string(),
                    None => String::new(),
                };
                let parameters: Json = match t.get("inputSchema") {
                    Some(p) => p.dup(),
                    None => Json::obj().with("type", Json::text("object")).with("properties", Json::obj()),
                };
                let schema: ToolSchema = ToolSchema { name: name.to_string(), description, parameters };
                out.push(schema);
                assert(schema_views(out@) =~= before.push(schema_view(schema)));
            }
            i += 1;
        }
        assert(all.take(i as int) =~= all);
        Ok(out)
    }

    fn no_tools(&self) -> (r: String)
        ensures
            r@ == "MCP server "@ + self.server() + " 的 tools/list 响应缺少 tools 数组"@,
    {
        let mut m: String = "MCP server ".to_string();
        m.append(self.name.as_str());
        m.append(" 的 tools/list 响应缺少 tools 数组");
        m
    }
}

/// Reads the text out of the result of a call: a failure, or a result without
/// text, is an error.
pub fn call_tool(name: &str, result: &Json) -> (r: Result<String, String>)
    ensures
        match r {
            Ok(t) => {
                &&& !says_error(result@)
                &&& content_of(result@).len() > 0
                &&& t@ == content_of(result@)
            },
            Err(e) => if says_error(result@) {
                e@ == "ERROR: MCP 工具 "@ + name@ + " 返回错误："@ + content_of(result@)
            } else {
                &&& content_of(result@).len() == 0
                &&& e@ == "ERROR: MCP 工具 "@ + name@ + " 未返回文本内容"@
            },
        },
{
    let text: String = concat_text_content(result);
    let failed: bool = match result.get("isError") {
        Some(b) => match b.as_bool() {
            Some(x) => x,
            None => false,
        },
        None => false,
    };
    if failed {
        let mut e: String = "ERROR: MCP 工具 ".to_string();
        e.append(name);
        e.append(" 返回错误：");
        e.append(text.as_str());
        return Err(e);
    }
    if text.as_str().is_empty() {
        let mut e: String = "ERROR: MCP 工具 ".to_string();
        e.append(name);
        e.append(" 未返回文本内容");
        return Err(e);
    }
    Ok(text)
}

/// What a tool call tells the model: its text, or a failure that begins with
/// `ERROR:`.
pub fn tool_output(result: &Result<String, String>) -> (r: String)
    ensures
        r@ == (match *result {
            Ok(t) => t@,
            Err(e) => if occurs_at(e@, "ERROR:"@, 0) {
                e@
            } else {
                "ERROR: "@ + e@
            },
        }),
{
    match result {
        Ok(t) => t.clone(),
        Err(e) => if starts_with(e.as_str(), "ERROR:") {
            e.clone()
        } else {
            let mut s: String = "ERROR: ".to_string();
            s.append(e.as_str());
            s
        },
    }
}

// ---------- the order of tools ----------

/// Tools in the order of their names.
pub open spec fn tools_by_name(v: Seq<ToolSchema>) -> bool {
    forall|i: int, j: int|
        0 <= i < j < v.len() ==> !text_less((#[trigger] v[j]).name@, (#[trigger] v[i]).name@)
}

/// Sorts tools by their names; nothing is lost and nothing comes twice.
pub fn sort_tools(found: Vec<ToolSchema>) -> (r: Vec<ToolSchema>)
    ensures
        tools_by_name(r@),
        r@.to_multiset() == found@.to_multiset(),
{
    let ghost all = found@;
    let mut out: Vec<ToolSchema> = Vec::new();
    assert(out@ =~= all.take(0));
    for p in it: found
        invariant
            it.seq() == all,
            tools_by_name(out@),
            out@.to_multiset() == all.take(it.index() as int).to_multiset(),
    {
        let ghost before = out@;
        let mut i: usize = out.len();
        while i > 0 && str_less(p.name.as_str(), out[i - 1].name.as_str())
            invariant
                i <= out.len(),
                out@ == before,
                forall|k: int| i <= k < before.len() ==> text_less(p.name@, (#[trigger] before[k]).name@),
            decreases i,
        {
            i -= 1;
        }
        out.insert(i, p);
        proof {
            broadcast use vstd::seq_lib::group_to_multiset_ensures;

            let k = it.index() as int;
            assert(all.take(k + 1) =~= all.take(k).push(p));
            assert(out@ == before.insert(i as int, p));
            assert(out@.to_multiset() =~= before.to_multiset().insert(p));
            assert forall|a: int, b: int| 0 <= a < b < out@.len() implies !text_less(
                (#[trigger] out@[b]).name@,
                (#[trigger] out@[a]).name@,
            ) by {
                if a == i {
                    crate::text::law_text_order(p.name@, before[b - 1].name@);
                } else if b == i {
                    if a < i - 1 {
                        assert(!text_less(before[i - 1].name@, before[a].name@));
                        crate::text::lemma_not_less_trans(before[a].name@, before[i - 1].name@, p.name@);
                    }
                } else {
                    let a0 = if a < i {
                        a
                    } else {
                        a - 1
                    };
                    let b0 = if b < i {
                        b
                    } else {
                        b - 1
                    };
                    assert(!text_less(before[b0].name@, before[a0].name@));
                }
            }
        }
    }
    assert(all.take(all.len() as int) =~= all);
    out
}

} // verus!
