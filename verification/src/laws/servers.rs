//! The tool servers: what is asked of them, and what their answers mean.

use vstd::prelude::*;

use crate::json::{json_parsed, json_printed, JsonView};
use crate::mcp::{
    block_texts, content_of, line_meaning, listed_tools, reply_meaning, request_form, sanitized, says_error,
    schema_views, tool_name, LineOutcome, LineView,
};
use crate::text::{contains_text, head, join, trim};
use crate::types::ToolSchema;

use super::{group_holds, group_members, in_order, lemma_join_in_order};

verus! {

broadcast use group_members;

/// A tool's name keeps letters, digits and underscores where they stand, and
/// has an underscore in the place of everything else.
pub proof fn law_names_keep_their_letters(s: Seq<char>, i: int)
    requires
        0 <= i < s.len(),
    ensures
        sanitized(s).len() == s.len(),
        ({
            let kept = 'a' <= s[i] <= 'z' || 'A' <= s[i] <= 'Z' || '0' <= s[i] <= '9' || s[i] == '_';
            sanitized(s)[i] == if kept {
                s[i]
            } else {
                '_'
            }
        }),
{
}

/// A tool is called by its server's name and its own.
pub proof fn law_tool_is_called_by_both_names(server: Seq<char>, tool: Seq<char>)
    requires
        forall|i: int| 0 <= i < server.len() ==> 'a' <= #[trigger] server[i] <= 'z' || server[i] == '_',
        forall|i: int| 0 <= i < tool.len() ==> 'a' <= #[trigger] tool[i] <= 'z' || tool[i] == '_',
    ensures
        tool_name(server, tool) == "mcp_"@ + server + "_"@ + tool,
{
    assert(sanitized(server) =~= server);
    assert(sanitized(tool) =~= tool);
}

/// A request names its number, the method and what is handed over.
pub proof fn law_request_has_its_parts(id: u64, method: Seq<char>, params: JsonView)
    ensures
        ({
            let r = request_form(id, method, params);
            &&& r.get("jsonrpc"@) == Some(JsonView::Str("2.0"@))
            &&& r.get("id"@) == Some(JsonView::Uint(id))
            &&& r.get("method"@) == Some(JsonView::Str(method))
            &&& r.get("params"@) == Some(params)
        }),
{
    reveal_strlit("jsonrpc");
    reveal_strlit("id");
    reveal_strlit("method");
    reveal_strlit("params");
    assert("jsonrpc"@.len() != "id"@.len());
    assert("jsonrpc"@.len() != "method"@.len());
    assert("jsonrpc"@.len() != "params"@.len());
    assert("id"@.len() != "method"@.len());
    assert("id"@.len() != "params"@.len());
    assert("method"@[0] != "params"@[0]);
}

/// An answer to another request is passed over. The answer to this one is its
/// result as it was sent, or its error with the server's name.
pub proof fn law_answer_belongs_to_its_request(server: Seq<char>, id: u64, v: JsonView)
    ensures
        ({
            let mine = v.get("id"@) is Some && v.get("id"@)->Some_0.as_u64() == Some(id);
            let m = reply_meaning(server, id, v);
            &&& !mine <==> m == LineView::Skip
            &&& mine && v.get("error"@) is None && v.get("result"@) is Some ==> m == LineView::Result(
                v.get("result"@)->Some_0,
            )
            &&& mine && v.get("error"@) is None && v.get("result"@) is None ==> m == LineView::Result(JsonView::Null)
            &&& mine && v.get("error"@) is Some ==> m is Failed && contains_text(m->Failed_0, server) && contains_text(
                m->Failed_0,
                json_printed(v.get("error"@)->Some_0),
            )
        }),
{
    broadcast use group_holds;

}

/// A blank line says nothing. A line that cannot be read is shown with the
/// server's name and the reason. Any other line means what its value means.
pub proof fn law_line_is_its_value(server: Seq<char>, id: u64, line: Seq<char>)
    ensures
        trim(line).len() == 0 ==> line_meaning(server, id, line) == LineView::Skip,
        trim(line).len() > 0 && json_parsed(line) is Ok ==> line_meaning(server, id, line) == reply_meaning(
            server,
            id,
            json_parsed(line)->Ok_0,
        ),
        trim(line).len() > 0 && json_parsed(line) is Err ==> ({
            let m = line_meaning(server, id, line);
            &&& m is Failed
            &&& contains_text(m->Failed_0, server)
            &&& contains_text(m->Failed_0, json_parsed(line)->Err_0)
            &&& contains_text(m->Failed_0, head(line, 120))
        }),
{
    broadcast use group_holds;

}

/// What a line turned out to be is seen as it is.
pub proof fn law_outcomes_are_their_fields(o: LineOutcome)
    ensures
        o is Skip <==> o@ is Skip,
        o is Result ==> o@ == LineView::Result(o->Result_0@),
        o is Failed ==> o@ == LineView::Failed(o->Failed_0@),
{
}

/// The tools of a server are those that have a name, in the order in which it
/// lists them, each with its description and its parameters.
pub proof fn law_tools_are_those_listed(v: Seq<JsonView>)
    ensures
        listed_tools(v) == v.filter(|t: JsonView| t.get_str("name"@) is Some).map_values(
            |t: JsonView|
                (
                    t.get_str("name"@)->Some_0,
                    match t.get_str("description"@) {
                        Some(d) => d,
                        None => Seq::empty(),
                    },
                    match t.get("inputSchema"@) {
                        Some(p) => p,
                        None => JsonView::obj().with("type"@, JsonView::Str("object"@)).with(
                            "properties"@,
                            JsonView::obj(),
                        ),
                    },
                ),
        ),
    decreases v.len(),
{
    reveal(Seq::filter);
    if v.len() > 0 {
        law_tools_are_those_listed(v.drop_last());
    }
    assert(listed_tools(v) =~= v.filter(|t: JsonView| t.get_str("name"@) is Some).map_values(
        |t: JsonView|
            (
                t.get_str("name"@)->Some_0,
                match t.get_str("description"@) {
                    Some(d) => d,
                    None => Seq::empty(),
                },
                match t.get("inputSchema"@) {
                    Some(p) => p,
                    None => JsonView::obj().with("type"@, JsonView::Str("object"@)).with(
                        "properties"@,
                        JsonView::obj(),
                    ),
                },
            ),
    ));
}

/// A tool is seen with its name, its description and its parameters.
pub proof fn law_tools_are_their_fields(v: Seq<ToolSchema>, i: int)
    requires
        0 <= i < v.len(),
    ensures
        schema_views(v).len() == v.len(),
        schema_views(v)[i].0 == v[i].name@,
        schema_views(v)[i].1 == v[i].description@,
        schema_views(v)[i].2 == v[i].parameters@,
{
}

/// The texts of a tool's answer are those of its text blocks.
pub proof fn law_texts_are_those_of_the_blocks(v: Seq<JsonView>)
    ensures
        block_texts(v) == v.filter(
            |b: JsonView| b.get_str("type"@) == Some("text"@) && b.get_str("text"@) is Some,
        ).map_values(|b: JsonView| b.get_str("text"@)->Some_0),
    decreases v.len(),
{
    reveal(Seq::filter);
    if v.len() > 0 {
        law_texts_are_those_of_the_blocks(v.drop_last());
    }
    assert(block_texts(v) =~= v.filter(
        |b: JsonView| b.get_str("type"@) == Some("text"@) && b.get_str("text"@) is Some,
    ).map_values(|b: JsonView| b.get_str("text"@)->Some_0));
}

/// A tool's answer holds the text of every text block, in order.
pub proof fn law_answer_holds_every_text(v: JsonView, a: Seq<JsonView>)
    requires
        v.get("content"@) == Some(JsonView::Arr(a)),
    ensures
        ({
            let texts = a.filter(
                |b: JsonView| b.get_str("type"@) == Some("text"@) && b.get_str("text"@) is Some,
            ).map_values(|b: JsonView| b.get_str("text"@)->Some_0);
            &&& in_order(content_of(v), texts)
            &&& content_of(v) == join(texts, "\n"@)
        }),
{
    law_texts_are_those_of_the_blocks(a);
    lemma_join_in_order(block_texts(a), "\n"@);
}

/// A tool's answer is a failure where it says so.
pub proof fn law_failure_is_said(v: JsonView)
    ensures
        says_error(v) <==> v.get("isError"@) == Some(JsonView::Bool(true)),
{
}

} // verus!
