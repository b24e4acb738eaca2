//! The command line: which configuration is read, what the listings tell, and
//! what a line typed at the prompt asks for.

use vstd::prelude::*;

use crate::config::{expand_tilde, expanded, opt_home};
use crate::console::SessionSummary;
use crate::models::{compact, format_tokens, info_views, known_models, registry, InfoView, ModelInfo};
use crate::text::{
    char_count, dec, dec_string, head, head_string, str_eq, strs, trim, trim_string,
};
use crate::types::{call_views, msg_views, Message, MessageView, Role, ToolCall, ToolCallView, UsageStats};

verus! {

/// Where the configuration comes from.
#[derive(Debug)]
pub enum ConfigSource {
    File(String),
    Defaults,
}

/// The configuration's usual place.
pub open spec fn usual_config(home: Option<Seq<char>>) -> Seq<char> {
    expanded("~/.r2/config.toml"@, home)
}

pub fn default_config_path(home: Option<&str>) -> (r: String)
    ensures
        r@ == usual_config(opt_home(home)),
{
    expand_tilde("~/.r2/config.toml", home)
}

/// Chooses the configuration: a file that was named must be there; the usual
/// one is read where it is there.
pub fn load_config(named: Option<&str>, named_exists: bool, home: Option<&str>, usual_exists: bool) -> (r: Result<
    ConfigSource,
    String,
>)
    ensures
        match named {
            Some(path) => if named_exists {
                r is Ok && r->Ok_0 is File && r->Ok_0->File_0@ == path@
            } else {
                r is Err && r->Err_0@ == "指定的配置文件不存在："@ + path@
            },
            None => r is Ok && (if usual_exists {
                r->Ok_0 is File && r->Ok_0->File_0@ == usual_config(opt_home(home))
            } else {
                r->Ok_0 is Defaults
            }),
        },
{
    match named {
        Some(path) => {
            if named_exists {
                Ok(ConfigSource::File(path.to_string()))
            } else {
                let mut e: String = "指定的配置文件不存在：".to_string();
                e.append(path);
                Err(e)
            }
        },
        None => {
            if usual_exists {
                Ok(ConfigSource::File(default_config_path(home)))
            } else {
                Ok(ConfigSource::Defaults)
            }
        },
    }
}

/// The directory of sessions, where it is there.
pub fn sessions_dir(dir: &str, home: Option<&str>, is_dir: bool) -> (r: Result<String, String>)
    ensures
        match r {
            Ok(d) => is_dir && d@ == expanded(dir@, opt_home(home)),
            Err(e) => !is_dir && e@ == "会话目录不可用："@ + expanded(dir@, opt_home(home)) + "（还没有任何会话记录）"@,
        },
{
    let d: String = expand_tilde(dir, home);
    if is_dir {
        Ok(d)
    } else {
        let mut e: String = "会话目录不可用：".to_string();
        e.append(d.as_str());
        e.append("（还没有任何会话记录）");
        Err(e)
    }
}

// ---------- listings ----------

/// A session's first words.
pub open spec fn preview_of(s: SessionSummary) -> Seq<char> {
    if s.first_user_preview@.len() == 0 {
        "（无用户消息）"@
    } else {
        s.first_user_preview@
    }
}

fn preview(s: &SessionSummary) -> (r: &str)
    ensures
        r@ == preview_of(*s),
{
    if s.first_user_preview.as_str().is_empty() {
        "（无用户消息）"
    } else {
        s.first_user_preview.as_str()
    }
}

/// The line on a session in the list.
pub open spec fn session_line(s: SessionSummary) -> Seq<char> {
    s.id@ + "  |  "@ + dec(s.message_count as nat) + " 条消息  |  ts="@ + dec(s.last_ts as nat) + "  |  "@ + preview_of(s)
}

/// The line on a session in the tree: a branch tells where it comes from.
pub open spec fn tree_line(s: SessionSummary) -> Seq<char> {
    let base = s.id@ + "  "@ + dec(s.message_count as nat) + "条  "@ + preview_of(s);
    match (s.branch_from, s.branch_upto) {
        (Some(parent), Some(upto)) => base + ("  ← 分支自 "@ + head(parent@, 8) + "@"@ + dec(upto as nat)),
        _ => base,
    }
}

/// The lines of a listing, or one that there is nothing.
pub open spec fn listing(v: Seq<SessionSummary>, tree: bool) -> Seq<Seq<char>> {
    if v.len() == 0 {
        seq!["暂无历史会话"@]
    } else {
        Seq::new(
            v.len(),
            |i: int|
                if tree {
                    tree_line(v[i])
                } else {
                    session_line(v[i])
                },
        )
    }
}

fn line_of(s: &SessionSummary, tree: bool) -> (r: String)
    ensures
        r@ == (if tree {
            tree_line(*s)
        } else {
            session_line(*s)
        }),
{
    let mut l: String = s.id.clone();
    let count: String = dec_string(s.message_count as u64);
    if tree {
        l.append("  ");
        l.append(count.as_str());
        l.append("条  ");
        l.append(preview(s));
        match (&s.branch_from, s.branch_upto) {
            (Some(parent), Some(upto)) => {
                let mut t: String = "  ← 分支自 ".to_string();
                let short: String = head_string(parent.as_str(), 8);
                t.append(short.as_str());
                t.append("@");
                let n: String = dec_string(upto as u64);
                t.append(n.as_str());
                l.append(t.as_str());
            },
            _ => {},
        }
    } else {
        l.append("  |  ");
        l.append(count.as_str());
        l.append(" 条消息  |  ts=");
        let ts: String = dec_string(s.last_ts);
        l.append(ts.as_str());
        l.append("  |  ");
        l.append(preview(s));
    }
    l
}

fn listing_lines(v: &Vec<SessionSummary>, tree: bool) -> (r: Vec<String>)
    ensures
        strs(r@) == listing(v@, tree),
{
    let mut out: Vec<String> = Vec::new();
    if v.len() == 0 {
        out.push("暂无历史会话".to_string());
        assert(strs(out@) =~= listing(v@, tree));
        return out;
    }
    let mut i: usize = 0;
    while i < v.len()
        invariant
            i <= v.len(),
            v.len() > 0,
            out@.len() == i,
            forall|k: int| 0 <= k < i ==> (#[trigger] out@[k])@ == listing(v@, tree)[k],
        decreases v.len() - i,
    {
        out.push(line_of(&v[i], tree));
        i += 1;
    }
    assert(strs(out@) =~= listing(v@, tree));
    out
}

/// The list of sessions.
pub fn print_sessions(v: &Vec<SessionSummary>) -> (r: Vec<String>)
    ensures
        strs(r@) == listing(v@, false),
{
    listing_lines(v, false)
}

/// The tree of sessions.
pub fn print_sessions_tree(v: &Vec<SessionSummary>) -> (r: Vec<String>)
    ensures
        strs(r@) == listing(v@, true),
{
    listing_lines(v, true)
}

// ---------- one session ----------

pub open spec fn role_name(r: Role) -> Seq<char> {
    match r {
        Role::System => "system"@,
        Role::User => "user"@,
        Role::Assistant => "assistant"@,
        Role::Tool => "tool"@,
    }
}

fn role_str(r: Role) -> (s: &'static str)
    ensures
        s@ == role_name(r),
{
    match r {
        Role::System => "system",
        Role::User => "user",
        Role::Assistant => "assistant",
        Role::Tool => "tool",
    }
}

/// The lines on tool calls.
pub open spec fn call_lines(v: Seq<ToolCallView>) -> Seq<Seq<char>> {
    Seq::new(v.len(), |i: int| "  → 工具调用 "@ + v[i].name + "("@ + head(v[i].arguments, 120) + ")"@)
}

/// The lines on a message.
pub open spec fn message_lines(m: MessageView) -> Seq<Seq<char>> {
    seq!["\n["@ + role_name(m.role) + "]"@] + (if m.content.len() > 0 {
        seq![m.content]
    } else {
        Seq::empty()
    }) + (match m.tool_calls {
        Some(c) => call_lines(c),
        None => Seq::empty(),
    })
}

/// The lines on the messages.
pub open spec fn messages_lines(v: Seq<MessageView>) -> Seq<Seq<char>>
    decreases v.len(),
{
    if v.len() == 0 {
        Seq::empty()
    } else {
        messages_lines(v.drop_last()) + message_lines(v.last())
    }
}

/// The line on what a session used; the cost is told where it is known.
pub open spec fn used_line(u: UsageStats, model: Seq<char>, cost: Option<Seq<char>>) -> Seq<char> {
    let base = "\n累计用量：输入 "@ + compact(u.input_tokens, "k"@, "M"@) + " tok · 输出 "@ + compact(
        u.output_tokens,
        "k"@,
        "M"@,
    ) + " tok · 调用 "@ + dec(u.llm_calls as nat) + " 次"@;
    match cost {
        Some(c) => base + (" · 成本 ≈ ¥"@ + c + "（按 "@ + model + " 估算）"@),
        None => base,
    }
}

/// The lines on a session: its messages, and what it used, if anything.
pub open spec fn session_lines(
    id: Seq<char>,
    v: Seq<MessageView>,
    u: UsageStats,
    model: Seq<char>,
    cost: Option<Seq<char>>,
) -> Seq<Seq<char>> {
    seq!["会话 "@ + id + "（"@ + dec(v.len()) + " 条消息）"@] + messages_lines(v) + (if u.llm_calls > 0 {
        seq![used_line(u, model, cost)]
    } else {
        Seq::empty()
    })
}

fn add_message(out: &mut Vec<String>, m: &Message)
    ensures
        strs(final(out)@) == strs(old(out)@) + message_lines(m@),
{
    let ghost start = strs(out@);
    let mut h: String = "\n[".to_string();
    h.append(role_str(m.role));
    h.append("]");
    let ghost hv = h@;
    out.push(h);
    assert(strs(out@) =~= start + seq![hv]);
    let ghost mut body: Seq<Seq<char>> = Seq::empty();
    if !m.content.as_str().is_empty() {
        out.push(m.content.clone());
        proof {
            body = seq![m.content@];
        }
    }
    assert(strs(out@) =~= start + seq![hv] + body);
    if let Some(calls) = &m.tool_calls {
        let ghost all = call_lines(call_views(calls@));
        let ghost base = strs(out@);
        let mut i: usize = 0;
        assert(base + all.take(0) =~= base);
        while i < calls.len()
            invariant
                i <= calls.len(),
                all == call_lines(call_views(calls@)),
                strs(out@) == base + all.take(i as int),
            decreases calls.len() - i,
        {
            let ghost before = strs(out@);
            let c: &ToolCall = &calls[i];
            let mut l: String = "  → 工具调用 ".to_string();
            l.append(c.name.as_str());
            l.append("(");
            let a: String = head_string(c.arguments.as_str(), 120);
            l.append(a.as_str());
            l.append(")");
            assert(l@ == all[i as int]);
            out.push(l);
            i += 1;
            assert(strs(out@) =~= before.push(all[i - 1]));
            assert(strs(out@) =~= base + all.take(i as int));
        }
        assert(all.take(i as int) =~= all);
        assert(strs(out@) =~= start + (seq![hv] + body + all));
    } else {
        assert(strs(out@) =~= start + (seq![hv] + body + Seq::<Seq<char>>::empty()));
    }
}

/// What is told of a session; `cost` is the cost in decimal, where it is known.
pub fn show_session(id: &str, messages: &Vec<Message>, u: &UsageStats, model: &str, cost: Option<&str>) -> (r: Vec<
    String,
>)
    ensures
        strs(r@) == session_lines(
            id@,
            msg_views(messages@),
            *u,
            model@,
            match cost {
                Some(c) => Some(c@),
                None => None,
            },
        ),
{
    let ghost all = msg_views(messages@);
    let mut out: Vec<String> = Vec::new();
    let mut h: String = "会话 ".to_string();
    h.append(id);
    h.append("（");
    let n: String = dec_string(messages.len() as u64);
    h.append(n.as_str());
    h.append(" 条消息）");
    let ghost first = seq![h@];
    out.push(h);
    let mut i: usize = 0;
    assert(strs(out@) =~= first + messages_lines(all.take(0)));
    while i < messages.len()
        invariant
            i <= messages.len(),
            all == msg_views(messages@),
            strs(out@) == first + messages_lines(all.take(i as int)),
        decreases messages.len() - i,
    {
        let ghost before = strs(out@);
        assert(all.take(i as int + 1).drop_last() =~= all.take(i as int));
        assert(all.take(i as int + 1).last() == messages@[i as int]@);
        add_message(&mut out, &messages[i]);
        assert(strs(out@) =~= first + messages_lines(all.take(i as int + 1)));
        i += 1;
    }
    assert(all.take(i as int) =~= all);
    let ghost body = strs(out@);
    if u.llm_calls > 0 {
        let mut l: String = "\n累计用量：输入 ".to_string();
        let a: String = format_tokens(u.input_tokens);
        l.append(a.as_str());
        l.append(" tok · 输出 ");
        let b: String = format_tokens(u.output_tokens);
        l.append(b.as_str());
        l.append(" tok · 调用 ");
        let c: String = dec_string(u.llm_calls);
        l.append(c.as_str());
        l.append(" 次");
        if let Some(x) = cost {
            let mut t: String = " · 成本 ≈ ¥".to_string();
            t.append(x);
            t.append("（按 ");
            t.append(model);
            t.append(" 估算）");
            l.append(t.as_str());
        }
        let ghost lv = l@;
        out.push(l);
        assert(strs(out@) =~= body + seq![lv]);
    } else {
        assert(body + Seq::<Seq<char>>::empty() =~= body);
    }
    out
}

// ---------- models ----------

/// So many spaces.
pub open spec fn spaces(n: nat) -> Seq<char> {
    Seq::new(n, |i: int| ' ')
}

/// The text with spaces behind it, up to a width.
pub open spec fn pad_right(s: Seq<char>, width: nat) -> Seq<char> {
    if s.len() >= width {
        s
    } else {
        s + spaces((width - s.len()) as nat)
    }
}

/// The text with spaces in front, up to a width.
pub open spec fn pad_left(s: Seq<char>, width: nat) -> Seq<char> {
    if s.len() >= width {
        s
    } else {
        spaces((width - s.len()) as nat) + s
    }
}

fn blank(n: usize) -> (r: String)
    ensures
        r@ == spaces(n as nat),
{
    let mut s: String = String::new();
    let mut i: usize = 0;
    assert(s@ =~= spaces(0));
    while i < n
        invariant
            i <= n,
            s@ == spaces(i as nat),
        decreases n - i,
    {
        s.push(' ');
        i += 1;
        assert(s@ =~= spaces(i as nat));
    }
    s
}

fn padded(s: &str, width: usize, left: bool) -> (r: String)
    ensures
        r@ == (if left {
            pad_left(s@, width as nat)
        } else {
            pad_right(s@, width as nat)
        }),
{
    let n: usize = char_count(s);
    if n >= width {
        return s.to_string();
    }
    let b: String = blank(width - n);
    if left {
        let mut r: String = b;
        r.append(s);
        r
    } else {
        let mut r: String = s.to_string();
        r.append(b.as_str());
        r
    }
}

/// A price in hundredths as a decimal number without needless zeros.
pub open spec fn price_text(hundredths: nat) -> Seq<char> {
    if hundredths % 100 == 0 {
        dec(hundredths / 100)
    } else if hundredths % 10 == 0 {
        dec(hundredths / 100) + "."@ + dec(hundredths % 100 / 10)
    } else {
        dec(hundredths / 100) + "."@ + dec(hundredths % 100 / 10) + dec(hundredths % 10)
    }
}

/// A price in hundredths as a decimal number.
pub fn price_string(hundredths: u64) -> (r: String)
    ensures
        r@ == price_text(hundredths as nat),
{
    let mut s: String = dec_string(hundredths / 100);
    if hundredths % 100 != 0 {
        s.append(".");
        let t: String = dec_string(hundredths % 100 / 10);
        s.append(t.as_str());
        if hundredths % 10 != 0 {
            let h: String = dec_string(hundredths % 10);
            s.append(h.as_str());
        }
    }
    s
}

/// A row of the table of models.
pub open spec fn model_row(
    name: Seq<char>,
    window: Seq<char>,
    input: Seq<char>,
    output: Seq<char>,
    tools: Seq<char>,
    provider: Seq<char>,
) -> Seq<char> {
    pad_right(name, 18) + " "@ + pad_left(window, 10) + " "@ + pad_left(input, 10) + " "@ + pad_left(output, 10) + " "@
        + pad_left(tools, 6) + "  "@ + provider
}

fn row(name: &str, window: &str, input: &str, output: &str, tools: &str, provider: &str) -> (r: String)
    ensures
        r@ == model_row(name@, window@, input@, output@, tools@, provider@),
{
    let mut s: String = padded(name, 18, false);
    s.append(" ");
    let a: String = padded(window, 10, true);
    s.append(a.as_str());
    s.append(" ");
    let b: String = padded(input, 10, true);
    s.append(b.as_str());
    s.append(" ");
    let c: String = padded(output, 10, true);
    s.append(c.as_str());
    s.append(" ");
    let d: String = padded(tools, 6, true);
    s.append(d.as_str());
    s.append("  ");
    s.append(provider);
    s
}

/// The row on a model.
pub open spec fn info_row(m: InfoView) -> Seq<char> {
    model_row(
        m.display_name,
        compact(m.context_window as u64, "k"@, "M"@),
        price_text(m.input_price as nat),
        price_text(m.output_price as nat),
        if m.tool_support {
            "✓"@
        } else {
            "✗"@
        },
        m.provider_hint,
    )
}

/// The rows on the models.
pub open spec fn info_rows(v: Seq<InfoView>) -> Seq<Seq<char>> {
    Seq::new(v.len(), |i: int| info_row(v[i]))
}

/// The table of models: a heading and a row for each. It has no columns for
/// subscriptions and endpoints: the registry holds neither.
pub fn model_table() -> (r: Vec<String>)
    ensures
        strs(r@) == seq![model_row("模型名"@, "窗口"@, "输入价"@, "输出价"@, "工具"@, "提供商"@)] + info_rows(known_models()),
{
    let mut out: Vec<String> = Vec::new();
    out.push(row("模型名", "窗口", "输入价", "输出价", "工具", "提供商"));
    let ghost first = strs(out@);
    let models: Vec<ModelInfo> = registry();
    let ghost all = info_rows(info_views(models@));
    let mut i: usize = 0;
    assert(strs(out@) =~= first + all.take(0));
    while i < models.len()
        invariant
            i <= models.len(),
            all == info_rows(info_views(models@)),
            strs(out@) == first + all.take(i as int),
        decreases models.len() - i,
    {
        let ghost before = strs(out@);
        let m: &ModelInfo = &models[i];
        let w: String = format_tokens(m.context_window as u64);
        let a: String = price_string(m.input_price);
        let b: String = price_string(m.output_price);
        let tools: &str = if m.tool_support {
            "✓"
        } else {
            "✗"
        };
        let l: String = row(m.display_name, w.as_str(), a.as_str(), b.as_str(), tools, m.provider_hint);
        assert(l@ == all[i as int]);
        out.push(l);
        i += 1;
        assert(strs(out@) =~= before.push(all[i - 1]));
        assert(strs(out@) =~= first + all.take(i as int));
    }
    assert(all.take(i as int) =~= all);
    assert(first =~= seq![model_row("模型名"@, "窗口"@, "输入价"@, "输出价"@, "工具"@, "提供商"@)]);
    out
}

// ---------- the prompt ----------

/// What a line typed at the prompt asks for.
#[derive(Debug)]
pub enum ReplLine {
    Nothing,
    Quit,
    Help,
    Clear,
    Run(String),
}

/// What a line asks for.
pub enum ReplView {
    Nothing,
    Quit,
    Help,
    Clear,
    Run(Seq<char>),
}

impl View for ReplLine {
    type V = ReplView;

    open spec fn view(&self) -> ReplView {
        match *self {
            ReplLine::Nothing => ReplView::Nothing,
            ReplLine::Quit => ReplView::Quit,
            ReplLine::Help => ReplView::Help,
            ReplLine::Clear => ReplView::Clear,
            ReplLine::Run(s) => ReplView::Run(s@),
        }
    }
}

/// What a line typed while nothing runs asks for.
pub fn repl_line(line: &str) -> (r: ReplLine)
    ensures
        r@ == ({
            let t = trim(line@);
            if t.len() == 0 {
                ReplView::Nothing
            } else if t == "/quit"@ || t == "/exit"@ {
                ReplView::Quit
            } else if t == "/help"@ {
                ReplView::Help
            } else if t == "/clear"@ {
                ReplView::Clear
            } else {
                ReplView::Run(t)
            }
        }),
{
    let t: String = trim_string(line);
    if t.as_str().is_empty() {
        ReplLine::Nothing
    } else if str_eq(t.as_str(), "/quit") || str_eq(t.as_str(), "/exit") {
        ReplLine::Quit
    } else if str_eq(t.as_str(), "/help") {
        ReplLine::Help
    } else if str_eq(t.as_str(), "/clear") {
        ReplLine::Clear
    } else {
        ReplLine::Run(t)
    }
}

/// What a line typed during a run asks for: to end after it, or to steer it.
pub fn running_line(line: &str) -> (r: ReplLine)
    ensures
        r@ == ({
            let t = trim(line@);
            if t.len() == 0 {
                ReplView::Nothing
            } else if t == "/quit"@ || t == "/exit"@ {
                ReplView::Quit
            } else {
                ReplView::Run(t)
            }
        }),
{
    let t: String = trim_string(line);
    if t.as_str().is_empty() {
        ReplLine::Nothing
    } else if str_eq(t.as_str(), "/quit") || str_eq(t.as_str(), "/exit") {
        ReplLine::Quit
    } else {
        ReplLine::Run(t)
    }
}

/// What is told of a line that steers a run.
pub fn steer_line(text: &str) -> (r: String)
    ensures
        r@ == "\n[steer] 指令已注入: "@ + head(text@, 60),
{
    let mut s: String = "\n[steer] 指令已注入: ".to_string();
    let h: String = head_string(text, 60);
    s.append(h.as_str());
    s
}

/// The line at the start.
pub fn banner(version: &str, session: Option<&str>) -> (r: String)
    ensures
        r@ == (match session {
            Some(id) => "R2 v"@ + version@ + " | 会话 "@ + id@ + " | /help 帮助"@,
            None => "R2 v"@ + version@ + " | /help 帮助"@,
        }),
{
    let mut s: String = "R2 v".to_string();
    s.append(version);
    if let Some(id) = session {
        s.append(" | 会话 ");
        s.append(id);
    }
    s.append(" | /help 帮助");
    s
}

/// What is told after the conversation was cleared.
pub fn cleared(session: Option<&str>) -> (r: String)
    ensures
        r@ == (match session {
            Some(id) => "已清空上下文，新会话："@ + id@,
            None => "已清空上下文"@,
        }),
{
    match session {
        Some(id) => {
            let mut s: String = "已清空上下文，新会话：".to_string();
            s.append(id);
            s
        },
        None => "已清空上下文".to_string(),
    }
}

} // verus!
