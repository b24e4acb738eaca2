//! What the command line shows: sessions, messages, models and what they cost.

use vstd::arithmetic::power2::{lemma2_to64, lemma_pow2_pos, lemma_pow2_unfold, pow2};
use vstd::prelude::*;

use crate::cli::{
    call_lines, info_row, info_rows, listing, message_lines, messages_lines, model_row, pad_left, pad_right,
    preview_of, price_text, role_name, session_line, session_lines, tree_line, used_line, usual_config, ReplLine,
    ReplView,
};
use crate::config::opt_home;
use crate::console::SessionSummary;
use crate::models::{
    as_double, best_match, compact, cost_of, double_tenths, info_of, info_views, quotient_shift, round_even,
    spare_bits, InfoView, ModelInfo,
};
use crate::text::{contains_text, dec, digit, head, occurs_at};
use crate::types::{MessageView, Role, ToolCallView, UsageStats};

use super::group_holds;

verus! {

/// The usual configuration lies below the home directory.
pub proof fn law_usual_configuration(home: &str)
    ensures
        usual_config(Some(home@)) == home@ + "/"@ + ".r2/config.toml"@,
        opt_home(Some(home)) == Some(home@),
        opt_home(None) is None,
{
    super::settings::law_home_paths(".r2/config.toml"@, Seq::empty(), home@);
    reveal_strlit("~/.r2/config.toml");
    reveal_strlit("~/");
    reveal_strlit(".r2/config.toml");
    assert("~/.r2/config.toml"@ =~= "~/"@ + ".r2/config.toml"@);
}

/// A session is shown with its number, how many messages it has, its time and
/// how it began.
pub proof fn law_session_is_shown(s: SessionSummary)
    ensures
        contains_text(session_line(s), s.id@),
        contains_text(session_line(s), dec(s.message_count as nat) + " 条消息"@),
        contains_text(session_line(s), "ts="@ + dec(s.last_ts as nat)),
        s.first_user_preview@.len() > 0 ==> contains_text(session_line(s), s.first_user_preview@),
        s.first_user_preview@.len() == 0 ==> contains_text(session_line(s), "（无用户消息）"@),
{
    broadcast use group_holds;

    let count = dec(s.message_count as nat);
    let ts = dec(s.last_ts as nat);
    assert(" 条消息  |  ts="@ =~= " 条消息"@ + "  |  "@ + "ts="@) by {
        reveal_strlit(" 条消息  |  ts=");
        reveal_strlit(" 条消息");
        reveal_strlit("  |  ");
        reveal_strlit("ts=");
    }
    let a = s.id@ + "  |  "@;
    let b = count + " 条消息"@;
    let d = "ts="@ + ts;
    let t = a + b + "  |  "@ + d + "  |  "@ + preview_of(s);
    assert(a + count + (" 条消息"@ + "  |  "@ + "ts="@) + ts =~= a + b + "  |  "@ + d);
    assert(session_line(s) == t);
    assert(contains_text(t, b));
    assert(contains_text(t, d));
    assert(contains_text(t, preview_of(s)));
}

/// In the tree a session is shown with its number, how many messages it has,
/// how it began, and the session and the place it branched from.
pub proof fn law_session_is_shown_in_the_tree(s: SessionSummary)
    ensures
        contains_text(tree_line(s), s.id@),
        contains_text(tree_line(s), dec(s.message_count as nat) + "条"@),
        s.first_user_preview@.len() > 0 ==> contains_text(tree_line(s), s.first_user_preview@),
        s.branch_from is Some && s.branch_upto is Some ==> contains_text(
            tree_line(s),
            "分支自 "@ + head(s.branch_from->Some_0@, 8) + "@"@ + dec(s.branch_upto->Some_0 as nat),
        ),
{
    broadcast use group_holds;

    let count = dec(s.message_count as nat);
    assert("条  "@ =~= "条"@ + "  "@) by {
        reveal_strlit("条  ");
        reveal_strlit("条");
        reveal_strlit("  ");
    }
    let a = s.id@ + "  "@;
    let b = count + "条"@;
    let base = a + b + "  "@ + preview_of(s);
    assert(a + count + ("条"@ + "  "@) =~= a + b + "  "@);
    assert(contains_text(base, b));
    assert(contains_text(base, s.id@));
    assert(contains_text(base, preview_of(s)));
    if s.branch_from is Some && s.branch_upto is Some {
        let p = head(s.branch_from->Some_0@, 8);
        let u = dec(s.branch_upto->Some_0 as nat);
        assert("  ← 分支自 "@ =~= "  ← "@ + "分支自 "@) by {
            reveal_strlit("  ← 分支自 ");
            reveal_strlit("  ← ");
            reveal_strlit("分支自 ");
        }
        let w = "分支自 "@ + p + "@"@ + u;
        assert("  ← 分支自 "@ + p + "@"@ + u =~= "  ← "@ + w);
        assert(tree_line(s) == base + ("  ← "@ + w));
        assert(contains_text("  ← "@ + w, w));
        super::lemma_right_holds(base, "  ← "@ + w, w);
        super::lemma_left_holds(base, "  ← "@ + w, b);
        super::lemma_left_holds(base, "  ← "@ + w, s.id@);
        super::lemma_left_holds(base, "  ← "@ + w, preview_of(s));
    } else {
        assert(tree_line(s) == base);
    }
}

/// Every session has a line of its own, in its order.
pub proof fn law_every_session_is_listed(v: Seq<SessionSummary>, i: int)
    requires
        0 <= i < v.len(),
    ensures
        listing(v, false).len() == v.len(),
        listing(v, true).len() == v.len(),
        listing(v, false)[i] == session_line(v[i]),
        listing(v, true)[i] == tree_line(v[i]),
        contains_text(listing(v, false)[i], v[i].id@),
        contains_text(listing(v, true)[i], v[i].id@),
{
    law_session_is_shown(v[i]);
    law_session_is_shown_in_the_tree(v[i]);
}

/// A message is shown with its role, its text, and a line for each of its calls.
pub proof fn law_message_is_shown(m: MessageView, i: int)
    ensures
        ({
            let t = message_lines(m);
            let n = m.tool_calls->Some_0.len() as int;
            let first = if m.content.len() > 0 {
                2int
            } else {
                1
            };
            &&& m.role == Role::System ==> t[0] == "\n["@ + "system"@ + "]"@
            &&& m.role == Role::User ==> t[0] == "\n["@ + "user"@ + "]"@
            &&& m.role == Role::Assistant ==> t[0] == "\n["@ + "assistant"@ + "]"@
            &&& m.role == Role::Tool ==> t[0] == "\n["@ + "tool"@ + "]"@
            &&& m.content.len() > 0 ==> t.len() > 1 && t[1] == m.content
            &&& m.tool_calls is None ==> t.len() == first
            &&& m.tool_calls is Some ==> t.len() == first + n
            &&& m.tool_calls is Some && 0 <= i < n ==> t[first + i] == "  → 工具调用 "@ + m.tool_calls->Some_0[i].name
                + "("@ + head(m.tool_calls->Some_0[i].arguments, 120) + ")"@
        }),
{
    if m.tool_calls is Some && 0 <= i < m.tool_calls->Some_0.len() {
        let c: Seq<ToolCallView> = m.tool_calls->Some_0;
        assert(call_lines(c)[i] == "  → 工具调用 "@ + c[i].name + "("@ + head(c[i].arguments, 120) + ")"@);
    }
    assert(role_name(Role::Tool) == "tool"@);
}

/// The lines of a conversation are those of its messages, one after the other.
pub proof fn law_messages_are_shown_in_order(v: Seq<MessageView>, w: Seq<MessageView>, m: MessageView)
    ensures
        messages_lines(v + w) == messages_lines(v) + messages_lines(w),
        messages_lines(seq![m]) == message_lines(m),
        messages_lines(Seq::empty()) == Seq::<Seq<char>>::empty(),
    decreases w.len(),
{
    assert(seq![m].drop_last() =~= Seq::<MessageView>::empty());
    assert(messages_lines(Seq::<MessageView>::empty()) =~= Seq::<Seq<char>>::empty());
    assert(messages_lines(seq![m]) =~= message_lines(m));
    if w.len() == 0 {
        assert(v + w =~= v);
        assert(messages_lines(v + w) =~= messages_lines(v) + messages_lines(w));
    } else {
        law_messages_are_shown_in_order(v, w.drop_last(), m);
        assert((v + w).drop_last() =~= v + w.drop_last());
        assert(messages_lines(v + w) =~= messages_lines(v) + messages_lines(w));
    }
}

/// A session is shown with its number and the number of its messages first,
/// then all messages, then what was used where anything was.
pub proof fn law_session_is_shown_whole(
    id: Seq<char>,
    v: Seq<MessageView>,
    u: UsageStats,
    model: Seq<char>,
    cost: Option<Seq<char>>,
)
    ensures
        ({
            let t = session_lines(id, v, u, model, cost);
            let n = messages_lines(v).len() as int;
            &&& contains_text(t[0], id)
            &&& contains_text(t[0], dec(v.len()) + " 条消息"@)
            &&& t.subrange(1, n + 1) == messages_lines(v)
            &&& u.llm_calls == 0 ==> t.len() == n + 1
            &&& u.llm_calls > 0 ==> t.len() == n + 2 && t[n + 1] == used_line(u, model, cost)
        }),
{
    broadcast use group_holds;

    let t = session_lines(id, v, u, model, cost);
    let n = messages_lines(v).len() as int;
    assert(" 条消息）"@ =~= " 条消息"@ + "）"@) by {
        reveal_strlit(" 条消息）");
        reveal_strlit(" 条消息");
        reveal_strlit("）");
    }
    let a = "会话 "@ + id + "（"@;
    let b = dec(v.len()) + " 条消息"@;
    assert(a + dec(v.len()) + (" 条消息"@ + "）"@) =~= a + b + "）"@);
    assert(t[0] == a + b + "）"@);
    assert(contains_text(a + b + "）"@, b));
    assert(contains_text(a + b + "）"@, id));
    assert(t.subrange(1, n + 1) =~= messages_lines(v));
}

/// What was used is shown: what went in, what came out, how many calls, and
/// the cost with the model it was counted for.
pub proof fn law_use_is_shown(u: UsageStats, model: Seq<char>, cost: Option<Seq<char>>)
    ensures
        ({
            let t = used_line(u, model, cost);
            &&& contains_text(t, "输入 "@ + compact(u.input_tokens, "k"@, "M"@))
            &&& contains_text(t, "输出 "@ + compact(u.output_tokens, "k"@, "M"@))
            &&& contains_text(t, "调用 "@ + dec(u.llm_calls as nat) + " 次"@)
            &&& cost is Some ==> contains_text(t, "¥"@ + cost->Some_0) && contains_text(t, "按 "@ + model)
        }),
{
    broadcast use group_holds;

    let i = compact(u.input_tokens, "k"@, "M"@);
    let o = compact(u.output_tokens, "k"@, "M"@);
    let n = dec(u.llm_calls as nat);
    assert("\n累计用量：输入 "@ =~= "\n累计用量："@ + "输入 "@) by {
        reveal_strlit("\n累计用量：输入 ");
        reveal_strlit("\n累计用量：");
        reveal_strlit("输入 ");
    }
    assert(" tok · 输出 "@ =~= " tok · "@ + "输出 "@) by {
        reveal_strlit(" tok · 输出 ");
        reveal_strlit(" tok · ");
        reveal_strlit("输出 ");
    }
    assert(" tok · 调用 "@ =~= " tok · "@ + "调用 "@) by {
        reveal_strlit(" tok · 调用 ");
        reveal_strlit(" tok · ");
        reveal_strlit("调用 ");
    }
    let a = "\n累计用量："@ + ("输入 "@ + i);
    let b = a + " tok · "@ + ("输出 "@ + o);
    let c = b + " tok · "@ + ("调用 "@ + n + " 次"@);
    assert("\n累计用量："@ + "输入 "@ + i =~= a);
    assert(a + (" tok · "@ + "输出 "@) + o =~= b);
    assert(b + (" tok · "@ + "调用 "@) + n + " 次"@ =~= c);
    assert(contains_text(c, "输入 "@ + i));
    assert(contains_text(c, "输出 "@ + o));
    assert(contains_text(c, "调用 "@ + n + " 次"@));
    if cost is Some {
        let x = cost->Some_0;
        assert(" · 成本 ≈ ¥"@ =~= " · 成本 ≈ "@ + "¥"@) by {
            reveal_strlit(" · 成本 ≈ ¥");
            reveal_strlit(" · 成本 ≈ ");
            reveal_strlit("¥");
        }
        assert("（按 "@ =~= "（"@ + "按 "@) by {
            reveal_strlit("（按 ");
            reveal_strlit("（");
            reveal_strlit("按 ");
        }
        let d = " · 成本 ≈ "@ + ("¥"@ + x) + "（"@ + ("按 "@ + model) + " 估算）"@;
        assert(" · 成本 ≈ "@ + "¥"@ + x + ("（"@ + "按 "@) + model + " 估算）"@ =~= d);
        assert(used_line(u, model, cost) == c + d);
        assert(contains_text(d, "¥"@ + x));
        assert(contains_text(d, "按 "@ + model));
    }
}

/// A column that is filled up keeps its text, on the left or on the right, and
/// has blanks beside it.
pub proof fn law_columns_are_filled_up(s: Seq<char>, width: nat, i: int)
    ensures
        occurs_at(pad_right(s, width), s, 0),
        occurs_at(pad_left(s, width), s, pad_left(s, width).len() - s.len()),
        pad_right(s, width).len() == pad_left(s, width).len(),
        pad_right(s, width).len() == if s.len() >= width {
            s.len()
        } else {
            width
        },
        s.len() <= i < pad_right(s, width).len() ==> pad_right(s, width)[i] == ' ',
        0 <= i < pad_left(s, width).len() - s.len() ==> pad_left(s, width)[i] == ' ',
{
    let r = pad_right(s, width);
    let l = pad_left(s, width);
    assert(r.subrange(0, s.len() as int) =~= s);
    assert(l.subrange(l.len() - s.len(), l.len() as int) =~= s);
}

/// A row holds all its columns.
pub proof fn law_row_holds_its_columns(
    name: Seq<char>,
    window: Seq<char>,
    input: Seq<char>,
    output: Seq<char>,
    tools: Seq<char>,
    provider: Seq<char>,
)
    ensures
        ({
            let t = model_row(name, window, input, output, tools, provider);
            &&& occurs_at(t, name, 0)
            &&& contains_text(t, window)
            &&& contains_text(t, input)
            &&& contains_text(t, output)
            &&& contains_text(t, tools)
            &&& occurs_at(t, provider, t.len() - provider.len())
            &&& super::in_order(t, seq![name, window, input, output, tools, provider])
        }),
{
    let t = model_row(name, window, input, output, tools, provider);
    law_columns_are_filled_up(name, 18, 0);
    law_columns_are_filled_up(window, 10, 0);
    law_columns_are_filled_up(input, 10, 0);
    law_columns_are_filled_up(output, 10, 0);
    law_columns_are_filled_up(tools, 6, 0);
    let n = pad_right(name, 18);
    let w = pad_left(window, 10);
    let i = pad_left(input, 10);
    let o = pad_left(output, 10);
    let k = pad_left(tools, 6);
    let a = n.len() + " "@.len() + w.len();
    let b = a + " "@.len() + i.len();
    let c = b + " "@.len() + o.len();
    let d = c + " "@.len() + k.len();
    assert(t.subrange(0, name.len() as int) =~= n.subrange(0, name.len() as int));
    assert(t.subrange(a - window.len(), a as int) =~= w.subrange(w.len() - window.len(), w.len() as int));
    assert(t.subrange(b - input.len(), b as int) =~= i.subrange(i.len() - input.len(), i.len() as int));
    assert(t.subrange(c - output.len(), c as int) =~= o.subrange(o.len() - output.len(), o.len() as int));
    assert(t.subrange(d - tools.len(), d as int) =~= k.subrange(k.len() - tools.len(), k.len() as int));
    assert(t.subrange(t.len() - provider.len(), t.len() as int) =~= provider);
    assert(occurs_at(t, window, a - window.len()));
    assert(occurs_at(t, input, b - input.len()));
    assert(occurs_at(t, output, c - output.len()));
    assert(occurs_at(t, tools, d - tools.len()));
    let parts = seq![name, window, input, output, tools, provider];
    let at = seq![
        0int,
        a - window.len(),
        b - input.len(),
        c - output.len(),
        d - tools.len(),
        t.len() - provider.len(),
    ];
    assert(super::placed(t, parts, at));
}

/// A model is shown with its name, its window, both its prices and who offers
/// it, the price of what goes in before that of what comes out.
pub proof fn law_model_is_shown(v: Seq<InfoView>, i: int)
    requires
        0 <= i < v.len(),
    ensures
        info_rows(v).len() == v.len(),
        super::in_order(
            info_rows(v)[i],
            seq![
                v[i].display_name,
                compact(v[i].context_window as u64, "k"@, "M"@),
                price_text(v[i].input_price as nat),
                price_text(v[i].output_price as nat),
                if v[i].tool_support {
                    "✓"@
                } else {
                    "✗"@
                },
                v[i].provider_hint,
            ],
        ),
{
    let m = v[i];
    assert(info_rows(v)[i] == info_row(m));
    law_row_holds_its_columns(
        m.display_name,
        compact(m.context_window as u64, "k"@, "M"@),
        price_text(m.input_price as nat),
        price_text(m.output_price as nat),
        if m.tool_support {
            "✓"@
        } else {
            "✗"@
        },
        m.provider_hint,
    );
}

/// A price is written with as many places as it needs.
pub proof fn law_prices_are_written(whole: nat, tenths: nat, hundredths: nat)
    requires
        tenths < 10,
        hundredths < 10,
    ensures
        price_text(100 * whole) == dec(whole),
        tenths > 0 ==> price_text(100 * whole + 10 * tenths) == dec(whole) + "."@ + dec(tenths),
        hundredths > 0 ==> price_text(100 * whole + 10 * tenths + hundredths) == dec(whole) + "."@ + dec(tenths) + dec(
            hundredths,
        ),
{
    let p = 100 * whole + 10 * tenths + hundredths;
    assert(p / 100 == whole);
    assert(p % 100 / 10 == tenths);
    assert(p % 10 == hundredths);
    assert((100 * whole) % 100 == 0);
    assert((100 * whole + 10 * tenths) % 100 == 10 * tenths);
    assert((100 * whole + 10 * tenths) % 10 == 0);
}

/// What is stated of a model is stated of its fields.
pub proof fn law_models_are_their_fields(m: ModelInfo, v: Seq<ModelInfo>, i: int)
    ensures
        m@.key == m.key@ && m@.display_name == m.display_name@ && m@.provider_hint == m.provider_hint@,
        m@.context_window == m.context_window && m@.tool_support == m.tool_support,
        m@.input_price == m.input_price && m@.output_price == m.output_price,
        info_views(v).len() == v.len(),
        0 <= i < v.len() ==> info_views(v)[i] == v[i]@,
{
}

/// A model is listed under its key, with what was said of it.
pub proof fn law_model_is_listed(
    key: Seq<char>,
    context_window: usize,
    input_price: u64,
    output_price: u64,
    tool_support: bool,
    provider_hint: Seq<char>,
)
    ensures
        ({
            let m = info_of(key, context_window, input_price, output_price, tool_support, provider_hint);
            &&& m.key == key && m.display_name == key && m.provider_hint == provider_hint
            &&& m.context_window == context_window && m.tool_support == tool_support
            &&& m.input_price == input_price && m.output_price == output_price
        }),
{
}

/// The model of a name is the one with the longest key that the name holds, and
/// the last of those.
pub proof fn law_model_of_a_name(models: Seq<InfoView>, name: Seq<char>)
    ensures
        match best_match(models, name) {
            Some(i) => {
                &&& 0 <= i < models.len()
                &&& contains_text(name, models[i].key)
                &&& forall|j: int|
                    0 <= j < models.len() && contains_text(name, #[trigger] models[j].key) ==> models[j].key.len()
                        <= models[i].key.len() && (j > i ==> models[j].key.len() < models[i].key.len())
            },
            None => forall|j: int| 0 <= j < models.len() ==> !contains_text(name, #[trigger] models[j].key),
        },
    decreases models.len(),
{
    if models.len() > 0 {
        let p = models.drop_last();
        law_model_of_a_name(p, name);
        assert forall|j: int| 0 <= j < p.len() implies p[j] == #[trigger] models[j] by {}
    }
}

/// What goes in is paid at the one price, what comes out at the other.
pub proof fn law_cost_is_the_sum(m: InfoView, u: UsageStats, a: UsageStats, b: UsageStats)
    ensures
        u.output_tokens == 0 ==> cost_of(m, u) == m.input_price * u.input_tokens,
        u.input_tokens == 0 ==> cost_of(m, u) == m.output_price * u.output_tokens,
        u.input_tokens == a.input_tokens + b.input_tokens && u.output_tokens == a.output_tokens + b.output_tokens
            ==> cost_of(m, u) == cost_of(m, a) + cost_of(m, b),
{
    assert(m.input_price * 0 == 0 && m.output_price * 0 == 0);
    if u.input_tokens == a.input_tokens + b.input_tokens && u.output_tokens == a.output_tokens + b.output_tokens {
        assert(m.input_price * u.input_tokens == m.input_price * a.input_tokens + m.input_price * b.input_tokens)
            by (nonlinear_arith)
            requires
                u.input_tokens == a.input_tokens + b.input_tokens,
        ;
        assert(m.output_price * u.output_tokens == m.output_price * a.output_tokens + m.output_price * b.output_tokens)
            by (nonlinear_arith)
            requires
                u.output_tokens == a.output_tokens + b.output_tokens,
        ;
    }
}

/// Rounding gives the nearest whole number.
pub proof fn law_rounding_is_close(num: nat, den: nat)
    requires
        den > 0,
    ensures
        -(den as int) <= 2 * (num - round_even(num, den) * den) <= den,
{
    let q = num / den;
    let rest = num % den;
    assert(num == q * den + rest && rest < den) by (nonlinear_arith)
        requires
            den > 0,
            q == num / den,
            rest == num % den,
    ;
    assert((q + 1) * den == q * den + den) by (nonlinear_arith);
}

proof fn lemma_shifted_far(n: nat, unit: nat)
    requires
        n > 0,
        unit > 0,
    ensures
        n * pow2(quotient_shift(n, unit)) >= unit * 0x10_0000_0000_0000,
    decreases
            (if n < unit * 0x10_0000_0000_0000 {
                unit * 0x10_0000_0000_0000 - n
            } else {
                0
            }),
{
    lemma2_to64();
    if n < unit * 0x10_0000_0000_0000 {
        lemma_shifted_far(n * 2, unit);
        let s = quotient_shift(n * 2, unit);
        lemma_pow2_unfold(1 + s);
        assert(n * 2 * pow2(s) == n * (2 * pow2(s))) by (nonlinear_arith);
    } else {
        assert(n * pow2(0) == n) by (nonlinear_arith)
            requires
                pow2(0) == 1,
        ;
    }
}

/// A count of up to a trillion is shown as the nearest tenth of its unit.
pub proof fn law_nearest_tenth(n: nat, unit: nat)
    requires
        0 < n < 0x100_0000_0000,
        0 < unit,
    ensures
        -(unit as int) <= 2 * (10 * n - double_tenths(n, unit) * unit) <= unit,
{
    lemma2_to64();
    assert(spare_bits(n) == 0);
    law_rounding_is_close(n, 1);
    assert(as_double(n) == n) by {
        let r = round_even(n, 1);
        assert(n / 1 == n && n % 1 == 0);
        assert(r == n);
        assert(n * pow2(0) == n) by (nonlinear_arith)
            requires
                pow2(0) == 1,
        ;
    }
    let s = quotient_shift(n, unit);
    let p = pow2(s);
    lemma_pow2_pos(s);
    lemma_shifted_far(n, unit);
    let m = round_even(n * p, unit);
    let t = round_even(m * 10, p);
    law_rounding_is_close(n * p, unit);
    law_rounding_is_close(m * 10, p);
    assert(t == double_tenths(n, unit));
    assert(p > 10 * unit) by (nonlinear_arith)
        requires
            n * p >= unit * 0x10_0000_0000_0000,
            0 < n < 0x100_0000_0000,
            unit > 0,
            p > 0,
    ;
    let e = 10 * n - t * unit;
    let x = n * p - m * unit;
    let y = m * 10 - t * p;
    assert(e * p == 10 * x + unit * y) by (nonlinear_arith)
        requires
            e == 10 * n - t * unit,
            x == n * p - m * unit,
            y == m * 10 - t * p,
    ;
    assert(-(unit * p) <= 2 * (unit * y) <= unit * p) by (nonlinear_arith)
        requires
            -(p as int) <= 2 * y <= p,
            unit > 0,
    ;
    assert(2 * (e * p) < unit * p + p && 2 * (e * p) > -(unit * p) - p);
    assert(2 * e < unit + 1 && 2 * e > -(unit as int) - 1) by (nonlinear_arith)
        requires
            2 * (e * p) < unit * p + p,
            2 * (e * p) > -(unit * p) - p,
            p > 0,
    ;
}

/// A small count is written out; a larger one is shown in thousands or in
/// millions, to the nearest tenth.
pub proof fn law_counts_are_shown(n: u64, kilo: Seq<char>, mega: Seq<char>)
    ensures
        n < 1000 ==> compact(n, kilo, mega) == dec(n as nat),
        1000 <= n < 1_000_000 ==> exists|t: nat|
            #![trigger dec(t / 10)]
            compact(n, kilo, mega) == dec(t / 10) + "."@ + seq![digit(t % 10)] + kilo && -1000 <= 2 * (10 * n - 1000 * t)
                <= 1000,
        1_000_000 <= n < 0x100_0000_0000 ==> exists|t: nat|
            #![trigger dec(t / 10)]
            compact(n, kilo, mega) == dec(t / 10) + "."@ + seq![digit(t % 10)] + mega && -1_000_000 <= 2 * (10 * n
                - 1_000_000 * t) <= 1_000_000,
{
    if 1000 <= n < 1_000_000 {
        law_nearest_tenth(n as nat, 1000);
        let t = double_tenths(n as nat, 1000);
        assert(compact(n, kilo, mega) == dec(t / 10) + "."@ + seq![digit(t % 10)] + kilo);
    } else if 1_000_000 <= n < 0x100_0000_0000 {
        law_nearest_tenth(n as nat, 1_000_000);
        let t = double_tenths(n as nat, 1_000_000);
        assert(compact(n, kilo, mega) == dec(t / 10) + "."@ + seq![digit(t % 10)] + mega);
    }
}

/// What a line at the prompt turned out to be is seen as it is.
pub proof fn law_lines_are_their_texts(l: ReplLine)
    ensures
        l is Nothing <==> l@ is Nothing,
        l is Quit <==> l@ is Quit,
        l is Help <==> l@ is Help,
        l is Clear <==> l@ is Clear,
        l is Run ==> l@ == ReplView::Run(l->Run_0@),
{
}

} // verus!
