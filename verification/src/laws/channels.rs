//! Private messages: who may write, what a message is, what is shown of a run,
//! which channels run, and what is sent.

use vstd::prelude::*;

use crate::agents::{AgentProfile, ChannelFeishu};
use crate::cards::{
    card_elements, card_json, message_body, new_card, send_url, step_body, step_failure, step_hint, step_letter,
    step_path, throttled, CardStep, CardView,
};
use crate::channels::{
    ack_payload, ack_view, attempts_after, clamp_params, content_text, dedup_key, default_params, endpoint_params,
    endpoint_url, event_dm, fatal_code, frag_after, frag_result, frags_after_frame, frame_event, header_number,
    header_value, joined_parts, loop_action, opt_dm, params_after, payload_dm, ping_view, put_part, reply_code,
    reply_failure, service_among, service_id_of, service_in, token_lifetime, update_params, ChannelStatus,
    ClientParams, FeishuConfig, FeishuDm, FragView, LoopAction, LoopEvent, Parts, StatusView, FRAG_TTL_NANOS,
};
use crate::config::ModelProfile;
use crate::dm::{
    asked_channel, call_summary, channel_config, channel_form, channel_forms, final_text, late_items, may_write,
    mode_of, model_lines, opt_status, shown, slash_of, stale, starts, status_for, status_text, wants_channel, DmAction,
    DmActionView, DmOutcome, DmShowView, RunView, RunningChannel, ShowProcess, Slash, SlashView,
};
use crate::events::AgentEventView;
use crate::json::{json_parsed, json_parsed_bytes, json_printed, JsonView};
use crate::pb::{FrameView, HeaderView};
use crate::text::{
    contains_text, dec, dec_int, dec_value, first_index, head, is_digit, leading_digits, lemma_first_index, occurs_at,
    parsed_uint, split, strs, trim,
};

use super::{group_holds, group_members};

verus! {

broadcast use group_members;

/// Who may write to a channel: everyone, those on the list, all but those on
/// the list, or nobody, as its policy says.
pub proof fn law_who_may_write(cf: ChannelFeishu, id: Seq<char>)
    ensures
        cf.dm_policy@ == "allow_all"@ ==> may_write(cf, id),
        cf.dm_policy@ == "allow_list"@ ==> (may_write(cf, id) <==> strs(cf.policy_list@).contains(id)),
        cf.dm_policy@ == "deny_list"@ ==> (may_write(cf, id) <==> !strs(cf.policy_list@).contains(id)),
        cf.dm_policy@ == "deny_all"@ && cf.allow_from@.len() == 0 ==> !may_write(cf, id),
        cf.dm_policy@.len() == 0 && strs(cf.allow_from@).contains("*"@) ==> may_write(cf, id),
        cf.dm_policy@.len() == 0 && cf.allow_from@.len() > 0 && !strs(cf.allow_from@).contains("*"@) ==> (may_write(
            cf,
            id,
        ) <==> strs(cf.allow_from@).contains(id)),
        cf.dm_policy@.len() == 0 && cf.allow_from@.len() == 0 ==> !may_write(cf, id),
{
    reveal_strlit("allow_all");
    reveal_strlit("allow_list");
    reveal_strlit("deny_list");
    reveal_strlit("deny_all");
    assert("allow_all"@.len() != "allow_list"@.len());
    assert("allow_all"@[0] != "deny_list"@[0]);
    assert("allow_all"@.len() != "deny_all"@.len());
    assert("allow_list"@.len() != "deny_list"@.len());
    assert("allow_list"@.len() != "deny_all"@.len());
    assert("deny_list"@.len() != "deny_all"@.len());
    if cf.allow_from@.len() == 0 {
        assert(!strs(cf.allow_from@).contains("*"@));
    }
}

/// The ways to show a run.
pub proof fn law_ways_to_show(s: Seq<char>)
    ensures
        mode_of("none"@) == ShowProcess::Silent,
        mode_of("full"@) == ShowProcess::Full,
        mode_of("compact"@) == ShowProcess::Compact,
        s != "none"@ && s != "full"@ ==> mode_of(s) == ShowProcess::Compact,
{
    reveal_strlit("none");
    reveal_strlit("full");
    reveal_strlit("compact");
    assert("none"@[0] != "full"@[0]);
    assert("none"@.len() != "compact"@.len());
    assert("full"@.len() != "compact"@.len());
}

/// A tool call is shown with its name and the start of its arguments.
pub proof fn law_call_is_shown(name: Seq<char>, arguments: Seq<char>)
    ensures
        contains_text(call_summary(name, arguments), name + " "@),
        arguments.len() <= 60 ==> contains_text(call_summary(name, arguments), name + " "@ + arguments),
        arguments.len() > 60 ==> contains_text(call_summary(name, arguments), arguments.take(60)),
        call_summary(name, arguments).len() <= "🔧 "@.len() + name.len() + " "@.len() + 61,
{
    if arguments.len() > 60 {
        assert(head(arguments, 60).push('…') =~= arguments.take(60) + seq!['…']);
    }
    broadcast use group_holds;

}

/// The commands of a chat, with what is written behind them; a message without
/// a slash in front is none.
pub proof fn law_commands(t: Seq<char>, arg: Seq<char>)
    ensures
        trim(t) == "/help"@ ==> slash_of(t) == Some(SlashView::Help),
        trim(t) == "/status"@ ==> slash_of(t) == Some(SlashView::Status),
        trim(t) == "/new"@ ==> slash_of(t) == Some(SlashView::New),
        trim(t) == "/model"@ ==> slash_of(t) == Some(SlashView::Model(Seq::empty())),
        trim(t) == "/model "@ + arg ==> slash_of(t) == Some(SlashView::Model(trim(arg))),
        trim(t).len() == 0 || trim(t)[0] != '/' ==> slash_of(t) is None,
        trim(t).len() > 0 && trim(t)[0] == '/' ==> slash_of(t) is Some,
{
    reveal_strlit("/");
    reveal_strlit("/model ");
    reveal_strlit("/help");
    reveal_strlit("/status");
    reveal_strlit("/new");
    reveal_strlit("/model");
    assert("/help"@.len() != "/status"@.len());
    assert("/help"@.len() != "/new"@.len());
    assert("/help"@.len() != "/model"@.len());
    assert("/status"@.len() != "/new"@.len());
    assert("/status"@.len() != "/model"@.len());
    assert("/new"@.len() != "/model"@.len());
    let u = trim(t);
    if u.len() > 0 {
        assert(u.subrange(0, 1) =~= seq![u[0]]);
        assert("/"@ =~= seq!['/']);
        if u[0] != '/' {
            assert(u.subrange(0, 1)[0] != "/"@[0]);
        }
    }
    lemma_first_index(u, ' ');
    let i = first_index(u, ' ');
    if u == "/help"@ || u == "/status"@ || u == "/new"@ || u == "/model"@ {
        if i < u.len() {
            assert(u[i] == ' ');
        }
    }
    if u == "/model "@ + arg {
        assert(u[6] == ' ');
        assert forall|k: int| 0 <= k < 6 implies u[k] != ' ' by {
            assert(u[k] == "/model "@[k]);
        }
        assert(i == 6);
        assert(u.take(6) =~= "/model"@);
        assert(u.skip(7) =~= arg);
    }
}

/// What is stated of commands and of what is done is stated of what they hold.
pub proof fn law_commands_are_their_fields(s: Slash, a: DmAction, d: FeishuDm, st: ChannelStatus, r: RunningChannel)
    ensures
        s matches Slash::Model(n) ==> s@ == SlashView::Model(n@),
        s matches Slash::Unknown(n) ==> s@ == SlashView::Unknown(n@),
        s is Help <==> s@ is Help,
        s is Status <==> s@ is Status,
        s is New <==> s@ is New,
        a matches DmAction::Content(t) ==> a@ == DmActionView::Content(t@),
        a matches DmAction::Note(t) ==> a@ == DmActionView::Note(t@),
        a matches DmAction::Send(t) ==> a@ == DmActionView::Send(t@),
        d@.open_id == d.open_id@ && d@.message_id == d.message_id@ && d@.text == d.text@,
        opt_dm(Some(d)) == Some(d@) && opt_dm(None) is None,
        st matches ChannelStatus::Failed(e) ==> st@ == StatusView::Failed(e@),
        st is Connected <==> st@ is Connected,
        st is Connecting <==> st@ is Connecting,
        st is Reconnecting <==> st@ is Reconnecting,
        r@.agent == r.agent@ && r@.app_id == r.app_id@ && r@.app_secret == r.app_secret@,
{
}

/// The states of a channel are told, a failure with its reason; a channel that
/// is not there is stopped.
pub proof fn law_channel_states_are_told(st: ChannelStatus)
    ensures
        st is Connecting ==> status_text(st) == "connecting"@,
        st is Connected ==> status_text(st) == "connected"@,
        st is Reconnecting ==> status_text(st) == "reconnecting"@,
        st matches ChannelStatus::Failed(e) ==> contains_text(status_text(st), e@) && occurs_at(
            status_text(st),
            "failed: "@,
            0,
        ),
        opt_status(Some(&st)) == status_text(st),
        opt_status(None) == "stopped"@,
{
    broadcast use group_holds;

    if let ChannelStatus::Failed(e) = st {
        assert(status_text(st).subrange(0, "failed: "@.len() as int) =~= "failed: "@);
    }
}

/// The models to choose from are listed with their names, and the one in use is
/// marked.
pub proof fn law_models_are_listed(v: Seq<ModelProfile>, active: Seq<char>, i: int)
    requires
        0 <= i < v.len(),
    ensures
        model_lines(v, active).len() == v.len(),
        contains_text(model_lines(v, active)[i], "· "@ + v[i].name@ + " → "@ + v[i].model@),
        v[i].name@ == active ==> contains_text(model_lines(v, active)[i], v[i].model@ + " ✓当前"@),
        v[i].name@ != active ==> model_lines(v, active)[i].len() == "· "@.len() + v[i].name@.len() + " → "@.len()
            + v[i].model@.len(),
{
    broadcast use group_holds;

}

/// What a run says is shown on the card as far as it has come; in full its
/// reasoning and its calls are shown too, in short only the calls. The run's end
/// ends it, and what it used is kept.
pub proof fn law_run_is_shown(s: DmShowView, t: Seq<char>, name: Seq<char>, arguments: Seq<char>)
    ensures
        ({
            let (d, a, end) = shown(s, AgentEventView::MessageUpdate(t));
            &&& d.main == s.main + t && d.thinking == s.thinking && !end
            &&& s.card ==> a == Some(DmActionView::Content(s.main + t))
            &&& !s.card ==> a is None
        }),
        ({
            let (d, a, end) = shown(s, AgentEventView::Thinking(t));
            let th = s.thinking + t;
            &&& d.main == s.main && !end
            &&& s.mode is Full && s.card ==> d.thinking == th && (th.len() <= 1200 ==> a == Some(DmActionView::Note(th)))
                && (th.len() > 1200 ==> a == Some(DmActionView::Note(th.skip(th.len() - 1200))))
            &&& !(s.mode is Full) ==> a is None && d == s
        }),
        ({
            let (d, a, end) = shown(s, AgentEventView::ToolCall { name, arguments });
            &&& d.main == s.main && !end
            &&& s.mode is Compact && s.card ==> a == Some(DmActionView::Note(call_summary(name, arguments))) && d == s
            &&& !(s.mode is Silent) && !s.card ==> a == Some(DmActionView::Send(call_summary(name, arguments))) && d
                == s
            &&& s.mode is Full && s.card ==> d.thinking == s.thinking.push('\n') + call_summary(name, arguments) && a
                is Some && a->0 is Note
            &&& s.mode is Silent ==> a is None && d == s
        }),
        shown(s, AgentEventView::Done { final_text: t }).2,
        shown(s, AgentEventView::Error(t)).2,
        s.mode is Full && s.thinking.len() > 0 && !s.card ==> shown(
            s,
            AgentEventView::Done { final_text: t },
        ).1 == Some(DmActionView::Send("💭 "@ + s.thinking)),
{
}

/// What a run used is kept for its last line.
pub proof fn law_use_is_kept(s: DmShowView, u: crate::types::UsageStats)
    ensures
        shown(s, AgentEventView::UsageUpdate(u)).0.usage == Some(u),
        shown(s, AgentEventView::UsageUpdate(u)).0.main == s.main,
        shown(s, AgentEventView::UsageUpdate(u)).1 is None,
        !shown(s, AgentEventView::UsageUpdate(u)).2,
{
}

/// The last text of a run is its answer, or says why there is none.
pub proof fn law_last_text(o: DmOutcome)
    ensures
        o matches DmOutcome::Answer(t) ==> final_text(o) == t@,
        o matches DmOutcome::Failed(e) ==> (e@.len() <= 200 ==> contains_text(final_text(o), e@)) && (e@.len() > 200
            ==> contains_text(final_text(o), e@.take(200))) && contains_text(final_text(o), "（出错："@),
        o is Timeout ==> contains_text(final_text(o), dec(600)),
{
    broadcast use group_holds;

}

/// A channel runs for a profile that is active, has it switched on, and has its
/// credentials.
pub proof fn law_which_channels_run(p: AgentProfile)
    ensures
        wants_channel(p) <==> p.state@ == "active"@ && p.channel_feishu.enabled && p.channel_feishu.app_id@.len() > 0
            && p.channel_feishu.app_secret@.len() > 0,
        asked_channel(p).agent == p.name@ && asked_channel(p).app_id == p.channel_feishu.app_id@
            && asked_channel(p).app_secret == p.channel_feishu.app_secret@,
{
}

/// A channel that runs is stopped exactly where no profile wants it any more.
pub proof fn law_which_channels_stop(running: Seq<RunView>, profiles: Seq<AgentProfile>, agent: Seq<char>)
    ensures
        stale(running, profiles).contains(agent) <==> (exists|i: int|
            0 <= i < running.len() && (#[trigger] running[i]).agent == agent) && !(exists|k: int|
            0 <= k < profiles.len() && wants_channel(#[trigger] profiles[k]) && profiles[k].name@ == agent),
    decreases running.len(),
{
    let all = stale(running, profiles);
    if running.len() > 0 {
        let p = running.drop_last();
        let before = stale(p, profiles);
        law_which_channels_stop(p, profiles, agent);
        if before.contains(agent) {
            assert(all[before.index_of(agent)] == agent);
            let i = choose|i: int| 0 <= i < p.len() && (#[trigger] p[i]).agent == agent;
            assert(running[i].agent == agent);
        }
        if all.contains(agent) && !before.contains(agent) {
            let k = all.index_of(agent);
            if k < before.len() {
                assert(before[k] == agent);
            }
            assert(running[running.len() - 1].agent == agent);
        }
        if exists|i: int| 0 <= i < running.len() && (#[trigger] running[i]).agent == agent {
            let i = choose|i: int| 0 <= i < running.len() && (#[trigger] running[i]).agent == agent;
            if i < p.len() {
                assert(p[i].agent == agent);
            } else if all.len() > before.len() {
                assert(all[before.len() as int] == agent);
            }
        }
    }
}

/// A channel is started exactly for a profile that wants one that does not run
/// with its credentials; where another of the profile runs, that one stops.
pub proof fn law_which_channels_start(running: Seq<RunView>, profiles: Seq<AgentProfile>, n: int, i: int, b: bool)
    requires
        0 <= n <= profiles.len(),
    ensures
        starts(running, profiles, n).contains((i, b)) <==> 0 <= i < n && wants_channel(profiles[i])
            && !running.contains(asked_channel(profiles[i])) && (b <==> exists|k: int|
            0 <= k < running.len() && (#[trigger] running[k]).agent == profiles[i].name@),
    decreases n,
{
    let all = starts(running, profiles, n);
    if n > 0 {
        let before = starts(running, profiles, n - 1);
        law_which_channels_start(running, profiles, n - 1, i, b);
        if before.contains((i, b)) {
            assert(all[before.index_of((i, b))] == (i, b));
        }
        if all.contains((i, b)) && !before.contains((i, b)) {
            let k = all.index_of((i, b));
            if k < before.len() {
                assert(before[k] == (i, b));
            }
        }
        if all.len() > before.len() {
            assert(all[before.len() as int] == all.last());
        }
    }
}

/// What the console is shown of a channel; never the secret.
pub proof fn law_channel_is_shown(p: AgentProfile, status: Seq<char>, cf: ChannelFeishu)
    ensures
        ({
            let f = channel_form(p, status);
            &&& f.get_str("agent"@) == Some(p.name@)
            &&& f.get("enabled"@) == Some(JsonView::Bool(p.channel_feishu.enabled))
            &&& f.get_str("app_id"@) == Some(p.channel_feishu.app_id@)
            &&& f.get_str("status"@) == Some(status)
            &&& f.get_str("show_process"@) == Some(p.channel_feishu.show_process@)
            &&& f.get_str("dm_policy"@) == Some(crate::agents::policy_of(p.channel_feishu).0)
            &&& f.get("app_secret"@) is None
        }),
        channel_config(cf).get("enabled"@) == Some(JsonView::Bool(cf.enabled)),
        channel_config(cf).get_str("app_id"@) == Some(cf.app_id@),
        channel_config(cf).get_str("show_process"@) == Some(cf.show_process@),
        channel_config(cf).get_str("dm_policy"@) == Some(crate::agents::policy_of(cf).0),
        channel_config(cf).get("app_secret"@) is None,
{
    reveal_strlit("agent");
    reveal_strlit("enabled");
    reveal_strlit("app_id");
    reveal_strlit("status");
    reveal_strlit("dm_policy");
    reveal_strlit("policy_list");
    reveal_strlit("show_process");
    reveal_strlit("app_secret");
    assert("agent"@.len() != "enabled"@.len());
    assert("agent"@.len() != "app_id"@.len());
    assert("agent"@.len() != "status"@.len());
    assert("agent"@.len() != "dm_policy"@.len());
    assert("agent"@.len() != "policy_list"@.len());
    assert("agent"@.len() != "show_process"@.len());
    assert("agent"@.len() != "app_secret"@.len());
    assert("enabled"@.len() != "app_id"@.len());
    assert("enabled"@.len() != "status"@.len());
    assert("enabled"@.len() != "dm_policy"@.len());
    assert("enabled"@.len() != "policy_list"@.len());
    assert("enabled"@.len() != "show_process"@.len());
    assert("enabled"@.len() != "app_secret"@.len());
    assert("app_id"@[0] != "status"@[0]);
    assert("app_id"@.len() != "dm_policy"@.len());
    assert("app_id"@.len() != "policy_list"@.len());
    assert("app_id"@.len() != "show_process"@.len());
    assert("app_id"@.len() != "app_secret"@.len());
    assert("status"@.len() != "dm_policy"@.len());
    assert("status"@.len() != "policy_list"@.len());
    assert("status"@.len() != "show_process"@.len());
    assert("status"@.len() != "app_secret"@.len());
    assert("dm_policy"@.len() != "policy_list"@.len());
    assert("dm_policy"@.len() != "show_process"@.len());
    assert("dm_policy"@.len() != "app_secret"@.len());
    assert("policy_list"@.len() != "show_process"@.len());
    assert("policy_list"@.len() != "app_secret"@.len());
    assert("show_process"@.len() != "app_secret"@.len());
}

/// Every profile that uses channels is shown, with the state of its channel.
pub proof fn law_channels_are_listed(v: Seq<AgentProfile>, states: Seq<(String, ChannelStatus)>)
    ensures
        channel_forms(v, states) == v.filter(
            |p: AgentProfile| p.channel_feishu.enabled || p.channel_feishu.app_id@.len() > 0,
        ).map_values(|p: AgentProfile| channel_form(p, status_for(states, p.name@))),
    decreases v.len(),
{
    reveal(Seq::filter);
    if v.len() > 0 {
        law_channels_are_listed(v.drop_last(), states);
    }
    assert(channel_forms(v, states) =~= v.filter(
        |p: AgentProfile| p.channel_feishu.enabled || p.channel_feishu.app_id@.len() > 0,
    ).map_values(|p: AgentProfile| channel_form(p, status_for(states, p.name@))));
}

/// The state of an agent's channel is the first that is known under its name.
pub proof fn law_channel_state_is_found(states: Seq<(String, ChannelStatus)>, i: int, agent: Seq<char>)
    ensures
        0 <= i < states.len() && states[i].0@ == agent && (forall|k: int|
            0 <= k < i ==> (#[trigger] states[k]).0@ != agent) ==> status_for(states, agent) == status_text(states[i].1),
        (forall|k: int| 0 <= k < states.len() ==> (#[trigger] states[k]).0@ != agent) ==> status_for(states, agent)
            == "stopped"@,
    decreases states.len(),
{
    if states.len() > 0 && states[0].0@ != agent {
        let t = states.drop_first();
        law_channel_state_is_found(t, i - 1, agent);
        assert forall|k: int| 0 <= k < t.len() implies #[trigger] t[k] == states[k + 1] by {}
        if forall|k: int| 0 <= k < states.len() ==> (#[trigger] states[k]).0@ != agent {
            assert forall|k: int| 0 <= k < t.len() implies (#[trigger] t[k]).0@ != agent by {
                assert(states[k + 1].0@ != agent);
            }
        }
        if 0 <= i < states.len() && states[i].0@ == agent && (forall|k: int|
            0 <= k < i ==> (#[trigger] states[k]).0@ != agent) {
            assert forall|k: int| 0 <= k < i - 1 implies (#[trigger] t[k]).0@ != agent by {
                assert(states[k + 1].0@ != agent);
            }
        }
    } else if states.len() > 0 {
        if 0 < i < states.len() && (forall|k: int| 0 <= k < i ==> (#[trigger] states[k]).0@ != agent) {
            assert(states[0].0@ != agent);
        }
    }
}

/// What is left in the channel to a session is kept, in its order.
pub proof fn law_late_words_are_kept(v: Seq<Seq<char>>, i: int)
    requires
        0 <= i < v.len(),
    ensures
        late_items(v).len() == v.len(),
        late_items(v)[i].0 == v[i],
{
}

/// A message goes to the one it is for, with what it holds.
pub proof fn law_message_body(cfg: FeishuConfig, open_id: Seq<char>, kind: Seq<char>, content: JsonView)
    ensures
        message_body(open_id, kind, content).get_str("receive_id"@) == Some(open_id),
        message_body(open_id, kind, content).get_str("msg_type"@) == Some(kind),
        message_body(open_id, kind, content).get_str("content"@) == Some(json_printed(content)),
        cfg.domain@.len() > 0 ==> occurs_at(send_url(cfg), cfg.domain@, 0),
        cfg.domain@.len() == 0 ==> occurs_at(send_url(cfg), "https://open.feishu.cn"@, 0),
        contains_text(send_url(cfg), "/open-apis/im/v1/messages?receive_id_type=open_id"@),
{
    reveal_strlit("receive_id");
    reveal_strlit("msg_type");
    reveal_strlit("content");
    assert("receive_id"@.len() != "msg_type"@.len());
    assert("receive_id"@.len() != "content"@.len());
    assert("msg_type"@.len() != "content"@.len());
    broadcast use group_holds;

    assert(send_url(cfg).subrange(0, cfg.domain_text().len() as int) =~= cfg.domain_text());
}

/// An update of a card carries the card's text or its note, the card's number,
/// and goes to the card.
pub proof fn law_card_updates(c: CardView, step: CardStep)
    ensures
        step_body(c, CardStep::PutContent).get_str("content"@) == Some(c.content_text),
        step_body(c, CardStep::PutNote) matches b ==> b.get_str("content"@) is Some && contains_text(
            b.get_str("content"@)->0,
            c.note_text,
        ),
        step_body(c, CardStep::CloseStreaming).get_str("settings"@) == Some(
            json_printed(
                JsonView::obj().with(
                    "config"@,
                    JsonView::obj().with("streaming_mode"@, JsonView::Bool(false)),
                ),
            ),
        ),
        step_body(c, step).get_u64("sequence"@) == Some(c.sequence),
        step_body(c, step).get_str("uuid"@) matches Some(u) && contains_text(u, c.card_id + "_"@ + dec(c.sequence as nat)),
        step_letter(CardStep::PutContent) == "s_"@ && step_letter(CardStep::PutNote) == "n_"@ && step_letter(
            CardStep::CloseStreaming,
        ) == "c_"@,
        contains_text(step_path(c.card_id, step), "/open-apis/cardkit/v1/cards/"@ + c.card_id),
        contains_text(step_path(c.card_id, CardStep::PutContent), c.card_id + "/elements/content/content"@),
        contains_text(step_path(c.card_id, CardStep::PutNote), c.card_id + "/elements/note/content"@),
        contains_text(step_path(c.card_id, CardStep::CloseStreaming), c.card_id + "/settings"@),
{
    reveal_strlit("content");
    reveal_strlit("settings");
    reveal_strlit("sequence");
    reveal_strlit("uuid");
    assert("content"@.len() != "settings"@.len());
    assert("content"@.len() != "sequence"@.len());
    assert("content"@.len() != "uuid"@.len());
    assert("settings"@[2] != "sequence"@[2]);
    assert("settings"@.len() != "uuid"@.len());
    assert("sequence"@.len() != "uuid"@.len());
    broadcast use group_holds;

}

/// A new card is empty and at its first number; it has a place for its text
/// and, where it has a note, one for that.
pub proof fn law_new_card(id: Seq<char>, note: bool, now: u64)
    ensures
        new_card(id, note, now).card_id == id && new_card(id, note, now).sequence == 1,
        new_card(id, note, now).has_note == note && new_card(id, note, now).last_flush == now,
        new_card(id, note, now).content_text.len() == 0 && new_card(id, note, now).note_text.len() == 0,
        card_elements(note) is Arr,
        card_elements(note)->Arr_0.len() == (if note {
            3int
        } else {
            1
        }),
        card_elements(note)->Arr_0[0].get_str("element_id"@) == Some("content"@),
        note ==> card_elements(note)->Arr_0[2].get_str("element_id"@) == Some("note"@),
        throttled(now, now),
        now >= 160_000_000 ==> !throttled((now - 160_000_000) as u64, now),
{
    reveal_strlit("tag");
    reveal_strlit("content");
    reveal_strlit("element_id");
    assert("tag"@.len() != "content"@.len());
    assert("tag"@.len() != "element_id"@.len());
    assert("content"@.len() != "element_id"@.len());
}

/// What the server says of the connection is taken over, where it says it; the
/// pause between pings is at least ten seconds.
pub proof fn law_connection_settings(p: ClientParams, v: JsonView, n: i64)
    ensures
        v.get_i64("PingInterval"@) == Some(n) && n >= 0 ==> update_params(p, v).ping_interval == n,
        v.get_i64("PingInterval"@) is None ==> update_params(p, v).ping_interval == p.ping_interval,
        v.get_i64("ReconnectCount"@) == Some(n) ==> update_params(p, v).reconnect_count == n,
        v.get_i64("ReconnectCount"@) is None ==> update_params(p, v).reconnect_count == p.reconnect_count,
        v.get_i64("ReconnectInterval"@) == Some(n) && n >= 0 ==> update_params(p, v).reconnect_interval == n,
        v.get_i64("ReconnectInterval"@) is None ==> update_params(p, v).reconnect_interval == p.reconnect_interval,
        v.get_i64("ReconnectNonce"@) == Some(n) && n >= 0 ==> update_params(p, v).reconnect_nonce == n,
        v.get_i64("ReconnectNonce"@) is None ==> update_params(p, v).reconnect_nonce == p.reconnect_nonce,
        clamp_params(p).ping_interval >= 10,
        p.ping_interval >= 10 ==> clamp_params(p) == p,
        clamp_params(p).reconnect_count == p.reconnect_count && clamp_params(p).reconnect_interval
            == p.reconnect_interval && clamp_params(p).reconnect_nonce == p.reconnect_nonce,
        default_params().ping_interval == 30 && default_params().reconnect_interval == 15,
{
}

/// A reply is a success where its code is zero; a failure is told with what was
/// tried, the code and the words.
pub proof fn law_replies(v: JsonView, what: Seq<char>)
    ensures
        v.get_i64("code"@) matches Some(c) ==> reply_code(v) == c,
        v.get_i64("code"@) is None ==> reply_code(v) == -1,
        contains_text(reply_failure(v, what), what + " code="@ + dec_int(reply_code(v) as int)),
        v.get_str("msg"@) matches Some(m) ==> contains_text(reply_failure(v, what), " msg="@ + m),
        v.get2_str("data"@, "URL"@) matches Some(u) ==> endpoint_url(v) == u,
        v.get_i64("expire"@) matches Some(e) ==> e > 0 ==> token_lifetime(v) == e,
{
    broadcast use group_holds;

}

/// After a lost connection another is tried after a pause, unless the
/// credentials were refused or the tries are used up.
pub proof fn law_when_to_connect_again(attempts: i64, p: ClientParams, seed: u64)
    ensures
        loop_action(attempts as int, p, LoopEvent::EndpointFatal, seed) == LoopAction::Refused,
        p.reconnect_count >= 0 && attempts > p.reconnect_count ==> loop_action(
            attempts as int,
            p,
            LoopEvent::EndpointRetry,
            seed,
        ) == (LoopAction::GiveUp { limit: p.reconnect_count }),
        p.reconnect_count < 0 || attempts <= p.reconnect_count ==> loop_action(
            attempts as int,
            p,
            LoopEvent::EndpointRetry,
            seed,
        ) == (LoopAction::Wait { secs: p.reconnect_interval }),
        p.reconnect_count < 0 || attempts <= p.reconnect_count ==> (loop_action(
            attempts as int,
            p,
            LoopEvent::ConnectionFailed,
            seed,
        ) matches LoopAction::Wait { secs } && secs <= p.reconnect_nonce),
        attempts_after(attempts, LoopEvent::Disconnected) == 0,
        attempts_after(attempts, LoopEvent::ConnectionFailed) == attempts + 1,
        attempts_after(attempts, LoopEvent::EndpointRetry) == attempts + 1,
{
    assert(0 <= seed as int % (p.reconnect_nonce + 1) <= p.reconnect_nonce) by (nonlinear_arith);
}

/// A header's value is the first under its name.
pub proof fn law_headers_are_found(hs: Seq<HeaderView>, i: int, key: Seq<char>)
    ensures
        0 <= i < hs.len() && hs[i].key == key && (forall|k: int| 0 <= k < i ==> (#[trigger] hs[k]).key != key)
            ==> header_value(hs, key) == Some(hs[i].value),
        (forall|k: int| 0 <= k < hs.len() ==> (#[trigger] hs[k]).key != key) ==> header_value(hs, key) is None,
    decreases hs.len(),
{
    if hs.len() > 0 && hs[0].key != key {
        let t = hs.drop_first();
        law_headers_are_found(t, i - 1, key);
        if forall|k: int| 0 <= k < hs.len() ==> (#[trigger] hs[k]).key != key {
            assert forall|k: int| 0 <= k < t.len() implies (#[trigger] t[k]).key != key by {
                assert(hs[k + 1].key != key);
            }
        }
        if 0 <= i < hs.len() && hs[i].key == key && (forall|k: int| 0 <= k < i ==> (#[trigger] hs[k]).key != key) {
            assert forall|k: int| 0 <= k < i - 1 implies (#[trigger] t[k]).key != key by {
                assert(hs[k + 1].key != key);
            }
        }
    } else if hs.len() > 0 {
        if 0 < i < hs.len() && (forall|k: int| 0 <= k < i ==> (#[trigger] hs[k]).key != key) {
            assert(hs[0].key != key);
        }
    }
}

/// A private message is read out of its event: who wrote it, its id, and its
/// text. Events of another kind are none.
pub proof fn law_message_is_read(
    v: JsonView,
    event: JsonView,
    msg: JsonView,
    sender: JsonView,
    open_id: Seq<char>,
    id: Seq<char>,
    content: Seq<char>,
    text: Seq<char>,
)
    ensures
        v.get2_str("header"@, "event_type"@) != Some("im.message.receive_v1"@) ==> event_dm(v) is None,
        v.get2_str("header"@, "event_type"@) == Some("im.message.receive_v1"@) && v.get("event"@) == Some(event)
            && event.get("message"@) == Some(msg) && event.get("sender"@) == Some(sender) && sender.get2_str(
            "sender_id"@,
            "open_id"@,
        ) == Some(open_id) && msg.get_str("message_id"@) == Some(id) ==> event_dm(v) is Some && event_dm(v)->0.open_id
            == open_id && event_dm(v)->0.message_id == id && event_dm(v)->0.text == content_text(msg),
        msg.get_str("message_type"@) == Some("text"@) && msg.get_str("content"@) == Some(content) && (json_parsed(
            content,
        ) matches Ok(c) && c.get_str("text"@) == Some(text)) ==> content_text(msg) == text,
        msg.get_str("message_type"@) matches Some(k) ==> k != "text"@ ==> content_text(msg).len() == 0,
{
}

/// An event that came in one frame is handed on as it came; one in parts joins
/// the parts of its message under its number.
pub proof fn law_frames_hand_on_events(m: Map<Seq<char>, FragView>, f: FrameView, p: Seq<u8>, id: Seq<char>, now: u64)
    ensures
        header_value(f.headers, "type"@) == Some("event"@) && f.payload == Some(p) && header_value(
            f.headers,
            "sum"@,
        ) is None ==> frame_event(m, f, now) == Some(p) && frags_after_frame(m, f, now) == m,
        header_value(f.headers, "type"@) == Some("event"@) && f.payload == Some(p) && header_value(
            f.headers,
            "message_id"@,
        ) == Some(id) ==> frame_event(m, f, now) == frag_result(
            m,
            id,
            header_number(f.headers, "sum"@),
            header_number(f.headers, "seq"@),
            p,
            now,
        ) && frags_after_frame(m, f, now) == frag_after(
            m,
            id,
            header_number(f.headers, "sum"@),
            header_number(f.headers, "seq"@),
            p,
            now,
        ),
        (header_value(f.headers, "type"@) matches Some(k) ==> k != "event"@) ==> frame_event(m, f, now) is None || header_value(
            f.headers,
            "type"@,
        ) is None,
        id.len() > 0 && header_value(f.headers, "message_id"@) == Some(id) ==> dedup_key(f, p) == id,
        header_value(f.headers, "message_id"@) is None ==> (payload_dm(p) matches Some(dm) ==> dedup_key(f, p)
            == dm.message_id),
{
}

/// A number in a header is read; without one it is one.
pub proof fn law_numbers_in_headers(hs: Seq<HeaderView>, key: Seq<char>, n: nat)
    ensures
        header_value(hs, key) is None ==> header_number(hs, key) == 1,
        header_value(hs, key) matches Some(v) ==> (parsed_uint(v, u32::MAX as nat) == Some(n) && n <= u32::MAX
            ==> header_number(hs, key) == n),
{
}

/// An answer to a frame is of the frame: its numbers and its headers, with the
/// time it took, and the word that all is well.
pub proof fn law_frames_are_acknowledged(f: FrameView, service: i32, millis: u64, i: int)
    ensures
        ack_view(f, service, millis).seq_id == f.seq_id && ack_view(f, service, millis).log_id == f.log_id,
        ack_view(f, service, millis).method == f.method,
        f.service != 0 ==> ack_view(f, service, millis).service == f.service,
        f.service == 0 ==> ack_view(f, service, millis).service == service,
        ack_view(f, service, millis).headers.len() == f.headers.len() + 1,
        0 <= i < f.headers.len() ==> ack_view(f, service, millis).headers[i] == f.headers[i],
        ack_view(f, service, millis).headers.last() == (HeaderView { key: "biz_rt"@, value: dec(millis as nat) }),
        ack_view(f, service, millis).payload == Some(ack_payload()),
        ack_payload().len() == 12,
        ack_payload()[0] == 0x7b && ack_payload()[8] == 0x32 && ack_payload()[9] == 0x30 && ack_payload()[10] == 0x30
            && ack_payload()[11] == 0x7d,
        ping_view(service).service == service && ping_view(service).method == 0 && ping_view(service).headers == seq![
            HeaderView { key: "type"@, value: "ping"@ },
        ],
{
}

/// The service's number stands in the address it gives.
pub proof fn law_service_number(digits: Seq<char>, rest: Seq<Seq<char>>, other: Seq<char>)
    requires
        digits.len() > 0,
        forall|i: int| 0 <= i < digits.len() ==> is_digit(#[trigger] digits[i]),
        dec_value(digits) <= i32::MAX,
    ensures
        service_in("service_id="@ + digits) == Some(dec_value(digits)),
        service_among(seq!["service_id="@ + digits] + rest) == dec_value(digits),
        !occurs_at(other, "service_id="@, 0) ==> service_in(other) is None,
        !occurs_at(other, "service_id="@, 0) ==> service_among(seq![other] + rest) == service_among(rest),
        service_among(Seq::<Seq<char>>::empty()) == 0,
{
    let s = "service_id="@ + digits;
    assert(s.subrange(0, "service_id="@.len() as int) =~= "service_id="@);
    assert(s.skip("service_id="@.len() as int) =~= digits);
    lemma_all_digits(digits);
    assert((seq![other] + rest).drop_first() =~= rest);
}

proof fn lemma_all_digits(s: Seq<char>)
    requires
        forall|i: int| 0 <= i < s.len() ==> is_digit(#[trigger] s[i]),
    ensures
        leading_digits(s) == s,
    decreases s.len(),
{
    if s.len() > 0 {
        let t = s.drop_first();
        assert forall|i: int| 0 <= i < t.len() implies is_digit(#[trigger] t[i]) by {
            assert(t[i] == s[i + 1]);
        }
        lemma_all_digits(t);
        assert(seq![s[0]] + t =~= s);
    }
}

/// A part takes its place among the parts of a message; one that came before is
/// taken anew. Joined, the parts stand in the order of their numbers.
pub proof fn law_parts_take_their_places(p: Parts, a: Parts, b: Parts, seq: u32, data: Seq<u8>)
    ensures
        put_part(p, seq, data).contains((seq, data)),
        joined_parts(a + b) == joined_parts(a) + joined_parts(b),
        joined_parts(seq![(seq, data)]) == data,
    decreases p.len(), b.len(),
{
    let r = put_part(p, seq, data);
    if p.len() == 0 || seq < p[0].0 || p[0].0 == seq {
        assert(r[0] == (seq, data));
    } else {
        law_parts_take_their_places(p.drop_first(), a, Seq::empty(), seq, data);
        let q = put_part(p.drop_first(), seq, data);
        let k = q.index_of((seq, data));
        assert(r[k + 1] == (seq, data));
    }
    lemma_joined(a, b);
    let one = seq![(seq, data)];
    assert(one.drop_last() =~= Seq::<(u32, Seq<u8>)>::empty());
    assert(joined_parts(Seq::<(u32, Seq<u8>)>::empty()) + data =~= data);
}

proof fn lemma_joined(a: Parts, b: Parts)
    ensures
        joined_parts(a + b) == joined_parts(a) + joined_parts(b),
    decreases b.len(),
{
    if b.len() == 0 {
        assert(a + b =~= a);
        assert(joined_parts(a) + joined_parts(b) =~= joined_parts(a));
    } else {
        assert((a + b).drop_last() =~= a + b.drop_last());
        lemma_joined(a, b.drop_last());
        assert((joined_parts(a) + joined_parts(b.drop_last())) + b.last().1 =~= joined_parts(a) + (joined_parts(
            b.drop_last(),
        ) + b.last().1));
    }
}

proof fn lemma_one_piece(s: Seq<char>, c: char)
    requires
        !s.contains(c),
    ensures
        split(s, c) == seq![s],
{
    lemma_first_index(s, c);
    let i = first_index(s, c);
    if i < s.len() {
        assert(s[i] == c);
    }
}

proof fn lemma_two_pieces(a: Seq<char>, b: Seq<char>, c: char)
    requires
        !a.contains(c),
        !b.contains(c),
    ensures
        split(a.push(c) + b, c) == seq![a, b],
{
    let s = a.push(c) + b;
    lemma_first_index(s, c);
    let i = first_index(s, c);
    assert(s[a.len() as int] == c);
    if i < a.len() {
        assert(a[i] == c);
    }
    assert(i == a.len());
    assert(s.take(i) =~= a);
    assert(s.skip(i + 1) =~= b);
    lemma_one_piece(b, c);
    assert(split(s, c) =~= seq![a, b]);
}

/// The address of a connection ends with the service's number.
pub proof fn law_address_holds_the_service(front: Seq<char>, digits: Seq<char>)
    requires
        !front.contains('?'),
        digits.len() > 0,
        forall|i: int| 0 <= i < digits.len() ==> is_digit(#[trigger] digits[i]),
        dec_value(digits) <= i32::MAX,
    ensures
        service_id_of(front.push('?') + ("service_id="@ + digits)) == dec_value(digits),
        service_id_of(front) == 0,
{
    let q = "service_id="@ + digits;
    reveal_strlit("service_id=");
    assert forall|i: int| 0 <= i < q.len() implies #[trigger] q[i] != '?' && q[i] != '&' by {
        if i >= "service_id="@.len() {
            assert(q[i] == digits[i - "service_id="@.len()]);
        }
    }
    lemma_two_pieces(front, q, '?');
    lemma_one_piece(q, '&');
    lemma_one_piece(front, '?');
    law_service_number(digits, Seq::empty(), Seq::empty());
    assert(seq![q] + Seq::<Seq<char>>::empty() =~= seq![q]);
}

/// The settings of a connection are those of the answer that opened it, and
/// later those of the answers to its pings.
pub proof fn law_where_settings_come_from(v: JsonView, c: JsonView, p: ClientParams, f: FrameView, n: i64)
    requires
        c.get_i64("PingInterval"@) == Some(n),
        n >= 10,
    ensures
        v.get("data"@) is Some && v.get("data"@)->Some_0.get("ClientConfig"@) == Some(c)
            ==> endpoint_params(v).ping_interval == n,
        v.get("data"@) is None ==> endpoint_params(v) == default_params(),
        header_value(f.headers, "type"@) == Some("pong"@) && f.payload is Some && json_parsed_bytes(f.payload->Some_0)
            == Ok::<JsonView, Seq<char>>(c) ==> params_after(p, f).ping_interval == n,
        header_value(f.headers, "type"@) is None ==> params_after(p, f) == p,
        header_value(f.headers, "type"@) == Some("data"@) ==> params_after(p, f) == p,
        f.payload is None ==> params_after(p, f) == p,
{
    reveal_strlit("pong");
    reveal_strlit("data");
    assert("pong"@.len() == 4);
    assert("pong"@[0] != "data"@[0]);
}

/// Which codes end a connection for good.
pub proof fn law_codes_that_end_a_connection(code: i64)
    ensures
        fatal_code(code) <==> code == 99992402 || code == 99991663 || code == 99991664,
{
}

/// A new card is filled while the answer comes, with a place for it, and with
/// one for a note where that is wanted.
pub proof fn law_card_is_filled(note: bool)
    ensures
        ({
            let c = card_json(note);
            let e = card_elements(note);
            &&& c.get("schema"@) == Some(JsonView::Str("2.0"@))
            &&& c.get2("config"@, "streaming_mode"@) == Some(JsonView::Bool(true))
            &&& c.get2("body"@, "elements"@) == Some(e)
            &&& e is Arr
            &&& e->Arr_0.len() == (if note {
                3nat
            } else {
                1
            })
            &&& e->Arr_0[0].get("element_id"@) == Some(JsonView::Str("content"@))
            &&& note ==> e->Arr_0[2].get("element_id"@) == Some(JsonView::Str("note"@))
        }),
{
    reveal_strlit("schema");
    reveal_strlit("config");
    reveal_strlit("body");
    reveal_strlit("elements");
    reveal_strlit("streaming_mode");
    reveal_strlit("summary");
    reveal_strlit("streaming_config");
    reveal_strlit("tag");
    reveal_strlit("content");
    reveal_strlit("element_id");
    assert("schema"@[0] != "config"@[0]);
    assert("schema"@.len() != "body"@.len());
    assert("schema"@.len() != "elements"@.len());
    assert("schema"@.len() != "streaming_mode"@.len());
    assert("schema"@.len() != "summary"@.len());
    assert("schema"@.len() != "streaming_config"@.len());
    assert("schema"@.len() != "tag"@.len());
    assert("schema"@.len() != "content"@.len());
    assert("schema"@.len() != "element_id"@.len());
    assert("config"@.len() != "body"@.len());
    assert("config"@.len() != "elements"@.len());
    assert("config"@.len() != "streaming_mode"@.len());
    assert("config"@.len() != "summary"@.len());
    assert("config"@.len() != "streaming_config"@.len());
    assert("config"@.len() != "tag"@.len());
    assert("config"@.len() != "content"@.len());
    assert("config"@.len() != "element_id"@.len());
    assert("body"@.len() != "elements"@.len());
    assert("body"@.len() != "streaming_mode"@.len());
    assert("body"@.len() != "summary"@.len());
    assert("body"@.len() != "streaming_config"@.len());
    assert("body"@.len() != "tag"@.len());
    assert("body"@.len() != "content"@.len());
    assert("body"@.len() != "element_id"@.len());
    assert("elements"@.len() != "streaming_mode"@.len());
    assert("elements"@.len() != "summary"@.len());
    assert("elements"@.len() != "streaming_config"@.len());
    assert("elements"@.len() != "tag"@.len());
    assert("elements"@.len() != "content"@.len());
    assert("elements"@.len() != "element_id"@.len());
    assert("streaming_mode"@.len() != "summary"@.len());
    assert("streaming_mode"@.len() != "streaming_config"@.len());
    assert("streaming_mode"@.len() != "tag"@.len());
    assert("streaming_mode"@.len() != "content"@.len());
    assert("streaming_mode"@.len() != "element_id"@.len());
    assert("summary"@.len() != "streaming_config"@.len());
    assert("summary"@.len() != "tag"@.len());
    assert("summary"@[0] != "content"@[0]);
    assert("summary"@.len() != "element_id"@.len());
    assert("streaming_config"@.len() != "tag"@.len());
    assert("streaming_config"@.len() != "content"@.len());
    assert("streaming_config"@.len() != "element_id"@.len());
    assert("tag"@.len() != "content"@.len());
    assert("tag"@.len() != "element_id"@.len());
    assert("content"@.len() != "element_id"@.len());
}

/// A step of a card that failed is named; that of the end with its number.
pub proof fn law_failed_step_is_named(n: u64)
    ensures
        step_failure(CardStep::PutContent) == "ERROR: 流式更新主区"@,
        step_failure(CardStep::PutNote) == "ERROR: 思考区更新"@,
        step_failure(CardStep::CloseStreaming) == "ERROR: 关闭流式失败"@,
        step_hint(CardStep::CloseStreaming, n) == "（seq="@ + dec(n as nat) + "）"@,
        step_hint(CardStep::PutContent, n).len() == 0,
        step_hint(CardStep::PutNote, n).len() == 0,
{
}

/// A message that is complete waits no longer; one that is not waits with what
/// came of it. Other messages wait on, as long as they may.
pub proof fn law_what_waits(
    m: Map<Seq<char>, FragView>,
    id: Seq<char>,
    other: Seq<char>,
    sum: u32,
    seq: u32,
    data: Seq<u8>,
    now: u64,
)
    requires
        sum > 1,
    ensures
        frag_result(m, id, sum, seq, data, now) is Some <==> !frag_after(m, id, sum, seq, data, now).contains_key(id),
        other != id ==> (frag_after(m, id, sum, seq, data, now).contains_key(other) <==> m.contains_key(other) && now
            - m[other].at < FRAG_TTL_NANOS),
        other != id && frag_after(m, id, sum, seq, data, now).contains_key(other) ==> frag_after(
            m,
            id,
            sum,
            seq,
            data,
            now,
        )[other] == m[other],
{
}

/// A message is acknowledged with the words for a success.
pub proof fn law_words_of_an_acknowledgement(i: int)
    requires
        0 <= i < ack_payload().len(),
    ensures
        ack_payload().len() == "{\"code\":200}"@.len(),
        ack_payload()[i] as char == "{\"code\":200}"@[i],
{
    reveal_strlit("{\"code\":200}");
}

/// A new card says that its answer is still coming, and how fast it is shown.
pub proof fn law_card_says_that_it_is_filled(note: bool)
    ensures
        ({
            let c = card_json(note).get("config"@)->Some_0;
            &&& card_json(note).get("config"@) is Some
            &&& c.get2("summary"@, "content"@) == Some(JsonView::Str("[生成中…]"@))
            &&& c.get("streaming_config"@) is Some
            &&& c.get("streaming_config"@)->Some_0.get2("print_frequency_ms"@, "default"@) == Some(JsonView::Uint(50))
            &&& c.get("streaming_config"@)->Some_0.get2("print_step"@, "default"@) == Some(JsonView::Uint(1))
        }),
{
    reveal_strlit("schema");
    reveal_strlit("config");
    reveal_strlit("body");
    reveal_strlit("streaming_mode");
    reveal_strlit("summary");
    reveal_strlit("streaming_config");
    assert("schema"@[0] != "config"@[0]);
    assert("schema"@.len() != "body"@.len());
    assert("schema"@.len() != "streaming_mode"@.len());
    assert("schema"@.len() != "summary"@.len());
    assert("schema"@.len() != "streaming_config"@.len());
    assert("config"@.len() != "body"@.len());
    assert("config"@.len() != "streaming_mode"@.len());
    assert("config"@.len() != "summary"@.len());
    assert("config"@.len() != "streaming_config"@.len());
    assert("body"@.len() != "streaming_mode"@.len());
    assert("body"@.len() != "summary"@.len());
    assert("body"@.len() != "streaming_config"@.len());
    assert("streaming_mode"@.len() != "summary"@.len());
    assert("streaming_mode"@.len() != "streaming_config"@.len());
    assert("summary"@.len() != "streaming_config"@.len());
    reveal_strlit("print_frequency_ms");
    reveal_strlit("print_step");
    assert("print_frequency_ms"@.len() != "print_step"@.len());
}

} // verus!
