//! The console and the line protocol: what is asked is what is done, and what
//! is shown is what there is.

use vstd::prelude::*;

use crate::agents::{profile_view, AgentProfile};
use crate::client::{client_msg, listed_members, num_field, one_field_msg, str_field, ClientMsg, ClientMsgView};
use crate::config::{model_text, Config, ModelProfile};
use crate::console::{
    asked_name, base_name, by_time, call_form, decayed_forms, error_body, extension, given_or, group_form, group_forms,
    group_used, growth_event, growth_events, growth_skill, history_item, history_items, insert_latest, insert_row,
    is_file_name, last_index, last_part, last_ts, latest_first, lessons_since, main_form, may_upload, model_forms,
    profile_forms, prompt_file, row_forms, sandbox_form, sections_form, sessions_of, skill_form, skill_rows,
    state_form, summary_form, summary_forms, upload_base, upload_types, week_before, GroupFound, SessionSummary,
    SkillEntry, SkillRow, StateParts,
};
use crate::events::AgentEventView;
use crate::evolution::{EvolutionEvent, SkillUseStat};
use crate::groups::{event_ts, GroupConfig, GroupEvent};
use crate::json::{json_printed, views, Json, JsonView};
use crate::prompt::PromptSections;
use crate::router::{
    error_form, event_note, failed, history_form, limit_pairs, model_told, notes, routed, task_asked, task_failure,
    task_told, tasks_form, typed, Note, NoteView, Request, RequestView, TaskVerb,
};
use crate::rpc;
use crate::rpc::{OutcomeView, RpcOutcome, RpcState, RpcTask};
use crate::skills::describe;
use crate::text::{ascii_lower_all, contains_text, dec, occurs_at, path_join, text_less};
use crate::types::{MessageView, Role, ToolCallView};

use super::{group_holds, group_members};

verus! {

broadcast use group_members;

/// What a browser asks with one word is what is done with that word.
#[verifier::rlimit(100)]
pub proof fn law_requests_with_one_word(v: JsonView, s: Seq<char>)
    ensures
        ({
            let t = v.get_str("t"@);
            let id = v.get_str("id"@) == Some(s);
            let name = v.get_str("name"@) == Some(s);
            &&& t == Some("prompt"@) && v.get_str("input"@) == Some(s) ==> client_msg(v) == Ok::<
                ClientMsgView,
                Seq<char>,
            >(ClientMsgView::Prompt(s))
            &&& t == Some("steer"@) && v.get_str("text"@) == Some(s) ==> client_msg(v) == Ok::<
                ClientMsgView,
                Seq<char>,
            >(ClientMsgView::Steer(s))
            &&& t == Some("switch"@) && id ==> client_msg(v) == Ok::<ClientMsgView, Seq<char>>(ClientMsgView::Switch(s))
            &&& t == Some("delete_session"@) && id ==> client_msg(v) == Ok::<ClientMsgView, Seq<char>>(
                ClientMsgView::DeleteSession(s),
            )
            &&& t == Some("task_approve"@) && id ==> client_msg(v) == Ok::<ClientMsgView, Seq<char>>(
                ClientMsgView::TaskApprove(s),
            )
            &&& t == Some("task_reject"@) && id ==> client_msg(v) == Ok::<ClientMsgView, Seq<char>>(
                ClientMsgView::TaskReject(s),
            )
            &&& t == Some("task_pause"@) && id ==> client_msg(v) == Ok::<ClientMsgView, Seq<char>>(
                ClientMsgView::TaskPause(s),
            )
            &&& t == Some("task_resume"@) && id ==> client_msg(v) == Ok::<ClientMsgView, Seq<char>>(
                ClientMsgView::TaskResume(s),
            )
            &&& t == Some("task_delete"@) && id ==> client_msg(v) == Ok::<ClientMsgView, Seq<char>>(
                ClientMsgView::TaskDelete(s),
            )
            &&& t == Some("agent_approve"@) && name ==> client_msg(v) == Ok::<ClientMsgView, Seq<char>>(
                ClientMsgView::AgentApprove(s),
            )
            &&& t == Some("agent_reject"@) && name ==> client_msg(v) == Ok::<ClientMsgView, Seq<char>>(
                ClientMsgView::AgentReject(s),
            )
            &&& t == Some("agent_switch"@) && name ==> client_msg(v) == Ok::<ClientMsgView, Seq<char>>(
                ClientMsgView::AgentSwitch(s),
            )
            &&& t == Some("set_model"@) && v.get_str("model"@) == Some(s) ==> client_msg(v) == Ok::<
                ClientMsgView,
                Seq<char>,
            >(ClientMsgView::SetModel(s))
            &&& t == Some("set_profile"@) && name ==> client_msg(v) == Ok::<ClientMsgView, Seq<char>>(
                ClientMsgView::SetProfile(s),
            )
            &&& t == Some("group_pause"@) && id ==> client_msg(v) == Ok::<ClientMsgView, Seq<char>>(
                ClientMsgView::GroupPause(s),
            )
            &&& t == Some("group_stop"@) && id ==> client_msg(v) == Ok::<ClientMsgView, Seq<char>>(
                ClientMsgView::GroupStop(s),
            )
            &&& t == Some("group_revoke_lead"@) && id ==> client_msg(v) == Ok::<ClientMsgView, Seq<char>>(
                ClientMsgView::GroupRevokeLead(s),
            )
            &&& t == Some("group_summary"@) && id ==> client_msg(v) == Ok::<ClientMsgView, Seq<char>>(
                ClientMsgView::GroupSummary(s),
            )
            &&& t == Some("group_open"@) && id ==> client_msg(v) == Ok::<ClientMsgView, Seq<char>>(
                ClientMsgView::GroupOpen(s),
            )
            &&& t == Some("channel_test"@) && v.get_str("agent"@) == Some(s) ==> client_msg(v) == Ok::<
                ClientMsgView,
                Seq<char>,
            >(ClientMsgView::ChannelTest(s))
        }),
{
    reveal_strlit("prompt");
    reveal_strlit("steer");
    reveal_strlit("switch");
    reveal_strlit("delete_session");
    reveal_strlit("task_approve");
    reveal_strlit("task_reject");
    reveal_strlit("task_pause");
    reveal_strlit("task_resume");
    reveal_strlit("task_delete");
    reveal_strlit("agent_approve");
    reveal_strlit("agent_reject");
    reveal_strlit("agent_switch");
    reveal_strlit("set_model");
    reveal_strlit("set_profile");
    reveal_strlit("group_pause");
    reveal_strlit("group_stop");
    reveal_strlit("group_revoke_lead");
    reveal_strlit("group_summary");
    reveal_strlit("group_open");
    reveal_strlit("channel_test");
    assert("prompt"@.len() != "steer"@.len());
    assert("prompt"@[0] != "switch"@[0]);
    assert("prompt"@.len() != "delete_session"@.len());
    assert("prompt"@.len() != "task_approve"@.len());
    assert("prompt"@.len() != "task_reject"@.len());
    assert("prompt"@.len() != "task_pause"@.len());
    assert("prompt"@.len() != "task_resume"@.len());
    assert("prompt"@.len() != "task_delete"@.len());
    assert("prompt"@.len() != "agent_approve"@.len());
    assert("prompt"@.len() != "agent_reject"@.len());
    assert("prompt"@.len() != "agent_switch"@.len());
    assert("prompt"@.len() != "set_model"@.len());
    assert("prompt"@.len() != "set_profile"@.len());
    assert("prompt"@.len() != "group_pause"@.len());
    assert("prompt"@.len() != "group_stop"@.len());
    assert("prompt"@.len() != "group_revoke_lead"@.len());
    assert("prompt"@.len() != "group_summary"@.len());
    assert("prompt"@.len() != "group_open"@.len());
    assert("prompt"@.len() != "channel_test"@.len());
    assert("steer"@.len() != "switch"@.len());
    assert("steer"@.len() != "delete_session"@.len());
    assert("steer"@.len() != "task_approve"@.len());
    assert("steer"@.len() != "task_reject"@.len());
    assert("steer"@.len() != "task_pause"@.len());
    assert("steer"@.len() != "task_resume"@.len());
    assert("steer"@.len() != "task_delete"@.len());
    assert("steer"@.len() != "agent_approve"@.len());
    assert("steer"@.len() != "agent_reject"@.len());
    assert("steer"@.len() != "agent_switch"@.len());
    assert("steer"@.len() != "set_model"@.len());
    assert("steer"@.len() != "set_profile"@.len());
    assert("steer"@.len() != "group_pause"@.len());
    assert("steer"@.len() != "group_stop"@.len());
    assert("steer"@.len() != "group_revoke_lead"@.len());
    assert("steer"@.len() != "group_summary"@.len());
    assert("steer"@.len() != "group_open"@.len());
    assert("steer"@.len() != "channel_test"@.len());
    assert("switch"@.len() != "delete_session"@.len());
    assert("switch"@.len() != "task_approve"@.len());
    assert("switch"@.len() != "task_reject"@.len());
    assert("switch"@.len() != "task_pause"@.len());
    assert("switch"@.len() != "task_resume"@.len());
    assert("switch"@.len() != "task_delete"@.len());
    assert("switch"@.len() != "agent_approve"@.len());
    assert("switch"@.len() != "agent_reject"@.len());
    assert("switch"@.len() != "agent_switch"@.len());
    assert("switch"@.len() != "set_model"@.len());
    assert("switch"@.len() != "set_profile"@.len());
    assert("switch"@.len() != "group_pause"@.len());
    assert("switch"@.len() != "group_stop"@.len());
    assert("switch"@.len() != "group_revoke_lead"@.len());
    assert("switch"@.len() != "group_summary"@.len());
    assert("switch"@.len() != "group_open"@.len());
    assert("switch"@.len() != "channel_test"@.len());
    assert("delete_session"@.len() != "task_approve"@.len());
    assert("delete_session"@.len() != "task_reject"@.len());
    assert("delete_session"@.len() != "task_pause"@.len());
    assert("delete_session"@.len() != "task_resume"@.len());
    assert("delete_session"@.len() != "task_delete"@.len());
    assert("delete_session"@.len() != "agent_approve"@.len());
    assert("delete_session"@.len() != "agent_reject"@.len());
    assert("delete_session"@.len() != "agent_switch"@.len());
    assert("delete_session"@.len() != "set_model"@.len());
    assert("delete_session"@.len() != "set_profile"@.len());
    assert("delete_session"@.len() != "group_pause"@.len());
    assert("delete_session"@.len() != "group_stop"@.len());
    assert("delete_session"@.len() != "group_revoke_lead"@.len());
    assert("delete_session"@.len() != "group_summary"@.len());
    assert("delete_session"@.len() != "group_open"@.len());
    assert("delete_session"@.len() != "channel_test"@.len());
    assert("task_approve"@.len() != "task_reject"@.len());
    assert("task_approve"@.len() != "task_pause"@.len());
    assert("task_approve"@.len() != "task_resume"@.len());
    assert("task_approve"@.len() != "task_delete"@.len());
    assert("task_approve"@.len() != "agent_approve"@.len());
    assert("task_approve"@[0] != "agent_reject"@[0]);
    assert("task_approve"@[0] != "agent_switch"@[0]);
    assert("task_approve"@.len() != "set_model"@.len());
    assert("task_approve"@.len() != "set_profile"@.len());
    assert("task_approve"@.len() != "group_pause"@.len());
    assert("task_approve"@.len() != "group_stop"@.len());
    assert("task_approve"@.len() != "group_revoke_lead"@.len());
    assert("task_approve"@.len() != "group_summary"@.len());
    assert("task_approve"@.len() != "group_open"@.len());
    assert("task_approve"@[0] != "channel_test"@[0]);
    assert("task_reject"@.len() != "task_pause"@.len());
    assert("task_reject"@[7] != "task_resume"@[7]);
    assert("task_reject"@[5] != "task_delete"@[5]);
    assert("task_reject"@.len() != "agent_approve"@.len());
    assert("task_reject"@.len() != "agent_reject"@.len());
    assert("task_reject"@.len() != "agent_switch"@.len());
    assert("task_reject"@.len() != "set_model"@.len());
    assert("task_reject"@[0] != "set_profile"@[0]);
    assert("task_reject"@[0] != "group_pause"@[0]);
    assert("task_reject"@.len() != "group_stop"@.len());
    assert("task_reject"@.len() != "group_revoke_lead"@.len());
    assert("task_reject"@.len() != "group_summary"@.len());
    assert("task_reject"@.len() != "group_open"@.len());
    assert("task_reject"@.len() != "channel_test"@.len());
    assert("task_pause"@.len() != "task_resume"@.len());
    assert("task_pause"@.len() != "task_delete"@.len());
    assert("task_pause"@.len() != "agent_approve"@.len());
    assert("task_pause"@.len() != "agent_reject"@.len());
    assert("task_pause"@.len() != "agent_switch"@.len());
    assert("task_pause"@.len() != "set_model"@.len());
    assert("task_pause"@.len() != "set_profile"@.len());
    assert("task_pause"@.len() != "group_pause"@.len());
    assert("task_pause"@[0] != "group_stop"@[0]);
    assert("task_pause"@.len() != "group_revoke_lead"@.len());
    assert("task_pause"@.len() != "group_summary"@.len());
    assert("task_pause"@[0] != "group_open"@[0]);
    assert("task_pause"@.len() != "channel_test"@.len());
    assert("task_resume"@[5] != "task_delete"@[5]);
    assert("task_resume"@.len() != "agent_approve"@.len());
    assert("task_resume"@.len() != "agent_reject"@.len());
    assert("task_resume"@.len() != "agent_switch"@.len());
    assert("task_resume"@.len() != "set_model"@.len());
    assert("task_resume"@[0] != "set_profile"@[0]);
    assert("task_resume"@[0] != "group_pause"@[0]);
    assert("task_resume"@.len() != "group_stop"@.len());
    assert("task_resume"@.len() != "group_revoke_lead"@.len());
    assert("task_resume"@.len() != "group_summary"@.len());
    assert("task_resume"@.len() != "group_open"@.len());
    assert("task_resume"@.len() != "channel_test"@.len());
    assert("task_delete"@.len() != "agent_approve"@.len());
    assert("task_delete"@.len() != "agent_reject"@.len());
    assert("task_delete"@.len() != "agent_switch"@.len());
    assert("task_delete"@.len() != "set_model"@.len());
    assert("task_delete"@[0] != "set_profile"@[0]);
    assert("task_delete"@[0] != "group_pause"@[0]);
    assert("task_delete"@.len() != "group_stop"@.len());
    assert("task_delete"@.len() != "group_revoke_lead"@.len());
    assert("task_delete"@.len() != "group_summary"@.len());
    assert("task_delete"@.len() != "group_open"@.len());
    assert("task_delete"@.len() != "channel_test"@.len());
    assert("agent_approve"@.len() != "agent_reject"@.len());
    assert("agent_approve"@.len() != "agent_switch"@.len());
    assert("agent_approve"@.len() != "set_model"@.len());
    assert("agent_approve"@.len() != "set_profile"@.len());
    assert("agent_approve"@.len() != "group_pause"@.len());
    assert("agent_approve"@.len() != "group_stop"@.len());
    assert("agent_approve"@.len() != "group_revoke_lead"@.len());
    assert("agent_approve"@[0] != "group_summary"@[0]);
    assert("agent_approve"@.len() != "group_open"@.len());
    assert("agent_approve"@.len() != "channel_test"@.len());
    assert("agent_reject"@[6] != "agent_switch"@[6]);
    assert("agent_reject"@.len() != "set_model"@.len());
    assert("agent_reject"@.len() != "set_profile"@.len());
    assert("agent_reject"@.len() != "group_pause"@.len());
    assert("agent_reject"@.len() != "group_stop"@.len());
    assert("agent_reject"@.len() != "group_revoke_lead"@.len());
    assert("agent_reject"@.len() != "group_summary"@.len());
    assert("agent_reject"@.len() != "group_open"@.len());
    assert("agent_reject"@[0] != "channel_test"@[0]);
    assert("agent_switch"@.len() != "set_model"@.len());
    assert("agent_switch"@.len() != "set_profile"@.len());
    assert("agent_switch"@.len() != "group_pause"@.len());
    assert("agent_switch"@.len() != "group_stop"@.len());
    assert("agent_switch"@.len() != "group_revoke_lead"@.len());
    assert("agent_switch"@.len() != "group_summary"@.len());
    assert("agent_switch"@.len() != "group_open"@.len());
    assert("agent_switch"@[0] != "channel_test"@[0]);
    assert("set_model"@.len() != "set_profile"@.len());
    assert("set_model"@.len() != "group_pause"@.len());
    assert("set_model"@.len() != "group_stop"@.len());
    assert("set_model"@.len() != "group_revoke_lead"@.len());
    assert("set_model"@.len() != "group_summary"@.len());
    assert("set_model"@.len() != "group_open"@.len());
    assert("set_model"@.len() != "channel_test"@.len());
    assert("set_profile"@[0] != "group_pause"@[0]);
    assert("set_profile"@.len() != "group_stop"@.len());
    assert("set_profile"@.len() != "group_revoke_lead"@.len());
    assert("set_profile"@.len() != "group_summary"@.len());
    assert("set_profile"@.len() != "group_open"@.len());
    assert("set_profile"@.len() != "channel_test"@.len());
    assert("group_pause"@.len() != "group_stop"@.len());
    assert("group_pause"@.len() != "group_revoke_lead"@.len());
    assert("group_pause"@.len() != "group_summary"@.len());
    assert("group_pause"@.len() != "group_open"@.len());
    assert("group_pause"@.len() != "channel_test"@.len());
    assert("group_stop"@.len() != "group_revoke_lead"@.len());
    assert("group_stop"@.len() != "group_summary"@.len());
    assert("group_stop"@[6] != "group_open"@[6]);
    assert("group_stop"@.len() != "channel_test"@.len());
    assert("group_revoke_lead"@.len() != "group_summary"@.len());
    assert("group_revoke_lead"@.len() != "group_open"@.len());
    assert("group_revoke_lead"@.len() != "channel_test"@.len());
    assert("group_summary"@.len() != "group_open"@.len());
    assert("group_summary"@.len() != "channel_test"@.len());
    assert("group_open"@.len() != "channel_test"@.len());
}

proof fn lemma_not_one_word(v: JsonView, t: Seq<char>)
    requires
        t == "new_session"@ || t == "fork"@ || t == "sandbox_set"@ || t == "group_create"@ || t == "group_prompt"@ || t
            == "group_discuss"@ || t == "group_delegate"@ || t == "group_subtask_approve"@ || t == "channel_set"@,
    ensures
        one_field_msg(t, v) is None,
{
    reveal_strlit("prompt");
    reveal_strlit("steer");
    reveal_strlit("switch");
    reveal_strlit("delete_session");
    reveal_strlit("task_approve");
    reveal_strlit("task_reject");
    reveal_strlit("task_pause");
    reveal_strlit("task_resume");
    reveal_strlit("task_delete");
    reveal_strlit("agent_approve");
    reveal_strlit("agent_reject");
    reveal_strlit("agent_switch");
    reveal_strlit("set_model");
    reveal_strlit("set_profile");
    reveal_strlit("group_pause");
    reveal_strlit("group_stop");
    reveal_strlit("group_revoke_lead");
    reveal_strlit("group_summary");
    reveal_strlit("group_open");
    reveal_strlit("channel_test");
    reveal_strlit("new_session");
    reveal_strlit("fork");
    reveal_strlit("sandbox_set");
    reveal_strlit("group_create");
    reveal_strlit("group_prompt");
    reveal_strlit("group_discuss");
    reveal_strlit("group_delegate");
    reveal_strlit("group_subtask_approve");
    reveal_strlit("channel_set");
    assert("prompt"@.len() != "steer"@.len());
    assert("prompt"@[0] != "switch"@[0]);
    assert("prompt"@.len() != "delete_session"@.len());
    assert("prompt"@.len() != "task_approve"@.len());
    assert("prompt"@.len() != "task_reject"@.len());
    assert("prompt"@.len() != "task_pause"@.len());
    assert("prompt"@.len() != "task_resume"@.len());
    assert("prompt"@.len() != "task_delete"@.len());
    assert("prompt"@.len() != "agent_approve"@.len());
    assert("prompt"@.len() != "agent_reject"@.len());
    assert("prompt"@.len() != "agent_switch"@.len());
    assert("prompt"@.len() != "set_model"@.len());
    assert("prompt"@.len() != "set_profile"@.len());
    assert("prompt"@.len() != "group_pause"@.len());
    assert("prompt"@.len() != "group_stop"@.len());
    assert("prompt"@.len() != "group_revoke_lead"@.len());
    assert("prompt"@.len() != "group_summary"@.len());
    assert("prompt"@.len() != "group_open"@.len());
    assert("prompt"@.len() != "channel_test"@.len());
    assert("prompt"@.len() != "new_session"@.len());
    assert("prompt"@.len() != "fork"@.len());
    assert("prompt"@.len() != "sandbox_set"@.len());
    assert("prompt"@.len() != "group_create"@.len());
    assert("prompt"@.len() != "group_prompt"@.len());
    assert("prompt"@.len() != "group_discuss"@.len());
    assert("prompt"@.len() != "group_delegate"@.len());
    assert("prompt"@.len() != "group_subtask_approve"@.len());
    assert("prompt"@.len() != "channel_set"@.len());
    assert("steer"@.len() != "switch"@.len());
    assert("steer"@.len() != "delete_session"@.len());
    assert("steer"@.len() != "task_approve"@.len());
    assert("steer"@.len() != "task_reject"@.len());
    assert("steer"@.len() != "task_pause"@.len());
    assert("steer"@.len() != "task_resume"@.len());
    assert("steer"@.len() != "task_delete"@.len());
    assert("steer"@.len() != "agent_approve"@.len());
    assert("steer"@.len() != "agent_reject"@.len());
    assert("steer"@.len() != "agent_switch"@.len());
    assert("steer"@.len() != "set_model"@.len());
    assert("steer"@.len() != "set_profile"@.len());
    assert("steer"@.len() != "group_pause"@.len());
    assert("steer"@.len() != "group_stop"@.len());
    assert("steer"@.len() != "group_revoke_lead"@.len());
    assert("steer"@.len() != "group_summary"@.len());
    assert("steer"@.len() != "group_open"@.len());
    assert("steer"@.len() != "channel_test"@.len());
    assert("steer"@.len() != "new_session"@.len());
    assert("steer"@.len() != "fork"@.len());
    assert("steer"@.len() != "sandbox_set"@.len());
    assert("steer"@.len() != "group_create"@.len());
    assert("steer"@.len() != "group_prompt"@.len());
    assert("steer"@.len() != "group_discuss"@.len());
    assert("steer"@.len() != "group_delegate"@.len());
    assert("steer"@.len() != "group_subtask_approve"@.len());
    assert("steer"@.len() != "channel_set"@.len());
    assert("switch"@.len() != "delete_session"@.len());
    assert("switch"@.len() != "task_approve"@.len());
    assert("switch"@.len() != "task_reject"@.len());
    assert("switch"@.len() != "task_pause"@.len());
    assert("switch"@.len() != "task_resume"@.len());
    assert("switch"@.len() != "task_delete"@.len());
    assert("switch"@.len() != "agent_approve"@.len());
    assert("switch"@.len() != "agent_reject"@.len());
    assert("switch"@.len() != "agent_switch"@.len());
    assert("switch"@.len() != "set_model"@.len());
    assert("switch"@.len() != "set_profile"@.len());
    assert("switch"@.len() != "group_pause"@.len());
    assert("switch"@.len() != "group_stop"@.len());
    assert("switch"@.len() != "group_revoke_lead"@.len());
    assert("switch"@.len() != "group_summary"@.len());
    assert("switch"@.len() != "group_open"@.len());
    assert("switch"@.len() != "channel_test"@.len());
    assert("switch"@.len() != "new_session"@.len());
    assert("switch"@.len() != "fork"@.len());
    assert("switch"@.len() != "sandbox_set"@.len());
    assert("switch"@.len() != "group_create"@.len());
    assert("switch"@.len() != "group_prompt"@.len());
    assert("switch"@.len() != "group_discuss"@.len());
    assert("switch"@.len() != "group_delegate"@.len());
    assert("switch"@.len() != "group_subtask_approve"@.len());
    assert("switch"@.len() != "channel_set"@.len());
    assert("delete_session"@.len() != "task_approve"@.len());
    assert("delete_session"@.len() != "task_reject"@.len());
    assert("delete_session"@.len() != "task_pause"@.len());
    assert("delete_session"@.len() != "task_resume"@.len());
    assert("delete_session"@.len() != "task_delete"@.len());
    assert("delete_session"@.len() != "agent_approve"@.len());
    assert("delete_session"@.len() != "agent_reject"@.len());
    assert("delete_session"@.len() != "agent_switch"@.len());
    assert("delete_session"@.len() != "set_model"@.len());
    assert("delete_session"@.len() != "set_profile"@.len());
    assert("delete_session"@.len() != "group_pause"@.len());
    assert("delete_session"@.len() != "group_stop"@.len());
    assert("delete_session"@.len() != "group_revoke_lead"@.len());
    assert("delete_session"@.len() != "group_summary"@.len());
    assert("delete_session"@.len() != "group_open"@.len());
    assert("delete_session"@.len() != "channel_test"@.len());
    assert("delete_session"@.len() != "new_session"@.len());
    assert("delete_session"@.len() != "fork"@.len());
    assert("delete_session"@.len() != "sandbox_set"@.len());
    assert("delete_session"@.len() != "group_create"@.len());
    assert("delete_session"@.len() != "group_prompt"@.len());
    assert("delete_session"@.len() != "group_discuss"@.len());
    assert("delete_session"@[0] != "group_delegate"@[0]);
    assert("delete_session"@.len() != "group_subtask_approve"@.len());
    assert("delete_session"@.len() != "channel_set"@.len());
    assert("task_approve"@.len() != "task_reject"@.len());
    assert("task_approve"@.len() != "task_pause"@.len());
    assert("task_approve"@.len() != "task_resume"@.len());
    assert("task_approve"@.len() != "task_delete"@.len());
    assert("task_approve"@.len() != "agent_approve"@.len());
    assert("task_approve"@[0] != "agent_reject"@[0]);
    assert("task_approve"@[0] != "agent_switch"@[0]);
    assert("task_approve"@.len() != "set_model"@.len());
    assert("task_approve"@.len() != "set_profile"@.len());
    assert("task_approve"@.len() != "group_pause"@.len());
    assert("task_approve"@.len() != "group_stop"@.len());
    assert("task_approve"@.len() != "group_revoke_lead"@.len());
    assert("task_approve"@.len() != "group_summary"@.len());
    assert("task_approve"@.len() != "group_open"@.len());
    assert("task_approve"@[0] != "channel_test"@[0]);
    assert("task_approve"@.len() != "new_session"@.len());
    assert("task_approve"@.len() != "fork"@.len());
    assert("task_approve"@.len() != "sandbox_set"@.len());
    assert("task_approve"@[0] != "group_create"@[0]);
    assert("task_approve"@[0] != "group_prompt"@[0]);
    assert("task_approve"@.len() != "group_discuss"@.len());
    assert("task_approve"@.len() != "group_delegate"@.len());
    assert("task_approve"@.len() != "group_subtask_approve"@.len());
    assert("task_approve"@.len() != "channel_set"@.len());
    assert("task_reject"@.len() != "task_pause"@.len());
    assert("task_reject"@[7] != "task_resume"@[7]);
    assert("task_reject"@[5] != "task_delete"@[5]);
    assert("task_reject"@.len() != "agent_approve"@.len());
    assert("task_reject"@.len() != "agent_reject"@.len());
    assert("task_reject"@.len() != "agent_switch"@.len());
    assert("task_reject"@.len() != "set_model"@.len());
    assert("task_reject"@[0] != "set_profile"@[0]);
    assert("task_reject"@[0] != "group_pause"@[0]);
    assert("task_reject"@.len() != "group_stop"@.len());
    assert("task_reject"@.len() != "group_revoke_lead"@.len());
    assert("task_reject"@.len() != "group_summary"@.len());
    assert("task_reject"@.len() != "group_open"@.len());
    assert("task_reject"@.len() != "channel_test"@.len());
    assert("task_reject"@[0] != "new_session"@[0]);
    assert("task_reject"@.len() != "fork"@.len());
    assert("task_reject"@[0] != "sandbox_set"@[0]);
    assert("task_reject"@.len() != "group_create"@.len());
    assert("task_reject"@.len() != "group_prompt"@.len());
    assert("task_reject"@.len() != "group_discuss"@.len());
    assert("task_reject"@.len() != "group_delegate"@.len());
    assert("task_reject"@.len() != "group_subtask_approve"@.len());
    assert("task_reject"@[0] != "channel_set"@[0]);
    assert("task_pause"@.len() != "task_resume"@.len());
    assert("task_pause"@.len() != "task_delete"@.len());
    assert("task_pause"@.len() != "agent_approve"@.len());
    assert("task_pause"@.len() != "agent_reject"@.len());
    assert("task_pause"@.len() != "agent_switch"@.len());
    assert("task_pause"@.len() != "set_model"@.len());
    assert("task_pause"@.len() != "set_profile"@.len());
    assert("task_pause"@.len() != "group_pause"@.len());
    assert("task_pause"@[0] != "group_stop"@[0]);
    assert("task_pause"@.len() != "group_revoke_lead"@.len());
    assert("task_pause"@.len() != "group_summary"@.len());
    assert("task_pause"@[0] != "group_open"@[0]);
    assert("task_pause"@.len() != "channel_test"@.len());
    assert("task_pause"@.len() != "new_session"@.len());
    assert("task_pause"@.len() != "fork"@.len());
    assert("task_pause"@.len() != "sandbox_set"@.len());
    assert("task_pause"@.len() != "group_create"@.len());
    assert("task_pause"@.len() != "group_prompt"@.len());
    assert("task_pause"@.len() != "group_discuss"@.len());
    assert("task_pause"@.len() != "group_delegate"@.len());
    assert("task_pause"@.len() != "group_subtask_approve"@.len());
    assert("task_pause"@.len() != "channel_set"@.len());
    assert("task_resume"@[5] != "task_delete"@[5]);
    assert("task_resume"@.len() != "agent_approve"@.len());
    assert("task_resume"@.len() != "agent_reject"@.len());
    assert("task_resume"@.len() != "agent_switch"@.len());
    assert("task_resume"@.len() != "set_model"@.len());
    assert("task_resume"@[0] != "set_profile"@[0]);
    assert("task_resume"@[0] != "group_pause"@[0]);
    assert("task_resume"@.len() != "group_stop"@.len());
    assert("task_resume"@.len() != "group_revoke_lead"@.len());
    assert("task_resume"@.len() != "group_summary"@.len());
    assert("task_resume"@.len() != "group_open"@.len());
    assert("task_resume"@.len() != "channel_test"@.len());
    assert("task_resume"@[0] != "new_session"@[0]);
    assert("task_resume"@.len() != "fork"@.len());
    assert("task_resume"@[0] != "sandbox_set"@[0]);
    assert("task_resume"@.len() != "group_create"@.len());
    assert("task_resume"@.len() != "group_prompt"@.len());
    assert("task_resume"@.len() != "group_discuss"@.len());
    assert("task_resume"@.len() != "group_delegate"@.len());
    assert("task_resume"@.len() != "group_subtask_approve"@.len());
    assert("task_resume"@[0] != "channel_set"@[0]);
    assert("task_delete"@.len() != "agent_approve"@.len());
    assert("task_delete"@.len() != "agent_reject"@.len());
    assert("task_delete"@.len() != "agent_switch"@.len());
    assert("task_delete"@.len() != "set_model"@.len());
    assert("task_delete"@[0] != "set_profile"@[0]);
    assert("task_delete"@[0] != "group_pause"@[0]);
    assert("task_delete"@.len() != "group_stop"@.len());
    assert("task_delete"@.len() != "group_revoke_lead"@.len());
    assert("task_delete"@.len() != "group_summary"@.len());
    assert("task_delete"@.len() != "group_open"@.len());
    assert("task_delete"@.len() != "channel_test"@.len());
    assert("task_delete"@[0] != "new_session"@[0]);
    assert("task_delete"@.len() != "fork"@.len());
    assert("task_delete"@[0] != "sandbox_set"@[0]);
    assert("task_delete"@.len() != "group_create"@.len());
    assert("task_delete"@.len() != "group_prompt"@.len());
    assert("task_delete"@.len() != "group_discuss"@.len());
    assert("task_delete"@.len() != "group_delegate"@.len());
    assert("task_delete"@.len() != "group_subtask_approve"@.len());
    assert("task_delete"@[0] != "channel_set"@[0]);
    assert("agent_approve"@.len() != "agent_reject"@.len());
    assert("agent_approve"@.len() != "agent_switch"@.len());
    assert("agent_approve"@.len() != "set_model"@.len());
    assert("agent_approve"@.len() != "set_profile"@.len());
    assert("agent_approve"@.len() != "group_pause"@.len());
    assert("agent_approve"@.len() != "group_stop"@.len());
    assert("agent_approve"@.len() != "group_revoke_lead"@.len());
    assert("agent_approve"@[0] != "group_summary"@[0]);
    assert("agent_approve"@.len() != "group_open"@.len());
    assert("agent_approve"@.len() != "channel_test"@.len());
    assert("agent_approve"@.len() != "new_session"@.len());
    assert("agent_approve"@.len() != "fork"@.len());
    assert("agent_approve"@.len() != "sandbox_set"@.len());
    assert("agent_approve"@.len() != "group_create"@.len());
    assert("agent_approve"@.len() != "group_prompt"@.len());
    assert("agent_approve"@[0] != "group_discuss"@[0]);
    assert("agent_approve"@.len() != "group_delegate"@.len());
    assert("agent_approve"@.len() != "group_subtask_approve"@.len());
    assert("agent_approve"@.len() != "channel_set"@.len());
    assert("agent_reject"@[6] != "agent_switch"@[6]);
    assert("agent_reject"@.len() != "set_model"@.len());
    assert("agent_reject"@.len() != "set_profile"@.len());
    assert("agent_reject"@.len() != "group_pause"@.len());
    assert("agent_reject"@.len() != "group_stop"@.len());
    assert("agent_reject"@.len() != "group_revoke_lead"@.len());
    assert("agent_reject"@.len() != "group_summary"@.len());
    assert("agent_reject"@.len() != "group_open"@.len());
    assert("agent_reject"@[0] != "channel_test"@[0]);
    assert("agent_reject"@.len() != "new_session"@.len());
    assert("agent_reject"@.len() != "fork"@.len());
    assert("agent_reject"@.len() != "sandbox_set"@.len());
    assert("agent_reject"@[0] != "group_create"@[0]);
    assert("agent_reject"@[0] != "group_prompt"@[0]);
    assert("agent_reject"@.len() != "group_discuss"@.len());
    assert("agent_reject"@.len() != "group_delegate"@.len());
    assert("agent_reject"@.len() != "group_subtask_approve"@.len());
    assert("agent_reject"@.len() != "channel_set"@.len());
    assert("agent_switch"@.len() != "set_model"@.len());
    assert("agent_switch"@.len() != "set_profile"@.len());
    assert("agent_switch"@.len() != "group_pause"@.len());
    assert("agent_switch"@.len() != "group_stop"@.len());
    assert("agent_switch"@.len() != "group_revoke_lead"@.len());
    assert("agent_switch"@.len() != "group_summary"@.len());
    assert("agent_switch"@.len() != "group_open"@.len());
    assert("agent_switch"@[0] != "channel_test"@[0]);
    assert("agent_switch"@.len() != "new_session"@.len());
    assert("agent_switch"@.len() != "fork"@.len());
    assert("agent_switch"@.len() != "sandbox_set"@.len());
    assert("agent_switch"@[0] != "group_create"@[0]);
    assert("agent_switch"@[0] != "group_prompt"@[0]);
    assert("agent_switch"@.len() != "group_discuss"@.len());
    assert("agent_switch"@.len() != "group_delegate"@.len());
    assert("agent_switch"@.len() != "group_subtask_approve"@.len());
    assert("agent_switch"@.len() != "channel_set"@.len());
    assert("set_model"@.len() != "set_profile"@.len());
    assert("set_model"@.len() != "group_pause"@.len());
    assert("set_model"@.len() != "group_stop"@.len());
    assert("set_model"@.len() != "group_revoke_lead"@.len());
    assert("set_model"@.len() != "group_summary"@.len());
    assert("set_model"@.len() != "group_open"@.len());
    assert("set_model"@.len() != "channel_test"@.len());
    assert("set_model"@.len() != "new_session"@.len());
    assert("set_model"@.len() != "fork"@.len());
    assert("set_model"@.len() != "sandbox_set"@.len());
    assert("set_model"@.len() != "group_create"@.len());
    assert("set_model"@.len() != "group_prompt"@.len());
    assert("set_model"@.len() != "group_discuss"@.len());
    assert("set_model"@.len() != "group_delegate"@.len());
    assert("set_model"@.len() != "group_subtask_approve"@.len());
    assert("set_model"@.len() != "channel_set"@.len());
    assert("set_profile"@[0] != "group_pause"@[0]);
    assert("set_profile"@.len() != "group_stop"@.len());
    assert("set_profile"@.len() != "group_revoke_lead"@.len());
    assert("set_profile"@.len() != "group_summary"@.len());
    assert("set_profile"@.len() != "group_open"@.len());
    assert("set_profile"@.len() != "channel_test"@.len());
    assert("set_profile"@[0] != "new_session"@[0]);
    assert("set_profile"@.len() != "fork"@.len());
    assert("set_profile"@[1] != "sandbox_set"@[1]);
    assert("set_profile"@.len() != "group_create"@.len());
    assert("set_profile"@.len() != "group_prompt"@.len());
    assert("set_profile"@.len() != "group_discuss"@.len());
    assert("set_profile"@.len() != "group_delegate"@.len());
    assert("set_profile"@.len() != "group_subtask_approve"@.len());
    assert("set_profile"@[0] != "channel_set"@[0]);
    assert("group_pause"@.len() != "group_stop"@.len());
    assert("group_pause"@.len() != "group_revoke_lead"@.len());
    assert("group_pause"@.len() != "group_summary"@.len());
    assert("group_pause"@.len() != "group_open"@.len());
    assert("group_pause"@.len() != "channel_test"@.len());
    assert("group_pause"@[0] != "new_session"@[0]);
    assert("group_pause"@.len() != "fork"@.len());
    assert("group_pause"@[0] != "sandbox_set"@[0]);
    assert("group_pause"@.len() != "group_create"@.len());
    assert("group_pause"@.len() != "group_prompt"@.len());
    assert("group_pause"@.len() != "group_discuss"@.len());
    assert("group_pause"@.len() != "group_delegate"@.len());
    assert("group_pause"@.len() != "group_subtask_approve"@.len());
    assert("group_pause"@[0] != "channel_set"@[0]);
    assert("group_stop"@.len() != "group_revoke_lead"@.len());
    assert("group_stop"@.len() != "group_summary"@.len());
    assert("group_stop"@[6] != "group_open"@[6]);
    assert("group_stop"@.len() != "channel_test"@.len());
    assert("group_stop"@.len() != "new_session"@.len());
    assert("group_stop"@.len() != "fork"@.len());
    assert("group_stop"@.len() != "sandbox_set"@.len());
    assert("group_stop"@.len() != "group_create"@.len());
    assert("group_stop"@.len() != "group_prompt"@.len());
    assert("group_stop"@.len() != "group_discuss"@.len());
    assert("group_stop"@.len() != "group_delegate"@.len());
    assert("group_stop"@.len() != "group_subtask_approve"@.len());
    assert("group_stop"@.len() != "channel_set"@.len());
    assert("group_revoke_lead"@.len() != "group_summary"@.len());
    assert("group_revoke_lead"@.len() != "group_open"@.len());
    assert("group_revoke_lead"@.len() != "channel_test"@.len());
    assert("group_revoke_lead"@.len() != "new_session"@.len());
    assert("group_revoke_lead"@.len() != "fork"@.len());
    assert("group_revoke_lead"@.len() != "sandbox_set"@.len());
    assert("group_revoke_lead"@.len() != "group_create"@.len());
    assert("group_revoke_lead"@.len() != "group_prompt"@.len());
    assert("group_revoke_lead"@.len() != "group_discuss"@.len());
    assert("group_revoke_lead"@.len() != "group_delegate"@.len());
    assert("group_revoke_lead"@.len() != "group_subtask_approve"@.len());
    assert("group_revoke_lead"@.len() != "channel_set"@.len());
    assert("group_summary"@.len() != "group_open"@.len());
    assert("group_summary"@.len() != "channel_test"@.len());
    assert("group_summary"@.len() != "new_session"@.len());
    assert("group_summary"@.len() != "fork"@.len());
    assert("group_summary"@.len() != "sandbox_set"@.len());
    assert("group_summary"@.len() != "group_create"@.len());
    assert("group_summary"@.len() != "group_prompt"@.len());
    assert("group_summary"@[6] != "group_discuss"@[6]);
    assert("group_summary"@.len() != "group_delegate"@.len());
    assert("group_summary"@.len() != "group_subtask_approve"@.len());
    assert("group_summary"@.len() != "channel_set"@.len());
    assert("group_open"@.len() != "channel_test"@.len());
    assert("group_open"@.len() != "new_session"@.len());
    assert("group_open"@.len() != "fork"@.len());
    assert("group_open"@.len() != "sandbox_set"@.len());
    assert("group_open"@.len() != "group_create"@.len());
    assert("group_open"@.len() != "group_prompt"@.len());
    assert("group_open"@.len() != "group_discuss"@.len());
    assert("group_open"@.len() != "group_delegate"@.len());
    assert("group_open"@.len() != "group_subtask_approve"@.len());
    assert("group_open"@.len() != "channel_set"@.len());
    assert("channel_test"@.len() != "new_session"@.len());
    assert("channel_test"@.len() != "fork"@.len());
    assert("channel_test"@.len() != "sandbox_set"@.len());
    assert("channel_test"@[0] != "group_create"@[0]);
    assert("channel_test"@[0] != "group_prompt"@[0]);
    assert("channel_test"@.len() != "group_discuss"@.len());
    assert("channel_test"@.len() != "group_delegate"@.len());
    assert("channel_test"@.len() != "group_subtask_approve"@.len());
    assert("channel_test"@.len() != "channel_set"@.len());
    assert("new_session"@.len() != "fork"@.len());
    assert("new_session"@[0] != "sandbox_set"@[0]);
    assert("new_session"@.len() != "group_create"@.len());
    assert("new_session"@.len() != "group_prompt"@.len());
    assert("new_session"@.len() != "group_discuss"@.len());
    assert("new_session"@.len() != "group_delegate"@.len());
    assert("new_session"@.len() != "group_subtask_approve"@.len());
    assert("new_session"@[0] != "channel_set"@[0]);
    assert("fork"@.len() != "sandbox_set"@.len());
    assert("fork"@.len() != "group_create"@.len());
    assert("fork"@.len() != "group_prompt"@.len());
    assert("fork"@.len() != "group_discuss"@.len());
    assert("fork"@.len() != "group_delegate"@.len());
    assert("fork"@.len() != "group_subtask_approve"@.len());
    assert("fork"@.len() != "channel_set"@.len());
    assert("sandbox_set"@.len() != "group_create"@.len());
    assert("sandbox_set"@.len() != "group_prompt"@.len());
    assert("sandbox_set"@.len() != "group_discuss"@.len());
    assert("sandbox_set"@.len() != "group_delegate"@.len());
    assert("sandbox_set"@.len() != "group_subtask_approve"@.len());
    assert("sandbox_set"@[0] != "channel_set"@[0]);
    assert("group_create"@[6] != "group_prompt"@[6]);
    assert("group_create"@.len() != "group_discuss"@.len());
    assert("group_create"@.len() != "group_delegate"@.len());
    assert("group_create"@.len() != "group_subtask_approve"@.len());
    assert("group_create"@.len() != "channel_set"@.len());
    assert("group_prompt"@.len() != "group_discuss"@.len());
    assert("group_prompt"@.len() != "group_delegate"@.len());
    assert("group_prompt"@.len() != "group_subtask_approve"@.len());
    assert("group_prompt"@.len() != "channel_set"@.len());
    assert("group_discuss"@.len() != "group_delegate"@.len());
    assert("group_discuss"@.len() != "group_subtask_approve"@.len());
    assert("group_discuss"@.len() != "channel_set"@.len());
    assert("group_delegate"@.len() != "group_subtask_approve"@.len());
    assert("group_delegate"@.len() != "channel_set"@.len());
    assert("group_subtask_approve"@.len() != "channel_set"@.len());
}

/// What a browser asks of a group, of a session to branch off and of a channel
/// is what is done, with all that it says.
#[verifier::rlimit(60)]
pub proof fn law_requests_with_more_words(
    v: JsonView,
    id: Seq<char>,
    a: Seq<char>,
    b: Seq<char>,
    n: u64,
    config: JsonView,
)
    ensures
        ({
            let t = v.get_str("t"@);
            let has = |k: Seq<char>, s: Seq<char>| v.get_str(k) == Some(s);
            &&& t == Some("new_session"@) ==> client_msg(v) == Ok::<ClientMsgView, Seq<char>>(
                ClientMsgView::NewSession,
            )
            &&& t == Some("fork"@) && has("parent"@, id) && v.get("upto"@) is None ==> client_msg(v) == Ok::<
                ClientMsgView,
                Seq<char>,
            >(ClientMsgView::Fork { parent: id, upto: None })
            &&& t == Some("fork"@) && has("parent"@, id) && v.get("upto"@) == Some(JsonView::Uint(n)) ==> client_msg(
                v,
            ) == Ok::<ClientMsgView, Seq<char>>(ClientMsgView::Fork { parent: id, upto: Some(n as usize) })
            &&& t == Some("group_prompt"@) && has("id"@, id) && has("text"@, a) ==> client_msg(v) == Ok::<
                ClientMsgView,
                Seq<char>,
            >(ClientMsgView::GroupPrompt { id, text: a })
            &&& t == Some("group_discuss"@) && has("id"@, id) && has("topic"@, a) ==> client_msg(v) == Ok::<
                ClientMsgView,
                Seq<char>,
            >(ClientMsgView::GroupDiscuss { id, topic: a })
            &&& t == Some("group_delegate"@) && has("id"@, id) && has("topic"@, a) && has("lead"@, b) ==> client_msg(v)
                == Ok::<ClientMsgView, Seq<char>>(ClientMsgView::GroupDelegate { id, topic: a, lead: b })
            &&& t == Some("group_subtask_approve"@) && has("id"@, id) && has("to"@, a) ==> client_msg(v) == Ok::<
                ClientMsgView,
                Seq<char>,
            >(ClientMsgView::GroupSubtaskApprove { id, to: a })
            &&& t == Some("channel_set"@) && has("agent"@, a) && v.get("config"@) == Some(config) ==> client_msg(v)
                == Ok::<ClientMsgView, Seq<char>>(ClientMsgView::ChannelSet { agent: a, config })
            &&& t is None ==> client_msg(v) is Err
        }),
{
    reveal_strlit("new_session");
    reveal_strlit("fork");
    reveal_strlit("sandbox_set");
    reveal_strlit("group_create");
    reveal_strlit("group_prompt");
    reveal_strlit("group_discuss");
    reveal_strlit("group_delegate");
    reveal_strlit("group_subtask_approve");
    reveal_strlit("channel_set");
    assert("new_session"@.len() != "fork"@.len());
    assert("new_session"@[0] != "sandbox_set"@[0]);
    assert("new_session"@.len() != "group_create"@.len());
    assert("new_session"@.len() != "group_prompt"@.len());
    assert("new_session"@.len() != "group_discuss"@.len());
    assert("new_session"@.len() != "group_delegate"@.len());
    assert("new_session"@.len() != "group_subtask_approve"@.len());
    assert("new_session"@[0] != "channel_set"@[0]);
    assert("fork"@.len() != "sandbox_set"@.len());
    assert("fork"@.len() != "group_create"@.len());
    assert("fork"@.len() != "group_prompt"@.len());
    assert("fork"@.len() != "group_discuss"@.len());
    assert("fork"@.len() != "group_delegate"@.len());
    assert("fork"@.len() != "group_subtask_approve"@.len());
    assert("fork"@.len() != "channel_set"@.len());
    assert("sandbox_set"@.len() != "group_create"@.len());
    assert("sandbox_set"@.len() != "group_prompt"@.len());
    assert("sandbox_set"@.len() != "group_discuss"@.len());
    assert("sandbox_set"@.len() != "group_delegate"@.len());
    assert("sandbox_set"@.len() != "group_subtask_approve"@.len());
    assert("sandbox_set"@[0] != "channel_set"@[0]);
    assert("group_create"@[6] != "group_prompt"@[6]);
    assert("group_create"@.len() != "group_discuss"@.len());
    assert("group_create"@.len() != "group_delegate"@.len());
    assert("group_create"@.len() != "group_subtask_approve"@.len());
    assert("group_create"@.len() != "channel_set"@.len());
    assert("group_prompt"@.len() != "group_discuss"@.len());
    assert("group_prompt"@.len() != "group_delegate"@.len());
    assert("group_prompt"@.len() != "group_subtask_approve"@.len());
    assert("group_prompt"@.len() != "channel_set"@.len());
    assert("group_discuss"@.len() != "group_delegate"@.len());
    assert("group_discuss"@.len() != "group_subtask_approve"@.len());
    assert("group_discuss"@.len() != "channel_set"@.len());
    assert("group_delegate"@.len() != "group_subtask_approve"@.len());
    assert("group_delegate"@.len() != "channel_set"@.len());
    assert("group_subtask_approve"@.len() != "channel_set"@.len());
    if let Some(t) = v.get_str("t"@) {
        if t == "new_session"@ || t == "fork"@ || t == "sandbox_set"@ || t == "group_create"@ || t == "group_prompt"@
            || t == "group_discuss"@ || t == "group_delegate"@ || t == "group_subtask_approve"@ || t
            == "channel_set"@ {
            lemma_not_one_word(v, t);
        }
    }
}

/// The limits of the sandbox are set as they are asked for.
pub proof fn law_limits_that_are_asked_for(v: JsonView, a: u64, b: u64, c: u64, d: u64, e: u64, f: u64)
    requires
        v.get_str("t"@) == Some("sandbox_set"@),
        v.get_u64("bash_timeout_secs"@) == Some(a),
        v.get_u64("max_processes"@) == Some(b),
        v.get_u64("max_memory_mb"@) == Some(c),
        v.get_u64("cpu_time_secs"@) == Some(d),
        v.get_u64("max_file_size_mb"@) == Some(e),
        v.get_u64("cgroup_memory_mb"@) == Some(f),
        b <= usize::MAX,
        c <= usize::MAX,
        d <= u32::MAX,
        e <= u32::MAX,
        f <= u32::MAX,
    ensures
        client_msg(v) matches Ok(ClientMsgView::SandboxSet(l)) && l.bash_timeout_secs == a && l.max_processes == b
            && l.max_memory_mb == c && l.cpu_time_secs == d && l.max_file_size_mb == e && l.cgroup_memory_mb == f,
        client_msg(v) matches Ok(ClientMsgView::SandboxSet(l)) ==> limit_pairs(l) == seq![
            ("bash_timeout_secs"@, dec(a as nat)),
            ("max_processes"@, dec(b as nat)),
            ("max_memory_mb"@, dec(c as nat)),
            ("cpu_time_secs"@, dec(d as nat)),
            ("max_file_size_mb"@, dec(e as nat)),
            ("cgroup_memory_mb"@, dec(f as nat)),
        ],
{
    lemma_not_one_word(v, "sandbox_set"@);
    reveal_strlit("new_session");
    reveal_strlit("fork");
    reveal_strlit("sandbox_set");
    assert("new_session"@.len() != "fork"@.len());
    assert("new_session"@[0] != "sandbox_set"@[0]);
    assert("fork"@.len() != "sandbox_set"@.len());
}

proof fn lemma_listed(a: Seq<JsonView>, i: int)
    ensures
        listed_members(a) matches Ok(m) ==> m.len() == a.len() && (0 <= i < a.len() ==> a[i].get_str("name"@) == Some(
            m[i].0,
        ) && (a[i].get_str("display_name"@) matches Some(d) ==> m[i].1 == d) && (a[i].get_str("display_name"@) is None
            ==> m[i].1.len() == 0)),
        listed_members(a) is Err ==> exists|k: int| 0 <= k < a.len() && (#[trigger] a[k]).get_str("name"@) is None,
    decreases a.len(),
{
    if a.len() > 0 {
        let p = a.drop_last();
        lemma_listed(p, i);
        if listed_members(p) is Err {
            let k = choose|k: int| 0 <= k < p.len() && (#[trigger] p[k]).get_str("name"@) is None;
            assert(a[k].get_str("name"@) is None);
        } else if a.last().get_str("name"@) is None {
            assert(a[a.len() - 1].get_str("name"@) is None);
        }
    }
}

/// A group is made with the title and the members that are asked for.
pub proof fn law_group_that_is_asked_for(v: JsonView, title: Seq<char>, a: Seq<JsonView>, i: int)
    requires
        v.get_str("t"@) == Some("group_create"@),
        v.get_str("title"@) == Some(title),
        v.get("members"@) == Some(JsonView::Arr(a)),
        a.len() > 0,
        forall|k: int| 0 <= k < a.len() ==> (#[trigger] a[k]).get_str("name"@) is Some,
        0 <= i < a.len(),
    ensures
        client_msg(v) matches Ok(ClientMsgView::GroupCreate { title: t, members }) && t == title && members.len()
            == a.len() && a[i].get_str("name"@) == Some(members[i].0) && (a[i].get_str("display_name"@) matches Some(d)
            ==> members[i].1 == d),
{
    lemma_not_one_word(v, "group_create"@);
    reveal_strlit("new_session");
    reveal_strlit("fork");
    reveal_strlit("sandbox_set");
    reveal_strlit("group_create");
    assert("new_session"@.len() != "fork"@.len());
    assert("new_session"@[0] != "sandbox_set"@[0]);
    assert("new_session"@.len() != "group_create"@.len());
    assert("fork"@.len() != "sandbox_set"@.len());
    assert("fork"@.len() != "group_create"@.len());
    assert("sandbox_set"@.len() != "group_create"@.len());
    lemma_listed(a, i);
}

/// What is stated of a browser's message is stated of what it holds.
pub proof fn law_browser_messages_are_their_fields(m: ClientMsg)
    ensures
        match m {
            ClientMsg::Prompt(s) => m@ == ClientMsgView::Prompt(s@),
            ClientMsg::Steer(s) => m@ == ClientMsgView::Steer(s@),
            ClientMsg::Switch(s) => m@ == ClientMsgView::Switch(s@),
            ClientMsg::DeleteSession(s) => m@ == ClientMsgView::DeleteSession(s@),
            ClientMsg::TaskApprove(s) => m@ == ClientMsgView::TaskApprove(s@),
            ClientMsg::TaskReject(s) => m@ == ClientMsgView::TaskReject(s@),
            ClientMsg::TaskPause(s) => m@ == ClientMsgView::TaskPause(s@),
            ClientMsg::TaskResume(s) => m@ == ClientMsgView::TaskResume(s@),
            ClientMsg::TaskDelete(s) => m@ == ClientMsgView::TaskDelete(s@),
            ClientMsg::AgentApprove(s) => m@ == ClientMsgView::AgentApprove(s@),
            ClientMsg::AgentReject(s) => m@ == ClientMsgView::AgentReject(s@),
            ClientMsg::AgentSwitch(s) => m@ == ClientMsgView::AgentSwitch(s@),
            ClientMsg::SetModel(s) => m@ == ClientMsgView::SetModel(s@),
            ClientMsg::SetProfile(s) => m@ == ClientMsgView::SetProfile(s@),
            ClientMsg::GroupPause(s) => m@ == ClientMsgView::GroupPause(s@),
            ClientMsg::GroupStop(s) => m@ == ClientMsgView::GroupStop(s@),
            ClientMsg::GroupRevokeLead(s) => m@ == ClientMsgView::GroupRevokeLead(s@),
            ClientMsg::GroupSummary(s) => m@ == ClientMsgView::GroupSummary(s@),
            ClientMsg::GroupOpen(s) => m@ == ClientMsgView::GroupOpen(s@),
            ClientMsg::ChannelTest(s) => m@ == ClientMsgView::ChannelTest(s@),
            ClientMsg::NewSession => m@ == ClientMsgView::NewSession,
            ClientMsg::Fork { parent, upto } => m@ == (ClientMsgView::Fork { parent: parent@, upto }),
            ClientMsg::SandboxSet(l) => m@ == ClientMsgView::SandboxSet(l),
            ClientMsg::GroupCreate { title, members } => m@ is GroupCreate && m@->title == title@ && m@->members.len()
                == members@.len() && forall|i: int|
                0 <= i < members@.len() ==> (#[trigger] m@->members[i]) == (members@[i].0@, members@[i].1@),
            ClientMsg::GroupPrompt { id, text } => m@ == (ClientMsgView::GroupPrompt { id: id@, text: text@ }),
            ClientMsg::GroupDiscuss { id, topic } => m@ == (ClientMsgView::GroupDiscuss { id: id@, topic: topic@ }),
            ClientMsg::GroupDelegate { id, topic, lead } => m@ == (ClientMsgView::GroupDelegate {
                id: id@,
                topic: topic@,
                lead: lead@,
            }),
            ClientMsg::GroupSubtaskApprove { id, to } => m@ == (ClientMsgView::GroupSubtaskApprove {
                id: id@,
                to: to@,
            }),
            ClientMsg::ChannelSet { agent, config } => m@ == (ClientMsgView::ChannelSet {
                agent: agent@,
                config: config@,
            }),
        },
{
}

/// What is stated of a note and of what follows a request is stated of what
/// they hold.
pub proof fn law_notes_are_their_fields(n: Note, v: Seq<Note>, i: int, r: Request)
    ensures
        n matches Note::Tell(j) ==> n@ == NoteView::Tell(j@),
        n matches Note::TellAll(j) ==> n@ == NoteView::TellAll(j@),
        n is Sessions <==> n@ is Sessions,
        n is State <==> n@ is State,
        n is Init <==> n@ is Init,
        n is ReloadChannels <==> n@ is ReloadChannels,
        notes(v).len() == v.len(),
        0 <= i < v.len() ==> notes(v)[i] == v[i]@,
        r matches Request::Refuse(s) ==> r@ == RequestView::Refuse(s@),
        r matches Request::Resume(s) ==> r@ == RequestView::Resume(s@),
        r matches Request::Branch { parent, upto } ==> r@ == (RequestView::Branch { parent: parent@, upto }),
        r matches Request::RemoveFile(s) ==> r@ == RequestView::RemoveFile(s@),
        r matches Request::Pass(m) ==> r@ == RequestView::Pass(m@),
{
}

/// A session that is asked for is resumed, branched off or removed under its
/// own name, where that names a file; other requests are passed on as they are.
pub proof fn law_sessions_that_are_asked_for(
    id: Seq<char>,
    upto: Option<usize>,
    running: bool,
    current: Option<Seq<char>>,
    m: ClientMsgView,
)
    ensures
        is_file_name(id) ==> routed(ClientMsgView::Switch(id), running, current) == RequestView::Resume(id),
        is_file_name(id) ==> routed(ClientMsgView::Fork { parent: id, upto }, running, current) == (
        RequestView::Branch { parent: id, upto }),
        is_file_name(id) && !running && current != Some(id) ==> routed(
            ClientMsgView::DeleteSession(id),
            running,
            current,
        ) == RequestView::RemoveFile(id + ".jsonl"@),
        !is_file_name(id) ==> routed(ClientMsgView::Switch(id), running, current) is Refuse && routed(
            ClientMsgView::DeleteSession(id),
            running,
            current,
        ) is Refuse && routed(ClientMsgView::Fork { parent: id, upto }, running, current) is Refuse,
        !(m is Switch) && !(m is Fork) && !(m is DeleteSession) ==> routed(m, running, current) == RequestView::Pass(m),
{
}

/// A refusal tells why.
pub proof fn law_refusals_tell_why(message: Seq<char>, history: JsonView, t: Seq<char>)
    ensures
        error_form(message).get_str("t"@) == Some("error"@),
        error_form(message).get_str("message"@) == Some(message),
        failed(message) == seq![NoteView::Tell(error_form(message))],
        history_form(history).get_str("t"@) == Some("session_history"@),
        history_form(history).get("history"@) == Some(history),
        typed(t).get_str("t"@) == Some(t),
        tasks_form(history).get_str("t"@) == Some("tasks"@),
        tasks_form(history).get("tasks"@) == Some(history),
{
    reveal_strlit("t");
    reveal_strlit("message");
    reveal_strlit("history");
    reveal_strlit("tasks");
    assert("t"@.len() != "message"@.len());
    assert("t"@.len() != "history"@.len());
    assert("t"@.len() != "tasks"@.len());
    assert("message"@[0] != "history"@[0]);
    assert("message"@.len() != "tasks"@.len());
    assert("history"@.len() != "tasks"@.len());
}

/// What is asked of a task is done to that task, and all are told; a failure is
/// told with its reason.
pub proof fn law_tasks_that_are_asked_for(id: Seq<char>, v: TaskVerb, tasks: Json, e: String)
    ensures
        task_asked(ClientMsgView::TaskApprove(id)) == Some((TaskVerb::Approve, id)),
        task_asked(ClientMsgView::TaskReject(id)) == Some((TaskVerb::Reject, id)),
        task_asked(ClientMsgView::TaskPause(id)) == Some((TaskVerb::Pause, id)),
        task_asked(ClientMsgView::TaskResume(id)) == Some((TaskVerb::Resume, id)),
        task_asked(ClientMsgView::TaskDelete(id)) == Some((TaskVerb::Delete, id)),
        task_told(v, id, Ok(tasks)).len() > 0 && task_told(v, id, Ok(tasks)).last() == NoteView::TellAll(
            tasks_form(tasks@),
        ),
        v == TaskVerb::Approve || v == TaskVerb::Reject ==> (task_told(v, id, Ok(tasks))[0] matches NoteView::TellAll(j)
            && j.get_str("t"@) == Some("task_state"@) && j.get_str("id"@) == Some(id) && j.get_str("state"@) == Some(
            if v == TaskVerb::Approve {
                "active"@
            } else {
                "rejected"@
            },
        )),
        task_told(v, id, Err(e)).len() == 1 && (task_told(v, id, Err(e))[0] matches NoteView::Tell(j) && j.get_str(
            "message"@,
        ) matches Some(w) && contains_text(w, e@)),
{
    reveal_strlit("t");
    reveal_strlit("id");
    reveal_strlit("state");
    reveal_strlit("message");
    assert("t"@.len() != "id"@.len());
    assert("t"@.len() != "state"@.len());
    assert("t"@.len() != "message"@.len());
    assert("id"@.len() != "state"@.len());
    assert("id"@.len() != "message"@.len());
    assert("state"@.len() != "message"@.len());
    broadcast use group_holds;

}

/// A change of the model is told to all, with the model and with what went
/// wrong.
pub proof fn law_model_change_is_told(model: Seq<char>, rebuilt: Option<Seq<char>>, whole: bool)
    ensures
        ({
            let n = model_told(model, rebuilt, whole);
            let k = if rebuilt is Some {
                1int
            } else {
                0
            };
            &&& n.len() == k + 1 + (if whole {
                1int
            } else {
                0
            })
            &&& n[k] matches NoteView::TellAll(j) && j.get_str("t"@) == Some("model_changed"@) && j.get_str("model"@)
                == Some(model)
            &&& rebuilt matches Some(e) ==> (n[0] matches NoteView::TellAll(j) && j.get_str("message"@) matches Some(w)
                && contains_text(w, e))
            &&& whole ==> n.last() == NoteView::State
        }),
{
    reveal_strlit("t");
    reveal_strlit("model");
    reveal_strlit("message");
    assert("t"@.len() != "model"@.len());
    assert("t"@.len() != "message"@.len());
    assert("model"@.len() != "message"@.len());
    broadcast use group_holds;

}

/// A reply bears the number of its request and its result; an error its code
/// and its words.
pub proof fn law_replies_bear_their_numbers(id: u64, result: JsonView, code: i64, message: Seq<char>)
    ensures
        rpc::result_form(id, result).get_str("jsonrpc"@) == Some("2.0"@),
        rpc::result_form(id, result).get_u64("id"@) == Some(id),
        rpc::result_form(id, result).get("result"@) == Some(result),
        rpc::error_form(Some(id), code, message).get_u64("id"@) == Some(id),
        rpc::error_form(None, code, message).get("id"@) == Some(JsonView::Null),
        rpc::error_form(Some(id), code, message).get("error"@) matches Some(e) && e.get_i64("code"@) == Some(code)
            && e.get_str("message"@) == Some(message),
        rpc::error_form(None, code, message).get("error"@) matches Some(e) && e.get_i64("code"@) == Some(code)
            && e.get_str("message"@) == Some(message),
        rpc::replied(id, result) == OutcomeView::Line(json_printed(rpc::result_form(id, result))),
        rpc::refused(Some(id), code, message) == OutcomeView::Line(
            json_printed(rpc::error_form(Some(id), code, message)),
        ),
{
    reveal_strlit("jsonrpc");
    reveal_strlit("id");
    reveal_strlit("result");
    reveal_strlit("error");
    assert("jsonrpc"@.len() != "id"@.len());
    assert("jsonrpc"@.len() != "result"@.len());
    assert("jsonrpc"@.len() != "error"@.len());
    assert("id"@.len() != "result"@.len());
    assert("id"@.len() != "error"@.len());
    assert("result"@.len() != "error"@.len());
    reveal_strlit("code");
    reveal_strlit("message");
    assert("code"@.len() != "message"@.len());
}

/// The requests of the line protocol do what they say: a prompt is handed out
/// as it is written, words reach the running prompt, a session is made, emptied,
/// branched off or resumed by its name, and the server ends.
pub proof fn law_requests_are_done(s: RpcState, id: u64, v: JsonView, p: JsonView, w: Seq<char>)
    requires
        !s.in_flight,
        v.get("params"@) == Some(p),
    ensures
        p.get_str("input"@) == Some(w) && s.session ==> rpc::routed(s, id, "prompt"@, v) == (
            RpcState { in_flight: true, ..s },
            OutcomeView::PendingPrompt { id, input: w },
        ),
        p.get_str("input"@) == Some(w) && !s.session ==> rpc::routed(s, id, "prompt"@, v) == (
            s,
            OutcomeView::CreateForPrompt { id, input: w },
        ),
        p.get_str("instruction"@) == Some(w) && (s.steering || s.session) ==> rpc::routed(s, id, "steer"@, v) == (
            s,
            OutcomeView::Steer { id, instruction: w, running: s.steering },
        ),
        p.get_str("session_id"@) == Some(w) ==> rpc::routed(s, id, "resume"@, v) == (
            s,
            OutcomeView::Resume { id, session_id: w },
        ),
        p.get_str("parent_id"@) == Some(w) && p.get("upto"@) is None ==> rpc::routed(s, id, "branch"@, v) == (
            s,
            OutcomeView::Branch { id, parent_id: w, upto: None },
        ),
        p.get("config_path"@) is None ==> rpc::routed(s, id, "initialize"@, v) == (s, OutcomeView::Initialize { id }),
        p.get("config_path"@) == Some(JsonView::Str(w)) ==> rpc::routed(s, id, "initialize"@, v) == (
            RpcState { config_path: Some(w), ..s },
            OutcomeView::Initialize { id },
        ),
        rpc::routed(s, id, "reset"@, v) == (s, OutcomeView::Reset { id, create: !s.session }),
        rpc::routed(s, id, "shutdown"@, v).1 is Shutdown,
{
    reveal_strlit("prompt");
    reveal_strlit("steer");
    reveal_strlit("resume");
    reveal_strlit("branch");
    reveal_strlit("initialize");
    reveal_strlit("reset");
    reveal_strlit("shutdown");
    assert("prompt"@.len() != "steer"@.len());
    assert("prompt"@[0] != "resume"@[0]);
    assert("prompt"@[0] != "branch"@[0]);
    assert("prompt"@.len() != "initialize"@.len());
    assert("prompt"@.len() != "reset"@.len());
    assert("prompt"@.len() != "shutdown"@.len());
    assert("steer"@.len() != "resume"@.len());
    assert("steer"@.len() != "branch"@.len());
    assert("steer"@.len() != "initialize"@.len());
    assert("steer"@[0] != "reset"@[0]);
    assert("steer"@.len() != "shutdown"@.len());
    assert("resume"@[0] != "branch"@[0]);
    assert("resume"@.len() != "initialize"@.len());
    assert("resume"@.len() != "reset"@.len());
    assert("resume"@.len() != "shutdown"@.len());
    assert("branch"@.len() != "initialize"@.len());
    assert("branch"@.len() != "reset"@.len());
    assert("branch"@.len() != "shutdown"@.len());
    assert("initialize"@.len() != "reset"@.len());
    assert("initialize"@.len() != "shutdown"@.len());
    assert("reset"@.len() != "shutdown"@.len());
}

/// A request without a number is not answered; one with a number is done under
/// it.
pub proof fn law_requests_have_numbers(s: RpcState, v: JsonView, id: u64, m: Seq<char>)
    ensures
        v.get("id"@) is None ==> rpc::requested(s, v) == (s, OutcomeView::Nothing),
        v.get_u64("id"@) == Some(id) && v.get_str("method"@) == Some(m) ==> rpc::requested(s, v) == rpc::routed(
            s,
            id,
            m,
            v,
        ),
{
}

/// The events of a run are told with what they hold.
pub proof fn law_events_are_told_with_what_they_hold(e: AgentEventView)
    ensures
        ({
            let f = rpc::event_form(e);
            let d = f.get("data"@)->0;
            &&& f.get("data"@) is Some
            &&& match e {
                AgentEventView::AgentStart => f.get_str("type"@) == Some("agent_start"@),
                AgentEventView::MessageUpdate(t) => f.get_str("type"@) == Some("message_update"@) && d.get_str("text"@)
                    == Some(t),
                AgentEventView::Thinking(t) => f.get_str("type"@) == Some("thinking"@) && d.get_str("text"@) == Some(t),
                AgentEventView::Evolved(t) => f.get_str("type"@) == Some("evolved"@) && d.get_str("text"@) == Some(t),
                AgentEventView::ToolCall { name, arguments } => f.get_str("type"@) == Some("tool_call"@) && d.get_str(
                    "name"@,
                ) == Some(name) && d.get_str("arguments"@) == Some(arguments),
                AgentEventView::ToolResult { name, output } => f.get_str("type"@) == Some("tool_result"@)
                    && d.get_str("name"@) == Some(name) && d.get_str("output"@) == Some(output),
                AgentEventView::Steered(i) => f.get_str("type"@) == Some("steered"@) && d.get_str("instruction"@)
                    == Some(i),
                AgentEventView::Done { final_text } => f.get_str("type"@) == Some("done"@) && d.get_str(
                    "final_text"@,
                ) == Some(final_text),
                AgentEventView::UsageUpdate(u) => f.get_str("type"@) == Some("usage_update"@) && d.get_u64(
                    "input_tokens"@,
                ) == Some(u.input_tokens) && d.get_u64("output_tokens"@) == Some(u.output_tokens) && d.get_u64(
                    "llm_calls"@,
                ) == Some(u.llm_calls),
                AgentEventView::Error(m) => f.get_str("type"@) == Some("error"@) && d.get_str("message"@) == Some(m),
            }
        }),
{
    reveal_strlit("type");
    reveal_strlit("data");
    assert("type"@[0] != "data"@[0]);
    reveal_strlit("name");
    reveal_strlit("arguments");
    reveal_strlit("output");
    assert("name"@.len() != "arguments"@.len());
    assert("name"@.len() != "output"@.len());
    assert("arguments"@.len() != "output"@.len());
    reveal_strlit("input_tokens");
    reveal_strlit("output_tokens");
    reveal_strlit("llm_calls");
    assert("input_tokens"@.len() != "output_tokens"@.len());
    assert("input_tokens"@.len() != "llm_calls"@.len());
    assert("output_tokens"@.len() != "llm_calls"@.len());
}

/// What is stated of what follows a line is stated of what it holds.
pub proof fn law_outcomes_are_their_fields(o: RpcOutcome)
    ensures
        match o {
            RpcOutcome::Line(l) => o@ == OutcomeView::Line(l@),
            RpcOutcome::PendingPrompt { id, input } => o@ == (OutcomeView::PendingPrompt { id, input: input@ }),
            RpcOutcome::Shutdown(l) => o@ == OutcomeView::Shutdown(l@),
            RpcOutcome::Nothing => o@ == OutcomeView::Nothing,
            RpcOutcome::Task(t) => match t {
                RpcTask::Initialize { id } => o@ == (OutcomeView::Initialize { id }),
                RpcTask::CreateForPrompt { id, input } => o@ == (OutcomeView::CreateForPrompt { id, input: input@ }),
                RpcTask::Steer { id, instruction, running } => o@ == (OutcomeView::Steer {
                    id,
                    instruction: instruction@,
                    running,
                }),
                RpcTask::Reset { id, create } => o@ == (OutcomeView::Reset { id, create }),
                RpcTask::Branch { id, parent_id, upto } => o@ == (OutcomeView::Branch {
                    id,
                    parent_id: parent_id@,
                    upto,
                }),
                RpcTask::Resume { id, session_id } => o@ == (OutcomeView::Resume { id, session_id: session_id@ }),
            },
        },
{
}

/// What the console shows of a session, of a group and of a skill is what there
/// is.
pub proof fn law_lists_show_what_there_is(
    s: SessionSummary,
    name: Seq<char>,
    g: GroupConfig,
    stream: Seq<GroupEvent>,
    e: SkillEntry,
)
    ensures
        summary_form(s).get_str("id"@) == Some(s.id@),
        summary_form(s).get_u64("message_count"@) == Some(s.message_count as u64),
        summary_form(s).get_str("preview"@) == Some(s.first_user_preview@),
        summary_form(s).get_u64("last_ts"@) == Some(s.last_ts),
        s.branch_from matches Some(b) ==> summary_form(s).get_str("branch_from"@) == Some(b@),
        s.branch_upto matches Some(n) ==> summary_form(s).get_u64("branch_upto"@) == Some(n as u64),
        group_form(name, g, stream).get_str("id"@) == Some(name),
        group_form(name, g, stream).get_str("title"@) == Some(g.title@),
        group_form(name, g, stream).get_str("kind"@) == Some("group"@),
        group_form(name, g, stream).get_u64("members_count"@) == Some(g.members@.len() as u64),
        group_form(name, g, stream).get_str("state"@) == Some(g.state@),
        group_form(name, g, stream).get_u64("round"@) == Some(g.round as u64),
        group_form(name, g, stream).get_u64("used_tokens"@) == Some(g.used_tokens),
        stream.len() > 0 ==> group_form(name, g, stream).get_u64("last_ts"@) == Some(event_ts(stream.last()@)),
        stream.len() == 0 ==> group_form(name, g, stream).get_u64("last_ts"@) == Some(g.created_ts),
        last_ts(summary_form(s)) == s.last_ts,
        last_ts(group_form(name, g, stream)) == group_used(g, stream),
        e.content matches Some(c) ==> skill_form(e).get_str("name"@) == Some(e.name@) && skill_form(e).get_str(
            "first_line"@,
        ) == Some(describe(c@)) && skill_form(e).get_str("path"@) == Some(e.path@),
{
    reveal_strlit("id");
    reveal_strlit("message_count");
    reveal_strlit("preview");
    reveal_strlit("last_ts");
    reveal_strlit("branch_from");
    reveal_strlit("branch_upto");
    assert("id"@.len() != "message_count"@.len());
    assert("id"@.len() != "preview"@.len());
    assert("id"@.len() != "last_ts"@.len());
    assert("id"@.len() != "branch_from"@.len());
    assert("id"@.len() != "branch_upto"@.len());
    assert("message_count"@.len() != "preview"@.len());
    assert("message_count"@.len() != "last_ts"@.len());
    assert("message_count"@.len() != "branch_from"@.len());
    assert("message_count"@.len() != "branch_upto"@.len());
    assert("preview"@[0] != "last_ts"@[0]);
    assert("preview"@.len() != "branch_from"@.len());
    assert("preview"@.len() != "branch_upto"@.len());
    assert("last_ts"@.len() != "branch_from"@.len());
    assert("last_ts"@.len() != "branch_upto"@.len());
    assert("branch_from"@[7] != "branch_upto"@[7]);
    reveal_strlit("id");
    reveal_strlit("title");
    reveal_strlit("kind");
    reveal_strlit("members_count");
    reveal_strlit("state");
    reveal_strlit("round");
    reveal_strlit("used_tokens");
    reveal_strlit("preview");
    reveal_strlit("last_ts");
    assert("id"@.len() != "title"@.len());
    assert("id"@.len() != "kind"@.len());
    assert("id"@.len() != "members_count"@.len());
    assert("id"@.len() != "state"@.len());
    assert("id"@.len() != "round"@.len());
    assert("id"@.len() != "used_tokens"@.len());
    assert("id"@.len() != "preview"@.len());
    assert("id"@.len() != "last_ts"@.len());
    assert("title"@.len() != "kind"@.len());
    assert("title"@.len() != "members_count"@.len());
    assert("title"@[0] != "state"@[0]);
    assert("title"@[0] != "round"@[0]);
    assert("title"@.len() != "used_tokens"@.len());
    assert("title"@.len() != "preview"@.len());
    assert("title"@.len() != "last_ts"@.len());
    assert("kind"@.len() != "members_count"@.len());
    assert("kind"@.len() != "state"@.len());
    assert("kind"@.len() != "round"@.len());
    assert("kind"@.len() != "used_tokens"@.len());
    assert("kind"@.len() != "preview"@.len());
    assert("kind"@.len() != "last_ts"@.len());
    assert("members_count"@.len() != "state"@.len());
    assert("members_count"@.len() != "round"@.len());
    assert("members_count"@.len() != "used_tokens"@.len());
    assert("members_count"@.len() != "preview"@.len());
    assert("members_count"@.len() != "last_ts"@.len());
    assert("state"@[0] != "round"@[0]);
    assert("state"@.len() != "used_tokens"@.len());
    assert("state"@.len() != "preview"@.len());
    assert("state"@.len() != "last_ts"@.len());
    assert("round"@.len() != "used_tokens"@.len());
    assert("round"@.len() != "preview"@.len());
    assert("round"@.len() != "last_ts"@.len());
    assert("used_tokens"@.len() != "preview"@.len());
    assert("used_tokens"@.len() != "last_ts"@.len());
    assert("preview"@[0] != "last_ts"@[0]);
    reveal_strlit("name");
    reveal_strlit("first_line");
    reveal_strlit("path");
    assert("name"@.len() != "first_line"@.len());
    assert("name"@[0] != "path"@[0]);
    assert("first_line"@.len() != "path"@.len());
}

/// The groups that are listed are those among the directories that are named so
/// and have a record; and every session is listed.
pub proof fn law_every_group_and_session_is_listed(v: Seq<GroupFound>, s: Seq<SessionSummary>, i: int)
    ensures
        group_forms(v) == v.filter(|f: GroupFound| occurs_at(f.name@, "group-"@, 0) && f.group is Some).map_values(
            |f: GroupFound| group_form(f.name@, f.group->0, f.stream@),
        ),
        summary_forms(s).len() == s.len(),
        0 <= i < s.len() ==> summary_forms(s)[i] == summary_form(s[i]),
    decreases v.len(),
{
    reveal(Seq::filter);
    if v.len() > 0 {
        law_every_group_and_session_is_listed(v.drop_last(), s, i);
    }
    assert(group_forms(v) =~= v.filter(
        |f: GroupFound| occurs_at(f.name@, "group-"@, 0) && f.group is Some,
    ).map_values(|f: GroupFound| group_form(f.name@, f.group->0, f.stream@)));
}

proof fn lemma_row_inserted(v: Seq<SkillRow>, x: SkillRow, y: SkillRow)
    ensures
        insert_row(v, x).contains(y) <==> v.contains(y) || x == y,
    decreases v.len(),
{
    let r = insert_row(v, x);
    if v.len() == 0 || !text_less(x.0, v.last().0) {
        assert(r[v.len() as int] == x);
        if v.contains(y) {
            assert(r[v.index_of(y)] == y);
        }
        if r.contains(y) && x != y {
            assert(v[r.index_of(y)] == y);
        }
    } else {
        let p = v.drop_last();
        lemma_row_inserted(p, x, y);
        let q = insert_row(p, x);
        assert(r[q.len() as int] == v.last());
        assert(v[v.len() - 1] == v.last());
        if q.contains(y) {
            assert(r[q.index_of(y)] == y);
        }
        if p.contains(y) {
            assert(v[p.index_of(y)] == y);
        }
        if v.contains(y) {
            let k = v.index_of(y);
            if k < p.len() {
                assert(p[k] == y);
            }
        }
        if r.contains(y) {
            let k = r.index_of(y);
            if k < q.len() {
                assert(q[k] == y);
            }
        }
    }
}

proof fn lemma_rows(v: Seq<SkillEntry>, n: int, i: int)
    requires
        0 <= i < n <= v.len(),
        v[i].content is Some,
        forall|j: int| 0 <= j < i ==> (#[trigger] v[j]).name@ != v[i].name@,
    ensures
        skill_rows(v, n).contains((v[i].name@, skill_form(v[i]))),
    decreases n,
{
    let y = (v[i].name@, skill_form(v[i]));
    if i < n - 1 {
        lemma_rows(v, n - 1, i);
        lemma_row_inserted(skill_rows(v, n - 1), (v[n - 1].name@, skill_form(v[n - 1])), y);
    } else {
        lemma_row_inserted(skill_rows(v, n - 1), y, y);
    }
}

/// Every skill with a file is in the console's list; of several with one name
/// the first.
pub proof fn law_every_skill_is_in_the_list(v: Seq<SkillEntry>, i: int)
    requires
        0 <= i < v.len(),
        v[i].content is Some,
        forall|j: int| 0 <= j < i ==> (#[trigger] v[j]).name@ != v[i].name@,
    ensures
        row_forms(skill_rows(v, v.len() as int)).contains(skill_form(v[i])),
{
    lemma_rows(v, v.len() as int, i);
    let rows = skill_rows(v, v.len() as int);
    let k = rows.index_of((v[i].name@, skill_form(v[i])));
    assert(row_forms(rows)[k] == skill_form(v[i]));
}

/// A conversation is shown message by message, each with its text, its calls
/// and the call it answers; instructions are not shown.
pub proof fn law_conversation_is_shown(a: Seq<MessageView>, b: Seq<MessageView>, m: MessageView, c: ToolCallView)
    ensures
        history_items(a + b) == history_items(a) + history_items(b),
        m.role == Role::System ==> history_item(m) is None,
        m.role == Role::User ==> (history_item(m) matches Some(j) && j.get_str("kind"@) == Some("user"@) && j.get_str(
            "text"@,
        ) == Some(m.content)),
        m.role == Role::Assistant ==> (history_item(m) matches Some(j) && j.get_str("kind"@) == Some("assistant"@)
            && j.get_str("text"@) == Some(m.content) && (m.tool_calls matches Some(v) ==> j.get("tool_calls"@) matches Some(
            JsonView::Arr(x),
        ) && x.len() == v.len() && forall|i: int| 0 <= i < v.len() ==> (#[trigger] x[i]) == call_form(v[i]))),
        m.role == Role::Tool ==> (history_item(m) matches Some(j) && j.get_str("kind"@) == Some("tool_result"@)
            && j.get_str("text"@) == Some(m.content) && (m.tool_call_id matches Some(id) ==> j.get_str("call_id"@)
            == Some(id))),
        call_form(c).get_str("id"@) == Some(c.id) && call_form(c).get_str("name"@) == Some(c.name) && call_form(
            c,
        ).get_str("arguments"@) == Some(c.arguments),
    decreases b.len(),
{
    reveal_strlit("kind");
    reveal_strlit("text");
    reveal_strlit("tool_calls");
    reveal_strlit("call_id");
    assert("kind"@[0] != "text"@[0]);
    assert("kind"@.len() != "tool_calls"@.len());
    assert("kind"@.len() != "call_id"@.len());
    assert("text"@.len() != "tool_calls"@.len());
    assert("text"@.len() != "call_id"@.len());
    assert("tool_calls"@.len() != "call_id"@.len());
    reveal_strlit("id");
    reveal_strlit("name");
    reveal_strlit("arguments");
    assert("id"@.len() != "name"@.len());
    assert("id"@.len() != "arguments"@.len());
    assert("name"@.len() != "arguments"@.len());
    if b.len() == 0 {
        assert(a + b =~= a);
        assert(history_items(a) + history_items(b) =~= history_items(a));
    } else {
        assert((a + b).drop_last() =~= a + b.drop_last());
        assert((a + b).last() == b.last());
        law_conversation_is_shown(a, b.drop_last(), m, c);
        match history_item(b.last()) {
            Some(j) => {
                assert((history_items(a) + history_items(b.drop_last())).push(j) =~= history_items(a) + history_items(
                    b.drop_last(),
                ).push(j));
            },
            None => {},
        }
    }
}

/// The message that is shown for one is the one it is made of.
pub proof fn law_one_message_is_shown(m: MessageView)
    ensures
        history_item(m) matches Some(j) ==> history_items(seq![m]) == seq![j],
        history_item(m) is None ==> history_items(seq![m]).len() == 0,
{
    assert(seq![m].drop_last() =~= Seq::<MessageView>::empty());
    assert(history_items(Seq::<MessageView>::empty()) == Seq::<JsonView>::empty());
    if let Some(j) = history_item(m) {
        assert(Seq::<JsonView>::empty().push(j) =~= seq![j]);
    }
}

/// The state that the console shows is the state there is.
pub proof fn law_state_that_is_shown(c: Config, p: StateParts)
    ensures
        ({
            let s = state_form(c, p);
            &&& s.get_str("model"@) == Some(model_text(c.model))
            &&& s.get_str("active_profile"@) == Some(c.model.active_profile@)
            &&& s.get_str("current_agent"@) == Some(p.current_agent@)
            &&& s.get("tasks"@) == Some(p.tasks@)
            &&& s.get("history"@) == Some(p.history@)
            &&& s.get("sessions"@) == Some(JsonView::Arr(views(p.sessions@)))
            &&& s.get("tools"@) == Some(JsonView::Arr(views(p.tools@)))
            &&& s.get("channels"@) == Some(JsonView::Arr(views(p.channels@)))
            &&& s.get("agents"@) == Some(JsonView::Arr(profile_forms(p.agents@)))
            &&& s.get("model_profiles"@) == Some(JsonView::Arr(model_forms(c.model.profiles@)))
            &&& s.get("sandbox"@) == Some(sandbox_form(c))
            &&& s.get("prompt_sections"@) == Some(sections_form(p.sections))
            &&& s.get("running"@) == Some(JsonView::Bool(p.running))
            &&& p.current_session matches Some(id) ==> s.get_str("current_session"@) == Some(id@)
            &&& p.current_session is None ==> s.get("current_session"@) == Some(JsonView::Null)
        }),
{
    reveal_strlit("model");
    reveal_strlit("model_profiles");
    reveal_strlit("active_profile");
    reveal_strlit("agents");
    reveal_strlit("current_agent");
    reveal_strlit("channels");
    reveal_strlit("tasks");
    reveal_strlit("history");
    reveal_strlit("current_session");
    reveal_strlit("sessions");
    reveal_strlit("tools");
    reveal_strlit("sandbox");
    reveal_strlit("prompt_sections");
    reveal_strlit("running");
    assert("model"@.len() != "model_profiles"@.len());
    assert("model"@.len() != "active_profile"@.len());
    assert("model"@.len() != "agents"@.len());
    assert("model"@.len() != "current_agent"@.len());
    assert("model"@.len() != "channels"@.len());
    assert("model"@[0] != "tasks"@[0]);
    assert("model"@.len() != "history"@.len());
    assert("model"@.len() != "current_session"@.len());
    assert("model"@.len() != "sessions"@.len());
    assert("model"@[0] != "tools"@[0]);
    assert("model"@.len() != "sandbox"@.len());
    assert("model"@.len() != "prompt_sections"@.len());
    assert("model"@.len() != "running"@.len());
    assert("model_profiles"@[0] != "active_profile"@[0]);
    assert("model_profiles"@.len() != "agents"@.len());
    assert("model_profiles"@.len() != "current_agent"@.len());
    assert("model_profiles"@.len() != "channels"@.len());
    assert("model_profiles"@.len() != "tasks"@.len());
    assert("model_profiles"@.len() != "history"@.len());
    assert("model_profiles"@.len() != "current_session"@.len());
    assert("model_profiles"@.len() != "sessions"@.len());
    assert("model_profiles"@.len() != "tools"@.len());
    assert("model_profiles"@.len() != "sandbox"@.len());
    assert("model_profiles"@.len() != "prompt_sections"@.len());
    assert("model_profiles"@.len() != "running"@.len());
    assert("active_profile"@.len() != "agents"@.len());
    assert("active_profile"@.len() != "current_agent"@.len());
    assert("active_profile"@.len() != "channels"@.len());
    assert("active_profile"@.len() != "tasks"@.len());
    assert("active_profile"@.len() != "history"@.len());
    assert("active_profile"@.len() != "current_session"@.len());
    assert("active_profile"@.len() != "sessions"@.len());
    assert("active_profile"@.len() != "tools"@.len());
    assert("active_profile"@.len() != "sandbox"@.len());
    assert("active_profile"@.len() != "prompt_sections"@.len());
    assert("active_profile"@.len() != "running"@.len());
    assert("agents"@.len() != "current_agent"@.len());
    assert("agents"@.len() != "channels"@.len());
    assert("agents"@.len() != "tasks"@.len());
    assert("agents"@.len() != "history"@.len());
    assert("agents"@.len() != "current_session"@.len());
    assert("agents"@.len() != "sessions"@.len());
    assert("agents"@.len() != "tools"@.len());
    assert("agents"@.len() != "sandbox"@.len());
    assert("agents"@.len() != "prompt_sections"@.len());
    assert("agents"@.len() != "running"@.len());
    assert("current_agent"@.len() != "channels"@.len());
    assert("current_agent"@.len() != "tasks"@.len());
    assert("current_agent"@.len() != "history"@.len());
    assert("current_agent"@.len() != "current_session"@.len());
    assert("current_agent"@.len() != "sessions"@.len());
    assert("current_agent"@.len() != "tools"@.len());
    assert("current_agent"@.len() != "sandbox"@.len());
    assert("current_agent"@.len() != "prompt_sections"@.len());
    assert("current_agent"@.len() != "running"@.len());
    assert("channels"@.len() != "tasks"@.len());
    assert("channels"@.len() != "history"@.len());
    assert("channels"@.len() != "current_session"@.len());
    assert("channels"@[0] != "sessions"@[0]);
    assert("channels"@.len() != "tools"@.len());
    assert("channels"@.len() != "sandbox"@.len());
    assert("channels"@.len() != "prompt_sections"@.len());
    assert("channels"@.len() != "running"@.len());
    assert("tasks"@.len() != "history"@.len());
    assert("tasks"@.len() != "current_session"@.len());
    assert("tasks"@.len() != "sessions"@.len());
    assert("tasks"@[1] != "tools"@[1]);
    assert("tasks"@.len() != "sandbox"@.len());
    assert("tasks"@.len() != "prompt_sections"@.len());
    assert("tasks"@.len() != "running"@.len());
    assert("history"@.len() != "current_session"@.len());
    assert("history"@.len() != "sessions"@.len());
    assert("history"@.len() != "tools"@.len());
    assert("history"@[0] != "sandbox"@[0]);
    assert("history"@.len() != "prompt_sections"@.len());
    assert("history"@[0] != "running"@[0]);
    assert("current_session"@.len() != "sessions"@.len());
    assert("current_session"@.len() != "tools"@.len());
    assert("current_session"@.len() != "sandbox"@.len());
    assert("current_session"@[0] != "prompt_sections"@[0]);
    assert("current_session"@.len() != "running"@.len());
    assert("sessions"@.len() != "tools"@.len());
    assert("sessions"@.len() != "sandbox"@.len());
    assert("sessions"@.len() != "prompt_sections"@.len());
    assert("sessions"@.len() != "running"@.len());
    assert("tools"@.len() != "sandbox"@.len());
    assert("tools"@.len() != "prompt_sections"@.len());
    assert("tools"@.len() != "running"@.len());
    assert("sandbox"@.len() != "prompt_sections"@.len());
    assert("sandbox"@[0] != "running"@[0]);
    assert("prompt_sections"@.len() != "running"@.len());
}

/// The parts of the state are what they are named.
pub proof fn law_parts_of_the_state(c: Config, s: PromptSections, v: Seq<ModelProfile>, a: Seq<AgentProfile>, i: int)
    ensures
        sandbox_form(c).get_str("level"@) == Some(c.sandbox.level@),
        sandbox_form(c).get_u64("bash_timeout_secs"@) == Some(c.sandbox.bash_timeout_secs),
        sandbox_form(c).get_u64("max_processes"@) == Some(c.sandbox.max_processes as u64),
        sandbox_form(c).get_u64("max_memory_mb"@) == Some(c.sandbox.max_memory_mb as u64),
        sandbox_form(c).get_u64("cpu_time_secs"@) == Some(c.sandbox.cpu_time_secs as u64),
        sandbox_form(c).get_u64("max_file_size_mb"@) == Some(c.sandbox.max_file_size_mb as u64),
        sandbox_form(c).get_u64("cgroup_memory_mb"@) == Some(c.sandbox.cgroup_memory_mb as u64),
        sections_form(s).get_str("core"@) == Some(s.core@),
        s.soul matches Some(x) ==> sections_form(s).get_str("soul"@) == Some(x@),
        s.agents matches Some(x) ==> sections_form(s).get_str("agents"@) == Some(x@),
        s.skills matches Some(x) ==> sections_form(s).get_str("skills"@) == Some(x@),
        s.custom matches Some(x) ==> sections_form(s).get_str("custom"@) == Some(x@),
        model_forms(v).len() == v.len(),
        0 <= i < v.len() ==> model_forms(v)[i].get_str("name"@) == Some(v[i].name@) && model_forms(v)[i].get_str(
            "model"@,
        ) == Some(v[i].model@),
        profile_forms(a).len() == a.len(),
        0 <= i < a.len() ==> profile_forms(a)[i] == profile_view(a[i]),
{
    reveal_strlit("level");
    reveal_strlit("bash_timeout_secs");
    reveal_strlit("max_processes");
    reveal_strlit("max_memory_mb");
    reveal_strlit("cpu_time_secs");
    reveal_strlit("max_file_size_mb");
    reveal_strlit("cgroup_memory_mb");
    assert("level"@.len() != "bash_timeout_secs"@.len());
    assert("level"@.len() != "max_processes"@.len());
    assert("level"@.len() != "max_memory_mb"@.len());
    assert("level"@.len() != "cpu_time_secs"@.len());
    assert("level"@.len() != "max_file_size_mb"@.len());
    assert("level"@.len() != "cgroup_memory_mb"@.len());
    assert("bash_timeout_secs"@.len() != "max_processes"@.len());
    assert("bash_timeout_secs"@.len() != "max_memory_mb"@.len());
    assert("bash_timeout_secs"@.len() != "cpu_time_secs"@.len());
    assert("bash_timeout_secs"@.len() != "max_file_size_mb"@.len());
    assert("bash_timeout_secs"@.len() != "cgroup_memory_mb"@.len());
    assert("max_processes"@[4] != "max_memory_mb"@[4]);
    assert("max_processes"@[0] != "cpu_time_secs"@[0]);
    assert("max_processes"@.len() != "max_file_size_mb"@.len());
    assert("max_processes"@.len() != "cgroup_memory_mb"@.len());
    assert("max_memory_mb"@[0] != "cpu_time_secs"@[0]);
    assert("max_memory_mb"@.len() != "max_file_size_mb"@.len());
    assert("max_memory_mb"@.len() != "cgroup_memory_mb"@.len());
    assert("cpu_time_secs"@.len() != "max_file_size_mb"@.len());
    assert("cpu_time_secs"@.len() != "cgroup_memory_mb"@.len());
    assert("max_file_size_mb"@[0] != "cgroup_memory_mb"@[0]);
    reveal_strlit("core");
    reveal_strlit("soul");
    reveal_strlit("agents");
    reveal_strlit("skills");
    reveal_strlit("custom");
    assert("core"@[0] != "soul"@[0]);
    assert("core"@.len() != "agents"@.len());
    assert("core"@.len() != "skills"@.len());
    assert("core"@.len() != "custom"@.len());
    assert("soul"@.len() != "agents"@.len());
    assert("soul"@.len() != "skills"@.len());
    assert("soul"@.len() != "custom"@.len());
    assert("agents"@[0] != "skills"@[0]);
    assert("agents"@[0] != "custom"@[0]);
    assert("skills"@[0] != "custom"@[0]);
    reveal_strlit("name");
    reveal_strlit("model");
    assert("name"@.len() != "model"@.len());
}

/// What is shown of growth: each event with what it holds, a skill with its
/// status and how often it succeeded, and how many lessons the week brought.
pub proof fn law_growth_is_shown(
    e: EvolutionEvent,
    v: Seq<EvolutionEvent>,
    i: int,
    name: Seq<char>,
    status: Option<Seq<char>>,
    u: SkillUseStat,
    since: u64,
)
    requires
        u.count > 0 ==> u.success + u.fail > 0,
    ensures
        growth_event(e).get_u64("ts"@) == Some(e.ts) && growth_event(e).get_str("kind"@) == Some(e.kind@),
        growth_event(e).get_str("content"@) == Some(e.content@) && growth_event(e).get_str("evidence"@) == Some(
            e.evidence@,
        ) && growth_event(e).get_str("session_id"@) == Some(e.session_id@),
        growth_events(v).len() == v.len(),
        0 <= i < v.len() ==> growth_events(v)[i] == growth_event(v[i]),
        growth_skill(name, status, Some(u)).get_str("name"@) == Some(name),
        growth_skill(name, status, Some(u)).get_u64("used"@) == Some(u.count),
        u.count == 0 ==> growth_skill(name, status, Some(u)).get("success_rate"@) == Some(JsonView::Null),
        u.count > 0 ==> growth_skill(name, status, Some(u)).get("success_rate"@) == Some(
            JsonView::Uint(((u.success * 100) / (u.success + u.fail)) as u64),
        ),
        growth_skill(name, Some("trial"@), None).get_str("status"@) == Some("trial"@),
        growth_skill(name, Some("promoted"@), None).get_str("status"@) == Some("promoted"@),
        growth_skill(name, None, None).get_str("status"@) == Some("native"@),
        lessons_since(v.push(e), since) == lessons_since(v, since) + (if e.kind@ == "lesson"@ && e.ts >= since {
            1int
        } else {
            0
        }),
        lessons_since(Seq::<EvolutionEvent>::empty(), since) == 0,
        week_before(since) == (if since >= 7 * 24 * 3600 {
            since - 7 * 24 * 3600
        } else {
            0
        }),
{
    reveal_strlit("ts");
    reveal_strlit("kind");
    reveal_strlit("content");
    reveal_strlit("evidence");
    reveal_strlit("session_id");
    assert("ts"@.len() != "kind"@.len());
    assert("ts"@.len() != "content"@.len());
    assert("ts"@.len() != "evidence"@.len());
    assert("ts"@.len() != "session_id"@.len());
    assert("kind"@.len() != "content"@.len());
    assert("kind"@.len() != "evidence"@.len());
    assert("kind"@.len() != "session_id"@.len());
    assert("content"@.len() != "evidence"@.len());
    assert("content"@.len() != "session_id"@.len());
    assert("evidence"@.len() != "session_id"@.len());
    reveal_strlit("name");
    reveal_strlit("status");
    reveal_strlit("used");
    reveal_strlit("success_rate");
    assert("name"@.len() != "status"@.len());
    assert("name"@[0] != "used"@[0]);
    assert("name"@.len() != "success_rate"@.len());
    assert("status"@.len() != "used"@.len());
    assert("status"@.len() != "success_rate"@.len());
    assert("used"@.len() != "success_rate"@.len());
    reveal_strlit("trial");
    reveal_strlit("promoted");
    assert("trial"@.len() != "promoted"@.len());
    assert(v.push(e).drop_last() =~= v);
}

/// The skills that decay are shown with the time of their last use.
pub proof fn law_decay_is_shown(v: Seq<(String, u64)>, i: int)
    requires
        0 <= i < v.len(),
    ensures
        decayed_forms(v).len() == v.len(),
        decayed_forms(v)[i].get_str("name"@) == Some(v[i].0@),
        decayed_forms(v)[i].get_u64("last_used"@) == Some(v[i].1),
{
    reveal_strlit("name");
    reveal_strlit("last_used");
    assert("name"@.len() != "last_used"@.len());
}

/// The files of the prompt, and where the sessions of an agent are.
pub proof fn law_places(home: Option<Seq<char>>, work: Seq<char>, agent: Seq<char>, dir: Seq<char>, h: Seq<char>, name: Seq<char>)
    ensures
        prompt_file("soul"@, home, work) == Some(crate::config::expanded("~/.r2/SOUL.md"@, home)),
        prompt_file("agents"@, home, work) == Some(path_join(work, "AGENTS.md"@)),
        name != "soul"@ && name != "agents"@ ==> prompt_file(name, home, work) is None,
        agent == "main"@ ==> sessions_of(agent, dir, h) == dir,
        agent != "main"@ ==> sessions_of(agent, dir, h) == path_join(crate::agents::dir_of(h, agent), "sessions"@),
{
    reveal_strlit("soul");
    reveal_strlit("agents");
    assert("soul"@.len() != "agents"@.len());
}

proof fn lemma_last_index(s: Seq<char>, c: char)
    ensures
        -1 <= last_index(s, c) < s.len(),
        last_index(s, c) >= 0 ==> s[last_index(s, c)] == c,
        forall|i: int| last_index(s, c) < i < s.len() ==> (#[trigger] s[i]) != c,
    decreases s.len(),
{
    if s.len() > 0 && s.last() != c {
        let p = s.drop_last();
        lemma_last_index(p, c);
        assert forall|i: int| last_index(s, c) < i < s.len() implies (#[trigger] s[i]) != c by {
            if i < p.len() {
                assert(p[i] == s[i]);
            }
        }
    }
}

/// The extension of a name is what stands behind its last dot; a name that only
/// begins with a dot has none.
pub proof fn law_extensions(stem: Seq<char>, e: Seq<char>)
    requires
        stem.len() > 0,
        !e.contains('.'),
    ensures
        extension(stem + seq!['.'] + e) == Some(e),
        !stem.contains('.') ==> extension(stem) is None && extension(seq!['.'] + stem) is None,
{
    let s = stem + seq!['.'] + e;
    let n = stem.len() as int;
    lemma_last_index(s, '.');
    let k = last_index(s, '.');
    assert(s[n] == '.');
    if k > n {
        assert(s[k] == e[k - n - 1]);
        assert(e.contains(e[k - n - 1]));
    }
    if k < n {
        assert(s[n] != '.');
    }
    assert(s.skip(n + 1) =~= e);
    if !stem.contains('.') {
        lemma_last_index(stem, '.');
        if last_index(stem, '.') >= 0 {
            assert(stem.contains(stem[last_index(stem, '.')]));
        }
        let d = seq!['.'] + stem;
        lemma_last_index(d, '.');
        let j = last_index(d, '.');
        if j > 0 {
            assert(d[j] == stem[j - 1]);
            assert(stem.contains(stem[j - 1]));
        }
    }
}

/// The types of files that may be uploaded.
pub proof fn law_upload_types(e: Seq<char>, name: Seq<char>)
    ensures
        upload_types().contains(e) ==> e == "txt"@ || e == "md"@ || e == "rs"@ || e == "py"@ || e == "js"@ || e == "ts"@
            || e == "json"@ || e == "csv"@ || e == "toml"@ || e == "yaml"@ || e == "yml"@ || e == "log"@,
        upload_types().contains("txt"@) && upload_types().contains("md"@) && upload_types().contains("json"@)
            && upload_types().contains("csv"@),
        may_upload(name) ==> base_name(name) is Some && extension(base_name(name)->0) is Some
            && upload_types().contains(ascii_lower_all(extension(base_name(name)->0)->0)),
        base_name(name) matches Some(n) ==> upload_base(name) == n,
{
    let t = upload_types();
    assert(t[0] == "txt"@ && t[1] == "md"@ && t[6] == "json"@ && t[7] == "csv"@);
    if t.contains(e) {
        let k = t.index_of(e);
        assert(t[k] == e);
    }
}

/// A name without slashes and dots-only parts is a path's last part.
pub proof fn law_last_part_of_a_path(parts: Seq<Seq<char>>, n: int)
    requires
        0 < n <= parts.len(),
        parts[n - 1].len() > 0,
        parts[n - 1] != "."@,
        parts[n - 1] != ".."@,
    ensures
        last_part(parts, n) == Some(parts[n - 1]),
{
}

/// What is changed of a profile is what was given, and the rest stays; the
/// profile is the one that was asked for.
pub proof fn law_what_is_given(body: JsonView, key: Seq<char>, before: Seq<char>, n: Seq<char>)
    ensures
        body.get_str(key) == Some(n) ==> given_or(body, key, before) == n,
        body.get_str(key) is None ==> given_or(body, key, before) == before,
        body.get_str("name"@) == Some(n) ==> asked_name(body) == n,
        main_form().get_str("name"@) == Some("main"@),
        main_form().get_str("state"@) == Some("active"@),
{
    reveal_strlit("name");
    reveal_strlit("display_name");
    reveal_strlit("model");
    reveal_strlit("state");
    assert("name"@.len() != "display_name"@.len());
    assert("name"@.len() != "model"@.len());
    assert("name"@.len() != "state"@.len());
    assert("display_name"@.len() != "model"@.len());
    assert("display_name"@.len() != "state"@.len());
    assert("model"@[0] != "state"@[0]);
}

/// A word or a number that is not there is asked for by its name.
pub proof fn law_missing_fields_are_named(v: JsonView, key: Seq<char>)
    ensures
        v.get_str(key) is Some ==> str_field(v, key) == Ok::<Seq<char>, Seq<char>>(v.get_str(key)->Some_0),
        v.get_str(key) is None ==> str_field(v, key) is Err && contains_text(str_field(v, key)->Err_0, key),
        v.get_u64(key) is Some ==> num_field(v, key) == Ok::<u64, Seq<char>>(v.get_u64(key)->Some_0),
        v.get_u64(key) is None ==> num_field(v, key) is Err && contains_text(num_field(v, key)->Err_0, key),
{
    broadcast use group_holds;

}

/// What failed with a task is told by the word for it.
pub proof fn law_failure_with_a_task_is_told()
    ensures
        task_failure(TaskVerb::Approve) == "批准失败："@,
        task_failure(TaskVerb::Reject) == "拒绝失败："@,
        task_failure(TaskVerb::Pause) == "暂停失败："@,
        task_failure(TaskVerb::Resume) == "恢复失败："@,
        task_failure(TaskVerb::Delete) == "删除失败："@,
{
}

/// An event is sent on with its type and what it holds.
pub proof fn law_event_is_sent_on(kind: Seq<char>, key: Seq<char>, value: JsonView)
    requires
        key != "type"@,
    ensures
        event_note(kind, key, value).get_str("t"@) == Some("event"@),
        event_note(kind, key, value).get2_str("evt"@, "type"@) == Some(kind),
        event_note(kind, key, value).get2("evt"@, key) == Some(value),
{
    reveal_strlit("t");
    reveal_strlit("evt");
    reveal_strlit("type");
    assert("t"@.len() != "evt"@.len());
    assert("t"@.len() != "type"@.len());
    assert("evt"@.len() != "type"@.len());
}

proof fn lemma_sessions_of_one_time(v: Seq<JsonView>, x: JsonView, ts: u64)
    requires
        by_time(v),
    ensures
        insert_latest(v, x).filter(|s: JsonView| last_ts(s) == ts) == v.push(x).filter(|s: JsonView| last_ts(s) == ts),
        by_time(insert_latest(v, x)),
        forall|i: int|
            0 <= i < insert_latest(v, x).len() ==> last_ts(#[trigger] insert_latest(v, x)[i]) == last_ts(x) || exists|
                j: int,
            | 0 <= j < v.len() && last_ts(#[trigger] v[j]) == last_ts(insert_latest(v, x)[i]),
    decreases v.len(),
{
    reveal(Seq::filter);
    let p = |s: JsonView| last_ts(s) == ts;
    assert(v.push(x).drop_last() =~= v);
    if v.len() == 0 || last_ts(v.last()) >= last_ts(x) {
        let r = v.push(x);
        assert forall|i: int| 0 <= i < r.len() implies last_ts(#[trigger] r[i]) == last_ts(x) || exists|j: int|
            0 <= j < v.len() && last_ts(#[trigger] v[j]) == last_ts(r[i]) by {
            if i < v.len() {
                assert(last_ts(v[i]) == last_ts(r[i]));
            }
        }
        assert forall|i: int, j: int| 0 <= i < j < r.len() implies last_ts(#[trigger] r[i]) >= last_ts(
            #[trigger] r[j],
        ) by {
            if j < v.len() {
                assert(last_ts(v[i]) >= last_ts(v[j]));
            } else if i < v.len() - 1 {
                assert(last_ts(v[i]) >= last_ts(v[v.len() - 1]));
            }
        }
    } else {
        let w = v.drop_last();
        let y = v.last();
        let q = insert_latest(w, x);
        let r = q.push(y);
        lemma_sessions_of_one_time(w, x, ts);
        assert(r.drop_last() =~= q);
        assert(w.push(x).drop_last() =~= w);
        assert(q.filter(p) =~= w.push(x).filter(p));
        assert(v.filter(p) == if p(y) {
            w.filter(p).push(y)
        } else {
            w.filter(p)
        });
        assert(w.push(x).filter(p) == if p(x) {
            w.filter(p).push(x)
        } else {
            w.filter(p)
        });
        assert(v.push(x).filter(p) == if p(x) {
            v.filter(p).push(x)
        } else {
            v.filter(p)
        });
        assert(r.filter(p) == if p(y) {
            q.filter(p).push(y)
        } else {
            q.filter(p)
        });
        assert forall|i: int| 0 <= i < r.len() implies last_ts(#[trigger] r[i]) == last_ts(x) || exists|j: int|
            0 <= j < v.len() && last_ts(#[trigger] v[j]) == last_ts(r[i]) by {
            if i < q.len() {
                assert(q[i] == r[i]);
                if last_ts(q[i]) != last_ts(x) {
                    let j = choose|j: int| 0 <= j < w.len() && last_ts(#[trigger] w[j]) == last_ts(q[i]);
                    assert(last_ts(v[j]) == last_ts(r[i]));
                }
            } else {
                assert(last_ts(v[v.len() - 1]) == last_ts(r[i]));
            }
        }
        assert forall|i: int, j: int| 0 <= i < j < r.len() implies last_ts(#[trigger] r[i]) >= last_ts(
            #[trigger] r[j],
        ) by {
            assert(q[i] == r[i]);
            if j < q.len() {
                assert(last_ts(q[i]) >= last_ts(q[j]));
            } else if last_ts(q[i]) != last_ts(x) {
                let k = choose|k: int| 0 <= k < w.len() && last_ts(#[trigger] w[k]) == last_ts(q[i]);
                assert(last_ts(v[k]) >= last_ts(v[v.len() - 1]));
            }
        }
    }
}

/// Of the sessions the latest comes first; those of one time stay in their
/// order, and none is lost.
pub proof fn law_latest_session_first(v: Seq<JsonView>, ts: u64)
    ensures
        latest_first(v).filter(|s: JsonView| last_ts(s) == ts) == v.filter(|s: JsonView| last_ts(s) == ts),
        forall|i: int, j: int|
            0 <= i < j < latest_first(v).len() ==> last_ts(#[trigger] latest_first(v)[i]) >= last_ts(
                #[trigger] latest_first(v)[j],
            ),
    decreases v.len(),
{
    reveal(Seq::filter);
    if v.len() > 0 {
        let w = v.drop_last();
        law_latest_session_first(w, ts);
        lemma_sessions_of_one_time(latest_first(w), v.last(), ts);
        assert(latest_first(w).push(v.last()).drop_last() =~= latest_first(w));
    }
}

/// What was refused is told in the answer.
pub proof fn law_refusal_is_told(message: Seq<char>)
    ensures
        error_body(message).get_str("error"@) == Some(message),
{
}

/// Every message that is shown has its place in what is shown.
pub proof fn law_every_message_is_shown(m: MessageView)
    ensures
        m.role == Role::System ==> history_items(seq![m]).len() == 0,
        m.role != Role::System ==> history_items(seq![m]).len() == 1 && history_item(m) == Some(
            history_items(seq![m])[0],
        ),
        history_items(Seq::empty()).len() == 0,
{
    let none = Seq::<MessageView>::empty();
    assert(seq![m].drop_last() =~= none);
    assert(history_items(none).len() == 0);
    assert(seq![m].last() == m);
}

} // verus!
