//! Messages, reactions and streaming cards of the Feishu channel: what is sent
//! and what the replies mean.

use vstd::prelude::*;

use crate::channels::{
    reply_code, reply_code_of, reply_failure, reply_failure_of, FeishuConfig, CARD_THROTTLE_NANOS,
};
use crate::json::{json_printed, print, Json, JsonView};
use crate::text::{dec, dec_string};

verus! {

// ---------- replies ----------

/// A reply with the code zero is a success; every other one is a failure with
/// its code and message, followed by `hint`.
pub fn check_reply(v: &Json, what: &str, hint: &str) -> (r: Result<(), String>)
    ensures
        match r {
            Ok(_) => reply_code(v@) == 0,
            Err(e) => reply_code(v@) != 0 && e@ == reply_failure(v@, what@) + hint@,
        },
{
    if reply_code_of(v) == 0 {
        Ok(())
    } else {
        let mut e: String = reply_failure_of(v, what);
        e.append(hint);
        Err(e)
    }
}

// ---------- reactions and texts ----------

/// The request that puts an emoji on a message.
pub fn reaction_request(cfg: &FeishuConfig, message_id: &str, emoji_type: &str) -> (r: (String, Json))
    ensures
        r.0@ == cfg.domain_text() + "/open-apis/im/v1/messages/"@ + message_id@ + "/reactions"@,
        r.1@ == JsonView::obj().with(
            "reaction_type"@,
            JsonView::obj().with("emoji_type"@, JsonView::Str(emoji_type@)),
        ),
{
    let mut url: String = cfg.effective_domain();
    url.append("/open-apis/im/v1/messages/");
    url.append(message_id);
    url.append("/reactions");
    (url, Json::obj().with("reaction_type", Json::obj().with("emoji_type", Json::text(emoji_type))))
}

/// Where messages are sent.
pub open spec fn send_url(cfg: FeishuConfig) -> Seq<char> {
    cfg.domain_text() + "/open-apis/im/v1/messages?receive_id_type=open_id"@
}

/// A message of one kind; its content is JSON printed into a string.
pub open spec fn message_body(open_id: Seq<char>, kind: Seq<char>, content: JsonView) -> JsonView {
    JsonView::obj().with("receive_id"@, JsonView::Str(open_id)).with("msg_type"@, JsonView::Str(kind)).with(
        "content"@,
        JsonView::Str(json_printed(content)),
    )
}

fn message_body_of(open_id: &str, kind: &str, content: &Json) -> (r: Json)
    ensures
        r@ == message_body(open_id@, kind@, content@),
{
    Json::obj().with("receive_id", Json::text(open_id)).with("msg_type", Json::text(kind)).with(
        "content",
        Json::Str(print(content)),
    )
}

fn send_url_of(cfg: &FeishuConfig) -> (r: String)
    ensures
        r@ == send_url(*cfg),
{
    let mut url: String = cfg.effective_domain();
    url.append("/open-apis/im/v1/messages?receive_id_type=open_id");
    url
}

/// The request that sends one piece of text.
pub fn text_request(cfg: &FeishuConfig, open_id: &str, piece: &str) -> (r: (String, Json))
    ensures
        r.0@ == send_url(*cfg),
        r.1@ == message_body(open_id@, "text"@, JsonView::obj().with("text"@, JsonView::Str(piece@))),
{
    let content: Json = Json::obj().with("text", Json::text(piece));
    (send_url_of(cfg), message_body_of(open_id, "text", &content))
}

// ---------- streaming cards ----------

/// A text in grey.
pub open spec fn grey(text: Seq<char>) -> Seq<char> {
    "<font color='grey'>"@ + text + "</font>"@
}

fn grey_of(text: &str) -> (r: String)
    ensures
        r@ == grey(text@),
{
    let mut s: String = "<font color='grey'>".to_string();
    s.append(text);
    s.append("</font>");
    s
}

pub open spec fn markdown_element(content: Seq<char>, id: Seq<char>) -> JsonView {
    JsonView::obj().with("tag"@, JsonView::Str("markdown"@)).with("content"@, JsonView::Str(content)).with(
        "element_id"@,
        JsonView::Str(id),
    )
}

fn markdown_element_of(content: &str, id: &str) -> (r: Json)
    ensures
        r@ == markdown_element(content@, id@),
{
    Json::obj().with("tag", Json::text("markdown")).with("content", Json::text(content)).with(
        "element_id",
        Json::text(id),
    )
}

/// The elements of a new card: the main text, and on request a line and a note.
pub open spec fn card_elements(with_note: bool) -> JsonView {
    let main = JsonView::arr().item(markdown_element(""@, "content"@));
    if with_note {
        main.item(JsonView::obj().with("tag"@, JsonView::Str("hr"@))).item(
            markdown_element(grey("…"@), "note"@),
        )
    } else {
        main
    }
}

/// A new card in streaming mode.
pub open spec fn card_json(with_note: bool) -> JsonView {
    JsonView::obj().with("schema"@, JsonView::Str("2.0"@)).with(
        "config"@,
        JsonView::obj().with("streaming_mode"@, JsonView::Bool(true)).with(
            "summary"@,
            JsonView::obj().with("content"@, JsonView::Str("[生成中…]"@)),
        ).with(
            "streaming_config"@,
            JsonView::obj().with(
                "print_frequency_ms"@,
                JsonView::obj().with("default"@, JsonView::Uint(50)),
            ).with("print_step"@, JsonView::obj().with("default"@, JsonView::Uint(1))),
        ),
    ).with("body"@, JsonView::obj().with("elements"@, card_elements(with_note)))
}

/// The request that creates a card; the card itself is JSON printed into a
/// string.
pub fn create_card_request(cfg: &FeishuConfig, with_note: bool) -> (r: (String, Json))
    ensures
        r.0@ == cfg.domain_text() + "/open-apis/cardkit/v1/cards"@,
        r.1@ == JsonView::obj().with("type"@, JsonView::Str("card_json"@)).with(
            "data"@,
            JsonView::Str(json_printed(card_json(with_note))),
        ),
{
    let mut url: String = cfg.effective_domain();
    url.append("/open-apis/cardkit/v1/cards");
    let mut elements: Json = Json::arr().item(markdown_element_of("", "content"));
    if with_note {
        let note: String = grey_of("…");
        elements = elements.item(Json::obj().with("tag", Json::text("hr"))).item(
            markdown_element_of(note.as_str(), "note"),
        );
    }
    let card: Json = Json::obj().with("schema", Json::text("2.0")).with(
        "config",
        Json::obj().with("streaming_mode", Json::Bool(true)).with(
            "summary",
            Json::obj().with("content", Json::text("[生成中…]")),
        ).with(
            "streaming_config",
            Json::obj().with("print_frequency_ms", Json::obj().with("default", Json::Uint(50))).with(
                "print_step",
                Json::obj().with("default", Json::Uint(1)),
            ),
        ),
    ).with("body", Json::obj().with("elements", elements));
    (url, Json::obj().with("type", Json::text("card_json")).with("data", Json::Str(print(&card))))
}

/// Reads the id of a new card out of the reply.
pub fn card_id_of_reply(v: &Json) -> (r: Result<String, String>)
    ensures
        match r {
            Ok(id) => reply_code(v@) == 0 && v@.get2_str("data"@, "card_id"@) == Some(id@),
            Err(e) => if reply_code(v@) != 0 {
                e@ == reply_failure(v@, "ERROR: 建卡失败"@) + "（检查 cardkit:card:write 权限）"@
            } else {
                v@.get2_str("data"@, "card_id"@) is None && e@ == "ERROR: 建卡响应缺 card_id"@
            },
        },
{
    match check_reply(v, "ERROR: 建卡失败", "（检查 cardkit:card:write 权限）") {
        Err(e) => Err(e),
        Ok(_) => match v.get2_str("data", "card_id") {
            Some(id) => Ok(id.to_string()),
            None => Err("ERROR: 建卡响应缺 card_id".to_string()),
        },
    }
}

/// The request that sends a card into a chat.
pub fn card_message_request(cfg: &FeishuConfig, open_id: &str, card_id: &str) -> (r: (String, Json))
    ensures
        r.0@ == send_url(*cfg),
        r.1@ == message_body(
            open_id@,
            "interactive"@,
            JsonView::obj().with("type"@, JsonView::Str("card"@)).with(
                "data"@,
                JsonView::obj().with("card_id"@, JsonView::Str(card_id@)),
            ),
        ),
{
    let content: Json = Json::obj().with("type", Json::text("card")).with(
        "data",
        Json::obj().with("card_id", Json::text(card_id)),
    );
    (send_url_of(cfg), message_body_of(open_id, "interactive", &content))
}

/// How far the start of a streaming card has come.
pub enum CardStart {
    /// The card exists; it is to be sent into the chat.
    Created { card_id: String },
    /// The card is in the chat.
    Sent(StreamingCard),
}

/// The two replies on the way to a streaming card: after the first the card is
/// sent, after the second it can be updated. A failure of either ends it.
pub fn card_start_step(
    created: Option<String>,
    v: &Json,
    with_note: bool,
    now: u64,
) -> (r: Result<CardStart, String>)
    ensures
        match created {
            None => match r {
                Ok(CardStart::Created { card_id }) => reply_code(v@) == 0 && v@.get2_str(
                    "data"@,
                    "card_id"@,
                ) == Some(card_id@),
                Ok(CardStart::Sent(_)) => false,
                Err(e) => if reply_code(v@) != 0 {
                    e@ == reply_failure(v@, "ERROR: 建卡失败"@) + "（检查 cardkit:card:write 权限）"@
                } else {
                    v@.get2_str("data"@, "card_id"@) is None && e@ == "ERROR: 建卡响应缺 card_id"@
                },
            },
            Some(id) => match r {
                Ok(CardStart::Created { card_id }) => false,
                Ok(CardStart::Sent(c)) => reply_code(v@) == 0 && c@ == new_card(id@, with_note, now),
                Err(e) => reply_code(v@) != 0 && e@ == reply_failure(v@, "ERROR: 发送卡片失败"@) + ""@,
            },
        },
{
    match created {
        None => match card_id_of_reply(v) {
            Ok(card_id) => Ok(CardStart::Created { card_id }),
            Err(e) => Err(e),
        },
        Some(card_id) => match check_reply(v, "ERROR: 发送卡片失败", "") {
            Ok(_) => Ok(CardStart::Sent(StreamingCard::new(card_id, with_note, now))),
            Err(e) => Err(e),
        },
    }
}

/// A card that is updated while an answer grows. Every update carries the
/// whole text.
pub struct StreamingCard {
    card_id: String,
    sequence: u64,
    has_note: bool,
    content_text: String,
    note_text: String,
    last_flush: u64,
}

/// What a streaming card holds.
pub struct CardView {
    pub card_id: Seq<char>,
    pub sequence: u64,
    pub has_note: bool,
    pub content_text: Seq<char>,
    pub note_text: Seq<char>,
    pub last_flush: u64,
}

/// One update of a card.
#[derive(Debug, Clone, Copy, PartialEq, Eq, Structural)]
pub enum CardStep {
    PutContent,
    PutNote,
    CloseStreaming,
}

impl View for StreamingCard {
    type V = CardView;

    closed spec fn view(&self) -> CardView {
        CardView {
            card_id: self.card_id@,
            sequence: self.sequence,
            has_note: self.has_note,
            content_text: self.content_text@,
            note_text: self.note_text@,
            last_flush: self.last_flush,
        }
    }
}

pub open spec fn new_card(card_id: Seq<char>, has_note: bool, now: u64) -> CardView {
    CardView {
        card_id,
        sequence: 1,
        has_note,
        content_text: Seq::empty(),
        note_text: Seq::empty(),
        last_flush: now,
    }
}

/// Whether an update at `now` comes too soon after the last one.
pub open spec fn throttled(last_flush: u64, now: u64) -> bool {
    now - last_flush < CARD_THROTTLE_NANOS
}

/// The end of the address for an update.
pub open spec fn step_path(card_id: Seq<char>, step: CardStep) -> Seq<char> {
    "/open-apis/cardkit/v1/cards/"@ + card_id + (match step {
        CardStep::PutContent => "/elements/content/content"@,
        CardStep::PutNote => "/elements/note/content"@,
        CardStep::CloseStreaming => "/settings"@,
    })
}

/// The letter with which an update's id begins.
pub open spec fn step_letter(step: CardStep) -> Seq<char> {
    match step {
        CardStep::PutContent => "s_"@,
        CardStep::PutNote => "n_"@,
        CardStep::CloseStreaming => "c_"@,
    }
}

/// The body of an update; it carries the card's next sequence number and an id
/// made of it.
pub open spec fn step_body(c: CardView, step: CardStep) -> JsonView {
    let first = match step {
        CardStep::PutContent => JsonView::obj().with("content"@, JsonView::Str(c.content_text)),
        CardStep::PutNote => JsonView::obj().with("content"@, JsonView::Str(grey(c.note_text))),
        CardStep::CloseStreaming => JsonView::obj().with(
            "settings"@,
            JsonView::Str(
                json_printed(
                    JsonView::obj().with(
                        "config"@,
                        JsonView::obj().with("streaming_mode"@, JsonView::Bool(false)),
                    ),
                ),
            ),
        ),
    };
    first.with("sequence"@, JsonView::Uint(c.sequence)).with(
        "uuid"@,
        JsonView::Str(step_letter(step) + c.card_id + "_"@ + dec(c.sequence as nat)),
    )
}

/// What an update's failure is called.
pub open spec fn step_failure(step: CardStep) -> Seq<char> {
    match step {
        CardStep::PutContent => "ERROR: 流式更新主区"@,
        CardStep::PutNote => "ERROR: 思考区更新"@,
        CardStep::CloseStreaming => "ERROR: 关闭流式失败"@,
    }
}

/// What follows an update's failure: closing names its sequence number.
pub open spec fn step_hint(step: CardStep, sequence: u64) -> Seq<char> {
    match step {
        CardStep::CloseStreaming => "（seq="@ + dec(sequence as nat) + "）"@,
        _ => Seq::empty(),
    }
}

/// Reads the reply to an update that carried this sequence number.
pub fn step_reply(v: &Json, step: CardStep, sequence: u64) -> (r: Result<(), String>)
    ensures
        match r {
            Ok(_) => reply_code(v@) == 0,
            Err(e) => reply_code(v@) != 0 && e@ == reply_failure(v@, step_failure(step)) + step_hint(
                step,
                sequence,
            ),
        },
{
    match step {
        CardStep::PutContent => {
            proof {
                reveal_strlit("");
                assert(""@ =~= Seq::<char>::empty());
            }
            check_reply(v, "ERROR: 流式更新主区", "")
        },
        CardStep::PutNote => {
            proof {
                reveal_strlit("");
                assert(""@ =~= Seq::<char>::empty());
            }
            check_reply(v, "ERROR: 思考区更新", "")
        },
        CardStep::CloseStreaming => {
            let mut hint: String = "（seq=".to_string();
            let d: String = dec_string(sequence);
            hint.append(d.as_str());
            hint.append("）");
            check_reply(v, "ERROR: 关闭流式失败", hint.as_str())
        },
    }
}

impl StreamingCard {
    /// A card that was just sent.
    pub fn new(card_id: String, has_note: bool, now: u64) -> (r: StreamingCard)
        ensures
            r@ == new_card(card_id@, has_note, now),
    {
        StreamingCard {
            card_id,
            sequence: 1,
            has_note,
            content_text: String::new(),
            note_text: String::new(),
            last_flush: now,
        }
    }

    /// Whether the card has a note.
    pub fn has_note(&self) -> (r: bool)
        ensures
            r == self@.has_note,
    {
        self.has_note
    }

    /// Sets the main text. An update follows unless the last one was too
    /// recent.
    pub fn update_content(&mut self, text: &str, now: u64) -> (r: Option<CardStep>)
        ensures
            r == (if throttled(old(self)@.last_flush, now) {
                None
            } else {
                Some(CardStep::PutContent)
            }),
            final(self)@ == (CardView {
                content_text: text@,
                last_flush: if throttled(old(self)@.last_flush, now) {
                    old(self)@.last_flush
                } else {
                    now
                },
                ..old(self)@
            }),
    {
        self.content_text = text.to_string();
        if self.flush(now) {
            Some(CardStep::PutContent)
        } else {
            None
        }
    }

    /// Sets the note, if the card has one. An update follows unless the last
    /// one was too recent.
    pub fn update_note(&mut self, text: &str, now: u64) -> (r: Option<CardStep>)
        ensures
            !old(self)@.has_note ==> r is None && final(self)@ == old(self)@,
            old(self)@.has_note ==> r == (if throttled(old(self)@.last_flush, now) {
                None
            } else {
                Some(CardStep::PutNote)
            }) && final(self)@ == (CardView {
                note_text: text@,
                last_flush: if throttled(old(self)@.last_flush, now) {
                    old(self)@.last_flush
                } else {
                    now
                },
                ..old(self)@
            }),
    {
        if !self.has_note {
            return None;
        }
        self.note_text = text.to_string();
        if self.flush(now) {
            Some(CardStep::PutNote)
        } else {
            None
        }
    }

    /// Whether an update goes out at `now`; if so, the time is kept.
    fn flush(&mut self, now: u64) -> (r: bool)
        ensures
            r == !throttled(old(self)@.last_flush, now),
            final(self)@ == (CardView {
                last_flush: if throttled(old(self)@.last_flush, now) {
                    old(self)@.last_flush
                } else {
                    now
                },
                ..old(self)@
            }),
    {
        if now < self.last_flush || now - self.last_flush < CARD_THROTTLE_NANOS {
            false
        } else {
            self.last_flush = now;
            true
        }
    }

    /// Sets the last texts and gives the updates that end the stream: the
    /// note, where there is one, the main text, and the end of streaming.
    pub fn finalize(&mut self, final_text: &str, note_override: Option<&str>) -> (r: Vec<CardStep>)
        ensures
            final(self)@ == (CardView {
                content_text: final_text@,
                note_text: match note_override {
                    Some(n) => n@,
                    None => old(self)@.note_text,
                },
                ..old(self)@
            }),
            r@ == (if old(self)@.has_note {
                seq![CardStep::PutNote, CardStep::PutContent, CardStep::CloseStreaming]
            } else {
                seq![CardStep::PutContent, CardStep::CloseStreaming]
            }),
    {
        self.content_text = final_text.to_string();
        if let Some(n) = note_override {
            self.note_text = n.to_string();
        }
        let mut steps: Vec<CardStep> = Vec::new();
        if self.has_note {
            steps.push(CardStep::PutNote);
        }
        steps.push(CardStep::PutContent);
        steps.push(CardStep::CloseStreaming);
        assert(steps@ =~= if old(self)@.has_note {
            seq![CardStep::PutNote, CardStep::PutContent, CardStep::CloseStreaming]
        } else {
            seq![CardStep::PutContent, CardStep::CloseStreaming]
        });
        steps
    }

    /// The request for an update: its address, its body and the sequence
    /// number that it uses up. Behind the greatest number comes zero.
    pub fn request(&mut self, cfg: &FeishuConfig, step: CardStep) -> (r: (String, Json, u64))
        ensures
            r.0@ == cfg.domain_text() + step_path(old(self)@.card_id, step),
            r.1@ == step_body(old(self)@, step),
            r.2 == old(self)@.sequence,
            final(self)@ == (CardView {
                sequence: if old(self)@.sequence < u64::MAX {
                    (old(self)@.sequence + 1) as u64
                } else {
                    0
                },
                ..old(self)@
            }),
    {
        let seq: u64 = self.sequence;
        self.sequence = seq.wrapping_add(1);
        let mut path: String = "/open-apis/cardkit/v1/cards/".to_string();
        path.append(self.card_id.as_str());
        path.append(
            match step {
                CardStep::PutContent => "/elements/content/content",
                CardStep::PutNote => "/elements/note/content",
                CardStep::CloseStreaming => "/settings",
            },
        );
        let mut url: String = cfg.effective_domain();
        url.append(path.as_str());
        let mut uuid: String = (match step {
            CardStep::PutContent => "s_",
            CardStep::PutNote => "n_",
            CardStep::CloseStreaming => "c_",
        }).to_string();
        uuid.append(self.card_id.as_str());
        uuid.append("_");
        let d: String = dec_string(seq);
        uuid.append(d.as_str());
        let first: Json = match step {
            CardStep::PutContent => Json::obj().with("content", Json::text(self.content_text.as_str())),
            CardStep::PutNote => Json::obj().with("content", Json::Str(grey_of(self.note_text.as_str()))),
            CardStep::CloseStreaming => {
                let settings: Json = Json::obj().with(
                    "config",
                    Json::obj().with("streaming_mode", Json::Bool(false)),
                );
                Json::obj().with("settings", Json::Str(print(&settings)))
            },
        };
        let body: Json = first.with("sequence", Json::Uint(seq)).with("uuid", Json::Str(uuid));
        (url, body, seq)
    }
}

} // verus!
