//! The Feishu channel: connection parameters, duplicate suppression, fragment
//! reassembly, frames and events, the reconnect rule, tokens and cards.
//!
//! Network work is done elsewhere; here stand what is sent, what a reply means
//! and what happens next. Points in time are nanoseconds of a monotonic clock.

use std::collections::VecDeque;

use vstd::prelude::*;
use vstd::slice::slice_subrange;

use crate::json::{json_parsed, json_parsed_bytes, parse, parse_bytes, Json, JsonView};
use crate::pb::{
    decode_frame, empty_frame, frame_of, header_views, opt_bytes, Frame, FrameView, Header, HeaderView,
};
use crate::text::{
    after_prefix, chars_of, count_leading_digits, dec, dec_int, dec_int_string, dec_string, digits_value,
    digits_value_of, leading_digits, parse_uint, parsed_uint, slice_of, split, split_string, str_eq,
    strip_prefix, strs,
};

verus! {

/// The default server.
pub const DEFAULT_DOMAIN: &'static str = "https://open.feishu.cn";

/// The shortest interval between pings, in seconds.
pub const MIN_PING_INTERVAL_SECS: u64 = 10;

/// After this many ping intervals without an inbound frame the connection is
/// given up.
pub const HEARTBEAT_TIMEOUT_FACTOR: u64 = 2;

/// How many message ids are remembered.
pub const DEDUP_CAP: usize = 512;

/// How long fragments wait for the rest, in nanoseconds.
pub const FRAG_TTL_NANOS: u64 = 60_000_000_000;

/// The most characters in one text message.
pub const MAX_TEXT_CHARS: usize = 4000;

/// A token is renewed this long before it expires, in nanoseconds.
pub const TOKEN_REFRESH_MARGIN_NANOS: u64 = 300_000_000_000;

/// How often a token is asked for before the failure counts.
pub const TOKEN_RETRY: u32 = 3;

/// The shortest time between two updates of a card, in nanoseconds.
pub const CARD_THROTTLE_NANOS: u64 = 160_000_000;

/// The bot's credentials; an empty domain stands for the default one.
#[derive(Debug, Clone)]
pub struct FeishuConfig {
    pub app_id: String,
    pub app_secret: String,
    pub domain: String,
}

impl FeishuConfig {
    /// Where requests go.
    pub open spec fn domain_text(&self) -> Seq<char> {
        if self.domain@.len() == 0 {
            DEFAULT_DOMAIN@
        } else {
            self.domain@
        }
    }

    pub fn effective_domain(&self) -> (r: String)
        ensures
            r@ == self.domain_text(),
    {
        if self.domain.as_str().is_empty() {
            DEFAULT_DOMAIN.to_string()
        } else {
            self.domain.clone()
        }
    }
}

/// A private message. The text is empty for messages that are not text.
#[derive(Debug, Clone, PartialEq, Eq)]
pub struct FeishuDm {
    pub open_id: String,
    pub message_id: String,
    pub text: String,
}

/// What a private message holds.
pub struct DmView {
    pub open_id: Seq<char>,
    pub message_id: Seq<char>,
    pub text: Seq<char>,
}

impl View for FeishuDm {
    type V = DmView;

    open spec fn view(&self) -> DmView {
        DmView { open_id: self.open_id@, message_id: self.message_id@, text: self.text@ }
    }
}

pub open spec fn opt_dm(d: Option<FeishuDm>) -> Option<DmView> {
    match d {
        Some(x) => Some(x@),
        None => None,
    }
}

/// The state of a channel.
#[derive(Debug, Clone, PartialEq, Eq)]
pub enum ChannelStatus {
    Connecting,
    Connected,
    Reconnecting,
    Failed(String),
}

/// What a channel's state holds.
pub enum StatusView {
    Connecting,
    Connected,
    Reconnecting,
    Failed(Seq<char>),
}

impl View for ChannelStatus {
    type V = StatusView;

    open spec fn view(&self) -> StatusView {
        match *self {
            ChannelStatus::Connecting => StatusView::Connecting,
            ChannelStatus::Connected => StatusView::Connected,
            ChannelStatus::Reconnecting => StatusView::Reconnecting,
            ChannelStatus::Failed(e) => StatusView::Failed(e@),
        }
    }
}

/// Whether a new state differs from the present one: only then is it reported.
pub fn status_changes(present: &ChannelStatus, new: &ChannelStatus) -> (r: bool)
    ensures
        r == (present@ != new@),
{
    match (present, new) {
        (ChannelStatus::Connecting, ChannelStatus::Connecting) => false,
        (ChannelStatus::Connected, ChannelStatus::Connected) => false,
        (ChannelStatus::Reconnecting, ChannelStatus::Reconnecting) => false,
        (ChannelStatus::Failed(a), ChannelStatus::Failed(b)) => !str_eq(a.as_str(), b.as_str()),
        _ => true,
    }
}

// ---------- connection parameters ----------

/// Heartbeat and reconnect parameters, in seconds. A negative count means no
/// limit.
#[derive(Debug, Clone, Copy, PartialEq, Eq, Structural)]
pub struct ClientParams {
    pub ping_interval: u64,
    pub reconnect_count: i64,
    pub reconnect_interval: u64,
    pub reconnect_nonce: u64,
}

pub open spec fn default_params() -> ClientParams {
    ClientParams { ping_interval: 30, reconnect_count: 3600, reconnect_interval: 15, reconnect_nonce: 3 }
}

/// The parameters with the shortest ping interval enforced.
pub open spec fn clamp_params(p: ClientParams) -> ClientParams {
    if p.ping_interval < MIN_PING_INTERVAL_SECS {
        ClientParams { ping_interval: MIN_PING_INTERVAL_SECS, ..p }
    } else {
        p
    }
}

impl Default for ClientParams {
    fn default() -> (r: Self)
        ensures
            r == default_params(),
    {
        ClientParams { ping_interval: 30, reconnect_count: 3600, reconnect_interval: 15, reconnect_nonce: 3 }
    }
}

impl ClientParams {
    /// Enforces the shortest ping interval.
    pub fn clamped(self) -> (r: Self)
        ensures
            r == clamp_params(self),
            r.ping_interval >= MIN_PING_INTERVAL_SECS,
    {
        if self.ping_interval < MIN_PING_INTERVAL_SECS {
            ClientParams { ping_interval: MIN_PING_INTERVAL_SECS, ..self }
        } else {
            self
        }
    }
}

/// A non-negative integer member; otherwise the value that stands already.
pub open spec fn param_or(v: JsonView, key: Seq<char>, present: u64) -> u64 {
    match v.get_i64(key) {
        Some(x) => if x < 0 {
            present
        } else {
            x as u64
        },
        None => present,
    }
}

/// The parameters with those that a JSON object names replaced.
pub open spec fn update_params(p: ClientParams, v: JsonView) -> ClientParams {
    ClientParams {
        ping_interval: param_or(v, "PingInterval"@, p.ping_interval),
        reconnect_count: match v.get_i64("ReconnectCount"@) {
            Some(x) => x,
            None => p.reconnect_count,
        },
        reconnect_interval: param_or(v, "ReconnectInterval"@, p.reconnect_interval),
        reconnect_nonce: param_or(v, "ReconnectNonce"@, p.reconnect_nonce),
    }
}

fn param_or_of(v: &Json, key: &str, present: u64) -> (r: u64)
    ensures
        r == param_or(v@, key@, present),
{
    match v.get_i64(key) {
        Some(x) => if x < 0 {
            present
        } else {
            x as u64
        },
        None => present,
    }
}

/// Takes over the parameters that a JSON object names. Negative intervals do
/// not count.
pub fn updated_params(p: ClientParams, v: &Json) -> (r: ClientParams)
    ensures
        r == update_params(p, v@),
{
    ClientParams {
        ping_interval: param_or_of(v, "PingInterval", p.ping_interval),
        reconnect_count: match v.get_i64("ReconnectCount") {
            Some(x) => x,
            None => p.reconnect_count,
        },
        reconnect_interval: param_or_of(v, "ReconnectInterval", p.reconnect_interval),
        reconnect_nonce: param_or_of(v, "ReconnectNonce", p.reconnect_nonce),
    }
}

// ---------- duplicate suppression ----------

/// The remembered ids after one more: an unknown, non-empty id is added, and
/// the oldest ones leave so that at most `cap` remain.
pub open spec fn remembered(list: Seq<Seq<char>>, cap: nat, id: Seq<char>) -> Seq<Seq<char>> {
    if id.len() == 0 || list.contains(id) {
        list
    } else if list.len() + 1 > cap {
        list.push(id).skip(list.len() + 1 - cap)
    } else {
        list.push(id)
    }
}

/// Whether an id is new: an empty one always is.
pub open spec fn is_fresh(list: Seq<Seq<char>>, id: Seq<char>) -> bool {
    id.len() == 0 || !list.contains(id)
}

/// Remembers the last message ids, so that a redelivered message is noticed.
pub struct DedupLru {
    cap: usize,
    list: VecDeque<String>,
}

impl DedupLru {
    /// The remembered ids, the oldest first.
    pub closed spec fn ids(&self) -> Seq<Seq<char>> {
        strs(self.list@)
    }

    pub closed spec fn capacity(&self) -> nat {
        self.cap as nat
    }

    /// At most `cap` ids, each once and none empty.
    pub open spec fn wf(&self) -> bool {
        &&& self.ids().len() <= self.capacity()
        &&& self.ids().no_duplicates()
        &&& forall|i: int| 0 <= i < self.ids().len() ==> (#[trigger] self.ids()[i]).len() > 0
    }

    pub fn new(cap: usize) -> (r: DedupLru)
        ensures
            r.wf(),
            r.ids() == Seq::<Seq<char>>::empty(),
            r.capacity() == cap,
    {
        let r: DedupLru = DedupLru { cap, list: VecDeque::new() };
        assert(r.ids() =~= Seq::<Seq<char>>::empty());
        r
    }

    /// Whether the id is new; if so it is remembered.
    #[verifier::loop_isolation(false)]
    pub fn check_and_insert(&mut self, id: &str) -> (r: bool)
        requires
            old(self).wf(),
        ensures
            final(self).wf(),
            final(self).capacity() == old(self).capacity(),
            r == is_fresh(old(self).ids(), id@),
            final(self).ids() == remembered(old(self).ids(), old(self).capacity(), id@),
    {
        if id.is_empty() {
            return true;
        }
        let ghost before = self.ids();
        let ghost cap = self.cap;
        let n: usize = self.list.len();
        let mut i: usize = 0;
        while i < n
            invariant
                i <= n,
                n == self.list@.len(),
                before == strs(self.list@),
                forall|j: int| 0 <= j < i ==> before[j] != id@,
            decreases n - i,
        {
            if str_eq(self.list[i].as_str(), id) {
                assert(before[i as int] == id@);
                assert(before.contains(id@));
                return false;
            }
            i += 1;
        }
        assert(!before.contains(id@));
        self.list.push_back(id.to_string());
        assert(self.ids() =~= before.push(id@));
        let ghost grown = self.ids();
        assert(grown.no_duplicates());
        if self.list.len() > self.cap {
            let _ = self.list.pop_front();
            proof {
                assert(self.ids() =~= grown.skip(1));
                assert(before.len() + 1 - cap == 1);
                assert forall|a: int, b: int|
                    0 <= a < self.ids().len() && 0 <= b < self.ids().len() && a != b implies self.ids()[a]
                    != self.ids()[b] by {
                    assert(grown[a + 1] != grown[b + 1]);
                }
                assert forall|a: int| 0 <= a < self.ids().len() implies (#[trigger] self.ids()[a]).len() > 0 by {
                    assert(grown[a + 1].len() > 0);
                }
            }
        }
        true
    }
}

/// A message that comes twice in a row is new only once.
pub proof fn law_redelivery_is_noticed(list: Seq<Seq<char>>, cap: nat, id: Seq<char>)
    requires
        cap > 0,
        list.len() <= cap,
        id.len() > 0,
    ensures
        !is_fresh(remembered(list, cap, id), id),
        remembered(remembered(list, cap, id), cap, id) == remembered(list, cap, id),
{
    let now = remembered(list, cap, id);
    if !list.contains(id) {
        assert(now.last() == id);
        assert(now.contains(id));
    }
}

/// The remembered ids after several more.
pub open spec fn remembered_all(list: Seq<Seq<char>>, cap: nat, ids: Seq<Seq<char>>) -> Seq<Seq<char>>
    decreases ids.len(),
{
    if ids.len() == 0 {
        list
    } else {
        remembered(remembered_all(list, cap, ids.drop_last()), cap, ids.last())
    }
}

/// An id that was just added is still known after fewer than `cap` others.
pub proof fn law_recent_ids_are_known(
    list: Seq<Seq<char>>,
    cap: nat,
    id: Seq<char>,
    others: Seq<Seq<char>>,
)
    requires
        list.len() <= cap,
        id.len() > 0,
        !list.contains(id),
        others.len() < cap,
    ensures
        !is_fresh(remembered_all(remembered(list, cap, id), cap, others), id),
{
    let start = remembered(list, cap, id);
    assert(start.last() == id);
    assert(start[start.len() - 1] == id);
    lemma_still_known(start, cap, id, others);
}

proof fn lemma_still_known(start: Seq<Seq<char>>, cap: nat, id: Seq<char>, others: Seq<Seq<char>>)
    requires
        0 < start.len() <= cap,
        start.last() == id,
        others.len() < cap,
    ensures
        ({
            let now = remembered_all(start, cap, others);
            &&& now.len() <= cap
            &&& exists|i: int| now.len() - 1 - others.len() <= i < now.len() && 0 <= i && now[i] == id
        }),
    decreases others.len(),
{
    if others.len() == 0 {
        assert(start[start.len() - 1] == id);
    } else {
        let prev_ids = others.drop_last();
        lemma_still_known(start, cap, id, prev_ids);
        let prev = remembered_all(start, cap, prev_ids);
        let now = remembered_all(start, cap, others);
        let x = others.last();
        let i = choose|i: int|
            prev.len() - 1 - prev_ids.len() <= i < prev.len() && 0 <= i && prev[i] == id;
        if x.len() == 0 || prev.contains(x) {
            assert(now[i] == id);
        } else if prev.len() + 1 > cap {
            assert(prev.len() == cap);
            assert(i >= 1);
            assert(now[i - 1] == id);
        } else {
            assert(now[i] == id);
        }
    }
}

// ---------- fragment reassembly ----------

/// The parts of a message, ascending by their numbers.
pub type Parts = Seq<(u32, Seq<u8>)>;

pub open spec fn parts_ascending(p: Parts) -> bool {
    forall|i: int, j: int| 0 <= i < j < p.len() ==> (#[trigger] p[i]).0 < (#[trigger] p[j]).0
}

/// The parts with one more; a part that was there already is replaced.
pub open spec fn put_part(p: Parts, seq: u32, data: Seq<u8>) -> Parts
    decreases p.len(),
{
    if p.len() == 0 || seq < p[0].0 {
        seq![(seq, data)] + p
    } else if p[0].0 == seq {
        seq![(seq, data)] + p.drop_first()
    } else {
        seq![p[0]] + put_part(p.drop_first(), seq, data)
    }
}

/// The parts put together in the order of their numbers.
pub open spec fn joined_parts(p: Parts) -> Seq<u8>
    decreases p.len(),
{
    if p.len() == 0 {
        Seq::empty()
    } else {
        joined_parts(p.drop_last()) + p.last().1
    }
}

/// A message whose parts are still arriving.
pub struct FragView {
    pub sum: u32,
    pub parts: Parts,
    pub at: u64,
}

/// Whether fragments from `at` are kept at `now`.
pub open spec fn frag_alive(at: u64, now: u64) -> bool {
    now - at < FRAG_TTL_NANOS
}

/// The message as it stands before its next part: the one that is arriving, or
/// a new one.
pub open spec fn frag_base(m: Map<Seq<char>, FragView>, id: Seq<char>, sum: u32, now: u64) -> FragView {
    if m.contains_key(id) && frag_alive(m[id].at, now) {
        m[id]
    } else {
        FragView { sum, parts: Seq::empty(), at: now }
    }
}

/// The messages that have not waited too long.
pub open spec fn frags_alive(m: Map<Seq<char>, FragView>, now: u64) -> Map<Seq<char>, FragView> {
    Map::new(|k: Seq<char>| m.contains_key(k) && frag_alive(m[k].at, now), |k: Seq<char>| m[k])
}

/// What one more part completes, if anything.
pub open spec fn frag_result(
    m: Map<Seq<char>, FragView>,
    id: Seq<char>,
    sum: u32,
    seq: u32,
    data: Seq<u8>,
    now: u64,
) -> Option<Seq<u8>> {
    let base = frag_base(m, id, sum, now);
    let parts = put_part(base.parts, seq, data);
    if sum <= 1 {
        Some(data)
    } else if parts.len() >= base.sum {
        Some(joined_parts(parts))
    } else {
        None
    }
}

/// The messages that are arriving after one more part.
pub open spec fn frag_after(
    m: Map<Seq<char>, FragView>,
    id: Seq<char>,
    sum: u32,
    seq: u32,
    data: Seq<u8>,
    now: u64,
) -> Map<Seq<char>, FragView> {
    let base = frag_base(m, id, sum, now);
    let parts = put_part(base.parts, seq, data);
    if sum <= 1 {
        m
    } else if parts.len() >= base.sum {
        frags_alive(m, now).remove(id)
    } else {
        frags_alive(m, now).insert(id, FragView { parts, ..base })
    }
}

struct FragEntry {
    id: String,
    sum: u32,
    parts: Vec<(u32, Vec<u8>)>,
    at: u64,
}

spec fn parts_view(v: Seq<(u32, Vec<u8>)>) -> Parts {
    Seq::new(v.len(), |i: int| (v[i].0, v[i].1@))
}

spec fn entry_view(e: FragEntry) -> FragView {
    FragView { sum: e.sum, parts: parts_view(e.parts@), at: e.at }
}

spec fn entry_of(v: Seq<FragEntry>, id: Seq<char>) -> Option<FragView>
    decreases v.len(),
{
    if v.len() == 0 {
        None
    } else if v.last().id@ == id {
        Some(entry_view(v.last()))
    } else {
        entry_of(v.drop_last(), id)
    }
}

spec fn entries_map(v: Seq<FragEntry>) -> Map<Seq<char>, FragView> {
    Map::new(|k: Seq<char>| entry_of(v, k) is Some, |k: Seq<char>| entry_of(v, k)->Some_0)
}

spec fn entries_wf(v: Seq<FragEntry>) -> bool {
    &&& forall|i: int| 0 <= i < v.len() ==> entry_of(v.take(i), (#[trigger] v[i]).id@) is None
    &&& forall|i: int|
        0 <= i < v.len() ==> parts_ascending(entry_view(#[trigger] v[i]).parts) && v[i].parts@.len() < v[i].sum
}

/// Puts messages together that arrive in parts, in any order.
pub struct FragmentCache {
    entries: Vec<FragEntry>,
}

proof fn lemma_put_part(p: Parts, seq: u32, data: Seq<u8>)
    requires
        parts_ascending(p),
    ensures
        parts_ascending(put_part(p, seq, data)),
        p.len() <= put_part(p, seq, data).len() <= p.len() + 1,
        forall|i: int|
            0 <= i < put_part(p, seq, data).len() ==> (#[trigger] put_part(p, seq, data)[i]).0 == seq || (
            exists|j: int| 0 <= j < p.len() && p[j] == put_part(p, seq, data)[i]),
    decreases p.len(),
{
    let q = put_part(p, seq, data);
    if p.len() == 0 || seq < p[0].0 {
        assert forall|i: int| 0 <= i < q.len() implies (#[trigger] q[i]).0 == seq || (exists|j: int|
            0 <= j < p.len() && p[j] == q[i]) by {
            if i > 0 {
                assert(p[i - 1] == q[i]);
            }
        }
    } else if p[0].0 == seq {
        assert forall|i: int| 0 <= i < q.len() implies (#[trigger] q[i]).0 == seq || (exists|j: int|
            0 <= j < p.len() && p[j] == q[i]) by {
            if i > 0 {
                assert(p[i] == q[i]);
            }
        }
    } else {
        let t = p.drop_first();
        lemma_put_part(t, seq, data);
        let r = put_part(t, seq, data);
        assert forall|i: int| 0 <= i < q.len() implies (#[trigger] q[i]).0 == seq || (exists|j: int|
            0 <= j < p.len() && p[j] == q[i]) by {
            if i == 0 {
                assert(p[0] == q[0]);
            } else {
                assert(q[i] == r[i - 1]);
                if r[i - 1].0 != seq {
                    let j = choose|j: int| 0 <= j < t.len() && t[j] == r[i - 1];
                    assert(p[j + 1] == q[i]);
                }
            }
        }
        assert forall|i: int, j: int| 0 <= i < j < q.len() implies (#[trigger] q[i]).0 < (#[trigger] q[j]).0 by {
            if i == 0 {
                assert(q[j] == r[j - 1]);
                if r[j - 1].0 != seq {
                    let k = choose|k: int| 0 <= k < t.len() && t[k] == r[j - 1];
                    assert(p[k + 1] == t[k]);
                }
            } else {
                assert(r[i - 1].0 < r[j - 1].0);
            }
        }
    }
}

/// A part that was not there yet is one more.
proof fn lemma_new_part(p: Parts, seq: u32, data: Seq<u8>)
    requires
        parts_ascending(p),
        forall|i: int| 0 <= i < p.len() ==> (#[trigger] p[i]).0 != seq,
    ensures
        put_part(p, seq, data).len() == p.len() + 1,
        forall|i: int|
            0 <= i < put_part(p, seq, data).len() ==> (#[trigger] put_part(p, seq, data)[i]) == (seq, data) || (
            exists|j: int| 0 <= j < p.len() && p[j] == put_part(p, seq, data)[i]),
    decreases p.len(),
{
    let q = put_part(p, seq, data);
    if p.len() == 0 || seq < p[0].0 {
        assert forall|i: int| 0 <= i < q.len() implies (#[trigger] q[i]) == (seq, data) || (exists|j: int|
            0 <= j < p.len() && p[j] == q[i]) by {
            if i > 0 {
                assert(p[i - 1] == q[i]);
            }
        }
    } else {
        let t = p.drop_first();
        assert forall|i: int| 0 <= i < t.len() implies (#[trigger] t[i]).0 != seq by {
            assert(p[i + 1].0 != seq);
        }
        lemma_new_part(t, seq, data);
        let r = put_part(t, seq, data);
        assert forall|i: int| 0 <= i < q.len() implies (#[trigger] q[i]) == (seq, data) || (exists|j: int|
            0 <= j < p.len() && p[j] == q[i]) by {
            if i == 0 {
                assert(p[0] == q[0]);
            } else {
                assert(q[i] == r[i - 1]);
                if r[i - 1] != (seq, data) {
                    let j = choose|j: int| 0 <= j < t.len() && t[j] == r[i - 1];
                    assert(p[j + 1] == q[i]);
                }
            }
        }
    }
}

/// An order of arrival: each of the `n` parts comes once.
pub open spec fn arrival_order(order: Seq<int>, n: nat) -> bool {
    &&& order.len() == n
    &&& order.no_duplicates()
    &&& forall|i: int| 0 <= i < order.len() ==> 0 <= #[trigger] order[i] < n
}

/// The parts of a message after the first `k` have come.
spec fn arrived(parts: Parts, order: Seq<int>, k: int) -> Parts
    decreases k,
{
    if k <= 0 {
        Seq::empty()
    } else {
        put_part(arrived(parts, order, k - 1), parts[order[k - 1]].0, parts[order[k - 1]].1)
    }
}

proof fn lemma_arrived(parts: Parts, order: Seq<int>, k: int)
    requires
        parts_ascending(parts),
        arrival_order(order, parts.len()),
        0 <= k <= order.len(),
    ensures
        parts_ascending(arrived(parts, order, k)),
        arrived(parts, order, k).len() == k,
        forall|i: int|
            0 <= i < k ==> exists|j: int|
                0 <= j < k && parts[#[trigger] order[j]] == (#[trigger] arrived(parts, order, k)[i]),
    decreases k,
{
    if k > 0 {
        lemma_arrived(parts, order, k - 1);
        let p = arrived(parts, order, k - 1);
        let (seq, data) = parts[order[k - 1]];
        assert forall|i: int| 0 <= i < p.len() implies (#[trigger] p[i]).0 != seq by {
            let j = choose|j: int| 0 <= j < k - 1 && parts[#[trigger] order[j]] == p[i];
            assert(order[j] != order[k - 1]);
            if order[j] < order[k - 1] {
                assert(parts[order[j]].0 < parts[order[k - 1]].0);
            } else {
                assert(parts[order[k - 1]].0 < parts[order[j]].0);
            }
        }
        lemma_put_part(p, seq, data);
        lemma_new_part(p, seq, data);
        let q = arrived(parts, order, k);
        assert forall|i: int| 0 <= i < k implies exists|j: int|
            0 <= j < k && parts[#[trigger] order[j]] == (#[trigger] q[i]) by {
            if q[i] == (seq, data) {
                assert(parts[order[k - 1]] == q[i]);
            } else {
                let m = choose|m: int| 0 <= m < p.len() && p[m] == q[i];
                let j = choose|j: int| 0 <= j < k - 1 && parts[#[trigger] order[j]] == p[m];
                assert(parts[order[j]] == q[i]);
            }
        }
    }
}

/// Parts in ascending order that are as many as others, and are all among
/// them, are these.
proof fn lemma_same_parts(p: Parts, q: Parts)
    requires
        parts_ascending(p),
        parts_ascending(q),
        p.len() == q.len(),
        forall|i: int| 0 <= i < p.len() ==> q.contains(#[trigger] p[i]),
    ensures
        p == q,
{
    assert forall|i: int| 0 <= i < p.len() implies p[i] == q[i] by {
        assert(q.contains(p[i]));
        let j = q.index_of(p[i]);
        lemma_at_least(p, q, i, j);
        lemma_at_most(p, q, i, j);
    }
    assert(p =~= q);
}

proof fn lemma_at_least(p: Parts, q: Parts, i: int, j: int)
    requires
        parts_ascending(p),
        parts_ascending(q),
        forall|k: int| 0 <= k < p.len() ==> q.contains(#[trigger] p[k]),
        0 <= i < p.len(),
        0 <= j < q.len(),
        q[j] == p[i],
    ensures
        j >= i,
    decreases i,
{
    if i > 0 {
        assert(q.contains(p[i - 1]));
        let h = q.index_of(p[i - 1]);
        lemma_at_least(p, q, i - 1, h);
        assert(p[i - 1].0 < p[i].0);
        if j < h {
            assert(q[j].0 < q[h].0);
        }
    }
}

proof fn lemma_at_most(p: Parts, q: Parts, i: int, j: int)
    requires
        parts_ascending(p),
        parts_ascending(q),
        p.len() == q.len(),
        forall|k: int| 0 <= k < p.len() ==> q.contains(#[trigger] p[k]),
        0 <= i < p.len(),
        0 <= j < q.len(),
        q[j] == p[i],
    ensures
        j <= i,
    decreases p.len() - i,
{
    if i + 1 < p.len() {
        assert(q.contains(p[i + 1]));
        let h = q.index_of(p[i + 1]);
        lemma_at_most(p, q, i + 1, h);
        assert(p[i].0 < p[i + 1].0);
        if j > h {
            assert(q[h].0 < q[j].0);
        }
    }
}

/// The waiting messages after the first `k` parts of one have come.
pub open spec fn after_parts(
    m: Map<Seq<char>, FragView>,
    id: Seq<char>,
    parts: Parts,
    order: Seq<int>,
    times: Seq<u64>,
    k: int,
) -> Map<Seq<char>, FragView>
    decreases k,
{
    if k <= 0 {
        m
    } else {
        frag_after(
            after_parts(m, id, parts, order, times, k - 1),
            id,
            parts.len() as u32,
            parts[order[k - 1]].0,
            parts[order[k - 1]].1,
            times[k - 1],
        )
    }
}

proof fn lemma_waiting(
    m: Map<Seq<char>, FragView>,
    id: Seq<char>,
    parts: Parts,
    order: Seq<int>,
    times: Seq<u64>,
    k: int,
)
    requires
        parts_ascending(parts),
        arrival_order(order, parts.len()),
        2 <= parts.len() <= u32::MAX,
        times.len() == order.len(),
        !m.contains_key(id) || !frag_alive(m[id].at, times[0]),
        forall|i: int| 0 <= i < times.len() ==> frag_alive(times[0], #[trigger] times[i]),
        0 <= k < order.len(),
    ensures
        k > 0 ==> after_parts(m, id, parts, order, times, k).contains_key(id) && after_parts(
            m,
            id,
            parts,
            order,
            times,
            k,
        )[id] == (FragView { sum: parts.len() as u32, parts: arrived(parts, order, k), at: times[0] }),
    decreases k,
{
    if k > 0 {
        lemma_waiting(m, id, parts, order, times, k - 1);
        lemma_arrived(parts, order, k);
        assert(frag_alive(times[0], times[k - 1]));
        if k == 1 {
            assert(arrived(parts, order, 0) =~= Seq::<(u32, Seq<u8>)>::empty());
            assert(after_parts(m, id, parts, order, times, 0) == m);
        }
    }
}

/// A message in parts is put together whatever the numbers of its parts are, as
/// long as they differ, and whatever the order in which they arrive, as long as
/// they arrive in time: nothing comes out before the last one, and with it
/// comes the message, the parts in the order of their numbers. What is left of
/// an earlier message that waited too long makes no difference.
pub proof fn law_parts_in_any_order(
    m: Map<Seq<char>, FragView>,
    id: Seq<char>,
    parts: Parts,
    order: Seq<int>,
    times: Seq<u64>,
    k: int,
)
    requires
        parts_ascending(parts),
        arrival_order(order, parts.len()),
        2 <= parts.len() <= u32::MAX,
        times.len() == order.len(),
        !m.contains_key(id) || !frag_alive(m[id].at, times[0]),
        forall|i: int| 0 <= i < times.len() ==> frag_alive(times[0], #[trigger] times[i]),
        0 <= k < order.len(),
    ensures
        frag_result(
            after_parts(m, id, parts, order, times, k),
            id,
            parts.len() as u32,
            parts[order[k]].0,
            parts[order[k]].1,
            times[k],
        ) == (if k + 1 == order.len() {
            Some(joined_parts(parts))
        } else {
            None
        }),
{
    lemma_waiting(m, id, parts, order, times, k);
    lemma_arrived(parts, order, k + 1);
    assert(frag_alive(times[0], times[k]));
    if k == 0 {
        assert(arrived(parts, order, 0) =~= Seq::<(u32, Seq<u8>)>::empty());
    }
    if k + 1 == order.len() {
        let p = arrived(parts, order, k + 1);
        assert forall|i: int| 0 <= i < p.len() implies parts.contains(#[trigger] p[i]) by {
            let j = choose|j: int| 0 <= j < k + 1 && parts[#[trigger] order[j]] == p[i];
            assert(parts[order[j]] == p[i]);
        }
        lemma_same_parts(p, parts);
    }
}

/// The parts of one message make no difference to another that waits and is in
/// time.
pub proof fn law_messages_do_not_mix(
    m: Map<Seq<char>, FragView>,
    id: Seq<char>,
    sum: u32,
    seq: u32,
    data: Seq<u8>,
    now: u64,
    other: Seq<char>,
)
    requires
        other != id,
        m.contains_key(other),
        frag_alive(m[other].at, now),
    ensures
        frag_after(m, id, sum, seq, data, now).contains_key(other),
        frag_after(m, id, sum, seq, data, now)[other] == m[other],
{
}

fn put_part_into(parts: &mut Vec<(u32, Vec<u8>)>, seq: u32, data: Vec<u8>)
    requires
        parts_ascending(parts_view(old(parts)@)),
    ensures
        parts_view(final(parts)@) == put_part(parts_view(old(parts)@), seq, data@),
{
    let ghost all = parts_view(parts@);
    let ghost old_parts = parts@;
    let mut i: usize = 0;
    assert(all.skip(0) =~= all);
    assert(all.take(0) + put_part(all, seq, data@) =~= put_part(all, seq, data@));
    while i < parts.len() && parts[i].0 < seq
        invariant
            i <= parts.len(),
            parts@ == old_parts,
            all == parts_view(old_parts),
            put_part(all, seq, data@) == all.take(i as int) + put_part(all.skip(i as int), seq, data@),
        decreases parts.len() - i,
    {
        proof {
            let rest = all.skip(i as int);
            assert(rest.drop_first() =~= all.skip(i as int + 1));
            assert(all.take(i as int + 1) + put_part(all.skip(i as int + 1), seq, data@) =~= all.take(i as int)
                + (seq![rest[0]] + put_part(all.skip(i as int + 1), seq, data@)));
        }
        i += 1;
    }
    let ghost rest = all.skip(i as int);
    if i < parts.len() && parts[i].0 == seq {
        let _ = parts.remove(i);
        parts.insert(i, (seq, data));
        proof {
            assert(rest.drop_first() =~= all.skip(i as int + 1));
            assert(parts_view(parts@) =~= all.take(i as int) + (seq![(seq, data@)] + all.skip(i as int + 1)));
        }
    } else {
        parts.insert(i, (seq, data));
        proof {
            assert(parts_view(parts@) =~= all.take(i as int) + (seq![(seq, data@)] + rest));
        }
    }
}

fn join_parts(parts: &Vec<(u32, Vec<u8>)>) -> (r: Vec<u8>)
    ensures
        r@ == joined_parts(parts_view(parts@)),
{
    let ghost all = parts_view(parts@);
    let mut out: Vec<u8> = Vec::new();
    let mut i: usize = 0;
    while i < parts.len()
        invariant
            i <= parts.len(),
            all == parts_view(parts@),
            out@ == joined_parts(all.take(i as int)),
        decreases parts.len() - i,
    {
        let ghost before = out@;
        proof {
            assert(all.take(i as int + 1).drop_last() =~= all.take(i as int));
        }
        let p: &Vec<u8> = &parts[i].1;
        let mut k: usize = 0;
        assert(before + p@.take(0) =~= before);
        while k < p.len()
            invariant
                k <= p.len(),
                out@ == before + p@.take(k as int),
            decreases p.len() - k,
        {
            out.push(p[k]);
            k += 1;
            assert(out@ =~= before + p@.take(k as int));
        }
        assert(p@.take(k as int) =~= p@);
        i += 1;
    }
    assert(all.take(i as int) =~= all);
    out
}

impl FragmentCache {
    /// The messages whose parts are still arriving.
    pub closed spec fn waiting(&self) -> Map<Seq<char>, FragView> {
        entries_map(self.entries@)
    }

    /// Every message stands once and lacks at least one part.
    pub closed spec fn wf(&self) -> bool {
        entries_wf(self.entries@)
    }

    pub fn new() -> (r: FragmentCache)
        ensures
            r.wf(),
            r.waiting() == Map::<Seq<char>, FragView>::empty(),
    {
        let r: FragmentCache = FragmentCache { entries: Vec::new() };
        assert(r.waiting() =~= Map::<Seq<char>, FragView>::empty());
        r
    }

    /// Whether no message is waiting for parts.
    pub fn is_empty(&self) -> (r: bool)
        requires
            self.wf(),
        ensures
            r == (self.waiting() == Map::<Seq<char>, FragView>::empty()),
    {
        let n: usize = self.entries.len();
        proof {
            if n == 0 {
                assert(self.waiting() =~= Map::<Seq<char>, FragView>::empty());
            } else {
                assert(self.waiting().contains_key(self.entries@.last().id@));
            }
        }
        n == 0
    }

    /// Adds part `seq` of the message `id`, which has `sum` parts, at the time
    /// `now`; gives the whole message once its parts are there. Messages that
    /// have waited too long are dropped.
    pub fn insert(&mut self, id: &str, sum: u32, seq: u32, data: Vec<u8>, now: u64) -> (r: Option<Vec<u8>>)
        requires
            old(self).wf(),
        ensures
            final(self).wf(),
            opt_bytes(r) == frag_result(old(self).waiting(), id@, sum, seq, data@, now),
            final(self).waiting() == frag_after(old(self).waiting(), id@, sum, seq, data@, now),
    {
        if sum <= 1 {
            return Some(data);
        }
        let ghost m = self.waiting();
        let ghost old_entries = self.entries@;
        let mut entries: Vec<FragEntry> = Vec::new();
        entries.append(&mut self.entries);
        assert(entries@ =~= old_entries);
        let mut kept: Vec<FragEntry> = Vec::new();
        let mut base: Option<FragEntry> = None;
        for e in it: entries
            invariant
                it.seq() == old_entries,
                entries_wf(old_entries),
                entries_wf(kept@),
                forall|k: Seq<char>|
                    k != id@ ==> (#[trigger] entry_of(kept@, k)) == (match entry_of(
                        old_entries.take(it.index() as int),
                        k,
                    ) {
                        Some(x) => if frag_alive(x.at, now) {
                            Some(x)
                        } else {
                            None
                        },
                        None => None,
                    }),
                entry_of(kept@, id@) is None,
                match base {
                    Some(b) => {
                        &&& entry_of(old_entries.take(it.index() as int), id@) == Some(entry_view(b))
                        &&& frag_alive(b.at, now)
                        &&& b.id@ == id@
                        &&& parts_ascending(entry_view(b).parts)
                        &&& b.parts@.len() < b.sum
                    },
                    None => match entry_of(old_entries.take(it.index() as int), id@) {
                        Some(x) => !frag_alive(x.at, now),
                        None => true,
                    },
                },
        {
            let ghost i = it.index() as int;
            let ghost before = kept@;
            proof {
                assert(old_entries.take(i + 1).drop_last() =~= old_entries.take(i));
                assert(old_entries.take(i + 1).last() == e);
                assert(entry_of(old_entries.take(i), e.id@) is None);
            }
            let alive: bool = now < e.at || now - e.at < FRAG_TTL_NANOS;
            if alive {
                if str_eq(e.id.as_str(), id) {
                    base = Some(e);
                } else {
                    kept.push(e);
                    proof {
                        assert(kept@.drop_last() =~= before);
                        assert forall|k: Seq<char>| k != id@ implies (#[trigger] entry_of(kept@, k)) == (
                        match entry_of(old_entries.take(i + 1), k) {
                            Some(x) => if frag_alive(x.at, now) {
                                Some(x)
                            } else {
                                None
                            },
                            None => None,
                        }) by {
                            assert(entry_of(before, k) == entry_of(before, k));
                        }
                        assert(entry_of(before, e.id@) is None);
                        assert forall|j: int| 0 <= j < kept@.len() implies entry_of(
                            kept@.take(j),
                            (#[trigger] kept@[j]).id@,
                        ) is None by {
                            if j < before.len() {
                                assert(kept@.take(j) =~= before.take(j));
                            } else {
                                assert(kept@.take(j) =~= before);
                            }
                        }
                    }
                }
            }
        }
        assert(old_entries.take(old_entries.len() as int) =~= old_entries);
        let mut entry: FragEntry = match base {
            Some(b) => b,
            None => FragEntry { id: id.to_string(), sum, parts: Vec::new(), at: now },
        };
        let ghost start = entry_view(entry);
        proof {
            assert(start.parts =~= frag_base(m, id@, sum, now).parts);
            assert(start == frag_base(m, id@, sum, now));
            lemma_put_part(start.parts, seq, data@);
        }
        put_part_into(&mut entry.parts, seq, data);
        let ghost parts = put_part(start.parts, seq, data@);
        assert(entry.parts@.len() == parts.len());
        if entry.parts.len() as u32 >= entry.sum {
            let out: Vec<u8> = join_parts(&entry.parts);
            self.entries = kept;
            proof {
                assert(entry_of(kept@, id@) is None);
                assert forall|k: Seq<char>| self.waiting().contains_key(k) == frags_alive(m, now).remove(
                    id@,
                ).contains_key(k) by {
                    assert(entry_of(kept@, k) == entry_of(self.entries@, k));
                }
                assert forall|k: Seq<char>| self.waiting().contains_key(k) implies self.waiting()[k]
                    == frags_alive(m, now).remove(id@)[k] by {
                    assert(entry_of(kept@, k) == entry_of(self.entries@, k));
                }
                assert(self.waiting() =~= frags_alive(m, now).remove(id@));
            }
            Some(out)
        } else {
            let ghost before = kept@;
            kept.push(entry);
            proof {
                assert(kept@.drop_last() =~= before);
                assert forall|j: int| 0 <= j < kept@.len() implies entry_of(
                    kept@.take(j),
                    (#[trigger] kept@[j]).id@,
                ) is None by {
                    if j < before.len() {
                        assert(kept@.take(j) =~= before.take(j));
                    } else {
                        assert(kept@.take(j) =~= before);
                    }
                }
            }
            self.entries = kept;
            proof {
                let want = frags_alive(m, now).insert(id@, FragView { parts, ..start });
                assert(entry_view(self.entries@.last()) == (FragView { parts, ..start }));
                assert(self.entries@.last().id@ == id@);
                assert forall|k: Seq<char>| self.waiting().contains_key(k) == want.contains_key(k) by {
                    assert(k != id@ ==> entry_of(self.entries@, k) == entry_of(before, k));
                }
                assert forall|k: Seq<char>| self.waiting().contains_key(k) implies self.waiting()[k]
                    == want[k] by {
                    assert(k != id@ ==> entry_of(self.entries@, k) == entry_of(before, k));
                }
                assert(self.waiting() =~= want);
            }
            None
        }
    }
}

// ---------- text messages ----------

/// The size of a piece of text: at least one character.
pub open spec fn piece_size(n: nat) -> nat {
    if n == 0 {
        1
    } else {
        n
    }
}

/// A text cut into pieces of `n` characters; the last one may be shorter.
pub open spec fn pieces(s: Seq<char>, n: nat) -> Seq<Seq<char>>
    decreases s.len(),
{
    if s.len() <= piece_size(n) {
        seq![s]
    } else {
        seq![s.take(piece_size(n) as int)] + pieces(s.skip(piece_size(n) as int), n)
    }
}

/// Cuts a text into pieces of `n` characters.
pub fn chunk_text(text: &str, n: usize) -> (r: Vec<String>)
    ensures
        strs(r@) == pieces(text@, n as nat),
{
    let v: Vec<char> = chars_of(text);
    let size: usize = if n == 0 {
        1
    } else {
        n
    };
    let mut out: Vec<String> = Vec::new();
    let mut pos: usize = 0;
    proof {
        assert(text@.skip(0) =~= text@);
        assert(strs(out@) + pieces(text@, n as nat) =~= pieces(text@, n as nat));
    }
    while v.len() - pos > size
        invariant
            pos <= v.len(),
            v@ == text@,
            size == piece_size(n as nat),
            strs(out@) + pieces(text@.skip(pos as int), n as nat) == pieces(text@, n as nat),
        decreases v.len() - pos,
    {
        let ghost rest = text@.skip(pos as int);
        let ghost before = strs(out@);
        out.push(slice_of(v.as_slice(), pos, pos + size));
        proof {
            assert(text@.subrange(pos as int, pos + size) =~= rest.take(size as int));
            assert(strs(out@) =~= before.push(rest.take(size as int)));
            assert(rest.skip(size as int) =~= text@.skip(pos + size));
            assert(strs(out@) + pieces(text@.skip(pos + size), n as nat) =~= before + (seq![
                rest.take(size as int),
            ] + pieces(text@.skip(pos + size), n as nat)));
        }
        pos = pos + size;
    }
    let ghost rest = text@.skip(pos as int);
    let ghost before = strs(out@);
    out.push(slice_of(v.as_slice(), pos, v.len()));
    proof {
        assert(text@.subrange(pos as int, text@.len() as int) =~= rest);
        assert(strs(out@) =~= before + seq![rest]);
    }
    out
}

/// The texts one after another.
pub open spec fn concat(parts: Seq<Seq<char>>) -> Seq<char>
    decreases parts.len(),
{
    if parts.len() == 0 {
        Seq::empty()
    } else {
        parts[0] + concat(parts.drop_first())
    }
}

/// The pieces of a text give the text again, no piece is longer than asked
/// for, and only an empty text has an empty piece.
pub proof fn law_pieces_give_the_text(s: Seq<char>, n: nat)
    ensures
        concat(pieces(s, n)) == s,
        forall|i: int| 0 <= i < pieces(s, n).len() ==> (#[trigger] pieces(s, n)[i]).len() <= piece_size(n),
        s.len() > 0 ==> forall|i: int| 0 <= i < pieces(s, n).len() ==> (#[trigger] pieces(s, n)[i]).len() > 0,
    decreases s.len(),
{
    let p = pieces(s, n);
    let k = piece_size(n) as int;
    if s.len() <= k {
        assert(p.drop_first() =~= Seq::<Seq<char>>::empty());
        assert(concat(p.drop_first()) =~= Seq::<char>::empty());
        assert(concat(p) =~= s);
    } else {
        let t = s.skip(k);
        law_pieces_give_the_text(t, n);
        assert(p.drop_first() =~= pieces(t, n));
        assert(concat(p) =~= s);
        assert forall|i: int| 0 <= i < p.len() implies 0 < (#[trigger] p[i]).len() <= k by {
            if i > 0 {
                assert(p[i] == pieces(t, n)[i - 1]);
            }
        }
    }
}

// ---------- endpoint ----------

/// The service id in one part of a query.
pub open spec fn service_in(pair: Seq<char>) -> Option<nat> {
    match after_prefix(pair, "service_id="@) {
        Some(v) => digits_value(leading_digits(v), i32::MAX as nat),
        None => None,
    }
}

/// The first service id in the parts of a query, or zero.
pub open spec fn service_among(pairs: Seq<Seq<char>>) -> nat
    decreases pairs.len(),
{
    if pairs.len() == 0 {
        0
    } else {
        match service_in(pairs[0]) {
            Some(n) => n,
            None => service_among(pairs.drop_first()),
        }
    }
}

/// The service id in an address: the leading digits of the query's
/// `service_id`, or zero.
pub open spec fn service_id_of(url: Seq<char>) -> nat {
    if split(url, '?').len() < 2 {
        0
    } else {
        service_among(split(split(url, '?')[1], '&'))
    }
}

fn service_in_of(pair: &str) -> (r: Option<u64>)
    ensures
        match r {
            Some(n) => service_in(pair@) == Some(n as nat) && n <= i32::MAX,
            None => service_in(pair@) is None,
        },
{
    match strip_prefix(pair, "service_id=") {
        Some(v) => {
            let c: Vec<char> = chars_of(v.as_str());
            let k: usize = count_leading_digits(c.as_slice());
            let digits: &[char] = slice_subrange(c.as_slice(), 0, k);
            assert(digits@ =~= leading_digits(v@));
            digits_value_of(digits, i32::MAX as u64)
        },
        None => None,
    }
}

/// Reads the service id out of the connection's address.
pub fn parse_service_id(url: &str) -> (r: i32)
    ensures
        r == service_id_of(url@),
{
    let parts: Vec<String> = split_string(url, '?');
    assert(strs(parts@).len() == parts@.len());
    if parts.len() < 2 {
        return 0;
    }
    let pairs: Vec<String> = split_string(parts[1].as_str(), '&');
    assert(strs(parts@)[1] == parts@[1]@);
    let ghost all = strs(pairs@);
    let mut i: usize = 0;
    assert(all.skip(0) =~= all);
    while i < pairs.len()
        invariant
            i <= pairs.len(),
            all == strs(pairs@),
            service_id_of(url@) == service_among(all.skip(i as int)),
        decreases pairs.len() - i,
    {
        assert(all.skip(i as int)[0] == pairs@[i as int]@);
        assert(all.skip(i as int).drop_first() =~= all.skip(i as int + 1));
        if let Some(n) = service_in_of(pairs[i].as_str()) {
            return n as i32;
        }
        i += 1;
    }
    0
}

/// What the endpoint gives: where to connect and with which parameters.
#[derive(Debug)]
pub struct EndpointInfo {
    pub url: String,
    pub service_id: i32,
    pub params: ClientParams,
}

/// Why there is no endpoint: for good, or for now.
#[derive(Debug, PartialEq, Eq)]
pub enum EndpointError {
    Fatal(String),
    Retry(String),
}

/// The code of a reply: zero means success, a reply without one failed.
pub open spec fn reply_code(v: JsonView) -> i64 {
    match v.get_i64("code"@) {
        Some(c) => c,
        None => -1i64,
    }
}

/// The message of a reply.
pub open spec fn reply_msg(v: JsonView) -> Seq<char> {
    match v.get_str("msg"@) {
        Some(m) => m,
        None => "unknown"@,
    }
}

/// A failure with the code and the message of a reply.
pub open spec fn reply_failure(v: JsonView, what: Seq<char>) -> Seq<char> {
    what + " code="@ + dec_int(reply_code(v) as int) + " msg="@ + reply_msg(v)
}

/// The codes of refused credentials.
pub open spec fn fatal_code(code: i64) -> bool {
    code == 99992402 || code == 99991663 || code == 99991664
}

pub fn reply_code_of(v: &Json) -> (r: i64)
    ensures
        r == reply_code(v@),
{
    match v.get_i64("code") {
        Some(c) => c,
        None => -1,
    }
}

pub fn reply_failure_of(v: &Json, what: &str) -> (r: String)
    ensures
        r@ == reply_failure(v@, what@),
{
    let mut s: String = what.to_string();
    s.append(" code=");
    let code: String = dec_int_string(reply_code_of(v));
    s.append(code.as_str());
    s.append(" msg=");
    let msg: &str = match v.get_str("msg") {
        Some(m) => m,
        None => "unknown",
    };
    s.append(msg);
    s
}

/// The request for an endpoint.
pub fn endpoint_request(cfg: &FeishuConfig) -> (r: (String, Json))
    ensures
        r.0@ == cfg.domain_text() + "/callback/ws/endpoint"@,
        r.1@ == JsonView::obj().with("AppID"@, JsonView::Str(cfg.app_id@)).with(
            "AppSecret"@,
            JsonView::Str(cfg.app_secret@),
        ),
{
    let mut url: String = cfg.effective_domain();
    url.append("/callback/ws/endpoint");
    let body: Json = Json::obj().with("AppID", Json::text(cfg.app_id.as_str())).with(
        "AppSecret",
        Json::text(cfg.app_secret.as_str()),
    );
    (url, body)
}

/// The address in the endpoint's reply.
pub open spec fn endpoint_url(v: JsonView) -> Seq<char> {
    match v.get2_str("data"@, "URL"@) {
        Some(u) => u,
        None => Seq::empty(),
    }
}

/// The parameters in the endpoint's reply, defaults where it names none.
pub open spec fn endpoint_params(v: JsonView) -> ClientParams {
    match v.get2("data"@, "ClientConfig"@) {
        Some(c) => clamp_params(update_params(default_params(), c)),
        None => clamp_params(default_params()),
    }
}

/// Reads the endpoint's reply. Refused credentials are final, every other
/// failure may pass.
pub fn endpoint_of_reply(v: &Json) -> (r: Result<EndpointInfo, EndpointError>)
    ensures
        match r {
            Ok(ep) => {
                &&& reply_code(v@) == 0
                &&& endpoint_url(v@).len() > 0
                &&& ep.url@ == endpoint_url(v@)
                &&& ep.service_id == service_id_of(endpoint_url(v@))
                &&& ep.params == endpoint_params(v@)
            },
            Err(EndpointError::Fatal(m)) => {
                &&& fatal_code(reply_code(v@))
                &&& m@ == reply_failure(v@, "接入点鉴权失败"@)
            },
            Err(EndpointError::Retry(m)) => if reply_code(v@) != 0 {
                &&& !fatal_code(reply_code(v@))
                &&& m@ == reply_failure(v@, "接入点返回错误"@)
            } else {
                &&& endpoint_url(v@).len() == 0
                &&& m@ == "接入点响应缺少 URL"@
            },
        },
{
    let code: i64 = reply_code_of(v);
    if code != 0 {
        if code == 99992402 || code == 99991663 || code == 99991664 {
            return Err(EndpointError::Fatal(reply_failure_of(v, "接入点鉴权失败")));
        }
        return Err(EndpointError::Retry(reply_failure_of(v, "接入点返回错误")));
    }
    let url: String = match v.get2_str("data", "URL") {
        Some(u) => u.to_string(),
        None => String::new(),
    };
    if url.as_str().is_empty() {
        return Err(EndpointError::Retry("接入点响应缺少 URL".to_string()));
    }
    let params: ClientParams = match v.get("data") {
        Some(d) => match d.get("ClientConfig") {
            Some(c) => updated_params(ClientParams::default(), c).clamped(),
            None => ClientParams::default().clamped(),
        },
        None => ClientParams::default().clamped(),
    };
    let service_id: i32 = parse_service_id(url.as_str());
    Ok(EndpointInfo { url, service_id, params })
}

// ---------- reconnecting ----------

/// What happened to the connection loop.
#[derive(Debug, Clone, Copy, PartialEq, Eq, Structural)]
pub enum LoopEvent {
    /// The endpoint refused the credentials.
    EndpointFatal,
    /// The endpoint could not be had.
    EndpointRetry,
    /// The connection ended in an orderly way.
    Disconnected,
    /// The connection failed.
    ConnectionFailed,
}

/// What the connection loop does next.
#[derive(Debug, Clone, Copy, PartialEq, Eq, Structural)]
pub enum LoopAction {
    /// Report the endpoint's failure and end.
    Refused,
    /// Report that the retries are used up, and end.
    GiveUp { limit: i64 },
    /// Report a reconnect, wait, and ask for an endpoint again.
    Wait { secs: u64 },
}

/// The failed attempts in a row after an event.
pub open spec fn attempts_after(attempts: i64, event: LoopEvent) -> int {
    match event {
        LoopEvent::EndpointFatal => attempts as int,
        LoopEvent::EndpointRetry => attempts + 1,
        LoopEvent::Disconnected => 0,
        LoopEvent::ConnectionFailed => attempts + 1,
    }
}

/// A number from zero to `n`, picked by `seed`.
pub fn rand_below_inclusive(n: u64, seed: u64) -> (r: u64)
    requires
        n < u64::MAX,
    ensures
        r == seed as int % (n + 1),
        r <= n,
{
    seed % (n + 1)
}

/// What the loop does after an event, with the parameters that hold then.
pub open spec fn loop_action(attempts: int, p: ClientParams, event: LoopEvent, seed: u64) -> LoopAction {
    if event == LoopEvent::EndpointFatal {
        LoopAction::Refused
    } else if p.reconnect_count >= 0 && attempts > p.reconnect_count {
        LoopAction::GiveUp { limit: p.reconnect_count }
    } else if event == LoopEvent::EndpointRetry {
        LoopAction::Wait { secs: p.reconnect_interval }
    } else {
        LoopAction::Wait { secs: (seed as int % (p.reconnect_nonce + 1)) as u64 }
    }
}

/// Counts the failed attempts and decides what the loop does next: an orderly
/// end resets the count; too many failures in a row end the loop; otherwise it
/// waits, the interval after a failed request and a random time up to the
/// nonce after a connection.
pub fn next_loop_action(attempts: i64, p: ClientParams, event: LoopEvent, seed: u64) -> (r: (i64, LoopAction))
    requires
        0 <= attempts < i64::MAX,
        p.reconnect_nonce < u64::MAX,
    ensures
        r.0 == attempts_after(attempts, event),
        r.1 == loop_action(r.0 as int, p, event, seed),
{
    let now: i64 = match event {
        LoopEvent::EndpointFatal => attempts,
        LoopEvent::EndpointRetry => attempts + 1,
        LoopEvent::Disconnected => 0,
        LoopEvent::ConnectionFailed => attempts + 1,
    };
    match event {
        LoopEvent::EndpointFatal => {
            return (now, LoopAction::Refused);
        },
        _ => {},
    }
    if p.reconnect_count >= 0 && now > p.reconnect_count {
        return (now, LoopAction::GiveUp { limit: p.reconnect_count });
    }
    match event {
        LoopEvent::EndpointRetry => (now, LoopAction::Wait { secs: p.reconnect_interval }),
        _ => (now, LoopAction::Wait { secs: rand_below_inclusive(p.reconnect_nonce, seed) }),
    }
}

/// The state that is reported for an action of the loop.
pub fn status_of_action(action: LoopAction, refusal: &str) -> (r: ChannelStatus)
    ensures
        r@ == (match action {
            LoopAction::Refused => StatusView::Failed(refusal@),
            LoopAction::GiveUp { limit } => StatusView::Failed("重连次数超限("@ + dec_int(limit as int) + ")"@),
            LoopAction::Wait { secs } => StatusView::Reconnecting,
        }),
{
    match action {
        LoopAction::Refused => ChannelStatus::Failed(refusal.to_string()),
        LoopAction::GiveUp { limit } => {
            let mut s: String = "重连次数超限(".to_string();
            let d: String = dec_int_string(limit);
            s.append(d.as_str());
            s.append(")");
            ChannelStatus::Failed(s)
        },
        LoopAction::Wait { .. } => ChannelStatus::Reconnecting,
    }
}

/// Without a limit the loop never gives up; with a limit of `n`, it does so at
/// the failure number `n + 1` in a row and not before.
pub proof fn law_retries_are_bounded(attempts: i64, p: ClientParams, event: LoopEvent, seed: u64)
    requires
        0 <= attempts < i64::MAX,
        event == LoopEvent::EndpointRetry || event == LoopEvent::ConnectionFailed,
    ensures
        p.reconnect_count < 0 ==> loop_action(attempts_after(attempts, event), p, event, seed) is Wait,
        p.reconnect_count >= 0 ==> (loop_action(attempts_after(attempts, event), p, event, seed) is GiveUp
            <==> attempts + 1 > p.reconnect_count),
{
}

// ---------- heartbeat ----------

/// The ping of a connection.
pub open spec fn ping_view(service_id: i32) -> FrameView {
    FrameView {
        service: service_id,
        headers: seq![HeaderView { key: "type"@, value: "ping"@ }],
        ..empty_frame()
    }
}

pub fn ping_frame(service_id: i32) -> (r: Frame)
    ensures
        r@ == ping_view(service_id),
{
    let mut headers: Vec<Header> = Vec::new();
    headers.push(Header { key: "type".to_string(), value: "ping".to_string() });
    assert(header_views(headers@) =~= ping_view(service_id).headers);
    Frame {
        seq_id: 0,
        log_id: 0,
        service: service_id,
        method: 0,
        headers,
        payload_encoding: None,
        payload_type: None,
        payload: None,
        log_id_new: None,
    }
}

/// Whether a connection without inbound frames for this long has died.
pub fn heartbeat_expired(silent_nanos: u64, ping_interval: u64) -> (r: bool)
    ensures
        r == (silent_nanos > ping_interval * HEARTBEAT_TIMEOUT_FACTOR * 1_000_000_000),
{
    let limit: u128 = ping_interval as u128 * 2_000_000_000;
    silent_nanos as u128 > limit
}

// ---------- frames and events ----------

/// The value of the first header with this name.
pub open spec fn header_value(hs: Seq<HeaderView>, key: Seq<char>) -> Option<Seq<char>>
    decreases hs.len(),
{
    if hs.len() == 0 {
        None
    } else if hs[0].key == key {
        Some(hs[0].value)
    } else {
        header_value(hs.drop_first(), key)
    }
}

/// Looks a header up.
pub fn header_get<'a>(frame: &'a Frame, key: &str) -> (r: Option<&'a str>)
    ensures
        match r {
            Some(v) => header_value(frame@.headers, key@) == Some(v@),
            None => header_value(frame@.headers, key@) is None,
        },
{
    let ghost all = frame@.headers;
    let mut i: usize = 0;
    assert(all.skip(0) =~= all);
    while i < frame.headers.len()
        invariant
            i <= frame.headers.len(),
            all == header_views(frame.headers@),
            all == frame@.headers,
            header_value(all, key@) == header_value(all.skip(i as int), key@),
        decreases frame.headers.len() - i,
    {
        assert(all.skip(i as int)[0] == frame.headers@[i as int]@);
        assert(all.skip(i as int).drop_first() =~= all.skip(i as int + 1));
        if str_eq(frame.headers[i].key.as_str(), key) {
            return Some(frame.headers[i].value.as_str());
        }
        i += 1;
    }
    None
}

/// The text of a message, or nothing.
pub open spec fn text_or(s: Option<Seq<char>>) -> Seq<char> {
    match s {
        Some(t) => t,
        None => Seq::empty(),
    }
}

/// The sender of an event.
pub open spec fn event_sender(event: JsonView) -> Seq<char> {
    match event.get("sender"@) {
        Some(s) => text_or(s.get2_str("sender_id"@, "open_id"@)),
        None => Seq::empty(),
    }
}

/// The text inside a text message's content, which is JSON itself.
pub open spec fn content_text(msg: JsonView) -> Seq<char> {
    if text_or(msg.get_str("message_type"@)) == "text"@ {
        match msg.get_str("content"@) {
            Some(c) => match json_parsed(c) {
                Ok(v) => text_or(v.get_str("text"@)),
                Err(_) => Seq::empty(),
            },
            None => Seq::empty(),
        }
    } else {
        Seq::empty()
    }
}

/// The private message that an event stands for, if it is one.
pub open spec fn event_dm(v: JsonView) -> Option<DmView> {
    if v.get2_str("header"@, "event_type"@) != Some("im.message.receive_v1"@) {
        None
    } else {
        match v.get("event"@) {
            None => None,
            Some(event) => match event.get("message"@) {
                None => None,
                Some(msg) => Some(
                    DmView {
                        open_id: event_sender(event),
                        message_id: text_or(msg.get_str("message_id"@)),
                        text: content_text(msg),
                    },
                ),
            },
        }
    }
}

/// The private message in the bytes of an event.
pub open spec fn payload_dm(payload: Seq<u8>) -> Option<DmView> {
    match json_parsed_bytes(payload) {
        Ok(v) => event_dm(v),
        Err(_) => None,
    }
}

fn owned_or(s: Option<&str>) -> (r: String)
    ensures
        r@ == text_or(match s {
            Some(x) => Some(x@),
            None => None,
        }),
{
    match s {
        Some(x) => x.to_string(),
        None => String::new(),
    }
}

fn content_text_of(msg: &Json) -> (r: String)
    ensures
        r@ == content_text(msg@),
{
    let kind: String = owned_or(msg.get_str("message_type"));
    if str_eq(kind.as_str(), "text") {
        match msg.get_str("content") {
            Some(c) => match parse(c) {
                Ok(v) => owned_or(v.get_str("text")),
                Err(_) => String::new(),
            },
            None => String::new(),
        }
    } else {
        String::new()
    }
}

/// Reads a private message out of an event.
pub fn dm_of_event(v: &Json) -> (r: Option<FeishuDm>)
    ensures
        opt_dm(r) == event_dm(v@),
{
    match v.get2_str("header", "event_type") {
        Some(t) => if !str_eq(t, "im.message.receive_v1") {
            return None;
        },
        None => {
            return None;
        },
    }
    match v.get("event") {
        Some(event) => match event.get("message") {
            Some(msg) => {
                let open_id: String = match event.get("sender") {
                    Some(s) => owned_or(s.get2_str("sender_id", "open_id")),
                    None => String::new(),
                };
                let message_id: String = owned_or(msg.get_str("message_id"));
                let text: String = content_text_of(msg);
                Some(FeishuDm { open_id, message_id, text })
            },
            None => None,
        },
        None => None,
    }
}

/// Reads a private message out of the bytes of an event; other events and
/// damaged ones give none.
pub fn parse_event(payload: &[u8]) -> (r: Option<FeishuDm>)
    ensures
        opt_dm(r) == payload_dm(payload@),
{
    match parse_bytes(payload) {
        Ok(v) => dm_of_event(&v),
        Err(_) => None,
    }
}

/// A number in a header, or one.
pub open spec fn header_number(hs: Seq<HeaderView>, key: Seq<char>) -> u32 {
    match header_value(hs, key) {
        Some(v) => match parsed_uint(v, u32::MAX as nat) {
            Some(n) => n as u32,
            None => 1,
        },
        None => 1,
    }
}

fn header_number_of(frame: &Frame, key: &str) -> (r: u32)
    ensures
        r == header_number(frame@.headers, key@),
{
    match header_get(frame, key) {
        Some(v) => match parse_uint(v, u32::MAX as u64) {
            Some(n) => n as u32,
            None => 1,
        },
        None => 1,
    }
}

/// What a connection remembers between frames.
pub struct FrameState {
    pub params: ClientParams,
    pub dedup: DedupLru,
    pub frags: FragmentCache,
}

/// What an inbound frame asks for.
pub enum FrameOutcome {
    /// A control frame: nothing more to do.
    Control,
    /// A data frame: hand the message on, if there is one, and acknowledge.
    Data { frame: Frame, dm: Option<FeishuDm> },
}

/// The parameters after a control frame: a pong may carry new ones.
pub open spec fn params_after(p: ClientParams, f: FrameView) -> ClientParams {
    if text_or(header_value(f.headers, "type"@)) == "pong"@ {
        match f.payload {
            Some(bytes) => match json_parsed_bytes(bytes) {
                Ok(v) => clamp_params(update_params(clamp_params(p), v)),
                Err(_) => p,
            },
            None => p,
        }
    } else {
        p
    }
}

/// The complete event that a data frame brings, if any.
pub open spec fn frame_event(m: Map<Seq<char>, FragView>, f: FrameView, now: u64) -> Option<Seq<u8>> {
    if text_or(header_value(f.headers, "type"@)) == "event"@ {
        frag_result(
            m,
            text_or(header_value(f.headers, "message_id"@)),
            header_number(f.headers, "sum"@),
            header_number(f.headers, "seq"@),
            match f.payload {
                Some(p) => p,
                None => Seq::empty(),
            },
            now,
        )
    } else {
        None
    }
}

/// The fragments that wait after a data frame.
pub open spec fn frags_after_frame(
    m: Map<Seq<char>, FragView>,
    f: FrameView,
    now: u64,
) -> Map<Seq<char>, FragView> {
    if text_or(header_value(f.headers, "type"@)) == "event"@ {
        frag_after(
            m,
            text_or(header_value(f.headers, "message_id"@)),
            header_number(f.headers, "sum"@),
            header_number(f.headers, "seq"@),
            match f.payload {
                Some(p) => p,
                None => Seq::empty(),
            },
            now,
        )
    } else {
        m
    }
}

/// The id under which an event is remembered: the frame's, or else the
/// message's own.
pub open spec fn dedup_key(f: FrameView, full: Seq<u8>) -> Seq<char> {
    let id = text_or(header_value(f.headers, "message_id"@));
    if id.len() == 0 {
        match payload_dm(full) {
            Some(dm) => dm.message_id,
            None => Seq::empty(),
        }
    } else {
        id
    }
}

fn clone_bytes(p: &Option<Vec<u8>>) -> (r: Vec<u8>)
    ensures
        r@ == (match opt_bytes(*p) {
            Some(b) => b,
            None => Seq::empty(),
        }),
{
    let mut out: Vec<u8> = Vec::new();
    if let Some(b) = p {
        let mut i: usize = 0;
        while i < b.len()
            invariant
                i <= b.len(),
                out@ == b@.take(i as int),
            decreases b.len() - i,
        {
            out.push(b[i]);
            i += 1;
            assert(out@ =~= b@.take(i as int));
        }
        assert(out@ =~= b@);
    }
    out
}

/// Handles an inbound frame at the time `now`. A pong may bring new
/// parameters. A data frame may bring a message: an event whose parts are all
/// there and which has not come before.
pub fn handle_frame(state: &mut FrameState, bytes: &[u8], now: u64) -> (r: Result<FrameOutcome, String>)
    requires
        old(state).dedup.wf(),
        old(state).frags.wf(),
    ensures
        final(state).dedup.wf(),
        final(state).frags.wf(),
        final(state).dedup.capacity() == old(state).dedup.capacity(),
        match (r, frame_of(bytes@)) {
            (Err(e), None) => {
                &&& e@ == "帧解码失败"@
                &&& *final(state) == *old(state)
            },
            (Ok(FrameOutcome::Control), Some(f)) => {
                &&& f.method == 0
                &&& final(state).params == params_after(old(state).params, f)
                &&& final(state).dedup == old(state).dedup
                &&& final(state).frags == old(state).frags
            },
            (Ok(FrameOutcome::Data { frame, dm }), Some(f)) => {
                let event = frame_event(old(state).frags.waiting(), f, now);
                &&& f.method != 0
                &&& frame@ == f
                &&& final(state).params == old(state).params
                &&& final(state).frags.waiting() == frags_after_frame(old(state).frags.waiting(), f, now)
                &&& match event {
                    Some(full) => {
                        let key = dedup_key(f, full);
                        &&& opt_dm(dm) == (if is_fresh(old(state).dedup.ids(), key) {
                            payload_dm(full)
                        } else {
                            None
                        })
                        &&& final(state).dedup.ids() == remembered(
                            old(state).dedup.ids(),
                            old(state).dedup.capacity(),
                            key,
                        )
                    },
                    None => dm is None && final(state).dedup == old(state).dedup,
                }
            },
            _ => false,
        },
{
    let frame: Frame = match decode_frame(bytes) {
        Some(f) => f,
        None => {
            return Err("帧解码失败".to_string());
        },
    };
    let ftype: String = owned_or(header_get(&frame, "type"));
    if frame.method == 0 {
        if str_eq(ftype.as_str(), "pong") {
            if let Some(payload) = &frame.payload {
                if let Ok(v) = parse_bytes(payload.as_slice()) {
                    state.params = updated_params(state.params.clamped(), &v).clamped();
                }
            }
        }
        return Ok(FrameOutcome::Control);
    }
    let mut dm: Option<FeishuDm> = None;
    if str_eq(ftype.as_str(), "event") {
        let message_id: String = owned_or(header_get(&frame, "message_id"));
        let sum: u32 = header_number_of(&frame, "sum");
        let seq: u32 = header_number_of(&frame, "seq");
        let payload: Vec<u8> = clone_bytes(&frame.payload);
        match state.frags.insert(message_id.as_str(), sum, seq, payload, now) {
            Some(full) => {
                let parsed: Option<FeishuDm> = parse_event(full.as_slice());
                let key: String = if message_id.as_str().is_empty() {
                    match &parsed {
                        Some(d) => d.message_id.clone(),
                        None => String::new(),
                    }
                } else {
                    message_id
                };
                if state.dedup.check_and_insert(key.as_str()) {
                    dm = parsed;
                }
            },
            None => {},
        }
    }
    Ok(FrameOutcome::Data { frame, dm })
}

/// The acknowledgement of a data frame: the frame itself with the time taken
/// and the code 200.
pub open spec fn ack_view(f: FrameView, service_id: i32, elapsed_millis: u64) -> FrameView {
    FrameView {
        seq_id: f.seq_id,
        log_id: f.log_id,
        service: if f.service != 0 {
            f.service
        } else {
            service_id
        },
        method: f.method,
        headers: f.headers.push(HeaderView { key: "biz_rt"@, value: dec(elapsed_millis as nat) }),
        payload: Some(ack_payload()),
        ..empty_frame()
    }
}

/// `{"code":200}` in bytes.
pub open spec fn ack_payload() -> Seq<u8> {
    seq![123u8, 34, 99, 111, 100, 101, 34, 58, 50, 48, 48, 125]
}

pub fn ack_frame(frame: Frame, service_id: i32, elapsed_millis: u64) -> (r: Frame)
    ensures
        r@ == ack_view(frame@, service_id, elapsed_millis),
{
    let mut headers: Vec<Header> = frame.headers;
    headers.push(Header { key: "biz_rt".to_string(), value: dec_string(elapsed_millis) });
    assert(header_views(headers@) =~= ack_view(frame@, service_id, elapsed_millis).headers);
    let payload: Vec<u8> = vec![123, 34, 99, 111, 100, 101, 34, 58, 50, 48, 48, 125];
    assert(payload@ =~= ack_payload());
    Frame {
        seq_id: frame.seq_id,
        log_id: frame.log_id,
        service: if frame.service != 0 {
            frame.service
        } else {
            service_id
        },
        method: frame.method,
        headers,
        payload_encoding: None,
        payload_type: None,
        payload: Some(payload),
        log_id_new: None,
    }
}

// ---------- tokens ----------

/// Whether a token that expires at `expire_at` is still good at `now`.
pub fn token_usable(expire_at: u64, now: u64) -> (r: bool)
    ensures
        r == (expire_at > now + TOKEN_REFRESH_MARGIN_NANOS),
{
    expire_at as u128 > now as u128 + TOKEN_REFRESH_MARGIN_NANOS as u128
}

/// The request for a token.
pub fn token_request(cfg: &FeishuConfig) -> (r: (String, Json))
    ensures
        r.0@ == cfg.domain_text() + "/open-apis/auth/v3/tenant_access_token/internal"@,
        r.1@ == JsonView::obj().with("app_id"@, JsonView::Str(cfg.app_id@)).with(
            "app_secret"@,
            JsonView::Str(cfg.app_secret@),
        ),
{
    let mut url: String = cfg.effective_domain();
    url.append("/open-apis/auth/v3/tenant_access_token/internal");
    let body: Json = Json::obj().with("app_id", Json::text(cfg.app_id.as_str())).with(
        "app_secret",
        Json::text(cfg.app_secret.as_str()),
    );
    (url, body)
}

/// How long a token is good, in seconds: two hours where the reply gives no
/// positive number.
pub open spec fn token_lifetime(v: JsonView) -> u64 {
    match v.get_i64("expire"@) {
        Some(e) => if e > 0 {
            e as u64
        } else {
            7200
        },
        None => 7200,
    }
}

/// Reads the reply to a request for a token: the token and its lifetime in
/// seconds.
pub fn token_of_reply(v: &Json) -> (r: Result<(String, u64), String>)
    ensures
        match r {
            Ok(t) => {
                &&& reply_code(v@) == 0
                &&& text_or(v@.get_str("tenant_access_token"@)).len() > 0
                &&& t.0@ == text_or(v@.get_str("tenant_access_token"@))
                &&& t.1 == token_lifetime(v@)
            },
            Err(e) => if reply_code(v@) != 0 {
                e@ == reply_failure(v@, "ERROR: token 获取失败"@)
            } else {
                &&& text_or(v@.get_str("tenant_access_token"@)).len() == 0
                &&& e@ == "ERROR: token 响应缺少 tenant_access_token"@
            },
        },
{
    if reply_code_of(v) != 0 {
        return Err(reply_failure_of(v, "ERROR: token 获取失败"));
    }
    let token: String = owned_or(v.get_str("tenant_access_token"));
    if token.as_str().is_empty() {
        return Err("ERROR: token 响应缺少 tenant_access_token".to_string());
    }
    let secs: u64 = match v.get_i64("expire") {
        Some(e) => if e > 0 {
            e as u64
        } else {
            7200
        },
        None => 7200,
    };
    Ok((token, secs))
}

/// After the failed request number `i` (from zero): whether to wait a second
/// and ask again, or to give up.
pub fn token_retry(i: u32) -> (r: bool)
    ensures
        r == (i + 1 < TOKEN_RETRY),
{
    i < TOKEN_RETRY - 1
}

} // verus!
