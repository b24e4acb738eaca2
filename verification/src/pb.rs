//! The frame format of the Feishu long connection: a protobuf message with
//! integers (varints) and length-delimited fields. Unknown fields are skipped.

use vstd::arithmetic::power::{lemma_pow0, lemma_pow1, lemma_pow_increases, pow};
use vstd::prelude::*;
use vstd::slice::slice_subrange;
use vstd::utf8::encode_utf8;

use crate::text::{lemma_lossy_encoded, lossy, text_of_bytes};
use crate::types::opt_view;

verus! {

/// A name and its value.
#[derive(Debug, PartialEq, Eq)]
pub struct Header {
    pub key: String,
    pub value: String,
}

/// A frame. `method` is 0 for control frames and 1 for data frames.
#[derive(Debug, PartialEq, Eq)]
pub struct Frame {
    pub seq_id: u64,
    pub log_id: u64,
    pub service: i32,
    pub method: i32,
    pub headers: Vec<Header>,
    pub payload_encoding: Option<String>,
    pub payload_type: Option<String>,
    pub payload: Option<Vec<u8>>,
    pub log_id_new: Option<String>,
}

/// What a header holds.
pub struct HeaderView {
    pub key: Seq<char>,
    pub value: Seq<char>,
}

/// What a frame holds.
pub struct FrameView {
    pub seq_id: u64,
    pub log_id: u64,
    pub service: i32,
    pub method: i32,
    pub headers: Seq<HeaderView>,
    pub payload_encoding: Option<Seq<char>>,
    pub payload_type: Option<Seq<char>>,
    pub payload: Option<Seq<u8>>,
    pub log_id_new: Option<Seq<char>>,
}

impl View for Header {
    type V = HeaderView;

    open spec fn view(&self) -> HeaderView {
        HeaderView { key: self.key@, value: self.value@ }
    }
}

pub open spec fn header_views(v: Seq<Header>) -> Seq<HeaderView> {
    Seq::new(v.len(), |i: int| v[i]@)
}

pub open spec fn opt_bytes(p: Option<Vec<u8>>) -> Option<Seq<u8>> {
    match p {
        Some(v) => Some(v@),
        None => None,
    }
}

impl View for Frame {
    type V = FrameView;

    open spec fn view(&self) -> FrameView {
        FrameView {
            seq_id: self.seq_id,
            log_id: self.log_id,
            service: self.service,
            method: self.method,
            headers: header_views(self.headers@),
            payload_encoding: opt_view(self.payload_encoding),
            payload_type: opt_view(self.payload_type),
            payload: opt_bytes(self.payload),
            log_id_new: opt_view(self.log_id_new),
        }
    }
}

impl Clone for Header {
    fn clone(&self) -> (r: Self)
        ensures
            r == *self,
    {
        Header { key: self.key.clone(), value: self.value.clone() }
    }
}

pub open spec fn empty_header() -> HeaderView {
    HeaderView { key: Seq::empty(), value: Seq::empty() }
}

pub open spec fn empty_frame() -> FrameView {
    FrameView {
        seq_id: 0,
        log_id: 0,
        service: 0,
        method: 0,
        headers: Seq::empty(),
        payload_encoding: None,
        payload_type: None,
        payload: None,
        log_id_new: None,
    }
}

impl Default for Header {
    fn default() -> (r: Self)
        ensures
            r@ == empty_header(),
    {
        Header { key: String::new(), value: String::new() }
    }
}

impl Default for Frame {
    fn default() -> (r: Self)
        ensures
            r@ == empty_frame(),
    {
        let r: Frame = Frame {
            seq_id: 0,
            log_id: 0,
            service: 0,
            method: 0,
            headers: Vec::new(),
            payload_encoding: None,
            payload_type: None,
            payload: None,
            log_id_new: None,
        };
        assert(r@.headers =~= Seq::<HeaderView>::empty());
        r
    }
}

// ---------- varints ----------

/// One more than the largest 64-bit number.
pub open spec fn two64() -> nat {
    0x1_0000_0000_0000_0000
}

/// A number in groups of seven bits, the low ones first; every byte but the
/// last has its top bit set.
pub open spec fn varint(v: nat) -> Seq<u8>
    decreases v,
{
    if v < 128 {
        seq![v as u8]
    } else {
        seq![(v % 128 + 128) as u8] + varint(v / 128)
    }
}

/// Reads a varint of at most ten bytes, `k` of which have been read: its value
/// and the number of bytes.
pub open spec fn take_varint(s: Seq<u8>, k: nat) -> Option<(nat, int)>
    decreases s.len(),
{
    if s.len() == 0 {
        None
    } else if s[0] < 128 {
        Some((s[0] as nat, 1))
    } else if k + 1 >= 10 {
        None
    } else {
        match take_varint(s.skip(1), k + 1) {
            Some((v, n)) => Some(((s[0] - 128 + 128 * v) as nat, n + 1)),
            None => None,
        }
    }
}

/// Reads a 64-bit varint; bits above the 64th are lost.
pub open spec fn read_varint(s: Seq<u8>) -> Option<(u64, int)> {
    match take_varint(s, 0) {
        Some((v, n)) => Some(((v % two64()) as u64, n)),
        None => None,
    }
}

proof fn lemma_take_varint(s: Seq<u8>, k: nat)
    ensures
        take_varint(s, k) matches Some((v, n)) ==> 0 < n <= s.len(),
    decreases s.len(),
{
    if s.len() > 0 && s[0] >= 128 && k + 1 < 10 {
        lemma_take_varint(s.skip(1), k + 1);
    }
}

/// What follows a varint does not matter to its reading.
proof fn lemma_take_varint_prefix(s: Seq<u8>, rest: Seq<u8>, k: nat)
    requires
        take_varint(s, k) is Some,
    ensures
        take_varint(s + rest, k) == take_varint(s, k),
    decreases s.len(),
{
    let a = s + rest;
    assert(a[0] == s[0]);
    if s[0] >= 128 {
        assert(a.skip(1) =~= s.skip(1) + rest);
        lemma_take_varint_prefix(s.skip(1), rest, k + 1);
    }
}

proof fn lemma_varint_back(v: nat, rest: Seq<u8>, k: nat)
    requires
        k < 10,
        v < pow(128, (10 - k) as nat),
    ensures
        take_varint(varint(v) + rest, k) == Some((v, varint(v).len() as int)),
    decreases v,
{
    let a = varint(v) + rest;
    if v < 128 {
        assert(a[0] == v as u8);
    } else {
        assert(a[0] == (v % 128 + 128) as u8);
        assert(a.skip(1) =~= varint(v / 128) + rest);
        if k == 9 {
            lemma_pow1(128);
            assert(false);
        }
        assert(pow(128, (10 - k) as nat) == 128 * pow(128, (9 - k) as nat)) by {
            reveal(pow);
        }
        let q = pow(128, (9 - k) as nat);
        assert(v / 128 < q) by (nonlinear_arith)
            requires
                v < 128 * q,
                v >= 128,
        ;
        lemma_varint_back(v / 128, rest, k + 1);
        assert(v % 128 + 128 * (v / 128) == v);
    }
}

proof fn lemma_pow128_10()
    ensures
        pow(128, 10) == 0x40_0000_0000_0000_0000,
{
    reveal(pow);
    assert(pow(128, 10) == 0x40_0000_0000_0000_0000) by {
        assert(pow(128, 0) == 1);
        assert(pow(128, 1) == 128);
        assert(pow(128, 2) == 0x4000);
        assert(pow(128, 3) == 0x20_0000);
        assert(pow(128, 4) == 0x1000_0000);
        assert(pow(128, 5) == 0x8_0000_0000);
        assert(pow(128, 6) == 0x400_0000_0000);
        assert(pow(128, 7) == 0x2_0000_0000_0000);
        assert(pow(128, 8) == 0x100_0000_0000_0000);
        assert(pow(128, 9) == 0x8000_0000_0000_0000);
    }
}

/// A 64-bit number that was written is read back, whatever follows it.
pub proof fn law_varint_round_trip(v: u64, rest: Seq<u8>)
    ensures
        read_varint(varint(v as nat) + rest) == Some((v, varint(v as nat).len() as int)),
{
    lemma_pow128_10();
    lemma_varint_back(v as nat, rest, 0);
}

/// Appends a number as a varint.
pub fn put_varint(buf: &mut Vec<u8>, v: u64)
    ensures
        final(buf)@ == old(buf)@ + varint(v as nat),
{
    let ghost start = buf@;
    let mut n: u64 = v;
    assert(start + varint(v as nat) =~= buf@ + varint(n as nat));
    while n >= 128
        invariant
            start + varint(v as nat) == buf@ + varint(n as nat),
        decreases n,
    {
        let b: u8 = (n % 128) as u8 + 128;
        let ghost before = buf@;
        buf.push(b);
        assert(before + (seq![b] + varint(n as nat / 128)) =~= buf@ + varint(n as nat / 128));
        n = n / 128;
    }
    let ghost before = buf@;
    buf.push(n as u8);
    assert(buf@ =~= before + seq![n as u8]);
}

/// The bytes from a position on; none behind the end.
pub open spec fn rest_at(s: Seq<u8>, pos: int) -> Seq<u8> {
    if pos <= s.len() {
        s.skip(pos)
    } else {
        Seq::empty()
    }
}

/// Reads a varint at `pos` and moves `pos` behind it.
pub fn get_varint(buf: &[u8], pos: &mut usize) -> (r: Option<u64>)
    ensures
        match r {
            Some(v) => {
                &&& read_varint(rest_at(buf@, *old(pos) as int)) == Some((v, *final(pos) - *old(pos)))
                &&& *final(pos) <= buf.len()
            },
            None => read_varint(rest_at(buf@, *old(pos) as int)) is None,
        },
        *old(pos) <= *final(pos),
        *old(pos) > buf.len() ==> *final(pos) == *old(pos),
{
    if *pos > buf.len() {
        return None;
    }
    let start: usize = *pos;
    let mut p: usize = start;
    let mut acc: u128 = 0;
    let mut scale: u128 = 1;
    let mut k: u32 = 0;
    let ghost all = buf@.skip(start as int);
    proof {
        lemma_pow0(128);
        lemma_pow128_10();
    }
    loop
        invariant
            start <= p <= buf.len(),
            *old(pos) == start,
            all == buf@.skip(start as int),
            k < 10,
            scale == pow(128, k as nat),
            acc < scale,
            pow(128, 10) == 0x40_0000_0000_0000_0000,
            match take_varint(buf@.skip(p as int), k as nat) {
                Some((v, n)) => take_varint(all, 0) == Some(
                    ((acc + scale * v) as nat, p - start + n),
                ),
                None => take_varint(all, 0) is None,
            },
        decreases buf.len() - p,
    {
        let ghost here = buf@.skip(p as int);
        if p >= buf.len() {
            *pos = p;
            return None;
        }
        let b: u8 = buf[p];
        assert(here[0] == b);
        assert(here.skip(1) =~= buf@.skip(p as int + 1));
        p += 1;
        let d: u128 = (b % 128) as u128;
        proof {
            lemma_pow_increases(128, k as nat, 9);
            assert(pow(128, 10) == 128 * pow(128, 9)) by {
                reveal(pow);
            }
            assert(pow(128, (k + 1) as nat) == 128 * pow(128, k as nat)) by {
                reveal(pow);
            }
            assert(d * scale <= 127 * scale) by (nonlinear_arith)
                requires
                    d <= 127,
            ;
        }
        let ghost old_acc = acc;
        acc = acc + d * scale;
        if b < 128 {
            proof {
                assert(scale * (b as nat) == d * scale) by (nonlinear_arith)
                    requires
                        d == b,
                ;
            }
            *pos = p;
            return Some((acc % 0x1_0000_0000_0000_0000) as u64);
        }
        k += 1;
        if k >= 10 {
            *pos = p;
            return None;
        }
        proof {
            match take_varint(here.skip(1), k as nat) {
                Some((v, n)) => {
                    assert(old_acc + scale * (d + 128 * v) == (old_acc + d * scale) + (scale * 128) * v)
                        by (nonlinear_arith);
                },
                None => {},
            }
        }
        scale = scale * 128;
    }
}

// ---------- fields ----------

/// The tag of a field.
pub open spec fn tag(field: nat, wire: nat) -> Seq<u8> {
    varint(field * 8 + wire)
}

/// A field that carries its length.
pub open spec fn len_delim(field: nat, data: Seq<u8>) -> Seq<u8> {
    tag(field, 2) + varint(data.len()) + data
}

/// An integer field; zero is left out.
pub open spec fn int_field(field: nat, v: nat) -> Seq<u8> {
    if v == 0 {
        Seq::empty()
    } else {
        tag(field, 0) + varint(v)
    }
}

/// A text field; nothing is left out.
pub open spec fn text_field(field: nat, s: Option<Seq<char>>) -> Seq<u8> {
    match s {
        Some(t) => len_delim(field, encode_utf8(t)),
        None => Seq::empty(),
    }
}

pub open spec fn bytes_field(field: nat, s: Option<Seq<u8>>) -> Seq<u8> {
    match s {
        Some(t) => len_delim(field, t),
        None => Seq::empty(),
    }
}

/// A 32-bit integer as the unsigned 64-bit number of the same sign extension.
pub open spec fn wide(v: i32) -> nat {
    if v >= 0 {
        v as nat
    } else {
        (two64() + v) as nat
    }
}

/// The 32-bit integer in the low half of a number.
pub open spec fn narrow(v: u64) -> i32 {
    let m = v as int % 0x1_0000_0000;
    if m < 0x8000_0000 {
        m as i32
    } else {
        (m - 0x1_0000_0000) as i32
    }
}

pub open spec fn header_bytes(h: HeaderView) -> Seq<u8> {
    len_delim(1, encode_utf8(h.key)) + len_delim(2, encode_utf8(h.value))
}

/// The header fields of a frame, in order.
pub open spec fn headers_bytes(hs: Seq<HeaderView>) -> Seq<u8>
    decreases hs.len(),
{
    if hs.len() == 0 {
        Seq::empty()
    } else {
        headers_bytes(hs.drop_last()) + len_delim(5, header_bytes(hs.last()))
    }
}

/// The bytes of a frame.
pub open spec fn frame_bytes(f: FrameView) -> Seq<u8> {
    int_field(1, f.seq_id as nat) + int_field(2, f.log_id as nat) + int_field(3, wide(f.service)) + int_field(
        4,
        wide(f.method),
    ) + headers_bytes(f.headers) + text_field(6, f.payload_encoding) + text_field(7, f.payload_type)
        + bytes_field(8, f.payload) + text_field(9, f.log_id_new)
}

/// Reads a length and the bytes it announces: where they start and end.
pub open spec fn read_delim(s: Seq<u8>) -> Option<(int, int)> {
    match read_varint(s) {
        Some((v, n)) => if n + (v as usize) <= s.len() {
            Some((n, n + (v as usize)))
        } else {
            None
        },
        None => None,
    }
}

/// The length of a field's content that is skipped by its wire type.
pub open spec fn skip_len(s: Seq<u8>, wire: u64) -> Option<int> {
    if wire == 0 {
        match read_varint(s) {
            Some((v, n)) => Some(n),
            None => None,
        }
    } else if wire == 1 {
        if s.len() >= 8 {
            Some(8)
        } else {
            None
        }
    } else if wire == 2 {
        match read_delim(s) {
            Some((a, b)) => Some(b),
            None => None,
        }
    } else if wire == 5 {
        if s.len() >= 4 {
            Some(4)
        } else {
            None
        }
    } else {
        None
    }
}

/// Reads one field of a header: the header then, and the length of the field.
pub open spec fn header_step(s: Seq<u8>, h: HeaderView) -> Option<(HeaderView, int)> {
    match read_varint(s) {
        None => None,
        Some((t, n)) => {
            let field = t / 8;
            let wire = t % 8;
            let c = s.skip(n);
            if wire == 2 && (field == 1 || field == 2) {
                match read_delim(c) {
                    None => None,
                    Some((a, b)) => {
                        let text = lossy(c.subrange(a, b));
                        if field == 1 {
                            Some((HeaderView { key: text, ..h }, n + b))
                        } else {
                            Some((HeaderView { value: text, ..h }, n + b))
                        }
                    },
                }
            } else {
                match skip_len(c, wire) {
                    None => None,
                    Some(m) => Some((h, n + m)),
                }
            }
        },
    }
}

/// Reads the fields of a header into `h`.
pub open spec fn read_header(s: Seq<u8>, h: HeaderView) -> Option<HeaderView>
    decreases s.len(),
{
    if s.len() == 0 {
        Some(h)
    } else {
        match header_step(s, h) {
            Some((g, n)) => if 0 < n <= s.len() {
                read_header(s.skip(n), g)
            } else {
                None
            },
            None => None,
        }
    }
}

pub open spec fn set_int(f: FrameView, field: u64, v: u64) -> FrameView {
    if field == 1 {
        FrameView { seq_id: v, ..f }
    } else if field == 2 {
        FrameView { log_id: v, ..f }
    } else if field == 3 {
        FrameView { service: narrow(v), ..f }
    } else {
        FrameView { method: narrow(v), ..f }
    }
}

pub open spec fn set_bytes(f: FrameView, field: u64, data: Seq<u8>) -> Option<FrameView> {
    if field == 5 {
        match read_header(data, empty_header()) {
            Some(h) => Some(FrameView { headers: f.headers.push(h), ..f }),
            None => None,
        }
    } else if field == 6 {
        Some(FrameView { payload_encoding: Some(lossy(data)), ..f })
    } else if field == 7 {
        Some(FrameView { payload_type: Some(lossy(data)), ..f })
    } else if field == 8 {
        Some(FrameView { payload: Some(data), ..f })
    } else {
        Some(FrameView { log_id_new: Some(lossy(data)), ..f })
    }
}

/// Reads one field of a frame: the frame then, and the length of the field.
pub open spec fn frame_step(s: Seq<u8>, f: FrameView) -> Option<(FrameView, int)> {
    match read_varint(s) {
        None => None,
        Some((t, n)) => {
            let field = t / 8;
            let wire = t % 8;
            let c = s.skip(n);
            if wire == 0 && 1 <= field <= 4 {
                match read_varint(c) {
                    None => None,
                    Some((v, m)) => Some((set_int(f, field, v), n + m)),
                }
            } else if wire == 2 && 5 <= field <= 9 {
                match read_delim(c) {
                    None => None,
                    Some((a, b)) => match set_bytes(f, field, c.subrange(a, b)) {
                        Some(g) => Some((g, n + b)),
                        None => None,
                    },
                }
            } else {
                match skip_len(c, wire) {
                    None => None,
                    Some(m) => Some((f, n + m)),
                }
            }
        },
    }
}

/// Reads the fields of a frame into `f`.
#[verifier::opaque]
pub open spec fn read_fields(s: Seq<u8>, f: FrameView) -> Option<FrameView>
    decreases s.len(),
{
    if s.len() == 0 {
        Some(f)
    } else {
        match frame_step(s, f) {
            Some((g, n)) => if 0 < n <= s.len() {
                read_fields(s.skip(n), g)
            } else {
                None
            },
            None => None,
        }
    }
}

/// The frame that bytes stand for, if they are sound.
pub open spec fn frame_of(s: Seq<u8>) -> Option<FrameView> {
    read_fields(s, empty_frame())
}

// ---------- encoding ----------

/// Appends the tag of a field.
pub fn put_tag(buf: &mut Vec<u8>, field: u32, wire: u32)
    ensures
        final(buf)@ == old(buf)@ + tag(field as nat, wire as nat),
{
    put_varint(buf, field as u64 * 8 + wire as u64);
}

fn push_all(buf: &mut Vec<u8>, data: &[u8])
    ensures
        final(buf)@ == old(buf)@ + data@,
{
    let ghost start = buf@;
    let mut i: usize = 0;
    assert(start + data@.take(0) =~= start);
    while i < data.len()
        invariant
            i <= data.len(),
            buf@ == start + data@.take(i as int),
        decreases data.len() - i,
    {
        buf.push(data[i]);
        i += 1;
        assert(buf@ =~= start + data@.take(i as int));
    }
    assert(data@.take(i as int) =~= data@);
}

/// Appends a field that carries its length.
pub fn put_len_delim(buf: &mut Vec<u8>, field: u32, data: &[u8])
    ensures
        final(buf)@ == old(buf)@ + len_delim(field as nat, data@),
{
    let ghost start = buf@;
    put_tag(buf, field, 2);
    put_varint(buf, data.len() as u64);
    push_all(buf, data);
    assert(buf@ =~= start + len_delim(field as nat, data@));
}

/// The bytes of a header.
pub fn encode_header(h: &Header) -> (r: Vec<u8>)
    ensures
        r@ == header_bytes(h@),
{
    let mut buf: Vec<u8> = Vec::new();
    put_len_delim(&mut buf, 1, h.key.as_str().as_bytes());
    put_len_delim(&mut buf, 2, h.value.as_str().as_bytes());
    assert(buf@ =~= header_bytes(h@));
    buf
}

fn put_int_field(buf: &mut Vec<u8>, field: u32, v: u64)
    ensures
        final(buf)@ == old(buf)@ + int_field(field as nat, v as nat),
{
    let ghost start = buf@;
    if v != 0 {
        put_tag(buf, field, 0);
        put_varint(buf, v);
    }
    assert(buf@ =~= start + int_field(field as nat, v as nat));
}

fn put_text_field(buf: &mut Vec<u8>, field: u32, s: &Option<String>)
    ensures
        final(buf)@ == old(buf)@ + text_field(field as nat, opt_view(*s)),
{
    let ghost start = buf@;
    if let Some(t) = s {
        put_len_delim(buf, field, t.as_str().as_bytes());
    }
    assert(buf@ =~= start + text_field(field as nat, opt_view(*s)));
}

fn widen(v: i32) -> (r: u64)
    ensures
        r == wide(v),
{
    if v >= 0 {
        v as u64
    } else {
        (0x1_0000_0000_0000_0000i128 + v as i128) as u64
    }
}

fn narrowed(v: u64) -> (r: i32)
    ensures
        r == narrow(v),
{
    let m: i64 = (v % 0x1_0000_0000) as i64;
    if m < 0x8000_0000 {
        m as i32
    } else {
        (m - 0x1_0000_0000) as i32
    }
}

/// Encodes a frame; integers that are zero are left out.
pub fn encode_frame(f: &Frame) -> (r: Vec<u8>)
    ensures
        r@ == frame_bytes(f@),
{
    let mut buf: Vec<u8> = Vec::new();
    put_int_field(&mut buf, 1, f.seq_id);
    put_int_field(&mut buf, 2, f.log_id);
    put_int_field(&mut buf, 3, widen(f.service));
    put_int_field(&mut buf, 4, widen(f.method));
    let ghost ints = buf@;
    assert(ints =~= int_field(1, f@.seq_id as nat) + int_field(2, f@.log_id as nat) + int_field(
        3,
        wide(f@.service),
    ) + int_field(4, wide(f@.method)));
    let ghost hs = f@.headers;
    let mut i: usize = 0;
    assert(ints + headers_bytes(hs.take(0)) =~= ints);
    while i < f.headers.len()
        invariant
            i <= f.headers.len(),
            hs == header_views(f.headers@),
            buf@ == ints + headers_bytes(hs.take(i as int)),
        decreases f.headers.len() - i,
    {
        proof {
            assert(hs.take(i as int + 1).drop_last() =~= hs.take(i as int));
            assert(hs.take(i as int + 1).last() == f.headers@[i as int]@);
        }
        let h: Vec<u8> = encode_header(&f.headers[i]);
        put_len_delim(&mut buf, 5, h.as_slice());
        i += 1;
        assert(buf@ =~= ints + headers_bytes(hs.take(i as int)));
    }
    assert(hs.take(i as int) =~= hs);
    put_text_field(&mut buf, 6, &f.payload_encoding);
    put_text_field(&mut buf, 7, &f.payload_type);
    let ghost before = buf@;
    if let Some(p) = &f.payload {
        put_len_delim(&mut buf, 8, p.as_slice());
    }
    assert(buf@ =~= before + bytes_field(8, f@.payload));
    put_text_field(&mut buf, 9, &f.log_id_new);
    buf
}

// ---------- decoding ----------

proof fn lemma_read_varint(s: Seq<u8>)
    ensures
        read_varint(s) matches Some((v, n)) ==> 0 < n <= s.len(),
{
    lemma_take_varint(s, 0);
}

/// Skips a field's content by its wire type.
pub fn skip_field(buf: &[u8], pos: &mut usize, wire: u64) -> (r: Option<()>)
    ensures
        match r {
            Some(_) => *old(pos) <= *final(pos) <= buf.len() && skip_len(rest_at(buf@, *old(pos) as int), wire)
                == Some(*final(pos) - *old(pos)),
            None => skip_len(rest_at(buf@, *old(pos) as int), wire) is None,
        },
{
    if *pos > buf.len() {
        return None;
    }
    match wire {
        0 => match get_varint(buf, pos) {
            Some(_) => Some(()),
            None => None,
        },
        1 => if buf.len() - *pos >= 8 {
            *pos += 8;
            Some(())
        } else {
            None
        },
        2 => match get_len_delim(buf, pos) {
            Some(_) => Some(()),
            None => None,
        },
        5 => if buf.len() - *pos >= 4 {
            *pos += 4;
            Some(())
        } else {
            None
        },
        _ => None,
    }
}

/// Reads a length and the bytes it announces.
pub fn get_len_delim<'a>(buf: &'a [u8], pos: &mut usize) -> (r: Option<&'a [u8]>)
    ensures
        match r {
            Some(out) => {
                &&& *old(pos) <= *final(pos) <= buf.len()
                &&& read_delim(rest_at(buf@, *old(pos) as int)) matches Some((a, b))
                &&& b == *final(pos) - *old(pos)
                &&& out@ == rest_at(buf@, *old(pos) as int).subrange(a, b)
            },
            None => read_delim(rest_at(buf@, *old(pos) as int)) is None,
        },
{
    let start: usize = *pos;
    let ghost s = rest_at(buf@, start as int);
    match get_varint(buf, pos) {
        Some(v) => {
            let len: usize = v as usize;
            if len > buf.len() - *pos {
                return None;
            }
            let end: usize = *pos + len;
            let out: &[u8] = slice_subrange(buf, *pos, end);
            assert(out@ =~= s.subrange(*pos - start, end - start));
            *pos = end;
            Some(out)
        },
        None => None,
    }
}

/// Decodes a header.
pub fn decode_header(buf: &[u8]) -> (r: Option<Header>)
    ensures
        match r {
            Some(h) => read_header(buf@, empty_header()) == Some(h@),
            None => read_header(buf@, empty_header()) is None,
        },
{
    let mut h: Header = Header { key: String::new(), value: String::new() };
    let mut pos: usize = 0;
    assert(buf@.skip(0) =~= buf@);
    while pos < buf.len()
        invariant
            pos <= buf.len(),
            read_header(buf@, empty_header()) == read_header(buf@.skip(pos as int), h@),
        decreases buf.len() - pos,
    {
        let start: usize = pos;
        let ghost s = buf@.skip(start as int);
        proof {
            lemma_read_varint(s);
        }
        let t: u64 = match get_varint(buf, &mut pos) {
            Some(t) => t,
            None => {
                return None;
            },
        };
        assert(s.skip(pos - start) =~= buf@.skip(pos as int));
        let field: u64 = t / 8;
        let wire: u64 = t % 8;
        if wire == 2 && (field == 1 || field == 2) {
            match get_len_delim(buf, &mut pos) {
                Some(b) => {
                    if field == 1 {
                        h.key = text_of_bytes(b);
                    } else {
                        h.value = text_of_bytes(b);
                    }
                },
                None => {
                    return None;
                },
            }
        } else {
            match skip_field(buf, &mut pos, wire) {
                Some(_) => {},
                None => {
                    return None;
                },
            }
        }
        assert(s.skip(pos - start) =~= buf@.skip(pos as int));
    }
    Some(h)
}

fn to_bytes(data: &[u8]) -> (r: Vec<u8>)
    ensures
        r@ == data@,
{
    let mut v: Vec<u8> = Vec::new();
    push_all(&mut v, data);
    assert(v@ =~= data@);
    v
}

/// Decodes a frame: `None` where the bytes are damaged. Unknown fields are
/// skipped.
#[verifier::rlimit(40)]
pub fn decode_frame(buf: &[u8]) -> (r: Option<Frame>)
    ensures
        match r {
            Some(f) => frame_of(buf@) == Some(f@),
            None => frame_of(buf@) is None,
        },
{
    let mut f: Frame = Frame::default();
    let mut pos: usize = 0;
    assert(buf@.skip(0) =~= buf@);
    while pos < buf.len()
        invariant
            pos <= buf.len(),
            frame_of(buf@) == read_fields(buf@.skip(pos as int), f@),
        decreases buf.len() - pos,
    {
        let start: usize = pos;
        let ghost s = buf@.skip(start as int);
        let ghost g = f@;
        proof {
            reveal(read_fields);
            lemma_read_varint(s);
        }
        let t: u64 = match get_varint(buf, &mut pos) {
            Some(t) => t,
            None => {
                return None;
            },
        };
        let ghost c = buf@.skip(pos as int);
        assert(s.skip(pos - start) =~= c);
        let field: u64 = t / 8;
        let wire: u64 = t % 8;
        if wire == 0 && 1 <= field && field <= 4 {
            match get_varint(buf, &mut pos) {
                Some(v) => {
                    if field == 1 {
                        f.seq_id = v;
                    } else if field == 2 {
                        f.log_id = v;
                    } else if field == 3 {
                        f.service = narrowed(v);
                    } else {
                        f.method = narrowed(v);
                    }
                    assert(f@ == set_int(g, field, v));
                },
                None => {
                    return None;
                },
            }
        } else if wire == 2 && 5 <= field && field <= 9 {
            match get_len_delim(buf, &mut pos) {
                Some(b) => {
                    if field == 5 {
                        match decode_header(b) {
                            Some(h) => {
                                f.headers.push(h);
                                assert(f@.headers =~= g.headers.push(h@));
                            },
                            None => {
                                return None;
                            },
                        }
                    } else if field == 6 {
                        f.payload_encoding = Some(text_of_bytes(b));
                    } else if field == 7 {
                        f.payload_type = Some(text_of_bytes(b));
                    } else if field == 8 {
                        f.payload = Some(to_bytes(b));
                    } else {
                        f.log_id_new = Some(text_of_bytes(b));
                    }
                    assert(set_bytes(g, field, b@) == Some(f@));
                },
                None => {
                    return None;
                },
            }
        } else {
            match skip_field(buf, &mut pos, wire) {
                Some(_) => {},
                None => {
                    return None;
                },
            }
        }
        assert(s.skip(pos - start) =~= buf@.skip(pos as int));
    }
    proof {
        reveal(read_fields);
    }
    Some(f)
}

// ---------- laws ----------

proof fn lemma_delim_back(data: Seq<u8>, rest: Seq<u8>)
    requires
        data.len() <= usize::MAX,
    ensures
        ({
            let c = varint(data.len()) + data + rest;
            let n = varint(data.len()).len() as int;
            &&& read_delim(c) == Some((n, n + data.len()))
            &&& c.subrange(n, n + data.len()) == data
        }),
{
    let c = varint(data.len()) + data + rest;
    let n = varint(data.len()).len() as int;
    assert(c =~= varint(data.len()) + (data + rest));
    law_varint_round_trip(data.len() as u64, data + rest);
    assert(c.subrange(n, n + data.len()) =~= data);
}

/// The tag in front of a field is read back.
proof fn lemma_tag_back(field: nat, wire: nat, body: Seq<u8>)
    requires
        field <= 9,
        wire < 8,
    ensures
        read_varint(tag(field, wire) + body) == Some(
            ((field * 8 + wire) as u64, tag(field, wire).len() as int),
        ),
        (tag(field, wire) + body).skip(tag(field, wire).len() as int) == body,
        tag(field, wire).len() > 0,
{
    law_varint_round_trip((field * 8 + wire) as u64, body);
    lemma_take_varint(tag(field, wire) + body, 0);
    assert((tag(field, wire) + body).skip(tag(field, wire).len() as int) =~= body);
}

proof fn lemma_int_field_back(field: nat, v: u64, rest: Seq<u8>, f: FrameView)
    requires
        1 <= field <= 4,
    ensures
        read_fields(int_field(field, v as nat) + rest, f) == read_fields(
            rest,
            if v == 0 {
                f
            } else {
                set_int(f, field as u64, v)
            },
        ),
{
    let b = int_field(field, v as nat);
    let s = b + rest;
    if v == 0 {
        assert(s =~= rest);
    } else {
        let body = varint(v as nat) + rest;
        assert(s =~= tag(field, 0) + body);
        lemma_tag_back(field, 0, body);
        law_varint_round_trip(v, rest);
        assert(s.skip(b.len() as int) =~= rest);
        reveal(read_fields);
        assert(frame_step(s, f) == Some((set_int(f, field as u64, v), b.len() as int)));
    }
}

proof fn lemma_delim_field_back(field: nat, data: Seq<u8>, rest: Seq<u8>, f: FrameView)
    requires
        5 <= field <= 9,
        data.len() <= usize::MAX,
        set_bytes(f, field as u64, data) is Some,
    ensures
        read_fields(len_delim(field, data) + rest, f) == read_fields(
            rest,
            set_bytes(f, field as u64, data)->Some_0,
        ),
{
    let b = len_delim(field, data);
    let s = b + rest;
    let body = varint(data.len()) + data + rest;
    assert(s =~= tag(field, 2) + body);
    lemma_tag_back(field, 2, body);
    lemma_delim_back(data, rest);
    assert(s.skip(b.len() as int) =~= rest);
    reveal(read_fields);
    assert(frame_step(s, f) == Some((set_bytes(f, field as u64, data)->Some_0, b.len() as int)));
}

proof fn lemma_header_field_back(field: nat, text: Seq<char>, rest: Seq<u8>, h: HeaderView)
    requires
        field == 1 || field == 2,
        encode_utf8(text).len() <= usize::MAX,
    ensures
        read_header(len_delim(field, encode_utf8(text)) + rest, h) == read_header(
            rest,
            if field == 1 {
                HeaderView { key: text, ..h }
            } else {
                HeaderView { value: text, ..h }
            },
        ),
{
    let data = encode_utf8(text);
    let b = len_delim(field, data);
    let s = b + rest;
    let body = varint(data.len()) + data + rest;
    assert(s =~= tag(field, 2) + body);
    lemma_tag_back(field, 2, body);
    lemma_delim_back(data, rest);
    lemma_lossy_encoded(text);
    assert(s.skip(b.len() as int) =~= rest);
}

/// A header that was encoded is read back.
proof fn lemma_header_back(h: HeaderView)
    requires
        header_bytes(h).len() <= usize::MAX,
    ensures
        read_header(header_bytes(h), empty_header()) == Some(h),
{
    let value_field = len_delim(2, encode_utf8(h.value));
    let none = Seq::<u8>::empty();
    lemma_header_field_back(1, h.key, value_field, empty_header());
    let h1 = HeaderView { key: h.key, ..empty_header() };
    assert(value_field + none =~= value_field);
    lemma_header_field_back(2, h.value, none, h1);
}

proof fn lemma_headers_back(hs: Seq<HeaderView>, rest: Seq<u8>, f: FrameView)
    requires
        headers_bytes(hs).len() <= usize::MAX,
    ensures
        read_fields(headers_bytes(hs) + rest, f) == read_fields(
            rest,
            FrameView { headers: f.headers + hs, ..f },
        ),
    decreases hs.len(),
{
    if hs.len() == 0 {
        assert(headers_bytes(hs) + rest =~= rest);
        assert(f.headers + hs =~= f.headers);
    } else {
        let prev = hs.drop_last();
        let h = hs.last();
        let b = len_delim(5, header_bytes(h));
        assert(headers_bytes(hs) + rest =~= headers_bytes(prev) + (b + rest));
        lemma_headers_back(prev, b + rest, f);
        let g = FrameView { headers: f.headers + prev, ..f };
        lemma_header_back(h);
        lemma_delim_field_back(5, header_bytes(h), rest, g);
        assert((f.headers + prev).push(h) =~= f.headers + hs);
    }
}

proof fn lemma_text_field_back(field: nat, t: Option<Seq<char>>, rest: Seq<u8>, f: FrameView)
    requires
        field == 6 || field == 7 || field == 9,
        text_field(field, t).len() <= usize::MAX,
    ensures
        read_fields(text_field(field, t) + rest, f) == read_fields(
            rest,
            match t {
                Some(x) => if field == 6 {
                    FrameView { payload_encoding: t, ..f }
                } else if field == 7 {
                    FrameView { payload_type: t, ..f }
                } else {
                    FrameView { log_id_new: t, ..f }
                },
                None => f,
            },
        ),
{
    match t {
        Some(x) => {
            lemma_lossy_encoded(x);
            lemma_delim_field_back(field, encode_utf8(x), rest, f);
        },
        None => {
            assert(text_field(field, t) + rest =~= rest);
        },
    }
}

proof fn lemma_narrow_wide(v: i32)
    ensures
        wide(v) < two64(),
        narrow(wide(v) as u64) == v,
        (wide(v) == 0) == (v == 0),
{
}

proof fn lemma_read_nothing(f: FrameView)
    ensures
        read_fields(Seq::empty(), f) == Some(f),
{
    reveal(read_fields);
}

proof fn lemma_one_step(s: Seq<u8>, f: FrameView)
    requires
        s.len() > 0,
        frame_step(s, f) matches Some((g, n)) && n == s.len(),
    ensures
        read_fields(s, f) == read_fields(Seq::empty(), frame_step(s, f)->Some_0.0),
{
    reveal(read_fields);
    assert(s.skip(s.len() as int) =~= Seq::<u8>::empty());
}

/// Nine parts in a row, grouped from the right.
proof fn lemma_nine_parts(
    b1: Seq<u8>,
    b2: Seq<u8>,
    b3: Seq<u8>,
    b4: Seq<u8>,
    b5: Seq<u8>,
    b6: Seq<u8>,
    b7: Seq<u8>,
    b8: Seq<u8>,
    b9: Seq<u8>,
)
    ensures
        b1 + b2 + b3 + b4 + b5 + b6 + b7 + b8 + b9 == b1 + (b2 + (b3 + (b4 + (b5 + (b6 + (b7 + (b8 + (b9
            + Seq::empty())))))))),
        (b1 + b2 + b3 + b4 + b5 + b6 + b7 + b8 + b9).len() == b1.len() + b2.len() + b3.len() + b4.len()
            + b5.len() + b6.len() + b7.len() + b8.len() + b9.len(),
{
    assert(b1 + b2 + b3 + b4 + b5 + b6 + b7 + b8 + b9 =~= b1 + (b2 + (b3 + (b4 + (b5 + (b6 + (b7 + (b8 + (
    b9 + Seq::empty())))))))));
}

/// A frame that was encoded is decoded to itself. Its bytes must fit in
/// memory.
pub proof fn law_frame_round_trip(f: FrameView)
    requires
        frame_bytes(f).len() <= usize::MAX,
    ensures
        frame_of(frame_bytes(f)) == Some(f),
{
    let b1 = int_field(1, f.seq_id as nat);
    let b2 = int_field(2, f.log_id as nat);
    let b3 = int_field(3, wide(f.service));
    let b4 = int_field(4, wide(f.method));
    let b5 = headers_bytes(f.headers);
    let b6 = text_field(6, f.payload_encoding);
    let b7 = text_field(7, f.payload_type);
    let b8 = bytes_field(8, f.payload);
    let b9 = text_field(9, f.log_id_new);
    let none = Seq::<u8>::empty();
    let r8 = b9 + none;
    let r7 = b8 + r8;
    let r6 = b7 + r7;
    let r5 = b6 + r6;
    let r4 = b5 + r5;
    let r3 = b4 + r4;
    let r2 = b3 + r3;
    let r1 = b2 + r2;
    lemma_nine_parts(b1, b2, b3, b4, b5, b6, b7, b8, b9);
    assert(frame_bytes(f) == b1 + r1);
    lemma_round_trip_parts(f, r1, r2, r3, r4, r5, r6, r7, r8);
}

/// The fields of a frame, read one after another.
proof fn lemma_round_trip_parts(
    f: FrameView,
    r1: Seq<u8>,
    r2: Seq<u8>,
    r3: Seq<u8>,
    r4: Seq<u8>,
    r5: Seq<u8>,
    r6: Seq<u8>,
    r7: Seq<u8>,
    r8: Seq<u8>,
)
    requires
        headers_bytes(f.headers).len() <= usize::MAX,
        text_field(6, f.payload_encoding).len() <= usize::MAX,
        text_field(7, f.payload_type).len() <= usize::MAX,
        bytes_field(8, f.payload).len() <= usize::MAX,
        text_field(9, f.log_id_new).len() <= usize::MAX,
        r1 == int_field(2, f.log_id as nat) + r2,
        r2 == int_field(3, wide(f.service)) + r3,
        r3 == int_field(4, wide(f.method)) + r4,
        r4 == headers_bytes(f.headers) + r5,
        r5 == text_field(6, f.payload_encoding) + r6,
        r6 == text_field(7, f.payload_type) + r7,
        r7 == bytes_field(8, f.payload) + r8,
        r8 == text_field(9, f.log_id_new) + Seq::empty(),
    ensures
        read_fields(int_field(1, f.seq_id as nat) + r1, empty_frame()) == Some(f),
{
    let none = Seq::<u8>::empty();
    let e = empty_frame();
    lemma_narrow_wide(f.service);
    lemma_narrow_wide(f.method);
    lemma_int_field_back(1, f.seq_id, r1, e);
    let f1 = FrameView { seq_id: f.seq_id, ..e };
    lemma_int_field_back(2, f.log_id, r2, f1);
    let f2 = FrameView { log_id: f.log_id, ..f1 };
    lemma_int_field_back(3, wide(f.service) as u64, r3, f2);
    let f3 = FrameView { service: f.service, ..f2 };
    lemma_int_field_back(4, wide(f.method) as u64, r4, f3);
    let f4 = FrameView { method: f.method, ..f3 };
    lemma_headers_back(f.headers, r5, f4);
    assert(f4.headers + f.headers =~= f.headers);
    let f5 = FrameView { headers: f.headers, ..f4 };
    lemma_text_field_back(6, f.payload_encoding, r6, f5);
    let f6 = FrameView { payload_encoding: f.payload_encoding, ..f5 };
    lemma_text_field_back(7, f.payload_type, r7, f6);
    let f7 = FrameView { payload_type: f.payload_type, ..f6 };
    match f.payload {
        Some(p) => {
            lemma_delim_field_back(8, p, r8, f7);
        },
        None => {
            assert(bytes_field(8, f.payload) + r8 =~= r8);
        },
    }
    let f8 = FrameView { payload: f.payload, ..f7 };
    lemma_text_field_back(9, f.log_id_new, none, f8);
    lemma_read_nothing(f);
}

proof fn lemma_read_varint_prefix(s: Seq<u8>, u: Seq<u8>)
    requires
        read_varint(s) is Some,
    ensures
        read_varint(s + u) == read_varint(s),
{
    lemma_take_varint_prefix(s, u, 0);
}

proof fn lemma_read_delim_prefix(s: Seq<u8>, u: Seq<u8>)
    requires
        read_delim(s) is Some,
    ensures
        read_delim(s + u) == read_delim(s),
        read_delim(s) matches Some((a, b)) ==> 0 < a <= b <= s.len() && (s + u).subrange(a, b) == s.subrange(
            a,
            b,
        ),
{
    lemma_read_varint_prefix(s, u);
    lemma_read_varint(s);
    let (a, b) = read_delim(s)->Some_0;
    assert((s + u).subrange(a, b) =~= s.subrange(a, b));
}

/// What follows a field does not matter to its reading.
proof fn lemma_frame_step_prefix(s: Seq<u8>, u: Seq<u8>, f: FrameView)
    requires
        frame_step(s, f) is Some,
    ensures
        frame_step(s + u, f) == frame_step(s, f),
        frame_step(s, f) matches Some((g, n)) ==> 0 < n <= s.len(),
{
    lemma_read_varint_prefix(s, u);
    lemma_read_varint(s);
    let (t, n) = read_varint(s)->Some_0;
    let c = s.skip(n);
    assert((s + u).skip(n) =~= c + u);
    let field = t / 8;
    let wire = t % 8;
    if wire == 0 && 1 <= field <= 4 {
        lemma_read_varint_prefix(c, u);
        lemma_read_varint(c);
    } else if wire == 2 && 5 <= field <= 9 {
        lemma_read_delim_prefix(c, u);
    } else if wire == 0 {
        lemma_read_varint_prefix(c, u);
        lemma_read_varint(c);
    } else if wire == 2 {
        lemma_read_delim_prefix(c, u);
    }
}

/// Bytes that are sound are read first, and what follows is read into the
/// frame that they gave.
pub proof fn law_frames_concatenate(s: Seq<u8>, u: Seq<u8>, f: FrameView)
    requires
        read_fields(s, f) is Some,
    ensures
        read_fields(s + u, f) == read_fields(u, read_fields(s, f)->Some_0),
    decreases s.len(),
{
    reveal(read_fields);
    if s.len() == 0 {
        assert(s + u =~= u);
    } else {
        lemma_frame_step_prefix(s, u, f);
        let (g, n) = frame_step(s, f)->Some_0;
        assert((s + u).skip(n) =~= s.skip(n) + u);
        law_frames_concatenate(s.skip(n), u, g);
    }
}

/// The bytes of one field that a frame does not have, with any wire type that
/// can be skipped.
pub open spec fn unknown_field(u: Seq<u8>) -> bool {
    match read_varint(u) {
        Some((t, n)) => {
            let field = t / 8;
            let wire = t % 8;
            &&& !(wire == 0 && 1 <= field <= 4)
            &&& !(wire == 2 && 5 <= field <= 9)
            &&& skip_len(u.skip(n), wire) == Some(u.len() - n)
        },
        None => false,
    }
}

/// Fields that a frame does not have make no difference.
pub proof fn law_unknown_fields_are_skipped(s: Seq<u8>, u: Seq<u8>)
    requires
        frame_of(s) is Some,
        unknown_field(u),
    ensures
        frame_of(s + u) == frame_of(s),
{
    law_frames_concatenate(s, u, empty_frame());
    lemma_read_varint(u);
    let f = frame_of(s)->Some_0;
    let (t, n) = read_varint(u)->Some_0;
    assert(frame_step(u, f) == Some((f, u.len() as int)));
    assert(u.skip(u.len() as int) =~= Seq::<u8>::empty());
    lemma_read_nothing(f);
    lemma_one_step(u, f);
}

} // verus!
