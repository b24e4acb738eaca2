//! The bytes of a frame: under which number each of its fields stands.

use vstd::prelude::*;
use vstd::utf8::encode_utf8;

use crate::pb::{
    empty_frame, frame_bytes, header_bytes, headers_bytes, len_delim, narrow, tag, varint, wide, Frame, FrameView,
    Header, HeaderView,
};
use crate::types::opt_view;

verus! {

/// A small number is one byte; a larger one is its lowest seven bits, marked,
/// and then the rest.
pub proof fn law_numbers_in_bytes(v: nat)
    ensures
        v < 128 ==> varint(v) == seq![v as u8],
        v >= 128 ==> varint(v) == seq![(v % 128 + 128) as u8] + varint(v / 128),
{
}

proof fn lemma_parts_alone(f: FrameView)
    ensures
        headers_bytes(Seq::<HeaderView>::empty()) == Seq::<u8>::empty(),
{
}

/// The numbers of a frame: its own under one, its log's under two, its
/// service's under three and its method's under four; a zero is not written.
pub proof fn law_numbers_of_a_frame(x: u8)
    requires
        0 < x < 128,
    ensures
        frame_bytes(empty_frame()).len() == 0,
        frame_bytes(FrameView { seq_id: x as u64, ..empty_frame() }) == seq![0x08u8, x],
        frame_bytes(FrameView { log_id: x as u64, ..empty_frame() }) == seq![0x10u8, x],
        frame_bytes(FrameView { service: x as i32, ..empty_frame() }) == seq![0x18u8, x],
        frame_bytes(FrameView { method: x as i32, ..empty_frame() }) == seq![0x20u8, x],
{
    assert(tag(1, 0) == seq![0x08u8]);
    assert(tag(2, 0) == seq![0x10u8]);
    assert(tag(3, 0) == seq![0x18u8]);
    assert(tag(4, 0) == seq![0x20u8]);
    lemma_parts_alone(empty_frame());
    assert(varint(x as nat) == seq![x]);
    assert(frame_bytes(FrameView { seq_id: x as u64, ..empty_frame() }) =~= seq![0x08u8, x]);
    assert(frame_bytes(FrameView { log_id: x as u64, ..empty_frame() }) =~= seq![0x10u8, x]);
    assert(frame_bytes(FrameView { service: x as i32, ..empty_frame() }) =~= seq![0x18u8, x]);
    assert(frame_bytes(FrameView { method: x as i32, ..empty_frame() }) =~= seq![0x20u8, x]);
}

/// The other fields of a frame: its headers under five, the encoding and the
/// kind of its payload under six and seven, the payload under eight, and its
/// new log id under nine, each with its length in front.
pub proof fn law_other_fields_of_a_frame(t: Seq<char>, d: Seq<u8>, h: HeaderView)
    ensures
        frame_bytes(FrameView { headers: seq![h], ..empty_frame() }) == seq![0x2au8] + varint(header_bytes(h).len())
            + header_bytes(h),
        frame_bytes(FrameView { payload_encoding: Some(t), ..empty_frame() }) == seq![0x32u8] + varint(
            encode_utf8(t).len(),
        ) + encode_utf8(t),
        frame_bytes(FrameView { payload_type: Some(t), ..empty_frame() }) == seq![0x3au8] + varint(
            encode_utf8(t).len(),
        ) + encode_utf8(t),
        frame_bytes(FrameView { payload: Some(d), ..empty_frame() }) == seq![0x42u8] + varint(d.len()) + d,
        frame_bytes(FrameView { log_id_new: Some(t), ..empty_frame() }) == seq![0x4au8] + varint(
            encode_utf8(t).len(),
        ) + encode_utf8(t),
        header_bytes(h) == seq![0x0au8] + varint(encode_utf8(h.key).len()) + encode_utf8(h.key) + seq![0x12u8]
            + varint(encode_utf8(h.value).len()) + encode_utf8(h.value),
{
    assert(tag(1, 2) == seq![0x0au8]);
    assert(tag(2, 2) == seq![0x12u8]);
    assert(tag(5, 2) == seq![0x2au8]);
    assert(tag(6, 2) == seq![0x32u8]);
    assert(tag(7, 2) == seq![0x3au8]);
    assert(tag(8, 2) == seq![0x42u8]);
    assert(tag(9, 2) == seq![0x4au8]);
    lemma_parts_alone(empty_frame());
    let one = seq![h];
    assert(one.drop_last() =~= Seq::<HeaderView>::empty());
    assert(headers_bytes(one) =~= len_delim(5, header_bytes(h)));
    assert(frame_bytes(FrameView { headers: one, ..empty_frame() }) =~= len_delim(5, header_bytes(h)));
    assert(frame_bytes(FrameView { payload_encoding: Some(t), ..empty_frame() }) =~= len_delim(6, encode_utf8(t)));
    assert(frame_bytes(FrameView { payload_type: Some(t), ..empty_frame() }) =~= len_delim(7, encode_utf8(t)));
    assert(frame_bytes(FrameView { payload: Some(d), ..empty_frame() }) =~= len_delim(8, d));
    assert(frame_bytes(FrameView { log_id_new: Some(t), ..empty_frame() }) =~= len_delim(9, encode_utf8(t)));
    assert(header_bytes(h) =~= seq![0x0au8] + varint(encode_utf8(h.key).len()) + encode_utf8(h.key) + seq![0x12u8]
        + varint(encode_utf8(h.value).len()) + encode_utf8(h.value));
}

/// A negative number is widened to 64 bits, and is the same when it is narrowed
/// again.
pub proof fn law_negative_numbers(v: i32)
    ensures
        v >= 0 ==> wide(v) == v,
        v < 0 ==> wide(v) == 0x1_0000_0000_0000_0000 + v,
        narrow(wide(v) as u64) == v,
{
    if v < 0 {
        assert((0x1_0000_0000_0000_0000 + v) % 0x1_0000_0000 == 0x1_0000_0000 + v) by (nonlinear_arith)
            requires
                -0x8000_0000 <= v < 0,
        ;
    }
}

/// What is stated of a frame is stated of its fields.
pub proof fn law_frames_are_their_fields(f: Frame, h: Header, i: int)
    ensures
        h@.key == h.key@ && h@.value == h.value@,
        f@.seq_id == f.seq_id && f@.log_id == f.log_id && f@.service == f.service && f@.method == f.method,
        f@.headers.len() == f.headers@.len(),
        0 <= i < f.headers@.len() ==> f@.headers[i] == f.headers@[i]@,
        f@.payload_encoding == opt_view(f.payload_encoding) && f@.payload_type == opt_view(f.payload_type),
        f@.log_id_new == opt_view(f.log_id_new),
        f.payload is None <==> f@.payload is None,
        f.payload matches Some(p) ==> f@.payload == Some(p@),
{
}

} // verus!
