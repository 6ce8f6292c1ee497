//! Laws of the decoder: statements about `spec_process` and `replay` that
//! hold for every byte sequence.

use vstd::prelude::*;

use crate::decoder::cleared;
use crate::decoder::fresh_model;
use crate::decoder::model_wf;
use crate::decoder::occupied;
use crate::decoder::outputs;
use crate::decoder::outputs_from;
use crate::decoder::replay;
use crate::decoder::replay_from;
use crate::decoder::spec_append;
use crate::decoder::spec_process;
use crate::decoder::zero_payload;
use crate::decoder::CmriState;
use crate::decoder::DecoderModel;
use crate::decoder::Error;
use crate::decoder::RxState;
use crate::decoder::CMRI_ESCAPE_BYTE;
use crate::decoder::CMRI_PREAMBLE_BYTE;
use crate::decoder::CMRI_START_BYTE;
use crate::decoder::CMRI_STOP_BYTE;
use crate::decoder::RX_BUFFER_LEN;
use crate::message::collapse;
use crate::message::frame_address;
use crate::message::frame_data;
use crate::message::frame_type_byte;
use crate::message::is_complete_frame;
use crate::message::well_escaped;

verus! {

/// Replaying one more byte: the model and output sequence extend at the end.
pub proof fn lemma_replay_from_snoc(d: DecoderModel, s: Seq<u8>, b: u8)
    ensures
        replay_from(d, s.push(b)) == spec_process(replay_from(d, s), b).0,
        outputs_from(d, s.push(b)) == outputs_from(d, s).push(spec_process(replay_from(d, s), b).1),
    decreases s.len(),
{
    let s1 = s.push(b);
    if s.len() == 0 {
        assert(s1[0] == b);
        assert(s1.skip(1) =~= Seq::<u8>::empty());
        assert(replay_from(d, s1) == replay_from(spec_process(d, b).0, s1.skip(1)));
        assert(replay_from(spec_process(d, b).0, s1.skip(1)) == spec_process(d, b).0);
        assert(replay_from(d, s) == d);
        assert(outputs_from(d, s1) == seq![spec_process(d, b).1] + outputs_from(
            spec_process(d, b).0,
            s1.skip(1),
        ));
        assert(outputs_from(spec_process(d, b).0, s1.skip(1)) == Seq::<
            Result<RxState, Error>,
        >::empty());
        assert(outputs_from(d, s) == Seq::<Result<RxState, Error>>::empty());
        assert(outputs_from(d, s1) =~= outputs_from(d, s).push(spec_process(d, b).1));
    } else {
        let d1 = spec_process(d, s[0]).0;
        assert(s1[0] == s[0]);
        assert(s1.skip(1) =~= s.skip(1).push(b));
        lemma_replay_from_snoc(d1, s.skip(1), b);
        assert(replay_from(d, s1) == replay_from(d1, s1.skip(1)));
        assert(replay_from(d, s) == replay_from(d1, s.skip(1)));
        assert(outputs_from(d, s1) == seq![spec_process(d, s[0]).1] + outputs_from(
            d1,
            s1.skip(1),
        ));
        assert(outputs_from(d, s) == seq![spec_process(d, s[0]).1] + outputs_from(d1, s.skip(1)));
        assert(outputs_from(d, s1) =~= outputs_from(d, s).push(
            spec_process(replay_from(d, s), b).1,
        ));
    }
}

/// Replaying a concatenation: replay the first part, then the second.
pub proof fn lemma_replay_from_concat(d: DecoderModel, s1: Seq<u8>, s2: Seq<u8>)
    ensures
        replay_from(d, s1 + s2) == replay_from(replay_from(d, s1), s2),
        outputs_from(d, s1 + s2) == outputs_from(d, s1) + outputs_from(replay_from(d, s1), s2),
    decreases s1.len(),
{
    if s1.len() == 0 {
        assert(s1 + s2 =~= s2);
        assert(outputs_from(d, s1 + s2) =~= outputs_from(d, s1) + outputs_from(
            replay_from(d, s1),
            s2,
        ));
    } else {
        assert((s1 + s2)[0] == s1[0]);
        assert((s1 + s2).skip(1) =~= s1.skip(1) + s2);
        lemma_replay_from_concat(spec_process(d, s1[0]).0, s1.skip(1), s2);
        assert(outputs_from(d, s1 + s2) =~= outputs_from(d, s1) + outputs_from(
            replay_from(d, s1),
            s2,
        ));
    }
}

/// Appending one byte extends the occupied prefix of the buffer by that
/// byte.
pub proof fn lemma_append_occupied(d: DecoderModel, b: u8)
    requires
        model_wf(d),
        d.pos < RX_BUFFER_LEN,
    ensures
        occupied(spec_append(d, b)) == occupied(d).push(b),
{
    assert(occupied(spec_append(d, b)) =~= occupied(d).push(b));
}

/// A byte sequence that contains the three-byte frame header `PREAMBLE
/// PREAMBLE START` somewhere.
pub open spec fn contains_frame_header(s: Seq<u8>) -> bool {
    exists|i: int|
        0 <= i && i + 2 < s.len() && #[trigger] s[i] == CMRI_PREAMBLE_BYTE && s[i + 1]
            == CMRI_PREAMBLE_BYTE && s[i + 2] == CMRI_START_BYTE
}

/// A sequence without the frame header never takes the decoder past frame
/// detection: from a fresh decoder it ends `Idle`, `Attn` or `Start`, the
/// buffer holds at most the preamble bytes seen, every result is
/// `Listening`, and unless the sequence ends mid-preamble the decoder is
/// back in `Idle` with an empty buffer.
pub proof fn lemma_no_header_keeps_idle(s: Seq<u8>)
    requires
        !contains_frame_header(s),
    ensures
        model_wf(replay(s)),
        replay(s).state == CmriState::Idle || replay(s).state == CmriState::Attn || replay(
            s,
        ).state == CmriState::Start,
        replay(s).state == CmriState::Idle ==> replay(s).pos == 0 && occupied(replay(s)) == Seq::<
            u8,
        >::empty(),
        replay(s).state == CmriState::Attn ==> replay(s).pos == 1 && s.len() >= 1 && s[s.len() - 1]
            == CMRI_PREAMBLE_BYTE && occupied(replay(s)) == seq![CMRI_PREAMBLE_BYTE],
        replay(s).state == CmriState::Start ==> replay(s).pos == 2 && s.len() >= 2 && s[s.len() - 1]
            == CMRI_PREAMBLE_BYTE && s[s.len() - 2] == CMRI_PREAMBLE_BYTE && occupied(replay(s))
            == seq![CMRI_PREAMBLE_BYTE, CMRI_PREAMBLE_BYTE],
        s.len() == 0 || s[s.len() - 1] != CMRI_PREAMBLE_BYTE ==> replay(s).state == CmriState::Idle
            && replay(s).pos == 0,
        outputs(s).len() == s.len(),
        forall|i: int|
            0 <= i < s.len() ==> outputs(s)[i] == Ok::<RxState, Error>(RxState::Listening),
    decreases s.len(),
{
    if s.len() == 0 {
        assert(replay(s) == fresh_model());
        assert(occupied(fresh_model()) =~= Seq::<u8>::empty());
    } else {
        let s0 = s.drop_last();
        let b = s[s.len() - 1];
        assert(s0.push(b) =~= s);
        assert(!contains_frame_header(s0)) by {
            if contains_frame_header(s0) {
                let i = choose|i: int|
                    0 <= i && i + 2 < s0.len() && #[trigger] s0[i] == CMRI_PREAMBLE_BYTE && s0[i
                        + 1] == CMRI_PREAMBLE_BYTE && s0[i + 2] == CMRI_START_BYTE;
                assert(s[i] == s0[i]);
                assert(s[i + 1] == s0[i + 1]);
                assert(s[i + 2] == s0[i + 2]);
                assert(contains_frame_header(s));
            }
        }
        lemma_no_header_keeps_idle(s0);
        lemma_replay_from_snoc(fresh_model(), s0, b);
        let d0 = replay(s0);
        let d1 = replay(s);
        assert(replay_from(fresh_model(), s0.push(b)) == spec_process(d0, b).0);
        assert(d1 == spec_process(d0, b).0);
        let o = spec_process(d0, b).1;
        if d0.state == CmriState::Idle {
            if b == CMRI_PREAMBLE_BYTE {
                assert(d1.state == CmriState::Attn);
                assert(occupied(d1) =~= seq![CMRI_PREAMBLE_BYTE]);
            } else {
                assert(d1 == d0);
            }
            assert(o == Ok::<RxState, Error>(RxState::Listening));
        } else if d0.state == CmriState::Attn {
            assert(occupied(d0) == seq![CMRI_PREAMBLE_BYTE]);
            if b == CMRI_PREAMBLE_BYTE {
                assert(d0.pos == 1);
                lemma_append_occupied(d0, b);
                assert(d1.state == CmriState::Start);
                assert(occupied(d1) == occupied(spec_append(d0, b)));
                assert(occupied(d1) =~= seq![CMRI_PREAMBLE_BYTE, CMRI_PREAMBLE_BYTE]);
                assert(s[s.len() - 2] == s0[s0.len() - 1]);
            } else {
                assert(d1 == cleared(CmriState::Idle));
                assert(occupied(d1) =~= Seq::<u8>::empty());
            }
            assert(o == Ok::<RxState, Error>(RxState::Listening));
        } else {
            assert(d0.state == CmriState::Start);
            assert(s0.len() >= 2);
            if b == CMRI_START_BYTE {
                // The last three bytes of `s` would form the frame header,
                // which the premise rules out.
                let i = s.len() - 3;
                assert(s[i] == s0[s0.len() - 2]);
                assert(s[i + 1] == s0[s0.len() - 1]);
                assert(s[i + 2] == b);
                assert(contains_frame_header(s));
                assert(false);
            } else {
                assert(d1 == cleared(CmriState::Idle));
                assert(occupied(d1) =~= Seq::<u8>::empty());
            }
            assert(o == Ok::<RxState, Error>(RxState::Listening));
        }
        assert(outputs(s) == outputs(s0).push(o));
        assert forall|i: int| 0 <= i < s.len() implies outputs(s)[i] == Ok::<RxState, Error>(
            RxState::Listening,
        ) by {
            if i < s0.len() {
                assert(outputs(s)[i] == outputs(s0)[i]);
            } else {
                assert(outputs(s)[i] == o);
            }
        }
    }
}

/// A single preamble byte followed by any other byte returns a fresh
/// decoder to `Idle` with the buffer cleared.
pub proof fn lemma_preamble_then_other_resets(b: u8)
    requires
        b != CMRI_PREAMBLE_BYTE,
    ensures
        replay(seq![CMRI_PREAMBLE_BYTE, b]).state == CmriState::Idle,
        replay(seq![CMRI_PREAMBLE_BYTE, b]).pos == 0,
        occupied(replay(seq![CMRI_PREAMBLE_BYTE, b])) == Seq::<u8>::empty(),
{
    let s = seq![CMRI_PREAMBLE_BYTE, b];
    let d1 = spec_process(fresh_model(), CMRI_PREAMBLE_BYTE).0;
    let d2 = spec_process(d1, b).0;
    assert(s[0] == CMRI_PREAMBLE_BYTE);
    assert(s.skip(1) =~= seq![b]);
    assert(seq![b][0] == b);
    assert(seq![b].skip(1) =~= Seq::<u8>::empty());
    assert(replay_from(fresh_model(), s) == replay_from(d1, s.skip(1)));
    assert(replay_from(d1, seq![b]) == replay_from(d2, seq![b].skip(1)));
    assert(d1.state == CmriState::Attn);
    assert(d2 == cleared(CmriState::Idle));
    assert(occupied(d2) =~= Seq::<u8>::empty());
}

/// Replaying a byte sequence is deterministic: two decoders that start
/// from the same model report the same results, byte for byte, and end in
/// the same model. Together with the contract of `process`, which pins the
/// executable decoder to `spec_process`, replaying the same bytes twice on
/// fresh decoders yields identical result sequences.
pub proof fn lemma_replay_deterministic(d1: DecoderModel, d2: DecoderModel, s: Seq<u8>)
    requires
        d1 == d2,
    ensures
        replay_from(d1, s) == replay_from(d2, s),
        outputs_from(d1, s) == outputs_from(d2, s),
{
}

/// The raw bytes of a frame on the wire: double preamble, start, address,
/// type, a raw data region, and the stop byte.
pub open spec fn frame_bytes(addr: u8, typ: u8, raw: Seq<u8>) -> Seq<u8> {
    seq![CMRI_PREAMBLE_BYTE, CMRI_PREAMBLE_BYTE, CMRI_START_BYTE, addr, typ] + raw + seq![
        CMRI_STOP_BYTE,
    ]
}

/// From the data-accepting state, a well-escaped raw region that fits in
/// the buffer is accepted byte for byte: the decoder stays in its data
/// state, reports `Listening` throughout, and appends the region verbatim.
pub proof fn lemma_data_bytes_accepted(d: DecoderModel, raw: Seq<u8>)
    requires
        model_wf(d),
        d.state == CmriState::Data,
        well_escaped(raw),
        d.pos + raw.len() + 1 <= RX_BUFFER_LEN,
    ensures
        model_wf(replay_from(d, raw)),
        replay_from(d, raw).state == CmriState::Data,
        replay_from(d, raw).pos == d.pos + raw.len(),
        occupied(replay_from(d, raw)) == occupied(d) + raw,
        outputs_from(d, raw).len() == raw.len(),
        forall|i: int|
            0 <= i < raw.len() ==> outputs_from(d, raw)[i] == Ok::<RxState, Error>(
                RxState::Listening,
            ),
    decreases raw.len(),
{
    if raw.len() == 0 {
        assert(occupied(d) + raw =~= occupied(d));
    } else {
        let b0 = raw[0];
        let d1 = spec_process(d, b0).0;
        let o0 = spec_process(d, b0).1;
        assert(d.pos < RX_BUFFER_LEN);
        lemma_append_occupied(d, b0);
        if b0 == CMRI_ESCAPE_BYTE {
            assert(raw.len() >= 2);
            assert(well_escaped(raw.skip(2)));
            let b1 = raw[1];
            assert(d1.state == CmriState::Escape);
            assert(d1.pos == d.pos + 1);
            let d2 = spec_process(d1, b1).0;
            let o1 = spec_process(d1, b1).1;
            lemma_append_occupied(d1, b1);
            assert(d2.state == CmriState::Data);
            assert(d2.pos == d.pos + 2);
            assert(raw.skip(1)[0] == b1);
            assert(raw.skip(1).skip(1) =~= raw.skip(2));
            lemma_data_bytes_accepted(d2, raw.skip(2));
            assert(replay_from(d, raw) == replay_from(d1, raw.skip(1)));
            assert(replay_from(d1, raw.skip(1)) == replay_from(d2, raw.skip(2)));
            assert(occupied(d2) == occupied(d).push(b0).push(b1));
            assert(occupied(replay_from(d, raw)) == occupied(d2) + raw.skip(2));
            assert(occupied(d).push(b0).push(b1) + raw.skip(2) =~= occupied(d) + raw);
            assert(o0 == Ok::<RxState, Error>(RxState::Listening));
            assert(o1 == Ok::<RxState, Error>(RxState::Listening));
            assert(outputs_from(d, raw) == seq![o0] + outputs_from(d1, raw.skip(1)));
            assert(outputs_from(d1, raw.skip(1)) == seq![o1] + outputs_from(d2, raw.skip(2)));
            assert forall|i: int| 0 <= i < raw.len() implies outputs_from(d, raw)[i] == Ok::<
                RxState,
                Error,
            >(RxState::Listening) by {
                if i == 0 {
                    assert(outputs_from(d, raw)[0] == o0);
                } else if i == 1 {
                    assert(outputs_from(d, raw)[1] == outputs_from(d1, raw.skip(1))[0]);
                } else {
                    assert(outputs_from(d, raw)[i] == outputs_from(d2, raw.skip(2))[i - 2]);
                }
            }
        } else {
            assert(b0 != CMRI_STOP_BYTE);
            assert(well_escaped(raw.skip(1)));
            assert(d1.state == CmriState::Data);
            assert(d1.pos == d.pos + 1);
            lemma_data_bytes_accepted(d1, raw.skip(1));
            assert(replay_from(d, raw) == replay_from(d1, raw.skip(1)));
            assert(occupied(replay_from(d, raw)) == occupied(d).push(b0) + raw.skip(1));
            assert(occupied(d).push(b0) + raw.skip(1) =~= occupied(d) + raw);
            assert(o0 == Ok::<RxState, Error>(RxState::Listening));
            assert(outputs_from(d, raw) == seq![o0] + outputs_from(d1, raw.skip(1)));
            assert forall|i: int| 0 <= i < raw.len() implies outputs_from(d, raw)[i] == Ok::<
                RxState,
                Error,
            >(RxState::Listening) by {
                if i == 0 {
                    assert(outputs_from(d, raw)[0] == o0);
                } else {
                    assert(outputs_from(d, raw)[i] == outputs_from(d1, raw.skip(1))[i - 1]);
                }
            }
        }
    }
}

/// A complete, well-escaped frame that fits in the buffer decodes fully:
/// the decoder reports `Listening` on every byte but the last, `Complete`
/// exactly on the stop byte, and the buffer then holds the whole raw
/// frame, whose message fields are the frame's address byte, its type
/// byte, and its data with escapes collapsed.
pub proof fn lemma_valid_frame_decodes(addr: u8, typ: u8, raw: Seq<u8>)
    requires
        well_escaped(raw),
        raw.len() + 6 <= RX_BUFFER_LEN,
    ensures
        replay(frame_bytes(addr, typ, raw)).state == CmriState::Idle,
        occupied(replay(frame_bytes(addr, typ, raw))) == frame_bytes(addr, typ, raw),
        is_complete_frame(frame_bytes(addr, typ, raw)),
        frame_address(frame_bytes(addr, typ, raw)) == addr,
        frame_type_byte(frame_bytes(addr, typ, raw)) == typ,
        frame_data(frame_bytes(addr, typ, raw)) == collapse(raw),
        outputs(frame_bytes(addr, typ, raw)).len() == raw.len() + 6,
        forall|i: int|
            0 <= i < raw.len() + 5 ==> outputs(frame_bytes(addr, typ, raw))[i] == Ok::<
                RxState,
                Error,
            >(RxState::Listening),
        outputs(frame_bytes(addr, typ, raw))[raw.len() + 5 as int] == Ok::<RxState, Error>(
            RxState::Complete,
        ),
{
    let header = seq![CMRI_PREAMBLE_BYTE, CMRI_PREAMBLE_BYTE, CMRI_START_BYTE, addr, typ];
    let frame = frame_bytes(addr, typ, raw);
    let d0 = fresh_model();
    let d1 = spec_process(d0, CMRI_PREAMBLE_BYTE).0;
    let d2 = spec_process(d1, CMRI_PREAMBLE_BYTE).0;
    let d3 = spec_process(d2, CMRI_START_BYTE).0;
    let d4 = spec_process(d3, addr).0;
    let d5 = spec_process(d4, typ).0;
    assert(d1.state == CmriState::Attn && d1.pos == 1);
    assert(d2.state == CmriState::Start && d2.pos == 2);
    assert(d3.state == CmriState::Addr && d3.pos == 3);
    assert(d4.state == CmriState::Type && d4.pos == 4);
    assert(d5.state == CmriState::Data && d5.pos == 5);
    assert(model_wf(d5));
    // Replay the five header bytes step by step.
    assert(header[0] == CMRI_PREAMBLE_BYTE);
    assert(header.skip(1) =~= seq![CMRI_PREAMBLE_BYTE, CMRI_START_BYTE, addr, typ]);
    assert(header.skip(1)[0] == CMRI_PREAMBLE_BYTE);
    assert(header.skip(1).skip(1) =~= seq![CMRI_START_BYTE, addr, typ]);
    assert(seq![CMRI_START_BYTE, addr, typ][0] == CMRI_START_BYTE);
    assert(seq![CMRI_START_BYTE, addr, typ].skip(1) =~= seq![addr, typ]);
    assert(seq![addr, typ][0] == addr);
    assert(seq![addr, typ].skip(1) =~= seq![typ]);
    assert(seq![typ][0] == typ);
    assert(seq![typ].skip(1) =~= Seq::<u8>::empty());
    assert(replay_from(d0, header) == replay_from(d1, header.skip(1)));
    assert(replay_from(d1, header.skip(1)) == replay_from(d2, seq![CMRI_START_BYTE, addr, typ]));
    assert(replay_from(d2, seq![CMRI_START_BYTE, addr, typ]) == replay_from(d3, seq![addr, typ]));
    assert(replay_from(d3, seq![addr, typ]) == replay_from(d4, seq![typ]));
    assert(replay_from(d4, seq![typ]) == replay_from(d5, Seq::<u8>::empty()));
    assert(replay_from(d0, header) == d5);
    assert(occupied(d5) =~= header);
    // The header reports `Listening` five times.
    let ho = outputs_from(d0, header);
    assert(ho == seq![spec_process(d0, CMRI_PREAMBLE_BYTE).1] + outputs_from(d1, header.skip(1)));
    assert(outputs_from(d1, header.skip(1)) == seq![spec_process(d1, CMRI_PREAMBLE_BYTE).1]
        + outputs_from(d2, seq![CMRI_START_BYTE, addr, typ]));
    assert(outputs_from(d2, seq![CMRI_START_BYTE, addr, typ]) == seq![
        spec_process(d2, CMRI_START_BYTE).1,
    ] + outputs_from(d3, seq![addr, typ]));
    assert(outputs_from(d3, seq![addr, typ]) == seq![spec_process(d3, addr).1] + outputs_from(
        d4,
        seq![typ],
    ));
    assert(outputs_from(d4, seq![typ]) == seq![spec_process(d4, typ).1] + outputs_from(
        d5,
        Seq::<u8>::empty(),
    ));
    assert(ho.len() == 5);
    assert(ho =~= seq![
        Ok::<RxState, Error>(RxState::Listening),
        Ok::<RxState, Error>(RxState::Listening),
        Ok::<RxState, Error>(RxState::Listening),
        Ok::<RxState, Error>(RxState::Listening),
        Ok::<RxState, Error>(RxState::Listening),
    ]);
    // The data region is accepted verbatim.
    lemma_replay_from_concat(d0, header, raw);
    lemma_data_bytes_accepted(d5, raw);
    let d6 = replay_from(d5, raw);
    assert(replay_from(d0, header + raw) == d6);
    assert(d6.state == CmriState::Data);
    assert(d6.pos == 5 + raw.len());
    assert(occupied(d6) == header + raw);
    // The stop byte completes the frame.
    let d7 = spec_process(d6, CMRI_STOP_BYTE).0;
    let o7 = spec_process(d6, CMRI_STOP_BYTE).1;
    assert(d6.pos < RX_BUFFER_LEN);
    assert(d7.state == CmriState::Idle);
    assert(o7 == Ok::<RxState, Error>(RxState::Complete));
    lemma_append_occupied(d6, CMRI_STOP_BYTE);
    assert(frame =~= (header + raw) + seq![CMRI_STOP_BYTE]);
    lemma_replay_from_concat(d0, header + raw, seq![CMRI_STOP_BYTE]);
    assert(seq![CMRI_STOP_BYTE][0] == CMRI_STOP_BYTE);
    assert(seq![CMRI_STOP_BYTE].skip(1) =~= Seq::<u8>::empty());
    assert(replay_from(d6, seq![CMRI_STOP_BYTE]) == replay_from(d7, seq![CMRI_STOP_BYTE].skip(1)));
    assert(replay_from(d7, Seq::<u8>::empty()) == d7);
    assert(replay_from(d6, seq![CMRI_STOP_BYTE]) == d7);
    assert(replay(frame) == d7);
    assert(occupied(d7) == (header + raw).push(CMRI_STOP_BYTE));
    assert((header + raw).push(CMRI_STOP_BYTE) =~= frame);
    // The buffer now holds one complete frame with the given fields.
    assert(frame.len() == raw.len() + 6);
    assert(frame[0] == CMRI_PREAMBLE_BYTE);
    assert(frame[1] == CMRI_PREAMBLE_BYTE);
    assert(frame[2] == CMRI_START_BYTE);
    assert(frame[3] == addr);
    assert(frame[4] == typ);
    assert(frame[frame.len() - 1] == CMRI_STOP_BYTE);
    assert(frame.subrange(5, frame.len() - 1) =~= raw);
    assert(is_complete_frame(frame));
    // The reported results: `Listening` throughout, `Complete` at the end.
    let dato = outputs_from(d5, raw);
    assert(outputs(frame) == outputs_from(d0, header + raw) + outputs_from(
        d6,
        seq![CMRI_STOP_BYTE],
    ));
    assert(outputs_from(d0, header + raw) == ho + dato);
    assert(outputs_from(d6, seq![CMRI_STOP_BYTE]) == seq![o7] + outputs_from(
        d7,
        seq![CMRI_STOP_BYTE].skip(1),
    ));
    assert(outputs_from(d7, Seq::<u8>::empty()) == Seq::<Result<RxState, Error>>::empty());
    assert(outputs_from(d6, seq![CMRI_STOP_BYTE]) =~= seq![o7]);
    assert(outputs(frame).len() == raw.len() + 6);
    assert forall|i: int| 0 <= i < raw.len() + 5 implies outputs(frame)[i] == Ok::<RxState, Error>(
        RxState::Listening,
    ) by {
        if i < 5 {
            assert(outputs(frame)[i] == ho[i]);
        } else {
            assert(outputs(frame)[i] == dato[i - 5]);
        }
    }
    assert(outputs(frame)[raw.len() + 5 as int] == o7);
}

/// The buffer can only overflow while a frame body is being accumulated,
/// and then the byte is refused: the decoder reports the error and is
/// left exactly as it was, with nothing truncated or overwritten.
pub proof fn lemma_overflow_reported_not_truncated(d: DecoderModel, b: u8)
    requires
        model_wf(d),
    ensures
        spec_process(d, b).1 == Err::<RxState, Error>(Error::OutOfBounds) <==> d.pos
            == RX_BUFFER_LEN && (match d.state {
            CmriState::Idle => false,
            CmriState::Attn => b == CMRI_PREAMBLE_BYTE,
            CmriState::Start => b == CMRI_START_BYTE,
            CmriState::Addr => true,
            CmriState::Type => true,
            CmriState::Data => true,
            CmriState::Escape => true,
        }),
        spec_process(d, b).1 is Err ==> spec_process(d, b).0 == d,
{
}

/// Collapsing distributes over an escaped byte appended at the end: the
/// escape pair denotes exactly the literal byte.
pub proof fn lemma_collapse_append_escaped(raw: Seq<u8>, b: u8)
    requires
        well_escaped(raw),
    ensures
        well_escaped(raw + seq![CMRI_ESCAPE_BYTE, b]),
        collapse(raw + seq![CMRI_ESCAPE_BYTE, b]) == collapse(raw).push(b),
    decreases raw.len(),
{
    let t = seq![CMRI_ESCAPE_BYTE, b];
    let e = raw + t;
    if raw.len() == 0 {
        assert(e =~= t);
        assert(t[0] == CMRI_ESCAPE_BYTE);
        assert(t[1] == b);
        assert(t.skip(2) =~= Seq::<u8>::empty());
        assert(collapse(t) == seq![b] + collapse(t.skip(2)));
        assert(collapse(t) =~= collapse(raw).push(b));
        assert(well_escaped(Seq::<u8>::empty()));
        assert(well_escaped(t));
    } else if raw[0] == CMRI_ESCAPE_BYTE {
        assert(e[0] == raw[0]);
        assert(e[1] == raw[1]);
        assert(e.skip(2) =~= raw.skip(2) + t);
        lemma_collapse_append_escaped(raw.skip(2), b);
        assert(collapse(e) == seq![raw[1]] + collapse(raw.skip(2) + t));
        assert(collapse(raw) == seq![raw[1]] + collapse(raw.skip(2)));
        assert(seq![raw[1]] + collapse(raw.skip(2)).push(b) =~= (seq![raw[1]] + collapse(
            raw.skip(2),
        )).push(b));
        assert(well_escaped(e));
    } else {
        assert(e[0] == raw[0]);
        assert(e.skip(1) =~= raw.skip(1) + t);
        lemma_collapse_append_escaped(raw.skip(1), b);
        assert(collapse(e) == seq![raw[0]] + collapse(raw.skip(1) + t));
        assert(collapse(raw) == seq![raw[0]] + collapse(raw.skip(1)));
        assert(seq![raw[0]] + collapse(raw.skip(1)).push(b) =~= (seq![raw[0]] + collapse(
            raw.skip(1),
        )).push(b));
        assert(well_escaped(e));
    }
}

/// Escape round trip: a data byte equal to `STOP`, `ESCAPE` or `PREAMBLE`,
/// preceded by `ESCAPE` on the wire, neither ends nor corrupts the frame,
/// and appears as that literal value at the end of the decoded data.
pub proof fn lemma_escape_round_trip(addr: u8, typ: u8, raw: Seq<u8>, b: u8)
    requires
        well_escaped(raw),
        raw.len() + 8 <= RX_BUFFER_LEN,
        b == CMRI_STOP_BYTE || b == CMRI_ESCAPE_BYTE || b == CMRI_PREAMBLE_BYTE,
    ensures
        well_escaped(raw + seq![CMRI_ESCAPE_BYTE, b]),
        replay(frame_bytes(addr, typ, raw + seq![CMRI_ESCAPE_BYTE, b])).state == CmriState::Idle,
        is_complete_frame(frame_bytes(addr, typ, raw + seq![CMRI_ESCAPE_BYTE, b])),
        frame_data(frame_bytes(addr, typ, raw + seq![CMRI_ESCAPE_BYTE, b])) == collapse(raw).push(
            b,
        ),
        outputs(frame_bytes(addr, typ, raw + seq![CMRI_ESCAPE_BYTE, b]))[raw.len() + 7 as int] == Ok::<
            RxState,
            Error,
        >(RxState::Complete),
{
    lemma_collapse_append_escaped(raw, b);
    lemma_valid_frame_decodes(addr, typ, raw + seq![CMRI_ESCAPE_BYTE, b]);
}

/// A byte that is neither the escape nor the stop byte extends a
/// well-escaped region and stays well escaped.
pub proof fn lemma_well_escaped_append_plain(raw: Seq<u8>, b: u8)
    requires
        well_escaped(raw),
        b != CMRI_ESCAPE_BYTE,
        b != CMRI_STOP_BYTE,
    ensures
        well_escaped(raw.push(b)),
    decreases raw.len(),
{
    let e = raw.push(b);
    if raw.len() == 0 {
        assert(e[0] == b);
        assert(e.skip(1) =~= Seq::<u8>::empty());
        assert(well_escaped(Seq::<u8>::empty()));
    } else if raw[0] == CMRI_ESCAPE_BYTE {
        assert(e[0] == raw[0]);
        assert(e.skip(2) =~= raw.skip(2).push(b));
        lemma_well_escaped_append_plain(raw.skip(2), b);
    } else {
        assert(e[0] == raw[0]);
        assert(e.skip(1) =~= raw.skip(1).push(b));
        lemma_well_escaped_append_plain(raw.skip(1), b);
    }
}

/// A well-escaped region followed by an escape pair is still well escaped,
/// whatever the escaped byte.
pub proof fn lemma_well_escaped_append_pair(raw: Seq<u8>, b: u8)
    requires
        well_escaped(raw),
    ensures
        well_escaped(raw.push(CMRI_ESCAPE_BYTE).push(b)),
{
    lemma_collapse_append_escaped(raw, b);
    assert(raw.push(CMRI_ESCAPE_BYTE).push(b) =~= raw + seq![CMRI_ESCAPE_BYTE, b]);
}

/// A decoder state consistent with the framing protocol: the occupied
/// buffer is exactly what the state says has been validated so far. Every
/// state reachable from a fresh decoder satisfies this.
pub open spec fn synced(d: DecoderModel) -> bool {
    &&& model_wf(d)
    &&& match d.state {
        CmriState::Idle => true,
        CmriState::Attn => d.pos == 1 && d.payload[0] == CMRI_PREAMBLE_BYTE,
        CmriState::Start => d.pos == 2 && d.payload[0] == CMRI_PREAMBLE_BYTE && d.payload[1]
            == CMRI_PREAMBLE_BYTE,
        CmriState::Addr => d.pos == 3 && d.payload[0] == CMRI_PREAMBLE_BYTE && d.payload[1]
            == CMRI_PREAMBLE_BYTE && d.payload[2] == CMRI_START_BYTE,
        CmriState::Type => d.pos == 4 && d.payload[0] == CMRI_PREAMBLE_BYTE && d.payload[1]
            == CMRI_PREAMBLE_BYTE && d.payload[2] == CMRI_START_BYTE,
        CmriState::Data => d.pos >= 5 && d.payload[0] == CMRI_PREAMBLE_BYTE && d.payload[1]
            == CMRI_PREAMBLE_BYTE && d.payload[2] == CMRI_START_BYTE && well_escaped(
            d.payload.subrange(5, d.pos as int),
        ),
        CmriState::Escape => d.pos >= 6 && d.payload[0] == CMRI_PREAMBLE_BYTE && d.payload[1]
            == CMRI_PREAMBLE_BYTE && d.payload[2] == CMRI_START_BYTE && d.payload[d.pos - 1]
            == CMRI_ESCAPE_BYTE && well_escaped(d.payload.subrange(5, d.pos - 1)),
    }
}

/// One step preserves consistency, and on the step that reports
/// `Complete` the occupied buffer holds one complete frame, so the
/// message view is available.
pub proof fn lemma_synced_step(d: DecoderModel, b: u8)
    requires
        synced(d),
    ensures
        synced(spec_process(d, b).0),
        spec_process(d, b).1 == Ok::<RxState, Error>(RxState::Complete) ==> is_complete_frame(
            occupied(spec_process(d, b).0),
        ),
{
    let d1 = spec_process(d, b).0;
    match d.state {
        CmriState::Idle => {
            if b == CMRI_PREAMBLE_BYTE {
                assert(d1.payload[0] == b);
            }
        },
        CmriState::Attn => {},
        CmriState::Start => {},
        CmriState::Addr => {},
        CmriState::Type => {
            if d.pos < RX_BUFFER_LEN {
                assert(d1.payload.subrange(5, 5int) =~= Seq::<u8>::empty());
                assert(well_escaped(Seq::<u8>::empty()));
            }
        },
        CmriState::Data => {
            if d.pos < RX_BUFFER_LEN {
                let p = d.pos as int;
                let region = d.payload.subrange(5, p);
                if b == CMRI_ESCAPE_BYTE {
                    assert(d1.payload.subrange(5, p) =~= region);
                    assert(d1.payload[d1.pos - 1] == b);
                } else if b == CMRI_STOP_BYTE {
                    let done = occupied(d1);
                    assert(done.len() == p + 1);
                    assert(done[0] == CMRI_PREAMBLE_BYTE);
                    assert(done[1] == CMRI_PREAMBLE_BYTE);
                    assert(done[2] == CMRI_START_BYTE);
                    assert(done[done.len() - 1] == b);
                    assert(done.subrange(5, done.len() - 1) =~= region);
                    assert(is_complete_frame(done));
                } else {
                    lemma_well_escaped_append_plain(region, b);
                    assert(d1.payload.subrange(5, p + 1) =~= region.push(b));
                }
            }
        },
        CmriState::Escape => {
            if d.pos < RX_BUFFER_LEN {
                let p = d.pos as int;
                let region = d.payload.subrange(5, p - 1);
                lemma_well_escaped_append_pair(region, b);
                assert(d1.payload.subrange(5, p + 1) =~= region.push(CMRI_ESCAPE_BYTE).push(b));
            }
        },
    }
}

/// Consistency is preserved over any byte sequence.
pub proof fn lemma_synced_replay(d: DecoderModel, s: Seq<u8>)
    requires
        synced(d),
    ensures
        synced(replay_from(d, s)),
    decreases s.len(),
{
    if s.len() > 0 {
        lemma_synced_step(d, s[0]);
        lemma_synced_replay(spec_process(d, s[0]).0, s.skip(1));
    }
}

/// From power-up, after any byte stream at all, the decoder's state is
/// consistent with its buffer, and on any byte on which it would report
/// `Complete` the buffer holds one complete frame: exactly then the
/// message view yields the frame's fields.
pub proof fn lemma_complete_yields_message(s: Seq<u8>, b: u8)
    ensures
        synced(replay(s)),
        spec_process(replay(s), b).1 == Ok::<RxState, Error>(RxState::Complete)
            ==> is_complete_frame(occupied(spec_process(replay(s), b).0)),
{
    assert(zero_payload().len() == RX_BUFFER_LEN);
    assert(synced(fresh_model()));
    lemma_synced_replay(fresh_model(), s);
    lemma_synced_step(replay(s), b);
}

} // verus!
