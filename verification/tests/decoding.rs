use cmri::{
    CmriState, CmriStateMachine, Error, MessageType, RxState, CMRI_ESCAPE_BYTE,
    CMRI_PREAMBLE_BYTE, CMRI_STOP_BYTE, RX_BUFFER_LEN,
};

#[test]
fn basic_create_state_machine() {
    let s = CmriStateMachine::new();
    assert_eq!(s.state(), CmriState::Idle);
    assert_eq!(s.payload.len(), RX_BUFFER_LEN);
    assert_eq!(s.position, 0);
}

#[test]
fn decode_first_preamble() {
    // Create a state machine
    let mut s = CmriStateMachine::new();

    // Send junk
    let res = s.process(0x05).unwrap();
    assert_eq!(res, RxState::Listening);

    // Send more junk
    let res = s.process(0xfe).unwrap();
    assert_eq!(res, RxState::Listening);

    // Make sure the buffer hasn't recorded any of this
    assert_eq!(s.position, 0);
    assert_eq!(s.payload[0], 0);
    assert_eq!(s.state, CmriState::Idle);

    // Send a preamble byte and check that the state has changed to Attn
    let res = s.process(CMRI_PREAMBLE_BYTE).unwrap();
    assert_eq!(res, RxState::Listening);
    assert_eq!(s.state, CmriState::Attn);
    assert_eq!(s.payload[0], 0xff);
    assert_eq!(s.position, 1);
}

#[test]
fn decode_second_preamble() {
    // Create a state machine and send two preamble bytes
    let mut s = CmriStateMachine::new();
    let res = s.process(CMRI_PREAMBLE_BYTE);
    assert_eq!(res, Ok(RxState::Listening));
    assert_eq!(s.state, CmriState::Attn);
    let res = s.process(CMRI_PREAMBLE_BYTE);
    assert_eq!(res, Ok(RxState::Listening));
    assert_eq!(s.state, CmriState::Start);

    // Create a new state machine and send one preamble followed by junk
    let mut s = CmriStateMachine::new();
    let res = s.process(CMRI_PREAMBLE_BYTE);
    assert_eq!(res, Ok(RxState::Listening));
    assert_eq!(s.state, CmriState::Attn);
    let res = s.process(0x31);
    assert_eq!(res, Ok(RxState::Listening));
    assert_eq!(s.state, CmriState::Idle);
}

#[test]
fn buffer_overrun() {
    let mut s = CmriStateMachine::new();

    // Force the buffer to be nearly "full"; the field is exposed, though
    // the contracts of the methods no longer vouch for a machine whose
    // fields were written directly.
    s.position = RX_BUFFER_LEN - 3;
    s.push(3).unwrap();
    s.push(2).unwrap();
    s.push(1).unwrap();
    let res = s.push(0);
    assert_eq!(res, Err(Error::OutOfBounds));
}

#[test]
fn preamble_then_other_resets() {
    // Any non-preamble byte after a single preamble discards the buffer.
    for b in [0x00u8, 0x02, 0x03, 0x10, 0x54, 0xfe] {
        let mut s = CmriStateMachine::new();
        assert_eq!(s.process(CMRI_PREAMBLE_BYTE), Ok(RxState::Listening));
        assert_eq!(s.state(), CmriState::Attn);
        assert_eq!(s.process(b), Ok(RxState::Listening));
        assert_eq!(s.state(), CmriState::Idle);
        assert_eq!(s.position(), 0);
    }
}

#[test]
fn no_header_stays_idle() {
    // A stream without PREAMBLE PREAMBLE START never starts a frame.
    let noise = vec![0x00u8, 0x55, 0xff, 0x02, 0xff, 0xff, 0xff, 0x03, 0x10, 0x31];
    let mut s = CmriStateMachine::new();
    let results = s.process_all(&noise);
    for r in &results {
        assert_eq!(*r, Ok(RxState::Listening));
    }
    assert_eq!(s.state(), CmriState::Idle);
    assert_eq!(s.position(), 0);
}

#[test]
fn full_frame_completes() {
    // FF FF 02 <addr> <type> <data...> 03
    let frame = vec![0xffu8, 0xff, 0x02, 0x41, 0x54, 0x11, 0x22, 0x03];
    let mut s = CmriStateMachine::new();
    for (n, byte) in frame.iter().enumerate() {
        let res = s.process(*byte).unwrap();
        if n == frame.len() - 1 {
            assert_eq!(res, RxState::Complete);
        } else {
            assert_eq!(res, RxState::Listening);
        }
    }
    let m = s.message().expect("a completed frame should yield a message");
    assert_eq!(m.address, 0x41);
    assert_eq!(m.message_type, MessageType::SetOutputs);
    assert_eq!(m.data, vec![0x11, 0x22]);
}

#[test]
fn poll_frame_has_empty_data() {
    let frame = vec![0xffu8, 0xff, 0x02, 0x07, 0x50, 0x03];
    let mut s = CmriStateMachine::new();
    let results = s.process_all(&frame);
    assert_eq!(results.last(), Some(&Ok(RxState::Complete)));
    let m = s.message().unwrap();
    assert_eq!(m.address, 0x07);
    assert_eq!(m.message_type, MessageType::Poll);
    assert_eq!(m.data, Vec::<u8>::new());
}

#[test]
fn unknown_type_is_explicit() {
    let frame = vec![0xffu8, 0xff, 0x02, 0x01, 0x99, 0x03];
    let mut s = CmriStateMachine::new();
    let results = s.process_all(&frame);
    assert_eq!(results.last(), Some(&Ok(RxState::Complete)));
    let m = s.message().unwrap();
    assert_eq!(m.message_type, MessageType::Unknown);
}

#[test]
fn escape_round_trip() {
    // Each reserved value, preceded by ESCAPE, appears literally in the
    // decoded data and does not terminate the frame early.
    for b in [CMRI_STOP_BYTE, CMRI_ESCAPE_BYTE, CMRI_PREAMBLE_BYTE] {
        let frame = vec![0xffu8, 0xff, 0x02, 0x05, 0x54, CMRI_ESCAPE_BYTE, b, 0x03];
        let mut s = CmriStateMachine::new();
        let results = s.process_all(&frame);
        assert_eq!(results.len(), frame.len());
        for (n, r) in results.iter().enumerate() {
            if n == frame.len() - 1 {
                assert_eq!(*r, Ok(RxState::Complete));
            } else {
                assert_eq!(*r, Ok(RxState::Listening));
            }
        }
        let m = s.message().unwrap();
        assert_eq!(m.data, vec![b]);
    }
}

#[test]
fn overflow_is_reported_not_truncated() {
    let mut s = CmriStateMachine::new();
    let mut frame = vec![0xffu8, 0xff, 0x02, 0x01, 0x54];
    // 253 plain data bytes fill the 258-byte buffer exactly.
    frame.extend(std::iter::repeat(0x42u8).take(253));
    let results = s.process_all(&frame);
    assert!(results.iter().all(|r| *r == Ok(RxState::Listening)));
    assert_eq!(s.position(), RX_BUFFER_LEN);
    assert_eq!(s.state(), CmriState::Data);

    // The next byte would overflow: it is refused and nothing changes.
    assert_eq!(s.process(0x43), Err(Error::OutOfBounds));
    assert_eq!(s.position(), RX_BUFFER_LEN);
    assert_eq!(s.state(), CmriState::Data);

    // Even the stop byte no longer fits.
    assert_eq!(s.process(CMRI_STOP_BYTE), Err(Error::OutOfBounds));
    assert_eq!(s.position(), RX_BUFFER_LEN);
    assert_eq!(s.state(), CmriState::Data);
}

#[test]
fn replay_is_idempotent() {
    // The same byte sequence on a fresh decoder yields the same results,
    // run after run.
    let mut stream = vec![0x31u8, 0xff, 0x55];
    stream.extend(vec![0xffu8, 0xff, 0x02, 0x21, 0x50, 0x03]);
    stream.extend(vec![0xffu8, 0xff, 0x02, 0x22, 0x54, 0x10, 0x03, 0x66, 0x03]);
    let mut first = CmriStateMachine::new();
    let mut second = CmriStateMachine::new();
    let first_results = first.process_all(&stream);
    let second_results = second.process_all(&stream);
    assert_eq!(first_results, second_results);
    assert_eq!(first.state(), second.state());
    assert_eq!(first.position(), second.position());
}

#[test]
fn message_is_none_until_complete() {
    let mut s = CmriStateMachine::new();
    assert!(s.message().is_none());
    for byte in [0xffu8, 0xff, 0x02, 0x01, 0x54, 0x33] {
        s.process(byte).unwrap();
        assert!(s.message().is_none());
    }
    s.process(0x03).unwrap();
    assert!(s.message().is_some());
}

#[test]
fn clear_empties_buffer() {
    let mut s = CmriStateMachine::new();
    s.process(CMRI_PREAMBLE_BYTE).unwrap();
    s.process(CMRI_PREAMBLE_BYTE).unwrap();
    assert_eq!(s.position(), 2);
    s.clear();
    assert_eq!(s.position(), 0);
    assert_eq!(s.payload, vec![0u8; RX_BUFFER_LEN]);
}
