//! The message view: a read-only interpretation of a completed receive
//! buffer into logical fields (address, type, payload data), with the
//! escape mechanism collapsed.

use vstd::prelude::*;

use crate::decoder::occupied;
use crate::decoder::CmriStateMachine;
use crate::decoder::CMRI_ESCAPE_BYTE;
use crate::decoder::CMRI_PREAMBLE_BYTE;
use crate::decoder::CMRI_START_BYTE;
use crate::decoder::CMRI_STOP_BYTE;
use crate::decoder::RX_BUFFER_LEN;

verus! {

/// Type byte of a message that carries new output state for this node.
pub const CMRI_SET_TYPE: u8 = 0x54;

/// Type byte of a message that asks this node for its input state.
pub const CMRI_POLL_TYPE: u8 = 0x50;

/// The closed set of message types; a type byte this node does not
/// recognize decodes to `Unknown`, never to a silent default.
#[derive(Copy, Clone, Debug, PartialEq, Eq, Structural)]
pub enum MessageType {
    SetOutputs,
    Poll,
    Unknown,
}

/// How a type byte decodes.
pub open spec fn spec_message_type(byte: u8) -> MessageType {
    if byte == CMRI_SET_TYPE {
        MessageType::SetOutputs
    } else if byte == CMRI_POLL_TYPE {
        MessageType::Poll
    } else {
        MessageType::Unknown
    }
}

/// Decode a type byte into the closed enumeration.
pub fn decode_message_type(byte: u8) -> (r: MessageType)
    ensures
        r == spec_message_type(byte),
{
    if byte == CMRI_SET_TYPE {
        MessageType::SetOutputs
    } else if byte == CMRI_POLL_TYPE {
        MessageType::Poll
    } else {
        MessageType::Unknown
    }
}

/// A raw data region the decoder can have accumulated while staying in its
/// data state: every escape byte is followed by a byte it makes literal,
/// and no unescaped stop byte occurs (it would have ended the frame).
pub open spec fn well_escaped(raw: Seq<u8>) -> bool
    decreases raw.len(),
{
    if raw.len() == 0 {
        true
    } else if raw[0] == CMRI_ESCAPE_BYTE {
        raw.len() >= 2 && well_escaped(raw.skip(2))
    } else {
        raw[0] != CMRI_STOP_BYTE && well_escaped(raw.skip(1))
    }
}

/// The logical data a raw region denotes: each escape byte and its
/// follower become the follower alone; other bytes stand for themselves.
/// A trailing escape with nothing after it denotes nothing.
pub open spec fn collapse(raw: Seq<u8>) -> Seq<u8>
    decreases raw.len(),
{
    if raw.len() == 0 {
        Seq::empty()
    } else if raw[0] == CMRI_ESCAPE_BYTE && raw.len() >= 2 {
        seq![raw[1]] + collapse(raw.skip(2))
    } else if raw[0] == CMRI_ESCAPE_BYTE {
        Seq::empty()
    } else {
        seq![raw[0]] + collapse(raw.skip(1))
    }
}

/// A buffer that holds one complete raw frame: double preamble, start,
/// address, type, a well-escaped data region and the final stop byte.
pub open spec fn is_complete_frame(s: Seq<u8>) -> bool {
    &&& s.len() >= 6
    &&& s.len() <= RX_BUFFER_LEN
    &&& s[0] == CMRI_PREAMBLE_BYTE
    &&& s[1] == CMRI_PREAMBLE_BYTE
    &&& s[2] == CMRI_START_BYTE
    &&& s[s.len() - 1] == CMRI_STOP_BYTE
    &&& well_escaped(s.subrange(5, s.len() - 1))
}

/// The address byte of a complete raw frame.
pub open spec fn frame_address(s: Seq<u8>) -> u8 {
    s[3]
}

/// The type byte of a complete raw frame.
pub open spec fn frame_type_byte(s: Seq<u8>) -> u8 {
    s[4]
}

/// The logical data of a complete raw frame: the region between the type
/// byte and the stop byte, with escapes collapsed.
pub open spec fn frame_data(s: Seq<u8>) -> Seq<u8> {
    collapse(s.subrange(5, s.len() - 1))
}

/// One decoded message: the logical fields of a completed frame. The
/// payload is copied out of the receive buffer, so the message stays valid
/// after the decoder moves on to the next frame.
pub struct CmriMessage {
    pub address: u8,
    pub message_type: MessageType,
    pub data: Vec<u8>,
}

impl CmriStateMachine {
    /// Interpret the occupied buffer as a completed frame.
    ///
    /// Returns `Some` exactly when the buffer holds one complete raw
    /// frame, as it does right after `process` returned `Complete`; the
    /// fields then are the frame's address byte, its decoded type and its
    /// data with escapes collapsed.
    pub fn message(&self) -> (r: Option<CmriMessage>)
        requires
            self.wf(),
        ensures
            r is Some <==> is_complete_frame(occupied(self@)),
            r matches Some(m) ==> {
                &&& m.address == frame_address(occupied(self@))
                &&& m.message_type == spec_message_type(frame_type_byte(occupied(self@)))
                &&& m.data@ == frame_data(occupied(self@))
            },
    {
        let ghost frame = occupied(self@);
        let n = self.position;
        if n < 6 {
            return None;
        }
        if self.payload[0] != CMRI_PREAMBLE_BYTE || self.payload[1] != CMRI_PREAMBLE_BYTE
            || self.payload[2] != CMRI_START_BYTE {
            return None;
        }
        if self.payload[n - 1] != CMRI_STOP_BYTE {
            return None;
        }
        let ghost raw = frame.subrange(5, frame.len() - 1);
        let mut data: Vec<u8> = Vec::new();
        let mut i: usize = 5;
        proof {
            assert(raw.skip(0) =~= raw);
            assert(data@ + collapse(raw) =~= collapse(raw));
        }
        while i < n - 1
            invariant
                self.wf(),
                6 <= n <= RX_BUFFER_LEN,
                n == self@.pos,
                5 <= i <= n - 1,
                frame == occupied(self@),
                raw == frame.subrange(5, frame.len() - 1),
                raw.len() == n - 6,
                well_escaped(raw) == well_escaped(raw.skip(i - 5)),
                collapse(raw) == data@ + collapse(raw.skip(i - 5)),
            decreases n - i,
        {
            let ghost k = i - 5;
            let ghost rest = raw.skip(k);
            proof {
                assert(rest.len() == raw.len() - k);
                assert(rest[0] == raw[k]);
                assert(raw[k] == frame[i as int]);
                assert(frame[i as int] == self@.payload[i as int]);
            }
            let b = self.payload[i];
            if b == CMRI_ESCAPE_BYTE {
                if i + 1 < n - 1 {
                    proof {
                        assert(rest.len() >= 2);
                        assert(rest[1] == raw[k + 1]);
                        assert(raw[k + 1] == frame[i + 1]);
                        assert(rest.skip(2) =~= raw.skip(k + 2));
                        assert(collapse(rest) == seq![rest[1]] + collapse(rest.skip(2)));
                        assert(well_escaped(rest) == well_escaped(rest.skip(2)));
                    }
                    data.push(self.payload[i + 1]);
                    i = i + 2;
                    proof {
                        assert(collapse(raw) =~= data@ + collapse(raw.skip(i - 5)));
                    }
                } else {
                    // A trailing escape: the region is not well escaped,
                    // so the buffer does not hold a complete frame.
                    proof {
                        assert(rest.len() == 1);
                        assert(!well_escaped(rest));
                        assert(!is_complete_frame(frame));
                    }
                    return None;
                }
            } else if b == CMRI_STOP_BYTE {
                // An unescaped stop inside the data region: the region is
                // not well escaped.
                proof {
                    assert(!well_escaped(rest));
                    assert(!is_complete_frame(frame));
                }
                return None;
            } else {
                proof {
                    assert(rest.skip(1) =~= raw.skip(k + 1));
                    assert(collapse(rest) == seq![rest[0]] + collapse(rest.skip(1)));
                    assert(well_escaped(rest) == well_escaped(rest.skip(1)));
                }
                data.push(b);
                i = i + 1;
                proof {
                    assert(collapse(raw) =~= data@ + collapse(raw.skip(i - 5)));
                }
            }
        }
        proof {
            assert(raw.skip(raw.len() as int) =~= Seq::<u8>::empty());
            assert(well_escaped(raw));
            assert(is_complete_frame(frame));
            assert(data@ =~= collapse(raw));
        }
        Some(
            CmriMessage {
                address: self.payload[3],
                message_type: decode_message_type(self.payload[4]),
                data,
            },
        )
    }
}

} // verus!
