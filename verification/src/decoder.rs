//! The frame decoder: a finite-state machine that consumes one byte at a
//! time and accumulates a raw frame in a fixed-capacity buffer.

use vstd::prelude::*;

verus! {

/// Capacity of the receive buffer: the longest raw frame accepted, chosen
/// for interoperability with the reference C/MRI implementation (two
/// preamble bytes, start, address, type, data possibly doubled by escaping,
/// and stop).
pub const RX_BUFFER_LEN: usize = 258;

/// Marker byte; two in a row announce a frame.
pub const CMRI_PREAMBLE_BYTE: u8 = 0xff;
/// Opens the frame body after the double preamble.
pub const CMRI_START_BYTE: u8 = 0x02;
/// Terminates a frame.
pub const CMRI_STOP_BYTE: u8 = 0x03;
/// Makes the following data byte literal, whatever its value.
pub const CMRI_ESCAPE_BYTE: u8 = 0x10;

/// Possible states of the C/MRI system: exactly how much of a frame has
/// been validated so far.
#[derive(Copy, Clone, Debug, PartialEq, Eq, Structural)]
pub enum CmriState {
    Idle,
    Attn,
    Start,
    Addr,
    Type,
    Data,
    Escape,
}

/// Outcome of feeding one byte: still assembling, or a frame is complete.
#[derive(Copy, Clone, Debug, PartialEq, Eq, Structural)]
pub enum RxState {
    Listening,
    Complete,
}

/// The one failure the decoder reports: accepting the byte would write
/// past the end of the receive buffer.
#[derive(Copy, Clone, Debug, PartialEq, Eq, Structural)]
pub enum Error {
    OutOfBounds,
}

/// Mathematical model of a decoder: its state, the full buffer contents,
/// and the write cursor.
pub ghost struct DecoderModel {
    pub state: CmriState,
    pub payload: Seq<u8>,
    pub pos: nat,
}

/// An all-zero buffer of full capacity.
pub open spec fn zero_payload() -> Seq<u8> {
    Seq::new(RX_BUFFER_LEN as nat, |i: int| 0u8)
}

/// The model of a freshly constructed decoder.
pub open spec fn fresh_model() -> DecoderModel {
    DecoderModel { state: CmriState::Idle, payload: zero_payload(), pos: 0 }
}

/// The occupied prefix of the buffer: everything a completed frame or a
/// partial frame has written so far.
pub open spec fn occupied(d: DecoderModel) -> Seq<u8> {
    d.payload.take(d.pos as int)
}

/// Structural validity of a model: full-capacity buffer, cursor in bounds.
pub open spec fn model_wf(d: DecoderModel) -> bool {
    d.payload.len() == RX_BUFFER_LEN && d.pos <= RX_BUFFER_LEN
}

/// Effect of appending one byte at the cursor (the cursor must be in
/// bounds; `spec_process` checks that before using this).
pub open spec fn spec_append(d: DecoderModel, byte: u8) -> DecoderModel {
    DecoderModel { state: d.state, payload: d.payload.update(d.pos as int, byte), pos: d.pos + 1 }
}

/// A model whose buffer has been discarded: cursor at zero, contents
/// zeroed, in the given state.
pub open spec fn cleared(state: CmriState) -> DecoderModel {
    DecoderModel { state: state, payload: zero_payload(), pos: 0 }
}

/// The transition function of the decoder: given the current model and an
/// incoming byte, the model after the call and the reported result.
///
/// This is the single source of truth for `process`; every law about the
/// decoder is a statement about this function.
pub open spec fn spec_process(d: DecoderModel, byte: u8) -> (DecoderModel, Result<
    RxState,
    Error,
>) {
    match d.state {
        CmriState::Idle => {
            if byte == CMRI_PREAMBLE_BYTE {
                // The buffer is cleared first, so the append cannot overflow.
                (
                    DecoderModel {
                        state: CmriState::Attn,
                        payload: zero_payload().update(0, byte),
                        pos: 1,
                    },
                    Ok(RxState::Listening),
                )
            } else {
                // Other bytes are ignored while idle.
                (d, Ok(RxState::Listening))
            }
        },
        CmriState::Attn => {
            if byte == CMRI_PREAMBLE_BYTE {
                if d.pos == RX_BUFFER_LEN {
                    (d, Err(Error::OutOfBounds))
                } else {
                    (
                        DecoderModel {
                            state: CmriState::Start,
                            ..spec_append(d, byte)
                        },
                        Ok(RxState::Listening),
                    )
                }
            } else {
                // Anything else is noise: discard and resynchronize.
                (cleared(CmriState::Idle), Ok(RxState::Listening))
            }
        },
        CmriState::Start => {
            if byte == CMRI_START_BYTE {
                if d.pos == RX_BUFFER_LEN {
                    (d, Err(Error::OutOfBounds))
                } else {
                    (
                        DecoderModel {
                            state: CmriState::Addr,
                            ..spec_append(d, byte)
                        },
                        Ok(RxState::Listening),
                    )
                }
            } else {
                (cleared(CmriState::Idle), Ok(RxState::Listening))
            }
        },
        CmriState::Addr => {
            // The address byte is taken as-is.
            if d.pos == RX_BUFFER_LEN {
                (d, Err(Error::OutOfBounds))
            } else {
                (
                    DecoderModel { state: CmriState::Type, ..spec_append(d, byte) },
                    Ok(RxState::Listening),
                )
            }
        },
        CmriState::Type => {
            // The type byte is taken as-is.
            if d.pos == RX_BUFFER_LEN {
                (d, Err(Error::OutOfBounds))
            } else {
                (
                    DecoderModel { state: CmriState::Data, ..spec_append(d, byte) },
                    Ok(RxState::Listening),
                )
            }
        },
        CmriState::Data => {
            if d.pos == RX_BUFFER_LEN {
                (d, Err(Error::OutOfBounds))
            } else if byte == CMRI_ESCAPE_BYTE {
                (
                    DecoderModel { state: CmriState::Escape, ..spec_append(d, byte) },
                    Ok(RxState::Listening),
                )
            } else if byte == CMRI_STOP_BYTE {
                (
                    DecoderModel { state: CmriState::Idle, ..spec_append(d, byte) },
                    Ok(RxState::Complete),
                )
            } else {
                (spec_append(d, byte), Ok(RxState::Listening))
            }
        },
        CmriState::Escape => {
            // The escaped byte is accepted literally, whatever its value.
            if d.pos == RX_BUFFER_LEN {
                (d, Err(Error::OutOfBounds))
            } else {
                (
                    DecoderModel { state: CmriState::Data, ..spec_append(d, byte) },
                    Ok(RxState::Listening),
                )
            }
        },
    }
}

/// Model after replaying a whole byte sequence from `d`.
pub open spec fn replay_from(d: DecoderModel, s: Seq<u8>) -> DecoderModel
    decreases s.len(),
{
    if s.len() == 0 {
        d
    } else {
        replay_from(spec_process(d, s[0]).0, s.skip(1))
    }
}

/// Model after replaying a whole byte sequence on a fresh decoder.
pub open spec fn replay(s: Seq<u8>) -> DecoderModel {
    replay_from(fresh_model(), s)
}

/// The sequence of results reported while replaying `s` from `d`.
pub open spec fn outputs_from(d: DecoderModel, s: Seq<u8>) -> Seq<Result<RxState, Error>>
    decreases s.len(),
{
    if s.len() == 0 {
        Seq::empty()
    } else {
        seq![spec_process(d, s[0]).1] + outputs_from(spec_process(d, s[0]).0, s.skip(1))
    }
}

/// The sequence of results reported while replaying `s` on a fresh decoder.
pub open spec fn outputs(s: Seq<u8>) -> Seq<Result<RxState, Error>> {
    outputs_from(fresh_model(), s)
}

/// Main state machine, including decoding logic.
///
/// The fields are exposed so that an embedding can inspect the raw frame,
/// but the contracts of the methods assume `wf()`; code that writes the
/// fields directly is on its own.
pub struct CmriStateMachine {
    pub state: CmriState,
    pub payload: Vec<u8>,
    pub position: usize,
}

impl View for CmriStateMachine {
    type V = DecoderModel;

    open spec fn view(&self) -> DecoderModel {
        DecoderModel { state: self.state, payload: self.payload@, pos: self.position as nat }
    }
}

impl CmriStateMachine {
    /// Structural validity: the buffer has full capacity and the cursor is
    /// in bounds. Established by `new` and preserved by every method.
    pub open spec fn wf(&self) -> bool {
        model_wf(self@)
    }

    /// A decoder that is idle with an empty, zeroed buffer.
    pub fn new() -> (r: Self)
        ensures
            r.wf(),
            r@ == fresh_model(),
    {
        let mut payload: Vec<u8> = Vec::new();
        while payload.len() < RX_BUFFER_LEN
            invariant
                payload@.len() <= RX_BUFFER_LEN,
                forall|j: int| 0 <= j < payload@.len() ==> payload@[j] == 0u8,
            decreases RX_BUFFER_LEN - payload.len(),
        {
            payload.push(0u8);
        }
        proof {
            assert(payload@ =~= zero_payload());
        }
        CmriStateMachine { state: CmriState::Idle, payload, position: 0 }
    }

    /// Returns the current state of the system.
    pub fn state(&self) -> (r: CmriState)
        ensures
            r == self@.state,
    {
        self.state
    }

    /// Returns the write cursor: the number of occupied buffer bytes.
    pub fn position(&self) -> (r: usize)
        ensures
            r == self@.pos,
    {
        self.position
    }

    /// Push a byte onto the rx buffer.
    pub fn push(&mut self, byte: u8) -> (r: Result<(), Error>)
        requires
            old(self).wf(),
        ensures
            final(self).wf(),
            old(self)@.pos == RX_BUFFER_LEN ==> r == Err::<(), Error>(Error::OutOfBounds)
                && final(self)@ == old(self)@,
            old(self)@.pos < RX_BUFFER_LEN ==> r == Ok::<(), Error>(()) && final(self)@
                == spec_append(old(self)@, byte),
    {
        if self.position == RX_BUFFER_LEN {
            // Buffer is full, which is problematic
            return Err(Error::OutOfBounds);
        }
        self.payload.set(self.position, byte);
        self.position = self.position + 1;
        Ok(())
    }

    /// Empty the rx buffer.
    pub fn clear(&mut self)
        requires
            old(self).wf(),
        ensures
            final(self).wf(),
            final(self)@ == cleared(old(self)@.state),
    {
        let mut i: usize = 0;
        while i < RX_BUFFER_LEN
            invariant
                i <= RX_BUFFER_LEN,
                self.payload@.len() == RX_BUFFER_LEN,
                self.state == old(self).state,
                forall|j: int| 0 <= j < i ==> self.payload@[j] == 0u8,
            decreases RX_BUFFER_LEN - i,
        {
            self.payload.set(i, 0u8);
            i = i + 1;
        }
        self.position = 0;
        proof {
            assert(self.payload@ =~= zero_payload());
        }
    }

    /// Main process function. Takes in bytes off the wire and builds up a
    /// message in the receive buffer.
    ///
    /// The whole effect is pinned by `spec_process`: the new model and the
    /// result are a function of the old model and the byte alone.
    pub fn process(&mut self, byte: u8) -> (r: Result<RxState, Error>)
        requires
            old(self).wf(),
        ensures
            final(self).wf(),
            final(self)@ == spec_process(old(self)@, byte).0,
            r == spec_process(old(self)@, byte).1,
            // A frame completes exactly on an unescaped stop byte that fits.
            r == Ok::<RxState, Error>(RxState::Complete) <==> old(self)@.state == CmriState::Data
                && byte == CMRI_STOP_BYTE && old(self)@.pos < RX_BUFFER_LEN,
            // An error is reported only with the decoder left unchanged.
            r is Err ==> final(self)@ == old(self)@,
    {
        match self.state {
            CmriState::Idle => {
                // Idle to Attn if byte is PREAMBLE
                if byte == CMRI_PREAMBLE_BYTE {
                    self.clear();
                    let res = self.push(byte);
                    proof {
                        assert(res is Ok);
                        assert(self@.payload =~= zero_payload().update(0, byte));
                    }
                    self.state = CmriState::Attn;
                }
                // Ignore other bytes while Idle
            },
            CmriState::Attn => {
                // Attn to Start if byte is PREAMBLE
                if byte == CMRI_PREAMBLE_BYTE {
                    self.push(byte)?;
                    self.state = CmriState::Start;
                } else {
                    // Otherwise discard and reset to Idle
                    self.clear();
                    self.state = CmriState::Idle;
                }
            },
            CmriState::Start => {
                // start byte must be valid
                if byte == CMRI_START_BYTE {
                    self.push(byte)?;
                    self.state = CmriState::Addr;
                } else {
                    // Otherwise discard and reset to Idle
                    self.clear();
                    self.state = CmriState::Idle;
                }
            },
            CmriState::Addr => {
                // Take the next byte as-is for an address
                self.push(byte)?;
                self.state = CmriState::Type;
            },
            CmriState::Type => {
                // Take the next byte as-is for message type
                self.push(byte)?;
                self.state = CmriState::Data;
            },
            CmriState::Data => {
                if byte == CMRI_ESCAPE_BYTE {
                    // escape the next byte
                    self.push(byte)?;
                    self.state = CmriState::Escape;
                } else if byte == CMRI_STOP_BYTE {
                    // end transmission
                    self.push(byte)?;
                    self.state = CmriState::Idle;
                    return Ok(RxState::Complete);
                } else {
                    // any other byte we take as data
                    self.push(byte)?;
                }
            },
            CmriState::Escape => {
                // Escape the next byte, so accept it as data.
                self.push(byte)?;
                self.state = CmriState::Data;
            },
        }
        Ok(RxState::Listening)
    }

    /// Feed a whole byte sequence, collecting the per-byte results. The
    /// final model and the result sequence are functions of the input
    /// bytes and the starting model alone.
    pub fn process_all(&mut self, bytes: &Vec<u8>) -> (r: Vec<Result<RxState, Error>>)
        requires
            old(self).wf(),
        ensures
            final(self).wf(),
            final(self)@ == replay_from(old(self)@, bytes@),
            r@ == outputs_from(old(self)@, bytes@),
    {
        let ghost start = self@;
        let mut results: Vec<Result<RxState, Error>> = Vec::new();
        let mut i: usize = 0;
        while i < bytes.len()
            invariant
                i <= bytes@.len(),
                self.wf(),
                self@ == replay_from(start, bytes@.take(i as int)),
                results@ == outputs_from(start, bytes@.take(i as int)),
            decreases bytes@.len() - i,
        {
            let res = self.process(bytes[i]);
            results.push(res);
            proof {
                crate::laws::lemma_replay_from_snoc(start, bytes@.take(i as int), bytes@[i as int]);
                assert(bytes@.take(i as int).push(bytes@[i as int]) =~= bytes@.take(i + 1));
            }
            i = i + 1;
        }
        proof {
            assert(bytes@.take(bytes@.len() as int) =~= bytes@);
        }
        results
    }
}

impl Default for CmriStateMachine {
    /// Same as `new`: an idle decoder with an empty, zeroed buffer.
    fn default() -> (r: Self)
        ensures
            r.wf(),
            r@ == fresh_model(),
    {
        CmriStateMachine::new()
    }
}

} // verus!
