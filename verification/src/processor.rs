//! A C/MRI node: the frame decoder together with the node's input and
//! output bit buffers (64 bits each), and the clock divisor arithmetic for
//! the serial transport.
//!
//! Configuring the transport itself and moving bytes over it is the
//! embedding's concern; this module only holds the state and the
//! byte-by-byte decoding.

use vstd::prelude::*;

use crate::decoder::fresh_model;
use crate::decoder::spec_process;
use crate::decoder::CmriStateMachine;
use crate::decoder::Error;
use crate::decoder::RxState;
use crate::message::CmriMessage;

verus! {

/// Clock rate of the target part; divisors are computed for this rate.
pub const CPU_FREQUENCY_HZ: u64 = 16_000_000;

/// Number of output bits this node drives.
pub const OUTPUT_BITS: u8 = 64;

/// Number of input bits this node reads.
pub const INPUT_BITS: u8 = 64;

/// The divisor a 16 MHz part loads into its UART rate register for the
/// given baud rate, truncated to the register's width.
pub open spec fn spec_ubrr(baud: u64) -> u16
    recommends
        1 <= baud <= CPU_FREQUENCY_HZ / 16,
{
    ((CPU_FREQUENCY_HZ / 16 / baud - 1) as u16)
}

/// Compute the UART rate divisor for a baud rate. The rate must be at
/// least 1 and at most 1 000 000 (the fastest rate a 16 MHz clock can
/// divide down to).
pub fn ubrr_for_baud(baud: u64) -> (r: u16)
    requires
        1 <= baud <= 1_000_000,
    ensures
        r == spec_ubrr(baud),
{
    let q: u64 = CPU_FREQUENCY_HZ / 16 / baud;
    proof {
        assert(CPU_FREQUENCY_HZ / 16 == 1_000_000u64);
        assert(1_000_000u64 as int / baud as int >= 1) by (nonlinear_arith)
            requires
                1 <= baud <= 1_000_000u64,
        ;
    }
    #[verifier::truncate] ((q - 1) as u16)
}

/// The mask selecting one output or input bit; bit 0 is the most
/// significant bit of the word.
pub open spec fn spec_bit_mask(bit: u8) -> u64
    recommends
        bit < 64,
{
    (1u64 << ((63 - bit) as u64))
}

/// The value of one bit of a 64-bit buffer; out-of-range positions read
/// as false.
pub open spec fn spec_get_bit(bits: u64, bit: u8) -> bool {
    if bit >= 64 {
        false
    } else {
        bits & spec_bit_mask(bit) != 0
    }
}

/// A 64-bit buffer with one bit forced to a value; out-of-range positions
/// leave the buffer unchanged.
pub open spec fn spec_set_bit(bits: u64, bit: u8, value: bool) -> u64 {
    if bit >= 64 {
        bits
    } else if value {
        bits | spec_bit_mask(bit)
    } else {
        bits & !spec_bit_mask(bit)
    }
}

/// The value of one byte of a 64-bit buffer; byte 0 holds bits 0 to 7,
/// counted from the most significant end, matching the bit numbering of
/// `spec_get_bit`. Out-of-range positions read as zero.
pub open spec fn spec_get_byte(bits: u64, index: u8) -> u8 {
    if index >= 8 {
        0u8
    } else {
        (((bits >> (((7 - index) as u64) * 8)) & 0xff) as u8)
    }
}

/// A 64-bit buffer with one byte replaced; out-of-range positions leave
/// the buffer unchanged.
pub open spec fn spec_set_byte(bits: u64, index: u8, value: u8) -> u64 {
    if index >= 8 {
        bits
    } else {
        (bits & !(0xffu64 << (((7 - index) as u64) * 8))) | ((value as u64) << (((7 - index)
            as u64) * 8))
    }
}

/// Forcing one bit of a buffer and reading the same position yields the
/// forced value; every other position is untouched.
pub proof fn lemma_set_bit_then_get_bit(w: u64, bit: u8, value: bool, other: u8)
    requires
        bit < 64,
        other < 64,
    ensures
        spec_get_bit(spec_set_bit(w, bit, value), bit) == value,
        other != bit ==> spec_get_bit(spec_set_bit(w, bit, value), other) == spec_get_bit(
            w,
            other,
        ),
{
    let a = (63 - bit) as u64;
    let b = (63 - other) as u64;
    assert((w | (1u64 << a)) & (1u64 << a) != 0) by (bit_vector)
        requires
            a < 64,
    ;
    assert((w & !(1u64 << a)) & (1u64 << a) == 0) by (bit_vector)
        requires
            a < 64,
    ;
    if other != bit {
        assert(((w | (1u64 << a)) & (1u64 << b)) == (w & (1u64 << b))) by (bit_vector)
            requires
                a < 64,
                b < 64,
                a != b,
        ;
        assert(((w & !(1u64 << a)) & (1u64 << b)) == (w & (1u64 << b))) by (bit_vector)
            requires
                a < 64,
                b < 64,
                a != b,
        ;
    }
}

/// Replacing one byte of a buffer and reading the same position yields
/// the new byte; every other byte position is untouched.
pub proof fn lemma_set_byte_then_get_byte(w: u64, index: u8, value: u8, other: u8)
    requires
        index < 8,
        other < 8,
    ensures
        spec_get_byte(spec_set_byte(w, index, value), index) == value,
        other != index ==> spec_get_byte(spec_set_byte(w, index, value), other) == spec_get_byte(
            w,
            other,
        ),
{
    let s = (((7 - index) as u64) * 8) as u64;
    let t = (((7 - other) as u64) * 8) as u64;
    let v = value as u64;
    assert(((((w & !(0xffu64 << s)) | (v << s)) >> s) & 0xff) == v) by (bit_vector)
        requires
            s <= 56,
            s % 8 == 0,
            v < 256,
    ;
    if other != index {
        assert(((((w & !(0xffu64 << s)) | (v << s)) >> t) & 0xff) == ((w >> t) & 0xff))
            by (bit_vector)
            requires
                s <= 56,
                t <= 56,
                s % 8 == 0,
                t % 8 == 0,
                s != t,
                v < 256,
        ;
    }
}

/// One C/MRI node: 64 input bits, 64 output bits, and the frame decoder
/// for the serial link.
///
/// The fields are exposed so that an embedding can latch hardware state in
/// and out; the contracts of the decoding methods assume `state.wf()`.
pub struct CmriProcessor {
    pub input_bits: u64,
    pub output_bits: u64,
    pub state: CmriStateMachine,
}

impl CmriProcessor {
    /// A node with all bits clear and an idle decoder, ready to be
    /// attached to a serial link running at `baud`; the transport divisor
    /// for that rate is `ubrr_for_baud(baud)`, and programming it into the
    /// UART is the embedding's concern.
    pub fn new(baud: u64) -> (r: Self)
        requires
            1 <= baud <= 1_000_000,
        ensures
            r.input_bits == 0u64,
            r.output_bits == 0u64,
            r.state.wf(),
            r.state@ == fresh_model(),
    {
        CmriProcessor { input_bits: 0, output_bits: 0, state: CmriStateMachine::new() }
    }

    /// Read one output bit, counted from the most significant end of the
    /// output buffer; positions past the last bit read as false.
    pub fn get_bit(&self, bit: u8) -> (r: bool)
        ensures
            r == spec_get_bit(self.output_bits, bit),
    {
        // Ignore overflows
        if bit > OUTPUT_BITS - 1 {
            return false;
        }
        let mask: u64 = 1u64 << ((OUTPUT_BITS - 1 - bit) as u64);
        self.output_bits & mask != 0
    }

    /// Read one byte of the input buffer, as sent back to the host when
    /// it polls this node; byte 0 holds the most significant bits.
    /// Positions past the last byte read as zero.
    pub fn get_byte(&self, byte: u8) -> (r: u8)
        ensures
            r == spec_get_byte(self.input_bits, byte),
    {
        if byte > 7 {
            return 0;
        }
        ((self.input_bits >> (((7 - byte) as u64) * 8)) & 0xff) as u8
    }

    /// Force one input bit, counted from the most significant end of the
    /// input buffer; positions past the last bit change nothing.
    pub fn set_bit(&mut self, bit: u8, state: bool)
        ensures
            final(self).input_bits == spec_set_bit(old(self).input_bits, bit, state),
            final(self).output_bits == old(self).output_bits,
            final(self).state == old(self).state,
    {
        if bit > INPUT_BITS - 1 {
            return ;
        }
        let mask: u64 = 1u64 << ((INPUT_BITS - 1 - bit) as u64);
        if state {
            self.input_bits = self.input_bits | mask;
        } else {
            self.input_bits = self.input_bits & !mask;
        }
    }

    /// Replace one byte of the output buffer, as commanded by a message
    /// from the host; byte 0 holds the most significant bits. Positions
    /// past the last byte change nothing.
    pub fn set_byte(&mut self, byte: u8, state: u8)
        ensures
            final(self).output_bits == spec_set_byte(old(self).output_bits, byte, state),
            final(self).input_bits == old(self).input_bits,
            final(self).state == old(self).state,
    {
        if byte > 7 {
            return ;
        }
        let shift: u64 = ((7 - byte) as u64) * 8;
        self.output_bits = (self.output_bits & !(0xffu64 << shift)) | ((state as u64) << shift);
    }

    /// Feed one byte from the serial link into the frame decoder; the bit
    /// buffers are untouched.
    pub fn process_byte(&mut self, byte: u8) -> (r: Result<RxState, Error>)
        requires
            old(self).state.wf(),
        ensures
            final(self).state.wf(),
            final(self).state@ == spec_process(old(self).state@, byte).0,
            r == spec_process(old(self).state@, byte).1,
            final(self).input_bits == old(self).input_bits,
            final(self).output_bits == old(self).output_bits,
    {
        self.state.process(byte)
    }

    /// The message held in the decoder's buffer, if the buffer holds one
    /// complete frame; see `CmriStateMachine::message`.
    pub fn message(&self) -> (r: Option<CmriMessage>)
        requires
            self.state.wf(),
        ensures
            r is Some <==> crate::message::is_complete_frame(
                crate::decoder::occupied(self.state@),
            ),
            r matches Some(m) ==> {
                &&& m.address == crate::message::frame_address(crate::decoder::occupied(self.state@))
                &&& m.message_type == crate::message::spec_message_type(
                    crate::message::frame_type_byte(crate::decoder::occupied(self.state@)),
                )
                &&& m.data@ == crate::message::frame_data(crate::decoder::occupied(self.state@))
            },
    {
        self.state.message()
    }
}

impl Default for CmriProcessor {
    /// A node with all bits clear and an idle decoder.
    fn default() -> (r: Self)
        ensures
            r.input_bits == 0u64,
            r.output_bits == 0u64,
            r.state.wf(),
            r.state@ == fresh_model(),
    {
        CmriProcessor { input_bits: 0, output_bits: 0, state: CmriStateMachine::new() }
    }
}

} // verus!
