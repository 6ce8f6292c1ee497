//! Decoder for the C/MRI serial framing protocol.
//!
//! Bytes arrive one at a time from a serial link; the decoder reassembles
//! them into discrete messages (address, type, payload) while tolerating
//! line noise and resynchronizing after malformed input.

pub mod decoder;
pub mod laws;
pub mod message;
pub mod processor;

pub use decoder::CmriState;
pub use decoder::CmriStateMachine;
pub use decoder::Error;
pub use decoder::RxState;
pub use decoder::CMRI_ESCAPE_BYTE;
pub use decoder::CMRI_PREAMBLE_BYTE;
pub use decoder::CMRI_START_BYTE;
pub use decoder::CMRI_STOP_BYTE;
pub use decoder::RX_BUFFER_LEN;
pub use message::CmriMessage;
pub use message::MessageType;
pub use message::CMRI_POLL_TYPE;
pub use message::CMRI_SET_TYPE;
pub use processor::ubrr_for_baud;
pub use processor::CmriProcessor;
pub use processor::CPU_FREQUENCY_HZ;
pub use processor::INPUT_BITS;
pub use processor::OUTPUT_BITS;
