use cmri::{ubrr_for_baud, CmriProcessor, CmriState, Error, MessageType, RxState};

fn bits(num: u64) -> Vec<bool> {
    let strbits = format!("{:064b}", num);
    strbits
        .chars()
        .map(|c| if c == '0' { false } else { true })
        .collect()
}

#[test]
fn get_bit() {
    let mut p = CmriProcessor::new(9600);
    // 1111 0000 0001 0010 1010 1011 0011 0100
    // 1100 1101 0000 0000 0000 0000 1010 1010
    p.output_bits = 0xf012_ab34_cd00_00aa;

    assert_eq!(p.get_bit(0), true);
    assert_eq!(p.get_bit(1), true);
    assert_eq!(p.get_bit(4), false);
}

#[test]
fn get_bit_random() {
    // Try fetching bits from five random numbers
    let mut p = CmriProcessor::new(9600);

    for _ in 0..5 {
        let number: u64 = rand::random();
        println!("Random number is: {}", number);
        println!("Binary representation: {:064b}", number);
        p.output_bits = number;

        for (n, bit) in bits(number).iter().enumerate() {
            assert_eq!(p.get_bit(n as u8), *bit);
        }
    }
}

#[test]
fn get_bit_out_of_range_reads_false() {
    let mut p = CmriProcessor::new(9600);
    p.output_bits = u64::MAX;
    assert_eq!(p.get_bit(63), true);
    assert_eq!(p.get_bit(64), false);
    assert_eq!(p.get_bit(255), false);
}

#[test]
fn get_byte_reads_input_bytes() {
    let mut p = CmriProcessor::new(9600);
    p.input_bits = 0xf012_ab34_cd00_00aa;
    assert_eq!(p.get_byte(0), 0xf0);
    assert_eq!(p.get_byte(1), 0x12);
    assert_eq!(p.get_byte(2), 0xab);
    assert_eq!(p.get_byte(7), 0xaa);
    assert_eq!(p.get_byte(8), 0);
}

#[test]
fn set_bit_forces_input_bits() {
    let mut p = CmriProcessor::new(9600);
    p.set_bit(0, true);
    assert_eq!(p.input_bits, 0x8000_0000_0000_0000);
    p.set_bit(63, true);
    assert_eq!(p.input_bits, 0x8000_0000_0000_0001);
    p.set_bit(0, false);
    assert_eq!(p.input_bits, 0x0000_0000_0000_0001);
    // Out-of-range positions change nothing.
    p.set_bit(64, true);
    assert_eq!(p.input_bits, 0x0000_0000_0000_0001);
}

#[test]
fn set_byte_replaces_output_byte() {
    let mut p = CmriProcessor::new(9600);
    p.set_byte(0, 0xab);
    assert_eq!(p.output_bits, 0xab00_0000_0000_0000);
    p.set_byte(7, 0xcd);
    assert_eq!(p.output_bits, 0xab00_0000_0000_00cd);
    p.set_byte(0, 0x12);
    assert_eq!(p.output_bits, 0x1200_0000_0000_00cd);
    // Out-of-range positions change nothing.
    p.set_byte(8, 0xff);
    assert_eq!(p.output_bits, 0x1200_0000_0000_00cd);
}

#[test]
fn set_byte_then_get_bit() {
    // A byte written by the host is visible bit by bit on the output side.
    let mut p = CmriProcessor::new(9600);
    p.set_byte(1, 0b1010_0001);
    assert_eq!(p.get_bit(8), true);
    assert_eq!(p.get_bit(9), false);
    assert_eq!(p.get_bit(10), true);
    assert_eq!(p.get_bit(15), true);
    assert_eq!(p.get_bit(0), false);
}

#[test]
fn ubrr_divisors() {
    // 16 MHz / 16 / baud - 1
    assert_eq!(ubrr_for_baud(9600), 103);
    assert_eq!(ubrr_for_baud(115200), 7);
    assert_eq!(ubrr_for_baud(1_000_000), 0);
}

#[test]
fn processor_decodes_frames() {
    let mut p = CmriProcessor::new(9600);
    let frame = [0xffu8, 0xff, 0x02, 0x41, 0x54, 0x11, 0x03];
    for (n, byte) in frame.iter().enumerate() {
        let res = p.process_byte(*byte);
        if n == frame.len() - 1 {
            assert_eq!(res, Ok(RxState::Complete));
        } else {
            assert_eq!(res, Ok(RxState::Listening));
        }
    }
    let m = p.message().unwrap();
    assert_eq!(m.address, 0x41);
    assert_eq!(m.message_type, MessageType::SetOutputs);
    assert_eq!(m.data, vec![0x11]);
    // Decoding does not touch the bit buffers.
    assert_eq!(p.input_bits, 0);
    assert_eq!(p.output_bits, 0);
}

#[test]
fn processor_reports_overflow() {
    let mut p = CmriProcessor::new(9600);
    for byte in [0xffu8, 0xff, 0x02, 0x01, 0x54] {
        assert_eq!(p.process_byte(byte), Ok(RxState::Listening));
    }
    for _ in 0..253 {
        assert_eq!(p.process_byte(0x55), Ok(RxState::Listening));
    }
    assert_eq!(p.process_byte(0x55), Err(Error::OutOfBounds));
    assert_eq!(p.state.state(), CmriState::Data);
}
