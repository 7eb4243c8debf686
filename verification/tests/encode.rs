use usb_encode::encoder::{EncoderState, UsbEncoder};
use usb_encode::sink::BitsToLittleEndianBytes;
use usb_encode::source::LittleEndianBytesToBits;
use usb_encode::stream::{BitStream, BitVecSource};
use usb_encode::{encode, encode_str};

fn drain_bits<S: BitStream>(mut s: S) -> Vec<bool> {
    let mut out = Vec::new();
    while let Some(b) = s.next() {
        out.push(b);
    }
    out
}

fn drain_bytes<S: BitStream>(mut s: BitsToLittleEndianBytes<S>) -> Vec<u8> {
    let mut out = Vec::new();
    while let Some(byte) = s.next() {
        out.push(byte);
    }
    out
}

#[test]
fn encode_test() {
    assert_eq!(encode_str("1111"), "0000");
    assert_eq!(encode_str("11111"), "000001");
    assert_eq!(encode_str("0011"), "1000");
    assert_eq!(encode_str("111111"), "0000011");
}

#[test]
fn iterate_bit_test() {
    assert!(
        drain_bits(LittleEndianBytesToBits::from(vec![0b011]))
            == vec![true, true, false, false, false, false, false, false]
    );
}

#[test]
fn encode_empty() {
    assert_eq!(encode_str(""), "");
    assert_eq!(encode(vec![]), Vec::<u8>::new());
}

#[test]
fn encode_bytes_no_stuffing() {
    // Eight logical zeros: a transition on every step from the low seed
    // level, giving alternating physical bits, 0x55 packed LSB-first.
    assert_eq!(encode(vec![0x00]), vec![0x55]);
}

#[test]
fn encode_bytes_with_stuffing() {
    // Eight logical ones: five held-low bits until the cumulative run
    // (seeded at one) reaches six, one stuffed transition, then three held
    // high bits — nine physical bits, so a second, zero-padded byte.
    assert_eq!(encode(vec![0xFF]), vec![0xE0, 0x01]);
}

#[test]
fn step_one_from_seeded_state() {
    // A single logical 1 in state (1, low) holds the level: physical 0,
    // state advances to (2, low).
    let mut state = EncoderState::initial();
    assert_eq!(state.consecutive_ones, 1);
    assert!(!state.previous_output_level);
    let out = state.encode_bit(true);
    assert!(!out);
    assert_eq!(state, EncoderState { consecutive_ones: 2, previous_output_level: false });
}

#[test]
fn step_zero_forces_transition() {
    let mut state = EncoderState::initial();
    let out = state.encode_bit(false);
    assert!(out);
    assert_eq!(state.consecutive_ones, 0);
    assert!(state.previous_output_level);
}

#[test]
fn stuff_step_consumes_no_input_and_resets() {
    let mut state = EncoderState { consecutive_ones: 6, previous_output_level: false };
    let out = state.stuff_bit();
    assert!(out);
    assert_eq!(state, EncoderState { consecutive_ones: 0, previous_output_level: true });
}

#[test]
fn source_then_sink_reproduces_input() {
    let input = vec![0x00, 0xA5, 0xFF, 0x12, 0x80];
    let out = drain_bytes(BitsToLittleEndianBytes::from(LittleEndianBytesToBits::from(
        input.clone(),
    )));
    assert_eq!(out, input);
}

#[test]
fn sink_pads_only_final_byte() {
    // Ten bits: one full byte, then a byte holding two genuine bits and six
    // zero-padded high bits — and no byte beyond those two.
    let bits = vec![true, false, false, false, false, false, false, false, true, true];
    let out = drain_bytes(BitsToLittleEndianBytes::from(BitVecSource::from(bits)));
    assert_eq!(out, vec![0x01, 0x03]);
}

#[test]
fn sink_emits_no_byte_past_a_boundary() {
    // Exactly eight bits end on a byte boundary: one byte, no padded extra.
    let bits = vec![true; 8];
    let out = drain_bytes(BitsToLittleEndianBytes::from(BitVecSource::from(bits)));
    assert_eq!(out, vec![0xFF]);
}

#[test]
fn trailing_run_still_gets_stuffed_bit() {
    // Five logical ones exhaust the input just as the cumulative run
    // reaches six; the encoder still emits the stuffed transition.
    let out = drain_bits(UsbEncoder::from(BitVecSource::from(vec![true; 5])));
    assert_eq!(out, vec![false, false, false, false, false, true]);
}

#[test]
fn encoder_output_matches_text_front_end() {
    // The same logical bits through the byte pipeline and the textual one.
    // 0x0F unpacks LSB-first to 11110000.
    let packed = encode(vec![0x0F]);
    let text = encode_str("11110000");
    let mut bits = Vec::new();
    for c in text.chars() {
        bits.push(c == '1');
    }
    let repacked = drain_bytes(BitsToLittleEndianBytes::from(BitVecSource::from(bits)));
    assert_eq!(packed, repacked);
}
