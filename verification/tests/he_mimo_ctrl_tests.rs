use bfi_lib::bandwidth::Bandwidth;
use bfi_lib::errors::BfaExtractionError;
use bfi_lib::he_mimo_ctrl::HeMimoControl;

#[test]
fn he_mimo_ctrl_extraction() {
    // 0000 1101 1100 0100 0000 0000 1000 0010 0001 1001 = 0x0dc4008219
    // HE MIMO Control:
    // .... .... .... .... .... .... .... .... .... .001 = Nc Index: 2 Columns (1)
    // .... .... .... .... .... .... .... .... ..01 1... = Nr Index: 4 Rows (3)
    // .... .... .... .... .... .... .... .... 00.. .... = BW: 0
    // .... .... .... .... .... .... .... ...0 .... .... = Grouping: Carrier Groups of 4 (0)
    // .... .... .... .... .... .... .... ..1. .... .... = Codebook Information: 1
    // .... .... .... .... .... .... .... 00.. .... .... = Feedback Type: SU (0)
    // .... .... .... .... .... .... .000 .... .... .... = Remaining Feedback Segments: 0
    // .... .... .... .... .... .... 1... .... .... .... = First Feedback Segment: 1
    // .... .... .... .... .000 0000 .... .... .... .... = RU Start Index: 0x00
    // .... .... ..00 0100 0... .... .... .... .... .... = RU End Index: 0x08
    // .... 1101 11.. .... .... .... .... .... .... .... = Sounding Dialog Token Number: 55
    // 0000 .... .... .... .... .... .... .... .... .... = Reserved: 0x0

    // bytestream (little endian)
    let byte_stream: &[u8] = &[0b00011001, 0b10000010, 0b00000000, 0b11000100, 0b00001101];

    let result = HeMimoControl::from_buf(byte_stream).unwrap();
    assert_eq!(result.nc_index, 1);
    assert_eq!(result.nr_index, 3);
    assert_eq!(result.bandwidth, Bandwidth::Bw20);
    assert_eq!(result.grouping, 0);
    assert_eq!(result.codebook_info, 1);
    assert_eq!(result.feedback_type, 0);
    assert_eq!(result.remaining_feedback_segments, 0);
    assert_eq!(result.first_feedback_segments, 1);
    assert_eq!(result.ru_start_index, 0);
    assert_eq!(result.ru_end_index, 0x08);
    assert_eq!(result.dialog_token_number, 55);
    assert_eq!(result.reserved_padding, 0);
}

#[test]
fn bandwidth_to_hz() {
    assert_eq!(Bandwidth::Bw20.to_hz(), 20_000_000);
    assert_eq!(Bandwidth::Bw40.to_hz(), 40_000_000);
    assert_eq!(Bandwidth::Bw80.to_hz(), 80_000_000);
    assert_eq!(Bandwidth::Bw160.to_hz(), 160_000_000);
}

#[test]
fn bandwidth_to_mhz() {
    assert_eq!(Bandwidth::Bw20.to_mhz(), 20);
    assert_eq!(Bandwidth::Bw40.to_mhz(), 40);
    assert_eq!(Bandwidth::Bw80.to_mhz(), 80);
    assert_eq!(Bandwidth::Bw160.to_mhz(), 160);
}

#[test]
fn bandwidth_from_code_valid_and_invalid() {
    assert_eq!(Bandwidth::from_code(0).unwrap(), Bandwidth::Bw20);
    assert_eq!(Bandwidth::from_code(1).unwrap(), Bandwidth::Bw40);
    assert_eq!(Bandwidth::from_code(2).unwrap(), Bandwidth::Bw80);
    assert_eq!(Bandwidth::from_code(3).unwrap(), Bandwidth::Bw160);
    for code in 4..=255u8 {
        assert!(matches!(
            Bandwidth::from_code(code),
            Err(BfaExtractionError::InvalidHeaderField)
        ));
    }
}

#[test]
fn header_too_short_is_rejected() {
    let byte_stream: &[u8] = &[0b00011001, 0b10000010, 0b00000000];
    let result = HeMimoControl::from_buf(byte_stream);
    if let Err(BfaExtractionError::InsufficientBitsize {
        required,
        available,
    }) = result
    {
        assert_eq!(required, 40);
        assert_eq!(available, 24);
    } else {
        assert!(false, "Expected InsufficientBitsize error");
    }
}
