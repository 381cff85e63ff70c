use uguu::codec::{uguuu, uuugu, DecodeCursor};
use uguu::symbols::UguuError;

#[test]
fn encode_single_byte() {
    // 0x4B is 01 00 10 11: groups 1, 0, 2, 3, most significant first.
    assert_eq!(uguuu(&vec![0x4B]), vec!['ぐ', 'う', 'ぅ', '〜']);
}

#[test]
fn decode_single_byte() {
    assert_eq!(uuugu(&vec!['ぐ', 'う', 'ぅ', '〜']), Ok(vec![0x4B]));
}

#[test]
fn encode_empty() {
    assert_eq!(uguuu(&vec![]), Vec::<char>::new());
}

#[test]
fn decode_empty() {
    assert_eq!(uuugu(&vec![]), Ok(Vec::<u8>::new()));
}

#[test]
fn encode_known_bytes() {
    assert_eq!(uguuu(&vec![0x00]), vec!['う', 'う', 'う', 'う']);
    assert_eq!(uguuu(&vec![0xFF]), vec!['〜', '〜', '〜', '〜']);
    assert_eq!(uguuu(&vec![0x1B]), vec!['う', 'ぐ', 'ぅ', '〜']);
}

#[test]
fn encoded_length_is_four_per_byte() {
    for n in 0..20usize {
        let bytes: Vec<u8> = (0..n as u8).collect();
        assert_eq!(uguuu(&bytes).len(), 4 * n);
    }
}

#[test]
fn decoded_length_is_one_per_run() {
    let bytes: Vec<u8> = (0..50u8).collect();
    let symbols = uguuu(&bytes);
    let decoded = uuugu(&symbols).unwrap();
    assert_eq!(4 * decoded.len(), symbols.len());
}

#[test]
fn round_trip_all_byte_values() {
    let bytes: Vec<u8> = (0..=255u8).collect();
    let symbols = uguuu(&bytes);
    assert_eq!(uuugu(&symbols), Ok(bytes));
}

#[test]
fn alphabet_closure() {
    let bytes: Vec<u8> = (0..=255u8).collect();
    for c in uguuu(&bytes) {
        assert!(c == 'う' || c == 'ぐ' || c == 'ぅ' || c == '〜');
    }
}

#[test]
fn invalid_symbol_rejected() {
    assert_eq!(
        uuugu(&vec!['う', 'x', 'う', 'う']),
        Err(UguuError::InvalidSymbol)
    );
    assert_eq!(uuugu(&vec!['?']), Err(UguuError::InvalidSymbol));
    // A foreign character fails even when it sits after complete runs.
    assert_eq!(
        uuugu(&vec!['う', 'う', 'う', 'う', 'あ', 'う', 'う', 'う']),
        Err(UguuError::InvalidSymbol)
    );
}

#[test]
fn invalid_symbol_emits_no_byte_for_the_group() {
    // The offending group never reaches the output.
    let mut cursor = DecodeCursor::new();
    let mut out: Vec<u8> = Vec::new();
    let r = cursor.push(&vec!['う', 'う', 'う', 'x'], &mut out);
    assert_eq!(r, Err(UguuError::InvalidSymbol));
    assert_eq!(out, Vec::<u8>::new());
}

#[test]
fn truncated_stream_rejected() {
    assert_eq!(uuugu(&vec!['う']), Err(UguuError::TruncatedStream));
    assert_eq!(uuugu(&vec!['ぐ', 'ぅ']), Err(UguuError::TruncatedStream));
    assert_eq!(
        uuugu(&vec!['〜', 'う', 'ぐ']),
        Err(UguuError::TruncatedStream)
    );
    // One full run plus a partial one is still truncated.
    assert_eq!(
        uuugu(&vec!['う', 'う', 'う', 'う', 'ぐ']),
        Err(UguuError::TruncatedStream)
    );
}

#[test]
fn encode_chunk_boundaries_are_invisible() {
    let bytes: Vec<u8> = vec![0x4B, 0x00, 0xFF, 0x12, 0xAB, 0xCD, 0xEF];
    let whole = uguuu(&bytes);
    for split in 0..=bytes.len() {
        let mut chunked = uguuu(&bytes[..split].to_vec());
        chunked.extend(uguuu(&bytes[split..].to_vec()));
        assert_eq!(chunked, whole);
    }
}

#[test]
fn decode_chunk_boundaries_are_invisible() {
    let bytes: Vec<u8> = vec![0x4B, 0x00, 0xFF];
    let symbols = uguuu(&bytes);
    for first in 0..=symbols.len() {
        for second in first..=symbols.len() {
            let mut cursor = DecodeCursor::new();
            let mut out: Vec<u8> = Vec::new();
            assert_eq!(cursor.push(&symbols[..first].to_vec(), &mut out), Ok(()));
            assert_eq!(
                cursor.push(&symbols[first..second].to_vec(), &mut out),
                Ok(())
            );
            assert_eq!(cursor.push(&symbols[second..].to_vec(), &mut out), Ok(()));
            assert_eq!(cursor.finish(), Ok(()));
            assert_eq!(out, bytes);
        }
    }
}

#[test]
fn cursor_carries_partial_run_across_chunks() {
    // One run of four spans two physically separate chunks.
    let mut cursor = DecodeCursor::new();
    let mut out: Vec<u8> = Vec::new();
    assert_eq!(cursor.push(&vec!['ぐ', 'う'], &mut out), Ok(()));
    assert_eq!(out, Vec::<u8>::new());
    assert_eq!(cursor.push(&vec!['ぅ', '〜'], &mut out), Ok(()));
    assert_eq!(out, vec![0x4B]);
    assert_eq!(cursor.finish(), Ok(()));
}

#[test]
fn cursor_finish_reports_truncation() {
    let mut cursor = DecodeCursor::new();
    let mut out: Vec<u8> = Vec::new();
    assert_eq!(cursor.push(&vec!['う', 'ぐ', 'ぅ'], &mut out), Ok(()));
    assert_eq!(cursor.finish(), Err(UguuError::TruncatedStream));
}
