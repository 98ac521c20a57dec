use exchange_core::wal_record::{decode_record, encode_record, RecordRead, WalReadError, MAX_RECORD_SIZE};

#[test]
fn a_record_reads_back_what_was_written() {
    let cmd = b"deposit user 1 asset 100 amount 1000";
    let mut bytes = encode_record(42, cmd);
    assert_eq!(bytes.len(), 16 + cmd.len());
    assert_eq!(&bytes[0..4], &((8 + cmd.len()) as u32).to_le_bytes());
    let mut covered = bytes[0..4].to_vec();
    covered.extend_from_slice(&bytes[8..]);
    assert_eq!(&bytes[4..8], &crc32fast::hash(&covered).to_le_bytes());
    bytes.extend_from_slice(&encode_record(43, b"next"));
    match decode_record(&bytes).unwrap() {
        RecordRead::Record { seq, payload, consumed } => {
            assert_eq!(seq, 42);
            assert_eq!(payload, cmd.to_vec());
            assert_eq!(consumed, 16 + cmd.len());
            match decode_record(&bytes[consumed..]).unwrap() {
                RecordRead::Record { seq, payload, .. } => {
                    assert_eq!(seq, 43);
                    assert_eq!(payload, b"next".to_vec());
                }
                RecordRead::End => panic!("second record missing"),
            }
        }
        RecordRead::End => panic!("record missing"),
    }
}

#[test]
fn ends_and_damaged_records() {
    assert_eq!(decode_record(&[]), Ok(RecordRead::End));
    assert_eq!(decode_record(&[1, 0]), Ok(RecordRead::End));
    assert_eq!(decode_record(&[0, 0, 0, 0, 9, 9]), Ok(RecordRead::End));
    let too_large = ((MAX_RECORD_SIZE + 1) as u32).to_le_bytes();
    assert_eq!(decode_record(&too_large), Err(WalReadError::TooLarge));

    let good = encode_record(7, b"abc");
    assert_eq!(decode_record(&good[..good.len() - 1]), Err(WalReadError::Truncated));
    let mut flipped = good.clone();
    let last = flipped.len() - 1;
    flipped[last] ^= 1;
    assert_eq!(decode_record(&flipped), Err(WalReadError::CrcMismatch));

    // a length too small for a sequence number, with a matching checksum
    let mut short = 4u32.to_le_bytes().to_vec();
    let mut covered = short.clone();
    covered.extend_from_slice(&[1, 2, 3, 4]);
    short.extend_from_slice(&crc32fast::hash(&covered).to_le_bytes());
    short.extend_from_slice(&[1, 2, 3, 4]);
    assert_eq!(decode_record(&short), Err(WalReadError::TooShort));
}
