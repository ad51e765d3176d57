use rinha_ledger::account::Account;
use rinha_ledger::codec::decode_account;
use rinha_ledger::codec::decode_transaction_slot;
use rinha_ledger::codec::encode_account;
use rinha_ledger::codec::encode_transaction;
use rinha_ledger::codec::ACCOUNT_RECORD_SIZE;
use rinha_ledger::codec::TRANSACTION_RECORD_SIZE;
use rinha_ledger::errors::LedgerError;
use rinha_ledger::transaction::Transaction;

#[test]
fn account_record_layout_is_little_endian() {
    let acc = Account { id: 1, balance: -2, credit_limit: 3 };
    let bytes = encode_account(&acc);
    assert_eq!(
        bytes,
        vec![1, 0, 0, 0, 0xfe, 0xff, 0xff, 0xff, 3, 0, 0, 0]
    );
}

#[test]
fn account_round_trip() {
    for acc in [
        Account { id: 1, balance: 0, credit_limit: 0 },
        Account { id: i32::MAX, balance: i32::MIN, credit_limit: u32::MAX },
        Account { id: 7, balance: -123_456, credit_limit: 1_000_000 },
    ] {
        let bytes = encode_account(&acc);
        assert_eq!(bytes.len(), ACCOUNT_RECORD_SIZE);
        assert_eq!(decode_account(bytes.as_slice()), acc);
    }
}

#[test]
fn transaction_round_trip_boundaries() {
    for t in [
        Transaction::generate(i32::MIN, "x", i128::MIN),
        Transaction::generate(i32::MAX, "1234567890", i128::MAX),
        Transaction::generate(-1, "a", 0),
        Transaction::generate(1, "vem de pix", 1_700_000_000_000_000_000),
    ] {
        let bytes = encode_transaction(&t);
        assert_eq!(bytes.len(), TRANSACTION_RECORD_SIZE);
        let back = decode_transaction_slot(bytes.as_slice()).unwrap().unwrap();
        assert_eq!(back, t);
    }
}

#[test]
fn transaction_record_layout() {
    let t = Transaction::generate(1, "ab", 2);
    let bytes = encode_transaction(&t);
    assert_eq!(&bytes[0..4], &[1, 0, 0, 0]); // amount, little endian
    assert_eq!(bytes[4], 1); // credit tag
    assert_eq!(&bytes[5..8], &[0, 0, 0]); // padding
    assert_eq!(&bytes[8..10], b"ab"); // description
    assert_eq!(&bytes[10..40], &[0u8; 30]); // zero padding of the slot
    assert_eq!(&bytes[40..44], &[2, 0, 0, 0]); // timestamp, little endian
    assert_eq!(&bytes[44..64], &[0u8; 20]); // high timestamp bytes + padding
}

#[test]
fn empty_slot_decodes_as_none() {
    let slot = vec![0u8; TRANSACTION_RECORD_SIZE];
    assert_eq!(decode_transaction_slot(slot.as_slice()).unwrap(), None);
}

#[test]
fn unknown_tag_is_a_corrupt_record() {
    let mut slot = encode_transaction(&Transaction::generate(1, "ab", 2));
    slot[4] = 3;
    assert!(matches!(
        decode_transaction_slot(slot.as_slice()),
        Err(LedgerError::CorruptRecord)
    ));
}

#[test]
fn zero_amount_under_written_tag_is_corrupt() {
    let mut slot = encode_transaction(&Transaction::generate(1, "ab", 2));
    slot[0] = 0; // amount becomes 0 while the tag still says credit
    assert!(matches!(
        decode_transaction_slot(slot.as_slice()),
        Err(LedgerError::CorruptRecord)
    ));
}

#[test]
fn sign_tag_mismatch_is_corrupt() {
    let mut slot = encode_transaction(&Transaction::generate(1, "ab", 2));
    slot[4] = 2; // debit tag over a positive amount
    assert!(matches!(
        decode_transaction_slot(slot.as_slice()),
        Err(LedgerError::CorruptRecord)
    ));
}
