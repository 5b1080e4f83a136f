use snarkvm_ledger::block::{CoinbaseSolution, Transaction, TransactionSet};
use snarkvm_ledger::transmissions::{BytesError, ConfirmedTransmissions, Ratify};

fn sample_confirmed_transmissions() -> ConfirmedTransmissions {
    ConfirmedTransmissions {
        transactions: TransactionSet {
            transactions: vec![
                Transaction { id: [1; 32], minted: 5, burned: 2 },
                Transaction { id: [2; 32], minted: 0, burned: 1_000 },
            ],
            transactions_root: [3; 32],
            finalize_root: [4; 32],
        },
        ratifications: vec![Ratify::ProvingReward([5; 32], 37), Ratify::StakingReward([6; 32], 12)],
        coinbase: Some(CoinbaseSolution { accumulator_point: [7; 32], proof: vec![8, 9, 10] }),
    }
}

#[test]
fn test_bytes() -> Result<(), BytesError> {
    for expected in [sample_confirmed_transmissions()].into_iter() {
        // Check the byte representation.
        let expected_bytes = expected.to_bytes_le()?;
        assert_eq!(expected, ConfirmedTransmissions::read_le(&expected_bytes[..])?);
        assert!(ConfirmedTransmissions::read_le(&expected_bytes[1..]).is_err());
    }
    Ok(())
}

#[test]
fn bytes_layout() {
    let x = ConfirmedTransmissions {
        transactions: TransactionSet { transactions: vec![], transactions_root: [1; 32], finalize_root: [2; 32] },
        ratifications: vec![],
        coinbase: None,
    };
    let bytes = x.to_bytes_le().unwrap();
    let mut expected = vec![0u8, 0, 0, 0, 0];
    expected.extend([1u8; 32]);
    expected.extend([2u8; 32]);
    expected.extend([0u8, 0, 0, 0, 0]);
    assert_eq!(bytes, expected);
    assert_eq!(ConfirmedTransmissions::read_le(&bytes), Ok(x.clone()));

    let mut longer = bytes.clone();
    longer.push(42);
    assert_eq!(ConfirmedTransmissions::read_le(&longer), Ok(x));
}

#[test]
fn bytes_integers_are_little_endian() {
    let x = ConfirmedTransmissions {
        transactions: TransactionSet {
            transactions: vec![Transaction { id: [0; 32], minted: 0x0102030405060708, burned: 1 }],
            transactions_root: [0; 32],
            finalize_root: [0; 32],
        },
        ratifications: vec![],
        coinbase: None,
    };
    let bytes = x.to_bytes_le().unwrap();
    assert_eq!(&bytes[0..5], &[0, 1, 0, 0, 0]);
    assert_eq!(&bytes[37..45], &[8, 7, 6, 5, 4, 3, 2, 1]);
    assert_eq!(ConfirmedTransmissions::read_le(&bytes), Ok(x));
}

#[test]
fn bytes_errors() {
    let bytes = sample_confirmed_transmissions().to_bytes_le().unwrap();
    assert_eq!(ConfirmedTransmissions::read_le(&[]), Err(BytesError::UnexpectedEnd));
    assert_eq!(ConfirmedTransmissions::read_le(&[1]), Err(BytesError::InvalidVersion));
    assert_eq!(ConfirmedTransmissions::read_le(&bytes[..bytes.len() - 1]), Err(BytesError::UnexpectedEnd));
    let mut bad_coinbase = bytes.clone();
    let coinbase_at = bytes.len() - 1 - 32 - 4 - 3;
    bad_coinbase[coinbase_at] = 2;
    assert_eq!(ConfirmedTransmissions::read_le(&bad_coinbase), Err(BytesError::InvalidVariant));
    let mut bad_ratify = bytes.clone();
    let ratify_at = 1 + 4 + 2 * 48 + 64 + 4;
    bad_ratify[ratify_at] = 9;
    assert_eq!(ConfirmedTransmissions::read_le(&bad_ratify), Err(BytesError::InvalidVariant));
}
