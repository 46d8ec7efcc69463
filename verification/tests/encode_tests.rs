use oracle_node::{encode_update_call, ScaledPriceSet};

#[test]
fn encodes_selector_then_three_words_in_usd_eur_btc_order() {
    let p = ScaledPriceSet { usd: 0x0102030405060708, eur: 1, btc: u64::MAX };
    let data = encode_update_call(&[0xAA, 0xBB, 0xCC, 0xDD], &p);
    assert_eq!(data.len(), 100);
    assert_eq!(&data[0..4], &[0xAA, 0xBB, 0xCC, 0xDD]);

    // USD word: 24 bytes of padding, then the big-endian bytes
    assert!(data[4..28].iter().all(|&b| b == 0));
    assert_eq!(&data[28..36], &[1, 2, 3, 4, 5, 6, 7, 8]);

    // EUR word
    assert!(data[36..67].iter().all(|&b| b == 0));
    assert_eq!(data[67], 1);

    // BTC word
    assert!(data[68..92].iter().all(|&b| b == 0));
    assert!(data[92..100].iter().all(|&b| b == 0xFF));
}

#[test]
fn encodes_zero_prices_as_zero_words() {
    let p = ScaledPriceSet { usd: 0, eur: 0, btc: 0 };
    let data = encode_update_call(&[0, 0, 0, 0], &p);
    assert_eq!(data, vec![0u8; 100]);
}
