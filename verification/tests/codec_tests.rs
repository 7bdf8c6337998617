use minimint_bridge::codec::decode_invoice;
use minimint_bridge::codec::encode_invoice;
use minimint_bridge::codec::parse_invoice_fields;
use minimint_bridge::errors::BridgeError;
use minimint_bridge::facade::fetch_payment;
use minimint_bridge::facade::invoice;
use minimint_bridge::facade::join_federation;
use minimint_bridge::facade::ConfigFetch;
use minimint_bridge::registry::Registry;

fn sample_hash() -> Vec<u8> {
    let mut v = Vec::new();
    for i in 0..32u8 {
        v.push(i);
    }
    v
}

fn sample_hash_hex() -> String {
    let mut s = String::new();
    for i in 0..32u8 {
        s.push_str(&format!("{:02x}", i));
    }
    s
}

#[test]
fn encode_exact_value() {
    let s = encode_invoice(1000, 1234, &sample_hash(), "coffee");
    let expected = format!("fm:1000:1234:{}:coffee", sample_hash_hex());
    assert_eq!(s, expected);
}

#[test]
fn encode_zero_amount_and_empty_description() {
    let s = encode_invoice(0, 0, &sample_hash(), "");
    let expected = format!("fm:0:0:{}:", sample_hash_hex());
    assert_eq!(s, expected);
}

#[test]
fn decode_exact_value() {
    let s = encode_invoice(1000, 1234, &sample_hash(), "coffee");
    let human = decode_invoice(s).unwrap();
    assert_eq!(human, "amount: 1000 sat, description: coffee");
}

#[test]
fn decode_round_trip_various() {
    for (amount, desc) in [
        (0u64, ""),
        (1, "a"),
        (999_999_999, "a longer description with spaces"),
        (u64::MAX, "edge: colons :: allowed in descriptions"),
    ] {
        let s = encode_invoice(amount, 77, &sample_hash(), desc);
        let human = decode_invoice(s).unwrap();
        assert_eq!(human, format!("amount: {} sat, description: {}", amount, desc));
    }
}

#[test]
fn decode_rejects_malformed() {
    for bad in [
        "",
        "fm",
        "fm:",
        "fm::",
        "garbage",
        "fm:abc:1:deadbeef:x",
        "fm:1000",
        "fm:1000:1234:deadbeef:too-short-hash",
        "lnbc1000n1p...",
        "fm:1000:1234:ZZ0102030405060708090a0b0c0d0e0f101112131415161718191a1b1c1d1e:x",
    ] {
        assert_eq!(
            decode_invoice(bad.to_string()),
            Err(BridgeError::InvoiceInvalid),
            "should have been rejected: {bad}"
        );
    }
}

#[test]
fn decode_rejects_non_ascii() {
    let s = format!("fm:1000:1234:{}:caf\u{e9}", sample_hash_hex());
    assert_eq!(decode_invoice(s), Err(BridgeError::InvoiceInvalid));
}

#[test]
fn decode_rejects_control_characters_in_description() {
    let s = format!("fm:1000:1234:{}:a\nb", sample_hash_hex());
    assert_eq!(decode_invoice(s), Err(BridgeError::InvoiceInvalid));
}

#[test]
fn parse_fields_reads_back_what_was_encoded() {
    let s = encode_invoice(4321, 99999, &sample_hash(), "tea");
    let f = parse_invoice_fields(&s).unwrap();
    assert_eq!(f.amount, 4321);
    assert_eq!(f.expires_at, 99999);
    assert_eq!(f.payment_hash, sample_hash());
}

#[test]
fn parse_fields_rejects_amount_overflow() {
    let s = format!("fm:99999999999999999999:1:{}:x", sample_hash_hex());
    assert!(parse_invoice_fields(&s).is_none());
    // The same digits still decode for display: the grammar accepts them.
    assert!(decode_invoice(s).is_ok());
}

// A record filed under hash bytes must be found again from the hex form
// of those bytes: if hex parsing handed its argument through unchanged,
// every lookup below would miss.
#[test]
fn payment_hash_hex_finds_the_record_it_spells() {
    let mut reg = Registry::new();
    join_federation(&mut reg, ConfigFetch::Connected).unwrap();
    invoice(&mut reg, 1, "x".to_string(), sample_hash(), 0).unwrap();
    assert!(fetch_payment(&reg, sample_hash_hex(), 0).is_ok());
    // Either case of hex digit spells the same bytes.
    assert!(fetch_payment(&reg, sample_hash_hex().to_uppercase(), 0).is_ok());
}

#[test]
fn payment_hash_rejects_bad_input() {
    let mut reg = Registry::new();
    join_federation(&mut reg, ConfigFetch::Connected).unwrap();
    invoice(&mut reg, 1, "x".to_string(), sample_hash(), 0).unwrap();
    for bad in [
        String::new(),
        "deadbeef".to_string(),
        // 63 digits: one short.
        sample_hash_hex()[..63].to_string(),
        // 64 characters but not hex.
        format!("g{}", &sample_hash_hex()[1..]),
    ] {
        assert_eq!(
            fetch_payment(&reg, bad, 0).unwrap_err(),
            BridgeError::PaymentNotFound
        );
    }
}
