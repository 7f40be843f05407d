use inertia_relayer::proxy::cert_pin::hex_val;
use inertia_relayer::proxy::cert_pin::parse_cert_pin;
use inertia_relayer::proxy::cert_pin::PinnedServerCertVerifier;
use inertia_relayer::text::decimal_text;
use inertia_relayer::text::hex_encode;

// SHA-256 of the three bytes "abc".
const ABC: &str = "ba7816bf8f01cfea414140de5dae2223b00361a396177a9cb410ff61f20015ad";

#[test]
fn accepts_the_pinned_certificate() {
    let verifier = PinnedServerCertVerifier { pinned_sha256: parse_cert_pin(ABC).unwrap() };
    assert_eq!(verifier.verify_server_cert(b"abc"), Ok(()));
}

#[test]
fn refuses_another_certificate() {
    let verifier = PinnedServerCertVerifier { pinned_sha256: [0x0a; 32] };
    let expected = format!(
        "server certificate fingerprint mismatch: expected {}, got {}",
        "0a".repeat(32),
        ABC
    );
    assert_eq!(verifier.verify_server_cert(b"abc"), Err(expected));
}

#[test]
fn compares_every_byte_of_a_fingerprint() {
    let pinned = parse_cert_pin(ABC).unwrap();
    let verifier = PinnedServerCertVerifier { pinned_sha256: pinned };
    for i in 0..32 {
        let mut presented = pinned;
        presented[i] ^= 1;
        assert!(verifier.check_fingerprint(&presented).is_err());
    }
    assert_eq!(verifier.check_fingerprint(&pinned), Ok(()));
}

#[test]
fn reads_a_fingerprint_byte_by_byte() {
    let pin = parse_cert_pin(ABC).unwrap();
    assert_eq!(pin[0], 0xba);
    assert_eq!(pin[1], 0x78);
    assert_eq!(pin[31], 0xad);
}

#[test]
fn separators_and_case_do_not_matter() {
    let upper = ABC.to_uppercase();
    let mut spaced = String::from(" \t\n\r\x0c");
    for (i, c) in upper.chars().enumerate() {
        if i > 0 && i % 2 == 0 {
            spaced.push(':');
        }
        spaced.push(c);
    }
    assert_eq!(parse_cert_pin(&spaced), parse_cert_pin(ABC));
}

#[test]
fn a_fingerprint_reads_back_what_was_written() {
    let mut pin = [0u8; 32];
    for i in 0..32 {
        pin[i] = (i * 37 + 11) as u8;
    }
    assert_eq!(parse_cert_pin(&hex_encode(&pin)), Ok(pin));
}

#[test]
fn complains_about_the_length() {
    assert_eq!(
        parse_cert_pin("abcd"),
        Err("expected 64 hex characters (32-byte SHA-256), got 4".to_string())
    );
    assert_eq!(
        parse_cert_pin(""),
        Err("expected 64 hex characters (32-byte SHA-256), got 0".to_string())
    );
    assert_eq!(
        parse_cert_pin(&"0".repeat(65)),
        Err("expected 64 hex characters (32-byte SHA-256), got 65".to_string())
    );
}

#[test]
fn length_counts_bytes_of_text() {
    // Two bytes in UTF-8.
    assert_eq!(
        parse_cert_pin("\u{e9}"),
        Err("expected 64 hex characters (32-byte SHA-256), got 2".to_string())
    );
}

#[test]
fn complains_about_the_first_bad_digit() {
    let mut text = "0".repeat(64);
    text.replace_range(10..11, "g");
    text.replace_range(20..21, "x");
    assert_eq!(parse_cert_pin(&text), Err("invalid hex character: 'g'".to_string()));
}

#[test]
fn a_bad_digit_is_shown_escaped() {
    assert_eq!(hex_val(b'\''), Err("invalid hex character: '\\''".to_string()));
    assert_eq!(hex_val(0), Err("invalid hex character: '\\0'".to_string()));
    assert_eq!(hex_val(b'G'), Err("invalid hex character: 'G'".to_string()));
}

#[test]
fn hex_digits_have_their_values() {
    assert_eq!(hex_val(b'0'), Ok(0));
    assert_eq!(hex_val(b'9'), Ok(9));
    assert_eq!(hex_val(b'a'), Ok(10));
    assert_eq!(hex_val(b'f'), Ok(15));
    assert_eq!(hex_val(b'A'), Ok(10));
    assert_eq!(hex_val(b'F'), Ok(15));
}

#[test]
fn numbers_as_text() {
    assert_eq!(decimal_text(0), "0");
    assert_eq!(decimal_text(10), "10");
    assert_eq!(decimal_text(u64::MAX), "18446744073709551615");
    assert_eq!(hex_encode(&[0x00, 0x0f, 0xf0, 0xab]), "000ff0ab");
}
