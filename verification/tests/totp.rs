use kdbx::errors::ErrorKind;
use kdbx::totp::{code, get_totp, normalize_secret, parse};
use kdbx::vault::Entry;

fn entry_with_otp(otp: Option<&str>) -> Entry {
    Entry {
        title: "test-totp".to_string(),
        username: "test".to_string(),
        password: String::new(),
        url: String::new(),
        notes: String::new(),
        otp: otp.map(|s| s.to_string()),
    }
}

#[test]
fn test_normalize_spaced_secret() {
    assert_eq!(normalize_secret("JBSW Y3DP EHPK 3PXP"), "JBSWY3DPEHPK3PXP");
}

#[test]
fn test_normalize_idempotent_examples() {
    let once = normalize_secret("jbsw-y3dp ehpk\t3pxp");
    let twice = normalize_secret(&once);
    assert_eq!(once, "JBSWY3DPEHPK3PXP");
    assert_eq!(once, twice);
}

#[test]
fn test_normalize_pads_to_multiple_of_eight() {
    // A length that is already a multiple of eight gains no padding; any
    // other is brought up to the next multiple.
    assert_eq!(normalize_secret("JBSWY3DP"), "JBSWY3DP");
    assert_eq!(normalize_secret("JBSW"), "JBSW====");
    assert_eq!(normalize_secret("gezdgnbv gy3tqojq"), "GEZDGNBVGY3TQOJQ");
}

#[test]
fn test_parse_bare_secret_defaults() {
    let t = parse("JBSWY3DPEHPK3PXP").expect("valid secret");
    assert_eq!(t.period, 30);
    assert_eq!(t.digits, 6);
    assert!(t.issuer.is_none());
    assert_eq!(
        t.secret,
        vec![0x48, 0x65, 0x6c, 0x6c, 0x6f, 0x21, 0xde, 0xad, 0xbe, 0xef]
    );
}

#[test]
fn test_parse_repairs_bad_base32_once() {
    // Lowercase, spaced payload fails direct base32 parsing; the
    // normalization retry repairs it.
    let t = parse("jbsw y3dp ehpk 3pxp").expect("repaired secret");
    assert_eq!(
        t.secret,
        vec![0x48, 0x65, 0x6c, 0x6c, 0x6f, 0x21, 0xde, 0xad, 0xbe, 0xef]
    );

    let t = parse("otpauth://totp/x?secret=jbsw y3dp ehpk 3pxp").expect("repaired uri secret");
    assert_eq!(
        t.secret,
        vec![0x48, 0x65, 0x6c, 0x6c, 0x6f, 0x21, 0xde, 0xad, 0xbe, 0xef]
    );
}

#[test]
fn test_parse_uri_parameters() {
    let t = parse(
        "otpauth://totp/test-totp:test?secret=JBSWY3DPEHPK3PXP&period=60&digits=8&issuer=test-totp",
    )
    .expect("valid uri");
    assert_eq!(t.period, 60);
    assert_eq!(t.digits, 8);
    assert_eq!(t.issuer, Some("test-totp".to_string()));
}

#[test]
fn test_parse_errors() {
    assert_eq!(parse("otpauth://totp/x").unwrap_err(), ErrorKind::TotpMalformed);
    assert_eq!(
        parse("otpauth://totp/x?issuer=y").unwrap_err(),
        ErrorKind::TotpMalformed
    );
    assert_eq!(
        parse("otpauth://totp/x?secret=JBSWY3DPEHPK3PXP&period=zero").unwrap_err(),
        ErrorKind::TotpMalformed
    );
    assert_eq!(
        parse("otpauth://totp/x?secret=JBSWY3DPEHPK3PXP&period=0").unwrap_err(),
        ErrorKind::TotpMalformed
    );
    assert_eq!(
        parse("otpauth://totp/x?secret=JBSWY3DPEHPK3PXP&digits=12").unwrap_err(),
        ErrorKind::TotpMalformed
    );
    assert_eq!(
        parse("otpauth://totp/x?secret=JBSWY3DPEHPK3PXP&algorithm=MD5").unwrap_err(),
        ErrorKind::TotpMalformed
    );
    // An all-padding payload decodes to nothing: no usable secret.
    assert_eq!(parse("========").unwrap_err(), ErrorKind::TotpMissingSecret);
    // A payload the retry cannot repair stays malformed: '0' and '1' are
    // outside the base32 alphabet.
    assert_eq!(parse("0101").unwrap_err(), ErrorKind::TotpMalformed);
}

#[test]
fn test_code_rfc_vectors() {
    // The SHA-1 test vector: ASCII "12345678901234567890", time step 30,
    // at 59 seconds.
    let t = parse("otpauth://totp/x?secret=GEZDGNBVGY3TQOJQGEZDGNBVGY3TQOJQ&digits=8")
        .expect("vector secret");
    assert_eq!(code(&t, 59), "94287082");
    assert_eq!(code(&t, 1111111109), "07081804");

    let t6 = parse("GEZDGNBVGY3TQOJQGEZDGNBVGY3TQOJQ").expect("vector secret");
    assert_eq!(code(&t6, 59), "287082");

    let t256 = parse(
        "otpauth://totp/x?secret=GEZDGNBVGY3TQOJQGEZDGNBVGY3TQOJQGEZDGNBVGY3TQOJQGEZA&digits=8&algorithm=SHA256",
    )
    .expect("vector secret");
    assert_eq!(code(&t256, 59), "46119246");
}

#[test]
fn test_code_is_pure_and_zero_padded() {
    let t = parse("JBSWY3DPEHPK3PXP").expect("valid secret");
    let a = code(&t, 1234567890);
    let b = code(&t, 1234567890);
    assert_eq!(a, b);
    assert_eq!(a, "742275");
    let z = code(&t, 0);
    assert_eq!(z.len(), 6);
    assert_eq!(z, "282760");
    assert!(z.chars().all(|c| c.is_ascii_digit()));
}

#[test]
fn test_get_totp_raw_returns_stored_uri() {
    let uri = "otpauth://totp/test-totp:test?secret=JBSWY3DPEHPK3PXP&period=30&digits=6&issuer=test-totp";
    let entry = entry_with_otp(Some(uri));
    assert_eq!(get_totp(&entry, true, 0), Ok(uri.to_string()));
}

#[test]
fn test_get_totp_code_from_entry() {
    let uri = "otpauth://totp/test-totp:test?secret=JBSWY3DPEHPK3PXP&period=30&digits=6&issuer=test-totp";
    let entry = entry_with_otp(Some(uri));
    assert_eq!(get_totp(&entry, false, 1234567890), Ok("742275".to_string()));
}

#[test]
fn test_get_totp_missing_secret() {
    let none = entry_with_otp(None);
    let empty = entry_with_otp(Some(""));
    assert_eq!(get_totp(&none, false, 0), Err(ErrorKind::TotpMissingSecret));
    assert_eq!(get_totp(&none, true, 0), Err(ErrorKind::TotpMissingSecret));
    assert_eq!(get_totp(&empty, false, 0), Err(ErrorKind::TotpMissingSecret));
    assert_eq!(
        ErrorKind::TotpMissingSecret.message(),
        "Entry has no TOTP secret"
    );
}
