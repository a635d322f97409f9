use dict_client::StatusCode;

const KNOWN: [u16; 29] = [
    110, 111, 112, 113, 114, 130, 150, 151, 152, 210, 220, 221, 230, 250, 330, 420, 421, 500, 501,
    502, 503, 530, 531, 532, 550, 551, 552, 554, 555,
];

#[test]
fn classify_is_total_on_the_table() {
    for code in KNOWN {
        let c = StatusCode::from_u16(code).expect("known code");
        assert_eq!(c.to_u16(), code);
        assert_eq!(StatusCode::from_u16(code), Some(c));
    }
}

#[test]
fn classify_rejects_everything_else() {
    for code in 0..=u16::MAX {
        if !KNOWN.contains(&code) {
            assert_eq!(StatusCode::from_u16(code), None);
        }
    }
}

#[test]
fn classify_text() {
    assert_eq!(StatusCode::from_str("250"), Some(StatusCode::Okay));
    assert_eq!(StatusCode::from_str("0150"), Some(StatusCode::DefinitionsRetrieved));
    assert_eq!(StatusCode::from_str("999"), None);
    assert_eq!(StatusCode::from_str(""), None);
    assert_eq!(StatusCode::from_str("25x"), None);
    assert_eq!(StatusCode::from_str("-250"), None);
    assert_eq!(StatusCode::from_str("+250"), Some(StatusCode::Okay));
    assert_eq!(StatusCode::from_str("+"), None);
    assert_eq!(StatusCode::from_str("++250"), None);
    assert_eq!(StatusCode::from_str("250\r\n"), None);
    assert_eq!(StatusCode::from_str(" 250"), None);
    assert_eq!(StatusCode::from_str("70000"), None);
    assert_eq!(StatusCode::from_str("99999999999999999999999999"), None);
}

#[test]
fn is_error_exactly_for_failure_codes() {
    for code in KNOWN {
        let c = StatusCode::from_u16(code).unwrap();
        let expected = (500..=599).contains(&code) || code == 420 || code == 421;
        assert_eq!(c.is_error(), expected, "code {}", code);
    }
    assert!(StatusCode::ServerTemporarilyUnavailable.is_error());
    assert!(StatusCode::NoMatch.is_error());
    assert!(!StatusCode::Okay.is_error());
    assert!(!StatusCode::SendResponse.is_error());
}

#[test]
fn multi_line_codes() {
    let multi = [110u16, 111, 150, 151, 152, 220];
    for code in KNOWN {
        let c = StatusCode::from_u16(code).unwrap();
        assert_eq!(c.is_multple_data(), multi.contains(&code), "code {}", code);
    }
}
