use relay::codec::decode_envelope;
use relay::codec::encode_mailbox;
use relay::DecodeError;
use relay::Email;
use relay::Envelope;

#[test]
fn decode_activation() {
    let r = decode_envelope("{\"ActivationMessage\":[\"alice\",\"secret\"]}");
    match r {
        Ok(Envelope::ActivationMessage { identifier, credential }) => {
            assert_eq!(identifier, "alice");
            assert_eq!(credential, "secret");
        }
        _ => panic!("expected an activation envelope"),
    }
}

#[test]
fn decode_send_mail() {
    let r = decode_envelope("{\"SendMail\":{\"next\":\"bob\",\"mail\":\"hi\"}}");
    match r {
        Ok(Envelope::SendMail { next, mail }) => {
            assert_eq!(next, "bob");
            assert_eq!(mail, "hi");
        }
        _ => panic!("expected a send-mail envelope"),
    }
}

#[test]
fn decode_empty() {
    let r = decode_envelope("\"Empty\"");
    assert!(matches!(r, Ok(Envelope::Empty)));
}

#[test]
fn decode_unescapes_quotes_and_backslashes() {
    let r = decode_envelope("{\"SendMail\":{\"next\":\"b\",\"mail\":\"say \\\"hi\\\" \\\\ done\"}}");
    match r {
        Ok(Envelope::SendMail { next, mail }) => {
            assert_eq!(next, "b");
            assert_eq!(mail, "say \"hi\" \\ done");
        }
        _ => panic!("expected a send-mail envelope"),
    }
}

#[test]
fn decode_empty_strings() {
    let r = decode_envelope("{\"ActivationMessage\":[\"\",\"\"]}");
    match r {
        Ok(Envelope::ActivationMessage { identifier, credential }) => {
            assert_eq!(identifier, "");
            assert_eq!(credential, "");
        }
        _ => panic!("expected an activation envelope"),
    }
}

#[test]
fn decode_rejects_unknown_tag() {
    let r = decode_envelope("{\"Shutdown\":[\"a\",\"b\"]}");
    assert_eq!(r.unwrap_err(), DecodeError::Malformed);
}

#[test]
fn decode_rejects_truncated_frame() {
    let r = decode_envelope("{\"SendMail\":{\"next\":\"bob\",\"mail\":\"hi");
    assert_eq!(r.unwrap_err(), DecodeError::Malformed);
}

#[test]
fn decode_rejects_trailing_garbage() {
    let r = decode_envelope("\"Empty\"x");
    assert_eq!(r.unwrap_err(), DecodeError::Malformed);
    let r = decode_envelope("{\"ActivationMessage\":[\"a\",\"b\"]} ");
    assert_eq!(r.unwrap_err(), DecodeError::Malformed);
}

#[test]
fn decode_rejects_unknown_escape() {
    let r = decode_envelope("{\"SendMail\":{\"next\":\"b\",\"mail\":\"bad \\q escape\"}}");
    assert_eq!(r.unwrap_err(), DecodeError::Malformed);
}

#[test]
fn decode_unescapes_control_characters() {
    let r = decode_envelope("{\"SendMail\":{\"next\":\"b\",\"mail\":\"a\\nb\\tc\\rd\\be\\ff\\u0001g\"}}");
    match r {
        Ok(Envelope::SendMail { next, mail }) => {
            assert_eq!(next, "b");
            assert_eq!(mail, "a\nb\tc\rd\u{8}e\u{c}f\u{1}g");
        }
        _ => panic!("expected a send-mail envelope"),
    }
}

#[test]
fn decode_rejects_raw_control_character() {
    let r = decode_envelope("{\"SendMail\":{\"next\":\"b\",\"mail\":\"raw\ncontrol\"}}");
    assert_eq!(r.unwrap_err(), DecodeError::Malformed);
}

#[test]
fn decode_rejects_non_canonical_unicode_escape() {
    // \u0041 is 'A', which must stand raw; \u000a has the shorter \n.
    let r = decode_envelope("{\"SendMail\":{\"next\":\"b\",\"mail\":\"\\u0041\"}}");
    assert_eq!(r.unwrap_err(), DecodeError::Malformed);
    let r = decode_envelope("{\"SendMail\":{\"next\":\"b\",\"mail\":\"\\u000a\"}}");
    assert_eq!(r.unwrap_err(), DecodeError::Malformed);
}

#[test]
fn decode_rejects_plain_text() {
    assert_eq!(decode_envelope("hello").unwrap_err(), DecodeError::Malformed);
    assert_eq!(decode_envelope("").unwrap_err(), DecodeError::Malformed);
}

#[test]
fn encode_mailbox_empty() {
    let mails: Vec<Email> = vec![];
    assert_eq!(encode_mailbox(&mails), "[]");
}

#[test]
fn encode_mailbox_one_row() {
    let mails = vec![Email { payload: String::from("bye"), destination: String::from("alice") }];
    assert_eq!(
        encode_mailbox(&mails),
        "[{\"destination\":\"alice\",\"payload\":\"bye\"}]"
    );
}

#[test]
fn encode_mailbox_two_rows_in_order() {
    let mails = vec![
        Email { payload: String::from("m1"), destination: String::from("d") },
        Email { payload: String::from("m2"), destination: String::from("d") },
    ];
    assert_eq!(
        encode_mailbox(&mails),
        "[{\"destination\":\"d\",\"payload\":\"m1\"},{\"destination\":\"d\",\"payload\":\"m2\"}]"
    );
}

#[test]
fn encode_mailbox_escapes() {
    let mails = vec![Email { payload: String::from("a\"b\\c"), destination: String::from("x") }];
    assert_eq!(
        encode_mailbox(&mails),
        "[{\"destination\":\"x\",\"payload\":\"a\\\"b\\\\c\"}]"
    );
}

#[test]
fn encode_mailbox_escapes_control_characters() {
    let mails = vec![Email {
        payload: String::from("a\nb\tc\rd\u{8}e\u{c}f\u{1}g\u{1f}h"),
        destination: String::from("x"),
    }];
    assert_eq!(
        encode_mailbox(&mails),
        "[{\"destination\":\"x\",\"payload\":\"a\\nb\\tc\\rd\\be\\ff\\u0001g\\u001fh\"}]"
    );
}
