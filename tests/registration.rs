use buzzen_irc::handshake::{outbound_echo, registration_lines, to_hex};

#[test]
fn registration_lines_hash_the_password() {
    let lines = registration_lines("me@example.com", "password", "rusty");
    assert_eq!(
        lines,
        vec![
            "AUTHTYPE ircwx1".to_string(),
            "LOGINH me@example.com 5f4dcc3b5aa765d61d8327deb882cf99".to_string(),
            "USER rusty * 0 :RustBot".to_string(),
            "CLIENTMODE cd1".to_string(),
        ]
    );
}

#[test]
fn hex_is_lower_case_two_digits_per_byte() {
    assert_eq!(to_hex(&[0x00, 0x0f, 0xa0, 0xff]), "000fa0ff");
    assert_eq!(to_hex(&[]), "");
}

#[test]
fn outbound_lines_are_echoed_masked() {
    assert_eq!(outbound_echo("PONG :x"), None);
    assert_eq!(outbound_echo("LOGINH a b").as_deref(), Some("<< LOGINH ********** ***********"));
    assert_eq!(outbound_echo("JOIN #chan").as_deref(), Some("<< JOIN #chan"));
}
