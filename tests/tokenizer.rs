use buzzen_irc::message::{tokenize, CommandToken, Identity};

#[test]
fn trailing_parameter_keeps_its_spaces() {
    let m = tokenize(":nick!user@host PRIVMSG #chan :hello there friend");
    assert_eq!(m.prefix.as_deref(), Some("nick!user@host"));
    assert!(matches!(&m.command, CommandToken::Named(n) if n == "PRIVMSG"));
    assert_eq!(m.params, vec!["#chan".to_string(), "hello there friend".to_string()]);
    assert!(m.trailing);
}

#[test]
fn line_without_prefix() {
    let m = tokenize("NOTICE AUTH :*** Looking up your hostname");
    assert!(m.prefix.is_none());
    assert!(matches!(&m.command, CommandToken::Named(n) if n == "NOTICE"));
    assert_eq!(m.params, vec!["AUTH".to_string(), "*** Looking up your hostname".to_string()]);
}

#[test]
fn numeric_commands() {
    let m = tokenize(":server 001 mynick :Welcome");
    assert!(matches!(m.command, CommandToken::Numeric(1)));
    let m = tokenize(":server 372 me :- motd");
    assert!(matches!(m.command, CommandToken::Numeric(372)));
    let m = tokenize(":server 1234 me :x");
    assert!(matches!(&m.command, CommandToken::Named(n) if n == "1234"));
    let m = tokenize(":server 0x1 me");
    assert!(matches!(&m.command, CommandToken::Named(n) if n == "0x1"));
}

#[test]
fn middle_parameters_without_trailing() {
    let m = tokenize(":a MODE #c +o bob");
    assert_eq!(m.params, vec!["#c".to_string(), "+o".to_string(), "bob".to_string()]);
    assert!(!m.trailing);
    let m = tokenize("QUIT");
    assert!(m.params.is_empty());
    let m = tokenize(":onlyprefix");
    assert!(matches!(&m.command, CommandToken::Named(n) if n.is_empty()));
}

#[test]
fn identity_splits_at_bang() {
    let id = Identity::parse("alice!u@h");
    assert_eq!(id.nick, "alice");
    assert_eq!(id.address.as_deref(), Some("u@h"));
    let id = Identity::parse("irc.server.net");
    assert_eq!(id.nick, "irc.server.net");
    assert!(id.address.is_none());
}

#[test]
fn numeric_range_ends() {
    assert!(matches!(tokenize(":s 000 me").command, CommandToken::Numeric(0)));
    assert!(matches!(tokenize(":s 999 me").command, CommandToken::Numeric(999)));
    assert!(matches!(tokenize(":s 7 me").command, CommandToken::Numeric(7)));
}
