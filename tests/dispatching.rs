use buzzen_irc::dispatch::{build_message_event, build_notice_event, Dialect, Phase, Session};
use buzzen_irc::body::Body;
use buzzen_irc::event::SemanticEvent;
use buzzen_irc::message::Identity;

fn user(nick: &str, address: &str) -> Identity {
    Identity { nick: nick.to_string(), address: Some(address.to_string()) }
}

fn events(session: &mut Session, line: &str) -> Vec<SemanticEvent> {
    let step = session.handle_line(line);
    assert!(step.outbound.is_none());
    step.events
}

#[test]
fn ping_is_answered_with_pong() {
    let mut s = Session::new("#chan".to_string());
    let step = s.handle_line("PING :server.example");
    assert_eq!(step.outbound.as_deref(), Some("PONG :server.example"));
    assert!(step.events.is_empty());
    assert_eq!(s.phase, Phase::Unauthenticated);
}

#[test]
fn welcome_numeric_joins_and_records_identity() {
    let mut s = Session::new("#chan".to_string());
    let step = s.handle_line(":server 001 mynick :Welcome mynick!user@host");
    assert_eq!(step.outbound.as_deref(), Some("JOIN #chan"));
    assert_eq!(
        step.events,
        vec![SemanticEvent::Numeric { code: 1, text: "Welcome mynick!user@host".to_string() }]
    );
    assert_eq!(s.phase, Phase::Joined);
    assert_eq!(s.state.nickname, "mynick");
    assert_eq!(s.state.address, "user@host");
    let again = s.handle_line(":server 001 other :Welcome other!x@y");
    assert!(again.outbound.is_none());
    assert_eq!(s.state.nickname, "mynick");
}

#[test]
fn welcome_without_identity_keeps_nickname() {
    let mut s = Session::new("%#Lobby".to_string());
    let step = s.handle_line(":server 001 me :Welcome to the network");
    assert_eq!(step.outbound.as_deref(), Some("JOIN %#Lobby"));
    assert_eq!(s.phase, Phase::Joined);
    assert_eq!(s.state.nickname, "");
}

#[test]
fn ctcp_action_and_request() {
    let mut s = Session::new("#chan".to_string());
    assert_eq!(
        events(&mut s, ":bob!u@h PRIVMSG #chan :\u{1}ACTION waves\u{1}"),
        vec![SemanticEvent::Action {
            sender: user("bob", "u@h"),
            target: "#chan".to_string(),
            text: "waves".to_string(),
        }]
    );
    assert_eq!(
        events(&mut s, ":bob!u@h PRIVMSG me :\u{1}VERSION\u{1}"),
        vec![SemanticEvent::CtcpRequest { sender: user("bob", "u@h"), request: "VERSION".to_string() }]
    );
}

#[test]
fn short_kick_is_dropped_and_processing_goes_on() {
    let mut s = Session::new("#chan".to_string());
    assert!(events(&mut s, ":op!u@h KICK #chan bob").is_empty());
    assert_eq!(
        events(&mut s, ":op!u@h KICK #chan bob :flooding  "),
        vec![SemanticEvent::Kicked {
            sender: user("op", "u@h"),
            channel: "#chan".to_string(),
            target: "bob".to_string(),
            reason: "flooding".to_string(),
        }]
    );
}

#[test]
fn own_nick_change_is_tracked() {
    let mut s = Session::new("#chan".to_string());
    s.state.nickname = "alice".to_string();
    events(&mut s, ":carol!u@h NICK :dave");
    assert_eq!(s.state.nickname, "alice");
    assert_eq!(
        events(&mut s, ":alice!u@h NICK :bob"),
        vec![SemanticEvent::NickChanged { sender: user("alice", "u@h"), new_nick: "bob".to_string() }]
    );
    assert_eq!(s.state.nickname, "bob");
}

#[test]
fn join_part_quit() {
    let mut s = Session::new("#chan".to_string());
    let joined = SemanticEvent::Joined { sender: user("g", "u@h"), channel: "%#Lobby".to_string() };
    assert_eq!(events(&mut s, ":g!u@h JOIN :%#Lobby"), vec![joined]);
    let joined = SemanticEvent::Joined { sender: user("r", "u@h"), channel: "%#Lobby".to_string() };
    assert_eq!(events(&mut s, ":r!u@h JOIN H,U,GY :%#Lobby"), vec![joined]);
    assert_eq!(
        events(&mut s, ":g!u@h PART %#Lobby"),
        vec![SemanticEvent::Parted { sender: user("g", "u@h"), channel: "%#Lobby".to_string() }]
    );
    assert_eq!(
        events(&mut s, ":g!u@h QUIT :Gone for now \t"),
        vec![SemanticEvent::Quit { sender: user("g", "u@h"), reason: "Gone for now".to_string() }]
    );
    assert!(events(&mut s, "JOIN :#nowhere").is_empty());
}

#[test]
fn channel_and_private_messages() {
    let mut s = Session::new("#chan".to_string());
    assert_eq!(
        events(&mut s, ":nick!user@host PRIVMSG #chan :hello there friend"),
        vec![SemanticEvent::ChannelMessage {
            sender: user("nick", "user@host"),
            channel: "#chan".to_string(),
            text: "hello there friend".to_string(),
        }]
    );
    assert_eq!(
        events(&mut s, ":nick!user@host PRIVMSG %#Lobby me :[style b]psst[/style]"),
        vec![SemanticEvent::PrivateMessage { sender: user("nick", "user@host"), text: "psst".to_string() }]
    );
    assert_eq!(
        events(&mut s, ":nick!user@host PRIVMSG %#Lobby :\u{2}VERSION mIRC 7\u{2}"),
        vec![SemanticEvent::CtcpReply {
            sender: user("nick", "user@host"),
            verb: "VERSION".to_string(),
            text: "mIRC 7".to_string(),
        }]
    );
    assert_eq!(
        events(&mut s, ":%#Lobby PRIVMSG %#Lobby :Welcome to \u{2}the\u{2} lobby "),
        vec![SemanticEvent::Welcome { channel: "%#Lobby".to_string(), text: "Welcome to the lobby".to_string() }]
    );
    assert!(events(&mut s, ":nick!user@host PRIVMSG #chan a b").is_empty());
}

#[test]
fn notices() {
    let mut s = Session::new("#chan".to_string());
    assert_eq!(
        events(&mut s, ":n!u@h NOTICE #chan :hi all"),
        vec![SemanticEvent::ChannelNotice {
            sender: user("n", "u@h"),
            channel: "#chan".to_string(),
            text: "hi all".to_string(),
        }]
    );
    assert_eq!(
        events(&mut s, ":n!u@h NOTICE %#Lobby me :just you"),
        vec![SemanticEvent::PrivateNotice { sender: user("n", "u@h"), text: "just you".to_string() }]
    );
    assert_eq!(
        events(&mut s, ":n!u@h NOTICE me :\u{1}PING 12345\u{1}"),
        vec![SemanticEvent::CtcpReply {
            sender: user("n", "u@h"),
            verb: "PING".to_string(),
            text: "12345".to_string(),
        }]
    );
    assert_eq!(
        events(&mut s, "NOTICE AUTH :*** Looking up your hostname"),
        vec![SemanticEvent::PrivateServerNotice { text: "*** Looking up your hostname".to_string() }]
    );
    assert_eq!(
        events(&mut s, ":irc.server NOTICE %#Lobby :maintenance soon "),
        vec![SemanticEvent::ChannelServerNotice { channel: "%#Lobby".to_string(), text: "maintenance soon".to_string() }]
    );
    assert_eq!(
        events(&mut s, ":irc.server NOTICE me :\u{1}TIME now\u{1}"),
        vec![SemanticEvent::ServerCtcp { verb: "TIME".to_string(), text: "now".to_string() }]
    );
}

#[test]
fn modes_and_whispers() {
    let mut s = Session::new("#chan".to_string());
    assert_eq!(
        events(&mut s, ":op!u@h MODE #chan +o bob"),
        vec![SemanticEvent::ChannelModeChanged {
            sender: user("op", "u@h"),
            channel: "#chan".to_string(),
            modes: "+o bob".to_string(),
        }]
    );
    assert_eq!(
        events(&mut s, ":me MODE me :+ix "),
        vec![SemanticEvent::UserModeChanged { modes: "+ix".to_string() }]
    );
    assert_eq!(
        events(&mut s, ":w!u@h WHISPER %#Lobby me :secret \u{2}x\u{2}"),
        vec![SemanticEvent::Whisper {
            sender: user("w", "u@h"),
            channel: "%#Lobby".to_string(),
            text: "secret x".to_string(),
        }]
    );
}

#[test]
fn away_numerics_and_unsupported_lines() {
    let mut s = Session::new("#chan".to_string());
    assert_eq!(
        events(&mut s, ":bob!u@h 821 %#Lobby :I am back  "),
        vec![
            SemanticEvent::Numeric { code: 821, text: "I am back  ".to_string() },
            SemanticEvent::BackFromAway { nick: "bob".to_string(), text: "I am back".to_string() },
        ]
    );
    assert_eq!(
        events(&mut s, ":bob!u@h 822 %#Lobby :lunch"),
        vec![
            SemanticEvent::Numeric { code: 822, text: "lunch".to_string() },
            SemanticEvent::WentAway { nick: "bob".to_string(), text: "lunch".to_string() },
        ]
    );
    assert_eq!(
        events(&mut s, ":server 372 me :- message of the day"),
        vec![SemanticEvent::Numeric { code: 372, text: "- message of the day".to_string() }]
    );
    assert_eq!(
        events(&mut s, ":server CAP * ACK :multi-prefix"),
        vec![SemanticEvent::Unsupported { line: ":server CAP * ACK :multi-prefix".to_string() }]
    );
}

#[test]
fn events_from_decoded_bodies() {
    let framed = |legacy: bool, verb: &str, rest: &str, inner: &str| Body::Framed {
        legacy,
        verb: verb.to_string(),
        rest: rest.to_string(),
        inner: inner.to_string(),
    };
    assert_eq!(
        build_message_event(user("a", "b"), "#c".to_string(), false, framed(true, "ACTION", "jumps", "action jumps"), Dialect::buzzen()),
        SemanticEvent::Action { sender: user("a", "b"), target: "#c".to_string(), text: "jumps".to_string() }
    );
    assert_eq!(
        build_message_event(user("a", "b"), "#c".to_string(), true, Body::Plain("x".to_string()), Dialect::buzzen()),
        SemanticEvent::PrivateMessage { sender: user("a", "b"), text: "x".to_string() }
    );
    assert_eq!(
        build_notice_event(None, "#c".to_string(), false, framed(false, "VERSION", "", "VERSION"), Dialect::buzzen()),
        SemanticEvent::ServerCtcp { verb: "VERSION".to_string(), text: String::new() }
    );
}

#[test]
fn baseline_irc_dialect() {
    let mut s = Session::with_dialect("#chan".to_string(), Dialect::irc());
    assert_eq!(
        events(&mut s, ":n!u@h PRIVMSG %lobby :\u{2}hi\u{2}"),
        vec![SemanticEvent::PrivateMessage { sender: user("n", "u@h"), text: "hi".to_string() }]
    );
    assert_eq!(
        events(&mut s, ":w!u@h WHISPER #chan me :psst"),
        vec![SemanticEvent::Unsupported { line: ":w!u@h WHISPER #chan me :psst".to_string() }]
    );
    assert_eq!(
        events(&mut s, ":op!u@h MODE %lobby +m"),
        vec![SemanticEvent::UserModeChanged { modes: "+m".to_string() }]
    );
}
