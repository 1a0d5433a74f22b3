use buzzen_irc::body::{decode_body, display, Body};
use buzzen_irc::style::strip_style;

#[test]
fn style_tags_and_control_codes_are_removed() {
    let raw = "[style color=red]hi[/style] \u{2}bold\u{2} \u{3}04,12col\u{3} x\u{1f}\u{f}\u{16}";
    assert_eq!(strip_style(raw), "hi bold col x");
}

#[test]
fn colour_code_takes_at_most_two_digits() {
    assert_eq!(strip_style("\u{3}123"), "3");
    assert_eq!(strip_style("\u{3}1,"), "");
    assert_eq!(strip_style("a[style]b[/style]c"), "abc");
    assert_eq!(strip_style("[styles]"), "");
    assert_eq!(strip_style("[stylo]"), "[stylo]");
}

#[test]
fn stripping_twice_equals_stripping_once() {
    for s in [
        "[style font=x]plain[/style]",
        "\u{3}4,5red\u{2}bold\u{1f}",
        "nothing to do",
        "[[style]style]",
        "[st\u{2}yle]",
        "",
    ] {
        let once = strip_style(s);
        assert_eq!(strip_style(&once), once);
    }
}

#[test]
fn ctcp_action_decodes() {
    assert_eq!(
        decode_body("\u{1}ACTION waves\u{1}", true),
        Body::Framed {
            legacy: false,
            verb: "ACTION".to_string(),
            rest: "waves".to_string(),
            inner: "ACTION waves".to_string(),
        }
    );
}

#[test]
fn ctcp_request_decodes() {
    assert_eq!(
        decode_body("\u{1}VERSION\u{1}", true),
        Body::Framed {
            legacy: false,
            verb: "VERSION".to_string(),
            rest: String::new(),
            inner: "VERSION".to_string(),
        }
    );
}

#[test]
fn verb_is_upper_cased() {
    match decode_body("\u{1}action waves\u{1}", true) {
        Body::Framed { verb, rest, .. } => {
            assert_eq!(verb, "ACTION");
            assert_eq!(rest, "waves");
        }
        other => panic!("unexpected {:?}", other),
    }
}

#[test]
fn legacy_framing_decodes() {
    assert_eq!(
        decode_body("\u{2}version Client 1.0\u{2}", true),
        Body::Framed {
            legacy: true,
            verb: "VERSION".to_string(),
            rest: "Client 1.0".to_string(),
            inner: "version Client 1.0".to_string(),
        }
    );
}

#[test]
fn plain_body_is_trimmed_and_stripped() {
    assert_eq!(decode_body("hello [style x]there[/style] \t ", true), Body::Plain("hello there".to_string()));
    assert_eq!(decode_body("\u{1}", true), Body::Plain("\u{1}".to_string()));
    assert_eq!(display("bye\u{2}  \r"), "bye");
}

#[test]
fn legacy_framing_is_plain_text_outside_the_dialect() {
    assert_eq!(decode_body("\u{2}version\u{2}", false), Body::Plain("version".to_string()));
    match decode_body("\u{1}ACTION waves\u{1}", false) {
        Body::Framed { legacy, verb, .. } => {
            assert!(!legacy);
            assert_eq!(verb, "ACTION");
        }
        other => panic!("unexpected {:?}", other),
    }
}

#[test]
fn tag_rebuilt_by_a_removal_is_removed_too() {
    assert_eq!(strip_style("[[style]style]"), "");
    assert_eq!(strip_style("[st\u{2}yle]x"), "x");
    assert_eq!(strip_style("[[style]/style]ok"), "ok");
}

#[test]
fn framed_verb_and_text_are_stripped() {
    assert_eq!(
        decode_body("\u{1}[style b]version[/style] \u{3}4x\u{1}", true),
        Body::Framed {
            legacy: false,
            verb: "VERSION".to_string(),
            rest: "x".to_string(),
            inner: "version x".to_string(),
        }
    );
}
