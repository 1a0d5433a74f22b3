//! Outbound lines of the dialect's registration, and how outbound lines are
//! echoed for display.

use vstd::prelude::*;
use vstd::utf8::encode_utf8;
use crate::text::{chars_of, push_char, starts_with, starts_with_str, views};

verus! {

/// What `md5::compute` returns for `data`.
pub uninterp spec fn md5_digest(data: Seq<u8>) -> Seq<u8>;

/// Relies on `md5::compute`: the MD5 digest of the data, 16 bytes, which
/// depends on the data alone.
#[verifier::external_body]
fn md5_compute(data: &[u8]) -> (r: Vec<u8>)
    ensures
        r@ == md5_digest(data@),
        r@.len() == 16,
{
    md5::compute(data).0.to_vec()
}

pub open spec fn hex_digit(d: int) -> char {
    if d < 10 {
        ('0' as int + d) as char
    } else {
        ('a' as int + d - 10) as char
    }
}

/// Two lower-case hex digits per byte.
pub open spec fn hex_of(bytes: Seq<u8>) -> Seq<char>
    decreases bytes.len(),
{
    if bytes.len() == 0 {
        seq![]
    } else {
        hex_of(bytes.drop_last()) + seq![
            hex_digit(bytes.last() as int / 16),
            hex_digit(bytes.last() as int % 16),
        ]
    }
}

fn hex_char(d: u8) -> (c: char)
    requires
        d < 16,
    ensures
        c == hex_digit(d as int),
{
    if d < 10 {
        ((48 + d) as char)
    } else {
        ((87 + d) as char)
    }
}

/// Lower-case hex of `bytes`.
pub fn to_hex(bytes: &[u8]) -> (r: String)
    ensures
        r@ == hex_of(bytes@),
{
    let mut s = String::new();
    let mut i: usize = 0;
    while i < bytes.len()
        invariant
            i <= bytes@.len(),
            s@ == hex_of(bytes@.take(i as int)),
        decreases bytes@.len() - i,
    {
        assert(bytes@.take(i + 1).drop_last() =~= bytes@.take(i as int));
        let b = bytes[i];
        push_char(&mut s, hex_char(b / 16));
        push_char(&mut s, hex_char(b % 16));
        assert(s@ =~= hex_of(bytes@.take(i + 1)));
        i = i + 1;
    }
    assert(bytes@.take(bytes@.len() as int) =~= bytes@);
    s
}

/// The login line: the email and the MD5 digest of the password's UTF-8
/// bytes in lower-case hex.
pub open spec fn login_line(email: Seq<char>, password: Seq<char>) -> Seq<char> {
    "LOGINH "@ + email + " "@ + hex_of(md5_digest(encode_utf8(password)))
}

/// The lines that register with a dialect server, in order: the
/// authentication type, the login, the user line and the client mode.
pub fn registration_lines(email: &str, password: &str, nickname: &str) -> (r: Vec<String>)
    ensures
        views(r@) == seq![
            "AUTHTYPE ircwx1"@,
            login_line(email@, password@),
            "USER "@ + nickname@ + " * 0 :RustBot"@,
            "CLIENTMODE cd1"@,
        ],
{
    let digest = md5_compute(password.as_bytes());
    let mut login = String::from_str("LOGINH ");
    login.append(email);
    login.append(" ");
    login.append(to_hex(digest.as_slice()).as_str());
    let mut user = String::from_str("USER ");
    user.append(nickname);
    user.append(" * 0 :RustBot");
    let mut r: Vec<String> = Vec::new();
    r.push(String::from_str("AUTHTYPE ircwx1"));
    r.push(login);
    r.push(user);
    r.push(String::from_str("CLIENTMODE cd1"));
    assert(views(r@) =~= seq![
        "AUTHTYPE ircwx1"@,
        login_line(email@, password@),
        "USER "@ + nickname@ + " * 0 :RustBot"@,
        "CLIENTMODE cd1"@,
    ]);
    r
}

/// How an outbound line is echoed for display: keep-alive replies are not
/// shown, login lines are masked, others are shown after `<< `.
pub open spec fn echo_of(line: Seq<char>) -> Option<Seq<char>> {
    if starts_with(line, "PONG"@) {
        None
    } else if starts_with(line, "LOGIN"@) {
        Some("<< LOGINH ********** ***********"@)
    } else {
        Some("<< "@ + line)
    }
}

/// The echo of an outbound line, as `echo_of` describes.
pub fn outbound_echo(line: &str) -> (r: Option<String>)
    ensures
        match r {
            Some(s) => echo_of(line@) == Some(s@),
            None => echo_of(line@) is None,
        },
{
    let cs = chars_of(line);
    if starts_with_str(cs.as_slice(), "PONG") {
        None
    } else if starts_with_str(cs.as_slice(), "LOGIN") {
        Some(String::from_str("<< LOGINH ********** ***********"))
    } else {
        let mut s = String::from_str("<< ");
        s.append(line);
        Some(s)
    }
}

} // verus!
