//! Dispatch: from one line to the semantic events it means, the session
//! state it changes and the line it asks to send.

use vstd::prelude::*;
use crate::body::{decode_body, decoded, display, display_text, Body, BodyView};
use crate::event::{event_views, no_events, one_event, EventView, SemanticEvent};
use crate::message::{
    identity_of, option_view, tokenize, tokenized, CommandToken, CommandView, Identity,
    IdentityView, Message, MessageView,
};
use crate::text::{
    chars_of, starts_with, starts_with_str, str_eq, string_of, trim_end, trimmed_end, views,
};

verus! {

/// Where the session stands: before or after the welcome numeric.
#[derive(Debug, Clone, Copy, PartialEq, Eq, Structural)]
pub enum Phase {
    Unauthenticated,
    Joined,
}

/// The deviations of a server family from baseline IRC.
#[derive(Debug, Clone, Copy, PartialEq, Eq, Structural)]
pub struct Dialect {
    /// Bodies wrapped in U+0002 carry actions and CTCP replies.
    pub legacy_framing: bool,
    /// The WHISPER command exists.
    pub whisper: bool,
    /// Channel names may start with `%` as well as `#`.
    pub percent_channels: bool,
}

impl Dialect {
    /// The Buzzen dialect: legacy framing, WHISPER and `%` channels.
    pub fn buzzen() -> (r: Dialect)
        ensures
            r == (Dialect { legacy_framing: true, whisper: true, percent_channels: true }),
    {
        Dialect { legacy_framing: true, whisper: true, percent_channels: true }
    }

    /// Baseline IRC.
    pub fn irc() -> (r: Dialect)
        ensures
            r == (Dialect { legacy_framing: false, whisper: false, percent_channels: false }),
    {
        Dialect { legacy_framing: false, whisper: false, percent_channels: false }
    }
}

/// Own nickname and address, as the server acknowledged them.
#[derive(Debug, PartialEq, Eq)]
pub struct SessionState {
    pub nickname: String,
    pub address: String,
}

/// The state that persists from one line to the next.
#[derive(Debug, PartialEq, Eq)]
pub struct Session {
    pub state: SessionState,
    pub phase: Phase,
    /// The channel to join once welcomed.
    pub channel: String,
    pub dialect: Dialect,
}

pub struct SessionView {
    pub nickname: Seq<char>,
    pub address: Seq<char>,
    pub phase: Phase,
    pub channel: Seq<char>,
    pub dialect: Dialect,
}

impl View for Session {
    type V = SessionView;

    open spec fn view(&self) -> SessionView {
        SessionView {
            nickname: self.state.nickname@,
            address: self.state.address@,
            phase: self.phase,
            channel: self.channel@,
            dialect: self.dialect,
        }
    }
}

/// What handling one line produced.
#[derive(Debug, PartialEq, Eq)]
pub struct Step {
    /// The events, in order.
    pub events: Vec<SemanticEvent>,
    /// A line to send back, without its line feed.
    pub outbound: Option<String>,
}

pub struct StepView {
    pub events: Seq<EventView>,
    pub outbound: Option<Seq<char>>,
}

impl View for Step {
    type V = StepView;

    open spec fn view(&self) -> StepView {
        StepView { events: event_views(self.events@), outbound: option_view(self.outbound) }
    }
}

/// A channel name: it starts with `#`, or with `%` where the dialect has
/// such channels.
pub open spec fn is_channel(t: Seq<char>, d: Dialect) -> bool {
    t.len() > 0 && (t[0] == '#' || (d.percent_channels && t[0] == '%'))
}

/// The parameters joined with single spaces.
pub open spec fn joined(ps: Seq<Seq<char>>) -> Seq<char>
    decreases ps.len(),
{
    if ps.len() == 0 {
        seq![]
    } else if ps.len() == 1 {
        ps[0]
    } else {
        joined(ps.drop_last()) + seq![' '] + ps.last()
    }
}

/// The text after the last space.
pub open spec fn last_word(s: Seq<char>) -> Seq<char>
    decreases s.len(),
{
    if s.len() == 0 {
        s
    } else if s.last() == ' ' {
        seq![]
    } else {
        last_word(s.drop_last()).push(s.last())
    }
}

/// The body expected at parameter `k`: the parameter there when it is the
/// last one; else, where the dialect put one more token before it, the
/// trailing parameter just after (the flag says so); else none.
pub open spec fn located(m: MessageView, k: int) -> Option<(bool, Seq<char>)> {
    if m.params.len() == k + 1 {
        Some((false, m.params[k]))
    } else if m.params.len() == k + 2 && m.trailing {
        Some((true, m.params[k + 1]))
    } else {
        None
    }
}

/// The event for a user's PRIVMSG to `target`, given its decoded body.
pub open spec fn message_event(
    sender: IdentityView,
    target: Seq<char>,
    shifted: bool,
    body: BodyView,
    d: Dialect,
) -> EventView {
    match body {
        BodyView::Plain(t) => if !shifted && is_channel(target, d) {
            EventView::ChannelMessage { sender, channel: target, text: t }
        } else {
            EventView::PrivateMessage { sender, text: t }
        },
        BodyView::Framed { legacy, verb, rest, inner } => if verb == "ACTION"@ {
            EventView::Action { sender, target, text: rest }
        } else if legacy {
            EventView::CtcpReply { sender, verb, text: rest }
        } else {
            EventView::CtcpRequest { sender, request: inner }
        },
    }
}

/// The event for a NOTICE to `target`: from a user when `sender` is given,
/// else from the server.
pub open spec fn notice_event(
    sender: Option<IdentityView>,
    target: Seq<char>,
    shifted: bool,
    body: BodyView,
    d: Dialect,
) -> EventView {
    match sender {
        Some(s) => match body {
            BodyView::Plain(t) => if !shifted && is_channel(target, d) {
                EventView::ChannelNotice { sender: s, channel: target, text: t }
            } else {
                EventView::PrivateNotice { sender: s, text: t }
            },
            BodyView::Framed { verb, rest, .. } => EventView::CtcpReply {
                sender: s,
                verb,
                text: rest,
            },
        },
        None => match body {
            BodyView::Plain(t) => if is_channel(target, d) {
                EventView::ChannelServerNotice { channel: target, text: t }
            } else {
                EventView::PrivateServerNotice { text: t }
            },
            BodyView::Framed { verb, rest, .. } => EventView::ServerCtcp { verb, text: rest },
        },
    }
}

/// A prefix names a user when it carries an address.
pub open spec fn user_of(prefix: Option<Seq<char>>) -> Option<IdentityView> {
    match prefix {
        Some(p) => if identity_of(p).address is Some {
            Some(identity_of(p))
        } else {
            None
        },
        None => None,
    }
}

pub open spec fn privmsg_events(m: MessageView, d: Dialect) -> Seq<EventView> {
    match (m.prefix, located(m, 1)) {
        (Some(p), Some((shifted, body))) => if is_channel(p, d) {
            seq![EventView::Welcome { channel: m.params[0], text: display_text(body) }]
        } else {
            seq![
                message_event(
                    identity_of(p),
                    m.params[0],
                    shifted,
                    decoded(body, d.legacy_framing),
                    d,
                ),
            ]
        },
        _ => seq![],
    }
}

pub open spec fn notice_events(m: MessageView, d: Dialect) -> Seq<EventView> {
    match located(m, 1) {
        Some((shifted, body)) => seq![
            notice_event(
                user_of(m.prefix),
                m.params[0],
                shifted,
                decoded(body, d.legacy_framing),
                d,
            ),
        ],
        None => seq![],
    }
}

pub open spec fn join_events(m: MessageView) -> Seq<EventView> {
    match (m.prefix, located(m, 0)) {
        (Some(p), Some((_, channel))) => seq![
            EventView::Joined { sender: identity_of(p), channel },
        ],
        _ => seq![],
    }
}

pub open spec fn part_events(m: MessageView) -> Seq<EventView> {
    match m.prefix {
        Some(p) => if m.params.len() >= 1 {
            seq![EventView::Parted { sender: identity_of(p), channel: m.params[0] }]
        } else {
            seq![]
        },
        None => seq![],
    }
}

pub open spec fn quit_events(m: MessageView) -> Seq<EventView> {
    match m.prefix {
        Some(p) => if m.params.len() == 1 {
            seq![EventView::Quit { sender: identity_of(p), reason: display_text(m.params[0]) }]
        } else {
            seq![]
        },
        None => seq![],
    }
}

pub open spec fn nick_events(m: MessageView) -> Seq<EventView> {
    match m.prefix {
        Some(p) => if m.params.len() >= 1 {
            seq![EventView::NickChanged { sender: identity_of(p), new_nick: m.params[0] }]
        } else {
            seq![]
        },
        None => seq![],
    }
}

pub open spec fn kick_events(m: MessageView) -> Seq<EventView> {
    match m.prefix {
        Some(p) => if m.params.len() == 3 {
            seq![
                EventView::Kicked {
                    sender: identity_of(p),
                    channel: m.params[0],
                    target: m.params[1],
                    reason: display_text(m.params[2]),
                },
            ]
        } else {
            seq![]
        },
        None => seq![],
    }
}

pub open spec fn mode_events(m: MessageView, d: Dialect) -> Seq<EventView> {
    match m.prefix {
        Some(p) => if m.params.len() >= 2 {
            let modes = trim_end(joined(m.params.skip(1)));
            if is_channel(m.params[0], d) {
                seq![
                    EventView::ChannelModeChanged {
                        sender: identity_of(p),
                        channel: m.params[0],
                        modes,
                    },
                ]
            } else {
                seq![EventView::UserModeChanged { modes }]
            }
        } else {
            seq![]
        },
        None => seq![],
    }
}

pub open spec fn whisper_events(m: MessageView) -> Seq<EventView> {
    match m.prefix {
        Some(p) => if m.params.len() == 3 {
            seq![
                EventView::Whisper {
                    sender: identity_of(p),
                    channel: m.params[0],
                    text: display_text(m.params[2]),
                },
            ]
        } else {
            seq![]
        },
        None => seq![],
    }
}

/// The text of a numeric reply: the parameters after the target, joined.
pub open spec fn numeric_text(m: MessageView) -> Seq<char> {
    if m.params.len() >= 1 {
        joined(m.params.skip(1))
    } else {
        seq![]
    }
}

/// A numeric reply always gives `Numeric`; the dialect's 821 and 822 also
/// say that the sender came back or went away.
pub open spec fn numeric_events(m: MessageView, code: u16) -> Seq<EventView> {
    let text = numeric_text(m);
    let first = seq![EventView::Numeric { code, text }];
    match m.prefix {
        Some(p) => if code == 821 {
            first.push(EventView::BackFromAway { nick: identity_of(p).nick, text: display_text(text) })
        } else if code == 822 {
            first.push(EventView::WentAway { nick: identity_of(p).nick, text: display_text(text) })
        } else {
            first
        },
        None => first,
    }
}

/// The events of a tokenized line. A line too short for its command gives
/// none; an unknown command gives `Unsupported`.
pub open spec fn message_events(m: MessageView, line: Seq<char>, d: Dialect) -> Seq<EventView> {
    match m.command {
        CommandView::Numeric(code) => numeric_events(m, code),
        CommandView::Named(name) => if name == "PRIVMSG"@ {
            privmsg_events(m, d)
        } else if name == "NOTICE"@ {
            notice_events(m, d)
        } else if name == "JOIN"@ {
            join_events(m)
        } else if name == "PART"@ {
            part_events(m)
        } else if name == "QUIT"@ {
            quit_events(m)
        } else if name == "NICK"@ {
            nick_events(m)
        } else if name == "KICK"@ {
            kick_events(m)
        } else if name == "MODE"@ {
            mode_events(m, d)
        } else if name == "WHISPER"@ && d.whisper {
            whisper_events(m)
        } else {
            seq![EventView::Unsupported { line }]
        },
    }
}

/// Whether `m` is the welcome numeric arriving before the session was
/// welcomed.
pub open spec fn welcomes(s: SessionView, m: MessageView) -> bool {
    m.command == CommandView::Numeric(1) && s.phase == Phase::Unauthenticated
}

/// The session after `m`. The welcome moves it to `Joined` and takes
/// nickname and address from the last word of its text, where that word is
/// an identity with an address. A NICK from the session's own nickname
/// takes the new one.
pub open spec fn next_session(s: SessionView, m: MessageView) -> SessionView {
    if welcomes(s, m) {
        let id = identity_of(last_word(numeric_text(m)));
        match id.address {
            Some(a) => SessionView {
                nickname: id.nick,
                address: a,
                phase: Phase::Joined,
                channel: s.channel,
                dialect: s.dialect,
            },
            None => SessionView {
                nickname: s.nickname,
                address: s.address,
                phase: Phase::Joined,
                channel: s.channel,
                dialect: s.dialect,
            },
        }
    } else if m.command == CommandView::Named("NICK"@) {
        match m.prefix {
            Some(p) => if m.params.len() >= 1 && identity_of(p).nick == s.nickname {
                SessionView {
                    nickname: m.params[0],
                    address: s.address,
                    phase: s.phase,
                    channel: s.channel,
                    dialect: s.dialect,
                }
            } else {
                s
            },
            None => s,
        }
    } else {
        s
    }
}

/// The session and the step after one line. A line that starts with `PING`
/// is answered with the same line with `PONG` in place of those four
/// characters, and means no event.
pub open spec fn stepped(s: SessionView, line: Seq<char>) -> (SessionView, StepView) {
    if starts_with(line, "PING"@) {
        (
            s,
            StepView {
                events: seq![],
                outbound: Some("PONG"@ + line.skip("PING"@.len() as int)),
            },
        )
    } else {
        let m = tokenized(line);
        (
            next_session(s, m),
            StepView {
                events: message_events(m, line, s.dialect),
                outbound: if welcomes(s, m) {
                    Some("JOIN "@ + s.channel)
                } else {
                    None
                },
            },
        )
    }
}


/// A KICK line with fewer parameters than channel, target and reason is
/// dropped: it means no event, asks for no reply and leaves the session as
/// it was, so the next line is handled as if it had not come.
pub proof fn lemma_short_kick_dropped(s: SessionView, line: Seq<char>)
    requires
        !starts_with(line, "PING"@),
        tokenized(line).command == CommandView::Named("KICK"@),
        tokenized(line).params.len() < 3,
    ensures
        stepped(s, line).0 == s,
        stepped(s, line).1.events == Seq::<EventView>::empty(),
        stepped(s, line).1.outbound is None,
{
    reveal_strlit("KICK");
    reveal_strlit("PRIVMSG");
    reveal_strlit("NOTICE");
    reveal_strlit("JOIN");
    reveal_strlit("PART");
    reveal_strlit("QUIT");
    reveal_strlit("NICK");
    assert("KICK"@[0] != "NICK"@[0]);
}

fn is_channel_name(s: &str, d: Dialect) -> (r: bool)
    ensures
        r == is_channel(s@, d),
{
    let cs = chars_of(s);
    cs.len() > 0 && (cs[0] == '#' || (d.percent_channels && cs[0] == '%'))
}

/// `ps[from..]` joined with single spaces.
fn join_from(ps: &Vec<String>, from: usize) -> (r: String)
    requires
        from <= ps@.len(),
    ensures
        r@ == joined(views(ps@).skip(from as int)),
{
    let ghost vs = views(ps@);
    let mut acc = String::new();
    let mut i = from;
    assert(vs.subrange(from as int, from as int) =~= Seq::<Seq<char>>::empty());
    while i < ps.len()
        invariant
            vs == views(ps@),
            from <= i <= ps@.len(),
            acc@ == joined(vs.subrange(from as int, i as int)),
        decreases ps@.len() - i,
    {
        let ghost next = vs.subrange(from as int, i + 1);
        assert(next.drop_last() =~= vs.subrange(from as int, i as int));
        assert(next.last() == ps@[i as int]@);
        if i == from {
            acc = ps[i].clone();
        } else {
            acc.append(" ");
            proof {
                reveal_strlit(" ");
            }
            assert(acc@ == joined(vs.subrange(from as int, i as int)) + seq![' ']);
            acc.append(ps[i].as_str());
        }
        i = i + 1;
    }
    assert(vs.subrange(from as int, ps@.len() as int) =~= vs.skip(from as int));
    acc
}

/// The text after the last space of `s`.
fn last_word_of(s: &str) -> (r: String)
    ensures
        r@ == last_word(s@),
{
    let cs = chars_of(s);
    let n = cs.len();
    let mut i = n;
    assert(cs@.take(n as int) =~= cs@);
    assert(cs@.subrange(n as int, n as int) =~= Seq::<char>::empty());
    while i > 0 && cs[i - 1] != ' '
        invariant
            i <= n == cs@.len(),
            last_word(cs@) == last_word(cs@.take(i as int)) + cs@.subrange(i as int, n as int),
        decreases i,
    {
        assert(cs@.take(i as int).drop_last() =~= cs@.take(i - 1));
        assert(cs@.subrange(i - 1, n as int) =~= seq![cs@[i - 1]] + cs@.subrange(
            i as int,
            n as int,
        ));
        i = i - 1;
    }
    assert(last_word(cs@.take(i as int)) =~= Seq::<char>::empty());
    assert(last_word(cs@) =~= cs@.subrange(i as int, n as int));
    string_of(cs.as_slice(), i, n)
}

/// The index of the parameter `located` picks.
fn locate(m: &Message, k: usize) -> (r: Option<(bool, usize)>)
    requires
        k <= 2,
    ensures
        located(m@, k as int) == match r {
            Some((shifted, i)) => Some((shifted, m@.params[i as int])),
            None => None::<(bool, Seq<char>)>,
        },
        r matches Some((_, i)) ==> k <= i < m.params@.len(),
{
    let n = m.params.len();
    if n == k + 1 {
        Some((false, k))
    } else if n == k + 2 && m.trailing {
        Some((true, k + 1))
    } else {
        None
    }
}

/// The event for a user's PRIVMSG to `target` with a decoded body.
pub fn build_message_event(
    sender: Identity,
    target: String,
    shifted: bool,
    body: Body,
    d: Dialect,
) -> (r: SemanticEvent)
    ensures
        r@ == message_event(sender@, target@, shifted, body@, d),
{
    match body {
        Body::Plain(text) => {
            if !shifted && is_channel_name(target.as_str(), d) {
                SemanticEvent::ChannelMessage { sender, channel: target, text }
            } else {
                SemanticEvent::PrivateMessage { sender, text }
            }
        },
        Body::Framed { legacy, verb, rest, inner } => {
            if str_eq(verb.as_str(), "ACTION") {
                SemanticEvent::Action { sender, target, text: rest }
            } else if legacy {
                SemanticEvent::CtcpReply { sender, verb, text: rest }
            } else {
                SemanticEvent::CtcpRequest { sender, request: inner }
            }
        },
    }
}

/// The event for a NOTICE to `target` with a decoded body: from a user when
/// `sender` is given, else from the server.
pub fn build_notice_event(
    sender: Option<Identity>,
    target: String,
    shifted: bool,
    body: Body,
    d: Dialect,
) -> (r: SemanticEvent)
    ensures
        r@ == notice_event(
            match sender {
                Some(s) => Some(s@),
                None => None,
            },
            target@,
            shifted,
            body@,
            d,
        ),
{
    match sender {
        Some(s) => match body {
            Body::Plain(text) => {
                if !shifted && is_channel_name(target.as_str(), d) {
                    SemanticEvent::ChannelNotice { sender: s, channel: target, text }
                } else {
                    SemanticEvent::PrivateNotice { sender: s, text }
                }
            },
            Body::Framed { verb, rest, .. } => SemanticEvent::CtcpReply {
                sender: s,
                verb,
                text: rest,
            },
        },
        None => match body {
            Body::Plain(text) => {
                if is_channel_name(target.as_str(), d) {
                    SemanticEvent::ChannelServerNotice { channel: target, text }
                } else {
                    SemanticEvent::PrivateServerNotice { text }
                }
            },
            Body::Framed { verb, rest, .. } => SemanticEvent::ServerCtcp { verb, text: rest },
        },
    }
}

fn privmsg(m: &Message, d: Dialect) -> (r: Vec<SemanticEvent>)
    ensures
        event_views(r@) == privmsg_events(m@, d),
{
    match &m.prefix {
        None => no_events(),
        Some(p) => match locate(m, 1) {
            None => no_events(),
            Some((shifted, i)) => {
                let target = m.params[0].clone();
                if is_channel_name(p.as_str(), d) {
                    one_event(
                        SemanticEvent::Welcome {
                            channel: target,
                            text: display(m.params[i].as_str()),
                        },
                    )
                } else {
                    let body = decode_body(m.params[i].as_str(), d.legacy_framing);
                    let sender = Identity::parse(p.as_str());
                    one_event(build_message_event(sender, target, shifted, body, d))
                }
            },
        },
    }
}

fn notice(m: &Message, d: Dialect) -> (r: Vec<SemanticEvent>)
    ensures
        event_views(r@) == notice_events(m@, d),
{
    match locate(m, 1) {
        None => no_events(),
        Some((shifted, i)) => {
            let sender = match &m.prefix {
                Some(p) => {
                    let id = Identity::parse(p.as_str());
                    if id.address.is_some() {
                        Some(id)
                    } else {
                        None
                    }
                },
                None => None,
            };
            let body = decode_body(m.params[i].as_str(), d.legacy_framing);
            one_event(build_notice_event(sender, m.params[0].clone(), shifted, body, d))
        },
    }
}

fn join(m: &Message) -> (r: Vec<SemanticEvent>)
    ensures
        event_views(r@) == join_events(m@),
{
    match &m.prefix {
        None => no_events(),
        Some(p) => match locate(m, 0) {
            None => no_events(),
            Some((_, i)) => one_event(
                SemanticEvent::Joined {
                    sender: Identity::parse(p.as_str()),
                    channel: m.params[i].clone(),
                },
            ),
        },
    }
}

fn part(m: &Message) -> (r: Vec<SemanticEvent>)
    ensures
        event_views(r@) == part_events(m@),
{
    match &m.prefix {
        Some(p) => if m.params.len() >= 1 {
            one_event(
                SemanticEvent::Parted {
                    sender: Identity::parse(p.as_str()),
                    channel: m.params[0].clone(),
                },
            )
        } else {
            no_events()
        },
        None => no_events(),
    }
}

fn quit(m: &Message) -> (r: Vec<SemanticEvent>)
    ensures
        event_views(r@) == quit_events(m@),
{
    match &m.prefix {
        Some(p) => if m.params.len() == 1 {
            one_event(
                SemanticEvent::Quit {
                    sender: Identity::parse(p.as_str()),
                    reason: display(m.params[0].as_str()),
                },
            )
        } else {
            no_events()
        },
        None => no_events(),
    }
}

fn nick(m: &Message) -> (r: Vec<SemanticEvent>)
    ensures
        event_views(r@) == nick_events(m@),
{
    match &m.prefix {
        Some(p) => if m.params.len() >= 1 {
            one_event(
                SemanticEvent::NickChanged {
                    sender: Identity::parse(p.as_str()),
                    new_nick: m.params[0].clone(),
                },
            )
        } else {
            no_events()
        },
        None => no_events(),
    }
}

fn kick(m: &Message) -> (r: Vec<SemanticEvent>)
    ensures
        event_views(r@) == kick_events(m@),
{
    match &m.prefix {
        Some(p) => if m.params.len() == 3 {
            one_event(
                SemanticEvent::Kicked {
                    sender: Identity::parse(p.as_str()),
                    channel: m.params[0].clone(),
                    target: m.params[1].clone(),
                    reason: display(m.params[2].as_str()),
                },
            )
        } else {
            no_events()
        },
        None => no_events(),
    }
}

fn mode(m: &Message, d: Dialect) -> (r: Vec<SemanticEvent>)
    ensures
        event_views(r@) == mode_events(m@, d),
{
    match &m.prefix {
        Some(p) => if m.params.len() >= 2 {
            let all = join_from(&m.params, 1);
            let cs = chars_of(all.as_str());
            let e = trimmed_end(cs.as_slice(), 0, cs.len());
            assert(cs@.subrange(0, cs@.len() as int) =~= cs@);
            let modes = string_of(cs.as_slice(), 0, e);
            if is_channel_name(m.params[0].as_str(), d) {
                one_event(
                    SemanticEvent::ChannelModeChanged {
                        sender: Identity::parse(p.as_str()),
                        channel: m.params[0].clone(),
                        modes,
                    },
                )
            } else {
                one_event(SemanticEvent::UserModeChanged { modes })
            }
        } else {
            no_events()
        },
        None => no_events(),
    }
}

fn whisper(m: &Message) -> (r: Vec<SemanticEvent>)
    ensures
        event_views(r@) == whisper_events(m@),
{
    match &m.prefix {
        Some(p) => if m.params.len() == 3 {
            one_event(
                SemanticEvent::Whisper {
                    sender: Identity::parse(p.as_str()),
                    channel: m.params[0].clone(),
                    text: display(m.params[2].as_str()),
                },
            )
        } else {
            no_events()
        },
        None => no_events(),
    }
}

fn numeric_text_of(m: &Message) -> (r: String)
    ensures
        r@ == numeric_text(m@),
{
    if m.params.len() >= 1 {
        join_from(&m.params, 1)
    } else {
        String::new()
    }
}

fn numeric(m: &Message, code: u16) -> (r: Vec<SemanticEvent>)
    ensures
        event_views(r@) == numeric_events(m@, code),
{
    let text = numeric_text_of(m);
    let shown = display(text.as_str());
    let mut r = one_event(SemanticEvent::Numeric { code, text });
    let ghost first = event_views(r@);
    match &m.prefix {
        Some(p) => {
            if code == 821 {
                let nick = Identity::parse(p.as_str()).nick;
                r.push(SemanticEvent::BackFromAway { nick, text: shown });
                assert(event_views(r@) =~= first.push(r@[1]@));
            } else if code == 822 {
                let nick = Identity::parse(p.as_str()).nick;
                r.push(SemanticEvent::WentAway { nick, text: shown });
                assert(event_views(r@) =~= first.push(r@[1]@));
            }
        },
        None => {},
    }
    r
}

/// The events of a tokenized line, as `message_events` describes.
pub fn events_of(m: &Message, line: &str, d: Dialect) -> (r: Vec<SemanticEvent>)
    ensures
        event_views(r@) == message_events(m@, line@, d),
{
    match &m.command {
        CommandToken::Numeric(code) => numeric(m, *code),
        CommandToken::Named(name) => {
            let name = name.as_str();
            if str_eq(name, "PRIVMSG") {
                privmsg(m, d)
            } else if str_eq(name, "NOTICE") {
                notice(m, d)
            } else if str_eq(name, "JOIN") {
                join(m)
            } else if str_eq(name, "PART") {
                part(m)
            } else if str_eq(name, "QUIT") {
                quit(m)
            } else if str_eq(name, "NICK") {
                nick(m)
            } else if str_eq(name, "KICK") {
                kick(m)
            } else if str_eq(name, "MODE") {
                mode(m, d)
            } else if str_eq(name, "WHISPER") && d.whisper {
                whisper(m)
            } else {
                one_event(SemanticEvent::Unsupported { line: String::from_str(line) })
            }
        },
    }
}

impl Session {
    /// A session of the given dialect before the welcome, with an empty
    /// nickname and address, that will join `channel`.
    pub fn with_dialect(channel: String, dialect: Dialect) -> (r: Session)
        ensures
            r@ == (SessionView {
                nickname: Seq::empty(),
                address: Seq::empty(),
                phase: Phase::Unauthenticated,
                channel: channel@,
                dialect,
            }),
    {
        Session {
            state: SessionState { nickname: String::new(), address: String::new() },
            phase: Phase::Unauthenticated,
            channel,
            dialect,
        }
    }

    /// A Buzzen session before the welcome, that will join `channel`.
    pub fn new(channel: String) -> (r: Session)
        ensures
            r@ == (SessionView {
                nickname: Seq::empty(),
                address: Seq::empty(),
                phase: Phase::Unauthenticated,
                channel: channel@,
                dialect: Dialect { legacy_framing: true, whisper: true, percent_channels: true },
            }),
    {
        Session::with_dialect(channel, Dialect::buzzen())
    }

    fn take_welcome(&mut self, m: &Message) -> (r: String)
        requires
            welcomes(old(self)@, m@),
        ensures
            final(self)@ == next_session(old(self)@, m@),
            r@ == "JOIN "@ + old(self)@.channel,
    {
        let text = numeric_text_of(m);
        let word = last_word_of(text.as_str());
        let id = Identity::parse(word.as_str());
        match id.address {
            Some(a) => {
                self.state.nickname = id.nick;
                self.state.address = a;
            },
            None => {},
        }
        self.phase = Phase::Joined;
        let mut out = String::from_str("JOIN ");
        out.append(self.channel.as_str());
        out
    }

    fn track_nick(&mut self, m: &Message)
        requires
            m@.command == CommandView::Named("NICK"@),
        ensures
            final(self)@ == next_session(old(self)@, m@),
    {
        match &m.prefix {
            Some(p) => {
                if m.params.len() >= 1 {
                    let id = Identity::parse(p.as_str());
                    if str_eq(id.nick.as_str(), self.state.nickname.as_str()) {
                        self.state.nickname = m.params[0].clone();
                    }
                }
            },
            None => {},
        }
    }

    /// Handles one complete line, as `stepped` describes: answers PING,
    /// else tokenizes the line, updates the session and reports the events.
    pub fn handle_line(&mut self, line: &str) -> (r: Step)
        ensures
            final(self)@ == stepped(old(self)@, line@).0,
            r@ == stepped(old(self)@, line@).1,
    {
        let cs = chars_of(line);
        if starts_with_str(cs.as_slice(), "PING") {
            proof {
                reveal_strlit("PING");
            }
            let mut out = String::from_str("PONG");
            let rest = string_of(cs.as_slice(), 4, cs.len());
            assert(rest@ =~= line@.skip("PING"@.len() as int));
            out.append(rest.as_str());
            return Step { events: no_events(), outbound: Some(out) };
        }
        let m = tokenize(line);
        let events = events_of(&m, line, self.dialect);
        let mut outbound: Option<String> = None;
        match &m.command {
            CommandToken::Numeric(code) => {
                if *code == 1 && self.phase == Phase::Unauthenticated {
                    outbound = Some(self.take_welcome(&m));
                }
            },
            CommandToken::Named(name) => {
                if str_eq(name.as_str(), "NICK") {
                    self.track_nick(&m);
                }
            },
        }
        Step { events, outbound }
    }
}

} // verus!
