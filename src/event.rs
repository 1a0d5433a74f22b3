//! The semantic events that dispatch produces.

use vstd::prelude::*;
use crate::message::{Identity, IdentityView};

verus! {

/// What one protocol line means. Text fields meant for display are already
/// style-stripped.
#[derive(Debug, PartialEq, Eq)]
pub enum SemanticEvent {
    /// Someone joined a channel.
    Joined { sender: Identity, channel: String },
    /// Someone left a channel.
    Parted { sender: Identity, channel: String },
    /// Someone left the server.
    Quit { sender: Identity, reason: String },
    /// Someone changed nick.
    NickChanged { sender: Identity, new_nick: String },
    /// `target` was kicked from `channel`.
    Kicked { sender: Identity, channel: String, target: String, reason: String },
    /// Modes of a channel changed.
    ChannelModeChanged { sender: Identity, channel: String, modes: String },
    /// Modes of a user changed.
    UserModeChanged { modes: String },
    /// A user's notice to a channel.
    ChannelNotice { sender: Identity, channel: String, text: String },
    /// A user's notice to this client.
    PrivateNotice { sender: Identity, text: String },
    /// A server notice to a channel.
    ChannelServerNotice { channel: String, text: String },
    /// A server notice to this client.
    PrivateServerNotice { text: String },
    /// A framed server notice.
    ServerCtcp { verb: String, text: String },
    /// A message to a channel.
    ChannelMessage { sender: Identity, channel: String, text: String },
    /// A private message (query).
    PrivateMessage { sender: Identity, text: String },
    /// Third-person self-narration.
    Action { sender: Identity, target: String, text: String },
    /// A CTCP request: the whole framed text.
    CtcpRequest { sender: Identity, request: String },
    /// A CTCP reply.
    CtcpReply { sender: Identity, verb: String, text: String },
    /// The dialect's welcome broadcast of a channel.
    Welcome { channel: String, text: String },
    /// A dialect whisper inside a channel.
    Whisper { sender: Identity, channel: String, text: String },
    /// A numeric reply; `text` follows the target.
    Numeric { code: u16, text: String },
    /// Someone came back.
    BackFromAway { nick: String, text: String },
    /// Someone went away.
    WentAway { nick: String, text: String },
    /// A line with a command this client does not handle.
    Unsupported { line: String },
}

pub enum EventView {
    Joined { sender: IdentityView, channel: Seq<char> },
    Parted { sender: IdentityView, channel: Seq<char> },
    Quit { sender: IdentityView, reason: Seq<char> },
    NickChanged { sender: IdentityView, new_nick: Seq<char> },
    Kicked { sender: IdentityView, channel: Seq<char>, target: Seq<char>, reason: Seq<char> },
    ChannelModeChanged { sender: IdentityView, channel: Seq<char>, modes: Seq<char> },
    UserModeChanged { modes: Seq<char> },
    ChannelNotice { sender: IdentityView, channel: Seq<char>, text: Seq<char> },
    PrivateNotice { sender: IdentityView, text: Seq<char> },
    ChannelServerNotice { channel: Seq<char>, text: Seq<char> },
    PrivateServerNotice { text: Seq<char> },
    ServerCtcp { verb: Seq<char>, text: Seq<char> },
    ChannelMessage { sender: IdentityView, channel: Seq<char>, text: Seq<char> },
    PrivateMessage { sender: IdentityView, text: Seq<char> },
    Action { sender: IdentityView, target: Seq<char>, text: Seq<char> },
    CtcpRequest { sender: IdentityView, request: Seq<char> },
    CtcpReply { sender: IdentityView, verb: Seq<char>, text: Seq<char> },
    Welcome { channel: Seq<char>, text: Seq<char> },
    Whisper { sender: IdentityView, channel: Seq<char>, text: Seq<char> },
    Numeric { code: u16, text: Seq<char> },
    BackFromAway { nick: Seq<char>, text: Seq<char> },
    WentAway { nick: Seq<char>, text: Seq<char> },
    Unsupported { line: Seq<char> },
}

impl View for SemanticEvent {
    type V = EventView;

    open spec fn view(&self) -> EventView {
        match self {
            SemanticEvent::Joined { sender, channel } => EventView::Joined { sender: sender@, channel: channel@ },
            SemanticEvent::Parted { sender, channel } => EventView::Parted { sender: sender@, channel: channel@ },
            SemanticEvent::Quit { sender, reason } => EventView::Quit { sender: sender@, reason: reason@ },
            SemanticEvent::NickChanged { sender, new_nick } => EventView::NickChanged { sender: sender@, new_nick: new_nick@ },
            SemanticEvent::Kicked { sender, channel, target, reason } => EventView::Kicked { sender: sender@, channel: channel@, target: target@, reason: reason@ },
            SemanticEvent::ChannelModeChanged { sender, channel, modes } => EventView::ChannelModeChanged { sender: sender@, channel: channel@, modes: modes@ },
            SemanticEvent::UserModeChanged { modes } => EventView::UserModeChanged { modes: modes@ },
            SemanticEvent::ChannelNotice { sender, channel, text } => EventView::ChannelNotice { sender: sender@, channel: channel@, text: text@ },
            SemanticEvent::PrivateNotice { sender, text } => EventView::PrivateNotice { sender: sender@, text: text@ },
            SemanticEvent::ChannelServerNotice { channel, text } => EventView::ChannelServerNotice { channel: channel@, text: text@ },
            SemanticEvent::PrivateServerNotice { text } => EventView::PrivateServerNotice { text: text@ },
            SemanticEvent::ServerCtcp { verb, text } => EventView::ServerCtcp { verb: verb@, text: text@ },
            SemanticEvent::ChannelMessage { sender, channel, text } => EventView::ChannelMessage { sender: sender@, channel: channel@, text: text@ },
            SemanticEvent::PrivateMessage { sender, text } => EventView::PrivateMessage { sender: sender@, text: text@ },
            SemanticEvent::Action { sender, target, text } => EventView::Action { sender: sender@, target: target@, text: text@ },
            SemanticEvent::CtcpRequest { sender, request } => EventView::CtcpRequest { sender: sender@, request: request@ },
            SemanticEvent::CtcpReply { sender, verb, text } => EventView::CtcpReply { sender: sender@, verb: verb@, text: text@ },
            SemanticEvent::Welcome { channel, text } => EventView::Welcome { channel: channel@, text: text@ },
            SemanticEvent::Whisper { sender, channel, text } => EventView::Whisper { sender: sender@, channel: channel@, text: text@ },
            SemanticEvent::Numeric { code, text } => EventView::Numeric { code: *code, text: text@ },
            SemanticEvent::BackFromAway { nick, text } => EventView::BackFromAway { nick: nick@, text: text@ },
            SemanticEvent::WentAway { nick, text } => EventView::WentAway { nick: nick@, text: text@ },
            SemanticEvent::Unsupported { line } => EventView::Unsupported { line: line@ },
        }
    }
}

/// The views of a sequence of events.
pub open spec fn event_views(v: Seq<SemanticEvent>) -> Seq<EventView> {
    v.map_values(|e: SemanticEvent| e@)
}

/// No event.
pub fn no_events() -> (r: Vec<SemanticEvent>)
    ensures
        event_views(r@) == Seq::<EventView>::empty(),
{
    let r: Vec<SemanticEvent> = Vec::new();
    assert(event_views(r@) =~= Seq::<EventView>::empty());
    r
}

/// Exactly the event `e`.
pub fn one_event(e: SemanticEvent) -> (r: Vec<SemanticEvent>)
    ensures
        event_views(r@) == seq![e@],
{
    let mut r: Vec<SemanticEvent> = Vec::new();
    r.push(e);
    assert(event_views(r@) =~= seq![e@]);
    r
}

} // verus!
