//! Tokenizing one protocol line into prefix, command and parameters.

use vstd::prelude::*;
use crate::text::{chars_of, find_char, index_of, lemma_index_of_unique, string_of, views};

verus! {

/// Who sent a line: the prefix split at its first `!`.
#[derive(Debug, PartialEq, Eq)]
pub struct Identity {
    pub nick: String,
    /// The user and host mask; absent for server-origin lines.
    pub address: Option<String>,
}

pub struct IdentityView {
    pub nick: Seq<char>,
    pub address: Option<Seq<char>>,
}

pub open spec fn option_view(o: Option<String>) -> Option<Seq<char>> {
    match o {
        Some(s) => Some(s@),
        None => None,
    }
}

impl View for Identity {
    type V = IdentityView;

    open spec fn view(&self) -> IdentityView {
        IdentityView { nick: self.nick@, address: option_view(self.address) }
    }
}

/// The identity in a prefix: the nick before the first `!`, the address
/// after it.
pub open spec fn identity_of(prefix: Seq<char>) -> IdentityView {
    let b = index_of(prefix, '!');
    IdentityView {
        nick: prefix.take(b as int),
        address: if b < prefix.len() {
            Some(prefix.skip((b + 1) as int))
        } else {
            None
        },
    }
}

impl Identity {
    /// Splits a prefix into nick and address.
    pub fn parse(prefix: &str) -> (r: Identity)
        ensures
            r@ == identity_of(prefix@),
    {
        let cs = chars_of(prefix);
        let n = cs.len();
        let b = find_char(cs.as_slice(), 0, n, '!');
        assert(cs@.subrange(0, n as int) =~= cs@);
        let nick = string_of(cs.as_slice(), 0, b);
        let address = if b < n {
            Some(string_of(cs.as_slice(), b + 1, n))
        } else {
            None
        };
        assert(cs@.subrange(0, b as int) =~= cs@.take(b as int));
        assert(cs@.subrange(b + 1, n as int) =~= cs@.skip(b + 1));
        Identity { nick, address }
    }
}

/// A command: a numeric reply code, or a command name.
#[derive(Debug, PartialEq, Eq)]
pub enum CommandToken {
    /// Up to three ASCII digits; shown padded to three.
    Numeric(u16),
    /// Any other token, matched case-sensitively.
    Named(String),
}

pub enum CommandView {
    Numeric(u16),
    Named(Seq<char>),
}

impl View for CommandToken {
    type V = CommandView;

    open spec fn view(&self) -> CommandView {
        match self {
            CommandToken::Numeric(n) => CommandView::Numeric(*n),
            CommandToken::Named(s) => CommandView::Named(s@),
        }
    }
}

pub open spec fn is_digit(c: char) -> bool {
    '0' <= c <= '9'
}

/// The decimal value of a string of digits.
pub open spec fn digits_value(s: Seq<char>) -> nat
    decreases s.len(),
{
    if s.len() == 0 {
        0
    } else {
        digits_value(s.drop_last()) * 10 + (s.last() as nat - '0' as nat) as nat
    }
}

/// A token of one to three ASCII digits is a numeric code; any other is a
/// command name.
pub open spec fn command_of(tok: Seq<char>) -> CommandView {
    if 1 <= tok.len() <= 3 && forall|i: int| 0 <= i < tok.len() ==> is_digit(#[trigger] tok[i]) {
        CommandView::Numeric(digits_value(tok) as u16)
    } else {
        CommandView::Named(tok)
    }
}

/// A parsed line.
#[derive(Debug, PartialEq, Eq)]
pub struct Message {
    /// The first token without its `:`, when the line starts with `:`.
    pub prefix: Option<String>,
    pub command: CommandToken,
    /// The parameters; the last is the trailing one when `trailing` holds.
    pub params: Vec<String>,
    /// Whether the last parameter was introduced by `:`.
    pub trailing: bool,
}

pub struct MessageView {
    pub prefix: Option<Seq<char>>,
    pub command: CommandView,
    pub params: Seq<Seq<char>>,
    pub trailing: bool,
}

impl View for Message {
    type V = MessageView;

    open spec fn view(&self) -> MessageView {
        MessageView {
            prefix: option_view(self.prefix),
            command: self.command@,
            params: views(self.params@),
            trailing: self.trailing,
        }
    }
}

/// The parameters in `s`, split on single spaces, up to a token that starts
/// with `:`: that token, without the `:`, and all after it form the
/// trailing parameter. The flag says whether there is one.
pub open spec fn params_of(s: Seq<char>) -> (Seq<Seq<char>>, bool)
    decreases s.len(),
{
    if s.len() > 0 && s[0] == ':' {
        (seq![s.skip(1)], true)
    } else {
        let k = index_of(s, ' ');
        if k < s.len() {
            let rest = params_of(s.skip((k + 1) as int));
            (seq![s.take(k as int)] + rest.0, rest.1)
        } else {
            (seq![s], false)
        }
    }
}

/// The command token and parameters that follow the prefix.
pub open spec fn message_after(prefix: Option<Seq<char>>, s: Seq<char>) -> MessageView {
    let j = index_of(s, ' ');
    let command = command_of(s.take(j as int));
    if j < s.len() {
        let ps = params_of(s.skip((j + 1) as int));
        MessageView { prefix, command, params: ps.0, trailing: ps.1 }
    } else {
        MessageView { prefix, command, params: seq![], trailing: false }
    }
}

/// A line as a message: an optional `:`-prefix token, a command token, and
/// the parameters.
pub open spec fn tokenized(line: Seq<char>) -> MessageView {
    if line.len() > 0 && line[0] == ':' {
        let i = index_of(line, ' ');
        let prefix = Some(line.subrange(1, i as int));
        if i < line.len() {
            message_after(prefix, line.skip((i + 1) as int))
        } else {
            MessageView { prefix, command: CommandView::Named(seq![]), params: seq![], trailing: false }
        }
    } else {
        message_after(None, line)
    }
}

fn parse_command(cs: &[char], from: usize, to: usize) -> (r: CommandToken)
    requires
        from <= to <= cs@.len(),
    ensures
        r@ == command_of(cs@.subrange(from as int, to as int)),
{
    let ghost tok = cs@.subrange(from as int, to as int);
    if to - from < 1 || to - from > 3 {
        return CommandToken::Named(string_of(cs, from, to));
    }
    let mut v: u32 = 0;
    let mut i = from;
    while i < to
        invariant
            from <= i <= to <= cs@.len(),
            to - from <= 3,
            tok == cs@.subrange(from as int, to as int),
            forall|j: int| 0 <= j < i - from ==> is_digit(#[trigger] tok[j]),
            v == digits_value(tok.take(i - from)),
            i - from == 0 ==> v == 0,
            i - from == 1 ==> v <= 9,
            i - from == 2 ==> v <= 99,
            v <= 999,
        decreases to - i,
    {
        let c = cs[i];
        if !('0' <= c && c <= '9') {
            assert(!is_digit(tok[i - from]));
            return CommandToken::Named(string_of(cs, from, to));
        }
        assert(tok.take(i - from + 1).drop_last() =~= tok.take(i - from));
        v = v * 10 + (c as u32 - '0' as u32);
        i = i + 1;
    }
    assert(tok.take(tok.len() as int) =~= tok);
    CommandToken::Numeric(v as u16)
}

fn parse_params(cs: &[char], start: usize) -> (r: (Vec<String>, bool))
    requires
        start <= cs@.len(),
    ensures
        (views(r.0@), r.1) == params_of(cs@.skip(start as int)),
{
    let n = cs.len();
    let mut out: Vec<String> = Vec::new();
    let mut pos = start;
    let mut trailing = false;
    assert(views(out@) + params_of(cs@.skip(start as int)).0 =~= params_of(
        cs@.skip(start as int),
    ).0);
    loop
        invariant_except_break
            !trailing,
            params_of(cs@.skip(start as int)) == (
                views(out@) + params_of(cs@.skip(pos as int)).0,
                params_of(cs@.skip(pos as int)).1,
            ),
        invariant
            start <= pos <= n,
            n == cs@.len(),
        ensures
            params_of(cs@.skip(start as int)) == (views(out@), trailing),
        decreases n - pos,
    {
        let ghost rest = cs@.skip(pos as int);
        let ghost before = out@;
        if pos < n && cs[pos] == ':' {
            let p = string_of(cs, pos + 1, n);
            out.push(p);
            assert(rest.skip(1) =~= cs@.subrange(pos + 1, n as int));
            assert(views(out@) =~= views(before) + params_of(rest).0);
            trailing = true;
            break;
        }
        let sp = find_char(cs, pos, n, ' ');
        assert(cs@.subrange(pos as int, n as int) =~= rest);
        assert(pos < n ==> rest[0] == cs@[pos as int]);
        let p = string_of(cs, pos, sp);
        out.push(p);
        assert(rest.take(sp - pos) =~= cs@.subrange(pos as int, sp as int));
        if sp == n {
            assert(rest =~= cs@.subrange(pos as int, sp as int));
            assert(views(out@) =~= views(before) + params_of(rest).0);
            break;
        }
        assert(rest.skip(sp - pos + 1) =~= cs@.skip(sp + 1));
        assert(views(out@) + params_of(cs@.skip(sp + 1)).0 =~= views(before) + params_of(rest).0);
        pos = sp + 1;
    }
    (out, trailing)
}

fn parse_after(prefix: Option<String>, cs: &[char], start: usize) -> (r: Message)
    requires
        start <= cs@.len(),
    ensures
        r@ == message_after(option_view(prefix), cs@.skip(start as int)),
{
    let n = cs.len();
    let j = find_char(cs, start, n, ' ');
    assert(cs@.subrange(start as int, n as int) =~= cs@.skip(start as int));
    assert(cs@.subrange(start as int, j as int) =~= cs@.skip(start as int).take(j - start));
    let command = parse_command(cs, start, j);
    if j < n {
        assert(cs@.skip(start as int).skip(j - start + 1) =~= cs@.skip(j + 1));
        let (params, trailing) = parse_params(cs, j + 1);
        Message { prefix, command, params, trailing }
    } else {
        let params: Vec<String> = Vec::new();
        assert(views(params@) =~= Seq::<Seq<char>>::empty());
        Message { prefix, command, params, trailing: false }
    }
}

/// Tokenizes one line, as `tokenized` describes.
pub fn tokenize(line: &str) -> (r: Message)
    ensures
        r@ == tokenized(line@),
{
    let cs = chars_of(line);
    let n = cs.len();
    if n > 0 && cs[0] == ':' {
        let i = find_char(cs.as_slice(), 0, n, ' ');
        assert(cs@.subrange(0, n as int) =~= cs@);
        let prefix = string_of(cs.as_slice(), 1, i);
        if i < n {
            parse_after(Some(prefix), cs.as_slice(), i + 1)
        } else {
            let params: Vec<String> = Vec::new();
            assert(views(params@) =~= Seq::<Seq<char>>::empty());
            Message {
                prefix: Some(prefix),
                command: CommandToken::Named(String::new()),
                params,
                trailing: false,
            }
        }
    } else {
        assert(cs@.skip(0) =~= cs@);
        parse_after(None, cs.as_slice(), 0)
    }
}


/// A token that holds no space.
pub open spec fn is_word(t: Seq<char>) -> bool {
    forall|i: int| 0 <= i < t.len() ==> t[i] != ' '
}

/// A parameter that can stand before the trailing one: no space, and no
/// leading `:`.
pub open spec fn is_middle(t: Seq<char>) -> bool {
    is_word(t) && (t.len() > 0 ==> t[0] != ':')
}

/// The parameters as they stand on the wire after the command: each middle
/// parameter followed by a space, then `:` and the trailing text.
pub open spec fn params_text(middle: Seq<Seq<char>>, trailing: Seq<char>) -> Seq<char>
    decreases middle.len(),
{
    if middle.len() == 0 {
        seq![':'] + trailing
    } else {
        middle[0] + seq![' '] + params_text(middle.drop_first(), trailing)
    }
}

/// A whole line: optional `:`-prefix, command, parameters.
pub open spec fn wire_line(
    prefix: Option<Seq<char>>,
    command: Seq<char>,
    middle: Seq<Seq<char>>,
    trailing: Seq<char>,
) -> Seq<char> {
    let head = match prefix {
        Some(p) => seq![':'] + p + seq![' '] + command,
        None => command,
    };
    head + seq![' '] + params_text(middle, trailing)
}

proof fn lemma_word_then_space(w: Seq<char>, rest: Seq<char>)
    requires
        is_word(w),
    ensures
        index_of(w + seq![' '] + rest, ' ') == w.len(),
        (w + seq![' '] + rest).take(w.len() as int) == w,
        (w + seq![' '] + rest).skip(w.len() as int + 1) == rest,
{
    let s = w + seq![' '] + rest;
    assert forall|j: int| 0 <= j < w.len() implies s[j] != ' ' by {
        assert(s[j] == w[j]);
    }
    lemma_index_of_unique(s, ' ', w.len() as int);
    assert(s.take(w.len() as int) =~= w);
    assert(s.skip(w.len() as int + 1) =~= rest);
}

proof fn lemma_params_text(middle: Seq<Seq<char>>, trailing: Seq<char>)
    requires
        forall|k: int| 0 <= k < middle.len() ==> is_middle(#[trigger] middle[k]),
    ensures
        params_of(params_text(middle, trailing)) == (middle.push(trailing), true),
    decreases middle.len(),
{
    let s = params_text(middle, trailing);
    if middle.len() == 0 {
        assert(s.skip(1) =~= trailing);
        assert(seq![trailing] =~= middle.push(trailing));
    } else {
        let m0 = middle[0];
        assert(is_middle(m0));
        let rest = params_text(middle.drop_first(), trailing);
        assert forall|k: int| 0 <= k < middle.drop_first().len() implies is_middle(
            #[trigger] middle.drop_first()[k],
        ) by {
            assert(middle.drop_first()[k] == middle[k + 1]);
        }
        lemma_params_text(middle.drop_first(), trailing);
        lemma_word_then_space(m0, rest);
        if m0.len() > 0 {
            assert(s[0] == m0[0]);
        } else {
            assert(s[0] == ' ');
        }
        assert(seq![m0] + middle.drop_first().push(trailing) =~= middle.push(trailing));
    }
}

/// Tokenizing preserves a trailing parameter exactly, embedded spaces
/// included, minus its leading `:`; the prefix, command and middle
/// parameters come back as written.
pub proof fn lemma_trailing_round_trip(
    prefix: Option<Seq<char>>,
    command: Seq<char>,
    middle: Seq<Seq<char>>,
    trailing: Seq<char>,
)
    requires
        prefix matches Some(p) ==> is_word(p),
        is_word(command),
        prefix is None ==> is_middle(command),
        forall|k: int| 0 <= k < middle.len() ==> is_middle(#[trigger] middle[k]),
    ensures
        tokenized(wire_line(prefix, command, middle, trailing)) == (MessageView {
            prefix,
            command: command_of(command),
            params: middle.push(trailing),
            trailing: true,
        }),
{
    let pt = params_text(middle, trailing);
    let after = command + seq![' '] + pt;
    lemma_params_text(middle, trailing);
    lemma_word_then_space(command, pt);
    let line = wire_line(prefix, command, middle, trailing);
    match prefix {
        Some(p) => {
            assert(line =~= seq![':'] + (p + seq![' '] + after));
            let tail = p + seq![' '] + after;
            lemma_word_then_space(p, after);
            assert forall|j: int| 0 <= j < p.len() + 1 implies line[j] != ' ' by {
                if j > 0 {
                    assert(line[j] == tail[j - 1]);
                }
            }
            assert(line[p.len() as int + 1] == ' ');
            lemma_index_of_unique(line, ' ', p.len() as int + 1);
            assert(line.subrange(1, p.len() as int + 1) =~= p);
            assert(line.skip(p.len() as int + 2) =~= after);
        },
        None => {
            assert(line =~= after);
            if command.len() > 0 {
                assert(line[0] == command[0]);
            } else {
                assert(line[0] == ' ');
            }
        },
    }
}

} // verus!
