//! The server side of one connection: authentication, room negotiation, and the relay
//! between the connection and its room's log. Each event (a line read, a read from the
//! room, the end of the connection) moves the session to its next phase and yields the
//! lines to write; the caller does the I/O.

use vstd::prelude::*;
use crate::broadcast::{recv_spec, Recv, RecvView};
use crate::bytes::{chars_of, has_prefix, join2, string_of};
use crate::envelope::{is_transport_frame, opens_as, sealable, server_open, server_seal};
use crate::auth::{auth_accepted, dec_auth_at};
use crate::registry::{
    create_spec, has_room, join_spec, without, leave_spec, lemma_command_keeps_room, lemma_publish_keeps_rooms,
    publish_room_spec, room_index, Registry, RoomError, RoomView,
};
use crate::text::{comma_joined, comma_list, concat3, spaced, spaced_list, split_words, trim_end, trim_end_spec, words};

verus! {

/// A line for the connection: sealed in the transport envelope, or written as it is.
pub enum Reply {
    Sealed(String),
    Raw(String),
}

pub enum ReplyView {
    Sealed(Seq<char>),
    Raw(Seq<char>),
}

impl Reply {
    pub open spec fn view(&self) -> ReplyView {
        match self {
            Reply::Sealed(t) => ReplyView::Sealed(t@),
            Reply::Raw(t) => ReplyView::Raw(t@),
        }
    }
}

pub open spec fn replies_view(rs: Seq<Reply>) -> Seq<ReplyView> {
    rs.map_values(|r: Reply| r@)
}

pub enum Phase {
    AwaitAuth,
    AwaitCommand,
    Joined { room_id: String, nickname: String, cursor: u64 },
    Closed,
}

pub enum PhaseView {
    AwaitAuth,
    AwaitCommand,
    Joined { room_id: Seq<char>, nickname: Seq<char>, cursor: nat },
    Closed,
}

impl Phase {
    pub open spec fn view(&self) -> PhaseView {
        match self {
            Phase::AwaitAuth => PhaseView::AwaitAuth,
            Phase::AwaitCommand => PhaseView::AwaitCommand,
            Phase::Joined { room_id, nickname, cursor } => PhaseView::Joined {
                room_id: room_id@,
                nickname: nickname@,
                cursor: *cursor as nat,
            },
            Phase::Closed => PhaseView::Closed,
        }
    }
}

/// A room command.
#[derive(PartialEq, Eq, Structural, Clone, Copy, Debug)]
pub enum Action {
    Create,
    Join,
}

pub struct Command {
    pub action: Action,
    pub room_id: String,
    pub credential: String,
    pub nickname: String,
}

/// The `i`-th word of `w`, or nothing.
pub open spec fn word_or_empty(w: Seq<Seq<char>>, i: int) -> Seq<char> {
    if i < w.len() {
        w[i]
    } else {
        Seq::empty()
    }
}

/// A command line: `CREATE|JOIN <room> <credential> <nickname>`, split at whitespace,
/// further words ignored. A missing room, credential or nickname is `InvalidCmd`; any
/// other first word is `UnknownAction`.
pub open spec fn parse_command_spec(text: Seq<char>) -> Result<(Action, Seq<char>, Seq<char>, Seq<char>), RoomError> {
    let w = words(text);
    if word_or_empty(w, 1).len() == 0 || word_or_empty(w, 2).len() == 0 || word_or_empty(w, 3).len() == 0 {
        Err(RoomError::InvalidCmd)
    } else if word_or_empty(w, 0) == "CREATE"@ {
        Ok((Action::Create, w[1], w[2], w[3]))
    } else if word_or_empty(w, 0) == "JOIN"@ {
        Ok((Action::Join, w[1], w[2], w[3]))
    } else {
        Err(RoomError::UnknownAction)
    }
}

fn word_at(w: &Vec<String>, i: usize) -> (r: String)
    ensures
        r@ == word_or_empty(w@.map_values(|s: String| s@), i as int),
{
    if i < w.len() {
        w[i].clone()
    } else {
        String::new()
    }
}

/// Parses a command line.
pub fn parse_command(text: &str) -> (r: Result<Command, RoomError>)
    ensures
        match (r, parse_command_spec(text@)) {
            (Ok(c), Ok((a, id, cred, nick))) => c.action == a && c.room_id@ == id && c.credential@ == cred && c.nickname@ == nick,
            (Err(e), Err(e2)) => e == e2,
            _ => false,
        },
{
    let w = split_words(text);
    let action = word_at(&w, 0);
    let room_id = word_at(&w, 1);
    let credential = word_at(&w, 2);
    let nickname = word_at(&w, 3);
    if room_id.as_str().is_empty() || credential.as_str().is_empty() || nickname.as_str().is_empty() {
        return Err(RoomError::InvalidCmd);
    }
    if action == "CREATE".to_owned() {
        Ok(Command { action: Action::Create, room_id, credential, nickname })
    } else if action == "JOIN".to_owned() {
        Ok(Command { action: Action::Join, room_id, credential, nickname })
    } else {
        Err(RoomError::UnknownAction)
    }
}

/// The name a refusal has on the wire.
pub open spec fn error_name(e: RoomError) -> Seq<char> {
    match e {
        RoomError::RoomExists => "RoomExists"@,
        RoomError::BadCredential => "BadCredential"@,
        RoomError::NoSuchRoom => "NoSuchRoom"@,
        RoomError::UnknownAction => "UnknownAction"@,
        RoomError::InvalidCmd => "InvalidCmd"@,
    }
}

impl RoomError {
    /// The name of this refusal on the wire.
    pub fn name(&self) -> (r: String)
        ensures
            r@ == error_name(*self),
    {
        match self {
            RoomError::RoomExists => "RoomExists".to_owned(),
            RoomError::BadCredential => "BadCredential".to_owned(),
            RoomError::NoSuchRoom => "NoSuchRoom".to_owned(),
            RoomError::UnknownAction => "UnknownAction".to_owned(),
            RoomError::InvalidCmd => "InvalidCmd".to_owned(),
        }
    }
}

pub open spec fn error_line(e: RoomError) -> Seq<char> {
    "ERR "@ + error_name(e) + "\n"@
}

pub open spec fn joined_text(nick: Seq<char>) -> Seq<char> {
    "\u{26a1} ["@ + nick + "] joined."@
}

pub open spec fn left_text(nick: Seq<char>) -> Seq<char> {
    "\u{26a1} ["@ + nick + "] left."@
}

pub open spec fn relay_text(nick: Seq<char>, text: Seq<char>) -> Seq<char> {
    "["@ + nick + "] "@ + text
}

pub open spec fn member_list_text(members: Seq<Seq<char>>) -> Seq<char> {
    "/member_list "@ + comma_joined(members)
}

pub open spec fn rooms_text(rooms: Seq<RoomView>) -> Seq<char> {
    "ROOMS"@ + spaced(rooms.map_values(|v: RoomView| v.id)) + "\n"@
}

pub open spec fn auth_prefix() -> Seq<char> {
    seq!['A', 'U', 'T', 'H', ' ']
}

/// The step after the first line, given what it opened to: close without a reply on a
/// line that does not open; refuse without `AUTH `; refuse a token not accepted at
/// `now`; otherwise `OK` and the room list. Every reply is sealed.
pub open spec fn auth_step(rooms: Seq<RoomView>, opened: Option<Seq<char>>, key: Seq<u8>, now: int) -> (PhaseView, Seq<ReplyView>, bool) {
    match opened {
        None => (PhaseView::Closed, Seq::empty(), true),
        Some(o) => if !(o.len() >= 5 && o.subrange(0, 5) == auth_prefix()) {
            (PhaseView::Closed, seq![ReplyView::Sealed("ERR NeedAUTH"@)], true)
        } else if !auth_accepted(o.subrange(5, o.len() as int), key, now) {
            (PhaseView::Closed, seq![ReplyView::Sealed("ERR BadAuth"@)], true)
        } else {
            (PhaseView::AwaitCommand, seq![ReplyView::Sealed("OK"@), ReplyView::Sealed(rooms_text(rooms))], false)
        },
    }
}

/// The step after the command line, given what it opened to: a line that does not open
/// closes the session without a reply and leaves the rooms alone; refusals close the
/// session; success answers `OK`, announces the member to the room, subscribes the
/// session, and publishes the member list, which the session therefore reads.
pub open spec fn command_step(rooms: Seq<RoomView>, opened: Option<Seq<char>>) -> (PhaseView, Seq<RoomView>, Seq<ReplyView>, bool) {
    match opened {
        None => (PhaseView::Closed, rooms, Seq::empty(), true),
        Some(text) => command_text_step(rooms, text),
    }
}

/// The step after a command line that opened to `text`.
pub open spec fn command_text_step(rooms: Seq<RoomView>, text: Seq<char>) -> (PhaseView, Seq<RoomView>, Seq<ReplyView>, bool) {
    match parse_command_spec(text) {
        Err(RoomError::InvalidCmd) => (
            PhaseView::Closed,
            rooms,
            seq![ReplyView::Raw(error_line(RoomError::InvalidCmd)), ReplyView::Raw("\n"@)],
            true,
        ),
        Err(e) => (PhaseView::Closed, rooms, seq![ReplyView::Raw(error_line(e))], true),
        Ok((a, id, cred, nick)) => {
            let (r1, res) = if a == Action::Create {
                create_spec(rooms, id, cred, nick)
            } else {
                join_spec(rooms, id, cred, nick)
            };
            match res {
                Err(e) => (PhaseView::Closed, r1, seq![ReplyView::Raw(error_line(e))], true),
                Ok(_) => {
                    let r2 = publish_room_spec(r1, id, joined_text(nick));
                    let i = room_index(r2, id);
                    let r3 = publish_room_spec(r2, id, member_list_text(r2[i].members));
                    (
                        PhaseView::Joined { room_id: id, nickname: nick, cursor: r2[i].log.next() },
                        r3,
                        seq![ReplyView::Sealed("OK"@)],
                        false,
                    )
                },
            }
        },
    }
}

/// The step after a chat line from a joined session: a keep-alive is answered at once
/// and goes nowhere else; a line that does not open in the transport envelope ends the
/// connection with nothing published; any other line is published to the room, opened,
/// under the nickname. The rooms, the replies, and whether to close.
pub open spec fn relay_step(rooms: Seq<RoomView>, id: Seq<char>, nick: Seq<char>, line: Seq<char>, opened: Option<Seq<char>>) -> (Seq<RoomView>, Seq<ReplyView>, bool) {
    if line == "$$ping$$"@ {
        (rooms, seq![ReplyView::Raw("/ping_ack\n"@)], false)
    } else {
        match opened {
            Some(o) => (publish_room_spec(rooms, id, relay_text(nick, o)), Seq::empty(), false),
            None => (rooms, Seq::empty(), true),
        }
    }
}

/// Cleanup when a joined session ends: the departure is announced, the member leaves,
/// and the remaining members get the new list (a room left empty is gone).
pub open spec fn cleanup_spec(rooms: Seq<RoomView>, id: Seq<char>, nick: Seq<char>) -> Seq<RoomView> {
    let r1 = publish_room_spec(rooms, id, left_text(nick));
    let r2 = leave_spec(r1, id, nick);
    if has_room(r2, id) {
        publish_room_spec(r2, id, member_list_text(r2[room_index(r2, id)].members))
    } else {
        r2
    }
}

/// What one line does to a session.
pub struct Step {
    /// The lines to write, in order.
    pub replies: Vec<Reply>,
    /// Whether the connection is to be closed after writing them.
    pub close: bool,
    /// What the line opened to in the transport envelope, where it was opened.
    pub opened: Option<String>,
}

pub open spec fn opt_view(o: Option<String>) -> Option<Seq<char>> {
    match o {
        Some(s) => Some(s@),
        None => None,
    }
}

pub struct ServerSession {
    pub phase: Phase,
    pub server_key: [u8; 32],
}

impl ServerSession {
    /// A session that waits for the client's `AUTH` line.
    pub fn new(server_key: [u8; 32]) -> (r: ServerSession)
        ensures
            r.phase@ == PhaseView::AwaitAuth,
            r.server_key == server_key,
    {
        ServerSession { phase: Phase::AwaitAuth, server_key }
    }

    fn auth_line(&mut self, rooms: &Registry, line: &str, now: i64) -> (r: Step)
        requires
            old(self).phase@ == PhaseView::AwaitAuth,
            rooms.wf(),
        ensures
            final(self).server_key == old(self).server_key,
            opens_as(old(self).server_key@, trim_end_spec(line@), opt_view(r.opened)),
            (final(self).phase@, replies_view(r.replies@), r.close) == auth_step(rooms@, opt_view(r.opened), old(self).server_key@, now as int),
    {
        let t = trim_end(line);
        let opened = server_open(t.as_str(), &self.server_key);
        let mut replies: Vec<Reply> = Vec::new();
        match &opened {
            None => {
                self.phase = Phase::Closed;
                return Step { replies, close: true, opened };
            },
            Some(o) => {
                let cs = chars_of(o.as_str());
                let p: Vec<char> = vec!['A', 'U', 'T', 'H', ' '];
                assert(p@ =~= auth_prefix());
                if !has_prefix(cs.as_slice(), p.as_slice()) {
                    replies.push(Reply::Sealed("ERR NeedAUTH".to_owned()));
                    self.phase = Phase::Closed;
                    assert(replies_view(replies@) =~= seq![ReplyView::Sealed("ERR NeedAUTH"@)]);
                    return Step { replies, close: true, opened };
                }
                let token = string_of(cs.as_slice(), 5, cs.len());
                if !dec_auth_at(token.as_str(), &self.server_key, now) {
                    replies.push(Reply::Sealed("ERR BadAuth".to_owned()));
                    self.phase = Phase::Closed;
                    assert(replies_view(replies@) =~= seq![ReplyView::Sealed("ERR BadAuth"@)]);
                    return Step { replies, close: true, opened };
                }
                replies.push(Reply::Sealed("OK".to_owned()));
                let ids = rooms.room_ids();
                let head = spaced_list("ROOMS", &ids);
                let line = join2(head.as_str(), "\n");
                replies.push(Reply::Sealed(line));
                self.phase = Phase::AwaitCommand;
                assert(replies_view(replies@) =~= seq![ReplyView::Sealed("OK"@), ReplyView::Sealed(rooms_text(rooms@))]);
                return Step { replies, close: false, opened };
            },
        }
    }

    fn command_line(&mut self, rooms: &mut Registry, line: &str) -> (r: Step)
        requires
            old(self).phase@ == PhaseView::AwaitCommand,
            old(rooms).wf(),
        ensures
            final(self).server_key == old(self).server_key,
            final(rooms).wf(),
            opens_as(old(self).server_key@, trim_end_spec(line@), opt_view(r.opened)),
            (final(self).phase@, final(rooms)@, replies_view(r.replies@), r.close) == command_step(
                old(rooms)@,
                opt_view(r.opened),
            ),
    {
        let t = trim_end(line);
        let opened = server_open(t.as_str(), &self.server_key);
        let mut replies: Vec<Reply> = Vec::new();
        let text = match &opened {
            Some(o) => o.clone(),
            None => {
                self.phase = Phase::Closed;
                assert(replies_view(replies@) =~= Seq::<ReplyView>::empty());
                return Step { replies, close: true, opened };
            },
        };
        let cmd = match parse_command(text.as_str()) {
            Err(e) => {
                let name = e.name();
                replies.push(Reply::Raw(concat3("ERR ", name.as_str(), "\n")));
                if e == RoomError::InvalidCmd {
                    replies.push(Reply::Raw("\n".to_owned()));
                }
                self.phase = Phase::Closed;
                proof {
                    if e == RoomError::InvalidCmd {
                        assert(replies_view(replies@) =~= seq![ReplyView::Raw(error_line(RoomError::InvalidCmd)), ReplyView::Raw("\n"@)]);
                    } else {
                        assert(replies_view(replies@) =~= seq![ReplyView::Raw(error_line(e))]);
                    }
                }
                return Step { replies, close: true, opened };
            },
            Ok(c) => c,
        };
        let res = match cmd.action {
            Action::Create => rooms.create(&cmd.room_id, &cmd.credential, &cmd.nickname),
            Action::Join => rooms.join(&cmd.room_id, &cmd.credential, &cmd.nickname),
        };
        if let Err(e) = res {
            let name = e.name();
            replies.push(Reply::Raw(concat3("ERR ", name.as_str(), "\n")));
            self.phase = Phase::Closed;
            assert(replies_view(replies@) =~= seq![ReplyView::Raw(error_line(e))]);
            return Step { replies, close: true, opened };
        }
        replies.push(Reply::Sealed("OK".to_owned()));
        proof {
            lemma_command_keeps_room(old(rooms)@, cmd.room_id@, cmd.credential@, cmd.nickname@);
        }
        let ghost r1 = rooms@;
        rooms.publish(&cmd.room_id, concat3("\u{26a1} [", cmd.nickname.as_str(), "] joined."));
        proof {
            lemma_publish_keeps_rooms(r1, cmd.room_id@, joined_text(cmd.nickname@));
            let i = room_index(r1, cmd.room_id@);
            assert(rooms@[i].id == cmd.room_id@);
        }
        let cursor = match rooms.subscribe(&cmd.room_id) {
            Some(c) => c,
            None => 0,
        };
        let members = match rooms.members(&cmd.room_id) {
            Some(m) => m,
            None => Vec::new(),
        };
        rooms.publish(&cmd.room_id, comma_list("/member_list ", &members));
        self.phase = Phase::Joined { room_id: cmd.room_id, nickname: cmd.nickname, cursor };
        assert(replies_view(replies@) =~= seq![ReplyView::Sealed("OK"@)]);
        Step { replies, close: false, opened }
    }

    /// Handles one line read from the connection at time `now`. A joined session that
    /// must close keeps its phase, so that `on_close` still cleans it up.
    pub fn on_line(&mut self, rooms: &mut Registry, line: &str, now: i64) -> (r: Step)
        requires
            old(rooms).wf(),
        ensures
            final(self).server_key == old(self).server_key,
            final(rooms).wf(),
            match old(self).phase@ {
                PhaseView::AwaitAuth => {
                    &&& opens_as(old(self).server_key@, trim_end_spec(line@), opt_view(r.opened))
                    &&& final(rooms)@ == old(rooms)@
                    &&& (final(self).phase@, replies_view(r.replies@), r.close) == auth_step(
                        old(rooms)@,
                        opt_view(r.opened),
                        old(self).server_key@,
                        now as int,
                    )
                },
                PhaseView::AwaitCommand => {
                    &&& opens_as(old(self).server_key@, trim_end_spec(line@), opt_view(r.opened))
                    &&& (final(self).phase@, final(rooms)@, replies_view(r.replies@), r.close) == command_step(
                        old(rooms)@,
                        opt_view(r.opened),
                    )
                },
                PhaseView::Joined { room_id, nickname, cursor } => {
                    &&& line@ != "$$ping$$"@ ==> opens_as(old(self).server_key@, line@, opt_view(r.opened))
                    &&& final(self).phase@ == old(self).phase@
                    &&& (final(rooms)@, replies_view(r.replies@), r.close) == relay_step(
                        old(rooms)@,
                        room_id,
                        nickname,
                        line@,
                        opt_view(r.opened),
                    )
                },
                PhaseView::Closed => {
                    &&& final(self).phase@ == PhaseView::Closed
                    &&& final(rooms)@ == old(rooms)@
                    &&& r.replies@.len() == 0
                    &&& r.close
                },
            },
    {
        match &self.phase {
            Phase::AwaitAuth => self.auth_line(rooms, line, now),
            Phase::AwaitCommand => self.command_line(rooms, line),
            Phase::Joined { room_id, nickname, cursor } => {
                let mut replies: Vec<Reply> = Vec::new();
                if line.to_owned() == "$$ping$$".to_owned() {
                    replies.push(Reply::Raw("/ping_ack\n".to_owned()));
                    assert(replies_view(replies@) =~= seq![ReplyView::Raw("/ping_ack\n"@)]);
                    return Step { replies, close: false, opened: None };
                }
                let opened = server_open(line, &self.server_key);
                let text = match &opened {
                    Some(o) => o.clone(),
                    None => {
                        assert(replies_view(replies@) =~= Seq::<ReplyView>::empty());
                        return Step { replies, close: true, opened };
                    },
                };
                let id = room_id.clone();
                let head = concat3("[", nickname.as_str(), "] ");
                rooms.publish(&id, join2(head.as_str(), text.as_str()));
                assert(replies_view(replies@) =~= Seq::<ReplyView>::empty());
                Step { replies, close: false, opened }
            },
            Phase::Closed => Step { replies: Vec::new(), close: true, opened: None },
        }
    }

    /// The next line the room has for this session, if any. A session that fell behind
    /// the room's window skips what it missed.
    pub fn poll(&mut self, rooms: &Registry) -> (r: Option<Reply>)
        requires
            rooms.wf(),
        ensures
            final(self).server_key == old(self).server_key,
            match old(self).phase@ {
                PhaseView::Joined { room_id, nickname, cursor } => if !has_room(rooms@, room_id) {
                    r is None && final(self).phase@ == old(self).phase@
                } else {
                    let log = rooms@[room_index(rooms@, room_id)].log;
                    let first = recv_spec(log, cursor);
                    let (got, c2) = match first.0 {
                        RecvView::Lagged(_) => recv_spec(log, first.1),
                        _ => first,
                    };
                    &&& final(self).phase@ == (PhaseView::Joined { room_id, nickname, cursor: c2 })
                    &&& match got {
                        RecvView::Message(m) => r matches Some(Reply::Sealed(t)) && t@ == m,
                        _ => r is None,
                    }
                },
                _ => r is None && final(self).phase@ == old(self).phase@,
            },
    {
        let (id, nick, cursor) = match &self.phase {
            Phase::Joined { room_id, nickname, cursor } => (room_id.clone(), nickname.clone(), *cursor),
            _ => return None,
        };
        let (got, c2) = match rooms.recv(&id, cursor) {
            None => return None,
            Some((Recv::Lagged(_), c1)) => match rooms.recv(&id, c1) {
                None => return None,
                Some(p) => p,
            },
            Some(p) => p,
        };
        self.phase = Phase::Joined { room_id: id, nickname: nick, cursor: c2 };
        match got {
            Recv::Message(m) => Some(Reply::Sealed(m)),
            _ => None,
        }
    }

    /// Ends the session: a joined member is cleaned up exactly once, whatever ended the
    /// connection; afterwards the session is closed and does nothing more.
    pub fn on_close(&mut self, rooms: &mut Registry)
        requires
            old(rooms).wf(),
        ensures
            final(self).server_key == old(self).server_key,
            final(rooms).wf(),
            final(self).phase@ == PhaseView::Closed,
            final(rooms)@ == match old(self).phase@ {
                PhaseView::Joined { room_id, nickname, cursor } => cleanup_spec(old(rooms)@, room_id, nickname),
                _ => old(rooms)@,
            },
    {
        let mut phase = Phase::Closed;
        std::mem::swap(&mut self.phase, &mut phase);
        if let Phase::Joined { room_id, nickname, cursor } = phase {
            rooms.publish(&room_id, concat3("\u{26a1} [", nickname.as_str(), "] left."));
            rooms.leave(&room_id, &nickname);
            if let Some(members) = rooms.members(&room_id) {
                rooms.publish(&room_id, comma_list("/member_list ", &members));
            }
        }
    }
}

/// The bytes to write for a reply: a sealed reply becomes a transport frame of its
/// text and a newline (`None` for a text too long to seal); a raw one is written as is.
pub fn render(reply: &Reply, key: &[u8; 32]) -> (r: Option<String>)
    ensures
        match reply@ {
            ReplyView::Raw(t) => r matches Some(s) && s@ == t,
            ReplyView::Sealed(t) => if sealable(t) {
                r matches Some(s) && exists|f: Seq<char>| is_transport_frame(key@, f, t) && s@ == f + "\n"@
            } else {
                r is None
            },
        },
{
    match reply {
        Reply::Raw(t) => Some(t.clone()),
        Reply::Sealed(t) => {
            if t.as_str().as_bytes().len() as u64 > 274_877_906_816u64 {
                return None;
            }
            let f = server_seal(t.clone(), key);
            Some(join2(f.as_str(), "\n"))
        },
    }
}

/// A sealed `AUTH` line whose token the server accepts at `now` is answered with `OK` and
/// the room list, and moves the session on to the room command: the line is read as
/// sent, since a transport frame has no trailing whitespace.
pub proof fn lemma_sealed_auth_accepted(
    rooms: Seq<RoomView>,
    key: Seq<u8>,
    frame: Seq<char>,
    token: Seq<char>,
    opened: Option<Seq<char>>,
    now: int,
)
    requires
        sealable("AUTH "@ + token),
        is_transport_frame(key, frame, "AUTH "@ + token),
        trim_end_spec(frame) == frame,
        opens_as(key, trim_end_spec(frame), opened),
        auth_accepted(token, key, now),
    ensures
        auth_step(rooms, opened, key, now) == (
            PhaseView::AwaitCommand,
            seq![ReplyView::Sealed("OK"@), ReplyView::Sealed(rooms_text(rooms))],
            false,
        ),
{
    reveal_strlit("AUTH ");
    let o = "AUTH "@ + token;
    assert(opened == Some(o));
    assert(o.subrange(0, 5) =~= auth_prefix());
    assert(o.subrange(5, o.len() as int) =~= token);
}

/// Two rooms tables with the same ids and members, position by position.
pub open spec fn same_rooms(r1: Seq<RoomView>, r2: Seq<RoomView>) -> bool {
    &&& r1.len() == r2.len()
    &&& forall|i: int| 0 <= i < r1.len() ==> (#[trigger] r1[i]).id == r2[i].id && r1[i].members == r2[i].members
}

proof fn lemma_same_rooms_index(r1: Seq<RoomView>, r2: Seq<RoomView>, id: Seq<char>, i: int)
    requires
        same_rooms(r1, r2),
        0 <= i < r1.len(),
        r1[i].id == id,
        forall|j: int| 0 <= j < r1.len() && #[trigger] r1[j].id == id ==> j == i,
    ensures
        has_room(r2, id),
        room_index(r2, id) == i,
        forall|j: int| 0 <= j < r2.len() && #[trigger] r2[j].id == id ==> j == i,
{
    assert(r2[i].id == id);
    assert forall|j: int| 0 <= j < r2.len() && #[trigger] r2[j].id == id implies j == i by {
        assert(r1[j].id == r2[j].id);
    }
}

/// Room lifecycle at the session level: when the only two members `a` and `b` of a room
/// end their sessions one after the other, the room is gone.
pub proof fn lemma_last_two_members_leave(rooms: Seq<RoomView>, id: Seq<char>, a: Seq<char>, b: Seq<char>, i: int)
    requires
        0 <= i < rooms.len(),
        rooms[i].id == id,
        forall|j: int| 0 <= j < rooms.len() && #[trigger] rooms[j].id == id ==> j == i,
        rooms[i].members == seq![a, b],
        a != b,
    ensures
        !has_room(cleanup_spec(cleanup_spec(rooms, id, a), id, b), id),
{
    let r1 = publish_room_spec(rooms, id, left_text(a));
    lemma_publish_keeps_rooms(rooms, id, left_text(a));
    assert(same_rooms(rooms, r1));
    lemma_same_rooms_index(rooms, r1, id, i);
    assert(seq![a, b].drop_last() =~= seq![a]);
    assert(seq![a].drop_last() =~= Seq::<Seq<char>>::empty());
    assert(without(seq![a], a) == without(Seq::<Seq<char>>::empty(), a));
    assert(without(seq![a, b], a) == without(seq![a], a).push(b));
    assert(without(seq![a, b], a) =~= seq![b]);
    let r2 = leave_spec(r1, id, a);
    assert(r2 == r1.update(i, RoomView { members: seq![b], ..r1[i] }));
    assert(same_rooms(r2, r2));
    assert forall|j: int| 0 <= j < r2.len() && #[trigger] r2[j].id == id implies j == i by {
        if j != i {
            assert(r1[j].id == id);
        }
    }
    assert(r2[i].id == id);
    let c1 = cleanup_spec(rooms, id, a);
    let r3 = publish_room_spec(r2, id, member_list_text(r2[room_index(r2, id)].members));
    lemma_same_rooms_index(r2, r2, id, i);
    assert(c1 == r3);
    lemma_publish_keeps_rooms(r2, id, member_list_text(r2[i].members));
    assert(same_rooms(r2, r3));
    lemma_same_rooms_index(r2, r3, id, i);
    let r4 = publish_room_spec(r3, id, left_text(b));
    lemma_publish_keeps_rooms(r3, id, left_text(b));
    assert(same_rooms(r3, r4));
    lemma_same_rooms_index(r3, r4, id, i);
    assert(r4[i].members == seq![b]);
    assert(seq![b].drop_last() =~= Seq::<Seq<char>>::empty());
    assert(without(seq![b], b) == without(Seq::<Seq<char>>::empty(), b));
    let r5 = leave_spec(r4, id, b);
    assert(r5 == r4.remove(i));
    assert forall|j: int| 0 <= j < r5.len() implies #[trigger] r5[j].id != id by {
        if j < i {
            assert(r5[j] == r4[j]);
        } else {
            assert(r5[j] == r4[j + 1]);
        }
    }
}

} // verus!
