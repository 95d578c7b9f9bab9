//! The client side of the handshake: authenticate, read the room list, then create or
//! join a room, either chosen by the user or taken from an invitation. The caller
//! reads and writes the lines; this machine decides what to send and when it is done.

use vstd::prelude::*;
use vstd::utf8::*;
use crate::auth::auth_token_at;
use crate::bytes::{chars_of, concat_bytes, has_prefix, join2, string_of};
use crate::envelope::{is_transport_frame, opens_as, sealable, server_open, server_seal};
use crate::primitives::{hex_lower, hmac_sha256_of, is_base64_std_char, md5_of};
use crate::registry::RoomError;
use crate::room_cipher::{credential_tag, hello_bytes, room_digest};
use crate::server::{opt_view, Action};
use crate::text::{concat3, split_words, trim_end_spec, trim_start_spec, words};

verus! {

/// Why a handshake failed.
pub enum HandshakeError {
    /// The server asked for an `AUTH` line first.
    NeedAuth,
    /// The server rejected the authentication token.
    BadAuth,
    /// Any other answer to the authentication line.
    Declined(String),
    /// The server's first message after `OK` was not a room list.
    UnexpectedBanner(String),
    /// The server refused the room command.
    Room(RoomError),
    /// Any other answer to the room command.
    Refused(String),
}

#[derive(PartialEq, Eq, Structural, Clone, Copy, Debug)]
pub enum Stage {
    AwaitAuthOk,
    AwaitBanner,
    ChooseRoom,
    AwaitRoomOk,
    Done,
    Failed,
}

/// `s` without whitespace at either end.
pub open spec fn trimmed(s: Seq<char>) -> Seq<char> {
    trim_start_spec(trim_end_spec(s))
}

/// The answer to the authentication line: accepted when it opens to `OK`; otherwise
/// the answer, opened where it opens, is the refusal.
pub open spec fn auth_reply_spec(line: Seq<char>, opened: Option<Seq<char>>) -> Result<(), Seq<char>> {
    match opened {
        Some(t) => if trimmed(t) == "OK"@ {
            Ok(())
        } else {
            Err(trimmed(t))
        },
        None => Err(trimmed(line)),
    }
}

/// The room command: action, room, credential tag and nickname separated by spaces.
pub open spec fn room_command(a: Action, id: Seq<char>, cred: Seq<char>, nick: Seq<char>) -> Seq<char> {
    (if a == Action::Create { "CREATE"@ } else { "JOIN"@ }) + " "@ + id + " "@ + cred + " "@ + nick
}

/// The credential tag derived from a room id and password.
pub open spec fn credential_of(id: Seq<char>, pwd: Seq<char>) -> Seq<char> {
    hex_lower(hmac_sha256_of(md5_of(encode_utf8(id + pwd)), hello_bytes()))
}

/// The refusal a room answer names, if it names one.
pub open spec fn named_refusal(t: Seq<char>) -> Option<RoomError> {
    if t == "ERR RoomExists"@ {
        Some(RoomError::RoomExists)
    } else if t == "ERR BadCredential"@ {
        Some(RoomError::BadCredential)
    } else if t == "ERR NoSuchRoom"@ {
        Some(RoomError::NoSuchRoom)
    } else if t == "ERR UnknownAction"@ {
        Some(RoomError::UnknownAction)
    } else if t == "ERR InvalidCmd"@ {
        Some(RoomError::InvalidCmd)
    } else {
        None
    }
}

/// The room ids of a `ROOMS` line: its words after the first.
pub open spec fn listed_rooms(text: Seq<char>) -> Seq<Seq<char>> {
    if words(text).len() > 0 {
        words(text).drop_first()
    } else {
        Seq::empty()
    }
}

/// Whether the room list has `id`.
pub open spec fn listed(rooms: Seq<Seq<char>>, id: Seq<char>) -> bool {
    rooms.contains(id)
}

pub struct ClientHandshake {
    pub stage: Stage,
    pub server_key: [u8; 32],
    pub nickname: String,
    pub rooms: Vec<String>,
    pub room_id: String,
    pub room_pwd: String,
    pub preset: bool,
    /// What the last line read opened to in the transport envelope.
    pub last_opened: Option<String>,
}

fn trim_both(s: &str) -> (r: String)
    ensures
        r@ == trimmed(s@),
{
    let a = crate::text::trim_end(s);
    crate::text::trim_start(a.as_str())
}

fn eq_text(a: &str, b: &str) -> (r: bool)
    ensures
        r == (a@ == b@),
{
    a.to_owned() == b.to_owned()
}

impl ClientHandshake {
    /// A handshake that has sent its `AUTH` line: the returned text, to be sealed and
    /// sent, carries a token for `server_key` made at `now`. With `invite` set to a room
    /// id and password, the room is joined without asking the user.
    pub fn start(server_key: [u8; 32], nickname: String, invite: Option<(String, String)>, now: i64) -> (r: (ClientHandshake, String))
        ensures
            r.0.stage == Stage::AwaitAuthOk,
            r.0.server_key == server_key,
            r.0.nickname@ == nickname@,
            r.0.preset == invite is Some,
            invite matches Some(p) ==> r.0.room_id@ == p.0@ && r.0.room_pwd@ == p.1@,
            r.1@.len() >= 5 && r.1@.subrange(0, 5) == "AUTH "@,
            crate::auth::auth_accepted(r.1@.subrange(5, r.1@.len() as int), server_key@, now as int),
    {
        proof {
            reveal_strlit("AUTH ");
        }
        let token = auth_token_at(&server_key, now);
        let line = join2("AUTH ", token.as_str());
        assert(line@.subrange(0, 5) =~= "AUTH "@) by { reveal_strlit("AUTH "); }
        assert(line@.subrange(5, line@.len() as int) =~= token@) by { reveal_strlit("AUTH "); }
        let (preset, room_id, room_pwd) = match invite {
            Some(p) => (true, p.0, p.1),
            None => (false, String::new(), String::new()),
        };
        (ClientHandshake { stage: Stage::AwaitAuthOk, server_key, nickname, rooms: Vec::new(), room_id, room_pwd, preset, last_opened: None }, line)
    }

    /// Whether the server listed the chosen room.
    fn room_listed(&self) -> (r: bool)
        ensures
            r == listed(self.rooms@.map_values(|s: String| s@), self.room_id@),
    {
        let mut found = false;
        let mut i: usize = 0;
        while i < self.rooms.len()
            invariant
                i <= self.rooms@.len(),
                found == exists|j: int| 0 <= j < i && #[trigger] self.rooms@[j]@ == self.room_id@,
            decreases self.rooms@.len() - i,
        {
            if self.rooms[i] == self.room_id {
                found = true;
            }
            i = i + 1;
        }
        proof {
            let v = self.rooms@.map_values(|s: String| s@);
            if found {
                let j = choose|j: int| 0 <= j < i && #[trigger] self.rooms@[j]@ == self.room_id@;
                assert(v[j] == self.room_id@);
            } else {
                assert forall|j: int| 0 <= j < v.len() implies v[j] != self.room_id@ by {
                    assert(self.rooms@[j]@ == v[j]);
                }
            }
        }
        found
    }

    /// The room command for the chosen room: JOIN when `join`, CREATE otherwise.
    fn command_for(&self, join: bool) -> (r: String)
        ensures
            r@ == room_command(
                if join { Action::Join } else { Action::Create },
                self.room_id@,
                credential_of(self.room_id@, self.room_pwd@),
                self.nickname@,
            ),
    {
        let digest = room_digest(self.room_id.as_str(), self.room_pwd.as_str());
        let cred = credential_tag(&digest);
        let action = if join { "JOIN".to_owned() } else { "CREATE".to_owned() };
        let a = concat3(action.as_str(), " ", self.room_id.as_str());
        let b = concat3(a.as_str(), " ", cred.as_str());
        concat3(b.as_str(), " ", self.nickname.as_str())
    }

    /// The user's room choice, in stage `ChooseRoom`: returns the room command to seal
    /// and send.
    pub fn choose_room(&mut self, room_id: String, pwd: String) -> (r: String)
        requires
            old(self).stage == Stage::ChooseRoom,
        ensures
            final(self).stage == Stage::AwaitRoomOk,
            final(self).room_id@ == room_id@,
            final(self).room_pwd@ == pwd@,
            final(self).rooms@ == old(self).rooms@,
            final(self).nickname@ == old(self).nickname@,
            final(self).server_key == old(self).server_key,
            final(self).preset == old(self).preset,
            r@ == room_command(
                if listed(old(self).rooms@.map_values(|s: String| s@), room_id@) { Action::Join } else { Action::Create },
                room_id@,
                credential_of(room_id@, pwd@),
                old(self).nickname@,
            ),
    {
        self.room_id = room_id;
        self.room_pwd = pwd;
        self.stage = Stage::AwaitRoomOk;
        let join = self.room_listed();
        self.command_for(join)
    }

    /// Handles one line from the server. `Ok(Some(text))` is a room command to seal and
    /// send; `Err` ends the handshake.
    pub fn on_line(&mut self, line: &str) -> (r: Result<Option<String>, HandshakeError>)
        ensures
            final(self).server_key == old(self).server_key,
            final(self).nickname@ == old(self).nickname@,
            final(self).preset == old(self).preset,
            old(self).stage == Stage::AwaitAuthOk ==> {
                &&& opens_as(old(self).server_key@, line@, opt_view(final(self).last_opened))
                &&& match auth_reply_spec(line@, opt_view(final(self).last_opened)) {
                    Ok(_) => final(self).stage == Stage::AwaitBanner && (r matches Ok(None)),
                    Err(t) => final(self).stage == Stage::Failed && match r {
                        Err(HandshakeError::NeedAuth) => t == "ERR NeedAUTH"@,
                        Err(HandshakeError::BadAuth) => t == "ERR BadAuth"@,
                        Err(HandshakeError::Declined(d)) => d@ == t && t != "ERR NeedAUTH"@ && t != "ERR BadAuth"@,
                        _ => false,
                    },
                }
            },
            old(self).stage == Stage::AwaitBanner ==> {
                let text = match opt_view(final(self).last_opened) { Some(t) => t, None => line@ };
                &&& opens_as(old(self).server_key@, line@, opt_view(final(self).last_opened))
                &&& if text.len() >= 5 && text.subrange(0, 5) == "ROOMS"@ {
                    &&& final(self).rooms@.map_values(|s: String| s@) == listed_rooms(text)
                    &&& final(self).stage == (if old(self).preset { Stage::AwaitRoomOk } else { Stage::ChooseRoom })
                    &&& if old(self).preset {
                        (r matches Ok(Some(c)) && c@ == room_command(
                            Action::Join,
                            old(self).room_id@,
                            credential_of(old(self).room_id@, old(self).room_pwd@),
                            old(self).nickname@,
                        ))
                    } else {
                        r matches Ok(None)
                    }
                } else {
                    final(self).stage == Stage::Failed && (r matches Err(HandshakeError::UnexpectedBanner(b)) && b@ == text)
                }
            },
            old(self).stage == Stage::AwaitRoomOk ==> {
                let t = trimmed(match opt_view(final(self).last_opened) { Some(t) => t, None => line@ });
                &&& opens_as(old(self).server_key@, line@, opt_view(final(self).last_opened))
                &&& if t == "OK"@ {
                    final(self).stage == Stage::Done && (r matches Ok(None))
                } else {
                    final(self).stage == Stage::Failed && match named_refusal(t) {
                        Some(e) => (r matches Err(HandshakeError::Room(e2)) && e2 == e),
                        None => (r matches Err(HandshakeError::Refused(d)) && d@ == t),
                    }
                }
            },
            old(self).stage == Stage::ChooseRoom || old(self).stage == Stage::Done || old(self).stage == Stage::Failed
                ==> final(self).stage == old(self).stage && (r matches Ok(None)),
    {
        let opened = match self.stage {
            Stage::AwaitAuthOk | Stage::AwaitBanner | Stage::AwaitRoomOk => server_open(line, &self.server_key),
            _ => return Ok(None),
        };
        self.last_opened = opened.clone();
        match self.stage {
            Stage::AwaitAuthOk => {
                if let Some(t) = &opened {
                    let tt = trim_both(t.as_str());
                    if eq_text(tt.as_str(), "OK") {
                        self.stage = Stage::AwaitBanner;
                        return Ok(None);
                    }
                }
                self.stage = Stage::Failed;
                let raw = match &opened {
                    Some(t) => trim_both(t.as_str()),
                    None => trim_both(line),
                };
                if eq_text(raw.as_str(), "ERR NeedAUTH") {
                    Err(HandshakeError::NeedAuth)
                } else if eq_text(raw.as_str(), "ERR BadAuth") {
                    Err(HandshakeError::BadAuth)
                } else {
                    Err(HandshakeError::Declined(raw))
                }
            },
            Stage::AwaitBanner => {
                let text = match opened {
                    Some(t) => t,
                    None => line.to_owned(),
                };
                let cs = chars_of(text.as_str());
                let p: Vec<char> = vec!['R', 'O', 'O', 'M', 'S'];
                assert(p@ =~= "ROOMS"@) by { reveal_strlit("ROOMS"); }
                if !has_prefix(cs.as_slice(), p.as_slice()) {
                    self.stage = Stage::Failed;
                    return Err(HandshakeError::UnexpectedBanner(text));
                }
                let w = split_words(text.as_str());
                let mut rooms: Vec<String> = Vec::new();
                if w.len() > 0 {
                    let mut i: usize = 1;
                    while i < w.len()
                        invariant
                            1 <= i <= w@.len(),
                            rooms@.map_values(|s: String| s@) == w@.map_values(|s: String| s@).subrange(1, i as int),
                        decreases w@.len() - i,
                    {
                        let ghost before = rooms@.map_values(|s: String| s@);
                        rooms.push(w[i].clone());
                        assert(rooms@.map_values(|s: String| s@) =~= before.push(w@[i as int]@));
                        assert(rooms@.map_values(|s: String| s@) =~= w@.map_values(|s: String| s@).subrange(1, i + 1int));
                        i = i + 1;
                    }
                    assert(w@.map_values(|s: String| s@).subrange(1, w@.len() as int) =~= listed_rooms(text@));
                } else {
                    assert(rooms@.map_values(|s: String| s@) =~= listed_rooms(text@));
                }
                self.rooms = rooms;
                if self.preset {
                    self.stage = Stage::AwaitRoomOk;
                    Ok(Some(self.command_for(true)))
                } else {
                    self.stage = Stage::ChooseRoom;
                    Ok(None)
                }
            },
            _ => {
                let text = match opened {
                    Some(t) => t,
                    None => line.to_owned(),
                };
                let t = trim_both(text.as_str());
                if eq_text(t.as_str(), "OK") {
                    self.stage = Stage::Done;
                    return Ok(None);
                }
                self.stage = Stage::Failed;
                if eq_text(t.as_str(), "ERR RoomExists") {
                    Err(HandshakeError::Room(RoomError::RoomExists))
                } else if eq_text(t.as_str(), "ERR BadCredential") {
                    Err(HandshakeError::Room(RoomError::BadCredential))
                } else if eq_text(t.as_str(), "ERR NoSuchRoom") {
                    Err(HandshakeError::Room(RoomError::NoSuchRoom))
                } else if eq_text(t.as_str(), "ERR UnknownAction") {
                    Err(HandshakeError::Room(RoomError::UnknownAction))
                } else if eq_text(t.as_str(), "ERR InvalidCmd") {
                    Err(HandshakeError::Room(RoomError::InvalidCmd))
                } else {
                    Err(HandshakeError::Refused(t))
                }
            },
        }
    }
}

/// A line to send during the handshake: the transport frame of `line`, then a newline,
/// as bytes.
pub fn handshake_writeall_macro(line: String, key: &[u8; 32]) -> (r: Vec<u8>)
    requires
        sealable(line@),
    ensures
        exists|f: Seq<char>|
            is_transport_frame(key@, f, line@) && (forall|i: int| 0 <= i < f.len() ==> is_base64_std_char(#[trigger] f[i]))
                && r@ == encode_utf8(f) + seq![10u8],
{
    let f = server_seal(line, key);
    let nl: Vec<u8> = vec![10u8];
    concat_bytes(f.as_str().as_bytes(), nl.as_slice())
}

/// The server address and password in a `server&password` entry: split at the first
/// `&`; without one, the password is empty.
pub fn split_server_entry(entry: &str) -> (r: (String, String))
    ensures
        entry@.contains('&') ==> {
            let k = choose|k: int| 0 <= k < entry@.len() && entry@[k] == '&' && forall|j: int| 0 <= j < k ==> entry@[j] != '&';
            r.0@ == entry@.subrange(0, k) && r.1@ == entry@.subrange(k + 1, entry@.len() as int)
        },
        !entry@.contains('&') ==> r.0@ == entry@ && r.1@.len() == 0,
{
    let cs = chars_of(entry);
    let mut i: usize = 0;
    while i < cs.len()
        invariant
            i <= cs@.len(),
            cs@ == entry@,
            forall|j: int| 0 <= j < i ==> cs@[j] != '&',
        decreases cs@.len() - i,
    {
        if cs[i] == '&' {
            assert(entry@[i as int] == '&' && forall|j: int| 0 <= j < i ==> entry@[j] != '&');
            proof {
                let k = choose|k: int| 0 <= k < entry@.len() && entry@[k] == '&' && forall|j: int| 0 <= j < k ==> entry@[j] != '&';
                if k < i {
                } else if k > i {
                    assert(entry@[i as int] == '&');
                }
                assert(k == i);
            }
            return (string_of(cs.as_slice(), 0, i), string_of(cs.as_slice(), i + 1, cs.len()));
        }
        i = i + 1;
    }
    assert(cs@.subrange(0, cs@.len() as int) =~= entry@);
    (string_of(cs.as_slice(), 0, cs.len()), String::new())
}

} // verus!
