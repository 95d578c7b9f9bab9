//! Chat lines as the client receives them: `[name] body` relays, `/member_list`
//! snapshots, and the names, times and bodies shown for each message.

use vstd::prelude::*;
use crate::bytes::{chars_of, has_prefix, join2, string_of};
use crate::envelope::sealable;
use crate::primitives::push_char;
use crate::room_cipher::{is_room_frame, open};
use crate::text::{concat3, trim_end_spec, trim_start, trim_start_spec};

verus! {

/// A message in the client's list.
pub enum ChatMessage {
    Text(String),
    Image { path: String, sender: String, ts: String },
}

/// Whether `i` is the first position of `c` in `s`.
pub open spec fn is_first(s: Seq<char>, c: char, i: int) -> bool {
    0 <= i < s.len() && s[i] == c && forall|j: int| 0 <= j < i ==> s[j] != c
}

/// The first position of `c` in `s`, if any.
pub open spec fn first_pos(s: Seq<char>, c: char) -> Option<int> {
    if exists|i: int| is_first(s, c, i) {
        Some(choose|i: int| is_first(s, c, i))
    } else {
        None
    }
}

proof fn lemma_first_unique(s: Seq<char>, c: char, i: int)
    requires
        is_first(s, c, i),
    ensures
        first_pos(s, c) == Some(i),
{
    let k = choose|k: int| is_first(s, c, k);
    if k < i {
        assert(s[k] != c);
    } else if k > i {
        assert(s[i] != c);
    }
}

/// The first position of `c` in `cs`.
pub fn find_char(cs: &[char], c: char) -> (r: Option<usize>)
    ensures
        match r {
            Some(i) => i < cs@.len() && first_pos(cs@, c) == Some(i as int),
            None => first_pos(cs@, c) is None,
        },
{
    let mut i: usize = 0;
    while i < cs.len()
        invariant
            i <= cs@.len(),
            forall|j: int| 0 <= j < i ==> cs@[j] != c,
        decreases cs@.len() - i,
    {
        if cs[i] == c {
            proof {
                lemma_first_unique(cs@, c, i as int);
            }
            return Some(i);
        }
        i = i + 1;
    }
    assert(!exists|k: int| is_first(cs@, c, k));
    None
}

/// The text inside the first `[...]` of `line` and what follows the `]`; `None` when
/// there is no `[` or no `]` after it.
pub open spec fn bracketed(line: Seq<char>) -> Option<(Seq<char>, Seq<char>)> {
    match first_pos(line, '[') {
        Some(st) => {
            let rest = line.subrange(st + 1, line.len() as int);
            match first_pos(rest, ']') {
                Some(e) => Some((rest.subrange(0, e), rest.subrange(e + 1, rest.len() as int))),
                None => None,
            }
        },
        None => None,
    }
}

/// Splits off the first `[...]`: its text and what follows, or `None`.
pub fn split_bracketed(line: &str) -> (r: Option<(String, String)>)
    ensures
        match (r, bracketed(line@)) {
            (Some(p), Some(q)) => p.0@ == q.0 && p.1@ == q.1,
            (None, None) => true,
            _ => false,
        },
{
    let cs = chars_of(line);
    let st = match find_char(cs.as_slice(), '[') {
        Some(i) => i,
        None => return None,
    };
    assert(st < cs.len());
    let rest = string_of(cs.as_slice(), st + 1, cs.len());
    let rs = chars_of(rest.as_str());
    let e = match find_char(rs.as_slice(), ']') {
        Some(i) => i,
        None => return None,
    };
    Some((string_of(rs.as_slice(), 0, e), string_of(rs.as_slice(), e + 1, rs.len())))
}

/// The body a receiver shows for `b`: the text it seals in the room envelope, or `b`
/// itself when it is no room frame.
pub open spec fn shown_body(key: Seq<u8>, b: Seq<char>, r: Seq<char>) -> bool {
    &&& r == b || is_room_frame(key, b, r)
    &&& forall|p: Seq<char>| sealable(p) && is_room_frame(key, b, p) ==> r == p
}

fn open_or_keep(body: String, room_key: &[u8; 32]) -> (r: String)
    ensures
        shown_body(room_key@, body@, r@),
{
    match open(body.as_str(), room_key) {
        Some(p) => p,
        None => body,
    }
}

pub open spec fn unknown_name() -> Seq<char> {
    "???"@
}

pub open spec fn unknown_time() -> Seq<char> {
    "??:??:??"@
}

/// A relayed chat line's sender and shown body: the sender is the first bracketed name
/// (`???` without one), the body what follows it without leading whitespace, opened in
/// the room envelope when it is a room frame.
pub fn parse_text_img(line: &str, room_key: &[u8; 32]) -> (r: (String, String))
    ensures
        match bracketed(line@) {
            Some((n, rest)) => r.0@ == n && shown_body(room_key@, trim_start_spec(rest), r.1@),
            None => r.0@ == unknown_name() && shown_body(room_key@, trim_start_spec(line@), r.1@),
        },
{
    let (name, after) = match split_bracketed(line) {
        Some(p) => p,
        None => ("???".to_owned(), line.to_owned()),
    };
    let body = trim_start(after.as_str());
    (name, open_or_keep(body, room_key))
}

/// The stem of a path's last component, as `Path::file_stem` gives it.
pub uninterp spec fn file_stem_of(path: Seq<char>) -> Seq<char>;

/// Relies on `std::path::Path::file_stem`; a stem that is missing or not UTF-8 counts as
/// empty.
#[verifier::external_body]
fn path_stem(path: &str) -> (r: String)
    ensures
        r@ == file_stem_of(path@),
{
    std::path::Path::new(path).file_stem().and_then(|s| s.to_str()).unwrap_or_default().to_string()
}

/// The second `_`-separated field of `s`, or nothing when `s` has no `_`.
pub open spec fn second_field(s: Seq<char>) -> Seq<char> {
    match first_pos(s, '_') {
        Some(k) => {
            let rest = s.subrange(k + 1, s.len() as int);
            match first_pos(rest, '_') {
                Some(e) => rest.subrange(0, e),
                None => rest,
            }
        },
        None => Seq::empty(),
    }
}

/// The last three characters of `s`, or all of it when it is no longer.
pub open spec fn tail3(s: Seq<char>) -> Seq<char> {
    if s.len() > 3 {
        s.subrange(s.len() - 3, s.len() as int)
    } else {
        s
    }
}

/// The body shown for an image saved as `img_<id>.png`: the last characters of the id.
pub open spec fn image_label(path: Seq<char>) -> Seq<char> {
    "[\u{56fe}\u{7247}_"@ + tail3(second_field(file_stem_of(path))) + "]"@
}

fn second_field_of(s: &str) -> (r: String)
    ensures
        r@ == second_field(s@),
{
    let cs = chars_of(s);
    let k = match find_char(cs.as_slice(), '_') {
        Some(k) => k,
        None => return String::new(),
    };
    assert(k < cs.len());
    let rest = string_of(cs.as_slice(), k + 1, cs.len());
    let rs = chars_of(rest.as_str());
    match find_char(rs.as_slice(), '_') {
        Some(e) => string_of(rs.as_slice(), 0, e),
        None => rest,
    }
}

/// A message's sender, time and shown body. A text line reads `[name] [time] body`
/// (`???` and `??:??:??` where a part is missing); an image shows its sender, its
/// time and a label made from its file name.
pub fn parse_name_body(msg: &ChatMessage, room_key: &[u8; 32]) -> (r: (String, String, String))
    ensures
        match msg {
            ChatMessage::Text(line) => {
                let (n, after_name) = match bracketed(line@) {
                    Some(p) => p,
                    None => (unknown_name(), line@),
                };
                let (t, after_time) = match bracketed(after_name) {
                    Some(p) => p,
                    None => (unknown_time(), after_name),
                };
                r.0@ == n && r.1@ == t && shown_body(room_key@, trim_start_spec(after_time), r.2@)
            },
            ChatMessage::Image { path, sender, ts } => r.0@ == sender@ && r.1@ == ts@ && r.2@ == image_label(path@),
        },
{
    match msg {
        ChatMessage::Text(line) => {
            let (name, after_name) = match split_bracketed(line.as_str()) {
                Some(p) => p,
                None => ("???".to_owned(), line.clone()),
            };
            let (time, after_time) = match split_bracketed(after_name.as_str()) {
                Some(p) => p,
                None => ("??:??:??".to_owned(), after_name),
            };
            let body = trim_start(after_time.as_str());
            (name, time, open_or_keep(body, room_key))
        },
        ChatMessage::Image { path, sender, ts } => {
            let stem = path_stem(path.as_str());
            let id = second_field_of(stem.as_str());
            let cs = chars_of(id.as_str());
            let suffix = if cs.len() > 3 {
                string_of(cs.as_slice(), cs.len() - 3, cs.len())
            } else {
                id
            };
            (sender.clone(), ts.clone(), concat3("[\u{56fe}\u{7247}_", suffix.as_str(), "]"))
        },
    }
}

/// The `,`-separated fields of `s` (one more than there are commas).
pub open spec fn comma_fields(s: Seq<char>) -> Seq<Seq<char>>
    decreases s.len(),
{
    if s.len() == 0 {
        seq![Seq::empty()]
    } else if s.last() == ',' {
        comma_fields(s.drop_last()).push(Seq::empty())
    } else {
        let f = comma_fields(s.drop_last());
        f.update(f.len() - 1, f.last().push(s.last()))
    }
}

/// The fields, each without surrounding whitespace, the empty ones left out.
pub open spec fn names_of(fields: Seq<Seq<char>>) -> Seq<Seq<char>>
    decreases fields.len(),
{
    if fields.len() == 0 {
        Seq::empty()
    } else {
        let t = trim_start_spec(trim_end_spec(fields.last()));
        if t.len() == 0 {
            names_of(fields.drop_last())
        } else {
            names_of(fields.drop_last()).push(t)
        }
    }
}

pub open spec fn member_list_prefix() -> Seq<char> {
    "/member_list "@
}

/// The members a `/member_list a,b,c` line names; `None` for any other line.
pub open spec fn member_list_of(line: Seq<char>) -> Option<Seq<Seq<char>>> {
    if line.len() >= 13 && line.subrange(0, 13) == member_list_prefix() {
        Some(names_of(comma_fields(line.subrange(13, line.len() as int))))
    } else {
        None
    }
}

fn comma_split(s: &str) -> (r: Vec<String>)
    ensures
        r@.map_values(|w: String| w@) == comma_fields(s@),
{
    let cs = chars_of(s);
    let mut done: Vec<String> = Vec::new();
    let mut cur = String::new();
    let mut i: usize = 0;
    while i < cs.len()
        invariant
            i <= cs@.len(),
            cs@ == s@,
            comma_fields(cs@.subrange(0, i as int)) == done@.map_values(|w: String| w@).push(cur@),
        decreases cs@.len() - i,
    {
        let c = cs[i];
        let ghost next = cs@.subrange(0, i + 1int);
        let ghost d0 = done@.map_values(|w: String| w@);
        let ghost c0 = cur@;
        assert(next.drop_last() =~= cs@.subrange(0, i as int));
        assert(next.last() == c);
        if c == ',' {
            done.push(cur);
            cur = String::new();
            assert(done@.map_values(|w: String| w@) =~= d0.push(c0));
            assert(cur@ =~= Seq::<char>::empty());
        } else {
            push_char(&mut cur, c);
            assert(d0.push(c0).update(d0.len() as int, c0.push(c)) =~= d0.push(cur@));
        }
        i = i + 1;
    }
    let ghost d1 = done@.map_values(|w: String| w@);
    done.push(cur);
    assert(done@.map_values(|w: String| w@) =~= d1.push(cur@));
    assert(cs@.subrange(0, cs@.len() as int) =~= s@);
    done
}

/// The members named by a `/member_list` line; `None` for any other line.
pub fn parse_member_list(line: &str) -> (r: Option<Vec<String>>)
    ensures
        match (r, member_list_of(line@)) {
            (Some(v), Some(ms)) => v@.map_values(|w: String| w@) == ms,
            (None, None) => true,
            _ => false,
        },
{
    proof {
        reveal_strlit("/member_list ");
    }
    let cs = chars_of(line);
    let p = chars_of("/member_list ");
    if !has_prefix(cs.as_slice(), p.as_slice()) {
        return None;
    }
    let rest = string_of(cs.as_slice(), 13, cs.len());
    let fields = comma_split(rest.as_str());
    let mut names: Vec<String> = Vec::new();
    let mut i: usize = 0;
    while i < fields.len()
        invariant
            i <= fields@.len(),
            names@.map_values(|w: String| w@) == names_of(fields@.map_values(|w: String| w@).subrange(0, i as int)),
        decreases fields@.len() - i,
    {
        let ghost pre = fields@.map_values(|w: String| w@).subrange(0, i as int);
        let ghost next = fields@.map_values(|w: String| w@).subrange(0, i + 1int);
        assert(next.drop_last() =~= pre);
        let a = crate::text::trim_end(fields[i].as_str());
        let t = trim_start(a.as_str());
        if !t.as_str().is_empty() {
            let ghost n0 = names@.map_values(|w: String| w@);
            names.push(t);
            assert(names@.map_values(|w: String| w@) =~= n0.push(names@.last()@));
        }
        i = i + 1;
    }
    assert(fields@.map_values(|w: String| w@).subrange(0, fields@.len() as int) =~= fields@.map_values(|w: String| w@));
    Some(names)
}

/// A text line with the local receive time `hms` added: after the first `]` when there
/// is one (`[name] [hms] ...`), otherwise in front (`[hms] line`).
pub open spec fn stamped(line: Seq<char>, hms: Seq<char>) -> Seq<char> {
    match first_pos(line, ']') {
        Some(pos) => line.subrange(0, pos + 1) + " ["@ + hms + "]"@ + line.subrange(pos + 1, line.len() as int),
        None => "["@ + hms + "] "@ + line,
    }
}

/// Adds the receive time to a text line.
pub fn stamp_text_line(line: &str, hms: &str) -> (r: String)
    ensures
        r@ == stamped(line@, hms@),
{
    let cs = chars_of(line);
    match find_char(cs.as_slice(), ']') {
        Some(pos) => {
            assert(pos < cs.len());
            let left = string_of(cs.as_slice(), 0, pos + 1);
            let right = string_of(cs.as_slice(), pos + 1, cs.len());
            let a = concat3(left.as_str(), " [", hms);
            concat3(a.as_str(), "]", right.as_str())
        },
        None => {
            let a = concat3("[", hms, "] ");
            join2(a.as_str(), line)
        },
    }
}

/// Messages kept in the list before the oldest are dropped.
pub const MAX_MESSAGES: usize = 500;

/// How many of the oldest messages go at once when the list is too long.
pub const DROP_AT_ONCE: usize = 100;

/// Keeps the message list bounded: once it holds more than 500 messages, the oldest 100
/// are dropped.
pub fn retain_recent(messages: &mut Vec<ChatMessage>)
    ensures
        old(messages)@.len() > MAX_MESSAGES ==> final(messages)@ == old(messages)@.subrange(
            DROP_AT_ONCE as int,
            old(messages)@.len() as int,
        ),
        old(messages)@.len() <= MAX_MESSAGES ==> final(messages)@ == old(messages)@,
{
    if messages.len() > MAX_MESSAGES {
        let rest = messages.split_off(DROP_AT_ONCE);
        *messages = rest;
    }
}

/// The selection after a message is added to a list of `len_before` messages: a
/// selection on the last message (or none) follows to the new last one; any other stays.
pub fn follow_selection(selected: Option<usize>, len_before: usize) -> (r: Option<usize>)
    requires
        len_before < usize::MAX,
    ensures
        match selected {
            None => r == Some(len_before),
            Some(i) => if i + 1 == len_before { r == Some(len_before) } else { r == selected },
        },
{
    match selected {
        None => Some(len_before),
        Some(i) => if i < len_before && i + 1 == len_before {
            Some(len_before)
        } else {
            selected
        },
    }
}

} // verus!
