//! The server's room registry: live rooms by id, each with the credential tag given at
//! creation, its members, and its broadcast log.

use vstd::prelude::*;
use crate::broadcast::{publish_spec, LogView, Recv, RoomLog, recv_spec, ROOM_CAPACITY};

verus! {

/// Why a room command was refused.
#[derive(PartialEq, Eq, Structural, Clone, Copy, Debug)]
pub enum RoomError {
    RoomExists,
    BadCredential,
    NoSuchRoom,
    UnknownAction,
    InvalidCmd,
}

pub struct RoomView {
    pub id: Seq<char>,
    pub credential: Seq<char>,
    pub members: Seq<Seq<char>>,
    pub log: LogView,
}

pub open spec fn has_room(rooms: Seq<RoomView>, id: Seq<char>) -> bool {
    exists|i: int| 0 <= i < rooms.len() && #[trigger] rooms[i].id == id
}

/// The position of room `id` (ids are unique among live rooms).
pub open spec fn room_index(rooms: Seq<RoomView>, id: Seq<char>) -> int {
    choose|i: int| 0 <= i < rooms.len() && #[trigger] rooms[i].id == id
}

/// `ms` with `nick` added, unless it is there already.
pub open spec fn add_member(ms: Seq<Seq<char>>, nick: Seq<char>) -> Seq<Seq<char>> {
    if ms.contains(nick) {
        ms
    } else {
        ms.push(nick)
    }
}

/// `ms` without `nick`, the others in their order.
pub open spec fn without(ms: Seq<Seq<char>>, nick: Seq<char>) -> Seq<Seq<char>>
    decreases ms.len(),
{
    if ms.len() == 0 {
        ms
    } else if ms.last() == nick {
        without(ms.drop_last(), nick)
    } else {
        without(ms.drop_last(), nick).push(ms.last())
    }
}

/// A new room: its creator as only member and an empty log.
pub open spec fn new_room(id: Seq<char>, cred: Seq<char>, nick: Seq<char>) -> RoomView {
    RoomView {
        id,
        credential: cred,
        members: seq![nick],
        log: LogView { first: 0, messages: Seq::empty(), capacity: ROOM_CAPACITY as nat },
    }
}

/// CREATE: refused when the id is taken; otherwise the room is added.
pub open spec fn create_spec(rooms: Seq<RoomView>, id: Seq<char>, cred: Seq<char>, nick: Seq<char>) -> (Seq<RoomView>, Result<(), RoomError>) {
    if has_room(rooms, id) {
        (rooms, Err(RoomError::RoomExists))
    } else {
        (rooms.push(new_room(id, cred, nick)), Ok(()))
    }
}

/// JOIN: refused when no such room exists or the credential tag differs from the one
/// given at creation; otherwise the nickname joins the members (again, harmlessly).
pub open spec fn join_spec(rooms: Seq<RoomView>, id: Seq<char>, cred: Seq<char>, nick: Seq<char>) -> (Seq<RoomView>, Result<(), RoomError>) {
    if !has_room(rooms, id) {
        (rooms, Err(RoomError::NoSuchRoom))
    } else {
        let i = room_index(rooms, id);
        if rooms[i].credential != cred {
            (rooms, Err(RoomError::BadCredential))
        } else {
            (rooms.update(i, RoomView { members: add_member(rooms[i].members, nick), ..rooms[i] }), Ok(()))
        }
    }
}

/// Leaving: the nickname leaves the room's members, and a room left empty is removed.
pub open spec fn leave_spec(rooms: Seq<RoomView>, id: Seq<char>, nick: Seq<char>) -> Seq<RoomView> {
    if !has_room(rooms, id) {
        rooms
    } else {
        let i = room_index(rooms, id);
        let ms = without(rooms[i].members, nick);
        if ms.len() == 0 {
            rooms.remove(i)
        } else {
            rooms.update(i, RoomView { members: ms, ..rooms[i] })
        }
    }
}

/// Publishing to a room's log; nothing happens for an unknown room or an exhausted
/// sequence of message numbers.
pub open spec fn publish_room_spec(rooms: Seq<RoomView>, id: Seq<char>, text: Seq<char>) -> Seq<RoomView> {
    if has_room(rooms, id) && rooms[room_index(rooms, id)].log.next() < u64::MAX {
        let i = room_index(rooms, id);
        rooms.update(i, RoomView { log: publish_spec(rooms[i].log, text), ..rooms[i] })
    } else {
        rooms
    }
}

pub struct Room {
    id: String,
    credential: String,
    members: Vec<String>,
    log: RoomLog,
}

impl Room {
    pub closed spec fn view(&self) -> RoomView {
        RoomView {
            id: self.id@,
            credential: self.credential@,
            members: self.members@.map_values(|m: String| m@),
            log: self.log@,
        }
    }
}

pub struct Registry {
    rooms: Vec<Room>,
}

pub open spec fn rooms_wf(rooms: Seq<RoomView>) -> bool {
    &&& forall|i: int, j: int| 0 <= i < rooms.len() && 0 <= j < rooms.len() && #[trigger] rooms[i].id == #[trigger] rooms[j].id ==> i == j
    &&& forall|i: int| 0 <= i < rooms.len() ==> (#[trigger] rooms[i]).members.len() > 0
    &&& forall|i: int| 0 <= i < rooms.len() ==> (#[trigger] rooms[i]).members.no_duplicates()
    &&& forall|i: int| 0 <= i < rooms.len() ==> (#[trigger] rooms[i]).log.wf()
    &&& forall|i: int| 0 <= i < rooms.len() ==> (#[trigger] rooms[i]).log.next() <= u64::MAX
}

proof fn lemma_without_facts(ms: Seq<Seq<char>>, nick: Seq<char>)
    requires
        ms.no_duplicates(),
    ensures
        without(ms, nick).no_duplicates(),
        forall|m: Seq<char>| without(ms, nick).contains(m) <==> (ms.contains(m) && m != nick),
    decreases ms.len(),
{
    if ms.len() > 0 {
        let p = ms.drop_last();
        assert(p.no_duplicates());
        lemma_without_facts(p, nick);
        assert forall|m: Seq<char>| without(ms, nick).contains(m) <==> (ms.contains(m) && m != nick) by {
            if ms.contains(m) && m != nick {
                let k = choose|k: int| 0 <= k < ms.len() && ms[k] == m;
                if k < ms.len() - 1 {
                    assert(p[k] == m);
                    assert(p.contains(m));
                    assert(without(p, nick).contains(m));
                    if ms.last() != nick {
                        let w = without(p, nick);
                        let q = choose|q: int| 0 <= q < w.len() && w[q] == m;
                        assert(w.push(ms.last())[q] == m);
                    }
                } else {
                    assert(m == ms.last());
                    assert(without(ms, nick) == without(p, nick).push(ms.last()));
                    assert(without(ms, nick)[without(p, nick).len() as int] == m);
                }
            }
            if without(ms, nick).contains(m) {
                if ms.last() == nick {
                    assert(without(p, nick).contains(m));
                } else {
                    let w = without(p, nick);
                    let q = choose|q: int| 0 <= q < w.len() + 1 && w.push(ms.last())[q] == m;
                    if q < w.len() {
                        assert(w[q] == m);
                        assert(w.contains(m));
                    } else {
                        assert(m == ms.last());
                        assert(ms[ms.len() - 1] == m);
                    }
                }
                if p.contains(m) {
                    let k = choose|k: int| 0 <= k < p.len() && p[k] == m;
                    assert(ms[k] == m);
                }
            }
        }
        if ms.last() != nick {
            assert(!p.contains(ms.last()));
            assert(without(ms, nick) == without(p, nick).push(ms.last()));
        }
    }
}

impl Registry {
    pub closed spec fn view(&self) -> Seq<RoomView> {
        self.rooms@.map_values(|r: Room| r@)
    }

    pub open spec fn wf(&self) -> bool {
        rooms_wf(self@)
    }

    /// An empty registry.
    pub fn new() -> (r: Registry)
        ensures
            r@ == Seq::<RoomView>::empty(),
            r.wf(),
    {
        let r = Registry { rooms: Vec::new() };
        assert(r@ =~= Seq::<RoomView>::empty());
        r
    }

    fn find(&self, id: &String) -> (r: Option<usize>)
        requires
            self.wf(),
        ensures
            match r {
                None => !has_room(self@, id@),
                Some(i) => i < self@.len() && i == room_index(self@, id@) && has_room(self@, id@),
            },
    {
        let mut i: usize = 0;
        while i < self.rooms.len()
            invariant
                i <= self.rooms@.len(),
                self.wf(),
                forall|j: int| 0 <= j < i ==> self@[j].id != id@,
            decreases self.rooms@.len() - i,
        {
            if self.rooms[i].id == *id {
                assert(self@[i as int].id == id@);
                return Some(i);
            }
            i = i + 1;
        }
        None
    }

    /// The ids of the live rooms, in creation order.
    pub fn room_ids(&self) -> (r: Vec<String>)
        ensures
            r@.map_values(|s: String| s@) == self@.map_values(|v: RoomView| v.id),
    {
        let mut r: Vec<String> = Vec::new();
        let mut i: usize = 0;
        while i < self.rooms.len()
            invariant
                i <= self.rooms@.len(),
                r@.len() == i,
                forall|j: int| 0 <= j < i ==> r@[j]@ == self@[j].id,
            decreases self.rooms@.len() - i,
        {
            r.push(self.rooms[i].id.clone());
            i = i + 1;
        }
        assert(r@.map_values(|s: String| s@) =~= self@.map_values(|v: RoomView| v.id));
        r
    }

    /// The members of room `id`, in the order they joined; `None` for an unknown room.
    pub fn members(&self, id: &String) -> (r: Option<Vec<String>>)
        requires
            self.wf(),
        ensures
            match r {
                None => !has_room(self@, id@),
                Some(v) => has_room(self@, id@) && v@.map_values(|s: String| s@) == self@[room_index(self@, id@)].members,
            },
    {
        match self.find(id) {
            None => None,
            Some(i) => {
                let ms = &self.rooms[i].members;
                let mut r: Vec<String> = Vec::new();
                let mut k: usize = 0;
                while k < ms.len()
                    invariant
                        k <= ms@.len(),
                        r@.len() == k,
                        forall|j: int| 0 <= j < k ==> r@[j]@ == ms@[j]@,
                    decreases ms@.len() - k,
                {
                    r.push(ms[k].clone());
                    k = k + 1;
                }
                assert(r@.map_values(|s: String| s@) =~= self@[i as int].members);
                Some(r)
            },
        }
    }

    /// CREATE `id` with credential tag `cred` for `nick`.
    pub fn create(&mut self, id: &String, cred: &String, nick: &String) -> (r: Result<(), RoomError>)
        requires
            old(self).wf(),
        ensures
            (final(self)@, r) == create_spec(old(self)@, id@, cred@, nick@),
            final(self).wf(),
    {
        if self.find(id).is_some() {
            return Err(RoomError::RoomExists);
        }
        let mut members: Vec<String> = Vec::new();
        members.push(nick.clone());
        let room = Room { id: id.clone(), credential: cred.clone(), members, log: RoomLog::new(ROOM_CAPACITY) };
        assert(room@.members =~= seq![nick@]);
        self.rooms.push(room);
        assert(self@ =~= old(self)@.push(new_room(id@, cred@, nick@)));
        Ok(())
    }

    /// JOIN `id` with credential tag `cred` as `nick`.
    pub fn join(&mut self, id: &String, cred: &String, nick: &String) -> (r: Result<(), RoomError>)
        requires
            old(self).wf(),
        ensures
            (final(self)@, r) == join_spec(old(self)@, id@, cred@, nick@),
            final(self).wf(),
    {
        let i = match self.find(id) {
            None => return Err(RoomError::NoSuchRoom),
            Some(i) => i,
        };
        if !(self.rooms[i].credential == *cred) {
            return Err(RoomError::BadCredential);
        }
        let ghost old_members = self@[i as int].members;
        let mut present = false;
        let mut k: usize = 0;
        while k < self.rooms[i].members.len()
            invariant
                i < self.rooms@.len(),
                k <= self.rooms@[i as int].members@.len(),
                self@ == old(self)@,
                present == exists|j: int| 0 <= j < k && #[trigger] self.rooms@[i as int].members@[j]@ == nick@,
            decreases self.rooms@[i as int].members@.len() - k,
        {
            if self.rooms[i].members[k] == *nick {
                present = true;
            }
            k = k + 1;
        }
        proof {
            if present {
                let j = choose|j: int| 0 <= j < k && #[trigger] self.rooms@[i as int].members@[j]@ == nick@;
                assert(old_members[j] == nick@);
            } else {
                assert forall|j: int| 0 <= j < old_members.len() implies old_members[j] != nick@ by {
                    assert(self.rooms@[i as int].members@[j]@ == old_members[j]);
                }
            }
        }
        if !present {
            self.rooms[i].members.push(nick.clone());
            assert(!old_members.contains(nick@));
            assert(self@[i as int].members =~= old_members.push(nick@));
        } else {
            assert(old_members.contains(nick@));
        }
        assert(self@[i as int].members == add_member(old_members, nick@));
        assert(self@ =~= old(self)@.update(i as int, RoomView { members: add_member(old_members, nick@), ..old(self)@[i as int] }));
        Ok(())
    }

    /// `nick` leaves room `id`; the room is removed when no member is left.
    pub fn leave(&mut self, id: &String, nick: &String)
        requires
            old(self).wf(),
        ensures
            final(self)@ == leave_spec(old(self)@, id@, nick@),
            final(self).wf(),
    {
        let i = match self.find(id) {
            None => return,
            Some(i) => i,
        };
        let ghost ms0 = self@[i as int].members;
        let mut kept: Vec<String> = Vec::new();
        let mut k: usize = 0;
        while k < self.rooms[i].members.len()
            invariant
                i < self.rooms@.len(),
                k <= self.rooms@[i as int].members@.len(),
                self@ == old(self)@,
                ms0 == self@[i as int].members,
                kept@.map_values(|s: String| s@) == without(ms0.subrange(0, k as int), nick@),
            decreases self.rooms@[i as int].members@.len() - k,
        {
            let m = self.rooms[i].members[k].clone();
            assert(ms0.subrange(0, k + 1int).drop_last() =~= ms0.subrange(0, k as int));
            if !(m == *nick) {
                kept.push(m);
                assert(kept@.map_values(|s: String| s@) =~= without(ms0.subrange(0, k as int), nick@).push(ms0[k as int]));
            }
            k = k + 1;
        }
        assert(ms0.subrange(0, ms0.len() as int) =~= ms0);
        proof {
            lemma_without_facts(ms0, nick@);
        }
        if kept.len() == 0 {
            self.rooms.remove(i);
            assert(self@ =~= old(self)@.remove(i as int));
        } else {
            self.rooms[i].members = kept;
            assert(self@ =~= old(self)@.update(i as int, RoomView { members: without(ms0, nick@), ..old(self)@[i as int] }));
        }
    }

    /// Publishes `text` to room `id`'s log.
    pub fn publish(&mut self, id: &String, text: String)
        requires
            old(self).wf(),
        ensures
            final(self)@ == publish_room_spec(old(self)@, id@, text@),
            final(self).wf(),
    {
        let i = match self.find(id) {
            None => return,
            Some(i) => i,
        };
        if self.rooms[i].log.subscribe() == u64::MAX {
            return;
        }
        self.rooms[i].log.publish(text);
        assert(self@ =~= old(self)@.update(i as int, RoomView { log: publish_spec(old(self)@[i as int].log, text@), ..old(self)@[i as int] }));
    }

    /// A subscription to room `id`'s log: the cursor of its next message.
    pub fn subscribe(&self, id: &String) -> (r: Option<u64>)
        requires
            self.wf(),
        ensures
            match r {
                None => !has_room(self@, id@),
                Some(c) => has_room(self@, id@) && c == self@[room_index(self@, id@)].log.next(),
            },
    {
        match self.find(id) {
            None => None,
            Some(i) => Some(self.rooms[i].log.subscribe()),
        }
    }

    /// Reads room `id`'s log at `cursor`; `None` for an unknown room.
    pub fn recv(&self, id: &String, cursor: u64) -> (r: Option<(Recv, u64)>)
        requires
            self.wf(),
        ensures
            match r {
                None => !has_room(self@, id@),
                Some(p) => has_room(self@, id@) && (p.0@, p.1 as nat) == recv_spec(self@[room_index(self@, id@)].log, cursor as nat),
            },
    {
        match self.find(id) {
            None => None,
            Some(i) => Some(self.rooms[i].log.recv(cursor)),
        }
    }
}

proof fn lemma_index_of_last(rooms: Seq<RoomView>, id: Seq<char>)
    requires
        rooms_wf(rooms),
        rooms.len() > 0,
        rooms.last().id == id,
    ensures
        has_room(rooms, id),
        room_index(rooms, id) == rooms.len() - 1,
{
    assert(rooms[rooms.len() - 1].id == id);
}

/// Room lifecycle: once `id` is created with credential tag `x`, a JOIN with another tag
/// `y` is refused with `BadCredential` and changes nothing; and when the creator `a` and
/// a member `b` who joined with the right tag have both left, the room is gone.
pub proof fn lemma_room_lifecycle(
    rooms: Seq<RoomView>,
    id: Seq<char>,
    x: Seq<char>,
    y: Seq<char>,
    a: Seq<char>,
    b: Seq<char>,
)
    requires
        rooms_wf(rooms),
        !has_room(rooms, id),
        x != y,
    ensures
        create_spec(rooms, id, x, a).1 == Ok::<(), RoomError>(()),
        join_spec(create_spec(rooms, id, x, a).0, id, y, b) == (create_spec(rooms, id, x, a).0, Err::<(), RoomError>(RoomError::BadCredential)),
        join_spec(create_spec(rooms, id, x, a).0, id, x, b).1 == Ok::<(), RoomError>(()),
        !has_room(leave_spec(leave_spec(join_spec(create_spec(rooms, id, x, a).0, id, x, b).0, id, a), id, b), id),
{
    let s1 = create_spec(rooms, id, x, a).0;
    assert(s1 == rooms.push(new_room(id, x, a)));
    assert(rooms_wf(s1)) by {
        assert forall|i: int, j: int| 0 <= i < s1.len() && 0 <= j < s1.len() && #[trigger] s1[i].id == #[trigger] s1[j].id implies i == j by {
            if i < rooms.len() && j == rooms.len() {
                assert(rooms[i].id == id);
            }
            if j < rooms.len() && i == rooms.len() {
                assert(rooms[j].id == id);
            }
        }
        assert(seq![a].no_duplicates());
    }
    lemma_index_of_last(s1, id);
    let last = rooms.len() as int;
    let s2 = join_spec(s1, id, x, b).0;
    let m2 = add_member(seq![a], b);
    assert(s2 == s1.update(last, RoomView { members: m2, ..s1[last] }));
    assert(s2.len() == s1.len() && s2.last().id == id);
    assert forall|i: int| 0 <= i < rooms.len() implies #[trigger] s2[i].id != id by {
        assert(s2[i] == rooms[i]);
    }
    assert(room_index(s2, id) == last);
    let s3 = leave_spec(s2, id, a);
    if a == b {
        assert(seq![a][0] == a);
        assert(m2 == seq![a]);
        assert(seq![a].drop_last() =~= Seq::<Seq<char>>::empty());
        assert(without(seq![a], a) == without(Seq::<Seq<char>>::empty(), a));
        assert(s3 == s2.remove(last));
        assert(s3 =~= rooms);
    } else {
        assert(!seq![a].contains(b));
        assert(m2 == seq![a, b]);
        assert(seq![a, b].drop_last() =~= seq![a]);
        assert(seq![a].drop_last() =~= Seq::<Seq<char>>::empty());
        assert(without(seq![a], a) == without(Seq::<Seq<char>>::empty(), a));
        assert(without(seq![a, b], a) == without(seq![a], a).push(b));
        assert(without(seq![a, b], a) =~= seq![b]);
        assert(s3 == s2.update(last, RoomView { members: seq![b], ..s2[last] }));
        assert(s3.len() == s2.len() && s3[last].id == id);
        assert forall|i: int| 0 <= i < rooms.len() implies #[trigger] s3[i].id != id by {
            assert(s3[i] == rooms[i]);
        }
        assert(room_index(s3, id) == last);
        assert(seq![b].drop_last() =~= Seq::<Seq<char>>::empty());
        assert(without(seq![b], b) == without(Seq::<Seq<char>>::empty(), b));
        assert(leave_spec(s3, id, b) == s3.remove(last));
        assert(s3.remove(last) =~= rooms);
    }
}

/// Publishing changes no room's id or members.
pub proof fn lemma_publish_keeps_rooms(rooms: Seq<RoomView>, id: Seq<char>, text: Seq<char>)
    ensures
        publish_room_spec(rooms, id, text).len() == rooms.len(),
        forall|i: int| 0 <= i < rooms.len() ==> (#[trigger] publish_room_spec(rooms, id, text)[i]).id == rooms[i].id
            && publish_room_spec(rooms, id, text)[i].members == rooms[i].members
            && publish_room_spec(rooms, id, text)[i].credential == rooms[i].credential,
{
}

/// A successful CREATE or JOIN leaves the room in the registry.
pub proof fn lemma_command_keeps_room(rooms: Seq<RoomView>, id: Seq<char>, cred: Seq<char>, nick: Seq<char>)
    ensures
        create_spec(rooms, id, cred, nick).1 is Ok ==> has_room(create_spec(rooms, id, cred, nick).0, id),
        join_spec(rooms, id, cred, nick).1 is Ok ==> has_room(join_spec(rooms, id, cred, nick).0, id),
{
    if create_spec(rooms, id, cred, nick).1 is Ok {
        assert(create_spec(rooms, id, cred, nick).0[rooms.len() as int].id == id);
    }
    if join_spec(rooms, id, cred, nick).1 is Ok {
        let i = room_index(rooms, id);
        assert(join_spec(rooms, id, cred, nick).0[i].id == id);
    }
}

} // verus!
