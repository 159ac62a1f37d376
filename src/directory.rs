//! Presence state (public keys and voice-room membership) and the routing policy that
//! turns each event into outbound messages and updates of that state.
use vstd::prelude::*;
use crate::message::{Author, AuthorView, WireMessage, WireView};
use crate::registry::Delivery;

verus! {

/// How a chat message is attributed.
#[derive(Debug, Clone, Copy, PartialEq, Eq, Structural)]
pub enum AuthorPolicy {
    /// By the sender's connection id.
    ConnectionId,
    /// By the public key the sender announced; a sender with none is not heard.
    Pubkey,
}

/// A message to send and to whom.
#[derive(Debug, Clone, PartialEq, Eq)]
pub struct Outbound {
    pub mode: Delivery,
    pub message: WireMessage,
}

impl View for Outbound {
    type V = (Delivery, WireView);

    open spec fn view(&self) -> (Delivery, WireView) {
        (self.mode, self.message@)
    }
}

/// The views of a sequence of outbound messages.
pub open spec fn notices(v: Seq<Outbound>) -> Seq<(Delivery, WireView)> {
    v.map_values(|o: Outbound| o@)
}

/// Presence state: the public key announced by each connection, in order of first
/// announcement, and each voice room with its members in order of joining.
pub struct Directory {
    identities: Vec<(u64, String)>,
    rooms: Vec<(String, Vec<u64>)>,
}

/// The mathematical state of a [`Directory`].
pub struct DirectoryView {
    pub identities: Seq<(u64, Seq<char>)>,
    pub rooms: Seq<(Seq<char>, Seq<u64>)>,
}

impl View for Directory {
    type V = DirectoryView;

    closed spec fn view(&self) -> DirectoryView {
        DirectoryView {
            identities: self.identities@.map_values(|e: (u64, String)| (e.0, e.1@)),
            rooms: self.rooms@.map_values(|r: (String, Vec<u64>)| (r.0@, r.1@)),
        }
    }
}

/// Holds of every id but `id`.
pub open spec fn other_than(id: u64) -> spec_fn(u64) -> bool {
    |m: u64| m != id
}

/// Holds of every key entry but the one of `id`.
pub open spec fn not_keyed(id: u64) -> spec_fn((u64, Seq<char>)) -> bool {
    |e: (u64, Seq<char>)| e.0 != id
}

/// A message for the newly connected `to` alone.
pub open spec fn to_one(to: u64, m: WireView) -> (Delivery, WireView) {
    (Delivery::Unicast(to), m)
}

/// A message for everyone.
pub open spec fn to_all(m: WireView) -> (Delivery, WireView) {
    (Delivery::Broadcast, m)
}

/// The room announcements replayed to `to`: one per member of each room, room by room.
pub open spec fn room_replay(rooms: Seq<(Seq<char>, Seq<u64>)>, to: u64) -> Seq<(Delivery, WireView)>
    decreases rooms.len(),
{
    if rooms.len() == 0 {
        Seq::empty()
    } else {
        let last = rooms.last();
        room_replay(rooms.drop_last(), to) + last.1.map_values(
            |m: u64| to_one(to, WireView::JoinedVoiceChannel { room: last.0, id: m }),
        )
    }
}

/// One departure notice for each room in which `id` is a member.
pub open spec fn departures(rooms: Seq<(Seq<char>, Seq<u64>)>, id: u64) -> Seq<(Delivery, WireView)>
    decreases rooms.len(),
{
    if rooms.len() == 0 {
        Seq::empty()
    } else {
        let last = rooms.last();
        departures(rooms.drop_last(), id) + if last.1.contains(id) {
            seq![to_all(WireView::LeftVoiceChannel { room: last.0, id })]
        } else {
            Seq::empty()
        }
    }
}

impl DirectoryView {
    /// Keys unique, room names unique, no member twice in a room.
    pub open spec fn wf(self) -> bool {
        &&& forall|i: int, j: int|
            0 <= i < j < self.identities.len() ==> #[trigger] self.identities[i].0
                != #[trigger] self.identities[j].0
        &&& forall|i: int, j: int|
            0 <= i < j < self.rooms.len() ==> #[trigger] self.rooms[i].0 != #[trigger] self.rooms[j].0
        &&& forall|i: int| 0 <= i < self.rooms.len() ==> (#[trigger] self.rooms[i]).1.no_duplicates()
    }

    pub open spec fn has_identity(self, id: u64) -> bool {
        exists|i: int| 0 <= i < self.identities.len() && #[trigger] self.identities[i].0 == id
    }

    pub open spec fn identity_index(self, id: u64) -> int {
        choose|i: int| 0 <= i < self.identities.len() && #[trigger] self.identities[i].0 == id
    }

    /// The public key announced by `id`, if any.
    pub open spec fn pubkey(self, id: u64) -> Option<Seq<char>> {
        if self.has_identity(id) {
            Some(self.identities[self.identity_index(id)].1)
        } else {
            None
        }
    }

    pub open spec fn has_room(self, room: Seq<char>) -> bool {
        exists|i: int| 0 <= i < self.rooms.len() && #[trigger] self.rooms[i].0 == room
    }

    pub open spec fn room_index(self, room: Seq<char>) -> int {
        choose|i: int| 0 <= i < self.rooms.len() && #[trigger] self.rooms[i].0 == room
    }

    /// The members of `room`, in order of joining; empty for a room never joined.
    pub open spec fn members(self, room: Seq<char>) -> Seq<u64> {
        if self.has_room(room) {
            self.rooms[self.room_index(room)].1
        } else {
            Seq::empty()
        }
    }

    /// `id` announces `pubkey`, replacing what it announced before.
    pub open spec fn set_pubkey(self, id: u64, pubkey: Seq<char>) -> DirectoryView {
        DirectoryView {
            identities: if self.has_identity(id) {
                self.identities.update(self.identity_index(id), (id, pubkey))
            } else {
                self.identities.push((id, pubkey))
            },
            rooms: self.rooms,
        }
    }

    /// `id` joins `room`; nothing changes if it is a member already.
    pub open spec fn join(self, id: u64, room: Seq<char>) -> DirectoryView {
        if !self.has_room(room) {
            DirectoryView { identities: self.identities, rooms: self.rooms.push((room, seq![id])) }
        } else if self.members(room).contains(id) {
            self
        } else {
            DirectoryView {
                identities: self.identities,
                rooms: self.rooms.update(self.room_index(room), (room, self.members(room).push(id))),
            }
        }
    }

    /// `id` leaves `room`.
    pub open spec fn leave(self, id: u64, room: Seq<char>) -> DirectoryView {
        if self.has_room(room) {
            DirectoryView {
                identities: self.identities,
                rooms: self.rooms.update(
                    self.room_index(room),
                    (room, self.members(room).filter(other_than(id))),
                ),
            }
        } else {
            self
        }
    }

    /// Every trace of `id` is removed: its key and its place in each room.
    pub open spec fn disconnect(self, id: u64) -> DirectoryView {
        DirectoryView {
            identities: self.identities.filter(not_keyed(id)),
            rooms: self.rooms.map_values(
                |r: (Seq<char>, Seq<u64>)| (r.0, r.1.filter(other_than(id))),
            ),
        }
    }

    /// What a newly connected `id` is sent: its id, then every announced key, then every
    /// room membership.
    pub open spec fn connect_notices(self, id: u64) -> Seq<(Delivery, WireView)> {
        seq![to_one(id, WireView::Connected { id })] + self.identities.map_values(
            |e: (u64, Seq<char>)| to_one(id, WireView::PubkeySet { id: e.0, pubkey: e.1 }),
        ) + room_replay(self.rooms, id)
    }

    /// What everyone is told when `id` goes away.
    pub open spec fn disconnect_notices(self, id: u64) -> Seq<(Delivery, WireView)> {
        seq![to_all(WireView::Disconnected { id })] + departures(self.rooms, id)
    }

    /// How a chat message from `sender` is attributed, if it is heard at all.
    pub open spec fn author(self, policy: AuthorPolicy, sender: u64) -> Option<AuthorView> {
        match policy {
            AuthorPolicy::ConnectionId => Some(AuthorView::Id(sender)),
            AuthorPolicy::Pubkey => match self.pubkey(sender) {
                Some(k) => Some(AuthorView::Pubkey(k)),
                None => None,
            },
        }
    }

    /// The state after `sender` sends `msg`.
    pub open spec fn after_message(self, sender: u64, msg: WireView) -> DirectoryView {
        match msg {
            WireView::SetPubkey { pubkey } => self.set_pubkey(sender, pubkey),
            WireView::JoinVoiceChannel { room } => self.join(sender, room),
            WireView::LeaveVoiceChannel { room } => self.leave(sender, room),
            _ => self,
        }
    }

    /// What is sent, and to whom, when `sender` sends `msg`.
    pub open spec fn message_notices(self, policy: AuthorPolicy, sender: u64, msg: WireView) -> Seq<
        (Delivery, WireView),
    > {
        match msg {
            WireView::SendMessage { channel, content } => match self.author(policy, sender) {
                Some(author) => seq![
                    to_all(WireView::ReceiveMessage { author, channel, content }),
                ],
                None => Seq::empty(),
            },
            WireView::ChangeStatus { author, afk } => seq![
                to_all(WireView::ChangeStatus { author, afk }),
            ],
            WireView::Offer { id, data } => seq![
                (Delivery::Unicast(id), WireView::Offer { id: sender, data }),
            ],
            WireView::Answer { id, data } => seq![
                (Delivery::Unicast(id), WireView::Answer { id: sender, data }),
            ],
            WireView::Candidate { id, data } => seq![
                (Delivery::Unicast(id), WireView::Candidate { id: sender, data }),
            ],
            WireView::JoinVoiceChannel { room } => if self.members(room).contains(sender) {
                Seq::empty()
            } else {
                seq![to_all(WireView::JoinedVoiceChannel { room, id: sender })]
            },
            WireView::LeaveVoiceChannel { room } => seq![
                to_all(WireView::LeftVoiceChannel { room, id: sender }),
            ],
            WireView::SetPubkey { pubkey } => seq![
                to_all(WireView::PubkeySet { id: sender, pubkey }),
            ],
            _ => Seq::empty(),
        }
    }
}

/// Filtering keeps only elements of the original, and keeps distinct keys distinct.
pub proof fn lemma_filter_keeps_keys<A, K>(s: Seq<A>, pred: spec_fn(A) -> bool, key: spec_fn(A) -> K)
    ensures
        forall|x: A| #[trigger] s.filter(pred).contains(x) ==> s.contains(x),
        (forall|i: int, j: int| 0 <= i < j < s.len() ==> key(s[i]) != key(s[j])) ==> (forall|
            i: int,
            j: int,
        |
            0 <= i < j < s.filter(pred).len() ==> key(s.filter(pred)[i]) != key(
                s.filter(pred)[j],
            )),
    decreases s.len(),
{
    reveal(Seq::filter);
    if s.len() > 0 {
        let d = s.drop_last();
        lemma_filter_keeps_keys(d, pred, key);
        let f = s.filter(pred);
        let fd = d.filter(pred);
        assert(d =~= s.subrange(0, s.len() - 1));
        if pred(s.last()) {
            assert(f == fd.push(s.last()));
        } else {
            assert(f == fd);
        }
        assert forall|x: A| f.contains(x) implies s.contains(x) by {
            let k = choose|k: int| 0 <= k < f.len() && f[k] == x;
            if k < fd.len() {
                assert(fd[k] == x);
                assert(fd.contains(x));
                assert(d.contains(x));
                let p = choose|p: int| 0 <= p < d.len() && d[p] == x;
                assert(s[p] == x);
            } else {
                assert(s[s.len() - 1] == x);
            }
        }
        if forall|i: int, j: int| 0 <= i < j < s.len() ==> key(s[i]) != key(s[j]) {
            assert forall|i: int, j: int| 0 <= i < j < d.len() implies key(d[i]) != key(d[j]) by {
                assert(d[i] == s[i] && d[j] == s[j]);
            }
            assert forall|i: int, j: int| 0 <= i < j < f.len() implies key(f[i]) != key(f[j]) by {
                if j < fd.len() {
                    assert(f[i] == fd[i] && f[j] == fd[j]);
                } else {
                    assert(f[j] == s.last());
                    assert(f[i] == fd[i]);
                    assert(fd.contains(fd[i]));
                    assert(d.contains(fd[i]));
                    let p = choose|p: int| 0 <= p < d.len() && d[p] == fd[i];
                    assert(s[p] == f[i]);
                }
            }
        }
    }
}

/// A sequence without repeats stays without repeats when filtered.
proof fn lemma_filter_no_duplicates(s: Seq<u64>, pred: spec_fn(u64) -> bool)
    requires
        s.no_duplicates(),
    ensures
        s.filter(pred).no_duplicates(),
{
    let key = |x: u64| x;
    lemma_filter_keeps_keys(s, pred, key);
    let f = s.filter(pred);
    assert forall|i: int, j: int| 0 <= i < f.len() && 0 <= j < f.len() && i != j implies f[i]
        != f[j] by {
        if i < j {
            assert(key(f[i]) != key(f[j]));
        } else {
            assert(key(f[j]) != key(f[i]));
        }
    }
}

/// The members without `id`.
fn without(members: &Vec<u64>, id: u64) -> (r: Vec<u64>)
    ensures
        r@ == members@.filter(other_than(id)),
{
    let mut out: Vec<u64> = Vec::new();
    let mut j: usize = 0;
    proof {
        assert(members@.subrange(0, 0).filter(other_than(id)) =~= Seq::empty());
    }
    while j < members.len()
        invariant
            0 <= j <= members@.len(),
            out@ == members@.subrange(0, j as int).filter(other_than(id)),
        decreases members@.len() - j,
    {
        proof {
            let next = members@.subrange(0, j + 1);
            assert(next.drop_last() =~= members@.subrange(0, j as int));
            reveal(Seq::filter);
        }
        if members[j] != id {
            out.push(members[j]);
        }
        j = j + 1;
    }
    proof {
        assert(members@.subrange(0, j as int) =~= members@);
    }
    out
}

/// The members with `id` added last.
fn with_member(members: &Vec<u64>, id: u64) -> (r: Vec<u64>)
    ensures
        r@ == members@.push(id),
{
    let mut out: Vec<u64> = Vec::new();
    let mut j: usize = 0;
    while j < members.len()
        invariant
            0 <= j <= members@.len(),
            out@ == members@.subrange(0, j as int),
        decreases members@.len() - j,
    {
        out.push(members[j]);
        proof {
            assert(out@ =~= members@.subrange(0, j + 1));
        }
        j = j + 1;
    }
    out.push(id);
    proof {
        assert(out@ =~= members@.push(id));
    }
    out
}

/// Whether `id` is among the members.
fn has_member(members: &Vec<u64>, id: u64) -> (r: bool)
    ensures
        r == members@.contains(id),
{
    let mut j: usize = 0;
    while j < members.len()
        invariant
            0 <= j <= members@.len(),
            forall|k: int| 0 <= k < j ==> members@[k] != id,
        decreases members@.len() - j,
    {
        if members[j] == id {
            assert(members@[j as int] == id);
            return true;
        }
        j = j + 1;
    }
    false
}

impl Directory {
    /// No keys and no rooms.
    pub fn new() -> (r: Self)
        ensures
            r@.wf(),
            r@.identities.len() == 0,
            r@.rooms.len() == 0,
    {
        let r = Directory { identities: Vec::new(), rooms: Vec::new() };
        proof {
            assert(r@.identities =~= Seq::empty());
            assert(r@.rooms =~= Seq::empty());
        }
        r
    }

    /// The messages that welcome connection `id`: its own id, then a replay of the state.
    pub fn on_connected(&self, id: u64) -> (r: Vec<Outbound>)
        ensures
            notices(r@) == self@.connect_notices(id),
    {
        let mut out: Vec<Outbound> = Vec::new();
        out.push(Outbound { mode: Delivery::Unicast(id), message: WireMessage::Connected { id } });
        proof {
            assert(notices(out@) =~= seq![to_one(id, WireView::Connected { id })]);
        }
        let mut i: usize = 0;
        while i < self.identities.len()
            invariant
                0 <= i <= self.identities@.len(),
                notices(out@) == seq![to_one(id, WireView::Connected { id })]
                    + self@.identities.subrange(0, i as int).map_values(
                    |e: (u64, Seq<char>)| to_one(id, WireView::PubkeySet { id: e.0, pubkey: e.1 }),
                ),
            decreases self.identities@.len() - i,
        {
            let ghost prev = out@;
            let entry = &self.identities[i];
            out.push(
                Outbound {
                    mode: Delivery::Unicast(id),
                    message: WireMessage::PubkeySet { id: entry.0, pubkey: entry.1.clone() },
                },
            );
            proof {
                assert(out@ == prev.push(out@.last()));
                assert(notices(out@) =~= notices(prev).push(out@.last()@));
                assert(self@.identities.subrange(0, i + 1) =~= self@.identities.subrange(
                    0,
                    i as int,
                ).push(self@.identities[i as int]));
            }
            i = i + 1;
        }
        proof {
            assert(self@.identities.subrange(0, i as int) =~= self@.identities);
            assert(room_replay(self@.rooms.subrange(0, 0), id) =~= Seq::empty());
        }
        let mut k: usize = 0;
        while k < self.rooms.len()
            invariant
                0 <= k <= self.rooms@.len(),
                notices(out@) == seq![to_one(id, WireView::Connected { id })]
                    + self@.identities.map_values(
                    |e: (u64, Seq<char>)| to_one(id, WireView::PubkeySet { id: e.0, pubkey: e.1 }),
                ) + room_replay(self@.rooms.subrange(0, k as int), id),
            decreases self.rooms@.len() - k,
        {
            let room = &self.rooms[k];
            let ghost base = notices(out@);
            let ghost rv = self@.rooms[k as int];
            let mut j: usize = 0;
            while j < room.1.len()
                invariant
                    0 <= j <= room.1@.len(),
                    rv == (room.0@, room.1@),
                    notices(out@) == base + room.1@.subrange(0, j as int).map_values(
                        |m: u64| to_one(id, WireView::JoinedVoiceChannel { room: rv.0, id: m }),
                    ),
                decreases room.1@.len() - j,
            {
                let ghost prev = out@;
                out.push(
                    Outbound {
                        mode: Delivery::Unicast(id),
                        message: WireMessage::JoinedVoiceChannel {
                            room: room.0.clone(),
                            id: room.1[j],
                        },
                    },
                );
                proof {
                    assert(out@ == prev.push(out@.last()));
                    assert(notices(out@) =~= notices(prev).push(out@.last()@));
                    assert(room.1@.subrange(0, j + 1) =~= room.1@.subrange(0, j as int).push(
                        room.1@[j as int],
                    ));
                }
                j = j + 1;
            }
            proof {
                assert(room.1@.subrange(0, j as int) =~= room.1@);
                let upto = self@.rooms.subrange(0, k + 1);
                assert(upto.drop_last() =~= self@.rooms.subrange(0, k as int));
                assert(upto.last() == rv);
            }
            k = k + 1;
        }
        proof {
            assert(self@.rooms.subrange(0, k as int) =~= self@.rooms);
        }
        out
    }

    /// The position of `id`'s key, if it announced one.
    fn find_identity(&self, id: u64) -> (r: Option<usize>)
        requires
            self@.wf(),
        ensures
            r is None <==> !self@.has_identity(id),
            r matches Some(i) ==> i < self@.identities.len() && i == self@.identity_index(id),
    {
        let mut i: usize = 0;
        while i < self.identities.len()
            invariant
                self@.wf(),
                0 <= i <= self@.identities.len(),
                forall|k: int| 0 <= k < i ==> (#[trigger] self@.identities[k]).0 != id,
            decreases self@.identities.len() - i,
        {
            if self.identities[i].0 == id {
                proof {
                    assert(self@.identities[i as int].0 == id);
                    let c = self@.identity_index(id);
                    if c != i {
                        if c < i {
                            assert(self@.identities[c].0 != self@.identities[i as int].0);
                        } else {
                            assert(self@.identities[i as int].0 != self@.identities[c].0);
                        }
                    }
                }
                return Some(i);
            }
            i = i + 1;
        }
        None
    }

    /// The position of `room`, if anyone ever joined it.
    fn find_room(&self, room: &String) -> (r: Option<usize>)
        requires
            self@.wf(),
        ensures
            r is None <==> !self@.has_room(room@),
            r matches Some(i) ==> i < self@.rooms.len() && i == self@.room_index(room@),
    {
        let mut i: usize = 0;
        while i < self.rooms.len()
            invariant
                self@.wf(),
                0 <= i <= self@.rooms.len(),
                forall|k: int| 0 <= k < i ==> (#[trigger] self@.rooms[k]).0 != room@,
            decreases self@.rooms.len() - i,
        {
            if self.rooms[i].0 == *room {
                proof {
                    assert(self@.rooms[i as int].0 == room@);
                    let c = self@.room_index(room@);
                    if c != i {
                        if c < i {
                            assert(self@.rooms[c].0 != self@.rooms[i as int].0);
                        } else {
                            assert(self@.rooms[i as int].0 != self@.rooms[c].0);
                        }
                    }
                }
                return Some(i);
            }
            i = i + 1;
        }
        None
    }

    /// Records that `id` announced `pubkey`.
    fn set_pubkey(&mut self, id: u64, pubkey: String)
        requires
            old(self)@.wf(),
        ensures
            final(self)@.wf(),
            final(self)@ == old(self)@.set_pubkey(id, pubkey@),
    {
        let ghost pre = self@;
        match self.find_identity(id) {
            Some(i) => {
                self.identities.set(i, (id, pubkey));
                proof {
                    assert(self@.identities =~= pre.identities.update(i as int, (id, pubkey@)));
                    assert(self@.rooms =~= pre.rooms);
                }
            },
            None => {
                self.identities.push((id, pubkey));
                proof {
                    assert(self@.identities =~= pre.identities.push((id, pubkey@)));
                    assert(self@.rooms =~= pre.rooms);
                }
            },
        }
    }

    /// Adds `id` to `room`; returns whether it was not a member yet.
    fn join(&mut self, id: u64, room: &String) -> (r: bool)
        requires
            old(self)@.wf(),
        ensures
            final(self)@.wf(),
            final(self)@ == old(self)@.join(id, room@),
            r == !old(self)@.members(room@).contains(id),
    {
        let ghost pre = self@;
        match self.find_room(room) {
            Some(i) => {
                if has_member(&self.rooms[i].1, id) {
                    false
                } else {
                    let members = with_member(&self.rooms[i].1, id);
                    let name = self.rooms[i].0.clone();
                    self.rooms.set(i, (name, members));
                    proof {
                        assert(self@.rooms =~= pre.rooms.update(
                            i as int,
                            (room@, pre.members(room@).push(id)),
                        ));
                        assert(self@.identities =~= pre.identities);
                        assert forall|k: int| 0 <= k < self@.rooms.len() implies (
                        #[trigger] self@.rooms[k]).1.no_duplicates() by {
                            if k != i {
                                assert(self@.rooms[k] == pre.rooms[k]);
                            }
                        }
                    }
                    true
                }
            },
            None => {
                let mut members: Vec<u64> = Vec::new();
                members.push(id);
                self.rooms.push((room.clone(), members));
                proof {
                    assert(members@ =~= seq![id]);
                    assert(self@.rooms =~= pre.rooms.push((room@, seq![id])));
                    assert(self@.identities =~= pre.identities);
                    assert(!pre.members(room@).contains(id));
                    assert forall|k: int| 0 <= k < self@.rooms.len() implies (
                    #[trigger] self@.rooms[k]).1.no_duplicates() by {
                        if k < pre.rooms.len() {
                            assert(self@.rooms[k] == pre.rooms[k]);
                        }
                    }
                    assert forall|a: int, b: int|
                        0 <= a < b < self@.rooms.len() implies #[trigger] self@.rooms[a].0
                        != #[trigger] self@.rooms[b].0 by {
                        if b == pre.rooms.len() {
                            assert(self@.rooms[a] == pre.rooms[a]);
                        } else {
                            assert(self@.rooms[a] == pre.rooms[a]);
                            assert(self@.rooms[b] == pre.rooms[b]);
                        }
                    }
                }
                true
            },
        }
    }

    /// Removes `id` from `room`.
    fn leave(&mut self, id: u64, room: &String)
        requires
            old(self)@.wf(),
        ensures
            final(self)@.wf(),
            final(self)@ == old(self)@.leave(id, room@),
    {
        let ghost pre = self@;
        if let Some(i) = self.find_room(room) {
            let members = without(&self.rooms[i].1, id);
            let name = self.rooms[i].0.clone();
            self.rooms.set(i, (name, members));
            proof {
                lemma_filter_no_duplicates(pre.rooms[i as int].1, other_than(id));
                assert(self@.rooms =~= pre.rooms.update(
                    i as int,
                    (room@, pre.members(room@).filter(other_than(id))),
                ));
                assert(self@.identities =~= pre.identities);
                assert forall|k: int| 0 <= k < self@.rooms.len() implies (
                #[trigger] self@.rooms[k]).1.no_duplicates() by {
                    if k != i {
                        assert(self@.rooms[k] == pre.rooms[k]);
                    }
                }
            }
        }
    }

    /// Forgets connection `id` and says so to everyone: a disconnect notice, then one
    /// departure for each room it was in.
    pub fn on_disconnected(&mut self, id: u64) -> (r: Vec<Outbound>)
        requires
            old(self)@.wf(),
        ensures
            final(self)@.wf(),
            final(self)@ == old(self)@.disconnect(id),
            notices(r@) == old(self)@.disconnect_notices(id),
    {
        let ghost pre = self@;
        let mut keys: Vec<(u64, String)> = Vec::new();
        let mut i: usize = 0;
        proof {
            assert(pre.identities.subrange(0, 0).filter(not_keyed(id)) =~= Seq::empty());
            assert(keys@.map_values(|e: (u64, String)| (e.0, e.1@)) =~= Seq::empty());
        }
        while i < self.identities.len()
            invariant
                self@ == pre,
                0 <= i <= pre.identities.len(),
                keys@.map_values(|e: (u64, String)| (e.0, e.1@)) == pre.identities.subrange(
                    0,
                    i as int,
                ).filter(not_keyed(id)),
            decreases pre.identities.len() - i,
        {
            let ghost prev = keys@;
            proof {
                let next = pre.identities.subrange(0, i + 1);
                assert(next.drop_last() =~= pre.identities.subrange(0, i as int));
                reveal(Seq::filter);
            }
            let entry = &self.identities[i];
            if entry.0 != id {
                keys.push((entry.0, entry.1.clone()));
                proof {
                    assert(keys@.map_values(|e: (u64, String)| (e.0, e.1@)) =~= prev.map_values(
                        |e: (u64, String)| (e.0, e.1@),
                    ).push(pre.identities[i as int]));
                }
            }
            i = i + 1;
        }
        proof {
            assert(pre.identities.subrange(0, i as int) =~= pre.identities);
        }
        let mut out: Vec<Outbound> = Vec::new();
        out.push(Outbound { mode: Delivery::Broadcast, message: WireMessage::Disconnected { id } });
        let mut rooms: Vec<(String, Vec<u64>)> = Vec::new();
        let ghost f = |r: (Seq<char>, Seq<u64>)| (r.0, r.1.filter(other_than(id)));
        let ghost rv = |r: (String, Vec<u64>)| (r.0@, r.1@);
        proof {
            assert(notices(out@) =~= seq![to_all(WireView::Disconnected { id })] + departures(
                pre.rooms.subrange(0, 0),
                id,
            ));
            assert(rooms@.map_values(rv) =~= pre.rooms.subrange(0, 0).map_values(f));
        }
        let mut k: usize = 0;
        while k < self.rooms.len()
            invariant
                self@ == pre,
                0 <= k <= pre.rooms.len(),
                rv == (|r: (String, Vec<u64>)| (r.0@, r.1@)),
                f == (|r: (Seq<char>, Seq<u64>)| (r.0, r.1.filter(other_than(id)))),
                rooms@.map_values(rv) == pre.rooms.subrange(0, k as int).map_values(f),
                notices(out@) == seq![to_all(WireView::Disconnected { id })] + departures(
                    pre.rooms.subrange(0, k as int),
                    id,
                ),
            decreases pre.rooms.len() - k,
        {
            let room = &self.rooms[k];
            let ghost prev_out = out@;
            let ghost prev_rooms = rooms@;
            proof {
                let next = pre.rooms.subrange(0, k + 1);
                assert(next.drop_last() =~= pre.rooms.subrange(0, k as int));
                assert(next.last() == pre.rooms[k as int]);
                assert(pre.rooms[k as int] == (room.0@, room.1@));
            }
            if has_member(&room.1, id) {
                out.push(
                    Outbound {
                        mode: Delivery::Broadcast,
                        message: WireMessage::LeftVoiceChannel { room: room.0.clone(), id },
                    },
                );
                proof {
                    assert(out@ == prev_out.push(out@.last()));
                    assert(notices(out@) =~= notices(prev_out).push(out@.last()@));
                }
            }
            rooms.push((room.0.clone(), without(&room.1, id)));
            proof {
                assert(rooms@ == prev_rooms.push(rooms@.last()));
                assert(rooms@.map_values(rv) =~= prev_rooms.map_values(rv).push(
                    rv(rooms@.last()),
                ));
                assert(pre.rooms.subrange(0, k + 1).map_values(f) =~= pre.rooms.subrange(
                    0,
                    k as int,
                ).map_values(f).push(f(pre.rooms[k as int])));
            }
            k = k + 1;
        }
        proof {
            assert(pre.rooms.subrange(0, k as int) =~= pre.rooms);
        }
        self.identities = keys;
        self.rooms = rooms;
        proof {
            let post = pre.disconnect(id);
            assert(self@.identities =~= post.identities);
            assert(self@.rooms =~= post.rooms);
            lemma_filter_keeps_keys(pre.identities, not_keyed(id), |e: (u64, Seq<char>)| e.0);
            assert forall|a: int, b: int|
                0 <= a < b < post.identities.len() implies #[trigger] post.identities[a].0
                != #[trigger] post.identities[b].0 by {
                let key = |e: (u64, Seq<char>)| e.0;
                assert(key(post.identities[a]) != key(post.identities[b]));
            }
            assert forall|a: int| 0 <= a < post.rooms.len() implies (
            #[trigger] post.rooms[a]).1.no_duplicates() by {
                lemma_filter_no_duplicates(pre.rooms[a].1, other_than(id));
            }
        }
        out
    }

    /// The public key announced by `id`, if any.
    pub fn pubkey(&self, id: u64) -> (r: Option<String>)
        requires
            self@.wf(),
        ensures
            r is Some <==> self@.pubkey(id) is Some,
            r matches Some(k) ==> self@.pubkey(id) == Some(k@),
    {
        match self.find_identity(id) {
            Some(i) => Some(self.identities[i].1.clone()),
            None => None,
        }
    }

    /// Whether `id` is a member of `room`.
    pub fn is_member(&self, id: u64, room: &String) -> (r: bool)
        requires
            self@.wf(),
        ensures
            r == self@.members(room@).contains(id),
    {
        match self.find_room(room) {
            Some(i) => has_member(&self.rooms[i].1, id),
            None => false,
        }
    }

    /// Applies what `sender` sent to the state and returns what is to be sent, and to
    /// whom, in answer.
    pub fn on_message(&mut self, policy: AuthorPolicy, sender: u64, msg: WireMessage) -> (r: Vec<
        Outbound,
    >)
        requires
            old(self)@.wf(),
        ensures
            final(self)@.wf(),
            final(self)@ == old(self)@.after_message(sender, msg@),
            notices(r@) == old(self)@.message_notices(policy, sender, msg@),
    {
        let ghost pre = self@;
        let mut out: Vec<Outbound> = Vec::new();
        match msg {
            WireMessage::SendMessage { channel, content } => {
                let author = match policy {
                    AuthorPolicy::ConnectionId => Some(Author::Id(sender)),
                    AuthorPolicy::Pubkey => match self.pubkey(sender) {
                        Some(k) => Some(Author::Pubkey(k)),
                        None => None,
                    },
                };
                if let Some(author) = author {
                    out.push(
                        Outbound {
                            mode: Delivery::Broadcast,
                            message: WireMessage::ReceiveMessage { author, channel, content },
                        },
                    );
                }
            },
            WireMessage::ChangeStatus { author, afk } => {
                out.push(
                    Outbound {
                        mode: Delivery::Broadcast,
                        message: WireMessage::ChangeStatus { author, afk },
                    },
                );
            },
            WireMessage::Offer { id, data } => {
                out.push(
                    Outbound {
                        mode: Delivery::Unicast(id),
                        message: WireMessage::Offer { id: sender, data },
                    },
                );
            },
            WireMessage::Answer { id, data } => {
                out.push(
                    Outbound {
                        mode: Delivery::Unicast(id),
                        message: WireMessage::Answer { id: sender, data },
                    },
                );
            },
            WireMessage::Candidate { id, data } => {
                out.push(
                    Outbound {
                        mode: Delivery::Unicast(id),
                        message: WireMessage::Candidate { id: sender, data },
                    },
                );
            },
            WireMessage::JoinVoiceChannel { room } => {
                if self.join(sender, &room) {
                    out.push(
                        Outbound {
                            mode: Delivery::Broadcast,
                            message: WireMessage::JoinedVoiceChannel { room, id: sender },
                        },
                    );
                }
            },
            WireMessage::LeaveVoiceChannel { room } => {
                self.leave(sender, &room);
                out.push(
                    Outbound {
                        mode: Delivery::Broadcast,
                        message: WireMessage::LeftVoiceChannel { room, id: sender },
                    },
                );
            },
            WireMessage::SetPubkey { pubkey } => {
                let copy = pubkey.clone();
                self.set_pubkey(sender, pubkey);
                out.push(
                    Outbound {
                        mode: Delivery::Broadcast,
                        message: WireMessage::PubkeySet { id: sender, pubkey: copy },
                    },
                );
            },
            _ => {},
        }
        proof {
            assert(notices(out@) =~= pre.message_notices(policy, sender, msg@));
        }
        out
    }
}

/// Joining keeps the state well formed, and afterwards the room exists and holds `id`.
proof fn lemma_join_wf(d: DirectoryView, id: u64, room: Seq<char>)
    requires
        d.wf(),
    ensures
        d.join(id, room).wf(),
        d.join(id, room).has_room(room),
        d.join(id, room).members(room).contains(id),
{
    let d1 = d.join(id, room);
    if !d.has_room(room) {
        let n = d.rooms.len() as int;
        assert(d1.rooms[n] == (room, seq![id]));
        assert(d1.rooms[n].0 == room);
        assert(d1.has_room(room));
        assert forall|a: int, b: int| 0 <= a < b < d1.rooms.len() implies #[trigger] d1.rooms[a].0
            != #[trigger] d1.rooms[b].0 by {
            assert(d1.rooms[a] == d.rooms[a]);
            if b < n {
                assert(d1.rooms[b] == d.rooms[b]);
            }
        }
        assert forall|a: int| 0 <= a < d1.rooms.len() implies (
        #[trigger] d1.rooms[a]).1.no_duplicates() by {
            if a < n {
                assert(d1.rooms[a] == d.rooms[a]);
            } else {
                assert(d1.rooms[a].1 =~= seq![id]);
            }
        }
        let c = d1.room_index(room);
        if c != n {
            assert(d1.rooms[c].0 != d1.rooms[n].0);
        }
        assert(d1.members(room)[0] == id);
    } else if d.members(room).contains(id) {
    } else {
        let i = d.room_index(room);
        let m = d.members(room).push(id);
        assert(d1.rooms[i] == (room, m));
        assert(d1.rooms[i].0 == room);
        assert(d1.has_room(room));
        assert forall|a: int, b: int| 0 <= a < b < d1.rooms.len() implies #[trigger] d1.rooms[a].0
            != #[trigger] d1.rooms[b].0 by {
            assert(d.rooms[a].0 != d.rooms[b].0);
        }
        assert forall|a: int| 0 <= a < d1.rooms.len() implies (
        #[trigger] d1.rooms[a]).1.no_duplicates() by {
            if a == i {
                assert(d.rooms[i].1.no_duplicates());
                assert forall|x: int, y: int| 0 <= x < m.len() && 0 <= y < m.len() && x != y implies m[x]
                    != m[y] by {
                    if x == m.len() - 1 {
                        assert(d.members(room)[y] == m[y]);
                    } else if y == m.len() - 1 {
                        assert(d.members(room)[x] == m[x]);
                    }
                }
            } else {
                assert(d1.rooms[a] == d.rooms[a]);
            }
        }
        let c = d1.room_index(room);
        if c != i {
            if c < i {
                assert(d1.rooms[c].0 != d1.rooms[i].0);
            } else {
                assert(d1.rooms[i].0 != d1.rooms[c].0);
            }
        }
        assert(m[m.len() - 1] == id);
    }
}

/// Joining a room twice is joining it once: the second join changes nothing and
/// announces nothing, the first announces at most once, and the member is listed once.
pub proof fn lemma_join_idempotent(d: DirectoryView, policy: AuthorPolicy, id: u64, room: Seq<char>)
    requires
        d.wf(),
    ensures
        ({
            let msg = WireView::JoinVoiceChannel { room };
            let once = d.after_message(id, msg);
            &&& once.after_message(id, msg) == once
            &&& d.message_notices(policy, id, msg).len() <= 1
            &&& once.message_notices(policy, id, msg).len() == 0
            &&& once.members(room).to_multiset().count(id) == 1
        }),
{
    lemma_join_wf(d, id, room);
    let once = d.join(id, room);
    let ms = once.members(room);
    assert(once.rooms[once.room_index(room)].1.no_duplicates());
    ms.lemma_multiset_has_no_duplicates();
    vstd::seq_lib::to_multiset_contains(ms, id);
}

/// After a disconnect `id` has no key and is in no room.
pub proof fn lemma_disconnect_forgets(d: DirectoryView, id: u64)
    ensures
        d.disconnect(id).pubkey(id) is None,
        forall|room: Seq<char>| !(#[trigger] d.disconnect(id).members(room)).contains(id),
{
    let d1 = d.disconnect(id);
    d.identities.filter_lemma(not_keyed(id));
    if d1.has_identity(id) {
        let i = d1.identity_index(id);
        assert(not_keyed(id)(d1.identities[i]));
    }
    assert forall|room: Seq<char>| !(#[trigger] d1.members(room)).contains(id) by {
        if d1.has_room(room) {
            let i = d1.room_index(room);
            let ms = d.rooms[i].1;
            ms.filter_lemma(other_than(id));
            if d1.members(room).contains(id) {
                let k = choose|k: int| 0 <= k < d1.members(room).len() && d1.members(room)[k] == id;
                assert(other_than(id)(ms.filter(other_than(id))[k]));
            }
        }
    }
}

} // verus!
