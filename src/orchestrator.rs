//! The hub: one step of the single owner of the registry and the presence state. Each
//! step takes one message from a session and says what goes to which mailboxes.
use vstd::prelude::*;
use crate::directory::{
    AuthorPolicy, Directory, DirectoryView, Outbound, lemma_disconnect_forgets, lemma_filter_keeps_keys,
    not_keyed, notices, other_than,
};
use crate::message::{WireMessage, WireView};
use crate::registry::{Delivery, Registry, reaches};

verus! {

/// What a session asks of the hub.
pub enum RelayMessage<M> {
    /// A new session, reached through this mailbox, wants an id.
    Register(M),
    /// The session with this id has ended.
    Unregister { id: u64 },
    /// The session `sender` received `payload` from its client.
    Submit { sender: u64, payload: WireMessage },
}

/// What the hub puts in a session's mailbox.
#[derive(Debug, Clone, PartialEq, Eq)]
pub enum Envelope {
    /// The id that the session was given; always its first envelope.
    Registered { id: u64 },
    /// A message from `sender` to write to the client.
    Deliver { sender: u64, mode: Delivery, payload: WireMessage },
}

pub enum EnvelopeView {
    Registered { id: u64 },
    Deliver { sender: u64, mode: Delivery, payload: WireView },
}

impl View for Envelope {
    type V = EnvelopeView;

    open spec fn view(&self) -> EnvelopeView {
        match self {
            Envelope::Registered { id } => EnvelopeView::Registered { id: *id },
            Envelope::Deliver { sender, mode, payload } => EnvelopeView::Deliver {
                sender: *sender,
                mode: *mode,
                payload: payload@,
            },
        }
    }
}

/// One envelope and the mailboxes it goes to.
#[derive(Debug, Clone, PartialEq, Eq)]
pub struct Post {
    pub targets: Vec<u64>,
    pub message: Envelope,
}

/// The recipients and content of each post.
pub open spec fn posts_view(posts: Seq<Post>) -> Seq<(Set<u64>, EnvelopeView)> {
    posts.map_values(|p: Post| (p.targets@.to_set(), p.message@))
}

/// No post names a mailbox twice.
pub open spec fn each_once(posts: Seq<Post>) -> bool {
    forall|i: int| 0 <= i < posts.len() ==> (#[trigger] posts[i]).targets@.no_duplicates()
}

/// The connections among `live` that a delivery from `sender` in `mode` reaches.
pub open spec fn audience(live: Set<u64>, sender: u64, mode: Delivery) -> Set<u64> {
    Set::new(|id: u64| reaches(live, sender, mode, id))
}

/// The posts that carry `notes` from `sender` to the connections `live`.
pub open spec fn dispatch(live: Set<u64>, sender: u64, notes: Seq<(Delivery, WireView)>) -> Seq<
    (Set<u64>, EnvelopeView),
> {
    notes.map_values(
        |n: (Delivery, WireView)|
            (
                audience(live, sender, n.0),
                EnvelopeView::Deliver { sender, mode: n.0, payload: n.1 },
            ),
    )
}

/// The hub's state before and after a step, and the posts it made, agree with the
/// handling of `msg`.
pub open spec fn handled<M>(
    reg: Registry<M>,
    dir: DirectoryView,
    policy: AuthorPolicy,
    msg: RelayMessage<M>,
    reg2: Registry<M>,
    dir2: DirectoryView,
    posts: Seq<(Set<u64>, EnvelopeView)>,
) -> bool {
    match msg {
        RelayMessage::Register(mailbox) => if reg.next_id() < u64::MAX {
            let id = reg.next_id() as u64;
            &&& Registry::registered(reg, reg2, id, mailbox)
            &&& dir2 == dir
            &&& posts == seq![(set![id], EnvelopeView::Registered { id })] + dispatch(
                reg2.live(),
                id,
                dir.connect_notices(id),
            )
        } else {
            &&& reg2 == reg
            &&& dir2 == dir
            &&& posts.len() == 0
        },
        RelayMessage::Unregister { id } => {
            &&& reg2.next_id() == reg.next_id()
            &&& reg2.sessions() == reg.sessions().remove(id)
            &&& if reg.live().contains(id) {
                &&& dir2 == dir.disconnect(id)
                &&& posts == dispatch(reg2.live(), id, dir.disconnect_notices(id))
            } else {
                &&& dir2 == dir
                &&& posts.len() == 0
            }
        },
        RelayMessage::Submit { sender, payload } => {
            &&& reg2 == reg
            &&& if reg.live().contains(sender) {
                &&& dir2 == dir.after_message(sender, payload@)
                &&& posts == dispatch(reg.live(), sender, dir.message_notices(policy, sender, payload@))
            } else {
                &&& dir2 == dir
                &&& posts.len() == 0
            }
        },
    }
}

/// Appends one post per outbound message, each addressed to the connections its mode
/// reaches.
fn post_all<M>(registry: &Registry<M>, sender: u64, outs: Vec<Outbound>, posts: &mut Vec<Post>)
    requires
        registry.wf(),
        each_once(old(posts)@),
    ensures
        each_once(final(posts)@),
        posts_view(final(posts)@) == posts_view(old(posts)@) + dispatch(
            registry.live(),
            sender,
            notices(outs@),
        ),
{
    let ghost start = posts@;
    let ghost all = notices(outs@);
    let ghost total = outs@.len();
    let mut outs = outs;
    while outs.len() > 0
        invariant
            registry.wf(),
            each_once(posts@),
            0 <= outs@.len() <= total,
            total == all.len(),
            notices(outs@) == all.subrange(total - outs@.len(), total as int),
            posts_view(posts@) == posts_view(start) + dispatch(
                registry.live(),
                sender,
                all.subrange(0, total - outs@.len()),
            ),
        decreases outs@.len(),
    {
        let ghost before = outs@;
        let ghost posts_before = posts@;
        let o = outs.remove(0);
        let targets = registry.route(sender, o.mode);
        let post = Post {
            targets,
            message: Envelope::Deliver { sender, mode: o.mode, payload: o.message },
        };
        posts.push(post);
        proof {
            let done = total - before.len();
            assert(outs@ == before.remove(0));
            assert(all[done] == o@) by {
                assert(notices(before)[0] == all.subrange(done, total as int)[0]);
            }
            assert forall|k: int| 0 <= k < outs@.len() implies #[trigger] notices(outs@)[k]
                == all.subrange(done + 1, total as int)[k] by {
                assert(outs@[k] == before[k + 1]);
                assert(notices(before)[k + 1] == all.subrange(done, total as int)[k + 1]);
            }
            assert(notices(outs@) =~= all.subrange(done + 1, total as int));
            assert(targets@.to_set() =~= audience(registry.live(), sender, o.mode));
            assert(posts@ == posts_before.push(post));
            assert(posts_view(posts@) =~= posts_view(posts_before).push(
                (targets@.to_set(), post.message@),
            ));
            assert(all.subrange(0, done + 1) =~= all.subrange(0, done).push(all[done]));
            assert(dispatch(registry.live(), sender, all.subrange(0, done + 1)) =~= dispatch(
                registry.live(),
                sender,
                all.subrange(0, done),
            ).push(dispatch(registry.live(), sender, all.subrange(0, done + 1))[done]));
            assert forall|i: int| 0 <= i < posts@.len() implies (
            #[trigger] posts@[i]).targets@.no_duplicates() by {
                if i < posts_before.len() {
                    assert(posts@[i] == posts_before[i]);
                }
            }
        }
    }
    proof {
        assert(all.subrange(0, total as int) =~= all);
    }
}

/// Handles one message from a session: updates the registry and the presence state and
/// returns the envelopes to put in mailboxes, in order.
pub fn handler<M>(
    registry: &mut Registry<M>,
    directory: &mut Directory,
    policy: AuthorPolicy,
    msg: RelayMessage<M>,
) -> (r: Vec<Post>)
    requires
        old(registry).wf(),
        old(directory)@.wf(),
    ensures
        final(registry).wf(),
        final(directory)@.wf(),
        each_once(r@),
        handled(
            *old(registry),
            old(directory)@,
            policy,
            msg,
            *final(registry),
            final(directory)@,
            posts_view(r@),
        ),
{
    let mut posts: Vec<Post> = Vec::new();
    proof {
        assert(posts_view(posts@) =~= Seq::empty());
    }
    match msg {
        RelayMessage::Register(mailbox) => {
            if let Some(id) = registry.register(mailbox) {
                let mut targets: Vec<u64> = Vec::new();
                targets.push(id);
                posts.push(Post { targets, message: Envelope::Registered { id } });
                proof {
                    assert(targets@ =~= seq![id]);
                    assert(targets@[0] == id);
                    assert(targets@.to_set() =~= set![id]);
                    assert(posts_view(posts@) =~= seq![
                        (set![id], EnvelopeView::Registered { id }),
                    ]);
                }
                let outs = directory.on_connected(id);
                post_all(registry, id, outs, &mut posts);
            }
        },
        RelayMessage::Unregister { id } => {
            if registry.unregister(id) {
                let outs = directory.on_disconnected(id);
                post_all(registry, id, outs, &mut posts);
            }
        },
        RelayMessage::Submit { sender, payload } => {
            if registry.is_registered(sender) {
                let outs = directory.on_message(policy, sender, payload);
                post_all(registry, sender, outs, &mut posts);
            }
        },
    }
    posts
}

/// After the hub handles `Unregister(id)`, the id is gone from the registry, has no key
/// and is in no room, and a later unicast to it reaches nobody. This holds whether `id`
/// was live or not, in every state where the presence state mentions live ids only.
pub proof fn lemma_unregister_cleans<M>(
    reg: Registry<M>,
    dir: DirectoryView,
    policy: AuthorPolicy,
    id: u64,
    reg2: Registry<M>,
    dir2: DirectoryView,
    posts: Seq<(Set<u64>, EnvelopeView)>,
)
    requires
        tracks(dir, reg.live()),
        handled(reg, dir, policy, RelayMessage::Unregister { id }, reg2, dir2, posts),
    ensures
        !reg2.live().contains(id),
        dir2.pubkey(id) is None,
        forall|room: Seq<char>| !(#[trigger] dir2.members(room)).contains(id),
        forall|sender: u64| #[trigger] audience(reg2.live(), sender, Delivery::Unicast(id)) == Set::<
            u64,
        >::empty(),
{
    if reg.live().contains(id) {
        lemma_disconnect_forgets(dir, id);
    } else {
        if dir.has_identity(id) {
            let i = dir.identity_index(id);
            assert(reg.live().contains(dir.identities[i].0));
        }
        assert forall|room: Seq<char>| !(#[trigger] dir2.members(room)).contains(id) by {
            if dir.has_room(room) && dir.members(room).contains(id) {
                let i = dir.room_index(room);
                let k = choose|k: int| 0 <= k < dir.rooms[i].1.len() && dir.rooms[i].1[k] == id;
                assert(reg.live().contains(dir.rooms[i].1[k]));
            }
        }
    }
    assert forall|sender: u64| #[trigger] audience(reg2.live(), sender, Delivery::Unicast(id))
        == Set::<u64>::empty() by {
        assert(audience(reg2.live(), sender, Delivery::Unicast(id)) =~= Set::<u64>::empty());
    }
}

/// Every id that the presence state mentions, as a key holder or as a room member, is
/// among `live`.
pub open spec fn tracks(dir: DirectoryView, live: Set<u64>) -> bool {
    &&& forall|i: int| 0 <= i < dir.identities.len() ==> live.contains(#[trigger] dir.identities[i].0)
    &&& forall|i: int, k: int|
        0 <= i < dir.rooms.len() && 0 <= k < dir.rooms[i].1.len() ==> live.contains(
            #[trigger] dir.rooms[i].1[k],
        )
}

proof fn lemma_tracks_grow(dir: DirectoryView, live: Set<u64>, more: Set<u64>)
    requires
        tracks(dir, live),
        live.subset_of(more),
    ensures
        tracks(dir, more),
{
    assert forall|i: int, k: int|
        0 <= i < dir.rooms.len() && 0 <= k < dir.rooms[i].1.len() implies more.contains(
        #[trigger] dir.rooms[i].1[k],
    ) by {
        assert(live.contains(dir.rooms[i].1[k]));
    }
}

proof fn lemma_tracks_message(dir: DirectoryView, live: Set<u64>, sender: u64, msg: WireView)
    requires
        tracks(dir, live),
        live.contains(sender),
    ensures
        tracks(dir.after_message(sender, msg), live),
{
    let d1 = dir.after_message(sender, msg);
    match msg {
        WireView::SetPubkey { pubkey } => {
            assert forall|i: int| 0 <= i < d1.identities.len() implies live.contains(
                #[trigger] d1.identities[i].0,
            ) by {
                if i < dir.identities.len() && d1.identities[i] != dir.identities[i] {
                    assert(d1.identities[i].0 == sender);
                }
            }
            assert forall|i: int, k: int|
                0 <= i < d1.rooms.len() && 0 <= k < d1.rooms[i].1.len() implies live.contains(
                #[trigger] d1.rooms[i].1[k],
            ) by {
                assert(d1.rooms[i] == dir.rooms[i]);
            }
        },
        WireView::JoinVoiceChannel { room } => {
            assert forall|i: int, k: int|
                0 <= i < d1.rooms.len() && 0 <= k < d1.rooms[i].1.len() implies live.contains(
                #[trigger] d1.rooms[i].1[k],
            ) by {
                if i < dir.rooms.len() && d1.rooms[i] != dir.rooms[i] {
                    if k < dir.rooms[i].1.len() {
                        assert(d1.rooms[i].1[k] == dir.rooms[i].1[k]);
                    }
                } else if i == dir.rooms.len() {
                    assert(d1.rooms[i].1 == seq![sender]);
                } else {
                    assert(d1.rooms[i] == dir.rooms[i]);
                }
            }
            assert forall|i: int| 0 <= i < d1.identities.len() implies live.contains(
                #[trigger] d1.identities[i].0,
            ) by {
                assert(d1.identities[i] == dir.identities[i]);
            }
        },
        WireView::LeaveVoiceChannel { room } => {
            assert forall|i: int, k: int|
                0 <= i < d1.rooms.len() && 0 <= k < d1.rooms[i].1.len() implies live.contains(
                #[trigger] d1.rooms[i].1[k],
            ) by {
                if dir.has_room(room) && i == dir.room_index(room) {
                    let ms = dir.rooms[i].1;
                    lemma_filter_keeps_keys(ms, other_than(sender), |m: u64| m);
                    assert(ms.filter(other_than(sender)).contains(d1.rooms[i].1[k]));
                    let j = choose|j: int| 0 <= j < ms.len() && ms[j] == d1.rooms[i].1[k];
                    assert(live.contains(ms[j]));
                } else {
                    assert(d1.rooms[i] == dir.rooms[i]);
                }
            }
            assert forall|i: int| 0 <= i < d1.identities.len() implies live.contains(
                #[trigger] d1.identities[i].0,
            ) by {
                assert(d1.identities[i] == dir.identities[i]);
            }
        },
        _ => {},
    }
}

proof fn lemma_tracks_disconnect(dir: DirectoryView, live: Set<u64>, id: u64)
    requires
        tracks(dir, live),
    ensures
        tracks(dir.disconnect(id), live.remove(id)),
{
    let d1 = dir.disconnect(id);
    lemma_filter_keeps_keys(dir.identities, not_keyed(id), |e: (u64, Seq<char>)| e.0);
    dir.identities.filter_lemma(not_keyed(id));
    assert forall|i: int| 0 <= i < d1.identities.len() implies live.remove(id).contains(
        #[trigger] d1.identities[i].0,
    ) by {
        let e = d1.identities[i];
        assert(not_keyed(id)(e));
        assert(dir.identities.filter(not_keyed(id)).contains(e));
        let j = choose|j: int| 0 <= j < dir.identities.len() && dir.identities[j] == e;
        assert(live.contains(dir.identities[j].0));
    }
    assert forall|i: int, k: int|
        0 <= i < d1.rooms.len() && 0 <= k < d1.rooms[i].1.len() implies live.remove(id).contains(
        #[trigger] d1.rooms[i].1[k],
    ) by {
        let ms = dir.rooms[i].1;
        let x = d1.rooms[i].1[k];
        lemma_filter_keeps_keys(ms, other_than(id), |m: u64| m);
        ms.filter_lemma(other_than(id));
        assert(other_than(id)(ms.filter(other_than(id))[k]));
        assert(ms.filter(other_than(id)).contains(x));
        let j = choose|j: int| 0 <= j < ms.len() && ms[j] == x;
        assert(live.contains(ms[j]));
    }
}

/// The presence state only ever mentions live connections: if it holds before a hub
/// step it holds after it, so entries of a connection are gone once its `Unregister` has
/// been handled.
pub proof fn lemma_handler_tracks_live<M>(
    reg: Registry<M>,
    dir: DirectoryView,
    policy: AuthorPolicy,
    msg: RelayMessage<M>,
    reg2: Registry<M>,
    dir2: DirectoryView,
    posts: Seq<(Set<u64>, EnvelopeView)>,
)
    requires
        tracks(dir, reg.live()),
        handled(reg, dir, policy, msg, reg2, dir2, posts),
    ensures
        tracks(dir2, reg2.live()),
{
    match msg {
        RelayMessage::Register(mailbox) => {
            if reg.next_id() < u64::MAX {
                assert(reg.live().subset_of(reg2.live()));
                lemma_tracks_grow(dir, reg.live(), reg2.live());
            }
        },
        RelayMessage::Unregister { id } => {
            assert(reg2.live() =~= reg.live().remove(id));
            if reg.live().contains(id) {
                lemma_tracks_disconnect(dir, reg.live(), id);
            } else {
                assert(reg2.live() =~= reg.live());
            }
        },
        RelayMessage::Submit { sender, payload } => {
            if reg.live().contains(sender) {
                lemma_tracks_message(dir, reg.live(), sender, payload@);
            }
        },
    }
}

} // verus!
