//! The hub: the roster of connected players, and what goes from each of
//! them to the others in a tick.

use crate::chat::{chat_line, message_packets};
use crate::client::{emit_all, replies_of, settings_of, tick_of, Client, ClientView, Settings, PROTOCOL_VERSION, SELF_ID};
use crate::config::Config;
use crate::framing::{all_decodable, frames, read_packets};
use crate::packets::{views, ClientBound, ClientBoundView};
use crate::text::{padded, string_views};
use crate::world::{ClassicWorld, WorldView};
use vstd::prelude::*;
use vstd::string::StringSliceAdditionalSpecFns;

verus! {

/// The number of characters of a salt.
pub const SALT_LENGTH: usize = 16;

/// The seconds between two heartbeats.
pub const HEARTBEAT_INTERVAL: u64 = 40;

/// The milliseconds that a tick may take before it is called slow.
pub const SLOW_TICK: u128 = 250;

/// The hash of the client that fits the server, as the MineOnline list
/// knows it.
pub const CLIENT_HASH: &'static str = "1FD3397652112BB9E01E49DFE3E47893";

/// Whether a byte is an ASCII letter or digit.
pub open spec fn is_alphanumeric(b: u8) -> bool {
    (0x30 <= b <= 0x39) || (0x41 <= b <= 0x5A) || (0x61 <= b <= 0x7A)
}

/// `rand::Rng::sample` on the thread's generator with the distribution
/// `rand::distributions::Alphanumeric` draws a byte among the ASCII letters
/// and digits. It panics only if the operating system gives the generator no
/// seed.
#[verifier::external_body]
fn random_alphanumeric() -> (b: u8)
    ensures
        is_alphanumeric(b),
{
    rand::Rng::sample(&mut rand::thread_rng(), rand::distributions::Alphanumeric)
}

/// Whether a text can be a salt: sixteen ASCII letters and digits.
pub open spec fn is_salt(text: Seq<char>) -> bool {
    &&& text.len() == SALT_LENGTH
    &&& forall|i: int| 0 <= i < text.len() ==> text[i] < 128 && is_alphanumeric(#[trigger] text[i] as u8)
}

/// Draws a salt.
pub fn generate_salt() -> (salt: String)
    ensures
        is_salt(salt@),
{
    let mut salt = String::new();
    let mut i: usize = 0;
    while i < SALT_LENGTH
        invariant
            i <= SALT_LENGTH,
            salt@.len() == i,
            forall|k: int| 0 <= k < i ==> salt@[k] < 128 && is_alphanumeric(#[trigger] salt@[k] as u8),
        decreases SALT_LENGTH - i,
    {
        let b = random_alphanumeric();
        salt.push(b as char);
        i += 1;
    }
    salt
}

/// What was read from the socket of a session in a tick.
pub enum Inbound {
    /// The bytes of the receive buffer.
    Data(Vec<u8>),
    /// The connection is lost.
    Lost,
}

/// What was read from the socket of a session, as a sequence of bytes.
pub enum InboundView {
    Data(Seq<u8>),
    Lost,
}

impl View for Inbound {
    type V = InboundView;

    open spec fn view(&self) -> InboundView {
        match *self {
            Inbound::Data(bytes) => InboundView::Data(bytes@),
            Inbound::Lost => InboundView::Lost,
        }
    }
}

/// What is written to the socket of a session in a tick.
pub struct Outbound {
    /// The id of the session.
    pub id: u8,
    /// The packets, in the order in which they are written.
    pub packets: Vec<ClientBound>,
    /// Whether the session has ended: the socket is to be closed.
    pub close: bool,
}

/// What is written to the socket of a session, with the packets as they
/// are in contracts.
pub struct OutboundView {
    pub id: u8,
    pub packets: Seq<ClientBoundView>,
    pub close: bool,
}

impl View for Outbound {
    type V = OutboundView;

    open spec fn view(&self) -> OutboundView {
        OutboundView { id: self.id, packets: views(self.packets@), close: self.close }
    }
}

/// The sessions of a list, each as what it is.
pub open spec fn client_views(clients: Seq<Client>) -> Seq<ClientView> {
    Seq::new(clients.len(), |i: int| clients[i]@)
}

/// What was read for each session, as sequences of bytes.
pub open spec fn inbound_views(inbound: Seq<Inbound>) -> Seq<InboundView> {
    Seq::new(inbound.len(), |i: int| inbound[i]@)
}

/// What is written for each session, with the packets as they are in
/// contracts.
pub open spec fn outbound_views(outbound: Seq<Outbound>) -> Seq<OutboundView> {
    Seq::new(outbound.len(), |i: int| outbound[i]@)
}

/// Whether no two sessions of a roster have the same id.
pub open spec fn ids_distinct(clients: Seq<ClientView>) -> bool {
    forall|i: int, j: int| 0 <= i < j < clients.len() ==> clients[i].id != clients[j].id
}

/// Whether an id can be given to a new session: it stands for no session of
/// the roster, and is not the id that stands for the player itself.
pub open spec fn id_is_free(clients: Seq<ClientView>, id: u8) -> bool {
    id != SELF_ID && forall|i: int| 0 <= i < clients.len() ==> (#[trigger] clients[i]).id != id
}

/// The id that is tried after `id`.
pub open spec fn next_after(id: u8) -> u8 {
    if id == 255 {
        0
    } else {
        (id + 1) as u8
    }
}

/// The first free id among `start` and the `tries - 1` ids tried after it.
pub open spec fn pick_id(clients: Seq<ClientView>, start: u8, tries: nat) -> Option<u8>
    decreases tries,
{
    if tries == 0 {
        None
    } else if id_is_free(clients, start) {
        Some(start)
    } else {
        pick_id(clients, next_after(start), (tries - 1) as nat)
    }
}

/// A session as it is right after the connection was accepted.
pub open spec fn fresh_client(id: u8, ip: Seq<char>) -> ClientView {
    ClientView {
        username: Seq::empty(),
        ip,
        id,
        user_type: crate::client::STANDARD_USER,
        logged_in: false,
        x: 0,
        y: 0,
        z: 0,
        yaw: 0,
        pitch: 0,
        flying: false,
    }
}

/// The names of the players of a roster, in its order.
pub open spec fn names_of(clients: Seq<ClientView>) -> Seq<Seq<char>>
    decreases clients.len(),
{
    if clients.len() == 0 {
        Seq::empty()
    } else if clients.last().username.len() > 0 {
        names_of(clients.drop_last()).push(clients.last().username)
    } else {
        names_of(clients.drop_last())
    }
}

/// What a session that has just identified is shown of a roster: every
/// player of it who has identified, but for the session itself.
pub open spec fn roster_for(clients: Seq<ClientView>, id: u8) -> Seq<ClientBoundView>
    decreases clients.len(),
{
    if clients.len() == 0 {
        Seq::empty()
    } else if clients.last().logged_in && clients.last().id != id {
        roster_for(clients.drop_last(), id).push(clients.last().spawn_self())
    } else {
        roster_for(clients.drop_last(), id)
    }
}

/// What a session gets of the broadcasts of a tick: the packets of every
/// entry that comes from another session, in the order of the entries.
pub open spec fn deliveries(outbox: Seq<(u8, Seq<ClientBoundView>)>, id: u8) -> Seq<
    ClientBoundView,
>
    decreases outbox.len(),
{
    if outbox.len() == 0 {
        Seq::empty()
    } else if outbox.last().0 != id {
        deliveries(outbox.drop_last(), id) + outbox.last().1
    } else {
        deliveries(outbox.drop_last(), id)
    }
}

/// A session gets nothing of what it broadcasts itself: an entry of its
/// own, wherever it stands among the broadcasts of a tick, changes nothing
/// of what the session gets.
pub proof fn lemma_broadcast_isolation(
    outbox: Seq<(u8, Seq<ClientBoundView>)>,
    at: int,
    id: u8,
    own: Seq<ClientBoundView>,
)
    requires
        0 <= at <= outbox.len(),
    ensures
        deliveries(outbox.insert(at, (id, own)), id) == deliveries(outbox, id),
    decreases outbox.len(),
{
    let with = outbox.insert(at, (id, own));
    if at == outbox.len() {
        assert(with.drop_last() =~= outbox);
    } else {
        let before = outbox.drop_last();
        lemma_broadcast_isolation(before, at, id, own);
        assert(with.drop_last() =~= before.insert(at, (id, own)));
        assert(with.last() == outbox.last());
    }
}

/// A session gets all that another session broadcasts: an entry of
/// another session at the end of the broadcasts of a tick adds its packets
/// to the end of what the session gets.
pub proof fn lemma_broadcast_reaches_others(
    outbox: Seq<(u8, Seq<ClientBoundView>)>,
    from: u8,
    packets: Seq<ClientBoundView>,
    id: u8,
)
    requires
        from != id,
    ensures
        deliveries(outbox.push((from, packets)), id) == deliveries(outbox, id) + packets,
{
    assert(outbox.push((from, packets)).drop_last() =~= outbox);
}

/// Tells whether the world is due to be saved: the minutes between two
/// saves have passed.
pub fn save_is_due(elapsed_seconds: u64, save_interval: u64) -> (due: bool)
    ensures
        due == (elapsed_seconds >= save_interval * 60),
{
    match save_interval.checked_mul(60) {
        Some(seconds) => elapsed_seconds >= seconds,
        None => false,
    }
}

/// Tells whether a heartbeat is due: forty seconds have passed since the
/// last one, or the roster has changed.
pub fn heartbeat_is_due(elapsed_seconds: u64, dirty: bool) -> (due: bool)
    ensures
        due == (dirty || elapsed_seconds >= HEARTBEAT_INTERVAL),
{
    dirty || elapsed_seconds >= HEARTBEAT_INTERVAL
}

/// Tells whether a tick was slow: it took more than 250 milliseconds.
pub fn tick_is_slow(elapsed_millis: u128) -> (slow: bool)
    ensures
        slow == (elapsed_millis > SLOW_TICK),
{
    elapsed_millis > SLOW_TICK
}

/// The hub.
pub struct Server {
    protocol: u8,
    salt: String,
    config: Config,
    world: ClassicWorld,
    clients: Vec<Client>,
    next_id: u8,
    beatdate: bool,
}

/// What a hub holds.
pub struct ServerView {
    /// The protocol version.
    pub protocol: u8,
    /// The salt, drawn when the hub was made.
    pub salt: Seq<char>,
    /// The settings.
    pub config: Config,
    /// The world.
    pub world: WorldView,
    /// The roster.
    pub clients: Seq<ClientView>,
    /// The id that is tried first for the next session.
    pub next_id: u8,
    /// Whether the roster has changed since the heartbeats were told.
    pub dirty: bool,
}

impl ServerView {
    /// The settings that the sessions go by.
    pub open spec fn settings(&self) -> Settings {
        settings_of(self.salt, &self.config)
    }

    /// The number of sessions, as the heartbeats are told it.
    pub open spec fn user_count(&self) -> u16 {
        if self.clients.len() > 0xFFFF {
            0xFFFFu16
        } else {
            self.clients.len() as u16
        }
    }

    /// The MineOnline heartbeat once it has been told of the roster, if
    /// there is news and the heartbeat is in use.
    pub open spec fn told_mineonline(
        &self,
        heartbeat: crate::mineonline::HeartbeatView,
    ) -> crate::mineonline::HeartbeatView {
        if self.dirty && self.config.heartbeat.enabled && self.config.heartbeat.mineonline.active {
            crate::mineonline::HeartbeatView {
                players: names_of(self.clients),
                users: self.user_count(),
                ..heartbeat
            }
        } else {
            heartbeat
        }
    }

    /// The Mojang heartbeat once it has been told of the roster, if there
    /// is news and the heartbeat is in use.
    pub open spec fn told_mojang(
        &self,
        heartbeat: crate::mojang::HeartbeatView,
    ) -> crate::mojang::HeartbeatView {
        if self.dirty && self.config.heartbeat.enabled && self.config.heartbeat.mojang.active {
            crate::mojang::HeartbeatView { users: self.user_count(), ..heartbeat }
        } else {
            heartbeat
        }
    }

    /// Whether the hub is as every hub is: no two sessions have the same
    /// id, none has the id that stands for the player itself, and the world
    /// is well formed.
    pub open spec fn well_formed(&self) -> bool {
        &&& ids_distinct(self.clients)
        &&& forall|i: int| 0 <= i < self.clients.len() ==> (#[trigger] self.clients[i]).id != SELF_ID
        &&& self.world.well_formed()
    }
}

/// The broadcasts of a tick, each with the id of the session that it comes
/// from.
pub open spec fn outbox_views(outbox: Seq<(u8, Vec<ClientBound>)>) -> Seq<
    (u8, Seq<ClientBoundView>),
> {
    Seq::new(outbox.len(), |i: int| (outbox[i].0, views(outbox[i].1@)))
}

/// The replies of a tick, one list for each session.
pub open spec fn reply_views(replies: Seq<Vec<ClientBound>>) -> Seq<Seq<ClientBoundView>> {
    Seq::new(replies.len(), |i: int| views(replies[i]@))
}

/// Whether what was read for each session can be decoded.
pub open spec fn inbound_decodable(clients: Seq<ClientView>, inbound: Seq<InboundView>) -> bool {
    forall|i: int|
        0 <= i < clients.len() && i < inbound.len() ==> (#[trigger] inbound[i] matches InboundView::Data(
            buffer,
        ) ==> all_decodable(frames(buffer, clients[i].logged_in)))
}

/// Where a tick stands once the first sessions of the roster have had
/// their turn.
pub struct Advanced {
    /// The roster: the sessions that have had their turn as they are
    /// after it, the others as they were.
    pub clients: Seq<ClientView>,
    /// The world.
    pub world: WorldView,
    /// What each session that has had its turn is written in reply.
    pub replies: Seq<Seq<ClientBoundView>>,
    /// Whether each session that has had its turn has ended.
    pub closed: Seq<bool>,
    /// The broadcasts so far.
    pub outbox: Seq<(u8, Seq<ClientBoundView>)>,
    /// Whether the roster has changed: a session has ended or a player has
    /// identified.
    pub changed: bool,
}

/// Where a tick stands once the first `n` sessions of the roster have had
/// their turn, each in the world as the one before left it. A session whose
/// connection is lost ends, and the others are told that the player left, if
/// the player had a name. Any other session handles what was read for it; a
/// session that identifies in its turn is shown, behind its replies, the
/// players who had identified when the tick began.
pub open spec fn advance(
    clients: Seq<ClientView>,
    world: WorldView,
    inbound: Seq<InboundView>,
    settings: Settings,
    now: u64,
    n: nat,
) -> Advanced
    decreases n,
{
    if n == 0 {
        Advanced {
            clients,
            world,
            replies: Seq::empty(),
            closed: Seq::empty(),
            outbox: Seq::empty(),
            changed: false,
        }
    } else {
        let before = advance(clients, world, inbound, settings, now, (n - 1) as nat);
        let client = before.clients[n - 1];
        match inbound[n - 1] {
            InboundView::Lost => Advanced {
                replies: before.replies.push(Seq::empty()),
                closed: before.closed.push(true),
                outbox: if client.username.len() > 0 {
                    before.outbox.push((client.id, client.despawn_self()))
                } else {
                    before.outbox
                },
                changed: true,
                ..before
            },
            InboundView::Data(buffer) => {
                let ran = tick_of(client, before.world, buffer, settings, now);
                let joined = !client.logged_in && ran.client.logged_in;
                Advanced {
                    clients: before.clients.update(n - 1, ran.client),
                    world: ran.world,
                    replies: before.replies.push(
                        if joined {
                            replies_of(ran) + roster_for(clients, client.id)
                        } else {
                            replies_of(ran)
                        },
                    ),
                    closed: before.closed.push(ran.shutdown),
                    outbox: before.outbox.push((client.id, ran.broadcast)),
                    changed: before.changed || joined || ran.shutdown,
                }
            },
        }
    }
}

/// What is written to each session at the end of a tick: its replies, and
/// behind them, unless the session has ended, what the other sessions
/// broadcast.
pub open spec fn outputs(clients: Seq<ClientView>, done: Advanced) -> Seq<OutboundView> {
    Seq::new(
        clients.len(),
        |i: int|
            OutboundView {
                id: clients[i].id,
                packets: if done.closed[i] {
                    done.replies[i]
                } else {
                    done.replies[i] + deliveries(done.outbox, clients[i].id)
                },
                close: done.closed[i],
            },
    )
}

/// The sessions from the position `from` on that have not ended, in their
/// order.
pub open spec fn kept_from(clients: Seq<ClientView>, closed: Seq<bool>, from: int) -> Seq<
    ClientView,
>
    decreases clients.len() - from,
{
    if from < 0 || from >= clients.len() {
        Seq::empty()
    } else if closed[from] {
        kept_from(clients, closed, from + 1)
    } else {
        seq![clients[from]] + kept_from(clients, closed, from + 1)
    }
}

/// The hub after a tick: the sessions that have ended are gone from the
/// roster, and the heartbeats are owed the news if the roster has changed.
pub open spec fn after_tick(server: ServerView, done: Advanced) -> ServerView {
    ServerView {
        clients: kept_from(done.clients, done.closed, 0),
        world: done.world,
        dirty: server.dirty || done.changed,
        ..server
    }
}

proof fn lemma_advance_shape(
    clients: Seq<ClientView>,
    world: WorldView,
    inbound: Seq<InboundView>,
    settings: Settings,
    now: u64,
    n: nat,
)
    requires
        n <= clients.len(),
        world.well_formed(),
    ensures
        advance(clients, world, inbound, settings, now, n).clients.len() == clients.len(),
        advance(clients, world, inbound, settings, now, n).replies.len() == n,
        advance(clients, world, inbound, settings, now, n).closed.len() == n,
        forall|k: int|
            0 <= k < clients.len() ==> (#[trigger] advance(
                clients,
                world,
                inbound,
                settings,
                now,
                n,
            ).clients[k]).id == clients[k].id,
        forall|k: int|
            n <= k < clients.len() ==> #[trigger] advance(
                clients,
                world,
                inbound,
                settings,
                now,
                n,
            ).clients[k] == clients[k],
    decreases n,
{
    if n > 0 {
        lemma_advance_shape(clients, world, inbound, settings, now, (n - 1) as nat);
        let before = advance(clients, world, inbound, settings, now, (n - 1) as nat);
        let client = before.clients[n - 1];
        match inbound[n - 1] {
            InboundView::Lost => {},
            InboundView::Data(buffer) => {
                crate::client::lemma_run_keeps_identity(
                    client,
                    before.world,
                    crate::framing::decoded_frames(frames(buffer, client.logged_in)),
                    settings,
                    now,
                );
            },
        }
    }
}

proof fn lemma_kept_ids(clients: Seq<ClientView>, closed: Seq<bool>, from: int)
    requires
        0 <= from <= clients.len(),
        ids_distinct(clients),
        forall|i: int| 0 <= i < clients.len() ==> (#[trigger] clients[i]).id != SELF_ID,
    ensures
        forall|k: int|
            0 <= k < kept_from(clients, closed, from).len() ==> exists|j: int|
                from <= j < clients.len() && (#[trigger] clients[j]).id == (#[trigger] kept_from(
                    clients,
                    closed,
                    from,
                )[k]).id,
        ids_distinct(kept_from(clients, closed, from)),
        forall|k: int|
            0 <= k < kept_from(clients, closed, from).len() ==> (#[trigger] kept_from(
                clients,
                closed,
                from,
            )[k]).id != SELF_ID,
    decreases clients.len() - from,
{
    let kept = kept_from(clients, closed, from);
    if from < clients.len() {
        lemma_kept_ids(clients, closed, from + 1);
        let rest = kept_from(clients, closed, from + 1);
        assert forall|k: int| 0 <= k < kept.len() implies exists|j: int|
            from <= j < clients.len() && (#[trigger] clients[j]).id == (#[trigger] kept[k]).id by {
            if closed[from] {
                let j = choose|j: int|
                    from + 1 <= j < clients.len() && (#[trigger] clients[j]).id == rest[k].id;
                assert(from <= j < clients.len() && clients[j].id == kept[k].id);
            } else if k == 0 {
                assert(clients[from].id == kept[0].id);
            } else {
                assert(kept[k] == rest[k - 1]);
                let j = choose|j: int|
                    from + 1 <= j < clients.len() && (#[trigger] clients[j]).id == rest[k - 1].id;
                assert(from <= j < clients.len() && clients[j].id == kept[k].id);
            }
        }
        if !closed[from] {
            assert forall|a: int, b: int| 0 <= a < b < kept.len() implies kept[a].id
                != kept[b].id by {
                assert(kept[b] == rest[b - 1]);
                if a == 0 {
                    let j = choose|j: int|
                        from + 1 <= j < clients.len() && (#[trigger] clients[j]).id == rest[b
                            - 1].id;
                    assert(clients[from].id != clients[j].id);
                } else {
                    assert(kept[a] == rest[a - 1]);
                }
            }
            assert forall|k: int| 0 <= k < kept.len() implies (#[trigger] kept[k]).id
                != SELF_ID by {
                if k > 0 {
                    assert(kept[k] == rest[k - 1]);
                }
            }
        }
    }
}

/// A tick keeps a hub well formed, if it leaves the world well formed:
/// every session keeps its id, so that the ids of those that stay are as
/// distinct as they were.
pub proof fn lemma_tick_keeps_ids(server: ServerView, inbound: Seq<InboundView>, now: u64)
    requires
        server.well_formed(),
        advance(
            server.clients,
            server.world,
            inbound,
            server.settings(),
            now,
            server.clients.len(),
        ).world.well_formed(),
    ensures
        after_tick(
            server,
            advance(
                server.clients,
                server.world,
                inbound,
                server.settings(),
                now,
                server.clients.len(),
            ),
        ).well_formed(),
{
    let done = advance(
        server.clients,
        server.world,
        inbound,
        server.settings(),
        now,
        server.clients.len(),
    );
    lemma_advance_shape(
        server.clients,
        server.world,
        inbound,
        server.settings(),
        now,
        server.clients.len(),
    );
    assert forall|i: int, j: int| 0 <= i < j < done.clients.len() implies done.clients[i].id
        != done.clients[j].id by {
        assert(done.clients[i].id == server.clients[i].id);
        assert(done.clients[j].id == server.clients[j].id);
    }
    assert forall|i: int| 0 <= i < done.clients.len() implies (#[trigger] done.clients[i]).id
        != SELF_ID by {
        assert(done.clients[i].id == server.clients[i].id);
    }
    lemma_kept_ids(done.clients, done.closed, 0);
}

impl View for Server {
    type V = ServerView;

    closed spec fn view(&self) -> ServerView {
        ServerView {
            protocol: self.protocol,
            salt: self.salt@,
            config: self.config,
            world: self.world@,
            clients: client_views(self.clients@),
            next_id: self.next_id,
            dirty: self.beatdate,
        }
    }
}

/// What is shown of a session to a player who joins: its id, whether the
/// player has identified, and the packet that shows the player.
struct Shown {
    id: u8,
    logged_in: bool,
    packet: ClientBound,
}

spec fn shows(shown: Seq<Shown>, clients: Seq<ClientView>) -> bool {
    &&& shown.len() == clients.len()
    &&& forall|k: int|
        0 <= k < shown.len() ==> (#[trigger] shown[k]).id == clients[k].id && shown[k].logged_in
            == clients[k].logged_in && shown[k].packet@ == clients[k].spawn_self()
}

fn greet(shown: &Vec<Shown>, id: u8, Ghost(clients): Ghost<Seq<ClientView>>) -> (packets: Vec<
    ClientBound,
>)
    requires
        shows(shown@, clients),
    ensures
        views(packets@) == roster_for(clients, id),
{
    let mut packets: Vec<ClientBound> = Vec::new();
    let mut i: usize = 0;
    assert(clients.take(0) =~= Seq::<ClientView>::empty());
    assert(views(packets@) =~= Seq::<ClientBoundView>::empty());
    while i < shown.len()
        invariant
            i <= shown.len(),
            shows(shown@, clients),
            views(packets@) == roster_for(clients.take(i as int), id),
        decreases shown.len() - i,
    {
        proof {
            let next = clients.take(i + 1);
            assert(next.drop_last() =~= clients.take(i as int));
            assert(next.last() == clients[i as int]);
        }
        if shown[i].logged_in && shown[i].id != id {
            let ghost before = packets@;
            packets.push(shown[i].packet);
            assert(views(packets@) =~= views(before).push(shown@[i as int].packet@));
        }
        i += 1;
    }
    assert(clients.take(shown.len() as int) =~= clients);
    packets
}

fn deliver(outbox: &Vec<(u8, Vec<ClientBound>)>, id: u8) -> (packets: Vec<ClientBound>)
    ensures
        views(packets@) == deliveries(outbox_views(outbox@), id),
{
    let mut packets: Vec<ClientBound> = Vec::new();
    let mut i: usize = 0;
    let ghost all = outbox_views(outbox@);
    assert(all.take(0) =~= Seq::<(u8, Seq<ClientBoundView>)>::empty());
    assert(views(packets@) =~= Seq::<ClientBoundView>::empty());
    while i < outbox.len()
        invariant
            i <= outbox.len(),
            all == outbox_views(outbox@),
            views(packets@) == deliveries(all.take(i as int), id),
        decreases outbox.len() - i,
    {
        proof {
            let next = all.take(i + 1);
            assert(next.drop_last() =~= all.take(i as int));
            assert(next.last() == all[i as int]);
        }
        if outbox[i].0 != id {
            emit_all(&mut packets, &outbox[i].1);
        }
        i += 1;
    }
    assert(all.take(outbox.len() as int) =~= all);
    packets
}

impl Server {
    /// A hub with a salt, settings and a world, and with nobody connected.
    pub fn with_salt(config: Config, world: ClassicWorld, salt: String) -> (server: Self)
        ensures
            server@ == (ServerView {
                protocol: PROTOCOL_VERSION,
                salt: salt@,
                config,
                world: world@,
                clients: Seq::empty(),
                next_id: 0,
                dirty: false,
            }),
            server@.well_formed(),
    {
        proof {
            use_type_invariant(&world);
        }
        let server = Self {
            protocol: PROTOCOL_VERSION,
            salt,
            config,
            world,
            clients: Vec::new(),
            next_id: 0,
            beatdate: false,
        };
        assert(client_views(server.clients@) =~= Seq::empty());
        server
    }

    /// A hub with settings and a world, with a salt that is drawn for it,
    /// and with nobody connected.
    pub fn new(config: Config, world: ClassicWorld) -> (server: Self)
        ensures
            is_salt(server@.salt),
            server@ == (ServerView {
                protocol: PROTOCOL_VERSION,
                salt: server@.salt,
                config,
                world: world@,
                clients: Seq::empty(),
                next_id: 0,
                dirty: false,
            }),
            server@.well_formed(),
    {
        Self::with_salt(config, world, generate_salt())
    }

    /// The salt of the hub.
    pub fn get_salt(&self) -> (salt: &str)
        ensures
            salt@ == self@.salt,
    {
        self.salt.as_str()
    }

    /// The settings of the hub.
    pub fn get_config(&self) -> (config: &Config)
        ensures
            *config == self@.config,
    {
        &self.config
    }

    /// The world of the hub.
    pub fn get_world(&self) -> (world: &ClassicWorld)
        ensures
            world@ == self@.world,
    {
        &self.world
    }

    /// The number of sessions in the roster.
    pub fn client_count(&self) -> (count: usize)
        ensures
            count == self@.clients.len(),
    {
        self.clients.len()
    }

    /// The id of the session at a position of the roster.
    pub fn client_id(&self, index: usize) -> (id: u8)
        requires
            index < self@.clients.len(),
        ensures
            id == self@.clients[index as int].id,
    {
        self.clients[index].get_id()
    }

    /// The names of the players who have identified, in the order of the
    /// roster.
    pub fn usernames(&self) -> (names: Vec<String>)
        ensures
            string_views(names@) == names_of(self@.clients),
    {
        let mut names: Vec<String> = Vec::new();
        let mut i: usize = 0;
        let ghost all = client_views(self.clients@);
        assert(all.take(0) =~= Seq::<ClientView>::empty());
        assert(string_views(names@) =~= Seq::<Seq<char>>::empty());
        while i < self.clients.len()
            invariant
                i <= self.clients.len(),
                all == client_views(self.clients@),
                string_views(names@) == names_of(all.take(i as int)),
            decreases self.clients.len() - i,
        {
            proof {
                let next = all.take(i + 1);
                assert(next.drop_last() =~= all.take(i as int));
                assert(next.last() == all[i as int]);
            }
            let name = self.clients[i].get_username();
            if !name.is_empty() {
                let ghost before = names@;
                names.push(name.to_owned());
                assert(string_views(names@) =~= string_views(before).push(name@));
            }
            i += 1;
        }
        assert(all.take(self.clients.len() as int) =~= all);
        names
    }

    /// Takes a new connection into the roster, under the first free id at
    /// or after the one that is next in turn. `None`, with nothing changed,
    /// if no id is free.
    pub fn accept(&mut self, ip: String) -> (id: Option<u8>)
        requires
            old(self)@.well_formed(),
        ensures
            id == pick_id(old(self)@.clients, old(self)@.next_id, 256),
            id matches Some(given) ==> id_is_free(old(self)@.clients, given) && final(self)@ == (
            ServerView {
                clients: old(self)@.clients.push(fresh_client(given, ip@)),
                next_id: next_after(given),
                dirty: true,
                ..old(self)@
            }),
            id is None ==> final(self)@ == old(self)@,
            final(self)@.well_formed(),
    {
        let mut candidate = self.next_id;
        let mut tries: usize = 0;
        let ghost roster = client_views(self.clients@);
        while tries < 256
            invariant
                tries <= 256,
                roster == client_views(self.clients@),
                *self == *old(self),
                old(self)@.well_formed(),
                pick_id(roster, self.next_id, 256) == pick_id(
                    roster,
                    candidate,
                    (256 - tries) as nat,
                ),
            decreases 256 - tries,
        {
            let mut free = candidate != SELF_ID;
            let mut i: usize = 0;
            while free && i < self.clients.len()
                invariant
                    i <= self.clients.len(),
                    roster == client_views(self.clients@),
                    free ==> candidate != SELF_ID && forall|k: int|
                        0 <= k < i ==> (#[trigger] roster[k]).id != candidate,
                    !free ==> !id_is_free(roster, candidate),
                decreases self.clients.len() - i + (if free {
                    1int
                } else {
                    0int
                }),
            {
                if self.clients[i].get_id() == candidate {
                    assert(roster[i as int].id == candidate);
                    free = false;
                } else {
                    i += 1;
                }
            }
            if free {
                self.clients.push(Client::new(candidate, ip));
                self.next_id = if candidate == 255 {
                    0
                } else {
                    candidate + 1
                };
                self.beatdate = true;
                proof {
                    assert(client_views(self.clients@) =~= roster.push(
                        fresh_client(candidate, ip@),
                    ));
                    let after = client_views(self.clients@);
                    assert forall|a: int, b: int| 0 <= a < b < after.len() implies after[a].id
                        != after[b].id by {
                        if b == roster.len() {
                            assert(after[a] == roster[a]);
                            assert(roster[a].id != candidate);
                        } else {
                            assert(after[a] == roster[a]);
                            assert(after[b] == roster[b]);
                        }
                    }
                    assert forall|a: int| 0 <= a < after.len() implies (#[trigger] after[a]).id
                        != SELF_ID by {
                        if a < roster.len() {
                            assert(after[a] == roster[a]);
                        }
                    }
                }
                return Some(candidate);
            }
            candidate = if candidate == 255 {
                0
            } else {
                candidate + 1
            };
            tries += 1;
        }
        None
    }
}

/// The text that announces a save.
pub open spec fn saving_text() -> Seq<u8> {
    "Saving World..".spec_bytes()
}

/// The text that announces that a save is done.
pub open spec fn saved_text() -> Seq<u8> {
    "Saving Complete".spec_bytes()
}

/// The name under which the server speaks in chat.
pub open spec fn console_name() -> Seq<u8> {
    "Console".spec_bytes()
}

/// The reason given to the players when the server stops.
pub open spec fn shutdown_reason() -> Seq<u8> {
    "Server shutting down".spec_bytes()
}

impl Server {
    /// Runs one tick of the hub at the time `now`, with what was read from
    /// the socket of each session of the roster, in its order. Every session
    /// has its turn; then each is written its replies and, unless it has
    /// ended, what the others broadcast; then the sessions that have ended
    /// leave the roster. `None`, with nothing changed, if the text of a
    /// packet that was read is not well-formed.
    pub fn update_network(&mut self, inbound: &Vec<Inbound>, now: u64) -> (outbound: Option<
        Vec<Outbound>,
    >)
        requires
            old(self)@.well_formed(),
            inbound@.len() == old(self)@.clients.len(),
        ensures
            outbound is Some <==> inbound_decodable(old(self)@.clients, inbound_views(inbound@)),
            outbound is None ==> final(self)@ == old(self)@,
            outbound matches Some(list) ==> {
                let done = advance(
                    old(self)@.clients,
                    old(self)@.world,
                    inbound_views(inbound@),
                    old(self)@.settings(),
                    now,
                    old(self)@.clients.len(),
                );
                &&& outbound_views(list@) == outputs(old(self)@.clients, done)
                &&& final(self)@ == after_tick(old(self)@, done)
            },
            final(self)@.well_formed(),
    {
        let n = self.clients.len();
        let ghost before = client_views(self.clients@);
        let ghost world = self.world@;
        let ghost read = inbound_views(inbound@);
        let ghost settings = self@.settings();
        let mut i: usize = 0;
        while i < n
            invariant
                i <= n,
                n == self.clients@.len(),
                n == inbound@.len(),
                *self == *old(self),
                old(self)@.well_formed(),
                before == client_views(self.clients@),
                read == inbound_views(inbound@),
                forall|k: int|
                    0 <= k < i ==> (#[trigger] read[k] matches InboundView::Data(buffer)
                        ==> all_decodable(frames(buffer, before[k].logged_in))),
            decreases n - i,
        {
            match &inbound[i] {
                Inbound::Data(bytes) => {
                    let packets = read_packets(bytes.as_slice(), self.clients[i].is_logged_in());
                    if packets.is_none() {
                        assert(read[i as int] matches InboundView::Data(buffer) && !all_decodable(
                            frames(buffer, before[i as int].logged_in),
                        ));
                        return None;
                    }
                },
                Inbound::Lost => {},
            }
            i += 1;
        }
        assert(inbound_decodable(before, read));
        let mut shown: Vec<Shown> = Vec::new();
        let mut s: usize = 0;
        while s < n
            invariant
                s <= n,
                n == self.clients@.len(),
                before == client_views(self.clients@),
                shown@.len() == s,
                forall|k: int|
                    0 <= k < s ==> (#[trigger] shown@[k]).id == before[k].id && shown@[k].logged_in
                        == before[k].logged_in && shown@[k].packet@ == before[k].spawn_self(),
            decreases n - s,
        {
            let client = &self.clients[s];
            shown.push(
                Shown {
                    id: client.get_id(),
                    logged_in: client.is_logged_in(),
                    packet: client.spawn_self(),
                },
            );
            s += 1;
        }
        let mut replies: Vec<Vec<ClientBound>> = Vec::new();
        let mut closed: Vec<bool> = Vec::new();
        let mut outbox: Vec<(u8, Vec<ClientBound>)> = Vec::new();
        let mut changed = false;
        let mut t: usize = 0;
        assert(reply_views(replies@) =~= Seq::<Seq<ClientBoundView>>::empty());
        assert(outbox_views(outbox@) =~= Seq::<(u8, Seq<ClientBoundView>)>::empty());
        while t < n
            invariant
                t <= n,
                n == self.clients@.len(),
                n == inbound@.len(),
                n == before.len(),
                read == inbound_views(inbound@),
                inbound_decodable(before, read),
                shows(shown@, before),
                world.well_formed(),
                self.salt == old(self).salt,
                self.config == old(self).config,
                self.protocol == old(self).protocol,
                self.next_id == old(self).next_id,
                self.beatdate == old(self).beatdate,
                settings == settings_of(self.salt@, &self.config),
                client_views(self.clients@) == advance(
                    before,
                    world,
                    read,
                    settings,
                    now,
                    t as nat,
                ).clients,
                self.world@ == advance(before, world, read, settings, now, t as nat).world,
                reply_views(replies@) == advance(before, world, read, settings, now, t as nat).replies,
                closed@ == advance(before, world, read, settings, now, t as nat).closed,
                outbox_views(outbox@) == advance(before, world, read, settings, now, t as nat).outbox,
                changed == advance(before, world, read, settings, now, t as nat).changed,
            decreases n - t,
        {
            let ghost so_far = advance(before, world, read, settings, now, t as nat);
            let ghost next = advance(before, world, read, settings, now, (t + 1) as nat);
            proof {
                lemma_advance_shape(before, world, read, settings, now, t as nat);
                assert(so_far.clients[t as int] == before[t as int]);
            }
            match &inbound[t] {
                Inbound::Lost => {
                    let client = &self.clients[t];
                    if !client.get_username().is_empty() {
                        let pair = client.despawn_self();
                        let mut packets: Vec<ClientBound> = Vec::new();
                        packets.push(pair[0]);
                        packets.push(pair[1]);
                        assert(views(packets@) =~= views(pair@));
                        let ghost sent = outbox@;
                        outbox.push((client.get_id(), packets));
                        assert(outbox_views(outbox@) =~= outbox_views(sent).push(
                            (client@.id, views(packets@)),
                        ));
                    }
                    let ghost written = replies@;
                    let nothing: Vec<ClientBound> = Vec::new();
                    assert(views(nothing@) =~= Seq::<ClientBoundView>::empty());
                    replies.push(nothing);
                    assert(reply_views(replies@) =~= reply_views(written).push(views(nothing@)));
                    closed.push(true);
                    changed = true;
                },
                Inbound::Data(bytes) => {
                    let was = self.clients[t].is_logged_in();
                    let id = self.clients[t].get_id();
                    let ghost roster = self.clients@;
                    let tick = self.clients[t].handle_connect_at(
                        bytes.as_slice(),
                        self.salt.as_str(),
                        &self.config,
                        &mut self.world,
                        now,
                    );
                    assert(client_views(self.clients@) =~= client_views(roster).update(
                        t as int,
                        self.clients@[t as int]@,
                    ));
                    let tick = match tick {
                        Some(tick) => tick,
                        None => vstd::pervasive::unreached(),
                    };
                    let joined = !was && self.clients[t].is_logged_in();
                    let mut packets = tick.replies;
                    if joined {
                        let greeting = greet(&shown, id, Ghost(before));
                        emit_all(&mut packets, &greeting);
                    }
                    let ghost written = replies@;
                    let ghost sent = outbox@;
                    replies.push(packets);
                    assert(reply_views(replies@) =~= reply_views(written).push(views(packets@)));
                    closed.push(tick.shutdown);
                    outbox.push((id, tick.broadcast));
                    assert(outbox_views(outbox@) =~= outbox_views(sent).push(
                        (id, views(tick.broadcast@)),
                    ));
                    changed = changed || joined || tick.shutdown;
                },
            }
            t += 1;
        }
        let ghost done = advance(before, world, read, settings, now, n as nat);
        proof {
            lemma_advance_shape(before, world, read, settings, now, n as nat);
        }
        let mut list: Vec<Outbound> = Vec::new();
        let mut j: usize = 0;
        while j < n
            invariant
                j <= n,
                n == self.clients@.len(),
                n == before.len(),
                n == replies@.len(),
                n == closed@.len(),
                client_views(self.clients@) == done.clients,
                reply_views(replies@) == done.replies,
                closed@ == done.closed,
                outbox_views(outbox@) == done.outbox,
                forall|k: int| 0 <= k < n ==> (#[trigger] done.clients[k]).id == before[k].id,
                list@.len() == j,
                forall|k: int| 0 <= k < j ==> (#[trigger] list@[k])@ == outputs(before, done)[k],
            decreases n - j,
        {
            let id = self.clients[j].get_id();
            assert(done.clients[j as int].id == before[j as int].id);
            let mut packets: Vec<ClientBound> = Vec::new();
            assert(views(packets@) =~= Seq::<ClientBoundView>::empty());
            emit_all(&mut packets, &replies[j]);
            assert(views(packets@) =~= done.replies[j as int]) by {
                assert(reply_views(replies@)[j as int] == views(replies@[j as int]@));
            }
            if !closed[j] {
                let others = deliver(&outbox, id);
                emit_all(&mut packets, &others);
            }
            list.push(Outbound { id, packets, close: closed[j] });
            j += 1;
        }
        assert(outbound_views(list@) =~= outputs(before, done));
        let mut k: usize = n;
        assert(done.clients.take(n as int) =~= done.clients);
        assert(done.clients + Seq::<ClientView>::empty() =~= done.clients);
        while k > 0
            invariant
                k <= n,
                n == done.clients.len(),
                n == closed@.len(),
                closed@ == done.closed,
                self.salt == old(self).salt,
                self.config == old(self).config,
                self.protocol == old(self).protocol,
                self.next_id == old(self).next_id,
                self.beatdate == old(self).beatdate,
                self.world@ == done.world,
                client_views(self.clients@) == done.clients.take(k as int) + kept_from(
                    done.clients,
                    done.closed,
                    k as int,
                ),
            decreases k,
        {
            k -= 1;
            let ghost roster = self.clients@;
            let ghost tail = kept_from(done.clients, done.closed, k + 1);
            assert(client_views(roster) =~= done.clients.take(k as int).push(done.clients[k as int])
                + tail);
            if closed[k] {
                assert(client_views(roster).len() == roster.len());
                self.clients.remove(k);
                assert(self.clients@ == roster.remove(k as int));
                assert(client_views(self.clients@) =~= client_views(roster).remove(k as int));
                assert(client_views(self.clients@) =~= done.clients.take(k as int) + tail);
            } else {
                assert(client_views(self.clients@) =~= done.clients.take(k as int) + (seq![
                    done.clients[k as int],
                ] + tail));
            }
        }
        assert(done.clients.take(0) + kept_from(done.clients, done.closed, 0) =~= kept_from(
            done.clients,
            done.closed,
            0,
        ));
        self.beatdate = self.beatdate || changed;
        proof {
            use_type_invariant(&self.world);
            lemma_tick_keeps_ids(old(self)@, read, now);
        }
        Some(list)
    }

    /// Takes what the heartbeats are owed, if the roster has changed since
    /// they were told: the names of the players for the MineOnline list, and
    /// the number of sessions for both lists, each if it is in use.
    pub fn update_heartbeats(
        &mut self,
        mineonline: &mut crate::mineonline::Heartbeat,
        mojang: &mut crate::mojang::Heartbeat,
    )
        ensures
            final(self)@ == (ServerView { dirty: false, ..old(self)@ }),
            final(mineonline)@ == old(self)@.told_mineonline(old(mineonline)@),
            final(mojang)@ == old(self)@.told_mojang(old(mojang)@),
    {
        if self.beatdate {
            let count: u16 = if self.clients.len() > 0xFFFF {
                0xFFFF
            } else {
                self.clients.len() as u16
            };
            assert(client_views(self.clients@).len() == self.clients@.len());
            if self.config.heartbeat.enabled {
                if self.config.heartbeat.mineonline.active {
                    let names = self.usernames();
                    mineonline.update_player_names(&names);
                    mineonline.update_users(count);
                }
                if self.config.heartbeat.mojang.active {
                    mojang.update_users(count);
                }
            }
            self.beatdate = false;
        }
    }

    /// The heartbeat for the MineOnline list that fits the settings.
    pub fn mineonline_heartbeat(&self) -> (heartbeat: crate::mineonline::Heartbeat)
        ensures
            heartbeat@ == (crate::mineonline::HeartbeatView {
                uuid: Seq::empty(),
                url: self@.config.heartbeat.mineonline.url@,
                ip: self@.config.server.ip@,
                port: self@.config.server.port,
                name: self@.config.server.name@,
                public: self@.config.server.public,
                max_users: self@.config.server.max_players,
                online: self@.config.server.online_mode,
                client_hash: CLIENT_HASH@,
                users: 0,
                players: Seq::empty(),
                whitelisted: self@.config.server.whitelisted,
                request: Seq::empty(),
            }),
    {
        crate::mineonline::Heartbeat::new(
            self.config.heartbeat.mineonline.url.as_str(),
            self.config.server.ip.as_str(),
            self.config.server.port,
            self.config.server.name.as_str(),
            self.config.server.public,
            self.config.server.max_players,
            self.config.server.online_mode,
            CLIENT_HASH,
            self.config.server.whitelisted,
        )
    }

    /// The heartbeat for the Mojang list that fits the settings.
    pub fn mojang_heartbeat(&self) -> (heartbeat: crate::mojang::Heartbeat)
        ensures
            heartbeat@ == (crate::mojang::HeartbeatView {
                url: self@.config.heartbeat.mojang.url@,
                ip: self@.config.server.ip@,
                port: self@.config.server.port,
                name: self@.config.server.name@,
                public: self@.config.server.public,
                max_users: self@.config.server.max_players,
                online: self@.config.server.online_mode,
                protocol: PROTOCOL_VERSION as u16,
                salt: self@.salt,
                users: 0,
                request: Seq::empty(),
            }),
    {
        crate::mojang::Heartbeat::new(
            self.config.heartbeat.mojang.url.as_str(),
            self.config.server.ip.as_str(),
            self.config.server.port,
            self.config.server.name.as_str(),
            self.config.server.public,
            self.config.server.max_players,
            self.config.server.online_mode,
            self.salt.as_str(),
            PROTOCOL_VERSION as u16,
        )
    }

    /// What every session is told around a save of the world: before it
    /// that the world is being saved, and after it that the save is done.
    pub fn save_world(&self) -> (told: (Vec<ClientBound>, Vec<ClientBound>))
        ensures
            views(told.0@) == message_packets(SELF_ID, chat_line(console_name(), saving_text())),
            views(told.1@) == message_packets(SELF_ID, chat_line(console_name(), saved_text())),
    {
        let before = crate::chat::make_chat_line("Console".as_bytes(), "Saving World..".as_bytes());
        let after = crate::chat::make_chat_line("Console".as_bytes(), "Saving Complete".as_bytes());
        (
            crate::chat::split_line(SELF_ID, before.as_slice()),
            crate::chat::split_line(SELF_ID, after.as_slice()),
        )
    }

    /// What every session is told when the server stops.
    pub fn shutdown(&self) -> (told: Vec<ClientBound>)
        ensures
            views(told@) == seq![ClientBoundView::DisconnectPlayer(padded(shutdown_reason()))],
    {
        let mut told: Vec<ClientBound> = Vec::new();
        told.push(ClientBound::DisconnectPlayer(crate::text::encode_string("Server shutting down")));
        assert(views(told@) =~= seq![ClientBoundView::DisconnectPlayer(padded(shutdown_reason()))]);
        told
    }
}

} // verus!
