//! The state of the application and the rules by which it changes.
//!
//! `AppHandle` holds what is in memory. Its methods take what is on disk as plain values, change
//! the state and say what is to be done in the world.
pub mod account;
pub mod addresses;
pub mod attachments;
pub mod capabilities;
pub mod chat;
pub mod code_join;
pub mod contacts;
pub mod content;
pub mod dm_key;
pub mod effects;
pub mod events;
pub mod facts;
pub mod handlers;
pub mod ids;
pub mod laws;
pub mod lobby;
pub mod membership;
pub mod mention;
pub mod messages;
pub mod moderation;
pub mod network;
pub mod records;
pub mod relay_link;
pub mod rooms;
pub mod sas_actor;
pub mod settings;
pub mod ticker;
pub mod transport;

pub use crate::app::addresses::{address_preference, parse_dial_address};
pub use crate::app::contacts::{ContactView, KnownPeerStatus};
pub use crate::app::dm_key::{plan_dm_key, DmKeyAction, DmKeyOutcome};
pub use crate::app::events::{AppEvent, DiscoveredRoom};
pub use crate::app::ids::{
    canonical_dm_room_id, expand_tilde_with, fingerprint_from_phrase, import_identity_from_phrase,
    new_client_msg_id, normalize_connect_code, normalize_to_fingerprint, salt_len,
    CONNECT_CODE_LEN, MESSAGE_GROUP_GAP_SECS, MIN_PASSPHRASE_LEN,
};
pub use crate::app::transport::{
    RoomTransport, SendReadiness, TransportConfig, DEFAULT_CLEARNET_URL, DEFAULT_SERVER_URL,
    DEFAULT_TOR_SOCKS,
};

use crate::app::events::DiscoveredView;
use crate::app::records::{StoredRoom, StoredRoomView};
use crate::app::sas_actor::{SasActor, SasView};
use crate::crypto::megolm::{RoomCrypto, RoomCryptoView, SessionWrite};
use crate::crypto::passphrase::KEY_LEN;
use crate::files::transfer::{FileManager, ManagerView};
use crate::identity::{Identity, IdentityView};
use crate::strmap::{self, PairMap, StrMap, StrSet};
use crate::text;
use vstd::prelude::*;

verus! {

// ---------------------------------------------------------------------------------------------
// Rooms
// ---------------------------------------------------------------------------------------------

/// A join code that was given out, and when it expires.
pub struct IssuedCode {
    code: String,
    expires_at: i64,
}

impl View for IssuedCode {
    type V = (Seq<char>, i64);

    closed spec fn view(&self) -> (Seq<char>, i64) {
        (self.code@, self.expires_at)
    }
}

pub open spec fn code_views(codes: Seq<IssuedCode>) -> Seq<(Seq<char>, i64)> {
    codes.map_values(|c: IssuedCode| c@)
}

/// A room that we are in.
pub struct ActiveRoom {
    info: StoredRoom,
    crypto: Option<RoomCrypto>,
    passphrase_key: Option<[u8; KEY_LEN]>,
    members: StrSet,
    typers: StrMap<i64>,
    read_only: bool,
    issued_codes: Vec<IssuedCode>,
    dm_kem_ciphertext: Option<String>,
    dm_is_hybrid: bool,
    dm_key_retry: u8,
}

/// A room that we are in, as contracts speak of it.
#[verifier::ext_equal]
pub struct RoomView {
    pub info: StoredRoomView,
    /// The sessions of an encrypted room.
    pub crypto: Option<RoomCryptoView>,
    /// The key under which session keys travel.
    pub key: Option<Seq<u8>>,
    pub members: Set<Seq<char>>,
    /// Who is typing, and until when that is shown.
    pub typers: Map<Seq<char>, i64>,
    /// We joined by a code and cannot share our session key.
    pub read_only: bool,
    pub codes: Seq<(Seq<char>, i64)>,
    /// What we encapsulated to the partner of a chat between two.
    pub kem_ciphertext: Option<Seq<char>>,
    /// The key of a chat between two is a hybrid one.
    pub is_hybrid: bool,
    /// How often the partner was asked for the key of a chat between two.
    pub key_retry: u8,
}

pub open spec fn crypto_view(c: Option<RoomCrypto>) -> Option<RoomCryptoView> {
    match c {
        Some(c) => Some(c@),
        None => None,
    }
}

pub open spec fn key_view(k: Option<[u8; KEY_LEN]>) -> Option<Seq<u8>> {
    match k {
        Some(k) => Some(k@),
        None => None,
    }
}

impl View for ActiveRoom {
    type V = RoomView;

    closed spec fn view(&self) -> RoomView {
        RoomView {
            info: self.info@,
            crypto: crypto_view(self.crypto),
            key: key_view(self.passphrase_key),
            members: self.members@,
            typers: self.typers@,
            read_only: self.read_only,
            codes: code_views(self.issued_codes@),
            kem_ciphertext: text::opt(self.dm_kem_ciphertext),
            is_hybrid: self.dm_is_hybrid,
            key_retry: self.dm_key_retry,
        }
    }
}

impl RoomView {
    /// An encrypted room has sessions, and they are in order.
    pub open spec fn wf(self) -> bool {
        &&& self.members.finite()
        &&& self.info.encrypted ==> self.crypto is Some
        &&& self.crypto matches Some(c) ==> c.wf()
        &&& self.key matches Some(k) ==> k.len() == 32
    }

    /// A room as it is when we enter it.
    pub open spec fn entered(
        info: StoredRoomView,
        crypto: Option<RoomCryptoView>,
        key: Option<Seq<u8>>,
        members: Set<Seq<char>>,
        read_only: bool,
    ) -> Self {
        RoomView {
            info,
            crypto,
            key,
            members,
            typers: Map::empty(),
            read_only,
            codes: Seq::empty(),
            kem_ciphertext: None,
            is_hybrid: false,
            key_retry: 0,
        }
    }
}

impl ActiveRoom {
    fn enter(
        info: StoredRoom,
        crypto: Option<RoomCrypto>,
        passphrase_key: Option<[u8; KEY_LEN]>,
        members: StrSet,
        read_only: bool,
    ) -> (r: Self)
        ensures
            r@ == RoomView::entered(
                info@,
                crypto_view(crypto),
                key_view(passphrase_key),
                members@,
                read_only,
            ),
    {
        let r = ActiveRoom {
            info,
            crypto,
            passphrase_key,
            members,
            typers: StrMap::new(),
            read_only,
            issued_codes: Vec::new(),
            dm_kem_ciphertext: None,
            dm_is_hybrid: false,
            dm_key_retry: 0,
        };
        assert(r@.codes =~= Seq::<(Seq<char>, i64)>::empty());
        r
    }
}

// ---------------------------------------------------------------------------------------------
// The application
// ---------------------------------------------------------------------------------------------

/// What the application holds in memory.
pub struct AppHandle {
    identity: Identity,
    active_rooms: StrMap<ActiveRoom>,
    discovered_rooms: StrMap<DiscoveredRoom>,
    restorable_rooms: StrMap<StoredRoom>,
    connected_dial_addrs: StrMap<String>,
    file_manager: FileManager,
    session_persist_key: [u8; 32],
    sas: SasActor,
    pending_code_secrets: StrMap<[u8; 32]>,
    pending_invite_dials: StrMap<String>,
    nat_reachable_addrs: Vec<String>,
    relay_circuit_addrs: Vec<String>,
    host_addr_dial_attempts: StrMap<i64>,
    key_request_cooldown: StrMap<i64>,
    announce_on_request_cooldown: StrMap<i64>,
    last_profile_broadcast_at_ms: StrMap<i64>,
    pending_auto_dm_addrs: StrSet,
    aux_subscriptions: StrSet,
    room_salts: StrMap<Vec<u8>>,
    transport_order: Vec<String>,
    server_enabled: bool,
    peer_capabilities: StrMap<u64>,
    our_capabilities: u64,
    cancelled_files: PairMap<()>,
}

/// What the application holds in memory, as contracts speak of it.
#[verifier::ext_equal]
pub struct AppView {
    pub identity: IdentityView,
    /// The rooms that we are in, by their ids.
    pub rooms: Map<Seq<char>, RoomView>,
    /// The rooms that were announced, by their ids.
    pub discovered: Map<Seq<char>, DiscoveredView>,
    /// The rooms on disk that wait for their passphrase, by their ids.
    pub restorable: Map<Seq<char>, StoredRoomView>,
    /// The addresses that are connected, and the peers behind them.
    pub connected: Map<Seq<char>, Seq<char>>,
    pub files: ManagerView,
    /// The key under which sessions are kept on disk.
    pub persist_key: Seq<u8>,
    pub sas: SasView,
    /// The secrets with which we wait to be let into rooms by a code.
    pub code_secrets: Map<Seq<char>, Seq<u8>>,
    /// The addresses that were dialed for an invite, and the fingerprints it claims.
    pub invite_dials: Map<Seq<char>, Seq<char>>,
    /// Our addresses that others can reach.
    pub reachable: Seq<Seq<char>>,
    /// Our addresses at relays.
    pub relayed: Seq<Seq<char>>,
    /// When we last dialed an announcer.
    pub host_dials: Map<Seq<char>, i64>,
    /// When we last asked the members of a room for their keys.
    pub key_requests: Map<Seq<char>, i64>,
    /// When we last announced ourselves in a room because we were asked to.
    pub answers: Map<Seq<char>, i64>,
    /// When we last told a peer our name, in milliseconds.
    pub profiles_sent: Map<Seq<char>, i64>,
    /// The addresses that the user dialed.
    pub auto_dm: Set<Seq<char>>,
    /// The rooms that we listen to without being in them.
    pub aux: Set<Seq<char>>,
    /// The salts of rooms that were announced.
    pub salts: Map<Seq<char>, Seq<u8>>,
    /// The ways to the relay, in the order in which they are tried.
    pub order: Seq<Seq<char>>,
    /// There is a relay to connect to.
    pub server_enabled: bool,
    /// What peers said that they can do.
    pub capabilities: Map<Seq<char>, u64>,
    /// What we can do, as we tell others.
    pub our_capabilities: u64,
    /// The files that the user gave up, by their rooms and ids.
    pub cancelled: Set<(Seq<char>, Seq<char>)>,
}

impl View for AppHandle {
    type V = AppView;

    closed spec fn view(&self) -> AppView {
        AppView {
            identity: self.identity@,
            rooms: strmap::views(self.active_rooms@),
            discovered: strmap::views(self.discovered_rooms@),
            restorable: strmap::views(self.restorable_rooms@),
            connected: strmap::views(self.connected_dial_addrs@),
            files: self.file_manager@,
            persist_key: self.session_persist_key@,
            sas: self.sas@,
            code_secrets: strmap::views(self.pending_code_secrets@),
            invite_dials: strmap::views(self.pending_invite_dials@),
            reachable: text::texts(self.nat_reachable_addrs@),
            relayed: text::texts(self.relay_circuit_addrs@),
            host_dials: self.host_addr_dial_attempts@,
            key_requests: self.key_request_cooldown@,
            answers: self.announce_on_request_cooldown@,
            profiles_sent: self.last_profile_broadcast_at_ms@,
            auto_dm: self.pending_auto_dm_addrs@,
            aux: self.aux_subscriptions@,
            salts: strmap::views(self.room_salts@),
            order: text::texts(self.transport_order@),
            server_enabled: self.server_enabled,
            capabilities: self.peer_capabilities@,
            our_capabilities: self.our_capabilities,
            cancelled: self.cancelled_files@.dom(),
        }
    }
}

impl AppView {
    pub open spec fn our_fp(self) -> Seq<char> {
        self.identity.fingerprint
    }

    /// Every room stands under its id and is in order, and so does every announcement.
    pub open spec fn wf(self) -> bool {
        &&& self.identity.wf()
        &&& self.files.wf()
        &&& self.sas.wf()
        &&& self.persist_key.len() == 32
        &&& self.rooms.dom().finite()
        &&& forall|id: Seq<char>| #[trigger]
            self.rooms.dom().contains(id) ==> self.rooms[id].wf() && self.rooms[id].info.id == id
        &&& forall|id: Seq<char>| #[trigger]
            self.discovered.dom().contains(id) ==> self.discovered[id].room_id == id
    }

    pub open spec fn with_room(self, id: Seq<char>, room: RoomView) -> Self {
        AppView { rooms: self.rooms.insert(id, room), ..self }
    }

    pub open spec fn without_room(self, id: Seq<char>) -> Self {
        AppView { rooms: self.rooms.remove(id), ..self }
    }
}

impl AppHandle {
    /// The state with which a session begins: no room is entered yet. `our_capabilities` is what we tell
    /// others that we can do.
    pub fn new(
        identity: Identity,
        data_dir: &str,
        session_persist_key: [u8; 32],
        transport_order: Vec<String>,
        server_enabled: bool,
        our_capabilities: u64,
    ) -> (r: Self)
        requires
            identity@.wf(),
        ensures
            r@.wf(),
            r@.identity == identity@,
            r@.rooms == Map::<Seq<char>, RoomView>::empty(),
            r@.discovered == Map::<Seq<char>, DiscoveredView>::empty(),
            r@.restorable == Map::<Seq<char>, StoredRoomView>::empty(),
            r@.connected == Map::<Seq<char>, Seq<char>>::empty(),
            r@.files == (ManagerView {
                cache_dir: data_dir@ + "/files/cache"@,
                incoming: Map::empty(),
                tick: 0,
            }),
            r@.persist_key == session_persist_key@,
            r@.sas == (SasView {
                flows: Map::empty(),
                our_fingerprint: identity@.fingerprint,
                our_ek: crate::crypto::primitives::mlkem_public(
                    crate::crypto::pqc::mlkem_seed(identity@.seed),
                ),
            }),
            r@.code_secrets == Map::<Seq<char>, Seq<u8>>::empty(),
            r@.invite_dials == Map::<Seq<char>, Seq<char>>::empty(),
            r@.reachable == Seq::<Seq<char>>::empty(),
            r@.relayed == Seq::<Seq<char>>::empty(),
            r@.host_dials == Map::<Seq<char>, i64>::empty(),
            r@.key_requests == Map::<Seq<char>, i64>::empty(),
            r@.answers == Map::<Seq<char>, i64>::empty(),
            r@.profiles_sent == Map::<Seq<char>, i64>::empty(),
            r@.auto_dm == Set::<Seq<char>>::empty(),
            r@.aux == Set::<Seq<char>>::empty(),
            r@.salts == Map::<Seq<char>, Seq<u8>>::empty(),
            r@.order == text::texts(transport_order@),
            r@.server_enabled == server_enabled,
            r@.capabilities == Map::<Seq<char>, u64>::empty(),
            r@.our_capabilities == our_capabilities,
            r@.cancelled == Set::<(Seq<char>, Seq<char>)>::empty(),
    {
        let sas = SasActor::new(text::owned(identity.fingerprint()), identity.mlkem_public_bytes());
        let r = AppHandle {
            identity,
            active_rooms: StrMap::new(),
            discovered_rooms: StrMap::new(),
            restorable_rooms: StrMap::new(),
            connected_dial_addrs: StrMap::new(),
            file_manager: FileManager::new(data_dir),
            session_persist_key,
            sas,
            pending_code_secrets: StrMap::new(),
            pending_invite_dials: StrMap::new(),
            nat_reachable_addrs: Vec::new(),
            relay_circuit_addrs: Vec::new(),
            host_addr_dial_attempts: StrMap::new(),
            key_request_cooldown: StrMap::new(),
            announce_on_request_cooldown: StrMap::new(),
            last_profile_broadcast_at_ms: StrMap::new(),
            pending_auto_dm_addrs: StrSet::new(),
            aux_subscriptions: StrSet::new(),
            room_salts: StrMap::new(),
            transport_order,
            server_enabled,
            peer_capabilities: StrMap::new(),
            our_capabilities,
            cancelled_files: PairMap::new(),
        };
        proof {
            assert(r@.rooms =~= Map::<Seq<char>, RoomView>::empty());
            assert(r@.discovered =~= Map::<Seq<char>, DiscoveredView>::empty());
            assert(r@.restorable =~= Map::<Seq<char>, StoredRoomView>::empty());
            assert(r@.connected =~= Map::<Seq<char>, Seq<char>>::empty());
            assert(r@.code_secrets =~= Map::<Seq<char>, Seq<u8>>::empty());
            assert(r@.invite_dials =~= Map::<Seq<char>, Seq<char>>::empty());
            assert(r@.salts =~= Map::<Seq<char>, Seq<u8>>::empty());
            assert(r@.cancelled =~= Set::<(Seq<char>, Seq<char>)>::empty());
            assert(r@.reachable =~= Seq::<Seq<char>>::empty());
            assert(r@.relayed =~= Seq::<Seq<char>>::empty());
        }
        r
    }

    pub fn fingerprint(&self) -> (r: &str)
        ensures
            r@ == self@.our_fp(),
    {
        self.identity.fingerprint()
    }

    pub fn peer_id(&self) -> (r: &str)
        ensures
            r@ == self@.identity.peer_id,
    {
        self.identity.peer_id()
    }

    pub fn server_enabled(&self) -> (r: bool)
        ensures
            r == self@.server_enabled,
    {
        self.server_enabled
    }

    /// Takes a room out, to change it.
    fn take_room(&mut self, room_id: &str) -> (r: Option<ActiveRoom>)
        ensures
            match r {
                Some(room) => old(self)@.rooms.dom().contains(room_id@) && room@ == old(
                    self,
                )@.rooms[room_id@] && final(self)@ == old(self)@.without_room(room_id@),
                None => !old(self)@.rooms.dom().contains(room_id@) && final(self)@ == old(self)@,
            },
    {
        let ghost before = self@;
        let r: Option<ActiveRoom> = self.active_rooms.remove(room_id);
        proof {
            assert(self@.rooms =~= before.rooms.remove(room_id@));
            assert(self@ =~= before.without_room(room_id@));
            if r is None {
                assert(before.rooms.remove(room_id@) =~= before.rooms);
                assert(self@ =~= before);
            }
        }
        r
    }

    /// Puts a room in, in place of one with the same id.
    fn put_room(&mut self, room_id: &str, room: ActiveRoom)
        ensures
            final(self)@ == old(self)@.with_room(room_id@, room@),
    {
        let ghost before = self@;
        let ghost v = room@;
        self.active_rooms.insert(text::owned(room_id), room);
        proof {
            assert(self@.rooms =~= before.rooms.insert(room_id@, v));
            assert(self@ =~= before.with_room(room_id@, v));
        }
    }

    /// Drops a room, if it is there.
    fn drop_room(&mut self, room_id: &str)
        ensures
            final(self)@ == old(self)@.without_room(room_id@),
            old(self)@.wf() ==> final(self)@.wf(),
    {
        let ghost before = self@;
        let gone: Option<ActiveRoom> = self.take_room(room_id);
        proof {
            if gone is None {
                assert(before.rooms.remove(room_id@) =~= before.rooms);
                assert(before.without_room(room_id@) =~= before);
            } else {
                lemma_put_back(before, room_id@, gone->0@);
            }
        }
    }

    /// Takes a room from those that wait for their passphrase.
    fn unpark(&mut self, room_id: &str)
        ensures
            final(self)@ == (AppView {
                restorable: old(self)@.restorable.remove(room_id@),
                ..old(self)@
            }),
            old(self)@.wf() ==> final(self)@.wf(),
    {
        let ghost before = self@;
        let gone: Option<StoredRoom> = self.restorable_rooms.remove(room_id);
        proof {
            assert(self@.restorable =~= before.restorable.remove(room_id@));
            assert(self@ =~= AppView {
                restorable: before.restorable.remove(room_id@),
                ..before
            });
        }
    }

    /// Hands over what is to be written to the store of the sessions of a room.
    pub fn take_session_writes(&mut self, room_id: &str) -> (r: Vec<SessionWrite>)
        requires
            old(self)@.wf(),
        ensures
            final(self)@.wf(),
            match (if old(self)@.rooms.dom().contains(room_id@) {
                old(self)@.rooms[room_id@].crypto
            } else {
                None
            }) {
                Some(c) => crate::crypto::megolm::write_views(r@) == c.writes && final(self)@ == old(
                    self,
                )@.with_room(
                    room_id@,
                    RoomView {
                        crypto: Some(RoomCryptoView { writes: Seq::empty(), ..c }),
                        ..old(self)@.rooms[room_id@]
                    },
                ),
                None => r@.len() == 0 && final(self)@ == old(self)@,
            },
    {
        let ghost before = self@;
        match self.take_room(room_id) {
            None => Vec::new(),
            Some(mut room) => {
                let mut writes: Vec<SessionWrite> = Vec::new();
                match room.crypto {
                    None => {},
                    Some(mut c) => {
                        writes = c.take_writes();
                        room.crypto = Some(c);
                    },
                }
                self.put_room(room_id, room);
                proof {
                    lemma_put_back(before, room_id@, room@);
                }
                writes
            },
        }
    }
}

/// A room that was taken out and put back changes nothing else.
proof fn lemma_put_back(app: AppView, id: Seq<char>, room: RoomView)
    requires
        app.rooms.dom().contains(id),
    ensures
        app.without_room(id).with_room(id, room) == app.with_room(id, room),
        app.without_room(id).with_room(id, app.rooms[id]) == app,
        app.wf() && room.wf() && room.info.id == id ==> app.with_room(id, room).wf(),
        app.wf() ==> app.without_room(id).wf(),
{
    assert(app.rooms.remove(id).insert(id, room) =~= app.rooms.insert(id, room));
    assert(app.rooms.remove(id).insert(id, app.rooms[id]) =~= app.rooms);
    assert(app.without_room(id).with_room(id, app.rooms[id]) =~= app);
}

} // verus!
