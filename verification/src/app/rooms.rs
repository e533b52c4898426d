//! Entering and leaving rooms.
//!
//! Entering a room takes two steps. The first plans it and says what has to be stored; the second,
//! once that is stored, makes the room one that we are in.
use crate::app::addresses;
use crate::app::effects::{self, Effect, EffectView, Write, WriteView};
use crate::app::events::{AppEvent, EventView, RoomKind};
use crate::app::ids;
use crate::app::messages::{AnnouncementView, MessageView, RoomAnnouncement, RoomMessage};
use crate::app::records::{MemberView, StoredRoom, StoredRoomMember, StoredRoomView};
use crate::app::{ActiveRoom, AppHandle, AppView, RoomView};
use crate::bytes;
use crate::crypto::megolm::{self, RoomCrypto, RoomCryptoView, StoredMegolmSession};
use crate::crypto::passphrase::{self, KEY_LEN, SALT_LEN};
use crate::crypto::pqc::MLKEM_EK_LEN;
use crate::crypto::primitives;
use crate::error::{ErrorView, HuddleError};
use crate::strmap::StrSet;
use crate::text;
use vstd::prelude::*;

verus! {

/// How many milliseconds pass before we announce ourselves in a room that we entered, so that the
/// subscription is there first.
pub const ANNOUNCE_DELAY_MS: u64 = 500;

/// How many salts of announced rooms are remembered.
pub const ROOM_SALT_CACHE_CAP: usize = 4096;

/// A room that is about to be entered, with its key.
pub struct RoomPlan {
    pub info: StoredRoom,
    pub key: Option<[u8; KEY_LEN]>,
}

/// A room that is about to be entered, as contracts speak of it.
pub struct PlanView {
    pub info: StoredRoomView,
    pub key: Option<Seq<u8>>,
}

impl View for RoomPlan {
    type V = PlanView;

    open spec fn view(&self) -> PlanView {
        PlanView { info: self.info@, key: super::key_view(self.key) }
    }
}

/// What a session begins with: a new outbound session and nothing else.
pub open spec fn fresh_crypto(
    c: RoomCryptoView,
    room_id: Seq<char>,
    our_fp: Seq<char>,
    persist_key: Seq<u8>,
) -> bool {
    &&& c.wf()
    &&& c.is_unused()
    &&& c.room_id == room_id
    &&& c.our_fingerprint == our_fp
    &&& c.persist_key == persist_key
    &&& c.inbound == Map::<(Seq<char>, Seq<char>), Seq<char>>::empty()
    &&& c.messages_since_rotation == 0
    &&& c.writes == seq![c.outbound_row(c.last_rotation_at)]
}

/// The sessions of a room as it is entered: none in the clear, the stored ones where there are any,
/// new ones otherwise.
pub open spec fn entry_crypto(
    c: Option<RoomCryptoView>,
    encrypted: bool,
    room_id: Seq<char>,
    our_fp: Seq<char>,
    persist_key: Seq<u8>,
    rows: Seq<megolm::StoredSessionView>,
    rotation: Option<(u32, i64)>,
) -> bool {
    if !encrypted {
        c is None
    } else {
        c is Some && ({
            let c = c->0;
            match megolm::stored_outbound(rows, persist_key) {
                None => fresh_crypto(c, room_id, our_fp, persist_key),
                Some(outbound) => {
                    &&& c.wf()
                    &&& c.room_id == room_id
                    &&& c.our_fingerprint == our_fp
                    &&& c.persist_key == persist_key
                    &&& c.outbound == outbound
                    &&& c.inbound == megolm::stored_inbound(rows, persist_key)
                    &&& c.writes == Seq::<megolm::SessionWriteView>::empty()
                    &&& match rotation {
                        Some(r) => c.messages_since_rotation == r.0 && c.last_rotation_at == r.1,
                        None => c.messages_since_rotation == 0,
                    }
                },
            }
        })
    }
}

/// The sessions of a room as it is entered, from what is stored of them.
fn crypto_for(
    encrypted: bool,
    room_id: &str,
    our_fp: &str,
    persist_key: &[u8; 32],
    rows: &Vec<StoredMegolmSession>,
    rotation: Option<(u32, i64)>,
) -> (r: Option<RoomCrypto>)
    ensures
        entry_crypto(
            super::crypto_view(r),
            encrypted,
            room_id@,
            our_fp@,
            persist_key@,
            megolm::row_views(rows@),
            rotation,
        ),
{
    if !encrypted {
        return None;
    }
    match RoomCrypto::load(rows, text::owned(room_id), text::owned(our_fp), *persist_key) {
        Some(mut c) => {
            match rotation {
                Some((count, at)) => {
                    c.restore_rotation_state(count, at);
                },
                None => {},
            }
            Some(c)
        },
        None => match RoomCrypto::new_for_room(
            text::owned(room_id),
            text::owned(our_fp),
            *persist_key,
        ) {
            Ok(c) => Some(c),
            Err(_) => None,
        },
    }
}

/// The row of ours among the members of a room.
pub open spec fn own_row(id: AppView, room_id: Seq<char>, role: Seq<char>, now: i64) -> WriteView {
    WriteView::Member(
        MemberView {
            room_id,
            peer_id: ""@,
            fingerprint: id.our_fp(),
            last_seen: Some(now),
            verified: true,
            ed25519_pubkey: Some(primitives::base64_text(id.identity.public)),
            role,
            mlkem_pubkey: None,
        },
    )
}

impl AppView {
    /// What a room looks like that we create, or why we cannot.
    pub open spec fn room_started(
        self,
        room_id: Seq<char>,
        name: Seq<char>,
        encrypted: bool,
        passphrase: Option<Seq<char>>,
        kind: RoomKind,
        salt: Seq<u8>,
        now: i64,
    ) -> Result<PlanView, ErrorView> {
        if encrypted && passphrase is None {
            Err(ErrorView::Other("encrypted room requires a passphrase"@))
        } else if passphrase is Some && ids::passphrase_fault(passphrase->0) is Some {
            Err(ids::passphrase_fault(passphrase->0)->0)
        } else {
            let info = StoredRoomView {
                id: room_id,
                name,
                creator_fingerprint: self.our_fp(),
                encrypted,
                passphrase_salt: if encrypted {
                    Some(salt)
                } else {
                    None
                },
                created_at: now,
                last_active: Some(now),
                kind,
            };
            if !encrypted {
                Ok(PlanView { info, key: None })
            } else {
                match passphrase::key_of(passphrase->0, salt) {
                    Ok(key) => Ok(PlanView { info, key: Some(key) }),
                    Err(e) => Err(e),
                }
            }
        }
    }

    /// The chat with a partner that is not on disk yet.
    pub open spec fn direct_started(self, partner: Seq<char>, now: i64) -> StoredRoomView {
        let room_id = ids::dm_room_id(self.our_fp(), partner);
        StoredRoomView {
            id: room_id,
            name: "dm-"@ + ids::short_name(partner),
            creator_fingerprint: self.our_fp(),
            encrypted: true,
            passphrase_salt: Some(ids::dm_digest(self.our_fp(), partner)),
            created_at: now,
            last_active: Some(now),
            kind: RoomKind::Direct,
        }
    }

    /// The state after a room was entered.
    pub open spec fn entered(
        self,
        plan: PlanView,
        crypto: Option<RoomCryptoView>,
        members: Set<Seq<char>>,
        read_only: bool,
    ) -> Self {
        self.with_room(
            plan.info.id,
            RoomView::entered(plan.info, crypto, plan.key, members, read_only),
        )
    }

    /// What entering a room causes: we listen, say that the room is there, and who we are in it.
    pub open spec fn entry_effects(info: StoredRoomView, count: u32) -> Seq<EffectView> {
        seq![
            EffectView::Subscribe { room_id: info.id },
            EffectView::AnnounceRoom(info, count),
            EffectView::AnnounceMember { room_id: info.id, delay_ms: ANNOUNCE_DELAY_MS },
            EffectView::Emit(EventView::RoomJoined { room_id: info.id }),
        ]
    }
}

/// A plan or an error, by their views.
pub open spec fn plan_view(r: Result<RoomPlan, HuddleError>) -> Result<PlanView, ErrorView> {
    match r {
        Ok(p) => Ok(p@),
        Err(e) => Err(e@),
    }
}

/// Writes by their views.
pub open spec fn writes(w: Seq<Write>) -> Seq<WriteView> {
    w.map_values(|x: Write| x@)
}

/// How a chat with a partner begins.
pub enum DirectStart {
    /// We are in it already.
    Open,
    /// It is on disk, and has to be entered (`AppHandle::enter_direct`).
    Stored,
    /// It is new: what it needs has to be stored, and then it has to be entered
    /// (`AppHandle::enter_started`).
    New(RoomPlan),
}

pub enum DirectStartView {
    Open,
    Stored,
    New(PlanView),
}

impl View for DirectStart {
    type V = DirectStartView;

    open spec fn view(&self) -> DirectStartView {
        match self {
            DirectStart::Open => DirectStartView::Open,
            DirectStart::Stored => DirectStartView::Stored,
            DirectStart::New(p) => DirectStartView::New(p@),
        }
    }
}

/// What is done at startup with a room that is on disk.
#[derive(Debug)]
pub enum Restore {
    /// Enter the chat with this partner.
    Direct(String),
    /// It has to wait for its passphrase, or for its partner.
    Park,
    /// Enter it: it is not encrypted.
    Open,
}

pub enum RestoreView {
    Direct(Seq<char>),
    Park,
    Open,
}

impl View for Restore {
    type V = RestoreView;

    open spec fn view(&self) -> RestoreView {
        match self {
            Restore::Direct(p) => RestoreView::Direct(p@),
            Restore::Park => RestoreView::Park,
            Restore::Open => RestoreView::Open,
        }
    }
}

/// The first of the fingerprints that is not ours.
pub open spec fn other_than(fingerprints: Seq<Seq<char>>, ours: Seq<char>) -> Option<Seq<char>>
    decreases fingerprints.len(),
{
    if fingerprints.len() == 0 {
        None
    } else if fingerprints[0] != ours {
        Some(fingerprints[0])
    } else {
        other_than(fingerprints.skip(1), ours)
    }
}

fn find_other(fingerprints: &Vec<String>, ours: &str) -> (r: Option<String>)
    ensures
        text::opt(r) == other_than(text::texts(fingerprints@), ours@),
{
    let ghost all = text::texts(fingerprints@);
    let mut i: usize = 0;
    assert(all.skip(0) =~= all);
    while i < fingerprints.len()
        invariant
            i <= fingerprints@.len(),
            all == text::texts(fingerprints@),
            other_than(all, ours@) == other_than(all.skip(i as int), ours@),
        decreases fingerprints@.len() - i,
    {
        assert(all.skip(i as int)[0] == fingerprints@[i as int]@);
        assert(all.skip(i as int).skip(1) =~= all.skip(i + 1));
        if !text::same(fingerprints[i].as_str(), ours) {
            return Some(fingerprints[i].clone());
        }
        i = i + 1;
    }
    None
}

/// Where a room that we want to join is known from.
pub struct RoomSource {
    pub name: Seq<char>,
    pub creator: Seq<char>,
    pub encrypted: bool,
    pub salt: Option<Seq<u8>>,
}

impl AppView {
    /// The salt of a room: of the one that we are in, or as it was announced.
    pub open spec fn salt_of(self, room_id: Seq<char>) -> Option<Seq<u8>> {
        if self.rooms.dom().contains(room_id) && self.rooms[room_id].info.passphrase_salt is Some {
            self.rooms[room_id].info.passphrase_salt
        } else if self.salts.dom().contains(room_id) {
            Some(self.salts[room_id])
        } else {
            None
        }
    }

    /// What is known of a room: from an announcement, from the rooms that wait, or from disk.
    pub open spec fn source_of(self, room_id: Seq<char>, stored: Option<StoredRoomView>) -> Option<
        RoomSource,
    > {
        if self.discovered.dom().contains(room_id) {
            let d = self.discovered[room_id];
            Some(
                RoomSource {
                    name: d.name,
                    creator: d.creator_fingerprint,
                    encrypted: d.encrypted,
                    salt: self.salt_of(room_id),
                },
            )
        } else {
            match (if self.restorable.dom().contains(room_id) {
                Some(self.restorable[room_id])
            } else {
                stored
            }) {
                Some(s) => Some(
                    RoomSource {
                        name: s.name,
                        creator: s.creator_fingerprint,
                        encrypted: s.encrypted,
                        salt: s.passphrase_salt,
                    },
                ),
                None => None,
            }
        }
    }

    pub open spec fn kind_of(self, room_id: Seq<char>, stored: Option<StoredRoomView>) -> RoomKind {
        if self.discovered.dom().contains(room_id) {
            self.discovered[room_id].kind
        } else {
            match stored {
                Some(s) => s.kind,
                None => RoomKind::Group,
            }
        }
    }

    /// What a room looks like that we join, or why we cannot.
    pub open spec fn room_joined(
        self,
        room_id: Seq<char>,
        passphrase: Option<Seq<char>>,
        stored: Option<StoredRoomView>,
        now: i64,
    ) -> Result<PlanView, ErrorView> {
        match self.source_of(room_id, stored) {
            None => Err(ErrorView::Other("room "@ + room_id + " not found"@)),
            Some(source) => {
                let info = StoredRoomView {
                    id: room_id,
                    name: source.name,
                    creator_fingerprint: source.creator,
                    encrypted: source.encrypted,
                    passphrase_salt: source.salt,
                    created_at: now,
                    last_active: Some(now),
                    kind: self.kind_of(room_id, stored),
                };
                if !source.encrypted {
                    Ok(PlanView { info, key: None })
                } else if passphrase is None {
                    Err(ErrorView::Other("encrypted room requires a passphrase"@))
                } else if source.salt is None {
                    Err(ErrorView::Other("missing salt for encrypted room"@))
                } else {
                    match passphrase::key_of(passphrase->0, source.salt->0) {
                        Ok(key) => Ok(PlanView { info, key: Some(key) }),
                        Err(e) => Err(e),
                    }
                }
            },
        }
    }

    /// How a chat with a partner begins, or why it does not.
    pub open spec fn direct_begun(self, partner: Seq<char>, on_disk: bool, now: i64) -> Result<
        DirectStartView,
        ErrorView,
    > {
        if partner == self.our_fp() {
            Err(ErrorView::Other("cannot DM yourself"@))
        } else if self.rooms.dom().contains(ids::dm_room_id(self.our_fp(), partner)) {
            Ok(DirectStartView::Open)
        } else if on_disk {
            Ok(DirectStartView::Stored)
        } else {
            Ok(
                DirectStartView::New(
                    PlanView { info: self.direct_started(partner, now), key: None },
                ),
            )
        }
    }

    /// What beginning a chat causes before it is entered: its messages go straight to the partner, who
    /// is put into the address book. A chat that we are in is shown.
    pub open spec fn direct_effects(
        self,
        partner: Seq<char>,
        pubkey_b64: Option<Seq<char>>,
        now: i64,
    ) -> Seq<EffectView> {
        let room_id = ids::dm_room_id(self.our_fp(), partner);
        seq![EffectView::RegisterDm { room_id, partner_fingerprint: partner }]
            + self.contact_effects(partner, "dm"@, pubkey_b64, now, false) + (
        if self.rooms.dom().contains(room_id) {
            seq![EffectView::Emit(EventView::RoomJoined { room_id })]
        } else {
            Seq::empty()
        })
    }

    /// What is done at startup with a room: a chat between two with a known partner and a room in
    /// the clear are entered, the others wait.
    pub open spec fn restoration(self, info: StoredRoomView, members: Seq<Seq<char>>) -> RestoreView {
        if !info.encrypted {
            RestoreView::Open
        } else if info.kind != RoomKind::Direct {
            RestoreView::Park
        } else {
            match other_than(members, self.our_fp()) {
                Some(partner) => RestoreView::Direct(partner),
                None => RestoreView::Park,
            }
        }
    }
}

impl AppView {
    /// What is stored of a room before it is entered: the room, and us among its members.
    pub open spec fn plan_writes(self, info: StoredRoomView, role: Seq<char>, now: i64) -> Seq<
        WriteView,
    > {
        seq![WriteView::Room(info), own_row(self, info.id, role, now)]
    }

    /// A room of our own is entered: we are alone in it.
    pub open spec fn started_entered(
        self,
        plan: PlanView,
        after: Self,
        eff: Seq<EffectView>,
    ) -> bool {
        eff == Self::entry_effects(plan.info, 1) && exists|c: Option<RoomCryptoView>| #[trigger]
            entry_crypto(
                c,
                plan.info.encrypted,
                plan.info.id,
                self.our_fp(),
                self.persist_key,
                Seq::empty(),
                None,
            ) && after == self.entered(plan, c, set![self.our_fp()], false)
    }

    /// A chat with a partner is entered that is on disk.
    pub open spec fn direct_entered(
        self,
        info: StoredRoomView,
        partner: Seq<char>,
        members: Seq<Seq<char>>,
        rows: Seq<megolm::StoredSessionView>,
        rotation: Option<(u32, i64)>,
        after: Self,
        eff: Seq<EffectView>,
    ) -> bool {
        eff == seq![
            EffectView::RegisterDm { room_id: info.id, partner_fingerprint: partner },
        ] + Self::entry_effects(info, 2) && exists|c: Option<RoomCryptoView>| #[trigger]
            entry_crypto(
                c,
                info.encrypted,
                info.id,
                self.our_fp(),
                self.persist_key,
                rows,
                rotation,
            ) && after == self.entered(
                PlanView { info, key: None },
                c,
                members.to_set().insert(partner).insert(self.our_fp()),
                false,
            )
    }

    /// A room of others is entered: who else is in it, and their keys, they have to say.
    pub open spec fn joined_entered(
        self,
        plan: PlanView,
        rows: Seq<megolm::StoredSessionView>,
        rotation: Option<(u32, i64)>,
        after: Self,
        eff: Seq<EffectView>,
    ) -> bool {
        eff == seq![
            EffectView::Subscribe { room_id: plan.info.id },
            EffectView::AnnounceMember { room_id: plan.info.id, delay_ms: ANNOUNCE_DELAY_MS },
            EffectView::RequestKeys { room_id: plan.info.id, delay_ms: ANNOUNCE_DELAY_MS },
            EffectView::Emit(EventView::RoomJoined { room_id: plan.info.id }),
        ] && exists|c: Option<RoomCryptoView>| #[trigger]
            entry_crypto(
                c,
                plan.info.encrypted,
                plan.info.id,
                self.our_fp(),
                self.persist_key,
                rows,
                rotation,
            ) && after == (AppView {
                restorable: self.restorable.remove(plan.info.id),
                ..self.entered(plan, c, set![self.our_fp()], false)
            })
    }

    /// The state with a room that has to wait.
    pub open spec fn parked(self, info: StoredRoomView) -> Self {
        AppView { restorable: self.restorable.insert(info.id, info), ..self }
    }

    /// A room in the clear is entered that is on disk.
    pub open spec fn open_entered(self, info: StoredRoomView, members: Seq<Seq<char>>) -> (
        Self,
        Seq<EffectView>,
    ) {
        let all = members.to_set().insert(self.our_fp());
        (
            self.entered(PlanView { info, key: None }, None, all, false),
            seq![
                EffectView::Subscribe { room_id: info.id },
                EffectView::AnnounceRoom(info, crate::app::ticker::counted(all.len())),
            ],
        )
    }

    /// The partner of a chat that is on disk and that we are not in.
    pub open spec fn dm_waiting(
        self,
        room_id: Seq<char>,
        stored: Option<StoredRoomView>,
        members: Seq<Seq<char>>,
    ) -> Option<Seq<char>> {
        match stored {
            Some(info) => if !self.rooms.dom().contains(room_id) && info.kind == RoomKind::Direct {
                other_than(members, self.our_fp())
            } else {
                None
            },
            None => None,
        }
    }

    /// We leave a room.
    pub open spec fn room_left(self, room_id: Seq<char>) -> (Self, Seq<EffectView>) {
        (
            self.without_room(room_id),
            seq![
                EffectView::PublishSigned {
                    room_id,
                    message: MessageView::MemberLeave {
                        sender_fingerprint: self.our_fp(),
                        room_id: Some(room_id),
                    },
                },
                EffectView::Unsubscribe { room_id },
                EffectView::Emit(EventView::RoomLeft { room_id }),
            ],
        )
    }

    /// A room as we announce it.
    pub open spec fn announcement(
        self,
        info: StoredRoomView,
        member_count: u32,
        owners: Seq<Seq<char>>,
        verified_only: bool,
        now: i64,
    ) -> AnnouncementView {
        AnnouncementView {
            room_id: info.id,
            name: info.name,
            encrypted: info.encrypted,
            passphrase_salt: info.passphrase_salt,
            member_count,
            creator_fingerprint: info.creator_fingerprint,
            announced_at: now,
            owner_fingerprints: owners,
            verified_only,
            host_addrs: addresses::offered(self.relayed, self.reachable),
            kind: info.kind,
            capabilities: self.our_capabilities,
        }
    }
}

/// The fingerprints as a set, ours among them.
fn member_set(ours: &str, others: &Vec<String>) -> (r: StrSet)
    ensures
        r@ == text::texts(others@).to_set().insert(ours@),
        r@.finite(),
{
    let mut set: StrSet = StrSet::new();
    set.insert(text::owned(ours));
    let ghost all = text::texts(others@);
    let mut i: usize = 0;
    assert(all.take(0).to_set() =~= Set::<Seq<char>>::empty());
    while i < others.len()
        invariant
            i <= others@.len(),
            all == text::texts(others@),
            set@ == all.take(i as int).to_set().insert(ours@),
        decreases others@.len() - i,
    {
        proof {
            let a = all.take(i as int);
            assert(all.take(i + 1) =~= a.push(all[i as int]));
            crate::strmap::lemma_push_contains(a, all[i as int]);
            assert(all.take(i + 1).to_set() =~= a.to_set().insert(all[i as int]));
            assert(a.to_set().insert(all[i as int]).insert(ours@) =~= a.to_set().insert(
                ours@,
            ).insert(all[i as int]));
        }
        set.insert(others[i].clone());
        i = i + 1;
    }
    assert(all.take(all.len() as int) =~= all);
    let n: usize = set.len();
    set
}

impl AppHandle {
    /// Plans a room of our own, with this id and this salt.
    pub fn plan_room(
        &self,
        room_id: &str,
        name: &str,
        encrypted: bool,
        passphrase: Option<&str>,
        kind: RoomKind,
        salt: [u8; SALT_LEN],
        now: i64,
    ) -> (r: Result<RoomPlan, HuddleError>)
        ensures
            plan_view(r) == self@.room_started(
                room_id@,
                name@,
                encrypted,
                text::opt_str(passphrase),
                kind,
                salt@,
                now,
            ),
    {
        let mut key: Option<[u8; KEY_LEN]> = None;
        match passphrase {
            None => {
                if encrypted {
                    return Err(crate::error::other_error("encrypted room requires a passphrase"));
                }
            },
            Some(p) => {
                match ids::validate_passphrase_len(p) {
                    Err(e) => {
                        return Err(e);
                    },
                    Ok(_) => {},
                }
                if encrypted {
                    match passphrase::derive_key(p, salt.as_slice()) {
                        Err(e) => {
                            return Err(e);
                        },
                        Ok(k) => {
                            key = Some(k);
                        },
                    }
                }
            },
        }
        let passphrase_salt: Option<Vec<u8>> = if encrypted {
            Some(bytes::to_vec(salt.as_slice()))
        } else {
            None
        };
        Ok(
            RoomPlan {
                info: StoredRoom {
                    id: text::owned(room_id),
                    name: text::owned(name),
                    creator_fingerprint: text::owned(self.identity.fingerprint()),
                    encrypted,
                    passphrase_salt,
                    created_at: now,
                    last_active: Some(now),
                    kind,
                },
                key,
            },
        )
    }

    /// Plans a room of our own under this id, with a salt drawn for it.
    pub fn start_room(
        &self,
        room_id: &str,
        name: &str,
        encrypted: bool,
        passphrase: Option<&str>,
        kind: RoomKind,
        now: i64,
    ) -> (r: Result<RoomPlan, HuddleError>)
        ensures
            exists|salt: Seq<u8>|
                salt.len() == SALT_LEN && plan_view(r) == #[trigger] self@.room_started(
                    room_id@,
                    name@,
                    encrypted,
                    text::opt_str(passphrase),
                    kind,
                    salt,
                    now,
                ),
    {
        self.plan_room(room_id, name, encrypted, passphrase, kind, passphrase::random_salt(), now)
    }

    /// What has to be stored before a room of our own is entered: the room, and us in it.
    pub fn room_writes(&self, plan: &RoomPlan, role: &str, now: i64) -> (r: Vec<Write>)
        ensures
            writes(r@) == self@.plan_writes(plan@.info, role@, now),
    {
        let public: [u8; 32] = self.identity.public_bytes();
        let mut out: Vec<Write> = Vec::new();
        out.push(Write::Room(plan.info.copy()));
        out.push(
            Write::Member(
                StoredRoomMember {
                    room_id: plan.info.id.clone(),
                    peer_id: text::owned(""),
                    fingerprint: text::owned(self.identity.fingerprint()),
                    last_seen: Some(now),
                    verified: true,
                    ed25519_pubkey: Some(primitives::base64_encode(public.as_slice())),
                    role: text::owned(role),
                    mlkem_pubkey: None,
                },
            ),
        );
        assert(writes(out@) =~= seq![out@[0]@, out@[1]@]);
        out
    }

    /// Makes a room one that we are in.
    fn install(
        &mut self,
        plan: RoomPlan,
        rows: &Vec<StoredMegolmSession>,
        rotation: Option<(u32, i64)>,
        members: &Vec<String>,
    )
        requires
            old(self)@.wf(),
        ensures
            final(self)@.wf(),
            exists|c: Option<RoomCryptoView>| #[trigger]
                entry_crypto(
                    c,
                    plan@.info.encrypted,
                    plan@.info.id,
                    old(self)@.our_fp(),
                    old(self)@.persist_key,
                    megolm::row_views(rows@),
                    rotation,
                ) && final(self)@ == old(self)@.entered(
                    plan@,
                    c,
                    text::texts(members@).to_set().insert(old(self)@.our_fp()),
                    false,
                ),
    {
        let ghost before = self@;
        let crypto: Option<RoomCrypto> = crypto_for(
            plan.info.encrypted,
            plan.info.id.as_str(),
            self.identity.fingerprint(),
            &self.session_persist_key,
            rows,
            rotation,
        );
        let ghost c = super::crypto_view(crypto);
        let set: StrSet = member_set(self.identity.fingerprint(), members);
        let id: String = plan.info.id.clone();
        let ghost v = plan@;
        let room: ActiveRoom = ActiveRoom::enter(plan.info, crypto, plan.key, set, false);
        self.put_room(id.as_str(), room);
        proof {
            assert(room@.wf());
            assert(entry_crypto(
                c,
                v.info.encrypted,
                v.info.id,
                before.our_fp(),
                before.persist_key,
                megolm::row_views(rows@),
                rotation,
            ));
            assert(self@ == before.entered(
                v,
                c,
                text::texts(members@).to_set().insert(before.our_fp()),
                false,
            ));
        }
    }

    /// Enters a room that we planned.
    pub fn enter_started(&mut self, plan: RoomPlan) -> (r: Vec<Effect>)
        requires
            old(self)@.wf(),
        ensures
            final(self)@.wf(),
            old(self)@.started_entered(plan@, final(self)@, effects::effects(r@)),
    {
        let info: StoredRoom = plan.info.copy();
        let rows: Vec<StoredMegolmSession> = Vec::new();
        let nobody: Vec<String> = Vec::new();
        proof {
            assert(megolm::row_views(rows@) =~= Seq::empty());
            assert(text::texts(nobody@).to_set().insert(self@.our_fp()) =~= set![self@.our_fp()]);
        }
        self.install(plan, &rows, None, &nobody);
        Self::entry(info, 1)
    }

    fn entry(info: StoredRoom, count: u32) -> (r: Vec<Effect>)
        ensures
            effects::effects(r@) == AppView::entry_effects(info@, count),
    {
        let mut out: Vec<Effect> = Vec::new();
        let id: String = info.id.clone();
        out.push(Effect::Subscribe { room_id: id.clone() });
        out.push(Effect::AnnounceRoom(info, count));
        out.push(Effect::AnnounceMember { room_id: id.clone(), delay_ms: ANNOUNCE_DELAY_MS });
        out.push(Effect::Emit(AppEvent::RoomJoined { room_id: id }));
        assert(effects::effects(out@) =~= seq![out@[0]@, out@[1]@, out@[2]@, out@[3]@]);
        out
    }

    /// How the chat with a partner begins, and what that causes before it is entered. `on_disk` says
    /// whether the chat is stored already, and `pubkey_b64` is what is on disk of the partner's key.
    pub fn start_direct(
        &self,
        partner_fingerprint: &str,
        on_disk: bool,
        pubkey_b64: Option<String>,
        now: i64,
    ) -> (r: Result<(Vec<Effect>, DirectStart), HuddleError>)
        ensures
            match (r, self@.direct_begun(partner_fingerprint@, on_disk, now)) {
                (Ok(begun), Ok(start)) => begun.1@ == start && effects::effects(begun.0@)
                    == self@.direct_effects(partner_fingerprint@, text::opt(pubkey_b64), now),
                (Err(e), Err(said)) => e@ == said,
                _ => false,
            },
    {
        match self.plan_direct(partner_fingerprint, on_disk, now) {
            Err(e) => Err(e),
            Ok(start) => {
                let room_id: String = ids::canonical_dm_room_id(
                    self.identity.fingerprint(),
                    partner_fingerprint,
                );
                let mut out: Vec<Effect> = Vec::new();
                out.push(
                    Effect::RegisterDm {
                        room_id: room_id.clone(),
                        partner_fingerprint: text::owned(partner_fingerprint),
                    },
                );
                assert(effects::effects(out@) =~= seq![out@[0]@]);
                let ghost first = effects::effects(out@);
                let mut more: Vec<Effect> = self.add_contact(
                    partner_fingerprint,
                    "dm",
                    pubkey_b64,
                    now,
                    false,
                );
                let ghost said = effects::effects(more@);
                out.append(&mut more);
                assert(effects::effects(out@) =~= first + said);
                if self.active_rooms.contains_key(room_id.as_str()) {
                    out.push(Effect::Emit(AppEvent::RoomJoined { room_id }));
                    assert(effects::effects(out@) =~= first + said + seq![out@.last()@]);
                } else {
                    assert(first + said =~= first + said + Seq::<EffectView>::empty());
                }
                Ok((out, start))
            },
        }
    }

    fn plan_direct(&self, partner_fingerprint: &str, on_disk: bool, now: i64) -> (r: Result<
        DirectStart,
        HuddleError,
    >)
        ensures
            crate::error::result_view(r) == self@.direct_begun(partner_fingerprint@, on_disk, now),
    {
        let ours: &str = self.identity.fingerprint();
        if text::same(partner_fingerprint, ours) {
            return Err(crate::error::other_error("cannot DM yourself"));
        }
        let room_id: String = ids::canonical_dm_room_id(ours, partner_fingerprint);
        if self.active_rooms.contains_key(room_id.as_str()) {
            return Ok(DirectStart::Open);
        }
        if on_disk {
            return Ok(DirectStart::Stored);
        }
        let short: String = ids::short_fp_for_msg(partner_fingerprint);
        let ghost digest = ids::dm_digest(ours@, partner_fingerprint@);
        let salt: Vec<u8> = match primitives::hex_decode(room_id.as_str()) {
            Some(b) => b,
            None => bytes::to_vec(room_id.as_str().as_bytes()),
        };
        proof {
            primitives::lemma_hex_text(digest, salt@);
            primitives::lemma_hex_text(salt@, digest);
        }
        Ok(
            DirectStart::New(
                RoomPlan {
                    info: StoredRoom {
                        id: room_id,
                        name: text::join2("dm-", short.as_str()),
                        creator_fingerprint: text::owned(ours),
                        encrypted: true,
                        passphrase_salt: Some(salt),
                        created_at: now,
                        last_active: Some(now),
                        kind: RoomKind::Direct,
                    },
                    key: None,
                },
            ),
        )
    }

    /// Enters a chat with a partner that is on disk. Its key waits for the partner's announcement.
    pub fn enter_direct(
        &mut self,
        info: StoredRoom,
        partner_fingerprint: &str,
        members: &Vec<String>,
        rows: &Vec<StoredMegolmSession>,
        rotation: Option<(u32, i64)>,
    ) -> (r: Vec<Effect>)
        requires
            old(self)@.wf(),
        ensures
            final(self)@.wf(),
            old(self)@.direct_entered(
                info@,
                partner_fingerprint@,
                text::texts(members@),
                megolm::row_views(rows@),
                rotation,
                final(self)@,
                effects::effects(r@),
            ),
    {
        let mut out: Vec<Effect> = Vec::new();
        out.push(
            Effect::RegisterDm {
                room_id: info.id.clone(),
                partner_fingerprint: text::owned(partner_fingerprint),
            },
        );
        let ghost first = effects::effects(out@);
        let mut everybody: Vec<String> = text::texts_copy(members);
        let ghost known = text::texts(everybody@);
        everybody.push(text::owned(partner_fingerprint));
        proof {
            assert(text::texts(everybody@) =~= known.push(partner_fingerprint@));
            crate::strmap::lemma_push_contains(known, partner_fingerprint@);
            assert(text::texts(everybody@).to_set() =~= known.to_set().insert(
                partner_fingerprint@,
            ));
        }
        let mut more: Vec<Effect> = Self::entry(info.copy(), 2);
        let ghost said = effects::effects(more@);
        out.append(&mut more);
        proof {
            assert(first =~= seq![
                EffectView::RegisterDm {
                    room_id: info@.id,
                    partner_fingerprint: partner_fingerprint@,
                },
            ]);
            assert(effects::effects(out@) =~= first + said);
        }
        self.install(RoomPlan { info, key: None }, rows, rotation, &everybody);
        out
    }

    /// Plans to join a room. `stored` is what is on disk of it.
    pub fn join_room(
        &self,
        room_id: &str,
        passphrase: Option<&str>,
        stored: Option<StoredRoom>,
        now: i64,
    ) -> (r: Result<RoomPlan, HuddleError>)
        ensures
            plan_view(r) == self@.room_joined(
                room_id@,
                text::opt_str(passphrase),
                crate::app::facts::room_opt(stored),
                now,
            ),
    {
        let mut kind: RoomKind = RoomKind::Group;
        let name: String;
        let creator: String;
        let encrypted: bool;
        let salt: Option<Vec<u8>>;
        match self.discovered_rooms.get(room_id) {
            Some(d) => {
                kind = d.kind;
                name = d.name.clone();
                creator = d.creator_fingerprint.clone();
                encrypted = d.encrypted;
                salt = self.get_room_salt(room_id);
            },
            None => {
                match &stored {
                    Some(s) => {
                        kind = s.kind;
                    },
                    None => {},
                }
                let source: Option<&StoredRoom> = match self.restorable_rooms.get(room_id) {
                    Some(s) => Some(s),
                    None => match &stored {
                        Some(s) => Some(s),
                        None => None,
                    },
                };
                match source {
                    None => {
                        return Err(
                            HuddleError::Other(text::join3("room ", room_id, " not found")),
                        );
                    },
                    Some(s) => {
                        name = s.name.clone();
                        creator = s.creator_fingerprint.clone();
                        encrypted = s.encrypted;
                        salt = bytes::opt_copy(&s.passphrase_salt);
                    },
                }
            },
        }
        let mut key: Option<[u8; KEY_LEN]> = None;
        if encrypted {
            let p: &str = match passphrase {
                None => {
                    return Err(crate::error::other_error("encrypted room requires a passphrase"));
                },
                Some(p) => p,
            };
            match &salt {
                None => {
                    return Err(crate::error::other_error("missing salt for encrypted room"));
                },
                Some(s) => match passphrase::derive_key(p, s.as_slice()) {
                    Err(e) => {
                        return Err(e);
                    },
                    Ok(k) => {
                        key = Some(k);
                    },
                },
            }
        }
        Ok(
            RoomPlan {
                info: StoredRoom {
                    id: text::owned(room_id),
                    name,
                    creator_fingerprint: creator,
                    encrypted,
                    passphrase_salt: salt,
                    created_at: now,
                    last_active: Some(now),
                    kind,
                },
                key,
            },
        )
    }

    /// Enters a room that we planned to join, with the sessions that are on disk.
    pub fn enter_joined(
        &mut self,
        plan: RoomPlan,
        rows: &Vec<StoredMegolmSession>,
        rotation: Option<(u32, i64)>,
    ) -> (r: Vec<Effect>)
        requires
            old(self)@.wf(),
        ensures
            final(self)@.wf(),
            old(self)@.joined_entered(
                plan@,
                megolm::row_views(rows@),
                rotation,
                final(self)@,
                effects::effects(r@),
            ),
    {
        let ghost before = self@;
        let ghost v = plan@;
        let id: String = plan.info.id.clone();
        let nobody: Vec<String> = Vec::new();
        assert(text::texts(nobody@).to_set().insert(self@.our_fp()) =~= set![self@.our_fp()]);
        self.install(plan, rows, rotation, &nobody);
        self.unpark(id.as_str());
        let mut out: Vec<Effect> = Vec::new();
        out.push(Effect::Subscribe { room_id: id.clone() });
        out.push(Effect::AnnounceMember { room_id: id.clone(), delay_ms: ANNOUNCE_DELAY_MS });
        out.push(Effect::RequestKeys { room_id: id.clone(), delay_ms: ANNOUNCE_DELAY_MS });
        out.push(Effect::Emit(AppEvent::RoomJoined { room_id: id }));
        assert(effects::effects(out@) =~= seq![out@[0]@, out@[1]@, out@[2]@, out@[3]@]);
        out
    }

    /// What is done at startup with a room that is on disk, with these members.
    pub fn restore_room(&self, info: &StoredRoom, members: &Vec<String>) -> (r: Restore)
        ensures
            r@ == self@.restoration(info@, text::texts(members@)),
    {
        if !info.encrypted {
            return Restore::Open;
        }
        if info.kind != RoomKind::Direct {
            return Restore::Park;
        }
        match find_other(members, self.identity.fingerprint()) {
            Some(partner) => Restore::Direct(partner),
            None => Restore::Park,
        }
    }

    /// Lets a room wait for its passphrase.
    pub fn park_room(&mut self, info: StoredRoom)
        requires
            old(self)@.wf(),
        ensures
            final(self)@.wf(),
            final(self)@ == old(self)@.parked(info@),
    {
        let ghost before = self@;
        let ghost v = info@;
        self.restorable_rooms.insert(info.id.clone(), info);
        proof {
            assert(self@.restorable =~= before.restorable.insert(v.id, v));
            assert(self@ =~= AppView { restorable: before.restorable.insert(v.id, v), ..before });
        }
    }

    /// Enters a room that is not encrypted, as it is on disk.
    pub fn enter_open(&mut self, info: StoredRoom, members: &Vec<String>) -> (r: Vec<Effect>)
        requires
            old(self)@.wf(),
            !info.encrypted,
        ensures
            final(self)@.wf(),
            (final(self)@, effects::effects(r@)) == old(self)@.open_entered(
                info@,
                text::texts(members@),
            ),
    {
        let rows: Vec<StoredMegolmSession> = Vec::new();
        let set: StrSet = member_set(self.identity.fingerprint(), members);
        let count: u32 = crate::app::ticker::count_of(set.len());
        let copy: StoredRoom = info.copy();
        self.install(RoomPlan { info, key: None }, &rows, None, members);
        let mut out: Vec<Effect> = Vec::new();
        out.push(Effect::Subscribe { room_id: copy.id.clone() });
        out.push(Effect::AnnounceRoom(copy, count));
        assert(effects::effects(out@) =~= seq![out@[0]@, out@[1]@]);
        out
    }

    /// The partner of a chat between two that is on disk and that we are not in: a message in it
    /// makes us enter it.
    pub fn dm_to_enter(&self, room_id: &str, stored: &Option<StoredRoom>, members: &Vec<String>) -> (r:
        Option<String>)
        ensures
            text::opt(r) == self@.dm_waiting(
                room_id@,
                crate::app::facts::room_opt(*stored),
                text::texts(members@),
            ),
    {
        match stored {
            None => None,
            Some(info) => {
                if !self.active_rooms.contains_key(room_id) && info.kind == RoomKind::Direct {
                    find_other(members, self.identity.fingerprint())
                } else {
                    None
                }
            },
        }
    }

    /// Leaves a room, and says so to the others.
    pub fn leave_room(&mut self, room_id: &str) -> (r: Vec<Effect>)
        requires
            old(self)@.wf(),
        ensures
            final(self)@.wf(),
            (final(self)@, effects::effects(r@)) == old(self)@.room_left(room_id@),
    {
        let ghost before = self@;
        let mut out: Vec<Effect> = Vec::new();
        out.push(
            Effect::PublishSigned {
                room_id: text::owned(room_id),
                message: RoomMessage::MemberLeave {
                    sender_fingerprint: text::owned(self.identity.fingerprint()),
                    room_id: Some(text::owned(room_id)),
                },
            },
        );
        self.drop_room(room_id);
        out.push(Effect::Unsubscribe { room_id: text::owned(room_id) });
        out.push(Effect::Emit(AppEvent::RoomLeft { room_id: text::owned(room_id) }));
        assert(effects::effects(out@) =~= seq![out@[0]@, out@[1]@, out@[2]@]);
        out
    }

    /// The salt of a room: of the one that we are in, or as it was announced.
    pub fn get_room_salt(&self, room_id: &str) -> (r: Option<Vec<u8>>)
        ensures
            bytes::opt(r) == self@.salt_of(room_id@),
    {
        match self.active_rooms.get(room_id) {
            Some(room) => match &room.info.passphrase_salt {
                Some(s) => {
                    return Some(bytes::to_vec(s.as_slice()));
                },
                None => {},
            },
            None => {},
        }
        match self.room_salts.get(room_id) {
            Some(s) => Some(bytes::to_vec(s.as_slice())),
            None => None,
        }
    }

    /// Remembers the salt of a room. Another one is forgotten for it where there are too many.
    pub fn remember_room_salt(&mut self, room_id: &str, salt: Vec<u8>)
        requires
            old(self)@.wf(),
        ensures
            final(self)@.wf(),
            final(self)@ == (AppView { salts: final(self)@.salts, ..old(self)@ }),
            salt_remembered(old(self)@.salts, room_id@, salt@, final(self)@.salts),
    {
        let ghost before = self@;
        let ghost v = salt@;
        let n: usize = self.room_salts.len();
        assert(before.salts.dom() =~= self.room_salts@.dom());
        let mut gone: bool = false;
        if n >= ROOM_SALT_CACHE_CAP && !self.room_salts.contains_key(room_id) {
            let first: String = text::owned(self.room_salts.key_at(0));
            proof {
                assert(self.room_salts.keys().contains(first@));
                assert(before.salts.dom().contains(first@));
            }
            self.room_salts.remove(first.as_str());
            gone = true;
            proof {
                let victim = first@;
                assert(crate::strmap::views(self.room_salts@) =~= before.salts.remove(victim));
            }
        }
        let ghost mid = crate::strmap::views(self.room_salts@);
        self.room_salts.insert(text::owned(room_id), salt);
        proof {
            assert(self@.salts =~= mid.insert(room_id@, v));
            assert(self@ =~= AppView { salts: self@.salts, ..before });
        }
    }

    /// What is said of a room to all who listen.
    pub fn room_announcement(
        &self,
        info: &StoredRoom,
        member_count: u32,
        owners: &Vec<String>,
        verified_only: bool,
        now: i64,
    ) -> (r: RoomAnnouncement)
        ensures
            r@ == self@.announcement(
                info@,
                member_count,
                text::texts(owners@),
                verified_only,
                now,
            ),
    {
        RoomAnnouncement {
            room_id: info.id.clone(),
            name: info.name.clone(),
            encrypted: info.encrypted,
            passphrase_salt: bytes::opt_copy(&info.passphrase_salt),
            member_count,
            creator_fingerprint: info.creator_fingerprint.clone(),
            announced_at: now,
            owner_fingerprints: text::texts_copy(owners),
            verified_only,
            host_addrs: addresses::dialable(&self.relay_circuit_addrs, &self.nat_reachable_addrs),
            kind: info.kind,
            capabilities: self.our_capabilities,
        }
    }

    /// What we say when we announce ourselves in a room: who we are, and our session key under the
    /// key of the room. In a chat between two that has no key yet, the session key is left out.
    pub fn member_announce(&self, room_id: &str, display_name: Option<String>) -> (r: Result<
        RoomMessage,
        HuddleError,
    >)
        requires
            self@.wf(),
        ensures
            announce_made(self@, room_id@, text::opt(display_name), crate::error::result_view(r)),
    {
        let room: &ActiveRoom = match self.active_rooms.get(room_id) {
            None => {
                return Err(crate::error::other_error("not in room"));
            },
            Some(room) => room,
        };
        let ghost v = self@.rooms[room_id@];
        assert(self@.rooms.dom().contains(room_id@));
        assert(v == room@);
        let direct: bool = room.info.kind == RoomKind::Direct;
        let mut wrapped: Option<String> = None;
        if room.info.encrypted {
            match &room.crypto {
                None => {},
                Some(c) => {
                    let session_key: String = c.our_session_key_b64();
                    match &room.passphrase_key {
                        Some(key) => match passphrase::wrap(session_key.as_str().as_bytes(), key) {
                            Ok(w) => {
                                wrapped = Some(w);
                            },
                            Err(e) => {
                                return Err(e);
                            },
                        },
                        None => {
                            if !direct {
                                return Err(crate::error::session_error("missing passphrase key"));
                            }
                        },
                    }
                },
            }
        }
        assert(key_wrapped(v, text::opt(wrapped)));
        let public: [u8; 32] = self.identity.public_bytes();
        let mut mlkem: Option<String> = None;
        let mut ciphertext: Option<String> = None;
        if direct {
            let ek: [u8; MLKEM_EK_LEN] = self.identity.mlkem_public_bytes();
            mlkem = Some(primitives::base64_encode(ek.as_slice()));
            ciphertext = text::opt_copy(&room.dm_kem_ciphertext);
        }
        Ok(
            RoomMessage::MemberAnnounce {
                sender_fingerprint: text::owned(self.identity.fingerprint()),
                wrapped_session_key: wrapped,
                display_name,
                sender_ed25519_pubkey: Some(primitives::base64_encode(public.as_slice())),
                sender_mlkem_pubkey: mlkem,
                mlkem_ciphertext: ciphertext,
                capabilities: self.our_capabilities,
            },
        )
    }
}

/// A salt is remembered, in place of any other one where there are too many.
pub open spec fn salt_remembered(
    before: Map<Seq<char>, Seq<u8>>,
    room_id: Seq<char>,
    salt: Seq<u8>,
    after: Map<Seq<char>, Seq<u8>>,
) -> bool {
    if before.dom().contains(room_id) || before.dom().len() < ROOM_SALT_CACHE_CAP {
        after == before.insert(room_id, salt)
    } else {
        exists|victim: Seq<char>| #[trigger]
            before.dom().contains(victim) && after == before.remove(victim).insert(room_id, salt)
    }
}

/// The announcement of ourselves in a room. The nonce under which the session key is wrapped is
/// drawn at random.
pub open spec fn announce_made(
    app: AppView,
    room_id: Seq<char>,
    display_name: Option<Seq<char>>,
    r: Result<MessageView, ErrorView>,
) -> bool {
    if !app.rooms.dom().contains(room_id) {
        r == Err::<MessageView, ErrorView>(ErrorView::Other("not in room"@))
    } else {
        let room = app.rooms[room_id];
        let direct = room.info.kind == RoomKind::Direct;
        if room.info.encrypted && room.key is None && !direct {
            r == Err::<MessageView, ErrorView>(ErrorView::Session("missing passphrase key"@))
        } else if room.info.encrypted && room.key is Some && vstd::utf8::encode_utf8(
            room.crypto->0.session_key(),
        ).len() >= primitives::SEAL_LIMIT {
            r == Err::<MessageView, ErrorView>(ErrorView::Session("wrap failed: aead::Error"@))
        } else {
            exists|wrapped: Option<Seq<char>>| #[trigger]
                key_wrapped(room, wrapped) && r == Ok::<MessageView, ErrorView>(
                    MessageView::MemberAnnounce {
                        sender_fingerprint: app.our_fp(),
                        wrapped_session_key: wrapped,
                        display_name,
                        sender_ed25519_pubkey: Some(primitives::base64_text(app.identity.public)),
                        sender_mlkem_pubkey: if direct {
                            Some(
                                primitives::base64_text(
                                    primitives::mlkem_public(
                                        crate::crypto::pqc::mlkem_seed(app.identity.seed),
                                    ),
                                ),
                            )
                        } else {
                            None
                        },
                        mlkem_ciphertext: if direct {
                            room.kem_ciphertext
                        } else {
                            None
                        },
                        capabilities: app.our_capabilities,
                    },
                )
        }
    }
}

/// Our session key of a room, wrapped under the key of the room: it unwraps to the session key, which any
/// member can take in.
pub open spec fn key_wrapped(room: RoomView, wrapped: Option<Seq<char>>) -> bool {
    if room.info.encrypted && room.key is Some {
        wrapped is Some && room.crypto->0.is_shareable() && passphrase::unwrapped(
            wrapped->0,
            room.key->0,
        ) == Ok::<
            Seq<u8>,
            ErrorView,
        >(vstd::utf8::encode_utf8(room.crypto->0.session_key())) && exists|nonce: Seq<u8>|
            nonce.len() == passphrase::NONCE_LEN && wrapped == Some(
                #[trigger] passphrase::wrapped(
                    vstd::utf8::encode_utf8(room.crypto->0.session_key()),
                    room.key->0,
                    nonce,
                ),
            )
    } else {
        wrapped is None
    }
}

} // verus!
