//! Megolm sessions of a room.
//!
//! Each peer has one outbound session per room, for what they send, and an inbound session for
//! every session of another member whose key they were given. A session is held as its pickle: the
//! text that vodozemac writes of it, encrypted under the room's persist key.
use crate::bytes;
use crate::clock;
use crate::error::{ErrorView, HuddleError};
use crate::strmap::PairMap;
use crate::text;
use vodozemac::megolm::{
    GroupSession, GroupSessionPickle, InboundGroupSession, InboundGroupSessionPickle,
    MegolmMessage, SessionConfig, SessionKey,
};
use vstd::prelude::*;

verus! {

/// The words with which an error begins that says that there is no inbound session to decrypt
/// with. The key of the session can then be asked for.
pub const MISSING_INBOUND_SESSION_ERR: &'static str = "no inbound megolm session";

// ---------------------------------------------------------------------------------------------
// vodozemac
// ---------------------------------------------------------------------------------------------

/// The id of the outbound session in a pickle; nothing for a text that is no such pickle.
pub uninterp spec fn megolm_session_id(pickle: Seq<char>, key: Seq<u8>) -> Option<Seq<char>>;

/// The key, in base64, with which others read an outbound session from its next message on.
pub uninterp spec fn megolm_session_key(pickle: Seq<char>, key: Seq<u8>) -> Option<Seq<char>>;

/// The index of the next message of an outbound session.
pub uninterp spec fn megolm_next_index(pickle: Seq<char>, key: Seq<u8>) -> Option<u32>;

/// The pickle of an outbound session after it encrypted a message, and the encrypted message.
pub uninterp spec fn megolm_encrypted(
    pickle: Seq<char>,
    key: Seq<u8>,
    plaintext: Seq<u8>,
) -> Option<(Seq<char>, Seq<u8>)>;

/// The pickle and the id of the inbound session of a session key, or what is said of a text that is
/// no session key.
pub uninterp spec fn megolm_imported(session_key: Seq<char>, key: Seq<u8>) -> Result<
    (Seq<char>, Seq<char>),
    Seq<char>,
>;

/// The text is the pickle of an inbound session.
pub uninterp spec fn megolm_inbound_opens(pickle: Seq<char>, key: Seq<u8>) -> bool;

/// What is said of bytes that are no encrypted message; nothing of those that are.
pub uninterp spec fn megolm_message_fault(message: Seq<u8>) -> Option<Seq<char>>;

/// What an inbound session makes of an encrypted message: the plaintext, the index of the message
/// and the pickle of the session afterwards; or what is said of a message that it cannot decrypt.
pub uninterp spec fn megolm_decrypted(
    pickle: Seq<char>,
    key: Seq<u8>,
    message: Seq<u8>,
) -> Result<(Seq<u8>, u32, Seq<char>), Seq<char>>;

/// Whoever holds this session key reads this message: the plaintext, at this index.
pub open spec fn reads_back(
    session_key: Seq<char>,
    message: Seq<u8>,
    plaintext: Seq<u8>,
    index: u32,
) -> bool {
    forall|key: Seq<u8>|
        key.len() == 32 ==> match #[trigger] megolm_imported(session_key, key) {
            Ok(session) => megolm_message_fault(message) is None && match megolm_decrypted(
                session.0,
                key,
                message,
            ) {
                Ok(d) => d.0 == plaintext && d.1 == index,
                Err(_) => false,
            },
            Err(_) => false,
        }
}

/// The pickle of an outbound session after it encrypted these messages.
pub open spec fn evolved(pickle: Seq<char>, key: Seq<u8>, sent: Seq<Seq<u8>>) -> Seq<char>
    decreases sent.len(),
{
    if sent.len() == 0 {
        pickle
    } else {
        (megolm_encrypted(evolved(pickle, key, sent.drop_last()), key, sent.last())->0).0
    }
}

/// An outbound session has come from an earlier state of it by sending these messages.
pub open spec fn comes_from(
    pickle: Seq<char>,
    key: Seq<u8>,
    start: Seq<char>,
    sent: Seq<Seq<u8>>,
) -> bool {
    &&& evolved(start, key, sent) == pickle
    &&& megolm_session_key(start, key) is Some
    &&& megolm_next_index(start, key) is Some
    &&& megolm_next_index(pickle, key) is Some
    &&& megolm_next_index(pickle, key)->0 == megolm_next_index(start, key)->0 + sent.len()
}

/// Whoever holds a session key that the outbound session ever had reads this message: the plaintext, at
/// the index that the session had come to.
pub open spec fn readable(
    pickle: Seq<char>,
    key: Seq<u8>,
    message: Seq<u8>,
    plaintext: Seq<u8>,
) -> bool {
    forall|start: Seq<char>, sent: Seq<Seq<u8>>| #[trigger]
        comes_from(pickle, key, start, sent) ==> reads_back(
            megolm_session_key(start, key)->0,
            message,
            plaintext,
            megolm_next_index(pickle, key)->0,
        )
}

/// Two inbound sessions read the same messages.
pub open spec fn same_reader(a: Seq<char>, a_key: Seq<u8>, b: Seq<char>, b_key: Seq<u8>) -> bool {
    forall|m: Seq<u8>|
        match (#[trigger] megolm_decrypted(a, a_key, m), megolm_decrypted(b, b_key, m)) {
            (Ok(x), Ok(y)) => x.0 == y.0 && x.1 == y.1,
            (Err(x), Err(y)) => x == y,
            _ => false,
        }
}

/// An inbound session reads what an outbound session sends from now on: it reads the same as one that was
/// made of a session key that the outbound session once had.
pub open spec fn follows(
    inbound: Seq<char>,
    in_key: Seq<u8>,
    outbound: Seq<char>,
    out_key: Seq<u8>,
) -> bool {
    exists|start: Seq<char>, sent: Seq<Seq<u8>>| #[trigger]
        comes_from(outbound, out_key, start, sent) && (match megolm_imported(
            megolm_session_key(start, out_key)->0,
            in_key,
        ) {
            Ok(session) => same_reader(inbound, in_key, session.0, in_key),
            Err(_) => false,
        })
}

/// `GroupSession::new` in version 1, the only one that `vodozemac` has without its experimental features,
/// as its pickle: a session that has sent nothing yet.
#[verifier::external_body]
fn new_outbound(key: &[u8; 32]) -> (r: String)
    ensures
        megolm_session_id(r@, key@) is Some,
        megolm_next_index(r@, key@) == Some(0u32),
{
    GroupSession::new(SessionConfig::version_1()).pickle().encrypt(key)
}

/// `GroupSessionPickle::from_encrypted` and `GroupSession::session_id`.
#[verifier::external_body]
fn outbound_id(pickle: &str, key: &[u8; 32]) -> (r: Option<String>)
    ensures
        match r {
            Some(id) => megolm_session_id(pickle@, key@) == Some(id@),
            None => megolm_session_id(pickle@, key@) is None,
        },
{
    let pickle = GroupSessionPickle::from_encrypted(pickle, key).ok()?;
    Some(GroupSession::from_pickle(pickle).session_id())
}

/// `GroupSessionPickle::from_encrypted`, then `GroupSession::session_key` in base64. Every outbound
/// session has a key; it imports as an inbound session of the same id.
#[verifier::external_body]
fn outbound_key(pickle: &str, key: &[u8; 32]) -> (r: Option<String>)
    ensures
        match r {
            Some(k) => megolm_session_key(pickle@, key@) == Some(k@),
            None => megolm_session_key(pickle@, key@) is None,
        },
        r is Some == megolm_session_id(pickle@, key@) is Some,
        r is Some == megolm_next_index(pickle@, key@) is Some,
        r matches Some(k) ==> forall|other: Seq<u8>|
            other.len() == 32 ==> (#[trigger] megolm_imported(k@, other) matches Ok(session)
                && megolm_session_id(pickle@, key@) == Some(session.1) && megolm_inbound_opens(
                session.0,
                other,
            )),
{
    let pickle = GroupSessionPickle::from_encrypted(pickle, key).ok()?;
    Some(GroupSession::from_pickle(pickle).session_key().to_base64())
}

/// `GroupSessionPickle::from_encrypted` and `GroupSession::message_index`.
#[verifier::external_body]
fn outbound_index(pickle: &str, key: &[u8; 32]) -> (r: Option<u32>)
    ensures
        r == megolm_next_index(pickle@, key@),
        r is Some == megolm_session_id(pickle@, key@) is Some,
{
    let pickle = GroupSessionPickle::from_encrypted(pickle, key).ok()?;
    Some(GroupSession::from_pickle(pickle).message_index())
}

/// `GroupSession::encrypt`, from pickle to pickle. The session keeps its id and moves on by one
/// index; whoever holds a key that it had before, at this index or an earlier one, reads the message. The
/// ratchet counts messages in 32 bits, so the last index of all is left out.
#[verifier::external_body]
fn outbound_encrypt(pickle: &str, key: &[u8; 32], plaintext: &[u8]) -> (r: Option<
    (String, Vec<u8>),
>)
    requires
        megolm_next_index(pickle@, key@) != Some(u32::MAX),
    ensures
        match r {
            Some(e) => megolm_encrypted(pickle@, key@, plaintext@) == Some((e.0@, e.1@)),
            None => megolm_encrypted(pickle@, key@, plaintext@) is None,
        },
        r is Some == megolm_session_id(pickle@, key@) is Some,
        r matches Some(e) ==> megolm_session_id(e.0@, key@) == megolm_session_id(pickle@, key@)
            && megolm_next_index(e.0@, key@) == Some((megolm_next_index(pickle@, key@)->0 + 1) as u32)
            && readable(pickle@, key@, e.1@, plaintext@),
{
    let pickle = GroupSessionPickle::from_encrypted(pickle, key).ok()?;
    let mut session = GroupSession::from_pickle(pickle);
    let message = session.encrypt(plaintext);
    Some((session.pickle().encrypt(key), message.to_bytes()))
}

/// `SessionKey::from_base64`, then `InboundGroupSession::new` (version 1, as in `new_outbound`) as its pickle, and its
/// `session_id`; an error as its message.
#[verifier::external_body]
fn import_inbound(session_key: &str, key: &[u8; 32]) -> (r: Result<(String, String), String>)
    ensures
        match r {
            Ok(s) => megolm_imported(session_key@, key@) is Ok && megolm_imported(
                session_key@,
                key@,
            )->Ok_0 == (s.0@, s.1@) && megolm_inbound_opens(s.0@, key@),
            Err(words) => megolm_imported(session_key@, key@) is Err && megolm_imported(
                session_key@,
                key@,
            )->Err_0 == words@,
        },
{
    let session_key = SessionKey::from_base64(session_key).map_err(|e| e.to_string())?;
    let session = InboundGroupSession::new(&session_key, SessionConfig::version_1());
    Ok((session.pickle().encrypt(key), session.session_id()))
}

/// `InboundGroupSessionPickle::from_encrypted`: whether it succeeds.
#[verifier::external_body]
fn inbound_opens(pickle: &str, key: &[u8; 32]) -> (r: bool)
    ensures
        r == megolm_inbound_opens(pickle@, key@),
{
    InboundGroupSessionPickle::from_encrypted(pickle, key).is_ok()
}

/// `MegolmMessage::from_bytes`: the message of its error, if it fails.
#[verifier::external_body]
fn message_fault(message: &[u8]) -> (r: Option<String>)
    ensures
        match r {
            Some(words) => megolm_message_fault(message@) == Some(words@),
            None => megolm_message_fault(message@) is None,
        },
{
    MegolmMessage::from_bytes(message).err().map(|e| e.to_string())
}

/// `InboundGroupSession::decrypt`, from pickle to pickle; an error as its message. The session
/// stays one that opens, and reads what it read before: what it keeps is the ratchet that it began with.
#[verifier::external_body]
fn inbound_decrypt(pickle: &str, key: &[u8; 32], message: &[u8]) -> (r: Result<
    (Vec<u8>, u32, String),
    String,
>)
    requires
        megolm_inbound_opens(pickle@, key@),
        megolm_message_fault(message@) is None,
    ensures
        match r {
            Ok(d) => megolm_decrypted(pickle@, key@, message@) is Ok && megolm_decrypted(
                pickle@,
                key@,
                message@,
            )->Ok_0 == (d.0@, d.1, d.2@) && megolm_inbound_opens(d.2@, key@) && same_reader(
                d.2@,
                key@,
                pickle@,
                key@,
            ),
            Err(words) => megolm_decrypted(pickle@, key@, message@) is Err && megolm_decrypted(
                pickle@,
                key@,
                message@,
            )->Err_0 == words@,
        },
{
    let pickle = InboundGroupSessionPickle::from_encrypted(pickle, key).map_err(|e| e.to_string())?;
    let mut session = InboundGroupSession::from_pickle(pickle);
    let message = MegolmMessage::from_bytes(message).map_err(|e| e.to_string())?;
    let d = session.decrypt(&message).map_err(|e| e.to_string())?;
    Ok((d.plaintext, d.message_index, session.pickle().encrypt(key)))
}

/// What becomes of the pickle of an outbound session under another key, or what is said of one that
/// does not open.
pub uninterp spec fn megolm_outbound_moved(
    pickle: Seq<char>,
    old_key: Seq<u8>,
    new_key: Seq<u8>,
) -> Result<Seq<char>, Seq<char>>;

/// What becomes of the pickle of an inbound session under another key, or what is said of one that does
/// not open.
pub uninterp spec fn megolm_inbound_moved(
    pickle: Seq<char>,
    old_key: Seq<u8>,
    new_key: Seq<u8>,
) -> Result<Seq<char>, Seq<char>>;

/// `GroupSessionPickle::from_encrypted` with one key, and `encrypt` with another: the same session.
#[verifier::external_body]
fn move_outbound(pickle: &str, old_key: &[u8; 32], new_key: &[u8; 32]) -> (r: Result<String, String>)
    ensures
        match r {
            Ok(p) => megolm_outbound_moved(pickle@, old_key@, new_key@) == moved(p@),
            Err(words) => megolm_outbound_moved(pickle@, old_key@, new_key@) == unmoved(words@),
        },
        r is Ok == megolm_session_id(pickle@, old_key@) is Some,
        r matches Ok(p) ==> megolm_session_id(p@, new_key@) == megolm_session_id(pickle@, old_key@),
        r matches Ok(p) ==> megolm_session_key(p@, new_key@) == megolm_session_key(
            pickle@,
            old_key@,
        ),
        r matches Ok(p) ==> megolm_next_index(p@, new_key@) == megolm_next_index(pickle@, old_key@),
{
    let pickle = GroupSessionPickle::from_encrypted(pickle, old_key).map_err(|e| e.to_string())?;
    Ok(GroupSession::from_pickle(pickle).pickle().encrypt(new_key))
}

/// `InboundGroupSessionPickle::from_encrypted` with one key, and `encrypt` with another: the same
/// session.
#[verifier::external_body]
fn move_inbound(pickle: &str, old_key: &[u8; 32], new_key: &[u8; 32]) -> (r: Result<String, String>)
    ensures
        match r {
            Ok(p) => megolm_inbound_moved(pickle@, old_key@, new_key@) == moved(p@),
            Err(words) => megolm_inbound_moved(pickle@, old_key@, new_key@) == unmoved(words@),
        },
        r is Ok == megolm_inbound_opens(pickle@, old_key@),
        r matches Ok(p) ==> megolm_inbound_opens(p@, new_key@),
        r matches Ok(p) ==> same_reader(p@, new_key@, pickle@, old_key@),
{
    let pickle = InboundGroupSessionPickle::from_encrypted(pickle, old_key)
        .map_err(|e| e.to_string())?;
    Ok(InboundGroupSession::from_pickle(pickle).pickle().encrypt(new_key))
}

pub open spec fn moved(p: Seq<char>) -> Result<Seq<char>, Seq<char>> {
    Ok(p)
}

pub open spec fn unmoved(words: Seq<char>) -> Result<Seq<char>, Seq<char>> {
    Err(words)
}

// ---------------------------------------------------------------------------------------------
// When to rotate
// ---------------------------------------------------------------------------------------------

/// When the outbound session of a room is due to be replaced: after so many messages, or so many
/// seconds, whichever comes first. A limit of zero never falls due.
#[derive(Debug, Clone, Copy, PartialEq, Eq, Structural)]
pub struct RotationPolicy {
    /// Rotate once this many messages were sent; zero: never for their number.
    pub max_messages: u32,
    /// Rotate once this many seconds have passed; zero: never for their age.
    pub max_age_secs: i64,
}

/// The number of messages after which a session is rotated, where nothing else is set.
pub const DEFAULT_MAX_MESSAGES: u32 = 1000;

/// The number of hours after which a session is rotated, where nothing else is set.
pub const DEFAULT_MAX_HOURS: i64 = 24;

/// The seconds of so many hours: none for a negative number, and no more than can be counted.
pub open spec fn hours_in_secs(hours: int) -> int {
    if hours <= 0 {
        0
    } else if hours * 3600 > i64::MAX {
        i64::MAX as int
    } else {
        hours * 3600
    }
}

impl RotationPolicy {
    pub open spec fn enabled(self) -> bool {
        self.max_messages > 0 || self.max_age_secs > 0
    }

    /// A session that sent so many messages in so many seconds is due.
    pub open spec fn due(self, messages: int, seconds: int) -> bool {
        ||| self.max_messages > 0 && messages >= self.max_messages
        ||| self.max_age_secs > 0 && seconds >= self.max_age_secs
    }

    pub fn new(max_messages: u32, max_age_secs: i64) -> (r: Self)
        ensures
            r.max_messages == max_messages,
            r.max_age_secs == max_age_secs,
    {
        RotationPolicy { max_messages, max_age_secs }
    }

    /// The policy of a number of messages and a number of hours, as they are set by the user.
    pub fn from_messages_and_hours(max_messages: u32, max_hours: i64) -> (r: Self)
        ensures
            r.max_messages == max_messages,
            r.max_age_secs == hours_in_secs(max_hours as int),
    {
        let max_age_secs: i64 = if max_hours <= 0 {
            0
        } else if max_hours > i64::MAX / 3600 {
            i64::MAX
        } else {
            max_hours * 3600
        };
        RotationPolicy { max_messages, max_age_secs }
    }

    /// The policy that never rotates.
    pub fn disabled() -> (r: Self)
        ensures
            r.max_messages == 0,
            r.max_age_secs == 0,
            !r.enabled(),
    {
        RotationPolicy { max_messages: 0, max_age_secs: 0 }
    }

    pub fn is_enabled(&self) -> (r: bool)
        ensures
            r == self.enabled(),
    {
        self.max_messages > 0 || self.max_age_secs > 0
    }

    pub fn should_rotate(&self, messages_since_rotation: u32, seconds_since_rotation: i64) -> (r:
        bool)
        ensures
            r == self.due(messages_since_rotation as int, seconds_since_rotation as int),
    {
        (self.max_messages > 0 && messages_since_rotation >= self.max_messages) || (
        self.max_age_secs > 0 && seconds_since_rotation >= self.max_age_secs)
    }
}

impl Default for RotationPolicy {
    fn default() -> (r: Self)
        ensures
            r.max_messages == DEFAULT_MAX_MESSAGES,
            r.max_age_secs == hours_in_secs(DEFAULT_MAX_HOURS as int),
    {
        RotationPolicy::from_messages_and_hours(DEFAULT_MAX_MESSAGES, DEFAULT_MAX_HOURS)
    }
}

/// A policy with neither limit never falls due.
pub proof fn law_disabled_policy_is_never_due(p: RotationPolicy, messages: int, seconds: int)
    requires
        !p.enabled(),
    ensures
        !p.due(messages, seconds),
{
}

/// Once due, always due: more messages or more time never undo it.
pub proof fn law_due_is_monotone(p: RotationPolicy, m1: int, s1: int, m2: int, s2: int)
    requires
        p.due(m1, s1),
        m1 <= m2,
        s1 <= s2,
    ensures
        p.due(m2, s2),
{
}

// ---------------------------------------------------------------------------------------------
// What is stored
// ---------------------------------------------------------------------------------------------

/// A session as it is stored.
#[derive(Debug)]
pub struct StoredMegolmSession {
    pub room_id: String,
    pub sender_fingerprint: String,
    pub session_id: String,
    pub session_data: Vec<u8>,
    pub is_outbound: bool,
    pub created_at: i64,
}

pub struct StoredSessionView {
    pub room_id: Seq<char>,
    pub sender_fingerprint: Seq<char>,
    pub session_id: Seq<char>,
    pub session_data: Seq<u8>,
    pub is_outbound: bool,
    pub created_at: i64,
}

impl View for StoredMegolmSession {
    type V = StoredSessionView;

    open spec fn view(&self) -> StoredSessionView {
        StoredSessionView {
            room_id: self.room_id@,
            sender_fingerprint: self.sender_fingerprint@,
            session_id: self.session_id@,
            session_data: self.session_data@,
            is_outbound: self.is_outbound,
            created_at: self.created_at,
        }
    }
}

/// What has to be written to the store so that it holds the sessions of a room, in order.
#[derive(Debug)]
pub enum SessionWrite {
    /// Store this session, in place of one with the same room, sender and session id.
    Save(StoredMegolmSession),
    /// Delete the outbound sessions of this room and fingerprint.
    DeleteOutbound { room_id: String, fingerprint: String },
}

pub enum SessionWriteView {
    Save(StoredSessionView),
    DeleteOutbound { room_id: Seq<char>, fingerprint: Seq<char> },
}

impl View for SessionWrite {
    type V = SessionWriteView;

    open spec fn view(&self) -> SessionWriteView {
        match self {
            SessionWrite::Save(s) => SessionWriteView::Save(s@),
            SessionWrite::DeleteOutbound { room_id, fingerprint } =>
                SessionWriteView::DeleteOutbound {
                room_id: room_id@,
                fingerprint: fingerprint@,
            },
        }
    }
}

pub open spec fn write_views(s: Seq<SessionWrite>) -> Seq<SessionWriteView> {
    s.map_values(|w: SessionWrite| w@)
}

pub open spec fn text_values(m: Map<(Seq<char>, Seq<char>), String>) -> Map<
    (Seq<char>, Seq<char>),
    Seq<char>,
> {
    m.map_values(|s: String| s@)
}

// ---------------------------------------------------------------------------------------------
// The sessions of a room
// ---------------------------------------------------------------------------------------------

/// Our outbound session of a room and the inbound sessions of the others.
pub struct RoomCrypto {
    room_id: String,
    our_fingerprint: String,
    outbound: String,
    inbound: PairMap<String>,
    persist_key: [u8; 32],
    messages_since_rotation: u32,
    last_rotation_at: i64,
    writes: Vec<SessionWrite>,
}

/// The sessions of a room, as contracts speak of them.
#[verifier::ext_equal]
pub struct RoomCryptoView {
    pub room_id: Seq<char>,
    pub our_fingerprint: Seq<char>,
    /// The pickle of our outbound session.
    pub outbound: Seq<char>,
    /// The pickles of the inbound sessions, by sender and session id.
    pub inbound: Map<(Seq<char>, Seq<char>), Seq<char>>,
    pub persist_key: Seq<u8>,
    pub messages_since_rotation: u32,
    pub last_rotation_at: i64,
    /// What has not been written to the store yet.
    pub writes: Seq<SessionWriteView>,
}

impl View for RoomCrypto {
    type V = RoomCryptoView;

    closed spec fn view(&self) -> RoomCryptoView {
        RoomCryptoView {
            room_id: self.room_id@,
            our_fingerprint: self.our_fingerprint@,
            outbound: self.outbound@,
            inbound: text_values(self.inbound@),
            persist_key: self.persist_key@,
            messages_since_rotation: self.messages_since_rotation,
            last_rotation_at: self.last_rotation_at,
            writes: write_views(self.writes@),
        }
    }
}

impl RoomCryptoView {
    /// Every session opens.
    pub open spec fn wf(self) -> bool {
        &&& self.persist_key.len() == 32
        &&& megolm_session_id(self.outbound, self.persist_key) is Some
        &&& forall|k: (Seq<char>, Seq<char>)|
            self.inbound.dom().contains(k) ==> megolm_inbound_opens(
                #[trigger] self.inbound[k],
                self.persist_key,
            )
    }

    pub open spec fn session_id(self) -> Seq<char> {
        megolm_session_id(self.outbound, self.persist_key)->0
    }

    pub open spec fn session_key(self) -> Seq<char> {
        megolm_session_key(self.outbound, self.persist_key)->0
    }

    /// Any member can take our session key in, under whatever key they keep their sessions.
    pub open spec fn is_shareable(self) -> bool {
        &&& megolm_session_key(self.outbound, self.persist_key) is Some
        &&& megolm_next_index(self.outbound, self.persist_key) is Some
        &&& forall|other: Seq<u8>|
            other.len() == 32 ==> (#[trigger] megolm_imported(self.session_key(), other) matches Ok(
                session,
            ) && session.1 == self.session_id() && megolm_inbound_opens(session.0, other))
    }

    /// The member reads what this one sends from now on.
    pub open spec fn holds(self, sender: Seq<char>, from: Self) -> bool {
        &&& self.wf()
        &&& self.inbound.dom().contains((sender, from.session_id()))
        &&& follows(
            self.inbound[(sender, from.session_id())],
            self.persist_key,
            from.outbound,
            from.persist_key,
        )
    }

    /// The outbound session can count one message more.
    pub open spec fn can_encrypt(self) -> bool {
        megolm_next_index(self.outbound, self.persist_key) != Some(u32::MAX)
    }

    /// Nothing has been sent with our outbound session yet.
    pub open spec fn is_unused(self) -> bool {
        megolm_next_index(self.outbound, self.persist_key) == Some(0u32)
    }

    /// How our outbound session is stored.
    pub open spec fn outbound_row(self, now: i64) -> SessionWriteView {
        SessionWriteView::Save(
            StoredSessionView {
                room_id: self.room_id,
                sender_fingerprint: self.our_fingerprint,
                session_id: self.session_id(),
                session_data: vstd::utf8::encode_utf8(self.outbound),
                is_outbound: true,
                created_at: now,
            },
        )
    }

    /// How the inbound session of a sender is stored.
    pub open spec fn inbound_row(
        self,
        sender: Seq<char>,
        session_id: Seq<char>,
        pickle: Seq<char>,
        now: i64,
    ) -> SessionWriteView {
        SessionWriteView::Save(
            StoredSessionView {
                room_id: self.room_id,
                sender_fingerprint: sender,
                session_id,
                session_data: vstd::utf8::encode_utf8(pickle),
                is_outbound: false,
                created_at: now,
            },
        )
    }

    /// With a new outbound session, counted from zero.
    pub open spec fn with_outbound(self, pickle: Seq<char>, now: i64) -> Self {
        let next = RoomCryptoView {
            outbound: pickle,
            messages_since_rotation: 0,
            last_rotation_at: now,
            ..self
        };
        RoomCryptoView { writes: self.writes.push(next.outbound_row(now)), ..next }
    }

    /// With a new outbound session in place of the old one, which is deleted first.
    pub open spec fn rotated(self, pickle: Seq<char>, now: i64) -> Self {
        let cleared = RoomCryptoView {
            writes: self.writes.push(
                SessionWriteView::DeleteOutbound {
                    room_id: self.room_id,
                    fingerprint: self.our_fingerprint,
                },
            ),
            ..self
        };
        cleared.with_outbound(pickle, now)
    }

    /// After encrypting a message.
    pub open spec fn after_encrypt(self, plaintext: Seq<u8>, now: i64) -> Self {
        let next = RoomCryptoView {
            outbound: (megolm_encrypted(self.outbound, self.persist_key, plaintext)->0).0,
            messages_since_rotation: if self.messages_since_rotation == u32::MAX {
                u32::MAX
            } else {
                (self.messages_since_rotation + 1) as u32
            },
            ..self
        };
        RoomCryptoView { writes: self.writes.push(next.outbound_row(now)), ..next }
    }

    /// With the inbound session of a sender.
    pub open spec fn with_inbound(
        self,
        sender: Seq<char>,
        session_id: Seq<char>,
        pickle: Seq<char>,
        now: i64,
    ) -> Self {
        RoomCryptoView {
            inbound: self.inbound.insert((sender, session_id), pickle),
            writes: self.writes.push(self.inbound_row(sender, session_id, pickle, now)),
            ..self
        }
    }

    /// What a message of a sender decrypts to: the plaintext, its index and the pickle of the
    /// session afterwards; or why it does not.
    pub open spec fn decrypted(
        self,
        sender: Seq<char>,
        session_id: Seq<char>,
        message: Seq<u8>,
    ) -> Result<(Seq<u8>, u32, Seq<char>), ErrorView> {
        if !self.inbound.dom().contains((sender, session_id)) {
            Err(
                ErrorView::Session(
                    "no inbound megolm session"@ + " for "@ + sender + " / "@ + session_id,
                ),
            )
        } else {
            match megolm_message_fault(message) {
                Some(words) => Err(ErrorView::Session("bad megolm message: "@ + words)),
                None => match megolm_decrypted(
                    self.inbound[(sender, session_id)],
                    self.persist_key,
                    message,
                ) {
                    Ok(d) => Ok(d),
                    Err(words) => Err(ErrorView::Session("megolm decrypt failed: "@ + words)),
                },
            }
        }
    }
}

fn save_of(
    room_id: &str,
    sender: &str,
    session_id: &str,
    pickle: &str,
    is_outbound: bool,
    now: i64,
) -> (r: SessionWrite)
    ensures
        r@ == SessionWriteView::Save(
            StoredSessionView {
                room_id: room_id@,
                sender_fingerprint: sender@,
                session_id: session_id@,
                session_data: vstd::utf8::encode_utf8(pickle@),
                is_outbound,
                created_at: now,
            },
        ),
{
    SessionWrite::Save(
        StoredMegolmSession {
            room_id: text::owned(room_id),
            sender_fingerprint: text::owned(sender),
            session_id: text::owned(session_id),
            session_data: bytes::to_vec(pickle.as_bytes()),
            is_outbound,
            created_at: now,
        },
    )
}

/// The last stored outbound session that opens.
pub open spec fn stored_outbound(rows: Seq<StoredSessionView>, key: Seq<u8>) -> Option<Seq<char>>
    decreases rows.len(),
{
    if rows.len() == 0 {
        None
    } else {
        let row = rows.last();
        let pickle = vstd::utf8::decode_utf8(row.session_data);
        if row.is_outbound && vstd::utf8::valid_utf8(row.session_data) && megolm_session_id(
            pickle,
            key,
        ) is Some {
            Some(pickle)
        } else {
            stored_outbound(rows.drop_last(), key)
        }
    }
}

/// The stored inbound sessions that open.
pub open spec fn stored_inbound(rows: Seq<StoredSessionView>, key: Seq<u8>) -> Map<
    (Seq<char>, Seq<char>),
    Seq<char>,
>
    decreases rows.len(),
{
    if rows.len() == 0 {
        Map::empty()
    } else {
        let row = rows.last();
        let before = stored_inbound(rows.drop_last(), key);
        let pickle = vstd::utf8::decode_utf8(row.session_data);
        if !row.is_outbound && vstd::utf8::valid_utf8(row.session_data) && megolm_inbound_opens(
            pickle,
            key,
        ) {
            before.insert((row.sender_fingerprint, row.session_id), pickle)
        } else {
            before
        }
    }
}

pub open spec fn row_views(s: Seq<StoredMegolmSession>) -> Seq<StoredSessionView> {
    s.map_values(|r: StoredMegolmSession| r@)
}

impl RoomCrypto {
    /// The sessions of a room that we enter with this outbound session.
    pub fn start_with(
        room_id: String,
        our_fingerprint: String,
        persist_key: [u8; 32],
        outbound: String,
        now: i64,
    ) -> (r: Option<Self>)
        ensures
            r is Some == megolm_session_id(outbound@, persist_key@) is Some,
            r matches Some(c) ==> c@.wf() && c@ == (RoomCryptoView {
                room_id: room_id@,
                our_fingerprint: our_fingerprint@,
                outbound: outbound@,
                inbound: Map::empty(),
                persist_key: persist_key@,
                messages_since_rotation: 0,
                last_rotation_at: now,
                writes: Seq::empty(),
            }).with_outbound(outbound@, now),
    {
        match outbound_id(outbound.as_str(), &persist_key) {
            None => None,
            Some(id) => {
                let mut writes: Vec<SessionWrite> = Vec::new();
                writes.push(
                    save_of(
                        room_id.as_str(),
                        our_fingerprint.as_str(),
                        id.as_str(),
                        outbound.as_str(),
                        true,
                        now,
                    ),
                );
                let c = RoomCrypto {
                    room_id,
                    our_fingerprint,
                    outbound,
                    inbound: PairMap::new(),
                    persist_key,
                    messages_since_rotation: 0,
                    last_rotation_at: now,
                    writes,
                };
                proof {
                    let start = RoomCryptoView {
                        room_id: room_id@,
                        our_fingerprint: our_fingerprint@,
                        outbound: outbound@,
                        inbound: Map::empty(),
                        persist_key: persist_key@,
                        messages_since_rotation: 0,
                        last_rotation_at: now,
                        writes: Seq::empty(),
                    };
                    assert(c@ =~= start.with_outbound(outbound@, now));
                }
                Some(c)
            },
        }
    }

    /// The sessions of a room that we enter with an outbound session made for it. It is to be
    /// stored.
    pub fn new_for_room(room_id: String, our_fingerprint: String, persist_key: [u8; 32]) -> (r:
        Result<Self, HuddleError>)
        ensures
            r is Ok,
            r->Ok_0@.wf(),
            r->Ok_0@.is_unused(),
            r->Ok_0@.room_id == room_id@,
            r->Ok_0@.our_fingerprint == our_fingerprint@,
            r->Ok_0@.persist_key == persist_key@,
            r->Ok_0@.inbound == Map::<(Seq<char>, Seq<char>), Seq<char>>::empty(),
            r->Ok_0@.messages_since_rotation == 0,
            r->Ok_0@.writes == seq![r->Ok_0@.outbound_row(r->Ok_0@.last_rotation_at)],
    {
        let outbound: String = new_outbound(&persist_key);
        let now: i64 = clock::now_unix();
        match Self::start_with(room_id, our_fingerprint, persist_key, outbound, now) {
            Some(c) => {
                proof {
                    assert(c@.writes =~= seq![c@.outbound_row(now)]);
                }
                Ok(c)
            },
            None => Err(crate::error::session_error("no outbound session")),
        }
    }

    /// The sessions of a room from what is stored of it, entered again at this time. There are none
    /// where no stored outbound session opens; any other session that does not open is left out.
    pub fn load_at(
        rows: &Vec<StoredMegolmSession>,
        room_id: String,
        our_fingerprint: String,
        persist_key: [u8; 32],
        now: i64,
    ) -> (r: Option<Self>)
        ensures
            r is Some == stored_outbound(row_views(rows@), persist_key@) is Some,
            r matches Some(c) ==> c@.wf() && c@ == (RoomCryptoView {
                room_id: room_id@,
                our_fingerprint: our_fingerprint@,
                outbound: stored_outbound(row_views(rows@), persist_key@)->0,
                inbound: stored_inbound(row_views(rows@), persist_key@),
                persist_key: persist_key@,
                messages_since_rotation: 0,
                last_rotation_at: now,
                writes: Seq::empty(),
            }),
    {
        let mut outbound: Option<String> = None;
        let mut inbound: PairMap<String> = PairMap::new();
        let mut i: usize = 0;
        assert(row_views(rows@).take(0) =~= Seq::<StoredSessionView>::empty());
        assert(text_values(inbound@) =~= Map::<(Seq<char>, Seq<char>), Seq<char>>::empty());
        while i < rows.len()
            invariant
                i <= rows@.len(),
                match outbound {
                    Some(p) => stored_outbound(row_views(rows@).take(i as int), persist_key@)
                        == Some(p@) && megolm_session_id(p@, persist_key@) is Some,
                    None => stored_outbound(
                        row_views(rows@).take(i as int),
                        persist_key@,
                    ) is None,
                },
                text_values(inbound@) == stored_inbound(
                    row_views(rows@).take(i as int),
                    persist_key@,
                ),
                forall|k: (Seq<char>, Seq<char>)|
                    inbound@.dom().contains(k) ==> megolm_inbound_opens(
                        (#[trigger] inbound@[k])@,
                        persist_key@,
                    ),
            decreases rows@.len() - i,
        {
            let row: &StoredMegolmSession = &rows[i];
            proof {
                let done = row_views(rows@).take(i + 1);
                assert(done.drop_last() =~= row_views(rows@).take(i as int));
                assert(done.last() == row@);
            }
            let ghost before = inbound@;
            match text::text_of_utf8(row.session_data.as_slice()) {
                None => {},
                Some(pickle) => {
                    if row.is_outbound {
                        if outbound_id(pickle.as_str(), &persist_key).is_some() {
                            outbound = Some(pickle);
                        }
                    } else if inbound_opens(pickle.as_str(), &persist_key) {
                        let ghost p = pickle;
                        inbound.insert(
                            row.sender_fingerprint.clone(),
                            row.session_id.clone(),
                            pickle,
                        );
                        proof {
                            let k = (row.sender_fingerprint@, row.session_id@);
                            assert(text_values(inbound@) =~= text_values(before).insert(k, p@));
                        }
                    }
                },
            }
            i = i + 1;
        }
        assert(row_views(rows@).take(rows@.len() as int) =~= row_views(rows@));
        match outbound {
            None => None,
            Some(outbound) => {
                let c = RoomCrypto {
                    room_id,
                    our_fingerprint,
                    outbound,
                    inbound,
                    persist_key,
                    messages_since_rotation: 0,
                    last_rotation_at: now,
                    writes: Vec::new(),
                };
                proof {
                    assert(c@.writes =~= Seq::<SessionWriteView>::empty());
                    assert forall|k: (Seq<char>, Seq<char>)|
                        c@.inbound.dom().contains(k) implies megolm_inbound_opens(
                        #[trigger] c@.inbound[k],
                        persist_key@,
                    ) by {
                        assert(inbound@.dom().contains(k));
                        assert(megolm_inbound_opens(inbound@[k]@, persist_key@));
                    }
                }
                Some(c)
            },
        }
    }

    /// The sessions of a room from what is stored of it.
    pub fn load(
        rows: &Vec<StoredMegolmSession>,
        room_id: String,
        our_fingerprint: String,
        persist_key: [u8; 32],
    ) -> (r: Option<Self>)
        ensures
            r is Some == stored_outbound(row_views(rows@), persist_key@) is Some,
            r matches Some(c) ==> c@.wf() && c@.room_id == room_id@ && c@.our_fingerprint
                == our_fingerprint@ && c@.persist_key == persist_key@ && Some(c@.outbound)
                == stored_outbound(row_views(rows@), persist_key@) && c@.inbound == stored_inbound(
                row_views(rows@),
                persist_key@,
            ) && c@.messages_since_rotation == 0 && c@.writes == Seq::<SessionWriteView>::empty(),
    {
        Self::load_at(rows, room_id, our_fingerprint, persist_key, clock::now_unix())
    }

    /// Encrypts a message with our outbound session, at this time: the id of the session and the
    /// encrypted message. Whoever holds the session key of before reads the message.
    pub fn encrypt_within(&mut self, plaintext: &[u8], now: i64) -> (r: (String, Vec<u8>))
        requires
            old(self)@.wf(),
            old(self)@.can_encrypt(),
        ensures
            final(self)@ == old(self)@.after_encrypt(plaintext@, now),
            final(self)@.wf(),
            r.0@ == old(self)@.session_id(),
            final(self)@.session_id() == old(self)@.session_id(),
            Some(r.1@) == (match megolm_encrypted(
                old(self)@.outbound,
                old(self)@.persist_key,
                plaintext@,
            ) {
                Some(e) => Some(e.1),
                None => None,
            }),
            sent_on(old(self)@, final(self)@),
            readable(old(self)@.outbound, old(self)@.persist_key, r.1@, plaintext@),
    {
        let ghost before = self@;
        let encrypted = outbound_encrypt(self.outbound.as_str(), &self.persist_key, plaintext);
        let (pickle, message): (String, Vec<u8>) = encrypted.unwrap();
        let session_id: String = outbound_id(pickle.as_str(), &self.persist_key).unwrap();
        let index: Option<u32> = outbound_index(self.outbound.as_str(), &self.persist_key);
        assert(index is Some);
        self.outbound = pickle;
        self.writes.push(
            save_of(
                self.room_id.as_str(),
                self.our_fingerprint.as_str(),
                session_id.as_str(),
                self.outbound.as_str(),
                true,
                now,
            ),
        );
        if self.messages_since_rotation < u32::MAX {
            self.messages_since_rotation = self.messages_since_rotation + 1;
        }
        proof {
            let next = before.after_encrypt(plaintext@, now);
            assert(self@.writes =~= next.writes);
            assert(self@ =~= next);
        }
        (session_id, message)
    }

    /// Encrypts a message with our outbound session, at this time. It fails only where the session
    /// has counted as many messages as it can.
    pub fn encrypt_at(&mut self, plaintext: &[u8], now: i64) -> (r: Result<
        (String, Vec<u8>),
        HuddleError,
    >)
        requires
            old(self)@.wf(),
        ensures
            final(self)@.wf(),
            match r {
                Ok(sent) => {
                    &&& old(self)@.can_encrypt()
                    &&& final(self)@ == old(self)@.after_encrypt(plaintext@, now)
                    &&& sent.0@ == old(self)@.session_id()
                    &&& megolm_encrypted(
                        old(self)@.outbound,
                        old(self)@.persist_key,
                        plaintext@,
                    ) == Some((final(self)@.outbound, sent.1@))
                    &&& sent_on(old(self)@, final(self)@)
                    &&& readable(
                        old(self)@.outbound,
                        old(self)@.persist_key,
                        sent.1@,
                        plaintext@,
                    )
                },
                Err(e) => {
                    &&& !old(self)@.can_encrypt()
                    &&& final(self)@ == old(self)@
                    &&& e@ == ErrorView::Session("megolm session is exhausted"@)
                },
            },
    {
        match outbound_index(self.outbound.as_str(), &self.persist_key) {
            Some(index) => {
                if index == u32::MAX {
                    return Err(crate::error::session_error("megolm session is exhausted"));
                }
            },
            None => {},
        }
        Ok(self.encrypt_within(plaintext, now))
    }

    /// Encrypts a message with our outbound session.
    pub fn encrypt(&mut self, plaintext: &[u8]) -> (r: Result<(String, Vec<u8>), HuddleError>)
        requires
            old(self)@.wf(),
        ensures
            final(self)@.wf(),
            match r {
                Ok(sent) => {
                    &&& old(self)@.can_encrypt()
                    &&& exists|now: i64|
                        final(self)@ == #[trigger] old(self)@.after_encrypt(plaintext@, now)
                    &&& sent.0@ == old(self)@.session_id()
                    &&& megolm_encrypted(
                        old(self)@.outbound,
                        old(self)@.persist_key,
                        plaintext@,
                    ) == Some((final(self)@.outbound, sent.1@))
                    &&& sent_on(old(self)@, final(self)@)
                    &&& readable(
                        old(self)@.outbound,
                        old(self)@.persist_key,
                        sent.1@,
                        plaintext@,
                    )
                },
                Err(e) => {
                    &&& !old(self)@.can_encrypt()
                    &&& final(self)@ == old(self)@
                    &&& e@ == ErrorView::Session("megolm session is exhausted"@)
                },
            },
    {
        self.encrypt_at(plaintext, clock::now_unix())
    }

    /// Decrypts a message of a sender, at this time: the plaintext and the index of the message,
    /// which names it within the session. The session is to be stored again.
    pub fn decrypt_at(
        &mut self,
        sender_fingerprint: &str,
        session_id: &str,
        ciphertext: &[u8],
        now: i64,
    ) -> (r: Result<(Vec<u8>, u32), HuddleError>)
        requires
            old(self)@.wf(),
        ensures
            final(self)@.wf(),
            match r {
                Ok(d) => match old(self)@.decrypted(
                    sender_fingerprint@,
                    session_id@,
                    ciphertext@,
                ) {
                    Ok(e) => d.0@ == e.0 && d.1 == e.1 && final(self)@ == old(self)@.with_inbound(
                        sender_fingerprint@,
                        session_id@,
                        e.2,
                        now,
                    ) && reads_on(old(self)@, final(self)@),
                    Err(_) => false,
                },
                Err(e) => old(self)@.decrypted(sender_fingerprint@, session_id@, ciphertext@)
                    == Err::<(Seq<u8>, u32, Seq<char>), ErrorView>(e@) && final(self)@
                    == old(self)@,
            },
    {
        let ghost before = self@;
        let outcome = match self.inbound.get(sender_fingerprint, session_id) {
            None => {
                let mut words: String = text::join4(
                    MISSING_INBOUND_SESSION_ERR,
                    " for ",
                    sender_fingerprint,
                    " / ",
                );
                text::push_str(&mut words, session_id);
                return Err(HuddleError::Session(words));
            },
            Some(pickle) => {
                proof {
                    let k = (sender_fingerprint@, session_id@);
                    assert(before.inbound.dom().contains(k));
                    assert(before.inbound[k] == pickle@);
                    assert(megolm_inbound_opens(before.inbound[k], before.persist_key));
                }
                match message_fault(ciphertext) {
                    Some(words) => {
                        return Err(
                            HuddleError::Session(
                                text::join2("bad megolm message: ", words.as_str()),
                            ),
                        );
                    },
                    None => inbound_decrypt(pickle.as_str(), &self.persist_key, ciphertext),
                }
            },
        };
        match outcome {
            Err(words) => Err(
                HuddleError::Session(text::join2("megolm decrypt failed: ", words.as_str())),
            ),
            Ok((plaintext, index, pickle)) => {
                let ghost p = pickle@;
                let ghost inbound_before = self.inbound@;
                self.writes.push(
                    save_of(
                        self.room_id.as_str(),
                        sender_fingerprint,
                        session_id,
                        pickle.as_str(),
                        false,
                        now,
                    ),
                );
                self.inbound.insert(
                    text::owned(sender_fingerprint),
                    text::owned(session_id),
                    pickle,
                );
                proof {
                    let next = before.with_inbound(sender_fingerprint@, session_id@, p, now);
                    assert(self@.inbound =~= next.inbound);
                    assert(self@.writes =~= next.writes);
                    assert(self@ =~= next);
                    assert forall|k: (Seq<char>, Seq<char>)|
                        self@.inbound.dom().contains(k) implies megolm_inbound_opens(
                        #[trigger] self@.inbound[k],
                        self@.persist_key,
                    ) by {
                        if k != (sender_fingerprint@, session_id@) {
                            assert(before.inbound.dom().contains(k));
                            assert(megolm_inbound_opens(before.inbound[k], before.persist_key));
                        }
                    }
                }
                Ok((plaintext, index))
            },
        }
    }

    /// Decrypts a message of a sender: the plaintext and the index of the message.
    pub fn decrypt(&mut self, sender_fingerprint: &str, session_id: &str, ciphertext: &[u8]) -> (r:
        Result<(Vec<u8>, u32), HuddleError>)
        requires
            old(self)@.wf(),
        ensures
            final(self)@.wf(),
            match r {
                Ok(d) => match old(self)@.decrypted(
                    sender_fingerprint@,
                    session_id@,
                    ciphertext@,
                ) {
                    Ok(e) => d.0@ == e.0 && d.1 == e.1 && exists|now: i64|
                        final(self)@ == #[trigger] old(self)@.with_inbound(
                            sender_fingerprint@,
                            session_id@,
                            e.2,
                            now,
                        ) && reads_on(old(self)@, final(self)@),
                    Err(_) => false,
                },
                Err(e) => old(self)@.decrypted(sender_fingerprint@, session_id@, ciphertext@)
                    == Err::<(Seq<u8>, u32, Seq<char>), ErrorView>(e@) && final(self)@
                    == old(self)@,
            },
    {
        let now: i64 = clock::now_unix();
        self.decrypt_at(sender_fingerprint, session_id, ciphertext, now)
    }

    /// There is a session to decrypt this sender's messages of this session with.
    pub fn has_inbound_session(&self, sender_fingerprint: &str, session_id: &str) -> (r: bool)
        ensures
            r == self@.inbound.dom().contains((sender_fingerprint@, session_id@)),
    {
        self.inbound.contains_key(sender_fingerprint, session_id)
    }

    /// Takes in the session key of another member, at this time. The session is to be stored.
    pub fn add_inbound_session_at(
        &mut self,
        sender_fingerprint: &str,
        session_key_b64: &str,
        now: i64,
    ) -> (r: Result<(), HuddleError>)
        requires
            old(self)@.wf(),
        ensures
            final(self)@.wf(),
            match r {
                Ok(_) => match megolm_imported(session_key_b64@, old(self)@.persist_key) {
                    Ok(s) => final(self)@ == old(self)@.with_inbound(
                        sender_fingerprint@,
                        s.1,
                        s.0,
                        now,
                    ),
                    Err(_) => false,
                },
                Err(e) => match megolm_imported(session_key_b64@, old(self)@.persist_key) {
                    Ok(_) => false,
                    Err(words) => e@ == ErrorView::Session("bad session key: "@ + words)
                        && final(self)@ == old(self)@,
                },
            },
    {
        let ghost before = self@;
        match import_inbound(session_key_b64, &self.persist_key) {
            Err(words) => Err(
                HuddleError::Session(text::join2("bad session key: ", words.as_str())),
            ),
            Ok((pickle, session_id)) => {
                let ghost p = pickle@;
                let ghost sid = session_id@;
                self.writes.push(
                    save_of(
                        self.room_id.as_str(),
                        sender_fingerprint,
                        session_id.as_str(),
                        pickle.as_str(),
                        false,
                        now,
                    ),
                );
                self.inbound.insert(text::owned(sender_fingerprint), session_id, pickle);
                proof {
                    let next = before.with_inbound(sender_fingerprint@, sid, p, now);
                    assert(self@.inbound =~= next.inbound);
                    assert(self@.writes =~= next.writes);
                    assert(self@ =~= next);
                    assert forall|k: (Seq<char>, Seq<char>)|
                        self@.inbound.dom().contains(k) implies megolm_inbound_opens(
                        #[trigger] self@.inbound[k],
                        self@.persist_key,
                    ) by {
                        if k != (sender_fingerprint@, sid) {
                            assert(before.inbound.dom().contains(k));
                            assert(megolm_inbound_opens(before.inbound[k], before.persist_key));
                        }
                    }
                }
                Ok(())
            },
        }
    }

    /// Takes in the session key of another member.
    pub fn add_inbound_session(&mut self, sender_fingerprint: &str, session_key_b64: &str) -> (r:
        Result<(), HuddleError>)
        requires
            old(self)@.wf(),
        ensures
            final(self)@.wf(),
            match r {
                Ok(_) => match megolm_imported(session_key_b64@, old(self)@.persist_key) {
                    Ok(s) => exists|now: i64|
                        final(self)@ == #[trigger] old(self)@.with_inbound(
                            sender_fingerprint@,
                            s.1,
                            s.0,
                            now,
                        ),
                    Err(_) => false,
                },
                Err(e) => match megolm_imported(session_key_b64@, old(self)@.persist_key) {
                    Ok(_) => false,
                    Err(words) => e@ == ErrorView::Session("bad session key: "@ + words)
                        && final(self)@ == old(self)@,
                },
            },
    {
        let now: i64 = clock::now_unix();
        self.add_inbound_session_at(sender_fingerprint, session_key_b64, now)
    }

    /// Replaces our outbound session by this one, at this time. The old one is to be deleted from
    /// the store before the new one is saved; the inbound sessions stay.
    pub fn rotate_to(&mut self, outbound: String, now: i64) -> (r: bool)
        requires
            old(self)@.wf(),
        ensures
            final(self)@.wf(),
            r == megolm_session_id(outbound@, old(self)@.persist_key) is Some,
            r ==> final(self)@ == old(self)@.rotated(outbound@, now),
            !r ==> final(self)@ == old(self)@,
    {
        let ghost before = self@;
        match outbound_id(outbound.as_str(), &self.persist_key) {
            None => false,
            Some(id) => {
                self.outbound = outbound;
                self.writes.push(
                    SessionWrite::DeleteOutbound {
                        room_id: self.room_id.clone(),
                        fingerprint: self.our_fingerprint.clone(),
                    },
                );
                self.writes.push(
                    save_of(
                        self.room_id.as_str(),
                        self.our_fingerprint.as_str(),
                        id.as_str(),
                        self.outbound.as_str(),
                        true,
                        now,
                    ),
                );
                self.messages_since_rotation = 0;
                self.last_rotation_at = now;
                proof {
                    assert(self@.writes =~= before.rotated(outbound@, now).writes);
                    assert(self@ =~= before.rotated(outbound@, now));
                }
                true
            },
        }
    }

    /// Replaces our outbound session by a new one, whatever that one is. The inbound sessions stay,
    /// and counting begins anew.
    pub fn rotate_outbound(&mut self)
        requires
            old(self)@.wf(),
        ensures
            final(self)@.wf(),
            final(self)@.is_unused(),
            exists|pickle: Seq<char>, now: i64|
                final(self)@ == #[trigger] old(self)@.rotated(pickle, now),
            final(self)@.inbound == old(self)@.inbound,
            final(self)@.messages_since_rotation == 0,
    {
        let now: i64 = clock::now_unix();
        self.rotate_outbound_at(now);
    }

    /// `rotate_outbound`, at this time.
    pub fn rotate_outbound_at(&mut self, now: i64)
        requires
            old(self)@.wf(),
        ensures
            final(self)@.wf(),
            final(self)@.is_unused(),
            exists|pickle: Seq<char>| final(self)@ == #[trigger] old(self)@.rotated(pickle, now),
    {
        let outbound: String = new_outbound(&self.persist_key);
        let ghost pickle = outbound@;
        let done: bool = self.rotate_to(outbound, now);
        assert(done);
        assert(self@ == old(self)@.rotated(pickle, now));
    }

    pub fn messages_since_rotation(&self) -> (r: u32)
        ensures
            r == self@.messages_since_rotation,
    {
        self.messages_since_rotation
    }

    pub fn last_rotation_at(&self) -> (r: i64)
        ensures
            r == self@.last_rotation_at,
    {
        self.last_rotation_at
    }

    /// The age of the outbound session at this time; none for a clock that went back.
    pub fn seconds_since_rotation_at(&self, now: i64) -> (r: i64)
        ensures
            r == age(self@.last_rotation_at as int, now as int),
    {
        let d: i128 = (now as i128) - (self.last_rotation_at as i128);
        if d <= 0 {
            0
        } else if d > i64::MAX as i128 {
            i64::MAX
        } else {
            d as i64
        }
    }

    /// The age of the outbound session.
    pub fn seconds_since_rotation(&self) -> (r: i64)
        ensures
            exists|now: int| r == #[trigger] age(self@.last_rotation_at as int, now),
    {
        self.seconds_since_rotation_at(clock::now_unix())
    }

    /// The outbound session is due at this time.
    pub fn should_rotate_at(&self, policy: &RotationPolicy, now: i64) -> (r: bool)
        ensures
            r == policy.due(
                self@.messages_since_rotation as int,
                age(self@.last_rotation_at as int, now as int),
            ),
    {
        policy.should_rotate(self.messages_since_rotation, self.seconds_since_rotation_at(now))
    }

    /// The outbound session is due.
    pub fn should_rotate(&self, policy: &RotationPolicy) -> (r: bool)
        ensures
            exists|now: int|
                r == policy.due(
                    self@.messages_since_rotation as int,
                    #[trigger] age(self@.last_rotation_at as int, now),
                ),
    {
        self.should_rotate_at(policy, clock::now_unix())
    }

    /// Goes on counting from what was stored.
    pub fn restore_rotation_state(&mut self, messages_since_rotation: u32, last_rotation_at: i64)
        ensures
            final(self)@ == (RoomCryptoView {
                messages_since_rotation,
                last_rotation_at,
                ..old(self)@
            }),
    {
        self.messages_since_rotation = messages_since_rotation;
        self.last_rotation_at = last_rotation_at;
    }

    /// The key of our outbound session, to share with the members of the room.
    pub fn our_session_key_b64(&self) -> (r: String)
        requires
            self@.wf(),
        ensures
            r@ == self@.session_key(),
            self@.is_shareable(),
    {
        outbound_key(self.outbound.as_str(), &self.persist_key).unwrap()
    }

    pub fn our_session_id(&self) -> (r: String)
        requires
            self@.wf(),
        ensures
            r@ == self@.session_id(),
    {
        outbound_id(self.outbound.as_str(), &self.persist_key).unwrap()
    }

    pub fn our_fingerprint(&self) -> (r: &str)
        ensures
            r@ == self@.our_fingerprint,
    {
        self.our_fingerprint.as_str()
    }

    pub fn room_id(&self) -> (r: &str)
        ensures
            r@ == self@.room_id,
    {
        self.room_id.as_str()
    }

    /// Hands over what is to be written to the store.
    pub fn take_writes(&mut self) -> (r: Vec<SessionWrite>)
        ensures
            write_views(r@) == old(self)@.writes,
            final(self)@ == (RoomCryptoView { writes: Seq::empty(), ..old(self)@ }),
    {
        let mut out: Vec<SessionWrite> = Vec::new();
        std::mem::swap(&mut out, &mut self.writes);
        assert(self@.writes =~= Seq::<SessionWriteView>::empty());
        out
    }
}

/// The age of what began at `since`; none if that lies ahead.
pub open spec fn age(since: int, now: int) -> int {
    if now <= since {
        0
    } else if now - since > i64::MAX {
        i64::MAX as int
    } else {
        now - since
    }
}

/// The outbound session has sent one message more.
pub open spec fn sent_on(before: RoomCryptoView, after: RoomCryptoView) -> bool {
    &&& after.persist_key == before.persist_key
    &&& after.session_id() == before.session_id()
    &&& megolm_next_index(before.outbound, before.persist_key) is Some
    &&& megolm_next_index(before.outbound, before.persist_key)->0 < u32::MAX
    &&& megolm_next_index(after.outbound, after.persist_key) == Some(
        (megolm_next_index(before.outbound, before.persist_key)->0 + 1) as u32,
    )
}

/// Every inbound session is still there, and reads what it read before.
pub open spec fn reads_on(before: RoomCryptoView, after: RoomCryptoView) -> bool {
    &&& after.persist_key == before.persist_key
    &&& forall|k: (Seq<char>, Seq<char>)| #[trigger]
        before.inbound.dom().contains(k) ==> after.inbound.dom().contains(k) && same_reader(
            after.inbound[k],
            after.persist_key,
            before.inbound[k],
            before.persist_key,
        )
}

// ---------------------------------------------------------------------------------------------
// Laws
// ---------------------------------------------------------------------------------------------

proof fn lemma_same_reader(a: Seq<char>, b: Seq<char>, c: Seq<char>, key: Seq<u8>)
    requires
        same_reader(a, key, b, key),
        same_reader(b, key, c, key),
    ensures
        same_reader(a, key, c, key),
{
    assert forall|m: Seq<u8>|
        match (#[trigger] megolm_decrypted(a, key, m), megolm_decrypted(c, key, m)) {
            (Ok(x), Ok(y)) => x.0 == y.0 && x.1 == y.1,
            (Err(x), Err(y)) => x == y,
            _ => false,
        } by {
        let _ = megolm_decrypted(b, key, m);
    }
}

/// Whoever takes in a session key reads what is sent with that session from then on. That every member can
/// take it in is what `RoomCrypto::our_session_key_b64` says.
pub proof fn law_session_keys_are_handed_over(
    receiver: RoomCryptoView,
    sender: Seq<char>,
    from: RoomCryptoView,
    now: i64,
)
    requires
        receiver.wf(),
        from.is_shareable(),
    ensures
        receiver.with_inbound(
            sender,
            from.session_id(),
            megolm_imported(from.session_key(), receiver.persist_key)->Ok_0.0,
            now,
        ).holds(sender, from),
{
    let pickle = megolm_imported(from.session_key(), receiver.persist_key)->Ok_0.0;
    let after = receiver.with_inbound(sender, from.session_id(), pickle, now);
    let none = Seq::<Seq<u8>>::empty();
    assert(evolved(from.outbound, from.persist_key, none) == from.outbound);
    assert(comes_from(from.outbound, from.persist_key, from.outbound, none));
    assert(same_reader(pickle, receiver.persist_key, pickle, receiver.persist_key));
    assert forall|k: (Seq<char>, Seq<char>)| after.inbound.dom().contains(
        k,
    ) implies megolm_inbound_opens(#[trigger] after.inbound[k], after.persist_key) by {
        if k != (sender, from.session_id()) {
            assert(receiver.inbound.dom().contains(k));
            assert(megolm_inbound_opens(receiver.inbound[k], receiver.persist_key));
        }
    }
}

/// What one member sends, every member reads who took in a key of the session, then or earlier: the same
/// plaintext, under the index of the message.
pub proof fn law_members_read_what_is_sent(
    receiver: RoomCryptoView,
    sender: Seq<char>,
    from: RoomCryptoView,
    message: Seq<u8>,
    plaintext: Seq<u8>,
)
    requires
        receiver.holds(sender, from),
        readable(from.outbound, from.persist_key, message, plaintext),
    ensures
        receiver.decrypted(sender, from.session_id(), message) matches Ok(d) && d.0 == plaintext
            && d.1 == megolm_next_index(from.outbound, from.persist_key)->0,
{
    let inbound = receiver.inbound[(sender, from.session_id())];
    let key = receiver.persist_key;
    let (start, sent) = choose|start: Seq<char>, sent: Seq<Seq<u8>>| #[trigger]
        comes_from(from.outbound, from.persist_key, start, sent) && (match megolm_imported(
            megolm_session_key(start, from.persist_key)->0,
            key,
        ) {
            Ok(session) => same_reader(inbound, key, session.0, key),
            Err(_) => false,
        });
    let session_key = megolm_session_key(start, from.persist_key)->0;
    assert(reads_back(
        session_key,
        message,
        plaintext,
        megolm_next_index(from.outbound, from.persist_key)->0,
    ));
    let session = megolm_imported(session_key, key)->Ok_0;
    assert(same_reader(inbound, key, session.0, key));
    let _ = megolm_decrypted(inbound, key, message);
    assert(megolm_decrypted(session.0, key, message) is Ok);
}

/// However much a member sends, whoever could read them can still.
pub proof fn law_members_keep_reading(
    receiver: RoomCryptoView,
    sender: Seq<char>,
    from: RoomCryptoView,
    plaintext: Seq<u8>,
    now: i64,
)
    requires
        receiver.holds(sender, from),
        sent_on(from, from.after_encrypt(plaintext, now)),
    ensures
        receiver.holds(sender, from.after_encrypt(plaintext, now)),
{
    let after = from.after_encrypt(plaintext, now);
    let inbound = receiver.inbound[(sender, from.session_id())];
    let key = receiver.persist_key;
    let (start, sent) = choose|start: Seq<char>, sent: Seq<Seq<u8>>| #[trigger]
        comes_from(from.outbound, from.persist_key, start, sent) && (match megolm_imported(
            megolm_session_key(start, from.persist_key)->0,
            key,
        ) {
            Ok(session) => same_reader(inbound, key, session.0, key),
            Err(_) => false,
        });
    let more = sent.push(plaintext);
    assert(more.drop_last() =~= sent);
    assert(evolved(start, from.persist_key, more) == after.outbound);
    assert(comes_from(after.outbound, after.persist_key, start, more));
}

/// However much a member reads, in whatever order, whom they could read they still can.
pub proof fn law_readers_keep_reading(
    receiver: RoomCryptoView,
    sender: Seq<char>,
    from: RoomCryptoView,
    after: RoomCryptoView,
)
    requires
        receiver.holds(sender, from),
        after.wf(),
        reads_on(receiver, after),
    ensures
        after.holds(sender, from),
{
    let k = (sender, from.session_id());
    let key = receiver.persist_key;
    let inbound = receiver.inbound[k];
    let (start, sent) = choose|start: Seq<char>, sent: Seq<Seq<u8>>| #[trigger]
        comes_from(from.outbound, from.persist_key, start, sent) && (match megolm_imported(
            megolm_session_key(start, from.persist_key)->0,
            key,
        ) {
            Ok(session) => same_reader(inbound, key, session.0, key),
            Err(_) => false,
        });
    let session = megolm_imported(megolm_session_key(start, from.persist_key)->0, key)->Ok_0;
    assert(receiver.inbound.dom().contains(k));
    lemma_same_reader(after.inbound[k], inbound, session.0, key);
    assert(comes_from(from.outbound, from.persist_key, start, sent));
}

/// A member after sending these texts, each at its time.
pub open spec fn after_sending(from: RoomCryptoView, said: Seq<(Seq<u8>, i64)>) -> RoomCryptoView
    decreases said.len(),
{
    if said.len() == 0 {
        from
    } else {
        after_sending(from, said.drop_last()).after_encrypt(said.last().0, said.last().1)
    }
}

/// The encrypted message that carries the `k`-th of these texts.
pub open spec fn message_at(from: RoomCryptoView, said: Seq<(Seq<u8>, i64)>, k: int) -> Seq<u8> {
    let c = after_sending(from, said.take(k));
    (megolm_encrypted(c.outbound, c.persist_key, said[k].0)->0).1
}

/// Each of these texts was encrypted, which `RoomCrypto::encrypt_at` did: it says this of each.
pub open spec fn all_sent(from: RoomCryptoView, said: Seq<(Seq<u8>, i64)>) -> bool {
    forall|k: int|
        0 <= k < said.len() ==> {
            let c = after_sending(from, said.take(k));
            &&& sent_on(c, c.after_encrypt(said[k].0, said[k].1))
            &&& readable(c.outbound, c.persist_key, #[trigger] message_at(from, said, k), said[k].0)
        }
}

proof fn lemma_followed(
    receiver: RoomCryptoView,
    sender: Seq<char>,
    from: RoomCryptoView,
    said: Seq<(Seq<u8>, i64)>,
    k: int,
)
    requires
        receiver.holds(sender, from),
        from.is_unused(),
        all_sent(from, said),
        0 <= k <= said.len(),
    ensures
        receiver.holds(sender, after_sending(from, said.take(k))),
        after_sending(from, said.take(k)).session_id() == from.session_id(),
        megolm_next_index(
            after_sending(from, said.take(k)).outbound,
            after_sending(from, said.take(k)).persist_key,
        ) == Some(k as u32),
        k <= u32::MAX,
    decreases k,
{
    if k == 0 {
        assert(said.take(0) =~= Seq::<(Seq<u8>, i64)>::empty());
    } else {
        lemma_followed(receiver, sender, from, said, k - 1);
        let c = after_sending(from, said.take(k - 1));
        let _ = message_at(from, said, k - 1);
        assert(said.take(k).drop_last() =~= said.take(k - 1));
        assert(said.take(k).last() == said[k - 1]);
        law_members_keep_reading(receiver, sender, c, said[k - 1].0, said[k - 1].1);
    }
}

/// The `k`-th message of a session, counted from zero, is read as the `k`-th text, under the index `k`, by
/// every member who took in the session's first key, whatever else they have read since.
pub proof fn law_each_message_is_read_at_its_index(
    receiver: RoomCryptoView,
    sender: Seq<char>,
    from: RoomCryptoView,
    said: Seq<(Seq<u8>, i64)>,
    reader: RoomCryptoView,
    k: int,
)
    requires
        receiver.holds(sender, from),
        from.is_unused(),
        all_sent(from, said),
        reader.wf(),
        reads_on(receiver, reader),
        0 <= k < said.len(),
    ensures
        reader.decrypted(sender, from.session_id(), message_at(from, said, k)) matches Ok(d) && d.0
            == said[k].0 && d.1 == k,
{
    let c = after_sending(from, said.take(k));
    lemma_followed(receiver, sender, from, said, k);
    lemma_followed(receiver, sender, from, said, k + 1);
    law_readers_keep_reading(receiver, sender, c, reader);
    law_members_read_what_is_sent(reader, sender, c, message_at(from, said, k), said[k].0);
}

/// Without a session of this sender under this id nothing is decrypted, and the error begins with the words
/// that tell it from any other.
pub proof fn law_missing_sessions_are_named(
    receiver: RoomCryptoView,
    sender: Seq<char>,
    session_id: Seq<char>,
    message: Seq<u8>,
)
    requires
        !receiver.inbound.dom().contains((sender, session_id)),
    ensures
        receiver.decrypted(sender, session_id, message) matches Err(ErrorView::Session(words))
            && text::starts_with(words, MISSING_INBOUND_SESSION_ERR@),
{
    let words = "no inbound megolm session"@ + " for "@ + sender + " / "@ + session_id;
    assert(words.take("no inbound megolm session"@.len() as int) =~= "no inbound megolm session"@);
}

// ---------------------------------------------------------------------------------------------
// Another key for what is stored
// ---------------------------------------------------------------------------------------------

/// A stored session under another key: the row to store in its place. One that cannot be read under the
/// old key is left as it is.
pub open spec fn row_moved(row: StoredSessionView, old_key: Seq<u8>, new_key: Seq<u8>) -> Option<
    StoredSessionView,
> {
    if !vstd::utf8::valid_utf8(row.session_data) {
        None
    } else {
        let pickle = vstd::utf8::decode_utf8(row.session_data);
        let next = if row.is_outbound {
            megolm_outbound_moved(pickle, old_key, new_key)
        } else {
            megolm_inbound_moved(pickle, old_key, new_key)
        };
        match next {
            Ok(p) => Some(StoredSessionView { session_data: vstd::utf8::encode_utf8(p), ..row }),
            Err(_) => None,
        }
    }
}

/// The stored sessions under another key: those that can be read under the old one.
pub open spec fn rows_moved(
    rows: Seq<StoredSessionView>,
    old_key: Seq<u8>,
    new_key: Seq<u8>,
) -> Seq<StoredSessionView>
    decreases rows.len(),
{
    if rows.len() == 0 {
        Seq::empty()
    } else {
        let before = rows_moved(rows.drop_last(), old_key, new_key);
        match row_moved(rows.last(), old_key, new_key) {
            None => before,
            Some(row) => before.push(row),
        }
    }
}

fn move_row(row: &StoredMegolmSession, old_key: &[u8; 32], new_key: &[u8; 32]) -> (r: Option<
    StoredMegolmSession,
>)
    ensures
        match r {
            Some(next) => row_moved(row@, old_key@, new_key@) == Some(next@) && moves_well(
                row@,
                old_key@,
                next@,
                new_key@,
            ),
            None => row_moved(row@, old_key@, new_key@) is None,
        },
{
    broadcast use vstd::utf8::encode_utf8_valid_utf8, vstd::utf8::encode_utf8_decode_utf8;

    let pickle: String = match text::text_of_utf8(row.session_data.as_slice()) {
        None => {
            return None;
        },
        Some(p) => p,
    };
    let moved_to = if row.is_outbound {
        move_outbound(pickle.as_str(), old_key, new_key)
    } else {
        move_inbound(pickle.as_str(), old_key, new_key)
    };
    match moved_to {
        Err(_) => None,
        Ok(next) => Some(
            StoredMegolmSession {
                room_id: row.room_id.clone(),
                sender_fingerprint: row.sender_fingerprint.clone(),
                session_id: row.session_id.clone(),
                session_data: bytes::to_vec(next.as_str().as_bytes()),
                is_outbound: row.is_outbound,
                created_at: row.created_at,
            },
        ),
    }
}

/// A session that was moved is the same session under the new key: it sends under the same id and key
/// from the same index on, or reads the same messages.
pub open spec fn moves_well(
    row: StoredSessionView,
    old_key: Seq<u8>,
    next: StoredSessionView,
    new_key: Seq<u8>,
) -> bool {
    let a = vstd::utf8::decode_utf8(row.session_data);
    let b = vstd::utf8::decode_utf8(next.session_data);
    &&& vstd::utf8::valid_utf8(next.session_data)
    &&& if row.is_outbound {
        &&& megolm_session_id(b, new_key) is Some
        &&& megolm_session_id(b, new_key) == megolm_session_id(a, old_key)
        &&& megolm_session_key(b, new_key) == megolm_session_key(a, old_key)
        &&& megolm_next_index(b, new_key) == megolm_next_index(a, old_key)
    } else {
        megolm_inbound_opens(b, new_key) && same_reader(b, new_key, a, old_key)
    }
}

/// Puts stored sessions under another key: the rows to store. A row that cannot be read under the old key
/// is left as it is.
pub fn reencrypt_megolm_sessions(
    rows: &Vec<StoredMegolmSession>,
    old_key: &[u8; 32],
    new_key: &[u8; 32],
) -> (r: Vec<StoredMegolmSession>)
    ensures
        row_views(r@) == rows_moved(row_views(rows@), old_key@, new_key@),
        forall|i: int|
            0 <= i < rows@.len() ==> match row_moved(
                #[trigger] row_views(rows@)[i],
                old_key@,
                new_key@,
            ) {
                Some(next) => moves_well(row_views(rows@)[i], old_key@, next, new_key@),
                None => true,
            },
{
    let ghost all = row_views(rows@);
    let mut out: Vec<StoredMegolmSession> = Vec::new();
    let mut i: usize = 0;
    assert(row_views(out@) =~= rows_moved(all.take(0), old_key@, new_key@));
    while i < rows.len()
        invariant
            i <= rows@.len(),
            all == row_views(rows@),
            row_views(out@) == rows_moved(all.take(i as int), old_key@, new_key@),
            forall|j: int|
                0 <= j < i ==> match row_moved(#[trigger] all[j], old_key@, new_key@) {
                    Some(next) => moves_well(all[j], old_key@, next, new_key@),
                    None => true,
                },
        decreases rows@.len() - i,
    {
        let ghost got = row_views(out@);
        proof {
            assert(all.take(i + 1).drop_last() =~= all.take(i as int));
            assert(all.take(i + 1).last() == rows@[i as int]@);
        }
        match move_row(&rows[i], old_key, new_key) {
            None => {},
            Some(row) => {
                let ghost v = row@;
                out.push(row);
                assert(row_views(out@) =~= got.push(v));
            },
        }
        i = i + 1;
    }
    assert(all.take(all.len() as int) =~= all);
    out
}

} // verus!
