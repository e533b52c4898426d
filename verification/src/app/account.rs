//! The account: its seed phrase, the passphrase that protects what is stored, and its end.
use crate::app::ids;
use crate::app::rooms;
use crate::app::{ActiveRoom, AppHandle, AppView, RoomView};
use crate::crypto::megolm::{self, RoomCrypto, RoomCryptoView, StoredMegolmSession};
use crate::crypto::mnemonic;
use crate::crypto::primitives;
use crate::error::{ErrorView, HuddleError};
use crate::text;
use vstd::prelude::*;

verus! {

/// The files of an account in its data directory.
pub const ACCOUNT_FILES: [&'static str; 6] = [
    "huddle.db",
    "huddle.db-shm",
    "huddle.db-wal",
    "keychain.salt",
    "huddle.log",
    "config.toml",
];

/// A file of an account by its name: one of the account, or an older log.
pub fn is_account_file(name: &str) -> (r: bool)
    ensures
        r == ((exists|i: int| 0 <= i < 6 && name@ == #[trigger] ACCOUNT_FILES@[i]@)
            || text::starts_with(name@, "huddle.log."@)),
{
    let mut i: usize = 0;
    while i < 6
        invariant
            i <= 6,
            forall|j: int| 0 <= j < i ==> name@ != #[trigger] ACCOUNT_FILES@[j]@,
        decreases 6 - i,
    {
        if text::same(name, ACCOUNT_FILES[i]) {
            assert(name@ == ACCOUNT_FILES@[i as int]@);
            return true;
        }
        i = i + 1;
    }
    text::text_has_prefix(name, "huddle.log.")
}

impl AppView {
    /// What is stored is protected by a passphrase.
    pub open spec fn is_protected(self) -> bool {
        self.persist_key != primitives::zeros32()
    }

    /// Why a passphrase does not take the place of another. `current_key` is the key that the passphrase
    /// which the user gave as the current one makes.
    pub open spec fn change_refused(self, current_key: Seq<u8>, new: Seq<char>) -> Option<ErrorView> {
        if !self.is_protected() {
            Some(
                ErrorView::Other(
                    "this session has no master passphrase to change (started with --no-master-passphrase)"@,
                ),
            )
        } else if ids::passphrase_fault(new) is Some {
            ids::passphrase_fault(new)
        } else if current_key != self.persist_key {
            Some(ErrorView::Other("incorrect current passphrase"@))
        } else {
            None
        }
    }

    /// Why the account is not deleted.
    pub open spec fn end_refused(self, key: Seq<u8>, passphrase: Seq<char>) -> Option<ErrorView> {
        if !self.is_protected() {
            ids::passphrase_fault(passphrase)
        } else if key != self.persist_key {
            Some(ErrorView::Other("incorrect master passphrase"@))
        } else {
            None
        }
    }
}

impl AppHandle {
    /// What is stored is protected by a passphrase.
    pub fn has_master_passphrase(&self) -> (r: bool)
        ensures
            r == self@.is_protected(),
    {
        let zero: [u8; 32] = [0u8; 32];
        assert(zero@ =~= primitives::zeros32());
        !ids::ct_eq_32(&self.session_persist_key, &zero)
    }

    /// The phrase of our seed. It is not shown where nothing protects it.
    pub fn export_seed_phrase(&self) -> (r: Result<String, HuddleError>)
        ensures
            match r {
                Ok(phrase) => self@.is_protected() && mnemonic::seed_of(phrase@) == Ok::<
                    Seq<u8>,
                    ErrorView,
                >(self@.identity.seed) && phrase@ == mnemonic::bip39_phrase(self@.identity.seed),
                Err(e) => !self@.is_protected() && e@ == ErrorView::Other(
                    "seed export requires a master passphrase to protect the exported phrase"@,
                ),
            },
    {
        if !self.has_master_passphrase() {
            return Err(
                crate::error::other_error(
                    "seed export requires a master passphrase to protect the exported phrase",
                ),
            );
        }
        Ok(mnemonic::seed_to_phrase(&self.identity.seed()))
    }

    /// The phrase stands for our identity.
    pub fn verify_seed_reentry(&self, phrase: &str) -> (r: Result<bool, HuddleError>)
        ensures
            match r {
                Ok(same) => ids::phrase_fingerprint(phrase@) is Ok && same == (
                ids::phrase_fingerprint(phrase@)->Ok_0 == self@.our_fp()),
                Err(e) => ids::phrase_fingerprint(phrase@) == Err::<Seq<char>, ErrorView>(e@),
            },
    {
        match ids::fingerprint_from_phrase(phrase) {
            Err(e) => Err(e),
            Ok(fp) => Ok(text::same(fp.as_str(), self.identity.fingerprint())),
        }
    }

    /// Whether the passphrase may be changed: there is one, the new one is long enough, and the key that
    /// the current one makes is ours.
    pub fn change_master_passphrase(&self, current_key: &[u8; 32], new: &str) -> (r: Result<
        (),
        HuddleError,
    >)
        ensures
            match r {
                Ok(_) => self@.change_refused(current_key@, new@) is None,
                Err(e) => self@.change_refused(current_key@, new@) == Some(e@),
            },
    {
        if !self.has_master_passphrase() {
            return Err(
                crate::error::other_error(
                    "this session has no master passphrase to change (started with --no-master-passphrase)",
                ),
            );
        }
        match ids::validate_passphrase_len(new) {
            Err(e) => {
                return Err(e);
            },
            Ok(_) => {},
        }
        if !ids::ct_eq_32(current_key, &self.session_persist_key) {
            return Err(crate::error::other_error("incorrect current passphrase"));
        }
        Ok(())
    }

    /// The stored sessions under another key, to be stored before that key takes over.
    pub fn sessions_under(&self, rows: &Vec<StoredMegolmSession>, new_key: &[u8; 32]) -> (r: Vec<
        StoredMegolmSession,
    >)
        ensures
            megolm::row_views(r@) == megolm::rows_moved(
                megolm::row_views(rows@),
                self@.persist_key,
                new_key@,
            ),
    {
        megolm::reencrypt_megolm_sessions(rows, &self.session_persist_key, new_key)
    }

    /// The key under which sessions are kept on disk from now on.
    pub fn set_persist_key(&mut self, new_key: [u8; 32])
        requires
            old(self)@.wf(),
        ensures
            final(self)@.wf(),
            final(self)@ == (AppView { persist_key: new_key@, ..old(self)@ }),
    {
        let ghost before = self@;
        self.session_persist_key = new_key;
        assert(self@ =~= AppView { persist_key: new_key@, ..before });
    }

    /// Takes the sessions of an encrypted room from disk again, after their key changed. Where there are
    /// none, the room keeps those that it has.
    pub fn reload_room_crypto(
        &mut self,
        room_id: &str,
        rows: &Vec<StoredMegolmSession>,
        rotation: Option<(u32, i64)>,
    )
        requires
            old(self)@.wf(),
        ensures
            final(self)@.wf(),
            crypto_reloaded(
                old(self)@,
                room_id@,
                megolm::row_views(rows@),
                rotation,
                final(self)@,
            ),
    {
        let ghost before = self@;
        let mut room: ActiveRoom = match self.take_room(room_id) {
            None => {
                return ;
            },
            Some(room) => room,
        };
        let ghost room0 = room@;
        if room.info.encrypted {
            match RoomCrypto::load(
                rows,
                room.info.id.clone(),
                text::owned(self.identity.fingerprint()),
                self.session_persist_key,
            ) {
                None => {},
                Some(mut c) => {
                    match rotation {
                        Some((count, at)) => {
                            c.restore_rotation_state(count, at);
                        },
                        None => {},
                    }
                    let ghost next = c@;
                    room.crypto = Some(c);
                    proof {
                        assert(room@ =~= RoomView { crypto: Some(next), ..room0 });
                        assert(rooms::entry_crypto(
                            Some(next),
                            true,
                            room_id@,
                            before.our_fp(),
                            before.persist_key,
                            megolm::row_views(rows@),
                            rotation,
                        ));
                    }
                },
            }
        }
        let ghost room1 = room@;
        proof {
            super::lemma_put_back(before, room_id@, room1);
        }
        self.put_room(room_id, room);
        proof {
            if room0.info.encrypted && megolm::stored_outbound(
                megolm::row_views(rows@),
                before.persist_key,
            ) is Some {
                assert(before.with_crypto(room_id@, room1.crypto->0) == self@);
            } else {
                assert(room1 =~= room0);
            }
        }
    }

    /// Whether the account may be deleted: the passphrase makes our key, or where there is none, the words
    /// that the user gave are long enough.
    pub fn go_dark(&self, key: &[u8; 32], passphrase: &str) -> (r: Result<(), HuddleError>)
        ensures
            match r {
                Ok(_) => self@.end_refused(key@, passphrase@) is None,
                Err(e) => self@.end_refused(key@, passphrase@) == Some(e@),
            },
    {
        if !self.has_master_passphrase() {
            return ids::validate_passphrase_len(passphrase);
        }
        if !ids::ct_eq_32(key, &self.session_persist_key) {
            return Err(crate::error::other_error("incorrect master passphrase"));
        }
        Ok(())
    }
}

/// The sessions of an encrypted room are those on disk, where there are any.
pub open spec fn crypto_reloaded(
    before: AppView,
    room_id: Seq<char>,
    rows: Seq<megolm::StoredSessionView>,
    rotation: Option<(u32, i64)>,
    after: AppView,
) -> bool {
    if before.rooms.dom().contains(room_id) && before.rooms[room_id].info.encrypted
        && megolm::stored_outbound(rows, before.persist_key) is Some {
        exists|c: RoomCryptoView| #[trigger]
            before.with_crypto(room_id, c) == after && rooms::entry_crypto(
                Some(c),
                true,
                room_id,
                before.our_fp(),
                before.persist_key,
                rows,
                rotation,
            )
    } else {
        after == before
    }
}

} // verus!
