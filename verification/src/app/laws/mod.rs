//! What the application is for: what holds of its operations and of their results, whoever carries them out.
//!
//! Most of these laws follow something from one peer to another: what one writes, the other shows; what one
//! sends, the other can save; whom one bans, the other forgets.
pub mod account;
pub mod codes;
pub mod connections;
pub mod contacts;
pub mod delivery;
pub mod files;
pub mod keys;
pub mod lobby;
pub mod messages;
pub mod rooms;
pub mod upkeep;
pub mod verification;

use crate::app::effects::{EffectView, WriteView};
use crate::app::events::EventView;
use crate::app::messages::MessageView;
use crate::crypto::primitives;
use vstd::prelude::*;

verus! {

/// What an effect changes on disk.
pub open spec fn written(x: EffectView) -> Option<WriteView> {
    match x {
        EffectView::Store(w) => Some(w),
        EffectView::MustStore(w) => Some(w),
        EffectView::StoreThen(w, _) => Some(w),
        EffectView::ChangeThen(w, _) => Some(w),
        EffectView::StoreOffer(a, _) => Some(WriteView::Attachment(a)),
        _ => None,
    }
}

/// What an effect tells the user interface.
pub open spec fn shown(x: EffectView) -> Option<EventView> {
    match x {
        EffectView::Emit(v) => Some(v),
        EffectView::StoreThen(_, v) => Some(v),
        EffectView::ChangeThen(_, v) => Some(v),
        EffectView::StoreOffer(_, v) => Some(v),
        EffectView::StartDirectThen(_, v, _) => Some(v),
        _ => None,
    }
}

/// The message that an effect sends to a room, and the room.
pub open spec fn sent(x: EffectView) -> Option<(Seq<char>, MessageView)> {
    match x {
        EffectView::Publish { room_id, message } => Some((room_id, message)),
        EffectView::PublishPaced { room_id, message } => Some((room_id, message)),
        EffectView::PublishSigned { room_id, message } => Some((room_id, message)),
        _ => None,
    }
}

/// One of the effects changes this on disk.
pub open spec fn writes(eff: Seq<EffectView>, w: WriteView) -> bool {
    exists|i: int| 0 <= i < eff.len() && written(#[trigger] eff[i]) == Some(w)
}

/// One of the effects tells the user interface this.
pub open spec fn shows(eff: Seq<EffectView>, v: EventView) -> bool {
    exists|i: int| 0 <= i < eff.len() && shown(#[trigger] eff[i]) == Some(v)
}

/// One of the effects sends this message to this room.
pub open spec fn sends(eff: Seq<EffectView>, room_id: Seq<char>, message: MessageView) -> bool {
    exists|i: int| 0 <= i < eff.len() && sent(#[trigger] eff[i]) == Some((room_id, message))
}

/// Something is sent to this room, and nothing to any other.
pub open spec fn tells(eff: Seq<EffectView>, room_id: Seq<char>) -> bool {
    &&& exists|i: int| 0 <= i < eff.len() && sent(#[trigger] eff[i]) is Some
    &&& forall|i: int|
        0 <= i < eff.len() ==> (sent(#[trigger] eff[i]) matches Some(s) ==> s.0 == room_id)
}

/// Base64 reads these bytes back as they were.
pub open spec fn reads_back(b: Seq<u8>) -> bool {
    primitives::base64_bytes(primitives::base64_text(b)) == primitives::read(b)
}

} // verus!
