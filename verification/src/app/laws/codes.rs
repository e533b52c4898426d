//! Join codes: how an owner lets somebody into an encrypted room who does not know its passphrase.
use super::{reads_back, sends, sent, shown, shows};
use crate::app::chat;
use crate::app::code_join;
use crate::app::effects::EffectView;
use crate::app::events::EventView;
use crate::app::facts::{EnvelopeView, FactsView};
use crate::app::handlers::handled;
use crate::app::messages::MessageView;
use crate::app::rooms::{self, PlanView};
use crate::app::AppView;
use crate::crypto::megolm::{RoomCryptoView, RotationPolicy};
use crate::crypto::primitives;
use crate::error::ErrorView;
use vstd::prelude::*;

verus! {

proof fn lemma_live(codes: Seq<(Seq<char>, i64)>, now: i64)
    ensures
        forall|c: (Seq<char>, i64)| #[trigger]
            code_join::live_codes(codes, now).contains(c) <==> codes.contains(c) && c.1 > now,
    decreases codes.len(),
{
    reveal(Seq::filter);
    if codes.len() > 0 {
        let rest = codes.drop_last();
        lemma_live(rest, now);
        let live = code_join::live_codes(rest, now);
        assert(codes =~= rest.push(codes.last()));
        assert forall|c: (Seq<char>, i64)| codes.contains(c) <==> rest.contains(c) || c
            == codes.last() by {
            lemma_pushed(rest, codes.last(), c);
        }
        assert forall|c: (Seq<char>, i64)| #[trigger] live.push(codes.last()).contains(c)
            <==> live.contains(c) || c == codes.last() by {
            lemma_pushed(live, codes.last(), c);
        }
    }
}

proof fn lemma_pushed(s: Seq<(Seq<char>, i64)>, x: (Seq<char>, i64), c: (Seq<char>, i64))
    ensures
        s.push(x).contains(c) <==> s.contains(c) || c == x,
{
    let t = s.push(x);
    if s.contains(c) {
        let i = choose|i: int| 0 <= i < s.len() && s[i] == c;
        assert(t[i] == c);
    }
    if c == x {
        assert(t[s.len() as int] == c);
    }
    if t.contains(c) {
        let i = choose|i: int| 0 <= i < t.len() && t[i] == c;
        if i < s.len() {
            assert(s[i] == c);
        }
    }
}

/// A code with this text has not expired.
pub open spec fn counts(codes: Seq<(Seq<char>, i64)>, code: Seq<char>, now: i64) -> bool {
    exists|i: int| 0 <= i < codes.len() && (#[trigger] codes[i]).0 == code && codes[i].1 > now
}

/// Every owner who is in the room can give out a code, and nobody else; it counts for ten minutes and no
/// longer, and the codes that had not expired count as before.
pub proof fn law_issued_codes_count_for_ten_minutes(
    app: AppView,
    f: FactsView,
    room_id: Seq<char>,
    now: i64,
    after: AppView,
    r: Result<Seq<char>, ErrorView>,
    t: i64,
)
    requires
        app.code_issued(f, room_id, now, after, r),
        now + 600 <= i64::MAX,
        now <= t,
    ensures
        r is Ok <==> f.owners.contains(app.our_fp()) && !f.banned.contains(app.our_fp())
            && app.rooms.dom().contains(room_id),
        r matches Ok(code) ==> {
            &&& t < now + 600 ==> counts(after.rooms[room_id].codes, code, t)
            &&& t >= now + 600 && !counts(app.rooms[room_id].codes, code, t) ==> !counts(
                after.rooms[room_id].codes,
                code,
                t,
            )
            &&& forall|other: Seq<char>|
                other != code ==> (#[trigger] counts(after.rooms[room_id].codes, other, t)
                    <==> counts(app.rooms[room_id].codes, other, t))
        },
        r is Err ==> after == app,
{
    if r is Ok {
        let code = r->Ok_0;
        let old_codes = app.rooms[room_id].codes;
        let live = code_join::live_codes(old_codes, now);
        let new_codes = after.rooms[room_id].codes;
        let x = (code, (now + 600) as i64);
        lemma_live(old_codes, now);
        assert(new_codes == live.push(x));
        if t < now + 600 {
            assert(new_codes[live.len() as int] == x);
        }
        assert forall|other: Seq<char>|
            other != code || t >= now + 600 implies #[trigger] counts(new_codes, other, t)
            <==> counts(old_codes, other, t) by {
            if counts(new_codes, other, t) {
                let i = choose|i: int|
                    0 <= i < new_codes.len() && (#[trigger] new_codes[i]).0 == other
                        && new_codes[i].1 > t;
                assert(i < live.len());
                assert(live.contains(live[i]));
                let j = choose|j: int| 0 <= j < old_codes.len() && old_codes[j] == live[i];
                assert(old_codes[j].0 == other);
            }
            if counts(old_codes, other, t) {
                let j = choose|j: int|
                    0 <= j < old_codes.len() && (#[trigger] old_codes[j]).0 == other
                        && old_codes[j].1 > t;
                assert(old_codes.contains(old_codes[j]));
                assert(live.contains(old_codes[j]));
                let i = choose|i: int| 0 <= i < live.len() && live[i] == old_codes[j];
                assert(new_codes[i] == old_codes[j]);
            }
        }
    }
}

/// Whoever waits to be let in is in the room, but cannot say anything there yet.
pub proof fn law_whoever_waits_is_silent(
    app: AppView,
    plan: PlanView,
    code: Seq<char>,
    code_proof: Seq<u8>,
    secret: Seq<u8>,
    public: Seq<u8>,
    after: AppView,
    body: Seq<char>,
    reply_to: Option<Seq<char>>,
    id: Seq<char>,
    policy: RotationPolicy,
    now: i64,
    later: AppView,
    r: Result<Seq<EffectView>, ErrorView>,
)
    requires
        app.waiting_to_join(plan, secret, after),
        chat::message_sent(after, plan.info.id, body, reply_to, id, policy, now, later, r),
    ensures
        after.rooms.dom().contains(plan.info.id),
        after.rooms[plan.info.id].read_only,
        after.rooms[plan.info.id].info == plan.info,
        after.code_secrets.dom().contains(plan.info.id),
        after.code_secrets[plan.info.id] == secret,
        r is Err,
        later == after,
        ({
            let out = code_join::join_requested(plan.info.id, code, code_proof, public);
            &&& out.contains(EffectView::Subscribe { room_id: plan.info.id })
            &&& out.contains(
                EffectView::CodeJoinDeadline { room_id: plan.info.id, after_secs: 30 },
            )
            &&& shows(out, EventView::RoomJoined { room_id: plan.info.id })
        }),
{
    let out = code_join::join_requested(plan.info.id, code, code_proof, public);
    assert(out[0] == EffectView::CodeJoinDeadline { room_id: plan.info.id, after_secs: 30 });
    assert(out[1] == EffectView::Subscribe { room_id: plan.info.id });
    assert(shown(out[3]) is Some);
}

/// Whoever asks to be let in with a code that an owner gave out is answered, under the key and the name with
/// which they asked. A code that begins as those do that are given out now is not sent: its proof is held
/// against all codes that count.
pub proof fn law_askers_are_answered(
    joiner: AppView,
    room_id: Seq<char>,
    code: Seq<char>,
    code_proof: Seq<u8>,
    public: Seq<u8>,
    msg: MessageView,
    owner: AppView,
    f: FactsView,
    e: EnvelopeView,
    owner2: AppView,
    eff: Seq<EffectView>,
)
    requires
        sends(code_join::join_requested(room_id, code, code_proof, public), room_id, msg),
        public.len() == 32 && reads_back(public),
        code_proof.len() == 32 && reads_back(code_proof),
        handled(owner, f, e, msg, owner2, eff),
        e.room_id == room_id,
        e.signer == Some(joiner.our_fp()),
        f.owners.contains(owner.our_fp()) && !f.banned.contains(owner.our_fp()),
        f.proof_allowed,
        owner.rooms.dom().contains(room_id),
        owner.rooms[room_id].key is Some,
    ensures
        forall|c: Seq<char>| #[trigger]
            counts(owner2.rooms[room_id].codes, c, e.now) <==> counts(
                owner.rooms[room_id].codes,
                c,
                e.now,
            ),
        owner2.rooms[room_id].crypto == owner.rooms[room_id].crypto,
        !code_join::is_proof_code(code) ==> (eff.contains(
            EffectView::AnswerJoin {
                room_id,
                joiner_fingerprint: joiner.our_fp(),
                joiner_public: public,
                code,
            },
        ) <==> counts(owner.rooms[room_id].codes, code, e.now)),
        !code_join::is_proof_code(code) && !counts(owner.rooms[room_id].codes, code, e.now)
            ==> eff.len() == 0,
        code_join::is_proof_code(code) ==> {
            &&& msg is CodeJoinRequest && msg->CodeJoinRequest_code != code
            &&& exists|codes: Seq<Seq<char>>|
                #![trigger checked(room_id, joiner.our_fp(), public, codes, code_proof)]
                eff == seq![checked(room_id, joiner.our_fp(), public, codes, code_proof)]
                    && forall|c: Seq<char>| #[trigger]
                    codes.contains(c) <==> counts(owner.rooms[room_id].codes, c, e.now)
        },
{
    let out = code_join::join_requested(room_id, code, code_proof, public);
    let k = choose|k: int| 0 <= k < out.len() && sent(#[trigger] out[k]) == Some((room_id, msg));
    assert(k == 2);
    let codes = owner.rooms[room_id].codes;
    let live = code_join::live_codes(codes, e.now);
    let texts = code_join::code_texts(live);
    lemma_live(codes, e.now);
    assert forall|c: Seq<char>| #[trigger] texts.contains(c) <==> counts(codes, c, e.now) by {
        if texts.contains(c) {
            let i = choose|i: int| 0 <= i < texts.len() && texts[i] == c;
            assert(live.contains(live[i]));
            let j = choose|j: int| 0 <= j < codes.len() && codes[j] == live[i];
            assert(codes[j].0 == c);
        }
        if counts(codes, c, e.now) {
            let j = choose|j: int|
                0 <= j < codes.len() && (#[trigger] codes[j]).0 == c && codes[j].1 > e.now;
            assert(codes.contains(codes[j]));
            assert(live.contains(codes[j]));
            let i = choose|i: int| 0 <= i < live.len() && live[i] == codes[j];
            assert(texts[i] == c);
        }
    }
    assert forall|c: Seq<char>| #[trigger] counts(live, c, e.now) <==> counts(codes, c, e.now) by {
        if counts(codes, c, e.now) {
            assert(texts.contains(c));
            let i = choose|i: int| 0 <= i < texts.len() && texts[i] == c;
            assert(live.contains(live[i]));
            assert(live[i].0 == c);
        }
        if counts(live, c, e.now) {
            let i = choose|i: int|
                0 <= i < live.len() && (#[trigger] live[i]).0 == c && live[i].1 > e.now;
            assert(texts[i] == c);
            assert(texts.contains(c));
        }
    }
    assert(owner2.rooms[room_id].codes == live);
    if code_join::is_proof_code(code) {
        assert(eff[0] == checked(room_id, joiner.our_fp(), public, texts, code_proof));
        assert(eff =~= seq![checked(room_id, joiner.our_fp(), public, texts, code_proof)]);
        assert(code.len() >= 3 && msg->CodeJoinRequest_code.len() == 0) by {
            reveal_strlit("v2-");
            reveal_strlit("");
        }
    } else {
        if texts.contains(code) {
            assert(eff[0] == EffectView::AnswerJoin {
                room_id,
                joiner_fingerprint: joiner.our_fp(),
                joiner_public: public,
                code,
            });
        }
        assert(texts.contains(code) <==> counts(codes, code, e.now));
    }
}

/// A proof is held against codes.
pub open spec fn checked(
    room_id: Seq<char>,
    joiner: Seq<char>,
    joiner_public: Seq<u8>,
    codes: Seq<Seq<char>>,
    proof_bytes: Seq<u8>,
) -> EffectView {
    EffectView::CheckJoinProof {
        room_id,
        joiner_fingerprint: joiner,
        joiner_public,
        codes,
        proof: proof_bytes,
    }
}

/// A code counts once: whoever gives the answer uses it up. Where no two codes are the same, nobody is let in
/// with it again.
pub proof fn law_codes_count_once(
    owner: AppView,
    room_id: Seq<char>,
    joiner: Seq<char>,
    code: Seq<char>,
    public: Seq<u8>,
    wrap_key: Option<Seq<u8>>,
    now: i64,
    owner2: AppView,
    eff: Seq<EffectView>,
    second: Seq<char>,
    later: i64,
    owner3: AppView,
    again: Seq<EffectView>,
)
    requires
        code_join::join_answered(owner, room_id, joiner, code, public, wrap_key, now, owner2, eff),
        code_join::join_answered(
            owner2,
            room_id,
            second,
            code,
            public,
            wrap_key,
            later,
            owner3,
            again,
        ),
        owner.rooms.dom().contains(room_id),
        forall|i: int, j: int|
            0 <= i < j < owner.rooms[room_id].codes.len() ==> (
            #[trigger] owner.rooms[room_id].codes[i]).0 != (
            #[trigger] owner.rooms[room_id].codes[j]).0,
        now <= later,
    ensures
        !counts(owner.rooms[room_id].codes, code, now) ==> eff.len() == 0 && owner2 == owner,
        !counts(owner2.rooms[room_id].codes, code, later),
        again.len() == 0,
        owner3 == owner2,
        forall|other: Seq<char>|
            other != code ==> (#[trigger] counts(owner2.rooms[room_id].codes, other, now) <==> counts(
                owner.rooms[room_id].codes,
                other,
                now,
            )),
{
    let codes = owner.rooms[room_id].codes;
    let left = owner2.rooms[room_id].codes;
    code_join::law_only_live_codes_let_in(codes, code, now);
    code_join::law_only_live_codes_let_in(left, code, later);
    match code_join::code_at(codes, code, now) {
        Some(i) => {
            assert(left == codes.remove(i));
            assert(codes[i].0 == code && codes[i].1 > now);
            if counts(left, code, later) {
                let k = choose|k: int|
                    0 <= k < left.len() && (#[trigger] left[k]).0 == code && left[k].1 > later;
                if k < i {
                    assert(left[k] == codes[k]);
                } else {
                    assert(left[k] == codes[k + 1]);
                }
            }
            assert forall|other: Seq<char>| other != code implies #[trigger] counts(
                left,
                other,
                now,
            ) <==> counts(codes, other, now) by {
                if counts(left, other, now) {
                    let k = choose|k: int|
                        0 <= k < left.len() && (#[trigger] left[k]).0 == other && left[k].1 > now;
                    if k < i {
                        assert(left[k] == codes[k]);
                    } else {
                        assert(left[k] == codes[k + 1]);
                        assert(codes[k + 1].0 == other);
                    }
                }
                if counts(codes, other, now) {
                    let k = choose|k: int|
                        0 <= k < codes.len() && (#[trigger] codes[k]).0 == other && codes[k].1
                            > now;
                    if k < i {
                        assert(left[k] == codes[k]);
                    } else {
                        assert(left[k - 1] == codes[k]);
                    }
                }
            }
        },
        None => {
            assert(!counts(codes, code, now));
        },
    }
    if code_join::code_at(left, code, later) is Some {
        let k = code_join::code_at(left, code, later)->0;
        assert(left[k].0 == code && left[k].1 > later);
        assert(counts(left, code, later));
    }
}

/// Whoever is let in ends up with the session of the owner who let them in: the answer is for them, they take
/// it because they wait for it and because it comes from an owner, they use the secret with which they asked
/// and the key that the owner sent, and with the key that both come to they read the owner from then on. They
/// wait no longer: nobody else's answer counts, and they are not told that nobody answered.
pub proof fn law_whoever_is_let_in_can_read(
    before: AppView,
    plan: PlanView,
    secret: Seq<u8>,
    joiner: AppView,
    owner: AppView,
    code: Seq<char>,
    owner_public: Seq<u8>,
    wrap_key: Seq<u8>,
    now: i64,
    owner2: AppView,
    out: Seq<EffectView>,
    msg: MessageView,
    f: FactsView,
    e: EnvelopeView,
    joiner2: AppView,
    eff: Seq<EffectView>,
    done_at: i64,
)
    requires
        before.waiting_to_join(plan, secret, joiner),
        before.wf(),
        plan.info.encrypted && plan.key is None,
        owner.rooms.dom().contains(plan.info.id),
        owner.rooms[plan.info.id].crypto is Some,
        counts(owner.rooms[plan.info.id].codes, code, now),
        code_join::join_answered(
            owner,
            plan.info.id,
            joiner.our_fp(),
            code,
            owner_public,
            Some(wrap_key),
            now,
            owner2,
            out,
        ),
        vstd::utf8::encode_utf8(owner.rooms[plan.info.id].crypto->0.session_key()).len()
            < primitives::SEAL_LIMIT,
        owner_public.len() == 32 && reads_back(owner_public),
        out.len() > 0 ==> sends(out, plan.info.id, msg),
        handled(joiner, f, e, msg, joiner2, eff),
        e.room_id == plan.info.id,
        e.signer == Some(owner.our_fp()),
        plan.info.creator_fingerprint == owner.our_fp() || (f.owners.contains(owner.our_fp())
            && !f.banned.contains(owner.our_fp())),
    ensures
        out.len() == 1,
        msg is CodeJoinResponse,
        eff == seq![
            EffectView::DeriveJoinKey {
                room_id: plan.info.id,
                owner_fingerprint: owner.our_fp(),
                secret,
                owner_public,
                wrapped_session_key_b64: msg->wrapped_session_key_b64,
            },
        ],
        !joiner2.code_secrets.dom().contains(plan.info.id),
        joiner2.waited_in_vain(plan.info.id).1.len() == 0,
        joiner2.waited_in_vain(plan.info.id).0.rooms == joiner2.rooms,
        ({
            let (end, said) = joiner2.code_join_finished(
                plan.info.id,
                owner.our_fp(),
                msg->wrapped_session_key_b64,
                wrap_key,
                done_at,
            );
            &&& end.crypto_of(plan.info.id) is Some
            &&& end.crypto_of(plan.info.id)->0.holds(
                owner.our_fp(),
                owner.rooms[plan.info.id].crypto->0,
            )
            &&& end.rooms[plan.info.id].members.contains(owner.our_fp())
            &&& shows(
                said,
                EventView::MemberJoined { room_id: plan.info.id, fingerprint: owner.our_fp() },
            )
        }),
{
    let room_id = plan.info.id;
    let oc = owner.rooms[room_id].crypto->0;
    code_join::law_only_live_codes_let_in(owner.rooms[room_id].codes, code, now);
    assert(code_join::code_at(owner.rooms[room_id].codes, code, now) is Some);
    let wrapped = choose|wrapped: Seq<char>| #[trigger]
        code_join::session_wrapped(oc, wrap_key, wrapped) && out == seq![
            EffectView::PublishSigned {
                room_id,
                message: MessageView::CodeJoinResponse {
                    room_id,
                    target_fingerprint: joiner.our_fp(),
                    owner_x25519_pubkey_b64: primitives::base64_text(owner_public),
                    owner_session_id: oc.session_id(),
                    wrapped_session_key_b64: wrapped,
                    nonce_b64: ""@,
                },
            },
        ];
    let k = choose|k: int| 0 <= k < out.len() && sent(#[trigger] out[k]) == Some((room_id, msg));
    assert(k == 0);
    assert(msg->wrapped_session_key_b64 == wrapped);
    let c = choose|c: RoomCryptoView| #[trigger]
        rooms::fresh_crypto(c, room_id, before.our_fp(), before.persist_key) && joiner == (AppView {
            code_secrets: before.code_secrets.insert(room_id, secret),
            ..before.entered(plan, Some(c), set![before.our_fp()], true)
        });
    assert(joiner2.rooms == joiner.rooms);
    assert(joiner2.crypto_of(room_id) == Some(c));
    assert(joiner2.wf()) by {
        assert forall|id: Seq<char>| #[trigger] joiner2.rooms.dom().contains(id) implies joiner2.rooms[id].wf()
            && joiner2.rooms[id].info.id == id by {
            if id != room_id {
                assert(before.rooms.dom().contains(id));
            }
        }
    }
    code_join::law_code_join_hands_over_the_session(
        oc,
        joiner2,
        room_id,
        owner.our_fp(),
        wrapped,
        wrap_key,
        done_at,
    );
    let said = joiner2.code_join_finished(room_id, owner.our_fp(), wrapped, wrap_key, done_at).1;
    if said.len() == 0 {
        assert(joiner2.code_join_finished(room_id, owner.our_fp(), wrapped, wrap_key, done_at).0
            == joiner2);
        assert(c.inbound.dom().contains((owner.our_fp(), oc.session_id())));
    }
    assert(shown(said[0]) is Some);
}

/// Whoever waits is told when the time is over, and an answer that comes later does nothing.
pub proof fn law_late_answers_do_nothing(
    joiner: AppView,
    room_id: Seq<char>,
    f: FactsView,
    e: EnvelopeView,
    msg: MessageView,
    after: AppView,
    eff: Seq<EffectView>,
)
    requires
        joiner.code_secrets.dom().contains(room_id),
        msg is CodeJoinResponse,
        e.room_id == room_id,
        handled(joiner.waited_in_vain(room_id).0, f, e, msg, after, eff),
    ensures
        joiner.waited_in_vain(room_id).1.len() == 1,
        shown(joiner.waited_in_vain(room_id).1[0]) matches Some(v) && v is CodeJoinTimedOut
            && v->CodeJoinTimedOut_room_id == room_id,
        joiner.waited_in_vain(room_id).0.rooms == joiner.rooms,
        after == joiner.waited_in_vain(room_id).0,
        eff.len() == 0,
{
}

/// Only an encrypted room that somebody announced can be joined by a code, and as it was announced.
pub proof fn law_announced_rooms_can_be_asked_for(app: AppView, room_id: Seq<char>, now: i64)
    ensures
        app.code_join_planned(room_id, now) is Ok <==> app.discovered.dom().contains(room_id)
            && app.discovered[room_id].encrypted,
        app.code_join_planned(room_id, now) matches Ok(plan) ==> {
            let d = app.discovered[room_id];
            &&& plan.info.id == room_id
            &&& plan.info.name == d.name
            &&& plan.info.creator_fingerprint == d.creator_fingerprint
            &&& plan.info.encrypted
            &&& plan.info.kind == d.kind
            &&& plan.key is None
        },
{
}

/// Only a signed request with a proof, for the room in which it came and to an owner of it, counts towards the limit
/// of proofs.
pub proof fn law_only_requests_with_a_proof_count(
    app: AppView,
    f: FactsView,
    e: EnvelopeView,
    msg: MessageView,
)
    ensures
        app.counts_as_proof(f, e, msg) ==> msg is CodeJoinRequest && msg->code_proof is Some && e.signer
            is Some && msg->CodeJoinRequest_room_id == e.room_id && f.owners.contains(app.our_fp()),
{
}

} // verus!
