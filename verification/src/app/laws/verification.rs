//! Verification by comparing codes: when a partner counts as verified, and that both sides get there.
use super::{sends, sent, shown, shows, writes, written};
use crate::app::effects::{EffectView, WriteView};
use crate::app::events::EventView;
use crate::app::facts::{EnvelopeView, FactsView};
use crate::app::handlers::handled;
use crate::app::messages::MessageView;
use crate::app::moderation;
use crate::app::sas_actor::{self, OutcomeView, SasFlowView};
use crate::app::AppView;
use crate::crypto::{primitives, sas};
use crate::error::ErrorView;
use vstd::prelude::*;

verus! {

pub proof fn lemma_one_outcome(o: OutcomeView, now: i64)
    ensures
        moderation::outcomes_effects(seq![o], now) == moderation::outcome_effects(o, now),
{
    let os = seq![o];
    assert(os.drop_last() =~= Seq::<OutcomeView>::empty());
    assert(moderation::outcomes_effects(os.drop_last(), now) =~= Seq::<EffectView>::empty());
    assert(os.last() == o);
    assert(moderation::outcomes_effects(os, now) =~= moderation::outcome_effects(o, now));
}

pub proof fn lemma_two_outcomes(o: OutcomeView, p: OutcomeView, now: i64)
    ensures
        moderation::outcomes_effects(seq![o, p], now) == moderation::outcome_effects(o, now)
            + moderation::outcome_effects(p, now),
{
    let os = seq![o, p];
    assert(os.drop_last() =~= seq![o]);
    lemma_one_outcome(o, now);
}

/// The effects make this partner a verified one: as a member of the room and as a peer, once and for all, and
/// the user is told so.
pub open spec fn verifies(
    eff: Seq<EffectView>,
    room_id: Seq<char>,
    partner: Seq<char>,
    pq_capable: bool,
    now: i64,
) -> bool {
    &&& writes(eff, WriteView::MemberVerified { room_id, fingerprint: partner, verified: true })
    &&& writes(
        eff,
        WriteView::VerifiedPeer { fingerprint: partner, verified_at: now, pq_capable },
    )
    &&& writes(
        eff,
        WriteView::Journal {
            kind: "sas_verified"@,
            detail: "room="@ + room_id + " peer="@ + partner,
            at: now,
        },
    )
    &&& shows(eff, EventView::SasVerified { room_id, partner_fingerprint: partner })
}

/// Nobody is verified by these effects.
pub open spec fn verifies_nobody(eff: Seq<EffectView>) -> bool {
    forall|i: int|
        0 <= i < eff.len() ==> written(#[trigger] eff[i]) is None && !(shown(eff[i]) matches Some(
            v,
        ) && v is SasVerified)
}

/// Once both sides have said that the codes match, the partner is verified, in the room in which the codes
/// were compared, with what was known of their ML-KEM key; and the verification is over. Before that nobody
/// is: not by our word alone, not by the partner's, not by anybody else's, and not by a word that they differ.
pub proof fn law_verified_when_both_match(
    app: AppView,
    f: FactsView,
    e: EnvelopeView,
    tx_id: Seq<char>,
    matched: bool,
    after: AppView,
    eff: Seq<EffectView>,
    now: i64,
)
    requires
        app.wf(),
        app.sas.flows.dom().contains(tx_id),
        handled(app, f, e, MessageView::SasConfirm { tx_id, matched }, after, eff),
    ensures
        ({
            let flow = app.sas.flows[tx_id];
            let said = e.signer == Some(flow.partner_fingerprint);
            &&& said && matched && flow.our_confirmed ==> verifies(
                eff,
                flow.room_id,
                flow.partner_fingerprint,
                flow.partner_pq_capable,
                e.now,
            ) && !after.sas.flows.dom().contains(tx_id)
            &&& said && matched && !flow.our_confirmed ==> verifies_nobody(eff)
                && after.sas.flows.dom().contains(tx_id) && after.sas.flows[tx_id]
                == (SasFlowView { their_confirmed: true, ..flow })
            &&& said && !matched ==> verifies_nobody(eff) && !after.sas.flows.dom().contains(tx_id)
            &&& !said ==> verifies_nobody(eff) && after == app
        }),
        ({
            let flow = app.sas.flows[tx_id];
            let (next, r) = app.sas_matched(tx_id, now);
            let confirm = MessageView::SasConfirm { tx_id, matched: true };
            &&& flow.sas_code is None ==> r is Err && next == app
            &&& flow.sas_code is Some ==> r is Ok && sends(r->Ok_0, flow.room_id, confirm)
            &&& flow.sas_code is Some && flow.their_confirmed ==> verifies(
                r->Ok_0,
                flow.room_id,
                flow.partner_fingerprint,
                flow.partner_pq_capable,
                now,
            ) && !next.sas.flows.dom().contains(tx_id)
            &&& flow.sas_code is Some && !flow.their_confirmed ==> verifies_nobody(r->Ok_0)
                && next.sas.flows.dom().contains(tx_id) && next.sas.flows[tx_id] == (SasFlowView {
                our_confirmed: true,
                ..flow
            })
        }),
        forall|other: Seq<char>|
            other != tx_id ==> (#[trigger] after.sas.flows.dom().contains(other)
                == app.sas.flows.dom().contains(other)) && (app.sas.flows.dom().contains(other)
                ==> after.sas.flows[other] == app.sas.flows[other]),
{
    let flow = app.sas.flows[tx_id];
    let step = app.sas.confirmed(tx_id, matched, e.signer);
    assert(app.with_sas(app.sas) =~= app);
    let end = flow.finalized();
    lemma_one_outcome(end, e.now);
    if e.signer == Some(flow.partner_fingerprint) && matched && flow.our_confirmed {
        assert(eff == moderation::outcome_effects(end, e.now));
        assert(written(eff[0]) is Some && written(eff[1]) is Some && written(eff[2]) is Some);
        assert(shown(eff[3]) is Some);
    } else {
        assert(eff =~= Seq::<EffectView>::empty());
    }
    if flow.sas_code is Some {
        let words = OutcomeView::Publish {
            room_id: flow.room_id,
            msg: MessageView::SasConfirm { tx_id, matched: true },
        };
        lemma_one_outcome(words, now);
        lemma_two_outcomes(words, end, now);
        let out = app.sas_matched(tx_id, now).1->Ok_0;
        assert(sent(out[0]) is Some);
        if flow.their_confirmed {
            assert(written(out[1]) is Some && written(out[2]) is Some && written(out[3]) is Some);
            assert(shown(out[4]) is Some);
        }
    }
}

/// No step of a verification ever stores that somebody is not verified, and none verifies anybody but the
/// partner of the verification that it is about.
pub proof fn law_verifications_never_unverify(
    app: AppView,
    f: FactsView,
    e: EnvelopeView,
    msg: MessageView,
    after: AppView,
    eff: Seq<EffectView>,
    tx_id: Seq<char>,
    now: i64,
)
    requires
        handled(app, f, e, msg, after, eff),
        msg is SasInit || msg is SasResponse || msg is SasConfirm,
    ensures
        forall|i: int|
            0 <= i < eff.len() ==> (written(#[trigger] eff[i]) matches Some(
                WriteView::MemberVerified { fingerprint, verified, .. },
            ) ==> verified && Some(fingerprint) == e.signer && msg is SasConfirm),
        forall|i: int|
            0 <= i < eff.len() ==> (written(#[trigger] eff[i]) matches Some(
                WriteView::VerifiedPeer { fingerprint, .. },
            ) ==> Some(fingerprint) == e.signer && msg is SasConfirm),
        app.sas_matched(tx_id, now).1 matches Ok(out) ==> forall|i: int|
            0 <= i < out.len() ==> (written(#[trigger] out[i]) matches Some(
                WriteView::MemberVerified { fingerprint, verified, .. },
            ) ==> verified && fingerprint == app.sas.flows[tx_id].partner_fingerprint),
{
    match msg {
        MessageView::SasInit { tx_id: tx, ephemeral_x25519_pubkey_b64, target_fingerprint } => {
            let (secret, public) = choose|secret: Seq<u8>, public: Seq<u8>| #[trigger]
                sas::is_key_pair(secret, public) && ({
                    let step = app.sas.init_taken(
                        e.room_id,
                        tx,
                        ephemeral_x25519_pubkey_b64,
                        target_fingerprint,
                        e.signer,
                        e.now,
                        AppView::subject_ek(f),
                        secret,
                        public,
                    );
                    after == app.with_sas(step.0) && eff == moderation::outcomes_effects(
                        step.1,
                        e.now,
                    )
                });
            let os = app.sas.init_taken(
                e.room_id,
                tx,
                ephemeral_x25519_pubkey_b64,
                target_fingerprint,
                e.signer,
                e.now,
                AppView::subject_ek(f),
                secret,
                public,
            ).1;
            if os.len() == 2 {
                lemma_two_outcomes(os[0], os[1], e.now);
                assert(os =~= seq![os[0], os[1]]);
            }
        },
        MessageView::SasResponse { tx_id: tx, ephemeral_x25519_pubkey_b64 } => {
            let os = app.sas.response_taken(
                e.room_id,
                tx,
                ephemeral_x25519_pubkey_b64,
                e.signer,
                e.now,
                AppView::subject_ek(f),
            ).1;
            if os.len() == 1 {
                lemma_one_outcome(os[0], e.now);
                assert(os =~= seq![os[0]]);
            }
        },
        MessageView::SasConfirm { tx_id: tx, matched } => {
            let os = app.sas.confirmed(tx, matched, e.signer).1;
            if os.len() == 1 {
                lemma_one_outcome(os[0], e.now);
                assert(os =~= seq![os[0]]);
            }
        },
        _ => {},
    }
    if app.sas_matched(tx_id, now).1 is Ok {
        let os = app.sas.matched(tx_id)->Ok_0.1;
        if os.len() == 1 {
            lemma_one_outcome(os[0], now);
            assert(os =~= seq![os[0]]);
        } else {
            lemma_two_outcomes(os[0], os[1], now);
            assert(os =~= seq![os[0], os[1]]);
        }
    }
}

/// A verification that runs its course verifies both sides for each other: one begins it, the other answers,
/// both are shown the same code, each says that it matches, and each hears the other say so. Then each has the
/// other as a verified member of the room and as a verified peer. Between the two it does not matter who says
/// so first: here the one who began it does.
#[verifier::spinoff_prover]
#[verifier::rlimit(90)]
pub proof fn law_verifications_run_their_course(
    a: AppView,
    b: AppView,
    room_id: Seq<char>,
    now: i64,
    tx_id: Seq<char>,
    a_secret: Seq<u8>,
    a_public: Seq<u8>,
    from_a: MessageView,
    a1: AppView,
    fb: FactsView,
    eb: EnvelopeView,
    b1: AppView,
    eff_b1: Seq<EffectView>,
    from_b: MessageView,
    fa: FactsView,
    ea: EnvelopeView,
    a2: AppView,
    eff_a2: Seq<EffectView>,
    a3: AppView,
    out_a: Seq<EffectView>,
    b2: AppView,
    eff_b2: Seq<EffectView>,
    b3: AppView,
    out_b: Seq<EffectView>,
    a4: AppView,
    eff_a4: Seq<EffectView>,
)
    requires
        a.wf() && b.wf(),
        a.sas.our_fingerprint == a.our_fp() && b.sas.our_fingerprint == b.our_fp(),
        sas::is_key_pair(a_secret, a_public),
        sas_actor::tx_bytes(tx_id) is Some,
        sas::public_key_of(primitives::base64_text(a_public)) == Ok::<Seq<u8>, ErrorView>(a_public),
        a.sas_begun(room_id, b.our_fp(), now, tx_id, a_secret, a_public).0 == a1,
        sends(
            a.sas_begun(room_id, b.our_fp(), now, tx_id, a_secret, a_public).1,
            room_id,
            from_a,
        ),
        b.sas.has_room_for(tx_id, a.our_fp()),
        eb.room_id == room_id && eb.signer == Some(a.our_fp()),
        ea.room_id == room_id && ea.signer == Some(b.our_fp()),
        (AppView::subject_ek(fa) == Some(b.sas.our_ek) && AppView::subject_ek(fb) == Some(
            a.sas.our_ek,
        )) || (AppView::subject_ek(fa) is None && AppView::subject_ek(fb) is None),
        handled(b, fb, eb, from_a, b1, eff_b1),
        sends(eff_b1, room_id, from_b),
        ({
            let b_public = primitives::x25519_public(b1.sas.flows[tx_id].our_secret);
            sas::public_key_of(primitives::base64_text(b_public)) == Ok::<Seq<u8>, ErrorView>(
                b_public,
            )
        }),
        handled(a1, fa, ea, from_b, a2, eff_a2),
        a2.sas_matched(tx_id, now) == (a3, Ok::<Seq<EffectView>, ErrorView>(out_a)),
        handled(b1, fb, eb, MessageView::SasConfirm { tx_id, matched: true }, b2, eff_b2),
        b2.sas_matched(tx_id, now) == (b3, Ok::<Seq<EffectView>, ErrorView>(out_b)),
        handled(a3, fa, ea, MessageView::SasConfirm { tx_id, matched: true }, a4, eff_a4),
    ensures
        from_a matches MessageView::SasInit { tx_id: t, target_fingerprint, .. } && t == tx_id
            && target_fingerprint == b.our_fp(),
        from_b matches MessageView::SasResponse { tx_id: t, .. } && t == tx_id,
        exists|emoji: Seq<char>, decimal: Seq<char>|
            #![trigger code_shown(eff_a2, room_id, b.our_fp(), tx_id, emoji, decimal)]
            code_shown(eff_a2, room_id, b.our_fp(), tx_id, emoji, decimal) && code_shown(
                eff_b1,
                room_id,
                a.our_fp(),
                tx_id,
                emoji,
                decimal,
            ),
        sends(out_a, room_id, MessageView::SasConfirm { tx_id, matched: true }),
        sends(out_b, room_id, MessageView::SasConfirm { tx_id, matched: true }),
        verifies_nobody(eff_b1) && verifies_nobody(eff_a2) && verifies_nobody(out_a)
            && verifies_nobody(eff_b2),
        verifies(out_b, room_id, a.our_fp(), AppView::subject_ek(fb) is Some, now),
        verifies(eff_a4, room_id, b.our_fp(), AppView::subject_ek(fa) is Some, ea.now),
        !a4.sas.flows.dom().contains(tx_id) && !b3.sas.flows.dom().contains(tx_id),
{
    let out = a.sas_begun(room_id, b.our_fp(), now, tx_id, a_secret, a_public).1;
    assert(sent(out[0]) is Some);
    let a_key = primitives::base64_text(a_public);
    let tx = sas_actor::tx_bytes(tx_id)->0;
    let a_sees = AppView::subject_ek(fa);
    let b_sees = AppView::subject_ek(fb);
    let (b_secret, b_public) = choose|secret: Seq<u8>, public: Seq<u8>| #[trigger]
        sas::is_key_pair(secret, public) && ({
            let step = b.sas.init_taken(
                eb.room_id,
                tx_id,
                a_key,
                b.our_fp(),
                eb.signer,
                eb.now,
                b_sees,
                secret,
                public,
            );
            b1 == b.with_sas(step.0) && eff_b1 == moderation::outcomes_effects(step.1, eb.now)
        });
    let code = sas::code_of(b_secret, a_public, tx, Some(b.sas.our_ek), b_sees)->Ok_0;
    sas::law_both_sides_derive_the_same_code(
        a_secret,
        a_public,
        b_secret,
        b_public,
        tx,
        if a_sees is Some {
            Some(a.sas.our_ek)
        } else {
            None
        },
        a_sees,
    );
    sas::law_classical_codes_ignore_our_key(a_secret, b_public, tx, Some(a.sas.our_ek));
    sas::law_classical_codes_ignore_our_key(b_secret, a_public, tx, Some(b.sas.our_ek));
    assert(sas::code_of(b_secret, a_public, tx, Some(b.sas.our_ek), b_sees) is Ok);
    assert(sas::code_of(a_secret, b_public, tx, Some(a.sas.our_ek), a_sees) == Ok::<
        sas::SasCodeView,
        ErrorView,
    >(code));
    let answer = OutcomeView::Publish {
        room_id,
        msg: MessageView::SasResponse {
            tx_id,
            ephemeral_x25519_pubkey_b64: primitives::base64_text(b_public),
        },
    };
    let ready_b = sas_actor::code_ready(room_id, a.our_fp(), tx_id, code);
    let ready_a = sas_actor::code_ready(room_id, b.our_fp(), tx_id, code);
    lemma_two_outcomes(answer, ready_b, eb.now);
    assert(b1.sas.flows[tx_id].our_secret == b_secret);
    assert(eff_b1 == moderation::outcome_effects(answer, eb.now) + moderation::outcome_effects(
        ready_b,
        eb.now,
    ));
    assert(sent(eff_b1[0]) is Some);
    assert(from_b == answer->msg);
    lemma_one_outcome(ready_a, ea.now);
    assert(eff_a2 == moderation::outcome_effects(ready_a, ea.now));
    let emoji = crate::text::joined(code.labels(), " / "@);
    assert(shown(eff_a2[0]) is Some && shown(eff_b1[1]) is Some);
    assert(code_shown(eff_a2, room_id, b.our_fp(), tx_id, emoji, code.decimal));
    assert(code_shown(eff_b1, room_id, a.our_fp(), tx_id, emoji, code.decimal));
    let words = OutcomeView::Publish {
        room_id,
        msg: MessageView::SasConfirm { tx_id, matched: true },
    };
    lemma_one_outcome(words, now);
    assert(out_a == moderation::outcome_effects(words, now));
    assert(sent(out_a[0]) is Some);
    assert(eff_b2 =~= Seq::<EffectView>::empty());
    let end_b = b2.sas.flows[tx_id].finalized();
    lemma_two_outcomes(words, end_b, now);
    assert(out_b == moderation::outcome_effects(words, now) + moderation::outcome_effects(
        end_b,
        now,
    ));
    assert(sent(out_b[0]) is Some);
    assert(written(out_b[1]) is Some && written(out_b[2]) is Some && written(out_b[3]) is Some);
    assert(shown(out_b[4]) is Some);
    let end_a = a3.sas.flows[tx_id].finalized();
    lemma_one_outcome(end_a, ea.now);
    assert(eff_a4 == moderation::outcome_effects(end_a, ea.now));
    assert(written(eff_a4[0]) is Some && written(eff_a4[1]) is Some && written(eff_a4[2]) is Some);
    assert(shown(eff_a4[3]) is Some);
}

/// A verification that the user drops is over: nothing that is said of it verifies anybody, and it cannot be
/// confirmed any more. Others go on.
pub proof fn law_dropped_verifications_are_over(
    app: AppView,
    tx_id: Seq<char>,
    other: Seq<char>,
    now: i64,
    f: FactsView,
    e: EnvelopeView,
    matched: bool,
    after: AppView,
    eff: Seq<EffectView>,
)
    requires
        handled(
            app.with_sas(app.sas.without(tx_id)),
            f,
            e,
            MessageView::SasConfirm { tx_id, matched },
            after,
            eff,
        ),
        other != tx_id,
    ensures
        eff.len() == 0,
        after == app.with_sas(app.sas.without(tx_id)),
        app.with_sas(app.sas.without(tx_id)).sas_matched(tx_id, now).1 is Err,
        app.sas.flows.dom().contains(other) ==> app.sas.without(tx_id).flows.dom().contains(other)
            && app.sas.without(tx_id).flows[other] == app.sas.flows[other],
{
    assert(app.sas.without(tx_id).confirmed(tx_id, matched, e.signer).1 =~= Seq::<
        OutcomeView,
    >::empty());
}

/// The user is shown this code, to compare it with the partner.
pub open spec fn code_shown(
    eff: Seq<EffectView>,
    room_id: Seq<char>,
    partner: Seq<char>,
    tx_id: Seq<char>,
    emoji: Seq<char>,
    decimal: Seq<char>,
) -> bool {
    shows(
        eff,
        EventView::SasCodeReady {
            room_id,
            partner_fingerprint: partner,
            tx_id,
            emoji_labels: emoji,
            decimal,
        },
    )
}

/// A peer who wants to verify us, with the public half of a key pair, is answered in the room in which they asked, as
/// long as there is room for it.
pub proof fn law_requests_to_verify_are_answered(
    app: AppView,
    f: FactsView,
    e: EnvelopeView,
    partner: Seq<char>,
    tx_id: Seq<char>,
    key: Seq<char>,
    their_secret: Seq<u8>,
    after: AppView,
    eff: Seq<EffectView>,
)
    requires
        handled(
            app,
            f,
            e,
            MessageView::SasInit {
                tx_id,
                ephemeral_x25519_pubkey_b64: key,
                target_fingerprint: app.sas.our_fingerprint,
            },
            after,
            eff,
        ),
        e.signer == Some(partner),
        sas::public_key_of(key) is Ok,
        sas::is_key_pair(their_secret, sas::public_key_of(key)->Ok_0),
        sas_actor::tx_bytes(tx_id) is Some,
        app.sas.has_room_for(tx_id, partner),
    ensures
        super::tells(eff, e.room_id),
        after.sas.flows.dom().contains(tx_id),
        after.sas.flows[tx_id].partner_fingerprint == partner,
        after.sas.flows[tx_id].room_id == e.room_id,
        after.sas.flows[tx_id].created_at == e.now,
{
    let (secret, public) = choose|secret: Seq<u8>, public: Seq<u8>| #[trigger]
        sas::is_key_pair(secret, public) && ({
            let step = app.sas.init_taken(
                e.room_id,
                tx_id,
                key,
                app.sas.our_fingerprint,
                e.signer,
                e.now,
                AppView::subject_ek(f),
                secret,
                public,
            );
            after == app.with_sas(step.0) && eff == moderation::outcomes_effects(step.1, e.now)
        });
    let tx = sas_actor::tx_bytes(tx_id)->0;
    let theirs = sas::public_key_of(key)->Ok_0;
    let ek = AppView::subject_ek(f);
    sas::law_both_sides_derive_the_same_code(
        their_secret,
        theirs,
        secret,
        public,
        tx,
        None,
        None,
    );
    sas::law_a_code_always_comes_out(secret, theirs, tx, None, None);
    sas::law_a_code_always_comes_out(secret, theirs, tx, Some(app.sas.our_ek), ek);
    let os = app.sas.init_taken(
        e.room_id,
        tx_id,
        key,
        app.sas.our_fingerprint,
        e.signer,
        e.now,
        ek,
        secret,
        public,
    ).1;
    lemma_two_outcomes(os[0], os[1], e.now);
    assert(os =~= seq![os[0], os[1]]);
    assert(sent(eff[0]) is Some);
}

/// A verification that stands still for more than a quarter of an hour is forgotten; others are not. There is room
/// for a new one while there are fewer than 256, and fewer than eight of them with the same peer.
pub proof fn law_verifications_do_not_pile_up(
    sas: sas_actor::SasView,
    tx_id: Seq<char>,
    now: i64,
    partner: Seq<char>,
)
    ensures
        sas.reaped(now).flows.dom().contains(tx_id) <==> sas.flows.dom().contains(tx_id) && now
            - sas.flows[tx_id].created_at <= 900,
        sas.reaped(now).flows.dom().contains(tx_id) ==> sas.reaped(now).flows[tx_id]
            == sas.flows[tx_id],
        sas.has_room_for(tx_id, partner) <==> sas.flows.dom().contains(tx_id)
            || (sas.flows.dom().len() < 256 && sas_actor::flows_with(sas.flows, partner) < 8),
{
}

} // verus!
