//! What the user set, as it stands on disk: texts.
use crate::app::effects::{self, Effect, EffectView, Write, WriteView};
use crate::app::transport;
use crate::app::{AppHandle, AppView};
use crate::crypto::megolm::{self, RotationPolicy};
use crate::strmap::{self, StrMap};
use crate::text;
use vstd::prelude::*;
use vstd::slice::slice_subrange;

verus! {

// ---------------------------------------------------------------------------------------------
// Switches
// ---------------------------------------------------------------------------------------------

/// A switch that is set is on where it says `1`.
pub open spec fn is_on(saved: Option<Seq<char>>, default: bool) -> bool {
    match saved {
        Some(v) => v == "1"@,
        None => default,
    }
}

/// How a switch is saved.
pub open spec fn switch_text(on: bool) -> Seq<char> {
    if on {
        "1"@
    } else {
        "0"@
    }
}

pub fn switch(saved: &Option<String>, default: bool) -> (r: bool)
    ensures
        r == is_on(text::opt(*saved), default),
{
    match saved {
        Some(v) => text::same(v.as_str(), "1"),
        None => default,
    }
}

pub fn switch_value(on: bool) -> (r: &'static str)
    ensures
        r@ == switch_text(on),
{
    if on {
        "1"
    } else {
        "0"
    }
}

/// The settings that are on disk: texts under keys.
pub struct Settings {
    rows: StrMap<String>,
}

impl View for Settings {
    type V = Map<Seq<char>, Seq<char>>;

    closed spec fn view(&self) -> Map<Seq<char>, Seq<char>> {
        strmap::views(self.rows@)
    }
}

/// What is saved under a key.
pub open spec fn saved(settings: Map<Seq<char>, Seq<char>>, key: Seq<char>) -> Option<Seq<char>> {
    if settings.dom().contains(key) {
        Some(settings[key])
    } else {
        None
    }
}

impl Settings {
    /// Nothing is set.
    pub fn new() -> (r: Self)
        ensures
            r@ == Map::<Seq<char>, Seq<char>>::empty(),
    {
        let r = Settings { rows: StrMap::new() };
        assert(r@ =~= Map::<Seq<char>, Seq<char>>::empty());
        r
    }

    /// What is saved under a key.
    pub fn get(&self, key: &str) -> (r: Option<String>)
        ensures
            text::opt(r) == saved(self@, key@),
    {
        match self.rows.get(key) {
            Some(v) => Some(v.clone()),
            None => None,
        }
    }

    /// Saves a text under a key.
    pub fn set(&mut self, key: &str, value: &str)
        ensures
            final(self)@ == old(self)@.insert(key@, value@),
    {
        let ghost before = self@;
        self.rows.insert(text::owned(key), text::owned(value));
        assert(self@ =~= before.insert(key@, value@));
    }
}

/// What setting something causes: it is saved.
pub open spec fn setting(key: Seq<char>, value: Seq<char>) -> Seq<EffectView> {
    seq![EffectView::MustStore(WriteView::Setting { key, value })]
}

/// The settings on disk after these effects.
pub open spec fn applied(
    settings: Map<Seq<char>, Seq<char>>,
    eff: Seq<EffectView>,
) -> Map<Seq<char>, Seq<char>>
    decreases eff.len(),
{
    if eff.len() == 0 {
        settings
    } else {
        let before = applied(settings, eff.drop_last());
        match eff.last() {
            EffectView::MustStore(w) => match w {
                WriteView::Setting { key, value } => before.insert(key, value),
                _ => before,
            },
            _ => before,
        }
    }
}

/// What the settings on disk say, with what holds where nothing was set.
pub struct SettingsRead {
    pub verified_only_inbound: bool,
    pub mdns_enabled: bool,
    pub attach_via_path: bool,
    pub notifications_enabled: bool,
    pub theme: Seq<char>,
    pub clearnet_relay: Option<Seq<char>>,
    pub last_update_check_at: i64,
    pub last_known_remote_version: Option<Seq<char>>,
    pub rotation: RotationPolicy,
    pub transport_order: Option<Seq<char>>,
}

pub open spec fn read(settings: Map<Seq<char>, Seq<char>>) -> SettingsRead {
    SettingsRead {
        verified_only_inbound: is_on(saved(settings, "verified_only_inbound"@), false),
        mdns_enabled: is_on(saved(settings, "mdns_enabled"@), false),
        attach_via_path: is_on(saved(settings, "attach_via_path"@), false),
        notifications_enabled: is_on(saved(settings, "notifications_enabled"@), true),
        theme: match transport::not_blank(saved(settings, "theme"@)) {
            Some(t) => t,
            None => "system"@,
        },
        clearnet_relay: transport::not_blank(saved(settings, "clearnet_url"@)),
        last_update_check_at: number_set(saved(settings, "last_update_check_at"@), 0),
        last_known_remote_version: saved(settings, "last_known_remote_version"@),
        rotation: policy_set(settings),
        transport_order: saved(settings, "transport_order"@),
    }
}

pub open spec fn verified_only_effects(on: bool) -> Seq<EffectView> {
    setting("verified_only_inbound"@, switch_text(on))
}

pub open spec fn mdns_effects(on: bool) -> Seq<EffectView> {
    setting("mdns_enabled"@, switch_text(on))
}

pub open spec fn attach_effects(on: bool) -> Seq<EffectView> {
    setting("attach_via_path"@, switch_text(on))
}

pub open spec fn notification_effects(on: bool) -> Seq<EffectView> {
    setting("notifications_enabled"@, switch_text(on))
}

pub open spec fn theme_effects(theme: Seq<char>) -> Seq<EffectView> {
    setting("theme"@, theme)
}

pub open spec fn update_check_effects(at: i64) -> Seq<EffectView> {
    setting("last_update_check_at"@, signed_decimal(at as int))
}

pub open spec fn version_effects(version: Seq<char>) -> Seq<EffectView> {
    setting("last_known_remote_version"@, version)
}

pub open spec fn max_messages_effects(n: u32) -> Seq<EffectView> {
    setting("megolm_rotation_max_messages"@, text::decimal(n as nat))
}

pub open spec fn max_hours_effects(hours: i64) -> Seq<EffectView> {
    setting(
        "megolm_rotation_max_hours"@,
        text::decimal(
            if hours < 0 {
                0
            } else {
                hours as nat
            },
        ),
    )
}

pub open spec fn order_effects(order: Seq<Seq<char>>, fallback: Seq<Seq<char>>) -> Seq<EffectView> {
    setting("transport_order"@, text::joined(order_or(order, fallback), ","@))
}

/// What setting a relay outside Tor causes, or none, and the order of the doors that goes with it.
pub open spec fn relay_effects(
    url: Option<Seq<char>>,
    clearnet_first: Seq<Seq<char>>,
    fallback: Seq<Seq<char>>,
) -> (Seq<EffectView>, Seq<Seq<char>>) {
    let relay = match url {
        Some(u) => text::trimmed(u),
        None => ""@,
    };
    let order = order_or(
        if relay.len() > 0 {
            clearnet_first
        } else {
            fallback
        },
        fallback,
    );
    (
        setting("clearnet_url"@, relay) + setting("transport_order"@, text::joined(order, ","@)),
        order,
    )
}

impl AppView {
    /// Another order of the doors is used from now on.
    pub open spec fn reordered(self, order: Seq<Seq<char>>, fallback: Seq<Seq<char>>) -> (
        Self,
        Seq<EffectView>,
    ) {
        (AppView { order: order_or(order, fallback), ..self }, seq![EffectView::Reconnect])
    }
}

fn save(key: &str, value: String) -> (r: Vec<Effect>)
    ensures
        effects::effects(r@) == setting(key@, value@),
{
    let mut out: Vec<Effect> = Vec::new();
    out.push(Effect::MustStore(Write::Setting { key: text::owned(key), value }));
    assert(effects::effects(out@) =~= seq![out@[0]@]);
    out
}

impl AppHandle {
    /// Only verified and trusted peers may connect: off unless it was set.
    pub fn verified_only_inbound(settings: &Settings) -> (r: bool)
        ensures
            r == read(settings@).verified_only_inbound,
    {
        switch(&settings.get("verified_only_inbound"), false)
    }

    pub fn set_verified_only_inbound(on: bool) -> (r: Vec<Effect>)
        ensures
            effects::effects(r@) == verified_only_effects(on),
    {
        save("verified_only_inbound", text::owned(switch_value(on)))
    }

    /// Peers on the local network are looked for: off unless it was set.
    pub fn mdns_enabled(settings: &Settings) -> (r: bool)
        ensures
            r == read(settings@).mdns_enabled,
    {
        switch(&settings.get("mdns_enabled"), false)
    }

    pub fn set_mdns_enabled(on: bool) -> (r: Vec<Effect>)
        ensures
            effects::effects(r@) == mdns_effects(on),
    {
        save("mdns_enabled", text::owned(switch_value(on)))
    }

    /// Files are attached by their path: off unless it was set.
    pub fn attach_via_path(settings: &Settings) -> (r: bool)
        ensures
            r == read(settings@).attach_via_path,
    {
        switch(&settings.get("attach_via_path"), false)
    }

    pub fn set_attach_via_path(on: bool) -> (r: Vec<Effect>)
        ensures
            effects::effects(r@) == attach_effects(on),
    {
        save("attach_via_path", text::owned(switch_value(on)))
    }

    /// The desktop is notified: on unless it was set.
    pub fn notifications_enabled(settings: &Settings) -> (r: bool)
        ensures
            r == read(settings@).notifications_enabled,
    {
        switch(&settings.get("notifications_enabled"), true)
    }

    pub fn set_notifications_enabled(on: bool) -> (r: Vec<Effect>)
        ensures
            effects::effects(r@) == notification_effects(on),
    {
        save("notifications_enabled", text::owned(switch_value(on)))
    }

    /// The theme: that of the system unless another one was set.
    pub fn theme(settings: &Settings) -> (r: String)
        ensures
            r@ == read(settings@).theme,
    {
        match transport::unless_blank(settings.get("theme")) {
            Some(t) => t,
            None => text::owned("system"),
        }
    }

    pub fn set_theme(theme: &str) -> (r: Vec<Effect>)
        ensures
            effects::effects(r@) == theme_effects(theme@),
    {
        save("theme", text::owned(theme))
    }

    /// The relay outside Tor that was set, unless that is blank.
    pub fn clearnet_relay(settings: &Settings) -> (r: Option<String>)
        ensures
            text::opt(r) == read(settings@).clearnet_relay,
    {
        transport::unless_blank(settings.get("clearnet_url"))
    }

    /// Sets the relay outside Tor, or none: what is saved, and the order of the doors that is to be used
    /// once it is saved (`AppHandle::set_transport_order`). With a relay the doors outside Tor come
    /// first.
    pub fn set_clearnet_relay(
        url: Option<&str>,
        clearnet_first: Vec<String>,
        fallback: Vec<String>,
    ) -> (r: (Vec<Effect>, Vec<String>))
        ensures
            (effects::effects(r.0@), text::texts(r.1@)) == relay_effects(
                text::opt_str(url),
                text::texts(clearnet_first@),
                text::texts(fallback@),
            ),
    {
        let relay: String = match url {
            None => text::owned(""),
            Some(u) => {
                let chars: Vec<char> = text::chars_of(u);
                text::string_of(text::trim(chars.as_slice(), text::CharClass::Whitespace))
            },
        };
        let chars: Vec<char> = text::chars_of(relay.as_str());
        let ghost v = relay@;
        proof {
            reveal_strlit("");
        }
        let order: Vec<String> = if chars.len() == 0 || clearnet_first.len() == 0 {
            fallback
        } else {
            clearnet_first
        };
        let mut out: Vec<Effect> = save("clearnet_url", relay);
        let mut more: Vec<Effect> = save("transport_order", join_commas(&order));
        let ghost first = effects::effects(out@);
        let ghost second = effects::effects(more@);
        out.append(&mut more);
        assert(effects::effects(out@) =~= first + second);
        (out, order)
    }

    /// When we last looked for a new version; never is zero.
    pub fn last_update_check_at(settings: &Settings) -> (r: i64)
        ensures
            r == read(settings@).last_update_check_at,
    {
        saved_i64(&settings.get("last_update_check_at"), 0)
    }

    pub fn set_last_update_check_at(at: i64) -> (r: Vec<Effect>)
        ensures
            effects::effects(r@) == update_check_effects(at),
    {
        let words: String = if at < 0 {
            let n: u64 = (0 - at as i128) as u64;
            let digits: String = text::decimal_of(n);
            text::join2("-", digits.as_str())
        } else {
            text::decimal_of(at as u64)
        };
        save("last_update_check_at", words)
    }

    /// The newest version that we heard of.
    pub fn last_known_remote_version(settings: &Settings) -> (r: Option<String>)
        ensures
            text::opt(r) == read(settings@).last_known_remote_version,
    {
        settings.get("last_known_remote_version")
    }

    pub fn set_last_known_remote_version(version: &str) -> (r: Vec<Effect>)
        ensures
            effects::effects(r@) == version_effects(version@),
    {
        save("last_known_remote_version", text::owned(version))
    }

    /// When sessions are due, as it was set: after so many messages and so many hours.
    pub fn megolm_rotation_policy(settings: &Settings) -> (r: RotationPolicy)
        ensures
            r == read(settings@).rotation,
    {
        let messages: u32 = match settings.get("megolm_rotation_max_messages") {
            None => megolm::DEFAULT_MAX_MESSAGES,
            Some(s) => match parse_u32(s.as_str()) {
                Some(n) => n,
                None => megolm::DEFAULT_MAX_MESSAGES,
            },
        };
        let hours: i64 = saved_i64(
            &settings.get("megolm_rotation_max_hours"),
            megolm::DEFAULT_MAX_HOURS,
        );
        RotationPolicy::from_messages_and_hours(messages, hours)
    }

    /// After how many messages and hours sessions are due.
    pub fn megolm_rotation_config(settings: &Settings) -> (r: (u32, i64))
        ensures
            r.0 == read(settings@).rotation.max_messages,
            r.1 == read(settings@).rotation.max_age_secs / 3600,
    {
        let policy: RotationPolicy = Self::megolm_rotation_policy(settings);
        (policy.max_messages, policy.max_age_secs / 3600)
    }

    pub fn set_megolm_rotation_max_messages(n: u32) -> (r: Vec<Effect>)
        ensures
            effects::effects(r@) == max_messages_effects(n),
    {
        save("megolm_rotation_max_messages", text::decimal_of(n as u64))
    }

    /// No number of hours below zero is saved.
    pub fn set_megolm_rotation_max_hours(hours: i64) -> (r: Vec<Effect>)
        ensures
            effects::effects(r@) == max_hours_effects(hours),
    {
        let n: u64 = if hours < 0 {
            0
        } else {
            hours as u64
        };
        save("megolm_rotation_max_hours", text::decimal_of(n))
    }
}

// ---------------------------------------------------------------------------------------------
// The order of the doors
// ---------------------------------------------------------------------------------------------

/// The order to use: the default where none is given.
pub open spec fn order_or(order: Seq<Seq<char>>, fallback: Seq<Seq<char>>) -> Seq<Seq<char>> {
    if order.len() == 0 {
        fallback
    } else {
        order
    }
}

fn join_commas(v: &Vec<String>) -> (r: String)
    ensures
        r@ == text::joined(text::texts(v@), ","@),
{
    let ghost all = text::texts(v@);
    let mut out: String = String::new();
    let mut i: usize = 0;
    assert(out@ =~= text::joined(all.take(0), ","@));
    while i < v.len()
        invariant
            i <= v@.len(),
            all == text::texts(v@),
            out@ == text::joined(all.take(i as int), ","@),
        decreases v@.len() - i,
    {
        proof {
            assert(all.take(i + 1).drop_last() =~= all.take(i as int));
            assert(all.take(i + 1).last() == v@[i as int]@);
        }
        if i > 0 {
            text::push_str(&mut out, ",");
        }
        text::push_str(&mut out, v[i].as_str());
        proof {
            if i == 0 {
                assert(out@ =~= all.take(1)[0]);
            }
        }
        i = i + 1;
    }
    assert(all.take(all.len() as int) =~= all);
    out
}

impl AppHandle {
    /// What saving this order of the doors causes: it is saved with commas between them.
    pub fn transport_order_setting(order: &Vec<String>, fallback: &Vec<String>) -> (r: Vec<Effect>)
        ensures
            effects::effects(r@) == order_effects(text::texts(order@), text::texts(fallback@)),
    {
        let words: String = if order.len() == 0 {
            join_commas(fallback)
        } else {
            join_commas(order)
        };
        save("transport_order", words)
    }

    /// Uses this order of the doors from now on, once it is saved (`transport_order_setting`).
    pub fn set_transport_order(&mut self, order: Vec<String>, fallback: Vec<String>) -> (r: Vec<Effect>)
        requires
            old(self)@.wf(),
        ensures
            final(self)@.wf(),
            (final(self)@, effects::effects(r@)) == old(self)@.reordered(
                text::texts(order@),
                text::texts(fallback@),
            ),
    {
        let ghost before = self@;
        self.transport_order = if order.len() == 0 {
            fallback
        } else {
            order
        };
        let mut out: Vec<Effect> = Vec::new();
        out.push(Effect::Reconnect);
        proof {
            assert(effects::effects(out@) =~= seq![out@[0]@]);
            assert(self@ =~= AppView { order: self@.order, ..before });
        }
        out
    }

    /// The order in which the doors to the relay are tried.
    pub fn current_transport_order(&self) -> (r: Vec<String>)
        ensures
            text::texts(r@) == self@.order,
    {
        text::texts_copy(&self.transport_order)
    }

    /// A short code of our identity, to compare by eye.
    pub fn safety_code(&self) -> (r: String)
        ensures
            r@ == crate::identity::safety_code_of(self@.identity.public),
    {
        crate::identity::safety_code(&self.identity.public_bytes())
    }
}

// ---------------------------------------------------------------------------------------------
// Numbers
// ---------------------------------------------------------------------------------------------

/// The number that a text writes: digits, with or without a sign in front of them.
pub open spec fn number_in(s: Seq<char>) -> Option<int> {
    let signed = s.len() > 0 && (s[0] == '-' || s[0] == '+');
    let digits = if signed {
        s.skip(1)
    } else {
        s
    };
    if !text::all_digits(digits) {
        None
    } else if signed && s[0] == '-' {
        Some(-(text::decimal_value(digits) as int))
    } else {
        Some(text::decimal_value(digits) as int)
    }
}

/// The number of a text, if it is one of 64 bits.
fn parse_i64(s: &str) -> (r: Option<i64>)
    ensures
        match number_in(s@) {
            Some(n) => if i64::MIN <= n <= i64::MAX {
                r == Some(n as i64)
            } else {
                r is None
            },
            None => r is None,
        },
{
    let chars: Vec<char> = text::chars_of(s);
    let minus: bool = chars.len() > 0 && chars[0] == '-';
    let plus: bool = chars.len() > 0 && chars[0] == '+';
    let digits: &[char] = if minus || plus {
        slice_subrange(chars.as_slice(), 1, chars.len())
    } else {
        chars.as_slice()
    };
    proof {
        if minus || plus {
            assert(digits@ =~= s@.skip(1));
        }
    }
    match text::parse_decimal(digits, 0x8000_0000_0000_0000) {
        None => None,
        Some(n) => {
            if minus {
                Some((0 - n as i128) as i64)
            } else if n > i64::MAX as u64 {
                None
            } else {
                Some(n as i64)
            }
        },
    }
}

/// The number of a text, if it is one of 32 bits without a minus sign.
fn parse_u32(s: &str) -> (r: Option<u32>)
    ensures
        match number_in(s@) {
            Some(n) => if 0 <= n <= u32::MAX && s@[0] != '-' {
                r == Some(n as u32)
            } else {
                r is None
            },
            None => r is None,
        },
{
    let chars: Vec<char> = text::chars_of(s);
    if chars.len() > 0 && chars[0] == '-' {
        return None;
    }
    let plus: bool = chars.len() > 0 && chars[0] == '+';
    let digits: &[char] = if plus {
        slice_subrange(chars.as_slice(), 1, chars.len())
    } else {
        chars.as_slice()
    };
    proof {
        if plus {
            assert(digits@ =~= s@.skip(1));
        }
    }
    match text::parse_decimal(digits, u32::MAX as u64) {
        None => None,
        Some(n) => Some(n as u32),
    }
}

/// The number of messages after which a session is due, as it was set.
pub open spec fn messages_set(saved: Option<Seq<char>>) -> u32 {
    match saved {
        Some(s) => match number_in(s) {
            Some(n) => if 0 <= n <= u32::MAX && s[0] != '-' {
                n as u32
            } else {
                megolm::DEFAULT_MAX_MESSAGES
            },
            None => megolm::DEFAULT_MAX_MESSAGES,
        },
        None => megolm::DEFAULT_MAX_MESSAGES,
    }
}

/// A number as it was set, or this one.
pub open spec fn number_set(saved: Option<Seq<char>>, default: i64) -> i64 {
    match saved {
        Some(s) => match number_in(s) {
            Some(n) => if i64::MIN <= n <= i64::MAX {
                n as i64
            } else {
                default
            },
            None => default,
        },
        None => default,
    }
}

fn saved_i64(saved: &Option<String>, default: i64) -> (r: i64)
    ensures
        r == number_set(text::opt(*saved), default),
{
    match saved {
        None => default,
        Some(s) => match parse_i64(s.as_str()) {
            Some(n) => n,
            None => default,
        },
    }
}

/// When sessions are due, as it was set.
pub open spec fn policy_set(settings: Map<Seq<char>, Seq<char>>) -> RotationPolicy {
    RotationPolicy {
        max_messages: messages_set(saved(settings, "megolm_rotation_max_messages"@)),
        max_age_secs: megolm::hours_in_secs(
            number_set(
                saved(settings, "megolm_rotation_max_hours"@),
                megolm::DEFAULT_MAX_HOURS,
            ) as int,
        ) as i64,
    }
}

/// A number in decimal, with a minus sign where it is below zero.
pub open spec fn signed_decimal(n: int) -> Seq<char> {
    if n < 0 {
        "-"@ + text::decimal((-n) as nat)
    } else {
        text::decimal(n as nat)
    }
}

// ---------------------------------------------------------------------------------------------
// Laws
// ---------------------------------------------------------------------------------------------

/// What was set last is what is saved.
proof fn lemma_applied(settings: Map<Seq<char>, Seq<char>>, key: Seq<char>, value: Seq<char>)
    ensures
        applied(settings, setting(key, value)) == settings.insert(key, value),
{
    let eff = setting(key, value);
    assert(eff.drop_last() =~= Seq::<EffectView>::empty());
    reveal_with_fuel(applied, 2);
}

/// A switch is as it was set, under any key and whatever it is where it was not set.
pub proof fn law_switches_survive(
    settings: Map<Seq<char>, Seq<char>>,
    key: Seq<char>,
    on: bool,
    default: bool,
)
    ensures
        is_on(saved(applied(settings, setting(key, switch_text(on))), key), default) == on,
{
    lemma_applied(settings, key, switch_text(on));
    reveal_strlit("1");
    reveal_strlit("0");
    assert("0"@[0] == '0' && "1"@[0] == '1');
}

/// A number that is written in decimal is read as itself.
proof fn lemma_number_in(n: int)
    ensures
        number_in(signed_decimal(n)) == Some(n),
        n >= 0 ==> signed_decimal(n)[0] != '-',
{
    reveal_strlit("-");
    if n < 0 {
        text::lemma_decimal((-n) as nat);
        assert(signed_decimal(n).skip(1) =~= text::decimal((-n) as nat));
    } else {
        text::lemma_decimal(n as nat);
    }
}

/// The number of messages after which sessions are due is as it was set.
pub proof fn law_rotation_messages_survive(settings: Map<Seq<char>, Seq<char>>, n: u32)
    ensures
        policy_set(
            applied(settings, setting("megolm_rotation_max_messages"@, text::decimal(n as nat))),
        ).max_messages == n,
{
    lemma_applied(settings, "megolm_rotation_max_messages"@, text::decimal(n as nat));
    lemma_number_in(n as int);
}

/// The number of hours after which sessions are due is as it was set, as far as it fits into seconds.
pub proof fn law_rotation_hours_survive(settings: Map<Seq<char>, Seq<char>>, hours: i64)
    requires
        0 <= hours <= i64::MAX / 3600,
    ensures
        policy_set(
            applied(settings, setting("megolm_rotation_max_hours"@, text::decimal(hours as nat))),
        ).max_age_secs == hours * 3600,
{
    lemma_applied(settings, "megolm_rotation_max_hours"@, text::decimal(hours as nat));
    lemma_number_in(hours as int);
}

/// The time of the last look for a new version is as it was set.
pub proof fn law_update_checks_survive(settings: Map<Seq<char>, Seq<char>>, at: i64)
    ensures
        number_set(
            saved(
                applied(settings, setting("last_update_check_at"@, signed_decimal(at as int))),
                "last_update_check_at"@,
            ),
            0,
        ) == at,
{
    lemma_applied(settings, "last_update_check_at"@, signed_decimal(at as int));
    lemma_number_in(at as int);
}

/// No two settings are saved under one key: their lengths or their first characters differ.
proof fn lemma_keys_differ()
    ensures
        "verified_only_inbound"@.len() == 21 && "verified_only_inbound"@[0] == 'v',
        "mdns_enabled"@.len() == 12 && "mdns_enabled"@[0] == 'm',
        "attach_via_path"@.len() == 15 && "attach_via_path"@[0] == 'a',
        "notifications_enabled"@.len() == 21 && "notifications_enabled"@[0] == 'n',
        "theme"@.len() == 5 && "theme"@[0] == 't',
        "clearnet_url"@.len() == 12 && "clearnet_url"@[0] == 'c',
        "last_update_check_at"@.len() == 20 && "last_update_check_at"@[0] == 'l',
        "last_known_remote_version"@.len() == 25 && "last_known_remote_version"@[0] == 'l',
        "megolm_rotation_max_messages"@.len() == 28 && "megolm_rotation_max_messages"@[0] == 'm',
        "megolm_rotation_max_hours"@.len() == 25 && "megolm_rotation_max_hours"@[0] == 'm',
        "transport_order"@.len() == 15 && "transport_order"@[0] == 't',
{
    reveal_strlit("verified_only_inbound");
    reveal_strlit("mdns_enabled");
    reveal_strlit("attach_via_path");
    reveal_strlit("notifications_enabled");
    reveal_strlit("theme");
    reveal_strlit("clearnet_url");
    reveal_strlit("last_update_check_at");
    reveal_strlit("last_known_remote_version");
    reveal_strlit("megolm_rotation_max_messages");
    reveal_strlit("megolm_rotation_max_hours");
    reveal_strlit("transport_order");
}

/// What is saved under one key leaves what is saved under another.
proof fn lemma_saved_apart(
    settings: Map<Seq<char>, Seq<char>>,
    key: Seq<char>,
    value: Seq<char>,
)
    ensures
        ({
            let after = applied(settings, setting(key, value));
            &&& saved(after, key) == Some(value)
            &&& forall|other: Seq<char>|
                other != key ==> #[trigger] saved(after, other) == saved(settings, other)
        }),
{
    lemma_applied(settings, key, value);
}

/// Each switch reads as it was set last, and setting it leaves everything else that is set as it was.
#[verifier::spinoff_prover]
#[verifier::rlimit(60)]
pub proof fn law_switches_are_kept_apart(settings: Map<Seq<char>, Seq<char>>, on: bool)
    ensures
        read(applied(settings, verified_only_effects(on))) == (SettingsRead {
            verified_only_inbound: on,
            ..read(settings)
        }),
        read(applied(settings, mdns_effects(on))) == (SettingsRead {
            mdns_enabled: on,
            ..read(settings)
        }),
        read(applied(settings, attach_effects(on))) == (SettingsRead {
            attach_via_path: on,
            ..read(settings)
        }),
        read(applied(settings, notification_effects(on))) == (SettingsRead {
            notifications_enabled: on,
            ..read(settings)
        }),
{
    lemma_keys_differ();
    lemma_saved_apart(settings, "verified_only_inbound"@, switch_text(on));
    lemma_saved_apart(settings, "mdns_enabled"@, switch_text(on));
    lemma_saved_apart(settings, "attach_via_path"@, switch_text(on));
    lemma_saved_apart(settings, "notifications_enabled"@, switch_text(on));
    law_switches_survive(settings, "verified_only_inbound"@, on, false);
    law_switches_survive(settings, "mdns_enabled"@, on, false);
    law_switches_survive(settings, "attach_via_path"@, on, false);
    law_switches_survive(settings, "notifications_enabled"@, on, true);
}

/// Each of the other settings reads as it was set last, and setting it leaves everything else that is set as it
/// was. A blank theme is that of the system, and no number of hours below zero is kept.
#[verifier::spinoff_prover]
#[verifier::rlimit(60)]
pub proof fn law_settings_are_kept_apart(
    settings: Map<Seq<char>, Seq<char>>,
    words: Seq<char>,
    at: i64,
    n: u32,
    hours: i64,
)
    requires
        hours <= i64::MAX / 3600,
    ensures
        read(applied(settings, theme_effects(words))) == (SettingsRead {
            theme: if text::trimmed(words).len() > 0 {
                words
            } else {
                "system"@
            },
            ..read(settings)
        }),
        read(applied(settings, update_check_effects(at))) == (SettingsRead {
            last_update_check_at: at,
            ..read(settings)
        }),
        read(applied(settings, version_effects(words))) == (SettingsRead {
            last_known_remote_version: Some(words),
            ..read(settings)
        }),
        read(applied(settings, max_messages_effects(n))) == (SettingsRead {
            rotation: RotationPolicy { max_messages: n, ..read(settings).rotation },
            ..read(settings)
        }),
        read(applied(settings, max_hours_effects(hours))) == (SettingsRead {
            rotation: RotationPolicy {
                max_age_secs: if hours < 0 {
                    0
                } else {
                    (hours * 3600) as i64
                },
                ..read(settings).rotation
            },
            ..read(settings)
        }),
{
    lemma_keys_differ();
    let kept: i64 = if hours < 0 {
        0
    } else {
        hours
    };
    lemma_saved_apart(settings, "theme"@, words);
    lemma_saved_apart(settings, "last_update_check_at"@, signed_decimal(at as int));
    lemma_saved_apart(settings, "last_known_remote_version"@, words);
    lemma_saved_apart(settings, "megolm_rotation_max_messages"@, text::decimal(n as nat));
    lemma_saved_apart(settings, "megolm_rotation_max_hours"@, text::decimal(kept as nat));
    law_update_checks_survive(settings, at);
    law_rotation_messages_survive(settings, n);
    law_rotation_hours_survive(settings, kept);
}

/// A relay that was set is the one that is read, without white space around it, and no relay is none; the order
/// of the doors goes with it, and what is used is what is saved. Nothing else changes.
#[verifier::spinoff_prover]
#[verifier::rlimit(60)]
pub proof fn law_relays_are_kept(
    app: AppView,
    settings: Map<Seq<char>, Seq<char>>,
    url: Option<Seq<char>>,
    clearnet_first: Seq<Seq<char>>,
    fallback: Seq<Seq<char>>,
)
    requires
        clearnet_first.len() > 0,
    ensures
        ({
            let (eff, order) = relay_effects(url, clearnet_first, fallback);
            let given = url is Some && text::trimmed(url->0).len() > 0;
            &&& read(applied(settings, eff)) == (SettingsRead {
                clearnet_relay: if given {
                    Some(text::trimmed(url->0))
                } else {
                    None
                },
                transport_order: Some(text::joined(order, ","@)),
                ..read(settings)
            })
            &&& order == (if given {
                clearnet_first
            } else {
                fallback
            })
            &&& read(applied(settings, order_effects(order, fallback))) == (SettingsRead {
                transport_order: Some(text::joined(order, ","@)),
                ..read(settings)
            })
            &&& app.reordered(order, fallback).0.order == order
            &&& app.reordered(order, fallback).1.contains(EffectView::Reconnect)
        }),
{
    lemma_keys_differ();
    reveal_strlit("");
    let (eff, order) = relay_effects(url, clearnet_first, fallback);
    let relay = match url {
        Some(u) => text::trimmed(u),
        None => ""@,
    };
    let words = text::joined(order, ","@);
    let first = setting("clearnet_url"@, relay);
    lemma_saved_apart(settings, "clearnet_url"@, relay);
    lemma_saved_apart(applied(settings, first), "transport_order"@, words);
    lemma_saved_apart(settings, "transport_order"@, words);
    assert(applied(settings, eff) == applied(
        applied(settings, first),
        setting("transport_order"@, words),
    )) by {
        assert(eff.drop_last() =~= first);
        lemma_applied(applied(settings, first), "transport_order"@, words);
    }
    if url is Some {
        text::lemma_trimmed_ends(url->0, text::CharClass::Whitespace);
        text::lemma_trim_nothing(relay, text::CharClass::Whitespace);
    } else {
        text::lemma_trim_nothing(relay, text::CharClass::Whitespace);
    }
    assert(app.reordered(order, fallback).1[0] == EffectView::Reconnect);
}

/// Where nothing was set, strangers may connect, the local network is left alone, files are not attached by their
/// path, the desktop is notified, and sessions are due after 1000 messages or a day.
pub proof fn law_defaults()
    ensures
        ({
            let none = read(Map::empty());
            &&& !none.verified_only_inbound && !none.mdns_enabled && !none.attach_via_path
            &&& none.notifications_enabled
            &&& none.theme == "system"@
            &&& none.clearnet_relay is None && none.last_known_remote_version is None
            &&& none.last_update_check_at == 0
            &&& none.rotation.max_messages == 1000 && none.rotation.max_age_secs == 86400
            &&& none.transport_order is None
        }),
{
}

} // verus!
