//! The ways by which messages travel.
use crate::text;
use vstd::prelude::*;
use vstd::slice::slice_subrange;

verus! {

/// The relay, as an onion service.
pub const DEFAULT_SERVER_URL: &'static str =
    "ws://huddleg2647kbrmngflqai23f4rrc7l5dnszz5lij76uhqzmkebx2mid.onion:80/ws";

/// The same relay, for those who cannot reach Tor.
pub const DEFAULT_CLEARNET_URL: &'static str =
    "wss://huddle-ws-proxy.richer-richard.workers.dev/ws";

/// The local Tor proxy.
pub const DEFAULT_TOR_SOCKS: &'static str = "127.0.0.1:9050";

/// How the relay is to be reached, as far as the user said.
#[derive(Clone)]
pub struct TransportConfig {
    pub onion_url: Option<String>,
    pub clearnet_url: Option<String>,
    pub tor_socks: Option<String>,
    pub tor_bridge: Option<String>,
    /// The one door to use.
    pub pin: Option<String>,
    /// The doors to try, in this order.
    pub order: Option<Vec<String>>,
}

impl Default for TransportConfig {
    fn default() -> (r: Self)
        ensures
            r.onion_url is None,
            r.clearnet_url is None,
            r.tor_socks is None,
            r.tor_bridge is None,
            r.pin is None,
            r.order is None,
    {
        TransportConfig {
            onion_url: None,
            clearnet_url: None,
            tor_socks: None,
            tor_bridge: None,
            pin: None,
            order: None,
        }
    }
}

impl TransportConfig {
    /// Only the onion service, under this address.
    pub fn onion_only(url: String) -> (r: Self)
        ensures
            r.onion_url == Some(url),
            r.clearnet_url is None,
            r.tor_socks is None,
            r.tor_bridge is None,
            r.pin is None,
            r.order is None,
    {
        TransportConfig {
            onion_url: Some(url),
            clearnet_url: None,
            tor_socks: None,
            tor_bridge: None,
            pin: None,
            order: None,
        }
    }

    /// The Tor proxy to use: what the user said, what the configuration file says, or the default.
    pub fn resolved_tor_socks(&self, configured: Option<String>) -> (r: String)
        ensures
            r@ == (match (text::opt(self.tor_socks), text::opt(configured)) {
                (Some(s), _) => s,
                (None, Some(s)) => s,
                (None, None) => DEFAULT_TOR_SOCKS@,
            }),
    {
        match &self.tor_socks {
            Some(s) => s.clone(),
            None => match configured {
                Some(s) => s,
                None => text::owned(DEFAULT_TOR_SOCKS),
            },
        }
    }

    /// The address of the relay outside Tor: what the user said, what the configuration file says,
    /// what was saved if it is not blank, or the default where there is an onion service too.
    pub fn resolved_clearnet_url(&self, configured: Option<String>, saved: Option<String>) -> (r: Option<
        String,
    >)
        ensures
            text::opt(r) == (match (text::opt(self.clearnet_url), text::opt(configured)) {
                (Some(s), _) => Some(s),
                (None, Some(s)) => Some(s),
                (None, None) => match not_blank(text::opt(saved)) {
                    Some(s) => Some(s),
                    None => if self.onion_url is Some {
                        Some(DEFAULT_CLEARNET_URL@)
                    } else {
                        None
                    },
                },
            }),
    {
        match &self.clearnet_url {
            Some(s) => Some(s.clone()),
            None => match configured {
                Some(s) => Some(s),
                None => match unless_blank(saved) {
                    Some(s) => Some(s),
                    None => if self.onion_url.is_some() {
                        Some(text::owned(DEFAULT_CLEARNET_URL))
                    } else {
                        None
                    },
                },
            },
        }
    }
}

/// A text that holds more than white space.
pub open spec fn not_blank(s: Option<Seq<char>>) -> Option<Seq<char>> {
    match s {
        Some(t) => if text::trimmed(t).len() == 0 {
            None
        } else {
            Some(t)
        },
        None => None,
    }
}

/// The text, unless it is blank.
pub fn unless_blank(s: Option<String>) -> (r: Option<String>)
    ensures
        text::opt(r) == not_blank(text::opt(s)),
{
    match s {
        None => None,
        Some(t) => {
            let chars: Vec<char> = text::chars_of(t.as_str());
            if text::trim(chars.as_slice(), text::CharClass::Whitespace).len() == 0 {
                None
            } else {
                Some(t)
            }
        },
    }
}

/// Those of the names that are doors, in order.
pub open spec fn doors_among(names: Seq<Seq<char>>, known: Seq<Seq<char>>) -> Seq<Seq<char>> {
    names.filter(|d: Seq<char>| known.contains(d))
}

/// Those of the names that are doors, in order.
pub(crate) fn keep_doors(names: &Vec<String>, known: &Vec<String>) -> (r: Vec<String>)
    ensures
        text::texts(r@) == doors_among(text::texts(names@), text::texts(known@)),
{
    let ghost all = text::texts(names@);
    let ghost keep = |d: Seq<char>| text::texts(known@).contains(d);
    let mut out: Vec<String> = Vec::new();
    let mut i: usize = 0;
    proof {
        reveal(Seq::filter);
        assert(all.take(0).filter(keep) =~= Seq::<Seq<char>>::empty());
        assert(text::texts(out@) =~= Seq::<Seq<char>>::empty());
    }
    while i < names.len()
        invariant
            i <= names@.len(),
            all == text::texts(names@),
            keep == (|d: Seq<char>| text::texts(known@).contains(d)),
            text::texts(out@) == all.take(i as int).filter(keep),
        decreases names@.len() - i,
    {
        let ghost got = text::texts(out@);
        proof {
            reveal(Seq::filter);
            assert(all.take(i + 1).drop_last() =~= all.take(i as int));
            assert(all.take(i + 1).last() == names@[i as int]@);
        }
        if text::texts_contain(known, names[i].as_str()) {
            out.push(names[i].clone());
            assert(text::texts(out@) =~= got.push(all[i as int]));
        }
        i = i + 1;
    }
    assert(all.take(all.len() as int) =~= all);
    out
}

/// The names in a saved order: what stands between its commas, without white space around it.
pub open spec fn names_in(saved: Seq<char>) -> Seq<Seq<char>> {
    text::split(saved, ',').map_values(|s: Seq<char>| text::trimmed(s))
}

fn names_of(saved: &str) -> (r: Vec<String>)
    ensures
        text::texts(r@) == names_in(saved@),
{
    let chars: Vec<char> = text::chars_of(saved);
    let ghost trim = |s: Seq<char>| text::trimmed(s);
    let mut out: Vec<String> = Vec::new();
    let mut from: usize = 0;
    let mut more: bool = true;
    assert(chars@.skip(0) =~= chars@);
    assert(text::texts(out@) + text::split(chars@, ',').map_values(trim) =~= names_in(saved@));
    while more
        invariant
            chars@ == saved@,
            trim == (|s: Seq<char>| text::trimmed(s)),
            from <= chars@.len(),
            more ==> text::texts(out@) + text::split(chars@.skip(from as int), ',').map_values(trim)
                == names_in(saved@),
            !more ==> text::texts(out@) == names_in(saved@),
        decreases
                (if more {
                    1int
                } else {
                    0int
                }),
                chars@.len() - from,
    {
        let ghost got = text::texts(out@);
        let rest: &[char] = slice_subrange(chars.as_slice(), from, chars.len());
        let ghost s = chars@.skip(from as int);
        assert(rest@ =~= s);
        let i: usize = text::find(rest, ',');
        proof {
            text::lemma_first_at(s, ',', 0);
        }
        let piece: &[char] = slice_subrange(rest, 0, i);
        assert(piece@ =~= s.take(i as int));
        let name: &[char] = text::trim(piece, text::CharClass::Whitespace);
        out.push(text::string_of(name));
        assert(text::texts(out@) =~= got.push(name@));
        if i < rest.len() {
            proof {
                assert(s.skip(i + 1) =~= chars@.skip(from + i + 1));
                let tail = text::split(s.skip(i + 1), ',');
                assert((seq![s.take(i as int)] + tail).map_values(trim) =~= seq![name@]
                    + tail.map_values(trim));
                assert(got.push(name@) + tail.map_values(trim) =~= got + (seq![name@]
                    + tail.map_values(trim)));
            }
            from = from + i + 1;
        } else {
            proof {
                assert(s.take(i as int) =~= s);
                assert(seq![s].map_values(trim) =~= seq![name@]);
                assert(got + seq![name@] =~= got.push(name@));
            }
            more = false;
        }
    }
    out
}

/// The name, if it is that of a door.
pub open spec fn door(name: Option<Seq<char>>, known: Seq<Seq<char>>) -> Option<Seq<char>> {
    match name {
        Some(d) => if known.contains(d) {
            Some(d)
        } else {
            None
        },
        None => None,
    }
}

pub open spec fn list_opt(v: Option<Vec<String>>) -> Seq<Seq<char>> {
    match v {
        Some(v) => text::texts(v@),
        None => Seq::empty(),
    }
}

/// The order in which the doors are tried: only the pinned one, by what the user said or what was saved;
/// else what the user said, what was saved, or the default. A name that is not that of a door is passed
/// over, and so is an order that names none.
pub open spec fn order_resolved(
    pin: Option<Seq<char>>,
    saved_pin: Option<Seq<char>>,
    said: Seq<Seq<char>>,
    saved: Seq<Seq<char>>,
    known: Seq<Seq<char>>,
    fallback: Seq<Seq<char>>,
) -> Seq<Seq<char>> {
    match (door(pin, known), door(saved_pin, known)) {
        (Some(p), _) => seq![p],
        (None, Some(p)) => seq![p],
        (None, None) => if doors_among(said, known).len() > 0 {
            doors_among(said, known)
        } else if doors_among(saved, known).len() > 0 {
            doors_among(saved, known)
        } else {
            fallback
        },
    }
}

/// The order in which the doors are tried, of the doors that there are (`known`). `saved` is a list with
/// commas, as `AppHandle::transport_order_setting` saves it.
pub fn resolved_order(
    pin: Option<String>,
    saved_pin: Option<String>,
    said: Option<Vec<String>>,
    saved: Option<String>,
    known: &Vec<String>,
    fallback: Vec<String>,
) -> (r: Vec<String>)
    ensures
        text::texts(r@) == order_resolved(
            text::opt(pin),
            text::opt(saved_pin),
            list_opt(said),
            match text::opt(saved) {
                Some(s) => names_in(s),
                None => Seq::empty(),
            },
            text::texts(known@),
            text::texts(fallback@),
        ),
{
    match pin {
        Some(p) => {
            if text::texts_contain(known, p.as_str()) {
                return one_door(p);
            }
        },
        None => {},
    }
    match saved_pin {
        Some(p) => {
            if text::texts_contain(known, p.as_str()) {
                return one_door(p);
            }
        },
        None => {},
    }
    let ghost none = Seq::<Seq<char>>::empty();
    proof {
        reveal(Seq::filter);
        assert(doors_among(none, text::texts(known@)) =~= none);
    }
    match &said {
        Some(o) => {
            let doors: Vec<String> = keep_doors(o, known);
            assert(text::texts(doors@).len() == doors@.len());
            if doors.len() > 0 {
                return doors;
            }
        },
        None => {},
    }
    match &saved {
        Some(s) => {
            let names: Vec<String> = names_of(s.as_str());
            let doors: Vec<String> = keep_doors(&names, known);
            assert(text::texts(doors@).len() == doors@.len());
            if doors.len() > 0 {
                return doors;
            }
        },
        None => {},
    }
    fallback
}

fn one_door(name: String) -> (r: Vec<String>)
    ensures
        text::texts(r@) == seq![name@],
{
    let ghost v = name@;
    let mut out: Vec<String> = Vec::new();
    out.push(name);
    assert(text::texts(out@) =~= seq![v]);
    out
}

proof fn lemma_split_append(a: Seq<char>, b: Seq<char>)
    requires
        !b.contains(','),
    ensures
        text::split(a + ","@ + b, ',') == text::split(a, ',') + seq![b],
    decreases a.len(),
{
    reveal_strlit(",");
    let whole = a + ","@ + b;
    let i = text::first_at(a, ',', 0);
    let w = text::first_at(whole, ',', 0);
    text::lemma_first_at(a, ',', 0);
    text::lemma_first_at(whole, ',', 0);
    assert(whole[a.len() as int] == ',');
    assert(w == i) by {
        if w < i {
            assert(whole[w] == a[w]);
        }
        if i < w {
            assert(whole[i] == ',');
        }
    }
    if i < a.len() {
        let rest = a.skip(i + 1);
        assert(whole.take(i) =~= a.take(i));
        assert(whole.skip(i + 1) =~= rest + ","@ + b);
        lemma_split_append(rest, b);
        assert(text::split(whole, ',') =~= text::split(a, ',') + seq![b]);
    } else {
        assert(whole.take(w) =~= a);
        assert(whole.skip(w + 1) =~= b);
        let j = text::first_at(b, ',', 0);
        text::lemma_first_at(b, ',', 0);
        assert(j == b.len()) by {
            if j < b.len() {
                assert(b.contains(b[j]));
            }
        }
        assert(text::split(b, ',') =~= seq![b]);
        assert(text::split(a, ',') =~= seq![a]);
    }
}

/// The name can stand in a saved order: no comma in it, and no white space around it.
pub open spec fn plain_name(name: Seq<char>) -> bool {
    !name.contains(',') && text::trimmed(name) == name
}

proof fn lemma_names_survive(order: Seq<Seq<char>>)
    requires
        order.len() > 0,
        forall|i: int| 0 <= i < order.len() ==> plain_name(#[trigger] order[i]),
    ensures
        names_in(text::joined(order, ","@)) == order,
    decreases order.len(),
{
    let trim = |s: Seq<char>| text::trimmed(s);
    let last = order.last();
    assert(plain_name(order[order.len() - 1]));
    if order.len() == 1 {
        text::lemma_first_at(last, ',', 0);
        let j = text::first_at(last, ',', 0);
        assert(j == last.len()) by {
            if j < last.len() {
                assert(last.contains(last[j]));
            }
        }
        assert(text::split(last, ',') =~= seq![last]);
        assert(seq![last].map_values(trim) =~= order);
    } else {
        let front = order.drop_last();
        assert forall|i: int| 0 <= i < front.len() implies plain_name(#[trigger] front[i]) by {
            assert(front[i] == order[i]);
        }
        lemma_names_survive(front);
        lemma_split_append(text::joined(front, ","@), last);
        let pieces = text::split(text::joined(front, ","@), ',');
        assert((pieces + seq![last]).map_values(trim) =~= pieces.map_values(trim) + seq![last]);
        assert(front + seq![last] =~= order);
    }
}

/// An order of doors that was saved is the one that is used after the next start, unless a pin or what the
/// user says comes first.
pub proof fn law_saved_orders_survive(
    order: Seq<Seq<char>>,
    known: Seq<Seq<char>>,
    fallback: Seq<Seq<char>>,
)
    requires
        order.len() > 0,
        forall|i: int| 0 <= i < order.len() ==> known.contains(#[trigger] order[i]),
        forall|i: int| 0 <= i < order.len() ==> plain_name(#[trigger] order[i]),
    ensures
        order_resolved(
            None,
            None,
            Seq::empty(),
            names_in(text::joined(order, ","@)),
            known,
            fallback,
        ) == order,
{
    reveal(Seq::filter);
    lemma_names_survive(order);
    lemma_all_doors(order, known);
    assert(doors_among(Seq::<Seq<char>>::empty(), known) =~= Seq::empty());
}

proof fn lemma_all_doors(order: Seq<Seq<char>>, known: Seq<Seq<char>>)
    requires
        forall|i: int| 0 <= i < order.len() ==> known.contains(#[trigger] order[i]),
    ensures
        doors_among(order, known) == order,
    decreases order.len(),
{
    reveal(Seq::filter);
    if order.len() > 0 {
        let front = order.drop_last();
        assert forall|i: int| 0 <= i < front.len() implies known.contains(#[trigger] front[i]) by {
            assert(front[i] == order[i]);
        }
        lemma_all_doors(front, known);
        assert(known.contains(order[order.len() - 1]));
        assert(front.push(order.last()) =~= order);
    } else {
        assert(doors_among(order, known) =~= order);
    }
}

/// Whatever is said or saved, only doors are tried, as long as the default names only doors.
pub proof fn law_only_doors_are_tried(
    pin: Option<Seq<char>>,
    saved_pin: Option<Seq<char>>,
    said: Seq<Seq<char>>,
    saved: Seq<Seq<char>>,
    known: Seq<Seq<char>>,
    fallback: Seq<Seq<char>>,
)
    requires
        forall|d: Seq<char>| fallback.contains(d) ==> #[trigger] known.contains(d),
    ensures
        forall|d: Seq<char>| #[trigger]
            order_resolved(pin, saved_pin, said, saved, known, fallback).contains(d)
                ==> known.contains(d),
{
    broadcast use vstd::seq_lib::group_filter_ensures;

    let order = order_resolved(pin, saved_pin, said, saved, known, fallback);
    let keep = |d: Seq<char>| known.contains(d);
    assert forall|d: Seq<char>| #[trigger] order.contains(d) implies known.contains(d) by {
        let i = choose|i: int| 0 <= i < order.len() && order[i] == d;
        if door(pin, known) is None && door(saved_pin, known) is None {
            if order == said.filter(keep) {
                assert(keep(said.filter(keep)[i]));
            } else if order == saved.filter(keep) {
                assert(keep(saved.filter(keep)[i]));
            }
        }
    }
}

/// How the messages of a room reach its members now.
#[derive(Debug, Clone, Copy, PartialEq, Eq, Structural)]
pub enum RoomTransport {
    /// By a direct connection to one of them.
    LanDirect,
    /// By the relay.
    Relay,
    /// Not at all.
    Offline,
}

impl RoomTransport {
    pub fn label(&self) -> (r: &'static str)
        ensures
            r@ == (match self {
                RoomTransport::LanDirect => "lan"@,
                RoomTransport::Relay => "relay"@,
                RoomTransport::Offline => "offline"@,
            }),
    {
        match self {
            RoomTransport::LanDirect => "lan",
            RoomTransport::Relay => "relay",
            RoomTransport::Offline => "offline",
        }
    }
}

/// Whether a message can leave this device now.
#[derive(Debug, Clone, Copy, PartialEq, Eq, Structural)]
pub enum SendReadiness {
    Ready,
    /// The relay is not connected yet.
    Connecting,
    /// There is no way at all.
    Disconnected,
}

impl SendReadiness {
    pub fn can_send(self) -> (r: bool)
        ensures
            r == (self == SendReadiness::Ready),
    {
        match self {
            SendReadiness::Ready => true,
            _ => false,
        }
    }

    /// Why nothing can be sent.
    pub fn reason(self) -> (r: &'static str)
        ensures
            r@ == (match self {
                SendReadiness::Ready => ""@,
                SendReadiness::Connecting => "connecting to relay — message held"@,
                SendReadiness::Disconnected => "offline — no relay and no LAN link"@,
            }),
    {
        match self {
            SendReadiness::Ready => "",
            SendReadiness::Connecting => "connecting to relay — message held",
            SendReadiness::Disconnected => "offline — no relay and no LAN link",
        }
    }
}

} // verus!
