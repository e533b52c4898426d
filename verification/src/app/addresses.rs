//! The addresses of peers.
use crate::app::events::{DiscoveredRoom, DiscoveredView};
use crate::app::records::{self, KnownPeer, KnownPeerView};
use crate::error::{ErrorView, HuddleError};
use crate::strmap::{self, StrMap};
use crate::text;
use libp2p::Multiaddr;
use vstd::prelude::*;
use vstd::slice::slice_subrange;

verus! {

// ---------------------------------------------------------------------------------------------
// Addresses that a user types
// ---------------------------------------------------------------------------------------------

/// The canonical text of a multiaddr, or what is said of a text that is none.
pub uninterp spec fn multiaddr_text(s: Seq<char>) -> Result<Seq<char>, Seq<char>>;

/// `libp2p::Multiaddr`'s `from_str` and its text, an error as its message.
#[verifier::external_body]
pub(crate) fn multiaddr_of(s: &str) -> (r: Result<String, String>)
    ensures
        match r {
            Ok(m) => multiaddr_text(s@) == address_read(m@),
            Err(words) => multiaddr_text(s@) == address_unread(words@),
        },
{
    s.parse::<Multiaddr>().map(|m| m.to_string()).map_err(|e| e.to_string())
}

pub open spec fn address_read(m: Seq<char>) -> Result<Seq<char>, Seq<char>> {
    Ok(m)
}

pub open spec fn address_unread(words: Seq<char>) -> Result<Seq<char>, Seq<char>> {
    Err(words)
}

/// The multiaddr of a text, or an error that begins with `what`.
pub open spec fn multiaddr_or(s: Seq<char>, what: Seq<char>) -> Result<Seq<char>, ErrorView> {
    match multiaddr_text(s) {
        Ok(m) => Ok(m),
        Err(words) => Err(ErrorView::Other(what + words)),
    }
}

fn parse_multiaddr(s: &str, what: &str) -> (r: Result<String, HuddleError>)
    ensures
        crate::error::result_view(r) == multiaddr_or(s@, what@),
{
    match multiaddr_of(s) {
        Ok(m) => Ok(m),
        Err(words) => Err(HuddleError::Other(text::join2(what, words.as_str()))),
    }
}

/// The digits of a port, which may have a plus sign in front of them.
pub open spec fn port_digits(s: Seq<char>) -> Seq<char> {
    if s.len() > 0 && s[0] == '+' {
        s.skip(1)
    } else {
        s
    }
}

/// The port that a text writes.
pub open spec fn port_of(s: Seq<char>) -> Option<nat> {
    let d = port_digits(s);
    if text::all_digits(d) && text::decimal_value(d) <= 65535 {
        Some(text::decimal_value(d))
    } else {
        None
    }
}

fn parse_port(s: &[char]) -> (r: Option<u64>)
    ensures
        match r {
            Some(p) => port_of(s@) == Some(p as nat),
            None => port_of(s@) is None,
        },
{
    let digits: &[char] = if s.len() > 0 && s[0] == '+' {
        slice_subrange(s, 1, s.len())
    } else {
        s
    };
    assert(digits@ =~= port_digits(s@));
    text::parse_decimal(digits, 65535)
}

/// The address of a host and a port, or why it is none.
pub open spec fn host_and_port(
    proto: Seq<char>,
    host: Seq<char>,
    port: Seq<char>,
    what: Seq<char>,
) -> Result<Seq<char>, ErrorView> {
    match port_of(port) {
        None => Err(ErrorView::Other("invalid port: "@ + port)),
        Some(p) => multiaddr_or(proto + host + "/tcp/"@ + text::decimal(p), what),
    }
}

fn join_host_and_port(proto: &str, host: &[char], port: &[char], what: &str) -> (r: Result<
    String,
    HuddleError,
>)
    ensures
        crate::error::result_view(r) == host_and_port(proto@, host@, port@, what@),
{
    match parse_port(port) {
        None => {
            let words: String = text::string_of(port);
            Err(HuddleError::Other(text::join2("invalid port: ", words.as_str())))
        },
        Some(p) => {
            let host: String = text::string_of(host);
            let number: String = text::decimal_of(p);
            let full: String = text::join4(proto, host.as_str(), "/tcp/", number.as_str());
            parse_multiaddr(full.as_str(), what)
        },
    }
}

/// The multiaddr that a typed address stands for, or why it stands for none.
pub open spec fn dial_address(input: Seq<char>) -> Result<Seq<char>, ErrorView> {
    let t = text::trimmed(input);
    if t.len() == 0 {
        Err(ErrorView::Other("address is empty"@))
    } else if t[0] == '/' {
        multiaddr_or(t, "invalid multiaddr: "@)
    } else if t[0] == '[' {
        let rest = t.skip(1);
        match text::first_text(rest, "]:"@, 0) {
            None => Err(ErrorView::Other("expected [ipv6]:port, got "@ + t)),
            Some(i) => host_and_port(
                "/ip6/"@,
                rest.take(i),
                rest.skip(i + 2),
                "invalid ipv6 address: "@,
            ),
        }
    } else {
        let i = text::last_at(t, ':');
        if i < 0 {
            Err(ErrorView::Other("expected ip:port, got "@ + t))
        } else if t.take(i).contains(':') {
            Err(
                ErrorView::Other(
                    "ambiguous IPv6 address — wrap host in brackets: ["@ + t.take(i) + "]:"@
                        + t.skip(i + 1),
                ),
            )
        } else {
            host_and_port("/ip4/"@, t.take(i), t.skip(i + 1), "invalid address: "@)
        }
    }
}

/// Reads an address as a user types it: `ip:port`, `[ipv6]:port` or a multiaddr.
pub fn parse_dial_address(input: &str) -> (r: Result<String, HuddleError>)
    ensures
        crate::error::result_view(r) == dial_address(input@),
{
    let chars: Vec<char> = text::chars_of(input);
    let t: &[char] = text::trim(chars.as_slice(), text::CharClass::Whitespace);
    if t.len() == 0 {
        return Err(crate::error::other_error("address is empty"));
    }
    let whole: String = text::string_of(t);
    if t[0] == '/' {
        return parse_multiaddr(whole.as_str(), "invalid multiaddr: ");
    }
    if t[0] == '[' {
        let rest: &[char] = slice_subrange(t, 1, t.len());
        let close: Vec<char> = text::chars_of("]:");
        proof {
            reveal_strlit("]:");
            assert(rest@ =~= t@.skip(1));
        }
        return match text::find_text(rest, close.as_slice()) {
            None => Err(
                HuddleError::Other(text::join2("expected [ipv6]:port, got ", whole.as_str())),
            ),
            Some(i) => {
                let host: &[char] = slice_subrange(rest, 0, i);
                let port: &[char] = slice_subrange(rest, i + 2, rest.len());
                assert(host@ =~= rest@.take(i as int));
                assert(port@ =~= rest@.skip(i + 2));
                join_host_and_port("/ip6/", host, port, "invalid ipv6 address: ")
            },
        };
    }
    match text::find_last(t, ':') {
        None => Err(HuddleError::Other(text::join2("expected ip:port, got ", whole.as_str()))),
        Some(i) => {
            let host: &[char] = slice_subrange(t, 0, i);
            let port: &[char] = slice_subrange(t, i + 1, t.len());
            assert(host@ =~= t@.take(i as int));
            assert(port@ =~= t@.skip(i + 1));
            if text::contains_char(host, ':') {
                let host: String = text::string_of(host);
                let port: String = text::string_of(port);
                return Err(
                    HuddleError::Other(
                        text::join4(
                            "ambiguous IPv6 address — wrap host in brackets: [",
                            host.as_str(),
                            "]:",
                            port.as_str(),
                        ),
                    ),
                );
            }
            join_host_and_port("/ip4/", host, port, "invalid address: ")
        },
    }
}

// ---------------------------------------------------------------------------------------------
// The order in which addresses are tried
// ---------------------------------------------------------------------------------------------

/// The number of an octet: at most three digits, without a leading zero.
pub open spec fn octet(s: Seq<char>) -> Option<nat> {
    if text::all_digits(s) && s.len() <= 3 && (s.len() == 1 || s[0] != '0') && text::decimal_value(
        s,
    ) <= 255 {
        Some(text::decimal_value(s))
    } else {
        None
    }
}

/// The four octets of an IPv4 address.
pub open spec fn ipv4_of(s: Seq<char>) -> Option<Seq<nat>> {
    let parts = text::split(s, '.');
    if parts.len() == 4 && octet(parts[0]) is Some && octet(parts[1]) is Some && octet(
        parts[2],
    ) is Some && octet(parts[3]) is Some {
        Some(
            seq![
                octet(parts[0])->0,
                octet(parts[1])->0,
                octet(parts[2])->0,
                octet(parts[3])->0,
            ],
        )
    } else {
        None
    }
}

fn parse_octet(s: &[char]) -> (r: Option<u64>)
    ensures
        match r {
            Some(n) => octet(s@) == Some(n as nat) && n <= 255,
            None => octet(s@) is None,
        },
{
    if s.len() == 0 || s.len() > 3 || (s.len() > 1 && s[0] == '0') {
        return None;
    }
    text::parse_decimal(s, 255)
}

proof fn lemma_split_parts(s: Seq<char>)
    ensures
        text::split(s, '.').len() >= 1,
        ({
            let i = text::first_at(s, '.', 0);
            if i < s.len() {
                text::split(s, '.') == seq![s.take(i)] + text::split(s.skip(i + 1), '.')
            } else {
                text::split(s, '.') == seq![s]
            }
        }),
{
}

fn parse_ipv4(s: &[char]) -> (r: Option<[u64; 4]>)
    ensures
        match r {
            Some(o) => ipv4_of(s@) == Some(
                seq![o[0] as nat, o[1] as nat, o[2] as nat, o[3] as nat],
            ),
            None => ipv4_of(s@) is None,
        },
{
    let a: usize = text::find(s, '.');
    proof {
        lemma_split_parts(s@);
    }
    if a == s.len() {
        return None;
    }
    let r1: &[char] = slice_subrange(s, a + 1, s.len());
    assert(r1@ =~= s@.skip(a + 1));
    let b: usize = text::find(r1, '.');
    proof {
        lemma_split_parts(r1@);
    }
    if b == r1.len() {
        return None;
    }
    let r2: &[char] = slice_subrange(r1, b + 1, r1.len());
    assert(r2@ =~= r1@.skip(b + 1));
    let c: usize = text::find(r2, '.');
    proof {
        lemma_split_parts(r2@);
    }
    if c == r2.len() {
        return None;
    }
    let r3: &[char] = slice_subrange(r2, c + 1, r2.len());
    assert(r3@ =~= r2@.skip(c + 1));
    let d: usize = text::find(r3, '.');
    proof {
        lemma_split_parts(r3@);
        lemma_split_parts(r3@.skip(d + 1));
    }
    if d < r3.len() {
        return None;
    }
    let p0: &[char] = slice_subrange(s, 0, a);
    let p1: &[char] = slice_subrange(r1, 0, b);
    let p2: &[char] = slice_subrange(r2, 0, c);
    proof {
        assert(p0@ =~= s@.take(a as int));
        assert(p1@ =~= r1@.take(b as int));
        assert(p2@ =~= r2@.take(c as int));
        assert(text::split(s@, '.') =~= seq![p0@, p1@, p2@, r3@]);
    }
    match (parse_octet(p0), parse_octet(p1), parse_octet(p2), parse_octet(r3)) {
        (Some(o0), Some(o1), Some(o2), Some(o3)) => Some([o0, o1, o2, o3]),
        _ => None,
    }
}

/// An address of a private network: 10/8, 172.16/12 or 192.168/16.
pub open spec fn private_ipv4(o: Seq<nat>) -> bool {
    o[0] == 10 || (o[0] == 172 && 16 <= o[1] <= 31) || (o[0] == 192 && o[1] == 168)
}

/// The address is one of a private network.
pub fn is_rfc1918(o: &[u64; 4]) -> (r: bool)
    ensures
        r == private_ipv4(seq![o[0] as nat, o[1] as nat, o[2] as nat, o[3] as nat]),
{
    o[0] == 10 || (o[0] == 172 && 16 <= o[1] && o[1] <= 31) || (o[0] == 192 && o[1] == 168)
}

/// How far down an address stands: the local network, this machine, the internet, names, and
/// relayed addresses last.
pub open spec fn preference(addr: Seq<char>) -> u8 {
    if text::occurs_in(addr, "/p2p-circuit"@) {
        9
    } else if text::starts_with(addr, "/ip4/"@) {
        match ipv4_of(text::before(addr.skip(5), '/')) {
            None => 3,
            Some(o) => if o[0] == 127 {
                1
            } else if private_ipv4(o) || (o[0] == 169 && o[1] == 254) {
                0
            } else {
                3
            },
        }
    } else if text::starts_with(addr, "/ip6/"@) {
        4
    } else if text::starts_with(addr, "/dns4/"@) || text::starts_with(addr, "/dns6/"@)
        || text::starts_with(addr, "/dnsaddr/"@) {
        5
    } else {
        7
    }
}

/// How far down an address stands in the order in which addresses are tried.
pub fn address_preference(addr: &str) -> (r: u8)
    ensures
        r == preference(addr@),
{
    let chars: Vec<char> = text::chars_of(addr);
    let circuit: Vec<char> = text::chars_of("/p2p-circuit");
    if text::find_text(chars.as_slice(), circuit.as_slice()).is_some() {
        return 9;
    }
    if text::text_has_prefix(addr, "/ip4/") {
        proof {
            reveal_strlit("/ip4/");
        }
        let rest: &[char] = slice_subrange(chars.as_slice(), 5, chars.len());
        assert(rest@ =~= addr@.skip(5));
        let end: usize = text::find(rest, '/');
        let host: &[char] = slice_subrange(rest, 0, end);
        assert(host@ =~= text::before(addr@.skip(5), '/'));
        return match parse_ipv4(host) {
            None => 3,
            Some(o) => if o[0] == 127 {
                1
            } else if is_rfc1918(&o) || (o[0] == 169 && o[1] == 254) {
                0
            } else {
                3
            },
        };
    }
    if text::text_has_prefix(addr, "/ip6/") {
        return 4;
    }
    if text::text_has_prefix(addr, "/dns4/") || text::text_has_prefix(addr, "/dns6/")
        || text::text_has_prefix(addr, "/dnsaddr/") {
        return 5;
    }
    7
}

/// The addresses in the order in which they are tried.
pub open spec fn in_order(addrs: Seq<Seq<char>>) -> bool {
    forall|i: int, j: int|
        0 <= i < j < addrs.len() ==> preference(#[trigger] addrs[i]) <= preference(
            #[trigger] addrs[j],
        )
}

/// Puts an address where it belongs, unless it is there already.
fn insert_in_order(addrs: &mut Vec<String>, addr: &str)
    requires
        text::texts(old(addrs)@).no_duplicates(),
        in_order(text::texts(old(addrs)@)),
    ensures
        text::texts(final(addrs)@).no_duplicates(),
        in_order(text::texts(final(addrs)@)),
        text::texts(final(addrs)@).to_set() == text::texts(old(addrs)@).to_set().insert(addr@),
{
    let ghost before = text::texts(addrs@);
    if text::texts_contain(addrs, addr) {
        assert(before.to_set() =~= before.to_set().insert(addr@));
        return ;
    }
    let rank: u8 = address_preference(addr);
    let mut i: usize = 0;
    while i < addrs.len() && address_preference(addrs[i].as_str()) <= rank
        invariant
            i <= addrs@.len(),
            before == text::texts(addrs@),
            rank == preference(addr@),
            forall|j: int| 0 <= j < i ==> preference(#[trigger] before[j]) <= rank,
        decreases addrs@.len() - i,
    {
        i = i + 1;
    }
    proof {
        assert(forall|j: int| i <= j < before.len() ==> preference(#[trigger] before[j]) >= rank) by {
            if i < before.len() {
                assert(before[i as int] == addrs@[i as int]@);
            }
        }
    }
    addrs.insert(i, text::owned(addr));
    proof {
        let after = text::texts(addrs@);
        assert(after =~= before.insert(i as int, addr@));
        assert(in_order(after)) by {
            assert forall|a: int, b: int| 0 <= a < b < after.len() implies preference(
                #[trigger] after[a],
            ) <= preference(#[trigger] after[b]) by {
                if a < i && b > i {
                    assert(after[a] == before[a] && after[b] == before[b - 1]);
                }
                if a > i {
                    assert(after[a] == before[a - 1] && after[b] == before[b - 1]);
                }
            }
        }
        before.insert_ensures(i as int, addr@);
        assert(after.no_duplicates()) by {
            assert forall|a: int, b: int|
                0 <= a < after.len() && 0 <= b < after.len() && a != b implies after[a]
                != after[b] by {
                let a0 = if a < i {
                    a
                } else {
                    a - 1
                };
                let b0 = if b < i {
                    b
                } else {
                    b - 1
                };
                if a == i {
                    assert(before.contains(before[b0]));
                } else if b == i {
                    assert(before.contains(before[a0]));
                } else {
                    assert(before[a0] != before[b0]);
                }
            }
        }
        assert(after.to_set() =~= before.to_set().insert(addr@)) by {
            assert forall|k: Seq<char>|
                after.to_set().contains(k) == before.to_set().insert(addr@).contains(k) by {
                if before.contains(k) {
                    let j = choose|j: int| 0 <= j < before.len() && before[j] == k;
                    if j < i {
                        assert(after[j] == k);
                    } else {
                        assert(after[j + 1] == k);
                    }
                }
                assert(after[i as int] == addr@);
                if after.contains(k) {
                    let j = choose|j: int| 0 <= j < after.len() && after[j] == k;
                    if j < i {
                        assert(before[j] == k);
                    } else if j > i {
                        assert(before[j - 1] == k);
                    }
                }
            }
        }
    }
}

/// An address under which the peer announced a room.
pub open spec fn announced_by(
    rooms: Map<Seq<char>, DiscoveredView>,
    fingerprint: Seq<char>,
    addr: Seq<char>,
) -> bool {
    exists|id: Seq<char>| #[trigger]
        rooms.dom().contains(id) && rooms[id].creator_fingerprint == fingerprint
            && rooms[id].host_addrs.contains(addr)
}

/// An address under which the peer was dialed before.
pub open spec fn dialed_before(
    known: Seq<KnownPeerView>,
    fingerprint: Seq<char>,
    addr: Seq<char>,
) -> bool {
    exists|i: int|
        0 <= i < known.len() && (#[trigger] known[i]).fingerprint == Some(fingerprint)
            && known[i].address == addr
}

/// Every address that is known of a peer, each once, in the order in which they are tried.
pub(crate) fn resolve_dial_addrs(
    discovered: &StrMap<DiscoveredRoom>,
    known: &Vec<KnownPeer>,
    fingerprint: &str,
) -> (r: Vec<String>)
    ensures
        text::texts(r@).no_duplicates(),
        in_order(text::texts(r@)),
        forall|a: Seq<char>| #[trigger]
            text::texts(r@).contains(a) <==> (announced_by(
                strmap::views(discovered@),
                fingerprint@,
                a,
            ) || dialed_before(records::known_peers(known@), fingerprint@, a)),
{
    let mut out: Vec<String> = Vec::new();
    let n: usize = discovered.len();
    let ghost rooms = strmap::views(discovered@);
    let ghost keys = discovered.keys();
    let ghost fp = fingerprint@;
    let ghost peers = records::known_peers(known@);
    let mut i: usize = 0;
    while i < n
        invariant
            i <= n,
            n == keys.len(),
            keys == discovered.keys(),
            rooms == strmap::views(discovered@),
            fp == fingerprint@,
            forall|k: Seq<char>| keys.contains(k) == #[trigger] discovered@.dom().contains(k),
            text::texts(out@).no_duplicates(),
            in_order(text::texts(out@)),
            forall|a: Seq<char>| #[trigger]
                text::texts(out@).to_set().contains(a) <==> exists|x: int|
                    0 <= x < i && rooms[#[trigger] keys[x]].creator_fingerprint == fp
                        && rooms[keys[x]].host_addrs.contains(a),
        decreases n - i,
    {
        let room: &DiscoveredRoom = discovered.value_at(i);
        let ghost k0 = keys[i as int];
        let ghost got = text::texts(out@).to_set();
        proof {
            assert(keys.contains(k0));
            assert(rooms[k0] == room@);
        }
        let mut j: usize = 0;
        let mine: bool = text::same(room.creator_fingerprint.as_str(), fingerprint);
        let m: usize = if mine {
            room.host_addrs.len()
        } else {
            0
        };
        while j < m
            invariant
                j <= m,
                m == (if mine {
                    room.host_addrs@.len() as int
                } else {
                    0
                }),
                text::texts(out@).no_duplicates(),
                in_order(text::texts(out@)),
                forall|a: Seq<char>| #[trigger]
                    text::texts(out@).to_set().contains(a) <==> (got.contains(a)
                        || room@.host_addrs.take(j as int).contains(a)),
            decreases m - j,
        {
            proof {
                let seen = room@.host_addrs.take(j as int);
                assert(room@.host_addrs.take(j + 1) =~= seen.push(room@.host_addrs[j as int]));
                strmap::lemma_push_contains(seen, room@.host_addrs[j as int]);
            }
            insert_in_order(&mut out, room.host_addrs[j].as_str());
            j = j + 1;
        }
        proof {
            let all = text::texts(out@).to_set();
            if mine {
                assert(room@.host_addrs.take(m as int) =~= room@.host_addrs);
            }
            assert forall|a: Seq<char>| #[trigger] all.contains(a) <==> exists|x: int|
                0 <= x < i + 1 && rooms[#[trigger] keys[x]].creator_fingerprint == fp
                    && rooms[keys[x]].host_addrs.contains(a) by {
                if all.contains(a) {
                    if got.contains(a) {
                        let x = choose|x: int|
                            0 <= x < i && rooms[#[trigger] keys[x]].creator_fingerprint == fp
                                && rooms[keys[x]].host_addrs.contains(a);
                        assert(rooms[keys[x]].creator_fingerprint == fp);
                    } else {
                        assert(rooms[keys[i as int]].creator_fingerprint == fp);
                    }
                }
                if exists|x: int|
                    0 <= x < i + 1 && rooms[#[trigger] keys[x]].creator_fingerprint == fp
                        && rooms[keys[x]].host_addrs.contains(a) {
                    let x = choose|x: int|
                        0 <= x < i + 1 && rooms[#[trigger] keys[x]].creator_fingerprint == fp
                            && rooms[keys[x]].host_addrs.contains(a);
                    if x < i {
                        assert(got.contains(a));
                    }
                }
            }
        }
        i = i + 1;
    }
    let ghost from_rooms = text::texts(out@).to_set();
    proof {
        assert forall|a: Seq<char>| #[trigger]
            from_rooms.contains(a) <==> announced_by(rooms, fp, a) by {
            if from_rooms.contains(a) {
                let x = choose|x: int|
                    0 <= x < n && rooms[#[trigger] keys[x]].creator_fingerprint == fp
                        && rooms[keys[x]].host_addrs.contains(a);
                assert(keys.contains(keys[x]));
                assert(rooms.dom().contains(keys[x]));
            }
            if announced_by(rooms, fp, a) {
                let id = choose|id: Seq<char>| #[trigger]
                    rooms.dom().contains(id) && rooms[id].creator_fingerprint == fp
                        && rooms[id].host_addrs.contains(a);
                assert(discovered@.dom().contains(id));
                assert(keys.contains(id));
                let x = choose|x: int| 0 <= x < keys.len() && keys[x] == id;
                assert(rooms[keys[x]].creator_fingerprint == fp);
            }
        }
    }
    let mut p: usize = 0;
    while p < known.len()
        invariant
            p <= known@.len(),
            peers == records::known_peers(known@),
            fp == fingerprint@,
            text::texts(out@).no_duplicates(),
            in_order(text::texts(out@)),
            forall|a: Seq<char>| #[trigger]
                text::texts(out@).to_set().contains(a) <==> (from_rooms.contains(a)
                    || dialed_before(peers.take(p as int), fp, a)),
        decreases known@.len() - p,
    {
        let ghost got = text::texts(out@).to_set();
        let ghost mut mine = false;
        match &known[p].fingerprint {
            Some(f) => {
                if text::same(f.as_str(), fingerprint) {
                    insert_in_order(&mut out, known[p].address.as_str());
                    proof {
                        mine = true;
                    }
                }
            },
            None => {},
        }
        proof {
            let all = text::texts(out@).to_set();
            let here = peers[p as int];
            assert(here == known@[p as int]@);
            assert(mine == (here.fingerprint == Some(fp)));
            let a0 = peers.take(p as int);
            let a1 = peers.take(p + 1);
            assert(a1 =~= a0.push(here));
            assert forall|a: Seq<char>| #[trigger] all.contains(a) <==> (from_rooms.contains(a)
                || dialed_before(a1, fp, a)) by {
                if dialed_before(a0, fp, a) {
                    let x = choose|x: int|
                        0 <= x < a0.len() && (#[trigger] a0[x]).fingerprint == Some(fp)
                            && a0[x].address == a;
                    assert(a1[x] == a0[x]);
                }
                if dialed_before(a1, fp, a) {
                    let x = choose|x: int|
                        0 <= x < a1.len() && (#[trigger] a1[x]).fingerprint == Some(fp)
                            && a1[x].address == a;
                    if x < p {
                        assert(a0[x] == a1[x]);
                    }
                }
                if mine && here.address == a {
                    assert(a1[p as int] == here);
                }
                assert(got.contains(a) <==> (from_rooms.contains(a) || dialed_before(a0, fp, a)));
            }
        }
        p = p + 1;
    }
    proof {
        assert(peers.take(known@.len() as int) =~= peers);
        assert forall|a: Seq<char>| #[trigger]
            text::texts(out@).contains(a) <==> (announced_by(rooms, fp, a) || dialed_before(
                peers,
                fp,
                a,
            )) by {
            assert(text::texts(out@).to_set().contains(a) == text::texts(out@).contains(a));
        }
    }
    out
}

// ---------------------------------------------------------------------------------------------
// Our own addresses
// ---------------------------------------------------------------------------------------------

/// The first of the relayed addresses and the reachable ones that are not among them: at most four.
pub open spec fn offered(relayed: Seq<Seq<char>>, reachable: Seq<Seq<char>>) -> Seq<Seq<char>> {
    let all = relayed + reachable.filter(|a: Seq<char>| !relayed.contains(a));
    if all.len() > 4 {
        all.take(4)
    } else {
        all
    }
}

/// The addresses under which others can dial us: at most four, relayed ones first.
pub(crate) fn dialable(relayed: &Vec<String>, reachable: &Vec<String>) -> (r: Vec<String>)
    ensures
        text::texts(r@) == offered(text::texts(relayed@), text::texts(reachable@)),
{
    let mut out: Vec<String> = text::texts_copy(relayed);
    let ghost first = text::texts(relayed@);
    let ghost more = text::texts(reachable@);
    let ghost fresh = |a: Seq<char>| !first.contains(a);
    proof {
        reveal(Seq::filter);
        assert(more.take(0).filter(fresh) =~= Seq::<Seq<char>>::empty());
        assert(first + more.take(0).filter(fresh) =~= first);
    }
    let mut i: usize = 0;
    while i < reachable.len()
        invariant
            i <= reachable@.len(),
            more == text::texts(reachable@),
            first == text::texts(relayed@),
            fresh == (|a: Seq<char>| !first.contains(a)),
            text::texts(out@) == first + more.take(i as int).filter(fresh),
        decreases reachable@.len() - i,
    {
        let a: &str = reachable[i].as_str();
        let ghost got = text::texts(out@);
        proof {
            reveal(Seq::filter);
            assert(more.take(i + 1).drop_last() =~= more.take(i as int));
            assert(more.take(i + 1).last() == a@);
        }
        if !text::texts_contain(relayed, a) {
            out.push(text::owned(a));
            assert(text::texts(out@) =~= got.push(a@));
            assert(text::texts(out@) =~= first + more.take(i + 1).filter(fresh));
        }
        i = i + 1;
    }
    proof {
        assert(more.take(more.len() as int) =~= more);
    }
    let ghost all = text::texts(out@);
    if out.len() > 4 {
        out.truncate(4);
        assert(text::texts(out@) =~= all.take(4));
    }
    out
}

} // verus!
