//! Which addresses reach the shelf, and from where.
//!
//! Asking the kernel which local address routes toward a target is socket
//! I/O, done by the program around this library, and so is printing an
//! IPv6 address; the addresses arrive here as values with their text, and
//! what is decided of them is here.

use vstd::prelude::*;
use crate::text::{dec, decimal, push_chars, push_str, string_from_chars};
use crate::order::{KeyView, SortKey, sort_positions, sorted_positions};
use crate::input::pick;

verus! {

broadcast use vstd::string::group_string_axioms;

/// Where an address works.
#[derive(Debug, Clone, Copy, PartialEq, Eq, Structural)]
pub enum Reach {
    /// Only from the machine the library lives on.
    Machine,
    /// From anything on the same network.
    Network,
    /// From anywhere signed in to the same tailnet.
    Tailnet,
}

/// The word for where an address works.
pub open spec fn reach_word(r: Reach) -> Seq<char> {
    match r {
        Reach::Machine => "this machine"@,
        Reach::Network => "this network"@,
        Reach::Tailnet => "your tailnet"@,
    }
}

/// Nearest first: the network, then the tailnet, then the machine.
pub open spec fn reach_order(r: Reach) -> u8 {
    match r {
        Reach::Network => 0,
        Reach::Tailnet => 1,
        Reach::Machine => 2,
    }
}

impl Reach {
    pub fn word(self) -> (r: &'static str)
        ensures
            r@ == reach_word(self),
    {
        match self {
            Reach::Machine => "this machine",
            Reach::Network => "this network",
            Reach::Tailnet => "your tailnet",
        }
    }

    /// Nearest first: the network you are probably on, then the one you
    /// carry, then the machine itself.
    pub fn order(self) -> (r: u8)
        ensures
            r == reach_order(self),
    {
        match self {
            Reach::Network => 0,
            Reach::Tailnet => 1,
            Reach::Machine => 2,
        }
    }
}

/// An address a listener can be opened at, and where it works.
#[derive(Debug, Clone)]
pub struct Reachable {
    pub url: String,
    pub reach: String,
}

/// An IP address: four octets, or eight 16-bit segments.
#[derive(Debug, Clone, Copy, PartialEq, Eq, Structural)]
pub enum Ip {
    V4(u8, u8, u8, u8),
    V6(u16, u16, u16, u16, u16, u16, u16, u16),
}

/// Whether an address is in Tailscale's ranges: `100.64.0.0/10`, or
/// `fd7a:115c:a1e0::/48`.
pub open spec fn is_tailnet_spec(ip: Ip) -> bool {
    match ip {
        Ip::V4(a, b, _, _) => a == 100 && 64 <= b < 128,
        Ip::V6(a, b, c, _, _, _, _, _) => a == 0xfd7a && b == 0x115c && c == 0xa1e0,
    }
}

/// Tailscale hands out `100.64.0.0/10` and `fd7a:115c:a1e0::/48`.
pub fn is_tailnet(ip: Ip) -> (r: bool)
    ensures
        r == is_tailnet_spec(ip),
{
    match ip {
        Ip::V4(a, b, _, _) => a == 100 && 64 <= b && b < 128,
        Ip::V6(a, b, c, _, _, _, _, _) => a == 0xfd7a && b == 0x115c && c == 0xa1e0,
    }
}

/// Loopback: `127.0.0.0/8`, or `::1`.
pub open spec fn is_loopback_spec(ip: Ip) -> bool {
    match ip {
        Ip::V4(a, _, _, _) => a == 127,
        Ip::V6(a, b, c, d, e, f, g, h) => a == 0 && b == 0 && c == 0 && d == 0 && e == 0 && f == 0 && g == 0 && h
            == 1,
    }
}

/// Unspecified: `0.0.0.0`, or `::`.
pub open spec fn is_unspecified_spec(ip: Ip) -> bool {
    match ip {
        Ip::V4(a, b, c, d) => a == 0 && b == 0 && c == 0 && d == 0,
        Ip::V6(a, b, c, d, e, f, g, h) => a == 0 && b == 0 && c == 0 && d == 0 && e == 0 && f == 0 && g == 0 && h
            == 0,
    }
}

pub fn is_loopback(ip: Ip) -> (r: bool)
    ensures
        r == is_loopback_spec(ip),
{
    match ip {
        Ip::V4(a, _, _, _) => a == 127,
        Ip::V6(a, b, c, d, e, f, g, h) => a == 0 && b == 0 && c == 0 && d == 0 && e == 0 && f == 0 && g == 0 && h
            == 1,
    }
}

pub fn is_unspecified(ip: Ip) -> (r: bool)
    ensures
        r == is_unspecified_spec(ip),
{
    match ip {
        Ip::V4(a, b, c, d) => a == 0 && b == 0 && c == 0 && d == 0,
        Ip::V6(a, b, c, d, e, f, g, h) => a == 0 && b == 0 && c == 0 && d == 0 && e == 0 && f == 0 && g == 0 && h
            == 0,
    }
}

/// Where an address works: the machine for loopback, the tailnet for its
/// ranges, the network otherwise.
pub open spec fn reach_of_spec(ip: Ip) -> Reach {
    if is_loopback_spec(ip) {
        Reach::Machine
    } else if is_tailnet_spec(ip) {
        Reach::Tailnet
    } else {
        Reach::Network
    }
}

pub fn reach_of(ip: Ip) -> (r: Reach)
    ensures
        r == reach_of_spec(ip),
{
    if is_loopback(ip) {
        Reach::Machine
    } else if is_tailnet(ip) {
        Reach::Tailnet
    } else {
        Reach::Network
    }
}

/// An address with the text it prints as.
pub struct Addr {
    pub ip: Ip,
    pub text: String,
}

/// The URL of an address: `http://`, the address (bracketed when it is an
/// IPv6 address), `:` and the port.
pub open spec fn url_spec(ip: Ip, text: Seq<char>, port: u16) -> Seq<char> {
    "http://"@ + (if ip is V6 {
        seq!['['] + text + seq![']']
    } else {
        text
    }) + seq![':'] + dec(port as nat)
}

pub fn url_for(a: &Addr, port: u16) -> (r: String)
    ensures
        r@ == url_spec(a.ip, a.text@, port),
{
    let mut v: Vec<char> = Vec::new();
    push_str(&mut v, "http://");
    let v6 = match a.ip {
        Ip::V6(..) => true,
        Ip::V4(..) => false,
    };
    if v6 {
        v.push('[');
    }
    push_str(&mut v, a.text.as_str());
    if v6 {
        v.push(']');
    }
    v.push(':');
    let d = decimal(port as u64);
    push_chars(&mut v, &d);
    string_from_chars(&v)
}

/// An address and its text, as values.
pub struct AddrView {
    pub ip: Ip,
    pub text: Seq<char>,
}

/// The views of the probe answers.
pub open spec fn probe_views(p: Seq<Option<Addr>>) -> Seq<Option<AddrView>> {
    p.map_values(
        |o: Option<Addr>|
            match o {
                Some(a) => Some(AddrView { ip: a.ip, text: a.text@ }),
                None => None,
            },
    )
}

/// The addresses of a list of views.
pub open spec fn ips_of(s: Seq<AddrView>) -> Seq<Ip> {
    s.map_values(|a: AddrView| a.ip)
}

/// The local addresses the route probes found, in probe order, without
/// loopback, unspecified or repeated addresses.
pub open spec fn found_spec(p: Seq<Option<AddrView>>) -> Seq<AddrView>
    decreases p.len(),
{
    if p.len() == 0 {
        Seq::<AddrView>::empty()
    } else {
        let r = found_spec(p.drop_last());
        match p.last() {
            Some(a) => if is_loopback_spec(a.ip) || is_unspecified_spec(a.ip) || ips_of(r).contains(a.ip) {
                r
            } else {
                r.push(a)
            },
            None => r,
        }
    }
}

/// A row as values: its URL and its reach word.
pub struct RowView {
    pub url: Seq<char>,
    pub reach: Seq<char>,
}

/// The row for one address.
pub open spec fn row_of(a: AddrView, port: u16) -> RowView {
    RowView { url: url_spec(a.ip, a.text, port), reach: reach_word(reach_of_spec(a.ip)) }
}

/// Every address a listener can be opened at, each labelled with where it
/// works: the one it is bound to, or, bound to every address, what the
/// probes found, nearest first.
pub open spec fn reachable_spec(local: AddrView, port: u16, probes: Seq<Option<AddrView>>) -> Seq<RowView> {
    if !is_unspecified_spec(local.ip) {
        seq![row_of(local, port)]
    } else {
        let f = found_spec(probes);
        let order = sorted_positions(
            f.len(),
            f.map_values(|a: AddrView| KeyView { tier: reach_order(reach_of_spec(a.ip)), num: 0u64, text: Seq::<char>::empty() }),
        );
        pick(f, order).map_values(|a: AddrView| row_of(a, port))
    }
}

/// The views of a list of rows.
pub open spec fn row_views(v: Seq<Reachable>) -> Seq<RowView> {
    v.map_values(|r: Reachable| RowView { url: r.url@, reach: r.reach@ })
}

fn row_for(a: &Addr, port: u16) -> (r: Reachable)
    ensures
        r.url@ == url_spec(a.ip, a.text@, port),
        r.reach@ == reach_word(reach_of_spec(a.ip)),
{
    Reachable { url: url_for(a, port), reach: reach_of(a.ip).word().to_owned() }
}

fn has_ip(found: &Vec<Addr>, ip: Ip) -> (r: bool)
    ensures
        r == found@.map_values(|a: Addr| a.ip).contains(ip),
{
    let mut i: usize = 0;
    while i < found.len()
        invariant
            i <= found@.len(),
            forall|j: int| 0 <= j < i ==> found@[j].ip != ip,
        decreases found@.len() - i,
    {
        if found[i].ip == ip {
            assert(found@.map_values(|a: Addr| a.ip)[i as int] == ip);
            return true;
        }
        i += 1;
    }
    let ghost m = found@.map_values(|a: Addr| a.ip);
    assert forall|j: int| 0 <= j < m.len() implies m[j] != ip by {
        assert(found@[j].ip != ip);
    }
    false
}

/// The views of a list of addresses.
pub open spec fn addr_views(v: Seq<Addr>) -> Seq<AddrView> {
    v.map_values(|a: Addr| AddrView { ip: a.ip, text: a.text@ })
}

/// Every address this listener can be opened at, each labelled with where
/// it works. `local` is the address it is bound to; `probes` what the
/// route probes found toward each target, in order.
pub fn reachable(local: &Addr, port: u16, probes: &Vec<Option<Addr>>) -> (r: Vec<Reachable>)
    ensures
        row_views(r@) == reachable_spec(AddrView { ip: local.ip, text: local.text@ }, port, probe_views(probes@)),
{
    if !is_unspecified(local.ip) {
        let mut out: Vec<Reachable> = Vec::new();
        out.push(row_for(local, port));
        assert(row_views(out@) =~= seq![row_of(AddrView { ip: local.ip, text: local.text@ }, port)]);
        return out;
    }
    let ghost pv = probe_views(probes@);
    let mut found: Vec<Addr> = Vec::new();
    let mut i: usize = 0;
    assert(pv.take(0) =~= Seq::<Option<AddrView>>::empty());
    while i < probes.len()
        invariant
            i <= probes@.len(),
            pv == probe_views(probes@),
            addr_views(found@) == found_spec(pv.take(i as int)),
        decreases probes@.len() - i,
    {
        assert(pv.take(i + 1).drop_last() =~= pv.take(i as int));
        assert(pv.take(i + 1).last() == pv[i as int]);
        match &probes[i] {
            Some(a) => {
                assert(found@.map_values(|a: Addr| a.ip) =~= ips_of(addr_views(found@)));
                if !is_loopback(a.ip) && !is_unspecified(a.ip) && !has_ip(&found, a.ip) {
                    let ghost before = addr_views(found@);
                    found.push(Addr { ip: a.ip, text: a.text.clone() });
                    assert(addr_views(found@) =~= before.push(AddrView { ip: a.ip, text: a.text@ }));
                }
            },
            None => {},
        }
        i += 1;
    }
    assert(pv.take(i as int) =~= pv);
    let ghost f = addr_views(found@);
    let mut keys: Vec<SortKey> = Vec::new();
    let mut k: usize = 0;
    while k < found.len()
        invariant
            k <= found@.len(),
            f == addr_views(found@),
            keys@.map_values(|x: SortKey| x@) == f.map_values(
                |a: AddrView| KeyView { tier: reach_order(reach_of_spec(a.ip)), num: 0u64, text: Seq::<char>::empty() },
            ).take(k as int),
        decreases found@.len() - k,
    {
        let key = SortKey { tier: reach_of(found[k].ip).order(), num: 0, text: Vec::new() };
        let ghost before = keys@.map_values(|x: SortKey| x@);
        let ghost kv = key@;
        keys.push(key);
        assert(keys@.map_values(|x: SortKey| x@) =~= before.push(kv));
        k += 1;
        assert(keys@.map_values(|x: SortKey| x@) =~= f.map_values(
            |a: AddrView| KeyView { tier: reach_order(reach_of_spec(a.ip)), num: 0u64, text: Seq::<char>::empty() },
        ).take(k as int));
    }
    assert(f.map_values(
        |a: AddrView| KeyView { tier: reach_order(reach_of_spec(a.ip)), num: 0u64, text: Seq::<char>::empty() },
    ).take(k as int) =~= f.map_values(
        |a: AddrView| KeyView { tier: reach_order(reach_of_spec(a.ip)), num: 0u64, text: Seq::<char>::empty() },
    ));
    let order = sort_positions(&keys);
    let ghost picked = pick(f, order@.map_values(|p: usize| p as int));
    let mut out: Vec<Reachable> = Vec::new();
    let mut m: usize = 0;
    while m < order.len()
        invariant
            m <= order@.len(),
            order@.len() == found@.len(),
            forall|j: int| 0 <= j < order@.len() ==> #[trigger] order@[j] < found@.len(),
            f == addr_views(found@),
            picked == pick(f, order@.map_values(|p: usize| p as int)),
            row_views(out@) == picked.map_values(|a: AddrView| row_of(a, port)).take(m as int),
        decreases order@.len() - m,
    {
        let row = row_for(&found[order[m]], port);
        let ghost before = row_views(out@);
        let ghost rv = RowView { url: row.url@, reach: row.reach@ };
        assert(rv == row_of(picked[m as int], port));
        out.push(row);
        assert(row_views(out@) =~= before.push(rv));
        m += 1;
        assert(row_views(out@) =~= picked.map_values(|a: AddrView| row_of(a, port)).take(m as int));
    }
    assert(picked.map_values(|a: AddrView| row_of(a, port)).take(m as int) =~= picked.map_values(
        |a: AddrView| row_of(a, port),
    ));
    out
}


/// The port the remote listens on when nothing says otherwise.
pub const DEFAULT_PORT: u16 = 5555;

/// The port the remote listens on, from `DEN_WEB_PORT`: the default when
/// it is unset or not a port number, nothing (the remote is off) for `0`,
/// otherwise the port it names.
pub open spec fn port_spec(raw: Option<Seq<char>>) -> Option<int> {
    match raw {
        None => Some(DEFAULT_PORT as int),
        Some(r) => match crate::input::parse_unsigned(crate::text::trim(r), false, u16::MAX as int) {
            Some(p) => if p == 0 {
                None
            } else {
                Some(p)
            },
            None => Some(DEFAULT_PORT as int),
        },
    }
}

pub fn port_from(raw: Option<&str>) -> (r: Option<u16>)
    ensures
        match r {
            Some(p) => port_spec(crate::locate::opt_str(raw)) == Some(p as int),
            None => port_spec(crate::locate::opt_str(raw)) is None,
        },
{
    match raw {
        None => Some(DEFAULT_PORT),
        Some(r) => {
            let t = crate::text::trim_chars(&crate::text::chars_of(r));
            match crate::input::parse_unsigned_chars(&t, false, 65535) {
                Some(p) => if p == 0 {
                    None
                } else {
                    Some(p as u16)
                },
                None => Some(DEFAULT_PORT),
            }
        },
    }
}


/// The address the remote listens on, from `DEN_WEB_BIND`: every interface
/// (`0.0.0.0`) when it is unset or is not an address, otherwise the
/// address it names. `given` is whether it is set; `parsed` the address its
/// text reads as, if any. The second result says that the setting was
/// there and was not an address, which is worth a warning.
pub fn bind_address(given: bool, parsed: Option<Ip>) -> (r: (Ip, bool))
    ensures
        r == match parsed {
            Some(ip) => (ip, false),
            None => (Ip::V4(0, 0, 0, 0), given),
        },
{
    match parsed {
        Some(ip) => (ip, false),
        None => (Ip::V4(0, 0, 0, 0), given),
    }
}

} // verus!
