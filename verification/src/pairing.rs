//! Gathering the endpoints a phone advertises for pairing, and ordering them so
//! that routable IPv4 addresses are tried first.
use vstd::prelude::*;

use crate::text::{
    trim,
    trimmed,
    chars_of,
    string_of,
    chars_eq,
    seqs,
    split_char,
    split_char_exec,
    all_digits,
    decimal_value,
    parse_unsigned_exec,
    trim_start_char,
    trim_end_char,
    trim_start_char_exec,
    trim_end_char_exec,
};
use crate::adb::{MdnsService, ServiceView, service_views, is_pairing_view, endpoint_host_spec, endpoint_host_chars};
use crate::command_path::{strings, lemma_strings_push};

verus! {

/// Where the pairing endpoints came from, and what failed on the way.
#[derive(Debug, Clone, PartialEq, Eq)]
pub struct PairingEndpointDiscovery {
    pub endpoints: Vec<String>,
    pub adb_error: Option<String>,
    pub bonjour_error: Option<String>,
}

// ---------------------------------------------------------------------------
// Collecting endpoints
// ---------------------------------------------------------------------------

/// `endpoints` with the trimmed `endpoint` appended, unless it is empty or already there.
pub open spec fn pushed(endpoints: Seq<Seq<char>>, endpoint: Seq<char>) -> Seq<Seq<char>> {
    let e = trim(endpoint);
    if e.len() == 0 || endpoints.contains(e) {
        endpoints
    } else {
        endpoints.push(e)
    }
}

fn contains_string(v: &Vec<String>, s: &[char]) -> (r: bool)
    ensures
        r == strings(v@).contains(s@),
{
    let mut i: usize = 0;
    while i < v.len()
        invariant
            i <= v@.len(),
            forall|k: int| 0 <= k < i ==> v@[k]@ != s@,
        decreases v.len() - i,
    {
        if chars_eq(&chars_of(v[i].as_str()), s) {
            proof {
                assert(strings(v@)[i as int] == s@);
            }
            return true;
        }
        i += 1;
    }
    proof {
        if strings(v@).contains(s@) {
            let k = choose|k: int| 0 <= k < strings(v@).len() && strings(v@)[k] == s@;
            assert(v@[k]@ == s@);
        }
    }
    false
}

pub fn push_endpoint(endpoints: &mut Vec<String>, endpoint: &str)
    ensures
        strings(final(endpoints)@) == pushed(strings(old(endpoints)@), endpoint@),
{
    let e = trimmed(&chars_of(endpoint));
    if e.len() == 0 || contains_string(endpoints, &e) {
        return;
    }
    let s = string_of(&e);
    proof {
        lemma_strings_push(endpoints@, s);
    }
    endpoints.push(s);
}

/// Pushes each address in turn.
pub open spec fn pushed_all(endpoints: Seq<Seq<char>>, addresses: Seq<Seq<char>>) -> Seq<Seq<char>>
    decreases addresses.len(),
{
    if addresses.len() == 0 {
        endpoints
    } else {
        pushed(pushed_all(endpoints, addresses.drop_last()), addresses.last())
    }
}

/// Addresses of the pairing services advertised under `instance`, in order.
pub open spec fn instance_addresses(services: Seq<ServiceView>, instance: Seq<char>) -> Seq<Seq<char>>
    decreases services.len(),
{
    if services.len() == 0 {
        seq![]
    } else {
        let s = services.last();
        let rest = instance_addresses(services.drop_last(), instance);
        if s.instance == instance && is_pairing_view(s) {
            rest.push(s.address)
        } else {
            rest
        }
    }
}

/// Endpoints from ADB's service list (or its error), then the Bonjour result
/// (or its error), unordered.
pub open spec fn collected(
    instance: Seq<char>,
    services: Result<Seq<ServiceView>, Seq<char>>,
    bonjour: Result<Option<Seq<char>>, Seq<char>>,
) -> Seq<Seq<char>> {
    let from_adb = match services {
        Ok(ss) => pushed_all(seq![], instance_addresses(ss, instance)),
        Err(_) => seq![],
    };
    match bonjour {
        Ok(Some(e)) => pushed(from_adb, e),
        _ => from_adb,
    }
}

pub open spec fn services_view(r: Result<Vec<MdnsService>, String>) -> Result<Seq<ServiceView>, Seq<char>> {
    match r {
        Ok(v) => Ok(service_views(v@)),
        Err(e) => Err(e@),
    }
}

pub open spec fn bonjour_view(r: Result<Option<String>, String>) -> Result<Option<Seq<char>>, Seq<char>> {
    match r {
        Ok(Some(e)) => Ok(Some(e@)),
        Ok(None) => Ok(None),
        Err(e) => Err(e@),
    }
}

pub open spec fn err_view<T>(r: Result<T, String>) -> Option<Seq<char>> {
    match r {
        Ok(_) => None,
        Err(e) => Some(e@),
    }
}

/// The pairing endpoints found for `instance` by ADB's mDNS service list and by
/// Bonjour, each given as what its query returned, before ordering.
pub fn collect_pairing_endpoints(
    instance: &str,
    services: Result<Vec<MdnsService>, String>,
    bonjour: Result<Option<String>, String>,
) -> (r: PairingEndpointDiscovery)
    ensures
        strings(r.endpoints@) == collected(instance@, services_view(services), bonjour_view(bonjour)),
        match r.adb_error {
            Some(e) => err_view(services) == Some(e@),
            None => err_view(services) is None,
        },
        match r.bonjour_error {
            Some(e) => err_view(bonjour) == Some(e@),
            None => err_view(bonjour) is None,
        },
{
    let ghost sv = services_view(services);
    let ghost bv = bonjour_view(bonjour);
    let ghost sr = err_view(services);
    let ghost br = err_view(bonjour);
    let mut endpoints: Vec<String> = Vec::new();
    let mut adb_error: Option<String> = None;
    let mut bonjour_error: Option<String> = None;
    match services {
        Ok(list) => {
            let ghost lv = service_views(list@);
            let mut i: usize = 0;
            proof {
                assert(lv.take(0) =~= Seq::<ServiceView>::empty());
                assert(strings(endpoints@) =~= Seq::<Seq<char>>::empty());
            }
            while i < list.len()
                invariant
                    i <= list@.len(),
                    lv == service_views(list@),
                    strings(endpoints@) == pushed_all(
                        seq![],
                        instance_addresses(lv.take(i as int), instance@),
                    ),
                decreases list.len() - i,
            {
                proof {
                    let p = lv.take(i + 1);
                    assert(p.drop_last() =~= lv.take(i as int));
                    assert(p.last() == list@[i as int]@);
                }
                let same = chars_eq(&chars_of(list[i].instance.as_str()), &chars_of(instance));
                if same && list[i].is_pairing_service() {
                    proof {
                        let a = instance_addresses(lv.take(i as int), instance@);
                        assert(a.push(list@[i as int].address@).drop_last() =~= a);
                    }
                    push_endpoint(&mut endpoints, list[i].address.as_str());
                }
                i += 1;
            }
            proof {
                assert(lv.take(list@.len() as int) =~= lv);
            }
        },
        Err(e) => {
            adb_error = Some(e);
        },
    }
    match bonjour {
        Ok(Some(e)) => push_endpoint(&mut endpoints, e.as_str()),
        Ok(None) => {},
        Err(e) => {
            bonjour_error = Some(e);
        },
    }
    PairingEndpointDiscovery { endpoints, adb_error, bonjour_error }
}

// ---------------------------------------------------------------------------
// Ordering endpoints
// ---------------------------------------------------------------------------

/// One part of a dotted IPv4 address as `Ipv4Addr` reads it: one to three
/// decimal digits, no leading zero, at most 255.
pub open spec fn ipv4_octet(p: Seq<char>) -> bool {
    1 <= p.len() <= 3 && all_digits(p) && !(p.len() > 1 && p[0] == '0') && decimal_value(p) <= 255
}

/// The four octets of a dotted IPv4 address, when `s` is one.
pub open spec fn ipv4_octets(s: Seq<char>) -> Option<Seq<nat>> {
    let parts = split_char(s, '.');
    if parts.len() == 4 && forall|i: int| 0 <= i < 4 ==> #[trigger] ipv4_octet(parts[i]) {
        Some(seq![decimal_value(parts[0]), decimal_value(parts[1]), decimal_value(parts[2]), decimal_value(parts[3])])
    } else {
        None
    }
}

/// The host of an endpoint, as the preference looks at it.
pub open spec fn preference_host_spec(endpoint: Seq<char>) -> Seq<char> {
    trim_end_char(trim_start_char(endpoint_host_spec(endpoint), '['), ']')
}

pub fn preference_host(endpoint: &str) -> (r: String)
    ensures
        r@ == preference_host_spec(endpoint@),
{
    string_of(&preference_host_chars(&chars_of(endpoint)))
}

fn preference_host_chars(endpoint: &[char]) -> (r: Vec<char>)
    ensures
        r@ == preference_host_spec(endpoint@),
{
    let h = endpoint_host_chars(endpoint);
    let a = trim_start_char_exec(&h, '[');
    trim_end_char_exec(&a, ']')
}

/// Routable IPv4 first (0), then names (1), then link-local or loopback IPv4
/// (2), then IPv6 (3); `host_is_ipv6` says whether the host reads as IPv6.
pub open spec fn preference(endpoint: Seq<char>, host_is_ipv6: bool) -> nat {
    match ipv4_octets(preference_host_spec(endpoint)) {
        Some(o) => if (o[0] == 169 && o[1] == 254) || o[0] == 127 {
            2
        } else {
            0
        },
        None => if host_is_ipv6 {
            3
        } else {
            1
        },
    }
}

fn octet(p: &[char]) -> (r: Option<u32>)
    ensures
        r is Some <==> ipv4_octet(p@),
        r matches Some(n) ==> n == decimal_value(p@),
{
    if p.len() < 1 || p.len() > 3 || (p.len() > 1 && p[0] == '0') || p[0] == '+' {
        proof {
            if p@.len() >= 1 && p@[0] == '+' {
                assert(!crate::text::is_digit(p@[0]));
            }
        }
        return None;
    }
    let r = parse_unsigned_exec(p, 255);
    proof {
        assert(p@[0] != '+');
    }
    match r {
        Some(n) => Some(n),
        None => None,
    }
}

pub fn endpoint_preference(endpoint: &str, host_is_ipv6: bool) -> (r: u8)
    ensures
        r as nat == preference(endpoint@, host_is_ipv6),
{
    let host = preference_host_chars(&chars_of(endpoint));
    let parts = split_char_exec(&host, '.');
    let ghost ps = seqs(parts@);
    if parts.len() == 4 {
        let a = octet(parts[0].as_slice());
        let b = octet(parts[1].as_slice());
        let c = octet(parts[2].as_slice());
        let d = octet(parts[3].as_slice());
        proof {
            assert(ps[0] == parts@[0]@ && ps[1] == parts@[1]@);
            assert(ps[2] == parts@[2]@ && ps[3] == parts@[3]@);
        }
        if a.is_some() && b.is_some() && c.is_some() && d.is_some() {
            let x = a.unwrap();
            let y = b.unwrap();
            proof {
                assert(forall|i: int| 0 <= i < 4 ==> #[trigger] ipv4_octet(ps[i]));
            }
            return if (x == 169 && y == 254) || x == 127 {
                2
            } else {
                0
            };
        }
        proof {
            assert(!ipv4_octet(ps[0]) || !ipv4_octet(ps[1]) || !ipv4_octet(ps[2]) || !ipv4_octet(ps[3]));
        }
    }
    if host_is_ipv6 {
        3
    } else {
        1
    }
}

/// The endpoints whose preference is `k`, in order.
pub open spec fn with_preference(es: Seq<Seq<char>>, v6: Seq<bool>, k: nat) -> Seq<Seq<char>>
    decreases es.len(),
{
    if es.len() == 0 || v6.len() != es.len() {
        seq![]
    } else if preference(es.last(), v6.last()) == k {
        with_preference(es.drop_last(), v6.drop_last(), k).push(es.last())
    } else {
        with_preference(es.drop_last(), v6.drop_last(), k)
    }
}

/// The endpoints with preference below `k`, grouped by preference, each group in order.
pub open spec fn ordered_below(es: Seq<Seq<char>>, v6: Seq<bool>, k: nat) -> Seq<Seq<char>>
    decreases k,
{
    if k == 0 {
        seq![]
    } else {
        ordered_below(es, v6, (k - 1) as nat) + with_preference(es, v6, (k - 1) as nat)
    }
}

/// A stable sort of the endpoints by preference.
pub open spec fn ordered(es: Seq<Seq<char>>, v6: Seq<bool>) -> Seq<Seq<char>> {
    ordered_below(es, v6, 4)
}

/// Orders the endpoints by preference, keeping the given order among equals;
/// `host_is_ipv6[i]` says whether the host of `endpoints[i]` reads as IPv6.
pub fn order_endpoints(endpoints: &Vec<String>, host_is_ipv6: &[bool]) -> (r: Vec<String>)
    requires
        endpoints@.len() == host_is_ipv6@.len(),
    ensures
        strings(r@) == ordered(strings(endpoints@), host_is_ipv6@),
{
    let ghost es = strings(endpoints@);
    let ghost v6 = host_is_ipv6@;
    let mut prefs: Vec<u8> = Vec::new();
    let mut i: usize = 0;
    while i < endpoints.len()
        invariant
            i <= endpoints@.len(),
            es == strings(endpoints@),
            v6 == host_is_ipv6@,
            endpoints@.len() == v6.len(),
            prefs@.len() == i,
            forall|j: int| 0 <= j < i ==> #[trigger] prefs@[j] as nat == preference(es[j], v6[j]),
        decreases endpoints.len() - i,
    {
        let p = endpoint_preference(endpoints[i].as_str(), host_is_ipv6[i]);
        prefs.push(p);
        i += 1;
    }
    let mut out: Vec<String> = Vec::new();
    let mut k: u8 = 0;
    proof {
        assert(strings(out@) =~= Seq::<Seq<char>>::empty());
    }
    while k < 4
        invariant
            k <= 4,
            es == strings(endpoints@),
            v6 == host_is_ipv6@,
            endpoints@.len() == v6.len(),
            prefs@.len() == endpoints@.len(),
            forall|j: int| 0 <= j < prefs@.len() ==> #[trigger] prefs@[j] as nat == preference(es[j], v6[j]),
            strings(out@) == ordered_below(es, v6, k as nat),
        decreases 4 - k,
    {
        let ghost base = strings(out@);
        let mut i: usize = 0;
        proof {
            assert(es.take(0) =~= Seq::<Seq<char>>::empty());
            assert(base + with_preference(es.take(0), v6.take(0), k as nat) =~= base);
        }
        while i < endpoints.len()
            invariant
                i <= endpoints@.len(),
                k < 4,
                es == strings(endpoints@),
                v6 == host_is_ipv6@,
                endpoints@.len() == v6.len(),
                prefs@.len() == endpoints@.len(),
                forall|j: int| 0 <= j < prefs@.len() ==> #[trigger] prefs@[j] as nat == preference(es[j], v6[j]),
                strings(out@) == base + with_preference(es.take(i as int), v6.take(i as int), k as nat),
            decreases endpoints.len() - i,
        {
            proof {
                let p = es.take(i + 1);
                let q = v6.take(i + 1);
                assert(p.drop_last() =~= es.take(i as int));
                assert(q.drop_last() =~= v6.take(i as int));
                assert(p.last() == es[i as int]);
                assert(q.last() == v6[i as int]);
                assert(prefs@[i as int] as nat == preference(es[i as int], v6[i as int]));
            }
            if prefs[i] == k {
                let s = endpoints[i].clone();
                proof {
                    lemma_strings_push(out@, s);
                    let w = with_preference(es.take(i as int), v6.take(i as int), k as nat);
                    assert(base + w.push(s@) =~= (base + w).push(s@));
                }
                out.push(s);
            }
            i += 1;
        }
        proof {
            assert(es.take(endpoints@.len() as int) =~= es);
            assert(v6.take(endpoints@.len() as int) =~= v6);
        }
        k += 1;
    }
    out
}

/// The collected endpoints ordered by preference; the errors as they were.
pub fn discover_pairing_endpoint_candidates(
    discovery: PairingEndpointDiscovery,
    host_is_ipv6: &[bool],
) -> (r: PairingEndpointDiscovery)
    requires
        discovery.endpoints@.len() == host_is_ipv6@.len(),
    ensures
        strings(r.endpoints@) == ordered(strings(discovery.endpoints@), host_is_ipv6@),
        r.adb_error == discovery.adb_error,
        r.bonjour_error == discovery.bonjour_error,
{
    let endpoints = order_endpoints(&discovery.endpoints, host_is_ipv6);
    PairingEndpointDiscovery {
        endpoints,
        adb_error: discovery.adb_error,
        bonjour_error: discovery.bonjour_error,
    }
}

} // verus!
