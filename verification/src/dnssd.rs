//! Bonjour discovery through `dns-sd`: reading what its browse, lookup and
//! address queries print, and turning resolved services into endpoints.
use vstd::prelude::*;

use crate::text::{
    trim,
    trimmed,
    chars_of,
    string_of,
    concat,
    contains,
    contains_exec,
    lines,
    split_lines,
    seqs,
    lemma_seqs_push,
    words,
    split_words,
    split_once,
    split_once_exec,
    rsplit_once,
    rsplit_once_exec,
    trim_start_char,
    trim_end_char,
    trim_start_char_exec,
    trim_end_char_exec,
    split_char,
    split_char_exec,
    parse_unsigned,
    parse_unsigned_exec,
    decimal,
    decimal_exec,
    dedup,
    push_unique,
};
use crate::adb::connect_type;

verus! {

/// A service instance that `dns-sd -L` resolved to a host and port.
#[derive(Debug, Clone, PartialEq, Eq)]
pub struct ResolvedService {
    pub host: String,
    pub port: u16,
}

// ---------------------------------------------------------------------------
// Names and addresses
// ---------------------------------------------------------------------------

/// A DNS name without surrounding blanks, IPv6 brackets or a trailing dot.
pub open spec fn normalize_dns_name(name: Seq<char>) -> Seq<char> {
    trim_end_char(trim_end_char(trim_start_char(trim(name), '['), ']'), '.')
}

pub fn normalize_dns_name_exec(name: &[char]) -> (r: Vec<char>)
    ensures
        r@ == normalize_dns_name(name@),
{
    let t = trimmed(name);
    let a = trim_start_char_exec(&t, '[');
    let b = trim_end_char_exec(&a, ']');
    trim_end_char_exec(&b, '.')
}

/// The normalized host of `host:port`; the whole input without a colon.
pub open spec fn dns_endpoint_host(endpoint: Seq<char>) -> Seq<char> {
    match rsplit_once(endpoint, ':') {
        Some((h, _)) => normalize_dns_name(h),
        None => endpoint,
    }
}

pub fn dns_endpoint_host_exec(endpoint: &[char]) -> (r: Vec<char>)
    ensures
        r@ == dns_endpoint_host(endpoint@),
{
    match rsplit_once_exec(endpoint, ':') {
        Some((h, _)) => normalize_dns_name_exec(&h),
        None => {
            proof {
                assert(endpoint@.subrange(0, endpoint@.len() as int) =~= endpoint@);
            }
            crate::text::slice_range(endpoint, 0, endpoint.len())
        },
    }
}

/// Four dot-separated parts, each a number that fits in a byte.
pub open spec fn is_ipv4(v: Seq<char>) -> bool {
    let parts = split_char(v, '.');
    parts.len() == 4 && forall|i: int| 0 <= i < 4 ==> #[trigger] parse_unsigned(parts[i], 255) is Some
}

pub fn is_ipv4_address(value: &[char]) -> (r: bool)
    ensures
        r == is_ipv4(value@),
{
    let parts = split_char_exec(value, '.');
    if parts.len() != 4 {
        return false;
    }
    let mut i: usize = 0;
    while i < 4
        invariant
            i <= 4,
            parts@.len() == 4,
            seqs(parts@) == split_char(value@, '.'),
            forall|k: int| 0 <= k < i ==> #[trigger] parse_unsigned(seqs(parts@)[k], 255) is Some,
        decreases 4 - i,
    {
        if parse_unsigned_exec(parts[i].as_slice(), 255).is_none() {
            proof {
                assert(seqs(parts@)[i as int] == parts@[i as int]@);
            }
            return false;
        }
        i += 1;
    }
    true
}

// ---------------------------------------------------------------------------
// `dns-sd -B`: browsing for connect services
// ---------------------------------------------------------------------------

/// The instance named by a browse line that adds a connect service.
pub open spec fn browse_instance(line: Seq<char>) -> Option<Seq<char>> {
    let t = trim(line);
    if !contains(t, " Add "@) || !contains(t, connect_type()) {
        None
    } else {
        match split_once(t, connect_type()) {
            Some((_, after)) => {
                let inst = trim(trim_end_char(trim(trim_start_char(after, '.')), '.'));
                if inst.len() == 0 {
                    None
                } else {
                    Some(inst)
                }
            },
            None => None,
        }
    }
}

/// The instances added, in order of first appearance, each once.
pub open spec fn browse_instances(ls: Seq<Seq<char>>) -> Seq<Seq<char>>
    decreases ls.len(),
{
    if ls.len() == 0 {
        seq![]
    } else {
        let before = browse_instances(ls.drop_last());
        match browse_instance(ls.last()) {
            Some(i) => if before.contains(i) {
                before
            } else {
                before.push(i)
            },
            None => before,
        }
    }
}

fn browse_instance_exec(line: &[char]) -> (r: Option<Vec<char>>)
    ensures
        r is None ==> browse_instance(line@) is None,
        r is Some ==> browse_instance(line@) == Some(r->0@),
{
    let t = trimmed(line);
    let ct = chars_of("_adb-tls-connect._tcp");
    proof {
        assert(ct@ == connect_type());
    }
    if !contains_exec(&t, &chars_of(" Add ")) || !contains_exec(&t, &ct) {
        return None;
    }
    match split_once_exec(&t, &ct) {
        Some((_, after)) => {
            let a = trim_start_char_exec(&after, '.');
            let b = trimmed(&a);
            let c = trim_end_char_exec(&b, '.');
            let inst = trimmed(&c);
            if inst.len() == 0 {
                None
            } else {
                Some(inst)
            }
        },
        None => None,
    }
}

/// Connect-service instances that a `dns-sd -B` run added, each once.
pub fn parse_browse_instances(output: &str) -> (r: Vec<String>)
    ensures
        r@.map_values(|s: String| s@) == browse_instances(lines(output@)),
{
    let ls = split_lines(&chars_of(output));
    let ghost all = seqs(ls@);
    let mut found: Vec<Vec<char>> = Vec::new();
    let mut i: usize = 0;
    proof {
        assert(all.take(0) =~= Seq::<Seq<char>>::empty());
        assert(seqs(found@) =~= Seq::<Seq<char>>::empty());
    }
    while i < ls.len()
        invariant
            i <= ls@.len(),
            all == seqs(ls@),
            all == lines(output@),
            seqs(found@) == browse_instances(all.take(i as int)),
        decreases ls.len() - i,
    {
        proof {
            let p = all.take(i + 1);
            assert(p.drop_last() =~= all.take(i as int));
            assert(p.last() == ls@[i as int]@);
        }
        match browse_instance_exec(ls[i].as_slice()) {
            Some(inst) => push_unique(&mut found, inst),
            None => {},
        }
        i += 1;
    }
    proof {
        assert(all.take(ls@.len() as int) =~= all);
    }
    to_strings(found)
}

fn to_strings(v: Vec<Vec<char>>) -> (r: Vec<String>)
    ensures
        r@.map_values(|s: String| s@) == seqs(v@),
{
    let mut out: Vec<String> = Vec::new();
    let mut i: usize = 0;
    while i < v.len()
        invariant
            i <= v@.len(),
            out@.map_values(|s: String| s@) == seqs(v@).take(i as int),
        decreases v.len() - i,
    {
        let s = string_of(v[i].as_slice());
        proof {
            assert(out@.push(s).map_values(|s: String| s@) =~= out@.map_values(|s: String| s@).push(
                s@,
            ));
            assert(seqs(v@).take(i + 1) =~= seqs(v@).take(i as int).push(v@[i as int]@));
        }
        out.push(s);
        i += 1;
    }
    proof {
        assert(seqs(v@).take(v@.len() as int) =~= seqs(v@));
    }
    out
}

// ---------------------------------------------------------------------------
// `dns-sd -L`: resolving an instance
// ---------------------------------------------------------------------------

/// What follows `" can be reached at "` on the first line that says so.
pub open spec fn first_reached(ls: Seq<Seq<char>>) -> Option<Seq<char>>
    decreases ls.len(),
{
    if ls.len() == 0 {
        None
    } else {
        match split_once(ls[0], " can be reached at "@) {
            Some((_, after)) => Some(after),
            None => first_reached(ls.skip(1)),
        }
    }
}

/// Host and port of the first "can be reached at" line, when its target is
/// `host:port` with a valid port.
pub open spec fn resolved_service(output: Seq<char>) -> Option<(Seq<char>, nat)> {
    match first_reached(lines(output)) {
        None => None,
        Some(after) => {
            let w = words(after);
            if w.len() == 0 {
                None
            } else {
                match rsplit_once(w[0], ':') {
                    None => None,
                    Some((h, p)) => match parse_unsigned(p, 65535) {
                        Some(n) => Some((normalize_dns_name(h), n)),
                        None => None,
                    },
                }
            }
        },
    }
}

pub fn parse_resolved_service(output: &str) -> (r: Option<ResolvedService>)
    ensures
        r is None ==> resolved_service(output@) is None,
        r matches Some(s) ==> resolved_service(output@) == Some((s.host@, s.port as nat)),
{
    let ls = split_lines(&chars_of(output));
    let ghost all = seqs(ls@);
    let marker = chars_of(" can be reached at ");
    let mut i: usize = 0;
    proof {
        assert(all.skip(0) =~= all);
    }
    while i < ls.len()
        invariant
            i <= ls@.len(),
            all == seqs(ls@),
            all == lines(output@),
            marker@ == " can be reached at "@,
            first_reached(all) == first_reached(all.skip(i as int)),
        decreases ls.len() - i,
    {
        proof {
            assert(all.skip(i as int)[0] == ls@[i as int]@);
            assert(all.skip(i as int).skip(1) =~= all.skip(i + 1));
        }
        match split_once_exec(ls[i].as_slice(), &marker) {
            Some((_, after)) => {
                let w = split_words(&after);
                if w.len() == 0 {
                    return None;
                }
                proof {
                    assert(seqs(w@)[0] == w@[0]@);
                }
                return match rsplit_once_exec(w[0].as_slice(), ':') {
                    None => None,
                    Some((h, p)) => match parse_unsigned_exec(&p, 65535) {
                        Some(n) => Some(
                            ResolvedService {
                                host: string_of(&normalize_dns_name_exec(&h)),
                                port: n as u16,
                            },
                        ),
                        None => None,
                    },
                };
            },
            None => {},
        }
        i += 1;
    }
    proof {
        assert(all.skip(ls@.len() as int) =~= Seq::<Seq<char>>::empty());
    }
    None
}

// ---------------------------------------------------------------------------
// `dns-sd -G v4`: the host's IPv4 address
// ---------------------------------------------------------------------------

/// The first token that is an IPv4 address.
pub open spec fn first_ipv4(ws: Seq<Seq<char>>) -> Option<Seq<char>>
    decreases ws.len(),
{
    if ws.len() == 0 {
        None
    } else if is_ipv4(ws[0]) {
        Some(ws[0])
    } else {
        first_ipv4(ws.skip(1))
    }
}

pub fn parse_ipv4_address(output: &str) -> (r: Option<String>)
    ensures
        r is None ==> first_ipv4(words(output@)) is None,
        r is Some ==> first_ipv4(words(output@)) == Some(r->0@),
{
    let ws = split_words(&chars_of(output));
    let ghost all = seqs(ws@);
    let mut i: usize = 0;
    proof {
        assert(all.skip(0) =~= all);
    }
    while i < ws.len()
        invariant
            i <= ws@.len(),
            all == seqs(ws@),
            all == words(output@),
            first_ipv4(all) == first_ipv4(all.skip(i as int)),
        decreases ws.len() - i,
    {
        proof {
            assert(all.skip(i as int)[0] == ws@[i as int]@);
            assert(all.skip(i as int).skip(1) =~= all.skip(i + 1));
        }
        if is_ipv4_address(ws[i].as_slice()) {
            return Some(string_of(ws[i].as_slice()));
        }
        i += 1;
    }
    None
}

// ---------------------------------------------------------------------------
// Endpoints
// ---------------------------------------------------------------------------

/// `host:port`, the host being the IPv4 address when one was found, else the
/// service's normalized host name.
pub open spec fn service_endpoint_spec(host: Seq<char>, port: nat, ipv4: Option<Seq<char>>) -> Seq<char> {
    let h = match ipv4 {
        Some(a) => a,
        None => normalize_dns_name(host),
    };
    h + ":"@ + decimal(port)
}

pub fn service_endpoint(service: &ResolvedService, ipv4: Option<String>) -> (r: String)
    ensures
        r@ == service_endpoint_spec(
            service.host@,
            service.port as nat,
            match ipv4 {
                Some(a) => Some(a@),
                None => None,
            },
        ),
{
    let h = match ipv4 {
        Some(a) => chars_of(a.as_str()),
        None => normalize_dns_name_exec(&chars_of(service.host.as_str())),
    };
    let a = concat(&h, &chars_of(":"));
    string_of(&concat(&a, &decimal_exec(service.port as u64)))
}

/// The pairing endpoint of a resolved pairing service, if it resolved.
pub fn discover_pairing_endpoint(service: Option<ResolvedService>, ipv4: Option<String>) -> (r:
    Option<String>)
    ensures
        service is None ==> r is None,
        service matches Some(s) ==> r is Some && r->0@ == service_endpoint_spec(
            s.host@,
            s.port as nat,
            match ipv4 {
                Some(a) => Some(a@),
                None => None,
            },
        ),
{
    match service {
        Some(s) => Some(service_endpoint(&s, ipv4)),
        None => None,
    }
}

/// The items of `s` whose host is (`same`) or is not (`!same`) `host`, in order.
pub open spec fn with_host(s: Seq<Seq<char>>, host: Seq<char>, same: bool) -> Seq<Seq<char>>
    decreases s.len(),
{
    if s.len() == 0 {
        seq![]
    } else if (dns_endpoint_host(s.last()) == host) == same {
        with_host(s.drop_last(), host, same).push(s.last())
    } else {
        with_host(s.drop_last(), host, same)
    }
}

/// Distinct endpoints, those on the pairing host first, each group in order found.
pub open spec fn connect_endpoints_spec(pairing_address: Seq<char>, found: Seq<Seq<char>>) -> Seq<Seq<char>> {
    let d = dedup(found);
    let h = dns_endpoint_host(pairing_address);
    with_host(d, h, true) + with_host(d, h, false)
}

fn endpoints_with_host(v: &Vec<Vec<char>>, host: &[char], same: bool) -> (r: Vec<Vec<char>>)
    ensures
        seqs(r@) == with_host(seqs(v@), host@, same),
{
    let mut out: Vec<Vec<char>> = Vec::new();
    let mut i: usize = 0;
    proof {
        assert(seqs(v@).take(0) =~= Seq::<Seq<char>>::empty());
        assert(seqs(out@) =~= Seq::<Seq<char>>::empty());
    }
    while i < v.len()
        invariant
            i <= v@.len(),
            seqs(out@) == with_host(seqs(v@).take(i as int), host@, same),
        decreases v.len() - i,
    {
        proof {
            let p = seqs(v@).take(i + 1);
            assert(p.drop_last() =~= seqs(v@).take(i as int));
            assert(p.last() == v@[i as int]@);
        }
        let h = dns_endpoint_host_exec(v[i].as_slice());
        let eq = h.len() == host.len() && crate::text::chars_eq(&h, host);
        if eq == same {
            proof {
                lemma_seqs_push(out@, v@[i as int]);
            }
            out.push(v[i].clone());
        }
        i += 1;
    }
    proof {
        assert(seqs(v@).take(v@.len() as int) =~= seqs(v@));
    }
    out
}

/// The connect endpoints found while resolving browsed instances, each once,
/// those on the pairing address's host first.
pub fn discover_connect_endpoints(pairing_address: &str, found: &[String]) -> (r: Vec<String>)
    ensures
        r@.map_values(|s: String| s@) == connect_endpoints_spec(
            pairing_address@,
            found@.map_values(|s: String| s@),
        ),
{
    let ghost fv = found@.map_values(|s: String| s@);
    let mut d: Vec<Vec<char>> = Vec::new();
    let mut i: usize = 0;
    proof {
        assert(fv.take(0) =~= Seq::<Seq<char>>::empty());
        assert(seqs(d@) =~= Seq::<Seq<char>>::empty());
    }
    while i < found.len()
        invariant
            i <= found@.len(),
            fv == found@.map_values(|s: String| s@),
            seqs(d@) == dedup(fv.take(i as int)),
        decreases found.len() - i,
    {
        proof {
            let p = fv.take(i + 1);
            assert(p.drop_last() =~= fv.take(i as int));
            assert(p.last() == found@[i as int]@);
        }
        push_unique(&mut d, chars_of(found[i].as_str()));
        i += 1;
    }
    proof {
        assert(fv.take(found@.len() as int) =~= fv);
    }
    let host = dns_endpoint_host_exec(&chars_of(pairing_address));
    let mut first = endpoints_with_host(&d, &host, true);
    let rest = endpoints_with_host(&d, &host, false);
    let mut j: usize = 0;
    let ghost f0 = seqs(first@);
    while j < rest.len()
        invariant
            j <= rest@.len(),
            seqs(first@) == f0 + seqs(rest@).take(j as int),
        decreases rest.len() - j,
    {
        proof {
            lemma_seqs_push(first@, rest@[j as int]);
            assert(seqs(rest@).take(j + 1) =~= seqs(rest@).take(j as int).push(rest@[j as int]@));
            assert(f0 + seqs(rest@).take(j + 1) =~= (f0 + seqs(rest@).take(j as int)).push(
                rest@[j as int]@,
            ));
        }
        first.push(rest[j].clone());
        j += 1;
    }
    proof {
        assert(seqs(rest@).take(rest@.len() as int) =~= seqs(rest@));
    }
    to_strings(first)
}

} // verus!
