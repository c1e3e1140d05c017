//! Properties that hold across calls and for all inputs, proved over the
//! specifications that the functions' contracts use.
use vstd::prelude::*;
use vstd::multiset::Multiset;

use crate::adb::{
    DeviceView,
    ServiceView,
    transport_key,
    first_with_key,
    dedupe,
    preferred_alias,
};
use crate::pairing::{pushed, with_preference, ordered, ordered_below, preference};
use crate::text::{dedup, trim, trim_char, trim_end_char, trim_end_str, is_alnum, lower_char};
use crate::qr::{sanitize_fold, sanitized, is_separator};
use crate::dnssd::{with_host, dns_endpoint_host, connect_endpoints_spec};
use crate::adb::{SvcSel, svc_picks, svc_picked, candidates_spec, is_connect_view, endpoint_host_spec, lemma_push_no_duplicates};
use crate::pairing_flow::{screen_endpoints, is_ipv4_endpoint_spec, needs_adb_reset};
use crate::cli::{addresses_where, reconnect_endpoints_spec, first_tracked, tracked_through_services, strict_tracked};
use crate::adb::{matching_ready, is_ready, Sel, picks, picked, is_mdns_wireless, first_picked};
use crate::pairing_steps::{AttemptsView, after_pair};
use crate::scrcpy::{ScrcpyOptions, default_args_spec, missing_flag_warnings, missing_flag_warning, help_warnings, unreadable_help_warning};
use crate::ui::{previous_spec, next_spec, display_seconds_spec};
use crate::desktop::{DeviceInfo, Snapshot};
use crate::menu_bar::{ready_keys, keep_present, wants_auto_mirror, auto_fold, auto_mirror_plan};
use crate::menu_bar::{BookView, book_wf, begin_spec, finish_spec, stop_spec, lemma_without, StartAction};
use crate::menu_bar::{merged, addresses, connect_after_pairing_spec};
use crate::desktop::same_host;
use crate::pairing_flow::{snapshot_match, match_through_services};
use crate::text::{starts_with, words, decimal};
use crate::adb::{tag_value, parse_device_line, parse_device_lines, is_endpoint_serial};
use crate::connect_steps::{
    ConnectView,
    StageView,
    InputView,
    ActionView,
    connect_step,
    fits,
    cand_match,
    on_round,
    on_connect_result,
    continue_connects,
    end_of_round,
    timed_out_warning,
    no_endpoint_found,
};
use crate::pairing_steps::EventView;

verus! {

// ---------------------------------------------------------------------------
// One row per wireless transport
// ---------------------------------------------------------------------------

proof fn lemma_first_with_key_bounds(ds: Seq<DeviceView>, k: Seq<char>, svcs: Seq<ServiceView>)
    ensures
        0 <= first_with_key(ds, k, svcs) <= ds.len(),
        forall|j: int| 0 <= j < first_with_key(ds, k, svcs) ==> transport_key(#[trigger] ds[j], svcs) != Some(k),
        first_with_key(ds, k, svcs) < ds.len() ==> transport_key(ds[first_with_key(ds, k, svcs)], svcs) == Some(k),
    decreases ds.len(),
{
    if ds.len() > 0 && transport_key(ds[0], svcs) != Some(k) {
        lemma_first_with_key_bounds(ds.drop_first(), k, svcs);
        assert forall|j: int| 0 <= j < first_with_key(ds, k, svcs) implies transport_key(#[trigger] ds[j], svcs) != Some(k) by {
            if j > 0 {
                assert(ds[j] == ds.drop_first()[j - 1]);
            }
        }
    }
}

/// Collapsing aliases leaves at most one row per wireless transport: no two
/// rows share a transport key.
pub proof fn law_dedupe_one_row_per_transport(ds: Seq<DeviceView>, svcs: Seq<ServiceView>)
    ensures
        forall|i: int, j: int|
            0 <= i < j < dedupe(ds, svcs).len() && transport_key(#[trigger] dedupe(ds, svcs)[i], svcs) is Some
                ==> transport_key(dedupe(ds, svcs)[i], svcs) != transport_key(#[trigger] dedupe(ds, svcs)[j], svcs),
    decreases ds.len(),
{
    if ds.len() > 0 {
        let prev = dedupe(ds.drop_last(), svcs);
        law_dedupe_one_row_per_transport(ds.drop_last(), svcs);
        let d = ds.last();
        let r = dedupe(ds, svcs);
        match transport_key(d, svcs) {
            None => {
                assert(r == prev.push(d));
            },
            Some(k) => {
                lemma_first_with_key_bounds(prev, k, svcs);
                let i = first_with_key(prev, k, svcs);
                if 0 <= i < prev.len() {
                    if preferred_alias(d, prev[i]) {
                        assert(r == prev.update(i, d));
                        assert forall|a: int, b: int|
                            0 <= a < b < r.len() && transport_key(#[trigger] r[a], svcs) is Some
                                implies transport_key(r[a], svcs) != transport_key(#[trigger] r[b], svcs) by {
                            assert(transport_key(r[a], svcs) == transport_key(prev[a], svcs));
                            assert(transport_key(r[b], svcs) == transport_key(prev[b], svcs));
                        }
                    }
                } else {
                    assert(r == prev.push(d));
                    assert forall|a: int, b: int|
                        0 <= a < b < r.len() && transport_key(#[trigger] r[a], svcs) is Some
                            implies transport_key(r[a], svcs) != transport_key(#[trigger] r[b], svcs) by {
                        if b == prev.len() {
                            assert(r[a] == prev[a]);
                            assert(transport_key(prev[a], svcs) != Some(k));
                        } else {
                            assert(r[a] == prev[a] && r[b] == prev[b]);
                        }
                    }
                }
            },
        }
    }
}

/// Collapsing aliases only drops rows: every row kept was listed.
pub proof fn law_dedupe_keeps_listed_rows(ds: Seq<DeviceView>, svcs: Seq<ServiceView>)
    ensures
        forall|i: int| 0 <= i < dedupe(ds, svcs).len() ==> ds.contains(#[trigger] dedupe(ds, svcs)[i]),
        dedupe(ds, svcs).len() <= ds.len(),
    decreases ds.len(),
{
    if ds.len() > 0 {
        let p = ds.drop_last();
        law_dedupe_keeps_listed_rows(p, svcs);
        let r = dedupe(ds, svcs);
        assert forall|i: int| 0 <= i < r.len() implies ds.contains(#[trigger] r[i]) by {
            if r[i] == ds.last() {
                assert(ds[ds.len() - 1] == r[i]);
            } else {
                let prev = dedupe(p, svcs);
                match transport_key(ds.last(), svcs) {
                    None => {
                        assert(r[i] == prev[i]);
                    },
                    Some(k) => {
                        let f = first_with_key(prev, k, svcs);
                        if 0 <= f < prev.len() && preferred_alias(ds.last(), prev[f]) {
                            assert(r[i] == prev.update(f, ds.last())[i]);
                            assert(r[i] == prev[i]);
                        } else if 0 <= f < prev.len() {
                            assert(r[i] == prev[i]);
                        } else {
                            assert(r[i] == prev.push(ds.last())[i]);
                            assert(r[i] == prev[i]);
                        }
                    },
                }
                assert(p.contains(r[i]));
                let w = choose|w: int| 0 <= w < p.len() && p[w] == r[i];
                assert(ds[w] == r[i]);
            }
        }
    }
}

proof fn lemma_dedupe_mdns_row(ds: Seq<DeviceView>, svcs: Seq<ServiceView>, k: Seq<char>, m: int)
    requires
        0 <= m < ds.len(),
        transport_key(ds[m], svcs) == Some(k),
        is_mdns_wireless(ds[m].serial),
        forall|i: int| 0 <= i < ds.len() && transport_key(#[trigger] ds[i], svcs) == Some(k)
            ==> is_mdns_wireless(ds[i].serial) || is_endpoint_serial(ds[i].serial),
    ensures
        exists|j: int| 0 <= j < dedupe(ds, svcs).len()
            && transport_key(#[trigger] dedupe(ds, svcs)[j], svcs) == Some(k)
            && is_mdns_wireless(dedupe(ds, svcs)[j].serial),
    decreases ds.len(),
{
    let p = ds.drop_last();
    let prev = dedupe(p, svcs);
    let d = ds.last();
    let r = dedupe(ds, svcs);
    if m == ds.len() - 1 {
        lemma_first_with_key_bounds(prev, k, svcs);
        let f = first_with_key(prev, k, svcs);
        if 0 <= f < prev.len() {
            if preferred_alias(d, prev[f]) {
                assert(r == prev.update(f, d));
                assert(r[f] == d);
            } else {
                assert(r == prev);
                law_dedupe_keeps_listed_rows(p, svcs);
                assert(p.contains(prev[f]));
                let w = choose|w: int| 0 <= w < p.len() && p[w] == prev[f];
                assert(ds[w] == prev[f]);
                assert(is_mdns_wireless(r[f].serial));
            }
        } else {
            assert(r == prev.push(d));
            assert(r[prev.len() as int] == d);
        }
    } else {
        assert(p[m] == ds[m]);
        assert forall|i: int| 0 <= i < p.len() && transport_key(#[trigger] p[i], svcs) == Some(k)
            implies is_mdns_wireless(p[i].serial) || is_endpoint_serial(p[i].serial) by {
            assert(p[i] == ds[i]);
        }
        lemma_dedupe_mdns_row(p, svcs, k, m);
        let j = choose|j: int| 0 <= j < prev.len() && transport_key(#[trigger] prev[j], svcs) == Some(k)
            && is_mdns_wireless(prev[j].serial);
        match transport_key(d, svcs) {
            None => {
                assert(r == prev.push(d));
                assert(r[j] == prev[j]);
            },
            Some(k2) => {
                lemma_first_with_key_bounds(prev, k2, svcs);
                let f = first_with_key(prev, k2, svcs);
                if 0 <= f < prev.len() && preferred_alias(d, prev[f]) {
                    assert(r == prev.update(f, d));
                    if f == j {
                        assert(r[j] == d);
                    } else {
                        assert(r[j] == prev[j]);
                    }
                } else if 0 <= f < prev.len() {
                    assert(r == prev);
                    assert(r[j] == prev[j]);
                } else {
                    assert(r == prev.push(d));
                    assert(r[j] == prev[j]);
                }
            },
        }
    }
}

/// When the `host:port` and mDNS aliases of one wireless transport are both
/// listed, the mDNS name is the one kept, whichever order adb lists them in:
/// if some listed row of transport `k` has an mDNS serial (and every row of
/// that transport is either an mDNS name or a `host:port` alias), the output
/// has a row for `k`, and every output row for `k` has an mDNS serial.
pub proof fn law_dedupe_keeps_the_mdns_alias(ds: Seq<DeviceView>, svcs: Seq<ServiceView>, k: Seq<char>)
    requires
        exists|i: int| 0 <= i < ds.len() && transport_key(#[trigger] ds[i], svcs) == Some(k)
            && is_mdns_wireless(ds[i].serial),
        forall|i: int| 0 <= i < ds.len() && transport_key(#[trigger] ds[i], svcs) == Some(k)
            ==> is_mdns_wireless(ds[i].serial) || is_endpoint_serial(ds[i].serial),
    ensures
        exists|j: int| 0 <= j < dedupe(ds, svcs).len() && transport_key(#[trigger] dedupe(ds, svcs)[j], svcs) == Some(k),
        forall|j: int| 0 <= j < dedupe(ds, svcs).len() && transport_key(#[trigger] dedupe(ds, svcs)[j], svcs) == Some(k)
            ==> is_mdns_wireless(dedupe(ds, svcs)[j].serial),
{
    let m = choose|i: int| 0 <= i < ds.len() && transport_key(#[trigger] ds[i], svcs) == Some(k)
        && is_mdns_wireless(ds[i].serial);
    let r = dedupe(ds, svcs);
    lemma_dedupe_mdns_row(ds, svcs, k, m);
    let j = choose|j: int| 0 <= j < r.len() && transport_key(#[trigger] r[j], svcs) == Some(k)
        && is_mdns_wireless(r[j].serial);
    law_dedupe_one_row_per_transport(ds, svcs);
    assert forall|j2: int| 0 <= j2 < r.len() && transport_key(#[trigger] r[j2], svcs) == Some(k)
        implies is_mdns_wireless(r[j2].serial) by {
        if j2 < j {
            assert(transport_key(r[j2], svcs) != transport_key(r[j], svcs));
        } else if j < j2 {
            assert(transport_key(r[j], svcs) != transport_key(r[j2], svcs));
        }
    }
}

// ---------------------------------------------------------------------------
// Pairing endpoints
// ---------------------------------------------------------------------------

/// Offering the same endpoint twice is the same as offering it once.
pub proof fn law_push_endpoint_idempotent(endpoints: Seq<Seq<char>>, endpoint: Seq<char>)
    ensures
        pushed(pushed(endpoints, endpoint), endpoint) == pushed(endpoints, endpoint),
{
    let e = trim(endpoint);
    if !(e.len() == 0 || endpoints.contains(e)) {
        let once = endpoints.push(e);
        assert(once[endpoints.len() as int] == e);
        assert(once.contains(e));
    }
}

proof fn lemma_preference_range(e: Seq<char>, v6: bool)
    ensures
        preference(e, v6) < 4,
{
}

/// The multiset of what the four preference groups hold.
pub open spec fn grouped(es: Seq<Seq<char>>, v6: Seq<bool>) -> Multiset<Seq<char>> {
    with_preference(es, v6, 0).to_multiset().add(with_preference(es, v6, 1).to_multiset()).add(
        with_preference(es, v6, 2).to_multiset(),
    ).add(with_preference(es, v6, 3).to_multiset())
}

proof fn lemma_grouped(es: Seq<Seq<char>>, v6: Seq<bool>)
    requires
        es.len() == v6.len(),
    ensures
        grouped(es, v6) =~= es.to_multiset(),
    decreases es.len(),
{
    broadcast use vstd::seq_lib::to_multiset_build;
    broadcast use vstd::multiset::group_multiset_axioms;

    if es.len() == 0 {
        vstd::seq_lib::to_multiset_len(es);
        vstd::multiset::lemma_multiset_empty_len(es.to_multiset());
        assert(es.to_multiset() =~= Multiset::<Seq<char>>::empty());
        assert(with_preference(es, v6, 0) =~= es);
        assert(with_preference(es, v6, 1) =~= es);
        assert(with_preference(es, v6, 2) =~= es);
        assert(with_preference(es, v6, 3) =~= es);
    } else {
        let p = es.drop_last();
        let q = v6.drop_last();
        lemma_grouped(p, q);
        lemma_preference_range(es.last(), v6.last());
        assert(es =~= p.push(es.last()));
        assert(es.to_multiset() =~= p.to_multiset().insert(es.last()));
    }
}

/// Ordering the endpoints by preference keeps each endpoint, as often as it came.
pub proof fn law_order_endpoints_is_a_permutation(es: Seq<Seq<char>>, v6: Seq<bool>)
    requires
        es.len() == v6.len(),
    ensures
        ordered(es, v6).to_multiset() =~= es.to_multiset(),
        ordered(es, v6).len() == es.len(),
{
    broadcast use vstd::seq_lib::lemma_multiset_commutative;
    broadcast use vstd::multiset::group_multiset_axioms;

    lemma_grouped(es, v6);
    let w0 = with_preference(es, v6, 0);
    let w1 = with_preference(es, v6, 1);
    let w2 = with_preference(es, v6, 2);
    let w3 = with_preference(es, v6, 3);
    assert(ordered_below(es, v6, 0) =~= Seq::<Seq<char>>::empty());
    assert(ordered_below(es, v6, 1) =~= w0);
    assert(ordered_below(es, v6, 2) =~= w0 + w1);
    assert(ordered_below(es, v6, 3) =~= w0 + w1 + w2);
    assert(ordered(es, v6) =~= w0 + w1 + w2 + w3);
    assert((w0 + w1 + w2 + w3).to_multiset() =~= grouped(es, v6));
    vstd::seq_lib::to_multiset_len(ordered(es, v6));
    vstd::seq_lib::to_multiset_len(es);
}

// ---------------------------------------------------------------------------
// Menus
// ---------------------------------------------------------------------------

/// Moving down and then up returns to the same option, and the reverse.
pub proof fn law_arrow_keys_undo_each_other(selected: int, option_count: int)
    requires
        0 <= selected < option_count,
    ensures
        previous_spec(next_spec(selected, option_count), option_count) == selected,
        next_spec(previous_spec(selected, option_count), option_count) == selected,
        0 <= next_spec(selected, option_count) < option_count,
        0 <= previous_spec(selected, option_count) < option_count,
{
    if selected + 1 < option_count {
        assert((selected + 1) % option_count == selected + 1) by (nonlinear_arith)
            requires
                0 <= selected + 1 < option_count,
        ;
    } else {
        assert((selected + 1) % option_count == 0) by (nonlinear_arith)
            requires
                selected + 1 == option_count,
                option_count > 0,
        ;
    }
    if selected == 0 {
        assert((option_count - 1 + 1) % option_count == 0) by (nonlinear_arith)
            requires
                option_count > 0,
        ;
    } else {
        assert((selected - 1 + 1) % option_count == selected) by (nonlinear_arith)
            requires
                0 < selected < option_count,
        ;
    }
}

/// Whole seconds shown for a remaining time are never fewer than the time
/// left, and less than a second more.
pub proof fn law_countdown_rounds_up(secs: nat, nanos: nat)
    requires
        nanos < 1_000_000_000,
    ensures
        display_seconds_spec(secs, nanos) * 1_000_000_000 >= secs * 1_000_000_000 + nanos,
        display_seconds_spec(secs, nanos) * 1_000_000_000 < secs * 1_000_000_000 + nanos + 1_000_000_000,
{
}

// ---------------------------------------------------------------------------
// Connect candidates
// ---------------------------------------------------------------------------

proof fn lemma_svc_picked(ss: Seq<ServiceView>, p: SvcSel)
    ensures
        forall|i: int| 0 <= i < svc_picked(ss, p).len() ==> svc_picks(p, #[trigger] svc_picked(ss, p)[i])
            && ss.contains(svc_picked(ss, p)[i]),
        (exists|j: int| 0 <= j < ss.len() && svc_picks(p, #[trigger] ss[j])) ==> svc_picked(ss, p).len() > 0,
    decreases ss.len(),
{
    if ss.len() > 0 {
        let q = ss.drop_last();
        lemma_svc_picked(q, p);
        let r = svc_picked(ss, p);
        assert forall|i: int| 0 <= i < r.len() implies svc_picks(p, #[trigger] r[i]) && ss.contains(r[i]) by {
            if svc_picks(p, ss.last()) && i == r.len() - 1 {
                assert(ss[ss.len() - 1] == r[i]);
            } else {
                assert(r[i] == svc_picked(q, p)[i]);
                let w = choose|w: int| 0 <= w < q.len() && q[w] == r[i];
                assert(ss[w] == r[i]);
            }
        }
        if exists|j: int| 0 <= j < ss.len() && svc_picks(p, #[trigger] ss[j]) {
            let j = choose|j: int| 0 <= j < ss.len() && svc_picks(p, #[trigger] ss[j]);
            if j < ss.len() - 1 {
                assert(q[j] == ss[j]);
            }
        }
    }
}

/// Connect candidates are connect services from the list, and there is at
/// least one whenever the list holds a connect service.
pub proof fn law_connect_candidates_are_listed_connect_services(
    ss: Seq<ServiceView>,
    pairing_address: Seq<char>,
    base: Seq<ServiceView>,
)
    ensures
        forall|i: int| 0 <= i < candidates_spec(ss, pairing_address, base).len() ==> is_connect_view(
            #[trigger] candidates_spec(ss, pairing_address, base)[i],
        ) && ss.contains(candidates_spec(ss, pairing_address, base)[i]),
        (exists|j: int| 0 <= j < ss.len() && is_connect_view(#[trigger] ss[j])) ==> candidates_spec(
            ss,
            pairing_address,
            base,
        ).len() > 0,
{
    let h = endpoint_host_spec(pairing_address);
    lemma_svc_picked(ss, SvcSel::NewOnHost(h, base));
    lemma_svc_picked(ss, SvcSel::OnHost(h));
    lemma_svc_picked(ss, SvcSel::New(base));
    lemma_svc_picked(ss, SvcSel::Connect);
    if exists|j: int| 0 <= j < ss.len() && is_connect_view(#[trigger] ss[j]) {
        let j = choose|j: int| 0 <= j < ss.len() && is_connect_view(#[trigger] ss[j]);
        assert(svc_picks(SvcSel::Connect, ss[j]));
    }
}

// ---------------------------------------------------------------------------
// Endpoints read off the screen
// ---------------------------------------------------------------------------

/// What is read off the phone's screen are IPv4 endpoints, each once.
pub proof fn law_screen_endpoints_are_distinct_ipv4(tokens: Seq<Seq<char>>)
    ensures
        forall|i: int| 0 <= i < screen_endpoints(tokens).len() ==> is_ipv4_endpoint_spec(
            #[trigger] screen_endpoints(tokens)[i],
        ),
        screen_endpoints(tokens).no_duplicates(),
    decreases tokens.len(),
{
    if tokens.len() > 0 {
        let r = screen_endpoints(tokens.drop_last());
        law_screen_endpoints_are_distinct_ipv4(tokens.drop_last());
        let t = trim_char(tokens.last(), '.');
        if is_ipv4_endpoint_spec(t) && !r.contains(t) {
            lemma_push_no_duplicates(r, t);
            assert forall|i: int| 0 <= i < r.push(t).len() implies is_ipv4_endpoint_spec(#[trigger] r.push(t)[i]) by {
                if i < r.len() {
                    assert(r.push(t)[i] == r[i]);
                }
            }
        }
    }
}

// ---------------------------------------------------------------------------
// Finding a watched phone again
// ---------------------------------------------------------------------------

proof fn lemma_addresses_where(ss: Seq<ServiceView>, serial: Seq<char>, by_name: bool)
    ensures
        forall|i: int| #![trigger addresses_where(ss, serial, by_name)[i]]
            0 <= i < addresses_where(ss, serial, by_name).len() ==> exists|j: int|
            0 <= j < ss.len() && is_connect_view(#[trigger] ss[j]) && ss[j].address == addresses_where(
                ss,
                serial,
                by_name,
            )[i],
    decreases ss.len(),
{
    if ss.len() > 0 {
        let q = ss.drop_last();
        lemma_addresses_where(q, serial, by_name);
        let r = addresses_where(ss, serial, by_name);
        let rq = addresses_where(q, serial, by_name);
        assert forall|i: int| #![trigger r[i]] 0 <= i < r.len() implies exists|j: int|
            0 <= j < ss.len() && is_connect_view(#[trigger] ss[j]) && ss[j].address == r[i] by {
            if i < rq.len() {
                assert(r[i] == rq[i]);
                let j = choose|j: int| 0 <= j < q.len() && is_connect_view(#[trigger] q[j]) && q[j].address == rq[i];
                assert(ss[j] == q[j]);
            } else {
                assert(ss[ss.len() - 1] == ss.last());
            }
        }
    }
}

/// A dropped phone is only ever reconnected at the address of a listed connect service.
#[verifier::spinoff_prover]
pub proof fn law_reconnect_endpoints_are_connect_service_addresses(serial: Seq<char>, ss: Seq<ServiceView>)
    ensures
        forall|i: int| #![trigger reconnect_endpoints_spec(serial, ss)[i]]
            0 <= i < reconnect_endpoints_spec(serial, ss).len() ==> exists|j: int|
            0 <= j < ss.len() && is_connect_view(#[trigger] ss[j]) && ss[j].address
                == reconnect_endpoints_spec(serial, ss)[i],
{
    lemma_addresses_where(ss, serial, true);
    lemma_addresses_where(ss, serial, false);
    let r = reconnect_endpoints_spec(serial, ss);
    let a = addresses_where(ss, serial, true);
    let b = addresses_where(ss, serial, false);
    assert forall|i: int| #![trigger r[i]] 0 <= i < r.len() implies exists|j: int|
        0 <= j < ss.len() && is_connect_view(#[trigger] ss[j]) && ss[j].address == r[i] by {
        if a.len() > 0 {
            assert(r == a);
            assert(exists|j: int| 0 <= j < ss.len() && is_connect_view(#[trigger] ss[j]) && ss[j].address == a[i]);
        } else {
            assert(!is_mdns_wireless(serial));
            assert(r == b);
            assert(exists|j: int| 0 <= j < ss.len() && is_connect_view(#[trigger] ss[j]) && ss[j].address == b[i]);
        }
    }
}

// ---------------------------------------------------------------------------
// Pairing
// ---------------------------------------------------------------------------

/// ADB is restarted at most once for protocol faults: a fault after the
/// restart ends the pairing.
pub proof fn law_adb_restarted_at_most_once(s: AttemptsView, message: Seq<char>, now: nat)
    requires
        s.next < s.endpoints.len(),
        needs_adb_reset(message),
    ensures
        s.reset_done ==> after_pair(s, Err(message), now).2 is Finish,
        !s.reset_done ==> after_pair(s, Err(message), now).2 is ResetServer && after_pair(
            s,
            Err(message),
            now,
        ).0.reset_done,
{
}

/// The scrcpy command line always names the device first.
pub proof fn law_scrcpy_args_name_the_device(serial: Seq<char>, o: ScrcpyOptions)
    ensures
        default_args_spec(serial, o).len() >= 2,
        default_args_spec(serial, o)[0] == "-s"@,
        default_args_spec(serial, o)[1] == serial,
{
}

// ---------------------------------------------------------------------------
// Matching devices
// ---------------------------------------------------------------------------

proof fn lemma_filter_first(ds: Seq<DeviceView>, f: spec_fn(DeviceView) -> bool)
    requires
        ds.filter(f).len() > 0,
    ensures
        f(ds.filter(f)[0]),
        ds.contains(ds.filter(f)[0]),
{
    ds.lemma_filter_pred(f, 0);
    assert(ds.filter(f).contains(ds.filter(f)[0]));
    ds.lemma_filter_contains_rev(f, ds.filter(f)[0]);
}

/// The device matched to an expected serial is a listed device that is ready.
pub proof fn law_matched_device_is_ready_and_listed(ds: Seq<DeviceView>, expected: Seq<char>, base: Seq<Seq<char>>)
    ensures
        matching_ready(ds, expected, base) matches Some(d) ==> is_ready(d) && ds.contains(d),
{
    let f1 = |d: DeviceView| is_ready(d) && d.serial == expected;
    let f2 = |d: DeviceView| is_ready(d) && endpoint_host_spec(d.serial) == endpoint_host_spec(expected);
    let f3 = |d: DeviceView| is_ready(d) && !base.contains(d.serial);
    if ds.filter(f1).len() > 0 {
        lemma_filter_first(ds, f1);
    } else if ds.filter(f2).len() > 0 {
        lemma_filter_first(ds, f2);
    } else if ds.filter(f3).len() == 1 {
        lemma_filter_first(ds, f3);
    }
}

proof fn lemma_picked(ds: Seq<DeviceView>, p: Sel)
    ensures
        forall|i: int| 0 <= i < picked(ds, p).len() ==> picks(p, #[trigger] picked(ds, p)[i])
            && ds.contains(picked(ds, p)[i]),
    decreases ds.len(),
{
    if ds.len() > 0 {
        let q = ds.drop_last();
        lemma_picked(q, p);
        let r = picked(ds, p);
        assert forall|i: int| 0 <= i < r.len() implies picks(p, #[trigger] r[i]) && ds.contains(r[i]) by {
            if picks(p, ds.last()) && i == r.len() - 1 {
                assert(ds[ds.len() - 1] == r[i]);
            } else {
                assert(r[i] == picked(q, p)[i]);
                let w = choose|w: int| 0 <= w < q.len() && q[w] == r[i];
                assert(ds[w] == r[i]);
            }
        }
    }
}

proof fn lemma_first_tracked(ds: Seq<DeviceView>, serial: Seq<char>)
    ensures
        first_tracked(ds, serial) matches Some(d) ==> is_ready(d) && ds.contains(d),
    decreases ds.len(),
{
    if ds.len() > 0 && !(is_ready(ds[0]) && (ds[0].serial == serial || endpoint_host_spec(ds[0].serial)
        == endpoint_host_spec(serial))) {
        lemma_first_tracked(ds.skip(1), serial);
        if first_tracked(ds, serial) is Some {
            let d = first_tracked(ds, serial)->0;
            let w = choose|w: int| 0 <= w < ds.skip(1).len() && ds.skip(1)[w] == d;
            assert(ds[w + 1] == d);
        }
    } else if ds.len() > 0 {
        assert(ds[0] == ds[0]);
    }
}

proof fn lemma_tracked_through_services(ds: Seq<DeviceView>, serial: Seq<char>, ss: Seq<ServiceView>)
    ensures
        tracked_through_services(ds, serial, ss) matches Some(d) ==> is_ready(d) && ds.contains(d),
    decreases ss.len(),
{
    if ss.len() > 0 {
        lemma_tracked_through_services(ds, serial, ss.skip(1));
        let s = ss[0];
        lemma_picked(ds, Sel::NewFor(seq![], s));
        if picked(ds, Sel::NewFor(seq![], s)).len() > 0 {
            assert(picks(Sel::NewFor(seq![], s), picked(ds, Sel::NewFor(seq![], s))[0]));
        }
    }
}

/// Watch mode only ever takes back a listed device that is ready: never an
/// unrelated one.
pub proof fn law_tracked_device_is_ready_and_listed(ds: Seq<DeviceView>, serial: Seq<char>, ss: Seq<ServiceView>)
    ensures
        strict_tracked(ds, serial, ss) matches Some(d) ==> is_ready(d) && ds.contains(d),
{
    lemma_first_tracked(ds, serial);
    lemma_tracked_through_services(ds, serial, ss);
}

// ---------------------------------------------------------------------------
// QR instance names
// ---------------------------------------------------------------------------

/// Lowercase letters, digits and `-`.
pub open spec fn label_char(c: char) -> bool {
    ('a' <= c <= 'z') || ('0' <= c <= '9') || c == '-'
}

/// A DNS-style label body: label characters, not starting with `-`, no `--`.
pub open spec fn label_shape(s: Seq<char>) -> bool {
    &&& forall|i: int| 0 <= i < s.len() ==> label_char(#[trigger] s[i])
    &&& s.len() > 0 ==> s[0] != '-'
    &&& forall|i: int| 0 <= i < s.len() - 1 ==> !(#[trigger] s[i] == '-' && s[i + 1] == '-')
}

proof fn lemma_lower_label(c: char)
    requires
        is_alnum(c),
    ensures
        label_char(lower_char(c)),
        lower_char(c) != '-',
{
}

proof fn lemma_sanitize_fold(s: Seq<char>)
    ensures
        label_shape(sanitize_fold(s).0),
        sanitize_fold(s).1 == (sanitize_fold(s).0.len() > 0 && sanitize_fold(s).0.last() == '-'),
    decreases s.len(),
{
    if s.len() > 0 {
        lemma_sanitize_fold(s.drop_last());
        let (acc, last) = sanitize_fold(s.drop_last());
        let c = s.last();
        if is_alnum(c) {
            lemma_lower_label(c);
            let n = acc.push(lower_char(c));
            assert forall|i: int| 0 <= i < n.len() - 1 implies !(#[trigger] n[i] == '-' && n[i + 1] == '-') by {
                if i < acc.len() - 1 {
                    assert(n[i] == acc[i] && n[i + 1] == acc[i + 1]);
                }
            }
            assert forall|i: int| 0 <= i < n.len() implies label_char(#[trigger] n[i]) by {
                if i < acc.len() {
                    assert(n[i] == acc[i]);
                }
            }
        } else if is_separator(c) && acc.len() > 0 && !last {
            let n = acc.push('-');
            assert forall|i: int| 0 <= i < n.len() - 1 implies !(#[trigger] n[i] == '-' && n[i + 1] == '-') by {
                if i < acc.len() - 1 {
                    assert(n[i] == acc[i] && n[i + 1] == acc[i + 1]);
                } else {
                    assert(n[i] == acc.last());
                }
            }
            assert forall|i: int| 0 <= i < n.len() implies label_char(#[trigger] n[i]) by {
                if i < acc.len() {
                    assert(n[i] == acc[i]);
                }
            }
        }
    }
}

proof fn lemma_trim_end_char_prefix(s: Seq<char>, c: char)
    ensures
        trim_end_char(s, c).len() <= s.len(),
        trim_end_char(s, c) == s.take(trim_end_char(s, c).len() as int),
        trim_end_char(s, c).len() > 0 ==> trim_end_char(s, c).last() != c,
    decreases s.len(),
{
    if s.len() > 0 && s.last() == c {
        lemma_trim_end_char_prefix(s.drop_last(), c);
        let t = trim_end_char(s.drop_last(), c);
        assert(s.drop_last().take(t.len() as int) =~= s.take(t.len() as int));
    } else {
        assert(s.take(s.len() as int) =~= s);
    }
}

proof fn lemma_label_prefix(s: Seq<char>, k: int)
    requires
        label_shape(s),
        0 <= k <= s.len(),
    ensures
        label_shape(s.take(k)),
{
    let t = s.take(k);
    assert forall|i: int| 0 <= i < t.len() implies label_char(#[trigger] t[i]) by {
        assert(t[i] == s[i]);
    }
    assert forall|i: int| 0 <= i < t.len() - 1 implies !(#[trigger] t[i] == '-' && t[i + 1] == '-') by {
        assert(t[i] == s[i] && t[i + 1] == s[i + 1]);
    }
}

/// A sanitized instance name is one to 63 lowercase letters, digits and
/// single dashes, never starting with a dash.
pub proof fn law_sanitized_instance_is_a_label(value: Seq<char>)
    ensures
        sanitized(value) matches Some(x) ==> 1 <= x.len() <= 63 && label_shape(x),
{
    let f = sanitize_fold(trim_end_str(trim(value), ".local"@)).0;
    lemma_sanitize_fold(trim_end_str(trim(value), ".local"@));
    lemma_trim_end_char_prefix(f, '-');
    let t = trim_end_char(f, '-');
    lemma_label_prefix(f, t.len() as int);
    if t.len() > 63 {
        lemma_label_prefix(t, 63);
    }
}

// ---------------------------------------------------------------------------
// Bonjour connect endpoints
// ---------------------------------------------------------------------------

proof fn lemma_dedup(s: Seq<Seq<char>>)
    ensures
        dedup(s).no_duplicates(),
        forall|i: int| 0 <= i < dedup(s).len() ==> s.contains(#[trigger] dedup(s)[i]),
    decreases s.len(),
{
    if s.len() > 0 {
        let q = s.drop_last();
        lemma_dedup(q);
        let p = dedup(q);
        if !p.contains(s.last()) {
            lemma_push_no_duplicates(p, s.last());
        }
        let r = dedup(s);
        assert forall|i: int| 0 <= i < r.len() implies s.contains(#[trigger] r[i]) by {
            if i < p.len() {
                assert(r[i] == p[i]);
                let w = choose|w: int| 0 <= w < q.len() && q[w] == p[i];
                assert(s[w] == q[w]);
            } else {
                assert(s[s.len() - 1] == r[i]);
            }
        }
    }
}

proof fn lemma_with_host(s: Seq<Seq<char>>, h: Seq<char>, same: bool)
    ensures
        forall|i: int| 0 <= i < with_host(s, h, same).len() ==> ((dns_endpoint_host(
            #[trigger] with_host(s, h, same)[i],
        ) == h) == same) && s.contains(with_host(s, h, same)[i]),
        s.no_duplicates() ==> with_host(s, h, same).no_duplicates(),
    decreases s.len(),
{
    if s.len() > 0 {
        let q = s.drop_last();
        lemma_with_host(q, h, same);
        let p = with_host(q, h, same);
        let r = with_host(s, h, same);
        assert forall|i: int| 0 <= i < r.len() implies ((dns_endpoint_host(#[trigger] r[i]) == h) == same)
            && s.contains(r[i]) by {
            if i < p.len() {
                assert(r[i] == p[i]);
                let w = choose|w: int| 0 <= w < q.len() && q[w] == p[i];
                assert(s[w] == q[w]);
            } else {
                assert(s[s.len() - 1] == r[i]);
            }
        }
        if s.no_duplicates() {
            assert(q.no_duplicates());
            if (dns_endpoint_host(s.last()) == h) == same {
                if p.contains(s.last()) {
                    let w = choose|w: int| 0 <= w < p.len() && p[w] == s.last();
                    assert(q.contains(p[w]));
                    let v = choose|v: int| 0 <= v < q.len() && q[v] == p[w];
                    assert(s[v] == s[s.len() - 1]);
                }
                lemma_push_no_duplicates(p, s.last());
            }
        }
    }
}

/// The Bonjour connect endpoints come out each once, those on the pairing
/// host before all others.
pub proof fn law_connect_endpoints_distinct_pairing_host_first(pairing_address: Seq<char>, found: Seq<Seq<char>>)
    ensures
        connect_endpoints_spec(pairing_address, found).no_duplicates(),
        forall|i: int, j: int|
            0 <= i < j < connect_endpoints_spec(pairing_address, found).len() && dns_endpoint_host(
                #[trigger] connect_endpoints_spec(pairing_address, found)[i],
            ) != dns_endpoint_host(pairing_address) ==> dns_endpoint_host(
                #[trigger] connect_endpoints_spec(pairing_address, found)[j],
            ) != dns_endpoint_host(pairing_address),
        forall|i: int| 0 <= i < connect_endpoints_spec(pairing_address, found).len() ==> found.contains(
            #[trigger] connect_endpoints_spec(pairing_address, found)[i],
        ),
{
    let d = dedup(found);
    let h = dns_endpoint_host(pairing_address);
    lemma_dedup(found);
    lemma_with_host(d, h, true);
    lemma_with_host(d, h, false);
    let a = with_host(d, h, true);
    let b = with_host(d, h, false);
    let r = connect_endpoints_spec(pairing_address, found);
    assert(r == a + b);
    assert forall|i: int, j: int| 0 <= i < r.len() && 0 <= j < r.len() && i != j implies r[i] != r[j] by {
        if i < a.len() && j < a.len() {
            assert(r[i] == a[i] && r[j] == a[j]);
        } else if i >= a.len() && j >= a.len() {
            assert(r[i] == b[i - a.len()] && r[j] == b[j - a.len()]);
        } else if i < a.len() {
            assert(r[i] == a[i] && r[j] == b[j - a.len()]);
        } else {
            assert(r[i] == b[i - a.len()] && r[j] == a[j]);
        }
    }
    assert forall|i: int, j: int|
        0 <= i < j < r.len() && dns_endpoint_host(#[trigger] r[i]) != h implies dns_endpoint_host(#[trigger] r[j]) != h by {
        if i < a.len() {
            assert(r[i] == a[i]);
        } else {
            assert(r[j] == b[j - a.len()]);
        }
    }
    assert forall|i: int| 0 <= i < r.len() implies found.contains(#[trigger] r[i]) by {
        let x = r[i];
        if i < a.len() {
            assert(x == a[i]);
        } else {
            assert(x == b[i - a.len()]);
        }
        assert(d.contains(x));
        let w = choose|w: int| 0 <= w < d.len() && d[w] == x;
        assert(found.contains(d[w]));
    }
}


// ---------------------------------------------------------------------------
// Mirroring by itself
// ---------------------------------------------------------------------------

proof fn lemma_ready_key_listed(devices: Seq<DeviceInfo>, i: int)
    requires
        0 <= i < devices.len(),
        devices[i].ready,
    ensures
        ready_keys(devices).contains(devices[i].mirror_key@),
    decreases devices.len(),
{
    if i == devices.len() - 1 {
        assert(ready_keys(devices).last() == devices[i].mirror_key@);
    } else {
        assert(devices.drop_last()[i] == devices[i]);
        lemma_ready_key_listed(devices.drop_last(), i);
        let r = ready_keys(devices.drop_last());
        let j = choose|j: int| 0 <= j < r.len() && r[j] == devices[i].mirror_key@;
        if devices.last().ready {
            assert(ready_keys(devices)[j] == r[j]);
        }
    }
}

proof fn lemma_keep_present_all(keys: Seq<Seq<char>>, present: Seq<Seq<char>>)
    requires
        forall|i: int| 0 <= i < keys.len() ==> present.contains(#[trigger] keys[i]),
    ensures
        keep_present(keys, present) == keys,
    decreases keys.len(),
{
    if keys.len() > 0 {
        lemma_keep_present_all(keys.drop_last(), present);
        assert(keys.drop_last().push(keys.last()) =~= keys);
    }
}

/// What the walk remembers: what it was given, and keys of ready rows it
/// wanted; and every row it wanted is remembered.
proof fn lemma_auto_fold_keys(devices: Seq<DeviceInfo>, mirroring: Seq<Seq<char>>, known: Seq<Seq<char>>)
    ensures
        ({
            let k = auto_fold(devices, mirroring, known).0;
            &&& forall|x: Seq<char>| known.contains(x) ==> k.contains(x)
            &&& forall|x: Seq<char>| #[trigger] k.contains(x) ==> known.contains(x) || ready_keys(devices).contains(x)
            &&& forall|i: int| 0 <= i < devices.len() && devices[i].ready && !devices[i].is_emulator
                && !mirroring.contains(#[trigger] devices[i].mirror_key@) ==> k.contains(devices[i].mirror_key@)
        }),
    decreases devices.len(),
{
    if devices.len() > 0 {
        let rest = devices.drop_last();
        lemma_auto_fold_keys(rest, mirroring, known);
        let (k0, _) = auto_fold(rest, mirroring, known);
        let d = devices.last();
        let k = auto_fold(devices, mirroring, known).0;
        assert forall|x: Seq<char>| k0.contains(x) implies k.contains(x) by {
            let j = choose|j: int| 0 <= j < k0.len() && k0[j] == x;
            if wants_auto_mirror(d, mirroring, k0) {
                assert(k[j] == x);
            }
        }
        assert forall|x: Seq<char>| #[trigger] ready_keys(rest).contains(x) implies ready_keys(devices).contains(x) by {
            let r = ready_keys(rest);
            let j = choose|j: int| 0 <= j < r.len() && r[j] == x;
            if d.ready {
                assert(ready_keys(devices)[j] == x);
            }
        }
        assert forall|x: Seq<char>| #[trigger] k.contains(x) implies known.contains(x) || ready_keys(devices).contains(x) by {
            if wants_auto_mirror(d, mirroring, k0) && x == d.mirror_key@ {
                lemma_ready_key_listed(devices, devices.len() - 1);
            } else {
                let j = choose|j: int| 0 <= j < k.len() && k[j] == x;
                assert(j < k0.len());
                assert(k0[j] == x);
                assert(k0.contains(x));
                if ready_keys(rest).contains(x) {
                    assert(ready_keys(devices).contains(x));
                }
            }
        }
        assert forall|i: int| 0 <= i < devices.len() && devices[i].ready && !devices[i].is_emulator
            && !mirroring.contains(#[trigger] devices[i].mirror_key@) implies k.contains(devices[i].mirror_key@) by {
            if i < devices.len() - 1 {
                assert(rest[i] == devices[i]);
            } else if !wants_auto_mirror(d, mirroring, k0) {
            } else {
                assert(k.last() == d.mirror_key@);
            }
        }
    }
}

/// When every wanted row is remembered already, the walk starts nothing.
proof fn lemma_auto_fold_settled(devices: Seq<DeviceInfo>, mirroring: Seq<Seq<char>>, known: Seq<Seq<char>>)
    requires
        forall|i: int| 0 <= i < devices.len() && devices[i].ready && !devices[i].is_emulator
            && !mirroring.contains(#[trigger] devices[i].mirror_key@) ==> known.contains(devices[i].mirror_key@),
    ensures
        auto_fold(devices, mirroring, known) == (known, Seq::<DeviceInfo>::empty()),
    decreases devices.len(),
{
    if devices.len() > 0 {
        let rest = devices.drop_last();
        assert forall|i: int| 0 <= i < rest.len() && rest[i].ready && !rest[i].is_emulator
            && !mirroring.contains(#[trigger] rest[i].mirror_key@) implies known.contains(rest[i].mirror_key@) by {
            assert(rest[i] == devices[i]);
        }
        lemma_auto_fold_settled(rest, mirroring, known);
        let d = devices.last();
        assert(d == devices[devices.len() - 1]);
        assert(!wants_auto_mirror(d, mirroring, known));
    }
}

/// Mirroring by itself starts a phone at most once while it stays connected:
/// asked again with the same snapshot and mirrors, it starts nothing and
/// remembers the same phones.
pub proof fn law_auto_mirror_starts_each_phone_once(snapshot: Snapshot, mirroring: Seq<Seq<char>>, known: Seq<Seq<char>>)
    ensures
        ({
            let (k1, s1) = auto_mirror_plan(true, Some(snapshot), mirroring, known);
            let (k2, s2) = auto_mirror_plan(true, Some(snapshot), mirroring, k1);
            s2.len() == 0 && k2 == k1
        }),
{
    if snapshot.scrcpy.available {
        let devices = snapshot.devices@;
        let present = ready_keys(devices);
        let kept = keep_present(known, present);
        lemma_auto_fold_keys(devices, mirroring, kept);
        let k1 = auto_fold(devices, mirroring, kept).0;
        lemma_keep_present_only(known, present);
        assert forall|i: int| 0 <= i < k1.len() implies present.contains(#[trigger] k1[i]) by {
            assert(k1.contains(k1[i]));
        }
        lemma_keep_present_all(k1, present);
        lemma_auto_fold_settled(devices, mirroring, k1);
    }
}

proof fn lemma_keep_present_only(keys: Seq<Seq<char>>, present: Seq<Seq<char>>)
    ensures
        forall|x: Seq<char>| #[trigger] keep_present(keys, present).contains(x) ==> present.contains(x),
    decreases keys.len(),
{
    if keys.len() > 0 {
        lemma_keep_present_only(keys.drop_last(), present);
        let k0 = keep_present(keys.drop_last(), present);
        assert forall|x: Seq<char>| #[trigger] keep_present(keys, present).contains(x) implies present.contains(x) by {
            let k = keep_present(keys, present);
            let j = choose|j: int| 0 <= j < k.len() && k[j] == x;
            if present.contains(keys.last()) && j == k.len() - 1 {
                assert(x == keys.last());
            } else {
                assert(k0[j] == x);
                assert(k0.contains(x));
            }
        }
    }
}


// ---------------------------------------------------------------------------
// Running and starting mirrors
// ---------------------------------------------------------------------------

/// A start that is cancelled before its process is up never becomes a
/// mirror: the process is stopped again as soon as it starts.
pub proof fn law_cancelled_start_is_stopped(b: BookView, key: Seq<char>, name: Seq<char>, pid: u32)
    requires
        book_wf(b),
        b.starting.contains(key),
    ensures
        ({
            let (b1, kill, _) = stop_spec(b, key);
            let (b2, action, _) = finish_spec(b1, key, name, Ok(pid));
            !kill && action == StartAction::Stop && !b2.running.contains(key)
        }),
{
    lemma_without(b.starting, key);
}

/// A start that was claimed and then brought up a process makes that
/// process the mirror: it runs, and is no longer starting.
pub proof fn law_claimed_start_is_tracked(b: BookView, key: Seq<char>, name: Seq<char>, pid: u32)
    requires
        book_wf(b),
        begin_spec(b, key).1,
    ensures
        ({
            let (b2, action, _) = finish_spec(begin_spec(b, key).0, key, name, Ok(pid));
            action == StartAction::Track && b2.running.contains(key) && !b2.starting.contains(key)
        }),
{
    let b1 = begin_spec(b, key).0;
    assert(b1.starting.last() == key);
    assert(b1.starting.contains(key));
    lemma_without(b1.starting, key);
    let b2 = finish_spec(b1, key, name, Ok(pid)).0;
    assert(b2.running.last() == key);
}


/// A mirror that runs is never replaced: a second process that comes up for
/// the same phone is stopped, and the running one stays.
pub proof fn law_running_mirror_is_never_replaced(b: BookView, key: Seq<char>, name: Seq<char>, pid: u32)
    requires
        book_wf(b),
        b.running.contains(key),
    ensures
        ({
            let (b2, action, _) = finish_spec(b, key, name, Ok(pid));
            action == StartAction::Stop && b2.running == b.running
        }),
{
}

/// A phone that is no longer connected is forgotten, so that it is mirrored
/// again when it comes back.
pub proof fn law_departed_phone_is_forgotten(snapshot: Snapshot, mirroring: Seq<Seq<char>>, known: Seq<Seq<char>>, key: Seq<char>)
    requires
        snapshot.scrcpy.available,
        !ready_keys(snapshot.devices@).contains(key),
    ensures
        !auto_mirror_plan(true, Some(snapshot), mirroring, known).0.contains(key),
{
    let devices = snapshot.devices@;
    let kept = keep_present(known, ready_keys(devices));
    lemma_keep_present_only(known, ready_keys(devices));
    lemma_auto_fold_keys(devices, mirroring, kept);
}

proof fn lemma_merged_from(endpoints: Seq<Seq<char>>, extra: Seq<Seq<char>>)
    ensures
        forall|x: Seq<char>| #[trigger] merged(endpoints, extra).contains(x) ==> endpoints.contains(x) || extra.contains(x),
    decreases extra.len(),
{
    if extra.len() > 0 {
        let rest = extra.drop_last();
        lemma_merged_from(endpoints, rest);
        let m0 = merged(endpoints, rest);
        assert forall|x: Seq<char>| #[trigger] merged(endpoints, extra).contains(x) implies endpoints.contains(x) || extra.contains(x) by {
            let m = merged(endpoints, extra);
            let j = choose|j: int| 0 <= j < m.len() && m[j] == x;
            if !m0.contains(extra.last()) && j == m.len() - 1 {
                assert(extra[extra.len() - 1] == x);
            } else {
                assert(m0[j] == x);
                assert(m0.contains(x));
                if rest.contains(x) {
                    let i = choose|i: int| 0 <= i < rest.len() && rest[i] == x;
                    assert(extra[i] == x);
                }
            }
        }
    }
}

proof fn lemma_same_host_only(endpoints: Seq<Seq<char>>, pairing: Seq<char>)
    ensures
        forall|x: Seq<char>| #[trigger] same_host(endpoints, pairing).contains(x)
            ==> endpoint_host_spec(x) == endpoint_host_spec(pairing),
    decreases endpoints.len(),
{
    if endpoints.len() > 0 {
        lemma_same_host_only(endpoints.drop_last(), pairing);
        let s0 = same_host(endpoints.drop_last(), pairing);
        assert forall|x: Seq<char>| #[trigger] same_host(endpoints, pairing).contains(x)
            implies endpoint_host_spec(x) == endpoint_host_spec(pairing) by {
            let h = same_host(endpoints, pairing);
            let j = choose|j: int| 0 <= j < h.len() && h[j] == x;
            if endpoint_host_spec(endpoints.last()) == endpoint_host_spec(pairing) && j == h.len() - 1 {
            } else {
                assert(s0[j] == x);
                assert(s0.contains(x));
            }
        }
    }
}

/// After pairing, `adb connect` is only tried on a connect candidate that
/// ADB listed or on a Bonjour endpoint of the pairing host, so another
/// advertising phone cannot take the pairing's place.
pub proof fn law_connect_after_pairing_stays_on_pairing_host(
    candidates: Seq<ServiceView>,
    bonjour: Option<Seq<Seq<char>>>,
    pairing: Seq<char>,
    endpoint: Seq<char>,
)
    requires
        connect_after_pairing_spec(candidates, bonjour, pairing).contains(endpoint),
    ensures
        addresses(candidates).contains(endpoint) || endpoint_host_spec(endpoint) == endpoint_host_spec(pairing),
{
    match bonjour {
        Some(found) => {
            lemma_merged_from(addresses(candidates), same_host(found, pairing));
            lemma_same_host_only(found, pairing);
        },
        None => {},
    }
}


// ---------------------------------------------------------------------------
// Collapsing aliases, again
// ---------------------------------------------------------------------------

/// The rows that belong to no wireless transport (not ready, or matching no
/// connect service), in order.
pub open spec fn keyless(ds: Seq<DeviceView>, svcs: Seq<ServiceView>) -> Seq<DeviceView>
    decreases ds.len(),
{
    if ds.len() == 0 {
        seq![]
    } else if transport_key(ds.last(), svcs) is None {
        keyless(ds.drop_last(), svcs).push(ds.last())
    } else {
        keyless(ds.drop_last(), svcs)
    }
}

proof fn lemma_keyless_update(s: Seq<DeviceView>, i: int, x: DeviceView, svcs: Seq<ServiceView>)
    requires
        0 <= i < s.len(),
        transport_key(s[i], svcs) is Some,
        transport_key(x, svcs) is Some,
    ensures
        keyless(s.update(i, x), svcs) == keyless(s, svcs),
    decreases s.len(),
{
    let u = s.update(i, x);
    if i == s.len() - 1 {
        assert(u.drop_last() =~= s.drop_last());
    } else {
        assert(u.drop_last() =~= s.drop_last().update(i, x));
        lemma_keyless_update(s.drop_last(), i, x, svcs);
        assert(u.last() == s.last());
    }
}

/// Collapsing aliases keeps every row of no wireless transport, in order.
pub proof fn law_dedupe_keeps_keyless_rows_in_order(ds: Seq<DeviceView>, svcs: Seq<ServiceView>)
    ensures
        keyless(dedupe(ds, svcs), svcs) == keyless(ds, svcs),
    decreases ds.len(),
{
    if ds.len() > 0 {
        let p = ds.drop_last();
        law_dedupe_keeps_keyless_rows_in_order(p, svcs);
        let prev = dedupe(p, svcs);
        let d = ds.last();
        match transport_key(d, svcs) {
            None => {
                assert(dedupe(ds, svcs).drop_last() =~= prev);
            },
            Some(k) => {
                lemma_first_with_key_bounds(prev, k, svcs);
                let i = first_with_key(prev, k, svcs);
                if 0 <= i < prev.len() {
                    if preferred_alias(d, prev[i]) {
                        lemma_keyless_update(prev, i, d, svcs);
                    }
                } else {
                    assert(dedupe(ds, svcs).drop_last() =~= prev);
                }
            },
        }
    }
}

/// Rows with distinct transport keys are left as they are.
proof fn lemma_dedupe_of_distinct(r: Seq<DeviceView>, svcs: Seq<ServiceView>)
    requires
        forall|i: int, j: int|
            0 <= i < j < r.len() && transport_key(#[trigger] r[i], svcs) is Some
                ==> transport_key(r[i], svcs) != transport_key(#[trigger] r[j], svcs),
    ensures
        dedupe(r, svcs) == r,
    decreases r.len(),
{
    if r.len() > 0 {
        let p = r.drop_last();
        assert forall|i: int, j: int|
            0 <= i < j < p.len() && transport_key(#[trigger] p[i], svcs) is Some
                implies transport_key(p[i], svcs) != transport_key(#[trigger] p[j], svcs) by {
            assert(p[i] == r[i] && p[j] == r[j]);
        }
        lemma_dedupe_of_distinct(p, svcs);
        let d = r.last();
        match transport_key(d, svcs) {
            None => {
                assert(p.push(d) =~= r);
            },
            Some(k) => {
                lemma_first_with_key_bounds(p, k, svcs);
                let i = first_with_key(p, k, svcs);
                if 0 <= i < p.len() {
                    assert(p[i] == r[i]);
                    assert(transport_key(r[i], svcs) == Some(k));
                    assert(transport_key(r[r.len() - 1], svcs) == Some(k));
                    assert(false);
                }
                assert(p.push(d) =~= r);
            },
        }
    }
}

/// Collapsing aliases a second time changes nothing.
pub proof fn law_dedupe_is_idempotent(ds: Seq<DeviceView>, svcs: Seq<ServiceView>)
    ensures
        dedupe(dedupe(ds, svcs), svcs) == dedupe(ds, svcs),
{
    law_dedupe_one_row_per_transport(ds, svcs);
    lemma_dedupe_of_distinct(dedupe(ds, svcs), svcs);
}

// ---------------------------------------------------------------------------
// Waiting for the connect endpoint
// ---------------------------------------------------------------------------

proof fn lemma_first_picked_ready(ds: Seq<DeviceView>, p: Sel)
    ensures
        first_picked(ds, p) matches Some(d) ==> is_ready(d) && ds.contains(d),
{
    lemma_picked(ds, p);
    if picked(ds, p).len() > 0 {
        assert(picks(p, picked(ds, p)[0]));
    }
}

proof fn lemma_match_through_services_ready(ds: Seq<DeviceView>, expected: Seq<char>, base: Seq<Seq<char>>, ss: Seq<ServiceView>)
    ensures
        match_through_services(ds, expected, base, ss) matches Some(d) ==> is_ready(d),
    decreases ss.len(),
{
    if ss.len() > 0 {
        lemma_first_picked_ready(ds, Sel::NewFor(base, ss[0]));
        lemma_match_through_services_ready(ds, expected, base, ss.skip(1));
    }
}

proof fn lemma_snapshot_match_ready(ds: Seq<DeviceView>, expected: Seq<char>, base: Seq<Seq<char>>, ss: Seq<ServiceView>)
    ensures
        snapshot_match(ds, expected, base, ss) matches Some(d) ==> is_ready(d),
{
    law_matched_device_is_ready_and_listed(ds, expected, base);
    lemma_match_through_services_ready(ds, expected, base, ss);
}

proof fn lemma_cand_match_ready(ds: Seq<DeviceView>, cands: Seq<ServiceView>, base: Seq<Seq<char>>)
    ensures
        cand_match(ds, cands, base) matches Some(d) ==> is_ready(d),
    decreases cands.len(),
{
    if cands.len() > 0 {
        lemma_first_picked_ready(ds, Sel::NewFor(base, cands[0]));
        lemma_cand_match_ready(ds, cands.drop_first(), base);
    }
}

/// No step that only moves the wait along ends it.
proof fn lemma_continue_not_done(v: ConnectView, cands: Seq<ServiceView>, i: nat, ss: Seq<ServiceView>, evs: Seq<EventView>, now: nat)
    ensures
        !(continue_connects(v, cands, i, ss, evs, now).2 is Done),
        !(end_of_round(v, evs, now).2 is Done),
        !(continue_connects(v, cands, i, ss, evs, now).2 is AskManual),
        !(end_of_round(v, evs, now).2 is AskManual),
        continue_connects(v, cands, i, ss, evs, now).0.stage is DeadlineScreen ==> continue_connects(v, cands, i, ss, evs, now).2 is TryScreen && now >= v.deadline,
        end_of_round(v, evs, now).0.stage is DeadlineScreen ==> end_of_round(v, evs, now).2 is TryScreen && now >= v.deadline,
{
}

/// The wait only ever ends with a device that ADB lists as ready.
pub proof fn law_connect_wait_ends_with_a_ready_device(v: ConnectView, input: InputView)
    requires
        fits(v.stage, input),
    ensures
        connect_step(v, input).2 matches ActionView::Done(d) ==> is_ready(d),
{
    match input {
        InputView::Round(ds, svc, now) => {
            let ss = match svc {
                Ok(s) => s,
                Err(_) => Seq::<ServiceView>::empty(),
            };
            lemma_snapshot_match_ready(ds, v.expected, v.base_devices, ss);
            lemma_cand_match_ready(ds, crate::adb::candidates_spec(ss, v.pairing, v.base_services), v.base_devices);
            lemma_round_shape(v, ds, svc, now);
        },
        InputView::ConnectResult(res, ds, now) => {
            match v.stage {
                StageView::Connecting(cands, i, ss) => {
                    let a = cands[i as int].address;
                    let exp = match res {
                        Ok(out) => match crate::adb_client::first_connected_serial(crate::text::lines(out)) {
                            Some(x) => x,
                            None => a,
                        },
                        Err(_) => a,
                    };
                    lemma_snapshot_match_ready(ds, exp, v.base_devices, ss);
                    lemma_continue_not_done(crate::connect_steps::ConnectView { expected: exp, ..v }, cands, i, ss, seq![], now);
                    lemma_connect_result_shape(v, cands, i, ss, res, ds, now);
                },
                _ => {},
            }
        },
        InputView::Fallback(_, now) => {
            lemma_continue_not_done(v, seq![], 0, seq![], seq![], now);
        },
        _ => {},
    }
}

proof fn lemma_round_shape(v: ConnectView, ds: Seq<DeviceView>, svc: Result<Seq<ServiceView>, Seq<char>>, now: nat)
    ensures
        ({
            let ss = match svc {
                Ok(s) => s,
                Err(_) => Seq::<ServiceView>::empty(),
            };
            let (w, evs, a) = on_round(v, ds, svc, now);
            &&& a matches ActionView::Done(d) ==> (snapshot_match(ds, v.expected, v.base_devices, ss) == Some(d)
                || cand_match(ds, crate::adb::candidates_spec(ss, v.pairing, v.base_services), v.base_devices) == Some(d))
            &&& !(a is AskManual)
            &&& w.stage is DeadlineScreen ==> a is TryScreen && now >= v.deadline
        }),
{
}

proof fn lemma_connect_result_shape(v: ConnectView, cands: Seq<ServiceView>, i: nat, ss: Seq<ServiceView>, res: Result<Seq<char>, Seq<char>>, ds: Seq<DeviceView>, now: nat)
    ensures
        ({
            let a = cands[i as int].address;
            let exp = match res {
                Ok(out) => match crate::adb_client::first_connected_serial(crate::text::lines(out)) {
                    Some(x) => x,
                    None => a,
                },
                Err(_) => a,
            };
            let (w, evs, act) = on_connect_result(v, cands, i, ss, res, ds, now);
            &&& act matches ActionView::Done(d) ==> snapshot_match(ds, exp, v.base_devices, ss) == Some(d)
            &&& !(act is AskManual)
            &&& w.stage is DeadlineScreen ==> act is TryScreen && now >= v.deadline
        }),
{
    let a = cands[i as int].address;
    match res {
        Ok(out) => {
            let exp = match crate::adb_client::first_connected_serial(crate::text::lines(out)) {
                Some(x) => x,
                None => a,
            };
            lemma_continue_not_done(ConnectView { expected: exp, ..v }, cands, i, ss, seq![progress_verifying(v, exp)], now);
        },
        Err(m) => {
            lemma_continue_not_done(v, cands, i, ss, seq![], now);
            lemma_continue_not_done(ConnectView { failed: v.failed.push(a), ..v }, cands, i, ss, seq![EventView::Warning("ADB mDNS endpoint "@ + a + " failed: "@ + m)], now);
        },
    }
}

pub open spec fn progress_verifying(v: ConnectView, exp: Seq<char>) -> EventView {
    crate::pairing_steps::progress(crate::pairing_flow::PairingProgressKind::Verifying, "Verifying ADB device"@, "ADB connected; waiting for the device to become ready."@, v.deadline, Some(v.attempt), Some(exp))
}

/// At the deadline the screen is read first, and the user is only asked for
/// the endpoint after that reading found nothing, right after the timed-out
/// warning.
pub proof fn law_connect_wait_asks_only_after_screen_at_deadline(v: ConnectView, input: InputView)
    requires
        fits(v.stage, input),
    ensures
        ({
            let (w, evs, a) = connect_step(v, input);
            &&& a is AskManual ==> v.stage is DeadlineScreen && evs == seq![timed_out_warning()] && w.stage is Manual
            &&& w.stage is DeadlineScreen ==> a is TryScreen && match input {
                InputView::Round(_, _, now) => now >= v.deadline,
                InputView::ConnectResult(_, _, now) => now >= v.deadline,
                InputView::Fallback(_, now) => now >= v.deadline,
                _ => false,
            }
        }),
{
    match input {
        InputView::Round(ds, svc, now) => {
            lemma_round_shape(v, ds, svc, now);
        },
        InputView::ConnectResult(res, ds, now) => {
            match v.stage {
                StageView::Connecting(cands, i, ss) => {
                    lemma_connect_result_shape(v, cands, i, ss, res, ds, now);
                },
                _ => {},
            }
        },
        InputView::Fallback(_, now) => {
            lemma_continue_not_done(v, seq![], 0, seq![], seq![], now);
        },
        _ => {},
    }
}

/// When the user gives no endpoint, the wait fails with its own error.
pub proof fn law_no_manual_endpoint_fails(v: ConnectView)
    requires
        v.stage is Manual,
    ensures
        connect_step(v, InputView::Manual(None)).2 == ActionView::Fail(no_endpoint_found()),
{
}


// ---------------------------------------------------------------------------
// scrcpy diagnostics
// ---------------------------------------------------------------------------

/// The flags that the help text does not mention, in order.
pub open spec fn missing_flags(flags: Seq<Seq<char>>, help: Seq<char>) -> Seq<Seq<char>>
    decreases flags.len(),
{
    if flags.len() == 0 {
        seq![]
    } else if crate::text::contains(help, flags.last()) {
        missing_flags(flags.drop_last(), help)
    } else {
        missing_flags(flags.drop_last(), help).push(flags.last())
    }
}

/// The diagnostics give one warning for each flag missing from the help
/// text, naming it, in the flags' order; when the help text cannot be read,
/// one warning saying so.
pub proof fn law_diagnostics_warn_once_per_missing_flag(path: Seq<char>, flags: Seq<Seq<char>>, help: Result<Seq<char>, Seq<char>>)
    ensures
        match help {
            Ok(h) => help_warnings(path, flags, help)
                == missing_flags(flags, h).map_values(|f: Seq<char>| missing_flag_warning(path, f)),
            Err(e) => help_warnings(path, flags, help) == seq![unreadable_help_warning(path, e)],
        },
{
    match help {
        Ok(h) => lemma_missing_flag_warnings(path, flags, h),
        Err(_) => {},
    }
}

proof fn lemma_missing_flag_warnings(path: Seq<char>, flags: Seq<Seq<char>>, h: Seq<char>)
    ensures
        missing_flag_warnings(path, flags, h)
            == missing_flags(flags, h).map_values(|f: Seq<char>| missing_flag_warning(path, f)),
    decreases flags.len(),
{
    if flags.len() == 0 {
        assert(missing_flags(flags, h).map_values(|f: Seq<char>| missing_flag_warning(path, f)) =~= Seq::<Seq<char>>::empty());
    } else {
        lemma_missing_flag_warnings(path, flags.drop_last(), h);
        let m0 = missing_flags(flags.drop_last(), h);
        if !crate::text::contains(h, flags.last()) {
            assert(m0.push(flags.last()).map_values(|f: Seq<char>| missing_flag_warning(path, f))
                =~= m0.map_values(|f: Seq<char>| missing_flag_warning(path, f)).push(missing_flag_warning(path, flags.last())));
        }
    }
}


// ---------------------------------------------------------------------------
// Device rows of `adb devices -l`
// ---------------------------------------------------------------------------

proof fn lemma_tag_value(tokens: Seq<Seq<char>>, tag: Seq<char>)
    ensures
        (forall|k: int| 0 <= k < tokens.len() ==> !starts_with(#[trigger] tokens[k], tag)) ==> tag_value(tokens, tag) is None,
        forall|k: int|
            0 <= k < tokens.len() && starts_with(#[trigger] tokens[k], tag)
                && (forall|m: int| k < m < tokens.len() ==> !starts_with(#[trigger] tokens[m], tag))
                ==> tag_value(tokens, tag) == Some(tokens[k].skip(tag.len() as int)),
    decreases tokens.len(),
{
    if tokens.len() > 0 {
        let p = tokens.drop_last();
        lemma_tag_value(p, tag);
        assert forall|k: int|
            0 <= k < tokens.len() && starts_with(#[trigger] tokens[k], tag)
                && (forall|m: int| k < m < tokens.len() ==> !starts_with(#[trigger] tokens[m], tag))
                implies tag_value(tokens, tag) == Some(tokens[k].skip(tag.len() as int)) by {
            if k < tokens.len() - 1 {
                assert(!starts_with(tokens[tokens.len() - 1], tag));
                assert(p[k] == tokens[k]);
                assert forall|m: int| k < m < p.len() implies !starts_with(#[trigger] p[m], tag) by {
                    assert(p[m] == tokens[m]);
                }
            }
        }
        if forall|k: int| 0 <= k < tokens.len() ==> !starts_with(#[trigger] tokens[k], tag) {
            assert(!starts_with(tokens[tokens.len() - 1], tag));
            assert forall|k: int| 0 <= k < p.len() implies !starts_with(#[trigger] p[k], tag) by {
                assert(p[k] == tokens[k]);
            }
        }
    }
}

/// What a row says of a tag (`product:`, `model:`, ...): the text after the
/// tag in the last token after the state that carries it; nothing when no
/// such token is there.
pub open spec fn tagged(w: Seq<Seq<char>>, tag: Seq<char>, value: Option<Seq<char>>) -> bool {
    &&& (forall|k: int| 2 <= k < w.len() ==> !starts_with(#[trigger] w[k], tag)) ==> value is None
    &&& forall|k: int|
        2 <= k < w.len() && starts_with(#[trigger] w[k], tag)
            && (forall|m: int| k < m < w.len() ==> !starts_with(#[trigger] w[m], tag))
            ==> value == Some(w[k].skip(tag.len() as int))
}

proof fn lemma_tagged(w: Seq<Seq<char>>, tag: Seq<char>)
    requires
        w.len() >= 2,
    ensures
        tagged(w, tag, tag_value(w.skip(2), tag)),
{
    let rest = w.skip(2);
    lemma_tag_value(rest, tag);
    if forall|k: int| 2 <= k < w.len() ==> !starts_with(#[trigger] w[k], tag) {
        assert forall|k: int| 0 <= k < rest.len() implies !starts_with(#[trigger] rest[k], tag) by {
            assert(rest[k] == w[k + 2]);
        }
    }
    assert forall|k: int|
        2 <= k < w.len() && starts_with(#[trigger] w[k], tag)
            && (forall|m: int| k < m < w.len() ==> !starts_with(#[trigger] w[m], tag))
            implies tag_value(rest, tag) == Some(w[k].skip(tag.len() as int)) by {
        assert(rest[k - 2] == w[k]);
        assert forall|m: int| k - 2 < m < rest.len() implies !starts_with(#[trigger] rest[m], tag) by {
            assert(rest[m] == w[m + 2]);
        }
    }
}

/// A row of `adb devices -l` is its line's first word as serial, and its
/// product, model, device and transport id are the text after the tag in
/// the last token that carries each tag (none without one).
pub proof fn law_device_row_fields_come_from_their_tags(line: Seq<char>)
    ensures
        parse_device_line(line) matches Some(d) ==> {
            let w = words(trim(line));
            &&& w.len() >= 2
            &&& d.serial == w[0]
            &&& tagged(w, "product:"@, d.product)
            &&& tagged(w, "model:"@, d.model)
            &&& tagged(w, "device:"@, d.device)
            &&& tagged(w, "transport_id:"@, d.transport_id)
        },
{
    let w = words(trim(line));
    if parse_device_line(line) is Some {
        lemma_tagged(w, "product:"@);
        lemma_tagged(w, "model:"@);
        lemma_tagged(w, "device:"@);
        lemma_tagged(w, "transport_id:"@);
    }
}

/// Every row parsed from `adb devices -l` output is what one of its lines
/// describes, and every describing line gives a row, in order.
pub proof fn law_device_rows_come_from_lines(ls: Seq<Seq<char>>)
    ensures
        forall|i: int| 0 <= i < parse_device_lines(ls).len()
            ==> exists|j: int| 0 <= j < ls.len() && parse_device_line(ls[j]) == Some(#[trigger] parse_device_lines(ls)[i]),
        (forall|j: int| 0 <= j < ls.len() ==> parse_device_line(#[trigger] ls[j]) is None) ==> parse_device_lines(ls).len() == 0,
    decreases ls.len(),
{
    if ls.len() > 0 {
        let p = ls.drop_last();
        law_device_rows_come_from_lines(p);
        let r = parse_device_lines(ls);
        assert forall|i: int| 0 <= i < r.len()
            implies exists|j: int| 0 <= j < ls.len() && parse_device_line(ls[j]) == Some(#[trigger] r[i]) by {
            if i < parse_device_lines(p).len() {
                assert(r[i] == parse_device_lines(p)[i]);
                let j = choose|j: int| 0 <= j < p.len() && parse_device_line(p[j]) == Some(parse_device_lines(p)[i]);
                assert(ls[j] == p[j]);
            } else {
                assert(parse_device_line(ls[ls.len() - 1]) == Some(r[i]));
            }
        }
        if forall|j: int| 0 <= j < ls.len() ==> parse_device_line(#[trigger] ls[j]) is None {
            assert(parse_device_line(ls[ls.len() - 1]) is None);
            assert forall|j: int| 0 <= j < p.len() implies parse_device_line(#[trigger] p[j]) is None by {
                assert(p[j] == ls[j]);
            }
        }
    }
}

// ---------------------------------------------------------------------------
// scrcpy's command line, flag by flag
// ---------------------------------------------------------------------------

proof fn lemma_decimal_starts_with_digit(n: nat)
    ensures
        decimal(n).len() > 0,
        '0' <= decimal(n)[0] <= '9',
    decreases n,
{
    if n >= 10 {
        lemma_decimal_starts_with_digit(n / 10);
        assert(decimal(n)[0] == decimal(n / 10)[0]);
    }
}

/// The command line asks for a window above the others exactly when the
/// options do, and for a borderless window exactly when the options do,
/// whatever the other options say (as long as neither the serial nor the
/// window title is itself that flag).
pub proof fn law_scrcpy_window_flags_follow_the_options(serial: Seq<char>, o: ScrcpyOptions)
    requires
        serial != "--always-on-top"@,
        serial != "--window-borderless"@,
        o.window_title@ != "--always-on-top"@,
        o.window_title@ != "--window-borderless"@,
    ensures
        default_args_spec(serial, o).contains("--always-on-top"@) <==> o.always_on_top,
        default_args_spec(serial, o).contains("--window-borderless"@) <==> o.borderless,
{
    reveal_strlit("-s");
    reveal_strlit("--no-audio");
    reveal_strlit("--stay-awake");
    reveal_strlit("--window-borderless");
    reveal_strlit("--always-on-top");
    reveal_strlit("--window-title");
    reveal_strlit("--window-width");
    reveal_strlit("--window-height");
    lemma_decimal_starts_with_digit(o.window_width as nat);
    lemma_decimal_starts_with_digit(o.window_height as nat);
    let args = default_args_spec(serial, o);
    let flags = seq!["--always-on-top"@, "--window-borderless"@];
    assert forall|x: Seq<char>| #[trigger] flags.contains(x) implies
        x != "-s"@ && x != "--no-audio"@ && x != "--stay-awake"@ && x != "--window-title"@
            && x != "--window-width"@ && x != "--window-height"@
            && x != decimal(o.window_width as nat) && x != decimal(o.window_height as nat) by {
        let j = choose|j: int| 0 <= j < flags.len() && flags[j] == x;
        assert(x[0] == '-');
        if j == 0 {
            assert(x.len() == 15);
            assert(x[2] == 'a');
        } else {
            assert(x.len() == 19);
            assert(x[9] == 'b');
        }
    }
    assert(flags.contains("--always-on-top"@) && flags[0] == "--always-on-top"@);
    assert(flags.contains("--window-borderless"@) && flags[1] == "--window-borderless"@);
    assert("--always-on-top"@ != "--window-borderless"@) by {
        assert("--always-on-top"@.len() != "--window-borderless"@.len());
    }
    if o.always_on_top {
        let a = seq!["-s"@, serial];
        let b = if o.no_audio { a.push("--no-audio"@) } else { a };
        let c = if o.stay_awake { b.push("--stay-awake"@) } else { b };
        let d = if o.borderless { c.push("--window-borderless"@) } else { c };
        let e = d.push("--always-on-top"@);
        assert(e[e.len() - 1] == "--always-on-top"@);
        assert(args[d.len() as int] == "--always-on-top"@);
    }
    if o.borderless {
        let a = seq!["-s"@, serial];
        let b = if o.no_audio { a.push("--no-audio"@) } else { a };
        let c = if o.stay_awake { b.push("--stay-awake"@) } else { b };
        assert(args[c.len() as int] == "--window-borderless"@);
    }
}


// ---------------------------------------------------------------------------
// The device a connection produced
// ---------------------------------------------------------------------------

proof fn lemma_filter_counts(ds: Seq<DeviceView>, f: spec_fn(DeviceView) -> bool)
    ensures
        (forall|i: int| 0 <= i < ds.len() ==> !f(#[trigger] ds[i])) ==> ds.filter(f).len() == 0,
        (exists|i: int| 0 <= i < ds.len() && f(#[trigger] ds[i])) ==> ds.filter(f).len() > 0,
        forall|j: int|
            0 <= j < ds.len() && f(#[trigger] ds[j]) && (forall|i: int| 0 <= i < ds.len() && i != j ==> !f(#[trigger] ds[i]))
                ==> ds.filter(f) == seq![ds[j]],
    decreases ds.len(),
{
    reveal(Seq::filter);
    if ds.len() > 0 {
        let p = ds.drop_last();
        lemma_filter_counts(p, f);
        assert(ds.filter(f) == if f(ds.last()) { p.filter(f).push(ds.last()) } else { p.filter(f) });
        if forall|i: int| 0 <= i < ds.len() ==> !f(#[trigger] ds[i]) {
            assert(!f(ds[ds.len() - 1]));
            assert forall|i: int| 0 <= i < p.len() implies !f(#[trigger] p[i]) by {
                assert(p[i] == ds[i]);
            }
        }
        if exists|i: int| 0 <= i < ds.len() && f(#[trigger] ds[i]) {
            let i = choose|i: int| 0 <= i < ds.len() && f(#[trigger] ds[i]);
            if i < ds.len() - 1 {
                assert(p[i] == ds[i]);
            }
        }
        assert forall|j: int|
            0 <= j < ds.len() && f(#[trigger] ds[j]) && (forall|i: int| 0 <= i < ds.len() && i != j ==> !f(#[trigger] ds[i]))
                implies ds.filter(f) == seq![ds[j]] by {
            if j == ds.len() - 1 {
                assert forall|i: int| 0 <= i < p.len() implies !f(#[trigger] p[i]) by {
                    assert(p[i] == ds[i]);
                }
                assert(p.filter(f).push(ds.last()) =~= seq![ds[j]]);
            } else {
                assert(!f(ds[ds.len() - 1]));
                assert(p[j] == ds[j]);
                assert forall|i: int| 0 <= i < p.len() && i != j implies !f(#[trigger] p[i]) by {
                    assert(p[i] == ds[i]);
                }
            }
        }
    }
}

/// The device found for an expected serial: a ready row with that very
/// serial when there is one; else a ready row on the expected host when
/// there is one; else, when exactly one ready row is new (not among the
/// serials seen before), that row.
pub proof fn law_matched_device_by_serial_host_or_sole_new(ds: Seq<DeviceView>, expected: Seq<char>, base: Seq<Seq<char>>)
    ensures
        (exists|i: int| 0 <= i < ds.len() && is_ready(#[trigger] ds[i]) && ds[i].serial == expected)
            ==> (matching_ready(ds, expected, base) matches Some(d) && is_ready(d) && d.serial == expected),
        (forall|i: int| 0 <= i < ds.len() && is_ready(#[trigger] ds[i]) ==> ds[i].serial != expected)
            && (exists|i: int| 0 <= i < ds.len() && is_ready(#[trigger] ds[i])
                && endpoint_host_spec(ds[i].serial) == endpoint_host_spec(expected))
            ==> (matching_ready(ds, expected, base) matches Some(d) && is_ready(d)
                && endpoint_host_spec(d.serial) == endpoint_host_spec(expected)),
        forall|j: int|
            0 <= j < ds.len() && is_ready(#[trigger] ds[j]) && !base.contains(ds[j].serial)
                && (forall|i: int| 0 <= i < ds.len() && is_ready(#[trigger] ds[i])
                    ==> ds[i].serial != expected && endpoint_host_spec(ds[i].serial) != endpoint_host_spec(expected))
                && (forall|i: int| 0 <= i < ds.len() && i != j && is_ready(#[trigger] ds[i]) ==> base.contains(ds[i].serial))
                ==> matching_ready(ds, expected, base) == Some(ds[j]),
{
    let f1 = |d: DeviceView| is_ready(d) && d.serial == expected;
    let f2 = |d: DeviceView| is_ready(d) && endpoint_host_spec(d.serial) == endpoint_host_spec(expected);
    let f3 = |d: DeviceView| is_ready(d) && !base.contains(d.serial);
    lemma_filter_counts(ds, f1);
    lemma_filter_counts(ds, f2);
    lemma_filter_counts(ds, f3);
    if ds.filter(f1).len() > 0 {
        lemma_filter_first(ds, f1);
    } else if ds.filter(f2).len() > 0 {
        lemma_filter_first(ds, f2);
    }
    if exists|i: int| 0 <= i < ds.len() && is_ready(#[trigger] ds[i]) && ds[i].serial == expected {
        let i = choose|i: int| 0 <= i < ds.len() && is_ready(#[trigger] ds[i]) && ds[i].serial == expected;
        assert(f1(ds[i]));
    }
    if exists|i: int| 0 <= i < ds.len() && is_ready(#[trigger] ds[i]) && endpoint_host_spec(ds[i].serial) == endpoint_host_spec(expected) {
        let i = choose|i: int| 0 <= i < ds.len() && is_ready(#[trigger] ds[i]) && endpoint_host_spec(ds[i].serial) == endpoint_host_spec(expected);
        assert(f2(ds[i]));
    }
    assert forall|j: int|
        0 <= j < ds.len() && is_ready(#[trigger] ds[j]) && !base.contains(ds[j].serial)
            && (forall|i: int| 0 <= i < ds.len() && is_ready(#[trigger] ds[i])
                ==> ds[i].serial != expected && endpoint_host_spec(ds[i].serial) != endpoint_host_spec(expected))
            && (forall|i: int| 0 <= i < ds.len() && i != j && is_ready(#[trigger] ds[i]) ==> base.contains(ds[i].serial))
            implies matching_ready(ds, expected, base) == Some(ds[j]) by {
        assert forall|i: int| 0 <= i < ds.len() implies !f1(#[trigger] ds[i]) && !f2(ds[i]) by {}
        assert(f3(ds[j]));
        assert forall|i: int| 0 <= i < ds.len() && i != j implies !f3(#[trigger] ds[i]) by {}
        assert(ds.filter(f3) == seq![ds[j]]);
    }
}

// ---------------------------------------------------------------------------
// Which connect services may be the paired phone's
// ---------------------------------------------------------------------------

/// The candidates stay on the pairing host whenever a connect service is
/// advertised there: only new ones of that host when there are any, else
/// all of that host. Only when none is on that host do services of other
/// hosts come in, the new ones first.
pub proof fn law_connect_candidates_prefer_the_pairing_host(ss: Seq<ServiceView>, pairing_address: Seq<char>, base: Seq<ServiceView>)
    ensures
        ({
            let h = endpoint_host_spec(pairing_address);
            let c = candidates_spec(ss, pairing_address, base);
            &&& (exists|j: int| 0 <= j < ss.len() && is_connect_view(#[trigger] ss[j])
                && endpoint_host_spec(ss[j].address) == h && !base.contains(ss[j]))
                ==> forall|i: int| 0 <= i < c.len() ==> is_connect_view(#[trigger] c[i])
                    && endpoint_host_spec(c[i].address) == h && !base.contains(c[i])
            &&& (exists|j: int| 0 <= j < ss.len() && is_connect_view(#[trigger] ss[j]) && endpoint_host_spec(ss[j].address) == h)
                ==> forall|i: int| 0 <= i < c.len() ==> is_connect_view(#[trigger] c[i]) && endpoint_host_spec(c[i].address) == h
            &&& (forall|j: int| 0 <= j < ss.len() && is_connect_view(#[trigger] ss[j]) ==> endpoint_host_spec(ss[j].address) != h)
                && (exists|j: int| 0 <= j < ss.len() && is_connect_view(#[trigger] ss[j]) && !base.contains(ss[j]))
                ==> forall|i: int| 0 <= i < c.len() ==> is_connect_view(#[trigger] c[i]) && !base.contains(c[i])
        }),
{
    let h = endpoint_host_spec(pairing_address);
    let p0 = SvcSel::NewOnHost(h, base);
    let p1 = SvcSel::OnHost(h);
    let p2 = SvcSel::New(base);
    lemma_svc_picked(ss, p0);
    lemma_svc_picked(ss, p1);
    lemma_svc_picked(ss, p2);
    lemma_svc_picked(ss, SvcSel::Connect);
    let t0 = svc_picked(ss, p0);
    let t1 = svc_picked(ss, p1);
    let t2 = svc_picked(ss, p2);
    if exists|j: int| 0 <= j < ss.len() && is_connect_view(#[trigger] ss[j]) && endpoint_host_spec(ss[j].address) == h && !base.contains(ss[j]) {
        let j = choose|j: int| 0 <= j < ss.len() && is_connect_view(#[trigger] ss[j]) && endpoint_host_spec(ss[j].address) == h && !base.contains(ss[j]);
        assert(svc_picks(p0, ss[j]));
    }
    if exists|j: int| 0 <= j < ss.len() && is_connect_view(#[trigger] ss[j]) && endpoint_host_spec(ss[j].address) == h {
        let j = choose|j: int| 0 <= j < ss.len() && is_connect_view(#[trigger] ss[j]) && endpoint_host_spec(ss[j].address) == h;
        assert(svc_picks(p1, ss[j]));
    }
    if exists|j: int| 0 <= j < ss.len() && is_connect_view(#[trigger] ss[j]) && !base.contains(ss[j]) {
        let j = choose|j: int| 0 <= j < ss.len() && is_connect_view(#[trigger] ss[j]) && !base.contains(ss[j]);
        assert(svc_picks(p2, ss[j]));
    }
    if forall|j: int| 0 <= j < ss.len() && is_connect_view(#[trigger] ss[j]) ==> endpoint_host_spec(ss[j].address) != h {
        if t0.len() > 0 {
            assert(svc_picks(p0, t0[0]));
            let w = choose|w: int| 0 <= w < ss.len() && ss[w] == t0[0];
            assert(is_connect_view(ss[w]));
        }
        if t1.len() > 0 {
            assert(svc_picks(p1, t1[0]));
            let w = choose|w: int| 0 <= w < ss.len() && ss[w] == t1[0];
            assert(is_connect_view(ss[w]));
        }
    }
}

} // verus!
