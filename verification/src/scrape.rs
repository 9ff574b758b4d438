//! What a scrape shows once a snapshot is published, in terms of the racks and endpoints of the
//! snapshot.

use vstd::prelude::*;

use crate::inventory::InventoryMetrics;
use crate::publish::Published;
use crate::rows::Comparable;
use crate::series::{ComponentSeries, RackDomainSeries, RackSeries, Subsystem};

verus! {

use crate::endpoint::{EndpointView, RackInventoryView};
use crate::gauges::{difference_bits, seconds_bits, Sample};
use crate::keys::series_key;
use crate::laws::{
    is_dated,
    is_last_session,
    is_session,
    is_switch_with_domain,
    law_every_endpoint_is_published,
    law_published_domains,
    law_published_racks,
    law_what_endpoints_say_is_published,
    names_component,
    reports,
    speaks_of,
};
use crate::numerals::law_session_text;
use crate::publish::{sample, samples_of, shows};
use crate::series::{
    ComponentView,
    RackDomainView,
    RackSeriesView,
};
use crate::snapshot::{desired_components, desired_racks, law_rack_labels_identify};

/// The row of a component: its label values, in the order of their names.
pub open spec fn component_row(c: ComponentView) -> Seq<Seq<char>> {
    seq![
        c.rack_id,
        c.session_id,
        match c.subsystem {
            Subsystem::Compute => "compute"@,
            Subsystem::Switch => "switch"@,
            Subsystem::Power => "power"@,
        },
        c.component_type,
        c.component_uid,
        c.bmc_mac,
        c.nvl_domain,
        if c.nmxc_enabled {
            "true"@
        } else {
            "false"@
        },
        if c.nmxc_primary {
            "true"@
        } else {
            "false"@
        },
        c.slot_number,
        c.tray_index,
    ]
}

/// The row of a rack domain.
pub open spec fn domain_row(d: RackDomainView) -> Seq<Seq<char>> {
    seq![d.rack_id, d.session_id, d.nvl_domain]
}

/// The value of a creation time, in seconds since the epoch. Before the epoch it is the fraction of
/// a second less the whole seconds.
pub open spec fn is_start_time(bits: u64, seconds: i64, nanos: i32) -> bool {
    &&& seconds >= 0 ==> bits == seconds_bits(seconds as u64, nanos as u32)
    &&& seconds < 0 ==> bits == difference_bits(
        seconds_bits(0, nanos as u32),
        seconds_bits((-seconds) as u64, 0),
    )
}

/// Samples that are shown are those of a series that is wanted; where no other has its key, it is
/// shown with its labels and its value.
proof fn lemma_shown<S: Published>(held: Map<u64, Sample>, models: Set<S::V>, m: S::V)
    requires
        shows(held, samples_of::<S>(models)),
        models.contains(m),
    ensures
        held.contains_key(series_key(S::row(m))),
        (forall|q: S::V| #[trigger]
            models.contains(q) && series_key(S::row(q)) == series_key(S::row(m)) ==> q == m)
            ==> held[series_key(S::row(m))] == (S::row(m), S::bits(m)),
{
    let wanted = samples_of::<S>(models);
    let key = series_key(S::row(m));
    assert(sample::<S>(m) == (S::row(m), S::bits(m)));
    assert(wanted.contains(sample::<S>(m)));
    if forall|q: S::V| #[trigger]
        models.contains(q) && series_key(S::row(q)) == series_key(S::row(m)) ==> q == m {
        let a = choose|s: Sample| #[trigger]
            wanted.contains(s) && series_key(s.0) == key && held[key].0 == s.0;
        let b = choose|s: Sample| #[trigger]
            wanted.contains(s) && series_key(s.0) == key && held[key].1 == s.1;
        assert(held.contains_key(key));
        assert(wanted.contains(a) && wanted.contains(b));
        let p = choose|q: S::V| #[trigger] models.contains(q) && sample::<S>(q) == a;
        let q = choose|q: S::V| #[trigger] models.contains(q) && sample::<S>(q) == b;
        assert(models.contains(p) && models.contains(q));
        assert(p == m && q == m);
    }
}

/// What is shown at a key has the labels of a series that is wanted, and the value of one with the
/// same key.
proof fn lemma_only_wanted<S: Published>(held: Map<u64, Sample>, models: Set<S::V>, key: u64)
    requires
        shows(held, samples_of::<S>(models)),
        held.contains_key(key),
    ensures
        exists|m: S::V| #[trigger]
            models.contains(m) && series_key(S::row(m)) == key && held[key].0 == S::row(m),
        exists|m: S::V| #[trigger]
            models.contains(m) && series_key(S::row(m)) == key && held[key].1 == S::bits(m),
{
    let wanted = samples_of::<S>(models);
    let a = choose|s: Sample| #[trigger]
        wanted.contains(s) && series_key(s.0) == key && held[key].0 == s.0;
    let b = choose|s: Sample| #[trigger]
        wanted.contains(s) && series_key(s.0) == key && held[key].1 == s.1;
    assert(wanted.contains(a) && wanted.contains(b));
    let p = choose|q: S::V| #[trigger] models.contains(q) && sample::<S>(q) == a;
    let q = choose|q: S::V| #[trigger] models.contains(q) && sample::<S>(q) == b;
    assert(models.contains(p) && sample::<S>(p) == (S::row(p), S::bits(p)));
    assert(models.contains(q) && sample::<S>(q) == (S::row(q), S::bits(q)));
}

/// The session of a published rack is the one that its creation time gives.
proof fn lemma_published_rack_wf(racks: Seq<RackInventoryView>, r: RackSeriesView)
    requires
        desired_racks(racks).contains(r),
    ensures
        r.wf(),
{
    law_published_racks(racks, r);
    let i = choose|i: int|
        {
            &&& 0 <= i < racks.len()
            &&& (#[trigger] racks[i]).rack_id == r.rack_id
            &&& is_session(r.session_id, racks[i])
            &&& racks[i].created_seconds == Some(r.created_seconds)
            &&& racks[i].created_nanos == Some(r.created_nanos)
        };
    law_session_text(
        r.session_id,
        r.rack_id,
        r.created_seconds as int,
        r.created_nanos as nat,
    );
}

/// Law: every rack whose creation time is known and valid is shown with its identifier and its
/// session, and its value is its creation time, seconds and nanoseconds, where no other rack that
/// is shown has the same key.
pub proof fn law_rack_is_shown(
    metrics: InventoryMetrics,
    before: InventoryMetrics,
    racks: Seq<RackInventoryView>,
    endpoints: Seq<EndpointView>,
    i: int,
    session: Seq<char>,
)
    requires
        metrics.publishes_after(before, racks, endpoints),
        metrics.shows_snapshot(),
        0 <= i < racks.len(),
        is_session(session, racks[i]),
    ensures
        metrics.rack_session_samples().contains_key(series_key(seq![racks[i].rack_id, session])),
        (forall|j: int, other: Seq<char>|
            0 <= j < racks.len() && #[trigger] is_session(other, racks[j]) && series_key(
                seq![racks[j].rack_id, other],
            ) == series_key(seq![racks[i].rack_id, session]) ==> racks[j].rack_id
                == racks[i].rack_id && other == session) ==> {
            let shown = metrics.rack_session_samples()[series_key(
                seq![racks[i].rack_id, session],
            )];
            &&& shown.0 == seq![racks[i].rack_id, session]
            &&& is_start_time(shown.1, racks[i].created_seconds->0, racks[i].created_nanos->0)
        },
{
    let r = RackSeriesView {
        rack_id: racks[i].rack_id,
        session_id: session,
        created_seconds: racks[i].created_seconds->0,
        created_nanos: racks[i].created_nanos->0,
    };
    law_published_racks(racks, r);
    assert(metrics.racks().contains(r));
    lemma_published_rack_wf(racks, r);
    lemma_shown::<RackSeries>(metrics.rack_session_samples(), metrics.racks(), r);
    assert(RackSeries::row(r) =~= seq![racks[i].rack_id, session]);
    if forall|j: int, other: Seq<char>|
        0 <= j < racks.len() && #[trigger] is_session(other, racks[j]) && series_key(
            seq![racks[j].rack_id, other],
        ) == series_key(seq![racks[i].rack_id, session]) ==> racks[j].rack_id == racks[i].rack_id
            && other == session {
        assert forall|q: RackSeriesView| #[trigger]
            metrics.racks().contains(q) && series_key(RackSeries::row(q)) == series_key(
                RackSeries::row(r),
            ) implies q == r by {
            law_published_racks(racks, q);
            lemma_published_rack_wf(racks, q);
            let j = choose|j: int|
                {
                    &&& 0 <= j < racks.len()
                    &&& (#[trigger] racks[j]).rack_id == q.rack_id
                    &&& is_session(q.session_id, racks[j])
                    &&& racks[j].created_seconds == Some(q.created_seconds)
                    &&& racks[j].created_nanos == Some(q.created_nanos)
                };
            assert(RackSeries::row(q) =~= seq![racks[j].rack_id, q.session_id]);
            assert(is_session(q.session_id, racks[j]));
            assert(q.labels() =~= r.labels());
            law_rack_labels_identify(q, r);
        }
    }
}

/// Law: nothing but the racks of the snapshot is shown as a rack: each sample has the identifier
/// and the session of one of them, and the creation time of one with the same key.
pub proof fn law_only_racks_are_shown(
    metrics: InventoryMetrics,
    before: InventoryMetrics,
    racks: Seq<RackInventoryView>,
    endpoints: Seq<EndpointView>,
    key: u64,
)
    requires
        metrics.publishes_after(before, racks, endpoints),
        metrics.shows_snapshot(),
        metrics.rack_session_samples().contains_key(key),
    ensures
        exists|i: int, session: Seq<char>|
            {
                &&& 0 <= i < racks.len()
                &&& #[trigger] is_session(session, racks[i])
                &&& series_key(seq![racks[i].rack_id, session]) == key
                &&& metrics.rack_session_samples()[key].0 == seq![racks[i].rack_id, session]
            },
        exists|i: int, session: Seq<char>|
            {
                &&& 0 <= i < racks.len()
                &&& #[trigger] is_session(session, racks[i])
                &&& series_key(seq![racks[i].rack_id, session]) == key
                &&& is_start_time(
                    metrics.rack_session_samples()[key].1,
                    racks[i].created_seconds->0,
                    racks[i].created_nanos->0,
                )
            },
{
    let held = metrics.rack_session_samples();
    lemma_only_wanted::<RackSeries>(held, metrics.racks(), key);
    let a = choose|m: RackSeriesView| #[trigger]
        metrics.racks().contains(m) && series_key(RackSeries::row(m)) == key && held[key].0
            == RackSeries::row(m);
    let b = choose|m: RackSeriesView| #[trigger]
        metrics.racks().contains(m) && series_key(RackSeries::row(m)) == key && held[key].1
            == RackSeries::bits(m);
    assert(metrics.racks().contains(a) && metrics.racks().contains(b));
    law_published_racks(racks, a);
    law_published_racks(racks, b);
    let i = choose|i: int|
        {
            &&& 0 <= i < racks.len()
            &&& (#[trigger] racks[i]).rack_id == a.rack_id
            &&& is_session(a.session_id, racks[i])
            &&& racks[i].created_seconds == Some(a.created_seconds)
            &&& racks[i].created_nanos == Some(a.created_nanos)
        };
    assert(RackSeries::row(a) =~= seq![racks[i].rack_id, a.session_id]);
    assert(is_session(a.session_id, racks[i]));
    let j = choose|i: int|
        {
            &&& 0 <= i < racks.len()
            &&& (#[trigger] racks[i]).rack_id == b.rack_id
            &&& is_session(b.session_id, racks[i])
            &&& racks[i].created_seconds == Some(b.created_seconds)
            &&& racks[i].created_nanos == Some(b.created_nanos)
        };
    assert(RackSeries::row(b) =~= seq![racks[j].rack_id, b.session_id]);
    assert(is_session(b.session_id, racks[j]));
}

/// Law: a component of the snapshot is shown, with all its labels and the value one where no other
/// component has the same key.
pub proof fn law_component_is_shown(metrics: InventoryMetrics, c: ComponentView)
    requires
        metrics.shows_snapshot(),
        metrics.components().contains(c),
    ensures
        metrics.component_samples().contains_key(series_key(component_row(c))),
        (forall|other: ComponentView| #[trigger]
            metrics.components().contains(other) && series_key(component_row(other))
                == series_key(component_row(c)) ==> other == c) ==> metrics.component_samples()[
        series_key(component_row(c))] == (component_row(c), seconds_bits(1, 0)),
{
    assert forall|m: ComponentView| #[trigger]
        component_row(m) == ComponentSeries::row(m) by {
        assert(component_row(m) =~= m.labels());
    }
    assert(component_row(c) == ComponentSeries::row(c));
    lemma_shown::<ComponentSeries>(metrics.component_samples(), metrics.components(), c);
    if forall|other: ComponentView| #[trigger]
        metrics.components().contains(other) && series_key(component_row(other)) == series_key(
            component_row(c),
        ) ==> other == c {
        assert forall|q: ComponentView| #[trigger]
            metrics.components().contains(q) && series_key(ComponentSeries::row(q)) == series_key(
                ComponentSeries::row(c),
            ) implies q == c by {
            assert(component_row(q) == ComponentSeries::row(q));
        }
    }
}

/// Law: nothing but the components of the snapshot is shown as a component: each sample has the
/// labels of one of them, and the value one.
pub proof fn law_only_components_are_shown(metrics: InventoryMetrics, key: u64)
    requires
        metrics.shows_snapshot(),
        metrics.component_samples().contains_key(key),
    ensures
        exists|c: ComponentView| #[trigger]
            metrics.components().contains(c) && series_key(component_row(c)) == key
                && metrics.component_samples()[key] == (component_row(c), seconds_bits(1, 0)),
{
    let held = metrics.component_samples();
    lemma_only_wanted::<ComponentSeries>(held, metrics.components(), key);
    let a = choose|m: ComponentView| #[trigger]
        metrics.components().contains(m) && series_key(ComponentSeries::row(m)) == key
            && held[key].0 == ComponentSeries::row(m);
    let b = choose|m: ComponentView| #[trigger]
        metrics.components().contains(m) && series_key(ComponentSeries::row(m)) == key
            && held[key].1 == ComponentSeries::bits(m);
    assert(component_row(a) =~= a.labels());
    assert(metrics.components().contains(a) && held[key] == (
        component_row(a),
        seconds_bits(1, 0),
    ));
}

/// Law: every endpoint that names a component, in a rack with a session, has its component shown:
/// in that rack and its last session, with the kind and the identifier that the endpoint names.
pub proof fn law_every_endpoint_is_shown(
    metrics: InventoryMetrics,
    before: InventoryMetrics,
    racks: Seq<RackInventoryView>,
    endpoints: Seq<EndpointView>,
    e: int,
    rack: int,
)
    requires
        metrics.publishes_after(before, racks, endpoints),
        metrics.shows_snapshot(),
        0 <= e < endpoints.len(),
        0 <= rack < racks.len(),
        endpoints[e].rack_id == Some(racks[rack].rack_id),
        is_dated(racks[rack]),
        names_component(endpoints[e]),
    ensures
        exists|c: ComponentView|
            {
                &&& #[trigger] metrics.components().contains(c)
                &&& speaks_of(endpoints[e], c)
                &&& is_last_session(racks, c.rack_id, c.session_id)
                &&& metrics.component_samples().contains_key(series_key(component_row(c)))
            },
{
    law_every_endpoint_is_published(racks, endpoints, e, rack);
    let c = choose|c: ComponentView|
        {
            &&& #[trigger] desired_components(racks, endpoints).contains(c)
            &&& speaks_of(endpoints[e], c)
            &&& is_last_session(racks, c.rack_id, c.session_id)
        };
    assert(metrics.components().contains(c));
    law_component_is_shown(metrics, c);
}

/// Law: every component that is shown is one that an endpoint of the snapshot speaks of, in the
/// last session of its rack.
pub proof fn law_shown_component_has_an_endpoint(
    metrics: InventoryMetrics,
    before: InventoryMetrics,
    racks: Seq<RackInventoryView>,
    endpoints: Seq<EndpointView>,
    c: ComponentView,
)
    requires
        metrics.publishes_after(before, racks, endpoints),
        metrics.components().contains(c),
    ensures
        is_last_session(racks, c.rack_id, c.session_id),
        exists|i: int| 0 <= i < endpoints.len() && speaks_of(#[trigger] endpoints[i], c),
{
    law_what_endpoints_say_is_published(racks, endpoints, c);
}

/// Law: the domain of a rack is shown, with the value one where no other has the same key, where a
/// switch of the snapshot in that rack and session knows it and no such switch knows another.
pub proof fn law_domain_is_shown(
    metrics: InventoryMetrics,
    before: InventoryMetrics,
    racks: Seq<RackInventoryView>,
    endpoints: Seq<EndpointView>,
    x: ComponentView,
    d: RackDomainView,
)
    requires
        metrics.publishes_after(before, racks, endpoints),
        metrics.shows_snapshot(),
        metrics.components().contains(x),
        reports(x, d),
        forall|y: ComponentView| #[trigger]
            metrics.components().contains(y) && is_switch_with_domain(y, d.rack_id, d.session_id)
                ==> y.nvl_domain == d.nvl_domain,
    ensures
        metrics.rack_domains().contains(d),
        metrics.rack_domain_samples().contains_key(series_key(domain_row(d))),
        (forall|other: RackDomainView| #[trigger]
            metrics.rack_domains().contains(other) && series_key(domain_row(other)) == series_key(
                domain_row(d),
            ) ==> other == d) ==> metrics.rack_domain_samples()[series_key(domain_row(d))] == (
            domain_row(d),
            seconds_bits(1, 0),
        ),
{
    law_published_domains(metrics.components(), d);
    assert(RackDomainSeries::row(d) =~= domain_row(d));
    lemma_shown::<RackDomainSeries>(metrics.rack_domain_samples(), metrics.rack_domains(), d);
    if forall|other: RackDomainView| #[trigger]
        metrics.rack_domains().contains(other) && series_key(domain_row(other)) == series_key(
            domain_row(d),
        ) ==> other == d {
        assert forall|q: RackDomainView| #[trigger]
            metrics.rack_domains().contains(q) && series_key(RackDomainSeries::row(q))
                == series_key(RackDomainSeries::row(d)) implies q == d by {
            assert(RackDomainSeries::row(q) =~= domain_row(q));
        }
    }
}

/// Law: nothing else is shown as the domain of a rack: each sample has the labels of a domain that
/// a switch of the snapshot knows and that no other switch of its rack contests, and the value one.
pub proof fn law_only_agreed_domains_are_shown(
    metrics: InventoryMetrics,
    before: InventoryMetrics,
    racks: Seq<RackInventoryView>,
    endpoints: Seq<EndpointView>,
    key: u64,
)
    requires
        metrics.publishes_after(before, racks, endpoints),
        metrics.shows_snapshot(),
        metrics.rack_domain_samples().contains_key(key),
    ensures
        exists|d: RackDomainView|
            {
                &&& #[trigger] metrics.rack_domains().contains(d)
                &&& series_key(domain_row(d)) == key
                &&& metrics.rack_domain_samples()[key] == (domain_row(d), seconds_bits(1, 0))
                &&& exists|x: ComponentView| #[trigger]
                    metrics.components().contains(x) && reports(x, d)
                &&& forall|y: ComponentView| #[trigger]
                    metrics.components().contains(y) && is_switch_with_domain(
                        y,
                        d.rack_id,
                        d.session_id,
                    ) ==> y.nvl_domain == d.nvl_domain
            },
{
    let held = metrics.rack_domain_samples();
    lemma_only_wanted::<RackDomainSeries>(held, metrics.rack_domains(), key);
    let a = choose|m: RackDomainView| #[trigger]
        metrics.rack_domains().contains(m) && series_key(RackDomainSeries::row(m)) == key
            && held[key].0 == RackDomainSeries::row(m);
    let b = choose|m: RackDomainView| #[trigger]
        metrics.rack_domains().contains(m) && series_key(RackDomainSeries::row(m)) == key
            && held[key].1 == RackDomainSeries::bits(m);
    assert(RackDomainSeries::row(a) =~= domain_row(a));
    law_published_domains(metrics.components(), a);
    assert(metrics.rack_domains().contains(a));
}

} // verus!
