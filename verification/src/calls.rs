//! What a call gives, in terms of what goes in and what comes out.

use std::sync::Arc;

use vstd::prelude::*;

use crate::clock::UnixTime;
use crate::endpoint::{BmcEndpoint, EndpointMetadata, RackInventory};
use crate::gauges::GaugeFamily;
use crate::inventory::{made, registered, HealthError, InventoryMetrics, ReconcileReport};
use crate::keys::label_key;
use crate::publish::Published;
use crate::rows::Comparable;
use crate::series::{
    ComponentSeries, ContestedRack, RackDomainSeries, RackSeries, SkippedRack, Subsystem,
};
use crate::server::{
    active_connections, is_connection_error, next_step, next_task_step, report_end,
    ActiveConnection, ConnectionEnd, ConnectionReport, Connections, ErrorKind, LoopReport,
    LoopStep, TaskStep,
};
use crate::snapshot::{
    collect_components, collect_rack_domains, collect_racks, find_contested_racks,
    find_skipped_racks,
};

verus! {

use crate::clock::is_reading;
use crate::gauges::{accepted, collected, published, refused, seconds_bits};
use crate::keys::{fnv1a, series_key};
use crate::laws::{
    address_given,
    domain_given,
    is_first_given,
    is_first_number,
    is_last_of,
    is_optional_text,
    is_session,
    is_subsystem,
    is_switch_with_domain,
    law_every_endpoint_has_a_component,
    law_labels_of_an_endpoint,
    law_published_domains,
    law_published_racks,
    law_reported_conflicts,
    law_skipped_racks,
    law_slot_and_tray,
    law_what_endpoints_say,
    names_component,
    reports,
    says_enabled,
    says_primary,
    slot_given,
    speaks_of,
    tray_given,
};
use crate::endpoint::EndpointView;
use crate::inventory::{descriptors_of, law_names_of_the_metrics, law_valid_prefix};
use crate::numerals::{is_session_text, law_session_text};
use crate::rows::{law_sorted_has_no_duplicates, texts, views};
use vstd::utf8::encode_utf8;
use crate::publish::failed_removals;
use crate::scrape::{component_row, is_start_time};
use crate::series::{ComponentView, RackDomainView, RackSeriesView, SkippedRackView};
use crate::snapshot::{lists_contested, skipped_racks};

/// Law: a rack has a series exactly where its creation time is known and its nanoseconds are less
/// than a second; the series has its identifier, its creation time, and the session that these give.
pub proof fn law_from_inventory(rack: RackInventory, r: Option<RackSeries>)
    requires
        call_ensures(RackSeries::from_inventory, (&rack,), r),
    ensures
        r is Some <==> rack.created_seconds is Some && rack.created_nanos is Some && 0
            <= rack.created_nanos->0 < 1_000_000_000,
        r matches Some(series) ==> {
            &&& series.rack_id@ == rack.rack_id@
            &&& Some(series.created_seconds) == rack.created_seconds
            &&& Some(series.created_nanos) == rack.created_nanos
            &&& is_session_text(
                series.session_id@,
                rack.rack_id@,
                series.created_seconds as int,
                series.created_nanos as int,
            )
        },
{
    if let Some(series) = r {
        law_session_text(
            series.session_id@,
            rack.rack_id@,
            series.created_seconds as int,
            series.created_nanos as nat,
        );
    }
}

/// Law: an endpoint that names a component gives a view of it, with the labels that the endpoint
/// and its rack say, in whatever role the endpoint is; one that names none gives nothing.
pub proof fn law_from_endpoint(
    endpoint: BmcEndpoint,
    rack: RackSeries,
    r: Option<ComponentSeries>,
)
    requires
        call_ensures(ComponentSeries::from_endpoint, (&endpoint, &rack), r),
    ensures
        r is Some <==> names_component(endpoint@),
        r matches Some(c) ==> {
            &&& c.rack_id@ == rack.rack_id@
            &&& c.session_id@ == rack.session_id@
            &&& endpoint@.rack_id == Some(rack.rack_id@) ==> speaks_of(endpoint@, c@)
            &&& is_subsystem(endpoint@, c.subsystem)
            &&& c.bmc_mac@ == address_given(endpoint@)
            &&& c.nvl_domain@ == domain_given(endpoint@)
            &&& c.nmxc_enabled == says_enabled(endpoint@)
            &&& c.nmxc_primary == says_primary(endpoint@)
            &&& is_optional_text(c.slot_number@, slot_given(endpoint@))
            &&& is_optional_text(c.tray_index@, tray_given(endpoint@))
        },
{
    law_labels_of_an_endpoint(endpoint@, rack@);
    if let Some(c) = r {
        assert(c@ == endpoint@.component(rack@)->0);
        assert(c@.rack_id == c.rack_id@);
    }
}

/// Law: merging takes up the texts that were missing, sets the flags that the other view sets, and
/// leaves the rest.
pub proof fn law_merge(component: &mut ComponentSeries, other: &ComponentSeries)
    requires
        call_ensures(ComponentSeries::merge, (component, other), ()),
    ensures
        final(component).rack_id@ == old(component).rack_id@,
        final(component).session_id@ == old(component).session_id@,
        final(component).subsystem == old(component).subsystem,
        final(component).component_type@ == old(component).component_type@,
        final(component).component_uid@ == old(component).component_uid@,
        final(component).bmc_mac@ == if old(component).bmc_mac@.len() > 0 {
            old(component).bmc_mac@
        } else {
            other.bmc_mac@
        },
        final(component).nvl_domain@ == if old(component).nvl_domain@.len() > 0 {
            old(component).nvl_domain@
        } else {
            other.nvl_domain@
        },
        final(component).slot_number@ == if old(component).slot_number@.len() > 0 {
            old(component).slot_number@
        } else {
            other.slot_number@
        },
        final(component).tray_index@ == if old(component).tray_index@.len() > 0 {
            old(component).tray_index@
        } else {
            other.tray_index@
        },
        final(component).nmxc_enabled == (old(component).nmxc_enabled || other.nmxc_enabled),
        final(component).nmxc_primary == (old(component).nmxc_primary || other.nmxc_primary),
{
    let before = (*old(component))@;
    let after = (*final(component))@;
    assert(after == before.merged(other@));
    assert(after.rack_id == before.rack_id && after.bmc_mac == before.merged(other@).bmc_mac);
}

/// Law: the label values of a component are its fields, in the order of the label names.
pub proof fn law_component_label_values(component: ComponentSeries, r: [&str; 11])
    requires
        call_ensures(ComponentSeries::label_values, (&component,), r),
    ensures
        r@[0]@ == component.rack_id@ && r@[1]@ == component.session_id@,
        r@[2]@ == match component.subsystem {
            Subsystem::Compute => "compute"@,
            Subsystem::Switch => "switch"@,
            Subsystem::Power => "power"@,
        },
        r@[3]@ == component.component_type@ && r@[4]@ == component.component_uid@,
        r@[5]@ == component.bmc_mac@ && r@[6]@ == component.nvl_domain@,
        r@[7]@ == if component.nmxc_enabled {
            "true"@
        } else {
            "false"@
        },
        r@[8]@ == if component.nmxc_primary {
            "true"@
        } else {
            "false"@
        },
        r@[9]@ == component.slot_number@ && r@[10]@ == component.tray_index@,
{
}

/// Law: the label values of a rack domain and of a rack are their fields, in the order of the label
/// names.
pub proof fn law_rack_label_values(
    domain: RackDomainSeries,
    of_domain: [&str; 3],
    rack: RackSeries,
    of_rack: [&str; 2],
)
    requires
        call_ensures(RackDomainSeries::label_values, (&domain,), of_domain),
        call_ensures(RackSeries::label_values, (&rack,), of_rack),
    ensures
        of_domain@[0]@ == domain.rack_id@ && of_domain@[1]@ == domain.session_id@,
        of_domain@[2]@ == domain.nvl_domain@,
        of_rack@[0]@ == rack.rack_id@ && of_rack@[1]@ == rack.session_id@,
{
}

/// Law: the identity of a component is its rack, its session, its kind and its identifier.
pub proof fn law_identity_of(component: ComponentSeries, r: (String, String, String, String))
    requires
        call_ensures(ComponentSeries::identity, (&component,), r),
    ensures
        r.0@ == component.rack_id@,
        r.1@ == component.session_id@,
        r.2@ == component.component_type@,
        r.3@ == component.component_uid@,
{
}

/// Law: exactly the racks whose creation time is known and valid are collected, each once.
pub proof fn law_collect_racks(racks: &[RackInventory], r: Vec<RackSeries>, q: RackSeriesView)
    requires
        call_ensures(collect_racks, (racks,), r),
    ensures
        views(r@).no_duplicates(),
        views(r@).contains(q) <==> exists|i: int|
            {
                &&& 0 <= i < racks@.len()
                &&& (#[trigger] racks@[i]).rack_id@ == q.rack_id
                &&& is_session(q.session_id, racks@[i]@)
                &&& racks@[i].created_seconds == Some(q.created_seconds)
                &&& racks@[i].created_nanos == Some(q.created_nanos)
            },
{
    law_sorted_has_no_duplicates::<RackSeries>(views(r@));
    law_published_racks(views(racks@), q);
    assert(views(r@).contains(q) == views(r@).to_set().contains(q));
    assert(forall|i: int| 0 <= i < racks@.len() ==> #[trigger] racks@[i]@ == views(racks@)[i]);
    if views(r@).contains(q) {
        let i = choose|i: int|
            {
                &&& 0 <= i < views(racks@).len()
                &&& (#[trigger] views(racks@)[i]).rack_id == q.rack_id
                &&& is_session(q.session_id, views(racks@)[i])
                &&& views(racks@)[i].created_seconds == Some(q.created_seconds)
                &&& views(racks@)[i].created_nanos == Some(q.created_nanos)
            };
        assert(racks@[i]@ == views(racks@)[i]);
    }
    if exists|i: int|
        {
            &&& 0 <= i < racks@.len()
            &&& (#[trigger] racks@[i]).rack_id@ == q.rack_id
            &&& is_session(q.session_id, racks@[i]@)
            &&& racks@[i].created_seconds == Some(q.created_seconds)
            &&& racks@[i].created_nanos == Some(q.created_nanos)
        } {
        let i = choose|i: int|
            {
                &&& 0 <= i < racks@.len()
                &&& (#[trigger] racks@[i]).rack_id@ == q.rack_id
                &&& is_session(q.session_id, racks@[i]@)
                &&& racks@[i].created_seconds == Some(q.created_seconds)
                &&& racks@[i].created_nanos == Some(q.created_nanos)
            };
        assert(views(racks@)[i].rack_id == q.rack_id);
    }
}

/// Law: every endpoint that names a component, in one of the racks, has its component collected: in
/// that rack and the last of its sessions, with the kind and identifier that the endpoint names.
pub proof fn law_collect_components_has_all(
    series: Vec<RackSeries>,
    endpoints: &[Arc<BmcEndpoint>],
    r: Vec<ComponentSeries>,
    e: int,
    rack: int,
)
    requires
        call_ensures(collect_components, (&series, endpoints), r),
        0 <= e < endpoints@.len(),
        0 <= rack < series@.len(),
        endpoints@[e]@.rack_id == Some(series@[rack].rack_id@),
        names_component(endpoints@[e]@),
    ensures
        exists|k: int|
            {
                &&& 0 <= k < r@.len()
                &&& speaks_of(endpoints@[e]@, (#[trigger] r@[k])@)
                &&& is_last_of(views(series@), r@[k].rack_id@, r@[k].session_id@)
            },
{
    let all = views(series@);
    let given = views(endpoints@);
    assert(given[e] == endpoints@[e]@);
    assert(all[rack] == series@[rack]@);
    law_every_endpoint_has_a_component(all, given, e, rack);
    let c = choose|c: ComponentView|
        {
            &&& #[trigger] views(r@).to_set().contains(c)
            &&& speaks_of(given[e], c)
            &&& is_last_of(all, c.rack_id, c.session_id)
        };
    let k = choose|k: int| 0 <= k < views(r@).len() && views(r@)[k] == c;
    assert(r@[k]@ == c);
    assert(c.rack_id == r@[k].rack_id@ && c.session_id == r@[k].session_id@);
}

/// Law: a collected component is what the endpoints say that speak of it: in the last session of
/// its rack, with the subsystem of the first, the first address of a BMC, the first domain, slot
/// and tray that they give, and the NMX-C state that any of them reports. No two are the same
/// component.
pub proof fn law_collect_components_has_no_others(
    series: Vec<RackSeries>,
    endpoints: &[Arc<BmcEndpoint>],
    r: Vec<ComponentSeries>,
    k: int,
)
    requires
        call_ensures(collect_components, (&series, endpoints), r),
        0 <= k < r@.len(),
    ensures
        views(r@).no_duplicates(),
        is_last_of(views(series@), r@[k].rack_id@, r@[k].session_id@),
        exists|i: int|
            {
                &&& 0 <= i < views(endpoints@).len()
                &&& speaks_of(#[trigger] views(endpoints@)[i], r@[k]@)
                &&& is_subsystem(views(endpoints@)[i], r@[k].subsystem)
                &&& forall|j: int|
                    0 <= j < i ==> !speaks_of(#[trigger] views(endpoints@)[j], r@[k]@)
            },
        is_first_given(
            views(endpoints@),
            |e: EndpointView| speaks_of(e, r@[k]@),
            |e: EndpointView| address_given(e),
            r@[k].bmc_mac@,
        ),
        is_first_given(
            views(endpoints@),
            |e: EndpointView| speaks_of(e, r@[k]@),
            |e: EndpointView| domain_given(e),
            r@[k].nvl_domain@,
        ),
        is_first_number(
            views(endpoints@),
            r@[k]@,
            |e: EndpointView| slot_given(e),
            r@[k].slot_number@,
        ),
        is_first_number(
            views(endpoints@),
            r@[k]@,
            |e: EndpointView| tray_given(e),
            r@[k].tray_index@,
        ),
        r@[k].nmxc_enabled <==> exists|i: int|
            0 <= i < views(endpoints@).len() && speaks_of(
                #[trigger] views(endpoints@)[i],
                r@[k]@,
            ) && says_enabled(views(endpoints@)[i]),
        r@[k].nmxc_primary <==> exists|i: int|
            0 <= i < views(endpoints@).len() && speaks_of(
                #[trigger] views(endpoints@)[i],
                r@[k]@,
            ) && says_primary(views(endpoints@)[i]),
{
    let c = r@[k]@;
    law_sorted_has_no_duplicates::<ComponentSeries>(views(r@));
    assert(views(r@)[k] == c);
    assert(views(r@).to_set().contains(c));
    law_what_endpoints_say(views(series@), views(endpoints@), c);
    law_slot_and_tray(views(series@), views(endpoints@), c);
}

/// Law: the domain of a rack is collected, once, exactly where a switch of the rack knows it and
/// every switch of the rack that knows a domain knows that one.
pub proof fn law_collect_rack_domains(
    components: Vec<ComponentSeries>,
    r: Vec<RackDomainSeries>,
    d: RackDomainView,
)
    requires
        call_ensures(collect_rack_domains, (&components,), r),
    ensures
        views(r@).no_duplicates(),
        views(r@).contains(d) <==> {
            &&& exists|i: int|
                0 <= i < components@.len() && reports((#[trigger] components@[i])@, d)
            &&& forall|i: int|
                0 <= i < components@.len() && is_switch_with_domain(
                    (#[trigger] components@[i])@,
                    d.rack_id,
                    d.session_id,
                ) ==> components@[i].nvl_domain@ == d.nvl_domain
        },
{
    let all = views(components@).to_set();
    law_sorted_has_no_duplicates::<RackDomainSeries>(views(r@));
    law_published_domains(all, d);
    assert(views(r@).contains(d) == views(r@).to_set().contains(d));
    assert forall|i: int| 0 <= i < components@.len() implies all.contains(
        (#[trigger] components@[i])@,
    ) && components@[i]@.nvl_domain == components@[i].nvl_domain@ by {
        assert(views(components@)[i] == components@[i]@);
    }
    if exists|x: ComponentView| #[trigger] all.contains(x) && reports(x, d) {
        let x = choose|x: ComponentView| #[trigger] all.contains(x) && reports(x, d);
        let i = choose|i: int| 0 <= i < views(components@).len() && views(components@)[i] == x;
        assert(components@[i]@ == x);
    }
    if forall|i: int|
        0 <= i < components@.len() && is_switch_with_domain(
            (#[trigger] components@[i])@,
            d.rack_id,
            d.session_id,
        ) ==> components@[i].nvl_domain@ == d.nvl_domain {
        assert forall|y: ComponentView| #[trigger]
            all.contains(y) && is_switch_with_domain(y, d.rack_id, d.session_id) implies y.nvl_domain
            == d.nvl_domain by {
            let i = choose|i: int|
                0 <= i < views(components@).len() && views(components@)[i] == y;
            assert(components@[i]@ == y);
        }
    }
}

/// Law: the racks that are found contested are those with two switches that know different domains,
/// and the domains found of one are those that its switches know.
pub proof fn law_find_contested_racks(
    components: Vec<ComponentSeries>,
    r: Vec<ContestedRack>,
    d: RackDomainView,
)
    requires
        call_ensures(find_contested_racks, (&components,), r),
    ensures
        (exists|i: int|
            {
                &&& 0 <= i < views(r@).len()
                &&& (#[trigger] views(r@)[i]).rack_id == d.rack_id
                &&& views(r@)[i].session_id == d.session_id
                &&& views(r@)[i].domains.contains(d.nvl_domain)
            }) <==> {
            &&& exists|x: ComponentView| #[trigger]
                views(components@).to_set().contains(x) && reports(x, d)
            &&& exists|y: ComponentView| #[trigger]
                views(components@).to_set().contains(y) && is_switch_with_domain(
                    y,
                    d.rack_id,
                    d.session_id,
                ) && y.nvl_domain != d.nvl_domain
        },
{
    law_reported_conflicts(views(r@), views(components@).to_set(), d);
}

/// Law: the racks that are found skipped are those whose creation time is known and whose
/// nanoseconds are negative or not less than a second.
pub proof fn law_find_skipped_racks(
    racks: &[RackInventory],
    r: Vec<SkippedRack>,
    s: SkippedRackView,
)
    requires
        call_ensures(find_skipped_racks, (racks,), r),
    ensures
        views(r@).contains(s) <==> exists|i: int|
            {
                &&& 0 <= i < views(racks@).len()
                &&& (#[trigger] views(racks@)[i]).rack_id == s.rack_id
                &&& views(racks@)[i].created_seconds is Some
                &&& views(racks@)[i].created_nanos == Some(s.created_nanos)
                &&& s.created_nanos < 0 || s.created_nanos >= 1_000_000_000
            },
{
    law_skipped_racks(views(racks@), s);
}

/// Law: a rack is written with its identifier and its session as labels, at their key, and its
/// value is its creation time, seconds and nanoseconds; what stands at other keys stays.
pub proof fn law_publish_rack(rack: RackSeries, family: &mut GaugeFamily, other: u64)
    requires
        call_ensures(RackSeries::publish, (&rack, family), ()),
    ensures
        ({
            let labels = seq![rack.rack_id@, rack.session_id@];
            let key = series_key(labels);
            &&& published(*final(family)).contains_key(key)
            &&& is_start_time(
                published(*final(family))[key].1,
                rack.created_seconds,
                rack.created_nanos,
            )
            &&& !published(*old(family)).contains_key(key) ==> published(*final(family))[key].0
                == labels
            &&& published(*old(family)).contains_key(key) ==> published(*final(family))[key].0
                == published(*old(family))[key].0
            &&& other != key ==> (published(*final(family)).contains_key(other) <==> published(*old(family)).contains_key(other))
            &&& other != key && published(*old(family)).contains_key(other) ==> published(*final(family))[other] == published(*old(family))[other]
        }),
{
    assert(RackSeries::row(rack@) =~= seq![rack.rack_id@, rack.session_id@]);
}

/// Law: the domain of a rack is written with its three labels, at their key, and the value one.
pub proof fn law_publish_domain(domain: RackDomainSeries, family: &mut GaugeFamily)
    requires
        call_ensures(RackDomainSeries::publish, (&domain, family), ()),
    ensures
        ({
            let labels = seq![domain.rack_id@, domain.session_id@, domain.nvl_domain@];
            let key = series_key(labels);
            &&& published(*final(family)).contains_key(key)
            &&& published(*final(family))[key].1 == seconds_bits(1, 0)
            &&& !published(*old(family)).contains_key(key) ==> published(*final(family))[key].0
                == labels
        }),
{
    assert(RackDomainSeries::row(domain@) =~= seq![
        domain.rack_id@,
        domain.session_id@,
        domain.nvl_domain@,
    ]);
}

/// Law: a component is written with its labels, at their key, and the value one.
pub proof fn law_publish_component(component: ComponentSeries, family: &mut GaugeFamily)
    requires
        call_ensures(ComponentSeries::publish, (&component, family), ()),
    ensures
        ({
            let labels = component_row(component@);
            let key = series_key(labels);
            &&& published(*final(family)).contains_key(key)
            &&& published(*final(family))[key].1 == seconds_bits(1, 0)
            &&& !published(*old(family)).contains_key(key) ==> published(*final(family))[key].0
                == labels
        }),
{
    assert(ComponentSeries::row(component@) =~= component_row(component@));
}

/// Law: metrics that were made have the names, help texts and labels of the inventory, show
/// nothing yet, and are those that the registry gathers; only an invalid prefix makes them fail to
/// be made.
pub proof fn law_new_metrics(
    registry: prometheus::Registry,
    prefix: &str,
    r: Result<InventoryMetrics, HealthError>,
)
    requires
        call_ensures(InventoryMetrics::new, (&registry, prefix), r),
    ensures
        (r is Err && r->Err_0 is InvalidMetric) <==> !({
            &&& prefix@.len() > 0 ==> !('0' <= prefix@[0] <= '9')
            &&& forall|i: int|
                0 <= i < prefix@.len() ==> ('a' <= #[trigger] prefix@[i] <= 'z') || ('A'
                    <= prefix@[i] <= 'Z') || ('0' <= prefix@[i] <= '9') || prefix@[i] == '_'
                    || prefix@[i] == ':'
        }),
        (r is Err && r->Err_0 is Registration) ==> exists|i: int|
            {
                &&& 0 <= i < 5
                &&& refused(registry).contains(#[trigger] descriptors_of(prefix@)[i])
                &&& forall|j: int|
                    0 <= j < i ==> accepted(registry).contains(
                        #[trigger] descriptors_of(prefix@)[j],
                    )
            },
        r matches Ok(metrics) ==> {
            &&& metrics.descriptors() == descriptors_of(prefix@)
            &&& metrics.component_samples().dom() == Set::<u64>::empty()
            &&& metrics.rack_domain_samples().dom() == Set::<u64>::empty()
            &&& metrics.rack_session_samples().dom() == Set::<u64>::empty()
            &&& metrics.last_success() == seconds_bits(0, 0)
            &&& metrics.failures() == 0
            &&& metrics.descriptors().len() == 5
            &&& metrics.descriptors()[0].0 == prefix@ + "_component_inventory_info"@
            &&& metrics.descriptors()[1].0 == prefix@ + "_rack_nvlink_domain_info"@
            &&& metrics.descriptors()[2].0 == prefix@ + "_rack_session_start_time_seconds"@
            &&& metrics.descriptors()[3].0 == prefix@ + "_inventory_last_success_time_seconds"@
            &&& metrics.descriptors()[4].0 == prefix@ + "_inventory_refresh_failures_total"@
            &&& metrics.handles().len() == 5
            &&& forall|i: int|
                0 <= i < 5 ==> accepted(registry).contains(#[trigger] metrics.descriptors()[i])
            &&& forall|i: int|
                0 <= i < 5 ==> collected(registry).contains(#[trigger] metrics.handles()[i])
        },
{
    law_valid_prefix(prefix@);
    law_names_of_the_metrics(prefix@);
    if let Ok(metrics) = r {
        assert(metrics.component_samples().dom() =~= Set::<u64>::empty());
        assert(metrics.rack_domain_samples().dom() =~= Set::<u64>::empty());
        assert(metrics.rack_session_samples().dom() =~= Set::<u64>::empty());
    }
}

/// Law: a reconciliation publishes the snapshot in the place of the one before, stamps it with the
/// time it was given, counts no failure, and reports the racks that were skipped, the racks that
/// are contested, and the removals that failed.
pub proof fn law_reconcile_at(
    metrics: &mut InventoryMetrics,
    racks: &[RackInventory],
    endpoints: &[Arc<BmcEndpoint>],
    observed_at: UnixTime,
    r: ReconcileReport,
)
    requires
        call_ensures(InventoryMetrics::reconcile_at, (metrics, racks, endpoints, observed_at), r),
    ensures
        final(metrics).publishes_after(*old(metrics), views(racks@), views(endpoints@)),
        final(metrics).shows_snapshot(),
        final(metrics).last_success() == seconds_bits(observed_at.seconds, observed_at.nanos),
        final(metrics).failures() == old(metrics).failures(),
        final(metrics).handles() == old(metrics).handles(),
        final(metrics).descriptors() == old(metrics).descriptors(),
        views(r.skipped_racks@) == skipped_racks(views(racks@)),
        lists_contested(views(r.contested_racks@), final(metrics).components()),
        views(r.components_not_removed@) == failed_removals::<ComponentSeries>(
            old(metrics).component_samples(),
            old(metrics).component_list(),
            final(metrics).component_list(),
        ),
        views(r.rack_domains_not_removed@) == failed_removals::<RackDomainSeries>(
            old(metrics).rack_domain_samples(),
            old(metrics).rack_domain_list(),
            final(metrics).rack_domain_list(),
        ),
        views(r.rack_sessions_not_removed@) == failed_removals::<RackSeries>(
            old(metrics).rack_session_samples(),
            old(metrics).rack_list(),
            final(metrics).rack_list(),
        ),
{
}

/// Law: a reconciliation as of now is stamped with what the system clock reads in the call, or the
/// epoch where the clock stands before it.
pub proof fn law_reconcile(
    metrics: &mut InventoryMetrics,
    racks: &[RackInventory],
    endpoints: &[Arc<BmcEndpoint>],
    r: ReconcileReport,
)
    requires
        call_ensures(InventoryMetrics::reconcile, (metrics, racks, endpoints), r),
    ensures
        final(metrics).publishes_after(*old(metrics), views(racks@), views(endpoints@)),
        final(metrics).shows_snapshot(),
        ({
            ||| is_reading(None) && final(metrics).last_success() == seconds_bits(0, 0)
            ||| exists|seconds: u64, nanos: u32|
                is_reading(Some((seconds, nanos))) && final(metrics).last_success()
                    == #[trigger] seconds_bits(seconds, nanos)
        }),
        final(metrics).failures() == old(metrics).failures(),
        final(metrics).handles() == old(metrics).handles(),
        final(metrics).descriptors() == old(metrics).descriptors(),
        views(r.skipped_racks@) == skipped_racks(views(racks@)),
        lists_contested(views(r.contested_racks@), final(metrics).components()),
        views(r.components_not_removed@) == failed_removals::<ComponentSeries>(
            old(metrics).component_samples(),
            old(metrics).component_list(),
            final(metrics).component_list(),
        ),
        views(r.rack_domains_not_removed@) == failed_removals::<RackDomainSeries>(
            old(metrics).rack_domain_samples(),
            old(metrics).rack_domain_list(),
            final(metrics).rack_domain_list(),
        ),
        views(r.rack_sessions_not_removed@) == failed_removals::<RackSeries>(
            old(metrics).rack_session_samples(),
            old(metrics).rack_list(),
            final(metrics).rack_list(),
        ),
{
}

/// Law: a failed refresh is counted, and leaves what is published, the snapshot and the time of the
/// last success as they were.
pub proof fn law_record_refresh_failure(metrics: &mut InventoryMetrics)
    requires
        call_ensures(InventoryMetrics::record_refresh_failure, (metrics,), ()),
    ensures
        old(metrics).failures() < u64::MAX ==> final(metrics).failures() == old(metrics).failures()
            + 1,
        old(metrics).failures() == u64::MAX ==> final(metrics).failures() == 0,
        final(metrics).component_samples() == old(metrics).component_samples(),
        final(metrics).rack_domain_samples() == old(metrics).rack_domain_samples(),
        final(metrics).rack_session_samples() == old(metrics).rack_session_samples(),
        final(metrics).components() == old(metrics).components(),
        final(metrics).rack_domains() == old(metrics).rack_domains(),
        final(metrics).racks() == old(metrics).racks(),
        final(metrics).last_success() == old(metrics).last_success(),
        final(metrics).handles() == old(metrics).handles(),
{
}

/// Law: an error in making a metric and one in registering it are told apart, and kept.
pub proof fn law_errors_are_told_apart<T>(
    making: Result<T, prometheus::Error>,
    of_making: Result<T, HealthError>,
    registering: Result<(), prometheus::Error>,
    of_registering: Result<(), HealthError>,
)
    requires
        call_ensures(made::<T>, (making,), of_making),
        call_ensures(registered, (registering,), of_registering),
    ensures
        making matches Ok(metric) ==> of_making == Ok::<T, HealthError>(metric),
        making matches Err(error) ==> of_making == Err::<T, HealthError>(
            HealthError::InvalidMetric(error),
        ),
        registering is Ok ==> of_registering is Ok,
        registering matches Err(error) ==> of_registering == Err::<(), HealthError>(
            HealthError::Registration(error),
        ),
{
}

/// Law: every switch is an NVLink switch, and the other components name their kind.
pub proof fn law_component_type(metadata: EndpointMetadata, r: &str)
    requires
        call_ensures(EndpointMetadata::component_type, (&metadata,), r),
    ensures
        metadata matches EndpointMetadata::Machine(machine) ==> r@ == machine.component_type@,
        metadata is Switch ==> r@ == "nvlink_switch"@,
        metadata matches EndpointMetadata::PowerShelf(shelf) ==> r@ == shelf.component_type@,
{
}

/// Law: the key of a row of labels is the hash of the bytes of its values, run together.
pub proof fn law_label_key<const N: usize>(labels: [&str; N], r: u64)
    requires
        call_ensures(label_key::<N>, (&labels,), r),
    ensures
        r == fnv1a(
            encode_utf8(Seq::new(N as nat, |i: int| labels@[i]@).flatten()),
        ),
{
    assert(texts(labels@) =~= Seq::new(N as nat, |i: int| labels@[i]@));
}

/// Law: at first no connection is active.
pub proof fn law_no_connections(connections: Connections)
    requires
        call_ensures(Connections::new, (), connections),
    ensures
        connections.active() == 0,
{
}

/// Law: opening a connection makes one more, and the number that is sampled is that number.
pub proof fn law_open_connection(connections: &mut Connections, slot: ActiveConnection, n: usize)
    requires
        call_ensures(ActiveConnection::open, (connections,), slot),
        call_ensures(active_connections, (&*final(connections),), n),
    ensures
        old(connections).active() < usize::MAX ==> n == old(connections).active() + 1,
        old(connections).active() == usize::MAX ==> n == 0,
{
}

/// Law: closing a connection makes one less.
pub proof fn law_close_connection(connections: &mut Connections, slot: ActiveConnection)
    requires
        call_ensures(ActiveConnection::close, (slot, connections), ()),
    ensures
        old(connections).active() > 0 ==> final(connections).active() == old(connections).active()
            - 1,
        old(connections).active() == 0 ==> final(connections).active() == usize::MAX,
{
}

/// Law: an error is one of the connection where that was refused, aborted or reset.
pub proof fn law_is_connection_error(kind: ErrorKind, r: bool)
    requires
        call_ensures(is_connection_error, (&kind,), r),
    ensures
        r <==> matches!(
            kind,
            ErrorKind::ConnectionRefused | ErrorKind::ConnectionAborted
                | ErrorKind::ConnectionReset
        ),
{
}

/// Law: what the loop does after each step, and what it reports.
pub proof fn law_loop(step: LoopStep, failure: Option<ErrorKind>, r: (LoopStep, LoopReport))
    requires
        call_ensures(next_step, (step, failure), r),
    ensures
        step == LoopStep::Accept && failure is None ==> r == (
            LoopStep::EnableKeepalive,
            LoopReport::Silent,
        ),
        step == LoopStep::Accept ==> (failure matches Some(kind) ==> r == if matches!(
            kind,
            ErrorKind::ConnectionRefused | ErrorKind::ConnectionAborted
                | ErrorKind::ConnectionReset
        ) {
            (LoopStep::Accept, LoopReport::Silent)
        } else {
            (LoopStep::Wait { seconds: 1 }, LoopReport::AcceptFailed)
        }),
        step is Wait ==> r == (LoopStep::Accept, LoopReport::Silent),
        step == LoopStep::EnableKeepalive ==> r == (
            LoopStep::SetUserTimeout,
            if failure is Some {
                LoopReport::KeepaliveFailed
            } else {
                LoopReport::Silent
            },
        ),
        step == LoopStep::SetUserTimeout ==> r == (
            LoopStep::Serve,
            if failure is Some {
                LoopReport::UserTimeoutFailed
            } else {
                LoopReport::Silent
            },
        ),
        step == LoopStep::Serve ==> r == (LoopStep::Accept, LoopReport::Silent),
{
}

/// Law: what the task of a connection does after each step: once the connection ended it reports
/// how, then gives the slot back, and is finished.
pub proof fn law_task(
    step: TaskStep,
    connections: Connections,
    end: ConnectionEnd,
    report: ConnectionReport,
    r: TaskStep,
)
    requires
        call_ensures(report_end, (&connections, end), report),
        call_ensures(next_task_step, (step, &connections, end), r),
    ensures
        end == ConnectionEnd::Completed ==> report == ConnectionReport::Silent,
        end == ConnectionEnd::TimedOut ==> report == (ConnectionReport::HeaderReadTimedOut {
            active_connection_count: connections.active(),
        }),
        end == ConnectionEnd::Failed ==> report == ConnectionReport::ClosedWithError,
        step == TaskStep::Serve ==> r == TaskStep::Report(report),
        step is Report ==> r == TaskStep::Release,
        step == TaskStep::Release ==> r == TaskStep::Finished,
        step == TaskStep::Finished ==> r == TaskStep::Finished,
{
}

} // verus!
