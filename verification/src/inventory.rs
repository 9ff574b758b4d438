//! Publishes the latest snapshot of the inventory as Prometheus series.

use std::sync::Arc;

use vstd::prelude::*;
use vstd::string::StringExecFns;

use crate::clock::{unix_now_seconds, UnixTime};
use crate::endpoint::{BmcEndpoint, RackInventory};
use crate::gauges::{
    increment, new_counter, new_family, new_gauge, register_counter, register_family,
    register_gauge, set_gauge, EventCounter, GaugeFamily, PlainGauge,
};
use crate::publish::{replace_series, FailedRemoval};
use crate::series::{ComponentSeries, ContestedRack, RackDomainSeries, RackSeries, SkippedRack};
use crate::snapshot::{
    collect_components, collect_rack_domains, collect_racks, find_contested_racks,
    find_skipped_racks,
};

verus! {

use crate::clock::is_reading;
use crate::gauges::{
    accepted,
    collected,
    count,
    counter_descriptor,
    counter_handle,
    family_descriptor,
    family_handle,
    gauge_bits,
    gauge_descriptor,
    gauge_handle,
    is_digit_char,
    is_word_char,
    no_samples,
    published,
    refused,
    seconds_bits,
    valid_descriptor,
    valid_label_name,
    valid_metric_name,
    Descriptor,
    Sample,
};
use crate::publish::{
    failed_removals,
    info_bits,
    keys_differ,
    law_replaced_shows,
    law_samples_are_bounded,
    law_shown_exactly,
    law_shown_is_bounded,
    law_shown_is_determined,
    replaced,
    samples_of,
    shows,
    start_time_bits,
};
use crate::rows::{is_sorted, law_sorted_is_unique, texts, views};
use crate::series::{ComponentView, RackDomainView, RackSeriesView};
use crate::endpoint::{EndpointView, RackInventoryView};
use crate::snapshot::{
    desired_components,
    desired_rack_domains,
    desired_racks,
    law_session_ignores_order,
    law_snapshot_ignores_order,
    law_snapshot_is_bounded,
    lemma_observations_agree,
    lists_contested,
    observations,
    rack_series,
    session_of,
    skipped_racks,
    views_agree,
};

/// The names of the labels of a component, in order.
pub const COMPONENT_LABELS: [&'static str; 11] = [
    "rack_id",
    "session_id",
    "subsystem",
    "component_type",
    "component_uid",
    "bmc_mac",
    "nvl_domain",
    "nmxc_enabled",
    "nmxc_primary",
    "slot_number",
    "tray_index",
];

/// The names of the labels of a rack, in order.
pub const RACK_LABELS: [&'static str; 2] = ["rack_id", "session_id"];

/// The names of the labels of a rack domain, in order.
pub const RACK_DOMAIN_LABELS: [&'static str; 3] = ["rack_id", "session_id", "nvl_domain"];

/// The parts of the metric names after the prefix.
pub const COMPONENT_INFO: &'static str = "_component_inventory_info";

pub const RACK_DOMAIN_INFO: &'static str = "_rack_nvlink_domain_info";

pub const RACK_SESSION_START: &'static str = "_rack_session_start_time_seconds";

pub const LAST_SUCCESS: &'static str = "_inventory_last_success_time_seconds";

pub const REFRESH_FAILURES: &'static str = "_inventory_refresh_failures_total";

/// The help texts of the metrics.
pub const COMPONENT_HELP: &'static str =
    "Authoritative NICo component inventory for the current rack-ingestion session";

pub const RACK_DOMAIN_HELP: &'static str =
    "Authoritative NICo rack-to-NVLink-domain assignments for current rack-ingestion sessions";

pub const RACK_SESSION_HELP: &'static str =
    "NICo rack creation time in Unix seconds, labeled by its ingestion session";

pub const LAST_SUCCESS_HELP: &'static str =
    "Unix timestamp of the last successful NICo inventory reconciliation";

pub const REFRESH_FAILURES_HELP: &'static str = "Number of failed NICo rack-inventory refreshes";

/// Why the metrics could not be set up.
#[derive(Debug)]
pub enum HealthError {
    /// Prometheus does not make a metric with this name.
    InvalidMetric(prometheus::Error),
    /// The registry did not accept a metric.
    Registration(prometheus::Error),
}

/// A metric that was made, or the error that says it was not.
pub fn made<T>(result: Result<T, prometheus::Error>) -> (r: Result<T, HealthError>)
    ensures
        r == match result {
            Ok(metric) => Ok::<T, HealthError>(metric),
            Err(error) => Err::<T, HealthError>(HealthError::InvalidMetric(error)),
        },
{
    match result {
        Ok(metric) => Ok(metric),
        Err(error) => Err(HealthError::InvalidMetric(error)),
    }
}

/// Success in registering, or the error that says it failed.
pub fn registered(result: Result<(), prometheus::Error>) -> (r: Result<(), HealthError>)
    ensures
        r == match result {
            Ok(done) => Ok::<(), HealthError>(done),
            Err(error) => Err::<(), HealthError>(HealthError::Registration(error)),
        },
{
    match result {
        Ok(()) => Ok(()),
        Err(error) => Err(HealthError::Registration(error)),
    }
}

/// A prefix that gives valid metric names: letters, digits, underscores and colons, not starting
/// with a digit. It may be empty.
pub open spec fn valid_prefix(prefix: Seq<char>) -> bool {
    &&& prefix.len() > 0 ==> !is_digit_char(prefix[0])
    &&& forall|i: int|
        0 <= i < prefix.len() ==> is_word_char(#[trigger] prefix[i]) || prefix[i] == ':'
            || is_digit_char(prefix[i])
}

/// What the components are published with.
pub open spec fn component_descriptor(prefix: Seq<char>) -> Descriptor {
    (prefix + COMPONENT_INFO@, COMPONENT_HELP@, texts(COMPONENT_LABELS@))
}

/// What the rack domains are published with.
pub open spec fn rack_domain_descriptor(prefix: Seq<char>) -> Descriptor {
    (prefix + RACK_DOMAIN_INFO@, RACK_DOMAIN_HELP@, texts(RACK_DOMAIN_LABELS@))
}

/// What the sessions of the racks are published with.
pub open spec fn rack_session_descriptor(prefix: Seq<char>) -> Descriptor {
    (prefix + RACK_SESSION_START@, RACK_SESSION_HELP@, texts(RACK_LABELS@))
}

/// What the time of the last success is published with.
pub open spec fn last_success_descriptor(prefix: Seq<char>) -> Descriptor {
    (prefix + LAST_SUCCESS@, LAST_SUCCESS_HELP@, Seq::empty())
}

/// What the number of failures is published with.
pub open spec fn refresh_failures_descriptor(prefix: Seq<char>) -> Descriptor {
    (prefix + REFRESH_FAILURES@, REFRESH_FAILURES_HELP@, Seq::empty())
}

/// What the metrics are published with: the components, the rack domains, the racks, the time of
/// the last success and the number of failures. They are registered in this order.
pub open spec fn descriptors_of(prefix: Seq<char>) -> Seq<Descriptor> {
    seq![
        component_descriptor(prefix),
        rack_domain_descriptor(prefix),
        rack_session_descriptor(prefix),
        last_success_descriptor(prefix),
        refresh_failures_descriptor(prefix),
    ]
}

/// Whether the registry refused one of the metrics, and had accepted those before it.
pub open spec fn refused_one(registry: prometheus::Registry, prefix: Seq<char>) -> bool {
    exists|i: int|
        {
            &&& 0 <= i < 5
            &&& refused(registry).contains(#[trigger] descriptors_of(prefix)[i])
            &&& forall|j: int|
                0 <= j < i ==> accepted(registry).contains(#[trigger] descriptors_of(prefix)[j])
        }
}

/// Whether every character is a letter or an underscore.
spec fn all_word_chars(text: Seq<char>) -> bool {
    forall|i: int| 0 <= i < text.len() ==> is_word_char(#[trigger] text[i])
}

/// A prefix before letters and underscores gives a valid name exactly where it is valid.
proof fn lemma_prefixed_name(prefix: Seq<char>, suffix: Seq<char>)
    requires
        suffix.len() > 0,
        all_word_chars(suffix),
    ensures
        valid_metric_name(prefix + suffix) <==> valid_prefix(prefix),
{
    let name = prefix + suffix;
    if valid_prefix(prefix) {
        assert forall|i: int| 0 <= i < name.len() implies is_word_char(#[trigger] name[i])
            || name[i] == ':' || is_digit_char(name[i]) by {
            if i < prefix.len() {
                assert(name[i] == prefix[i]);
            } else {
                assert(name[i] == suffix[i - prefix.len()]);
            }
        }
        if prefix.len() == 0 {
            assert(name[0] == suffix[0]);
        }
    }
    if valid_metric_name(name) {
        assert forall|i: int| 0 <= i < prefix.len() implies is_word_char(#[trigger] prefix[i])
            || prefix[i] == ':' || is_digit_char(prefix[i]) by {
            assert(name[i] == prefix[i]);
        }
    }
}

/// The names and help texts are such that only the prefix decides whether a metric can be made.
proof fn lemma_suffixes()
    ensures
        COMPONENT_INFO@.len() > 0 && all_word_chars(COMPONENT_INFO@),
        RACK_DOMAIN_INFO@.len() > 0 && all_word_chars(RACK_DOMAIN_INFO@),
        RACK_SESSION_START@.len() > 0 && all_word_chars(RACK_SESSION_START@),
        LAST_SUCCESS@.len() > 0 && all_word_chars(LAST_SUCCESS@),
        REFRESH_FAILURES@.len() > 0 && all_word_chars(REFRESH_FAILURES@),
        COMPONENT_HELP@.len() > 0,
        RACK_DOMAIN_HELP@.len() > 0,
        RACK_SESSION_HELP@.len() > 0,
        LAST_SUCCESS_HELP@.len() > 0,
        REFRESH_FAILURES_HELP@.len() > 0,
{
    reveal_strlit("_component_inventory_info");
    assert(COMPONENT_INFO@ =~= seq![
        '_', 'c', 'o', 'm', 'p', 'o', 'n', 'e', 'n', 't', '_', 'i', 'n', 'v', 'e', 'n', 't', 'o',
        'r', 'y', '_', 'i', 'n', 'f', 'o',
    ]);
    reveal_strlit("_rack_nvlink_domain_info");
    assert(RACK_DOMAIN_INFO@ =~= seq![
        '_', 'r', 'a', 'c', 'k', '_', 'n', 'v', 'l', 'i', 'n', 'k', '_', 'd', 'o', 'm', 'a', 'i',
        'n', '_', 'i', 'n', 'f', 'o',
    ]);
    reveal_strlit("_rack_session_start_time_seconds");
    assert(RACK_SESSION_START@ =~= seq![
        '_', 'r', 'a', 'c', 'k', '_', 's', 'e', 's', 's', 'i', 'o', 'n', '_', 's', 't', 'a', 'r',
        't', '_', 't', 'i', 'm', 'e', '_', 's', 'e', 'c', 'o', 'n', 'd', 's',
    ]);
    reveal_strlit("_inventory_last_success_time_seconds");
    assert(LAST_SUCCESS@ =~= seq![
        '_', 'i', 'n', 'v', 'e', 'n', 't', 'o', 'r', 'y', '_', 'l', 'a', 's', 't', '_', 's', 'u',
        'c', 'c', 'e', 's', 's', '_', 't', 'i', 'm', 'e', '_', 's', 'e', 'c', 'o', 'n', 'd', 's',
    ]);
    reveal_strlit("_inventory_refresh_failures_total");
    assert(REFRESH_FAILURES@ =~= seq![
        '_', 'i', 'n', 'v', 'e', 'n', 't', 'o', 'r', 'y', '_', 'r', 'e', 'f', 'r', 'e', 's', 'h',
        '_', 'f', 'a', 'i', 'l', 'u', 'r', 'e', 's', '_', 't', 'o', 't', 'a', 'l',
    ]);
    reveal_strlit(
        "Authoritative NICo component inventory for the current rack-ingestion session",
    );
    reveal_strlit(
        "Authoritative NICo rack-to-NVLink-domain assignments for current rack-ingestion sessions",
    );
    reveal_strlit(
        "NICo rack creation time in Unix seconds, labeled by its ingestion session",
    );
    reveal_strlit(
        "Unix timestamp of the last successful NICo inventory reconciliation",
    );
    reveal_strlit(
        "Number of failed NICo rack-inventory refreshes",
    );
}

/// Every label name is valid, and no two in one list are the same.
proof fn lemma_label_names()
    ensures
        forall|i: int| 0 <= i < 11 ==> valid_label_name(#[trigger] texts(COMPONENT_LABELS@)[i]),
        texts(COMPONENT_LABELS@).no_duplicates(),
        forall|i: int| 0 <= i < 2 ==> valid_label_name(#[trigger] texts(RACK_LABELS@)[i]),
        texts(RACK_LABELS@).no_duplicates(),
        forall|i: int| 0 <= i < 3 ==> valid_label_name(#[trigger] texts(RACK_DOMAIN_LABELS@)[i]),
        texts(RACK_DOMAIN_LABELS@).no_duplicates(),
{
    reveal_strlit("rack_id");
    assert("rack_id"@ =~= seq!['r', 'a', 'c', 'k', '_', 'i', 'd']);
    assert(valid_label_name("rack_id"@));
    reveal_strlit("session_id");
    assert("session_id"@ =~= seq!['s', 'e', 's', 's', 'i', 'o', 'n', '_', 'i', 'd']);
    assert(valid_label_name("session_id"@));
    reveal_strlit("subsystem");
    assert("subsystem"@ =~= seq!['s', 'u', 'b', 's', 'y', 's', 't', 'e', 'm']);
    assert(valid_label_name("subsystem"@));
    reveal_strlit("component_type");
    assert("component_type"@ =~= seq![
        'c', 'o', 'm', 'p', 'o', 'n', 'e', 'n', 't', '_', 't', 'y', 'p', 'e',
    ]);
    assert(valid_label_name("component_type"@));
    reveal_strlit("component_uid");
    assert("component_uid"@ =~= seq![
        'c', 'o', 'm', 'p', 'o', 'n', 'e', 'n', 't', '_', 'u', 'i', 'd',
    ]);
    assert(valid_label_name("component_uid"@));
    reveal_strlit("bmc_mac");
    assert("bmc_mac"@ =~= seq!['b', 'm', 'c', '_', 'm', 'a', 'c']);
    assert(valid_label_name("bmc_mac"@));
    reveal_strlit("nvl_domain");
    assert("nvl_domain"@ =~= seq!['n', 'v', 'l', '_', 'd', 'o', 'm', 'a', 'i', 'n']);
    assert(valid_label_name("nvl_domain"@));
    reveal_strlit("nmxc_enabled");
    assert("nmxc_enabled"@ =~= seq!['n', 'm', 'x', 'c', '_', 'e', 'n', 'a', 'b', 'l', 'e', 'd']);
    assert(valid_label_name("nmxc_enabled"@));
    reveal_strlit("nmxc_primary");
    assert("nmxc_primary"@ =~= seq!['n', 'm', 'x', 'c', '_', 'p', 'r', 'i', 'm', 'a', 'r', 'y']);
    assert(valid_label_name("nmxc_primary"@));
    reveal_strlit("slot_number");
    assert("slot_number"@ =~= seq!['s', 'l', 'o', 't', '_', 'n', 'u', 'm', 'b', 'e', 'r']);
    assert(valid_label_name("slot_number"@));
    reveal_strlit("tray_index");
    assert("tray_index"@ =~= seq!['t', 'r', 'a', 'y', '_', 'i', 'n', 'd', 'e', 'x']);
    assert(valid_label_name("tray_index"@));
    assert("rack_id"@[0] != "bmc_mac"@[0]);
    assert("session_id"@[0] != "nvl_domain"@[0]);
    assert("session_id"@[0] != "tray_index"@[0]);
    assert("nvl_domain"@[0] != "tray_index"@[0]);
    assert("nmxc_enabled"@[5] != "nmxc_primary"@[5]);
    assert(texts(COMPONENT_LABELS@) =~= seq![
        "rack_id"@,
        "session_id"@,
        "subsystem"@,
        "component_type"@,
        "component_uid"@,
        "bmc_mac"@,
        "nvl_domain"@,
        "nmxc_enabled"@,
        "nmxc_primary"@,
        "slot_number"@,
        "tray_index"@,
    ]);
    assert(texts(RACK_LABELS@) =~= seq!["rack_id"@, "session_id"@]);
    assert(texts(RACK_DOMAIN_LABELS@) =~= seq!["rack_id"@, "session_id"@, "nvl_domain"@]);
}

/// Only the prefix decides whether the metrics can be made.
proof fn lemma_descriptors(prefix: Seq<char>)
    ensures
        valid_descriptor(component_descriptor(prefix)) <==> valid_prefix(prefix),
        valid_descriptor(rack_domain_descriptor(prefix)) <==> valid_prefix(prefix),
        valid_descriptor(rack_session_descriptor(prefix)) <==> valid_prefix(prefix),
        valid_descriptor(last_success_descriptor(prefix)) <==> valid_prefix(prefix),
        valid_descriptor(refresh_failures_descriptor(prefix)) <==> valid_prefix(prefix),
{
    lemma_suffixes();
    lemma_label_names();
    lemma_prefixed_name(prefix, COMPONENT_INFO@);
    lemma_prefixed_name(prefix, RACK_DOMAIN_INFO@);
    lemma_prefixed_name(prefix, RACK_SESSION_START@);
    lemma_prefixed_name(prefix, LAST_SUCCESS@);
    lemma_prefixed_name(prefix, REFRESH_FAILURES@);
}

/// A metric name: the prefix and what follows it.
fn prefixed(prefix: &str, suffix: &str) -> (r: String)
    ensures
        r@ == prefix@ + suffix@,
{
    let mut name = prefix.to_owned();
    name.append(suffix);
    name
}

/// What a reconciliation could not publish or remove, for whoever wants to log it.
pub struct ReconcileReport {
    /// The racks that were skipped because their creation time is not valid.
    pub skipped_racks: Vec<SkippedRack>,
    /// The racks that have no domain because their switches report different ones.
    pub contested_racks: Vec<ContestedRack>,
    /// The stale samples of components that were not there to be removed.
    pub components_not_removed: Vec<FailedRemoval>,
    /// The stale samples of rack domains that were not there to be removed.
    pub rack_domains_not_removed: Vec<FailedRemoval>,
    /// The stale samples of racks that were not there to be removed.
    pub rack_sessions_not_removed: Vec<FailedRemoval>,
}

/// Publishes the latest snapshot of the inventory that was read successfully.
///
/// Every reconciliation replaces the series of the snapshot before it, so the number of series is
/// bounded by the size of one snapshot.
pub struct InventoryMetrics {
    component_info: GaugeFamily,
    rack_nvlink_domain_info: GaugeFamily,
    rack_session_start_time_seconds: GaugeFamily,
    last_success_time_seconds: PlainGauge,
    refresh_failures_total: EventCounter,
    current_components: Vec<ComponentSeries>,
    current_rack_domains: Vec<RackDomainSeries>,
    current_racks: Vec<RackSeries>,
}

impl InventoryMetrics {
    /// The components of the current snapshot, in the order of their labels.
    pub closed spec fn component_list(&self) -> Seq<ComponentView> {
        views(self.current_components@)
    }

    /// The rack domains of the current snapshot, in the order of their labels.
    pub closed spec fn rack_domain_list(&self) -> Seq<RackDomainView> {
        views(self.current_rack_domains@)
    }

    /// The racks of the current snapshot, in the order of their labels.
    pub closed spec fn rack_list(&self) -> Seq<RackSeriesView> {
        views(self.current_racks@)
    }

    /// The components of the current snapshot.
    pub open spec fn components(&self) -> Set<ComponentView> {
        self.component_list().to_set()
    }

    /// The rack domains of the current snapshot.
    pub open spec fn rack_domains(&self) -> Set<RackDomainView> {
        self.rack_domain_list().to_set()
    }

    /// The racks of the current snapshot.
    pub open spec fn racks(&self) -> Set<RackSeriesView> {
        self.rack_list().to_set()
    }

    /// Whether the lists of the current snapshot are in order, with no series twice.
    pub open spec fn is_in_order(&self) -> bool {
        &&& is_sorted::<ComponentSeries>(self.component_list())
        &&& is_sorted::<RackDomainSeries>(self.rack_domain_list())
        &&& is_sorted::<RackSeries>(self.rack_list())
    }

    /// The samples that are published of components.
    pub closed spec fn component_samples(&self) -> Map<u64, Sample> {
        published(self.component_info)
    }

    /// The samples that are published of rack domains.
    pub closed spec fn rack_domain_samples(&self) -> Map<u64, Sample> {
        published(self.rack_nvlink_domain_info)
    }

    /// The samples that are published of racks.
    pub closed spec fn rack_session_samples(&self) -> Map<u64, Sample> {
        published(self.rack_session_start_time_seconds)
    }

    /// The published time of the last success.
    pub closed spec fn last_success(&self) -> u64 {
        gauge_bits(self.last_success_time_seconds)
    }

    /// The published number of failures.
    pub closed spec fn failures(&self) -> u64 {
        count(self.refresh_failures_total)
    }

    /// What the metrics were made with: that of the components, the rack domains, the racks, the
    /// time of the last success and the number of failures.
    pub closed spec fn descriptors(&self) -> Seq<Descriptor> {
        seq![
            family_descriptor(self.component_info),
            family_descriptor(self.rack_nvlink_domain_info),
            family_descriptor(self.rack_session_start_time_seconds),
            gauge_descriptor(self.last_success_time_seconds),
            counter_descriptor(self.refresh_failures_total),
        ]
    }

    /// Which contents the metrics refer to, in the same order.
    pub closed spec fn handles(&self) -> Seq<nat> {
        seq![
            family_handle(self.component_info),
            family_handle(self.rack_nvlink_domain_info),
            family_handle(self.rack_session_start_time_seconds),
            gauge_handle(self.last_success_time_seconds),
            counter_handle(self.refresh_failures_total),
        ]
    }

    /// Whether the published samples are those of the current snapshot, and no others.
    pub open spec fn shows_snapshot(&self) -> bool {
        &&& shows(self.component_samples(), samples_of::<ComponentSeries>(self.components()))
        &&& shows(self.rack_domain_samples(), samples_of::<RackDomainSeries>(self.rack_domains()))
        &&& shows(self.rack_session_samples(), samples_of::<RackSeries>(self.racks()))
    }

    /// Whether these metrics publish the snapshot of these racks and endpoints, in order, in the
    /// place of what `before` published.
    pub open spec fn publishes_after(
        &self,
        before: InventoryMetrics,
        racks: Seq<RackInventoryView>,
        endpoints: Seq<EndpointView>,
    ) -> bool {
        &&& self.racks() == desired_racks(racks)
        &&& self.components() == desired_components(racks, endpoints)
        &&& self.rack_domains() == desired_rack_domains(self.components())
        &&& self.is_in_order()
        &&& self.component_samples() == replaced::<ComponentSeries>(
            before.component_samples(),
            before.component_list(),
            self.component_list(),
        )
        &&& self.rack_domain_samples() == replaced::<RackDomainSeries>(
            before.rack_domain_samples(),
            before.rack_domain_list(),
            self.rack_domain_list(),
        )
        &&& self.rack_session_samples() == replaced::<RackSeries>(
            before.rack_session_samples(),
            before.rack_list(),
            self.rack_list(),
        )
    }

    /// Whether the metrics have their labels and show the current snapshot, which is in order.
    pub closed spec fn wf(&self) -> bool {
        &&& family_descriptor(self.component_info).2.len() == 11
        &&& family_descriptor(self.rack_nvlink_domain_info).2.len() == 3
        &&& family_descriptor(self.rack_session_start_time_seconds).2.len() == 2
        &&& self.is_in_order()
        &&& self.shows_snapshot()
    }

    /// Makes the metrics, with names that start with `metrics_prefix`, and registers them: what the
    /// registry gathers is what these metrics publish.
    pub fn new(registry: &prometheus::Registry, metrics_prefix: &str) -> (r: Result<
        Self,
        HealthError,
    >)
        ensures
            (r is Err && r->Err_0 is InvalidMetric) <==> !valid_prefix(metrics_prefix@),
            (r is Err && r->Err_0 is Registration) ==> refused_one(*registry, metrics_prefix@),
            r matches Ok(metrics) ==> {
                &&& metrics.wf()
                &&& metrics.component_list() == Seq::<ComponentView>::empty()
                &&& metrics.rack_domain_list() == Seq::<RackDomainView>::empty()
                &&& metrics.rack_list() == Seq::<RackSeriesView>::empty()
                &&& metrics.component_samples() == no_samples()
                &&& metrics.rack_domain_samples() == no_samples()
                &&& metrics.rack_session_samples() == no_samples()
                &&& metrics.last_success() == seconds_bits(0, 0)
                &&& metrics.failures() == 0
                &&& metrics.descriptors() == descriptors_of(metrics_prefix@)
                &&& forall|i: int|
                    0 <= i < 5 ==> accepted(*registry).contains(#[trigger] metrics.descriptors()[i])
                &&& metrics.handles().len() == 5
                &&& forall|i: int|
                    0 <= i < 5 ==> collected(*registry).contains(#[trigger] metrics.handles()[i])
            },
    {
        proof {
            lemma_descriptors(metrics_prefix@);
            let all = descriptors_of(metrics_prefix@);
            assert(all[0] == component_descriptor(metrics_prefix@));
            assert(all[1] == rack_domain_descriptor(metrics_prefix@));
            assert(all[2] == rack_session_descriptor(metrics_prefix@));
            assert(all[3] == last_success_descriptor(metrics_prefix@));
            assert(all[4] == refresh_failures_descriptor(metrics_prefix@));
        }
        let name = prefixed(metrics_prefix, COMPONENT_INFO);
        let component_info = made(new_family(name.as_str(), COMPONENT_HELP, &COMPONENT_LABELS))?;
        registered(register_family(registry, &component_info))?;

        let name = prefixed(metrics_prefix, RACK_DOMAIN_INFO);
        let rack_nvlink_domain_info = made(
            new_family(name.as_str(), RACK_DOMAIN_HELP, &RACK_DOMAIN_LABELS),
        )?;
        registered(register_family(registry, &rack_nvlink_domain_info))?;

        let name = prefixed(metrics_prefix, RACK_SESSION_START);
        let rack_session_start_time_seconds = made(
            new_family(name.as_str(), RACK_SESSION_HELP, &RACK_LABELS),
        )?;
        registered(register_family(registry, &rack_session_start_time_seconds))?;

        let name = prefixed(metrics_prefix, LAST_SUCCESS);
        let last_success_time_seconds = made(new_gauge(name.as_str(), LAST_SUCCESS_HELP))?;
        registered(register_gauge(registry, &last_success_time_seconds))?;

        let name = prefixed(metrics_prefix, REFRESH_FAILURES);
        let refresh_failures_total = made(new_counter(name.as_str(), REFRESH_FAILURES_HELP))?;
        registered(register_counter(registry, &refresh_failures_total))?;

        let metrics = InventoryMetrics {
            component_info,
            rack_nvlink_domain_info,
            rack_session_start_time_seconds,
            last_success_time_seconds,
            refresh_failures_total,
            current_components: Vec::new(),
            current_rack_domains: Vec::new(),
            current_racks: Vec::new(),
        };
        assert(metrics.component_list() =~= Seq::<ComponentView>::empty());
        assert(metrics.rack_domain_list() =~= Seq::<RackDomainView>::empty());
        assert(metrics.rack_list() =~= Seq::<RackSeriesView>::empty());
        Ok(metrics)
    }

    /// Publishes a snapshot as of now, as [`InventoryMetrics::reconcile_at`] does.
    pub fn reconcile(&mut self, racks: &[RackInventory], endpoints: &[Arc<BmcEndpoint>]) -> (r:
        ReconcileReport)
        requires
            old(self).wf(),
        ensures
            final(self).wf(),
            final(self).publishes_after(*old(self), views(racks@), views(endpoints@)),
            final(self).shows_snapshot(),
            exists|now: UnixTime|
                {
                    &&& now.wf()
                    &&& is_reading(Some((now.seconds, now.nanos))) || (is_reading(None)
                        && now.seconds == 0 && now.nanos == 0)
                    &&& final(self).last_success() == #[trigger] seconds_bits(
                        now.seconds,
                        now.nanos,
                    )
                },
            final(self).failures() == old(self).failures(),
            final(self).descriptors() == old(self).descriptors(),
            final(self).handles() == old(self).handles(),
            views(r.skipped_racks@) == skipped_racks(views(racks@)),
            lists_contested(views(r.contested_racks@), final(self).components()),
            views(r.components_not_removed@) == failed_removals::<ComponentSeries>(
                old(self).component_samples(),
                old(self).component_list(),
                final(self).component_list(),
            ),
            views(r.rack_domains_not_removed@) == failed_removals::<RackDomainSeries>(
                old(self).rack_domain_samples(),
                old(self).rack_domain_list(),
                final(self).rack_domain_list(),
            ),
            views(r.rack_sessions_not_removed@) == failed_removals::<RackSeries>(
                old(self).rack_session_samples(),
                old(self).rack_list(),
                final(self).rack_list(),
            ),
    {
        let now = unix_now_seconds();
        self.reconcile_at(racks, endpoints, now)
    }

    /// Publishes a snapshot that was read at `observed_at`. The series of the snapshot before it
    /// that are not in this one are removed. Says what could not be published or removed.
    pub fn reconcile_at(
        &mut self,
        racks: &[RackInventory],
        endpoints: &[Arc<BmcEndpoint>],
        observed_at: UnixTime,
    ) -> (r: ReconcileReport)
        requires
            old(self).wf(),
            observed_at.wf(),
        ensures
            final(self).wf(),
            final(self).publishes_after(*old(self), views(racks@), views(endpoints@)),
            final(self).shows_snapshot(),
            final(self).last_success() == seconds_bits(observed_at.seconds, observed_at.nanos),
            final(self).failures() == old(self).failures(),
            final(self).descriptors() == old(self).descriptors(),
            final(self).handles() == old(self).handles(),
            views(r.skipped_racks@) == skipped_racks(views(racks@)),
            lists_contested(views(r.contested_racks@), final(self).components()),
            views(r.components_not_removed@) == failed_removals::<ComponentSeries>(
                old(self).component_samples(),
                old(self).component_list(),
                final(self).component_list(),
            ),
            views(r.rack_domains_not_removed@) == failed_removals::<RackDomainSeries>(
                old(self).rack_domain_samples(),
                old(self).rack_domain_list(),
                final(self).rack_domain_list(),
            ),
            views(r.rack_sessions_not_removed@) == failed_removals::<RackSeries>(
                old(self).rack_session_samples(),
                old(self).rack_list(),
                final(self).rack_list(),
            ),
    {
        let desired_rack_series = collect_racks(racks);
        let desired_component_series = collect_components(&desired_rack_series, endpoints);
        let desired_domain_series = collect_rack_domains(&desired_component_series);
        proof {
            lemma_collected_sessions(views(desired_rack_series@), views(racks@));
            lemma_observations_agree(
                views(desired_rack_series@),
                rack_series(views(racks@)),
                views(endpoints@),
            );
            law_replaced_shows::<ComponentSeries>(
                self.component_samples(),
                self.component_list(),
                views(desired_component_series@),
            );
            law_replaced_shows::<RackDomainSeries>(
                self.rack_domain_samples(),
                self.rack_domain_list(),
                views(desired_domain_series@),
            );
            law_replaced_shows::<RackSeries>(
                self.rack_session_samples(),
                self.rack_list(),
                views(desired_rack_series@),
            );
        }

        let skipped = find_skipped_racks(racks);
        let contested = find_contested_racks(&desired_component_series);
        let components_not_removed = replace_series(
            &mut self.component_info,
            &self.current_components,
            &desired_component_series,
        );
        let rack_domains_not_removed = replace_series(
            &mut self.rack_nvlink_domain_info,
            &self.current_rack_domains,
            &desired_domain_series,
        );
        let rack_sessions_not_removed = replace_series(
            &mut self.rack_session_start_time_seconds,
            &self.current_racks,
            &desired_rack_series,
        );

        self.current_components = desired_component_series;
        self.current_rack_domains = desired_domain_series;
        self.current_racks = desired_rack_series;
        set_gauge(
            &mut self.last_success_time_seconds,
            observed_at.seconds,
            observed_at.nanos,
        );
        assert(self.descriptors() =~= old(self).descriptors());
        assert(self.handles() =~= old(self).handles());
        ReconcileReport {
            skipped_racks: skipped,
            contested_racks: contested,
            components_not_removed,
            rack_domains_not_removed,
            rack_sessions_not_removed,
        }
    }

    /// Counts a failed refresh. The snapshot that was published last stays.
    pub fn record_refresh_failure(&mut self)
        requires
            old(self).wf(),
        ensures
            final(self).wf(),
            final(self).failures() == if old(self).failures() == u64::MAX {
                0
            } else {
                (old(self).failures() + 1) as u64
            },
            final(self).component_list() == old(self).component_list(),
            final(self).rack_domain_list() == old(self).rack_domain_list(),
            final(self).rack_list() == old(self).rack_list(),
            final(self).component_samples() == old(self).component_samples(),
            final(self).rack_domain_samples() == old(self).rack_domain_samples(),
            final(self).rack_session_samples() == old(self).rack_session_samples(),
            final(self).last_success() == old(self).last_success(),
            final(self).descriptors() == old(self).descriptors(),
            final(self).handles() == old(self).handles(),
    {
        increment(&mut self.refresh_failures_total);
        assert(self.descriptors() =~= old(self).descriptors());
        assert(self.handles() =~= old(self).handles());
    }
}

/// The racks that are collected, each once, give every rack the session that the inventory gives.
proof fn lemma_collected_sessions(collected: Seq<RackSeriesView>, racks: Seq<RackInventoryView>)
    requires
        collected.to_set() == desired_racks(racks),
        forall|i: int| 0 <= i < collected.len() ==> (#[trigger] collected[i]).wf(),
    ensures
        forall|rack_id: Seq<char>| #[trigger]
            session_of(collected, rack_id) == session_of(rack_series(racks), rack_id),
{
    assert forall|rack_id: Seq<char>| #[trigger]
        session_of(collected, rack_id) == session_of(rack_series(racks), rack_id) by {
        law_session_ignores_order(collected, rack_series(racks), rack_id);
    }
}

/// Law: the metrics have these names after the prefix, these help texts and these labels.
pub proof fn law_names_of_the_metrics(prefix: Seq<char>)
    ensures
        descriptors_of(prefix).len() == 5,
        descriptors_of(prefix)[0] == (
            prefix + "_component_inventory_info"@,
            "Authoritative NICo component inventory for the current rack-ingestion session"@,
            seq![
                "rack_id"@,
                "session_id"@,
                "subsystem"@,
                "component_type"@,
                "component_uid"@,
                "bmc_mac"@,
                "nvl_domain"@,
                "nmxc_enabled"@,
                "nmxc_primary"@,
                "slot_number"@,
                "tray_index"@,
            ],
        ),
        descriptors_of(prefix)[1] == (
            prefix + "_rack_nvlink_domain_info"@,
            "Authoritative NICo rack-to-NVLink-domain assignments for current rack-ingestion sessions"@,
            seq!["rack_id"@, "session_id"@, "nvl_domain"@],
        ),
        descriptors_of(prefix)[2] == (
            prefix + "_rack_session_start_time_seconds"@,
            "NICo rack creation time in Unix seconds, labeled by its ingestion session"@,
            seq!["rack_id"@, "session_id"@],
        ),
        descriptors_of(prefix)[3] == (
            prefix + "_inventory_last_success_time_seconds"@,
            "Unix timestamp of the last successful NICo inventory reconciliation"@,
            Seq::<Seq<char>>::empty(),
        ),
        descriptors_of(prefix)[4] == (
            prefix + "_inventory_refresh_failures_total"@,
            "Number of failed NICo rack-inventory refreshes"@,
            Seq::<Seq<char>>::empty(),
        ),
{
    assert(texts(COMPONENT_LABELS@) =~= seq![
        "rack_id"@,
        "session_id"@,
        "subsystem"@,
        "component_type"@,
        "component_uid"@,
        "bmc_mac"@,
        "nvl_domain"@,
        "nmxc_enabled"@,
        "nmxc_primary"@,
        "slot_number"@,
        "tray_index"@,
    ]);
    assert(texts(RACK_LABELS@) =~= seq!["rack_id"@, "session_id"@]);
    assert(texts(RACK_DOMAIN_LABELS@) =~= seq!["rack_id"@, "session_id"@, "nvl_domain"@]);
}

/// Law: a prefix is valid where it holds only ASCII letters, digits, underscores and colons, and
/// does not start with a digit.
pub proof fn law_valid_prefix(prefix: Seq<char>)
    ensures
        valid_prefix(prefix) <==> {
            &&& prefix.len() > 0 ==> !('0' <= prefix[0] <= '9')
            &&& forall|i: int|
                0 <= i < prefix.len() ==> ('a' <= #[trigger] prefix[i] <= 'z') || ('A' <= prefix[i]
                    <= 'Z') || ('0' <= prefix[i] <= '9') || prefix[i] == '_' || prefix[i] == ':'
        },
{
    if valid_prefix(prefix) {
        assert forall|i: int| 0 <= i < prefix.len() implies ('a' <= #[trigger] prefix[i] <= 'z')
            || ('A' <= prefix[i] <= 'Z') || ('0' <= prefix[i] <= '9') || prefix[i] == '_'
            || prefix[i] == ':' by {
            assert(is_word_char(prefix[i]) || prefix[i] == ':' || is_digit_char(prefix[i]));
        }
    }
}

/// Law: what is published is bounded by the size of the snapshot, however many snapshots came
/// before it.
pub proof fn law_published_is_bounded(
    metrics: InventoryMetrics,
    racks: Seq<RackInventoryView>,
    endpoints: Seq<EndpointView>,
)
    requires
        metrics.shows_snapshot(),
        metrics.racks() == desired_racks(racks),
        metrics.components() == desired_components(racks, endpoints),
        metrics.rack_domains() == desired_rack_domains(metrics.components()),
    ensures
        metrics.component_samples().dom().finite(),
        metrics.component_samples().dom().len() <= endpoints.len(),
        metrics.rack_domain_samples().dom().finite(),
        metrics.rack_domain_samples().dom().len() <= endpoints.len(),
        metrics.rack_session_samples().dom().finite(),
        metrics.rack_session_samples().dom().len() <= racks.len(),
{
    law_snapshot_is_bounded(racks, endpoints);
    law_samples_are_bounded::<ComponentSeries>(metrics.components());
    law_samples_are_bounded::<RackDomainSeries>(metrics.rack_domains());
    law_samples_are_bounded::<RackSeries>(metrics.racks());
    law_shown_is_bounded(
        metrics.component_samples(),
        samples_of::<ComponentSeries>(metrics.components()),
    );
    law_shown_is_bounded(
        metrics.rack_domain_samples(),
        samples_of::<RackDomainSeries>(metrics.rack_domains()),
    );
    law_shown_is_bounded(
        metrics.rack_session_samples(),
        samples_of::<RackSeries>(metrics.racks()),
    );
}

/// Law: what is published depends on the latest snapshot alone, and not on those before it, where
/// no two of its series have the same key.
pub proof fn law_published_is_determined(a: InventoryMetrics, b: InventoryMetrics)
    requires
        a.shows_snapshot(),
        b.shows_snapshot(),
        a.components() == b.components(),
        a.rack_domains() == b.rack_domains(),
        a.racks() == b.racks(),
        keys_differ(samples_of::<ComponentSeries>(a.components())),
        keys_differ(samples_of::<RackDomainSeries>(a.rack_domains())),
        keys_differ(samples_of::<RackSeries>(a.racks())),
    ensures
        a.component_samples() == b.component_samples(),
        a.rack_domain_samples() == b.rack_domain_samples(),
        a.rack_session_samples() == b.rack_session_samples(),
{
    law_shown_is_determined(
        a.component_samples(),
        b.component_samples(),
        samples_of::<ComponentSeries>(a.components()),
    );
    law_shown_is_determined(
        a.rack_domain_samples(),
        b.rack_domain_samples(),
        samples_of::<RackDomainSeries>(a.rack_domains()),
    );
    law_shown_is_determined(
        a.rack_session_samples(),
        b.rack_session_samples(),
        samples_of::<RackSeries>(a.racks()),
    );
}

/// Law: from the same state, two snapshots of the same racks and endpoints publish the same
/// samples, in whatever order the racks and endpoints were found, where the views of each component
/// do not contradict each other. `before` is the state, `a` and `b` are what it becomes.
pub proof fn law_published_ignores_order(
    before: InventoryMetrics,
    a: InventoryMetrics,
    b: InventoryMetrics,
    racks: Seq<RackInventoryView>,
    endpoints: Seq<EndpointView>,
    other_racks: Seq<RackInventoryView>,
    other_endpoints: Seq<EndpointView>,
)
    requires
        racks.to_set() == other_racks.to_set(),
        endpoints.to_set() == other_endpoints.to_set(),
        views_agree(observations(rack_series(racks), endpoints)),
        a.publishes_after(before, racks, endpoints),
        b.publishes_after(before, other_racks, other_endpoints),
    ensures
        a.component_list() == b.component_list(),
        a.rack_domain_list() == b.rack_domain_list(),
        a.rack_list() == b.rack_list(),
        a.component_samples() == b.component_samples(),
        a.rack_domain_samples() == b.rack_domain_samples(),
        a.rack_session_samples() == b.rack_session_samples(),
{
    law_snapshot_ignores_order(racks, endpoints, other_racks, other_endpoints);
    law_sorted_is_unique::<ComponentSeries>(a.component_list(), b.component_list());
    law_sorted_is_unique::<RackDomainSeries>(a.rack_domain_list(), b.rack_domain_list());
    law_sorted_is_unique::<RackSeries>(a.rack_list(), b.rack_list());
}

/// Law: a component, and the domain of a rack, is published by a sample of value one with its
/// labels, and a rack by one whose value is its creation time, where no two series have the same
/// key; and nothing else is published.
pub proof fn law_published_exactly(metrics: InventoryMetrics)
    requires
        metrics.shows_snapshot(),
        keys_differ(samples_of::<ComponentSeries>(metrics.components())),
        keys_differ(samples_of::<RackDomainSeries>(metrics.rack_domains())),
        keys_differ(samples_of::<RackSeries>(metrics.racks())),
    ensures
        forall|s: Sample| #[trigger]
            metrics.component_samples().values().contains(s) <==> exists|c: ComponentView|
                #[trigger]
                metrics.components().contains(c) && s == (c.labels(), info_bits()),
        forall|s: Sample| #[trigger]
            metrics.rack_domain_samples().values().contains(s) <==> exists|d: RackDomainView|
                #[trigger]
                metrics.rack_domains().contains(d) && s == (d.labels(), info_bits()),
        forall|s: Sample| #[trigger]
            metrics.rack_session_samples().values().contains(s) <==> exists|r: RackSeriesView|
                #[trigger]
                metrics.racks().contains(r) && s == (
                    r.labels(),
                    start_time_bits(r.created_seconds, r.created_nanos),
                ),
{
    law_shown_exactly(
        metrics.component_samples(),
        samples_of::<ComponentSeries>(metrics.components()),
    );
    law_shown_exactly(
        metrics.rack_domain_samples(),
        samples_of::<RackDomainSeries>(metrics.rack_domains()),
    );
    law_shown_exactly(
        metrics.rack_session_samples(),
        samples_of::<RackSeries>(metrics.racks()),
    );
}

} // verus!
