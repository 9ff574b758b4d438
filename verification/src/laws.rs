//! What a snapshot publishes, in terms of the racks and endpoints that it lists.

use vstd::prelude::*;
use vstd::utf8::encode_utf8;

use crate::endpoint::SwitchEndpointRole;
use crate::series::Subsystem;

verus! {

use crate::endpoint::{mac_chars, EndpointView, MetadataView, RackInventoryView};
use crate::numerals::{
    bytes_before,
    is_integer_text,
    is_session_text,
    law_integer_text,
    law_session_text,
    law_texts_are_ordered_by_bytes,
};
use crate::series::{
    ComponentView,
    ContestedRackView,
    Identity,
    RackDomainView,
    RackSeriesView,
    SkippedRackView,
};
use crate::snapshot::{
    all_claims,
    combined,
    components_of,
    contested_domains,
    desired_components,
    desired_rack_domains,
    desired_racks,
    is_claimed,
    is_uncontested,
    law_session_is_last,
    lists_contested,
    observation,
    observations,
    rack_series,
    session_of,
    skipped_racks,
};

/// Whether the creation time of a rack is known, with nanoseconds that are less than a second.
pub open spec fn is_dated(rack: RackInventoryView) -> bool {
    &&& rack.created_seconds is Some
    &&& rack.created_nanos is Some
    &&& 0 <= rack.created_nanos->0 < 1_000_000_000
}

/// Whether `text` is the session of a rack.
pub open spec fn is_session(text: Seq<char>, rack: RackInventoryView) -> bool {
    is_dated(rack) && is_session_text(
        text,
        rack.rack_id,
        rack.created_seconds->0 as int,
        rack.created_nanos->0 as int,
    )
}

/// Whether `text` is the last session of the racks with this identifier, by its bytes.
pub open spec fn is_last_session(
    racks: Seq<RackInventoryView>,
    rack_id: Seq<char>,
    text: Seq<char>,
) -> bool {
    &&& exists|i: int|
        0 <= i < racks.len() && (#[trigger] racks[i]).rack_id == rack_id && is_session(
            text,
            racks[i],
        )
    &&& forall|i: int, other: Seq<char>|
        0 <= i < racks.len() && racks[i].rack_id == rack_id && #[trigger] is_session(
            other,
            racks[i],
        ) ==> !bytes_before(encode_utf8(text), encode_utf8(other))
}

/// The series of a rack is what its session and creation time make it.
proof fn lemma_series_of(rack: RackInventoryView, r: RackSeriesView)
    ensures
        rack.series() == Some(r) <==> {
            &&& is_session(r.session_id, rack)
            &&& r.rack_id == rack.rack_id
            &&& rack.created_seconds == Some(r.created_seconds)
            &&& rack.created_nanos == Some(r.created_nanos)
        },
        rack.series() is Some <==> is_dated(rack),
{
    if is_dated(rack) {
        law_session_text(
            r.session_id,
            rack.rack_id,
            rack.created_seconds->0 as int,
            rack.created_nanos->0 as nat,
        );
    }
}

/// A series is that of some rack, and every rack with a series has it among them.
proof fn lemma_rack_series_are(racks: Seq<RackInventoryView>, r: RackSeriesView)
    ensures
        rack_series(racks).contains(r) <==> exists|i: int|
            0 <= i < racks.len() && (#[trigger] racks[i]).series() == Some(r),
    decreases racks.len(),
{
    let all = rack_series(racks);
    if racks.len() > 0 {
        let init = racks.drop_last();
        let before = rack_series(init);
        lemma_rack_series_are(init, r);
        if all.contains(r) {
            let o = choose|o: int| 0 <= o < all.len() && all[o] == r;
            if o < before.len() {
                assert(before[o] == r);
                let i = choose|i: int|
                    0 <= i < init.len() && (#[trigger] init[i]).series() == Some(r);
                assert(racks[i] == init[i]);
            } else {
                assert(racks[racks.len() - 1].series() == Some(r));
            }
        }
        if exists|i: int| 0 <= i < racks.len() && (#[trigger] racks[i]).series() == Some(r) {
            let i = choose|i: int|
                0 <= i < racks.len() && (#[trigger] racks[i]).series() == Some(r);
            if i < init.len() {
                assert(init[i].series() == Some(r));
                let o = choose|o: int| 0 <= o < before.len() && before[o] == r;
                assert(all[o] == r);
            } else {
                assert(all[before.len() as int] == r);
            }
        }
    }
}

/// Law: a snapshot publishes exactly the racks whose creation time is known and valid, each with
/// its session and its creation time.
pub proof fn law_published_racks(racks: Seq<RackInventoryView>, r: RackSeriesView)
    ensures
        desired_racks(racks).contains(r) <==> exists|i: int|
            {
                &&& 0 <= i < racks.len()
                &&& (#[trigger] racks[i]).rack_id == r.rack_id
                &&& is_session(r.session_id, racks[i])
                &&& racks[i].created_seconds == Some(r.created_seconds)
                &&& racks[i].created_nanos == Some(r.created_nanos)
            },
{
    lemma_rack_series_are(racks, r);
    assert(desired_racks(racks).contains(r) <==> rack_series(racks).contains(r));
    assert forall|i: int| 0 <= i < racks.len() implies ((#[trigger] racks[i]).series() == Some(r)
        <==> {
        &&& racks[i].rack_id == r.rack_id
        &&& is_session(r.session_id, racks[i])
        &&& racks[i].created_seconds == Some(r.created_seconds)
        &&& racks[i].created_nanos == Some(r.created_nanos)
    }) by {
        lemma_series_of(racks[i], r);
    }
}

/// Law: exactly the racks whose creation time is known and whose nanoseconds are not less than a
/// second, or negative, are reported as skipped, in order.
pub proof fn law_skipped_racks(racks: Seq<RackInventoryView>, s: SkippedRackView)
    ensures
        skipped_racks(racks).contains(s) <==> exists|i: int|
            {
                &&& 0 <= i < racks.len()
                &&& (#[trigger] racks[i]).rack_id == s.rack_id
                &&& racks[i].created_seconds is Some
                &&& racks[i].created_nanos == Some(s.created_nanos)
                &&& s.created_nanos < 0 || s.created_nanos >= 1_000_000_000
            },
    decreases racks.len(),
{
    let all = skipped_racks(racks);
    if racks.len() > 0 {
        let init = racks.drop_last();
        let before = skipped_racks(init);
        let last = racks.last();
        law_skipped_racks(init, s);
        assert(racks[racks.len() - 1] == last);
        assert(forall|i: int| 0 <= i < init.len() ==> #[trigger] init[i] == racks[i]);
        assert(forall|i: int| 0 <= i < init.len() ==> #[trigger] racks[i] == init[i]);
        if last.skipped() is Some {
            assert(all == before.push(last.skipped()->0));
            assert(all[before.len() as int] == last.skipped()->0);
        }
        if before.contains(s) {
            let o = choose|o: int| 0 <= o < before.len() && before[o] == s;
            assert(all[o] == s);
        }
        if all.contains(s) && !before.contains(s) {
            let o = choose|o: int| 0 <= o < all.len() && all[o] == s;
            assert(o >= before.len());
        }
    }
}

/// The session of a rack is the last one.
proof fn lemma_session_is_last(racks: Seq<RackInventoryView>, rack_id: Seq<char>)
    ensures
        match session_of(rack_series(racks), rack_id) {
            Some(r) => r.rack_id == rack_id && is_last_session(racks, rack_id, r.session_id),
            None => forall|i: int|
                0 <= i < racks.len() && (#[trigger] racks[i]).rack_id == rack_id ==> !is_dated(
                    racks[i],
                ),
        },
{
    let series = rack_series(racks);
    law_session_is_last(series, rack_id);
    match session_of(series, rack_id) {
        Some(r) => {
            lemma_rack_series_are(racks, r);
            let i = choose|i: int|
                0 <= i < racks.len() && (#[trigger] racks[i]).series() == Some(r);
            lemma_series_of(racks[i], r);
            assert forall|j: int, other: Seq<char>|
                0 <= j < racks.len() && racks[j].rack_id == rack_id && #[trigger] is_session(
                    other,
                    racks[j],
                ) implies !bytes_before(encode_utf8(r.session_id), encode_utf8(other)) by {
                let q = RackSeriesView {
                    rack_id,
                    session_id: other,
                    created_seconds: racks[j].created_seconds->0,
                    created_nanos: racks[j].created_nanos->0,
                };
                lemma_series_of(racks[j], q);
                lemma_rack_series_are(racks, q);
                let k = choose|k: int| 0 <= k < series.len() && series[k] == q;
                assert(series[k].rack_id == rack_id);
                law_texts_are_ordered_by_bytes(r.session_id, other);
            }
        },
        None => {
            assert forall|i: int|
                0 <= i < racks.len() && (#[trigger] racks[i]).rack_id == rack_id implies !is_dated(
                racks[i],
            ) by {
                if is_dated(racks[i]) {
                    lemma_series_of(racks[i], racks[i].series()->0);
                    let q = racks[i].series()->0;
                    lemma_rack_series_are(racks, q);
                    let k = choose|k: int| 0 <= k < series.len() && series[k] == q;
                    assert(series[k].rack_id == rack_id);
                }
            }
        },
    }
}

/// Law: a rack has one last session.
pub proof fn law_last_session_is_one(
    racks: Seq<RackInventoryView>,
    rack_id: Seq<char>,
    a: Seq<char>,
    b: Seq<char>,
)
    requires
        is_last_session(racks, rack_id, a),
        is_last_session(racks, rack_id, b),
    ensures
        a == b,
{
    let i = choose|i: int|
        0 <= i < racks.len() && (#[trigger] racks[i]).rack_id == rack_id && is_session(a, racks[i]);
    let j = choose|j: int|
        0 <= j < racks.len() && (#[trigger] racks[j]).rack_id == rack_id && is_session(b, racks[j]);
    assert(is_session(a, racks[i]) && is_session(b, racks[j]));
    law_texts_are_ordered_by_bytes(a, b);
    law_texts_are_ordered_by_bytes(b, a);
    crate::text::law_text_order(a, b, a);
}

/// Whether an endpoint speaks of this component: it is in its rack, and names its kind and its
/// identifier. A switch or a power shelf without an identifier is named by its serial number.
pub open spec fn speaks_of(endpoint: EndpointView, c: ComponentView) -> bool {
    &&& endpoint.rack_id == Some(c.rack_id)
    &&& match endpoint.metadata {
        Some(MetadataView::Machine { component_type, machine_id, .. }) => {
            component_type == c.component_type && machine_id == Some(c.component_uid)
        },
        Some(MetadataView::Switch { id, serial, .. }) => {
            &&& c.component_type == "nvlink_switch"@
            &&& id is Some ==> id->0 == c.component_uid
            &&& id is None ==> serial == c.component_uid
        },
        Some(MetadataView::PowerShelf { component_type, id, serial }) => {
            &&& component_type == c.component_type
            &&& id is Some ==> id->0 == c.component_uid
            &&& id is None ==> serial == Some(c.component_uid)
        },
        None => false,
    }
}

/// Whether an endpoint names a component.
pub open spec fn names_component(endpoint: EndpointView) -> bool {
    match endpoint.metadata {
        Some(MetadataView::Machine { machine_id, .. }) => machine_id is Some,
        Some(MetadataView::Switch { .. }) => true,
        Some(MetadataView::PowerShelf { id, serial, .. }) => id is Some || serial is Some,
        None => false,
    }
}

/// Whether this is the subsystem of the component behind an endpoint.
pub open spec fn is_subsystem(endpoint: EndpointView, subsystem: Subsystem) -> bool {
    match endpoint.metadata {
        Some(MetadataView::Machine { .. }) => subsystem == Subsystem::Compute,
        Some(MetadataView::Switch { .. }) => subsystem == Subsystem::Switch,
        Some(MetadataView::PowerShelf { .. }) => subsystem == Subsystem::Power,
        None => false,
    }
}

/// The address of the component's BMC that an endpoint gives: its own, but that of a switch's host
/// endpoint is no BMC's.
pub open spec fn address_given(endpoint: EndpointView) -> Seq<char> {
    match endpoint.metadata {
        Some(MetadataView::Switch { endpoint_role, .. }) => match endpoint_role {
            SwitchEndpointRole::Bmc => mac_chars(endpoint.mac),
            SwitchEndpointRole::Host => Seq::empty(),
        },
        _ => mac_chars(endpoint.mac),
    }
}

/// The NVLink domain that an endpoint gives.
pub open spec fn domain_given(endpoint: EndpointView) -> Seq<char> {
    match endpoint.metadata {
        Some(MetadataView::Machine { nvlink_domain_uuid: Some(domain), .. }) => domain,
        Some(MetadataView::Switch { nvlink_domain_uuid: Some(domain), .. }) => domain,
        _ => Seq::empty(),
    }
}

/// The slot that an endpoint gives.
pub open spec fn slot_given(endpoint: EndpointView) -> Option<i32> {
    match endpoint.metadata {
        Some(MetadataView::Machine { slot_number, .. }) => slot_number,
        Some(MetadataView::Switch { slot_number, .. }) => slot_number,
        _ => None,
    }
}

/// The tray that an endpoint gives.
pub open spec fn tray_given(endpoint: EndpointView) -> Option<i32> {
    match endpoint.metadata {
        Some(MetadataView::Machine { tray_index, .. }) => tray_index,
        Some(MetadataView::Switch { tray_index, .. }) => tray_index,
        _ => None,
    }
}

/// Whether an endpoint says that NMX-C is enabled.
pub open spec fn says_enabled(endpoint: EndpointView) -> bool {
    endpoint.metadata matches Some(MetadataView::Switch { nmxc_enabled, .. }) && nmxc_enabled
}

/// Whether an endpoint says that this is the primary switch.
pub open spec fn says_primary(endpoint: EndpointView) -> bool {
    endpoint.metadata matches Some(MetadataView::Switch { is_primary, .. }) && is_primary
}

/// Whether `text` is the number, or empty where there is none.
pub open spec fn is_optional_text(text: Seq<char>, n: Option<i32>) -> bool {
    match n {
        Some(n) => is_integer_text(text, n as int),
        None => text.len() == 0,
    }
}

/// Law: an endpoint that names a component gives its labels: the rack and the session, the
/// subsystem, the kind and the identifier, the address of the BMC, the domain, the NMX-C state that
/// a switch has in either role, the slot and the tray. One that names none gives nothing.
pub proof fn law_labels_of_an_endpoint(endpoint: EndpointView, rack: RackSeriesView)
    ensures
        endpoint.component(rack) is Some <==> names_component(endpoint),
        endpoint.component(rack) matches Some(c) ==> {
            &&& c.rack_id == rack.rack_id
            &&& c.session_id == rack.session_id
            &&& endpoint.rack_id == Some(c.rack_id) ==> speaks_of(endpoint, c)
            &&& is_subsystem(endpoint, c.subsystem)
            &&& c.bmc_mac == address_given(endpoint)
            &&& c.nvl_domain == domain_given(endpoint)
            &&& c.nmxc_enabled == says_enabled(endpoint)
            &&& c.nmxc_primary == says_primary(endpoint)
            &&& is_optional_text(c.slot_number, slot_given(endpoint))
            &&& is_optional_text(c.tray_index, tray_given(endpoint))
        },
{
    if let Some(c) = endpoint.component(rack) {
        match slot_given(endpoint) {
            Some(n) => law_integer_text(c.slot_number, n as int),
            None => {},
        }
        match tray_given(endpoint) {
            Some(n) => law_integer_text(c.tray_index, n as int),
            None => {},
        }
    }
}

/// The session of a component is that of the rack it is in.
spec fn in_session(series: Seq<RackSeriesView>, c: ComponentView) -> bool {
    session_of(series, c.rack_id) matches Some(r) && r.rack_id == c.rack_id && r.session_id
        == c.session_id
}

/// Whether an endpoint gives a view with this identity.
spec fn gives(series: Seq<RackSeriesView>, endpoint: EndpointView, identity: Identity) -> bool {
    observation(series, endpoint) is Some && observation(series, endpoint)->0.identity()
        == identity
}

/// An endpoint gives a view of a component exactly where it speaks of it.
proof fn lemma_gives(series: Seq<RackSeriesView>, endpoint: EndpointView, c: ComponentView)
    requires
        in_session(series, c),
    ensures
        gives(series, endpoint, c.identity()) <==> speaks_of(endpoint, c),
{
    let r = session_of(series, c.rack_id)->0;
    law_labels_of_an_endpoint(endpoint, r);
    if let Some(id) = endpoint.rack_id {
        law_session_is_last(series, id);
        if let Some(q) = session_of(series, id) {
            law_labels_of_an_endpoint(endpoint, q);
        }
    }
}

/// Whether `value` is the first text that is not empty among those given by the items in question,
/// or empty where there is none.
pub open spec fn is_first_given<A>(
    items: Seq<A>,
    about: spec_fn(A) -> bool,
    given: spec_fn(A) -> Seq<char>,
    value: Seq<char>,
) -> bool {
    if value.len() == 0 {
        forall|i: int|
            0 <= i < items.len() && about(#[trigger] items[i]) ==> given(items[i]).len() == 0
    } else {
        exists|i: int|
            {
                &&& 0 <= i < items.len()
                &&& about(#[trigger] items[i])
                &&& given(items[i]) == value
                &&& forall|j: int|
                    0 <= j < i && about(#[trigger] items[j]) ==> given(items[j]).len() == 0
            }
    }
}

/// Whether one of the items in question has the flag.
pub open spec fn is_any<A>(
    items: Seq<A>,
    about: spec_fn(A) -> bool,
    flag: spec_fn(A) -> bool,
) -> bool {
    exists|i: int| 0 <= i < items.len() && about(#[trigger] items[i]) && flag(items[i])
}

/// One item more adds its text where there was none before.
proof fn lemma_given_step<A>(
    items: Seq<A>,
    about: spec_fn(A) -> bool,
    given: spec_fn(A) -> Seq<char>,
    value: Seq<char>,
    next: A,
)
    requires
        is_first_given(items, about, given, value),
    ensures
        is_first_given(
            items.push(next),
            about,
            given,
            if about(next) && value.len() == 0 {
                given(next)
            } else {
                value
            },
        ),
{
    let s = items.push(next);
    if value.len() > 0 {
        let i = choose|i: int|
            {
                &&& 0 <= i < items.len()
                &&& about(#[trigger] items[i])
                &&& given(items[i]) == value
                &&& forall|j: int|
                    0 <= j < i && about(#[trigger] items[j]) ==> given(items[j]).len() == 0
            };
        assert(about(s[i]) && given(s[i]) == value);
        assert forall|j: int| 0 <= j < i && about(#[trigger] s[j]) implies given(s[j]).len()
            == 0 by {
            assert(items[j] == s[j]);
        }
    } else {
        assert forall|j: int| 0 <= j < items.len() && about(#[trigger] s[j]) implies given(
            s[j],
        ).len() == 0 by {
            assert(items[j] == s[j]);
        }
        assert(s[items.len() as int] == next);
    }
}

/// One item more sets the flag where it has it.
proof fn lemma_any_step<A>(
    items: Seq<A>,
    about: spec_fn(A) -> bool,
    flag: spec_fn(A) -> bool,
    next: A,
)
    ensures
        is_any(items.push(next), about, flag) <==> is_any(items, about, flag) || (about(next)
            && flag(next)),
{
    let s = items.push(next);
    if is_any(items, about, flag) {
        let i = choose|i: int|
            0 <= i < items.len() && about(#[trigger] items[i]) && flag(items[i]);
        assert(about(s[i]) && flag(s[i]));
    }
    assert(s[items.len() as int] == next);
    if is_any(s, about, flag) {
        let i = choose|i: int| 0 <= i < s.len() && about(#[trigger] s[i]) && flag(s[i]);
        if i < items.len() {
            assert(about(items[i]) && flag(items[i]));
        }
    }
}

/// What is given does not depend on how it is said.
proof fn lemma_given_same<A>(
    items: Seq<A>,
    about: spec_fn(A) -> bool,
    given: spec_fn(A) -> Seq<char>,
    other_about: spec_fn(A) -> bool,
    other_given: spec_fn(A) -> Seq<char>,
    value: Seq<char>,
)
    requires
        is_first_given(items, about, given, value),
        forall|i: int|
            0 <= i < items.len() ==> about(#[trigger] items[i]) == other_about(items[i]),
        forall|i: int|
            0 <= i < items.len() && about(#[trigger] items[i]) ==> given(items[i]) == other_given(
                items[i],
            ),
    ensures
        is_first_given(items, other_about, other_given, value),
{
    if value.len() > 0 {
        let i = choose|i: int|
            {
                &&& 0 <= i < items.len()
                &&& about(#[trigger] items[i])
                &&& given(items[i]) == value
                &&& forall|j: int|
                    0 <= j < i && about(#[trigger] items[j]) ==> given(items[j]).len() == 0
            };
        assert(other_about(items[i]) && other_given(items[i]) == value);
    }
}

/// What all views of a component give, merged, where there are any.
spec fn merged_view(
    series: Seq<RackSeriesView>,
    endpoints: Seq<EndpointView>,
    identity: Identity,
) -> Option<ComponentView> {
    combined(observations(series, endpoints), identity)
}

/// One endpoint more is merged in where it gives a view of the component.
proof fn lemma_merged_step(
    series: Seq<RackSeriesView>,
    endpoints: Seq<EndpointView>,
    identity: Identity,
)
    requires
        endpoints.len() > 0,
    ensures
        ({
            let before = merged_view(series, endpoints.drop_last(), identity);
            let now = merged_view(series, endpoints, identity);
            let last = endpoints.last();
            if gives(series, last, identity) {
                let view = observation(series, last)->0;
                now == match before {
                    Some(c) => Some(c.merged(view)),
                    None => Some(view),
                }
            } else {
                now == before
            }
        }),
{
    let before = observations(series, endpoints.drop_last());
    let now = observations(series, endpoints);
    if let Some(view) = observation(series, endpoints.last()) {
        assert(now.drop_last() =~= before);
        assert(now.last() == view);
    }
}

/// The text of a field, or none where there is no component.
spec fn field_of(c: Option<ComponentView>, field: spec_fn(ComponentView) -> Seq<char>) -> Seq<
    char,
> {
    match c {
        Some(c) => field(c),
        None => Seq::empty(),
    }
}

/// Merging takes the first text of a field that is not empty.
spec fn merges_texts(field: spec_fn(ComponentView) -> Seq<char>) -> bool {
    forall|a: ComponentView, b: ComponentView| #[trigger]
        field(a.merged(b)) == if field(a).len() == 0 {
            field(b)
        } else {
            field(a)
        }
}

/// Of all endpoints that give a view of a component, the first text stands.
proof fn lemma_field_over_endpoints(
    series: Seq<RackSeriesView>,
    endpoints: Seq<EndpointView>,
    identity: Identity,
    field: spec_fn(ComponentView) -> Seq<char>,
)
    requires
        merges_texts(field),
    ensures
        is_first_given(
            endpoints,
            |e: EndpointView| gives(series, e, identity),
            |e: EndpointView| field(observation(series, e)->0),
            field_of(merged_view(series, endpoints, identity), field),
        ),
    decreases endpoints.len(),
{
    let about = |e: EndpointView| gives(series, e, identity);
    let given = |e: EndpointView| field(observation(series, e)->0);
    let value = field_of(merged_view(series, endpoints, identity), field);
    if endpoints.len() == 0 {
        assert(value.len() == 0);
    } else {
        let init = endpoints.drop_last();
        let last = endpoints.last();
        let before = field_of(merged_view(series, init, identity), field);
        lemma_field_over_endpoints(series, init, identity, field);
        lemma_merged_step(series, endpoints, identity);
        lemma_given_step(init, about, given, before, last);
        assert(init.push(last) =~= endpoints);
        if about(last) {
            let view = observation(series, last)->0;
            if let Some(c) = merged_view(series, init, identity) {
                assert(value == field(c.merged(view)));
            }
        }
    }
}

/// The flags of a component are set where any endpoint that gives a view of it sets them; its
/// subsystem is that of the first such endpoint; and it is there where there is such an endpoint.
proof fn lemma_flags_over_endpoints(
    series: Seq<RackSeriesView>,
    endpoints: Seq<EndpointView>,
    identity: Identity,
)
    ensures
        match merged_view(series, endpoints, identity) {
            Some(c) => {
                let about = |e: EndpointView| gives(series, e, identity);
                &&& c.identity() == identity
                &&& c.nmxc_enabled <==> is_any(
                    endpoints,
                    about,
                    |e: EndpointView| observation(series, e)->0.nmxc_enabled,
                )
                &&& c.nmxc_primary <==> is_any(
                    endpoints,
                    about,
                    |e: EndpointView| observation(series, e)->0.nmxc_primary,
                )
                &&& exists|i: int|
                    {
                        &&& 0 <= i < endpoints.len()
                        &&& gives(series, #[trigger] endpoints[i], identity)
                        &&& observation(series, endpoints[i])->0.subsystem == c.subsystem
                        &&& forall|j: int|
                            0 <= j < i ==> !gives(series, #[trigger] endpoints[j], identity)
                    }
            },
            None => forall|i: int|
                0 <= i < endpoints.len() ==> !gives(series, #[trigger] endpoints[i], identity),
        },
    decreases endpoints.len(),
{
    if endpoints.len() > 0 {
        let about = |e: EndpointView| gives(series, e, identity);
        let enabled = |e: EndpointView| observation(series, e)->0.nmxc_enabled;
        let primary = |e: EndpointView| observation(series, e)->0.nmxc_primary;
        let init = endpoints.drop_last();
        let last = endpoints.last();
        lemma_flags_over_endpoints(series, init, identity);
        lemma_merged_step(series, endpoints, identity);
        lemma_any_step(init, about, enabled, last);
        lemma_any_step(init, about, primary, last);
        assert(init.push(last) =~= endpoints);
        assert(endpoints[endpoints.len() - 1] == last);
        assert(forall|i: int| 0 <= i < init.len() ==> #[trigger] endpoints[i] == init[i]);
        match merged_view(series, init, identity) {
            Some(c) => {
                let i = choose|i: int|
                    {
                        &&& 0 <= i < init.len()
                        &&& gives(series, #[trigger] init[i], identity)
                        &&& observation(series, init[i])->0.subsystem == c.subsystem
                        &&& forall|j: int|
                            0 <= j < i ==> !gives(series, #[trigger] init[j], identity)
                    };
                assert(gives(series, endpoints[i], identity));
            },
            None => {
                if is_any(init, about, enabled) {
                    let i = choose|i: int|
                        0 <= i < init.len() && about(#[trigger] init[i]) && enabled(init[i]);
                    assert(gives(series, init[i], identity));
                }
                if is_any(init, about, primary) {
                    let i = choose|i: int|
                        0 <= i < init.len() && about(#[trigger] init[i]) && primary(init[i]);
                    assert(gives(series, init[i], identity));
                }
            },
        }
    }
}

/// Whether `text` is the last session of a rack among these, by its bytes.
pub open spec fn is_last_of(
    series: Seq<RackSeriesView>,
    rack_id: Seq<char>,
    text: Seq<char>,
) -> bool {
    &&& exists|i: int|
        0 <= i < series.len() && (#[trigger] series[i]).rack_id == rack_id && series[i].session_id
            == text
    &&& forall|i: int|
        0 <= i < series.len() && (#[trigger] series[i]).rack_id == rack_id ==> !bytes_before(
            encode_utf8(text),
            encode_utf8(series[i].session_id),
        )
}

/// The session that is found for a rack is the last one.
proof fn lemma_found_is_last(series: Seq<RackSeriesView>, rack_id: Seq<char>)
    ensures
        match session_of(series, rack_id) {
            Some(r) => r.rack_id == rack_id && is_last_of(series, rack_id, r.session_id),
            None => forall|i: int|
                0 <= i < series.len() ==> (#[trigger] series[i]).rack_id != rack_id,
        },
{
    law_session_is_last(series, rack_id);
    if let Some(r) = session_of(series, rack_id) {
        let k = choose|k: int| 0 <= k < series.len() && series[k] == r;
        assert(series[k].rack_id == rack_id && series[k].session_id == r.session_id);
        assert forall|i: int|
            0 <= i < series.len() && (#[trigger] series[i]).rack_id
                == rack_id implies !bytes_before(
            encode_utf8(r.session_id),
            encode_utf8(series[i].session_id),
        ) by {
            law_texts_are_ordered_by_bytes(r.session_id, series[i].session_id);
        }
    }
}

/// A component is in the session of its rack.
proof fn lemma_in_session(
    series: Seq<RackSeriesView>,
    endpoints: Seq<EndpointView>,
    c: ComponentView,
)
    requires
        components_of(observations(series, endpoints)).contains(c),
    ensures
        in_session(series, c),
{
    lemma_flags_over_endpoints(series, endpoints, c.identity());
    let i = choose|i: int|
        {
            &&& 0 <= i < endpoints.len()
            &&& gives(series, #[trigger] endpoints[i], c.identity())
            &&& observation(series, endpoints[i])->0.subsystem == c.subsystem
            &&& forall|j: int|
                0 <= j < i ==> !gives(series, #[trigger] endpoints[j], c.identity())
        };
    let id = endpoints[i].rack_id->0;
    law_session_is_last(series, id);
    law_labels_of_an_endpoint(endpoints[i], session_of(series, id)->0);
}

/// Law: every endpoint that names a component, in one of these racks, has its component collected:
/// with that rack, the last of its sessions, and the kind and identifier that it names.
pub proof fn law_every_endpoint_has_a_component(
    series: Seq<RackSeriesView>,
    endpoints: Seq<EndpointView>,
    e: int,
    rack: int,
)
    requires
        0 <= e < endpoints.len(),
        0 <= rack < series.len(),
        endpoints[e].rack_id == Some(series[rack].rack_id),
        names_component(endpoints[e]),
    ensures
        exists|c: ComponentView|
            {
                &&& #[trigger] components_of(observations(series, endpoints)).contains(c)
                &&& speaks_of(endpoints[e], c)
                &&& is_last_of(series, c.rack_id, c.session_id)
            },
{
    let id = series[rack].rack_id;
    lemma_found_is_last(series, id);
    let r = session_of(series, id)->0;
    law_labels_of_an_endpoint(endpoints[e], r);
    let view = endpoints[e].component(r)->0;
    assert(gives(series, endpoints[e], view.identity()));
    lemma_flags_over_endpoints(series, endpoints, view.identity());
    let c = merged_view(series, endpoints, view.identity())->0;
    assert(components_of(observations(series, endpoints)).contains(c));
    lemma_gives(series, endpoints[e], c);
}

/// Law: every endpoint that names a component, in a rack that has a session, has its component
/// published: with that rack, its last session, and the kind and identifier that it names.
pub proof fn law_every_endpoint_is_published(
    racks: Seq<RackInventoryView>,
    endpoints: Seq<EndpointView>,
    e: int,
    rack: int,
)
    requires
        0 <= e < endpoints.len(),
        0 <= rack < racks.len(),
        endpoints[e].rack_id == Some(racks[rack].rack_id),
        is_dated(racks[rack]),
        names_component(endpoints[e]),
    ensures
        exists|c: ComponentView|
            {
                &&& #[trigger] desired_components(racks, endpoints).contains(c)
                &&& speaks_of(endpoints[e], c)
                &&& is_last_session(racks, c.rack_id, c.session_id)
            },
{
    let series = rack_series(racks);
    let id = racks[rack].rack_id;
    lemma_session_is_last(racks, id);
    let r = session_of(series, id)->0;
    law_labels_of_an_endpoint(endpoints[e], r);
    let view = endpoints[e].component(r)->0;
    assert(gives(series, endpoints[e], view.identity()));
    lemma_flags_over_endpoints(series, endpoints, view.identity());
    let c = merged_view(series, endpoints, view.identity())->0;
    assert(desired_components(racks, endpoints).contains(c));
    lemma_gives(series, endpoints[e], c);
}

/// Law: a collected component is one that some endpoint speaks of, in the last session of its rack.
/// Its subsystem is that of the first such endpoint; the address of its BMC and its domain are the
/// first that such an endpoint gives, and empty where none does; and NMX-C is enabled, or the
/// switch the primary one, where any such endpoint says so, in whatever role.
pub proof fn law_what_endpoints_say(
    series: Seq<RackSeriesView>,
    endpoints: Seq<EndpointView>,
    c: ComponentView,
)
    requires
        components_of(observations(series, endpoints)).contains(c),
    ensures
        is_last_of(series, c.rack_id, c.session_id),
        exists|i: int|
            {
                &&& 0 <= i < endpoints.len()
                &&& speaks_of(#[trigger] endpoints[i], c)
                &&& is_subsystem(endpoints[i], c.subsystem)
                &&& forall|j: int| 0 <= j < i ==> !speaks_of(#[trigger] endpoints[j], c)
            },
        is_first_given(
            endpoints,
            |e: EndpointView| speaks_of(e, c),
            |e: EndpointView| address_given(e),
            c.bmc_mac,
        ),
        is_first_given(
            endpoints,
            |e: EndpointView| speaks_of(e, c),
            |e: EndpointView| domain_given(e),
            c.nvl_domain,
        ),
        c.nmxc_enabled <==> exists|i: int|
            0 <= i < endpoints.len() && speaks_of(#[trigger] endpoints[i], c) && says_enabled(
                endpoints[i],
            ),
        c.nmxc_primary <==> exists|i: int|
            0 <= i < endpoints.len() && speaks_of(#[trigger] endpoints[i], c) && says_primary(
                endpoints[i],
            ),
{
    let identity = c.identity();
    let about = |e: EndpointView| gives(series, e, identity);
    lemma_in_session(series, endpoints, c);
    lemma_found_is_last(series, c.rack_id);
    lemma_flags_over_endpoints(series, endpoints, identity);
    assert forall|i: int| 0 <= i < endpoints.len() implies gives(
        series,
        #[trigger] endpoints[i],
        identity,
    ) == speaks_of(endpoints[i], c) by {
        lemma_gives(series, endpoints[i], c);
    }
    assert forall|i: int|
        0 <= i < endpoints.len() && gives(series, #[trigger] endpoints[i], identity) implies {
        let view = observation(series, endpoints[i])->0;
        &&& is_subsystem(endpoints[i], view.subsystem)
        &&& view.bmc_mac == address_given(endpoints[i])
        &&& view.nvl_domain == domain_given(endpoints[i])
        &&& view.nmxc_enabled == says_enabled(endpoints[i])
        &&& view.nmxc_primary == says_primary(endpoints[i])
    } by {
        law_labels_of_an_endpoint(
            endpoints[i],
            session_of(series, endpoints[i].rack_id->0)->0,
        );
    }
    let mac = |v: ComponentView| v.bmc_mac;
    let domain = |v: ComponentView| v.nvl_domain;
    lemma_field_over_endpoints(series, endpoints, identity, mac);
    lemma_given_same(
        endpoints,
        about,
        |e: EndpointView| mac(observation(series, e)->0),
        |e: EndpointView| speaks_of(e, c),
        |e: EndpointView| address_given(e),
        c.bmc_mac,
    );
    lemma_field_over_endpoints(series, endpoints, identity, domain);
    lemma_given_same(
        endpoints,
        about,
        |e: EndpointView| domain(observation(series, e)->0),
        |e: EndpointView| speaks_of(e, c),
        |e: EndpointView| domain_given(e),
        c.nvl_domain,
    );
    let enabled = |e: EndpointView| observation(series, e)->0.nmxc_enabled;
    let primary = |e: EndpointView| observation(series, e)->0.nmxc_primary;
    if is_any(endpoints, about, enabled) {
        let i = choose|i: int|
            0 <= i < endpoints.len() && about(#[trigger] endpoints[i]) && enabled(endpoints[i]);
        assert(gives(series, endpoints[i], identity));
    }
    if exists|i: int|
        0 <= i < endpoints.len() && speaks_of(#[trigger] endpoints[i], c) && says_enabled(
            endpoints[i],
        ) {
        let i = choose|i: int|
            0 <= i < endpoints.len() && speaks_of(#[trigger] endpoints[i], c) && says_enabled(
                endpoints[i],
            );
        assert(about(endpoints[i]) && enabled(endpoints[i]));
    }
    if is_any(endpoints, about, primary) {
        let i = choose|i: int|
            0 <= i < endpoints.len() && about(#[trigger] endpoints[i]) && primary(endpoints[i]);
        assert(gives(series, endpoints[i], identity));
    }
    if exists|i: int|
        0 <= i < endpoints.len() && speaks_of(#[trigger] endpoints[i], c) && says_primary(
            endpoints[i],
        ) {
        let i = choose|i: int|
            0 <= i < endpoints.len() && speaks_of(#[trigger] endpoints[i], c) && says_primary(
                endpoints[i],
            );
        assert(about(endpoints[i]) && primary(endpoints[i]));
    }
    let i = choose|i: int|
        {
            &&& 0 <= i < endpoints.len()
            &&& gives(series, #[trigger] endpoints[i], identity)
            &&& observation(series, endpoints[i])->0.subsystem == c.subsystem
            &&& forall|j: int| 0 <= j < i ==> !gives(series, #[trigger] endpoints[j], identity)
        };
    assert(speaks_of(endpoints[i], c));
}

/// Law: a published component is what the endpoints of the snapshot say of it, in the last session
/// of its rack.
pub proof fn law_what_endpoints_say_is_published(
    racks: Seq<RackInventoryView>,
    endpoints: Seq<EndpointView>,
    c: ComponentView,
)
    requires
        desired_components(racks, endpoints).contains(c),
    ensures
        is_last_session(racks, c.rack_id, c.session_id),
        exists|i: int|
            {
                &&& 0 <= i < endpoints.len()
                &&& speaks_of(#[trigger] endpoints[i], c)
                &&& is_subsystem(endpoints[i], c.subsystem)
                &&& forall|j: int| 0 <= j < i ==> !speaks_of(#[trigger] endpoints[j], c)
            },
        is_first_given(
            endpoints,
            |e: EndpointView| speaks_of(e, c),
            |e: EndpointView| address_given(e),
            c.bmc_mac,
        ),
        is_first_given(
            endpoints,
            |e: EndpointView| speaks_of(e, c),
            |e: EndpointView| domain_given(e),
            c.nvl_domain,
        ),
        c.nmxc_enabled <==> exists|i: int|
            0 <= i < endpoints.len() && speaks_of(#[trigger] endpoints[i], c) && says_enabled(
                endpoints[i],
            ),
        c.nmxc_primary <==> exists|i: int|
            0 <= i < endpoints.len() && speaks_of(#[trigger] endpoints[i], c) && says_primary(
                endpoints[i],
            ),
{
    lemma_in_session(rack_series(racks), endpoints, c);
    lemma_session_is_last(racks, c.rack_id);
    law_what_endpoints_say(rack_series(racks), endpoints, c);
}

/// Whether `text` is the first number that an endpoint in question gives, or empty where none
/// gives one.
pub open spec fn is_first_number(
    endpoints: Seq<EndpointView>,
    c: ComponentView,
    given: spec_fn(EndpointView) -> Option<i32>,
    text: Seq<char>,
) -> bool {
    ||| {
        &&& text.len() == 0
        &&& forall|i: int|
            0 <= i < endpoints.len() && speaks_of(#[trigger] endpoints[i], c) ==> given(
                endpoints[i],
            ) is None
    }
    ||| exists|i: int|
        {
            &&& 0 <= i < endpoints.len()
            &&& speaks_of(#[trigger] endpoints[i], c)
            &&& given(endpoints[i]) is Some
            &&& is_integer_text(text, given(endpoints[i])->0 as int)
            &&& forall|j: int|
                0 <= j < i && speaks_of(#[trigger] endpoints[j], c) ==> given(
                    endpoints[j],
                ) is None
        }
}

/// The first text of a number is the text of the first number.
proof fn lemma_first_number(
    series: Seq<RackSeriesView>,
    endpoints: Seq<EndpointView>,
    c: ComponentView,
    field: spec_fn(ComponentView) -> Seq<char>,
    given: spec_fn(EndpointView) -> Option<i32>,
)
    requires
        in_session(series, c),
        merged_view(series, endpoints, c.identity()) == Some(c),
        merges_texts(field),
        forall|i: int|
            0 <= i < endpoints.len() && gives(series, #[trigger] endpoints[i], c.identity())
                ==> is_optional_text(
                field(observation(series, endpoints[i])->0),
                given(endpoints[i]),
            ),
    ensures
        is_first_number(endpoints, c, given, field(c)),
{
    let about = |e: EndpointView| gives(series, e, c.identity());
    let text = |e: EndpointView| field(observation(series, e)->0);
    lemma_field_over_endpoints(series, endpoints, c.identity(), field);
    assert forall|i: int| 0 <= i < endpoints.len() implies gives(
        series,
        #[trigger] endpoints[i],
        c.identity(),
    ) == speaks_of(endpoints[i], c) by {
        lemma_gives(series, endpoints[i], c);
    }
    assert forall|i: int|
        0 <= i < endpoints.len() && gives(
            series,
            #[trigger] endpoints[i],
            c.identity(),
        ) implies (text(endpoints[i]).len() == 0 <==> given(endpoints[i]) is None) by {
        assert(is_optional_text(text(endpoints[i]), given(endpoints[i])));
    }
    if field(c).len() == 0 {
        assert forall|i: int|
            0 <= i < endpoints.len() && speaks_of(#[trigger] endpoints[i], c) implies given(
            endpoints[i],
        ) is None by {
            assert(about(endpoints[i]));
        }
    } else {
        let i = choose|i: int|
            {
                &&& 0 <= i < endpoints.len()
                &&& about(#[trigger] endpoints[i])
                &&& text(endpoints[i]) == field(c)
                &&& forall|j: int|
                    0 <= j < i && about(#[trigger] endpoints[j]) ==> text(endpoints[j]).len() == 0
            };
        assert(speaks_of(endpoints[i], c));
        assert(is_optional_text(text(endpoints[i]), given(endpoints[i])));
        assert forall|j: int| 0 <= j < i && speaks_of(#[trigger] endpoints[j], c) implies given(
            endpoints[j],
        ) is None by {
            assert(about(endpoints[j]));
        }
    }
}

/// Law: the slot and the tray of a collected component are the first that an endpoint gives which
/// speaks of it, in decimal, and empty where none gives one.
pub proof fn law_slot_and_tray(
    series: Seq<RackSeriesView>,
    endpoints: Seq<EndpointView>,
    c: ComponentView,
)
    requires
        components_of(observations(series, endpoints)).contains(c),
    ensures
        is_first_number(endpoints, c, |e: EndpointView| slot_given(e), c.slot_number),
        is_first_number(endpoints, c, |e: EndpointView| tray_given(e), c.tray_index),
{
    lemma_in_session(series, endpoints, c);
    assert forall|i: int|
        0 <= i < endpoints.len() && gives(
            series,
            #[trigger] endpoints[i],
            c.identity(),
        ) implies is_optional_text(
        observation(series, endpoints[i])->0.slot_number,
        slot_given(endpoints[i]),
    ) && is_optional_text(
        observation(series, endpoints[i])->0.tray_index,
        tray_given(endpoints[i]),
    ) by {
        law_labels_of_an_endpoint(
            endpoints[i],
            session_of(series, endpoints[i].rack_id->0)->0,
        );
    }
    lemma_first_number(
        series,
        endpoints,
        c,
        |v: ComponentView| v.slot_number,
        |e: EndpointView| slot_given(e),
    );
    lemma_first_number(
        series,
        endpoints,
        c,
        |v: ComponentView| v.tray_index,
        |e: EndpointView| tray_given(e),
    );
}

/// Law: the slot and the tray of a published component are the first that an endpoint gives which
/// speaks of it, in decimal, and empty where none gives one.
pub proof fn law_slot_and_tray_are_published(
    racks: Seq<RackInventoryView>,
    endpoints: Seq<EndpointView>,
    c: ComponentView,
)
    requires
        desired_components(racks, endpoints).contains(c),
    ensures
        is_first_number(endpoints, c, |e: EndpointView| slot_given(e), c.slot_number),
        is_first_number(endpoints, c, |e: EndpointView| tray_given(e), c.tray_index),
{
    law_slot_and_tray(rack_series(racks), endpoints, c);
}

/// Law: no endpoint speaks of two published components.
pub proof fn law_one_component_for_an_endpoint(
    racks: Seq<RackInventoryView>,
    endpoints: Seq<EndpointView>,
    endpoint: EndpointView,
    a: ComponentView,
    b: ComponentView,
)
    requires
        desired_components(racks, endpoints).contains(a),
        desired_components(racks, endpoints).contains(b),
        speaks_of(endpoint, a),
        speaks_of(endpoint, b),
    ensures
        a == b,
{
    lemma_in_session(rack_series(racks), endpoints, a);
    lemma_in_session(rack_series(racks), endpoints, b);
}

/// Whether a component reports this domain for its rack: it is a switch that knows its domain.
pub open spec fn reports(c: ComponentView, d: RackDomainView) -> bool {
    &&& c.subsystem == Subsystem::Switch
    &&& c.nvl_domain.len() > 0
    &&& c.rack_id == d.rack_id
    &&& c.session_id == d.session_id
    &&& c.nvl_domain == d.nvl_domain
}

/// Whether a component is a switch of this rack and session that knows its domain.
pub open spec fn is_switch_with_domain(
    c: ComponentView,
    rack_id: Seq<char>,
    session_id: Seq<char>,
) -> bool {
    &&& c.subsystem == Subsystem::Switch
    &&& c.nvl_domain.len() > 0
    &&& c.rack_id == rack_id
    &&& c.session_id == session_id
}

/// Law: the domain of a rack is published exactly where a switch of the rack knows it and every
/// switch of the rack that knows a domain knows that one.
pub proof fn law_published_domains(components: Set<ComponentView>, d: RackDomainView)
    ensures
        desired_rack_domains(components).contains(d) <==> {
            &&& exists|x: ComponentView| #[trigger] components.contains(x) && reports(x, d)
            &&& forall|y: ComponentView| #[trigger]
                components.contains(y) && is_switch_with_domain(y, d.rack_id, d.session_id)
                    ==> y.nvl_domain == d.nvl_domain
        },
{
    lemma_claims(components, d);
}

/// A claim is what a component reports, and it is contested by a switch that knows another domain.
proof fn lemma_claims(components: Set<ComponentView>, d: RackDomainView)
    ensures
        is_claimed(components, d) <==> exists|x: ComponentView| #[trigger]
            components.contains(x) && reports(x, d),
        is_uncontested(components, d) <==> forall|y: ComponentView| #[trigger]
            components.contains(y) && is_switch_with_domain(y, d.rack_id, d.session_id)
                ==> y.nvl_domain == d.nvl_domain,
{
    assert forall|x: ComponentView| (x.domain_claim() == Some(d)) == #[trigger] reports(x, d) by {}
    if is_claimed(components, d) {
        let x = choose|x: ComponentView| #[trigger]
            components.contains(x) && x.domain_claim() == Some(d);
        assert(components.contains(x) && reports(x, d));
    }
    if exists|x: ComponentView| #[trigger] components.contains(x) && reports(x, d) {
        let x = choose|x: ComponentView| #[trigger] components.contains(x) && reports(x, d);
        assert(components.contains(x) && x.domain_claim() == Some(d));
    }
    assert forall|y: ComponentView| #[trigger] is_switch_with_domain(
        y,
        d.rack_id,
        d.session_id,
    ) == (y.domain_claim() is Some && y.domain_claim()->0.same_rack(d)) by {}
}

/// Law: where all switches of a rack that know a domain know the same one, that is the domain that
/// is published for the rack.
pub proof fn law_switches_give_the_domain(components: Set<ComponentView>, x: ComponentView)
    requires
        components.contains(x),
        x.subsystem == Subsystem::Switch,
        x.nvl_domain.len() > 0,
        forall|y: ComponentView| #[trigger]
            components.contains(y) && is_switch_with_domain(y, x.rack_id, x.session_id)
                ==> y.nvl_domain == x.nvl_domain,
    ensures
        desired_rack_domains(components).contains(
            RackDomainView {
                rack_id: x.rack_id,
                session_id: x.session_id,
                nvl_domain: x.nvl_domain,
            },
        ),
{
    let d = RackDomainView {
        rack_id: x.rack_id,
        session_id: x.session_id,
        nvl_domain: x.nvl_domain,
    };
    assert(reports(x, d));
    law_published_domains(components, d);
}

/// Law: where two switches of a rack know different domains, no domain is published for the rack,
/// and the domains that its switches know are contested.
pub proof fn law_switches_in_conflict_give_no_domain(
    components: Set<ComponentView>,
    x: ComponentView,
    y: ComponentView,
    d: RackDomainView,
)
    requires
        components.contains(x),
        components.contains(y),
        is_switch_with_domain(x, d.rack_id, d.session_id),
        is_switch_with_domain(y, d.rack_id, d.session_id),
        x.nvl_domain != y.nvl_domain,
    ensures
        !desired_rack_domains(components).contains(d),
        contested_domains(components).contains(d) <==> exists|z: ComponentView| #[trigger]
            components.contains(z) && reports(z, d),
{
    law_published_domains(components, d);
    lemma_claims(components, d);
}

/// Law: a domain is contested exactly where a switch of the rack knows it and another switch of the
/// rack knows another.
pub proof fn law_contested_domains(components: Set<ComponentView>, d: RackDomainView)
    ensures
        contested_domains(components).contains(d) <==> {
            &&& exists|x: ComponentView| #[trigger] components.contains(x) && reports(x, d)
            &&& exists|y: ComponentView| #[trigger]
                components.contains(y) && is_switch_with_domain(y, d.rack_id, d.session_id)
                    && y.nvl_domain != d.nvl_domain
        },
{
    lemma_claims(components, d);
}

/// The claims on a list of racks are the domains of its entries.
proof fn lemma_all_claims(contested: Seq<ContestedRackView>, d: RackDomainView)
    ensures
        all_claims(contested).contains(d) <==> exists|i: int|
            {
                &&& 0 <= i < contested.len()
                &&& (#[trigger] contested[i]).rack_id == d.rack_id
                &&& contested[i].session_id == d.session_id
                &&& contested[i].domains.contains(d.nvl_domain)
            },
    decreases contested.len(),
{
    let all = all_claims(contested);
    if contested.len() > 0 {
        let init = contested.drop_last();
        let last = contested.last();
        let before = all_claims(init);
        lemma_all_claims(init, d);
        assert(contested[contested.len() - 1] == last);
        assert(forall|i: int| 0 <= i < init.len() ==> #[trigger] contested[i] == init[i]);
        assert(forall|i: int| 0 <= i < init.len() ==> #[trigger] init[i] == contested[i]);
        let has = last.rack_id == d.rack_id && last.session_id == d.session_id
            && last.domains.contains(d.nvl_domain);
        if all.contains(d) {
            let o = choose|o: int| 0 <= o < all.len() && all[o] == d;
            if o < before.len() {
                assert(before[o] == d);
            } else {
                assert(last.claims()[o - before.len()] == d);
                assert(last.domains[o - before.len()] == d.nvl_domain);
                assert(has);
            }
        }
        if before.contains(d) {
            let o = choose|o: int| 0 <= o < before.len() && before[o] == d;
            assert(all[o] == d);
        }
        if has {
            let o = choose|o: int|
                0 <= o < last.domains.len() && last.domains[o] == d.nvl_domain;
            assert(last.claims()[o] == d);
            assert(all[before.len() + o] == d);
        }
    }
}

/// Law: the contested racks that are reported are those with two switches that know different
/// domains, and the domains reported of one are those that its switches know.
pub proof fn law_reported_conflicts(
    contested: Seq<ContestedRackView>,
    components: Set<ComponentView>,
    d: RackDomainView,
)
    requires
        lists_contested(contested, components),
    ensures
        (exists|i: int|
            {
                &&& 0 <= i < contested.len()
                &&& (#[trigger] contested[i]).rack_id == d.rack_id
                &&& contested[i].session_id == d.session_id
                &&& contested[i].domains.contains(d.nvl_domain)
            }) <==> {
            &&& exists|x: ComponentView| #[trigger] components.contains(x) && reports(x, d)
            &&& exists|y: ComponentView| #[trigger]
                components.contains(y) && is_switch_with_domain(y, d.rack_id, d.session_id)
                    && y.nvl_domain != d.nvl_domain
        },
{
    lemma_all_claims(contested, d);
    law_contested_domains(components, d);
    assert(all_claims(contested).contains(d) == all_claims(contested).to_set().contains(d));
}

} // verus!
