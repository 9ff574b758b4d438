//! What a snapshot of the inventory says: which racks, components and rack domains there are.

use std::sync::Arc;

use vstd::prelude::*;

use crate::endpoint::{BmcEndpoint, RackInventory};
use crate::rows::{insert_sorted, sort_all};
use crate::series::{
    ComponentSeries, ContestedRack, RackDomainSeries, RackSeries, SkippedRack, Subsystem,
};
use crate::text::{precedes, same_text};

verus! {

use vstd::seq_lib::seq_to_set_is_finite;
use crate::endpoint::{mac_chars, EndpointView, RackInventoryView};
use crate::rows::{is_sorted, rows_identify, views};
use crate::series::{
    first_text,
    law_component_labels_identify,
    law_rack_domain_labels_identify,
    texts_agree,
    ComponentView,
    ContestedRackView,
    Identity,
    RackDomainView,
    RackSeriesView,
    SkippedRackView,
};
use crate::sizes::lemma_covered_is_no_larger;
use crate::text::{
    law_signed_decimal_injective,
    law_text_order,
    lemma_decimal_digits,
    lemma_padded_injective,
    lemma_padded_len,
    padded_decimal,
    power_of_ten,
    signed_decimal,
    text_precedes,
};

/// The series of those racks that have one, in order.
pub open spec fn rack_series(racks: Seq<RackInventoryView>) -> Seq<RackSeriesView>
    decreases racks.len(),
{
    if racks.len() == 0 {
        Seq::empty()
    } else {
        let before = rack_series(racks.drop_last());
        match racks.last().series() {
            Some(series) => before.push(series),
            None => before,
        }
    }
}

/// Those racks that are skipped because their creation time is not valid, in order.
pub open spec fn skipped_racks(racks: Seq<RackInventoryView>) -> Seq<SkippedRackView>
    decreases racks.len(),
{
    if racks.len() == 0 {
        Seq::empty()
    } else {
        let before = skipped_racks(racks.drop_last());
        match racks.last().skipped() {
            Some(skipped) => before.push(skipped),
            None => before,
        }
    }
}

/// The session that the components of a rack belong to: of the sessions of that rack, the one
/// whose identifier comes last.
pub open spec fn session_of(series: Seq<RackSeriesView>, rack_id: Seq<char>) -> Option<
    RackSeriesView,
>
    decreases series.len(),
{
    if series.len() == 0 {
        None
    } else {
        let before = session_of(series.drop_last(), rack_id);
        let last = series.last();
        if last.rack_id != rack_id {
            before
        } else {
            match before {
                Some(found) => if text_precedes(last.session_id, found.session_id) {
                    before
                } else {
                    Some(last)
                },
                None => Some(last),
            }
        }
    }
}

/// The view that an endpoint gives of its component, if its rack has a session.
pub open spec fn observation(series: Seq<RackSeriesView>, endpoint: EndpointView) -> Option<
    ComponentView,
> {
    match endpoint.rack_id {
        Some(rack_id) => match session_of(series, rack_id) {
            Some(session) => endpoint.component(session),
            None => None,
        },
        None => None,
    }
}

/// The views that the endpoints give of their components, in order.
pub open spec fn observations(
    series: Seq<RackSeriesView>,
    endpoints: Seq<EndpointView>,
) -> Seq<ComponentView>
    decreases endpoints.len(),
{
    if endpoints.len() == 0 {
        Seq::empty()
    } else {
        let before = observations(series, endpoints.drop_last());
        match observation(series, endpoints.last()) {
            Some(component) => before.push(component),
            None => before,
        }
    }
}

/// All views of one component, merged in order.
pub open spec fn combined(seen: Seq<ComponentView>, identity: Identity) -> Option<ComponentView>
    decreases seen.len(),
{
    if seen.len() == 0 {
        None
    } else {
        let before = combined(seen.drop_last(), identity);
        let last = seen.last();
        if last.identity() != identity {
            before
        } else {
            match before {
                Some(component) => Some(component.merged(last)),
                None => Some(last),
            }
        }
    }
}

/// The racks that a snapshot publishes.
pub open spec fn desired_racks(racks: Seq<RackInventoryView>) -> Set<RackSeriesView> {
    rack_series(racks).to_set()
}

/// The components that a sequence of views speaks of, each with all its views merged.
pub open spec fn components_of(seen: Seq<ComponentView>) -> Set<ComponentView> {
    Set::new(|c: ComponentView| combined(seen, c.identity()) == Some(c))
}

/// The components that a snapshot publishes.
pub open spec fn desired_components(
    racks: Seq<RackInventoryView>,
    endpoints: Seq<EndpointView>,
) -> Set<ComponentView> {
    components_of(observations(rack_series(racks), endpoints))
}

impl ComponentView {
    /// The rack domain that a component speaks for: that of a switch that knows its domain.
    pub open spec fn domain_claim(self) -> Option<RackDomainView> {
        if self.subsystem == Subsystem::Switch && self.nvl_domain.len() > 0 {
            Some(
                RackDomainView {
                    rack_id: self.rack_id,
                    session_id: self.session_id,
                    nvl_domain: self.nvl_domain,
                },
            )
        } else {
            None
        }
    }
}

impl RackDomainView {
    /// Whether two claims are on the same rack in the same session.
    pub open spec fn same_rack(self, other: RackDomainView) -> bool {
        self.rack_id == other.rack_id && self.session_id == other.session_id
    }
}

/// Whether some component claims `domain`.
pub open spec fn is_claimed(components: Set<ComponentView>, domain: RackDomainView) -> bool {
    exists|c: ComponentView| #[trigger]
        components.contains(c) && c.domain_claim() == Some(domain)
}

/// Whether no component claims another domain for the rack of `domain`.
pub open spec fn is_uncontested(components: Set<ComponentView>, domain: RackDomainView) -> bool {
    forall|c: ComponentView| #[trigger]
        components.contains(c) && c.domain_claim() is Some && c.domain_claim()->0.same_rack(domain)
            ==> c.domain_claim() == Some(domain)
}

/// The rack domains that a snapshot publishes: those that are claimed and not contested.
pub open spec fn desired_rack_domains(components: Set<ComponentView>) -> Set<RackDomainView> {
    Set::new(|d: RackDomainView| is_claimed(components, d) && is_uncontested(components, d))
}

/// The rack domains that are claimed and contested, which a snapshot does not publish.
pub open spec fn contested_domains(components: Set<ComponentView>) -> Set<RackDomainView> {
    Set::new(|d: RackDomainView| is_claimed(components, d) && !is_uncontested(components, d))
}

/// The claims on all these racks, in order.
pub open spec fn all_claims(contested: Seq<ContestedRackView>) -> Seq<RackDomainView>
    decreases contested.len(),
{
    if contested.len() == 0 {
        Seq::empty()
    } else {
        all_claims(contested.drop_last()) + contested.last().claims()
    }
}

impl ContestedRackView {
    /// Whether two entries are on the same rack in the same session.
    pub open spec fn same_rack(self, other: ContestedRackView) -> bool {
        self.rack_id == other.rack_id && self.session_id == other.session_id
    }
}

/// Whether these are the contested racks, in order, each with all the domains that are claimed for
/// it, in order.
pub open spec fn lists_contested(
    contested: Seq<ContestedRackView>,
    components: Set<ComponentView>,
) -> bool {
    &&& all_claims(contested).to_set() == contested_domains(components)
    &&& is_sorted::<RackDomainSeries>(all_claims(contested))
    &&& forall|i: int|
        0 <= i < contested.len() ==> (#[trigger] contested[i]).domains.len() > 0
    &&& forall|i: int, j: int|
        0 <= i && j == i + 1 && j < contested.len() ==> !(#[trigger] contested[i]).same_rack(
            #[trigger] contested[j],
        )
}

/// Where the part after a separator does not hold it, the separator splits a text in one way.
proof fn lemma_split_unique(
    a1: Seq<char>,
    b1: Seq<char>,
    a2: Seq<char>,
    b2: Seq<char>,
    separator: char,
)
    requires
        a1 + seq![separator] + b1 == a2 + seq![separator] + b2,
        !b1.contains(separator),
        !b2.contains(separator),
    ensures
        a1 == a2,
        b1 == b2,
{
    let whole = a1 + seq![separator] + b1;
    assert(whole.len() == a1.len() + 1 + b1.len());
    assert(whole.len() == a2.len() + 1 + b2.len());
    if a1.len() < a2.len() {
        assert(whole[a2.len() as int] == separator);
        assert(whole[a2.len() as int] == b1[a2.len() - a1.len() - 1]);
    } else if a2.len() < a1.len() {
        assert((a2 + seq![separator] + b2)[a1.len() as int] == separator);
        assert((a2 + seq![separator] + b2)[a1.len() as int] == b2[a1.len() - a2.len() - 1]);
    }
    assert(a1 =~= whole.take(a1.len() as int));
    assert(a2 =~= (a2 + seq![separator] + b2).take(a1.len() as int));
    assert(b1 =~= whole.skip(a1.len() as int + 1));
    assert(b2 =~= (a2 + seq![separator] + b2).skip(a1.len() as int + 1));
}

/// Law: a session identifier belongs to one rack and one creation time.
pub proof fn law_session_identifies(a: RackSeriesView, b: RackSeriesView)
    requires
        a.wf(),
        b.wf(),
        a.session_id == b.session_id,
    ensures
        a == b,
{
    let an = padded_decimal(a.created_nanos as nat, 9);
    let bn = padded_decimal(b.created_nanos as nat, 9);
    lemma_padded_len(a.created_nanos as nat, 9);
    lemma_padded_len(b.created_nanos as nat, 9);
    let at = signed_decimal(a.created_seconds as int);
    let bt = signed_decimal(b.created_seconds as int);
    let whole = a.session_id;
    assert(an =~= whole.skip(whole.len() - 9));
    assert(bn =~= whole.skip(whole.len() - 9));
    assert(power_of_ten(9) == 1_000_000_000) by {
        reveal_with_fuel(power_of_ten, 10);
    }
    lemma_padded_injective(a.created_nanos as nat, b.created_nanos as nat, 9);
    assert(a.rack_id + seq![':'] + at =~= whole.take(whole.len() - 10));
    assert(b.rack_id + seq![':'] + bt =~= whole.take(whole.len() - 10));
    lemma_signed_has_no_colon(a.created_seconds as int);
    lemma_signed_has_no_colon(b.created_seconds as int);
    lemma_split_unique(a.rack_id, at, b.rack_id, bt, ':');
    law_signed_decimal_injective(a.created_seconds as int, b.created_seconds as int);
}

/// The decimal text of an integer holds no colon.
proof fn lemma_signed_has_no_colon(n: int)
    ensures
        !signed_decimal(n).contains(':'),
{
    if n < 0 {
        lemma_decimal_digits((-n) as nat);
    } else {
        lemma_decimal_digits(n as nat);
    }
}

/// Every series of an inventory has the session that its rack and creation time give.
proof fn lemma_rack_series_wf(racks: Seq<RackInventoryView>)
    ensures
        forall|i: int|
            0 <= i < rack_series(racks).len() ==> (#[trigger] rack_series(racks)[i]).wf(),
    decreases racks.len(),
{
    if racks.len() > 0 {
        let before = rack_series(racks.drop_last());
        lemma_rack_series_wf(racks.drop_last());
        assert forall|i: int| 0 <= i < rack_series(racks).len() implies (
        #[trigger] rack_series(racks)[i]).wf() by {
            if i < before.len() {
                assert(rack_series(racks)[i] == before[i]);
            }
        }
    }
}

/// Law: the session of a rack is one of the rack's sessions, none of which comes after it; and a
/// rack has no session only where the snapshot has none of it.
pub proof fn law_session_is_last(series: Seq<RackSeriesView>, rack_id: Seq<char>)
    ensures
        match session_of(series, rack_id) {
            Some(found) => {
                &&& series.contains(found)
                &&& found.rack_id == rack_id
                &&& forall|i: int|
                    0 <= i < series.len() && (#[trigger] series[i]).rack_id == rack_id
                        ==> !text_precedes(found.session_id, series[i].session_id)
            },
            None => forall|i: int|
                0 <= i < series.len() ==> (#[trigger] series[i]).rack_id != rack_id,
        },
    decreases series.len(),
{
    if series.len() > 0 {
        let init = series.drop_last();
        let last = series.last();
        law_session_is_last(init, rack_id);
        law_text_order(last.session_id, last.session_id, last.session_id);
        assert(series[series.len() - 1] == last);
        match session_of(init, rack_id) {
            Some(found) => {
                let k = choose|k: int| 0 <= k < init.len() && init[k] == found;
                assert(series[k] == found);
                if last.rack_id == rack_id && !text_precedes(last.session_id, found.session_id) {
                    assert forall|i: int|
                        0 <= i < series.len() && (#[trigger] series[i]).rack_id
                            == rack_id implies !text_precedes(
                        last.session_id,
                        series[i].session_id,
                    ) by {
                        if i < init.len() {
                            assert(init[i] == series[i]);
                            let x = series[i].session_id;
                            law_text_order(found.session_id, last.session_id, x);
                            law_text_order(last.session_id, x, found.session_id);
                            law_text_order(x, found.session_id, last.session_id);
                        }
                    }
                } else {
                    assert forall|i: int|
                        0 <= i < series.len() && (#[trigger] series[i]).rack_id
                            == rack_id implies !text_precedes(
                        found.session_id,
                        series[i].session_id,
                    ) by {
                        if i < init.len() {
                            assert(init[i] == series[i]);
                        } else {
                            law_text_order(found.session_id, last.session_id, found.session_id);
                            law_text_order(last.session_id, found.session_id, last.session_id);
                        }
                    }
                }
            },
            None => {
                assert forall|i: int| 0 <= i < init.len() implies (
                #[trigger] series[i]).rack_id != rack_id by {
                    assert(init[i] == series[i]);
                }
            },
        }
    }
}

/// Law: the session of a rack depends on which racks the snapshot has, and not on their order or
/// on how often one is reported.
pub proof fn law_session_ignores_order(
    a: Seq<RackSeriesView>,
    b: Seq<RackSeriesView>,
    rack_id: Seq<char>,
)
    requires
        a.to_set() == b.to_set(),
        forall|i: int| 0 <= i < a.len() ==> (#[trigger] a[i]).wf(),
    ensures
        session_of(a, rack_id) == session_of(b, rack_id),
{
    law_session_is_last(a, rack_id);
    law_session_is_last(b, rack_id);
    assert forall|r: RackSeriesView| a.contains(r) <==> #[trigger] b.contains(r) by {
        assert(a.contains(r) == a.to_set().contains(r));
        assert(b.contains(r) == b.to_set().contains(r));
    }
    match session_of(a, rack_id) {
        Some(x) => {
            assert(b.contains(x));
            let i = choose|i: int| 0 <= i < b.len() && b[i] == x;
            assert(b[i].rack_id == rack_id);
            let y = session_of(b, rack_id)->0;
            assert(a.contains(y));
            let j = choose|j: int| 0 <= j < a.len() && a[j] == y;
            assert(a[j].rack_id == rack_id);
            let k = choose|k: int| 0 <= k < a.len() && a[k] == x;
            assert(a[k].wf() && a[j].wf());
            law_text_order(x.session_id, y.session_id, x.session_id);
            law_session_identifies(x, y);
        },
        None => {
            match session_of(b, rack_id) {
                Some(y) => {
                    assert(a.contains(y));
                    let j = choose|j: int| 0 <= j < a.len() && a[j] == y;
                    assert(a[j].rack_id == rack_id);
                },
                None => {},
            }
        },
    }
}

/// A merged component keeps the identity that its views share.
proof fn lemma_combined_identity(seen: Seq<ComponentView>, identity: Identity)
    ensures
        combined(seen, identity) is Some ==> combined(seen, identity)->0.identity() == identity,
    decreases seen.len(),
{
    if seen.len() > 0 {
        lemma_combined_identity(seen.drop_last(), identity);
    }
}

/// A component is there exactly where some view has its identity.
proof fn lemma_combined_some(seen: Seq<ComponentView>, identity: Identity)
    ensures
        combined(seen, identity) is Some <==> exists|i: int|
            0 <= i < seen.len() && (#[trigger] seen[i]).identity() == identity,
    decreases seen.len(),
{
    if seen.len() > 0 {
        let init = seen.drop_last();
        lemma_combined_some(init, identity);
        if combined(init, identity) is Some {
            let i = choose|i: int|
                0 <= i < init.len() && (#[trigger] init[i]).identity() == identity;
            assert(seen[i].identity() == identity);
        }
        if seen.last().identity() == identity {
            assert(seen[seen.len() - 1].identity() == identity);
        }
        if exists|i: int| 0 <= i < seen.len() && (#[trigger] seen[i]).identity() == identity {
            let i = choose|i: int|
                0 <= i < seen.len() && (#[trigger] seen[i]).identity() == identity;
            if i < init.len() {
                assert(init[i].identity() == identity);
            }
        }
    }
}

/// Collects the series of the racks, each once, in the order of their labels.
pub fn collect_racks(racks: &[RackInventory]) -> (r: Vec<RackSeries>)
    ensures
        is_sorted::<RackSeries>(views(r@)),
        views(r@).to_set() == desired_racks(views(racks@)),
        forall|i: int| 0 <= i < r@.len() ==> (#[trigger] r@[i])@.wf(),
{
    let mut found: Vec<RackSeries> = Vec::new();
    let mut i: usize = 0;
    assert(views(found@) =~= rack_series(views(racks@).take(0)));
    while i < racks.len()
        invariant
            i <= racks@.len(),
            is_sorted::<RackSeries>(views(found@)),
            views(found@).to_set() == rack_series(views(racks@).take(i as int)).to_set(),
            forall|j: int| 0 <= j < found@.len() ==> (#[trigger] found@[j])@.wf(),
        decreases racks@.len() - i,
    {
        let ghost before = rack_series(views(racks@).take(i as int));
        proof {
            let next = views(racks@).take(i + 1);
            assert(next.drop_last() =~= views(racks@).take(i as int));
            assert(next.last() == racks@[i as int]@);
        }
        match RackSeries::from_inventory(&racks[i]) {
            Some(series) => {
                let ghost old_found = found@;
                proof {
                    before.lemma_push_to_set_commute(series@);
                    lemma_rack_rows_identify(views(found@), series@);
                }
                insert_sorted(&mut found, series);
                assert forall|j: int| 0 <= j < found@.len() implies (
                #[trigger] found@[j])@.wf() by {
                    if found@[j] != series {
                        let k = choose|k: int|
                            0 <= k < old_found.len() && old_found[k] == found@[j];
                        assert(old_found[k]@.wf());
                    }
                }
            },
            None => {},
        }
        i = i + 1;
    }
    assert(views(racks@).take(i as int) =~= views(racks@));
    found
}

/// The labels of a rack tell it from all others.
proof fn lemma_rack_rows_identify(models: Seq<RackSeriesView>, m: RackSeriesView)
    requires
        forall|i: int| 0 <= i < models.len() ==> (#[trigger] models[i]).wf(),
        m.wf(),
    ensures
        rows_identify::<RackSeries>(models.to_set().insert(m)),
{
    let all = models.to_set().insert(m);
    assert forall|a: RackSeriesView, b: RackSeriesView| #[trigger]
        all.contains(a) && #[trigger] all.contains(b) && a.labels() == b.labels() implies a
        == b by {
        if a != m {
            let i = choose|i: int| 0 <= i < models.len() && models[i] == a;
            assert(models[i].wf());
        }
        if b != m {
            let i = choose|i: int| 0 <= i < models.len() && models[i] == b;
            assert(models[i].wf());
        }
        law_rack_labels_identify(a, b);
    }
}

/// The labels of a component tell it from all others.
proof fn lemma_component_rows_identify(models: Set<ComponentView>)
    ensures
        rows_identify::<ComponentSeries>(models),
{
    assert forall|a: ComponentView, b: ComponentView| #[trigger]
        models.contains(a) && #[trigger] models.contains(b) && a.labels() == b.labels() implies a
        == b by {
        law_component_labels_identify(a, b);
    }
}

/// The labels of a rack domain tell it from all others.
proof fn lemma_rack_domain_rows_identify(models: Set<RackDomainView>)
    ensures
        rows_identify::<RackDomainSeries>(models),
{
    assert forall|a: RackDomainView, b: RackDomainView| #[trigger]
        models.contains(a) && #[trigger] models.contains(b) && a.labels() == b.labels() implies a
        == b by {
        law_rack_domain_labels_identify(a, b);
    }
}

/// Finds the racks that are skipped because their creation time is not valid.
pub fn find_skipped_racks(racks: &[RackInventory]) -> (r: Vec<SkippedRack>)
    ensures
        views(r@) == skipped_racks(views(racks@)),
{
    let mut found: Vec<SkippedRack> = Vec::new();
    let mut i: usize = 0;
    assert(views(found@) =~= skipped_racks(views(racks@).take(0)));
    while i < racks.len()
        invariant
            i <= racks@.len(),
            views(found@) == skipped_racks(views(racks@).take(i as int)),
        decreases racks@.len() - i,
    {
        let ghost before = found@;
        proof {
            let next = views(racks@).take(i + 1);
            assert(next.drop_last() =~= views(racks@).take(i as int));
            assert(next.last() == racks@[i as int]@);
        }
        match SkippedRack::from_inventory(&racks[i]) {
            Some(skipped) => {
                found.push(skipped);
                assert(views(found@) =~= views(before).push(skipped@));
            },
            None => {},
        }
        i = i + 1;
    }
    assert(views(racks@).take(i as int) =~= views(racks@));
    found
}

/// Finds the session of a rack.
pub(crate) fn find_session(series: &Vec<RackSeries>, rack_id: &String) -> (r: Option<usize>)
    ensures
        match r {
            Some(i) => i < series@.len() && session_of(views(series@), rack_id@) == Some(
                series@[i as int]@,
            ),
            None => session_of(views(series@), rack_id@) is None,
        },
{
    let mut found: Option<usize> = None;
    let mut i: usize = 0;
    while i < series.len()
        invariant
            i <= series@.len(),
            match found {
                Some(k) => k < i && session_of(views(series@).take(i as int), rack_id@) == Some(
                    series@[k as int]@,
                ),
                None => session_of(views(series@).take(i as int), rack_id@) is None,
            },
        decreases series@.len() - i,
    {
        proof {
            let next = views(series@).take(i + 1);
            assert(next.drop_last() =~= views(series@).take(i as int));
            assert(next.last() == series@[i as int]@);
        }
        if same_text(&series[i].rack_id, rack_id) {
            match found {
                Some(k) => {
                    if !precedes(series[i].session_id.as_str(), series[k].session_id.as_str()) {
                        found = Some(i);
                    }
                },
                None => {
                    found = Some(i);
                },
            }
        }
        i = i + 1;
    }
    assert(views(series@).take(i as int) =~= views(series@));
    found
}

/// Whether `found` holds every component of `seen` once, with all its views merged.
spec fn holds_components(found: Seq<ComponentView>, seen: Seq<ComponentView>) -> bool {
    &&& forall|j: int|
        0 <= j < found.len() ==> combined(seen, (#[trigger] found[j]).identity()) == Some(found[j])
    &&& forall|j: int, k: int|
        0 <= j < k < found.len() ==> (#[trigger] found[j]).identity() != (
        #[trigger] found[k]).identity()
    &&& forall|o: int|
        0 <= o < seen.len() ==> exists|j: int|
            0 <= j < found.len() && (#[trigger] found[j]).identity() == (
            #[trigger] seen[o]).identity()
}

/// A component that no earlier view speaks of is taken up as it is seen.
proof fn lemma_take_up(
    found: Seq<ComponentView>,
    seen: Seq<ComponentView>,
    component: ComponentView,
)
    requires
        holds_components(found, seen),
        forall|j: int|
            0 <= j < found.len() ==> (#[trigger] found[j]).identity() != component.identity(),
    ensures
        holds_components(found.push(component), seen.push(component)),
{
    let f = found.push(component);
    let s = seen.push(component);
    assert(s.drop_last() =~= seen);
    lemma_combined_some(seen, component.identity());
    if combined(seen, component.identity()) is Some {
        let o = choose|o: int|
            0 <= o < seen.len() && (#[trigger] seen[o]).identity() == component.identity();
        let j = choose|j: int|
            0 <= j < found.len() && (#[trigger] found[j]).identity() == seen[o].identity();
        assert(false);
    }
    assert forall|o: int| 0 <= o < s.len() implies exists|j: int|
        0 <= j < f.len() && (#[trigger] f[j]).identity() == (#[trigger] s[o]).identity() by {
        if o < seen.len() {
            let j = choose|j: int|
                0 <= j < found.len() && (#[trigger] found[j]).identity() == seen[o].identity();
            assert(f[j].identity() == s[o].identity());
        } else {
            assert(f[found.len() as int].identity() == s[o].identity());
        }
    }
}

/// A further view of a component is merged into what is held of it.
proof fn lemma_merge_in(
    found: Seq<ComponentView>,
    seen: Seq<ComponentView>,
    component: ComponentView,
    at: int,
)
    requires
        holds_components(found, seen),
        0 <= at < found.len(),
        found[at].identity() == component.identity(),
    ensures
        holds_components(found.update(at, found[at].merged(component)), seen.push(component)),
{
    let f = found.update(at, found[at].merged(component));
    let s = seen.push(component);
    assert(s.drop_last() =~= seen);
    assert forall|j: int| 0 <= j < f.len() implies combined(s, (#[trigger] f[j]).identity())
        == Some(f[j]) by {
        assert(combined(seen, found[j].identity()) == Some(found[j]));
        if j < at {
            assert(found[j].identity() != found[at].identity());
        } else if j > at {
            assert(found[at].identity() != found[j].identity());
        }
    }
    assert forall|j: int, k: int| 0 <= j < k < f.len() implies (#[trigger] f[j]).identity() != (
    #[trigger] f[k]).identity() by {
        assert(found[j].identity() != found[k].identity());
    }
    assert forall|o: int| 0 <= o < s.len() implies exists|j: int|
        0 <= j < f.len() && (#[trigger] f[j]).identity() == (#[trigger] s[o]).identity() by {
        if o < seen.len() {
            let j = choose|j: int|
                0 <= j < found.len() && (#[trigger] found[j]).identity() == seen[o].identity();
            assert(f[j].identity() == s[o].identity());
        } else {
            assert(f[at].identity() == s[o].identity());
        }
    }
}

/// What holds every component once holds the components.
proof fn lemma_components_held(found: Seq<ComponentView>, seen: Seq<ComponentView>)
    requires
        holds_components(found, seen),
    ensures
        found.to_set() == components_of(seen),
{
    assert forall|c: ComponentView| found.to_set().contains(c) <==> components_of(seen).contains(
        c,
    ) by {
        if found.to_set().contains(c) {
            let j = choose|j: int| 0 <= j < found.len() && found[j] == c;
            assert(combined(seen, found[j].identity()) == Some(found[j]));
        }
        if components_of(seen).contains(c) {
            lemma_combined_some(seen, c.identity());
            let o = choose|o: int|
                0 <= o < seen.len() && (#[trigger] seen[o]).identity() == c.identity();
            let j = choose|j: int|
                0 <= j < found.len() && (#[trigger] found[j]).identity() == seen[o].identity();
            assert(combined(seen, found[j].identity()) == Some(found[j]));
            assert(found.contains(c));
        }
    }
    assert(found.to_set() =~= components_of(seen));
}

/// Adds a view of a component to the components found so far.
fn add_view(found: &mut Vec<ComponentSeries>, component: ComponentSeries, Ghost(seen): Ghost<
    Seq<ComponentView>,
>)
    requires
        holds_components(views(old(found)@), seen),
    ensures
        holds_components(views(final(found)@), seen.push(component@)),
        final(found)@.len() <= old(found)@.len() + 1,
{
    let ghost start = found@;
    let mut j: usize = 0;
    while j < found.len()
        invariant
            j <= found@.len(),
            found@ == start,
            start == old(found)@,
            holds_components(views(start), seen),
            forall|k: int| 0 <= k < j ==> (#[trigger] views(start)[k]).identity()
                != component@.identity(),
        decreases found@.len() - j,
    {
        if found[j].same_identity(&component) {
            proof {
                assert(views(start)[j as int] == start[j as int]@);
                lemma_merge_in(views(start), seen, component@, j as int);
            }
            found[j].merge(&component);
            assert(views(found@) =~= views(start).update(
                j as int,
                views(start)[j as int].merged(component@),
            ));
            return;
        }
        j = j + 1;
    }
    proof {
        lemma_take_up(views(start), seen, component@);
        assert(views(start.push(component)) =~= views(start).push(component@));
    }
    found.push(component);
}

/// Collects the components that the endpoints speak of, each once, in the order of their labels.
/// A switch has a BMC and a host endpoint; both give one component.
pub fn collect_components(series: &Vec<RackSeries>, endpoints: &[Arc<BmcEndpoint>]) -> (r: Vec<
    ComponentSeries,
>)
    ensures
        is_sorted::<ComponentSeries>(views(r@)),
        views(r@).to_set() == components_of(observations(views(series@), views(endpoints@))),
        r@.len() <= endpoints@.len(),
{
    let mut found: Vec<ComponentSeries> = Vec::new();
    let mut i: usize = 0;
    assert(holds_components(
        views(found@),
        observations(views(series@), views(endpoints@).take(0)),
    ));
    while i < endpoints.len()
        invariant
            i <= endpoints@.len(),
            holds_components(
                views(found@),
                observations(views(series@), views(endpoints@).take(i as int)),
            ),
            found@.len() <= i,
        decreases endpoints@.len() - i,
    {
        let endpoint: &BmcEndpoint = &endpoints[i];
        let ghost seen = observations(views(series@), views(endpoints@).take(i as int));
        proof {
            let next = views(endpoints@).take(i + 1);
            assert(next.drop_last() =~= views(endpoints@).take(i as int));
            assert(next.last() == endpoint@);
        }
        match &endpoint.rack_id {
            Some(rack_id) => match find_session(series, rack_id) {
                Some(k) => match ComponentSeries::from_endpoint(endpoint, &series[k]) {
                    Some(component) => {
                        add_view(&mut found, component, Ghost(seen));
                    },
                    None => {},
                },
                None => {},
            },
            None => {},
        }
        i = i + 1;
    }
    proof {
        assert(views(endpoints@).take(i as int) =~= views(endpoints@));
        lemma_components_held(
            views(found@),
            observations(views(series@), views(endpoints@)),
        );
        lemma_component_rows_identify(views(found@).to_set());
    }
    sort_all(found)
}

/// Whether one of the first `n` components claims `domain`.
spec fn claimed_among(components: Seq<ComponentView>, n: int, domain: RackDomainView) -> bool {
    exists|j: int| 0 <= j < n && (#[trigger] components[j]).domain_claim() == Some(domain)
}

/// The rack domain that a component speaks for.
fn claim_of(component: &ComponentSeries) -> (r: Option<RackDomainSeries>)
    ensures
        match r {
            Some(domain) => component@.domain_claim() == Some(domain@),
            None => component@.domain_claim() is None,
        },
{
    if component.subsystem == Subsystem::Switch && !component.nvl_domain.as_str().is_empty() {
        Some(
            RackDomainSeries {
                rack_id: component.rack_id.clone(),
                session_id: component.session_id.clone(),
                nvl_domain: component.nvl_domain.clone(),
            },
        )
    } else {
        None
    }
}

/// Whether no component claims another domain for the rack of `domain`.
fn uncontested(components: &Vec<ComponentSeries>, domain: &RackDomainSeries) -> (r: bool)
    ensures
        r == is_uncontested(views(components@).to_set(), domain@),
{
    let ghost all = views(components@);
    let mut j: usize = 0;
    while j < components.len()
        invariant
            j <= components@.len(),
            all == views(components@),
            forall|k: int|
                0 <= k < j && (#[trigger] all[k]).domain_claim() is Some
                    && all[k].domain_claim()->0.same_rack(domain@) ==> all[k].domain_claim() == Some(
                    domain@,
                ),
        decreases components@.len() - j,
    {
        assert(all[j as int] == components@[j as int]@);
        match claim_of(&components[j]) {
            Some(other) => {
                if same_text(&other.rack_id, &domain.rack_id) && same_text(
                    &other.session_id,
                    &domain.session_id,
                ) && !same_text(&other.nvl_domain, &domain.nvl_domain) {
                    assert(all.to_set().contains(all[j as int]));
                    return false;
                }
            },
            None => {},
        }
        j = j + 1;
    }
    assert forall|c: ComponentView| #[trigger]
        all.to_set().contains(c) && c.domain_claim() is Some && c.domain_claim()->0.same_rack(
            domain@,
        ) implies c.domain_claim() == Some(domain@) by {
        let k = choose|k: int| 0 <= k < all.len() && all[k] == c;
        assert(all[k].domain_claim() is Some);
    }
    true
}

/// The claimed rack domains that are contested, or those that are not.
spec fn claims_where(components: Set<ComponentView>, contested: bool) -> Set<RackDomainView> {
    if contested {
        contested_domains(components)
    } else {
        desired_rack_domains(components)
    }
}

/// Collects the claimed rack domains that are contested, or those that are not, each once, in the
/// order of their labels.
fn collect_claims(components: &Vec<ComponentSeries>, contested: bool) -> (r: Vec<RackDomainSeries>)
    ensures
        is_sorted::<RackDomainSeries>(views(r@)),
        views(r@).to_set() == claims_where(views(components@).to_set(), contested),
{
    let ghost all = views(components@);
    let mut found: Vec<RackDomainSeries> = Vec::new();
    let mut i: usize = 0;
    while i < components.len()
        invariant
            i <= components@.len(),
            all == views(components@),
            is_sorted::<RackDomainSeries>(views(found@)),
            forall|d: RackDomainView| #[trigger]
                views(found@).contains(d) <==> claimed_among(all, i as int, d) && is_uncontested(
                    all.to_set(),
                    d,
                ) != contested,
        decreases components@.len() - i,
    {
        let ghost before = views(found@);
        assert(all[i as int] == components@[i as int]@);
        match claim_of(&components[i]) {
            Some(domain) => {
                if uncontested(components, &domain) != contested {
                    proof {
                        lemma_rack_domain_rows_identify(before.to_set().insert(domain@));
                    }
                    insert_sorted(&mut found, domain);
                }
            },
            None => {},
        }
        proof {
            assert forall|d: RackDomainView| #[trigger]
                views(found@).contains(d) <==> claimed_among(all, i + 1, d) && is_uncontested(
                    all.to_set(),
                    d,
                ) != contested by {
                assert(before.contains(d) <==> claimed_among(all, i as int, d) && is_uncontested(
                    all.to_set(),
                    d,
                ) != contested);
                if claimed_among(all, i as int, d) {
                    let j = choose|j: int|
                        0 <= j < i && (#[trigger] all[j]).domain_claim() == Some(d);
                    assert(all[j].domain_claim() == Some(d));
                }
                assert(before.contains(d) <==> before.to_set().contains(d));
                assert(views(found@).contains(d) <==> views(found@).to_set().contains(d));
            }
        }
        i = i + 1;
    }
    proof {
        let set = all.to_set();
        assert forall|d: RackDomainView|
            views(found@).to_set().contains(d) <==> claims_where(set, contested).contains(d) by {
            assert(views(found@).to_set().contains(d) <==> views(found@).contains(d));
            if claimed_among(all, i as int, d) {
                let j = choose|j: int| 0 <= j < i && (#[trigger] all[j]).domain_claim() == Some(d);
                assert(set.contains(all[j]));
            }
            if is_claimed(set, d) {
                let c = choose|c: ComponentView| #[trigger]
                    set.contains(c) && c.domain_claim() == Some(d);
                let j = choose|j: int| 0 <= j < all.len() && all[j] == c;
                assert(all[j].domain_claim() == Some(d));
            }
        }
        assert(views(found@).to_set() =~= claims_where(set, contested));
    }
    found
}

/// Collects the domains of the racks, each once, in the order of their labels. Every switch of a
/// rack reports the domain of the rack; where the switches of a rack report different ones, the
/// rack has no domain.
pub fn collect_rack_domains(components: &Vec<ComponentSeries>) -> (r: Vec<RackDomainSeries>)
    ensures
        is_sorted::<RackDomainSeries>(views(r@)),
        views(r@).to_set() == desired_rack_domains(views(components@).to_set()),
{
    collect_claims(components, false)
}

/// Finds the racks whose switches report different domains, with the domains, all in order.
pub fn find_contested_racks(components: &Vec<ComponentSeries>) -> (r: Vec<ContestedRack>)
    ensures
        lists_contested(views(r@), views(components@).to_set()),
{
    let claims = collect_claims(components, true);
    let ghost all = views(claims@);
    let mut found: Vec<ContestedRack> = Vec::new();
    let mut i: usize = 0;
    assert(all_claims(views(found@)) =~= all.take(0));
    while i < claims.len()
        invariant
            i <= claims@.len(),
            all == views(claims@),
            all_claims(views(found@)) == all.take(i as int),
            forall|k: int|
                0 <= k < found@.len() ==> (#[trigger] views(found@)[k]).domains.len() > 0,
            forall|k: int, j: int|
                0 <= k && j == k + 1 && j < found@.len() ==> !(
                #[trigger] views(found@)[k]).same_rack(#[trigger] views(found@)[j]),
        decreases claims@.len() - i,
    {
        let ghost before = views(found@);
        let claim = &claims[i];
        let domain = claim.nvl_domain.clone();
        proof {
            assert(all[i as int] == claim@);
            assert(all.take(i + 1) =~= all.take(i as int).push(claim@));
        }
        let n: usize = found.len();
        if n > 0 && same_text(&found[n - 1].rack_id, &claim.rack_id) && same_text(
            &found[n - 1].session_id,
            &claim.session_id,
        ) {
            let ghost last = before[n - 1];
            assert(last == found@[n - 1]@);
            found[n - 1].domains.push(domain);
            proof {
                let next = ContestedRackView { domains: last.domains.push(domain@), ..last };
                assert(views(found@[n - 1].domains@) =~= last.domains.push(domain@));
                assert(views(found@) =~= before.update(n - 1, next));
                assert(views(found@).drop_last() =~= before.drop_last());
                assert(next.claims() =~= last.claims().push(claim@));
                assert(all_claims(views(found@)) =~= all_claims(before).push(claim@));
            }
        } else {
            let mut domains: Vec<String> = Vec::new();
            domains.push(domain);
            let entry = ContestedRack {
                rack_id: claim.rack_id.clone(),
                session_id: claim.session_id.clone(),
                domains,
            };
            found.push(entry);
            proof {
                assert(views(found@) =~= before.push(entry@));
                assert(views(found@).drop_last() =~= before);
                assert(entry@.claims() =~= seq![claim@]);
                assert(all_claims(views(found@)) =~= all_claims(before).push(claim@));
                if n > 0 {
                    assert(before[n - 1] == views(found@)[n - 1]);
                }
            }
        }
        i = i + 1;
    }
    assert(all.take(i as int) =~= all);
    found
}

/// Law: a rack domain that is claimed is either published or contested.
pub proof fn law_claim_is_published_or_contested(
    components: Set<ComponentView>,
    domain: RackDomainView,
)
    requires
        is_claimed(components, domain),
    ensures
        desired_rack_domains(components).contains(domain) <==> !contested_domains(
            components,
        ).contains(domain),
{
}

/// Series that give every rack the same session give the same views.
pub(crate) proof fn lemma_observations_agree(
    a: Seq<RackSeriesView>,
    b: Seq<RackSeriesView>,
    endpoints: Seq<EndpointView>,
)
    requires
        forall|rack_id: Seq<char>| #[trigger] session_of(a, rack_id) == session_of(b, rack_id),
    ensures
        observations(a, endpoints) == observations(b, endpoints),
    decreases endpoints.len(),
{
    if endpoints.len() > 0 {
        lemma_observations_agree(a, b, endpoints.drop_last());
    }
}

/// Law: different racks have different label values.
pub proof fn law_rack_labels_identify(a: RackSeriesView, b: RackSeriesView)
    requires
        a.wf(),
        b.wf(),
        a.labels() == b.labels(),
    ensures
        a == b,
{
    assert(a.labels()[1] == b.labels()[1]);
    law_session_identifies(a, b);
}

/// Law: a snapshot publishes every component once.
pub proof fn law_one_series_per_component(
    racks: Seq<RackInventoryView>,
    endpoints: Seq<EndpointView>,
    a: ComponentView,
    b: ComponentView,
)
    requires
        desired_components(racks, endpoints).contains(a),
        desired_components(racks, endpoints).contains(b),
        a.identity() == b.identity(),
    ensures
        a == b,
{
}

/// Whether `value` is the first text that is not empty among the views with this identity, or
/// empty where there is none.
pub open spec fn is_first_text(
    seen: Seq<ComponentView>,
    identity: Identity,
    field: spec_fn(ComponentView) -> Seq<char>,
    value: Seq<char>,
) -> bool {
    if value.len() == 0 {
        forall|i: int|
            0 <= i < seen.len() && (#[trigger] seen[i]).identity() == identity ==> field(
                seen[i],
            ).len() == 0
    } else {
        exists|i: int|
            {
                &&& 0 <= i < seen.len()
                &&& (#[trigger] seen[i]).identity() == identity
                &&& field(seen[i]) == value
                &&& forall|j: int|
                    0 <= j < i && (#[trigger] seen[j]).identity() == identity ==> field(
                        seen[j],
                    ).len() == 0
            }
    }
}

/// A further view adds its text where there was none before.
proof fn lemma_first_text_step(
    seen: Seq<ComponentView>,
    identity: Identity,
    field: spec_fn(ComponentView) -> Seq<char>,
    value: Seq<char>,
    next: ComponentView,
)
    requires
        is_first_text(seen, identity, field, value),
    ensures
        next.identity() == identity ==> is_first_text(
            seen.push(next),
            identity,
            field,
            first_text(value, field(next)),
        ),
        next.identity() != identity ==> is_first_text(seen.push(next), identity, field, value),
{
    let s = seen.push(next);
    if value.len() > 0 {
        let i = choose|i: int|
            {
                &&& 0 <= i < seen.len()
                &&& (#[trigger] seen[i]).identity() == identity
                &&& field(seen[i]) == value
                &&& forall|j: int|
                    0 <= j < i && (#[trigger] seen[j]).identity() == identity ==> field(
                        seen[j],
                    ).len() == 0
            };
        assert(s[i].identity() == identity);
        assert forall|j: int| 0 <= j < i && (#[trigger] s[j]).identity() == identity implies field(
            s[j],
        ).len() == 0 by {
            assert(seen[j] == s[j]);
        }
        assert(is_first_text(s, identity, field, value));
    } else {
        assert forall|j: int|
            0 <= j < seen.len() && (#[trigger] s[j]).identity() == identity implies field(
            s[j],
        ).len() == 0 by {
            assert(seen[j] == s[j]);
        }
        if next.identity() == identity && field(next).len() > 0 {
            assert(s[seen.len() as int].identity() == identity);
            assert(is_first_text(s, identity, field, field(next)));
        }
    }
}

/// Law: of all views of a component, each text is the first that is not empty, and a flag is set
/// where any view sets it.
pub proof fn law_combined_fields(seen: Seq<ComponentView>, identity: Identity)
    requires
        combined(seen, identity) is Some,
    ensures
        ({
            let c = combined(seen, identity)->0;
            &&& c.identity() == identity
            &&& is_first_text(seen, identity, |v: ComponentView| v.bmc_mac, c.bmc_mac)
            &&& is_first_text(seen, identity, |v: ComponentView| v.nvl_domain, c.nvl_domain)
            &&& is_first_text(seen, identity, |v: ComponentView| v.slot_number, c.slot_number)
            &&& is_first_text(seen, identity, |v: ComponentView| v.tray_index, c.tray_index)
            &&& c.nmxc_enabled <==> exists|i: int|
                0 <= i < seen.len() && (#[trigger] seen[i]).identity() == identity
                    && seen[i].nmxc_enabled
            &&& c.nmxc_primary <==> exists|i: int|
                0 <= i < seen.len() && (#[trigger] seen[i]).identity() == identity
                    && seen[i].nmxc_primary
        }),
    decreases seen.len(),
{
    let init = seen.drop_last();
    let last = seen.last();
    let n = seen.len() - 1;
    let c = combined(seen, identity)->0;
    assert(init.push(last) =~= seen);
    assert(seen[n] == last);
    lemma_combined_identity(seen, identity);
    let mac = |v: ComponentView| v.bmc_mac;
    let domain = |v: ComponentView| v.nvl_domain;
    let slot = |v: ComponentView| v.slot_number;
    let tray = |v: ComponentView| v.tray_index;
    if combined(init, identity) is Some {
        law_combined_fields(init, identity);
        let before = combined(init, identity)->0;
        lemma_first_text_step(init, identity, mac, before.bmc_mac, last);
        lemma_first_text_step(init, identity, domain, before.nvl_domain, last);
        lemma_first_text_step(init, identity, slot, before.slot_number, last);
        lemma_first_text_step(init, identity, tray, before.tray_index, last);
        lemma_flag_step(init, identity, |v: ComponentView| v.nmxc_enabled, last);
        lemma_flag_step(init, identity, |v: ComponentView| v.nmxc_primary, last);
    } else {
        lemma_combined_some(init, identity);
        let none = Seq::<char>::empty();
        assert(is_first_text(init, identity, mac, none));
        assert(is_first_text(init, identity, domain, none));
        assert(is_first_text(init, identity, slot, none));
        assert(is_first_text(init, identity, tray, none));
        lemma_first_text_step(init, identity, mac, none, last);
        lemma_first_text_step(init, identity, domain, none, last);
        lemma_first_text_step(init, identity, slot, none, last);
        lemma_first_text_step(init, identity, tray, none, last);
        lemma_flag_step(init, identity, |v: ComponentView| v.nmxc_enabled, last);
        lemma_flag_step(init, identity, |v: ComponentView| v.nmxc_primary, last);
    }
}

/// Whether a view with this identity sets the flag.
spec fn is_set(
    seen: Seq<ComponentView>,
    identity: Identity,
    flag: spec_fn(ComponentView) -> bool,
) -> bool {
    exists|i: int|
        0 <= i < seen.len() && (#[trigger] seen[i]).identity() == identity && flag(seen[i])
}

/// A flag is set after a further view where it was set before or that view sets it.
proof fn lemma_flag_step(
    seen: Seq<ComponentView>,
    identity: Identity,
    flag: spec_fn(ComponentView) -> bool,
    next: ComponentView,
)
    ensures
        is_set(seen.push(next), identity, flag) <==> is_set(seen, identity, flag) || (
        next.identity() == identity && flag(next)),
{
    let s = seen.push(next);
    if is_set(seen, identity, flag) {
        let i = choose|i: int|
            0 <= i < seen.len() && (#[trigger] seen[i]).identity() == identity && flag(seen[i]);
        assert(s[i].identity() == identity && flag(s[i]));
    }
    if next.identity() == identity && flag(next) {
        assert(s[seen.len() as int].identity() == identity);
    }
    if is_set(s, identity, flag) {
        let i = choose|i: int|
            0 <= i < s.len() && (#[trigger] s[i]).identity() == identity && flag(s[i]);
        if i < seen.len() {
            assert(seen[i].identity() == identity && flag(seen[i]));
        }
    }
}

/// Every view was given by an endpoint.
proof fn lemma_observed_by(series: Seq<RackSeriesView>, endpoints: Seq<EndpointView>)
    ensures
        forall|o: int|
            0 <= o < observations(series, endpoints).len() ==> exists|e: int|
                0 <= e < endpoints.len() && observation(series, #[trigger] endpoints[e]) == Some(
                    #[trigger] observations(series, endpoints)[o],
                ),
    decreases endpoints.len(),
{
    if endpoints.len() > 0 {
        let init = endpoints.drop_last();
        let before = observations(series, init);
        let all = observations(series, endpoints);
        lemma_observed_by(series, init);
        assert forall|o: int| 0 <= o < all.len() implies exists|e: int|
            0 <= e < endpoints.len() && observation(series, #[trigger] endpoints[e]) == Some(
                #[trigger] all[o],
            ) by {
            if o < before.len() {
                assert(all[o] == before[o]);
                let e = choose|e: int|
                    0 <= e < init.len() && observation(series, #[trigger] init[e]) == Some(
                        before[o],
                    );
                assert(endpoints[e] == init[e]);
            } else {
                assert(endpoints[endpoints.len() - 1] == endpoints.last());
            }
        }
    }
}

/// Law: the MAC address that a component is published with is that of one of its BMC endpoints,
/// and never that of a switch's host endpoint.
pub proof fn law_bmc_mac_is_of_a_bmc(
    racks: Seq<RackInventoryView>,
    endpoints: Seq<EndpointView>,
    c: ComponentView,
)
    requires
        desired_components(racks, endpoints).contains(c),
        c.bmc_mac.len() > 0,
    ensures
        exists|e: int|
            {
                &&& 0 <= e < endpoints.len()
                &&& observation(rack_series(racks), #[trigger] endpoints[e]) is Some
                &&& observation(rack_series(racks), endpoints[e])->0.identity() == c.identity()
                &&& endpoints[e].metadata->0.is_bmc()
                &&& mac_chars(endpoints[e].mac) == c.bmc_mac
            },
{
    let series = rack_series(racks);
    let seen = observations(series, endpoints);
    let mac = |v: ComponentView| v.bmc_mac;
    law_combined_fields(seen, c.identity());
    assert(is_first_text(seen, c.identity(), mac, c.bmc_mac));
    let i = choose|i: int|
        {
            &&& 0 <= i < seen.len()
            &&& (#[trigger] seen[i]).identity() == c.identity()
            &&& mac(seen[i]) == c.bmc_mac
            &&& forall|j: int|
                0 <= j < i && (#[trigger] seen[j]).identity() == c.identity() ==> mac(
                    seen[j],
                ).len() == 0
        };
    lemma_observed_by(series, endpoints);
    let e = choose|e: int|
        0 <= e < endpoints.len() && observation(series, #[trigger] endpoints[e]) == Some(seen[i]);
    assert(observation(series, endpoints[e])->0.identity() == c.identity());
}

/// The view that an endpoint gives is among the views.
proof fn lemma_observed(series: Seq<RackSeriesView>, endpoints: Seq<EndpointView>, e: int)
    requires
        0 <= e < endpoints.len(),
        observation(series, endpoints[e]) is Some,
    ensures
        observations(series, endpoints).contains(observation(series, endpoints[e])->0),
    decreases endpoints.len(),
{
    let init = endpoints.drop_last();
    let before = observations(series, init);
    let all = observations(series, endpoints);
    let view = observation(series, endpoints[e])->0;
    if e < init.len() {
        lemma_observed(series, init, e);
        let o = choose|o: int| 0 <= o < before.len() && before[o] == view;
        assert(all[o] == view);
    } else {
        assert(all[before.len() as int] == view);
    }
}

/// Law: every component that an endpoint speaks of is published.
pub proof fn law_observed_is_published(
    racks: Seq<RackInventoryView>,
    endpoints: Seq<EndpointView>,
    e: int,
)
    requires
        0 <= e < endpoints.len(),
        observation(rack_series(racks), endpoints[e]) is Some,
    ensures
        exists|c: ComponentView| #[trigger]
            desired_components(racks, endpoints).contains(c) && c.identity() == observation(
                rack_series(racks),
                endpoints[e],
            )->0.identity(),
{
    let series = rack_series(racks);
    let seen = observations(series, endpoints);
    let view = observation(series, endpoints[e])->0;
    lemma_observed(series, endpoints, e);
    let o = choose|o: int| 0 <= o < seen.len() && seen[o] == view;
    assert(seen[o].identity() == view.identity());
    lemma_combined_some(seen, view.identity());
    lemma_combined_identity(seen, view.identity());
    let c = combined(seen, view.identity())->0;
    assert(desired_components(racks, endpoints).contains(c));
}

/// Law: where all BMC endpoints of a component have the same MAC address, that is the one it is
/// published with, in whatever order its endpoints are found and whatever other endpoints it has.
pub proof fn law_bmc_mac_ignores_order(
    racks: Seq<RackInventoryView>,
    endpoints: Seq<EndpointView>,
    c: ComponentView,
    bmc: int,
)
    requires
        desired_components(racks, endpoints).contains(c),
        0 <= bmc < endpoints.len(),
        observation(rack_series(racks), endpoints[bmc]) is Some,
        observation(rack_series(racks), endpoints[bmc])->0.identity() == c.identity(),
        endpoints[bmc].metadata->0.is_bmc(),
        forall|e: int|
            0 <= e < endpoints.len() && observation(
                rack_series(racks),
                #[trigger] endpoints[e],
            ) is Some && observation(rack_series(racks), endpoints[e])->0.identity() == c.identity()
                && endpoints[e].metadata->0.is_bmc() ==> endpoints[e].mac == endpoints[bmc].mac,
    ensures
        c.bmc_mac == mac_chars(endpoints[bmc].mac),
{
    let series = rack_series(racks);
    let seen = observations(series, endpoints);
    let mac = |v: ComponentView| v.bmc_mac;
    let view = observation(series, endpoints[bmc])->0;
    law_combined_fields(seen, c.identity());
    assert(is_first_text(seen, c.identity(), mac, c.bmc_mac));
    lemma_observed(series, endpoints, bmc);
    let o = choose|o: int| 0 <= o < seen.len() && seen[o] == view;
    assert(mac(seen[o]) == mac_chars(endpoints[bmc].mac));
    assert(seen[o].identity() == c.identity() && mac(seen[o]).len() > 0);
    law_bmc_mac_is_of_a_bmc(racks, endpoints, c);
}

/// Whether no two views of one component contradict each other.
pub open spec fn views_agree(seen: Seq<ComponentView>) -> bool {
    forall|i: int, j: int|
        0 <= i < seen.len() && 0 <= j < seen.len() && (#[trigger] seen[i]).identity() == (
        #[trigger] seen[j]).identity() ==> seen[i].subsystem == seen[j].subsystem
            && seen[i].agrees_with(seen[j])
}

/// A merged component has the subsystem of one of its views.
proof fn lemma_combined_subsystem(seen: Seq<ComponentView>, identity: Identity)
    requires
        combined(seen, identity) is Some,
    ensures
        exists|i: int|
            0 <= i < seen.len() && (#[trigger] seen[i]).identity() == identity && seen[i].subsystem
                == combined(seen, identity)->0.subsystem,
    decreases seen.len(),
{
    let init = seen.drop_last();
    if combined(init, identity) is Some {
        lemma_combined_subsystem(init, identity);
        let i = choose|i: int|
            0 <= i < init.len() && (#[trigger] init[i]).identity() == identity && init[i].subsystem
                == combined(init, identity)->0.subsystem;
        assert(seen[i] == init[i]);
    } else {
        assert(seen[seen.len() - 1] == seen.last());
    }
}

/// The first text of views that do not contradict each other is the same in any order.
proof fn lemma_first_text_ignores_order(
    a: Seq<ComponentView>,
    b: Seq<ComponentView>,
    identity: Identity,
    field: spec_fn(ComponentView) -> Seq<char>,
    x: Seq<char>,
    y: Seq<char>,
)
    requires
        a.to_set() == b.to_set(),
        is_first_text(a, identity, field, x),
        is_first_text(b, identity, field, y),
        forall|i: int, j: int|
            0 <= i < a.len() && 0 <= j < a.len() && (#[trigger] a[i]).identity() == identity && (
            #[trigger] a[j]).identity() == identity ==> texts_agree(field(a[i]), field(a[j])),
    ensures
        x == y,
{
    assert forall|v: ComponentView| a.contains(v) <==> #[trigger] b.contains(v) by {
        assert(a.to_set().contains(v) == a.contains(v));
        assert(b.to_set().contains(v) == b.contains(v));
    }
    if x.len() > 0 {
        let i = choose|i: int|
            {
                &&& 0 <= i < a.len()
                &&& (#[trigger] a[i]).identity() == identity
                &&& field(a[i]) == x
                &&& forall|j: int|
                    0 <= j < i && (#[trigger] a[j]).identity() == identity ==> field(
                        a[j],
                    ).len() == 0
            };
        assert(a.contains(a[i]));
        assert(b.contains(a[i]));
        let k = choose|k: int| 0 <= k < b.len() && b[k] == a[i];
        assert(field(b[k]).len() > 0);
    }
    if y.len() > 0 {
        let k = choose|k: int|
            {
                &&& 0 <= k < b.len()
                &&& (#[trigger] b[k]).identity() == identity
                &&& field(b[k]) == y
                &&& forall|j: int|
                    0 <= j < k && (#[trigger] b[j]).identity() == identity ==> field(
                        b[j],
                    ).len() == 0
            };
        assert(b.contains(b[k]));
        assert(a.contains(b[k]));
        let j = choose|j: int| 0 <= j < a.len() && a[j] == b[k];
        assert(field(a[j]).len() > 0);
        assert(x.len() > 0);
        let i = choose|i: int|
            {
                &&& 0 <= i < a.len()
                &&& (#[trigger] a[i]).identity() == identity
                &&& field(a[i]) == x
                &&& forall|j: int|
                    0 <= j < i && (#[trigger] a[j]).identity() == identity ==> field(
                        a[j],
                    ).len() == 0
            };
        assert(texts_agree(field(a[i]), field(a[j])));
    }
    assert(x.len() == 0 && y.len() == 0 ==> x =~= y);
}

/// Law: where the views of a component do not contradict each other, all of them merged is the same
/// in whatever order they come and however often one comes.
pub proof fn law_combined_ignores_order(
    a: Seq<ComponentView>,
    b: Seq<ComponentView>,
    identity: Identity,
)
    requires
        a.to_set() == b.to_set(),
        views_agree(a),
    ensures
        combined(a, identity) == combined(b, identity),
{
    assert forall|v: ComponentView| a.contains(v) <==> #[trigger] b.contains(v) by {
        assert(a.to_set().contains(v) == a.contains(v));
        assert(b.to_set().contains(v) == b.contains(v));
    }
    lemma_combined_some(a, identity);
    lemma_combined_some(b, identity);
    if combined(a, identity) is Some {
        let i = choose|i: int| 0 <= i < a.len() && (#[trigger] a[i]).identity() == identity;
        assert(a.contains(a[i]));
        assert(b.contains(a[i]));
        let k = choose|k: int| 0 <= k < b.len() && b[k] == a[i];
        assert(b[k].identity() == identity);
    }
    if combined(b, identity) is Some {
        let k = choose|k: int| 0 <= k < b.len() && (#[trigger] b[k]).identity() == identity;
        assert(b.contains(b[k]));
        assert(a.contains(b[k]));
        let i = choose|i: int| 0 <= i < a.len() && a[i] == b[k];
        assert(a[i].identity() == identity);
    }
    if combined(a, identity) is Some {
        let x = combined(a, identity)->0;
        let y = combined(b, identity)->0;
        law_combined_fields(a, identity);
        law_combined_fields(b, identity);
        lemma_first_text_ignores_order(
            a,
            b,
            identity,
            |v: ComponentView| v.bmc_mac,
            x.bmc_mac,
            y.bmc_mac,
        );
        lemma_first_text_ignores_order(
            a,
            b,
            identity,
            |v: ComponentView| v.nvl_domain,
            x.nvl_domain,
            y.nvl_domain,
        );
        lemma_first_text_ignores_order(
            a,
            b,
            identity,
            |v: ComponentView| v.slot_number,
            x.slot_number,
            y.slot_number,
        );
        lemma_first_text_ignores_order(
            a,
            b,
            identity,
            |v: ComponentView| v.tray_index,
            x.tray_index,
            y.tray_index,
        );
        lemma_flag_ignores_order(a, b, identity, |v: ComponentView| v.nmxc_enabled);
        lemma_flag_ignores_order(a, b, identity, |v: ComponentView| v.nmxc_primary);
        lemma_combined_subsystem(a, identity);
        lemma_combined_subsystem(b, identity);
        let i = choose|i: int|
            0 <= i < a.len() && (#[trigger] a[i]).identity() == identity && a[i].subsystem
                == x.subsystem;
        let k = choose|k: int|
            0 <= k < b.len() && (#[trigger] b[k]).identity() == identity && b[k].subsystem
                == y.subsystem;
        assert(b.contains(b[k]));
        assert(a.contains(b[k]));
        let j = choose|j: int| 0 <= j < a.len() && a[j] == b[k];
        assert(a[i].identity() == a[j].identity());
    }
}

/// Whether a flag is set does not depend on the order of the views.
proof fn lemma_flag_ignores_order(
    a: Seq<ComponentView>,
    b: Seq<ComponentView>,
    identity: Identity,
    flag: spec_fn(ComponentView) -> bool,
)
    requires
        a.to_set() == b.to_set(),
    ensures
        is_set(a, identity, flag) <==> is_set(b, identity, flag),
{
    if is_set(a, identity, flag) {
        let i = choose|i: int|
            0 <= i < a.len() && (#[trigger] a[i]).identity() == identity && flag(a[i]);
        assert(a.to_set().contains(a[i]));
        assert(b.to_set().contains(a[i]));
        let k = choose|k: int| 0 <= k < b.len() && b[k] == a[i];
        assert(b[k].identity() == identity && flag(b[k]));
    }
    if is_set(b, identity, flag) {
        let k = choose|k: int|
            0 <= k < b.len() && (#[trigger] b[k]).identity() == identity && flag(b[k]);
        assert(b.to_set().contains(b[k]));
        assert(a.to_set().contains(b[k]));
        let i = choose|i: int| 0 <= i < a.len() && a[i] == b[k];
        assert(a[i].identity() == identity && flag(a[i]));
    }
}

/// The same endpoints, in whatever order, give the same views.
proof fn lemma_observations_ignore_order(
    series: Seq<RackSeriesView>,
    a: Seq<EndpointView>,
    b: Seq<EndpointView>,
)
    requires
        a.to_set() == b.to_set(),
    ensures
        observations(series, a).to_set() == observations(series, b).to_set(),
{
    lemma_observations_within(series, a, b);
    lemma_observations_within(series, b, a);
    assert(observations(series, a).to_set() =~= observations(series, b).to_set());
}

/// Endpoints that are all among others give no views that the others do not give.
proof fn lemma_observations_within(
    series: Seq<RackSeriesView>,
    a: Seq<EndpointView>,
    b: Seq<EndpointView>,
)
    requires
        a.to_set() == b.to_set(),
    ensures
        forall|v: ComponentView| #[trigger]
            observations(series, a).to_set().contains(v) ==> observations(
                series,
                b,
            ).to_set().contains(v),
{
    lemma_observed_by(series, a);
    assert forall|v: ComponentView| #[trigger]
        observations(series, a).to_set().contains(v) implies observations(
        series,
        b,
    ).to_set().contains(v) by {
        let seen = observations(series, a);
        let o = choose|o: int| 0 <= o < seen.len() && seen[o] == v;
        let e = choose|e: int|
            0 <= e < a.len() && observation(series, #[trigger] a[e]) == Some(seen[o]);
        assert(a.to_set().contains(a[e]));
        assert(b.to_set().contains(a[e]));
        let f = choose|f: int| 0 <= f < b.len() && b[f] == a[e];
        lemma_observed(series, b, f);
    }
}

/// Law: where the views of each component do not contradict each other, the order in which racks
/// and endpoints are found, and how often one is found, does not change what is published.
pub proof fn law_snapshot_ignores_order(
    racks: Seq<RackInventoryView>,
    endpoints: Seq<EndpointView>,
    other_racks: Seq<RackInventoryView>,
    other_endpoints: Seq<EndpointView>,
)
    requires
        racks.to_set() == other_racks.to_set(),
        endpoints.to_set() == other_endpoints.to_set(),
        views_agree(observations(rack_series(racks), endpoints)),
    ensures
        desired_racks(racks) == desired_racks(other_racks),
        desired_components(racks, endpoints) == desired_components(other_racks, other_endpoints),
{
    let series = rack_series(racks);
    lemma_racks_within(racks, other_racks);
    lemma_racks_within(other_racks, racks);
    assert(desired_racks(racks) =~= desired_racks(other_racks));
    law_components_ignore_rack_order(racks, other_racks, other_endpoints);
    let a = observations(series, endpoints);
    let b = observations(series, other_endpoints);
    lemma_observations_ignore_order(series, endpoints, other_endpoints);
    assert forall|c: ComponentView|
        components_of(a).contains(c) <==> components_of(b).contains(c) by {
        law_combined_ignores_order(a, b, c.identity());
    }
    assert(components_of(a) =~= components_of(b));
}

/// Racks that are all among others have no series that the others do not have.
proof fn lemma_racks_within(a: Seq<RackInventoryView>, b: Seq<RackInventoryView>)
    requires
        a.to_set() == b.to_set(),
    ensures
        forall|r: RackSeriesView| #[trigger]
            desired_racks(a).contains(r) ==> desired_racks(b).contains(r),
{
    assert forall|r: RackSeriesView| #[trigger] desired_racks(a).contains(r) implies desired_racks(
        b,
    ).contains(r) by {
        lemma_rack_series_from(a);
        let o = choose|o: int| 0 <= o < rack_series(a).len() && rack_series(a)[o] == r;
        let i = choose|i: int|
            0 <= i < a.len() && (#[trigger] a[i]).series() == Some(rack_series(a)[o]);
        assert(a.to_set().contains(a[i]));
        assert(b.to_set().contains(a[i]));
        let j = choose|j: int| 0 <= j < b.len() && b[j] == a[i];
        lemma_rack_series_has(b, j);
    }
}

/// Every series is that of a rack.
proof fn lemma_rack_series_from(racks: Seq<RackInventoryView>)
    ensures
        forall|o: int|
            0 <= o < rack_series(racks).len() ==> exists|i: int|
                0 <= i < racks.len() && (#[trigger] racks[i]).series() == Some(
                    #[trigger] rack_series(racks)[o],
                ),
    decreases racks.len(),
{
    if racks.len() > 0 {
        let init = racks.drop_last();
        let before = rack_series(init);
        let all = rack_series(racks);
        lemma_rack_series_from(init);
        assert forall|o: int| 0 <= o < all.len() implies exists|i: int|
            0 <= i < racks.len() && (#[trigger] racks[i]).series() == Some(#[trigger] all[o]) by {
            if o < before.len() {
                assert(all[o] == before[o]);
                let i = choose|i: int|
                    0 <= i < init.len() && (#[trigger] init[i]).series() == Some(before[o]);
                assert(racks[i] == init[i]);
            } else {
                assert(racks[racks.len() - 1] == racks.last());
            }
        }
    }
}

/// The series of a rack is among the series.
proof fn lemma_rack_series_has(racks: Seq<RackInventoryView>, i: int)
    requires
        0 <= i < racks.len(),
        racks[i].series() is Some,
    ensures
        rack_series(racks).to_set().contains(racks[i].series()->0),
    decreases racks.len(),
{
    let init = racks.drop_last();
    let before = rack_series(init);
    let all = rack_series(racks);
    let series = racks[i].series()->0;
    if i < init.len() {
        lemma_rack_series_has(init, i);
        let o = choose|o: int| 0 <= o < before.len() && before[o] == series;
        assert(all[o] == series);
    } else {
        assert(all[before.len() as int] == series);
    }
}

/// Law: every component is published in the session of its rack, which is published too.
pub proof fn law_component_has_its_rack(
    racks: Seq<RackInventoryView>,
    endpoints: Seq<EndpointView>,
    c: ComponentView,
)
    requires
        desired_components(racks, endpoints).contains(c),
    ensures
        exists|r: RackSeriesView| #[trigger]
            desired_racks(racks).contains(r) && session_of(rack_series(racks), c.rack_id) == Some(r)
                && r.rack_id == c.rack_id && r.session_id == c.session_id,
{
    let series = rack_series(racks);
    let seen = observations(series, endpoints);
    lemma_combined_some(seen, c.identity());
    let i = choose|i: int| 0 <= i < seen.len() && (#[trigger] seen[i]).identity() == c.identity();
    lemma_observed_by(series, endpoints);
    let e = choose|e: int|
        0 <= e < endpoints.len() && observation(series, #[trigger] endpoints[e]) == Some(seen[i]);
    let rack_id = endpoints[e].rack_id->0;
    law_session_is_last(series, rack_id);
    let r = session_of(series, rack_id)->0;
    assert(desired_racks(racks).contains(r));
}

/// Law: the components that are published depend on which racks the snapshot has, and not on the
/// order of the racks.
pub proof fn law_components_ignore_rack_order(
    a: Seq<RackInventoryView>,
    b: Seq<RackInventoryView>,
    endpoints: Seq<EndpointView>,
)
    requires
        desired_racks(a) == desired_racks(b),
    ensures
        desired_components(a, endpoints) == desired_components(b, endpoints),
{
    lemma_rack_series_wf(a);
    assert forall|rack_id: Seq<char>| #[trigger]
        session_of(rack_series(a), rack_id) == session_of(rack_series(b), rack_id) by {
        law_session_ignores_order(rack_series(a), rack_series(b), rack_id);
    }
    lemma_observations_agree(rack_series(a), rack_series(b), endpoints);
}

/// Law: a rack has at most one domain in a session.
pub proof fn law_one_domain_per_rack(
    components: Set<ComponentView>,
    a: RackDomainView,
    b: RackDomainView,
)
    requires
        desired_rack_domains(components).contains(a),
        desired_rack_domains(components).contains(b),
        a.same_rack(b),
    ensures
        a == b,
{
    let c = choose|c: ComponentView| #[trigger]
        components.contains(c) && c.domain_claim() == Some(a);
    assert(components.contains(c));
}

/// Law: where two switches of a rack report different domains, the rack has no domain.
pub proof fn law_conflict_leaves_no_domain(
    components: Set<ComponentView>,
    x: ComponentView,
    y: ComponentView,
    domain: RackDomainView,
)
    requires
        components.contains(x),
        components.contains(y),
        x.domain_claim() is Some,
        y.domain_claim() is Some,
        x.domain_claim()->0.same_rack(y.domain_claim()->0),
        x.nvl_domain != y.nvl_domain,
        domain.same_rack(x.domain_claim()->0),
    ensures
        !desired_rack_domains(components).contains(domain),
{
}

/// Law: where a switch of a rack reports a domain and no other switch of the rack reports another
/// one, that is the domain of the rack.
pub proof fn law_agreed_domain_is_published(components: Set<ComponentView>, x: ComponentView)
    requires
        components.contains(x),
        x.domain_claim() is Some,
        forall|y: ComponentView| #[trigger]
            components.contains(y) && y.domain_claim() is Some && y.domain_claim()->0.same_rack(
                x.domain_claim()->0,
            ) ==> y.nvl_domain == x.nvl_domain,
    ensures
        desired_rack_domains(components).contains(x.domain_claim()->0),
{
    assert(is_claimed(components, x.domain_claim()->0));
}

/// There are no more series than racks.
proof fn lemma_rack_series_len(racks: Seq<RackInventoryView>)
    ensures
        rack_series(racks).len() <= racks.len(),
    decreases racks.len(),
{
    if racks.len() > 0 {
        lemma_rack_series_len(racks.drop_last());
    }
}

/// There are no more views than endpoints.
proof fn lemma_observations_len(series: Seq<RackSeriesView>, endpoints: Seq<EndpointView>)
    ensures
        observations(series, endpoints).len() <= endpoints.len(),
    decreases endpoints.len(),
{
    if endpoints.len() > 0 {
        lemma_observations_len(series, endpoints.drop_last());
    }
}

/// Law: what a snapshot publishes is bounded by its size.
pub proof fn law_snapshot_is_bounded(racks: Seq<RackInventoryView>, endpoints: Seq<EndpointView>)
    ensures
        desired_racks(racks).finite(),
        desired_racks(racks).len() <= racks.len(),
        desired_components(racks, endpoints).finite(),
        desired_components(racks, endpoints).len() <= endpoints.len(),
        desired_rack_domains(desired_components(racks, endpoints)).finite(),
        desired_rack_domains(desired_components(racks, endpoints)).len() <= endpoints.len(),
{
    let series = rack_series(racks);
    let seen = observations(series, endpoints);
    let components = desired_components(racks, endpoints);
    let domains = desired_rack_domains(components);
    lemma_rack_series_len(racks);
    lemma_observations_len(series, endpoints);
    seq_to_set_is_finite(series);
    series.lemma_cardinality_of_set();
    seq_to_set_is_finite(seen);
    seen.lemma_cardinality_of_set();
    let whole = |v: ComponentView| combined(seen, v.identity())->0;
    assert forall|c: ComponentView| #[trigger] components.contains(c) implies exists|
        v: ComponentView,
    | #[trigger] seen.to_set().contains(v) && whole(v) == c by {
        lemma_combined_some(seen, c.identity());
        let i = choose|i: int|
            0 <= i < seen.len() && (#[trigger] seen[i]).identity() == c.identity();
        assert(seen.to_set().contains(seen[i]));
    }
    lemma_covered_is_no_larger(seen.to_set(), components, whole);
    let claim = |c: ComponentView| c.domain_claim()->0;
    assert forall|d: RackDomainView| #[trigger] domains.contains(d) implies exists|
        c: ComponentView,
    | #[trigger] components.contains(c) && claim(c) == d by {
        let c = choose|c: ComponentView| #[trigger]
            components.contains(c) && c.domain_claim() == Some(d);
        assert(components.contains(c) && claim(c) == d);
    }
    lemma_covered_is_no_larger(components, domains, claim);
}

/// Law: where no endpoint is left, neither is a component or the domain of a rack.
pub proof fn law_no_endpoints_no_components(racks: Seq<RackInventoryView>)
    ensures
        desired_components(racks, Seq::empty()) == Set::<ComponentView>::empty(),
        desired_rack_domains(desired_components(racks, Seq::empty())) == Set::<
            RackDomainView,
        >::empty(),
{
    let none = desired_components(racks, Seq::empty());
    assert(none =~= Set::<ComponentView>::empty());
    assert(desired_rack_domains(none) =~= Set::<RackDomainView>::empty());
}

} // verus!
