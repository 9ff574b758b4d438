//! The series that an inventory snapshot is published as, and their labels.

use vstd::prelude::*;
use vstd::string::StringExecFns;

use crate::endpoint::{
    mac_text, BmcEndpoint, EndpointMetadata, RackInventory, SwitchEndpointRole,
};
use crate::rows::{comes_before, Comparable};
use crate::text::{append_padded, append_signed, optional_text, same_text};

verus! {

use crate::endpoint::{mac_chars, EndpointView, MetadataView, RackInventoryView};
use crate::rows::{texts, views};
use crate::text::{optional_decimal, padded_decimal, signed_decimal};

/// How many nanoseconds make a second.
pub const NANOS_PER_SECOND: i32 = 1_000_000_000;

/// The part of the plant that a component belongs to.
#[derive(Clone, Copy, Debug, PartialEq, Eq, Structural)]
pub enum Subsystem {
    Compute,
    Switch,
    Power,
}

impl Subsystem {
    /// The text of the `subsystem` label.
    pub open spec fn chars(self) -> Seq<char> {
        match self {
            Subsystem::Compute => "compute"@,
            Subsystem::Switch => "switch"@,
            Subsystem::Power => "power"@,
        }
    }

    /// The text of the `subsystem` label.
    pub fn as_str(&self) -> (r: &'static str)
        ensures
            r@ == self.chars(),
    {
        match self {
            Subsystem::Compute => "compute",
            Subsystem::Switch => "switch",
            Subsystem::Power => "power",
        }
    }
}

/// The text of a flag in a label.
pub open spec fn flag_chars(flag: bool) -> Seq<char> {
    if flag {
        "true"@
    } else {
        "false"@
    }
}

/// The text of a flag in a label.
fn flag_text(flag: bool) -> (r: &'static str)
    ensures
        r@ == flag_chars(flag),
{
    if flag {
        "true"
    } else {
        "false"
    }
}

/// A rack in one ingestion session. A rack that is deleted and created again gets another
/// session.
pub struct RackSeries {
    pub rack_id: String,
    pub session_id: String,
    pub created_seconds: i64,
    pub created_nanos: i32,
}

/// The model of [`RackSeries`].
pub struct RackSeriesView {
    pub rack_id: Seq<char>,
    pub session_id: Seq<char>,
    pub created_seconds: i64,
    pub created_nanos: i32,
}

impl View for RackSeries {
    type V = RackSeriesView;

    open spec fn view(&self) -> RackSeriesView {
        RackSeriesView {
            rack_id: self.rack_id@,
            session_id: self.session_id@,
            created_seconds: self.created_seconds,
            created_nanos: self.created_nanos,
        }
    }
}

/// The session of a rack: its identifier and its creation time, to the nanosecond.
pub open spec fn session_chars(rack_id: Seq<char>, seconds: int, nanos: nat) -> Seq<char> {
    rack_id + seq![':'] + signed_decimal(seconds) + seq!['.'] + padded_decimal(nanos, 9)
}

impl RackInventoryView {
    /// The series of a rack. It has one where the creation time is known and its nanoseconds
    /// are less than a second.
    pub open spec fn series(self) -> Option<RackSeriesView> {
        match (self.created_seconds, self.created_nanos) {
            (Some(seconds), Some(nanos)) => if 0 <= nanos < NANOS_PER_SECOND {
                Some(
                    RackSeriesView {
                        rack_id: self.rack_id,
                        session_id: session_chars(self.rack_id, seconds as int, nanos as nat),
                        created_seconds: seconds,
                        created_nanos: nanos,
                    },
                )
            } else {
                None
            },
            _ => None,
        }
    }
}

/// A rack that has no series because the nanoseconds of its creation time are not valid.
pub struct SkippedRack {
    pub rack_id: String,
    pub created_nanos: i32,
}

/// The model of [`SkippedRack`].
pub struct SkippedRackView {
    pub rack_id: Seq<char>,
    pub created_nanos: i32,
}

impl View for SkippedRack {
    type V = SkippedRackView;

    open spec fn view(&self) -> SkippedRackView {
        SkippedRackView { rack_id: self.rack_id@, created_nanos: self.created_nanos }
    }
}

impl RackInventoryView {
    /// The rack, where its creation time is known and its nanoseconds are not valid.
    pub open spec fn skipped(self) -> Option<SkippedRackView> {
        match (self.created_seconds, self.created_nanos) {
            (Some(_), Some(nanos)) => if 0 <= nanos < NANOS_PER_SECOND {
                None
            } else {
                Some(SkippedRackView { rack_id: self.rack_id, created_nanos: nanos })
            },
            _ => None,
        }
    }
}

impl SkippedRack {
    /// The rack, if its creation time is known and not valid.
    pub fn from_inventory(rack: &RackInventory) -> (r: Option<Self>)
        ensures
            match r {
                Some(skipped) => rack@.skipped() == Some(skipped@),
                None => rack@.skipped() is None,
            },
    {
        match (rack.created_seconds, rack.created_nanos) {
            (Some(_), Some(created_nanos)) => if created_nanos < 0 || created_nanos
                >= NANOS_PER_SECOND {
                Some(SkippedRack { rack_id: rack.rack_id.clone(), created_nanos })
            } else {
                None
            },
            _ => None,
        }
    }
}

impl RackSeriesView {
    /// Whether the session is the one that the rack and its creation time give.
    pub open spec fn wf(self) -> bool {
        &&& 0 <= self.created_nanos < NANOS_PER_SECOND
        &&& self.session_id == session_chars(
            self.rack_id,
            self.created_seconds as int,
            self.created_nanos as nat,
        )
    }

    /// The label values `rack_id` and `session_id`.
    pub open spec fn labels(self) -> Seq<Seq<char>> {
        seq![self.rack_id, self.session_id]
    }
}

impl RackSeries {
    /// The series of a rack, if its creation time is known and valid.
    pub fn from_inventory(rack: &RackInventory) -> (r: Option<Self>)
        ensures
            match r {
                Some(series) => rack@.series() == Some(series@) && series@.wf(),
                None => rack@.series() is None,
            },
    {
        let created_seconds: i64 = match rack.created_seconds {
            Some(seconds) => seconds,
            None => return None,
        };
        let created_nanos: i32 = match rack.created_nanos {
            Some(nanos) => nanos,
            None => return None,
        };
        if created_nanos < 0 || created_nanos >= NANOS_PER_SECOND {
            return None;
        }
        proof {
            reveal_strlit(":");
            reveal_strlit(".");
        }
        let mut session_id = rack.rack_id.clone();
        session_id.append(":");
        append_signed(&mut session_id, created_seconds);
        session_id.append(".");
        append_padded(&mut session_id, created_nanos as u64, 9);
        assert(session_id@ =~= session_chars(
            rack.rack_id@,
            created_seconds as int,
            created_nanos as nat,
        ));
        let rack_id = rack.rack_id.clone();
        Some(RackSeries { rack_id, session_id, created_seconds, created_nanos })
    }

    /// The values of the labels `rack_id` and `session_id`.
    pub fn label_values(&self) -> (r: [&str; 2])
        ensures
            texts(r@) == self@.labels(),
            r@[0]@ == self.rack_id@ && r@[1]@ == self.session_id@,
    {
        let r = [self.rack_id.as_str(), self.session_id.as_str()];
        assert(texts(r@) =~= self@.labels());
        r
    }
}

impl Comparable for RackSeries {
    open spec fn row(model: RackSeriesView) -> Seq<Seq<char>> {
        model.labels()
    }

    fn same_as(&self, other: &Self) -> bool {
        same_text(&self.rack_id, &other.rack_id) && same_text(&self.session_id, &other.session_id)
            && self.created_seconds == other.created_seconds && self.created_nanos
            == other.created_nanos
    }

    fn is_before(&self, other: &Self) -> bool {
        comes_before(&self.label_values(), &other.label_values())
    }
}

/// The NVLink domain of a rack in one ingestion session.
pub struct RackDomainSeries {
    pub rack_id: String,
    pub session_id: String,
    pub nvl_domain: String,
}

/// The model of [`RackDomainSeries`].
pub struct RackDomainView {
    pub rack_id: Seq<char>,
    pub session_id: Seq<char>,
    pub nvl_domain: Seq<char>,
}

impl View for RackDomainSeries {
    type V = RackDomainView;

    open spec fn view(&self) -> RackDomainView {
        RackDomainView {
            rack_id: self.rack_id@,
            session_id: self.session_id@,
            nvl_domain: self.nvl_domain@,
        }
    }
}

impl RackDomainView {
    /// The label values `rack_id`, `session_id` and `nvl_domain`.
    pub open spec fn labels(self) -> Seq<Seq<char>> {
        seq![self.rack_id, self.session_id, self.nvl_domain]
    }
}

impl RackDomainSeries {
    /// The values of the labels `rack_id`, `session_id` and `nvl_domain`.
    pub fn label_values(&self) -> (r: [&str; 3])
        ensures
            texts(r@) == self@.labels(),
            r@[0]@ == self.rack_id@ && r@[1]@ == self.session_id@ && r@[2]@ == self.nvl_domain@,
    {
        let r = [self.rack_id.as_str(), self.session_id.as_str(), self.nvl_domain.as_str()];
        assert(texts(r@) =~= self@.labels());
        r
    }
}

impl Comparable for RackDomainSeries {
    open spec fn row(model: RackDomainView) -> Seq<Seq<char>> {
        model.labels()
    }

    fn same_as(&self, other: &Self) -> bool {
        same_text(&self.rack_id, &other.rack_id) && same_text(&self.session_id, &other.session_id)
            && same_text(&self.nvl_domain, &other.nvl_domain)
    }

    fn is_before(&self, other: &Self) -> bool {
        comes_before(&self.label_values(), &other.label_values())
    }
}

/// A rack whose switches report different NVLink domains.
pub struct ContestedRack {
    pub rack_id: String,
    pub session_id: String,
    /// The domains that are reported, in order.
    pub domains: Vec<String>,
}

/// The model of [`ContestedRack`].
pub struct ContestedRackView {
    pub rack_id: Seq<char>,
    pub session_id: Seq<char>,
    pub domains: Seq<Seq<char>>,
}

impl View for ContestedRack {
    type V = ContestedRackView;

    open spec fn view(&self) -> ContestedRackView {
        ContestedRackView {
            rack_id: self.rack_id@,
            session_id: self.session_id@,
            domains: views(self.domains@),
        }
    }
}

impl ContestedRackView {
    /// The rack domains that are claimed for the rack, in order.
    pub open spec fn claims(self) -> Seq<RackDomainView> {
        self.domains.map_values(
            |nvl_domain: Seq<char>|
                RackDomainView { rack_id: self.rack_id, session_id: self.session_id, nvl_domain },
        )
    }
}

/// A component of a rack in one ingestion session.
pub struct ComponentSeries {
    pub rack_id: String,
    pub session_id: String,
    pub subsystem: Subsystem,
    pub component_type: String,
    pub component_uid: String,
    pub bmc_mac: String,
    pub nvl_domain: String,
    pub nmxc_enabled: bool,
    pub nmxc_primary: bool,
    pub slot_number: String,
    pub tray_index: String,
}

/// The model of [`ComponentSeries`].
pub struct ComponentView {
    pub rack_id: Seq<char>,
    pub session_id: Seq<char>,
    pub subsystem: Subsystem,
    pub component_type: Seq<char>,
    pub component_uid: Seq<char>,
    pub bmc_mac: Seq<char>,
    pub nvl_domain: Seq<char>,
    pub nmxc_enabled: bool,
    pub nmxc_primary: bool,
    pub slot_number: Seq<char>,
    pub tray_index: Seq<char>,
}

/// What tells one component from another.
pub struct Identity {
    pub rack_id: Seq<char>,
    pub session_id: Seq<char>,
    pub component_type: Seq<char>,
    pub component_uid: Seq<char>,
}

impl View for ComponentSeries {
    type V = ComponentView;

    open spec fn view(&self) -> ComponentView {
        ComponentView {
            rack_id: self.rack_id@,
            session_id: self.session_id@,
            subsystem: self.subsystem,
            component_type: self.component_type@,
            component_uid: self.component_uid@,
            bmc_mac: self.bmc_mac@,
            nvl_domain: self.nvl_domain@,
            nmxc_enabled: self.nmxc_enabled,
            nmxc_primary: self.nmxc_primary,
            slot_number: self.slot_number@,
            tray_index: self.tray_index@,
        }
    }
}

/// The first of two texts that is not empty.
pub open spec fn first_text(a: Seq<char>, b: Seq<char>) -> Seq<char> {
    if a.len() == 0 {
        b
    } else {
        a
    }
}

/// `text`, or no text where there is none.
pub open spec fn text_or_empty(text: Option<Seq<char>>) -> Seq<char> {
    match text {
        Some(t) => t,
        None => Seq::empty(),
    }
}

impl ComponentView {
    /// The rack, the session, the kind of component and its identifier.
    pub open spec fn identity(self) -> Identity {
        Identity {
            rack_id: self.rack_id,
            session_id: self.session_id,
            component_type: self.component_type,
            component_uid: self.component_uid,
        }
    }

    /// Two views of one component, taken together: a text of `self` stands unless it is empty,
    /// and a flag is set where either view sets it.
    pub open spec fn merged(self, other: ComponentView) -> ComponentView {
        ComponentView {
            bmc_mac: first_text(self.bmc_mac, other.bmc_mac),
            nvl_domain: first_text(self.nvl_domain, other.nvl_domain),
            slot_number: first_text(self.slot_number, other.slot_number),
            tray_index: first_text(self.tray_index, other.tray_index),
            nmxc_enabled: self.nmxc_enabled || other.nmxc_enabled,
            nmxc_primary: self.nmxc_primary || other.nmxc_primary,
            ..self
        }
    }

    /// The label values, in the order of the label names.
    pub open spec fn labels(self) -> Seq<Seq<char>> {
        seq![
            self.rack_id,
            self.session_id,
            self.subsystem.chars(),
            self.component_type,
            self.component_uid,
            self.bmc_mac,
            self.nvl_domain,
            flag_chars(self.nmxc_enabled),
            flag_chars(self.nmxc_primary),
            self.slot_number,
            self.tray_index,
        ]
    }
}

impl MetadataView {
    /// The subsystem of the component.
    pub open spec fn subsystem(self) -> Subsystem {
        match self {
            MetadataView::Machine { .. } => Subsystem::Compute,
            MetadataView::Switch { .. } => Subsystem::Switch,
            MetadataView::PowerShelf { .. } => Subsystem::Power,
        }
    }

    /// The identifier of the component, if it is known. A switch or a power shelf without an
    /// identifier goes by its serial number.
    pub open spec fn uid(self) -> Option<Seq<char>> {
        match self {
            MetadataView::Machine { machine_id, .. } => machine_id,
            MetadataView::Switch { id, serial, .. } => match id {
                Some(id) => Some(id),
                None => Some(serial),
            },
            MetadataView::PowerShelf { id, serial, .. } => match id {
                Some(id) => Some(id),
                None => serial,
            },
        }
    }

    /// Whether the MAC address of the endpoint is that of the component's BMC. That of a
    /// switch's host endpoint is not.
    pub open spec fn is_bmc(self) -> bool {
        match self {
            MetadataView::Switch { endpoint_role, .. } => endpoint_role == SwitchEndpointRole::Bmc,
            _ => true,
        }
    }

    /// The NVLink domain; a power shelf has none.
    pub open spec fn nvl_domain(self) -> Seq<char> {
        match self {
            MetadataView::Machine { nvlink_domain_uuid, .. } => text_or_empty(nvlink_domain_uuid),
            MetadataView::Switch { nvlink_domain_uuid, .. } => text_or_empty(nvlink_domain_uuid),
            MetadataView::PowerShelf { .. } => Seq::empty(),
        }
    }

    /// Whether NMX-C is enabled; only a switch can have it.
    pub open spec fn nmxc_enabled(self) -> bool {
        match self {
            MetadataView::Switch { nmxc_enabled, .. } => nmxc_enabled,
            _ => false,
        }
    }

    /// Whether this is the primary NMX-C switch.
    pub open spec fn nmxc_primary(self) -> bool {
        match self {
            MetadataView::Switch { is_primary, .. } => is_primary,
            _ => false,
        }
    }

    /// The slot number; a power shelf has none.
    pub open spec fn slot_number(self) -> Option<i32> {
        match self {
            MetadataView::Machine { slot_number, .. } => slot_number,
            MetadataView::Switch { slot_number, .. } => slot_number,
            MetadataView::PowerShelf { .. } => None,
        }
    }

    /// The tray index; a power shelf has none.
    pub open spec fn tray_index(self) -> Option<i32> {
        match self {
            MetadataView::Machine { tray_index, .. } => tray_index,
            MetadataView::Switch { tray_index, .. } => tray_index,
            MetadataView::PowerShelf { .. } => None,
        }
    }
}

impl EndpointView {
    /// The view that an endpoint gives of its component in the session `rack`. There is none
    /// where the component, or its identifier, is not known.
    pub open spec fn component(self, rack: RackSeriesView) -> Option<ComponentView> {
        match self.metadata {
            Some(metadata) => match metadata.uid() {
                Some(uid) => Some(
                    ComponentView {
                        rack_id: rack.rack_id,
                        session_id: rack.session_id,
                        subsystem: metadata.subsystem(),
                        component_type: metadata.component_type(),
                        component_uid: uid,
                        bmc_mac: if metadata.is_bmc() {
                            mac_chars(self.mac)
                        } else {
                            Seq::empty()
                        },
                        nvl_domain: metadata.nvl_domain(),
                        nmxc_enabled: metadata.nmxc_enabled(),
                        nmxc_primary: metadata.nmxc_primary(),
                        slot_number: optional_decimal(metadata.slot_number()),
                        tray_index: optional_decimal(metadata.tray_index()),
                    },
                ),
                None => None,
            },
            None => None,
        }
    }
}

/// A copy of `text`, or the empty text where there is none.
fn copy_or_empty(text: &Option<String>) -> (r: String)
    ensures
        r@ == text_or_empty(crate::endpoint::optional_chars(*text)),
{
    match text {
        Some(t) => t.clone(),
        None => String::new(),
    }
}

/// Puts `other` in the place of an empty text.
fn fill_empty(text: &mut String, other: &String)
    ensures
        final(text)@ == first_text(old(text)@, other@),
{
    if text.as_str().is_empty() {
        *text = other.clone();
    }
}

impl ComponentSeries {
    /// The view that an endpoint gives of its component in the session `rack`.
    pub fn from_endpoint(endpoint: &BmcEndpoint, rack: &RackSeries) -> (r: Option<Self>)
        ensures
            match r {
                Some(component) => endpoint@.component(rack@) == Some(component@),
                None => endpoint@.component(rack@) is None,
            },
    {
        let metadata = match &endpoint.metadata {
            Some(metadata) => metadata,
            None => return None,
        };
        let component_type = metadata.component_type().to_owned();
        let rack_id = rack.rack_id.clone();
        let session_id = rack.session_id.clone();
        match metadata {
            EndpointMetadata::Machine(machine) => {
                let component_uid = match &machine.machine_id {
                    Some(id) => id.clone(),
                    None => return None,
                };
                Some(
                    ComponentSeries {
                        rack_id,
                        session_id,
                        subsystem: Subsystem::Compute,
                        component_type,
                        component_uid,
                        bmc_mac: mac_text(&endpoint.addr.mac),
                        nvl_domain: copy_or_empty(&machine.nvlink_domain_uuid),
                        nmxc_enabled: false,
                        nmxc_primary: false,
                        slot_number: optional_text(&machine.slot_number),
                        tray_index: optional_text(&machine.tray_index),
                    },
                )
            },
            EndpointMetadata::Switch(switch) => {
                let component_uid = match &switch.id {
                    Some(id) => id.clone(),
                    None => switch.serial.clone(),
                };
                let bmc_mac = if switch.endpoint_role == SwitchEndpointRole::Bmc {
                    mac_text(&endpoint.addr.mac)
                } else {
                    String::new()
                };
                Some(
                    ComponentSeries {
                        rack_id,
                        session_id,
                        subsystem: Subsystem::Switch,
                        component_type,
                        component_uid,
                        bmc_mac,
                        nvl_domain: copy_or_empty(&switch.nvlink_domain_uuid),
                        nmxc_enabled: switch.nmxc_enabled,
                        nmxc_primary: switch.is_primary,
                        slot_number: optional_text(&switch.slot_number),
                        tray_index: optional_text(&switch.tray_index),
                    },
                )
            },
            EndpointMetadata::PowerShelf(power_shelf) => {
                let component_uid = match &power_shelf.id {
                    Some(id) => id.clone(),
                    None => match &power_shelf.serial {
                        Some(serial) => serial.clone(),
                        None => return None,
                    },
                };
                Some(
                    ComponentSeries {
                        rack_id,
                        session_id,
                        subsystem: Subsystem::Power,
                        component_type,
                        component_uid,
                        bmc_mac: mac_text(&endpoint.addr.mac),
                        nvl_domain: String::new(),
                        nmxc_enabled: false,
                        nmxc_primary: false,
                        slot_number: String::new(),
                        tray_index: String::new(),
                    },
                )
            },
        }
    }

    /// The rack, the session, the kind of component and its identifier.
    pub fn identity(&self) -> (r: (String, String, String, String))
        ensures
            (Identity {
                rack_id: r.0@,
                session_id: r.1@,
                component_type: r.2@,
                component_uid: r.3@,
            }) == self@.identity(),
    {
        (
            self.rack_id.clone(),
            self.session_id.clone(),
            self.component_type.clone(),
            self.component_uid.clone(),
        )
    }

    /// Whether `other` is a view of the same component.
    pub(crate) fn same_identity(&self, other: &Self) -> (r: bool)
        ensures
            r == (self@.identity() == other@.identity()),
    {
        same_text(&self.rack_id, &other.rack_id) && same_text(&self.session_id, &other.session_id)
            && same_text(&self.component_type, &other.component_type) && same_text(
            &self.component_uid,
            &other.component_uid,
        )
    }

    /// Takes up what another view of the same component adds.
    ///
    /// A switch can have two endpoints. Only its BMC endpoint gives the MAC address of the BMC;
    /// its host endpoint can still give the NMX-C state. So the order in which the endpoints are
    /// found does not put the host's MAC address in the place of the BMC's.
    pub fn merge(&mut self, other: &Self)
        requires
            old(self)@.identity() == other@.identity(),
        ensures
            final(self)@ == old(self)@.merged(other@),
    {
        fill_empty(&mut self.bmc_mac, &other.bmc_mac);
        fill_empty(&mut self.nvl_domain, &other.nvl_domain);
        fill_empty(&mut self.slot_number, &other.slot_number);
        fill_empty(&mut self.tray_index, &other.tray_index);
        self.nmxc_enabled = self.nmxc_enabled || other.nmxc_enabled;
        self.nmxc_primary = self.nmxc_primary || other.nmxc_primary;
    }

    /// The values of the labels, in the order of the label names.
    pub fn label_values(&self) -> (r: [&str; 11])
        ensures
            texts(r@) == self@.labels(),
            r@[0]@ == self.rack_id@ && r@[1]@ == self.session_id@,
            r@[2]@ == self.subsystem.chars(),
            r@[3]@ == self.component_type@ && r@[4]@ == self.component_uid@,
            r@[5]@ == self.bmc_mac@ && r@[6]@ == self.nvl_domain@,
            r@[7]@ == if self.nmxc_enabled {
                "true"@
            } else {
                "false"@
            },
            r@[8]@ == if self.nmxc_primary {
                "true"@
            } else {
                "false"@
            },
            r@[9]@ == self.slot_number@ && r@[10]@ == self.tray_index@,
    {
        let r = [
            self.rack_id.as_str(),
            self.session_id.as_str(),
            self.subsystem.as_str(),
            self.component_type.as_str(),
            self.component_uid.as_str(),
            self.bmc_mac.as_str(),
            self.nvl_domain.as_str(),
            flag_text(self.nmxc_enabled),
            flag_text(self.nmxc_primary),
            self.slot_number.as_str(),
            self.tray_index.as_str(),
        ];
        assert(texts(r@) =~= self@.labels());
        r
    }
}

impl Comparable for ComponentSeries {
    open spec fn row(model: ComponentView) -> Seq<Seq<char>> {
        model.labels()
    }

    fn same_as(&self, other: &Self) -> bool {
        self.same_identity(other) && self.subsystem == other.subsystem && same_text(
            &self.bmc_mac,
            &other.bmc_mac,
        ) && same_text(&self.nvl_domain, &other.nvl_domain) && self.nmxc_enabled
            == other.nmxc_enabled && self.nmxc_primary == other.nmxc_primary && same_text(
            &self.slot_number,
            &other.slot_number,
        ) && same_text(&self.tray_index, &other.tray_index)
    }

    fn is_before(&self, other: &Self) -> bool {
        comes_before(&self.label_values(), &other.label_values())
    }
}

/// Whether two texts are the same where both are there.
pub open spec fn texts_agree(a: Seq<char>, b: Seq<char>) -> bool {
    a.len() == 0 || b.len() == 0 || a == b
}

impl ComponentView {
    /// Whether two views of a component contradict each other in no text.
    pub open spec fn agrees_with(self, other: ComponentView) -> bool {
        &&& texts_agree(self.bmc_mac, other.bmc_mac)
        &&& texts_agree(self.nvl_domain, other.nvl_domain)
        &&& texts_agree(self.slot_number, other.slot_number)
        &&& texts_agree(self.tray_index, other.tray_index)
    }
}

/// Law: a rack whose creation time is known either has a series or is skipped.
pub proof fn law_rack_is_published_or_skipped(rack: RackInventoryView)
    requires
        rack.created_seconds is Some,
        rack.created_nanos is Some,
    ensures
        rack.series() is Some <==> rack.skipped() is None,
{
}

/// Law: merging keeps the identity and the subsystem of a component.
pub proof fn law_merge_keeps_identity(a: ComponentView, b: ComponentView)
    ensures
        a.merged(b).identity() == a.identity(),
        a.merged(b).subsystem == a.subsystem,
{
}

/// Law: of each text, merging keeps the one that is there and else takes the other's, and a flag is
/// set where either sets it.
pub proof fn law_merged_fields(a: ComponentView, b: ComponentView)
    ensures
        a.merged(b).bmc_mac == if a.bmc_mac.len() > 0 {
            a.bmc_mac
        } else {
            b.bmc_mac
        },
        a.merged(b).nvl_domain == if a.nvl_domain.len() > 0 {
            a.nvl_domain
        } else {
            b.nvl_domain
        },
        a.merged(b).slot_number == if a.slot_number.len() > 0 {
            a.slot_number
        } else {
            b.slot_number
        },
        a.merged(b).tray_index == if a.tray_index.len() > 0 {
            a.tray_index
        } else {
            b.tray_index
        },
        a.merged(b).nmxc_enabled == (a.nmxc_enabled || b.nmxc_enabled),
        a.merged(b).nmxc_primary == (a.nmxc_primary || b.nmxc_primary),
{
}

/// Law: what tells two components apart is the rack, the session, the kind and the identifier, and
/// nothing else.
pub proof fn law_identity(a: ComponentView, b: ComponentView)
    ensures
        a.identity() == b.identity() <==> {
            &&& a.rack_id == b.rack_id
            &&& a.session_id == b.session_id
            &&& a.component_type == b.component_type
            &&& a.component_uid == b.component_uid
        },
{
}

/// Law: the models of series hold what the series hold.
pub proof fn law_series_models(
    component: ComponentSeries,
    domain: RackDomainSeries,
    rack: RackSeries,
)
    ensures
        component@.rack_id == component.rack_id@,
        component@.session_id == component.session_id@,
        component@.subsystem == component.subsystem,
        component@.component_type == component.component_type@,
        component@.component_uid == component.component_uid@,
        component@.bmc_mac == component.bmc_mac@,
        component@.nvl_domain == component.nvl_domain@,
        component@.nmxc_enabled == component.nmxc_enabled,
        component@.nmxc_primary == component.nmxc_primary,
        component@.slot_number == component.slot_number@,
        component@.tray_index == component.tray_index@,
        domain@.rack_id == domain.rack_id@,
        domain@.session_id == domain.session_id@,
        domain@.nvl_domain == domain.nvl_domain@,
        rack@.rack_id == rack.rack_id@,
        rack@.session_id == rack.session_id@,
        rack@.created_seconds == rack.created_seconds,
        rack@.created_nanos == rack.created_nanos,
{
}

/// Law: the subsystems are labelled `compute`, `switch` and `power`.
pub proof fn law_subsystem_labels()
    ensures
        Subsystem::Compute.chars() == "compute"@,
        Subsystem::Switch.chars() == "switch"@,
        Subsystem::Power.chars() == "power"@,
{
}

/// Law: merging a view again changes nothing.
pub proof fn law_merge_absorbs(a: ComponentView, b: ComponentView)
    ensures
        a.merged(a) == a,
        a.merged(b).merged(b) == a.merged(b),
        a.merged(b).merged(a) == a.merged(b),
{
    assert(first_text(first_text(a.bmc_mac, b.bmc_mac), a.bmc_mac) =~= first_text(
        a.bmc_mac,
        b.bmc_mac,
    ));
    assert(first_text(first_text(a.nvl_domain, b.nvl_domain), a.nvl_domain) =~= first_text(
        a.nvl_domain,
        b.nvl_domain,
    ));
    assert(first_text(first_text(a.slot_number, b.slot_number), a.slot_number) =~= first_text(
        a.slot_number,
        b.slot_number,
    ));
    assert(first_text(first_text(a.tray_index, b.tray_index), a.tray_index) =~= first_text(
        a.tray_index,
        b.tray_index,
    ));
}

/// Law: it does not matter in which groups the views of a component are merged.
pub proof fn law_merge_associative(a: ComponentView, b: ComponentView, c: ComponentView)
    ensures
        a.merged(b).merged(c) == a.merged(b.merged(c)),
{
}

/// Law: where two views of a component do not contradict each other, their order does not matter.
pub proof fn law_merge_order(a: ComponentView, b: ComponentView)
    requires
        a.identity() == b.identity(),
        a.subsystem == b.subsystem,
        a.agrees_with(b),
    ensures
        a.merged(b) == b.merged(a),
{
    assert(a.bmc_mac.len() == 0 && b.bmc_mac.len() == 0 ==> a.bmc_mac =~= b.bmc_mac);
    assert(a.nvl_domain.len() == 0 && b.nvl_domain.len() == 0 ==> a.nvl_domain =~= b.nvl_domain);
    assert(a.slot_number.len() == 0 && b.slot_number.len() == 0 ==> a.slot_number
        =~= b.slot_number);
    assert(a.tray_index.len() == 0 && b.tray_index.len() == 0 ==> a.tray_index =~= b.tray_index);
}

impl EndpointView {
    /// Whether this is an endpoint of a switch, in this role.
    pub open spec fn is_switch_endpoint(self, role: SwitchEndpointRole) -> bool {
        match self.metadata {
            Some(MetadataView::Switch { endpoint_role, .. }) => endpoint_role == role,
            _ => false,
        }
    }
}

/// Law: in whichever order the two endpoints of a switch are found, the MAC address of its BMC is
/// that of the BMC endpoint.
pub proof fn law_bmc_mac_in_either_order(
    bmc: EndpointView,
    host: EndpointView,
    rack: RackSeriesView,
)
    requires
        bmc.is_switch_endpoint(SwitchEndpointRole::Bmc),
        host.is_switch_endpoint(SwitchEndpointRole::Host),
    ensures
        bmc.component(rack) is Some,
        host.component(rack) is Some,
        host.component(rack)->0.bmc_mac == Seq::<char>::empty(),
        bmc.component(rack)->0.merged(host.component(rack)->0).bmc_mac == mac_chars(bmc.mac),
        host.component(rack)->0.merged(bmc.component(rack)->0).bmc_mac == mac_chars(bmc.mac),
{
}

/// Law: different components have different label values.
pub proof fn law_component_labels_identify(a: ComponentView, b: ComponentView)
    requires
        a.labels() == b.labels(),
    ensures
        a == b,
{
    reveal_strlit("compute");
    reveal_strlit("switch");
    reveal_strlit("power");
    reveal_strlit("true");
    reveal_strlit("false");
    let x = a.labels();
    let y = b.labels();
    assert(x[0] == y[0] && x[1] == y[1] && x[2] == y[2] && x[3] == y[3] && x[4] == y[4]);
    assert(x[5] == y[5] && x[6] == y[6] && x[7] == y[7] && x[8] == y[8] && x[9] == y[9]);
    assert(x[10] == y[10]);
    assert(a.subsystem.chars().len() == b.subsystem.chars().len());
    assert(flag_chars(a.nmxc_enabled).len() == flag_chars(b.nmxc_enabled).len());
    assert(flag_chars(a.nmxc_primary).len() == flag_chars(b.nmxc_primary).len());
}

/// Law: different rack domains have different label values.
pub proof fn law_rack_domain_labels_identify(a: RackDomainView, b: RackDomainView)
    requires
        a.labels() == b.labels(),
    ensures
        a == b,
{
    let x = a.labels();
    let y = b.labels();
    assert(x[0] == y[0] && x[1] == y[1] && x[2] == y[2]);
}

} // verus!
