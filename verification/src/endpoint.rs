//! What an inventory snapshot holds: the racks, and the endpoints of the components in them.

use vstd::prelude::*;

verus! {

/// A rack as the inventory reports it. The creation time may be missing.
pub struct RackInventory {
    pub rack_id: String,
    pub created_seconds: Option<i64>,
    pub created_nanos: Option<i32>,
}

/// Which of a switch's two endpoints this is.
#[derive(Clone, Copy, Debug, PartialEq, Eq, Structural)]
pub enum SwitchEndpointRole {
    /// The baseboard management controller of the switch.
    Bmc,
    /// The operating system that runs on the switch.
    Host,
}

/// What is known of a compute machine.
pub struct MachineData {
    pub component_type: String,
    pub machine_id: Option<String>,
    pub nvlink_domain_uuid: Option<String>,
    pub slot_number: Option<i32>,
    pub tray_index: Option<i32>,
}

/// What is known of an NVLink switch.
pub struct SwitchData {
    pub id: Option<String>,
    pub serial: String,
    pub slot_number: Option<i32>,
    pub tray_index: Option<i32>,
    pub nvlink_domain_uuid: Option<String>,
    pub endpoint_role: SwitchEndpointRole,
    pub is_primary: bool,
    pub nmxc_enabled: bool,
}

/// What is known of a power shelf.
pub struct PowerShelfData {
    pub component_type: String,
    pub id: Option<String>,
    pub serial: Option<String>,
}

/// What is known of the component behind an endpoint.
pub enum EndpointMetadata {
    Machine(MachineData),
    Switch(SwitchData),
    PowerShelf(PowerShelfData),
}

/// Where an endpoint is reached.
pub struct BmcAddr {
    /// The six bytes of the MAC address.
    pub mac: [u8; 6],
}

/// An endpoint of a component.
pub struct BmcEndpoint {
    pub addr: BmcAddr,
    pub metadata: Option<EndpointMetadata>,
    pub rack_id: Option<String>,
}

/// The characters of an optional text.
pub open spec fn optional_chars(text: Option<String>) -> Option<Seq<char>> {
    match text {
        Some(t) => Some(t@),
        None => None,
    }
}

/// The model of [`RackInventory`].
pub struct RackInventoryView {
    pub rack_id: Seq<char>,
    pub created_seconds: Option<i64>,
    pub created_nanos: Option<i32>,
}

impl View for RackInventory {
    type V = RackInventoryView;

    open spec fn view(&self) -> RackInventoryView {
        RackInventoryView {
            rack_id: self.rack_id@,
            created_seconds: self.created_seconds,
            created_nanos: self.created_nanos,
        }
    }
}

/// The model of [`EndpointMetadata`].
#[allow(inconsistent_fields)]
pub enum MetadataView {
    Machine {
        component_type: Seq<char>,
        machine_id: Option<Seq<char>>,
        nvlink_domain_uuid: Option<Seq<char>>,
        slot_number: Option<i32>,
        tray_index: Option<i32>,
    },
    Switch {
        id: Option<Seq<char>>,
        serial: Seq<char>,
        slot_number: Option<i32>,
        tray_index: Option<i32>,
        nvlink_domain_uuid: Option<Seq<char>>,
        endpoint_role: SwitchEndpointRole,
        is_primary: bool,
        nmxc_enabled: bool,
    },
    PowerShelf { component_type: Seq<char>, id: Option<Seq<char>>, serial: Option<Seq<char>> },
}

impl View for EndpointMetadata {
    type V = MetadataView;

    open spec fn view(&self) -> MetadataView {
        match *self {
            EndpointMetadata::Machine(m) => MetadataView::Machine {
                component_type: m.component_type@,
                machine_id: optional_chars(m.machine_id),
                nvlink_domain_uuid: optional_chars(m.nvlink_domain_uuid),
                slot_number: m.slot_number,
                tray_index: m.tray_index,
            },
            EndpointMetadata::Switch(s) => MetadataView::Switch {
                id: optional_chars(s.id),
                serial: s.serial@,
                slot_number: s.slot_number,
                tray_index: s.tray_index,
                nvlink_domain_uuid: optional_chars(s.nvlink_domain_uuid),
                endpoint_role: s.endpoint_role,
                is_primary: s.is_primary,
                nmxc_enabled: s.nmxc_enabled,
            },
            EndpointMetadata::PowerShelf(p) => MetadataView::PowerShelf {
                component_type: p.component_type@,
                id: optional_chars(p.id),
                serial: optional_chars(p.serial),
            },
        }
    }
}

/// The model of [`BmcEndpoint`].
pub struct EndpointView {
    pub mac: Seq<u8>,
    pub metadata: Option<MetadataView>,
    pub rack_id: Option<Seq<char>>,
}

impl View for BmcEndpoint {
    type V = EndpointView;

    open spec fn view(&self) -> EndpointView {
        EndpointView {
            mac: self.addr.mac@,
            metadata: match self.metadata {
                Some(m) => Some(m@),
                None => None,
            },
            rack_id: optional_chars(self.rack_id),
        }
    }
}

impl MetadataView {
    /// The kind of component, as the `component_type` label gives it.
    pub open spec fn component_type(self) -> Seq<char> {
        match self {
            MetadataView::Machine { component_type, .. } => component_type,
            MetadataView::Switch { .. } => "nvlink_switch"@,
            MetadataView::PowerShelf { component_type, .. } => component_type,
        }
    }
}

impl EndpointMetadata {
    /// The kind of component. Every switch is an NVLink switch; the others name their kind.
    pub fn component_type(&self) -> (r: &str)
        ensures
            r@ == self@.component_type(),
    {
        match self {
            EndpointMetadata::Machine(machine) => machine.component_type.as_str(),
            EndpointMetadata::Switch(_) => "nvlink_switch",
            EndpointMetadata::PowerShelf(power_shelf) => power_shelf.component_type.as_str(),
        }
    }
}

/// The hexadecimal digit, in upper case, that stands for `d`.
pub open spec fn hex_digit(d: nat) -> char {
    if d < 10 {
        (('0' as nat) + d) as char
    } else {
        (('A' as nat) + (d - 10) as nat) as char
    }
}

/// A byte as two hexadecimal digits.
pub open spec fn hex_pair(b: u8) -> Seq<char> {
    seq![hex_digit(b as nat / 16), hex_digit(b as nat % 16)]
}

/// A MAC address as six pairs of hexadecimal digits with colons between them.
pub open spec fn mac_chars(mac: Seq<u8>) -> Seq<char> {
    hex_pair(mac[0]) + seq![':'] + hex_pair(mac[1]) + seq![':'] + hex_pair(mac[2]) + seq![':']
        + hex_pair(mac[3]) + seq![':'] + hex_pair(mac[4]) + seq![':'] + hex_pair(mac[5])
}

/// Calls the `Display` of `mac_address::MacAddress`, which writes each of the six bytes as two
/// upper-case hexadecimal digits and puts a colon between two bytes.
#[verifier::external_body]
pub(crate) fn mac_text(mac: &[u8; 6]) -> (r: String)
    ensures
        r@ == mac_chars(mac@),
{
    mac_address::MacAddress::new(*mac).to_string()
}

/// Law: the model of a rack holds what the inventory reports of it.
pub proof fn law_rack_model(rack: RackInventory)
    ensures
        rack@.rack_id == rack.rack_id@,
        rack@.created_seconds == rack.created_seconds,
        rack@.created_nanos == rack.created_nanos,
{
}

/// Law: the model of an endpoint holds what is known of it and of the component behind it.
pub proof fn law_endpoint_model(endpoint: BmcEndpoint)
    ensures
        endpoint@.mac == endpoint.addr.mac@,
        endpoint@.rack_id == match endpoint.rack_id {
            Some(id) => Some(id@),
            None => None,
        },
        endpoint@.metadata is Some <==> endpoint.metadata is Some,
        endpoint.metadata matches Some(EndpointMetadata::Machine(machine)) ==> {
            &&& endpoint@.metadata matches Some(
                MetadataView::Machine {
                    component_type,
                    machine_id,
                    nvlink_domain_uuid,
                    slot_number,
                    tray_index,
                },
            )
            &&& component_type == machine.component_type@
            &&& machine_id is Some <==> machine.machine_id is Some
            &&& machine_id is Some ==> machine_id->0 == machine.machine_id->0@
            &&& nvlink_domain_uuid is Some <==> machine.nvlink_domain_uuid is Some
            &&& nvlink_domain_uuid is Some ==> nvlink_domain_uuid->0
                == machine.nvlink_domain_uuid->0@
            &&& slot_number == machine.slot_number
            &&& tray_index == machine.tray_index
        },
        endpoint.metadata matches Some(EndpointMetadata::Switch(switch)) ==> {
            &&& endpoint@.metadata matches Some(
                MetadataView::Switch {
                    id,
                    serial,
                    slot_number,
                    tray_index,
                    nvlink_domain_uuid,
                    endpoint_role,
                    is_primary,
                    nmxc_enabled,
                },
            )
            &&& id is Some <==> switch.id is Some
            &&& id is Some ==> id->0 == switch.id->0@
            &&& serial == switch.serial@
            &&& slot_number == switch.slot_number
            &&& tray_index == switch.tray_index
            &&& nvlink_domain_uuid is Some <==> switch.nvlink_domain_uuid is Some
            &&& nvlink_domain_uuid is Some ==> nvlink_domain_uuid->0
                == switch.nvlink_domain_uuid->0@
            &&& endpoint_role == switch.endpoint_role
            &&& is_primary == switch.is_primary
            &&& nmxc_enabled == switch.nmxc_enabled
        },
        endpoint.metadata matches Some(EndpointMetadata::PowerShelf(shelf)) ==> {
            &&& endpoint@.metadata matches Some(
                MetadataView::PowerShelf { component_type, id, serial },
            )
            &&& component_type == shelf.component_type@
            &&& id is Some <==> shelf.id is Some
            &&& id is Some ==> id->0 == shelf.id->0@
            &&& serial is Some <==> shelf.serial is Some
            &&& serial is Some ==> serial->0 == shelf.serial->0@
        },
{
}

} // verus!
