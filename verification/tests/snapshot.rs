use std::sync::Arc;

use carbide_telemetry::endpoint::{
    BmcAddr, BmcEndpoint, EndpointMetadata, MachineData, PowerShelfData, RackInventory, SwitchData,
    SwitchEndpointRole,
};
use carbide_telemetry::keys::label_key;
use carbide_telemetry::series::{ComponentSeries, RackDomainSeries, RackSeries, Subsystem};
use carbide_telemetry::snapshot::{
    collect_components, collect_rack_domains, collect_racks, find_contested_racks,
    find_skipped_racks,
};
use prometheus::{GaugeVec, Opts};

fn rack(rack_id: &str, seconds: i64, nanos: i32) -> RackInventory {
    RackInventory {
        rack_id: rack_id.to_string(),
        created_seconds: Some(seconds),
        created_nanos: Some(nanos),
    }
}

fn series(rack_id: &str, seconds: i64, nanos: i32) -> RackSeries {
    RackSeries::from_inventory(&rack(rack_id, seconds, nanos)).unwrap()
}

fn switch(id: &str, role: SwitchEndpointRole, mac: u8) -> Arc<BmcEndpoint> {
    switch_with(id, role, mac, Some("d1"), Some(1))
}

fn switch_with(
    id: &str,
    role: SwitchEndpointRole,
    mac: u8,
    domain: Option<&str>,
    slot_number: Option<i32>,
) -> Arc<BmcEndpoint> {
    Arc::new(BmcEndpoint {
        addr: BmcAddr { mac: [0, 0, 0, 0, 0, mac] },
        metadata: Some(EndpointMetadata::Switch(SwitchData {
            id: Some(id.to_string()),
            serial: "serial".to_string(),
            slot_number,
            tray_index: None,
            nvlink_domain_uuid: domain.map(|d| d.to_string()),
            endpoint_role: role,
            is_primary: false,
            nmxc_enabled: role == SwitchEndpointRole::Host,
        })),
        rack_id: Some("r".to_string()),
    })
}

fn endpoint(metadata: Option<EndpointMetadata>, rack_id: Option<&str>) -> BmcEndpoint {
    BmcEndpoint {
        addr: BmcAddr { mac: [0xde, 0xad, 0xbe, 0xef, 0x01, 0x2f] },
        metadata,
        rack_id: rack_id.map(|id| id.to_string()),
    }
}

fn component(uid: &str) -> ComponentSeries {
    ComponentSeries {
        rack_id: "r".to_string(),
        session_id: "r:1.000000000".to_string(),
        subsystem: Subsystem::Switch,
        component_type: "nvlink_switch".to_string(),
        component_uid: uid.to_string(),
        bmc_mac: String::new(),
        nvl_domain: String::new(),
        nmxc_enabled: false,
        nmxc_primary: false,
        slot_number: String::new(),
        tray_index: String::new(),
    }
}

#[test]
fn a_session_names_the_rack_and_its_creation_time() {
    assert_eq!(series("D09", 1_725_000_000, 123_000_000).session_id, "D09:1725000000.123000000");
    assert_eq!(series("D", -5, 7).session_id, "D:-5.000000007");
    assert_eq!(series("", 0, 0).session_id, ":0.000000000");
    assert_eq!(series("x", i64::MIN, 999_999_999).session_id, "x:-9223372036854775808.999999999");
    let s = series("D09", 10, 20);
    assert_eq!(s.rack_id, "D09");
    assert_eq!((s.created_seconds, s.created_nanos), (10, 20));
    assert_eq!(s.label_values(), ["D09", "D09:10.000000020"]);
}

#[test]
fn a_rack_needs_a_valid_creation_time() {
    assert!(RackSeries::from_inventory(&rack("D", 1, 999_999_999)).is_some());
    assert!(RackSeries::from_inventory(&rack("D", 1, 1_000_000_000)).is_none());
    assert!(RackSeries::from_inventory(&rack("D", 1, -1)).is_none());
    let mut unknown = rack("D", 1, 0);
    unknown.created_seconds = None;
    assert!(RackSeries::from_inventory(&unknown).is_none());
    let mut unknown = rack("D", 1, 0);
    unknown.created_nanos = None;
    assert!(RackSeries::from_inventory(&unknown).is_none());
}

#[test]
fn different_racks_have_different_sessions() {
    let sessions = [
        series("a:1", 2, 0).session_id,
        series("a", 12, 0).session_id,
        series("a", 1, 0).session_id,
        series("a", 1, 1).session_id,
        series("a", -1, 1).session_id,
        series("a:1.000000000", 1, 0).session_id,
    ];
    for i in 0..sessions.len() {
        for j in 0..i {
            assert_ne!(sessions[i], sessions[j]);
        }
    }
}

#[test]
fn racks_are_collected_once() {
    let racks = [rack("a", 1, 0), rack("b", 1, 0), rack("a", 1, 0), rack("c", 1, -1)];
    let found = collect_racks(&racks);
    assert_eq!(found.len(), 2);
    assert!(found.iter().any(|s| s.rack_id == "a"));
    assert!(found.iter().any(|s| s.rack_id == "b"));
}

#[test]
fn series_are_collected_in_the_order_of_their_labels() {
    let racks = [rack("b", 1, 0), rack("a", 9, 0), rack("a", 10, 0), rack("ab", 1, 0)];
    let sessions: Vec<String> =
        collect_racks(&racks).into_iter().map(|series| series.session_id).collect();
    assert_eq!(
        sessions,
        vec!["a:10.000000000", "a:9.000000000", "ab:1.000000000", "b:1.000000000"]
    );

    let racks = collect_racks(&[rack("r", 1, 0)]);
    let endpoints = [
        switch_with("s2", SwitchEndpointRole::Bmc, 1, Some("d"), None),
        switch_with("s1", SwitchEndpointRole::Bmc, 2, Some("d"), None),
        switch_with("s10", SwitchEndpointRole::Bmc, 3, Some("d"), None),
        switch_with("s2", SwitchEndpointRole::Host, 4, Some("d"), None),
    ];
    let uids: Vec<String> =
        collect_components(&racks, &endpoints).into_iter().map(|c| c.component_uid).collect();
    assert_eq!(uids, vec!["s1", "s10", "s2"]);

    let claim = |rack_id: &str| {
        let mut c = component("s");
        c.rack_id = rack_id.to_string();
        c.nvl_domain = "d".to_string();
        c
    };
    let domains: Vec<String> = collect_rack_domains(&vec![claim("y"), claim("x"), claim("y")])
        .into_iter()
        .map(|d| d.rack_id)
        .collect();
    assert_eq!(domains, vec!["x", "y"]);
}

#[test]
fn components_belong_to_the_session_that_comes_last() {
    // "r:9..." comes after "r:10..." as text.
    for racks in [
        [rack("r", 9, 0), rack("r", 10, 0)],
        [rack("r", 10, 0), rack("r", 9, 0)],
    ] {
        let found = collect_racks(&racks);
        assert_eq!(found.len(), 2);
        let components =
            collect_components(&found, &[switch("s", SwitchEndpointRole::Bmc, 1)]);
        assert_eq!(components.len(), 1);
        assert_eq!(components[0].session_id, "r:9.000000000");
    }
}

#[test]
fn endpoints_outside_the_snapshot_are_passed_over() {
    let racks = collect_racks(&[rack("r", 1, 0)]);
    let machine = |id: Option<&str>| {
        Some(EndpointMetadata::Machine(MachineData {
            component_type: "compute_tray".to_string(),
            machine_id: id.map(|i| i.to_string()),
            nvlink_domain_uuid: None,
            slot_number: None,
            tray_index: None,
        }))
    };
    let endpoints = [
        Arc::new(endpoint(machine(Some("m")), None)),
        Arc::new(endpoint(machine(Some("m")), Some("other"))),
        Arc::new(endpoint(None, Some("r"))),
        Arc::new(endpoint(machine(None), Some("r"))),
    ];
    assert!(collect_components(&racks, &endpoints).is_empty());
    assert!(collect_components(&racks, &[]).is_empty());
    let known = [Arc::new(endpoint(machine(Some("m")), Some("r")))];
    assert_eq!(collect_components(&racks, &known).len(), 1);
}

#[test]
fn a_machine_is_a_compute_component() {
    let metadata = EndpointMetadata::Machine(MachineData {
        component_type: "compute_tray".to_string(),
        machine_id: Some("m1".to_string()),
        nvlink_domain_uuid: Some("d".to_string()),
        slot_number: Some(i32::MIN),
        tray_index: Some(0),
    });
    let c =
        ComponentSeries::from_endpoint(&endpoint(Some(metadata), None), &series("r", 1, 2)).unwrap();
    assert_eq!(
        c.label_values(),
        [
            "r",
            "r:1.000000002",
            "compute",
            "compute_tray",
            "m1",
            "DE:AD:BE:EF:01:2F",
            "d",
            "false",
            "false",
            "-2147483648",
            "0",
        ]
    );
}

#[test]
fn a_switch_without_an_identifier_goes_by_its_serial_number() {
    let metadata = |id: Option<&str>, endpoint_role: SwitchEndpointRole| {
        Some(EndpointMetadata::Switch(SwitchData {
            id: id.map(|i| i.to_string()),
            serial: "sn".to_string(),
            slot_number: None,
            tray_index: Some(12),
            nvlink_domain_uuid: None,
            endpoint_role,
            is_primary: true,
            nmxc_enabled: true,
        }))
    };
    let rack = series("r", 1, 0);
    let bmc = endpoint(metadata(Some("id"), SwitchEndpointRole::Bmc), None);
    let c = ComponentSeries::from_endpoint(&bmc, &rack).unwrap();
    assert_eq!(c.component_uid, "id");
    assert_eq!(c.bmc_mac, "DE:AD:BE:EF:01:2F");
    let host = endpoint(metadata(None, SwitchEndpointRole::Host), None);
    let c = ComponentSeries::from_endpoint(&host, &rack).unwrap();
    assert_eq!(
        c.label_values(),
        [
            "r",
            "r:1.000000000",
            "switch",
            "nvlink_switch",
            "sn",
            "",
            "",
            "true",
            "true",
            "",
            "12",
        ]
    );
}

#[test]
fn a_power_shelf_needs_an_identifier_or_a_serial_number() {
    let metadata = |id: Option<&str>, serial: Option<&str>| {
        Some(EndpointMetadata::PowerShelf(PowerShelfData {
            component_type: "power_shelf".to_string(),
            id: id.map(|i| i.to_string()),
            serial: serial.map(|s| s.to_string()),
        }))
    };
    let rack = series("r", 1, 0);
    let uid = |id: Option<&str>, serial: Option<&str>| {
        ComponentSeries::from_endpoint(&endpoint(metadata(id, serial), None), &rack)
            .map(|c| c.component_uid)
    };
    assert_eq!(uid(Some("i"), Some("s")), Some("i".to_string()));
    assert_eq!(uid(None, Some("s")), Some("s".to_string()));
    assert_eq!(uid(None, None), None);
    let c = ComponentSeries::from_endpoint(&endpoint(metadata(Some("i"), None), None), &rack);
    assert_eq!(c.unwrap().subsystem, Subsystem::Power);
}

#[test]
fn merging_fills_what_is_missing() {
    let mut a = component("s");
    a.slot_number = "1".to_string();
    a.nmxc_primary = true;
    let mut b = component("s");
    b.bmc_mac = "m".to_string();
    b.nvl_domain = "d".to_string();
    b.slot_number = "2".to_string();
    b.tray_index = "3".to_string();
    b.nmxc_enabled = true;
    a.merge(&b);
    assert_eq!(
        a.label_values(),
        [
            "r",
            "r:1.000000000",
            "switch",
            "nvlink_switch",
            "s",
            "m",
            "d",
            "true",
            "true",
            "1",
            "3",
        ]
    );
    let labels = a.label_values().map(|l| l.to_string());
    a.merge(&b);
    assert_eq!(a.label_values().map(|l| l.to_string()), labels);
    assert_eq!(
        a.identity(),
        (
            "r".to_string(),
            "r:1.000000000".to_string(),
            "nvlink_switch".to_string(),
            "s".to_string()
        )
    );
}

#[test]
fn merging_does_not_depend_on_groups_or_on_agreeing_order() {
    let views = || {
        let mut a = component("s");
        a.bmc_mac = "m".to_string();
        let mut b = component("s");
        b.nvl_domain = "d".to_string();
        b.nmxc_enabled = true;
        let mut c = component("s");
        c.nvl_domain = "d".to_string();
        c.tray_index = "4".to_string();
        (a, b, c)
    };
    let (mut left, b, c) = views();
    left.merge(&b);
    left.merge(&c);
    let (mut right, mut bc, c) = views();
    bc.merge(&c);
    right.merge(&bc);
    assert_eq!(left.label_values(), right.label_values());
    let (a, b, mut backwards) = views();
    backwards.merge(&b);
    backwards.merge(&a);
    assert_eq!(left.label_values(), backwards.label_values());
}

#[test]
fn endpoint_order_does_not_change_the_bmc_address() {
    let racks = collect_racks(&[rack("r", 1, 0)]);
    let bmc = switch("s", SwitchEndpointRole::Bmc, 1);
    let host = switch("s", SwitchEndpointRole::Host, 2);
    for endpoints in [
        vec![bmc.clone(), host.clone()],
        vec![host.clone(), bmc.clone()],
        vec![host.clone(), host.clone(), bmc.clone()],
    ] {
        let found = collect_components(&racks, &endpoints);
        assert_eq!(found.len(), 1);
        assert_eq!(found[0].bmc_mac, "00:00:00:00:00:01");
        assert!(found[0].nmxc_enabled);
    }
    let found = collect_components(&racks, &[host]);
    assert_eq!(found[0].bmc_mac, "");
}

#[test]
fn the_first_text_of_a_component_stands() {
    let racks = collect_racks(&[rack("r", 1, 0)]);
    let endpoints = [
        switch_with("s", SwitchEndpointRole::Host, 1, None, None),
        switch_with("s", SwitchEndpointRole::Bmc, 2, Some("d2"), Some(2)),
        switch_with("s", SwitchEndpointRole::Bmc, 3, Some("d3"), Some(3)),
        switch_with("t", SwitchEndpointRole::Bmc, 4, Some("d2"), None),
    ];
    let found = collect_components(&racks, &endpoints);
    assert_eq!(found.len(), 2);
    let s = found.iter().find(|c| c.component_uid == "s").unwrap();
    assert_eq!((s.bmc_mac.as_str(), s.nvl_domain.as_str()), ("00:00:00:00:00:02", "d2"));
    assert_eq!(s.slot_number, "2");
}

#[test]
fn a_rack_has_the_domain_that_its_switches_agree_on() {
    let claim = |uid: &str, domain: &str| {
        let mut c = component(uid);
        c.nvl_domain = domain.to_string();
        c
    };
    let agreed = collect_rack_domains(&vec![claim("s", "d"), claim("t", "d"), claim("u", "")]);
    assert_eq!(agreed.len(), 1);
    assert_eq!(agreed[0].label_values(), ["r", "r:1.000000000", "d"]);

    assert!(collect_rack_domains(&vec![claim("s", "d"), claim("t", "e")]).is_empty());
    assert!(collect_rack_domains(&vec![claim("s", "d"), claim("t", "e"), claim("u", "d")])
        .is_empty());
    assert!(collect_rack_domains(&vec![claim("s", "")]).is_empty());
    assert!(collect_rack_domains(&vec![]).is_empty());

    let mut machine = claim("m", "x");
    machine.subsystem = Subsystem::Compute;
    let with_machine = collect_rack_domains(&vec![machine, claim("s", "d")]);
    assert_eq!(with_machine.len(), 1);
    assert_eq!(with_machine[0].nvl_domain, "d");

    let mut elsewhere = claim("s", "e");
    elsewhere.rack_id = "q".to_string();
    assert_eq!(collect_rack_domains(&vec![elsewhere, claim("s", "d")]).len(), 2);
}

#[test]
fn labels_come_in_the_order_of_their_names() {
    let domain = RackDomainSeries {
        rack_id: "1".to_string(),
        session_id: "2".to_string(),
        nvl_domain: "3".to_string(),
    };
    assert_eq!(domain.label_values(), ["1", "2", "3"]);
    let metadata = EndpointMetadata::PowerShelf(PowerShelfData {
        component_type: "kind".to_string(),
        id: None,
        serial: None,
    });
    assert_eq!(metadata.component_type(), "kind");
}

#[test]
fn racks_with_an_invalid_creation_time_are_named() {
    let mut unknown = rack("u", 1, -1);
    unknown.created_seconds = None;
    let mut no_nanos = rack("n", 1, 0);
    no_nanos.created_nanos = None;
    let racks = [
        rack("b", 1, 1_000_000_000),
        rack("ok", 1, 999_999_999),
        unknown,
        no_nanos,
        rack("a", 1, -1),
    ];
    let skipped: Vec<(String, i32)> = find_skipped_racks(&racks)
        .into_iter()
        .map(|rack| (rack.rack_id, rack.created_nanos))
        .collect();
    assert_eq!(skipped, vec![("b".to_string(), 1_000_000_000), ("a".to_string(), -1)]);
}

#[test]
fn contested_racks_are_named_with_their_domains() {
    let claim = |rack_id: &str, uid: &str, domain: &str| {
        let mut c = component(uid);
        c.rack_id = rack_id.to_string();
        c.nvl_domain = domain.to_string();
        c
    };
    let components = vec![
        claim("y", "1", "e"),
        claim("x", "1", "d"),
        claim("y", "2", "d"),
        claim("z", "1", "d"),
        claim("y", "3", "e"),
        claim("w", "1", "c"),
        claim("w", "2", "a"),
        claim("w", "3", "b"),
        claim("w", "4", ""),
    ];
    let contested: Vec<(String, Vec<String>)> = find_contested_racks(&components)
        .into_iter()
        .map(|rack| (rack.rack_id, rack.domains))
        .collect();
    assert_eq!(
        contested,
        vec![
            ("w".to_string(), vec!["a".to_string(), "b".to_string(), "c".to_string()]),
            ("y".to_string(), vec!["d".to_string(), "e".to_string()]),
        ]
    );
    let published: Vec<String> =
        collect_rack_domains(&components).into_iter().map(|d| d.rack_id).collect();
    assert_eq!(published, vec!["x", "z"]);
    assert!(find_contested_racks(&vec![]).is_empty());
}

#[test]
fn keys_are_hashes_of_the_values_run_together() {
    assert_eq!(label_key(&[""]), 0xcbf29ce484222325);
    assert_eq!(label_key(&["a"]), 0xaf63dc4c8601ec8c);
    assert_eq!(label_key(&["foobar"]), 0x85944171f73967e8);
    assert_eq!(label_key(&["foo", "", "bar"]), 0x85944171f73967e8);
    assert_ne!(label_key(&["a"]), label_key(&["b"]));
}

#[test]
fn prometheus_shares_a_sample_where_keys_are_the_same() {
    let same = ["77kepQFQ8Kl", "!0IC=VloaY"];
    assert_eq!(label_key(&[same[0]]), label_key(&[same[1]]));
    let family = GaugeVec::new(Opts::new("g", "h"), &["l"]).unwrap();
    family.with_label_values(&[same[0]]).set(1.0);
    assert_eq!(family.with_label_values(&[same[1]]).get(), 1.0);
    assert_ne!(label_key(&["other"]), label_key(&[same[0]]));
    assert_eq!(family.with_label_values(&["other"]).get(), 0.0);
}
