use std::str::FromStr;
use std::sync::Arc;

use carbide_telemetry::clock::{time_of_reading, unix_now_seconds, UnixTime};
use carbide_telemetry::endpoint::{
    BmcAddr, BmcEndpoint, EndpointMetadata, MachineData, PowerShelfData, RackInventory, SwitchData,
    SwitchEndpointRole,
};
use carbide_telemetry::inventory::{made, registered, HealthError, InventoryMetrics};
use mac_address::MacAddress;
use prometheus::{Encoder, Registry, TextEncoder};

fn at(seconds: u64) -> UnixTime {
    UnixTime { seconds, nanos: 0 }
}

fn test_switch_id(seed: u8) -> String {
    format!("switch-{seed:02x}")
}

fn switch_endpoint(role: SwitchEndpointRole, mac: &str) -> Arc<BmcEndpoint> {
    switch_endpoint_in_rack(role, mac, "D09", 7, "11111111-1111-1111-1111-111111111111")
}

fn switch_endpoint_in_rack(
    role: SwitchEndpointRole,
    mac: &str,
    rack_id: &str,
    switch_seed: u8,
    nvl_domain: &str,
) -> Arc<BmcEndpoint> {
    Arc::new(BmcEndpoint {
        addr: BmcAddr { mac: MacAddress::from_str(mac).unwrap().bytes() },
        metadata: Some(EndpointMetadata::Switch(SwitchData {
            id: Some(test_switch_id(switch_seed)),
            serial: format!("switch-serial-{switch_seed}"),
            slot_number: Some(9),
            tray_index: Some(3),
            nvlink_domain_uuid: Some(nvl_domain.to_string()),
            endpoint_role: role,
            is_primary: role == SwitchEndpointRole::Host,
            nmxc_enabled: role == SwitchEndpointRole::Host,
        })),
        rack_id: Some(rack_id.to_string()),
    })
}

fn rack() -> RackInventory {
    rack_with_id("D09", 1_725_000_000)
}

fn rack_with_id(rack_id: &str, created_seconds: i64) -> RackInventory {
    RackInventory {
        rack_id: rack_id.to_string(),
        created_seconds: Some(created_seconds),
        created_nanos: Some(123_000_000),
    }
}

fn exposition(registry: &Registry) -> String {
    let mut bytes = Vec::new();
    TextEncoder::new().encode(&registry.gather(), &mut bytes).unwrap();
    String::from_utf8(bytes).unwrap()
}

fn lines_starting(output: &str, start: &str) -> Vec<String> {
    output.lines().filter(|line| line.starts_with(start)).map(|line| line.to_string()).collect()
}

#[test]
fn reconciles_one_component_for_switch_bmc_and_host_endpoints() {
    let registry = Registry::new();
    let mut metrics = InventoryMetrics::new(&registry, "carbide_hardware_health").unwrap();
    let endpoints = vec![
        switch_endpoint(SwitchEndpointRole::Host, "02:00:00:00:00:02"),
        switch_endpoint(SwitchEndpointRole::Bmc, "02:00:00:00:00:01"),
    ];

    metrics.reconcile_at(&[rack()], &endpoints, at(1_800_000_000));

    let output = exposition(&registry);
    assert_eq!(
        output
            .lines()
            .filter(|line| line.starts_with("carbide_hardware_health_component_inventory_info{"))
            .count(),
        1
    );
    assert!(output.contains("component_type=\"nvlink_switch\""));
    assert!(output.contains("subsystem=\"switch\""));
    assert!(output.contains("bmc_mac=\"02:00:00:00:00:01\""));
    assert!(!output.contains("bmc_mac=\"02:00:00:00:00:02\""));
    assert!(output.contains("nmxc_enabled=\"true\""));
    assert!(output.contains("nmxc_primary=\"true\""));
    assert!(output.contains(
        "carbide_hardware_health_rack_nvlink_domain_info{nvl_domain=\"11111111-1111-1111-1111-111111111111\",rack_id=\"D09\",session_id=\"D09:1725000000.123000000\"} 1"
    ));
    assert!(output.contains("slot_number=\"9\""));
    assert!(output.contains("tray_index=\"3\""));
    assert!(output.contains("session_id=\"D09:1725000000.123000000\""));
    assert!(output.contains(
        "carbide_hardware_health_rack_session_start_time_seconds{rack_id=\"D09\",session_id=\"D09:1725000000.123000000\"} 1725000000.123"
    ));
    assert!(
        output.contains("carbide_hardware_health_inventory_last_success_time_seconds 1800000000")
    );
}

#[test]
fn publishes_one_relation_per_rack_for_a_shared_nvlink_domain() {
    let registry = Registry::new();
    let mut metrics = InventoryMetrics::new(&registry, "carbide_hardware_health").unwrap();
    let domain = "22222222-2222-2222-2222-222222222222";
    let racks = [rack_with_id("D09", 1_725_000_000), rack_with_id("D10", 1_725_000_100)];
    let endpoints = [
        switch_endpoint_in_rack(SwitchEndpointRole::Bmc, "02:00:00:00:00:09", "D09", 9, domain),
        switch_endpoint_in_rack(SwitchEndpointRole::Bmc, "02:00:00:00:00:10", "D10", 10, domain),
    ];

    metrics.reconcile_at(&racks, &endpoints, at(1_800_000_000));

    let output = exposition(&registry);
    let rack_domains = output
        .lines()
        .filter(|line| line.starts_with("carbide_hardware_health_rack_nvlink_domain_info{"))
        .collect::<Vec<_>>();
    assert_eq!(rack_domains.len(), 2);
    assert!(rack_domains.iter().all(|line| line.contains(domain)));
    assert!(rack_domains.iter().any(|line| line.contains("rack_id=\"D09\"")));
    assert!(rack_domains.iter().any(|line| line.contains("rack_id=\"D10\"")));
}

#[test]
fn replaces_stale_rack_domain_assignment() {
    let registry = Registry::new();
    let mut metrics = InventoryMetrics::new(&registry, "carbide_hardware_health").unwrap();
    let first_domain = "33333333-3333-3333-3333-333333333333";
    let replacement_domain = "44444444-4444-4444-4444-444444444444";

    metrics.reconcile_at(
        &[rack()],
        &[switch_endpoint_in_rack(
            SwitchEndpointRole::Bmc,
            "02:00:00:00:00:01",
            "D09",
            7,
            first_domain,
        )],
        at(1_800_000_000),
    );
    metrics.reconcile_at(
        &[rack()],
        &[switch_endpoint_in_rack(
            SwitchEndpointRole::Bmc,
            "02:00:00:00:00:01",
            "D09",
            7,
            replacement_domain,
        )],
        at(1_800_000_030),
    );

    let output = exposition(&registry);
    assert!(!output.contains(first_domain));
    assert!(output.contains(replacement_domain));
}

#[test]
fn suppresses_conflicting_rack_domain_assignments() {
    let registry = Registry::new();
    let mut metrics = InventoryMetrics::new(&registry, "carbide_hardware_health").unwrap();
    let endpoints = [
        switch_endpoint_in_rack(
            SwitchEndpointRole::Bmc,
            "02:00:00:00:00:01",
            "D09",
            1,
            "55555555-5555-5555-5555-555555555555",
        ),
        switch_endpoint_in_rack(
            SwitchEndpointRole::Bmc,
            "02:00:00:00:00:02",
            "D09",
            2,
            "66666666-6666-6666-6666-666666666666",
        ),
    ];

    metrics.reconcile_at(&[rack()], &endpoints, at(1_800_000_000));

    let output = exposition(&registry);
    assert!(!output.contains("carbide_hardware_health_rack_nvlink_domain_info{"));
}

#[test]
fn successful_reconciliation_removes_deleted_components() {
    let registry = Registry::new();
    let mut metrics = InventoryMetrics::new(&registry, "carbide_hardware_health").unwrap();
    let endpoint = switch_endpoint(SwitchEndpointRole::Bmc, "02:00:00:00:00:01");

    metrics.reconcile_at(&[rack()], &[endpoint], at(1_800_000_000));
    metrics.reconcile_at(&[rack()], &[], at(1_800_000_030));

    let output = exposition(&registry);
    assert!(!output.contains("carbide_hardware_health_component_inventory_info{"));
    assert!(
        output.contains("carbide_hardware_health_inventory_last_success_time_seconds 1800000030")
    );
}

#[test]
fn failed_refresh_retains_last_successful_snapshot() {
    let registry = Registry::new();
    let mut metrics = InventoryMetrics::new(&registry, "carbide_hardware_health").unwrap();
    let endpoint = switch_endpoint(SwitchEndpointRole::Bmc, "02:00:00:00:00:01");

    metrics.reconcile_at(&[rack()], &[endpoint], at(1_800_000_000));
    metrics.record_refresh_failure();

    let output = exposition(&registry);
    assert!(output.contains("carbide_hardware_health_component_inventory_info{"));
    assert!(output.contains("carbide_hardware_health_inventory_refresh_failures_total 1"));
    assert!(
        output.contains("carbide_hardware_health_inventory_last_success_time_seconds 1800000000")
    );
}

#[test]
fn every_label_of_a_component_is_published() {
    let registry = Registry::new();
    let mut metrics = InventoryMetrics::new(&registry, "p").unwrap();
    let machine = Arc::new(BmcEndpoint {
        addr: BmcAddr { mac: [0x0a, 0xbc, 0xde, 0xff, 0x00, 0x19] },
        metadata: Some(EndpointMetadata::Machine(MachineData {
            component_type: "compute_tray".to_string(),
            machine_id: Some("m1".to_string()),
            nvlink_domain_uuid: None,
            slot_number: Some(-12),
            tray_index: None,
        })),
        rack_id: Some("D09".to_string()),
    });
    let shelf = Arc::new(BmcEndpoint {
        addr: BmcAddr { mac: [2, 0, 0, 0, 0, 5] },
        metadata: Some(EndpointMetadata::PowerShelf(PowerShelfData {
            component_type: "power_shelf".to_string(),
            id: None,
            serial: Some("s9".to_string()),
        })),
        rack_id: Some("D09".to_string()),
    });
    metrics.reconcile_at(&[rack()], &[machine, shelf], at(1));
    let output = exposition(&registry);
    let mut components = lines_starting(&output, "p_component_inventory_info{");
    components.sort();
    assert_eq!(
        components,
        vec![
            "p_component_inventory_info{bmc_mac=\"02:00:00:00:00:05\",component_type=\"power_shelf\",component_uid=\"s9\",nmxc_enabled=\"false\",nmxc_primary=\"false\",nvl_domain=\"\",rack_id=\"D09\",session_id=\"D09:1725000000.123000000\",slot_number=\"\",subsystem=\"power\",tray_index=\"\"} 1",
            "p_component_inventory_info{bmc_mac=\"0A:BC:DE:FF:00:19\",component_type=\"compute_tray\",component_uid=\"m1\",nmxc_enabled=\"false\",nmxc_primary=\"false\",nvl_domain=\"\",rack_id=\"D09\",session_id=\"D09:1725000000.123000000\",slot_number=\"-12\",subsystem=\"compute\",tray_index=\"\"} 1",
        ]
    );
    assert!(output.contains("# HELP p_component_inventory_info Authoritative NICo component inventory for the current rack-ingestion session\n"));
    assert!(lines_starting(&output, "p_rack_nvlink_domain_info{").is_empty());
}

#[test]
fn a_rack_before_the_epoch_has_a_negative_start_time() {
    let registry = Registry::new();
    let mut metrics = InventoryMetrics::new(&registry, "p").unwrap();
    let early = RackInventory {
        rack_id: "D01".to_string(),
        created_seconds: Some(-5),
        created_nanos: Some(250_000_000),
    };
    metrics.reconcile_at(&[early], &[], at(1));
    assert_eq!(
        lines_starting(&exposition(&registry), "p_rack_session_start_time_seconds{"),
        vec![
            "p_rack_session_start_time_seconds{rack_id=\"D01\",session_id=\"D01:-5.250000000\"} -4.75"
        ]
    );
}

#[test]
fn the_earliest_and_the_latest_rack_can_be_published() {
    let registry = Registry::new();
    let mut metrics = InventoryMetrics::new(&registry, "p").unwrap();
    let racks = [
        RackInventory {
            rack_id: "a".to_string(),
            created_seconds: Some(i64::MIN),
            created_nanos: Some(0),
        },
        RackInventory {
            rack_id: "b".to_string(),
            created_seconds: Some(i64::MAX),
            created_nanos: Some(999_999_999),
        },
    ];
    metrics.reconcile_at(&racks, &[], at(1));
    let lines = lines_starting(&exposition(&registry), "p_rack_session_start_time_seconds{");
    let values: Vec<f64> =
        lines.iter().map(|line| line.rsplit(' ').next().unwrap().parse().unwrap()).collect();
    assert_eq!(values, vec![i64::MIN as f64, i64::MAX as f64 + 999_999_999.0 / 1_000_000_000.0]);
    assert!(lines[0].contains("session_id=\"a:-9223372036854775808.000000000\""));
    assert!(lines[1].contains("session_id=\"b:9223372036854775807.999999999\""));
}

#[test]
fn racks_without_a_valid_creation_time_publish_nothing() {
    let registry = Registry::new();
    let mut metrics = InventoryMetrics::new(&registry, "p").unwrap();
    let endpoint = switch_endpoint(SwitchEndpointRole::Bmc, "02:00:00:00:00:01");
    let cases = [
        (None, Some(0)),
        (Some(1), None),
        (Some(1), Some(-1)),
        (Some(1), Some(1_000_000_000)),
    ];
    for (created_seconds, created_nanos) in cases {
        let broken =
            RackInventory { rack_id: "D09".to_string(), created_seconds, created_nanos };
        metrics.reconcile_at(&[broken], &[endpoint.clone()], at(1));
        let output = exposition(&registry);
        assert!(!output.contains("p_rack_session_start_time_seconds{"));
        assert!(!output.contains("p_component_inventory_info{"));
        assert!(!output.contains("p_rack_nvlink_domain_info{"));
    }
}

#[test]
fn the_same_snapshot_published_again_changes_nothing() {
    let registry = Registry::new();
    let mut metrics = InventoryMetrics::new(&registry, "p").unwrap();
    let endpoint = switch_endpoint(SwitchEndpointRole::Bmc, "02:00:00:00:00:01");
    metrics.reconcile_at(&[rack()], &[endpoint.clone()], at(7));
    let first = exposition(&registry);
    metrics.reconcile_at(&[rack()], &[endpoint], at(7));
    assert_eq!(exposition(&registry), first);
}

#[test]
fn what_is_published_does_not_depend_on_earlier_snapshots() {
    let registry = Registry::new();
    let mut metrics = InventoryMetrics::new(&registry, "p").unwrap();
    let fresh_registry = Registry::new();
    let mut fresh = InventoryMetrics::new(&fresh_registry, "p").unwrap();
    let endpoint = switch_endpoint(SwitchEndpointRole::Bmc, "02:00:00:00:00:01");
    let other = switch_endpoint_in_rack(
        SwitchEndpointRole::Bmc,
        "02:00:00:00:00:77",
        "D10",
        3,
        "22222222-2222-2222-2222-222222222222",
    );
    metrics.reconcile_at(&[rack(), rack_with_id("D10", 5)], &[endpoint.clone(), other], at(6));
    metrics.reconcile_at(&[rack()], &[endpoint.clone()], at(7));
    fresh.reconcile_at(&[rack()], &[endpoint], at(7));
    assert_eq!(exposition(&registry), exposition(&fresh_registry));
}

#[test]
fn the_order_of_discovery_does_not_change_what_is_published() {
    let racks = [rack_with_id("D09", 5), rack_with_id("D10", 6), rack_with_id("D09", 7)];
    let other_racks = [rack_with_id("D10", 6), rack_with_id("D09", 7), rack_with_id("D09", 5)];
    let domain = "22222222-2222-2222-2222-222222222222";
    let endpoints = [
        switch_endpoint(SwitchEndpointRole::Host, "02:00:00:00:00:02"),
        switch_endpoint_in_rack(SwitchEndpointRole::Bmc, "02:00:00:00:00:10", "D10", 3, domain),
        switch_endpoint(SwitchEndpointRole::Bmc, "02:00:00:00:00:01"),
        switch_endpoint_in_rack(SwitchEndpointRole::Host, "02:00:00:00:00:11", "D10", 3, domain),
    ];
    let publish = |racks: &[RackInventory], order: &[usize]| {
        let registry = Registry::new();
        let mut metrics = InventoryMetrics::new(&registry, "p").unwrap();
        let endpoints: Vec<Arc<BmcEndpoint>> =
            order.iter().map(|i| endpoints[*i].clone()).collect();
        metrics.reconcile_at(racks, &endpoints, at(1));
        exposition(&registry)
    };
    let expected = publish(&racks, &[0, 1, 2, 3]);
    assert_eq!(lines_starting(&expected, "p_component_inventory_info{").len(), 2);
    assert!(expected.contains("bmc_mac=\"02:00:00:00:00:01\""));
    for order in [[3, 2, 1, 0], [2, 0, 3, 1], [1, 3, 0, 2]] {
        assert_eq!(publish(&other_racks, &order), expected);
    }
    assert_eq!(publish(&racks, &[3, 2, 2, 1, 0, 3]), expected);
}

#[test]
fn what_the_registry_gathers_is_what_is_kept() {
    let registry = Registry::new();
    let mut metrics = InventoryMetrics::new(&registry, "p").unwrap();
    let endpoint = switch_endpoint(SwitchEndpointRole::Bmc, "02:00:00:00:00:01");
    metrics.reconcile_at(&[rack()], &[endpoint], at(9));
    metrics.record_refresh_failure();
    let output = exposition(&registry);
    for start in [
        "p_component_inventory_info{",
        "p_rack_nvlink_domain_info{",
        "p_rack_session_start_time_seconds{",
        "p_inventory_last_success_time_seconds 9",
        "p_inventory_refresh_failures_total 1",
    ] {
        assert_eq!(lines_starting(&output, start).len(), 1);
    }
}

#[test]
fn a_recreated_rack_gets_another_session() {
    let registry = Registry::new();
    let mut metrics = InventoryMetrics::new(&registry, "p").unwrap();
    let endpoint = switch_endpoint(SwitchEndpointRole::Bmc, "02:00:00:00:00:01");
    metrics.reconcile_at(&[rack_with_id("D09", 100)], &[endpoint.clone()], at(1));
    metrics.reconcile_at(&[rack_with_id("D09", 200)], &[endpoint], at(2));
    let output = exposition(&registry);
    assert!(!output.contains("D09:100.123000000"));
    assert_eq!(lines_starting(&output, "p_rack_session_start_time_seconds{").len(), 1);
    let components = lines_starting(&output, "p_component_inventory_info{");
    assert_eq!(components.len(), 1);
    assert!(components[0].contains("session_id=\"D09:200.123000000\""));
}

#[test]
fn series_are_bounded_by_the_snapshot() {
    let registry = Registry::new();
    let mut metrics = InventoryMetrics::new(&registry, "p").unwrap();
    for round in 0..20u8 {
        let endpoint = switch_endpoint_in_rack(
            SwitchEndpointRole::Bmc,
            "02:00:00:00:00:01",
            "D09",
            round,
            &format!("domain-{round}"),
        );
        metrics.reconcile_at(&[rack_with_id("D09", round as i64)], &[endpoint], at(1));
        let output = exposition(&registry);
        assert_eq!(lines_starting(&output, "p_component_inventory_info{").len(), 1);
        assert_eq!(lines_starting(&output, "p_rack_nvlink_domain_info{").len(), 1);
        assert_eq!(lines_starting(&output, "p_rack_session_start_time_seconds{").len(), 1);
    }
}

#[test]
fn series_with_the_same_text_share_a_sample() {
    // Two components whose label values spell the same text one after another.
    let registry = Registry::new();
    let mut metrics = InventoryMetrics::new(&registry, "p").unwrap();
    let host = |id: &str, domain: Option<&str>| {
        Arc::new(BmcEndpoint {
            addr: BmcAddr { mac: [0; 6] },
            metadata: Some(EndpointMetadata::Switch(SwitchData {
                id: Some(id.to_string()),
                serial: String::new(),
                slot_number: None,
                tray_index: None,
                nvlink_domain_uuid: domain.map(|d| d.to_string()),
                endpoint_role: SwitchEndpointRole::Host,
                is_primary: false,
                nmxc_enabled: false,
            })),
            rack_id: Some("D09".to_string()),
        })
    };
    metrics.reconcile_at(&[rack()], &[host("a1", None), host("a", Some("1"))], at(1));
    let components = lines_starting(&exposition(&registry), "p_component_inventory_info{");
    assert_eq!(components.len(), 1);
    assert!(components[0].contains("component_uid=\"a\""));
    assert!(components[0].contains("nvl_domain=\"1\""));
    metrics.reconcile_at(&[rack()], &[host("a1", None)], at(2));
    let components = lines_starting(&exposition(&registry), "p_component_inventory_info{");
    assert_eq!(components.len(), 1);
    assert!(components[0].contains("component_uid=\"a1\""));
}

#[test]
fn what_could_not_be_published_is_reported() {
    let registry = Registry::new();
    let mut metrics = InventoryMetrics::new(&registry, "p").unwrap();
    let broken = RackInventory {
        rack_id: "D10".to_string(),
        created_seconds: Some(1),
        created_nanos: Some(-7),
    };
    let bmc = SwitchEndpointRole::Bmc;
    let endpoints = [
        switch_endpoint_in_rack(bmc, "02:00:00:00:00:01", "D09", 1, "d2"),
        switch_endpoint_in_rack(bmc, "02:00:00:00:00:02", "D09", 2, "d1"),
    ];
    let report = metrics.reconcile_at(&[rack(), broken], &endpoints, at(1));
    assert_eq!(report.skipped_racks.len(), 1);
    assert_eq!(report.skipped_racks[0].rack_id, "D10");
    assert_eq!(report.skipped_racks[0].created_nanos, -7);
    assert_eq!(report.contested_racks.len(), 1);
    assert_eq!(report.contested_racks[0].rack_id, "D09");
    assert_eq!(report.contested_racks[0].session_id, "D09:1725000000.123000000");
    assert_eq!(report.contested_racks[0].domains, vec!["d1", "d2"]);

    let report = metrics.reconcile_at(&[rack()], &endpoints[..1], at(2));
    assert!(report.skipped_racks.is_empty());
    assert!(report.contested_racks.is_empty());
    assert!(report.components_not_removed.is_empty());
    let report = metrics.reconcile(&[], &[]);
    assert!(report.components_not_removed.is_empty());
    assert!(report.rack_domains_not_removed.is_empty());
    assert!(report.rack_sessions_not_removed.is_empty());
}

#[test]
fn a_sample_that_two_series_share_is_removed_once() {
    let registry = Registry::new();
    let mut metrics = InventoryMetrics::new(&registry, "p").unwrap();
    let host = |id: &str, slot_number: i32, tray_index: i32| {
        Arc::new(BmcEndpoint {
            addr: BmcAddr { mac: [0; 6] },
            metadata: Some(EndpointMetadata::Switch(SwitchData {
                id: Some(id.to_string()),
                serial: String::new(),
                slot_number: Some(slot_number),
                tray_index: Some(tray_index),
                nvlink_domain_uuid: Some(if id == "a" { "1x" } else { "x" }.to_string()),
                endpoint_role: SwitchEndpointRole::Host,
                is_primary: false,
                nmxc_enabled: false,
            })),
            rack_id: Some("D09".to_string()),
        })
    };
    metrics.reconcile_at(&[rack()], &[host("a", 1, 12), host("a1", 11, 2)], at(1));
    assert_eq!(lines_starting(&exposition(&registry), "p_component_inventory_info{").len(), 1);
    let report = metrics.reconcile_at(&[rack()], &[], at(2));
    assert_eq!(report.components_not_removed.len(), 1);
    let failed = &report.components_not_removed[0];
    assert_eq!(failed.labels[4], "a1");
    assert_eq!(failed.labels[6], "x");
    let message = format!("missing label values {:?}", failed.labels);
    assert!(matches!(&failed.error, prometheus::Error::Msg(text) if *text == message));
    assert!(lines_starting(&exposition(&registry), "p_component_inventory_info{").is_empty());
}

#[test]
fn failures_are_counted() {
    let registry = Registry::new();
    let mut metrics = InventoryMetrics::new(&registry, "p").unwrap();
    assert!(exposition(&registry).contains("p_inventory_refresh_failures_total 0\n"));
    metrics.record_refresh_failure();
    metrics.record_refresh_failure();
    assert!(exposition(&registry).contains("p_inventory_refresh_failures_total 2\n"));
    metrics.reconcile_at(&[], &[], at(1));
    assert!(exposition(&registry).contains("p_inventory_refresh_failures_total 2\n"));
}

#[test]
fn the_time_of_success_keeps_its_fraction() {
    let registry = Registry::new();
    let mut metrics = InventoryMetrics::new(&registry, "p").unwrap();
    assert!(exposition(&registry).contains("p_inventory_last_success_time_seconds 0\n"));
    metrics.reconcile_at(&[], &[], UnixTime { seconds: 3, nanos: 500_000_000 });
    assert!(exposition(&registry).contains("p_inventory_last_success_time_seconds 3.5\n"));
}

#[test]
fn reconcile_takes_the_present_time() {
    let registry = Registry::new();
    let mut metrics = InventoryMetrics::new(&registry, "p").unwrap();
    let before = unix_now_seconds();
    metrics.reconcile(&[rack()], &[]);
    let after = unix_now_seconds();
    let output = exposition(&registry);
    let shown: f64 = lines_starting(&output, "p_inventory_last_success_time_seconds ")[0]
        .rsplit(' ')
        .next()
        .unwrap()
        .parse()
        .unwrap();
    assert!(shown >= before.seconds as f64);
    assert!(shown <= after.seconds as f64 + 1.0);
    assert!(output.contains("p_rack_session_start_time_seconds{"));
}

#[test]
fn a_clock_before_the_epoch_counts_as_at_the_epoch() {
    assert_eq!(time_of_reading(None), UnixTime { seconds: 0, nanos: 0 });
    assert_eq!(time_of_reading(Some((5, 6))), UnixTime { seconds: 5, nanos: 6 });
    assert!(unix_now_seconds().seconds > 1_600_000_000);
}

#[test]
fn an_invalid_prefix_is_refused() {
    for prefix in ["1p", "a-b", "a b", "\u{e9}"] {
        let registry = Registry::new();
        assert!(matches!(
            InventoryMetrics::new(&registry, prefix),
            Err(HealthError::InvalidMetric(_))
        ));
    }
    for prefix in ["", "_", "a:b", "A9"] {
        let registry = Registry::new();
        assert!(InventoryMetrics::new(&registry, prefix).is_ok());
    }
}

#[test]
fn metrics_are_registered_once() {
    let registry = Registry::new();
    assert!(InventoryMetrics::new(&registry, "p").is_ok());
    assert!(matches!(InventoryMetrics::new(&registry, "p"), Err(HealthError::Registration(_))));
    assert!(InventoryMetrics::new(&registry, "q").is_ok());
}

#[test]
fn outside_errors_are_told_apart() {
    assert_eq!(made(Ok(5)).unwrap(), 5);
    assert!(matches!(
        made::<u8>(Err(prometheus::Error::Msg("x".to_string()))),
        Err(HealthError::InvalidMetric(prometheus::Error::Msg(_)))
    ));
    assert!(registered(Ok(())).is_ok());
    assert!(matches!(
        registered(Err(prometheus::Error::AlreadyReg)),
        Err(HealthError::Registration(prometheus::Error::AlreadyReg))
    ));
}
