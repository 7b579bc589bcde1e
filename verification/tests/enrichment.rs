use fees_tooling::enrich::{
    ContributorRecord, DeviceRecord, EnrichError, EpochInventory, InternetSeries, LatencySeries, LinkKind, LinkRecord,
    TelemetryRoute, aggregate_epoch, check_epoch, exchange_of, link_kind, normalize_pair, str_le,
};

fn s(x: &str) -> String {
    x.to_string()
}

fn contributor(pk: &str, code: &str) -> ContributorRecord {
    ContributorRecord { pk: s(pk), code: s(code), status: s("activated") }
}

fn device(pk: &str, contributor: Option<&str>, exchange: Option<&str>) -> DeviceRecord {
    DeviceRecord { pk: s(pk), contributor_pk: contributor.map(s), exchange_pk: exchange.map(s) }
}

fn link(pk: &str, contributor: Option<&str>, kind: &str, a: &str, z: &str) -> LinkRecord {
    LinkRecord {
        pk: s(pk),
        contributor_pk: contributor.map(s),
        link_type: s(kind),
        side_a_pk: Some(s(a)),
        side_z_pk: Some(s(z)),
    }
}

fn series(link: &str, count: Option<usize>) -> LatencySeries {
    LatencySeries { link_pk: Some(s(link)), sample_count: count }
}

fn internet(origin: &str, target: &str, count: Option<usize>) -> InternetSeries {
    InternetSeries { origin_exchange_pk: Some(s(origin)), target_exchange_pk: Some(s(target)), sample_count: count }
}

fn inventory() -> EpochInventory {
    EpochInventory {
        contributors: vec![contributor("c2", "zeta"), contributor("c1", "alpha"), contributor("c3", "alpha")],
        devices: vec![
            device("d1", Some("c1"), Some("fra")),
            device("d2", Some("c1"), Some("ams")),
            device("d3", Some("c2"), Some("")),
            device("d4", None, Some("lon")),
        ],
        links: vec![
            link("l1", Some("c1"), "WAN", "d1", "d2"),
            link("l2", Some("c1"), "DZX", "d1", "d3"),
            link("l3", Some("c2"), "OTHER", "d2", "d4"),
            link("l4", None, "WAN", "d1", "d2"),
            link("l5", Some("c9"), "WAN", "d4", "d1"),
        ],
        telemetry: vec![
            series("l1", Some(10)),
            series("l1", Some(5)),
            series("l2", Some(4)),
            series("l3", Some(0)),
            series("l4", Some(8)),
            series("missing", Some(3)),
            series("l3", None),
            series("l5", Some(2)),
        ],
        internet: vec![
            internet("fra", "ams", Some(6)),
            internet("ams", "fra", Some(4)),
            internet("lon", "fra", Some(0)),
            internet("nyc", "fra", Some(1)),
            InternetSeries { origin_exchange_pk: None, target_exchange_pk: Some(s("fra")), sample_count: Some(9) },
        ],
    }
}

#[test]
fn text_order_and_pairs() {
    assert!(str_le("ams", "fra"));
    assert!(str_le("ams", "ams"));
    assert!(str_le("am", "ams"));
    assert!(!str_le("fra", "ams"));
    assert!(str_le("Z", "a"));
    assert_eq!(normalize_pair("fra", "ams"), (s("ams"), s("fra")));
    assert_eq!(normalize_pair("ams", "fra"), (s("ams"), s("fra")));
    assert_eq!(normalize_pair("x", "x"), (s("x"), s("x")));
}

#[test]
fn link_kinds_and_exchanges() {
    assert_eq!(link_kind("WAN"), LinkKind::Wan);
    assert_eq!(link_kind("DZX"), LinkKind::Dzx);
    assert_eq!(link_kind("wan"), LinkKind::Other);
    let inv = inventory();
    assert_eq!(exchange_of(&inv.devices, "d1"), Some(s("fra")));
    assert_eq!(exchange_of(&inv.devices, "d3"), None);
    assert_eq!(exchange_of(&inv.devices, "nope"), None);
}

#[test]
fn contributors_are_aggregated_and_ordered_by_code() {
    let inv = inventory();
    let agg = aggregate_epoch(&inv);
    let order: Vec<&str> = agg.contributors.iter().map(|c| c.contributor_pk.as_str()).collect();
    assert_eq!(order, vec!["c1", "c3", "c2"]);

    let c1 = &agg.contributors[0];
    assert_eq!(c1.code, "alpha");
    assert_eq!(c1.status, "activated");
    assert_eq!(c1.devices, 2);
    assert_eq!((c1.links_total, c1.wan_links, c1.dzx_links, c1.other_links), (2, 1, 1, 0));
    assert_eq!(c1.telemetry_entries, 3);
    assert_eq!(c1.telemetry_samples, 19);
    assert_eq!(c1.telemetry_links, 2);
    assert_eq!(c1.baseline_samples, 15);

    let c3 = &agg.contributors[1];
    assert_eq!((c3.devices, c3.links_total, c3.telemetry_entries, c3.telemetry_samples), (0, 0, 0, 0));

    let c2 = &agg.contributors[2];
    assert_eq!(c2.devices, 1);
    assert_eq!((c2.links_total, c2.wan_links, c2.dzx_links, c2.other_links), (1, 0, 0, 1));
    assert_eq!((c2.telemetry_entries, c2.telemetry_links, c2.telemetry_samples), (0, 0, 0));
}

#[test]
fn totals_count_every_contributor_with_telemetry() {
    let agg = aggregate_epoch(&inventory());
    assert_eq!(agg.totals.contributors, 3);
    assert_eq!(agg.totals.devices, 4);
    assert_eq!(agg.totals.links, 5);
    assert_eq!(agg.totals.telemetry_entries, 4);
    assert_eq!(agg.totals.telemetry_samples, 21);
    assert_eq!(agg.totals.telemetry_links, 3);
}

#[test]
fn routes_and_baseline_groups() {
    let agg = aggregate_epoch(&inventory());
    assert_eq!(agg.baseline_groups.len(), 2);
    assert_eq!(agg.baseline_groups[0].pair, (s("ams"), s("fra")));
    assert_eq!(agg.baseline_groups[0].samples, 10);
    assert_eq!(agg.baseline_groups[1].pair, (s("fra"), s("nyc")));
    assert_eq!(agg.baseline_groups[1].samples, 1);
    assert_eq!(agg.internet_groups, vec![Some(0), Some(0), None, Some(1), None]);
    assert_eq!(
        agg.routes,
        vec![
            Some(TelemetryRoute { link: 0, first_for_link: true, baseline: Some(0) }),
            Some(TelemetryRoute { link: 0, first_for_link: false, baseline: Some(0) }),
            Some(TelemetryRoute { link: 1, first_for_link: true, baseline: None }),
            None,
            None,
            None,
            None,
            Some(TelemetryRoute { link: 4, first_for_link: true, baseline: None }),
        ]
    );
}

#[test]
fn epochs_must_agree() {
    assert_eq!(check_epoch(7, 7), Ok(7));
    let err = check_epoch(7, 8).unwrap_err();
    assert_eq!(err, EnrichError::EpochMismatch { snapshot: 7, onchain: 8 });
    assert_eq!(err.message(), "epoch mismatch: snapshot dz_epoch 7 != onchain dz_epoch 8");
}
