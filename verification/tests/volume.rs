use ipvlan_container_manager::json::{read_items, Json};
use ipvlan_container_manager::storage::aggregate_linstor_rows;

fn sample_view_resources() -> Vec<Json> {
    read_items(
        r#"[
        {
            "name": "res-icmtest",
            "node_name": "node01.build.test",
            "volumes": [{
                "volume_number": 0,
                "storage_pool_name": "pool-ssd",
                "provider_kind": "LVM_THIN",
                "device_path": "/dev/drbd1000"
            }]
        },
        {
            "name": "res-icmtest",
            "node_name": "node02.build.test",
            "volumes": [{
                "volume_number": 0,
                "storage_pool_name": "pool-ssd",
                "provider_kind": "LVM_THIN",
                "device_path": "/dev/drbd1000"
            }]
        },
        {
            "name": "res-icmtest",
            "node_name": "node03.build.test",
            "volumes": [{
                "volume_number": 0,
                "storage_pool_name": "DfltDisklessStorPool",
                "provider_kind": "DISKLESS",
                "device_path": "/dev/drbd1000"
            }]
        }
    ]"#,
    )
}

#[test]
fn linstor_rows_are_grouped_by_resource_name() {
    let rows = sample_view_resources();
    let out = aggregate_linstor_rows(&rows);

    assert_eq!(out.len(), 1);
    assert_eq!(out[0].name, "res-icmtest");
    assert_eq!(out[0].nodes.len(), 3, "배치된 3개 노드가 모두 잡혀야 한다");
}

#[test]
fn minor_is_parsed_from_device_path() {
    let rows = sample_view_resources();
    let out = aggregate_linstor_rows(&rows);
    assert_eq!(out[0].minor, Some(1000), "/dev/drbd1000 -> 1000");
}

#[test]
fn diskless_placement_does_not_supply_the_storage_pool() {
    let rows = sample_view_resources();
    let out = aggregate_linstor_rows(&rows);
    assert_eq!(
        out[0].storage_pool, "pool-ssd",
        "DfltDisklessStorPool 이 아니라 실제 디스크풀 이름이어야 한다"
    );
}

#[test]
fn diskless_only_resource_has_empty_storage_pool() {
    let volume = Json::Object(vec![
        ("storage_pool_name".to_string(), Json::Text("DfltDisklessStorPool".to_string())),
        ("provider_kind".to_string(), Json::Text("DISKLESS".to_string())),
        ("device_path".to_string(), Json::Text("/dev/drbd1010".to_string())),
    ]);
    let rows = vec![Json::Object(vec![
        ("name".to_string(), Json::Text("res-diskless".to_string())),
        ("node_name".to_string(), Json::Text("node01.build.test".to_string())),
        ("volumes".to_string(), Json::Array(vec![volume])),
    ])];
    let out = aggregate_linstor_rows(&rows);
    assert_eq!(out[0].storage_pool, "");
    assert_eq!(out[0].minor, Some(1010));
}
