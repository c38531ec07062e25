use chrome_devtools_cli::commands::memory::{
    build_class_aggregates, check_class_index, compute_class_node_detail, diff_snapshots,
    find_node_in_snapshot, format_class_diff_detail, format_class_diff_summary,
    format_node_details, parse_node_from_snapshot, snapshots_share_no_node_ids,
    stream_step, HeapSnapshot, NodeTypeMeta, StreamStep,
};
use chrome_devtools_cli::error::ErrorCode;
use std::collections::HashMap;

fn fields(names: &[&str]) -> Vec<String> {
    names.iter().map(|s| s.to_string()).collect()
}

fn make_snapshot(nodes: &[(u64, &str, u64)]) -> HeapSnapshot {
    let mut flat: Vec<u64> = Vec::new();
    let mut strings: Vec<String> = Vec::new();
    let mut string_idx: HashMap<String, u64> = HashMap::new();
    for (id, name, size) in nodes {
        let idx = *string_idx.entry(name.to_string()).or_insert_with(|| {
            strings.push(name.to_string());
            (strings.len() - 1) as u64
        });
        flat.extend_from_slice(&[*id, idx, *size]);
    }
    HeapSnapshot {
        node_fields: fields(&["id", "name", "self_size"]),
        node_types: Vec::new(),
        nodes: flat,
        strings,
    }
}

fn make_typed_snapshot(nodes: &[(u64, &str, u64, u64)]) -> HeapSnapshot {
    let type_names = [
        "hidden",
        "array",
        "string",
        "object",
        "code",
        "closure",
        "regexp",
        "number",
        "native",
        "synthetic",
        "concatenated string",
        "sliced string",
        "bigint",
    ];
    let mut flat: Vec<u64> = Vec::new();
    let mut strings: Vec<String> = Vec::new();
    let mut string_idx: HashMap<String, u64> = HashMap::new();
    for (type_idx, name, id, size) in nodes {
        let idx = *string_idx.entry(name.to_string()).or_insert_with(|| {
            strings.push(name.to_string());
            (strings.len() - 1) as u64
        });
        flat.extend_from_slice(&[*type_idx, idx, *id, *size]);
    }
    HeapSnapshot {
        node_fields: fields(&["type", "name", "id", "self_size"]),
        node_types: vec![
            NodeTypeMeta::Names(type_names.iter().map(|t| Some(t.to_string())).collect()),
            NodeTypeMeta::Other,
            NodeTypeMeta::Other,
            NodeTypeMeta::Other,
        ],
        nodes: flat,
        strings,
    }
}

#[test]
fn test_parse_node_from_snapshot() {
    let snap = HeapSnapshot {
        node_fields: fields(&["id", "name", "self_size", "edge_count"]),
        node_types: vec![NodeTypeMeta::Other, NodeTypeMeta::Other, NodeTypeMeta::Other, NodeTypeMeta::Other],
        nodes: vec![123, 0, 1024, 0, 456, 1, 2048, 0],
        strings: vec!["TestObject".to_string(), "AnotherObject".to_string()],
    };
    let (name, size) = parse_node_from_snapshot(&snap, 456).unwrap();
    assert_eq!(name, "AnotherObject");
    assert_eq!(size, 2048);
}

#[test]
fn test_find_node_in_snapshot_directly() {
    let snap = HeapSnapshot {
        node_fields: fields(&["id", "name", "self_size"]),
        node_types: Vec::new(),
        nodes: vec![10, 0, 100, 20, 1, 200],
        strings: vec!["Alpha".to_string(), "Beta".to_string()],
    };
    let (name, size) = find_node_in_snapshot(&snap, 20).unwrap();
    assert_eq!(name, "Beta");
    assert_eq!(size, 200);
}

#[test]
fn test_find_node_not_found() {
    let snap = HeapSnapshot {
        node_fields: fields(&["id", "name", "self_size"]),
        node_types: Vec::new(),
        nodes: vec![10, 0, 100],
        strings: vec!["Alpha".to_string()],
    };
    let err = find_node_in_snapshot(&snap, 999).err().unwrap();
    assert_eq!(err.message(), "Node with ID 999 not found in snapshot file");
}

#[test]
fn test_find_node_corrupt_string_index() {
    let snap = HeapSnapshot {
        node_fields: fields(&["id", "name", "self_size"]),
        node_types: Vec::new(),
        nodes: vec![10, 5, 100],
        strings: vec!["Alpha".to_string()],
    };
    let err = find_node_in_snapshot(&snap, 10).err().unwrap();
    assert!(err.message().contains("out of bounds"));
    assert_eq!(err.message(), "Corrupt snapshot: string index 5 out of bounds (strings len 1)");
}

#[test]
fn test_format_node_details_csv_escaping() {
    assert_eq!(
        format_node_details(123, "MyClass", 100),
        "nodeId,nodeName,selfSize\n123,MyClass,100\n"
    );
    assert_eq!(
        format_node_details(123, "My,Class", 100),
        "nodeId,nodeName,selfSize\n123,\"My,Class\",100\n"
    );
    assert_eq!(
        format_node_details(123, "My\"Class", 100),
        "nodeId,nodeName,selfSize\n123,\"My\"\"Class\",100\n"
    );
    assert_eq!(
        format_node_details(123, "My\nClass", 100),
        "nodeId,nodeName,selfSize\n123,\"My\nClass\",100\n"
    );
}

#[test]
fn test_build_class_aggregates_groups_by_name() {
    let snap = make_snapshot(&[(1, "Map", 100), (2, "Map", 200), (3, "String", 50)]);
    let aggs = build_class_aggregates(&snap).ok().unwrap();
    let map = aggs.get("Map").unwrap();
    assert_eq!(map.len(), 2);
    assert_eq!(map.get(1), Some(100));
    assert_eq!(map.get(2), Some(200));
    let s = aggs.get("String").unwrap();
    assert_eq!(s.get(3), Some(50));
}

#[test]
fn test_build_class_aggregates_groups_by_type() {
    let snap = make_typed_snapshot(&[
        (2, "hello", 1, 50),
        (2, "world", 2, 60),
        (3, "Map", 3, 100),
        (3, "Window", 4, 200),
        (1, "(array)", 5, 80),
    ]);
    let aggs = build_class_aggregates(&snap).ok().unwrap();

    let s = aggs.get("string").unwrap();
    assert_eq!(s.len(), 2);
    assert_eq!(s.get(1), Some(50));
    assert_eq!(s.get(2), Some(60));

    let m = aggs.get("Map").unwrap();
    assert_eq!(m.get(3), Some(100));
    let w = aggs.get("Window").unwrap();
    assert_eq!(w.get(4), Some(200));

    let a = aggs.get("array").unwrap();
    assert_eq!(a.get(5), Some(80));
    assert!(aggs.get("(array)").is_none());
}

#[test]
fn test_diff_groups_strings_by_type() {
    let base = build_class_aggregates(&make_typed_snapshot(&[(2, "hello", 1, 50), (2, "world", 2, 60)]))
        .ok()
        .unwrap();
    let current = build_class_aggregates(&make_typed_snapshot(&[(2, "hello", 1, 50), (2, "foo", 3, 70)]))
        .ok()
        .unwrap();

    let diffs = diff_snapshots(&base, &current);

    assert_eq!(diffs.len(), 1);
    assert_eq!(diffs[0].class_name, "string");
    assert_eq!(diffs[0].added_count, 1);
    assert_eq!(diffs[0].removed_count, 1);
    let (added, deleted) = compute_class_node_detail(base.get("string"), current.get("string"));
    assert_eq!(added, vec![(3, 70)]);
    assert_eq!(deleted, vec![(2, 60)]);
}

#[test]
fn test_build_class_aggregates_rejects_truncated_nodes() {
    let snap = HeapSnapshot {
        node_fields: fields(&["id", "name", "self_size"]),
        node_types: Vec::new(),
        nodes: vec![1, 0, 100, 2],
        strings: vec!["Map".to_string()],
    };
    let err = match build_class_aggregates(&snap) {
        Ok(_) => panic!("expected error for truncated nodes array"),
        Err(e) => e.message(),
    };
    assert!(err.contains("not a multiple of node_size"), "got: {err}");
}

#[test]
fn test_find_node_rejects_truncated_nodes() {
    let snap = HeapSnapshot {
        node_fields: fields(&["id", "name", "self_size"]),
        node_types: Vec::new(),
        nodes: vec![1, 0, 100, 2],
        strings: vec!["Map".to_string()],
    };
    let err = match find_node_in_snapshot(&snap, 2) {
        Ok(_) => panic!("expected error for truncated nodes array"),
        Err(e) => e.message(),
    };
    assert!(err.contains("not a multiple of node_size"), "got: {err}");
    assert_eq!(
        err,
        "Corrupt snapshot: nodes array length (4) is not a multiple of node_size (3); the file is truncated or malformed"
    );
}

#[test]
fn test_snapshots_share_no_node_ids_detects_disjoint_sessions() {
    let base = build_class_aggregates(&make_snapshot(&[(1, "Map", 100)])).ok().unwrap();
    let current = build_class_aggregates(&make_snapshot(&[(2, "Map", 100)])).ok().unwrap();
    assert!(snapshots_share_no_node_ids(&base, &current));

    let base = build_class_aggregates(&make_snapshot(&[(1, "Map", 100), (2, "Set", 50)])).ok().unwrap();
    let current =
        build_class_aggregates(&make_snapshot(&[(2, "WeakSet", 50), (3, "Map", 10)])).ok().unwrap();
    assert!(!snapshots_share_no_node_ids(&base, &current));
}

#[test]
fn test_snapshots_share_no_node_ids_ignores_empty_snapshots() {
    let base = build_class_aggregates(&make_snapshot(&[])).ok().unwrap();
    let current = build_class_aggregates(&make_snapshot(&[(1, "Map", 100)])).ok().unwrap();
    assert!(!snapshots_share_no_node_ids(&base, &current));
    assert!(!snapshots_share_no_node_ids(&current, &base));
    assert!(!snapshots_share_no_node_ids(&base, &base));
}

#[test]
fn test_diff_added_removed_and_retained() {
    let base = build_class_aggregates(&make_snapshot(&[(1, "Map", 100), (2, "Map", 100), (3, "String", 50)]))
        .ok()
        .unwrap();
    let current = build_class_aggregates(&make_snapshot(&[(1, "Map", 100), (4, "Map", 150), (5, "Window", 500)]))
        .ok()
        .unwrap();

    let diffs = diff_snapshots(&base, &current);

    assert_eq!(diffs.len(), 3);
    assert_eq!(diffs[0].class_name, "Window");
    assert_eq!(diffs[0].added_count, 1);
    assert_eq!(diffs[0].removed_count, 0);
    assert_eq!(diffs[0].added_size, 500);
    assert_eq!(diffs[0].removed_size, 0);
    assert_eq!(diffs[0].size_delta, 500);
    let (added, deleted) = compute_class_node_detail(base.get("Window"), current.get("Window"));
    assert_eq!(added, vec![(5, 500)]);
    assert!(deleted.is_empty());

    assert_eq!(diffs[1].class_name, "Map");
    assert_eq!(diffs[1].added_count, 1);
    assert_eq!(diffs[1].removed_count, 1);
    assert_eq!(diffs[1].count_delta, 0);
    assert_eq!(diffs[1].added_size, 150);
    assert_eq!(diffs[1].removed_size, 100);
    assert_eq!(diffs[1].size_delta, 50);
    let (added, deleted) = compute_class_node_detail(base.get("Map"), current.get("Map"));
    assert_eq!(added, vec![(4, 150)]);
    assert_eq!(deleted, vec![(2, 100)]);

    assert_eq!(diffs[2].class_name, "String");
    assert_eq!(diffs[2].added_count, 0);
    assert_eq!(diffs[2].removed_count, 1);
    assert_eq!(diffs[2].count_delta, -1);
    assert_eq!(diffs[2].size_delta, -50);
    let (added, deleted) = compute_class_node_detail(base.get("String"), current.get("String"));
    assert!(added.is_empty());
    assert_eq!(deleted, vec![(3, 50)]);
}

#[test]
fn test_diff_filters_unchanged_classes() {
    let base = build_class_aggregates(&make_snapshot(&[(1, "Map", 100)])).ok().unwrap();
    let current = build_class_aggregates(&make_snapshot(&[(1, "Map", 100)])).ok().unwrap();
    let diffs = diff_snapshots(&base, &current);
    assert!(diffs.is_empty());
}

#[test]
fn test_diff_class_gone_entirely_from_current() {
    let base = build_class_aggregates(&make_snapshot(&[(1, "Old", 80), (2, "Old", 40)])).ok().unwrap();
    let current = build_class_aggregates(&make_snapshot(&[])).ok().unwrap();
    let diffs = diff_snapshots(&base, &current);
    assert_eq!(diffs.len(), 1);
    assert_eq!(diffs[0].class_name, "Old");
    assert_eq!(diffs[0].removed_count, 2);
    assert_eq!(diffs[0].removed_size, 120);
    assert_eq!(diffs[0].size_delta, -120);
    let (added, deleted) = compute_class_node_detail(base.get("Old"), current.get("Old"));
    assert!(added.is_empty());
    assert_eq!(deleted, vec![(1, 80), (2, 40)]);
}

#[test]
fn test_format_summary_and_detail_share_indices() {
    let base = build_class_aggregates(&make_snapshot(&[(1, "Map", 100), (2, "String", 50)])).ok().unwrap();
    let current = build_class_aggregates(&make_snapshot(&[(3, "Window", 500), (4, "Map", 150)])).ok().unwrap();
    let diffs = diff_snapshots(&base, &current);

    let summary = format_class_diff_summary(&diffs);
    assert!(summary.starts_with(
        "idx,className,addedCount,removedCount,countDelta,addedSize,removedSize,sizeDelta\n"
    ));
    assert!(summary.contains("0,Window,1,0,1,500,0,500\n"));

    let (added, deleted) =
        compute_class_node_detail(base.get(&diffs[0].class_name), current.get(&diffs[0].class_name));
    let detail = format_class_diff_detail(0, &diffs[0], &added, &deleted);
    assert!(detail.contains("className:Window"));
    assert!(detail.contains("+,3,500"));
    assert!(!detail.contains("4,150"));
}

#[test]
fn class_index_out_of_range_is_invalid_input() {
    assert!(check_class_index(0, 2).is_ok());
    let err = check_class_index(99, 3).err().unwrap();
    assert_eq!(err.code(), ErrorCode::InvalidInput);
    assert_eq!(err.message(), "Invalid classIndex: 99. Total classes with changes: 3");
}

#[test]
fn schema_errors_name_the_missing_field() {
    let snap = HeapSnapshot {
        node_fields: fields(&["id", "self_size"]),
        node_types: Vec::new(),
        nodes: vec![],
        strings: vec![],
    };
    let err = find_node_in_snapshot(&snap, 1).err().unwrap();
    assert_eq!(err.message(), "Invalid snapshot schema: 'name' node field meta is missing");
}

#[test]
fn snapshot_stream_steps() {
    assert_eq!(stream_step(Some(7), 7, false, None, false, false), StreamStep::Finished);
    assert_eq!(stream_step(Some(7), 7, true, None, false, false), StreamStep::Failed);
    assert_eq!(
        stream_step(None, 7, false, Some("HeapProfiler.addHeapSnapshotChunk"), true, true),
        StreamStep::WriteChunk
    );
    assert_eq!(stream_step(Some(3), 7, false, Some("Network.requestWillBeSent"), true, false), StreamStep::Route);
    assert_eq!(stream_step(Some(3), 7, false, None, false, false), StreamStep::Skip);
}

#[test]
fn unchanged_class_has_no_row_and_no_listed_nodes() {
    let base = build_class_aggregates(&make_snapshot(&[(1, "Map", 100), (2, "Set", 10)])).ok().unwrap();
    let current = build_class_aggregates(&make_snapshot(&[(1, "Map", 100), (3, "Set", 20)])).ok().unwrap();
    let diffs = diff_snapshots(&base, &current);
    assert!(diffs.iter().all(|d| d.class_name != "Map"));
    let (added, deleted) = compute_class_node_detail(base.get("Map"), current.get("Map"));
    assert!(added.is_empty() && deleted.is_empty());
    assert!(diffs.iter().any(|d| d.class_name == "Set"));
    let (added, deleted) = compute_class_node_detail(base.get("Set"), current.get("Set"));
    assert_eq!(added, vec![(3, 20)]);
    assert_eq!(deleted, vec![(2, 10)]);
}
