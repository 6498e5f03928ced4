use etl_pipeline::codec::{decode, encode};
use etl_pipeline::dataset::TabularDataset;
use etl_pipeline::errors::EtlError;
use etl_pipeline::pipeline::{
    derive_key, empty_event_result, on_fetched, on_stored, plan_invocation, process_payload,
    transform, Action, InvocationPlan, InvocationResult, ObjectLocator, TriggerEvent,
};

use std::collections::HashMap;

fn cells(vals: &[&str]) -> Vec<Vec<u8>> {
    vals.iter().map(|v| v.as_bytes().to_vec()).collect()
}

fn sample_dataset() -> TabularDataset {
    TabularDataset {
        names: cells(&["name", "score"]),
        rows: vec![cells(&["alice", "10"]), cells(&["bob", "20"])],
    }
}

const SAMPLE_CSV: &[u8] = b"name,score\nalice,10\nbob,20\n";

#[test]
fn encode_sample_gives_expected_bytes() {
    let out = encode(&sample_dataset());
    assert_eq!(out, SAMPLE_CSV.to_vec());
}

#[test]
fn decode_sample_gives_expected_table() {
    let d = decode(SAMPLE_CSV).expect("sample must decode");
    assert_eq!(d.names, cells(&["name", "score"]));
    assert_eq!(d.rows.len(), 2);
    assert_eq!(d.rows[0], cells(&["alice", "10"]));
    assert_eq!(d.rows[1], cells(&["bob", "20"]));
}

#[test]
fn round_trip_plain_dataset() {
    let d = sample_dataset();
    let out = encode(&d);
    let back = decode(&out).expect("encoded dataset must decode");
    assert_eq!(back.names, sample_dataset().names);
    assert_eq!(back.rows, sample_dataset().rows);
}

#[test]
fn round_trip_with_quoting() {
    let d = TabularDataset {
        names: cells(&["text", "note"]),
        rows: vec![
            cells(&["a,b", "he said \"hi\""]),
            cells(&["line1\nline2", ""]),
            cells(&["plain", "\"quoted\""]),
        ],
    };
    let out = encode(&d);
    let back = decode(&out).expect("quoted dataset must decode");
    assert_eq!(back.names, d.names);
    assert_eq!(back.rows, d.rows);
}

#[test]
fn encode_quotes_only_when_needed() {
    let d = TabularDataset {
        names: cells(&["a", "b"]),
        rows: vec![cells(&["x,y", "plain"])],
    };
    let out = encode(&d);
    assert_eq!(out, b"a,b\n\"x,y\",plain\n".to_vec());
}

#[test]
fn decode_quoted_fields() {
    let d = decode(b"a,b\n\"1,2\",\"he\"\"llo\"\n").expect("quoted input must decode");
    assert_eq!(d.rows[0], cells(&["1,2", "he\"llo"]));
}

#[test]
fn decode_empty_payload_fails() {
    assert_eq!(decode(b""), Err(EtlError::MalformedInput));
}

#[test]
fn decode_field_count_mismatch_fails() {
    assert_eq!(decode(b"a,b\n1\n"), Err(EtlError::MalformedInput));
    assert_eq!(decode(b"a,b\n1,2,3\n"), Err(EtlError::MalformedInput));
}

#[test]
fn decode_unterminated_quote_fails() {
    assert_eq!(decode(b"a\n\"unterminated"), Err(EtlError::MalformedInput));
}

#[test]
fn decode_stray_bytes_after_quote_fail() {
    assert_eq!(decode(b"a\n\"x\"y\n"), Err(EtlError::MalformedInput));
}

#[test]
fn decode_duplicate_column_names_fails() {
    assert_eq!(decode(b"a,a\n1,2\n"), Err(EtlError::MalformedInput));
}

#[test]
fn derive_key_is_identity_on_nonempty_keys() {
    assert_eq!(derive_key("in.csv"), "in.csv".to_string());
    assert_eq!(derive_key("deep/path/file.csv"), "deep/path/file.csv".to_string());
}

#[test]
fn derive_key_deterministic_and_never_empty() {
    assert_eq!(derive_key("k"), derive_key("k"));
    assert!(!derive_key("").is_empty());
    assert!(!derive_key("x").is_empty());
}

#[test]
fn transform_is_identity() {
    let d = sample_dataset();
    let out = transform(d);
    assert_eq!(out.names, sample_dataset().names);
    assert_eq!(out.rows, sample_dataset().rows);
}

#[test]
fn process_payload_identity_pipeline_preserves_bytes() {
    let out = process_payload(SAMPLE_CSV).expect("sample must process");
    assert_eq!(out, SAMPLE_CSV.to_vec());
}

#[test]
fn process_payload_twice_same_output() {
    let once = process_payload(SAMPLE_CSV).expect("first run");
    let twice = process_payload(&once).expect("second run");
    assert_eq!(once, twice);
}

#[test]
fn process_payload_rejects_malformed() {
    assert_eq!(process_payload(b""), Err(EtlError::MalformedInput));
    assert_eq!(process_payload(b"a,b\n1\n"), Err(EtlError::MalformedInput));
}

#[test]
fn empty_event_is_success_without_write() {
    let event = TriggerEvent { records: vec![] };
    let plan = plan_invocation(&event, "dst-bucket");
    assert!(plan.is_none());
    let result = empty_event_result("req-1");
    match result {
        InvocationResult::Success { request_id, destination, .. } => {
            assert_eq!(request_id, "req-1".to_string());
            assert!(destination.is_none());
        }
        InvocationResult::Failure { .. } => panic!("empty event must succeed"),
    }
}

fn run_invocation(
    store: &mut HashMap<(String, String), Vec<u8>>,
    event: &TriggerEvent,
    output_bucket: &str,
    request_id: &str,
) -> (InvocationResult, usize) {
    let mut writes: usize = 0;
    let plan = match plan_invocation(event, output_bucket) {
        None => return (empty_event_result(request_id), writes),
        Some(p) => p,
    };
    let fetched = match store.get(&(plan.source.bucket.clone(), plan.source.key.clone())) {
        None => Err(EtlError::NotFound),
        Some(bytes) => Ok(bytes.clone()),
    };
    match on_fetched(plan, fetched) {
        Action::Finish { result } => (result, writes),
        Action::Store { destination, payload } => {
            writes += 1;
            store.insert((destination.bucket.clone(), destination.key.clone()), payload);
            (on_stored(destination, Ok(()), request_id), writes)
        }
    }
}

#[test]
fn end_to_end_scenario() {
    let mut store: HashMap<(String, String), Vec<u8>> = HashMap::new();
    store.insert(("src-bucket".to_string(), "in.csv".to_string()), SAMPLE_CSV.to_vec());
    let event = TriggerEvent {
        records: vec![ObjectLocator {
            bucket: "src-bucket".to_string(),
            key: "in.csv".to_string(),
        }],
    };
    let (result, writes) = run_invocation(&mut store, &event, "dst-bucket", "req-42");
    assert_eq!(writes, 1);
    match result {
        InvocationResult::Success { request_id, destination, .. } => {
            assert_eq!(request_id, "req-42".to_string());
            let d = destination.expect("a write reports its destination");
            assert_eq!(d.bucket, "dst-bucket".to_string());
            assert_eq!(d.key, "in.csv".to_string());
        }
        InvocationResult::Failure { .. } => panic!("scenario must succeed"),
    }
    let written = store
        .get(&("dst-bucket".to_string(), "in.csv".to_string()))
        .expect("destination object exists");
    assert_eq!(written, &SAMPLE_CSV.to_vec());
}

#[test]
fn invoking_twice_leaves_same_destination_content() {
    let mut store: HashMap<(String, String), Vec<u8>> = HashMap::new();
    store.insert(("src-bucket".to_string(), "in.csv".to_string()), SAMPLE_CSV.to_vec());
    let event = TriggerEvent {
        records: vec![ObjectLocator {
            bucket: "src-bucket".to_string(),
            key: "in.csv".to_string(),
        }],
    };
    run_invocation(&mut store, &event, "dst-bucket", "req-1");
    let first = store
        .get(&("dst-bucket".to_string(), "in.csv".to_string()))
        .expect("written once")
        .clone();
    run_invocation(&mut store, &event, "dst-bucket", "req-2");
    let second = store
        .get(&("dst-bucket".to_string(), "in.csv".to_string()))
        .expect("written twice")
        .clone();
    assert_eq!(first, second);
}

#[test]
fn absent_source_returns_not_found_and_writes_nothing() {
    let mut store: HashMap<(String, String), Vec<u8>> = HashMap::new();
    let event = TriggerEvent {
        records: vec![ObjectLocator {
            bucket: "src-bucket".to_string(),
            key: "missing.csv".to_string(),
        }],
    };
    let (result, writes) = run_invocation(&mut store, &event, "dst-bucket", "req-7");
    assert_eq!(writes, 0);
    assert!(store.is_empty());
    match result {
        InvocationResult::Failure { error, .. } => assert_eq!(error, EtlError::NotFound),
        InvocationResult::Success { .. } => panic!("absent source must fail"),
    }
}

#[test]
fn fetch_errors_propagate_unchanged() {
    let plan = InvocationPlan {
        source: ObjectLocator { bucket: "s".to_string(), key: "k".to_string() },
        destination: ObjectLocator { bucket: "d".to_string(), key: "k".to_string() },
    };
    match on_fetched(plan, Err(EtlError::AccessDenied)) {
        Action::Finish { result: InvocationResult::Failure { error, .. } } => {
            assert_eq!(error, EtlError::AccessDenied)
        }
        _ => panic!("a failed fetch must finish the invocation"),
    }
}

#[test]
fn store_errors_propagate_unchanged() {
    let destination = ObjectLocator { bucket: "d".to_string(), key: "k".to_string() };
    match on_stored(destination, Err(EtlError::QuotaExceeded), "req") {
        InvocationResult::Failure { error, .. } => assert_eq!(error, EtlError::QuotaExceeded),
        InvocationResult::Success { .. } => panic!("a failed write must fail the invocation"),
    }
    let destination = ObjectLocator { bucket: "d".to_string(), key: "k".to_string() };
    match on_stored(destination, Err(EtlError::TransientStorage), "req") {
        InvocationResult::Failure { error, .. } => assert_eq!(error, EtlError::TransientStorage),
        InvocationResult::Success { .. } => panic!("a failed write must fail the invocation"),
    }
}

#[test]
fn error_descriptions_name_each_kind() {
    assert_eq!(EtlError::NotFound.describe(), "source object not found");
    assert_eq!(EtlError::AccessDenied.describe(), "access to storage denied");
    assert_eq!(EtlError::TransientStorage.describe(), "transient storage failure");
    assert_eq!(EtlError::MalformedInput.describe(), "malformed tabular input");
    assert_eq!(EtlError::Transform.describe(), "transformation failed");
    assert_eq!(EtlError::QuotaExceeded.describe(), "storage quota exceeded");
    assert_eq!(EtlError::Configuration.describe(), "configuration missing");
}

#[test]
fn dataset_counts_match() {
    let d = sample_dataset();
    assert_eq!(d.column_count(), 2);
    assert_eq!(d.row_count(), 2);
}
