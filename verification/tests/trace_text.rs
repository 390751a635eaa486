use mpt_trace::audit::violations;
use mpt_trace::audit::Check;
use mpt_trace::audit::Verify;
use mpt_trace::framing::records;
use mpt_trace::record::decode_rows;
use mpt_trace::HashType;
use mpt_trace::RowDe;
use mpt_trace::RowDeError;

const ZERO: &str = "0000000000000000000000000000000000000000000000000000000000000000";
const KEY: &str = "0500000000000000000000000000000000000000000000000000000000000000";
const OLD_ROOT: &str = "a0a0a0a0a0a0a0a0a0a0a0a0a0a0a0a0a0a0a0a0a0a0a0a0a0a0a0a0a0a0a0a0";
const NEW_ROOT: &str = "B0B0B0B0B0B0B0B0B0B0B0B0B0B0B0B0B0B0B0B0B0B0B0B0B0B0B0B0B0B0B0B0";
const NEW_LEAF: &str = "c1c1c1c1c1c1c1c1c1c1c1c1c1c1c1c1c1c1c1c1c1c1c1c1c1c1c1c1c1c1c1c1";
const SIBLING: &str = "d2d2d2d2d2d2d2d2d2d2d2d2d2d2d2d2d2d2d2d2d2d2d2d2d2d2d2d2d2d2d2d2";
const VALUE: &str = "e3e3e3e3e3e3e3e3e3e3e3e3e3e3e3e3e3e3e3e3e3e3e3e3e3e3e3e3e3e3e3e3";

/// Two operations: a leaf inserted below one middle node, then the same leaf updated.
fn trace_text() -> String {
    let top = format!(
        "{{\"is_first\":true,\"sib\":\"{SIBLING}\",\"depth\":0,\"path\":\"1\",\"path_acc\":\"1\",\
         \"old_hash_type\":\"middle\",\"old_hash\":\"{OLD_ROOT}\",\"old_value\":\"{ZERO}\",\
         \"new_hash_type\":\"middle\",\"new_hash\":\"{NEW_ROOT}\",\"new_value\":\"{NEW_LEAF}\",\
         \"key\":\"{KEY}\",\"new_root\":\"{NEW_ROOT}\"}}"
    );
    let leaf = format!(
        "{{\"is_first\":false,\"sib\":\"{SIBLING}\",\"depth\":1,\"path\":\"10\",\"path_acc\":\"101\",\
         \"old_hash_type\":\"empty\",\"old_hash\":\"{ZERO}\",\"old_value\":\"{ZERO}\",\
         \"new_hash_type\":\"leaf\",\"new_hash\":\"{NEW_LEAF}\",\"new_value\":\"{VALUE}\",\
         \"key\":\"{KEY}\",\"new_root\":\"{NEW_ROOT}\"}}"
    );
    let update = format!(
        "{{\"is_first\":true,\"sib\":\"{ZERO}\",\"depth\":0,\"path\":\"0\",\"path_acc\":\"101\",\
         \"old_hash_type\":\"leaf\",\"old_hash\":\"{NEW_LEAF}\",\"old_value\":\"{VALUE}\",\
         \"new_hash_type\":\"leaf\",\"new_hash\":\"{OLD_ROOT}\",\"new_value\":\"{SIBLING}\",\
         \"key\":\"{KEY}\",\"new_root\":\"{OLD_ROOT}\"}}"
    );
    format!("\n{top}\n{leaf}\n{update}\n\n")
}

fn text_of(record: &serde_json::Value, field: &str) -> String {
    record.get(field).and_then(|v| v.as_str()).unwrap().to_string()
}

fn role_of(record: &serde_json::Value, field: &str) -> HashType {
    HashType::from_token(&text_of(record, field)).unwrap()
}

fn from_lines(lines: &str) -> Result<Vec<RowDe>, serde_json::Error> {
    let mut written = Vec::new();
    for line in records(lines) {
        let record: serde_json::Value = serde_json::from_slice(&line)?;
        written.push(RowDe {
            is_first: record.get("is_first").and_then(|v| v.as_bool()).unwrap(),
            sib: text_of(&record, "sib"),
            depth: record.get("depth").and_then(|v| v.as_u64()).unwrap() as usize,
            path: text_of(&record, "path"),
            path_acc: text_of(&record, "path_acc"),
            old_hash_type: role_of(&record, "old_hash_type"),
            old_hash: text_of(&record, "old_hash"),
            old_value: text_of(&record, "old_value"),
            new_hash_type: role_of(&record, "new_hash_type"),
            new_hash: text_of(&record, "new_hash"),
            new_value: text_of(&record, "new_value"),
            key: text_of(&record, "key"),
            new_root: text_of(&record, "new_root"),
        });
    }
    Ok(written)
}

#[test]
fn test_de() {
    let written = from_lines(&trace_text()).unwrap();
    assert_eq!(written.len(), 3);
    assert_eq!(written[1].path_acc, "101");
    assert_eq!(written[2].old_hash_type, HashType::Leaf);
}

#[test]
fn test_parse() {
    let rows = decode_rows(&from_lines(&trace_text()).unwrap()).unwrap();
    for row in rows.iter() {
        println!("{:?}", row);
    }
    assert!(rows.verify());
}

#[test]
fn broken_line_is_no_record() {
    let mut text = trace_text();
    text.push_str("\n{\"is_first\":");
    assert!(from_lines(&text).is_err());
    assert!(from_lines("").is_err());
}

#[test]
fn bad_field_in_a_record_stops_decoding() {
    let text = trace_text().replace("\"path_acc\":\"101\"", "\"path_acc\":\"1o1\"");
    let written = from_lines(&text).unwrap();
    assert_eq!(decode_rows(&written), Err(RowDeError::BigInt));
}

#[test]
fn changed_trace_text_is_caught_by_the_audit() {
    let text = trace_text().replacen("\"path_acc\":\"101\"", "\"path_acc\":\"111\"", 1);
    let rows = decode_rows(&from_lines(&text).unwrap()).unwrap();
    assert!(!rows.verify());
    let all = violations(&rows);
    assert_eq!(all.len(), 1);
    assert_eq!(all[0].row, 1);
    assert_eq!(all[0].check, Check::KeyPath);
}
