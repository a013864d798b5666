//! The merge engine: header validation, deduplication, time ordering, and
//! the canonical timestamp parse it rests on.
use masstin::merge::{merge_tables, MergeError};
use masstin::timestamp::parse_time_key;

const H11: &str = "time_created,dst_computer,event_id,subject_user_name,subject_domain_name,target_user_name,target_domain_name,logon_type,src_computer,src_ip,log_filename";
const H12: &str = "time_created,dst_computer,event_id,subject_user_name,subject_domain_name,target_user_name,target_domain_name,logon_type,src_computer,src_ip,process,log_filename";

fn row11(time: &str, dst: &str) -> String {
    format!("{},{},4624,su,sd,tu,td,3,src,10.0.0.1,f.csv", time, dst)
}

#[test]
fn merge_unions_and_sorts_ascending() {
    let t1 = vec![
        H11.to_string(),
        row11("2024-01-01T00:00:05Z", "B"),
        row11("2024-01-01T00:00:01Z", "A"),
    ];
    let t2 = vec![H11.to_string(), row11("2023-12-31T23:59:59Z", "C")];
    let out = merge_tables(&vec![t1, t2]).unwrap();
    assert_eq!(out.len(), 4);
    assert_eq!(out[0], H11);
    assert_eq!(out[1], row11("2023-12-31T23:59:59Z", "C"));
    assert_eq!(out[2], row11("2024-01-01T00:00:01Z", "A"));
    assert_eq!(out[3], row11("2024-01-01T00:00:05Z", "B"));
}

#[test]
fn merge_keeps_an_identical_row_once() {
    let r = row11("2024-01-01T00:00:01Z", "A");
    let t1 = vec![H11.to_string(), r.clone()];
    let t2 = vec![H11.to_string(), r.clone()];
    let out = merge_tables(&vec![t1, t2]).unwrap();
    assert_eq!(out.len(), 2);
    assert_eq!(out[1], r);
}

#[test]
fn merge_drops_malformed_and_unparseable_rows() {
    let t1 = vec![
        H11.to_string(),
        "too,few,fields".to_string(),
        row11("not-a-time", "A"),
        row11("2024-01-01T00:00:01Z", "B"),
    ];
    let out = merge_tables(&vec![t1]).unwrap();
    assert_eq!(out.len(), 2);
    assert_eq!(out[1], row11("2024-01-01T00:00:01Z", "B"));
}

#[test]
fn merge_names_the_first_bad_input() {
    let t1 = vec![H11.to_string()];
    let t2 = vec!["something else".to_string()];
    match merge_tables(&vec![t1, t2]) {
        Err(MergeError::BadHeader { input }) => assert_eq!(input, 1),
        _ => panic!("expected a header error"),
    }
}

#[test]
fn merge_refuses_a_foreign_first_header() {
    let t1 = vec!["something else".to_string()];
    match merge_tables(&vec![t1]) {
        Err(MergeError::BadHeader { input }) => assert_eq!(input, 0),
        _ => panic!("expected a header error"),
    }
}

#[test]
fn merge_refuses_mixed_variants() {
    let t1 = vec![H11.to_string()];
    let t2 = vec![H12.to_string()];
    match merge_tables(&vec![t1, t2]) {
        Err(MergeError::BadHeader { input }) => assert_eq!(input, 1),
        _ => panic!("expected a header error"),
    }
}

#[test]
fn merge_accepts_the_twelve_column_variant() {
    let r = format!("2024-01-01T00:00:01Z,A,4624,su,sd,tu,td,3,src,10.0.0.1,p.exe,f.csv");
    let t1 = vec![H12.to_string(), r.clone()];
    let out = merge_tables(&vec![t1]).unwrap();
    assert_eq!(out, vec![H12.to_string(), r]);
}

#[test]
fn merge_sort_is_stable_for_equal_times() {
    let r1 = row11("2024-01-01T00:00:01Z", "FIRST");
    let r2 = row11("2024-01-01T00:00:01Z", "SECOND");
    let t1 = vec![H11.to_string(), r1.clone(), r2.clone()];
    let out = merge_tables(&vec![t1]).unwrap();
    assert_eq!(out[1], r1);
    assert_eq!(out[2], r2);
}

#[test]
fn time_keys_order_by_instant() {
    let k1 = parse_time_key("2023-12-31T23:59:59Z").unwrap();
    let k2 = parse_time_key("2024-01-01T00:00:00Z").unwrap();
    let k3 = parse_time_key("2024-01-01T00:00:00.000001Z").unwrap();
    assert!(k1 < k2);
    assert!(k2 < k3);
}

#[test]
fn time_parse_accepts_fractions_and_rejects_bad_calendars() {
    assert!(parse_time_key("2024-01-01T00:00:05.123456Z").is_some());
    assert!(parse_time_key("2024-02-29T00:00:00Z").is_some());
    assert!(parse_time_key("2023-02-29T00:00:00Z").is_none());
    assert!(parse_time_key("2024-02-30T00:00:00Z").is_none());
    assert!(parse_time_key("2024-13-01T00:00:00Z").is_none());
    assert!(parse_time_key("2024-01-01T24:00:00Z").is_none());
    assert!(parse_time_key("2024-01-01 00:00:00Z").is_none());
    assert!(parse_time_key("2024-01-01T00:00:00").is_none());
    assert!(parse_time_key("2024-01-01T00:00:00.Z").is_none());
}
