//! Sanitization, relation-type derivation and sink idempotence.
use masstin::emit::{op_of_edge, relation_type, sanitize_identifier, time_property, UpsertOp};
use masstin::model::{AggregatedEdge, EdgeKey};
use masstin::sink::GraphState;

fn edge(logon: &str) -> AggregatedEdge {
    AggregatedEdge {
        key: EdgeKey {
            dst_host: "HOST2".to_string(),
            subject_user: "".to_string(),
            subject_domain: "".to_string(),
            target_user: "ALICE".to_string(),
            target_domain: "DOM".to_string(),
            logon_kind: logon.to_string(),
            src_host: "HOST1".to_string(),
            src_ip: "10.0.0.5".to_string(),
        },
        earliest_time: "2024-01-01T00:00:00Z".to_string(),
        count: 3,
    }
}

#[test]
fn relation_type_digit_gets_prefix() {
    assert_eq!(relation_type("3"), "u3");
}

#[test]
fn relation_type_empty_is_no_user() {
    assert_eq!(relation_type(""), "NO_USER");
}

#[test]
fn relation_type_quoted_empty_is_no_user() {
    assert_eq!(relation_type("\"\""), "NO_USER");
}

#[test]
fn relation_type_plain_name_kept() {
    assert_eq!(relation_type("SSH"), "SSH");
}

#[test]
fn sanitize_dots_dashes_spaces() {
    assert_eq!(sanitize_identifier("host.name-a b"), "host_name_a_b");
}

#[test]
fn sanitize_truncates_at_principal_suffix() {
    assert_eq!(sanitize_identifier("user@domain.local"), "user");
}

#[test]
fn time_property_strips_utc_and_uses_t() {
    assert_eq!(time_property("2024-01-01 00:00:00 utc"), "2024-01-01T00:00:00");
    assert_eq!(time_property("2024-01-01T00:00:00Z"), "2024-01-01T00:00:00Z");
}

#[test]
fn op_of_edge_sanitizes_positions_and_keeps_properties() {
    let e = edge("3");
    let op = op_of_edge("origin.host", &e);
    assert_eq!(op.origin, "origin_host");
    assert_eq!(op.destination, "HOST2");
    assert_eq!(op.rel_type, "u3");
    assert_eq!(op.time, "2024-01-01T00:00:00Z");
    assert_eq!(op.src_ip, "10.0.0.5");
    assert_eq!(op.target_user, "ALICE");
    assert_eq!(op.count, 3);
}

fn op(origin: &str, dest: &str, rel: &str) -> UpsertOp {
    UpsertOp {
        origin: origin.to_string(),
        destination: dest.to_string(),
        rel_type: rel.to_string(),
        time: "2024-01-01T00:00:00Z".to_string(),
        logon_kind: "3".to_string(),
        src_host: "A".to_string(),
        src_ip: "10.0.0.1".to_string(),
        target_user: "U".to_string(),
        target_domain: "D".to_string(),
        subject_user: "".to_string(),
        subject_domain: "".to_string(),
        count: 1,
    }
}

#[test]
fn emission_twice_creates_no_duplicates() {
    let ops1 = vec![op("A", "B", "u3"), op("A", "C", "u3"), op("A", "B", "u3")];
    let ops2 = vec![op("A", "B", "u3"), op("A", "C", "u3"), op("A", "B", "u3")];
    let mut sink = GraphState::new();
    sink.apply_all(&ops1);
    assert_eq!(sink.nodes.len(), 3);
    assert_eq!(sink.rels.len(), 2);
    let nodes_once: Vec<String> = sink.nodes.clone();
    sink.apply_all(&ops2);
    assert_eq!(sink.nodes.len(), 3);
    assert_eq!(sink.rels.len(), 2);
    assert_eq!(sink.nodes, nodes_once);
}
