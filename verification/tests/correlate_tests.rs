//! Row normalization, local-noise filtering, aggregation and host-vote
//! resolution.
use masstin::correlate::{
    aggregate_rows, build_votes, is_sentinel, kept_rows, norm_host, resolve_origin, table_ops,
    Vote,
};
use masstin::model::{AggregatedEdge, EdgeKey};

fn chars(s: &str) -> Vec<char> {
    s.chars().collect()
}

fn line(time: &str, dst: &str, src_host: &str, src_ip: &str) -> String {
    format!(
        "{},{},4624,SU,SD,TU,TD,3,{},{},FILE.CSV",
        time, dst, src_host, src_ip
    )
}

#[test]
fn norm_host_strips_fqdn_and_port() {
    assert_eq!(
        norm_host(&chars("HOST.EXAMPLE.COM")).iter().collect::<String>(),
        "HOST"
    );
    assert_eq!(
        norm_host(&chars("10.0.0.1:445")).iter().collect::<String>(),
        "10.0.0.1"
    );
    assert_eq!(
        norm_host(&chars("10.0.0.1")).iter().collect::<String>(),
        "10.0.0.1"
    );
}

#[test]
fn sentinels_are_recognized() {
    for s in ["LOCAL", "127.0.0.1", "::1", "DEFAULT_VALUE", "\"\"", "-", "", " "] {
        assert!(is_sentinel(&chars(s)), "{:?} should be a sentinel", s);
    }
    assert!(!is_sentinel(&chars("HOST1")));
}

#[test]
fn local_noise_rows_are_dropped() {
    let lines = vec![
        line("2024-01-01T00:00:00Z", "HOST1", "LOCAL", "127.0.0.1"),
        line("2024-01-01T00:00:00Z", "HOST1", "HOST1", "10.0.0.5"),
        line("2024-01-01T00:00:00Z", "HOST1", "HOST2", "10.0.0.5"),
    ];
    let rows = kept_rows(&lines);
    assert_eq!(rows.len(), 1);
    assert_eq!(rows[0][1].iter().collect::<String>(), "HOST1");
    assert_eq!(rows[0][8].iter().collect::<String>(), "HOST2");
}

#[test]
fn self_referential_by_ip_is_dropped() {
    let lines = vec![line("2024-01-01T00:00:00Z", "10.0.0.5", "HOST2", "10.0.0.5")];
    assert_eq!(kept_rows(&lines).len(), 0);
}

#[test]
fn malformed_column_counts_are_dropped() {
    let lines = vec!["ONLY,TWO".to_string()];
    assert_eq!(kept_rows(&lines).len(), 0);
}

#[test]
fn aggregation_counts_and_takes_earliest() {
    let lines = vec![
        line("2024-01-01T00:00:00Z", "HOST2", "HOST1", "10.0.0.5"),
        line("2024-01-01T00:00:05Z", "HOST2", "HOST1", "10.0.0.5"),
        line("2023-12-31T23:00:00Z", "HOST2", "HOST1", "10.0.0.5"),
    ];
    let rows = kept_rows(&lines);
    let edges = aggregate_rows(&rows);
    assert_eq!(edges.len(), 1);
    assert_eq!(edges[0].earliest_time, "2023-12-31T23:00:00Z");
    assert_eq!(edges[0].count, 3);
}

#[test]
fn aggregation_keeps_first_occurrence_order_of_keys() {
    let lines = vec![
        line("2024-01-01T00:00:00Z", "HOST2", "HOST1", "10.0.0.5"),
        line("2024-01-01T00:00:01Z", "HOST3", "HOST1", "10.0.0.5"),
        line("2024-01-01T00:00:02Z", "HOST2", "HOST1", "10.0.0.5"),
    ];
    let edges = aggregate_rows(&kept_rows(&lines));
    assert_eq!(edges.len(), 2);
    assert_eq!(edges[0].key.dst_host, "HOST2");
    assert_eq!(edges[0].count, 2);
    assert_eq!(edges[1].key.dst_host, "HOST3");
    assert_eq!(edges[1].count, 1);
}

#[test]
fn votes_count_informative_pairs() {
    let lines = vec![
        line("2024-01-01T00:00:00Z", "HOST2", "HOSTA", "1.2.3.4"),
        line("2024-01-01T00:00:01Z", "HOST2", "HOSTA", "1.2.3.4"),
        line("2024-01-01T00:00:02Z", "HOST2", "HOSTB", "1.2.3.4"),
        // Sentinel source host contributes no vote.
        line("2024-01-01T00:00:03Z", "HOST2", "LOCAL", "1.2.3.4"),
    ];
    let votes = build_votes(&kept_rows(&lines));
    assert_eq!(votes.len(), 2);
    assert_eq!(votes[0].ip, "1.2.3.4");
    assert_eq!(votes[0].host, "HOSTA");
    assert_eq!(votes[0].count, 2);
    assert_eq!(votes[1].host, "HOSTB");
    assert_eq!(votes[1].count, 1);
}

fn sentinel_edge(src_host: &str, src_ip: &str) -> AggregatedEdge {
    AggregatedEdge {
        key: EdgeKey {
            dst_host: "HOST2".to_string(),
            subject_user: "".to_string(),
            subject_domain: "".to_string(),
            target_user: "TU".to_string(),
            target_domain: "TD".to_string(),
            logon_kind: "3".to_string(),
            src_host: src_host.to_string(),
            src_ip: src_ip.to_string(),
        },
        earliest_time: "2024-01-01T00:00:00Z".to_string(),
        count: 1,
    }
}

#[test]
fn sentinel_origin_resolves_to_most_voted_host() {
    let votes = vec![
        Vote { ip: "1.2.3.4".to_string(), host: "HOSTA".to_string(), count: 5 },
        Vote { ip: "1.2.3.4".to_string(), host: "HOSTB".to_string(), count: 2 },
    ];
    let e = sentinel_edge("LOCAL", "1.2.3.4");
    assert_eq!(resolve_origin(&votes, &e), "HOSTA");
}

#[test]
fn sentinel_origin_without_votes_falls_back_to_address() {
    let votes: Vec<Vote> = Vec::new();
    let e = sentinel_edge("LOCAL", "1.2.3.4");
    assert_eq!(resolve_origin(&votes, &e), "1.2.3.4");
}

#[test]
fn informative_origin_with_votes_is_still_replaced() {
    let votes = vec![Vote { ip: "1.2.3.4".to_string(), host: "HOSTA".to_string(), count: 5 }];
    let e = sentinel_edge("HOSTX", "1.2.3.4");
    assert_eq!(resolve_origin(&votes, &e), "HOSTA");
}

#[test]
fn informative_origin_without_votes_stands() {
    let votes: Vec<Vote> = Vec::new();
    let e = sentinel_edge("HOSTX", "1.2.3.4");
    assert_eq!(resolve_origin(&votes, &e), "HOSTX");
}

#[test]
fn table_ops_refuses_foreign_header() {
    let lines = vec!["not,a,header".to_string()];
    assert!(table_ops(&lines).is_none());
}

#[test]
fn table_ops_builds_one_op_per_edge() {
    let header = "time_created,dst_computer,event_id,subject_user_name,subject_domain_name,target_user_name,target_domain_name,logon_type,src_computer,src_ip,log_filename";
    let lines = vec![
        header.to_string(),
        line("2024-01-01T00:00:00Z", "HOST2", "HOST1", "10.0.0.5"),
        line("2024-01-01T00:00:05Z", "HOST2", "HOST1", "10.0.0.5"),
    ];
    let ops = table_ops(&lines).unwrap();
    assert_eq!(ops.len(), 1);
    assert_eq!(ops[0].destination, "HOST2");
    assert_eq!(ops[0].origin, "HOST1");
    assert_eq!(ops[0].count, 2);
    assert_eq!(ops[0].rel_type, "u3");
}
