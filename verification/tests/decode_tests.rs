//! The source decoders: Windows event mapping, log-shipper records, Linux
//! binary accounting records and text logs, and EDR records.
use masstin::cortex::{
    cortex_event, forensics_event, is_gzip, ndjson_lines, poll_step, query_time, CortexRecord,
    ForensicsRecord, PollAction, PortField, TimeField,
};
use masstin::elastic::{winlog_event, WinlogRecord};
use masstin::linuxbin::{looks_like_ip, parse_utmp_data};
use masstin::linuxtext::{audit_event, syslog_event};
use masstin::winevent::{
    kind_of_filename, map_record, security_event, DataField, SourceKind, WinRecord,
};

fn chars(s: &str) -> Vec<char> {
    s.chars().collect()
}

fn field(name: &str, body: &str) -> DataField {
    DataField { name: name.to_string(), body: Some(body.to_string()) }
}

fn win_record(id: &str) -> WinRecord {
    WinRecord {
        system_time: Some("2024-01-01T10:00:00.123456Z".to_string()),
        computer: Some("HOST2".to_string()),
        event_id: Some(id.to_string()),
        provider: None,
        security_user_id: None,
        data_fields: vec![
            field("SubjectUserName", "svc"),
            field("TargetUserName", "alice"),
            field("LogonType", "3"),
            field("WorkstationName", "HOST1"),
            field("IpAddress", "10.0.0.5"),
        ],
        user_data_user_name: None,
        user_data_client_name: None,
        event_xml_user: None,
        event_xml_address: None,
    }
}

#[test]
fn security_mapping_copies_named_fields() {
    let ev = security_event(&win_record("4624"), "Security.evtx").unwrap();
    assert_eq!(ev.time, "2024-01-01T10:00:00.123456Z");
    assert_eq!(ev.dst_host, "HOST2");
    assert_eq!(ev.event_kind, "4624");
    assert_eq!(ev.subject_user, "svc");
    assert_eq!(ev.target_user, "alice");
    assert_eq!(ev.logon_kind, "3");
    assert_eq!(ev.src_host, "HOST1");
    assert_eq!(ev.src_ip, "10.0.0.5");
    assert_eq!(ev.subject_domain, "");
    assert_eq!(ev.provenance, "Security.evtx");
}

#[test]
fn security_mapping_skips_foreign_kinds_and_missing_core() {
    assert!(security_event(&win_record("9999"), "f").is_none());
    let mut r = win_record("4624");
    r.system_time = None;
    assert!(security_event(&r, "f").is_none());
}

#[test]
fn later_duplicate_field_wins() {
    let mut r = win_record("4624");
    r.data_fields.push(field("TargetUserName", "bob"));
    let ev = security_event(&r, "f").unwrap();
    assert_eq!(ev.target_user, "bob");
}

#[test]
fn missing_field_body_takes_placeholder() {
    let mut r = win_record("4624");
    r.data_fields.push(DataField { name: "TargetUserName".to_string(), body: None });
    let ev = security_event(&r, "f").unwrap();
    assert_eq!(ev.target_user, "default_value");
}

#[test]
fn local_session_splits_combined_identity() {
    let mut r = win_record("21");
    r.data_fields = Vec::new();
    r.event_xml_user = Some("DOM\\bob".to_string());
    r.event_xml_address = Some("10.0.0.9".to_string());
    let ev = map_record(&SourceKind::RdpLocalSession, &r, "f").unwrap();
    assert_eq!(ev.target_domain, "DOM");
    assert_eq!(ev.target_user, "bob");
    assert_eq!(ev.logon_kind, "10");
    assert_eq!(ev.src_ip, "10.0.0.9");
}

#[test]
fn file_names_select_strategies() {
    assert!(matches!(
        kind_of_filename(&"Security.evtx".to_string()),
        Some(SourceKind::Security)
    ));
    assert!(matches!(
        kind_of_filename(
            &"Microsoft-Windows-TerminalServices-LocalSessionManager%4Operational.evtx"
                .to_string()
        ),
        Some(SourceKind::RdpLocalSession)
    ));
    assert!(kind_of_filename(&"unknown.evtx".to_string()).is_none());
}

#[test]
fn shipped_record_maps_by_numeric_kind() {
    let r = WinlogRecord {
        timestamp: Some("2024-01-01T10:00:00.000Z".to_string()),
        host_name: Some("HOST2".to_string()),
        event_id: Some(1149),
        data_fields: vec![field("Param1", "alice"), field("Param2", "DOM"), field(
            "Param3", "HOST1",
        )],
    };
    let ev = winlog_event(&r, "beat.json").unwrap();
    assert_eq!(ev.event_kind, "1149");
    assert_eq!(ev.target_user, "alice");
    assert_eq!(ev.target_domain, "DOM");
    assert_eq!(ev.src_host, "HOST1");
    assert_eq!(ev.logon_kind, "10");
    assert_eq!(ev.src_ip, "");
}

#[test]
fn shipped_record_outside_every_list_yields_nothing() {
    let r = WinlogRecord {
        timestamp: None,
        host_name: None,
        event_id: Some(12345),
        data_fields: Vec::new(),
    };
    assert!(winlog_event(&r, "f").is_none());
}

#[test]
fn ip_shapes_are_recognized() {
    assert!(looks_like_ip(&chars("1.2.3.4")));
    assert!(looks_like_ip(&chars("fe80::1")));
    assert!(!looks_like_ip(&chars("host")));
    assert!(!looks_like_ip(&chars("1.2.3.4.5")));
    assert!(!looks_like_ip(&chars("1.2.3.")));
}

fn utmp_record(ty: u16, user: &str, host: &str, sec: u32) -> Vec<u8> {
    let mut rec = vec![0u8; 384];
    rec[0] = (ty & 0xff) as u8;
    rec[1] = (ty >> 8) as u8;
    for (i, b) in user.bytes().enumerate() {
        rec[44 + i] = b;
    }
    for (i, b) in host.bytes().enumerate() {
        rec[76 + i] = b;
    }
    rec[340] = (sec & 0xff) as u8;
    rec[341] = ((sec >> 8) & 0xff) as u8;
    rec[342] = ((sec >> 16) & 0xff) as u8;
    rec[343] = ((sec >> 24) & 0xff) as u8;
    rec
}

#[test]
fn login_record_decodes_field_by_field() {
    let data = utmp_record(7, "alice", "1.2.3.4", 86400);
    let evs = parse_utmp_data(&data, false, true, "HOSTL", "wtmp");
    assert_eq!(evs.len(), 1);
    assert_eq!(evs[0].time, "1970-01-02T00:00:00+00:00");
    assert_eq!(evs[0].event_kind, "LOGIN");
    assert_eq!(evs[0].target_user, "alice");
    assert_eq!(evs[0].src_ip, "1.2.3.4");
    assert_eq!(evs[0].src_host, "");
    assert_eq!(evs[0].dst_host, "HOSTL");
}

#[test]
fn accounting_markers_are_always_skipped() {
    let data = utmp_record(9, "alice", "1.2.3.4", 0);
    assert_eq!(parse_utmp_data(&data, false, true, "H", "wtmp").len(), 0);
}

#[test]
fn failed_login_files_bypass_the_shape_check() {
    let data = utmp_record(7, "alice", "console", 0);
    assert_eq!(parse_utmp_data(&data, false, true, "H", "wtmp").len(), 0);
    let evs = parse_utmp_data(&data, true, true, "H", "btmp");
    assert_eq!(evs.len(), 1);
    assert_eq!(evs[0].event_kind, "FAILED_LOGIN");
    assert_eq!(evs[0].src_host, "console");
}

#[test]
fn trailing_partial_records_are_ignored() {
    let mut data = utmp_record(7, "a", "1.2.3.4", 0);
    data.extend_from_slice(&[0u8; 100]);
    assert_eq!(parse_utmp_data(&data, false, true, "H", "wtmp").len(), 1);
}

#[test]
fn structured_success_line_is_classified() {
    let line = "<38>1 2024-01-01T10:00:00Z host sshd 900 - - Accepted password for alice from 10.0.0.9 port 51000 ssh2";
    let ev = syslog_event(line, "HOSTL", "secure", true).unwrap();
    assert_eq!(ev.event_kind, "SSH_SUCCESS");
    assert_eq!(ev.target_user, "alice");
    assert_eq!(ev.src_ip, "10.0.0.9");
    assert_eq!(ev.time, "2024-01-01T10:00:00+00:00");
    assert_eq!(ev.process, "ssh");
}

#[test]
fn offsets_are_converted_to_utc() {
    let line = "<38>1 2024-01-01T10:00:00+02:00 host sshd 900 - - Failed password for bob from 10.0.0.9 port 51000 ssh2";
    let ev = syslog_event(line, "H", "secure", true).unwrap();
    assert_eq!(ev.event_kind, "SSH_FAILED");
    assert_eq!(ev.time, "2024-01-01T08:00:00+00:00");
}

#[test]
fn connection_start_wins_over_later_patterns() {
    let line = "<38>1 2024-01-01T10:00:00Z host xinetd 900 - - START: ssh pid=7 from=::ffff:10.1.1.1";
    let ev = syslog_event(line, "H", "messages", true).unwrap();
    assert_eq!(ev.event_kind, "SSH_CONNECT");
    assert_eq!(ev.src_ip, "10.1.1.1");
    assert_eq!(ev.target_user, "");
    assert_eq!(ev.process, "xinetd");
}

#[test]
fn legacy_year_less_framing_is_always_rejected() {
    let line = "Sep  6 21:39:20 host sshd[900]: Accepted password for alice from 10.0.0.9 port 5";
    assert!(syslog_event(line, "H", "secure", true).is_none());
}

#[test]
fn filtered_peer_that_is_no_address_is_dropped() {
    let line = "<38>1 2024-01-01T10:00:00Z host sshd 900 - - Accepted password for alice from badhost port 5";
    assert!(syslog_event(line, "H", "secure", true).is_none());
    assert!(syslog_event(line, "H", "secure", false).is_some());
}

#[test]
fn audit_line_maps_result_to_event_kind() {
    let line = "type=USER_AUTH msg=audit(1700000000.123:456): pid=9 uid=0 acct=\"bob\" exe=\"/usr/sbin/sshd\" hostname=10.0.0.7 addr=10.0.0.7 terminal=ssh res=success";
    let ev = audit_event(line, "HOSTL", "audit.log", true).unwrap();
    assert_eq!(ev.event_kind, "SSH_SUCCESS");
    assert_eq!(ev.target_user, "bob");
    assert_eq!(ev.src_ip, "10.0.0.7");
    assert_eq!(ev.time, "2023-11-14T22:13:20+00:00");
    assert_eq!(ev.process, "audit");
}

#[test]
fn audit_failure_and_foreign_types() {
    let fail = "type=USER_AUTH msg=audit(1700000000.123:456): acct=\"bob\" hostname=10.0.0.7 res=failed";
    assert_eq!(audit_event(fail, "H", "a", true).unwrap().event_kind, "SSH_FAILED");
    let other = "type=CRED_DISP msg=audit(1700000000.123:456): acct=\"bob\" hostname=10.0.0.7 res=success";
    assert!(audit_event(other, "H", "a", true).is_none());
}

fn network_record(local: PortField, remote: PortField) -> CortexRecord {
    CortexRecord {
        time: TimeField::Millis(0),
        agent_hostname: "AGENT".to_string(),
        action_local_ip: "10.0.0.2".to_string(),
        action_remote_ip: "10.0.0.3".to_string(),
        actor_primary_username: "DOM\\alice".to_string(),
        actor_process_command_line: "cmd.exe,arg".to_string(),
        local_port: local,
        remote_port: remote,
    }
}

#[test]
fn destination_port_makes_the_agent_the_destination() {
    let ev = cortex_event(&network_record(PortField::Num(3389), PortField::Num(50000)));
    assert_eq!(ev.dst_host, "AGENT");
    assert_eq!(ev.logon_kind, "10");
    assert_eq!(ev.src_host, "");
    assert_eq!(ev.src_ip, "10.0.0.3");
    assert_eq!(ev.event_kind, "xdr_network");
    assert_eq!(ev.target_domain, "DOM");
    assert_eq!(ev.target_user, "alice");
    assert_eq!(ev.process, "cmd.exe;arg");
    assert_eq!(ev.time, "1970-01-01T00:00:00.000000Z");
}

#[test]
fn other_ports_make_the_agent_the_source() {
    let ev = cortex_event(&network_record(PortField::Num(50000), PortField::Text("22".to_string())));
    assert_eq!(ev.dst_host, "10.0.0.3");
    assert_eq!(ev.logon_kind, "SSH");
    assert_eq!(ev.src_host, "AGENT");
    assert_eq!(ev.src_ip, "10.0.0.2");
}

#[test]
fn text_times_are_normalized_to_micro_precision() {
    let mut r = network_record(PortField::Num(445), PortField::Absent);
    r.time = TimeField::Text("2024-01-01 00:00:05.123 UTC".to_string());
    let ev = cortex_event(&r);
    assert_eq!(ev.time, "2024-01-01T00:00:05.123000Z");
    r.time = TimeField::Text("whatever".to_string());
    assert_eq!(cortex_event(&r).time, "whatever");
}

#[test]
fn forensics_records_copy_canonical_fields() {
    let r = ForensicsRecord {
        time: TimeField::Millis(5),
        dst_host: "H".to_string(),
        event_id: "4648".to_string(),
        subject_name: "s".to_string(),
        subject_domain: "sd".to_string(),
        target_user: "t".to_string(),
        target_domain: "td".to_string(),
        logon_kind: "runas".to_string(),
        source_host: "src".to_string(),
        src_ip: "10.0.0.1".to_string(),
        process: "p".to_string(),
    };
    let ev = forensics_event(&r);
    assert_eq!(ev.event_kind, "4648");
    assert_eq!(ev.logon_kind, "runas");
    assert_eq!(ev.provenance, "cortex_evtx_forensics");
    assert_eq!(ev.time, "1970-01-01T00:00:00.005000Z");
}

#[test]
fn poll_steps_follow_the_retry_budget() {
    assert!(matches!(poll_step(&"SUCCESS".to_string(), 0, 10), PollAction::Collect));
    assert!(matches!(poll_step(&"PENDING".to_string(), 0, 10), PollAction::Retry));
    assert!(matches!(poll_step(&"RUNNING".to_string(), 3, 10), PollAction::Retry));
    assert!(matches!(poll_step(&"PENDING".to_string(), 9, 10), PollAction::Stop));
    assert!(matches!(poll_step(&"FAILED".to_string(), 0, 10), PollAction::Stop));
}

#[test]
fn gzip_signatures_are_sniffed() {
    assert!(is_gzip(&vec![0x1f, 0x8b, 0x08]));
    assert!(!is_gzip(&vec![0x1f]));
    assert!(!is_gzip(&vec![b'{', b'}']));
}

#[test]
fn stream_payloads_split_into_record_lines() {
    let lines = ndjson_lines("{\"a\":1}\n\n  {\"b\":2} \r\n");
    assert_eq!(lines, vec!["{\"a\":1}".to_string(), "{\"b\":2}".to_string()]);
}

#[test]
fn malformed_inputs_never_panic_and_fields_stay_defined() {
    // Arbitrary bytes are decoded record by record without failing.
    let junk: Vec<u8> = (0..768u32).map(|i| (i * 37 % 251) as u8).collect();
    for ev in parse_utmp_data(&junk, false, false, "H", "f") {
        // Every canonical column is a defined string.
        assert_eq!(ev.to_row().len(), 12);
    }
    // Arbitrary text lines yield nothing rather than failing.
    assert!(syslog_event("\u{1F600} <<>> \u{0000} garbage", "H", "f", true).is_none());
    assert!(audit_event("type=USER_AUTH acct=\"", "H", "f", true).is_none());
    // A record with nothing in it yields nothing.
    let empty = WinRecord {
        system_time: None,
        computer: None,
        event_id: None,
        provider: None,
        security_user_id: None,
        data_fields: Vec::new(),
        user_data_user_name: None,
        user_data_client_name: None,
        event_xml_user: None,
        event_xml_address: None,
    };
    assert!(security_event(&empty, "f").is_none());
    // A shipped record with an allow-listed kind and no data still has every
    // field defined, as the empty string.
    let bare = WinlogRecord {
        timestamp: None,
        host_name: None,
        event_id: Some(4624),
        data_fields: Vec::new(),
    };
    let ev = winlog_event(&bare, "f").unwrap();
    assert_eq!(ev.time, "");
    assert_eq!(ev.dst_host, "");
    assert_eq!(ev.to_row().len(), 12);
}

#[test]
fn query_times_get_a_zero_offset() {
    assert_eq!(
        query_time("2024-01-01 00:00:00"),
        Some("2024-01-01 00:00:00 -0000".to_string())
    );
    assert_eq!(
        query_time("2024-01-01 00:00:00 -0000"),
        Some("2024-01-01 00:00:00 -0000".to_string())
    );
    assert!(query_time("yesterday").is_none());
    assert!(query_time("2024-02-30 00:00:00").is_none());
}
