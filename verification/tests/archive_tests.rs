//! Nested-archive resolution against real archives, chain splitting, the
//! configuration surface, and the shared time sort.
use masstin::archive::{resolve_chain, split_chain};
use masstin::model::{sort_events, CanonicalEvent};
use masstin::{is_debug_mode, precheck_args, set_debug_mode, ActionType, ArgError, Cli, RunConfig};
use std::io::Write;

fn zip_bytes(entries: &[(&str, &[u8])]) -> Vec<u8> {
    let mut w = zip::ZipWriter::new(std::io::Cursor::new(Vec::new()));
    let opts = zip::write::SimpleFileOptions::default();
    for (name, data) in entries {
        w.start_file(*name, opts).unwrap();
        w.write_all(data).unwrap();
    }
    w.finish().unwrap().into_inner()
}

#[test]
fn chain_splits_on_the_hop_separator() {
    assert_eq!(
        split_chain("outer.zip -> inner.zip -> file.evtx"),
        vec!["outer.zip".to_string(), "inner.zip".to_string(), "file.evtx".to_string()]
    );
    assert_eq!(split_chain("plain.evtx"), vec!["plain.evtx".to_string()]);
}

#[test]
fn nested_member_resolves_hop_by_hop() {
    let inner = zip_bytes(&[("file.evtx", b"payload")]);
    let outer = zip_bytes(&[("inner.zip", &inner)]);
    let hops = vec!["inner.zip".to_string(), "file.evtx".to_string()];
    let got = resolve_chain(outer, &hops).unwrap();
    assert_eq!(got, b"payload");
}

#[test]
fn a_missing_hop_fails_only_that_source() {
    // An outer archive without the intermediate member: this source fails.
    let outer_without = zip_bytes(&[("other.zip", b"junk")]);
    let hops = vec!["inner.zip".to_string(), "file.evtx".to_string()];
    assert!(resolve_chain(outer_without, &hops).is_none());
    // A sibling identifier over a complete archive is unaffected.
    let inner = zip_bytes(&[("file.evtx", b"payload")]);
    let outer = zip_bytes(&[("inner.zip", &inner)]);
    assert_eq!(resolve_chain(outer, &hops).unwrap(), b"payload");
}

#[test]
fn a_missing_leaf_member_fails_the_chain() {
    let inner = zip_bytes(&[("other.evtx", b"payload")]);
    let outer = zip_bytes(&[("inner.zip", &inner)]);
    let hops = vec!["inner.zip".to_string(), "file.evtx".to_string()];
    assert!(resolve_chain(outer, &hops).is_none());
}

#[test]
fn garbage_bytes_are_no_archive() {
    let hops = vec!["x".to_string()];
    assert!(resolve_chain(b"not a zip at all".to_vec(), &hops).is_none());
}

#[test]
fn debug_mode_is_per_run_state() {
    let mut cfg = RunConfig::new();
    assert!(!is_debug_mode(&cfg));
    set_debug_mode(&mut cfg, true);
    assert!(is_debug_mode(&cfg));
    set_debug_mode(&mut cfg, false);
    assert!(!is_debug_mode(&cfg));
}

fn cli(action: ActionType) -> Cli {
    Cli {
        action,
        directory: Vec::new(),
        file: Vec::new(),
        output: None,
        database: None,
        user: None,
        overwrite: false,
        stdout: false,
        debug: false,
        cortex_url: None,
        start_time: None,
        end_time: None,
        filter_cortex_ip: None,
    }
}

#[test]
fn prechecks_follow_each_action() {
    assert!(matches!(precheck_args(&cli(ActionType::Parse)), Some(ArgError::NoInputs)));
    let mut c = cli(ActionType::Parse);
    c.file.push("a.evtx".to_string());
    assert!(precheck_args(&c).is_none());
    assert!(matches!(precheck_args(&cli(ActionType::Load)), Some(ArgError::LoadIncomplete)));
    let mut m = cli(ActionType::Merge);
    m.file.push("a".to_string());
    assert!(matches!(precheck_args(&m), Some(ArgError::TooFewMergeInputs)));
    m.file.push("b".to_string());
    assert!(precheck_args(&m).is_none());
    let mut q = cli(ActionType::ParseCortex);
    q.cortex_url = Some("https://example".to_string());
    assert!(matches!(precheck_args(&q), Some(ArgError::BadQueryUrl)));
    q.cortex_url = Some("https://api-tenant.example".to_string());
    assert!(precheck_args(&q).is_none());
}

fn ev(time: &str, dst: &str) -> CanonicalEvent {
    CanonicalEvent {
        time: time.to_string(),
        dst_host: dst.to_string(),
        event_kind: "4624".to_string(),
        subject_user: String::new(),
        subject_domain: String::new(),
        target_user: String::new(),
        target_domain: String::new(),
        logon_kind: String::new(),
        src_host: String::new(),
        src_ip: String::new(),
        process: String::new(),
        provenance: String::new(),
    }
}

#[test]
fn events_sort_ascending_and_stably() {
    let evs = vec![
        ev("2024-01-01T00:00:05Z", "B"),
        ev("2024-01-01T00:00:01Z", "A1"),
        ev("2024-01-01T00:00:01Z", "A2"),
    ];
    let sorted = sort_events(evs);
    assert_eq!(sorted[0].dst_host, "A1");
    assert_eq!(sorted[1].dst_host, "A2");
    assert_eq!(sorted[2].dst_host, "B");
}

#[test]
fn event_rows_carry_every_column() {
    let e = ev("2024-01-01T00:00:01Z", "B");
    let row = e.to_row();
    assert_eq!(row.len(), 12);
    assert_eq!(row[0], "2024-01-01T00:00:01Z");
    assert_eq!(row[1], "B");
    assert_eq!(row[2], "4624");
    assert_eq!(row[11], "");
}
