use supercollider_mcp::sc_process::{
    is_sclang, is_scsynth, probe_report, probe_report_from_labels, process_label, ProcessEntry,
};

fn entry(pid: u32, name: &str) -> ProcessEntry {
    ProcessEntry { pid, name: name.to_string() }
}

#[test]
fn name_filters() {
    assert!(is_scsynth("scsynth.exe"));
    assert!(is_sclang("sclang"));
    assert!(!is_scsynth("notepad"));
}

#[test]
fn name_filters_match_anywhere_in_the_name() {
    assert!(is_scsynth("/usr/bin/scsynth"));
    assert!(is_scsynth("my-scsynth-2"));
    assert!(!is_scsynth("scsynt"));
    assert!(!is_scsynth(""));
    assert!(!is_sclang("scsynth"));
    assert!(is_sclang("sclang.exe"));
    // the filters expect a lowercased name
    assert!(!is_scsynth("SCSYNTH"));
}

#[test]
fn process_label_renders_pid_and_name() {
    assert_eq!(process_label(4242, "scsynth"), "pid 4242 (scsynth)");
    assert_eq!(process_label(0, "x"), "pid 0 (x)");
    assert_eq!(process_label(u32::MAX, ""), "pid 4294967295 ()");
}

#[test]
fn probe_report_with_nothing_running() {
    let report = probe_report(&vec![entry(1, "init"), entry(2, "notepad")]);
    assert_eq!(
        report,
        "SuperCollider on this machine (process scan, not OSC):\n\
         - scsynth: not found (audio server likely not running under that name)\n\
         - sclang: not found\n\
         - supercollider-mcp: running\n"
    );
    assert_eq!(probe_report(&vec![]), report);
}

#[test]
fn probe_report_lists_matches_in_scan_order() {
    let report = probe_report(&vec![
        entry(300, "scsynth"),
        entry(12, "notepad"),
        entry(7, "sclang"),
        entry(5, "scsynth.exe"),
    ]);
    assert_eq!(
        report,
        "SuperCollider on this machine (process scan, not OSC):\n\
         - scsynth: running — pid 300 (scsynth), pid 5 (scsynth.exe)\n\
         - sclang: running — pid 7 (sclang)\n\
         - supercollider-mcp: running\n"
    );
}

#[test]
fn probe_report_lowercases_names_but_shows_them_as_found() {
    let report = probe_report(&vec![entry(9, "SCSynth"), entry(10, "ScLang")]);
    assert_eq!(
        report,
        "SuperCollider on this machine (process scan, not OSC):\n\
         - scsynth: running — pid 9 (SCSynth)\n\
         - sclang: running — pid 10 (ScLang)\n\
         - supercollider-mcp: running\n"
    );
}

#[test]
fn probe_report_from_labels_joins_with_commas() {
    let report = probe_report_from_labels(
        &vec!["a".to_string(), "b".to_string(), "c".to_string()],
        &vec![],
    );
    assert_eq!(
        report,
        "SuperCollider on this machine (process scan, not OSC):\n\
         - scsynth: running — a, b, c\n\
         - sclang: not found\n\
         - supercollider-mcp: running\n"
    );
}

#[test]
fn probe_report_always_confirms_the_server() {
    for procs in [vec![], vec![entry(1, "scsynth")], vec![entry(2, "sclang"), entry(3, "x")]] {
        let report = probe_report(&procs);
        assert!(report.starts_with("SuperCollider on this machine (process scan, not OSC):\n"));
        assert!(report.ends_with("- supercollider-mcp: running\n"));
    }
}
