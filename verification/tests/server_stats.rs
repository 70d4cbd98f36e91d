use supercollider_mcp::server_stats::{
    fmt_disk, logical_cpu_count, scsynth_rows, select_servers, server_line,
    servers_report_from_rows, sort_by_pid, DiskTotals, ServerRow,
};

fn row(pid: u32, name: &str) -> ServerRow {
    ServerRow {
        pid,
        name: name.to_string(),
        rss_mib: "12.5".to_string(),
        vsize_mib: "300.0".to_string(),
        cpu_norm_pct: "1.2".to_string(),
        cpu_raw_pct: "9.6".to_string(),
        run_s: 61,
        disk: DiskTotals { total_read_bytes: 1024, total_written_bytes: 0 },
    }
}

fn pids(rows: &[ServerRow]) -> Vec<u32> {
    rows.iter().map(|r| r.pid).collect()
}

#[test]
fn disk_text() {
    assert_eq!(
        fmt_disk(&DiskTotals { total_read_bytes: 123, total_written_bytes: 45678 }),
        "disk_read=123 disk_written=45678 (bytes total since measure)"
    );
}

#[test]
fn line_of_one_server() {
    assert_eq!(
        server_line(&row(77, "scsynth")),
        "pid=77 name=scsynth rss=12.5 MiB vsize=300.0 MiB cpu~=1.2% (of one core, est.) \
         cpu_raw=9.6% uptime=61s disk_read=1024 disk_written=0 (bytes total since measure)"
    );
}

#[test]
fn cpu_count_is_at_least_one() {
    assert_eq!(logical_cpu_count(0), 1);
    assert_eq!(logical_cpu_count(1), 1);
    assert_eq!(logical_cpu_count(16), 16);
}

#[test]
fn sorting_orders_by_pid() {
    let out = sort_by_pid(vec![row(30, "a"), row(10, "b"), row(20, "c"), row(5, "d")]);
    assert_eq!(pids(&out), vec![5, 10, 20, 30]);
    assert!(sort_by_pid(vec![]).is_empty());
}

#[test]
fn sorting_is_stable() {
    let out = sort_by_pid(vec![row(2, "first"), row(1, "x"), row(2, "second"), row(2, "third")]);
    let names: Vec<&str> = out.iter().map(|r| r.name.as_str()).collect();
    assert_eq!(names, vec!["x", "first", "second", "third"]);
}

#[test]
fn sorting_keeps_sorted_input() {
    let out = sort_by_pid(vec![row(1, "a"), row(2, "b"), row(2, "c"), row(9, "d")]);
    let names: Vec<&str> = out.iter().map(|r| r.name.as_str()).collect();
    assert_eq!(names, vec!["a", "b", "c", "d"]);
}

#[test]
fn choosing_scsynth_rows_uses_the_lowercased_name() {
    let out = scsynth_rows(vec![row(3, "SCSYNTH"), row(1, "sclang"), row(2, "scsynth.exe")]);
    assert_eq!(pids(&out), vec![3, 2]);
    assert_eq!(out[0].name, "SCSYNTH");
}

#[test]
fn selection_filters_then_orders() {
    let out = select_servers(vec![row(9, "scsynth"), row(4, "bash"), row(2, "scsynth")]);
    assert_eq!(pids(&out), vec![2, 9]);
}

#[test]
fn report_without_servers() {
    assert_eq!(
        servers_report_from_rows(&vec![], 8),
        "No **scsynth** (SuperCollider audio server) processes found on this machine.\n\
         Boot the server from sclang or your IDE, or the process name may not contain \"scsynth\".\n\
         (OS process stats only — not OSC / not node counts.)"
    );
}

#[test]
fn report_with_servers() {
    let rows = vec![row(1, "scsynth"), row(2, "scsynth")];
    let expected = format!(
        "SuperCollider **scsynth** server process(es) on this machine (OS stats via sysinfo, not OSC):\n\n\
         - {}\n- {}\n\nCPU % is estimated from OS counters (1 logical CPUs); not SuperCollider DSP load.\n",
        server_line(&rows[0]),
        server_line(&rows[1])
    );
    assert_eq!(servers_report_from_rows(&rows, 0), expected);
    assert!(servers_report_from_rows(&rows, 4).contains("(4 logical CPUs)"));
}

#[test]
fn selecting_twice_changes_nothing() {
    let once = select_servers(vec![
        row(9, "scsynth"),
        row(4, "bash"),
        row(2, "SCSYNTH"),
        row(2, "scsynth-b"),
    ]);
    assert_eq!(pids(&once), vec![2, 2, 9]);
    let twice = select_servers(once.clone());
    assert_eq!(pids(&twice), pids(&once));
    let names: Vec<&str> = twice.iter().map(|r| r.name.as_str()).collect();
    assert_eq!(names, vec!["SCSYNTH", "scsynth-b", "scsynth"]);
}

#[test]
fn sorting_keeps_every_row() {
    let input = vec![row(3, "a"), row(1, "b"), row(3, "c"), row(2, "d"), row(1, "e")];
    let out = sort_by_pid(input.clone());
    assert_eq!(out.len(), input.len());
    let mut a: Vec<String> = input.iter().map(|r| r.name.clone()).collect();
    let mut b: Vec<String> = out.iter().map(|r| r.name.clone()).collect();
    a.sort();
    b.sort();
    assert_eq!(a, b);
    assert!(out.windows(2).all(|w| w[0].pid <= w[1].pid));
}

#[test]
fn report_ignores_scan_order_and_other_processes() {
    let a = vec![row(9, "scsynth"), row(4, "bash"), row(2, "SCSYNTH")];
    let b = vec![row(7, "sclang"), row(2, "SCSYNTH"), row(11, "notepad"), row(9, "scsynth")];
    let sa = select_servers(a);
    let sb = select_servers(b);
    let la: Vec<String> = sa.iter().map(server_line).collect();
    let lb: Vec<String> = sb.iter().map(server_line).collect();
    assert_eq!(la, lb);
    assert_eq!(servers_report_from_rows(&sa, 4), servers_report_from_rows(&sb, 4));
}
