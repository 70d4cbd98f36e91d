//! Per-server statistics of SuperCollider audio servers (scsynth): choosing
//! the server rows of a scan, ordering them by process id and rendering the
//! report. Figures that are fractional (MiB, CPU %) arrive already rendered,
//! so the rows hold only integers and text.
use vstd::prelude::*;

use crate::sc_process::{is_scsynth, lowercase_of, names_scsynth, to_lowercase};
use crate::text::{decimal, push_decimal};

verus! {

/// Disk I/O totals of a process since it was first measured.
#[derive(Clone, Copy, Debug)]
pub struct DiskTotals {
    pub total_read_bytes: u64,
    pub total_written_bytes: u64,
}

/// The disk part of a server line.
pub open spec fn disk_text(d: DiskTotals) -> Seq<char> {
    "disk_read="@ + decimal(d.total_read_bytes as nat) + " disk_written="@ + decimal(
        d.total_written_bytes as nat,
    ) + " (bytes total since measure)"@
}

/// Renders `disk_read=<r> disk_written=<w> (bytes total since measure)`.
pub fn fmt_disk(d: &DiskTotals) -> (s: String)
    ensures
        s@ == disk_text(*d),
{
    let mut s = String::new();
    s.append("disk_read=");
    push_decimal(&mut s, d.total_read_bytes);
    s.append(" disk_written=");
    push_decimal(&mut s, d.total_written_bytes);
    s.append(" (bytes total since measure)");
    assert(s@ =~= disk_text(*d));
    s
}

/// One process of a scan with its OS statistics. The memory figures in MiB
/// and the CPU percentages are given as their one-decimal renderings.
#[derive(Clone, Debug)]
pub struct ServerRow {
    pub pid: u32,
    pub name: String,
    pub rss_mib: String,
    pub vsize_mib: String,
    pub cpu_norm_pct: String,
    pub cpu_raw_pct: String,
    pub run_s: u64,
    pub disk: DiskTotals,
}

/// The line that describes one server.
pub open spec fn line_text(r: ServerRow) -> Seq<char> {
    "pid="@ + decimal(r.pid as nat) + " name="@ + r.name@ + " rss="@ + r.rss_mib@
        + " MiB vsize="@ + r.vsize_mib@ + " MiB cpu~="@ + r.cpu_norm_pct@
        + "% (of one core, est.) cpu_raw="@ + r.cpu_raw_pct@ + "% uptime="@ + decimal(
        r.run_s as nat,
    ) + "s "@ + disk_text(r.disk)
}

/// Renders the line that describes one server.
pub fn server_line(r: &ServerRow) -> (s: String)
    ensures
        s@ == line_text(*r),
{
    let mut s = String::new();
    s.append("pid=");
    push_decimal(&mut s, r.pid as u64);
    s.append(" name=");
    s.append(r.name.as_str());
    s.append(" rss=");
    s.append(r.rss_mib.as_str());
    s.append(" MiB vsize=");
    s.append(r.vsize_mib.as_str());
    s.append(" MiB cpu~=");
    s.append(r.cpu_norm_pct.as_str());
    s.append("% (of one core, est.) cpu_raw=");
    s.append(r.cpu_raw_pct.as_str());
    s.append("% uptime=");
    push_decimal(&mut s, r.run_s);
    s.append("s ");
    let d = fmt_disk(&r.disk);
    s.append(d.as_str());
    assert(s@ =~= line_text(*r));
    s
}

/// The number of logical CPUs that CPU figures are divided by: never below one.
pub open spec fn cpu_divisor(reported: nat) -> nat {
    if reported >= 1 {
        reported
    } else {
        1
    }
}

/// The number of logical CPUs that CPU figures are divided by.
pub fn logical_cpu_count(reported: usize) -> (n: usize)
    ensures
        n == cpu_divisor(reported as nat),
{
    if reported >= 1 {
        reported
    } else {
        1
    }
}

// ---------------------------------------------------------------------------
// Choosing and ordering the server rows
// ---------------------------------------------------------------------------
/// The rows, in scan order, whose lowercased name names scsynth.
pub open spec fn scsynth_only(rows: Seq<ServerRow>) -> Seq<ServerRow>
    decreases rows.len(),
{
    if rows.len() == 0 {
        Seq::empty()
    } else {
        let rest = scsynth_only(rows.drop_last());
        if names_scsynth(lowercase_of(rows.last().name@)) {
            rest.push(rows.last())
        } else {
            rest
        }
    }
}

/// The index of the first row whose pid is greater than `pid` (the length if none is).
pub open spec fn first_above(s: Seq<ServerRow>, pid: u32) -> nat
    decreases s.len(),
{
    if s.len() == 0 {
        0
    } else if s[0].pid > pid {
        0
    } else {
        1 + first_above(s.drop_first(), pid)
    }
}

/// `r` placed after every row whose pid is not greater than its own.
pub open spec fn insert_by_pid(s: Seq<ServerRow>, r: ServerRow) -> Seq<ServerRow> {
    s.insert(first_above(s, r.pid) as int, r)
}

/// The rows ordered by pid, rows with equal pids in the order given
/// (what a stable sort by pid gives).
pub open spec fn sorted_by_pid(s: Seq<ServerRow>) -> Seq<ServerRow>
    decreases s.len(),
{
    if s.len() == 0 {
        s
    } else {
        insert_by_pid(sorted_by_pid(s.drop_last()), s.last())
    }
}

/// The pids never decrease along `s`.
pub open spec fn pid_ordered(s: Seq<ServerRow>) -> bool {
    forall|i: int, j: int| 0 <= i <= j < s.len() ==> #[trigger] s[i].pid <= #[trigger] s[j].pid
}

/// What the report lists: the scsynth rows ordered by pid.
pub open spec fn selected_servers(rows: Seq<ServerRow>) -> Seq<ServerRow> {
    sorted_by_pid(scsynth_only(rows))
}

/// `first_above` is the first index whose pid exceeds `pid`.
pub proof fn lemma_first_above(s: Seq<ServerRow>, pid: u32)
    ensures
        first_above(s, pid) <= s.len(),
        forall|k: int| 0 <= k < first_above(s, pid) ==> s[k].pid <= pid,
        first_above(s, pid) < s.len() ==> s[first_above(s, pid) as int].pid > pid,
    decreases s.len(),
{
    if s.len() > 0 && s[0].pid <= pid {
        lemma_first_above(s.drop_first(), pid);
        assert forall|k: int| 0 <= k < first_above(s, pid) implies s[k].pid <= pid by {
            if k > 0 {
                assert(s[k] == s.drop_first()[k - 1]);
            }
        }
    }
}

/// The first index whose pid exceeds `pid` is `first_above`.
proof fn lemma_first_above_unique(s: Seq<ServerRow>, pid: u32, j: int)
    requires
        0 <= j <= s.len(),
        forall|k: int| 0 <= k < j ==> s[k].pid <= pid,
        j == s.len() || s[j].pid > pid,
    ensures
        first_above(s, pid) == j,
{
    lemma_first_above(s, pid);
    let f = first_above(s, pid) as int;
    if f < j {
        assert(s[f].pid <= pid);
    }
    if j < f {
        assert(s[j].pid <= pid);
    }
}

/// Orders rows by pid; rows with equal pids keep their order.
pub fn sort_by_pid(rows: Vec<ServerRow>) -> (out: Vec<ServerRow>)
    ensures
        out@ == sorted_by_pid(rows@),
{
    let ghost orig = rows@;
    let mut rest = rows;
    let mut out: Vec<ServerRow> = Vec::new();
    let ghost mut i: int = 0;
    while rest.len() > 0
        invariant
            0 <= i <= orig.len(),
            rest@ == orig.skip(i),
            out@ == sorted_by_pid(orig.take(i)),
        decreases rest@.len(),
    {
        let r = rest.remove(0);
        let ol = out.len();
        let mut j: usize = 0;
        while j < ol && out[j].pid <= r.pid
            invariant
                ol == out@.len(),
                j <= ol,
                forall|k: int| 0 <= k < j ==> out@[k].pid <= r.pid,
            decreases ol - j,
        {
            j = j + 1;
        }
        proof {
            lemma_first_above_unique(out@, r.pid, j as int);
        }
        out.insert(j, r);
        proof {
            assert(orig.take(i + 1).drop_last() =~= orig.take(i));
            assert(orig.take(i + 1).last() == orig[i]);
            assert(orig.skip(i)[0] == orig[i]);
            i = i + 1;
            assert(rest@ =~= orig.skip(i));
        }
    }
    proof {
        assert(orig.take(i) =~= orig);
    }
    out
}

/// Keeps the rows whose lowercased name contains `scsynth`, in scan order.
pub fn scsynth_rows(rows: Vec<ServerRow>) -> (out: Vec<ServerRow>)
    ensures
        out@ == scsynth_only(rows@),
{
    let ghost orig = rows@;
    let mut rest = rows;
    let mut out: Vec<ServerRow> = Vec::new();
    let ghost mut i: int = 0;
    while rest.len() > 0
        invariant
            0 <= i <= orig.len(),
            rest@ == orig.skip(i),
            out@ == scsynth_only(orig.take(i)),
        decreases rest@.len(),
    {
        let r = rest.remove(0);
        let lower = to_lowercase(r.name.as_str());
        proof {
            assert(orig.take(i + 1).drop_last() =~= orig.take(i));
            assert(orig.take(i + 1).last() == orig[i]);
            assert(orig.skip(i)[0] == orig[i]);
        }
        if is_scsynth(lower.as_str()) {
            out.push(r);
        }
        proof {
            i = i + 1;
            assert(rest@ =~= orig.skip(i));
        }
    }
    proof {
        assert(orig.take(i) =~= orig);
    }
    out
}

/// The rows the server report lists: the scsynth rows, ordered by pid.
pub fn select_servers(rows: Vec<ServerRow>) -> (out: Vec<ServerRow>)
    ensures
        out@ == selected_servers(rows@),
{
    sort_by_pid(scsynth_rows(rows))
}

// ---------------------------------------------------------------------------
// The report
// ---------------------------------------------------------------------------
/// `- <line>` for each row, each ended by a newline.
pub open spec fn lines_text(rows: Seq<ServerRow>) -> Seq<char>
    decreases rows.len(),
{
    if rows.len() == 0 {
        Seq::empty()
    } else {
        lines_text(rows.drop_last()) + "- "@ + line_text(rows.last()) + "\n"@
    }
}

/// The answer when no scsynth process runs.
pub open spec fn no_servers_text() -> Seq<char> {
    "No **scsynth** (SuperCollider audio server) processes found on this machine.\nBoot the server from sclang or your IDE, or the process name may not contain \"scsynth\".\n(OS process stats only — not OSC / not node counts.)"@
}

/// The report for the given (already chosen and ordered) rows.
pub open spec fn servers_text(rows: Seq<ServerRow>, cpu_count: nat) -> Seq<char> {
    if rows.len() == 0 {
        no_servers_text()
    } else {
        "SuperCollider **scsynth** server process(es) on this machine (OS stats via sysinfo, not OSC):\n\n"@
            + lines_text(rows) + "\nCPU % is estimated from OS counters ("@ + decimal(
            cpu_divisor(cpu_count),
        ) + " logical CPUs); not SuperCollider DSP load.\n"@
    }
}

/// Renders the report for rows already chosen and ordered, with the number of
/// logical CPUs the OS reported.
pub fn servers_report_from_rows(rows: &Vec<ServerRow>, cpu_count: usize) -> (report: String)
    ensures
        report@ == servers_text(rows@, cpu_count as nat),
{
    if rows.len() == 0 {
        return String::from_str(
            "No **scsynth** (SuperCollider audio server) processes found on this machine.\nBoot the server from sclang or your IDE, or the process name may not contain \"scsynth\".\n(OS process stats only — not OSC / not node counts.)",
        );
    }
    let mut out = String::new();
    out.append(
        "SuperCollider **scsynth** server process(es) on this machine (OS stats via sysinfo, not OSC):\n\n",
    );
    let ghost start = out@;
    let n = rows.len();
    let mut i: usize = 0;
    while i < n
        invariant
            n == rows@.len(),
            i <= n,
            out@ == start + lines_text(rows@.take(i as int)),
        decreases n - i,
    {
        let line = server_line(&rows[i]);
        out.append("- ");
        out.append(line.as_str());
        out.append("\n");
        assert(rows@.take(i + 1).drop_last() =~= rows@.take(i as int));
        assert(rows@.take(i + 1).last() == rows@[i as int]);
        i = i + 1;
        assert(out@ =~= start + lines_text(rows@.take(i as int)));
    }
    assert(rows@.take(n as int) =~= rows@);
    let cpus = logical_cpu_count(cpu_count);
    out.append("\nCPU % is estimated from OS counters (");
    push_decimal(&mut out, cpus as u64);
    out.append(" logical CPUs); not SuperCollider DSP load.\n");
    assert(out@ =~= servers_text(rows@, cpu_count as nat));
    out
}

// ---------------------------------------------------------------------------
// Laws of the ordering and of the choice of rows
// ---------------------------------------------------------------------------
/// Placing a row into pid order keeps the rows in pid order.
proof fn lemma_insert_ordered(t: Seq<ServerRow>, r: ServerRow)
    requires
        pid_ordered(t),
    ensures
        pid_ordered(insert_by_pid(t, r)),
{
    lemma_first_above(t, r.pid);
    let k = first_above(t, r.pid) as int;
    t.insert_ensures(k, r);
    let u = insert_by_pid(t, r);
    assert forall|i: int, j: int| 0 <= i <= j < u.len() implies #[trigger] u[i].pid
        <= #[trigger] u[j].pid by {
        if j < k {
            assert(u[i] == t[i] && u[j] == t[j]);
        } else if j == k {
            if i < k {
                assert(u[i] == t[i]);
            }
        } else {
            assert(u[j] == t[j - 1]);
            if i < k {
                assert(u[i] == t[i]);
            } else if i == k {
                assert(t[k].pid > r.pid);
                assert(t[k].pid <= t[j - 1].pid);
            } else {
                assert(u[i] == t[i - 1]);
            }
        }
    }
}

/// Ordering by pid yields rows whose pids never decrease.
pub proof fn lemma_sorted_is_pid_ordered(s: Seq<ServerRow>)
    ensures
        pid_ordered(sorted_by_pid(s)),
    decreases s.len(),
{
    if s.len() > 0 {
        lemma_sorted_is_pid_ordered(s.drop_last());
        lemma_insert_ordered(sorted_by_pid(s.drop_last()), s.last());
    }
}

/// Ordering by pid neither loses nor adds nor duplicates a row.
pub proof fn lemma_sort_permutes(s: Seq<ServerRow>)
    ensures
        sorted_by_pid(s).to_multiset() == s.to_multiset(),
    decreases s.len(),
{
    broadcast use vstd::seq_lib::group_to_multiset_ensures;

    if s.len() > 0 {
        lemma_sort_permutes(s.drop_last());
        let t = sorted_by_pid(s.drop_last());
        lemma_first_above(t, s.last().pid);
        assert(s =~= s.drop_last().push(s.last()));
    }
}

/// Rows already in pid order are left as they are.
pub proof fn lemma_sort_keeps_ordered(s: Seq<ServerRow>)
    requires
        pid_ordered(s),
    ensures
        sorted_by_pid(s) == s,
    decreases s.len(),
{
    if s.len() > 0 {
        let d = s.drop_last();
        assert(pid_ordered(d)) by {
            assert forall|i: int, j: int| 0 <= i <= j < d.len() implies #[trigger] d[i].pid
                <= #[trigger] d[j].pid by {
                assert(d[i] == s[i] && d[j] == s[j]);
            }
        }
        lemma_sort_keeps_ordered(d);
        assert forall|k: int| 0 <= k < d.len() implies d[k].pid <= s.last().pid by {
            assert(d[k] == s[k]);
        }
        lemma_first_above_unique(d, s.last().pid, d.len() as int);
        assert(d.insert(d.len() as int, s.last()) =~= s);
    }
}

/// The rows of `s` whose pid is `pid`, in order.
pub open spec fn with_pid(s: Seq<ServerRow>, pid: u32) -> Seq<ServerRow> {
    s.filter(|r: ServerRow| r.pid == pid)
}

/// Filtering a one-row sequence.
proof fn lemma_filter_single(r: ServerRow, pred: spec_fn(ServerRow) -> bool)
    ensures
        seq![r].filter(pred) == if pred(r) {
            seq![r]
        } else {
            Seq::<ServerRow>::empty()
        },
{
    Seq::<ServerRow>::empty().lemma_filter_push(r, pred);
    assert(Seq::<ServerRow>::empty().push(r) =~= seq![r]);
    reveal_with_fuel(Seq::filter, 1);
}

/// Placing a row into pid order keeps the order among rows of any one pid.
proof fn lemma_insert_stable(t: Seq<ServerRow>, r: ServerRow, pid: u32)
    requires
        pid_ordered(t),
    ensures
        with_pid(insert_by_pid(t, r), pid) == if r.pid == pid {
            with_pid(t, pid).push(r)
        } else {
            with_pid(t, pid)
        },
{
    let pred = |x: ServerRow| x.pid == pid;
    lemma_first_above(t, r.pid);
    let k = first_above(t, r.pid) as int;
    let a = t.subrange(0, k);
    let b = t.subrange(k, t.len() as int);
    assert(t =~= a + b);
    assert(insert_by_pid(t, r) =~= (a + seq![r]) + b);
    Seq::filter_distributes_over_add(a, b, pred);
    Seq::filter_distributes_over_add(a + seq![r], b, pred);
    Seq::filter_distributes_over_add(a, seq![r], pred);
    lemma_filter_single(r, pred);
    if r.pid == pid {
        assert forall|i: int| 0 <= i < b.len() implies !pred(b[i]) by {
            assert(b[i] == t[k + i]);
            assert(t[k].pid <= t[k + i].pid);
        }
        assert(b.all(|x: ServerRow| !pred(x)));
        b.lemma_all_neg_filter_empty(pred);
        assert(b.filter(pred) =~= Seq::<ServerRow>::empty());
        assert(with_pid(insert_by_pid(t, r), pid) =~= with_pid(t, pid).push(r));
    } else {
        assert(with_pid(insert_by_pid(t, r), pid) =~= with_pid(t, pid));
    }
}

/// Ordering by pid is stable: the rows of any one pid keep their order.
pub proof fn lemma_sort_stable(s: Seq<ServerRow>, pid: u32)
    ensures
        with_pid(sorted_by_pid(s), pid) == with_pid(s, pid),
    decreases s.len(),
{
    if s.len() > 0 {
        lemma_sort_stable(s.drop_last(), pid);
        lemma_sorted_is_pid_ordered(s.drop_last());
        lemma_insert_stable(sorted_by_pid(s.drop_last()), s.last(), pid);
        s.drop_last().lemma_filter_push(s.last(), |x: ServerRow| x.pid == pid);
        assert(s.drop_last().push(s.last()) =~= s);
    }
}

/// A row is kept by the scsynth choice exactly when it is in the scan and its
/// lowercased name contains `scsynth`.
proof fn lemma_scsynth_only_contains(rows: Seq<ServerRow>, r: ServerRow)
    ensures
        scsynth_only(rows).contains(r) <==> (rows.contains(r) && names_scsynth(
            lowercase_of(r.name@),
        )),
    decreases rows.len(),
{
    if rows.len() > 0 {
        let d = rows.drop_last();
        lemma_scsynth_only_contains(d, r);
        assert(rows =~= d.push(rows.last()));
        if rows.contains(r) && r != rows.last() {
            let i = choose|i: int| 0 <= i < rows.len() && rows[i] == r;
            assert(d[i] == r);
        }
        if d.contains(r) {
            let i = choose|i: int| 0 <= i < d.len() && d[i] == r;
            assert(rows[i] == r);
        }
        if scsynth_only(rows).contains(r) && scsynth_only(rows) != scsynth_only(d) {
            let i = choose|i: int|
                0 <= i < scsynth_only(rows).len() && scsynth_only(rows)[i] == r;
            if i < scsynth_only(d).len() {
                assert(scsynth_only(d)[i] == r);
            }
        }
        if scsynth_only(d).contains(r) {
            let i = choose|i: int| 0 <= i < scsynth_only(d).len() && scsynth_only(d)[i] == r;
            assert(scsynth_only(rows)[i] == r);
        }
        if r == rows.last() && names_scsynth(lowercase_of(r.name@)) {
            assert(scsynth_only(rows)[scsynth_only(d).len() as int] == r);
        }
    }
}

/// The server report lists a row exactly when the scan holds it and its
/// lowercased name contains `scsynth`, and lists the rows in pid order.
pub proof fn lemma_selected_servers(rows: Seq<ServerRow>, r: ServerRow)
    ensures
        selected_servers(rows).contains(r) <==> (rows.contains(r) && names_scsynth(
            lowercase_of(r.name@),
        )),
        pid_ordered(selected_servers(rows)),
{
    broadcast use vstd::seq_lib::group_to_multiset_ensures;

    let c = scsynth_only(rows);
    lemma_scsynth_only_contains(rows, r);
    lemma_sort_permutes(c);
    lemma_sorted_is_pid_ordered(c);
    assert(selected_servers(rows).to_multiset().count(r) == c.to_multiset().count(r));
}

/// Rows that all name scsynth are all kept, in order.
proof fn lemma_scsynth_only_all_match(rows: Seq<ServerRow>)
    requires
        forall|i: int| 0 <= i < rows.len() ==> names_scsynth(lowercase_of(#[trigger] rows[i].name@)),
    ensures
        scsynth_only(rows) == rows,
    decreases rows.len(),
{
    if rows.len() > 0 {
        let d = rows.drop_last();
        assert forall|i: int| 0 <= i < d.len() implies names_scsynth(
            lowercase_of(#[trigger] d[i].name@),
        ) by {
            assert(d[i] == rows[i]);
        }
        lemma_scsynth_only_all_match(d);
        assert(names_scsynth(lowercase_of(rows[rows.len() - 1].name@)));
        assert(d.push(rows.last()) =~= rows);
    }
}

/// Choosing the servers again from the rows already chosen changes nothing.
pub proof fn lemma_select_idempotent(rows: Seq<ServerRow>)
    ensures
        selected_servers(selected_servers(rows)) == selected_servers(rows),
{
    let sel = selected_servers(rows);
    assert forall|i: int| 0 <= i < sel.len() implies names_scsynth(
        lowercase_of(#[trigger] sel[i].name@),
    ) by {
        lemma_selected_servers(rows, sel[i]);
        assert(sel.contains(sel[i]));
    }
    lemma_scsynth_only_all_match(sel);
    lemma_selected_servers(rows, sel[0]);
    lemma_sort_keeps_ordered(sel);
}

/// No two rows of `s` share a pid.
pub open spec fn pids_distinct(s: Seq<ServerRow>) -> bool {
    forall|i: int, j: int| 0 <= i < j < s.len() ==> #[trigger] s[i].pid != #[trigger] s[j].pid
}

/// Dropping the last row keeps the pids in order and distinct.
proof fn lemma_drop_last_ordered_distinct(s: Seq<ServerRow>)
    requires
        s.len() > 0,
    ensures
        pid_ordered(s) ==> pid_ordered(s.drop_last()),
        pids_distinct(s) ==> pids_distinct(s.drop_last()),
{
    let d = s.drop_last();
    assert forall|i: int, j: int| 0 <= i <= j < d.len() implies d[i] == s[i] && d[j] == s[j] by {}
    if pid_ordered(s) {
        assert forall|i: int, j: int| 0 <= i <= j < d.len() implies #[trigger] d[i].pid
            <= #[trigger] d[j].pid by {
            assert(d[i] == s[i] && d[j] == s[j]);
        }
    }
    if pids_distinct(s) {
        assert forall|i: int, j: int| 0 <= i < j < d.len() implies #[trigger] d[i].pid
            != #[trigger] d[j].pid by {
            assert(d[i] == s[i] && d[j] == s[j]);
        }
    }
}

/// Choosing the scsynth rows keeps pids distinct.
proof fn lemma_scsynth_only_distinct(rows: Seq<ServerRow>)
    requires
        pids_distinct(rows),
    ensures
        pids_distinct(scsynth_only(rows)),
    decreases rows.len(),
{
    if rows.len() > 0 {
        let d = rows.drop_last();
        lemma_drop_last_ordered_distinct(rows);
        lemma_scsynth_only_distinct(d);
        let c = scsynth_only(d);
        let r = rows.last();
        if names_scsynth(lowercase_of(r.name@)) {
            let u = c.push(r);
            assert forall|i: int, j: int| 0 <= i < j < u.len() implies #[trigger] u[i].pid
                != #[trigger] u[j].pid by {
                if j == c.len() {
                    lemma_scsynth_only_contains(d, c[i]);
                    assert(c.contains(c[i]));
                    let k = choose|k: int| 0 <= k < d.len() && d[k] == c[i];
                    assert(rows[k] == d[k]);
                    assert(rows[k].pid != rows[rows.len() - 1].pid);
                } else {
                    assert(u[i] == c[i] && u[j] == c[j]);
                }
            }
        }
    }
}

/// Ordering by pid keeps pids distinct.
proof fn lemma_sort_distinct(s: Seq<ServerRow>)
    requires
        pids_distinct(s),
    ensures
        pids_distinct(sorted_by_pid(s)),
    decreases s.len(),
{
    broadcast use vstd::seq_lib::group_to_multiset_ensures;

    if s.len() > 0 {
        let d = s.drop_last();
        let r = s.last();
        lemma_drop_last_ordered_distinct(s);
        lemma_sort_distinct(d);
        lemma_sort_permutes(d);
        let t = sorted_by_pid(d);
        lemma_first_above(t, r.pid);
        let k = first_above(t, r.pid) as int;
        t.insert_ensures(k, r);
        let u = insert_by_pid(t, r);
        assert forall|m: int| 0 <= m < t.len() implies #[trigger] t[m].pid != r.pid by {
            assert(t.to_multiset().count(t[m]) > 0);
            assert(d.to_multiset().count(t[m]) > 0);
            let q = choose|q: int| 0 <= q < d.len() && d[q] == t[m];
            assert(s[q] == d[q]);
            assert(s[q].pid != s[s.len() - 1].pid);
        }
        assert forall|i: int, j: int| 0 <= i < j < u.len() implies #[trigger] u[i].pid
            != #[trigger] u[j].pid by {
            if i < k {
                assert(u[i] == t[i]);
            } else if i > k {
                assert(u[i] == t[i - 1]);
            }
            if j < k {
                assert(u[j] == t[j]);
            } else if j > k {
                assert(u[j] == t[j - 1]);
            }
        }
    }
}

/// Two sequences in pid order, each with distinct pids, that hold the same
/// rows are equal.
proof fn lemma_ordered_rows_unique(s: Seq<ServerRow>, t: Seq<ServerRow>)
    requires
        pid_ordered(s),
        pid_ordered(t),
        pids_distinct(s),
        pids_distinct(t),
        s.to_multiset() == t.to_multiset(),
    ensures
        s == t,
    decreases s.len(),
{
    broadcast use vstd::seq_lib::group_to_multiset_ensures;
    broadcast use vstd::multiset::group_multiset_axioms;

    vstd::seq_lib::to_multiset_len(s);
    vstd::seq_lib::to_multiset_len(t);
    if s.len() == 0 {
        assert(s =~= t);
    } else {
        let n = s.len() as int;
        let x = s.last();
        let y = t.last();
        assert(s.to_multiset().count(x) > 0) by {
            assert(s.contains(x)) by {
                assert(s[n - 1] == x);
            }
        }
        assert(t.to_multiset().count(x) > 0);
        let j = choose|j: int| 0 <= j < t.len() && t[j] == x;
        assert(t.to_multiset().count(y) > 0) by {
            assert(t.contains(y)) by {
                assert(t[n - 1] == y);
            }
        }
        assert(s.to_multiset().count(y) > 0);
        let i = choose|i: int| 0 <= i < s.len() && s[i] == y;
        assert(t[j].pid <= t[n - 1].pid);
        assert(s[i].pid <= s[n - 1].pid);
        if j != n - 1 {
            assert(t[j].pid != t[n - 1].pid);
        }
        assert(x == y);
        let sd = s.drop_last();
        let td = t.drop_last();
        assert(sd.push(x) =~= s);
        assert(td.push(x) =~= t);
        assert(sd.to_multiset().insert(x) == td.to_multiset().insert(x));
        assert(sd.to_multiset() =~= td.to_multiset()) by {
            assert forall|e: ServerRow| sd.to_multiset().count(e) == td.to_multiset().count(e) by {
                assert(sd.to_multiset().insert(x).count(e) == td.to_multiset().insert(x).count(
                    e,
                ));
            }
        }
        lemma_drop_last_ordered_distinct(s);
        lemma_drop_last_ordered_distinct(t);
        lemma_ordered_rows_unique(sd, td);
    }
}

/// The server report does not depend on the order of the scan, nor on the
/// processes that are not scsynth: two scans with distinct pids whose scsynth
/// rows are the same rows (in any order) list the same servers in the same
/// order, and so give the same report and the same logged lines.
pub proof fn lemma_selection_ignores_scan_order_and_others(
    a: Seq<ServerRow>,
    b: Seq<ServerRow>,
    cpu_count: nat,
)
    requires
        pids_distinct(a),
        pids_distinct(b),
        scsynth_only(a).to_multiset() == scsynth_only(b).to_multiset(),
    ensures
        selected_servers(a) == selected_servers(b),
        servers_text(selected_servers(a), cpu_count) == servers_text(
            selected_servers(b),
            cpu_count,
        ),
{
    let ca = scsynth_only(a);
    let cb = scsynth_only(b);
    lemma_scsynth_only_distinct(a);
    lemma_scsynth_only_distinct(b);
    lemma_sort_distinct(ca);
    lemma_sort_distinct(cb);
    lemma_sort_permutes(ca);
    lemma_sort_permutes(cb);
    lemma_sorted_is_pid_ordered(ca);
    lemma_sorted_is_pid_ordered(cb);
    lemma_ordered_rows_unique(sorted_by_pid(ca), sorted_by_pid(cb));
}

/// Every server line begins with `pid=`, the decimal rendering of the row's
/// full pid, ` name=`, the row's name and ` rss=`.
pub proof fn lemma_line_starts_with_pid_and_name(r: ServerRow)
    ensures
        ({
            let head = "pid="@ + decimal(r.pid as nat) + " name="@ + r.name@ + " rss="@;
            &&& line_text(r).len() >= head.len()
            &&& line_text(r).subrange(0, head.len() as int) == head
        }),
{
    let head = "pid="@ + decimal(r.pid as nat) + " name="@ + r.name@ + " rss="@;
    let rest = r.rss_mib@ + " MiB vsize="@ + r.vsize_mib@ + " MiB cpu~="@ + r.cpu_norm_pct@
        + "% (of one core, est.) cpu_raw="@ + r.cpu_raw_pct@ + "% uptime="@ + decimal(
        r.run_s as nat,
    ) + "s "@ + disk_text(r.disk);
    assert(line_text(r) =~= head + rest);
    assert((head + rest).subrange(0, head.len() as int) =~= head);
}

/// Rows with different pids get different server lines.
pub proof fn lemma_lines_tell_pids_apart(r1: ServerRow, r2: ServerRow)
    requires
        r1.pid != r2.pid,
    ensures
        line_text(r1) != line_text(r2),
{
    lemma_line_starts_with_pid_and_name(r1);
    lemma_line_starts_with_pid_and_name(r2);
    crate::text::lemma_decimal_injective(r1.pid as nat, r2.pid as nat);
    crate::text::lemma_decimal_denotes(r1.pid as nat);
    crate::text::lemma_decimal_denotes(r2.pid as nat);
    if line_text(r1) == line_text(r2) {
        let l = line_text(r1);
        let d1 = decimal(r1.pid as nat);
        let d2 = decimal(r2.pid as nat);
        reveal_strlit("pid=");
        reveal_strlit(" name=");
        // the digits of the pid run from index 4 up to the first non-digit
        if d1.len() < d2.len() {
            assert(l[(4 + d1.len()) as int] == ' ');
            assert(l[(4 + d1.len()) as int] == d2[d1.len() as int]);
        } else if d2.len() < d1.len() {
            assert(l[(4 + d2.len()) as int] == ' ');
            assert(l[(4 + d2.len()) as int] == d1[d2.len() as int]);
        } else {
            assert(d1 =~= d2) by {
                assert forall|i: int| 0 <= i < d1.len() implies d1[i] == d2[i] by {
                    assert(l[4 + i] == d1[i]);
                    assert(l[4 + i] == d2[i]);
                }
            }
        }
    }
}

} // verus!
