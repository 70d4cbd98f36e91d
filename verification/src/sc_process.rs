//! Recognising SuperCollider processes (scsynth, sclang) by name and
//! rendering the presence report of a process scan (no OSC).
use vstd::prelude::*;

use crate::text::{contains_text, decimal, join, push_decimal, text_contains, texts};

verus! {

/// What `str::to_lowercase` returns for a string: its Unicode lowercase mapping.
pub uninterp spec fn lowercase_of(s: Seq<char>) -> Seq<char>;

/// Calls `str::to_lowercase`. Trusted: the result is the lowercase mapping of
/// the argument, named `lowercase_of` because the Unicode case tables it
/// follows take pages to state; nothing further is claimed of it.
#[verifier::external_body]
pub(crate) fn to_lowercase(s: &str) -> (res: String)
    ensures
        res@ == lowercase_of(s@),
{
    s.to_lowercase()
}

/// A lowercased process name names the SuperCollider audio server.
pub open spec fn names_scsynth(name_lower: Seq<char>) -> bool {
    contains_text(name_lower, "scsynth"@)
}

/// A lowercased process name names the SuperCollider language interpreter.
pub open spec fn names_sclang(name_lower: Seq<char>) -> bool {
    contains_text(name_lower, "sclang"@)
}

/// Whether the lowercased process name contains `scsynth`.
pub fn is_scsynth(name_lower: &str) -> (b: bool)
    ensures
        b == names_scsynth(name_lower@),
{
    text_contains(name_lower, "scsynth")
}

/// Whether the lowercased process name contains `sclang`.
pub fn is_sclang(name_lower: &str) -> (b: bool)
    ensures
        b == names_sclang(name_lower@),
{
    text_contains(name_lower, "sclang")
}

/// A running process as a scan sees it: its id and its display name.
#[derive(Clone, Debug)]
pub struct ProcessEntry {
    pub pid: u32,
    pub name: String,
}

/// `pid <pid> (<name>)`, the way the presence report lists a process.
pub open spec fn label(pid: u32, name: Seq<char>) -> Seq<char> {
    "pid "@ + decimal(pid as nat) + " ("@ + name + ")"@
}

/// The labels, in scan order, of the processes whose lowercased name contains `needle`.
pub open spec fn matching_labels(procs: Seq<ProcessEntry>, needle: Seq<char>) -> Seq<Seq<char>>
    decreases procs.len(),
{
    if procs.len() == 0 {
        Seq::empty()
    } else {
        let rest = matching_labels(procs.drop_last(), needle);
        let p = procs.last();
        if contains_text(lowercase_of(p.name@), needle) {
            rest.push(label(p.pid, p.name@))
        } else {
            rest
        }
    }
}

/// The presence report for the given scsynth and sclang labels.
pub open spec fn probe_text(scsynth: Seq<Seq<char>>, sclang: Seq<Seq<char>>) -> Seq<char> {
    "SuperCollider on this machine (process scan, not OSC):\n"@ + (if scsynth.len() == 0 {
        "- scsynth: not found (audio server likely not running under that name)\n"@
    } else {
        "- scsynth: running — "@ + join(scsynth, ", "@) + "\n"@
    }) + (if sclang.len() == 0 {
        "- sclang: not found\n"@
    } else {
        "- sclang: running — "@ + join(sclang, ", "@) + "\n"@
    }) + "- supercollider-mcp: running\n"@
}

/// The presence report of a scan: which scsynth and sclang processes run.
pub open spec fn probe_report_text(procs: Seq<ProcessEntry>) -> Seq<char> {
    probe_text(matching_labels(procs, "scsynth"@), matching_labels(procs, "sclang"@))
}

/// Renders `pid <pid> (<name>)`.
pub fn process_label(pid: u32, name: &str) -> (s: String)
    ensures
        s@ == label(pid, name@),
{
    let mut s = String::new();
    s.append("pid ");
    push_decimal(&mut s, pid as u64);
    s.append(" (");
    s.append(name);
    s.append(")");
    assert(s@ =~= label(pid, name@));
    s
}

/// Renders the presence report from the labels of the scsynth and sclang processes found.
pub fn probe_report_from_labels(scsynth: &Vec<String>, sclang: &Vec<String>) -> (report: String)
    ensures
        report@ == probe_text(texts(scsynth@), texts(sclang@)),
{
    let mut out = String::new();
    out.append("SuperCollider on this machine (process scan, not OSC):\n");
    if scsynth.len() == 0 {
        out.append("- scsynth: not found (audio server likely not running under that name)\n");
    } else {
        let joined = crate::text::join_strings(scsynth, ", ");
        out.append("- scsynth: running — ");
        out.append(joined.as_str());
        out.append("\n");
    }
    if sclang.len() == 0 {
        out.append("- sclang: not found\n");
    } else {
        let joined = crate::text::join_strings(sclang, ", ");
        out.append("- sclang: running — ");
        out.append(joined.as_str());
        out.append("\n");
    }
    out.append("- supercollider-mcp: running\n");
    assert(out@ =~= probe_text(texts(scsynth@), texts(sclang@)));
    out
}

/// Renders the presence report of a scan: each process is classified by its
/// lowercased name.
pub fn probe_report(procs: &Vec<ProcessEntry>) -> (report: String)
    ensures
        report@ == probe_report_text(procs@),
{
    let mut scsynth: Vec<String> = Vec::new();
    let mut sclang: Vec<String> = Vec::new();
    let n = procs.len();
    let mut i: usize = 0;
    while i < n
        invariant
            n == procs@.len(),
            i <= n,
            texts(scsynth@) == matching_labels(procs@.take(i as int), "scsynth"@),
            texts(sclang@) == matching_labels(procs@.take(i as int), "sclang"@),
        decreases n - i,
    {
        let p = &procs[i];
        let lower = to_lowercase(p.name.as_str());
        let ghost prefix = procs@.take(i + 1);
        assert(prefix.drop_last() =~= procs@.take(i as int));
        assert(prefix.last() == procs@[i as int]);
        let ghost old_sc = scsynth@;
        let ghost old_cl = sclang@;
        if is_scsynth(lower.as_str()) {
            let l = process_label(p.pid, p.name.as_str());
            scsynth.push(l);
            assert(texts(scsynth@) =~= texts(old_sc).push(label(p.pid, p.name@)));
        }
        if is_sclang(lower.as_str()) {
            let l = process_label(p.pid, p.name.as_str());
            sclang.push(l);
            assert(texts(sclang@) =~= texts(old_cl).push(label(p.pid, p.name@)));
        }
        i = i + 1;
    }
    assert(procs@.take(n as int) =~= procs@);
    probe_report_from_labels(&scsynth, &sclang)
}

/// No label is listed for `needle` exactly when no process's lowercased name
/// contains it (so the report says "not found" exactly then).
pub proof fn lemma_no_labels_iff_no_match(procs: Seq<ProcessEntry>, needle: Seq<char>)
    ensures
        matching_labels(procs, needle).len() == 0 <==> (forall|i: int|
            0 <= i < procs.len() ==> !contains_text(lowercase_of(#[trigger] procs[i].name@), needle)),
    decreases procs.len(),
{
    if procs.len() > 0 {
        let d = procs.drop_last();
        lemma_no_labels_iff_no_match(d, needle);
        if matching_labels(procs, needle).len() == 0 {
            assert forall|i: int| 0 <= i < procs.len() implies !contains_text(
                lowercase_of(#[trigger] procs[i].name@),
                needle,
            ) by {
                if i < d.len() {
                    assert(procs[i] == d[i]);
                }
            }
        } else if matching_labels(d, needle).len() != 0 {
            let i = choose|i: int|
                0 <= i < d.len() && contains_text(lowercase_of(#[trigger] d[i].name@), needle);
            assert(procs[i] == d[i]);
        } else {
            assert(contains_text(lowercase_of(procs[procs.len() - 1].name@), needle));
        }
    }
}

/// Whatever the scan found, the presence report starts with its heading and
/// ends by confirming that this MCP server is running.
pub proof fn lemma_probe_confirms_server(procs: Seq<ProcessEntry>)
    ensures
        ({
            let t = probe_report_text(procs);
            let head = "SuperCollider on this machine (process scan, not OSC):\n"@;
            let tail = "- supercollider-mcp: running\n"@;
            &&& t.len() >= head.len() + tail.len()
            &&& t.subrange(0, head.len() as int) == head
            &&& t.subrange(t.len() - tail.len(), t.len() as int) == tail
        }),
{
    let head = "SuperCollider on this machine (process scan, not OSC):\n"@;
    let tail = "- supercollider-mcp: running\n"@;
    let sc = matching_labels(procs, "scsynth"@);
    let cl = matching_labels(procs, "sclang"@);
    let mid1 = if sc.len() == 0 {
        "- scsynth: not found (audio server likely not running under that name)\n"@
    } else {
        "- scsynth: running — "@ + join(sc, ", "@) + "\n"@
    };
    let mid2 = if cl.len() == 0 {
        "- sclang: not found\n"@
    } else {
        "- sclang: running — "@ + join(cl, ", "@) + "\n"@
    };
    let t = probe_report_text(procs);
    assert(t == head + mid1 + mid2 + tail);
    assert(t.subrange(0, head.len() as int) =~= head);
    assert(t.subrange(t.len() - tail.len(), t.len() as int) =~= tail);
}

/// The processes of a scan, in scan order, whose lowercased name contains `needle`.
pub open spec fn matching_processes(procs: Seq<ProcessEntry>, needle: Seq<char>) -> Seq<
    ProcessEntry,
> {
    procs.filter(|p: ProcessEntry| contains_text(lowercase_of(p.name@), needle))
}

/// A report list names each matching process once, in scan order, as
/// `pid <pid> (<name>)`: its labels are exactly those of the matching
/// processes, so it has one label per matching process (processes with the
/// same name included), and each matching process's label is in it.
pub proof fn lemma_labels_list_every_match(procs: Seq<ProcessEntry>, needle: Seq<char>)
    ensures
        matching_labels(procs, needle) == matching_processes(procs, needle).map_values(
            |p: ProcessEntry| label(p.pid, p.name@),
        ),
        matching_labels(procs, needle).len() == matching_processes(procs, needle).len(),
        forall|i: int|
            0 <= i < procs.len() && contains_text(lowercase_of(#[trigger] procs[i].name@), needle)
                ==> matching_labels(procs, needle).contains(label(procs[i].pid, procs[i].name@)),
    decreases procs.len(),
{
    let pred = |p: ProcessEntry| contains_text(lowercase_of(p.name@), needle);
    let f = |p: ProcessEntry| label(p.pid, p.name@);
    if procs.len() == 0 {
        reveal_with_fuel(Seq::filter, 1);
        assert(matching_labels(procs, needle) =~= matching_processes(procs, needle).map_values(f));
    } else {
        let d = procs.drop_last();
        let x = procs.last();
        lemma_labels_list_every_match(d, needle);
        assert(d.push(x) =~= procs);
        d.lemma_filter_push(x, pred);
        let fd = d.filter(pred);
        if pred(x) {
            assert(fd.push(x).map_values(f) =~= fd.map_values(f).push(f(x)));
        }
        assert(matching_labels(procs, needle) =~= matching_processes(procs, needle).map_values(f));
    }
    let m = matching_processes(procs, needle);
    assert forall|i: int|
        0 <= i < procs.len() && contains_text(lowercase_of(#[trigger] procs[i].name@), needle)
            implies matching_labels(procs, needle).contains(label(procs[i].pid, procs[i].name@)) by {
        assert(pred(procs[i]));
        procs.lemma_filter_contains(pred, i);
        let k = choose|k: int| 0 <= k < m.len() && m[k] == procs[i];
        assert(m.map_values(f)[k] == label(procs[i].pid, procs[i].name@));
    }
}

/// The presence report lists, for scsynth and for sclang, the label of every
/// matching process of the scan, in scan order.
pub proof fn lemma_probe_lists_every_match(procs: Seq<ProcessEntry>)
    ensures
        probe_report_text(procs) == probe_text(
            matching_processes(procs, "scsynth"@).map_values(
                |p: ProcessEntry| label(p.pid, p.name@),
            ),
            matching_processes(procs, "sclang"@).map_values(
                |p: ProcessEntry| label(p.pid, p.name@),
            ),
        ),
{
    lemma_labels_list_every_match(procs, "scsynth"@);
    lemma_labels_list_every_match(procs, "sclang"@);
}

} // verus!
