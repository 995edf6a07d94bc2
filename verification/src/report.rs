//! Fan-in of the workers' findings into the final sorted report.

use vstd::prelude::*;

verus! {

/// The sequence is ascending (duplicates allowed).
pub open spec fn sorted(s: Seq<u16>) -> bool {
    forall|x: int, y: int| 0 <= x < y < s.len() ==> s[x] <= s[y]
}

/// The sequence is strictly ascending: sorted and free of duplicates.
pub open spec fn strictly_ascending(s: Seq<u16>) -> bool {
    forall|x: int, y: int| 0 <= x < y < s.len() ==> s[x] < s[y]
}

/// Builds the final report from the findings the coordinator drained, in
/// whatever order the workers delivered them: the report holds exactly the
/// findings, sorted ascending by port number. When no port was found twice —
/// which the disjoint partition guarantees of a real scan — the report is
/// strictly ascending.
pub fn build_report(findings: &Vec<u16>) -> (report: Vec<u16>)
    ensures
        sorted(report@),
        report@.to_multiset() == findings@.to_multiset(),
        report@.len() == findings@.len(),
        findings@.no_duplicates() ==> strictly_ascending(report@),
{
    let mut report: Vec<u16> = Vec::new();
    let mut idx: usize = 0;
    proof {
        broadcast use vstd::seq_lib::group_to_multiset_ensures;
        assert(findings@.subrange(0, 0) =~= Seq::<u16>::empty());
        assert(report@.to_multiset() =~= findings@.subrange(0, 0).to_multiset());
    }
    while idx < findings.len()
        invariant
            idx <= findings@.len(),
            sorted(report@),
            report@.to_multiset() == findings@.subrange(0, idx as int).to_multiset(),
        decreases findings@.len() - idx,
    {
        let x = findings[idx];
        let mut pos: usize = 0;
        while pos < report.len() && report[pos] <= x
            invariant
                pos <= report@.len(),
                forall|k: int| 0 <= k < pos ==> report@[k] <= x,
            decreases report@.len() - pos,
        {
            pos = pos + 1;
        }
        proof {
            let s = report@;
            s.insert_ensures(pos as int, x);
            assert forall|a: int, b: int| 0 <= a < b < s.insert(pos as int, x).len()
                implies s.insert(pos as int, x)[a] <= s.insert(pos as int, x)[b] by {
                let t = s.insert(pos as int, x);
                if b < pos {
                    assert(t[a] == s[a] && t[b] == s[b]);
                } else if a > pos {
                    assert(t[a] == s[a - 1] && t[b] == s[b - 1]);
                } else if a < pos && b == pos {
                    assert(t[a] == s[a] && t[b] == x);
                } else if a == pos && b > pos {
                    assert(t[a] == x && t[b] == s[b - 1]);
                    assert(s[pos as int] <= s[b - 1]);
                } else {
                    assert(a < pos && b > pos);
                    assert(t[a] == s[a] && t[b] == s[b - 1]);
                    assert(s[pos as int] <= s[b - 1]);
                }
            }
            broadcast use vstd::seq_lib::group_to_multiset_ensures;
            assert(findings@.subrange(0, idx as int + 1)
                =~= findings@.subrange(0, idx as int).push(findings@[idx as int]));
            vstd::seq_lib::to_multiset_insert(s, pos as int, x);
        }
        report.insert(pos, x);
        idx = idx + 1;
    }
    proof {
        assert(findings@.subrange(0, findings@.len() as int) =~= findings@);
        vstd::seq_lib::to_multiset_len(report@);
        vstd::seq_lib::to_multiset_len(findings@);
        if findings@.no_duplicates() {
            lemma_same_multiset_no_duplicates(findings@, report@);
            lemma_sorted_no_duplicates_strict(report@);
        }
    }
    report
}

/// A sequence that shares its multiset with a duplicate-free one is itself
/// duplicate-free.
pub proof fn lemma_same_multiset_no_duplicates(a: Seq<u16>, b: Seq<u16>)
    requires
        a.no_duplicates(),
        a.to_multiset() == b.to_multiset(),
    ensures
        b.no_duplicates(),
{
    a.lemma_multiset_has_no_duplicates();
    b.lemma_multiset_has_no_duplicates_conv();
}

/// An ascending sequence without duplicates is strictly ascending.
pub proof fn lemma_sorted_no_duplicates_strict(s: Seq<u16>)
    requires
        sorted(s),
        s.no_duplicates(),
    ensures
        strictly_ascending(s),
{
}

/// What it means for a report to be the right answer for one scan: it lists,
/// strictly ascending, exactly the open ports that some worker probed.
/// `open` is the set of ports on which a connect attempt succeeds.
pub open spec fn is_report_of(report: Seq<u16>, worker_count: int, highest_port: int, open: Set<u16>) -> bool {
    &&& strictly_ascending(report)
    &&& forall|p: u16| report.contains(p) <==>
        (crate::partition::covered(worker_count, highest_port, p as int) && open.contains(p))
}

/// Fan-in correctness: when the drained findings hold, once each, exactly the
/// open ports that some worker probed — no matter in which interleaving the
/// workers delivered them — sorting them yields the scan's report.
pub proof fn lemma_report_correct(
    findings: Seq<u16>,
    report: Seq<u16>,
    worker_count: int,
    highest_port: int,
    open: Set<u16>,
)
    requires
        findings.no_duplicates(),
        sorted(report),
        report.to_multiset() == findings.to_multiset(),
        forall|p: u16| findings.contains(p) <==>
            (crate::partition::covered(worker_count, highest_port, p as int) && open.contains(p)),
    ensures
        is_report_of(report, worker_count, highest_port, open),
{
    lemma_same_multiset_no_duplicates(findings, report);
    lemma_sorted_no_duplicates_strict(report);
    assert forall|p: u16| report.contains(p) <==> findings.contains(p) by {
        vstd::seq_lib::to_multiset_contains(findings, p);
        vstd::seq_lib::to_multiset_contains(report, p);
    }
}

/// The report's range invariant: every port a scan reports lies within
/// `(0, highest_port]`, and none appears twice.
pub proof fn lemma_report_in_range(
    report: Seq<u16>,
    worker_count: int,
    highest_port: int,
    open: Set<u16>,
)
    requires
        is_report_of(report, worker_count, highest_port, open),
    ensures
        forall|k: int| 0 <= k < report.len() ==> 1 <= #[trigger] (report[k] as int) <= highest_port,
        report.no_duplicates(),
{
    assert forall|k: int| 0 <= k < report.len()
        implies 1 <= #[trigger] (report[k] as int) <= highest_port by {
        let p = report[k];
        assert(report.contains(p));
        let wi = choose|wi: int| 0 <= wi < worker_count
            && crate::partition::assigned(wi, worker_count, highest_port, p as int);
        assert(1 <= p as int <= highest_port);
    }
}

/// Two strictly ascending sequences that hold the same ports are equal.
pub proof fn lemma_strictly_ascending_unique(a: Seq<u16>, b: Seq<u16>)
    requires
        strictly_ascending(a),
        strictly_ascending(b),
        forall|p: u16| a.contains(p) <==> b.contains(p),
    ensures
        a == b,
{
    let leq = (|x: u16, y: u16| x <= y);
    assert(a.no_duplicates());
    assert(b.no_duplicates());
    a.lemma_multiset_has_no_duplicates();
    b.lemma_multiset_has_no_duplicates();
    assert forall|p: u16| a.to_multiset().count(p) == b.to_multiset().count(p) by {
        vstd::seq_lib::to_multiset_contains(a, p);
        vstd::seq_lib::to_multiset_contains(b, p);
        if a.contains(p) {
            assert(a.to_multiset().contains(p));
            assert(b.to_multiset().contains(p));
        }
    }
    assert(a.to_multiset() =~= b.to_multiset());
    assert(vstd::relations::sorted_by(a, leq));
    assert(vstd::relations::sorted_by(b, leq));
    assert(vstd::relations::total_ordering(leq));
    vstd::seq_lib::lemma_sorted_unique(a, b, leq);
    assert(a =~= b);
}

/// Concurrency scaling: whatever two worker counts the same target is scanned
/// with, the reports agree — the degree of parallelism never changes the
/// result.
pub proof fn lemma_scaling(
    r1: Seq<u16>,
    r2: Seq<u16>,
    w1: int,
    w2: int,
    highest_port: int,
    open: Set<u16>,
)
    requires
        w1 >= 1,
        w2 >= 1,
        is_report_of(r1, w1, highest_port, open),
        is_report_of(r2, w2, highest_port, open),
    ensures
        r1 == r2,
{
    crate::partition::lemma_partition_complete(w1, highest_port);
    crate::partition::lemma_partition_complete(w2, highest_port);
    assert forall|p: u16| r1.contains(p) <==> r2.contains(p) by {
        assert(crate::partition::covered(w1, highest_port, p as int)
            <==> 1 <= p as int <= highest_port);
        assert(crate::partition::covered(w2, highest_port, p as int)
            <==> 1 <= p as int <= highest_port);
    }
    lemma_strictly_ascending_unique(r1, r2);
}

} // verus!
