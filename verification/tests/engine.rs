use ip_sniffer::partition::assign_ports;
use ip_sniffer::report::build_report;
use ip_sniffer::target::{ScanAddress, ScanError, ScanTarget, DEFAULT_WORKER_COUNT, HIGHEST_PORT};

fn loopback() -> ScanAddress {
    ScanAddress::V4(127, 0, 0, 1)
}

#[test]
fn stride_of_first_worker() {
    let ports = assign_ports(0, 4, 1024);
    assert_eq!(ports.len(), 256);
    assert_eq!(ports[0], 1);
    assert_eq!(ports[1], 5);
    assert_eq!(ports[255], 1021);
}

#[test]
fn stride_covers_top_port() {
    let ports = assign_ports(3, 4, 1024);
    assert_eq!(ports.len(), 256);
    assert_eq!(ports[0], 4);
    assert_eq!(ports[255], 1024);
}

#[test]
fn partition_of_small_range() {
    assert_eq!(assign_ports(0, 3, 10), vec![1, 4, 7, 10]);
    assert_eq!(assign_ports(1, 3, 10), vec![2, 5, 8]);
    assert_eq!(assign_ports(2, 3, 10), vec![3, 6, 9]);
}

#[test]
fn partition_is_complete_and_disjoint_by_hand() {
    let mut seen = vec![0u32; 1025];
    for wi in 0..7u16 {
        for p in assign_ports(wi, 7, 1024) {
            seen[p as usize] += 1;
        }
    }
    assert_eq!(seen[0], 0);
    for p in 1..=1024usize {
        assert_eq!(seen[p], 1);
    }
}

#[test]
fn more_workers_than_ports() {
    assert_eq!(assign_ports(0, 8, 3), vec![1]);
    assert_eq!(assign_ports(2, 8, 3), vec![3]);
    assert_eq!(assign_ports(5, 8, 3), Vec::<u16>::new());
}

#[test]
fn degenerate_single_port_range() {
    assert_eq!(assign_ports(0, 1, 1), vec![1]);
}

#[test]
fn stride_length_within_termination_bound() {
    for wc in [1u16, 3, 4, 7, 1000, 2000] {
        for wi in [0u16, wc - 1] {
            let len = assign_ports(wi, wc, 1024).len();
            let ceil = (1024 + wc as usize - 1) / wc as usize;
            assert!(len <= ceil);
        }
    }
}

#[test]
fn report_sorts_ascending() {
    assert_eq!(build_report(&vec![500, 3, 80]), vec![3, 80, 500]);
}

#[test]
fn report_keeps_every_finding() {
    assert_eq!(build_report(&vec![5, 5, 1]), vec![1, 5, 5]);
}

#[test]
fn empty_scan_reports_nothing() {
    assert_eq!(build_report(&Vec::new()), Vec::<u16>::new());
}

#[test]
fn single_worker_finds_known_port() {
    // One worker, one listening port within range: the report holds exactly
    // that port. The probe outcome is played by a membership check.
    let open = [80u16];
    let mut findings: Vec<u16> = Vec::new();
    for p in assign_ports(0, 1, HIGHEST_PORT) {
        if open.contains(&p) {
            findings.push(p);
        }
    }
    assert_eq!(build_report(&findings), vec![80]);
}

#[test]
fn scaling_reports_agree() {
    // The same target probed with 1 worker and with 8 workers, the latter in
    // two different completion interleavings: identical reports.
    let open = [22u16, 80, 443];
    let probe = |wi: u16, wc: u16| -> Vec<u16> {
        assign_ports(wi, wc, HIGHEST_PORT)
            .into_iter()
            .filter(|p| open.contains(p))
            .collect()
    };
    let single: Vec<u16> = probe(0, 1);
    let mut forward: Vec<u16> = Vec::new();
    for wi in 0..8u16 {
        forward.extend(probe(wi, 8));
    }
    let mut backward: Vec<u16> = Vec::new();
    for wi in (0..8u16).rev() {
        backward.extend(probe(wi, 8));
    }
    let r1 = build_report(&single);
    let r2 = build_report(&forward);
    let r3 = build_report(&backward);
    assert_eq!(r1, vec![22, 80, 443]);
    assert_eq!(r1, r2);
    assert_eq!(r1, r3);
}

#[test]
fn rejects_zero_workers() {
    assert_eq!(ScanTarget::new(loopback(), 0), Err(ScanError::InvalidTarget));
}

#[test]
fn accepts_default_worker_count() {
    let target = ScanTarget::new(loopback(), DEFAULT_WORKER_COUNT).unwrap();
    assert_eq!(target.address, loopback());
    assert_eq!(target.worker_count, 4);
    assert_eq!(target.highest_port, 1024);
}

#[test]
fn worker_ports_follow_the_stride() {
    let target = ScanTarget::new(ScanAddress::V6(0, 0, 0, 0, 0, 0, 0, 1), 512).unwrap();
    assert_eq!(target.worker_ports(0), vec![1, 513]);
    assert_eq!(target.worker_ports(511), vec![512, 1024]);
}
