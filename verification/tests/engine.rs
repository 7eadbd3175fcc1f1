use port_sniffer::cli::{parse_command, parse_ports, Command};
use port_sniffer::engine::{merge_open_ports, scan, BatchScan, ProbeState, ScanResult};
use port_sniffer::plan::{partition, port_sequence};
use port_sniffer::portset::PortSet;
use port_sniffer::progress::Tally;
use port_sniffer::report::report;
use std::sync::Mutex;

#[test]
fn batch_hands_out_its_ports_in_order() {
    let mut batch = BatchScan::new(vec![9999, 22, 80]);
    let mut handed_out = Vec::new();
    while let Some(port) = batch.next_port() {
        handed_out.push(port);
        batch.record(false);
    }
    assert_eq!(handed_out, vec![9999, 22, 80]);
    assert!(batch.is_done());
    assert_eq!(batch.next_port(), None);
}

#[test]
fn batch_keeps_the_ports_that_connected() {
    let mut batch = BatchScan::new(vec![22, 80, 9999, 443]);
    assert_eq!(batch.next_port(), Some(22));
    batch.record(false);
    assert_eq!(batch.next_port(), Some(80));
    batch.record(true);
    assert_eq!(batch.next_port(), Some(9999));
    assert!(!batch.is_done());
    batch.record(false);
    assert_eq!(batch.next_port(), Some(443));
    batch.record(true);
    assert!(batch.is_done());
    assert_eq!(batch.into_open_ports(), vec![80, 443]);
}

#[test]
fn batch_port_is_not_handed_out_again_after_its_outcome() {
    let mut batch = BatchScan::new(vec![80, 81]);
    assert_eq!(batch.next_port(), Some(80));
    assert_eq!(batch.next_port(), Some(80));
    batch.record(false);
    assert_eq!(batch.next_port(), Some(81));
    batch.record(true);
    assert_eq!(batch.next_port(), None);
    assert_eq!(batch.next_port(), None);
}

#[test]
fn probe_goes_from_pending_to_connecting_to_its_end() {
    let mut batch = BatchScan::new(vec![22, 80, 443]);
    assert_eq!(batch.state(0), ProbeState::Pending);
    assert_eq!(batch.state(1), ProbeState::Pending);
    assert_eq!(batch.next_port(), Some(22));
    assert_eq!(batch.state(0), ProbeState::Connecting);
    assert_eq!(batch.state(1), ProbeState::Pending);
    batch.record(false);
    assert_eq!(batch.state(0), ProbeState::Closed);
    assert_eq!(batch.state(1), ProbeState::Pending);
    assert_eq!(batch.next_port(), Some(80));
    assert_eq!(batch.state(1), ProbeState::Connecting);
    batch.record(true);
    assert_eq!(batch.state(0), ProbeState::Closed);
    assert_eq!(batch.state(1), ProbeState::Open);
    assert_eq!(batch.state(2), ProbeState::Pending);
}

#[test]
fn probe_that_has_ended_stays_as_it_ended() {
    let mut batch = BatchScan::new(vec![1, 2, 3]);
    batch.next_port();
    batch.record(true);
    batch.next_port();
    batch.record(false);
    batch.next_port();
    assert_eq!(batch.state(0), ProbeState::Open);
    assert_eq!(batch.state(1), ProbeState::Closed);
    batch.record(true);
    assert_eq!(batch.next_port(), None);
    assert_eq!(batch.state(0), ProbeState::Open);
    assert_eq!(batch.state(1), ProbeState::Closed);
    assert_eq!(batch.state(2), ProbeState::Open);
}

#[test]
fn empty_batch_is_done_at_once() {
    let mut batch = BatchScan::new(Vec::new());
    assert!(batch.is_done());
    assert_eq!(batch.next_port(), None);
    assert_eq!(batch.into_open_ports(), Vec::<u16>::new());
}

#[test]
fn unfinished_batch_gives_what_it_has() {
    let mut batch = BatchScan::new(vec![1, 2, 3]);
    batch.next_port();
    batch.record(true);
    batch.next_port();
    assert_eq!(batch.into_open_ports(), vec![1]);
}

#[test]
fn batch_with_a_repeated_port_keeps_each_outcome() {
    let mut batch = BatchScan::new(vec![80, 80, 80]);
    batch.next_port();
    batch.record(false);
    batch.next_port();
    batch.record(true);
    batch.next_port();
    batch.record(true);
    assert_eq!(batch.into_open_ports(), vec![80, 80]);
}

#[test]
fn findings_of_batches_are_put_together() {
    let mut found = vec![8080u16];
    merge_open_ports(&mut found, vec![22, 80]);
    merge_open_ports(&mut found, Vec::new());
    merge_open_ports(&mut found, vec![443]);
    assert_eq!(found, vec![8080, 22, 80, 443]);
}

#[test]
fn result_is_sorted_ascending() {
    let result = ScanResult::new(&vec![8080, 22, 443, 80], 5);
    assert_eq!(result.open_ports(), &vec![22, 80, 443, 8080]);
    assert_eq!(result.elapsed_secs(), 5);
}

#[test]
fn result_holds_each_port_once() {
    let result = ScanResult::new(&vec![80, 22, 80, 80, 22], 0);
    assert_eq!(result.open_ports(), &vec![22, 80]);
}

#[test]
fn result_keeps_the_ends_of_the_range() {
    let result = ScanResult::new(&vec![65535, 0, 1, 65534], 0);
    assert_eq!(result.open_ports(), &vec![0, 1, 65534, 65535]);
}

#[test]
fn port_set_lists_its_ports_ascending() {
    let mut set = PortSet::new();
    assert!(!set.contains(80));
    set.insert(80);
    set.insert(22);
    set.insert(80);
    assert!(set.contains(80));
    assert!(set.contains(22));
    assert!(!set.contains(23));
    assert_eq!(set.to_ascending(), vec![22, 80]);
    assert_eq!(PortSet::from_ports(&vec![3, 1, 2, 3]).to_ascending(), vec![1, 2, 3]);
    assert_eq!(PortSet::new().to_ascending(), Vec::<u16>::new());
}

/// The ports that the command line asks to scan on `127.0.0.1`.
fn ports_asked_for(list: &str) -> Option<Vec<u16>> {
    let args: Vec<String> =
        ["sniffer", "-s", "127.0.0.1", "-p", list].iter().map(|arg| arg.to_string()).collect();
    match parse_command(&args) {
        Command::Scan { target, ports } => {
            assert_eq!(target, "127.0.0.1");
            ports
        }
        other => panic!("not a scan: {:?}", other),
    }
}

#[test]
fn scan_finds_the_one_listener() {
    let ports = ports_asked_for("22,80,9999");
    assert_eq!(ports, Some(vec![22, 80, 9999]));
    let run = scan(ports, &vec![80], 0);
    assert_eq!(run.result.open_ports(), &vec![80]);
    assert_eq!(run.probed, vec![22, 80, 9999]);
    let text = report(&run.result);
    assert_eq!(
        text,
        "\nScan completed in 0m 0s\nSTATE\tPORT\tPROTOCOL\nOPEN\t80\tTCP\n\nFound 1 open ports\n"
    );
    assert_eq!(text.matches("OPEN\t").count(), 1);
}

#[test]
fn scan_of_closed_ports_finds_nothing() {
    let run = scan(ports_asked_for("1,2,3"), &Vec::new(), 1);
    assert_eq!(run.probed, vec![1, 2, 3]);
    assert!(run.result.open_ports().is_empty());
    assert_eq!(run.completed, 3);
    assert_eq!(report(&run.result), "\nScan completed in 0m 1s\nNo open ports found.\n");
}

#[test]
fn scan_of_an_empty_list_probes_nothing() {
    let run = scan(Some(Vec::new()), &vec![22, 80], 0);
    assert!(run.probed.is_empty());
    assert_eq!(run.completed, 0);
    assert!(run.reports.is_empty());
    assert!(run.result.open_ports().is_empty());
    assert_eq!(report(&run.result), "\nScan completed in 0m 0s\nNo open ports found.\n");
    assert!(partition(&port_sequence(Some(Vec::new()))).is_empty());
}

#[test]
fn scan_of_a_list_with_only_an_out_of_range_token_probes_nothing() {
    assert!(parse_ports("70000").is_empty());
    let ports = ports_asked_for("70000");
    assert_eq!(ports, Some(Vec::new()));
    let run = scan(ports, &vec![70000u32 as u16, 80], 0);
    assert!(run.probed.is_empty());
    assert_eq!(run.completed, 0);
    assert!(run.reports.is_empty());
    assert!(run.result.open_ports().is_empty());
}

#[test]
fn scan_probes_each_listed_port_once() {
    let listed = vec![443u16, 22, 8080, 80, 21];
    let run = scan(Some(listed.clone()), &vec![80], 0);
    assert_eq!(run.probed, listed);
    assert_eq!(run.completed, listed.len());
}

#[test]
fn scan_result_does_not_depend_on_the_order_of_the_list() {
    let accepting = vec![9999u16, 22, 5];
    let one = scan(Some(vec![22, 80, 9999]), &accepting, 0);
    let other = scan(Some(vec![9999, 22, 80]), &accepting, 0);
    assert_eq!(one.result.open_ports(), &vec![22, 9999]);
    assert_eq!(other.result.open_ports(), one.result.open_ports());
}

#[test]
fn scan_result_is_within_the_list_and_ascending() {
    let listed: Vec<u16> = (0..3000u32).map(|i| ((i * 7919) % 65536) as u16).collect();
    let accepting: Vec<u16> = (0..65536u32).filter(|p| p % 3 == 0).map(|p| p as u16).collect();
    let run = scan(Some(listed.clone()), &accepting, 0);
    let open = run.result.open_ports();
    assert!(!open.is_empty());
    assert!(open.windows(2).all(|pair| pair[0] < pair[1]));
    assert!(open.iter().all(|port| listed.contains(port) && port % 3 == 0));
    let expected = listed.iter().filter(|port| *port % 3 == 0).count();
    assert_eq!(open.len(), expected);
}

#[test]
fn scan_twice_gives_the_same() {
    let accepting = vec![22u16, 80, 443, 8080];
    let first = scan(None, &accepting, 10);
    let second = scan(None, &accepting, 20);
    assert_eq!(first.result.open_ports(), &accepting);
    assert_eq!(first.result.open_ports(), second.result.open_ports());
    assert_eq!(first.probed, second.probed);
    assert_eq!(first.reports, second.reports);
}

#[test]
fn scan_of_all_ports_counts_every_probe() {
    let run = scan(None, &Vec::new(), 0);
    assert_eq!(run.probed.len(), 65535);
    assert_eq!(run.completed, 65535);
    assert_eq!(run.probed[0], 1);
    assert_eq!(run.probed[65534], 65535);
}

#[test]
fn scan_reports_progress_at_each_hundred_and_at_the_end() {
    let run = scan(None, &Vec::new(), 0);
    assert_eq!(run.reports.len(), 656);
    assert_eq!(run.reports[0], 100);
    assert_eq!(run.reports[654], 65500);
    assert_eq!(run.reports[655], 65535);
    assert!(run.reports.windows(2).all(|pair| pair[0] < pair[1]));
    assert_eq!(run.reports.iter().filter(|count| **count == 65535).count(), 1);
}

#[test]
fn scan_of_few_ports_reports_once_at_the_end() {
    let run = scan(Some(vec![1, 2, 3]), &Vec::new(), 0);
    assert_eq!(run.reports, vec![3]);
}

#[test]
fn scan_of_repeated_ports_probes_each_entry_and_reports_the_port_once() {
    let run = scan(Some(vec![80, 80, 22]), &vec![80], 0);
    assert_eq!(run.probed, vec![80, 80, 22]);
    assert_eq!(run.completed, 3);
    assert_eq!(run.result.open_ports(), &vec![80]);
}

#[test]
fn scan_notes_the_duration_it_is_given() {
    assert_eq!(scan(Some(vec![1]), &Vec::new(), 75).result.elapsed_secs(), 75);
}

/// Runs the batches on a pool of workers, as a scanner with sockets would,
/// with `accepting` in place of the network.
fn scan_in_parallel(
    ports_to_scan: Option<Vec<u16>>,
    accepting: &[u16],
    workers: usize,
) -> (ScanResult, usize, Vec<usize>) {
    let ports = port_sequence(ports_to_scan);
    let batches = partition(&ports);
    let tally = Mutex::new((Tally::new(ports.len()), Vec::new()));
    let found = Mutex::new(Vec::new());
    let pool = rayon::ThreadPoolBuilder::new().num_threads(workers).build().unwrap();
    pool.scope(|s| {
        for batch in batches {
            let (tally, found) = (&tally, &found);
            s.spawn(move |_| {
                let mut work = BatchScan::new(batch);
                while let Some(port) = work.next_port() {
                    work.record(accepting.contains(&port));
                    let mut guard = tally.lock().unwrap();
                    assert!(!guard.0.is_complete());
                    if guard.0.record() {
                        let count = guard.0.completed();
                        guard.1.push(count);
                    }
                }
                let batch_open = work.into_open_ports();
                if !batch_open.is_empty() {
                    merge_open_ports(&mut found.lock().unwrap(), batch_open);
                }
            });
        }
    });
    let (tally, reports) = tally.into_inner().unwrap();
    let result = ScanResult::new(&found.into_inner().unwrap(), 0);
    (result, tally.completed(), reports)
}

#[test]
fn workers_in_parallel_find_what_one_worker_finds() {
    let accepting: Vec<u16> = vec![65535, 22, 80, 443, 1000, 1001, 2000, 31337, 64999];
    let (result, completed, reports) = scan_in_parallel(None, &accepting, 4);
    let alone = scan(None, &accepting, 0);
    assert_eq!(result.open_ports(), alone.result.open_ports());
    assert_eq!(completed, 65535);
    assert_eq!(reports, alone.reports);
}

#[test]
fn workers_in_parallel_scan_a_short_list() {
    let (result, completed, reports) = scan_in_parallel(Some(vec![22, 80, 9999]), &[80], 2);
    assert_eq!(result.open_ports(), &vec![80]);
    assert_eq!(completed, 3);
    assert_eq!(reports, vec![3]);
}

#[test]
fn workers_in_parallel_have_nothing_to_do_for_an_empty_list() {
    let (result, completed, reports) = scan_in_parallel(Some(Vec::new()), &[80], 3);
    assert!(result.open_ports().is_empty());
    assert_eq!(completed, 0);
    assert!(reports.is_empty());
}
