use port_sniffer::engine::ScanResult;
use port_sniffer::progress::{measure, Progress};
use port_sniffer::report::{progress_line, report, start_banner};

#[test]
fn banner_of_a_full_scan() {
    assert_eq!(
        start_banner("127.0.0.1", 8, None),
        "Port sniffer CLI | Starting scan of 127.0.0.1 with 8 threads\n"
    );
}

#[test]
fn banner_of_a_scan_of_listed_ports() {
    assert_eq!(
        start_banner("example.org", 12, Some(3)),
        "Port sniffer CLI | Starting scan of example.org with 12 threads | Scanning 3 specific ports\n"
    );
    assert_eq!(
        start_banner("h", 1, Some(0)),
        "Port sniffer CLI | Starting scan of h with 1 threads | Scanning 0 specific ports\n"
    );
}

#[test]
fn banner_writes_large_numbers_in_full() {
    assert_eq!(
        start_banner("t", 1024, Some(65535)),
        "Port sniffer CLI | Starting scan of t with 1024 threads | Scanning 65535 specific ports\n"
    );
    assert_eq!(
        start_banner("t", usize::MAX, None),
        format!("Port sniffer CLI | Starting scan of t with {} threads\n", usize::MAX)
    );
}

#[test]
fn progress_line_after_a_hundred_ports() {
    assert_eq!(
        progress_line(&measure(100, 65535, 5000)),
        "\r0.2% complete. ETA: 54m 31s | Ports checked: 100     "
    );
}

#[test]
fn progress_line_at_the_end() {
    assert_eq!(
        progress_line(&measure(65535, 65535, 600_000)),
        "\r100.0% complete. ETA: 0m 0s | Ports checked: 65535     "
    );
}

#[test]
fn progress_line_shows_one_decimal() {
    assert_eq!(
        progress_line(&Progress { completed: 200, total: 250, percent_tenths: 800, eta_secs: 59 }),
        "\r80.0% complete. ETA: 0m 59s | Ports checked: 200     "
    );
    assert_eq!(
        progress_line(&Progress { completed: 7, total: 9, percent_tenths: 778, eta_secs: 60 }),
        "\r77.8% complete. ETA: 1m 0s | Ports checked: 7     "
    );
    assert_eq!(
        progress_line(&Progress { completed: 1, total: 2000, percent_tenths: 0, eta_secs: 3725 }),
        "\r0.0% complete. ETA: 62m 5s | Ports checked: 1     "
    );
}

#[test]
fn progress_line_agrees_with_formatted_numbers() {
    for (completed, total, elapsed_ms) in
        [(100usize, 250usize, 2500u64), (100, 1000, 1), (300, 301, 999_999), (65500, 65535, 7_200_000)]
    {
        let progress = measure(completed, total, elapsed_ms);
        let expected = format!(
            "\r{}.{}% complete. ETA: {}m {}s | Ports checked: {}     ",
            progress.percent_tenths / 10,
            progress.percent_tenths % 10,
            progress.eta_secs / 60,
            progress.eta_secs % 60,
            completed
        );
        assert_eq!(progress_line(&progress), expected);
    }
}

#[test]
fn report_of_no_open_ports() {
    let result = ScanResult::new(&Vec::new(), 0);
    assert_eq!(report(&result), "\nScan completed in 0m 0s\nNo open ports found.\n");
}

#[test]
fn report_of_one_open_port() {
    let result = ScanResult::new(&vec![80], 62);
    assert_eq!(
        report(&result),
        "\nScan completed in 1m 2s\nSTATE\tPORT\tPROTOCOL\nOPEN\t80\tTCP\n\nFound 1 open ports\n"
    );
}

#[test]
fn report_lists_the_open_ports_ascending() {
    let result = ScanResult::new(&vec![8080, 22, 443, 80, 65535, 0], 3599);
    assert_eq!(
        report(&result),
        "\nScan completed in 59m 59s\nSTATE\tPORT\tPROTOCOL\n\
         OPEN\t0\tTCP\nOPEN\t22\tTCP\nOPEN\t80\tTCP\nOPEN\t443\tTCP\nOPEN\t8080\tTCP\nOPEN\t65535\tTCP\n\
         \nFound 6 open ports\n"
    );
}

#[test]
fn report_writes_long_durations_in_minutes() {
    let result = ScanResult::new(&Vec::new(), 7325);
    assert_eq!(report(&result), "\nScan completed in 122m 5s\nNo open ports found.\n");
    let result = ScanResult::new(&Vec::new(), u64::MAX);
    assert_eq!(
        report(&result),
        format!("\nScan completed in {}m {}s\nNo open ports found.\n", u64::MAX / 60, u64::MAX % 60)
    );
}
