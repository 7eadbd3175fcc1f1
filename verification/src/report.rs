//! The text a scan shows: the opening banner, the progress line and the
//! closing report.

use crate::engine::ScanResult;
use crate::progress::Progress;
use vstd::prelude::*;
use vstd::string::StringExecFns;

verus! {

/// The character for the digit `d`.
pub open spec fn digit(d: nat) -> char {
    if d == 0 {
        '0'
    } else if d == 1 {
        '1'
    } else if d == 2 {
        '2'
    } else if d == 3 {
        '3'
    } else if d == 4 {
        '4'
    } else if d == 5 {
        '5'
    } else if d == 6 {
        '6'
    } else if d == 7 {
        '7'
    } else if d == 8 {
        '8'
    } else {
        '9'
    }
}

/// `n` in decimal digits, without leading zeros.
pub open spec fn decimal(n: nat) -> Seq<char>
    decreases n,
{
    if n < 10 {
        seq![digit(n)]
    } else {
        decimal(n / 10).push(digit(n % 10))
    }
}

/// A duration as minutes and seconds: `3m 7s`.
pub open spec fn minutes_seconds(secs: nat) -> Seq<char> {
    decimal(secs / 60) + "m "@ + decimal(secs % 60) + "s"@
}

/// The line that opens a scan of `target` by `workers` workers; `explicit`
/// is the length of the explicit port list, where one was given.
pub open spec fn start_banner_text(target: Seq<char>, workers: nat, explicit: Option<nat>) -> Seq<
    char,
> {
    let head = "Port sniffer CLI | Starting scan of "@ + target + " with "@ + decimal(workers)
        + " threads"@;
    match explicit {
        Some(count) => head + " | Scanning "@ + decimal(count) + " specific ports\n"@,
        None => head + "\n"@,
    }
}

/// The progress line: it starts with a carriage return, so that it takes the
/// place of the line before it, and shows the share done with one decimal,
/// the projected time left and the number of ports checked.
pub open spec fn progress_line_text(progress: Progress) -> Seq<char> {
    "\r"@ + decimal(progress.percent_tenths as nat / 10) + "."@ + decimal(
        progress.percent_tenths as nat % 10,
    ) + "% complete. ETA: "@ + minutes_seconds(progress.eta_secs as nat) + " | Ports checked: "@
        + decimal(progress.completed as nat) + "     "@
}

/// One table row for each of `open`, in their order.
pub open spec fn rows_text(open: Seq<u16>) -> Seq<char>
    decreases open.len(),
{
    if open.len() == 0 {
        Seq::empty()
    } else {
        rows_text(open.drop_last()) + "OPEN\t"@ + decimal(open.last() as nat) + "\tTCP\n"@
    }
}

/// The closing report: the duration, then either the notice that nothing is
/// open, or the table of open ports and their count.
pub open spec fn report_text(open: Seq<u16>, elapsed_secs: nat) -> Seq<char> {
    let head = "\nScan completed in "@ + minutes_seconds(elapsed_secs) + "\n"@;
    if open.len() == 0 {
        head + "No open ports found.\n"@
    } else {
        head + "STATE\tPORT\tPROTOCOL\n"@ + rows_text(open) + "\nFound "@ + decimal(open.len())
            + " open ports\n"@
    }
}

/// The text of one decimal digit.
fn digit_text(d: u64) -> (text: &'static str)
    requires
        d < 10,
    ensures
        text@ == seq![digit(d as nat)],
{
    proof {
        reveal_strlit("0");
        reveal_strlit("1");
        reveal_strlit("2");
        reveal_strlit("3");
        reveal_strlit("4");
        reveal_strlit("5");
        reveal_strlit("6");
        reveal_strlit("7");
        reveal_strlit("8");
        reveal_strlit("9");
    }
    let text = if d == 0 {
        "0"
    } else if d == 1 {
        "1"
    } else if d == 2 {
        "2"
    } else if d == 3 {
        "3"
    } else if d == 4 {
        "4"
    } else if d == 5 {
        "5"
    } else if d == 6 {
        "6"
    } else if d == 7 {
        "7"
    } else if d == 8 {
        "8"
    } else {
        "9"
    };
    assert(text@ =~= seq![digit(d as nat)]);
    text
}

/// Appends `n` in decimal to `out`.
fn push_decimal(out: &mut String, n: u64)
    ensures
        final(out)@ == old(out)@ + decimal(n as nat),
    decreases n,
{
    if n >= 10 {
        push_decimal(out, n / 10);
    }
    out.append(digit_text(n % 10));
    assert(out@ =~= old(out)@ + decimal(n as nat));
}

/// Appends `secs` as minutes and seconds to `out`.
fn push_minutes_seconds(out: &mut String, secs: u64)
    ensures
        final(out)@ == old(out)@ + minutes_seconds(secs as nat),
{
    push_decimal(out, secs / 60);
    out.append("m ");
    push_decimal(out, secs % 60);
    out.append("s");
    assert(out@ =~= old(out)@ + minutes_seconds(secs as nat));
}

/// The line that opens a scan of `target` by `workers` workers; `explicit`
/// is the length of the explicit port list, where one was given.
pub fn start_banner(target: &str, workers: usize, explicit: Option<usize>) -> (banner: String)
    ensures
        banner@ == start_banner_text(
            target@,
            workers as nat,
            match explicit {
                Some(count) => Some(count as nat),
                None => None,
            },
        ),
{
    let mut banner = String::from_str("Port sniffer CLI | Starting scan of ");
    banner.append(target);
    banner.append(" with ");
    push_decimal(&mut banner, workers as u64);
    banner.append(" threads");
    match explicit {
        Some(count) => {
            banner.append(" | Scanning ");
            push_decimal(&mut banner, count as u64);
            banner.append(" specific ports\n");
        },
        None => {
            banner.append("\n");
        },
    }
    banner
}

/// The progress line for `progress`.
pub fn progress_line(progress: &Progress) -> (line: String)
    ensures
        line@ == progress_line_text(*progress),
{
    let mut line = String::from_str("\r");
    push_decimal(&mut line, (progress.percent_tenths / 10) as u64);
    line.append(".");
    push_decimal(&mut line, (progress.percent_tenths % 10) as u64);
    line.append("% complete. ETA: ");
    push_minutes_seconds(&mut line, progress.eta_secs);
    line.append(" | Ports checked: ");
    push_decimal(&mut line, progress.completed as u64);
    line.append("     ");
    line
}

/// The closing report of a scan.
pub fn report(result: &ScanResult) -> (text: String)
    ensures
        text@ == report_text(result.open_ports()@, result.elapsed_secs() as nat),
{
    let open = result.open_ports();
    let mut text = String::from_str("\nScan completed in ");
    push_minutes_seconds(&mut text, result.elapsed_secs());
    text.append("\n");
    if open.len() == 0 {
        text.append("No open ports found.\n");
    } else {
        text.append("STATE\tPORT\tPROTOCOL\n");
        let ghost head = text@;
        let mut i: usize = 0;
        while i < open.len()
            invariant
                i <= open.len(),
                text@ == head + rows_text(open@.take(i as int)),
            decreases open.len() - i,
        {
            text.append("OPEN\t");
            push_decimal(&mut text, open[i] as u64);
            text.append("\tTCP\n");
            i = i + 1;
            proof {
                assert(open@.take(i as int).drop_last() =~= open@.take(i - 1));
                assert(text@ =~= head + rows_text(open@.take(i as int)));
            }
        }
        assert(open@.take(open.len() as int) =~= open@);
        text.append("\nFound ");
        push_decimal(&mut text, open.len() as u64);
        text.append(" open ports\n");
    }
    text
}

} // verus!
