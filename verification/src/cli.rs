//! The command line: which command the arguments ask for, and the list of
//! ports given with `-p`.

use vstd::prelude::*;
use vstd::string::StringExecFns;

verus! {

/// Whether `c` is white space: a character with the Unicode property
/// `White_Space`.
pub open spec fn is_space(c: char) -> bool {
    let code = c as u32;
    ||| 0x09 <= code <= 0x0d
    ||| code == 0x20
    ||| code == 0x85
    ||| code == 0xa0
    ||| code == 0x1680
    ||| 0x2000 <= code <= 0x200a
    ||| code == 0x2028
    ||| code == 0x2029
    ||| code == 0x202f
    ||| code == 0x205f
    ||| code == 0x3000
}

/// `text` without the white space at its start.
pub open spec fn trim_start(text: Seq<char>) -> Seq<char>
    decreases text.len(),
{
    if text.len() > 0 && is_space(text.first()) {
        trim_start(text.drop_first())
    } else {
        text
    }
}

/// `text` without the white space at its end.
pub open spec fn trim_end(text: Seq<char>) -> Seq<char>
    decreases text.len(),
{
    if text.len() > 0 && is_space(text.last()) {
        trim_end(text.drop_last())
    } else {
        text
    }
}

/// `text` without the white space at its start and at its end.
pub open spec fn trim(text: Seq<char>) -> Seq<char> {
    trim_end(trim_start(text))
}

/// Whether `c` is one of the digits `0` to `9`.
pub open spec fn is_digit(c: char) -> bool {
    '0' <= c <= '9'
}

/// The value of the digit `c`; 0 for any other character.
pub open spec fn digit_value(c: char) -> nat {
    if is_digit(c) {
        (c as u32 - '0' as u32) as nat
    } else {
        0
    }
}

/// Whether `text` is made of digits only.
pub open spec fn all_digits(text: Seq<char>) -> bool {
    forall|i: int| 0 <= i < text.len() ==> is_digit(#[trigger] text[i])
}

/// The number that the digits `text` write in decimal.
pub open spec fn digits_value(text: Seq<char>) -> nat
    decreases text.len(),
{
    if text.len() == 0 {
        0
    } else {
        digits_value(text.drop_last()) * 10 + digit_value(text.last())
    }
}

/// The port that `token` writes: one or more digits, which may follow a
/// single `+`, with a value of at most 65535. Anything else is no port.
pub open spec fn parse_port(token: Seq<char>) -> Option<u16> {
    let digits = if token.len() > 0 && token.first() == '+' {
        token.drop_first()
    } else {
        token
    };
    if digits.len() > 0 && all_digits(digits) && digits_value(digits) <= u16::MAX {
        Some(digits_value(digits) as u16)
    } else {
        None
    }
}

/// `text` cut at its commas: every comma ends one field and starts the next,
/// so a text with `n` commas has `n + 1` fields, some of them maybe empty.
pub open spec fn fields(text: Seq<char>) -> Seq<Seq<char>>
    decreases text.len(),
{
    if text.len() == 0 {
        seq![Seq::empty()]
    } else {
        let earlier = fields(text.drop_last());
        if text.last() == ',' {
            earlier.push(Seq::empty())
        } else {
            earlier.drop_last().push(earlier.last().push(text.last()))
        }
    }
}

/// The ports that `fields` write, in order; a field that writes no port,
/// once the white space around it is taken off, is passed over.
pub open spec fn ports_of(fields: Seq<Seq<char>>) -> Seq<u16>
    decreases fields.len(),
{
    if fields.len() == 0 {
        Seq::empty()
    } else {
        let earlier = ports_of(fields.drop_last());
        match parse_port(trim(fields.last())) {
            Some(port) => earlier.push(port),
            None => earlier,
        }
    }
}

/// The ports that a comma-separated list writes.
pub open spec fn ports_in(text: Seq<char>) -> Seq<u16> {
    ports_of(fields(text))
}

/// Whether `c` is white space.
fn is_whitespace(c: char) -> (space: bool)
    ensures
        space == is_space(c),
{
    let code: u32 = c as u32;
    (0x09 <= code && code <= 0x0d) || code == 0x20 || code == 0x85 || code == 0xa0 || code
        == 0x1680 || (0x2000 <= code && code <= 0x200a) || code == 0x2028 || code == 0x2029 || code
        == 0x202f || code == 0x205f || code == 0x3000
}

/// Cutting white space off the start of a text gives the same as cutting it
/// off the text without its first `skipped` characters, where those are all
/// white space.
proof fn lemma_trim_start_skips(text: Seq<char>, skipped: int)
    requires
        0 <= skipped <= text.len(),
        forall|i: int| 0 <= i < skipped ==> is_space(#[trigger] text[i]),
    ensures
        trim_start(text) == trim_start(text.skip(skipped)),
    decreases skipped,
{
    if skipped > 0 {
        lemma_trim_start_skips(text.drop_first(), skipped - 1);
        assert(text.drop_first().skip(skipped - 1) =~= text.skip(skipped));
    } else {
        assert(text.skip(0) =~= text);
    }
}

/// Cutting white space off the end of a text gives the same as cutting it
/// off the first `kept` characters, where all after those are white space.
proof fn lemma_trim_end_takes(text: Seq<char>, kept: int)
    requires
        0 <= kept <= text.len(),
        forall|i: int| kept <= i < text.len() ==> is_space(#[trigger] text[i]),
    ensures
        trim_end(text) == trim_end(text.take(kept)),
    decreases text.len() - kept,
{
    if kept < text.len() {
        lemma_trim_end_takes(text.drop_last(), kept);
        assert(text.drop_last().take(kept) =~= text.take(kept));
    } else {
        assert(text.take(kept) =~= text);
    }
}

/// The value of some leading digits is never more than that of all of them.
proof fn lemma_leading_digits_value(text: Seq<char>, count: int)
    requires
        0 <= count <= text.len(),
    ensures
        digits_value(text.take(count)) <= digits_value(text),
    decreases text.len() - count,
{
    if count < text.len() {
        lemma_leading_digits_value(text.drop_last(), count);
        assert(text.drop_last().take(count) =~= text.take(count));
    } else {
        assert(text.take(count) =~= text);
    }
}

/// A text has at least one field.
proof fn lemma_fields_not_empty(text: Seq<char>)
    ensures
        fields(text).len() >= 1,
    decreases text.len(),
{
    if text.len() > 0 {
        lemma_fields_not_empty(text.drop_last());
    }
}

/// The port that `field` writes once the white space around it is taken
/// off, if it writes one.
fn parse_field(field: &Vec<char>) -> (port: Option<u16>)
    ensures
        port == parse_port(trim(field@)),
{
    let mut start: usize = 0;
    while start < field.len() && is_whitespace(field[start])
        invariant
            start <= field.len(),
            forall|i: int| 0 <= i < start ==> is_space(#[trigger] field@[i]),
        decreases field.len() - start,
    {
        start = start + 1;
    }
    let mut end: usize = field.len();
    while end > start && is_whitespace(field[end - 1])
        invariant
            start <= end <= field.len(),
            forall|i: int| end <= i < field.len() ==> is_space(#[trigger] field@[i]),
        decreases end,
    {
        end = end - 1;
    }
    let ghost token = field@.subrange(start as int, end as int);
    proof {
        let rest = field@.skip(start as int);
        lemma_trim_start_skips(field@, start as int);
        assert(trim_start(field@) == rest) by {
            if rest.len() > 0 {
                assert(rest.first() == field@[start as int]);
            }
        }
        lemma_trim_end_takes(rest, end - start);
        assert(rest.take(end - start) =~= token);
        assert(trim_end(token) == token) by {
            if token.len() > 0 {
                assert(token.last() == field@[end - 1]);
            }
        }
        assert(trim(field@) == token);
    }
    let mut at: usize = start;
    if at < end && field[at] == '+' {
        at = at + 1;
    }
    let ghost digits = field@.subrange(at as int, end as int);
    proof {
        if at > start {
            assert(token.first() == '+');
            assert(token.drop_first() =~= digits);
        } else if token.len() > 0 {
            assert(token.first() == field@[start as int]);
        }
    }
    if at == end {
        return None;
    }
    let first: usize = at;
    let mut value: u32 = 0;
    while at < end
        invariant
            first <= at <= end <= field.len(),
            digits == field@.subrange(first as int, end as int),
            parse_port(trim(field@)) == if all_digits(digits) && digits_value(digits) <= u16::MAX {
                Some(digits_value(digits) as u16)
            } else {
                None
            },
            all_digits(digits.take(at - first)),
            value == digits_value(digits.take(at - first)),
            value <= u16::MAX,
        decreases end - at,
    {
        let c: char = field[at];
        if !('0' <= c && c <= '9') {
            assert(!is_digit(digits[at - first]));
            return None;
        }
        let next: u32 = value * 10 + (c as u32 - '0' as u32);
        proof {
            assert(digits.take(at - first + 1).drop_last() =~= digits.take(at - first));
            assert(digits.take(at - first + 1).last() == c);
            assert(next == digits_value(digits.take(at - first + 1)));
        }
        if next > 65535 {
            proof {
                lemma_leading_digits_value(digits, at - first + 1);
            }
            return None;
        }
        value = next;
        at = at + 1;
    }
    assert(digits.take(digits.len() as int) =~= digits);
    Some(value as u16)
}

/// The ports that a comma-separated list writes, in its order: each field
/// between commas is taken without the white space around it, and one that
/// is not a number from 0 to 65535 is passed over.
pub fn parse_ports(ports_str: &str) -> (ports: Vec<u16>)
    ensures
        ports@ == ports_in(ports_str@),
{
    let mut ports: Vec<u16> = Vec::new();
    let mut field: Vec<char> = Vec::new();
    for c in rest: ports_str.chars()
        invariant
            rest.seq() == ports_str@,
            ports@ == ports_of(fields(ports_str@.take(rest.index() as int)).drop_last()),
            field@ == fields(ports_str@.take(rest.index() as int)).last(),
    {
        let ghost seen = ports_str@.take(rest.index() as int);
        proof {
            let next = ports_str@.take(rest.index() + 1);
            assert(next.drop_last() =~= seen);
            assert(next.last() == c);
            lemma_fields_not_empty(seen);
        }
        if c == ',' {
            proof {
                assert(fields(seen).push(Seq::empty()).drop_last() =~= fields(seen));
                assert(fields(seen) =~= fields(seen).drop_last().push(fields(seen).last()));
            }
            match parse_field(&field) {
                Some(port) => {
                    ports.push(port);
                },
                None => {},
            }
            field = Vec::new();
        } else {
            proof {
                assert(fields(seen).drop_last().push(fields(seen).last().push(c)).drop_last()
                    =~= fields(seen).drop_last());
            }
            field.push(c);
        }
    }
    proof {
        assert(ports_str@.take(ports_str@.len() as int) =~= ports_str@);
        lemma_fields_not_empty(ports_str@);
        assert(fields(ports_str@) =~= fields(ports_str@).drop_last().push(
            fields(ports_str@).last(),
        ));
    }
    match parse_field(&field) {
        Some(port) => {
            ports.push(port);
        },
        None => {},
    }
    ports
}

/// What the command line asks for.
#[derive(Debug, PartialEq, Eq)]
pub enum Command {
    /// Show the usage text.
    Help,
    /// Show the version.
    Version,
    /// Scan `target`: the ports of `ports`, or all ports where it is `None`.
    Scan { target: String, ports: Option<Vec<u16>> },
    /// A scan was asked for without a target.
    MissingTarget,
    /// No command was given, or one that is not known.
    Invalid,
}

/// A command as plain values.
pub ghost enum CommandView {
    Help,
    Version,
    Scan { target: Seq<char>, ports: Option<Seq<u16>> },
    MissingTarget,
    Invalid,
}

impl View for Command {
    type V = CommandView;

    open spec fn view(&self) -> CommandView {
        match self {
            Command::Help => CommandView::Help,
            Command::Version => CommandView::Version,
            Command::Scan { target, ports } => CommandView::Scan {
                target: target@,
                ports: match ports {
                    Some(list) => Some(list@),
                    None => None,
                },
            },
            Command::MissingTarget => CommandView::MissingTarget,
            Command::Invalid => CommandView::Invalid,
        }
    }
}

/// Whether `arg` is the flag written `short` or `long`.
pub open spec fn is_flag(arg: Seq<char>, short: Seq<char>, long: Seq<char>) -> bool {
    arg == short || arg == long
}

/// The command that the arguments ask for. `args[0]` is the program's name
/// and `args[1]` the command. A scan takes its target from `args[2]`, and a
/// port list from `args[4]` where `args[3]` is `-p` or `--ports`; a port flag
/// anywhere else, or without a list after it, is not looked at.
pub open spec fn command_of(args: Seq<Seq<char>>) -> CommandView {
    if args.len() < 2 {
        CommandView::Invalid
    } else if is_flag(args[1], "-h"@, "--help"@) {
        CommandView::Help
    } else if is_flag(args[1], "-v"@, "--version"@) {
        CommandView::Version
    } else if is_flag(args[1], "-s"@, "--scan"@) {
        if args.len() == 2 {
            CommandView::MissingTarget
        } else {
            CommandView::Scan {
                target: args[2],
                ports: if args.len() > 4 && is_flag(args[3], "-p"@, "--ports"@) {
                    Some(ports_in(args[4]))
                } else {
                    None
                },
            }
        }
    } else {
        CommandView::Invalid
    }
}

/// The exit status that goes with a command: 0 where there is something to
/// do, 1 where the command line was misused.
pub open spec fn exit_code_of(command: CommandView) -> i32 {
    match command {
        CommandView::MissingTarget | CommandView::Invalid => 1,
        _ => 0,
    }
}

/// Where a text is written.
#[derive(Clone, Copy, Debug, PartialEq, Eq)]
pub enum Stream {
    /// The standard output.
    Output,
    /// The error stream.
    Error,
}

/// Whether a command has the usage text shown, and where: on the output
/// when help was asked for or the target of a scan is missing, on the error
/// stream when the command is invalid.
pub open spec fn usage_stream_of(command: CommandView) -> Option<Stream> {
    match command {
        CommandView::Help | CommandView::MissingTarget => Some(Stream::Output),
        CommandView::Invalid => Some(Stream::Error),
        _ => None,
    }
}

/// The line that gives the version.
pub open spec fn version_text(version: Seq<char>) -> Seq<char> {
    "Version: "@ + version + "\n"@
}

/// The usage text, one line for each command.
pub open spec fn usage_text(program_name: Seq<char>) -> Seq<char> {
    "Usage: "@ + program_name + " [command] [arguments]\n"@
        + " -h, --help\tDisplay this help message\n"@
        + " -v, --version\tDisplay the version of this program\n"@
        + " -s, --scan\tScan an IP address. Usage: -s [IPv4 Address]\n"@
        + " -p, --ports\tSpecify ports to scan. Usage: -p [PORT1,PORT2,...]\n"@
}

/// Whether `arg` is the flag written `short` or `long`.
fn matches_flag(arg: &String, short: &str, long: &str) -> (found: bool)
    ensures
        found == is_flag(arg@, short@, long@),
{
    let short = String::from_str(short);
    let long = String::from_str(long);
    *arg == short || *arg == long
}

impl Command {
    /// Where the usage text is to be shown for the command, if at all.
    pub fn usage_stream(&self) -> (stream: Option<Stream>)
        ensures
            stream == usage_stream_of(self@),
    {
        match self {
            Command::Help => Some(Stream::Output),
            Command::MissingTarget => Some(Stream::Output),
            Command::Invalid => Some(Stream::Error),
            _ => None,
        }
    }

    /// The exit status that goes with the command.
    pub fn exit_code(&self) -> (code: i32)
        ensures
            code == exit_code_of(self@),
    {
        match self {
            Command::MissingTarget => 1,
            Command::Invalid => 1,
            _ => 0,
        }
    }
}

/// Reads the command off the arguments of the program, `args[0]` being the
/// program's name.
pub fn parse_command(args: &Vec<String>) -> (command: Command)
    ensures
        command@ == command_of(args.deep_view()),
{
    proof {
        assert forall|i: int| 0 <= i < args@.len() implies #[trigger] args.deep_view()[i]
            == args@[i]@ by {}
    }
    if args.len() < 2 {
        Command::Invalid
    } else if matches_flag(&args[1], "-h", "--help") {
        Command::Help
    } else if matches_flag(&args[1], "-v", "--version") {
        Command::Version
    } else if matches_flag(&args[1], "-s", "--scan") {
        if args.len() == 2 {
            Command::MissingTarget
        } else {
            let target = args[2].clone();
            let ports = if args.len() > 4 && matches_flag(&args[3], "-p", "--ports") {
                Some(parse_ports(args[4].as_str()))
            } else {
                None
            };
            Command::Scan { target, ports }
        }
    } else {
        Command::Invalid
    }
}

/// The line that gives the version `version`.
pub fn version_line(version: &str) -> (line: String)
    ensures
        line@ == version_text(version@),
{
    let mut line = String::from_str("Version: ");
    line.append(version);
    line.append("\n");
    line
}

/// The usage text for the program called `program_name`.
pub fn usage(program_name: &str) -> (text: String)
    ensures
        text@ == usage_text(program_name@),
{
    let mut text = String::from_str("Usage: ");
    text.append(program_name);
    text.append(" [command] [arguments]\n");
    text.append(" -h, --help\tDisplay this help message\n");
    text.append(" -v, --version\tDisplay the version of this program\n");
    text.append(" -s, --scan\tScan an IP address. Usage: -s [IPv4 Address]\n");
    text.append(" -p, --ports\tSpecify ports to scan. Usage: -p [PORT1,PORT2,...]\n");
    text
}

} // verus!
