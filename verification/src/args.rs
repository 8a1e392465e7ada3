//! The command line: `-v` counting, and the parser of the options and the two
//! database names.

use vstd::prelude::*;
use vstd::string::StringSliceAdditionalSpecFns;
use crate::text::{bytes_eq, opt_view, utf8_of, DASH, LOWER_V};
use crate::numbers::{parse_i32, parse_i32_text, parse_unsigned, parse_unsigned_text};

verus! {

/// What follows the `-` (or `--`) of a would-be `-vvv` argument.
pub open spec fn v_flag_body(b: Seq<u8>) -> Seq<u8> {
    let r = b.drop_first();
    if r.len() > 0 && r[0] == DASH {
        r.drop_first()
    } else {
        r
    }
}

/// Every byte of `b` is `v`.
pub open spec fn all_vs(b: Seq<u8>) -> bool {
    forall|i: int| 0 <= i < b.len() ==> #[trigger] b[i] == LOWER_V
}

/// The number of `v`s in an argument of the form `-vvv` or `--vvv`, kept to
/// a `u8` by truncation; 0 for any other argument.
pub open spec fn count_vs(b: Seq<u8>) -> u8 {
    if b.len() > 0 && b[0] == DASH && v_flag_body(b).len() > 0 && all_vs(v_flag_body(b)) {
        (v_flag_body(b).len() % 256) as u8
    } else {
        0
    }
}

/// `count_vs` on bytes.
pub fn count_vs_bytes(b: &[u8]) -> (n: u8)
    ensures
        n == count_vs(b@),
{
    if b.len() == 0 || b[0] != DASH {
        return 0;
    }
    let start: usize = if b.len() > 1 && b[1] == DASH {
        2
    } else {
        1
    };
    assert(v_flag_body(b@) =~= b@.skip(start as int));
    let mut k: usize = start;
    while k < b.len() && b[k] == LOWER_V
        invariant
            start <= k <= b@.len(),
            forall|j: int| start <= j < k ==> b@[j] == LOWER_V,
        decreases b@.len() - k,
    {
        k = k + 1;
    }
    let n = k - start;
    if n > 0 && k == b.len() {
        assert(all_vs(v_flag_body(b@))) by {
            assert forall|i: int| 0 <= i < v_flag_body(b@).len() implies #[trigger] v_flag_body(
                b@,
            )[i] == LOWER_V by {
                assert(v_flag_body(b@)[i] == b@[start + i]);
            }
        }
        (n % 256) as u8
    } else {
        proof {
            if v_flag_body(b@).len() > 0 && all_vs(v_flag_body(b@)) {
                assert(v_flag_body(b@)[k - start] == b@[k as int]);
            }
        }
        0
    }
}

/// The number of `v`s in a `-vvv` or `--vvv` argument; 0 for any other.
pub fn num_vs(z: &str) -> (n: u8)
    ensures
        n == count_vs(z.spec_bytes()),
{
    count_vs_bytes(z.as_bytes())
}

/// The log level that the `-v` arguments ask for.
#[derive(Clone, Copy, Debug, PartialEq, Eq, Structural)]
pub enum LogLevel {
    Warn,
    Info,
    Debug,
    Trace,
}

/// The sum of `count_vs` over `args[from..to]`.
pub open spec fn sum_vs(args: Seq<Seq<char>>, from: int, to: int) -> nat
    decreases to - from,
{
    if to <= from {
        0
    } else {
        sum_vs(args, from, to - 1) + count_vs(utf8_of(args[to - 1])) as nat
    }
}

/// The log level for a total `n` of `v`s: none is `Warn`, one `Info`, two
/// `Debug`, more `Trace`.
pub open spec fn level_for(n: nat) -> LogLevel {
    if n == 0 {
        LogLevel::Warn
    } else if n == 1 {
        LogLevel::Info
    } else if n == 2 {
        LogLevel::Debug
    } else {
        LogLevel::Trace
    }
}

/// The default log level: the `v`s of all arguments after the program name
/// (which must be there), summed in a `u8` that wraps around.
pub fn default_log_level(args: &Vec<String>) -> (l: LogLevel)
    requires
        args@.len() >= 1,
    ensures
        l == level_for(
            sum_vs(args@.map_values(|a: String| a@), 1, args@.len() as int) % 256,
        ),
{
    let ghost av = args@.map_values(|a: String| a@);
    let mut total: u8 = 0;
    let mut i: usize = 1;
    while i < args.len()
        invariant
            1 <= i <= args@.len(),
            av == args@.map_values(|a: String| a@),
            total as nat == sum_vs(av, 1, i as int) % 256,
        decreases args@.len() - i,
    {
        let n = count_vs_bytes(args[i].as_str().as_bytes());
        assert(av[i as int] == args@[i as int]@);
        total = total.wrapping_add(n);
        i = i + 1;
    }
    if total == 0 {
        LogLevel::Warn
    } else if total == 1 {
        LogLevel::Info
    } else if total == 2 {
        LogLevel::Debug
    } else {
        LogLevel::Trace
    }
}

/// The settings that the command line gives, as plain values.
pub struct OptionsModel {
    pub origin: Option<Seq<char>>,
    pub replica: Option<Seq<char>>,
    pub serve_origin: bool,
    pub serve_replica: bool,
    pub verbose: u8,
    pub protocol: Option<u8>,
    pub ssh: Seq<char>,
    pub port: i32,
    pub exe: Seq<char>,
    pub wal_only: bool,
    pub comm_check: bool,
    pub err_file: Option<Seq<char>>,
    pub debug_file: Option<Seq<char>>,
    pub remote_err_file: Option<Seq<char>>,
    pub remote_debug_file: Option<Seq<char>>,
    pub log_files: Seq<Seq<char>>,
}

/// The settings that the command line gives.
pub struct Options {
    /// The ORIGIN database, as named.
    pub origin: Option<String>,
    /// The REPLICA database, as named.
    pub replica: Option<String>,
    /// `--origin`: this process is the remote origin side.
    pub serve_origin: bool,
    /// `--replica`: this process is the remote replica side.
    pub serve_replica: bool,
    /// The verbosity that the `-v` arguments add up to.
    pub verbose: u8,
    /// `--protocol N`, kept within the supported versions.
    pub protocol: Option<u8>,
    /// `--ssh PATH`.
    pub ssh: String,
    /// `-p PORT`; 0 for the default.
    pub port: i32,
    /// `--exe PATH`.
    pub exe: String,
    /// `--wal-only`.
    pub wal_only: bool,
    /// `--commcheck`.
    pub comm_check: bool,
    /// `--errorfile FILE`.
    pub err_file: Option<String>,
    /// `--debugfile FILE`.
    pub debug_file: Option<String>,
    /// `--remote-errorfile FILE`.
    pub remote_err_file: Option<String>,
    /// `--remote-debugfile FILE`.
    pub remote_debug_file: Option<String>,
    /// Every `--logfile FILE`, in order: each is opened in turn.
    pub log_files: Vec<String>,
}

/// The views of a list of strings.
pub open spec fn strings_view(v: Seq<String>) -> Seq<Seq<char>> {
    v.map_values(|s: String| s@)
}

impl View for Options {
    type V = OptionsModel;

    open spec fn view(&self) -> OptionsModel {
        OptionsModel {
            origin: opt_view(self.origin),
            replica: opt_view(self.replica),
            serve_origin: self.serve_origin,
            serve_replica: self.serve_replica,
            verbose: self.verbose,
            protocol: self.protocol,
            ssh: self.ssh@,
            port: self.port,
            exe: self.exe@,
            wal_only: self.wal_only,
            comm_check: self.comm_check,
            err_file: opt_view(self.err_file),
            debug_file: opt_view(self.debug_file),
            remote_err_file: opt_view(self.remote_err_file),
            remote_debug_file: opt_view(self.remote_debug_file),
            log_files: strings_view(self.log_files@),
        }
    }
}

/// Why the command line is refused.
pub enum ArgError {
    /// The option (named as `--option`) has no value after it.
    MissingArgument(String),
    /// The value of `-p` is not a TCP port number.
    InvalidPort(String),
    /// An argument begins with `-` and is no option.
    UnknownOption(String),
    /// A third database name.
    UnexpectedArgument(String),
    /// No ORIGIN was named.
    MissingOrigin,
    /// No REPLICA was named.
    MissingReplica,
    /// Both `--origin` and `--replica`.
    BadOptionCombination,
}

/// `ArgError` as plain values.
pub enum ArgErrorModel {
    MissingArgument(Seq<char>),
    InvalidPort(Seq<char>),
    UnknownOption(Seq<char>),
    UnexpectedArgument(Seq<char>),
    MissingOrigin,
    MissingReplica,
    BadOptionCombination,
}

impl View for ArgError {
    type V = ArgErrorModel;

    open spec fn view(&self) -> ArgErrorModel {
        match self {
            ArgError::MissingArgument(s) => ArgErrorModel::MissingArgument(s@),
            ArgError::InvalidPort(s) => ArgErrorModel::InvalidPort(s@),
            ArgError::UnknownOption(s) => ArgErrorModel::UnknownOption(s@),
            ArgError::UnexpectedArgument(s) => ArgErrorModel::UnexpectedArgument(s@),
            ArgError::MissingOrigin => ArgErrorModel::MissingOrigin,
            ArgError::MissingReplica => ArgErrorModel::MissingReplica,
            ArgError::BadOptionCombination => ArgErrorModel::BadOptionCombination,
        }
    }
}

/// Where reading the command line ends.
pub enum ParseEnd {
    /// Every argument was read and both databases are named.
    Ready,
    /// `--version`: print the version and stop.
    ShowVersion,
    /// `--help`: print the usage and stop.
    ShowHelp,
    /// `--arg-escape-check` at this index: print how every argument is quoted.
    EscapeCheck(usize),
    /// The command line is refused.
    Failed(ArgError),
}

/// `ParseEnd` as plain values.
pub enum ParseEndModel {
    Ready,
    ShowVersion,
    ShowHelp,
    EscapeCheck(nat),
    Failed(ArgErrorModel),
}

impl View for ParseEnd {
    type V = ParseEndModel;

    open spec fn view(&self) -> ParseEndModel {
        match self {
            ParseEnd::Ready => ParseEndModel::Ready,
            ParseEnd::ShowVersion => ParseEndModel::ShowVersion,
            ParseEnd::ShowHelp => ParseEndModel::ShowHelp,
            ParseEnd::EscapeCheck(i) => ParseEndModel::EscapeCheck(*i as nat),
            ParseEnd::Failed(e) => ParseEndModel::Failed(e@),
        }
    }
}

/// The settings read, and where reading ended.
pub struct ParsedArgs {
    pub options: Options,
    pub end: ParseEnd,
}

impl View for ParsedArgs {
    type V = (OptionsModel, ParseEndModel);

    open spec fn view(&self) -> (OptionsModel, ParseEndModel) {
        (self.options@, self.end@)
    }
}

/// The settings before any argument is read.
pub open spec fn initial_options() -> OptionsModel {
    OptionsModel {
        origin: None,
        replica: None,
        serve_origin: false,
        serve_replica: false,
        verbose: 0,
        protocol: None,
        ssh: "ssh"@,
        port: 0,
        exe: "sqlite3_rsync"@,
        wal_only: false,
        comm_check: false,
        err_file: None,
        debug_file: None,
        remote_err_file: None,
        remote_debug_file: None,
        log_files: Seq::empty(),
    }
}

/// An argument that begins with `--` and goes on is read with one `-` less.
pub open spec fn normalized(b: Seq<u8>) -> Seq<u8> {
    if b.len() > 2 && b[0] == DASH && b[1] == DASH {
        b.drop_first()
    } else {
        b
    }
}

/// The option named `name`.
pub open spec fn is_opt(z: Seq<u8>, name: &str) -> bool {
    z == name.spec_bytes()
}

/// `u8` addition that stops at 255.
pub open spec fn saturating_add_u8(a: u8, b: u8) -> u8 {
    if a + b > 255 {
        255
    } else {
        (a + b) as u8
    }
}

/// The protocol version that `--protocol` asks for: its value (1 where it is
/// no number that fits in a `u8`), kept between 1 and `max_protocol`.
pub open spec fn requested_protocol(b: Seq<u8>, max_protocol: u8) -> u8 {
    let v: nat = match parse_unsigned(b, 255) {
        Some(v) => v,
        None => 1,
    };
    if v < 1 {
        1
    } else if v > max_protocol {
        max_protocol
    } else {
        v as u8
    }
}

/// The protocol version that `--protocol` sets is always a supported one,
/// between 1 and the newest.
pub proof fn lemma_requested_protocol_supported(b: Seq<u8>, max_protocol: u8)
    requires
        max_protocol >= 1,
    ensures
        1 <= requested_protocol(b, max_protocol) <= max_protocol,
{
}

/// The port that `-p` asks for: its value as an `i32`, or 0 where it is none.
pub open spec fn requested_port(b: Seq<u8>) -> int {
    match parse_i32(b) {
        Some(v) => v,
        None => 0,
    }
}

/// One step of reading the command line.
pub enum ParseStep {
    /// Go on at the index, with these settings.
    Next(OptionsModel, int),
    /// Reading ends here.
    Stop(OptionsModel, ParseEndModel),
}

/// Reading the argument at `i`, with settings `o`.
pub open spec fn parse_step(args: Seq<Seq<char>>, i: int, o: OptionsModel, max_protocol: u8) -> ParseStep {
    let raw = args[i];
    let z = normalized(utf8_of(raw));
    let has_next = i + 1 < args.len();
    let next = args[i + 1];
    if is_opt(z, "-origin") {
        ParseStep::Next(OptionsModel { serve_origin: true, ..o }, i + 1)
    } else if is_opt(z, "-replica") {
        ParseStep::Next(OptionsModel { serve_replica: true, ..o }, i + 1)
    } else if count_vs(z) > 0 {
        ParseStep::Next(OptionsModel { verbose: saturating_add_u8(o.verbose, count_vs(z)), ..o }, i + 1)
    } else if is_opt(z, "-protocol") {
        if !has_next {
            ParseStep::Stop(o, ParseEndModel::Failed(ArgErrorModel::MissingArgument("--protocol"@)))
        } else {
            ParseStep::Next(
                OptionsModel { protocol: Some(requested_protocol(utf8_of(next), max_protocol)), ..o },
                i + 2,
            )
        }
    } else if is_opt(z, "-ssh") {
        if !has_next {
            ParseStep::Stop(o, ParseEndModel::Failed(ArgErrorModel::MissingArgument("--ssh"@)))
        } else {
            ParseStep::Next(OptionsModel { ssh: next, ..o }, i + 2)
        }
    } else if is_opt(z, "-port") || is_opt(z, "-p") {
        if !has_next {
            ParseStep::Stop(o, ParseEndModel::Failed(ArgErrorModel::MissingArgument("--port"@)))
        } else if 1 <= requested_port(utf8_of(next)) <= 65535 {
            ParseStep::Next(OptionsModel { port: requested_port(utf8_of(next)) as i32, ..o }, i + 2)
        } else {
            ParseStep::Stop(o, ParseEndModel::Failed(ArgErrorModel::InvalidPort(next)))
        }
    } else if is_opt(z, "-exe") {
        if !has_next {
            ParseStep::Stop(o, ParseEndModel::Failed(ArgErrorModel::MissingArgument("--exe"@)))
        } else {
            ParseStep::Next(OptionsModel { exe: next, ..o }, i + 2)
        }
    } else if is_opt(z, "-wal-only") {
        ParseStep::Next(OptionsModel { wal_only: true, ..o }, i + 1)
    } else if is_opt(z, "-version") {
        ParseStep::Stop(o, ParseEndModel::ShowVersion)
    } else if is_opt(z, "-help") || is_opt(z, "--help") || is_opt(z, "-?") {
        ParseStep::Stop(o, ParseEndModel::ShowHelp)
    } else if is_opt(z, "-logfile") {
        if !has_next {
            ParseStep::Stop(o, ParseEndModel::Failed(ArgErrorModel::MissingArgument("--logfile"@)))
        } else {
            ParseStep::Next(OptionsModel { log_files: o.log_files.push(next), ..o }, i + 2)
        }
    } else if is_opt(z, "-errorfile") {
        if !has_next {
            ParseStep::Stop(o, ParseEndModel::Failed(ArgErrorModel::MissingArgument("--errorfile"@)))
        } else {
            ParseStep::Next(OptionsModel { err_file: Some(next), ..o }, i + 2)
        }
    } else if is_opt(z, "-remote-errorfile") {
        if !has_next {
            ParseStep::Stop(
                o,
                ParseEndModel::Failed(ArgErrorModel::MissingArgument("--remote-errorfile"@)),
            )
        } else {
            ParseStep::Next(OptionsModel { remote_err_file: Some(next), ..o }, i + 2)
        }
    } else if is_opt(z, "-debugfile") {
        if !has_next {
            ParseStep::Stop(o, ParseEndModel::Failed(ArgErrorModel::MissingArgument("--debugfile"@)))
        } else {
            ParseStep::Next(OptionsModel { debug_file: Some(next), ..o }, i + 2)
        }
    } else if is_opt(z, "-remote-debugfile") {
        if !has_next {
            ParseStep::Stop(
                o,
                ParseEndModel::Failed(ArgErrorModel::MissingArgument("--remote-debugfile"@)),
            )
        } else {
            ParseStep::Next(OptionsModel { remote_debug_file: Some(next), ..o }, i + 2)
        }
    } else if is_opt(z, "-commcheck") {
        ParseStep::Next(OptionsModel { comm_check: true, ..o }, i + 1)
    } else if is_opt(z, "-arg-escape-check") {
        ParseStep::Stop(o, ParseEndModel::EscapeCheck(i as nat))
    } else if z.len() > 0 && z[0] == DASH {
        ParseStep::Stop(o, ParseEndModel::Failed(ArgErrorModel::UnknownOption(raw)))
    } else if o.origin is None {
        ParseStep::Next(OptionsModel { origin: Some(raw), ..o }, i + 1)
    } else if o.replica is None {
        ParseStep::Next(OptionsModel { replica: Some(raw), ..o }, i + 1)
    } else {
        ParseStep::Stop(o, ParseEndModel::Failed(ArgErrorModel::UnexpectedArgument(raw)))
    }
}

/// The checks once every argument is read.
pub open spec fn finish(o: OptionsModel) -> ParseEndModel {
    if o.origin is None {
        ParseEndModel::Failed(ArgErrorModel::MissingOrigin)
    } else if o.replica is None {
        ParseEndModel::Failed(ArgErrorModel::MissingReplica)
    } else if o.serve_origin && o.serve_replica {
        ParseEndModel::Failed(ArgErrorModel::BadOptionCombination)
    } else {
        ParseEndModel::Ready
    }
}

/// Reading the command line from index `i` on, with settings `o`.
pub open spec fn parse_from(args: Seq<Seq<char>>, i: int, o: OptionsModel, max_protocol: u8) -> (
    OptionsModel,
    ParseEndModel,
)
    decreases args.len() - i,
{
    if i < 0 || i >= args.len() {
        (o, finish(o))
    } else {
        match parse_step(args, i, o, max_protocol) {
            ParseStep::Next(o2, j) => if i < j {
                parse_from(args, j, o2, max_protocol)
            } else {
                (o2, finish(o2))
            },
            ParseStep::Stop(o2, end) => (o2, end),
        }
    }
}

/// What the command line `args` (the program name first) asks for.
pub open spec fn parse_command_line(args: Seq<Seq<char>>, max_protocol: u8) -> (
    OptionsModel,
    ParseEndModel,
) {
    parse_from(args, 1, initial_options(), max_protocol)
}

/// Reads the command line `args`, the program name first, with
/// `max_protocol` the newest protocol version there is.
pub fn parse_args(args: &Vec<String>, max_protocol: u8) -> (r: ParsedArgs)
    requires
        max_protocol >= 1,
    ensures
        r@ == parse_command_line(strings_view(args@), max_protocol),
{
    let ghost av = strings_view(args@);
    let mut o = Options {
        origin: None,
        replica: None,
        serve_origin: false,
        serve_replica: false,
        verbose: 0,
        protocol: None,
        ssh: String::from_str("ssh"),
        port: 0,
        exe: String::from_str("sqlite3_rsync"),
        wal_only: false,
        comm_check: false,
        err_file: None,
        debug_file: None,
        remote_err_file: None,
        remote_debug_file: None,
        log_files: Vec::new(),
    };
    assert(o@.log_files =~= Seq::<Seq<char>>::empty());
    assert(o@ == initial_options());
    let mut i: usize = 1;
    while i < args.len()
        invariant
            av == strings_view(args@),
            max_protocol >= 1,
            1 <= i,
            parse_from(av, i as int, o@, max_protocol) == parse_command_line(av, max_protocol),
        decreases args@.len() - i,
    {
        let ghost o0 = o@;
        assert(av[i as int] == args@[i as int]@);
        let raw_str = args[i].as_str();
        let raw = raw_str.as_bytes();
        let z: &[u8] = if raw.len() > 2 && raw[0] == DASH && raw[1] == DASH {
            raw.split_at(1).1
        } else {
            raw
        };
        assert(z@ =~= normalized(utf8_of(av[i as int])));
        let has_next = i + 1 < args.len();
        proof {
            if has_next {
                assert(av[i + 1] == args@[i + 1]@);
            }
        }
        let ghost step = parse_step(av, i as int, o0, max_protocol);
        let nv = count_vs_bytes(z);
        if bytes_eq(z, "-origin".as_bytes()) {
            o.serve_origin = true;
            i = i + 1;
        } else if bytes_eq(z, "-replica".as_bytes()) {
            o.serve_replica = true;
            i = i + 1;
        } else if nv > 0 {
            o.verbose = o.verbose.saturating_add(nv);
            i = i + 1;
        } else if bytes_eq(z, "-protocol".as_bytes()) {
            if !has_next {
                return ParsedArgs {
                    options: o,
                    end: ParseEnd::Failed(ArgError::MissingArgument(String::from_str("--protocol"))),
                };
            }
            let v = match parse_unsigned_text(args[i + 1].as_str().as_bytes(), 255) {
                Some(v) => v,
                None => 1,
            };
            let p: u8 = if v < 1 {
                1
            } else if v > max_protocol as u32 {
                max_protocol
            } else {
                v as u8
            };
            o.protocol = Some(p);
            i = i + 2;
        } else if bytes_eq(z, "-ssh".as_bytes()) {
            if !has_next {
                return ParsedArgs {
                    options: o,
                    end: ParseEnd::Failed(ArgError::MissingArgument(String::from_str("--ssh"))),
                };
            }
            o.ssh = args[i + 1].clone();
            i = i + 2;
        } else if bytes_eq(z, "-port".as_bytes()) || bytes_eq(z, "-p".as_bytes()) {
            if !has_next {
                return ParsedArgs {
                    options: o,
                    end: ParseEnd::Failed(ArgError::MissingArgument(String::from_str("--port"))),
                };
            }
            let port: i32 = match parse_i32_text(args[i + 1].as_str().as_bytes()) {
                Some(v) => v,
                None => 0,
            };
            if !(1 <= port && port <= 65535) {
                return ParsedArgs {
                    options: o,
                    end: ParseEnd::Failed(ArgError::InvalidPort(args[i + 1].clone())),
                };
            }
            o.port = port;
            i = i + 2;
        } else if bytes_eq(z, "-exe".as_bytes()) {
            if !has_next {
                return ParsedArgs {
                    options: o,
                    end: ParseEnd::Failed(ArgError::MissingArgument(String::from_str("--exe"))),
                };
            }
            o.exe = args[i + 1].clone();
            i = i + 2;
        } else if bytes_eq(z, "-wal-only".as_bytes()) {
            o.wal_only = true;
            i = i + 1;
        } else if bytes_eq(z, "-version".as_bytes()) {
            return ParsedArgs { options: o, end: ParseEnd::ShowVersion };
        } else if bytes_eq(z, "-help".as_bytes()) || bytes_eq(z, "--help".as_bytes()) || bytes_eq(
            z,
            "-?".as_bytes(),
        ) {
            return ParsedArgs { options: o, end: ParseEnd::ShowHelp };
        } else if bytes_eq(z, "-logfile".as_bytes()) {
            if !has_next {
                return ParsedArgs {
                    options: o,
                    end: ParseEnd::Failed(ArgError::MissingArgument(String::from_str("--logfile"))),
                };
            }
            o.log_files.push(args[i + 1].clone());
            assert(o@.log_files =~= o0.log_files.push(av[i + 1]));
            i = i + 2;
        } else if bytes_eq(z, "-errorfile".as_bytes()) {
            if !has_next {
                return ParsedArgs {
                    options: o,
                    end: ParseEnd::Failed(
                        ArgError::MissingArgument(String::from_str("--errorfile")),
                    ),
                };
            }
            o.err_file = Some(args[i + 1].clone());
            i = i + 2;
        } else if bytes_eq(z, "-remote-errorfile".as_bytes()) {
            if !has_next {
                return ParsedArgs {
                    options: o,
                    end: ParseEnd::Failed(
                        ArgError::MissingArgument(String::from_str("--remote-errorfile")),
                    ),
                };
            }
            o.remote_err_file = Some(args[i + 1].clone());
            i = i + 2;
        } else if bytes_eq(z, "-debugfile".as_bytes()) {
            if !has_next {
                return ParsedArgs {
                    options: o,
                    end: ParseEnd::Failed(
                        ArgError::MissingArgument(String::from_str("--debugfile")),
                    ),
                };
            }
            o.debug_file = Some(args[i + 1].clone());
            i = i + 2;
        } else if bytes_eq(z, "-remote-debugfile".as_bytes()) {
            if !has_next {
                return ParsedArgs {
                    options: o,
                    end: ParseEnd::Failed(
                        ArgError::MissingArgument(String::from_str("--remote-debugfile")),
                    ),
                };
            }
            o.remote_debug_file = Some(args[i + 1].clone());
            i = i + 2;
        } else if bytes_eq(z, "-commcheck".as_bytes()) {
            o.comm_check = true;
            i = i + 1;
        } else if bytes_eq(z, "-arg-escape-check".as_bytes()) {
            return ParsedArgs { options: o, end: ParseEnd::EscapeCheck(i) };
        } else if z.len() > 0 && z[0] == DASH {
            return ParsedArgs {
                options: o,
                end: ParseEnd::Failed(ArgError::UnknownOption(args[i].clone())),
            };
        } else if o.origin.is_none() {
            o.origin = Some(args[i].clone());
            i = i + 1;
        } else if o.replica.is_none() {
            o.replica = Some(args[i].clone());
            i = i + 1;
        } else {
            return ParsedArgs {
                options: o,
                end: ParseEnd::Failed(ArgError::UnexpectedArgument(args[i].clone())),
            };
        }
        assert(step matches ParseStep::Next(o2, j) && o2 == o@ && j == i);
    }
    let end = if o.origin.is_none() {
        ParseEnd::Failed(ArgError::MissingOrigin)
    } else if o.replica.is_none() {
        ParseEnd::Failed(ArgError::MissingReplica)
    } else if o.serve_origin && o.serve_replica {
        ParseEnd::Failed(ArgError::BadOptionCombination)
    } else {
        ParseEnd::Ready
    };
    ParsedArgs { options: o, end }
}

/// `x` is one of the arguments after the program name, and does not begin
/// with `-`.
pub open spec fn is_positional(args: Seq<Seq<char>>, x: Seq<char>) -> bool {
    exists|k: int|
        1 <= k < args.len() && #[trigger] args[k] == x && !(utf8_of(x).len() > 0 && utf8_of(x)[0]
            == DASH)
}

/// `x` is the argument that follows an option named `name` (in its `-name`
/// or `--name` form).
pub open spec fn is_value_of(args: Seq<Seq<char>>, name: &str, x: Seq<char>) -> bool {
    exists|k: int|
        1 <= k && k + 1 < args.len() && is_opt(normalized(utf8_of(#[trigger] args[k])), name)
            && args[k + 1] == x
}

/// `p` is the port that a `-p` or `--port` option gives.
pub open spec fn is_port_given(args: Seq<Seq<char>>, p: i32) -> bool {
    exists|k: int|
        1 <= k && k + 1 < args.len() && (is_opt(normalized(utf8_of(#[trigger] args[k])), "-port")
            || is_opt(normalized(utf8_of(args[k])), "-p")) && requested_port(utf8_of(args[k + 1]))
            == p
}

/// What holds of the settings at every point of reading: a port is 0 or a
/// TCP port that `-p` gave, a protocol is a supported one, each database
/// name is an argument that does not begin with `-`, and each setting with a
/// value is its default or the value after its option.
pub open spec fn settings_sound(args: Seq<Seq<char>>, o: OptionsModel, max_protocol: u8) -> bool {
    &&& o.port == 0 || (1 <= o.port <= 65535 && is_port_given(args, o.port))
    &&& (o.protocol matches Some(p) ==> 1 <= p <= max_protocol)
    &&& (o.origin matches Some(x) ==> is_positional(args, x))
    &&& (o.replica matches Some(x) ==> is_positional(args, x))
    &&& (o.ssh == "ssh"@ || is_value_of(args, "-ssh", o.ssh))
    &&& (o.exe == "sqlite3_rsync"@ || is_value_of(args, "-exe", o.exe))
    &&& (o.err_file matches Some(x) ==> is_value_of(args, "-errorfile", x))
    &&& (o.debug_file matches Some(x) ==> is_value_of(args, "-debugfile", x))
    &&& (o.remote_err_file matches Some(x) ==> is_value_of(args, "-remote-errorfile", x))
    &&& (o.remote_debug_file matches Some(x) ==> is_value_of(args, "-remote-debugfile", x))
    &&& forall|f: int|
        0 <= f < o.log_files.len() ==> is_value_of(args, "-logfile", #[trigger] o.log_files[f])
}

proof fn lemma_parse_step_sound(args: Seq<Seq<char>>, i: int, o: OptionsModel, max_protocol: u8)
    requires
        max_protocol >= 1,
        1 <= i < args.len(),
        settings_sound(args, o, max_protocol),
    ensures
        match parse_step(args, i, o, max_protocol) {
            ParseStep::Next(o2, j) => settings_sound(args, o2, max_protocol) && i < j,
            ParseStep::Stop(o2, _) => settings_sound(args, o2, max_protocol),
        },
{
    let raw = args[i];
    let b = utf8_of(raw);
    let z = normalized(b);
    let has_next = i + 1 < args.len();
    if b.len() > 0 && b[0] == DASH {
        assert(z.len() > 0 && z[0] == DASH);
    }
    assert(args[i] == raw);
    if has_next {
        let next = args[i + 1];
        lemma_requested_protocol_supported(utf8_of(next), max_protocol);
        if is_opt(z, "-ssh") {
            assert(is_value_of(args, "-ssh", next));
        } else if is_opt(z, "-exe") {
            assert(is_value_of(args, "-exe", next));
        } else if is_opt(z, "-port") || is_opt(z, "-p") {
            assert(is_port_given(args, requested_port(utf8_of(next)) as i32));
        } else if is_opt(z, "-logfile") {
            assert(is_value_of(args, "-logfile", next));
            let o2 = OptionsModel { log_files: o.log_files.push(next), ..o };
            assert forall|f: int| 0 <= f < o2.log_files.len() implies is_value_of(
                args,
                "-logfile",
                #[trigger] o2.log_files[f],
            ) by {
                if f < o.log_files.len() {
                    assert(o2.log_files[f] == o.log_files[f]);
                }
            }
        } else if is_opt(z, "-errorfile") {
            assert(is_value_of(args, "-errorfile", next));
        } else if is_opt(z, "-remote-errorfile") {
            assert(is_value_of(args, "-remote-errorfile", next));
        } else if is_opt(z, "-debugfile") {
            assert(is_value_of(args, "-debugfile", next));
        } else if is_opt(z, "-remote-debugfile") {
            assert(is_value_of(args, "-remote-debugfile", next));
        }
    }
    if !(z.len() > 0 && z[0] == DASH) {
        assert(is_positional(args, raw));
    }
}

/// Reading the command line keeps the settings sound from index `i` on.
pub proof fn lemma_parse_from_sound(args: Seq<Seq<char>>, i: int, o: OptionsModel, max_protocol: u8)
    requires
        max_protocol >= 1,
        1 <= i,
        settings_sound(args, o, max_protocol),
    ensures
        settings_sound(args, parse_from(args, i, o, max_protocol).0, max_protocol),
    decreases args.len() - i,
{
    if i < args.len() {
        lemma_parse_step_sound(args, i, o, max_protocol);
        match parse_step(args, i, o, max_protocol) {
            ParseStep::Next(o2, j) => {
                lemma_parse_from_sound(args, j, o2, max_protocol);
            },
            ParseStep::Stop(o2, _) => {},
        }
    }
}

/// Whatever the command line, the settings read are sound: the port is 0 or
/// a TCP port in 1..=65535 that `-p` gave, the protocol is between 1 and the
/// newest, the database names are arguments that do not begin with `-`, and
/// the SSH program, the program, the files and the log files are their
/// defaults or values that follow their options.  A command line
/// that is ready names both databases and does not ask to serve both sides.
pub proof fn lemma_parse_sound(args: Seq<Seq<char>>, max_protocol: u8)
    requires
        max_protocol >= 1,
    ensures
        settings_sound(args, parse_command_line(args, max_protocol).0, max_protocol),
        parse_command_line(args, max_protocol).1 is Ready ==> {
            let o = parse_command_line(args, max_protocol).0;
            o.origin is Some && o.replica is Some && !(o.serve_origin && o.serve_replica)
        },
{
    lemma_parse_from_sound(args, 1, initial_options(), max_protocol);
    lemma_parse_from_ready(args, 1, initial_options(), max_protocol);
}

proof fn lemma_parse_from_ready(args: Seq<Seq<char>>, i: int, o: OptionsModel, max_protocol: u8)
    ensures
        parse_from(args, i, o, max_protocol).1 is Ready ==> {
            let r = parse_from(args, i, o, max_protocol).0;
            r.origin is Some && r.replica is Some && !(r.serve_origin && r.serve_replica)
        },
    decreases args.len() - i,
{
    if 0 <= i < args.len() {
        match parse_step(args, i, o, max_protocol) {
            ParseStep::Next(o2, j) => {
                if i < j {
                    lemma_parse_from_ready(args, j, o2, max_protocol);
                }
            },
            ParseStep::Stop(o2, end) => {
                assert(!(end is Ready));
            },
        }
    }
}

} // verus!
