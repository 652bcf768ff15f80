//! Viewer configuration and the rules that shape what is sent to a viewer:
//! point decimation and viewer address normalization.

use vstd::prelude::*;

use crate::error::{QuanergyError, Result};
use crate::text::{
    chars_of, contains_str, occurs_at, push_decimal, spec_contains, spec_decimal, spec_trim, string_from_chars,
    trim_chars,
};

verus! {

/// Where the viewer's recording goes.
#[derive(Debug, Clone)]
pub enum RerunOutput {
    /// Start a viewer process, from an explicit executable path if given.
    Spawn(Option<String>),
    /// Stream to a running viewer at this address.
    Connect(String),
    /// Record into this file.
    Save(String),
}

impl Default for RerunOutput {
    fn default() -> (r: Self)
        ensures
            r matches RerunOutput::Spawn(None),
    {
        RerunOutput::Spawn(None)
    }
}

/// Viewer output and the largest number of points drawn per frame
/// (zero draws every point).
#[derive(Debug, Clone)]
pub struct VisualizerConfig {
    pub output: RerunOutput,
    pub max_points: usize,
}

/// The number of points drawn per frame unless configured otherwise.
pub const DEFAULT_MAX_POINTS: usize = 300_000;

impl Default for VisualizerConfig {
    fn default() -> (r: Self)
        ensures
            r.output matches RerunOutput::Spawn(None),
            r.max_points == DEFAULT_MAX_POINTS,
    {
        VisualizerConfig { output: RerunOutput::Spawn(None), max_points: DEFAULT_MAX_POINTS }
    }
}

/// The step between drawn points: 1 when every point fits (or there is no
/// limit), else the smallest step that keeps at most `max_points`.
pub open spec fn spec_display_stride(point_count: int, max_points: int) -> int {
    if max_points == 0 || point_count <= max_points {
        1
    } else {
        (point_count + max_points - 1) / max_points
    }
}

/// The step between drawn points of a frame of `point_count` points.
pub fn display_stride(point_count: usize, max_points: usize) -> (r: usize)
    ensures
        r == spec_display_stride(point_count as int, max_points as int),
        r >= 1,
        max_points > 0 ==> (point_count + r - 1) / (r as int) <= max_points,
{
    if max_points == 0 || point_count <= max_points {
        1
    } else {
        let q = point_count / max_points;
        let rem = point_count % max_points;
        proof {
            let n = point_count as int;
            let m = max_points as int;
            let qq = q as int;
            let rr = rem as int;
            vstd::arithmetic::div_mod::lemma_fundamental_div_mod(n, m);
            assert(n == qq * m + rr) by (nonlinear_arith)
                requires n == m * qq + rr;
            assert(rr != 0 ==> qq < usize::MAX) by (nonlinear_arith)
                requires n == qq * m + rr, 0 <= rr < m, n <= usize::MAX, qq >= 0;
        }
        let r = if rem != 0 { q + 1 } else { q };
        proof {
            let n = point_count as int;
            let m = max_points as int;
            let qq = q as int;
            let rr = rem as int;
            assert(qq >= 1) by (nonlinear_arith)
                requires n == qq * m + rr, 0 <= rr < m, n > m;
            if rem != 0 {
                assert(n + m - 1 == (qq + 1) * m + (rr - 1)) by (nonlinear_arith)
                    requires n == qq * m + rr;
                vstd::arithmetic::div_mod::lemma_fundamental_div_mod_converse(n + m - 1, m, qq + 1, rr - 1);
            } else {
                vstd::arithmetic::div_mod::lemma_fundamental_div_mod_converse(n + m - 1, m, qq, m - 1);
            }
            let st = r as int;
            assert(st * m >= n) by (nonlinear_arith)
                requires n == qq * m + rr, 0 <= rr < m, st == (if rr != 0 { qq + 1 } else { qq }), qq >= 1;
            vstd::arithmetic::div_mod::lemma_fundamental_div_mod(n + st - 1, st);
            let t = (n + st - 1) / st;
            assert(t <= m) by (nonlinear_arith)
                requires n + st - 1 == st * t + (n + st - 1) % st, 0 <= (n + st - 1) % st, st * m >= n, st >= 1;
        }
        r
    }
}

/// What the address of a viewer becomes: kept when it already names a
/// scheme, else the viewer's gRPC proxy at that host and port.
pub open spec fn spec_connect_url(addr: Seq<char>) -> Seq<char> {
    if spec_contains(addr, "://"@) {
        addr
    } else {
        "rerun+http://"@ + addr + "/proxy"@
    }
}

/// The viewer URL for an address given as `host:port` or as a URL.
pub fn normalize_connect_addr(addr: &str) -> (r: String)
    ensures
        r@ == spec_connect_url(addr@),
{
    let chars = chars_of(addr);
    if contains_str(&chars, "://") {
        addr.to_owned()
    } else {
        let r = String::from_str("rerun+http://").concat(addr).concat("/proxy");
        proof {
            reveal_strlit("rerun+http://");
            reveal_strlit("/proxy");
        }
        r
    }
}

/// Normalizing a viewer address twice gives what normalizing it once
/// gives: a normalized address already names a scheme.
pub proof fn lemma_connect_url_idempotent(addr: Seq<char>)
    ensures
        spec_connect_url(spec_connect_url(addr)) == spec_connect_url(addr),
{
    if !spec_contains(addr, "://"@) {
        let u = spec_connect_url(addr);
        reveal_strlit("rerun+http://");
        reveal_strlit("/proxy");
        reveal_strlit("://");
        assert(u.subrange(10, 13) =~= "://"@);
        assert(occurs_at(u, "://"@, 10));
    }
}

/// The explanation shown when no sensor host was configured.
pub open spec fn missing_host_text() -> Seq<char> {
    "no host provided\n\nProvide a sensor host, for example:\n  quanergy-client.exe --host <SENSOR_IP>\n  quanergy-client.exe visualizer live --host <SENSOR_IP>\n  quanergy-client.exe visualizer live --settings-file <client.xml>\n\nFor record or dynamic-connection, pass --host to that command."@
}

/// The explanation shown when no sensor host was configured.
pub fn missing_host_message() -> (r: String)
    ensures
        r@ == missing_host_text(),
{
    String::from_str(
        "no host provided\n\nProvide a sensor host, for example:\n  quanergy-client.exe --host <SENSOR_IP>\n  quanergy-client.exe visualizer live --host <SENSOR_IP>\n  quanergy-client.exe visualizer live --settings-file <client.xml>\n\nFor record or dynamic-connection, pass --host to that command.",
    )
}

/// The viewer configuration chosen by command-line options: a save file
/// wins over a viewer address, and without either a viewer is started.
pub fn visualizer_config(rerun_save: Option<String>, rerun_connect: Option<String>, max_points: usize) -> (r: VisualizerConfig)
    ensures
        r.max_points == max_points,
        rerun_save is Some ==> (r.output matches RerunOutput::Save(q) && Some(q) == rerun_save),
        (rerun_save is None && rerun_connect is Some) ==> (r.output matches RerunOutput::Connect(b) && Some(b) == rerun_connect),
        (rerun_save is None && rerun_connect is None) ==> (r.output matches RerunOutput::Spawn(None)),
{
    let output = match rerun_save {
        Some(path) => RerunOutput::Save(path),
        None => match rerun_connect {
            Some(addr) => RerunOutput::Connect(addr),
            None => RerunOutput::Spawn(None),
        },
    };
    VisualizerConfig { output, max_points }
}

/// The file a recording falls back to when no viewer could be started:
/// `quanergy_<seconds>.rrd`.
pub fn fallback_recording_name(unix_seconds: u64) -> (r: String)
    ensures
        r@ == "quanergy_"@ + spec_decimal(unix_seconds as nat) + ".rrd"@,
{
    let mut r = String::from_str("quanergy_");
    push_decimal(&mut r, unix_seconds);
    let r = r.concat(".rrd");
    proof {
        reveal_strlit("quanergy_");
        reveal_strlit(".rrd");
    }
    r
}

/// Whether an argument is the long form of global flag `verbose` or
/// `strict`.
pub open spec fn spec_is_global_flag(arg: Seq<char>) -> bool {
    arg == "--verbose"@ || arg == "--strict"@
}

/// Whether an argument asks for help or for the version.
pub open spec fn spec_is_help_or_version(arg: Seq<char>) -> bool {
    arg == "--help"@ || arg == "-h"@ || arg == "--version"@ || arg == "-V"@
}

/// Whether an argument names one of the program's commands.
pub open spec fn spec_is_subcommand(arg: Seq<char>) -> bool {
    arg == "visualizer"@ || arg == "record"@ || arg == "dynamic-connection"@ || arg == "help"@
}

/// The position of the first argument that is not a global flag.
pub open spec fn spec_first_non_global(args: Seq<Seq<char>>, from: int) -> int
    decreases args.len() - from,
{
    if from >= args.len() || from < 0 {
        args.len() as int
    } else if spec_is_global_flag(args[from]) {
        spec_first_non_global(args, from + 1)
    } else {
        from
    }
}

/// Whether the user arguments (after the program name) ask for help or
/// the version before anything but global flags.
pub open spec fn spec_requests_root_metadata(args: Seq<Seq<char>>) -> bool {
    let k = spec_first_non_global(args, 1);
    k < args.len() && spec_is_help_or_version(args[k])
}

/// Whether the user arguments name a command before any option.
pub open spec fn spec_has_explicit_subcommand(args: Seq<Seq<char>>) -> bool {
    let k = spec_first_non_global(args, 1);
    k < args.len() && !(args[k].len() > 0 && args[k][0] == '-') && spec_is_subcommand(args[k])
}

/// Whether a string equals one of up to four literals.
fn is_one_of(a: &String, l1: &str, l2: &str, l3: &str, l4: &str) -> (r: bool)
    ensures
        r == (a@ == l1@ || a@ == l2@ || a@ == l3@ || a@ == l4@),
{
    *a == String::from_str(l1) || *a == String::from_str(l2) || *a == String::from_str(l3) || *a
        == String::from_str(l4)
}

/// The position of the first argument from `from` on that is not a global
/// flag.
fn first_non_global(args: &Vec<String>, from: usize) -> (r: usize)
    ensures
        r == spec_first_non_global(string_seq(args@), from as int),
    decreases args.len() - from,
{
    if from >= args.len() {
        return args.len();
    }
    let is_global = *&args[from] == String::from_str("--verbose") || *&args[from] == String::from_str("--strict");
    if is_global {
        first_non_global(args, from + 1)
    } else {
        from
    }
}

/// The views of a list of strings.
pub open spec fn string_seq(v: Seq<String>) -> Seq<Seq<char>> {
    v.map_values(|s: String| s@)
}

/// Whether the user arguments ask for help or the version first.
pub fn requests_root_metadata(args: &Vec<String>) -> (r: bool)
    ensures
        r == spec_requests_root_metadata(string_seq(args@)),
{
    let k = first_non_global(args, 1);
    k < args.len() && is_one_of(&args[k], "--help", "-h", "--version", "-V")
}

/// Whether the user arguments name a command before any option.
pub fn has_explicit_subcommand(args: &Vec<String>) -> (r: bool)
    ensures
        r == spec_has_explicit_subcommand(string_seq(args@)),
{
    let k = first_non_global(args, 1);
    if k >= args.len() {
        return false;
    }
    let a = args[k].as_str();
    let n = a.unicode_len();
    if n > 0 && a.get_char(0) == '-' {
        return false;
    }
    is_one_of(&args[k], "visualizer", "record", "dynamic-connection", "help")
}

/// The command line a launch runs: unchanged when it names a command or
/// asks for help or the version, else with `visualizer live` put right
/// after the program name. The flag tells whether that was done.
pub fn default_visualizer_live_args(args: Vec<String>) -> (r: (Vec<String>, bool))
    ensures
        (args@.len() == 0 || spec_requests_root_metadata(string_seq(args@)) || spec_has_explicit_subcommand(
            string_seq(args@),
        )) ==> r.0@ == args@ && !r.1,
        !(args@.len() == 0 || spec_requests_root_metadata(string_seq(args@)) || spec_has_explicit_subcommand(
            string_seq(args@),
        )) ==> r.1 && string_seq(r.0@) == seq![string_seq(args@)[0], "visualizer"@, "live"@] + string_seq(args@).skip(1),
{
    if args.len() == 0 || requests_root_metadata(&args) || has_explicit_subcommand(&args) {
        return (args, false);
    }
    let mut out: Vec<String> = Vec::new();
    out.push(args[0].clone());
    out.push(String::from_str("visualizer"));
    out.push(String::from_str("live"));
    let mut i: usize = 1;
    while i < args.len()
        invariant
            1 <= i <= args.len(),
            string_seq(out@) =~= seq![string_seq(args@)[0], "visualizer"@, "live"@] + string_seq(args@).subrange(1, i as int),
        decreases args.len() - i,
    {
        let ghost before = out@;
        let a = args[i].clone();
        assert(a@ == string_seq(args@)[i as int]);
        out.push(a);
        assert(string_seq(out@) =~= string_seq(before).push(a@));
        assert(string_seq(args@).subrange(1, i + 1) =~= string_seq(args@).subrange(1, i as int).push(a@));
        i = i + 1;
        assert(string_seq(out@) =~= seq![string_seq(args@)[0], "visualizer"@, "live"@] + string_seq(args@).subrange(1, i as int));
    }
    assert(string_seq(args@).subrange(1, args.len() as int) =~= string_seq(args@).skip(1));
    (out, true)
}

/// The sensor host the viewer connects to; none configured is a
/// configuration error that says how to give one.
pub fn require_host(host: &String) -> (r: Result<String>)
    ensures
        host@.len() > 0 ==> r == Ok::<String, QuanergyError>(*host),
        host@.len() == 0 ==> (r matches Err(QuanergyError::Config(m)) && m@ == missing_host_text()),
{
    if host.as_str().is_empty() {
        Err(QuanergyError::Config(missing_host_message()))
    } else {
        Ok(host.clone())
    }
}

/// Whether an error is the one for a missing sensor host.
#[verifier::loop_isolation(false)]
pub fn is_missing_host_error(error: &QuanergyError) -> (r: bool)
    ensures
        r == (error matches QuanergyError::Config(m) && m@.len() >= 16 && m@.subrange(0, 16) == "no host provided"@),
{
    match error {
        QuanergyError::Config(message) => {
            let chars = chars_of(message.as_str());
            let prefix = chars_of("no host provided");
            proof {
                reveal_strlit("no host provided");
            }
            if chars.len() < prefix.len() {
                return false;
            }
            let mut i: usize = 0;
            while i < prefix.len()
                invariant
                    i <= prefix.len(),
                    prefix@ == "no host provided"@,
                    prefix.len() == 16,
                    prefix.len() <= chars.len(),
                    forall|k: int| 0 <= k < i ==> chars@[k] == prefix@[k],
                decreases prefix.len() - i,
            {
                if chars[i] != prefix[i] {
                    assert(chars@.subrange(0, 16)[i as int] != "no host provided"@[i as int]);
                    return false;
                }
                i = i + 1;
            }
            assert(chars@.subrange(0, 16) =~= "no host provided"@);
            true
        },
        _ => false,
    }
}

/// The command line a launch runs and whether to wait for the user before
/// closing on a missing host: only a launch with no arguments at all (as
/// from a double click) waits, once it was sent to `visualizer live`.
pub fn launch_args(args: Vec<String>) -> (r: (Vec<String>, bool))
    ensures
        (args@.len() == 0 || spec_requests_root_metadata(string_seq(args@)) || spec_has_explicit_subcommand(
            string_seq(args@),
        )) ==> r.0@ == args@ && !r.1,
        !(args@.len() == 0 || spec_requests_root_metadata(string_seq(args@)) || spec_has_explicit_subcommand(
            string_seq(args@),
        )) ==> string_seq(r.0@) == seq![string_seq(args@)[0], "visualizer"@, "live"@] + string_seq(args@).skip(1)
            && r.1 == (args@.len() == 1),
{
    let no_user_args = args.len() == 1;
    let (out, defaulted) = default_visualizer_live_args(args);
    (out, no_user_args && defaulted)
}


/// A line typed at the dynamic-connection console, read without its
/// surrounding white space.
#[derive(Debug, Clone, PartialEq, Eq)]
pub enum ConsoleCommand {
    /// `run`: connect and start counting clouds.
    Run,
    /// `stop`: disconnect.
    Stop,
    /// `exit`: disconnect and leave.
    Exit,
    /// Anything else, as typed.
    Unknown(String),
}

/// Whether `v` holds exactly the characters of `lit`.
fn chars_are(v: &Vec<char>, lit: &str) -> (r: bool)
    ensures
        r == (v@ == lit@),
{
    let l = chars_of(lit);
    if v.len() != l.len() {
        return false;
    }
    let mut i: usize = 0;
    while i < v.len()
        invariant
            i <= v.len(),
            v.len() == l.len(),
            l@ == lit@,
            forall|k: int| 0 <= k < i ==> v@[k] == l@[k],
        decreases v.len() - i,
    {
        if v[i] != l[i] {
            return false;
        }
        i = i + 1;
    }
    assert(v@ =~= l@);
    true
}

/// Reads a console line: its trimmed text names a command, or is kept as
/// an unknown input.
pub fn parse_console_command(line: &str) -> (r: ConsoleCommand)
    ensures
        spec_trim(line@) == "run"@ ==> r == ConsoleCommand::Run,
        spec_trim(line@) == "stop"@ ==> r == ConsoleCommand::Stop,
        spec_trim(line@) == "exit"@ ==> r == ConsoleCommand::Exit,
        spec_trim(line@) != "run"@ && spec_trim(line@) != "stop"@ && spec_trim(line@) != "exit"@
            ==> (r matches ConsoleCommand::Unknown(t) && t@ == spec_trim(line@)),
{
    let trimmed = trim_chars(&chars_of(line));
    proof {
        reveal_strlit("run");
        reveal_strlit("stop");
        reveal_strlit("exit");
        assert("stop"@.len() != "run"@.len());
        assert("exit"@.len() != "run"@.len());
        assert("exit"@[0] != "stop"@[0]);
    }
    if chars_are(&trimmed, "run") {
        ConsoleCommand::Run
    } else if chars_are(&trimmed, "stop") {
        ConsoleCommand::Stop
    } else if chars_are(&trimmed, "exit") {
        ConsoleCommand::Exit
    } else {
        ConsoleCommand::Unknown(string_from_chars(&trimmed))
    }
}

/// What the dynamic-connection console does next.
#[derive(Debug, Clone, Copy, PartialEq, Eq, Structural)]
pub enum ConsoleAction {
    /// Start a connection.
    Connect,
    /// Say that a connection is already running, and keep it.
    ReportAlreadyRunning,
    /// Stop the connection if there is one, and keep reading commands.
    Disconnect,
    /// Stop the connection if there is one, and leave.
    DisconnectAndExit,
    /// Say that the input matched no command.
    ReportUnknown,
}

/// The console's answer to a command, given whether a connection runs:
/// only one connection runs at a time.
pub fn console_action(command: &ConsoleCommand, connected: bool) -> (r: ConsoleAction)
    ensures
        r == match command {
            ConsoleCommand::Run => if connected {
                ConsoleAction::ReportAlreadyRunning
            } else {
                ConsoleAction::Connect
            },
            ConsoleCommand::Stop => ConsoleAction::Disconnect,
            ConsoleCommand::Exit => ConsoleAction::DisconnectAndExit,
            ConsoleCommand::Unknown(_) => ConsoleAction::ReportUnknown,
        },
        r == ConsoleAction::Connect ==> !connected,
{
    match command {
        ConsoleCommand::Run => if connected {
            ConsoleAction::ReportAlreadyRunning
        } else {
            ConsoleAction::Connect
        },
        ConsoleCommand::Stop => ConsoleAction::Disconnect,
        ConsoleCommand::Exit => ConsoleAction::DisconnectAndExit,
        ConsoleCommand::Unknown(_) => ConsoleAction::ReportUnknown,
    }
}

/// Whether a connection reports its cloud count after the cloud that
/// brought it to `count`: every hundredth cloud.
pub fn reports_cloud_count(count: u64) -> (r: bool)
    ensures
        r == (count % 100 == 0),
{
    count % 100 == 0
}

} // verus!
