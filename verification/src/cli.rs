//! The command line: its options and subcommands, and what a parsed
//! command line asks the program to do.

use vstd::prelude::*;

use crate::input::InputFormat;

verus! {

/// Options of the program. Without a subcommand a capture file is
/// replayed, and without a file the live dashboard opens.
pub struct Cli {
    /// A `.bmpd` or raw BMP capture to replay.
    pub file: Option<String>,
    /// Rolling window size for replay (10 by default).
    pub window_messages: usize,
    /// Milliseconds between summaries in replay (1000 by default).
    pub interval_ms: u64,
    /// Input format for replay.
    pub format: InputFormat,
    /// Kafka broker of the dashboard.
    pub broker: String,
    /// Exact Kafka topic: no stream browser.
    pub topic: Option<String>,
    /// Keep topics whose collector holds this fragment.
    pub collector: Option<String>,
    /// Keep topics of this peer ASN.
    pub asn: Option<String>,
    pub command: Option<Command>,
}

/// The subcommands.
pub enum Command {
    /// Human-readable summary of a capture and its health.
    Inspect { file: String, max_findings: usize, summary_json: bool, format: InputFormat, max_peers: usize },
    /// Findings for machines, with an exit code.
    Lint { file: String, max_findings: usize, format: InputFormat },
    /// One JSON object per message.
    Dump { file: String, jsonl: bool, max_findings: usize, format: InputFormat, max_events: usize },
    /// The live dashboard of a RouteViews BMP stream.
    Dashboard {
        broker: String,
        topic: Option<String>,
        collector: Option<String>,
        asn: Option<String>,
        window_messages: usize,
    },
}

/// Findings kept by default.
pub const DEFAULT_MAX_FINDINGS: usize = 1000;

/// Default Kafka broker.
pub const DEFAULT_BROKER: &'static str = "stream.routeviews.org:9092";

/// Rolling window of the dashboard when no subcommand names one.
pub const DEFAULT_DASHBOARD_WINDOW: usize = 100;

/// What the program does for a command line.
pub enum RunPlan {
    /// Replay a capture, printing rolling summaries.
    Replay { file: String, window_messages: usize, interval_ms: u64, format: InputFormat },
    /// Open the live dashboard.
    Dashboard {
        broker: String,
        topic: Option<String>,
        collector: Option<String>,
        asn: Option<String>,
        window_messages: usize,
    },
    /// Print the inspection report (as JSON with `summary_json`).
    Inspect { file: String, max_findings: usize, summary_json: bool, format: InputFormat, max_peers: usize },
    /// Print findings and leave with the worst finding's exit code.
    Lint { file: String, max_findings: usize, format: InputFormat },
    /// Print one JSON object per message.
    Dump { file: String, max_findings: usize, format: InputFormat, max_events: usize },
    /// `dump` was asked for without `--jsonl`: an error.
    DumpWithoutJsonl,
}

/// At least one finding is always kept.
pub open spec fn finding_cap(n: usize) -> usize {
    if n == 0 {
        1
    } else {
        n
    }
}

fn at_least_one(n: usize) -> (r: usize)
    ensures
        r == finding_cap(n),
{
    if n == 0 {
        1
    } else {
        n
    }
}

/// Whether a plan keeps the options it was made from: the given file,
/// format and caps (at least one finding), the given dashboard options
/// (a window of 100 when no subcommand names one).
pub open spec fn plan_of(cli: Cli, r: RunPlan) -> bool {
    match cli.command {
        None => match cli.file {
            Some(f) => r matches RunPlan::Replay { file, window_messages, interval_ms, format } && file@ == f@
                && window_messages == cli.window_messages && interval_ms == cli.interval_ms && format == cli.format,
            None => r matches RunPlan::Dashboard { broker, topic, collector, asn, window_messages } && broker@
                == cli.broker@ && topic == cli.topic && collector == cli.collector && asn == cli.asn && window_messages
                == 100,
        },
        Some(Command::Inspect { file, max_findings, summary_json, format, max_peers }) => r matches RunPlan::Inspect {
            file: f2,
            max_findings: m2,
            summary_json: j2,
            format: fm2,
            max_peers: p2,
        } && f2 == file && m2 == finding_cap(max_findings) && j2 == summary_json && fm2 == format && p2 == max_peers,
        Some(Command::Lint { file, max_findings, format }) => r matches RunPlan::Lint {
            file: f2,
            max_findings: m2,
            format: fm2,
        } && f2 == file && m2 == finding_cap(max_findings) && fm2 == format,
        Some(Command::Dump { file, jsonl, max_findings, format, max_events }) => if jsonl {
            r matches RunPlan::Dump { file: f2, max_findings: m2, format: fm2, max_events: e2 } && f2 == file && m2
                == finding_cap(max_findings) && fm2 == format && e2 == max_events
        } else {
            r is DumpWithoutJsonl
        },
        Some(Command::Dashboard { broker, topic, collector, asn, window_messages }) => r matches RunPlan::Dashboard {
            broker: b2,
            topic: t2,
            collector: c2,
            asn: a2,
            window_messages: w2,
        } && b2 == broker && t2 == topic && c2 == collector && a2 == asn && w2 == window_messages,
    }
}

/// What a command line asks for: without a subcommand, replay of the
/// file, or the dashboard over a window of 100 messages when no file is
/// given; with one, that subcommand with its options (each findings cap
/// at least 1). `dump` needs `--jsonl`.
pub fn plan(cli: Cli) -> (r: RunPlan)
    ensures
        plan_of(cli, r),
{
    let ghost c0 = cli;
    match cli.command {
        None => match cli.file {
            Some(file) => RunPlan::Replay {
                file,
                window_messages: cli.window_messages,
                interval_ms: cli.interval_ms,
                format: cli.format,
            },
            None => RunPlan::Dashboard {
                broker: cli.broker,
                topic: cli.topic,
                collector: cli.collector,
                asn: cli.asn,
                window_messages: DEFAULT_DASHBOARD_WINDOW,
            },
        },
        Some(Command::Inspect { file, max_findings, summary_json, format, max_peers }) => RunPlan::Inspect {
            file,
            max_findings: at_least_one(max_findings),
            summary_json,
            format,
            max_peers,
        },
        Some(Command::Lint { file, max_findings, format }) => RunPlan::Lint {
            file,
            max_findings: at_least_one(max_findings),
            format,
        },
        Some(Command::Dump { file, jsonl, max_findings, format, max_events }) => {
            if jsonl {
                RunPlan::Dump { file, max_findings: at_least_one(max_findings), format, max_events }
            } else {
                RunPlan::DumpWithoutJsonl
            }
        },
        Some(Command::Dashboard { broker, topic, collector, asn, window_messages }) => RunPlan::Dashboard {
            broker,
            topic,
            collector,
            asn,
            window_messages,
        },
    }
}

/// The format to read a capture in: an explicit one as given; for `Auto`,
/// the one detected from the file (`detected`), raw BMP when detection
/// failed.
pub fn resolve_format(format: InputFormat, detected: Option<InputFormat>) -> (r: InputFormat)
    ensures
        r == (match format {
            InputFormat::Auto => match detected {
                Some(f) => f,
                None => InputFormat::RawBmp,
            },
            _ => format,
        }),
{
    match format {
        InputFormat::Auto => match detected {
            Some(f) => f,
            None => InputFormat::RawBmp,
        },
        _ => format,
    }
}

} // verus!
