//! What the program is asked to do when it is started.

use crate::text;
use crate::text::{cat4, chars_of, decimal_i64, parse_i64, parse_u64, same_str};
use vstd::prelude::*;

verus! {

/// So many lines of the log are shown where nothing is said.
pub const LOG_LINES: usize = 200;

/// A call is copied to this directory where none is named.
pub const EXPORT_DIR: &'static str = "tmp";

/// What is told where there is nothing to show.
pub const NO_DATABASE: &'static str = "нет БД транскрипции (ещё ничего не записано)";

pub const NO_TRANSCRIPT: &'static str = "транскрипция пуста";

pub const NO_CALLS: &'static str = "колов пока нет";

pub const EXPORT_USAGE: &'static str = "использование: health-widget --export <id кола> [папка]";

pub const NO_DETECTION: &'static str = "детект недоступен: нет ни pw-dump, ни busctl";

/// What the program is asked to do.
#[derive(Debug, PartialEq, Eq)]
pub enum Command {
    /// To take a small picture of the screen.
    GrabTest,
    /// To say its version.
    Version,
    /// To show everything that was said.
    Transcript { today: bool },
    /// To list the calls.
    Calls,
    /// To copy a call.
    Export { id: i64, dest: String },
    /// To copy a call, without saying which.
    ExportUsage,
    /// To say whether the screen is shared.
    CheckCapture,
    /// To show the log.
    Telemetry { today: bool, limit: usize },
    /// To run.
    Run,
}

/// What the program is asked to do, over texts.
pub enum CommandView {
    GrabTest,
    Version,
    Transcript { today: bool },
    Calls,
    Export { id: int, dest: Seq<char> },
    ExportUsage,
    CheckCapture,
    Telemetry { today: bool, limit: int },
    Run,
}

impl View for Command {
    type V = CommandView;

    open spec fn view(&self) -> CommandView {
        match *self {
            Command::GrabTest => CommandView::GrabTest,
            Command::Version => CommandView::Version,
            Command::Transcript { today } => CommandView::Transcript { today },
            Command::Calls => CommandView::Calls,
            Command::Export { id, dest } => CommandView::Export { id: id as int, dest: dest@ },
            Command::ExportUsage => CommandView::ExportUsage,
            Command::CheckCapture => CommandView::CheckCapture,
            Command::Telemetry { today, limit } => CommandView::Telemetry {
                today,
                limit: limit as int,
            },
            Command::Run => CommandView::Run,
        }
    }
}

/// The call that is to be copied, and where to.
pub open spec fn export_of(words: Seq<Seq<char>>) -> CommandView {
    if words.len() < 2 {
        CommandView::ExportUsage
    } else {
        match text::parse_signed_of(words[1], i64::MIN as int, i64::MAX as int) {
            Some(id) => CommandView::Export {
                id,
                dest: if words.len() > 2 {
                    words[2]
                } else {
                    EXPORT_DIR@
                },
            },
            None => CommandView::ExportUsage,
        }
    }
}

/// How many lines of the log are shown.
pub open spec fn limit_of(words: Seq<Seq<char>>) -> int {
    if words.len() < 2 {
        LOG_LINES as int
    } else {
        match text::parse_unsigned_of(words[1], usize::MAX as nat) {
            Some(n) => n as int,
            None => LOG_LINES as int,
        }
    }
}

/// What the words behind the program's name ask for. Only the first decides.
pub open spec fn command_of(words: Seq<Seq<char>>) -> CommandView {
    if words.len() == 0 {
        CommandView::Run
    } else if words[0] == "--grab-test"@ {
        CommandView::GrabTest
    } else if words[0] == "--version"@ || words[0] == "-V"@ {
        CommandView::Version
    } else if words[0] == "--transcript"@ {
        CommandView::Transcript { today: false }
    } else if words[0] == "--transcript-today"@ {
        CommandView::Transcript { today: true }
    } else if words[0] == "--calls"@ {
        CommandView::Calls
    } else if words[0] == "--export"@ {
        export_of(words)
    } else if words[0] == "--check-capture"@ {
        CommandView::CheckCapture
    } else if words[0] == "--telemetry"@ {
        CommandView::Telemetry { today: false, limit: limit_of(words) }
    } else if words[0] == "--telemetry-today"@ {
        CommandView::Telemetry { today: true, limit: limit_of(words) }
    } else {
        CommandView::Run
    }
}

fn export(words: &Vec<String>) -> (r: Command)
    ensures
        r@ == export_of(text::texts(words@)),
{
    if words.len() < 2 {
        return Command::ExportUsage;
    }
    let chars = chars_of(words[1].as_str());
    match parse_i64(chars.as_slice()) {
        Some(id) => Command::Export {
            id,
            dest: if words.len() > 2 {
                words[2].clone()
            } else {
                EXPORT_DIR.to_owned()
            },
        },
        None => Command::ExportUsage,
    }
}

fn limit(words: &Vec<String>) -> (r: usize)
    ensures
        r == limit_of(text::texts(words@)),
{
    if words.len() < 2 {
        return LOG_LINES;
    }
    let chars = chars_of(words[1].as_str());
    match parse_u64(chars.as_slice()) {
        Some(n) => if n <= usize::MAX as u64 {
            n as usize
        } else {
            LOG_LINES
        },
        None => LOG_LINES,
    }
}

/// What the words behind the program's name ask for.
pub fn command(words: &Vec<String>) -> (r: Command)
    ensures
        r@ == command_of(text::texts(words@)),
{
    if words.len() == 0 {
        return Command::Run;
    }
    let first = words[0].as_str();
    assert(text::texts(words@)[0] == first@);
    if same_str(first, "--grab-test") {
        Command::GrabTest
    } else if same_str(first, "--version") || same_str(first, "-V") {
        Command::Version
    } else if same_str(first, "--transcript") {
        Command::Transcript { today: false }
    } else if same_str(first, "--transcript-today") {
        Command::Transcript { today: true }
    } else if same_str(first, "--calls") {
        Command::Calls
    } else if same_str(first, "--export") {
        export(words)
    } else if same_str(first, "--check-capture") {
        Command::CheckCapture
    } else if same_str(first, "--telemetry") {
        Command::Telemetry { today: false, limit: limit(words) }
    } else if same_str(first, "--telemetry-today") {
        Command::Telemetry { today: true, limit: limit(words) }
    } else {
        Command::Run
    }
}

/// What is told once a call was copied.
pub fn exported(id: i64, path: &str) -> (r: String)
    ensures
        r@ == "кол #"@ + text::decimal_int_of(id as int) + " выгружен в "@ + path@,
{
    cat4("кол #", decimal_i64(id).as_str(), " выгружен в ", path)
}

/// What is told of the screen, and the number that the program ends with.
pub fn capture_report(active: bool) -> (r: (&'static str, i32))
    ensures
        active ==> r.0@ == "захват экрана: АКТИВЕН (виджет спрятался бы)"@ && r.1 == 0,
        !active ==> r.0@ == "захват экрана: не обнаружен"@ && r.1 == 1,
{
    if active {
        ("захват экрана: АКТИВЕН (виджет спрятался бы)", 0)
    } else {
        ("захват экрана: не обнаружен", 1)
    }
}

} // verus!
