use chrono::Local;
use vstd::prelude::*;
use vstd::string::StringExecFns;

verus! {

#[derive(Clone, Debug)]
pub enum LogLevel {
    INFO,
    WARN,
    ERROR,
}

impl LogLevel {
    /// The name of the level as it stands in a log line.
    pub open spec fn spec_label(&self) -> Seq<char> {
        match self {
            LogLevel::INFO => "INFO"@,
            LogLevel::WARN => "WARN"@,
            LogLevel::ERROR => "ERROR"@,
        }
    }

    pub fn label(&self) -> (text: &'static str)
        ensures
            text@ == self.spec_label(),
    {
        match self {
            LogLevel::INFO => "INFO",
            LogLevel::WARN => "WARN",
            LogLevel::ERROR => "ERROR",
        }
    }

    pub fn duplicate(&self) -> (level: LogLevel)
        ensures
            level == *self,
    {
        match self {
            LogLevel::INFO => LogLevel::INFO,
            LogLevel::WARN => LogLevel::WARN,
            LogLevel::ERROR => LogLevel::ERROR,
        }
    }
}

/// One line of the log. The time is held as it is written: year, month, day
/// and time of day.
#[derive(Clone, Debug)]
pub struct LogEntry {
    pub timestamp: String,
    pub level: LogLevel,
    pub context: String,
    pub message: String,
}

/// The local time of the clock (`chrono::Local::now`), written as
/// `%Y-%m-%d %H:%M:%S`. Nothing is claimed of it.
#[verifier::external_body]
fn timestamp_now() -> (stamp: String) {
    Local::now().format("%Y-%m-%d %H:%M:%S").to_string()
}

/// The local time of the clock (`chrono::Local::now`), written as
/// `%Y%m%d_%H%M%S`. Nothing is claimed of it.
#[verifier::external_body]
fn file_stamp_now() -> (stamp: String) {
    Local::now().format("%Y%m%d_%H%M%S").to_string()
}

/// A log line: time, level and context in square brackets, then the message.
pub open spec fn spec_format(
    timestamp: Seq<char>,
    level: LogLevel,
    context: Seq<char>,
    message: Seq<char>,
) -> Seq<char> {
    "["@ + timestamp + "] ["@ + level.spec_label() + "] ["@ + context + "] "@ + message
}

impl LogEntry {
    /// An entry with the time of the clock.
    pub fn new(level: LogLevel, context: &str, message: &str) -> (entry: Self)
        ensures
            entry.level == level,
            entry.context@ == context@,
            entry.message@ == message@,
    {
        LogEntry::at(timestamp_now(), level, context, message)
    }

    /// An entry with a given time.
    pub fn at(timestamp: String, level: LogLevel, context: &str, message: &str) -> (entry: Self)
        ensures
            entry.timestamp == timestamp,
            entry.level == level,
            entry.context@ == context@,
            entry.message@ == message@,
    {
        LogEntry {
            timestamp,
            level,
            context: String::from_str(context),
            message: String::from_str(message),
        }
    }

    pub open spec fn spec_line(&self) -> Seq<char> {
        spec_format(self.timestamp@, self.level, self.context@, self.message@)
    }

    pub fn format(&self) -> (line: String)
        ensures
            line@ == self.spec_line(),
    {
        String::from_str("[").concat(self.timestamp.as_str()).concat("] [").concat(
            self.level.label(),
        ).concat("] [").concat(self.context.as_str()).concat("] ").concat(self.message.as_str())
    }

    pub fn duplicate(&self) -> (entry: LogEntry)
        ensures
            entry == *self,
    {
        LogEntry {
            timestamp: self.timestamp.clone(),
            level: self.level.duplicate(),
            context: self.context.clone(),
            message: self.message.clone(),
        }
    }
}

/// A log that only grows until it is cleared.
pub struct Logger {
    entries: Vec<LogEntry>,
}

/// The lines of the entries, each ended by a line feed.
pub open spec fn spec_export(entries: Seq<LogEntry>) -> Seq<char>
    decreases entries.len(),
{
    if entries.len() == 0 {
        Seq::empty()
    } else {
        spec_export(entries.drop_last()) + entries.last().spec_line() + "\n"@
    }
}

/// The name of the file that a log is written to.
pub open spec fn spec_export_name(path_prefix: Seq<char>, stamp: Seq<char>) -> Seq<char> {
    path_prefix + "_"@ + stamp + ".log"@
}

impl Logger {
    /// The entries of the log, oldest first.
    pub closed spec fn entries(&self) -> Seq<LogEntry> {
        self.entries@
    }

    pub fn new() -> (logger: Self)
        ensures
            logger.entries() == Seq::<LogEntry>::empty(),
    {
        Logger { entries: Vec::new() }
    }

    /// Appends an entry.
    pub fn push(&mut self, entry: LogEntry)
        ensures
            final(self).entries() == old(self).entries().push(entry),
    {
        self.entries.push(entry);
    }

    /// The text that an export writes.
    pub fn export_content(&self) -> (content: String)
        ensures
            content@ == spec_export(self.entries()),
    {
        let mut log_content = String::new();
        for i in 0..self.entries.len()
            invariant
                log_content@ == spec_export(self.entries@.subrange(0, i as int)),
        {
            proof {
                let next = self.entries@.subrange(0, i + 1);
                assert(next.drop_last() =~= self.entries@.subrange(0, i as int));
                assert(next.last() == self.entries@[i as int]);
            }
            log_content.append(self.entries[i].format().as_str());
            log_content.append("\n");
        }
        assert(self.entries@.subrange(0, self.entries@.len() as int) =~= self.entries@);
        log_content
    }
}

/// The name of the file that a log is written to: the prefix, the time of
/// the export and `.log`.
pub fn export_file_name(path_prefix: &str, stamp: &str) -> (name: String)
    ensures
        name@ == spec_export_name(path_prefix@, stamp@),
{
    String::from_str(path_prefix).concat("_").concat(stamp).concat(".log")
}

/// Appends an entry with the time of the clock.
pub fn log(logger: &mut Logger, level: LogLevel, context: &str, message: &str)
    ensures
        final(logger).entries().len() == old(logger).entries().len() + 1,
        final(logger).entries().drop_last() == old(logger).entries(),
        final(logger).entries().last().level == level,
        final(logger).entries().last().context@ == context@,
        final(logger).entries().last().message@ == message@,
{
    let entry = LogEntry::new(level, context, message);
    let ghost before = logger.entries();
    logger.push(entry);
    assert(before.push(entry).drop_last() =~= before);
}

/// The name of the file for an export made now, and the text to write to it.
pub fn export_logs(logger: &Logger, path_prefix: &str) -> (file: (String, String))
    ensures
        exists|stamp: Seq<char>| file.0@ == #[trigger] spec_export_name(path_prefix@, stamp),
        file.1@ == spec_export(logger.entries()),
{
    let stamp = file_stamp_now();
    let filename = export_file_name(path_prefix, stamp.as_str());
    (filename, logger.export_content())
}

pub fn clear_logs(logger: &mut Logger)
    ensures
        final(logger).entries() == Seq::<LogEntry>::empty(),
{
    logger.entries.clear();
}

pub fn get_logs(logger: &Logger) -> (entries: Vec<LogEntry>)
    ensures
        entries@ == logger.entries(),
{
    let mut entries: Vec<LogEntry> = Vec::new();
    for i in 0..logger.entries.len()
        invariant
            entries@ == logger.entries@.subrange(0, i as int),
    {
        entries.push(logger.entries[i].duplicate());
        assert(entries@ =~= logger.entries@.subrange(0, i + 1));
    }
    assert(entries@ =~= logger.entries@);
    entries
}

} // verus!
