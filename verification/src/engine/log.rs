use vstd::prelude::*;
use crate::message::{plain_decoration, spec_plain_decoration, Color, Content, ContentType, Decoration, Message, MessageType, PayloadType};

verus! {

/// Severity of an engine log line.
#[derive(Debug, Clone, Copy, PartialEq, Eq, Structural)]
pub enum LogLevel {
    Info,
    Warning,
    Error,
    Debug,
}

/// The tag of a level as it is printed.
pub open spec fn level_tag(level: LogLevel) -> Seq<char> {
    match level {
        LogLevel::Info => seq!['I', 'N', 'F', 'O'],
        LogLevel::Warning => seq!['W', 'A', 'R', 'N'],
        LogLevel::Error => seq!['E', 'R', 'R', 'O', 'R'],
        LogLevel::Debug => seq!['D', 'E', 'B', 'U', 'G'],
    }
}

/// The colour a level is shown in.
pub open spec fn level_color(level: LogLevel) -> Color {
    match level {
        LogLevel::Info => Color::Primary,
        LogLevel::Warning => Color::Tertiary,
        LogLevel::Error => Color::Error,
        LogLevel::Debug => Color::OnSurfaceVariant,
    }
}

/// The tag as ASCII bytes.
pub open spec fn level_tag_bytes(level: LogLevel) -> Seq<u8> {
    level_tag(level).map_values(|c: char| c as u8)
}

impl LogLevel {
    /// The colour of the level.
    pub fn color(&self) -> (c: Color)
        ensures
            c == level_color(*self),
    {
        match self {
            LogLevel::Info => Color::Primary,
            LogLevel::Warning => Color::Tertiary,
            LogLevel::Error => Color::Error,
            LogLevel::Debug => Color::OnSurfaceVariant,
        }
    }

    /// The tag printed for the level.
    pub fn prefix(&self) -> (s: &'static str)
        ensures
            s@ == level_tag(*self),
    {
        match self {
            LogLevel::Info => {
                proof { reveal_strlit("INFO"); }
                "INFO"
            },
            LogLevel::Warning => {
                proof { reveal_strlit("WARN"); }
                "WARN"
            },
            LogLevel::Error => {
                proof { reveal_strlit("ERROR"); }
                "ERROR"
            },
            LogLevel::Debug => {
                proof { reveal_strlit("DEBUG"); }
                "DEBUG"
            },
        }
    }

    /// The tag as bytes.
    pub fn prefix_bytes(&self) -> (v: Vec<u8>)
        ensures
            v@ == level_tag_bytes(*self),
    {
        let v = match self {
            LogLevel::Info => vec![0x49u8, 0x4Eu8, 0x46u8, 0x4Fu8],
            LogLevel::Warning => vec![0x57u8, 0x41u8, 0x52u8, 0x4Eu8],
            LogLevel::Error => vec![0x45u8, 0x52u8, 0x52u8, 0x4Fu8, 0x52u8],
            LogLevel::Debug => vec![0x44u8, 0x45u8, 0x42u8, 0x55u8, 0x47u8],
        };
        assert(v@ =~= level_tag_bytes(*self));
        v
    }
}

/// At most this many log lines are kept.
pub const MAX_LOG_LINES: usize = 30;

/// The text of a log entry: `[LEVEL] message`.
pub open spec fn log_entry(level: LogLevel, message: Seq<u8>) -> Seq<u8> {
    seq![0x5Bu8] + level_tag_bytes(level) + seq![0x5Du8, 0x20u8] + message
}

/// A kept log line: `time: [LEVEL] message`.
pub open spec fn log_line(time: Seq<u8>, level: LogLevel, message: Seq<u8>) -> Seq<u8> {
    time + seq![0x3Au8, 0x20u8] + log_entry(level, message)
}

/// The decoration of a log entry: the level's colour, bold for errors and warnings.
pub open spec fn log_decoration(level: LogLevel) -> Decoration {
    Decoration {
        color: level_color(level),
        bold: level == LogLevel::Error || level == LogLevel::Warning,
        ..spec_plain_decoration()
    }
}

/// The texts of kept lines.
pub open spec fn line_texts(lines: Seq<Vec<u8>>) -> Seq<Seq<u8>> {
    lines.map_values(|l: Vec<u8>| l@)
}

/// The kept lines after logging `message` at `level`, stamped `time`: a debug line is dropped
/// unless debugging; otherwise it is added, the oldest going once 30 are kept.
pub open spec fn log_step(lines: Seq<Seq<u8>>, is_debug: bool, level: LogLevel, time: Seq<u8>, message: Seq<u8>) -> Seq<Seq<u8>> {
    if level == LogLevel::Debug && !is_debug {
        lines
    } else {
        (if lines.len() >= 30 { lines.skip(1) } else { lines }).push(log_line(time, level, message))
    }
}

/// The kept lines after logging `entries` (level, time, message) in order.
pub open spec fn log_run(lines: Seq<Seq<u8>>, is_debug: bool, entries: Seq<(LogLevel, Seq<u8>, Seq<u8>)>) -> Seq<Seq<u8>>
    decreases entries.len(),
{
    if entries.len() == 0 {
        lines
    } else {
        let e = entries.last();
        log_step(log_run(lines, is_debug, entries.drop_last()), is_debug, e.0, e.1, e.2)
    }
}

/// Every line recorded for `entries`, in call order: debug entries only when debugging.
pub open spec fn recorded_lines(is_debug: bool, entries: Seq<(LogLevel, Seq<u8>, Seq<u8>)>) -> Seq<Seq<u8>>
    decreases entries.len(),
{
    if entries.len() == 0 {
        Seq::empty()
    } else {
        let e = entries.last();
        let r = recorded_lines(is_debug, entries.drop_last());
        if e.0 == LogLevel::Debug && !is_debug { r } else { r.push(log_line(e.1, e.0, e.2)) }
    }
}

/// Starting from no lines, the log keeps exactly the last 30 recorded lines (all of them when
/// fewer were recorded), oldest first.
pub proof fn lemma_log_keeps_last_thirty(is_debug: bool, entries: Seq<(LogLevel, Seq<u8>, Seq<u8>)>)
    ensures
        ({
            let r = recorded_lines(is_debug, entries);
            log_run(Seq::empty(), is_debug, entries) == if r.len() > 30 { r.skip(r.len() - 30) } else { r }
        }),
    decreases entries.len(),
{
    if entries.len() > 0 {
        let e = entries.last();
        lemma_log_keeps_last_thirty(is_debug, entries.drop_last());
        let r0 = recorded_lines(is_debug, entries.drop_last());
        let l0 = log_run(Seq::empty(), is_debug, entries.drop_last());
        if !(e.0 == LogLevel::Debug && !is_debug) {
            let r = r0.push(log_line(e.1, e.0, e.2));
            if r0.len() >= 30 {
                assert(l0.skip(1).push(log_line(e.1, e.0, e.2)) =~= r.skip(r.len() - 30));
            } else {
                assert(l0 =~= r0);
            }
        }
    }
}

/// The recent log lines of an engine, and whether debug lines are shown.
pub struct LogBook {
    pub is_debug: bool,
    pub lines: Vec<Vec<u8>>,
}

/// What logging `message` at `level`, stamped `time` and `timestamp`, does to a log book and
/// returns: debug lines are dropped unless debugging; otherwise the line is kept (the oldest
/// goes once 30 are kept) and the log message to broadcast is returned.
pub open spec fn logged(old: LogBook, new: LogBook, level: LogLevel, time: Seq<u8>, message: Seq<u8>, timestamp: u64,
    r: Option<Message>) -> bool {
    &&& new.is_debug == old.is_debug
    &&& level == LogLevel::Debug && !old.is_debug ==> r is None && new.lines@ == old.lines@
    &&& !(level == LogLevel::Debug && !old.is_debug) ==> {
        let kept = if old.lines@.len() >= 30 { old.lines@.skip(1) } else { old.lines@ };
        &&& new.lines@.len() == kept.len() + 1
        &&& forall|i: int| 0 <= i < kept.len() ==> (#[trigger] new.lines@[i])@ == kept[i]@
        &&& new.lines@.last()@ == log_line(time, level, message)
        &&& r matches Some(m) && {
            &&& m.message_type == MessageType::Log
            &&& m.timestamp == timestamp
            &&& m.connection_id == 0
            &&& m.payload@.len() == 0 && m.frame@.len() == 0
            &&& m.values@.len() == 0 && m.metadata@.len() == 0 && m.hex_contents@.len() == 0
            &&& m.contents@.len() == 1
            &&& m.contents@[0].content_type == ContentType::RichText
            &&& m.contents@[0].decoration == log_decoration(level)
            &&& m.contents@[0].payload@ == log_entry(level, message)
            &&& m.contents@[0].label is None
        }
    }
    &&& old.lines@.len() <= 30 ==> new.lines@.len() <= 30
    &&& line_texts(new.lines@) == log_step(line_texts(old.lines@), old.is_debug, level, time, message)
}

/// `chrono::Local::now()` formatted `%Y-%m-%d %H:%M:%S%.3f`: the local wall-clock time as
/// text. Nothing is promised of it: it is a clock reading in the machine's time zone.
#[verifier::external_body]
fn local_time_text() -> String {
    chrono::Local::now().format("%Y-%m-%d %H:%M:%S%.3f").to_string()
}

impl LogBook {
    pub fn new(is_debug: bool) -> (b: LogBook)
        ensures
            b.is_debug == is_debug,
            b.lines@.len() == 0,
    {
        LogBook { is_debug, lines: Vec::new() }
    }

    /// Forgets the kept lines.
    pub fn clear(&mut self)
        ensures
            final(self).is_debug == old(self).is_debug,
            final(self).lines@.len() == 0,
    {
        self.lines = Vec::new();
    }

    /// Logs `message` at `level`, stamped with the local time as text and the current time in
    /// microseconds: what `log` does for some such readings of the clock.
    pub fn log_now(&mut self, level: LogLevel, message: &[u8]) -> (r: Option<Message>)
        ensures
            exists|time: Seq<u8>, ts: u64| #[trigger] logged(*old(self), *final(self), level, time, message@, ts, r),
    {
        let time = local_time_text();
        let ts = crate::message::current_timestamp();
        let r = self.log(level, time.as_str().as_bytes(), message, ts);
        r
    }

    /// Logs `message` at `level`, stamped `time`: debug lines are dropped unless debugging;
    /// otherwise the line is kept (the oldest goes once 30 are kept) and the log message to
    /// broadcast is returned.
    pub fn log(&mut self, level: LogLevel, time: &[u8], message: &[u8], timestamp: u64) -> (r: Option<Message>)
        ensures
            logged(*old(self), *final(self), level, time@, message@, timestamp, r),
    {
        if level == LogLevel::Debug && !self.is_debug {
            return None;
        }
        let mut entry: Vec<u8> = Vec::new();
        entry.push(0x5B);
        let mut tag = level.prefix_bytes();
        entry.append(&mut tag);
        entry.push(0x5D);
        entry.push(0x20);
        crate::util::extend_from_range(&mut entry, message, 0, message.len());
        assert(message@.subrange(0, message@.len() as int) =~= message@);
        assert(entry@ =~= log_entry(level, message@));
        let mut line: Vec<u8> = Vec::new();
        crate::util::extend_from_range(&mut line, time, 0, time.len());
        assert(time@.subrange(0, time@.len() as int) =~= time@);
        line.push(0x3A);
        line.push(0x20);
        let mut copy = crate::codec::passthrough::clone_bytes(&entry);
        line.append(&mut copy);
        assert(line@ =~= log_line(time@, level, message@));
        let ghost before = self.lines@;
        if self.lines.len() >= MAX_LOG_LINES {
            self.lines.remove(0);
            assert(self.lines@ =~= before.skip(1));
        }
        self.lines.push(line);
        proof {
            let kept = if before.len() >= 30 { line_texts(before).skip(1) } else { line_texts(before) };
            assert(line_texts(self.lines@) =~= kept.push(log_line(time@, level, message@)));
        }
        let mut d = plain_decoration();
        d.color = level.color();
        d.bold = level == LogLevel::Error || level == LogLevel::Warning;
        let mut contents: Vec<Content> = Vec::new();
        contents.push(Content { content_type: ContentType::RichText, decoration: d, payload: entry, label: None });
        let m = Message {
            message_type: MessageType::Log,
            connection_id: 0,
            timestamp,
            payload_type: PayloadType::Binary,
            payload: Vec::new(),
            frame: Vec::new(),
            values: Vec::new(),
            metadata: Vec::new(),
            contents,
            hex_contents: Vec::new(),
            highlighted: false,
            display_hex: false,
        };
        Some(m)
    }
}

} // verus!
