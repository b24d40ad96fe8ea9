//! Terminal output: log levels, entries with timestamps, the level filter and
//! the bounded buffer of entries with stable ids.
use crate::strings::{push_str, push_two_digits, two_digits};
use crate::text::str_eq;
use std::time::{Duration, SystemTime};
use vstd::prelude::*;

verus! {

/// Maximum number of terminal entries to retain.
pub const MAX_TERMINAL_ENTRIES: usize = 1000;

/// Log level for terminal entries.
#[derive(Clone, Copy, Debug, PartialEq, Eq, Structural)]
pub enum TerminalLevel {
    Trace,
    Debug,
    Info,
    Warn,
    Error,
}

impl TerminalLevel {
    /// Short prefix for display.
    pub open spec fn spec_prefix(self) -> Seq<char> {
        match self {
            TerminalLevel::Trace => "TRACE"@,
            TerminalLevel::Debug => "DEBUG"@,
            TerminalLevel::Info => "INFO"@,
            TerminalLevel::Warn => "WARN"@,
            TerminalLevel::Error => "ERROR"@,
        }
    }

    /// Short prefix for display.
    pub fn prefix(self) -> (r: &'static str)
        ensures
            r@ == self.spec_prefix(),
    {
        match self {
            TerminalLevel::Trace => "TRACE",
            TerminalLevel::Debug => "DEBUG",
            TerminalLevel::Info => "INFO",
            TerminalLevel::Warn => "WARN",
            TerminalLevel::Error => "ERROR",
        }
    }
}

/// Filter settings for terminal output levels.
#[derive(Clone, Copy, Debug, PartialEq, Eq, Structural)]
pub struct TerminalFilter {
    pub show_info: bool,
    pub show_warn: bool,
    pub show_error: bool,
}

impl Default for TerminalFilter {
    /// All of info, warnings and errors are shown.
    fn default() -> (f: Self)
        ensures
            f == (TerminalFilter { show_info: true, show_warn: true, show_error: true }),
    {
        TerminalFilter { show_info: true, show_warn: true, show_error: true }
    }
}

impl TerminalFilter {
    /// Whether an entry of `level` is shown under this filter (trace and debug never are).
    pub open spec fn shows(self, level: TerminalLevel) -> bool {
        match level {
            TerminalLevel::Trace | TerminalLevel::Debug => false,
            TerminalLevel::Info => self.show_info,
            TerminalLevel::Warn => self.show_warn,
            TerminalLevel::Error => self.show_error,
        }
    }

    /// The filter with the visibility of `level` flipped (trace and debug are
    /// not filterable and leave it unchanged).
    pub open spec fn toggled(self, level: TerminalLevel) -> TerminalFilter {
        match level {
            TerminalLevel::Info => TerminalFilter { show_info: !self.show_info, ..self },
            TerminalLevel::Warn => TerminalFilter { show_warn: !self.show_warn, ..self },
            TerminalLevel::Error => TerminalFilter { show_error: !self.show_error, ..self },
            _ => self,
        }
    }

    /// Check if a given level should be shown.
    pub fn should_show(&self, level: TerminalLevel) -> (r: bool)
        ensures
            r == self.shows(level),
    {
        match level {
            TerminalLevel::Trace | TerminalLevel::Debug => false,
            TerminalLevel::Info => self.show_info,
            TerminalLevel::Warn => self.show_warn,
            TerminalLevel::Error => self.show_error,
        }
    }

    /// Toggle a specific level's visibility.
    pub fn toggle(&mut self, level: TerminalLevel)
        ensures
            *final(self) == old(self).toggled(level),
    {
        match level {
            TerminalLevel::Info => self.show_info = !self.show_info,
            TerminalLevel::Warn => self.show_warn = !self.show_warn,
            TerminalLevel::Error => self.show_error = !self.show_error,
            _ => {},
        }
    }
}

/// Toggling a level twice gives back the filter; toggling changes exactly the
/// visibility of that level.
pub proof fn lemma_toggle_involutive(f: TerminalFilter, level: TerminalLevel)
    ensures
        f.toggled(level).toggled(level) == f,
        forall|other: TerminalLevel| #![auto] other != level ==> f.toggled(level).shows(other) == f.shows(other),
        (level == TerminalLevel::Info || level == TerminalLevel::Warn || level == TerminalLevel::Error)
            ==> f.toggled(level).shows(level) == !f.shows(level),
{
}

#[verifier::external_type_specification]
#[verifier::external_body]
pub struct ExSystemTime(SystemTime);

/// `std::time::SystemTime::now`: the wall clock. Nothing is claimed of it.
#[verifier::external_body]
fn system_now() -> (t: SystemTime) {
    SystemTime::now()
}

/// `SystemTime::duration_since(UNIX_EPOCH)`: the time since the epoch, or
/// `None` when `t` is before it. Nothing is claimed of the value.
#[verifier::external_body]
fn since_unix_epoch(t: &SystemTime) -> (d: Option<Duration>) {
    t.duration_since(SystemTime::UNIX_EPOCH).ok()
}

/// `Duration::as_secs`: the whole seconds of `d`. Nothing is claimed of the value.
#[verifier::external_body]
fn duration_secs(d: &Duration) -> (s: u64) {
    d.as_secs()
}

/// A single terminal output entry.
#[derive(Clone, Debug)]
pub struct TerminalEntry {
    /// Timestamp when the entry was created (seconds since UNIX epoch)
    pub timestamp_secs: u64,
    /// Log level
    pub level: TerminalLevel,
    /// Message content
    pub message: String,
    /// Optional target/module name
    pub target: Option<String>,
}

/// Seconds since the epoch of a timestamp shifted by `offset_hours`, wrapped to 64 bits.
pub open spec fn shifted_secs(ts: u64, offset_hours: i8) -> int {
    (ts as int + offset_hours as int * 3600) % 0x1_0000_0000_0000_0000
}

/// The `HH:MM:SS` text (24-hour) or `HH:MM:SS AM|PM` text (12-hour) of the
/// time of day `secs` seconds after midnight of the epoch.
pub open spec fn clock_text(secs: int, use_24h: bool) -> Seq<char> {
    let h = (secs / 3600) % 24;
    let m = (secs / 60) % 60;
    let s = secs % 60;
    if use_24h {
        two_digits(h) + ":"@ + two_digits(m) + ":"@ + two_digits(s)
    } else {
        let h12 = if h == 0 { 12 } else if h <= 12 { h } else { h - 12 };
        let period = if h < 12 { "AM"@ } else { "PM"@ };
        two_digits(h12) + ":"@ + two_digits(m) + ":"@ + two_digits(s) + " "@ + period
    }
}

/// The timestamp of a clock reading `since_epoch` whole seconds after the
/// UNIX epoch: those seconds, or 0 when the clock is before the epoch.
pub open spec fn timestamp_of(since_epoch: Option<u64>) -> u64 {
    match since_epoch {
        Some(secs) => secs,
        None => 0,
    }
}

impl TerminalEntry {
    /// Current time as whole seconds since the UNIX epoch (0 when the clock is before it).
    /// Nothing is stated of the value: it is read from the wall clock, and any
    /// `u64` is a possible reading.
    fn current_timestamp() -> (r: u64) {
        Self::timestamp_from(Self::clock_reading())
    }

    /// The wall clock's whole seconds since the UNIX epoch, or `None` when
    /// the clock is before the epoch. Nothing is stated of the reading.
    fn clock_reading() -> (r: Option<u64>) {
        let now = system_now();
        match since_unix_epoch(&now) {
            Some(d) => Some(duration_secs(&d)),
            None => None,
        }
    }

    /// The timestamp of a clock reading `since_epoch` whole seconds after the
    /// UNIX epoch (see `timestamp_of`).
    pub fn timestamp_from(since_epoch: Option<u64>) -> (r: u64)
        ensures
            r == timestamp_of(since_epoch),
    {
        match since_epoch {
            Some(secs) => secs,
            None => 0,
        }
    }

    /// An entry stamped with the clock reading `since_epoch` (see
    /// `timestamp_of`), with an optional target/module name.
    pub fn stamped(level: TerminalLevel, message: String, target: Option<String>, since_epoch: Option<u64>) -> (e: Self)
        ensures
            e.timestamp_secs == timestamp_of(since_epoch),
            e.level == level,
            e.message == message,
            e.target == target,
    {
        TerminalEntry { timestamp_secs: Self::timestamp_from(since_epoch), level, message, target }
    }

    /// Create a new terminal entry stamped with the current time: the entry
    /// `stamped` gives for the wall clock's reading.
    pub fn new(level: TerminalLevel, message: String) -> (e: Self)
        ensures
            e.level == level,
            e.message == message,
            e.target is None,
    {
        let reading = Self::clock_reading();
        Self::stamped(level, message, None, reading)
    }

    /// Create an entry with a target/module name, stamped with the current
    /// time: the entry `stamped` gives for the wall clock's reading.
    pub fn with_target(level: TerminalLevel, message: String, target: String) -> (e: Self)
        ensures
            e.level == level,
            e.message == message,
            e.target == Some(target),
    {
        let reading = Self::clock_reading();
        Self::stamped(level, message, Some(target), reading)
    }

    /// Format the timestamp for display, shifted by `timezone_offset` hours:
    /// `HH:MM:SS` in 24-hour format, `HH:MM:SS AM|PM` in 12-hour format.
    pub fn format_timestamp(&self, timezone_offset: i8, use_24h: bool) -> (r: String)
        ensures
            r@ == clock_text(shifted_secs(self.timestamp_secs, timezone_offset), use_24h),
    {
        let offset_secs: i128 = (timezone_offset as i128) * 3600;
        let total: i128 = (self.timestamp_secs as i128) + offset_secs;
        let wrapped: i128 = if total < 0 {
            total + 0x1_0000_0000_0000_0000
        } else if total >= 0x1_0000_0000_0000_0000 {
            total - 0x1_0000_0000_0000_0000
        } else {
            total
        };
        assert(wrapped == shifted_secs(self.timestamp_secs, timezone_offset));
        let adjusted: u64 = wrapped as u64;
        let hours_24 = (adjusted / 3600) % 24;
        let minutes = (adjusted / 60) % 60;
        let seconds = adjusted % 60;
        let mut out = String::new();
        if use_24h {
            push_two_digits(&mut out, hours_24);
            push_str(&mut out, ":");
            push_two_digits(&mut out, minutes);
            push_str(&mut out, ":");
            push_two_digits(&mut out, seconds);
        } else {
            let hours_12 = if hours_24 == 0 {
                12
            } else if hours_24 <= 12 {
                hours_24
            } else {
                hours_24 - 12
            };
            push_two_digits(&mut out, hours_12);
            push_str(&mut out, ":");
            push_two_digits(&mut out, minutes);
            push_str(&mut out, ":");
            push_two_digits(&mut out, seconds);
            push_str(&mut out, " ");
            if hours_24 < 12 {
                push_str(&mut out, "AM");
            } else {
                push_str(&mut out, "PM");
            }
        }
        out
    }
}

impl TerminalEntry {
    /// A copy of the entry.
    pub fn copied(&self) -> (e: Self)
        ensures
            e == *self,
    {
        TerminalEntry {
            timestamp_secs: self.timestamp_secs,
            level: self.level,
            message: self.message.clone(),
            target: match &self.target {
                Some(t) => Some(t.clone()),
                None => None,
            },
        }
    }
}

/// The entries with ids of `entries` that the filter shows, in order.
pub open spec fn shown_entries(f: TerminalFilter, entries: Seq<(u64, TerminalEntry)>) -> Seq<(u64, TerminalEntry)>
    decreases entries.len(),
{
    if entries.len() == 0 {
        Seq::empty()
    } else if f.shows(entries.last().1.level) {
        shown_entries(f, entries.drop_last()).push(entries.last())
    } else {
        shown_entries(f, entries.drop_last())
    }
}

/// The entries (with their ids) the terminal panel shows under `filter`.
pub fn visible_entries(filter: &TerminalFilter, entries: &Vec<(u64, TerminalEntry)>) -> (r: Vec<(u64, TerminalEntry)>)
    ensures
        r@ == shown_entries(*filter, entries@),
{
    let mut out: Vec<(u64, TerminalEntry)> = Vec::new();
    let mut i: usize = 0;
    while i < entries.len()
        invariant
            0 <= i <= entries@.len(),
            out@ == shown_entries(*filter, entries@.take(i as int)),
        decreases entries@.len() - i,
    {
        proof {
            assert(entries@.take(i + 1).drop_last() =~= entries@.take(i as int));
        }
        let (id, e) = (entries[i].0, &entries[i].1);
        if filter.should_show(e.level) {
            out.push((id, e.copied()));
        }
        i = i + 1;
    }
    assert(entries@.take(entries@.len() as int) =~= entries@);
    out
}

/// The buffer of terminal entries: at most `MAX_TERMINAL_ENTRIES` entries,
/// oldest first, the first of which has stable id `first_id`; ids keep
/// increasing as entries are trimmed or cleared, so none is reused.
#[derive(Clone, Debug)]
pub struct TerminalBuffer {
    entries: Vec<TerminalEntry>,
    first_id: u64,
}

impl TerminalBuffer {
    /// The entries, oldest first.
    pub closed spec fn entries(self) -> Seq<TerminalEntry> {
        self.entries@
    }

    /// The stable id of the oldest entry (the id the next entry gets when empty).
    pub closed spec fn first_id(self) -> nat {
        self.first_id as nat
    }

    /// The entries paired with their stable ids.
    pub open spec fn with_ids(self) -> Seq<(u64, TerminalEntry)> {
        Seq::new(self.entries().len(), |i: int| ((self.first_id() + i) as u64, self.entries()[i]))
    }

    /// The buffer holds at most `MAX_TERMINAL_ENTRIES` entries.
    pub open spec fn bounded(self) -> bool {
        self.entries().len() <= MAX_TERMINAL_ENTRIES
    }

    /// Create a new empty terminal buffer.
    pub fn new() -> (b: Self)
        ensures
            b.entries().len() == 0,
            b.first_id() == 0,
    {
        TerminalBuffer { entries: Vec::new(), first_id: 0 }
    }

    /// Add an entry, trimming the oldest entries beyond `MAX_TERMINAL_ENTRIES`;
    /// the surviving entries keep their ids.
    pub fn push(&mut self, entry: TerminalEntry)
        requires
            old(self).first_id() + old(self).entries().len() < u64::MAX,
        ensures
            ({
                let pushed = old(self).entries().push(entry);
                let excess = if pushed.len() > MAX_TERMINAL_ENTRIES { pushed.len() - MAX_TERMINAL_ENTRIES } else { 0 };
                &&& final(self).entries() == pushed.skip(excess)
                &&& final(self).first_id() == old(self).first_id() + excess
            }),
    {
        self.entries.push(entry);
        if self.entries.len() > MAX_TERMINAL_ENTRIES {
            let excess = self.entries.len() - MAX_TERMINAL_ENTRIES;
            let ghost pushed = self.entries@;
            let mut removed: usize = 0;
            while removed < excess
                invariant
                    excess == pushed.len() - MAX_TERMINAL_ENTRIES,
                    0 <= removed <= excess,
                    self.entries@ == pushed.skip(removed as int),
                    self.first_id == old(self).first_id,
                decreases excess - removed,
            {
                self.entries.remove(0);
                assert(self.entries@ =~= pushed.skip(removed as int + 1));
                removed = removed + 1;
            }
            self.first_id = self.first_id + excess as u64;
        } else {
            assert(self.entries@.skip(0) =~= self.entries@);
        }
    }

    /// Clear all entries; the id base moves past them so ids are not reused.
    pub fn clear(&mut self)
        requires
            old(self).first_id() + old(self).entries().len() <= u64::MAX,
        ensures
            final(self).entries().len() == 0,
            final(self).first_id() == old(self).first_id() + old(self).entries().len(),
    {
        self.first_id = self.first_id + self.entries.len() as u64;
        self.entries.clear();
    }

    /// Snapshot of the entries paired with their stable ids, oldest first.
    pub fn snapshot_with_ids(&self) -> (r: Vec<(u64, TerminalEntry)>)
        requires
            self.first_id() + self.entries().len() <= u64::MAX,
        ensures
            r@ == self.with_ids(),
    {
        let mut out: Vec<(u64, TerminalEntry)> = Vec::new();
        let mut i: usize = 0;
        while i < self.entries.len()
            invariant
                self.first_id + self.entries@.len() <= u64::MAX,
                0 <= i <= self.entries@.len(),
                out@ == self.with_ids().take(i as int),
            decreases self.entries@.len() - i,
        {
            let copy = self.entries[i].copied();
            out.push((self.first_id + i as u64, copy));
            assert(out@ =~= self.with_ids().take(i + 1));
            i = i + 1;
        }
        assert(self.with_ids().take(i as int) =~= self.with_ids());
        out
    }
}

/// A push keeps every surviving entry under the id it had, gives the new entry
/// the next id, and keeps the buffer bounded.
pub proof fn lemma_push_keeps_ids(old_buf: TerminalBuffer, new_buf: TerminalBuffer, entry: TerminalEntry)
    requires
        old_buf.bounded(),
        ({
            let pushed = old_buf.entries().push(entry);
            let excess = if pushed.len() > MAX_TERMINAL_ENTRIES { pushed.len() - MAX_TERMINAL_ENTRIES } else { 0 };
            &&& new_buf.entries() == pushed.skip(excess)
            &&& new_buf.first_id() == old_buf.first_id() + excess
        }),
    ensures
        new_buf.bounded(),
        new_buf.entries().len() > 0,
        new_buf.entries().last() == entry,
        new_buf.first_id() + new_buf.entries().len() == old_buf.first_id() + old_buf.entries().len() + 1,
        forall|i: int| 0 <= i < old_buf.entries().len() && old_buf.first_id() + i >= new_buf.first_id()
            ==> new_buf.entries()[old_buf.first_id() + i - new_buf.first_id()] == old_buf.entries()[i],
{
}


/// Prefixes of log targets the terminal ignores (framework internals).
pub open spec fn ignored_prefixes() -> Seq<Seq<char>> {
    seq![
        "dioxus_core"@, "dioxus_desktop"@, "dioxus_html"@, "dioxus_signals"@, "dioxus_hooks"@,
        "tao::"@, "wry::"@, "mio::"@, "tokio"@, "hyper"@, "tracing"@,
    ]
}

/// Whether `p` starts `t`.
fn starts_with_text(t: &str, p: &str) -> (r: bool)
    ensures
        r == p@.is_prefix_of(t@),
{
    let tc = crate::text::text_chars(t);
    let pc = crate::text::text_chars(p);
    if pc.len() > tc.len() {
        return false;
    }
    let mut k: usize = 0;
    while k < pc.len()
        invariant
            tc@ == t@,
            pc@ == p@,
            pc@.len() <= tc@.len(),
            0 <= k <= pc@.len(),
            forall|j: int| 0 <= j < k ==> tc@[j] == pc@[j],
        decreases pc@.len() - k,
    {
        if tc[k] != pc[k] {
            assert(tc@.subrange(0, pc@.len() as int)[k as int] != pc@[k as int]);
            return false;
        }
        k = k + 1;
    }
    assert(tc@.subrange(0, pc@.len() as int) =~= pc@);
    true
}

/// Whether log events of `target` are kept out of the terminal: it starts
/// with one of the ignored prefixes.
pub fn should_ignore_target(target: &str) -> (r: bool)
    ensures
        r == exists|i: int| 0 <= i < ignored_prefixes().len() && #[trigger] ignored_prefixes()[i].is_prefix_of(target@),
{
    let list: [&str; 11] = [
        "dioxus_core", "dioxus_desktop", "dioxus_html", "dioxus_signals", "dioxus_hooks",
        "tao::", "wry::", "mio::", "tokio", "hyper", "tracing",
    ];
    assert(crate::highlight::word_views(list@) =~= ignored_prefixes());
    let mut i: usize = 0;
    while i < 11
        invariant
            0 <= i <= 11,
            crate::highlight::word_views(list@) == ignored_prefixes(),
            forall|j: int| 0 <= j < i ==> !(#[trigger] ignored_prefixes()[j]).is_prefix_of(target@),
        decreases 11 - i,
    {
        assert(ignored_prefixes()[i as int] == list@[i as int]@);
        if starts_with_text(target, list[i]) {
            return true;
        }
        i = i + 1;
    }
    false
}

/// Whether a log event of `level` from `target` is shown in the terminal:
/// info, warnings and errors that do not come from an ignored target.
pub fn should_capture(level: TerminalLevel, target: &str) -> (r: bool)
    ensures
        r == ((level == TerminalLevel::Info || level == TerminalLevel::Warn || level == TerminalLevel::Error)
            && !exists|i: int| 0 <= i < ignored_prefixes().len() && #[trigger] ignored_prefixes()[i].is_prefix_of(target@)),
{
    match level {
        TerminalLevel::Trace | TerminalLevel::Debug => false,
        _ => !should_ignore_target(target),
    }
}

/// `s` without one pair of surrounding double quotes (a quoted text of two or
/// more characters).
pub open spec fn unquoted(s: Seq<char>) -> Seq<char> {
    if s.len() >= 2 && s[0] == '"' && s.last() == '"' {
        s.subrange(1, s.len() - 1)
    } else {
        s
    }
}

/// Collects the message of a log event from its fields.
pub struct MessageVisitor {
    pub message: String,
}

impl Default for MessageVisitor {
    fn default() -> (v: Self)
        ensures
            v.message@.len() == 0,
    {
        MessageVisitor { message: String::new() }
    }
}

impl MessageVisitor {
    /// Record a field given as text: the `message` field is the message; any
    /// other field, as `name: value`, when no message is known yet.
    pub fn record_str(&mut self, field: &str, value: &str)
        ensures
            if field@ == "message"@ {
                final(self).message@ == value@
            } else if old(self).message@.len() == 0 {
                final(self).message@ == field@ + ": "@ + value@
            } else {
                final(self).message@ == old(self).message@
            },
    {
        if str_eq(field, "message") {
            self.message = value.to_string();
        } else if self.message.as_str().is_empty() {
            let mut m = String::new();
            push_str(&mut m, field);
            push_str(&mut m, ": ");
            push_str(&mut m, value);
            self.message = m;
        }
    }

    /// Record a field given by its debug text `rendered`: for the `message`
    /// field, the text without surrounding quotes; any other field, as
    /// `name: text`, when no message is known yet.
    pub fn record_debug(&mut self, field: &str, rendered: &str)
        requires
            rendered@ != seq!['"'],
        ensures
            if field@ == "message"@ {
                final(self).message@ == unquoted(rendered@)
            } else if old(self).message@.len() == 0 {
                final(self).message@ == field@ + ": "@ + rendered@
            } else {
                final(self).message@ == old(self).message@
            },
    {
        if str_eq(field, "message") {
            let cs = crate::text::text_chars(rendered);
            if cs.len() >= 2 && cs[0] == '"' && cs[cs.len() - 1] == '"' {
                let mut m = String::new();
                let mut k: usize = 1;
                while k < cs.len() - 1
                    invariant
                        cs@ == rendered@,
                        cs@.len() >= 2,
                        1 <= k <= cs@.len() - 1,
                        m@ == cs@.subrange(1, k as int),
                    decreases cs@.len() - 1 - k,
                {
                    crate::strings::push_char(&mut m, cs[k]);
                    assert(m@ =~= cs@.subrange(1, k + 1));
                    k = k + 1;
                }
                self.message = m;
            } else {
                self.message = rendered.to_string();
            }
        } else if self.message.as_str().is_empty() {
            let mut m = String::new();
            push_str(&mut m, field);
            push_str(&mut m, ": ");
            push_str(&mut m, rendered);
            self.message = m;
        }
    }
}

/// `Duration::subsec_millis`: the whole milliseconds of `d` beyond its whole
/// seconds, which the documentation says is below one thousand.
#[verifier::external_body]
fn duration_subsec_millis(d: &Duration) -> (ms: u32)
    ensures
        ms < 1000,
{
    d.subsec_millis()
}

/// Three-digit, zero-padded decimal text of `n` (below 1000).
pub open spec fn three_digits(n: int) -> Seq<char> {
    seq![crate::strings::digit_char(n / 100)] + two_digits(n % 100)
}

/// The UTC time of day `HH:MM:SS.mmmZ` of `secs` seconds and `millis`
/// milliseconds since the epoch.
pub open spec fn debug_time_text(secs: u64, millis: u32) -> Seq<char> {
    two_digits(((secs / 3600) % 24) as int) + ":"@ + two_digits(((secs / 60) % 60) as int) + ":"@ + two_digits((secs % 60) as int)
        + "."@ + three_digits(millis as int) + "Z"@
}

/// The UTC time of day `HH:MM:SS.mmmZ` for `secs` seconds and `millis`
/// milliseconds since the epoch.
pub fn format_debug_time(secs: u64, millis: u32) -> (r: String)
    requires
        millis < 1000,
    ensures
        r@ == debug_time_text(secs, millis),
{
    let mut out = String::new();
    push_two_digits(&mut out, (secs / 3600) % 24);
    push_str(&mut out, ":");
    push_two_digits(&mut out, (secs / 60) % 60);
    push_str(&mut out, ":");
    push_two_digits(&mut out, secs % 60);
    push_str(&mut out, ".");
    let m = millis as u64;
    crate::strings::push_char(&mut out, crate::strings::digit(m / 100));
    push_two_digits(&mut out, m % 100);
    push_str(&mut out, "Z");
    assert(out@ =~= debug_time_text(secs, millis));
    out
}

/// The current UTC time of day, `HH:MM:SS.mmmZ`, for debug logs (midnight of
/// the epoch when the clock is before it).
pub fn debug_timestamp() -> (r: String)
    ensures
        exists|secs: u64, millis: u32| millis < 1000 && r@ == debug_time_text(secs, millis),
{
    let now = system_now();
    let (secs, millis) = match since_unix_epoch(&now) {
        Some(d) => (duration_secs(&d), duration_subsec_millis(&d)),
        None => (0, 0),
    };
    format_debug_time(secs, millis)
}

} // verus!
