//! A container's logs, as they stream in.
//!
//! The page keeps the lines that it shows, and says what to do to the text on screen:
//! append a line, drop the oldest, clear. The text on screen is derived; the lines are
//! the truth.
use std::collections::VecDeque;

use vstd::prelude::*;

use crate::text::{
    chars_of, cut, cut_at, cut_takes_one_character_out, first_char, is_digit, lemma_first_char,
    lemma_first_char_unique, only_the_line_end_goes, string_of, text_view, trim_line_end,
    without_line_end,
};

verus! {

// ---------------------------------------------------------------------------
// Lines.
// ---------------------------------------------------------------------------
/// A chatty container goes on forever, so only so many lines are kept.
pub const MAX_LINES: usize = 5000;

/// One line of the logs.
#[derive(Debug, PartialEq, Eq)]
pub struct LogLine {
    /// `HH:MM:SS` off the daemon's timestamp; empty for a line without one.
    pub time: String,
    pub message: String,
}

/// What a `LogLine` holds.
#[verifier::ext_equal]
pub struct LogLineView {
    pub time: Seq<char>,
    pub message: Seq<char>,
}

impl View for LogLine {
    type V = LogLineView;

    open spec fn view(&self) -> LogLineView {
        LogLineView { time: self.time@, message: self.message@ }
    }
}

/// Whether `s` is written like `shape`: a digit wherever that has a zero, and the same
/// character everywhere else.
pub open spec fn has_shape(s: Seq<char>, shape: Seq<char>) -> bool {
    &&& s.len() == shape.len()
    &&& forall|i: int|
        0 <= i < shape.len() ==> if shape[i] == '0' {
            is_digit(#[trigger] s[i])
        } else {
            s[i] == shape[i]
        }
}

/// The time of day in an RFC 3339 timestamp, which is a date, a `T`, and the time. What
/// follows the seconds, a fraction or a zone, is not looked at.
pub open spec fn time_of_day(stamp: Seq<char>) -> Option<Seq<char>> {
    if stamp.len() >= 19 && has_shape(stamp.take(10), "0000-00-00"@) && stamp[10] == 'T'
        && has_shape(stamp.subrange(11, 19), "00:00:00"@) {
        Some(stamp.subrange(11, 19))
    } else {
        None
    }
}

/// Whether the characters of `chars` from `from` on are written like `shape`.
fn fits(chars: &Vec<char>, from: usize, shape: &str) -> (r: bool)
    requires
        from + shape@.len() <= chars@.len(),
    ensures
        r == has_shape(chars@.subrange(from as int, from + shape@.len()), shape@),
{
    let wanted = chars_of(shape);
    let n = chars.len();
    let ghost part = chars@.subrange(from as int, from + shape@.len());
    let mut i: usize = 0;
    while i < wanted.len()
        invariant
            i <= wanted@.len(),
            wanted@ == shape@,
            from + wanted@.len() <= n == chars@.len(),
            part == chars@.subrange(from as int, from + wanted@.len()),
            forall|k: int|
                0 <= k < i ==> if shape@[k] == '0' {
                    is_digit(#[trigger] part[k])
                } else {
                    part[k] == shape@[k]
                },
        decreases wanted@.len() - i,
    {
        let c = chars[from + i];
        assert(part[i as int] == c);
        if wanted[i] == '0' {
            if c < '0' || c > '9' {
                return false;
            }
        } else if c != wanted[i] {
            return false;
        }
        i += 1;
    }
    true
}

/// `2026-07-17T16:12:55.569805817Z` gives `16:12:55`; what does not have that shape
/// gives nothing.
pub fn hms(stamp: &str) -> (r: Option<String>)
    ensures
        text_view(r) == time_of_day(stamp@),
{
    let chars = chars_of(stamp);
    proof {
        reveal_strlit("0000-00-00");
        reveal_strlit("00:00:00");
    }
    if chars.len() < 19 {
        return None;
    }
    assert(stamp@.take(10) =~= chars@.subrange(0, 10));
    if fits(&chars, 0, "0000-00-00") && chars[10] == 'T' && fits(&chars, 11, "00:00:00") {
        Some(string_of(&chars, 11, 19))
    } else {
        None
    }
}

/// A line of the logs: with a timestamp in front of the first space, the rest is the
/// message; otherwise all of it is.
pub open spec fn parsed_line(raw: Seq<char>) -> LogLineView {
    match cut(raw, ' ') {
        Some((stamp, message)) => match time_of_day(stamp) {
            Some(time) => LogLineView { time, message },
            None => LogLineView { time: Seq::empty(), message: raw },
        },
        None => LogLineView { time: Seq::empty(), message: raw },
    }
}

/// Splits the daemon's timestamp off a line, and keeps only `HH:MM:SS` of it. A line
/// without one is all message.
pub fn parse_line(raw: &str) -> (r: LogLine)
    ensures
        r@ == parsed_line(raw@),
{
    match cut_at(raw, ' ') {
        Some((stamp, message)) => match hms(stamp.as_str()) {
            Some(time) => {
                return LogLine { time, message };
            },
            None => {},
        },
        None => {},
    }
    LogLine { time: String::new(), message: raw.to_owned() }
}

/// A line of the page's own.
pub open spec fn own_line(message: Seq<char>) -> LogLineView {
    LogLineView { time: Seq::empty(), message }
}

/// A line of the page's own, without a timestamp.
pub fn synthetic(message: &str) -> (r: LogLine)
    ensures
        r@ == own_line(message@),
{
    LogLine { time: String::new(), message: message.to_owned() }
}

/// The daemon's timestamp comes off a line and leaves the time of day; everything
/// behind the first space stays, whatever times the app itself printed there.
pub proof fn stamped_line_splits(
    date: Seq<char>,
    time: Seq<char>,
    fraction: Seq<char>,
    message: Seq<char>,
)
    requires
        has_shape(date, "0000-00-00"@),
        has_shape(time, "00:00:00"@),
        !fraction.contains(' '),
    ensures
        parsed_line(date + seq!['T'] + time + fraction + seq![' '] + message) == (LogLineView {
            time,
            message,
        }),
{
    reveal_strlit("0000-00-00");
    reveal_strlit("00:00:00");
    let stamp = date + seq!['T'] + time + fraction;
    let raw = stamp + seq![' '] + message;
    let end = stamp.len() as int;
    assert forall|k: int| 0 <= k < end implies #[trigger] raw[k] != ' ' by {
        if k < 10 {
            assert(raw[k] == date[k]);
        } else if k == 10 {
            assert(raw[k] == 'T');
        } else if k < 19 {
            assert(raw[k] == time[k - 11]);
        } else {
            assert(raw[k] == fraction[k - 19] && fraction.contains(fraction[k - 19]));
        }
    }
    assert(raw[end] == ' ');
    lemma_first_char_unique(raw, ' ', end);
    assert(raw.take(end) =~= stamp);
    assert(raw.skip(end + 1) =~= message);
    assert(stamp.take(10) =~= date);
    assert(stamp[10] == 'T');
    assert(stamp.subrange(11, 19) =~= time);
}

/// A time that was read has hours, minutes and seconds of two digits each.
pub proof fn time_has_its_shape(stamp: Seq<char>)
    ensures
        time_of_day(stamp) matches Some(time) ==> has_shape(time, "00:00:00"@) && time.len() == 8,
{
    reveal_strlit("00:00:00");
}

/// Nothing of a line is lost but the timestamp: the message is the end of the line, and
/// all of it where no time was read.
pub proof fn message_is_the_end_of_the_line(raw: Seq<char>)
    ensures
        parsed_line(raw).message.len() <= raw.len(),
        parsed_line(raw).message == raw.skip(raw.len() - parsed_line(raw).message.len()),
        parsed_line(raw).time.len() == 0 <==> parsed_line(raw).message == raw,
{
    lemma_first_char(raw, ' ');
    time_has_its_shape(raw.take(first_char(raw, ' ')));
    assert(raw.skip(0) =~= raw);
}

// ---------------------------------------------------------------------------
// The page.
// ---------------------------------------------------------------------------
/// The state of the logs of one container.
#[derive(Debug)]
pub struct LogsPage {
    /// Long lines wrap.
    pub wrap: bool,
    /// The daemon's timestamps are shown.
    pub timestamps: bool,
    /// Pinned to the bottom. Off while the user reads further up.
    pub follow: bool,
    /// The lines, oldest first.
    pub lines: VecDeque<LogLine>,
    /// The start of a line whose end has not come yet.
    pub pending: String,
    /// Whether a stream is open, so that there is never a second one.
    pub streaming: bool,
}

/// What a `LogsPage` holds.
#[verifier::ext_equal]
pub struct LogsPageView {
    pub wrap: bool,
    pub timestamps: bool,
    pub follow: bool,
    pub lines: Seq<LogLineView>,
    pub pending: Seq<char>,
    pub streaming: bool,
}

/// What a sequence of lines holds.
pub open spec fn lines_view(lines: Seq<LogLine>) -> Seq<LogLineView> {
    Seq::new(lines.len(), |i: int| lines[i]@)
}

impl View for LogsPage {
    type V = LogsPageView;

    open spec fn view(&self) -> LogsPageView {
        LogsPageView {
            wrap: self.wrap,
            timestamps: self.timestamps,
            follow: self.follow,
            lines: lines_view(self.lines@),
            pending: self.pending@,
            streaming: self.streaming,
        }
    }
}

/// What the user or the window does to the page.
#[derive(Debug, Clone, Copy, PartialEq, Eq, Structural)]
pub enum LogsInput {
    SetWrap(bool),
    SetTimestamps(bool),
    /// The view was scrolled; the last line is visible or not.
    ScrolledManually { at_bottom: bool },
    /// The text on screen changed its size.
    ContentGrew,
    /// The container is up, so there should be a stream.
    EnsureStreaming,
}

/// What comes from the stream.
#[derive(Debug, Clone, PartialEq, Eq)]
pub enum LogsCmd {
    /// Some text, which need not be a whole line.
    Chunk(String),
    Failed(String),
    Ended,
}

/// What an item of the stream means to the page.
pub fn log_message(item: Result<String, String>) -> (r: LogsCmd)
    ensures
        r == match item {
            Ok(chunk) => LogsCmd::Chunk(chunk),
            Err(reason) => LogsCmd::Failed(reason),
        },
{
    match item {
        Ok(chunk) => LogsCmd::Chunk(chunk),
        Err(reason) => LogsCmd::Failed(reason),
    }
}

/// What to do on screen, or with the stream.
#[derive(Debug, PartialEq, Eq)]
pub enum LogsEffect {
    /// Append a line: `stamp`, dimmed, then `text`.
    Append { stamp: String, text: String },
    /// Drop the oldest line.
    DropOldest,
    /// Drop all lines.
    Clear,
    /// Scroll to the last line.
    ScrollToEnd,
    /// Open a stream of the container's logs.
    OpenStream,
}

/// What a `LogsEffect` holds.
#[verifier::ext_equal]
pub enum LogsEffectView {
    Append { stamp: Seq<char>, text: Seq<char> },
    DropOldest,
    Clear,
    ScrollToEnd,
    OpenStream,
}

impl View for LogsEffect {
    type V = LogsEffectView;

    open spec fn view(&self) -> LogsEffectView {
        match self {
            LogsEffect::Append { stamp, text } => LogsEffectView::Append {
                stamp: stamp@,
                text: text@,
            },
            LogsEffect::DropOldest => LogsEffectView::DropOldest,
            LogsEffect::Clear => LogsEffectView::Clear,
            LogsEffect::ScrollToEnd => LogsEffectView::ScrollToEnd,
            LogsEffect::OpenStream => LogsEffectView::OpenStream,
        }
    }
}

/// What a sequence of effects holds.
pub open spec fn logs_effects_view(effects: Seq<LogsEffect>) -> Seq<LogsEffectView> {
    Seq::new(effects.len(), |i: int| effects[i]@)
}

/// What stands in front of a line on screen: its time, where times are shown and it has
/// one.
pub open spec fn stamp_text(timestamps: bool, line: LogLineView) -> Seq<char> {
    if timestamps && line.time.len() > 0 {
        line.time + "  "@
    } else {
        Seq::empty()
    }
}

/// How a line is put on screen.
pub open spec fn rendered(timestamps: bool, line: LogLineView) -> LogsEffectView {
    LogsEffectView::Append { stamp: stamp_text(timestamps, line), text: line.message }
}

/// How all lines are put on screen.
pub open spec fn rendered_lines(timestamps: bool, lines: Seq<LogLineView>) -> Seq<LogsEffectView> {
    Seq::new(lines.len(), |i: int| rendered(timestamps, lines[i]))
}

/// By how much a number of lines is over the limit.
pub open spec fn lines_over(n: nat) -> nat {
    if n > MAX_LINES {
        (n - MAX_LINES) as nat
    } else {
        0
    }
}

/// The last of `lines`, as many as are kept.
pub open spec fn last_lines(lines: Seq<LogLineView>) -> Seq<LogLineView> {
    lines.skip(lines_over(lines.len()) as int)
}

/// The page with one more line, and what that does on screen: the line is appended,
/// and then the oldest go, as far as there are too many.
pub open spec fn pushed(page: LogsPageView, line: LogLineView) -> (
    LogsPageView,
    Seq<LogsEffectView>,
) {
    let lines = page.lines.push(line);
    let over = lines_over(lines.len());
    (
        LogsPageView { lines: last_lines(lines), ..page },
        seq![rendered(page.timestamps, line)] + Seq::new(over, |i: int| LogsEffectView::DropOldest),
    )
}

/// The page after `text` has come in, with nothing pending before it: every whole line
/// becomes a line, and what is left is pending.
pub open spec fn fed_text(page: LogsPageView, text: Seq<char>) -> (
    LogsPageView,
    Seq<LogsEffectView>,
)
    decreases text.len(),
{
    let i = first_char(text, '\n');
    if 0 <= i < text.len() {
        let (next, effects) = pushed(page, parsed_line(without_line_end(text.take(i + 1))));
        let (last, more) = fed_text(next, text.skip(i + 1));
        (last, effects + more)
    } else {
        (LogsPageView { pending: text, ..page }, Seq::empty())
    }
}

/// The page after a chunk has come in.
pub open spec fn fed(page: LogsPageView, chunk: Seq<char>) -> (LogsPageView, Seq<LogsEffectView>) {
    fed_text(LogsPageView { pending: Seq::empty(), ..page }, page.pending + chunk)
}

/// The page after what was pending has become a line.
pub open spec fn flushed(page: LogsPageView) -> (LogsPageView, Seq<LogsEffectView>) {
    if page.pending.len() == 0 {
        (page, Seq::empty())
    } else {
        pushed(LogsPageView { pending: Seq::empty(), ..page }, parsed_line(page.pending))
    }
}

/// The page after a line of its own has followed what was pending.
pub open spec fn closed_with(page: LogsPageView, message: Seq<char>) -> (
    LogsPageView,
    Seq<LogsEffectView>,
) {
    let (next, effects) = flushed(page);
    let (last, more) = pushed(next, own_line(message));
    (last, effects + more)
}

/// How the page answers what the user or the window does.
pub open spec fn logs_updated(page: LogsPageView, msg: LogsInput) -> (
    LogsPageView,
    Seq<LogsEffectView>,
) {
    match msg {
        LogsInput::SetWrap(wrap) => (LogsPageView { wrap, ..page }, Seq::empty()),
        LogsInput::SetTimestamps(timestamps) => (
            LogsPageView { timestamps, ..page },
            seq![LogsEffectView::Clear] + rendered_lines(timestamps, page.lines),
        ),
        LogsInput::ScrolledManually { at_bottom } => (
            LogsPageView { follow: at_bottom, ..page },
            Seq::empty(),
        ),
        LogsInput::ContentGrew => (
            page,
            if page.follow {
                seq![LogsEffectView::ScrollToEnd]
            } else {
                Seq::empty()
            },
        ),
        LogsInput::EnsureStreaming => if page.streaming {
            (page, Seq::empty())
        } else {
            (
                LogsPageView {
                    lines: Seq::empty(),
                    pending: Seq::empty(),
                    streaming: true,
                    ..page
                },
                seq![LogsEffectView::Clear, LogsEffectView::OpenStream],
            )
        },
    }
}

/// How the page answers what comes from the stream.
pub open spec fn logs_received(page: LogsPageView, msg: LogsCmd) -> (
    LogsPageView,
    Seq<LogsEffectView>,
) {
    match msg {
        LogsCmd::Chunk(text) => fed(page, text@),
        LogsCmd::Failed(reason) => closed_with(page, "— stream error: "@ + reason@ + " —"@),
        LogsCmd::Ended => {
            let (next, effects) = closed_with(page, "— end of logs —"@);
            (LogsPageView { streaming: false, ..next }, effects)
        },
    }
}

/// Adds one effect behind those that are there.
fn push_effect(effects: &mut Vec<LogsEffect>, effect: LogsEffect)
    ensures
        logs_effects_view(final(effects)@) == logs_effects_view(old(effects)@).push(effect@),
{
    let ghost before = logs_effects_view(effects@);
    let ghost added = effect@;
    effects.push(effect);
    proof {
        assert(logs_effects_view(effects@) =~= before.push(added));
    }
}

impl LogsPage {
    /// A page with nothing on it yet, and how it begins: with an open stream.
    pub fn new(wrap: bool, timestamps: bool) -> (r: (LogsPage, Vec<LogsEffect>))
        ensures
            r.0@ == (LogsPageView {
                wrap,
                timestamps,
                follow: true,
                lines: Seq::empty(),
                pending: Seq::empty(),
                streaming: true,
            }),
            logs_effects_view(r.1@) == seq![LogsEffectView::OpenStream],
    {
        let page = LogsPage {
            wrap,
            timestamps,
            follow: true,
            lines: VecDeque::new(),
            pending: String::new(),
            streaming: true,
        };
        let mut effects: Vec<LogsEffect> = Vec::new();
        push_effect(&mut effects, LogsEffect::OpenStream);
        proof {
            assert(page@.lines =~= Seq::empty());
            assert(page@.pending =~= Seq::empty());
            assert(logs_effects_view(effects@) =~= seq![LogsEffectView::OpenStream]);
        }
        (page, effects)
    }

    /// How a line is put on screen.
    fn render(&self, line: &LogLine) -> (r: LogsEffect)
        ensures
            r@ == rendered(self.timestamps, line@),
    {
        let mut stamp = String::new();
        if self.timestamps && !line.time.as_str().is_empty() {
            stamp.append(line.time.as_str());
            stamp.append("  ");
            proof {
                assert(stamp@ =~= line.time@ + "  "@);
            }
        }
        LogsEffect::Append { stamp, text: line.message.clone() }
    }

    /// Keeps a line and puts it on screen; the oldest go where there are too many.
    pub fn push_line(&mut self, line: LogLine, effects: &mut Vec<LogsEffect>)
        ensures
            final(self)@ == pushed(old(self)@, line@).0,
            logs_effects_view(final(effects)@) == logs_effects_view(old(effects)@) + pushed(
                old(self)@,
                line@,
            ).1,
    {
        let ghost page = self@;
        let ghost before = logs_effects_view(effects@);
        let ghost added = line@;
        let ghost lines = page.lines.push(added);
        let ghost over = lines_over(lines.len());
        let ghost first = rendered(page.timestamps, added);
        push_effect(effects, self.render(&line));
        self.lines.push_back(line);
        let ghost mut dropped: nat = 0;
        proof {
            assert(self@.lines =~= lines.skip(0));
            assert(logs_effects_view(effects@) =~= before + (seq![first] + Seq::new(
                0,
                |i: int| LogsEffectView::DropOldest,
            )));
        }
        while self.lines.len() > MAX_LINES
            invariant
                dropped <= over,
                over == lines_over(lines.len()),
                self@ == (LogsPageView { lines: lines.skip(dropped as int), ..page }),
                logs_effects_view(effects@) == before + (seq![first] + Seq::new(
                    dropped,
                    |i: int| LogsEffectView::DropOldest,
                )),
            decreases self.lines@.len(),
        {
            let ghost was = self.lines@;
            proof {
                assert(self@.lines == lines.skip(dropped as int));
                assert(lines_view(was).len() == was.len());
            }
            let _ = self.lines.pop_front();
            push_effect(effects, LogsEffect::DropOldest);
            proof {
                assert(was.len() == lines.len() - dropped);
                assert(self.lines@ =~= was.skip(1));
                assert(lines_view(self.lines@) =~= lines_view(was).skip(1));
                assert(lines.skip(dropped as int).skip(1) =~= lines.skip((dropped + 1) as int));
                assert(logs_effects_view(effects@) =~= before + (seq![first] + Seq::new(
                    dropped + 1,
                    |i: int| LogsEffectView::DropOldest,
                )));
                dropped = dropped + 1;
            }
        }
        proof {
            assert(self@.lines == lines.skip(dropped as int));
            assert(lines_view(self.lines@).len() == self.lines@.len());
        }
    }

    /// Breaks a chunk into whole lines, and keeps the start of a line for later.
    pub fn feed(&mut self, chunk: &str, effects: &mut Vec<LogsEffect>)
        ensures
            final(self)@ == fed(old(self)@, chunk@).0,
            logs_effects_view(final(effects)@) == logs_effects_view(old(effects)@) + fed(
                old(self)@,
                chunk@,
            ).1,
    {
        let ghost start = LogsPageView { pending: Seq::empty(), ..self@ };
        let ghost before = logs_effects_view(effects@);
        let mut text = self.pending.clone();
        text.append(chunk);
        self.pending = String::new();
        let chars = chars_of(text.as_str());
        let mut from: usize = 0;
        let mut at: usize = 0;
        proof {
            assert(self@ =~= start);
            assert(chars@.skip(0) =~= chars@);
            assert(before + fed_text(start, chars@).1 == logs_effects_view(effects@) + fed_text(
                self@,
                chars@.skip(0),
            ).1);
        }
        while at < chars.len()
            invariant
                from <= at <= chars@.len(),
                self@.pending == Seq::<char>::empty(),
                forall|k: int| from <= k < at ==> chars@[k] != '\n',
                fed_text(start, chars@).0 == fed_text(self@, chars@.skip(from as int)).0,
                before + fed_text(start, chars@).1 == logs_effects_view(effects@) + fed_text(
                    self@,
                    chars@.skip(from as int),
                ).1,
            decreases chars@.len() - at,
        {
            if chars[at] == '\n' {
                let ghost rest = chars@.skip(from as int);
                let ghost was = self@;
                let ghost so_far = logs_effects_view(effects@);
                let raw = trim_line_end(&chars, from, at + 1);
                let line = parse_line(raw.as_str());
                proof {
                    assert forall|k: int| 0 <= k < at - from implies #[trigger] rest[k] != '\n' by {
                        assert(rest[k] == chars@[from + k]);
                    }
                    lemma_first_char_unique(rest, '\n', at - from);
                    assert(rest.take(at - from + 1) =~= chars@.subrange(
                        from as int,
                        at + 1,
                    ));
                    assert(rest.skip(at - from + 1) =~= chars@.skip(at + 1));
                }
                self.push_line(line, effects);
                proof {
                    let (next, some) = pushed(was, line@);
                    let more = fed_text(next, chars@.skip(at + 1)).1;
                    assert(fed_text(was, rest).1 == some + more);
                    assert(so_far + (some + more) =~= (so_far + some) + more);
                }
                from = at + 1;
            }
            at += 1;
        }
        self.pending = string_of(&chars, from, at);
        proof {
            let rest = chars@.skip(from as int);
            lemma_first_char(rest, '\n');
            if first_char(rest, '\n') < rest.len() {
                assert(rest[first_char(rest, '\n')] == chars@[from + first_char(rest, '\n')]);
            }
            assert(rest =~= chars@.subrange(from as int, at as int));
            assert(before + fed_text(start, chars@).1 =~= logs_effects_view(effects@));
        }
    }

    /// Makes a line of what is pending.
    pub fn flush_pending(&mut self, effects: &mut Vec<LogsEffect>)
        ensures
            final(self)@ == flushed(old(self)@).0,
            logs_effects_view(final(effects)@) == logs_effects_view(old(effects)@) + flushed(
                old(self)@,
            ).1,
    {
        if !self.pending.as_str().is_empty() {
            let ghost start = LogsPageView { pending: Seq::empty(), ..self@ };
            let line = parse_line(self.pending.as_str());
            self.pending = String::new();
            proof {
                assert(self@ =~= start);
            }
            self.push_line(line, effects);
        } else {
            proof {
                assert(logs_effects_view(effects@) + Seq::<LogsEffectView>::empty()
                    =~= logs_effects_view(effects@));
            }
        }
    }

    /// Puts a line of the page's own behind what is pending.
    fn close_with(&mut self, message: &str, effects: &mut Vec<LogsEffect>)
        ensures
            final(self)@ == closed_with(old(self)@, message@).0,
            logs_effects_view(final(effects)@) == logs_effects_view(old(effects)@) + closed_with(
                old(self)@,
                message@,
            ).1,
    {
        let ghost page = self@;
        let ghost before = logs_effects_view(effects@);
        self.flush_pending(effects);
        let ghost next = self@;
        self.push_line(synthetic(message), effects);
        proof {
            let some = flushed(page).1;
            let more = pushed(next, own_line(message@)).1;
            assert((before + some) + more =~= before + (some + more));
        }
    }

    /// Puts all lines on screen anew.
    fn rebuild(&self, effects: &mut Vec<LogsEffect>)
        ensures
            logs_effects_view(final(effects)@) == logs_effects_view(old(effects)@) + (
            seq![LogsEffectView::Clear] + rendered_lines(self.timestamps, self@.lines)),
    {
        let ghost before = logs_effects_view(effects@);
        let ghost all = rendered_lines(self.timestamps, self@.lines);
        push_effect(effects, LogsEffect::Clear);
        let mut i: usize = 0;
        proof {
            assert(logs_effects_view(effects@) =~= before + (seq![LogsEffectView::Clear]
                + all.take(0)));
        }
        while i < self.lines.len()
            invariant
                i <= self.lines@.len(),
                all == rendered_lines(self.timestamps, self@.lines),
                logs_effects_view(effects@) == before + (seq![LogsEffectView::Clear] + all.take(
                    i as int,
                )),
            decreases self.lines@.len() - i,
        {
            push_effect(effects, self.render(&self.lines[i]));
            proof {
                assert(logs_effects_view(effects@) =~= before + (seq![LogsEffectView::Clear]
                    + all.take(i + 1)));
            }
            i += 1;
        }
        proof {
            assert(all.take(i as int) =~= all);
        }
    }

    /// Answers what the user or the window does.
    pub fn update(&mut self, msg: LogsInput) -> (r: Vec<LogsEffect>)
        ensures
            (final(self)@, logs_effects_view(r@)) == logs_updated(old(self)@, msg),
    {
        let mut effects: Vec<LogsEffect> = Vec::new();
        proof {
            assert(logs_effects_view(effects@) =~= Seq::empty());
        }
        match msg {
            LogsInput::SetWrap(wrap) => {
                self.wrap = wrap;
            },
            LogsInput::SetTimestamps(show) => {
                self.timestamps = show;
                self.rebuild(&mut effects);
                proof {
                    assert(logs_effects_view(effects@) =~= seq![LogsEffectView::Clear]
                        + rendered_lines(show, self@.lines));
                }
            },
            LogsInput::ScrolledManually { at_bottom } => {
                self.follow = at_bottom;
            },
            LogsInput::ContentGrew => {
                if self.follow {
                    push_effect(&mut effects, LogsEffect::ScrollToEnd);
                    proof {
                        assert(logs_effects_view(effects@) =~= seq![LogsEffectView::ScrollToEnd]);
                    }
                }
            },
            LogsInput::EnsureStreaming => {
                if !self.streaming {
                    // The daemon serves the last lines again, so the old ones go.
                    self.lines.clear();
                    self.pending = String::new();
                    self.streaming = true;
                    push_effect(&mut effects, LogsEffect::Clear);
                    push_effect(&mut effects, LogsEffect::OpenStream);
                    proof {
                        assert(self@.lines =~= Seq::empty());
                        assert(self@.pending =~= Seq::empty());
                        assert(logs_effects_view(effects@) =~= seq![
                            LogsEffectView::Clear,
                            LogsEffectView::OpenStream,
                        ]);
                    }
                }
            },
        }
        effects
    }

    /// Answers what comes from the stream.
    pub fn update_cmd(&mut self, msg: LogsCmd) -> (r: Vec<LogsEffect>)
        ensures
            (final(self)@, logs_effects_view(r@)) == logs_received(old(self)@, msg),
    {
        let mut effects: Vec<LogsEffect> = Vec::new();
        let ghost page = self@;
        proof {
            assert(logs_effects_view(effects@) =~= Seq::empty());
        }
        match msg {
            LogsCmd::Chunk(text) => {
                self.feed(text.as_str(), &mut effects);
                proof {
                    assert(Seq::<LogsEffectView>::empty() + fed(page, text@).1 =~= fed(
                        page,
                        text@,
                    ).1);
                }
            },
            LogsCmd::Failed(reason) => {
                let mut message = "— stream error: ".to_owned();
                message.append(reason.as_str());
                message.append(" —");
                self.close_with(message.as_str(), &mut effects);
                proof {
                    let all = closed_with(page, message@).1;
                    assert(Seq::<LogsEffectView>::empty() + all =~= all);
                }
            },
            LogsCmd::Ended => {
                self.close_with("— end of logs —", &mut effects);
                self.streaming = false;
                proof {
                    let all = closed_with(page, "— end of logs —"@).1;
                    assert(Seq::<LogsEffectView>::empty() + all =~= all);
                }
            },
        }
        effects
    }
}

// ---------------------------------------------------------------------------
// What holds of the page.
// ---------------------------------------------------------------------------
/// The page never holds too many lines, nor a whole line as pending.
pub open spec fn logs_sound(page: LogsPageView) -> bool {
    &&& page.lines.len() <= MAX_LINES
    &&& !page.pending.contains('\n')
}

proof fn lemma_pushed_sound(page: LogsPageView, line: LogLineView)
    ensures
        pushed(page, line).0.lines.len() <= MAX_LINES,
        pushed(page, line).0.pending == page.pending,
        pushed(page, line).0.streaming == page.streaming,
{
}

proof fn lemma_fed_text_sound(page: LogsPageView, text: Seq<char>)
    requires
        page.lines.len() <= MAX_LINES,
    ensures
        logs_sound(fed_text(page, text).0),
    decreases text.len(),
{
    let i = first_char(text, '\n');
    lemma_first_char(text, '\n');
    if 0 <= i < text.len() {
        let line = parsed_line(without_line_end(text.take(i + 1)));
        lemma_pushed_sound(page, line);
        lemma_fed_text_sound(pushed(page, line).0, text.skip(i + 1));
    } else if text.contains('\n') {
        let k = choose|k: int| 0 <= k < text.len() && text[k] == '\n';
        assert(text[k] != '\n');
    }
}

/// A page stays within its limits, whatever happens.
pub proof fn logs_stay_sound(page: LogsPageView, input: LogsInput, cmd: LogsCmd)
    requires
        logs_sound(page),
    ensures
        logs_sound(logs_updated(page, input).0),
        logs_sound(logs_received(page, cmd).0),
{
    assert(!Seq::<char>::empty().contains('\n'));
    let clean = LogsPageView { pending: Seq::empty(), ..page };
    match cmd {
        LogsCmd::Chunk(text) => lemma_fed_text_sound(clean, page.pending + text@),
        _ => {},
    }
}

/// What follows the part of a text that was fed first is fed as it would have been in
/// one go.
proof fn lemma_fed_text_splits(page: LogsPageView, text: Seq<char>, more: Seq<char>)
    requires
        page.pending == Seq::<char>::empty(),
    ensures
        ({
            let (next, effects) = fed_text(page, text);
            let (last, rest) = fed(next, more);
            fed_text(page, text + more) == (last, effects + rest)
        }),
    decreases text.len(),
{
    let i = first_char(text, '\n');
    let whole = text + more;
    lemma_first_char(text, '\n');
    if 0 <= i < text.len() {
        assert forall|k: int| 0 <= k < i implies #[trigger] whole[k] != '\n' by {
            assert(whole[k] == text[k]);
        }
        lemma_first_char_unique(whole, '\n', i);
        assert(whole.take(i + 1) =~= text.take(i + 1));
        assert(whole.skip(i + 1) =~= text.skip(i + 1) + more);
        let (next, effects) = pushed(page, parsed_line(without_line_end(text.take(i + 1))));
        lemma_fed_text_splits(next, text.skip(i + 1), more);
        let (mid, some) = fed_text(next, text.skip(i + 1));
        let (last, rest) = fed(mid, more);
        assert(effects + (some + rest) =~= (effects + some) + rest);
    } else {
        let (next, effects) = fed_text(page, text);
        assert(LogsPageView { pending: Seq::<char>::empty(), ..next } =~= page);
        let (last, rest) = fed(next, more);
        assert(effects + rest =~= rest);
    }
}

/// It makes no difference how the daemon cuts its output into chunks.
pub proof fn chunks_may_be_cut_anywhere(page: LogsPageView, a: Seq<char>, b: Seq<char>)
    ensures
        fed(fed(page, a).0, b).0 == fed(page, a + b).0,
        fed(page, a).1 + fed(fed(page, a).0, b).1 == fed(page, a + b).1,
{
    let clean = LogsPageView { pending: Seq::empty(), ..page };
    lemma_fed_text_splits(clean, page.pending + a, b);
    assert((page.pending + a) + b =~= page.pending + (a + b));
}

/// A chunk that is one whole line becomes one line.
pub proof fn whole_line_becomes_one_line(page: LogsPageView, line: Seq<char>)
    requires
        page.pending.len() == 0,
        !line.contains('\n'),
    ensures
        fed(page, line.push('\n')) == pushed(page, parsed_line(without_line_end(line))),
{
    let text = page.pending + line.push('\n');
    assert(text =~= line.push('\n'));
    assert forall|k: int| 0 <= k < line.len() implies #[trigger] text[k] != '\n' by {
        assert(text[k] == line[k] && line.contains(line[k]));
    }
    lemma_first_char_unique(text, '\n', line.len() as int);
    assert(text.take(text.len() as int) =~= text);
    assert(text.skip(text.len() as int) =~= Seq::<char>::empty());
    assert(text.drop_last() =~= line);
    let clean = LogsPageView { pending: Seq::empty(), ..page };
    assert(clean =~= page);
    let (next, effects) = pushed(page, parsed_line(without_line_end(line)));
    assert(without_line_end(text) == without_line_end(line));
    assert(LogsPageView { pending: Seq::<char>::empty(), ..next } =~= next);
    assert(fed_text(next, Seq::empty()) == (next, Seq::<LogsEffectView>::empty()));
    assert(effects + Seq::<LogsEffectView>::empty() =~= effects);
}

/// The whole lines of a text, each with the newline that ends it.
pub open spec fn whole_lines(text: Seq<char>) -> Seq<Seq<char>>
    decreases text.len(),
{
    let i = first_char(text, '\n');
    if 0 <= i < text.len() {
        seq![text.take(i + 1)] + whole_lines(text.skip(i + 1))
    } else {
        Seq::empty()
    }
}

/// What follows the last newline of a text.
pub open spec fn unfinished_line(text: Seq<char>) -> Seq<char>
    decreases text.len(),
{
    let i = first_char(text, '\n');
    if 0 <= i < text.len() {
        unfinished_line(text.skip(i + 1))
    } else {
        text
    }
}

/// Its whole lines and what follows them make up a text: no character is lost, every
/// whole line has one newline, at its end, and what follows has none.
pub proof fn whole_lines_make_up_the_text(text: Seq<char>)
    ensures
        whole_lines(text).flatten() + unfinished_line(text) == text,
        forall|k: int|
            0 <= k < whole_lines(text).len() ==> {
                let line = #[trigger] whole_lines(text)[k];
                line.len() > 0 && line.last() == '\n' && !line.drop_last().contains('\n')
            },
        !unfinished_line(text).contains('\n'),
    decreases text.len(),
{
    let i = first_char(text, '\n');
    let all = whole_lines(text);
    lemma_first_char(text, '\n');
    if 0 <= i < text.len() {
        let rest = text.skip(i + 1);
        let more = whole_lines(rest);
        whole_lines_make_up_the_text(rest);
        assert(all.drop_first() =~= more);
        assert(all.flatten() =~= text.take(i + 1) + more.flatten());
        assert(all.flatten() + unfinished_line(text) =~= text.take(i + 1) + (more.flatten()
            + unfinished_line(rest)));
        assert(text.take(i + 1) + rest =~= text);
        assert forall|k: int| 0 <= k < all.len() implies {
            let line = #[trigger] all[k];
            line.len() > 0 && line.last() == '\n' && !line.drop_last().contains('\n')
        } by {
            if k == 0 {
                let line = text.take(i + 1);
                assert(all[0] == line && line.last() == text[i]);
                if line.drop_last().contains('\n') {
                    let j = choose|j: int|
                        0 <= j < line.drop_last().len() && line.drop_last()[j] == '\n';
                    assert(text[j] == '\n');
                }
            } else {
                assert(all[k] == more[k - 1]);
            }
        }
    } else {
        assert(all.flatten() =~= Seq::<char>::empty());
        assert(all.flatten() + text =~= text);
        if text.contains('\n') {
            let k = choose|k: int| 0 <= k < text.len() && text[k] == '\n';
            assert(text[k] != '\n');
        }
    }
}

/// The lines that whole lines of text become.
pub open spec fn parsed_lines(raw: Seq<Seq<char>>) -> Seq<LogLineView> {
    Seq::new(raw.len(), |i: int| parsed_line(without_line_end(raw[i])))
}

proof fn lemma_fed_text_lines(page: LogsPageView, text: Seq<char>)
    requires
        page.lines.len() <= MAX_LINES,
    ensures
        fed_text(page, text).0 == (LogsPageView {
            lines: last_lines(page.lines + parsed_lines(whole_lines(text))),
            pending: unfinished_line(text),
            ..page
        }),
    decreases text.len(),
{
    let i = first_char(text, '\n');
    let all = parsed_lines(whole_lines(text));
    if 0 <= i < text.len() {
        let rest = text.skip(i + 1);
        let line = parsed_line(without_line_end(text.take(i + 1)));
        let next = pushed(page, line).0;
        let more = parsed_lines(whole_lines(rest));
        lemma_fed_text_lines(next, rest);
        assert(whole_lines(text)[0] == text.take(i + 1));
        assert(all =~= seq![line] + more);
        assert(last_lines(next.lines + more) =~= last_lines(page.lines + all));
    } else {
        assert(all =~= Seq::<LogLineView>::empty());
        assert(last_lines(page.lines + all) =~= page.lines);
    }
}

/// Feeding a page turns every whole line of what was pending and what came into a line,
/// in order, and keeps the last of all lines, as many as there is room for. What follows
/// the last newline is pending. Nothing else changes.
pub proof fn fed_page_keeps_the_last_lines(page: LogsPageView, chunk: Seq<char>)
    requires
        page.lines.len() <= MAX_LINES,
    ensures
        fed(page, chunk).0 == (LogsPageView {
            lines: last_lines(page.lines + parsed_lines(whole_lines(page.pending + chunk))),
            pending: unfinished_line(page.pending + chunk),
            ..page
        }),
{
    lemma_fed_text_lines(
        LogsPageView { pending: Seq::empty(), ..page },
        page.pending + chunk,
    );
}

/// A new line comes last. It displaces the oldest, and only that, where there is no
/// room; nothing else of the page changes.
pub proof fn new_line_displaces_only_the_oldest(page: LogsPageView, line: LogLineView)
    requires
        page.lines.len() <= MAX_LINES,
    ensures
        ({
            let next = pushed(page, line).0;
            &&& page.lines.len() < MAX_LINES ==> next.lines == page.lines.push(line)
            &&& page.lines.len() == MAX_LINES ==> next.lines == page.lines.drop_first().push(line)
            &&& next == (LogsPageView { lines: next.lines, ..page })
        }),
{
    let next = pushed(page, line).0;
    if page.lines.len() < MAX_LINES {
        assert(next.lines =~= page.lines.push(line));
    } else {
        assert(next.lines =~= page.lines.drop_first().push(line));
    }
}

/// There is never a second stream: one is opened only where none is open, and then one
/// is open.
pub proof fn logs_open_one_stream(page: LogsPageView, input: LogsInput, cmd: LogsCmd)
    ensures
        logs_updated(page, input).1.contains(LogsEffectView::OpenStream) ==> !page.streaming
            && logs_updated(page, input).0.streaming,
        !logs_received(page, cmd).1.contains(LogsEffectView::OpenStream),
{
    match cmd {
        LogsCmd::Chunk(text) => {
            lemma_fed_text_opens_none(
                LogsPageView { pending: Seq::empty(), ..page },
                page.pending + text@,
            );
        },
        _ => {},
    }
}

proof fn lemma_fed_text_opens_none(page: LogsPageView, text: Seq<char>)
    ensures
        !fed_text(page, text).1.contains(LogsEffectView::OpenStream),
    decreases text.len(),
{
    let i = first_char(text, '\n');
    if 0 <= i < text.len() {
        let (next, effects) = pushed(page, parsed_line(without_line_end(text.take(i + 1))));
        lemma_fed_text_opens_none(next, text.skip(i + 1));
        let more = fed_text(next, text.skip(i + 1)).1;
        let all = fed_text(page, text).1;
        assert(all == effects + more);
        assert forall|k: int| 0 <= k < all.len() implies all[k] != LogsEffectView::OpenStream by {
            if k >= effects.len() {
                assert(all[k] == more[k - effects.len()]);
                assert(more.contains(more[k - effects.len()]));
            }
        }
    }
}

/// What a line looks like on screen: a dimmed part, and the rest.
pub open spec fn screen_line(timestamps: bool, line: LogLineView) -> (Seq<char>, Seq<char>) {
    (stamp_text(timestamps, line), line.message)
}

/// What a page looks like on screen.
pub open spec fn screen(page: LogsPageView) -> Seq<(Seq<char>, Seq<char>)> {
    Seq::new(page.lines.len(), |i: int| screen_line(page.timestamps, page.lines[i]))
}

/// What an effect does on screen.
pub open spec fn shown_effect(
    on_screen: Seq<(Seq<char>, Seq<char>)>,
    effect: LogsEffectView,
) -> Seq<(Seq<char>, Seq<char>)> {
    match effect {
        LogsEffectView::Append { stamp, text } => on_screen.push((stamp, text)),
        LogsEffectView::DropOldest => if on_screen.len() == 0 {
            on_screen
        } else {
            on_screen.drop_first()
        },
        LogsEffectView::Clear => Seq::empty(),
        LogsEffectView::ScrollToEnd => on_screen,
        LogsEffectView::OpenStream => on_screen,
    }
}

/// What effects do on screen, one after the other.
pub open spec fn shown_effects(
    on_screen: Seq<(Seq<char>, Seq<char>)>,
    effects: Seq<LogsEffectView>,
) -> Seq<(Seq<char>, Seq<char>)>
    decreases effects.len(),
{
    if effects.len() == 0 {
        on_screen
    } else {
        shown_effect(shown_effects(on_screen, effects.drop_last()), effects.last())
    }
}

proof fn lemma_shown_effects_add(
    on_screen: Seq<(Seq<char>, Seq<char>)>,
    a: Seq<LogsEffectView>,
    b: Seq<LogsEffectView>,
)
    ensures
        shown_effects(on_screen, a + b) == shown_effects(shown_effects(on_screen, a), b),
    decreases b.len(),
{
    if b.len() == 0 {
        assert(a + b =~= a);
    } else {
        assert((a + b).drop_last() =~= a + b.drop_last());
        lemma_shown_effects_add(on_screen, a, b.drop_last());
    }
}

proof fn lemma_shown_drops(on_screen: Seq<(Seq<char>, Seq<char>)>, n: nat)
    requires
        n <= on_screen.len(),
    ensures
        shown_effects(on_screen, Seq::new(n, |i: int| LogsEffectView::DropOldest))
            == on_screen.skip(n as int),
    decreases n,
{
    let drops = Seq::new(n, |i: int| LogsEffectView::DropOldest);
    if n == 0 {
        assert(on_screen.skip(0) =~= on_screen);
    } else {
        let m = (n - 1) as nat;
        assert(drops.drop_last() =~= Seq::new(m, |i: int| LogsEffectView::DropOldest));
        lemma_shown_drops(on_screen, m);
        assert(on_screen.skip(m as int).drop_first() =~= on_screen.skip(n as int));
    }
}

proof fn lemma_pushed_shows(page: LogsPageView, line: LogLineView)
    ensures
        shown_effects(screen(page), pushed(page, line).1) == screen(pushed(page, line).0),
{
    let over = lines_over(page.lines.push(line).len());
    let first = seq![rendered(page.timestamps, line)];
    let drops = Seq::new(over, |i: int| LogsEffectView::DropOldest);
    lemma_shown_effects_add(screen(page), first, drops);
    assert(first.drop_last() =~= Seq::<LogsEffectView>::empty());
    assert(shown_effects(screen(page), first.drop_last()) == screen(page));
    let with_line = screen(page).push(screen_line(page.timestamps, line));
    assert(shown_effects(screen(page), first) == with_line);
    lemma_shown_drops(with_line, over);
    assert(with_line.skip(over as int) =~= screen(pushed(page, line).0));
}

proof fn lemma_fed_text_shows(page: LogsPageView, text: Seq<char>)
    ensures
        shown_effects(screen(page), fed_text(page, text).1) == screen(fed_text(page, text).0),
    decreases text.len(),
{
    let i = first_char(text, '\n');
    if 0 <= i < text.len() {
        let line = parsed_line(without_line_end(text.take(i + 1)));
        let (next, effects) = pushed(page, line);
        lemma_pushed_shows(page, line);
        lemma_fed_text_shows(next, text.skip(i + 1));
        lemma_shown_effects_add(screen(page), effects, fed_text(next, text.skip(i + 1)).1);
    } else {
        assert(screen(fed_text(page, text).0) =~= screen(page));
    }
}

proof fn lemma_closed_with_shows(page: LogsPageView, message: Seq<char>)
    ensures
        shown_effects(screen(page), closed_with(page, message).1) == screen(
            closed_with(page, message).0,
        ),
{
    let (next, effects) = flushed(page);
    if page.pending.len() > 0 {
        let clean = LogsPageView { pending: Seq::empty(), ..page };
        assert(screen(clean) =~= screen(page));
        lemma_pushed_shows(clean, parsed_line(page.pending));
    }
    lemma_pushed_shows(next, own_line(message));
    lemma_shown_effects_add(screen(page), effects, pushed(next, own_line(message)).1);
}

proof fn lemma_rendered_lines_show(timestamps: bool, lines: Seq<LogLineView>)
    ensures
        shown_effects(Seq::empty(), rendered_lines(timestamps, lines)) == Seq::new(
            lines.len(),
            |i: int| screen_line(timestamps, lines[i]),
        ),
    decreases lines.len(),
{
    let all = rendered_lines(timestamps, lines);
    let target = Seq::new(lines.len(), |i: int| screen_line(timestamps, lines[i]));
    if lines.len() == 0 {
        assert(target =~= Seq::empty());
    } else {
        let fewer = lines.drop_last();
        lemma_rendered_lines_show(timestamps, fewer);
        assert(all.drop_last() =~= rendered_lines(timestamps, fewer));
        assert(Seq::new(fewer.len(), |i: int| screen_line(timestamps, fewer[i])).push(
            screen_line(timestamps, lines.last()),
        ) =~= target);
    }
}

/// What is on screen is always what the lines of the page look like.
pub proof fn screen_follows_the_lines(page: LogsPageView, input: LogsInput, cmd: LogsCmd)
    ensures
        shown_effects(screen(page), logs_updated(page, input).1) == screen(
            logs_updated(page, input).0,
        ),
        shown_effects(screen(page), logs_received(page, cmd).1) == screen(
            logs_received(page, cmd).0,
        ),
{
    let (next, effects) = logs_updated(page, input);
    match input {
        LogsInput::SetTimestamps(timestamps) => {
            let clear = seq![LogsEffectView::Clear];
            lemma_shown_effects_add(screen(page), clear, rendered_lines(timestamps, page.lines));
            assert(clear.drop_last() =~= Seq::<LogsEffectView>::empty());
            assert(shown_effects(screen(page), clear) == Seq::<(Seq<char>, Seq<char>)>::empty());
            lemma_rendered_lines_show(timestamps, page.lines);
            assert(screen(next) =~= Seq::new(
                page.lines.len(),
                |i: int| screen_line(timestamps, page.lines[i]),
            ));
        },
        LogsInput::EnsureStreaming => {
            if !page.streaming {
                let clear = seq![LogsEffectView::Clear];
                assert(effects.drop_last() =~= clear);
                assert(clear.drop_last() =~= Seq::<LogsEffectView>::empty());
                assert(shown_effects(screen(page), clear) == Seq::<
                    (Seq<char>, Seq<char>),
                >::empty());
                assert(screen(next) =~= Seq::empty());
            }
        },
        LogsInput::ContentGrew => {
            if page.follow {
                assert(effects.drop_last() =~= Seq::<LogsEffectView>::empty());
                assert(shown_effects(screen(page), effects.drop_last()) == screen(page));
            }
        },
        _ => {
            assert(screen(next) =~= screen(page));
        },
    }
    match cmd {
        LogsCmd::Chunk(text) => {
            let clean = LogsPageView { pending: Seq::empty(), ..page };
            assert(screen(clean) =~= screen(page));
            lemma_fed_text_shows(clean, page.pending + text@);
        },
        LogsCmd::Failed(reason) => {
            lemma_closed_with_shows(page, "— stream error: "@ + reason@ + " —"@);
        },
        LogsCmd::Ended => {
            lemma_closed_with_shows(page, "— end of logs —"@);
            assert(screen(logs_received(page, cmd).0) =~= screen(
                closed_with(page, "— end of logs —"@).0,
            ));
        },
    }
}

/// Showing or hiding the timestamps changes nothing but how the lines look.
pub proof fn timestamps_are_presentation(page: LogsPageView, show: bool)
    ensures
        logs_updated(page, LogsInput::SetTimestamps(show)).0 == (LogsPageView {
            timestamps: show,
            ..page
        }),
        logs_updated(
            logs_updated(page, LogsInput::SetTimestamps(show)).0,
            LogsInput::SetTimestamps(page.timestamps),
        ).0 == page,
{
}

// ---------------------------------------------------------------------------
// What each part of the logs is for.
// ---------------------------------------------------------------------------
/// Whether a digit stands at `i`.
pub open spec fn digit_at(s: Seq<char>, i: int) -> bool {
    '0' <= s[i] <= '9'
}

/// Whether a text begins like `2026-07-17T16:12:55`.
pub open spec fn begins_with_date_and_time(s: Seq<char>) -> bool {
    &&& s.len() >= 19
    &&& digit_at(s, 0) && digit_at(s, 1) && digit_at(s, 2) && digit_at(s, 3) && s[4] == '-'
    &&& digit_at(s, 5) && digit_at(s, 6) && s[7] == '-' && digit_at(s, 8) && digit_at(s, 9)
    &&& s[10] == 'T'
    &&& digit_at(s, 11) && digit_at(s, 12) && s[13] == ':'
    &&& digit_at(s, 14) && digit_at(s, 15) && s[16] == ':'
    &&& digit_at(s, 17) && digit_at(s, 18)
}

/// A time is read off a stamp exactly if it begins with a date and a time; it is the eight
/// characters behind the `T`, every hour, minute and second alike.
pub proof fn time_is_read_off_every_stamp(stamp: Seq<char>)
    ensures
        time_of_day(stamp) is Some <==> begins_with_date_and_time(stamp),
        time_of_day(stamp) is Some ==> time_of_day(stamp) == Some(stamp.subrange(11, 19)),
{
    reveal_strlit("0000-00-00");
    reveal_strlit("00:00:00");
    let date = stamp.take(10);
    let time = stamp.subrange(11, 19);
    if stamp.len() >= 19 {
        assert forall|i: int| 0 <= i < 10 implies #[trigger] date[i] == stamp[i] by {}
        assert forall|i: int| 0 <= i < 8 implies #[trigger] time[i] == stamp[11 + i] by {}
        if time_of_day(stamp) is Some {
            assert(is_digit(date[0]) && is_digit(date[1]) && is_digit(date[2]) && is_digit(date[3]));
            assert(date[4] == '-' && is_digit(date[5]) && is_digit(date[6]) && date[7] == '-');
            assert(is_digit(date[8]) && is_digit(date[9]));
            assert(is_digit(time[0]) && is_digit(time[1]) && time[2] == ':');
            assert(is_digit(time[3]) && is_digit(time[4]) && time[5] == ':');
            assert(is_digit(time[6]) && is_digit(time[7]));
        }
        if begins_with_date_and_time(stamp) {
            assert(has_shape(date, "0000-00-00"@));
            assert(has_shape(time, "00:00:00"@));
        }
    }
}

/// What stands in front of the first space of a line, if it is a stamp, gives the time, and
/// the rest is the message; otherwise, and without a space, all of it is the message.
pub proof fn line_is_stamp_and_message(stamp: Seq<char>, message: Seq<char>)
    requires
        !stamp.contains(' '),
    ensures
        begins_with_date_and_time(stamp) ==> parsed_line(stamp + seq![' '] + message)
            == (LogLineView { time: stamp.subrange(11, 19), message }),
        !begins_with_date_and_time(stamp) ==> parsed_line(stamp + seq![' '] + message)
            == (LogLineView { time: Seq::empty(), message: stamp + seq![' '] + message }),
        parsed_line(stamp) == (LogLineView { time: Seq::empty(), message: stamp }),
{
    time_is_read_off_every_stamp(stamp);
    cut_takes_one_character_out(stamp, ' ', message);
}

/// Where timestamps are shown, what stands in front of a line is its whole time and two
/// spaces, for every time; where they are hidden, and for a line without a time, nothing
/// does. The message stands behind it as it is.
pub proof fn shown_time_stands_in_front(line: LogLineView)
    ensures
        line.time.len() > 0 ==> rendered(true, line) == (LogsEffectView::Append {
            stamp: line.time + "  "@,
            text: line.message,
        }),
        line.time.len() == 0 ==> rendered(true, line) == (LogsEffectView::Append {
            stamp: Seq::empty(),
            text: line.message,
        }),
        rendered(false, line) == (LogsEffectView::Append {
            stamp: Seq::empty(),
            text: line.message,
        }),
{
}

/// A logged line with a stamp, whatever its time, goes on screen with that time in front
/// where timestamps are shown, and without it where they are not.
pub proof fn logged_line_shows_its_time(
    page: LogsPageView,
    chunk: String,
    stamp: Seq<char>,
    message: Seq<char>,
)
    requires
        page.pending.len() == 0,
        !stamp.contains(' ') && !stamp.contains('\n'),
        !message.contains('\n'),
        message.len() > 0 && message.last() != '\r',
        begins_with_date_and_time(stamp),
        chunk@ == (stamp + seq![' '] + message).push('\n'),
    ensures
        ({
            let (next, effects) = logs_received(page, LogsCmd::Chunk(chunk));
            let time = stamp.subrange(11, 19);
            &&& effects.len() > 0
            &&& effects[0] == (LogsEffectView::Append {
                stamp: if page.timestamps {
                    time + "  "@
                } else {
                    Seq::empty()
                },
                text: message,
            })
            &&& next.lines.len() > 0
            &&& next.lines.last() == (LogLineView { time, message })
            &&& next.pending.len() == 0
        }),
{
    let raw = stamp + seq![' '] + message;
    if raw.contains('\n') {
        let k = choose|k: int| 0 <= k < raw.len() && raw[k] == '\n';
        if k < stamp.len() {
            assert(stamp[k] == '\n' && stamp.contains(stamp[k]));
        } else if k > stamp.len() {
            assert(message[k - stamp.len() - 1] == '\n');
            assert(message.contains(message[k - stamp.len() - 1]));
        }
    }
    assert(raw.last() == message.last());
    assert(message.contains(message.last()));
    only_the_line_end_goes(raw, Seq::empty());
    assert(raw + Seq::<char>::empty() =~= raw);
    whole_line_becomes_one_line(page, raw);
    line_is_stamp_and_message(stamp, message);
    let line = LogLineView { time: stamp.subrange(11, 19), message };
    let next = pushed(page, line).0;
    assert(next.lines.last() == line);
}

/// Both the end of the stream and its failure make a line of what was pending and put a
/// line of the page's own behind it, which says what happened. Only the end frees the
/// page for another stream.
pub proof fn end_and_failure_are_told(page: LogsPageView, reason: String)
    ensures
        ({
            let (next, effects) = logs_received(page, LogsCmd::Ended);
            &&& !next.streaming
            &&& ends_with_own_line(page, next, effects, "— end of logs —"@)
        }),
        ({
            let (next, effects) = logs_received(page, LogsCmd::Failed(reason));
            &&& next.streaming == page.streaming
            &&& ends_with_own_line(
                page,
                next,
                effects,
                "— stream error: "@ + reason@ + " —"@,
            )
        }),
{
    lemma_closed_with(page, "— end of logs —"@);
    lemma_closed_with(page, "— stream error: "@ + reason@ + " —"@);
}

/// Whether `next` is `page` with what was pending made a line, and a line of its own with
/// this message, without a time, behind it, and both were put on screen.
pub open spec fn ends_with_own_line(
    page: LogsPageView,
    next: LogsPageView,
    effects: Seq<LogsEffectView>,
    message: Seq<char>,
) -> bool {
    &&& next.pending.len() == 0
    &&& next.lines.len() > 0
    &&& next.lines.last() == (LogLineView { time: Seq::empty(), message })
    &&& effects.contains(LogsEffectView::Append { stamp: Seq::empty(), text: message })
    &&& page.pending.len() > 0 ==> {
        &&& next.lines.len() > 1
        &&& next.lines[next.lines.len() - 2] == parsed_line(page.pending)
    }
    &&& next.wrap == page.wrap && next.timestamps == page.timestamps && next.follow == page.follow
}

proof fn lemma_closed_with(page: LogsPageView, message: Seq<char>)
    ensures
        ends_with_own_line(
            page,
            closed_with(page, message).0,
            closed_with(page, message).1,
            message,
        ),
        closed_with(page, message).0.streaming == page.streaming,
{
    let (next, effects) = flushed(page);
    let own = own_line(message);
    let (last, more) = pushed(next, own);
    let all = effects + more;
    assert(all[effects.len() as int] == more[0]);
    assert(more[0] == rendered(page.timestamps, own));
    assert(last.lines.last() == own);
    if page.pending.len() > 0 {
        let line = parsed_line(page.pending);
        assert(next.lines.last() == line);
        assert(last.lines[last.lines.len() - 2] == line);
    }
}

/// Each thing the user does changes its own part of the page. Only a page that follows is
/// scrolled; only a page without a stream drops its lines and opens one.
pub proof fn inputs_touch_only_their_own(page: LogsPageView, on: bool)
    ensures
        logs_updated(page, LogsInput::SetWrap(on)) == (
            LogsPageView { wrap: on, ..page },
            Seq::<LogsEffectView>::empty(),
        ),
        logs_updated(page, LogsInput::ScrolledManually { at_bottom: on }) == (
            LogsPageView { follow: on, ..page },
            Seq::<LogsEffectView>::empty(),
        ),
        logs_updated(page, LogsInput::ContentGrew).0 == page,
        page.follow ==> logs_updated(page, LogsInput::ContentGrew).1 == seq![
            LogsEffectView::ScrollToEnd,
        ],
        !page.follow ==> logs_updated(page, LogsInput::ContentGrew).1.len() == 0,
        page.streaming ==> logs_updated(page, LogsInput::EnsureStreaming) == (
            page,
            Seq::<LogsEffectView>::empty(),
        ),
        !page.streaming ==> {
            let (next, effects) = logs_updated(page, LogsInput::EnsureStreaming);
            &&& next.streaming && next.lines.len() == 0 && next.pending.len() == 0
            &&& next.wrap == page.wrap && next.timestamps == page.timestamps
            &&& next.follow == page.follow
            &&& effects == seq![LogsEffectView::Clear, LogsEffectView::OpenStream]
        },
{
}

/// Showing or hiding the timestamps clears the screen and puts every line on it again, in
/// order, with its time in front where timestamps are now shown and it has one.
pub proof fn toggled_timestamps_show_on_every_line(page: LogsPageView, show: bool, i: int)
    requires
        0 <= i < page.lines.len(),
    ensures
        ({
            let effects = logs_updated(page, LogsInput::SetTimestamps(show)).1;
            let line = page.lines[i];
            &&& effects.len() == page.lines.len() + 1
            &&& effects[0] == LogsEffectView::Clear
            &&& effects[i + 1] == (LogsEffectView::Append {
                stamp: if show && line.time.len() > 0 {
                    line.time + "  "@
                } else {
                    Seq::empty()
                },
                text: line.message,
            })
        }),
{
}

/// Five thousand lines are kept, and no more: up to there a new line makes one more, and
/// from there on the oldest goes, on screen too.
pub proof fn five_thousand_lines_are_kept(page: LogsPageView, line: LogLineView)
    requires
        page.lines.len() <= 5000,
    ensures
        ({
            let (next, effects) = pushed(page, line);
            &&& page.lines.len() < 5000 ==> next.lines == page.lines.push(line) && effects.len() == 1
            &&& page.lines.len() == 5000 ==> {
                &&& next.lines == page.lines.drop_first().push(line)
                &&& effects.len() == 2
                &&& effects[1] == LogsEffectView::DropOldest
            }
            &&& effects[0] == rendered(page.timestamps, line)
        }),
{
    new_line_displaces_only_the_oldest(page, line);
}

/// What was pending becomes a line, in full, when it is flushed; nothing pending makes no
/// line.
pub proof fn pending_text_becomes_a_line(page: LogsPageView)
    ensures
        page.pending.len() == 0 ==> flushed(page) == (page, Seq::<LogsEffectView>::empty()),
        page.pending.len() > 0 ==> flushed(page) == pushed(
            LogsPageView { pending: Seq::empty(), ..page },
            parsed_line(page.pending),
        ),
{
}

} // verus!
