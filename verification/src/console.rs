//! User interface for a unix terminal.
//!
//! Renders the state of the server and the latest messages in a consistent way.

use crate::text::{count_lines, line_count, split, split_text, texts};
use crate::time::{now, Duration, Timestamp, MAX_NANOS};
use std::collections::VecDeque;
use vstd::prelude::*;

verus! {

/// How many messages are kept.
pub const HISTORY_LEN: usize = 1024;

/// A change of what is on display.
#[derive(Debug, PartialEq, Eq)]
pub enum ConsoleUpdate {
    /// The state of the server has changed.
    State(String),
    /// There is another message.
    Log(String),
}

/// What a [`ConsoleUpdate`] says.
pub enum ConsoleUpdateView {
    State(Seq<char>),
    Log(Seq<char>),
}

impl View for ConsoleUpdate {
    type V = ConsoleUpdateView;

    open spec fn view(&self) -> ConsoleUpdateView {
        match self {
            ConsoleUpdate::State(state) => ConsoleUpdateView::State(state@),
            ConsoleUpdate::Log(line) => ConsoleUpdateView::Log(line@),
        }
    }
}

/// The latest messages, and when each came.
#[derive(Debug)]
pub struct Console {
    pub history_len: usize,
    pub event_log: VecDeque<(Timestamp, String)>,
}

/// What is kept of `log`, the newest message first, when another one comes.
pub open spec fn logged(
    log: Seq<(Timestamp, Seq<char>)>,
    history_len: int,
    now: Timestamp,
    description: Seq<char>,
) -> Seq<(Timestamp, Seq<char>)> {
    let kept = if log.len() < history_len {
        log
    } else {
        log.take(history_len - 1)
    };
    seq![(now, description)] + kept
}

/// The lines of a terminal of this height that are left for messages, below the server's state of
/// so many lines.
pub open spec fn lines_for_log(height: int, state_lines: int) -> int {
    if height > state_lines {
        height - state_lines - 1
    } else if height >= 3 {
        // The notice takes two lines in a narrow terminal
        height - 3
    } else {
        0
    }
}

/// A message, with the time since the start if it came after it.
pub open spec fn log_line(start_time: Timestamp, entry: (Timestamp, Seq<char>)) -> Seq<char> {
    let time = match entry.0.spec_since(start_time) {
        Some(span) => "\x1B[90m"@ + span.text(9, 3) + ":\x1B[0m "@,
        None => Seq::empty(),
    };
    time + entry.1 + "\n"@
}

/// The newest `n` messages, the oldest of them first.
pub open spec fn log_lines(
    log: Seq<(Timestamp, Seq<char>)>,
    start_time: Timestamp,
    n: nat,
) -> Seq<char>
    decreases n,
{
    if n == 0 {
        Seq::empty()
    } else {
        log_line(start_time, log[n - 1]) + log_lines(log, start_time, (n - 1) as nat)
    }
}

/// What is shown where the terminal has no room for the server's state.
pub open spec fn notice() -> Seq<char> {
    "Terminal height is too low! Can't show server state.\n"@
}

impl View for Console {
    type V = Seq<(Timestamp, Seq<char>)>;

    open spec fn view(&self) -> Seq<(Timestamp, Seq<char>)> {
        self.event_log@.map_values(|entry: (Timestamp, String)| (entry.0, entry.1@))
    }
}

impl Console {
    /// There is room for a message, and each came at a time that a clock can show.
    pub open spec fn wf(self) -> bool {
        &&& self.history_len > 0
        &&& self@.len() <= self.history_len
        &&& forall|i: int| 0 <= i < self@.len() ==> (#[trigger] self@[i]).0.wf()
    }

    /// Whether the time from `start_time` to each message is one that can be shown.
    pub open spec fn is_shown_from(self, start_time: Timestamp) -> bool {
        forall|i: int|
            0 <= i < self@.len() ==> (#[trigger] self@[i]).0.nanos <= start_time.nanos + MAX_NANOS
    }

    pub fn new(history_len: usize) -> (console: Self)
        ensures
            console.history_len == history_len,
            console@ == Seq::<(Timestamp, Seq<char>)>::empty(),
            history_len > 0 ==> console.wf(),
    {
        let console = Console { history_len, event_log: VecDeque::new() };
        assert(console@ =~= Seq::empty());
        console
    }

    /// Adds a message that came at `now`. If there are too many, the oldest is dropped.
    pub fn push_event_at(&mut self, description: String, now: Timestamp)
        requires
            old(self).wf(),
            now.wf(),
        ensures
            final(self)@ == logged(
                old(self)@,
                old(self).history_len as int,
                now,
                description@,
            ),
            final(self).history_len == old(self).history_len,
            final(self).wf(),
    {
        let ghost before = self@;
        self.event_log.truncate(self.history_len - 1);
        self.event_log.push_front((now, description));
        assert(self@ =~= logged(before, self.history_len as int, now, description@));
        assert forall|i: int| 0 <= i < self@.len() implies (#[trigger] self@[i]).0.wf() by {
            if i > 0 {
                assert(self@[i] == before[i - 1]);
            }
        }
    }

    /// Adds a message. If there are too many, the oldest is dropped.
    pub fn push_event(&mut self, description: String)
        requires
            old(self).wf(),
        ensures
            exists|now: Timestamp|
                now.wf() && final(self)@ == #[trigger] logged(
                    old(self)@,
                    old(self).history_len as int,
                    now,
                    description@,
                ),
            final(self).history_len == old(self).history_len,
            final(self).wf(),
    {
        let now = now();
        self.push_event_at(description, now);
    }

    /// What the terminal is to show: the state of the server, if its height is known and
    /// sufficient, and as many messages as there is room for.
    pub open spec fn picture(
        self,
        height: Option<usize>,
        start_time: Timestamp,
        state: Seq<char>,
    ) -> Seq<char> {
        let (head, room) = match height {
            Some(h) => (
                if h > line_count(state) {
                    state
                } else {
                    notice()
                },
                lines_for_log(h as int, line_count(state) as int) as nat,
            ),
            None => (Seq::empty(), self@.len()),
        };
        let shown = if room < self@.len() {
            room
        } else {
            self@.len()
        };
        "\x1B[2J\x1B[H"@ + head + log_lines(self@, start_time, shown)
    }

    /// What to write to a terminal of the given height.
    pub fn render(&self, height: Option<usize>, start_time: Timestamp, state: &str) -> (out: String)
        requires
            self.wf(),
            self.is_shown_from(start_time),
        ensures
            out@ == self.picture(height, start_time, state@),
    {
        let mut out = String::new();
        // Clear terminal and move cursor to top left
        out.append("\x1B[2J\x1B[H");
        let room: usize = match height {
            Some(lines) => {
                let state_lines: usize = count_lines(state);
                if lines > state_lines {
                    out.append(state);
                    lines - state_lines - 1
                } else {
                    out.append("Terminal height is too low! Can't show server state.\n");
                    if lines >= 3 {
                        lines - 3
                    } else {
                        0
                    }
                }
            },
            None => usize::MAX,
        };
        // Print log (up to the remaining terminal lines, no more)
        let count: usize = self.event_log.len();
        let shown: usize = if room < count {
            room
        } else {
            count
        };
        let ghost head = out@;
        let mut n: usize = shown;
        while n > 0
            invariant
                n <= shown <= self@.len(),
                self@.len() == self.event_log@.len(),
                self.wf(),
                self.is_shown_from(start_time),
                out@ + log_lines(self@, start_time, n as nat) == head + log_lines(
                    self@,
                    start_time,
                    shown as nat,
                ),
            decreases n,
        {
            let ghost before = out@;
            let entry = &self.event_log[n - 1];
            assert(self@[n - 1] == (entry.0, entry.1@));
            match entry.0.duration_since(start_time) {
                Some(span) => {
                    out.append("\x1B[90m");
                    span.push_text(&mut out, 9, 3);
                    out.append(":\x1B[0m ");
                },
                None => {},
            }
            out.append(entry.1.as_str());
            out.append("\n");
            assert(out@ =~= before + log_line(start_time, self@[n - 1]));
            assert(out@ + log_lines(self@, start_time, (n - 1) as nat) =~= before + log_lines(
                self@,
                start_time,
                n as nat,
            ));
            n = n - 1;
        }
        assert(out@ + log_lines(self@, start_time, 0) =~= out@);
        assert(out@ =~= self.picture(height, start_time, state@));
        out
    }
}

/// A console, together with the state of the server that it shows.
#[derive(Debug)]
pub struct Screen {
    pub console: Console,
    pub state: String,
}

impl Screen {
    pub fn new() -> (screen: Self)
        ensures
            screen.console@ == Seq::<(Timestamp, Seq<char>)>::empty(),
            screen.console.history_len == HISTORY_LEN,
            screen.state@ == Seq::<char>::empty(),
            screen.console.wf(),
    {
        Screen { console: Console::new(HISTORY_LEN), state: String::new() }
    }

    /// Takes over a change that came at `now`.
    pub fn update(&mut self, update: ConsoleUpdate, now: Timestamp)
        requires
            old(self).console.wf(),
            now.wf(),
        ensures
            match update@ {
                ConsoleUpdateView::State(state) => final(self).state@ == state
                    && final(self).console == old(self).console,
                ConsoleUpdateView::Log(line) => final(self).state == old(self).state
                    && final(self).console@ == logged(
                    old(self).console@,
                    old(self).console.history_len as int,
                    now,
                    line,
                ),
            },
            final(self).console.history_len == old(self).console.history_len,
            final(self).console.wf(),
    {
        match update {
            ConsoleUpdate::State(state) => {
                self.state = state;
            },
            ConsoleUpdate::Log(line) => {
                self.console.push_event_at(line, now);
            },
        }
    }
}

/// What becomes of a message.
#[derive(Debug, PartialEq, Eq)]
pub enum LogOutput {
    /// It goes to the console, line by line.
    Updates(Vec<String>),
    /// It is printed as it is.
    Plain(String),
}

/// How much a message matters.
#[derive(Debug, Clone, Copy, PartialEq, Eq, Structural)]
pub enum Level {
    /// Shown only on request.
    Debug,
    Info,
    Warning,
    Error,
}

impl Level {
    /// The style in which messages of this level are shown.
    pub fn style(self) -> (style: &'static str)
        ensures
            style@ == (match self {
                Level::Debug => "[90m"@,
                Level::Info => "[0m"@,
                Level::Warning => "[33m"@,
                Level::Error => "[31m"@,
            }),
    {
        match self {
            Level::Debug => "[90m",
            Level::Info => "[0m",
            Level::Warning => "[33m",
            Level::Error => "[31m",
        }
    }

    /// Whether messages of this level are shown. Those for finding faults are, if `verbose`.
    pub fn is_shown(self, verbose: bool) -> (shown: bool)
        ensures
            shown == (verbose || self != Level::Debug),
    {
        verbose || self != Level::Debug
    }
}

/// `line` in the given style.
pub open spec fn styled(style: Seq<char>, line: Seq<char>) -> Seq<char> {
    "\x1B"@ + style + line + "\x1B[0m"@
}

/// Where a message goes: without a terminal there are no control characters in it.
pub fn log_string(terminal: bool, event: &str, style: &str) -> (output: LogOutput)
    ensures
        match output {
            LogOutput::Updates(lines) => terminal && texts(lines@) == split(
                event@,
                '\n',
            ).map_values(|line: Seq<char>| styled(style@, line)),
            LogOutput::Plain(text) => !terminal && text@ == event@,
        },
{
    if !terminal {
        return LogOutput::Plain(event.to_owned());
    }
    let lines = split_text(event, '\n');
    let ghost plain = split(event@, '\n');
    let ghost wanted = plain.map_values(|line: Seq<char>| styled(style@, line));
    let mut out: Vec<String> = Vec::new();
    let mut i: usize = 0;
    assert(texts(out@) =~= wanted.take(0));
    while i < lines.len()
        invariant
            i <= lines@.len(),
            texts(lines@) == plain,
            wanted == plain.map_values(|line: Seq<char>| styled(style@, line)),
            texts(out@) == wanted.take(i as int),
        decreases lines@.len() - i,
    {
        let ghost before = texts(out@);
        assert(texts(lines@)[i as int] == lines@[i as int]@);
        let mut line = String::new();
        line.append("\x1B");
        line.append(style);
        line.append(lines[i].as_str());
        line.append("\x1B[0m");
        assert(line@ =~= styled(style@, plain[i as int]));
        out.push(line);
        assert(texts(out@) =~= before.push(line@));
        assert(wanted.take(i + 1) =~= wanted.take(i as int).push(wanted[i as int]));
        i = i + 1;
    }
    assert(plain.len() == lines@.len());
    assert(wanted.take(i as int) =~= wanted);
    LogOutput::Updates(out)
}

/// The change that the console is told of: there is none without a terminal.
pub fn update_state(terminal: bool, state: String) -> (update: Option<ConsoleUpdate>)
    ensures
        match update {
            Some(update) => terminal && update@ == ConsoleUpdateView::State(state@),
            None => !terminal,
        },
{
    if terminal {
        Some(ConsoleUpdate::State(state))
    } else {
        None
    }
}

/// The messages on an error and on what caused it, in order, each with its style.
pub fn log_error(chain: &Vec<String>) -> (messages: Vec<(String, &'static str)>)
    ensures
        messages@.len() == chain@.len(),
        forall|i: int|
            0 <= i < chain@.len() ==> {
                &&& (#[trigger] messages@[i]).0@ == (if i == 0 {
                    chain@[i]@
                } else {
                    "Caused by: "@ + chain@[i]@
                })
                &&& messages@[i].1@ == (if i == 0 {
                    "[31m"@
                } else {
                    "[35m"@
                })
            },
{
    let mut messages: Vec<(String, &'static str)> = Vec::new();
    let mut i: usize = 0;
    while i < chain.len()
        invariant
            i <= chain@.len(),
            messages@.len() == i,
            forall|j: int|
                0 <= j < i ==> {
                    &&& (#[trigger] messages@[j]).0@ == (if j == 0 {
                        chain@[j]@
                    } else {
                        "Caused by: "@ + chain@[j]@
                    })
                    &&& messages@[j].1@ == (if j == 0 {
                        "[31m"@
                    } else {
                        "[35m"@
                    })
                },
        decreases chain@.len() - i,
    {
        if i == 0 {
            messages.push((chain[i].clone(), "[31m"));
        } else {
            let mut text = String::new();
            text.append("Caused by: ");
            text.append(chain[i].as_str());
            assert(text@ =~= "Caused by: "@ + chain@[i as int]@);
            messages.push((text, "[35m"));
        }
        i = i + 1;
    }
    messages
}

/// No more messages are kept than there is room for, the newest is always among them, and those
/// that are kept stay in order.
pub proof fn law_the_newest_messages_are_kept(
    log: Seq<(Timestamp, Seq<char>)>,
    history_len: int,
    now: Timestamp,
    description: Seq<char>,
    i: int,
)
    requires
        0 < history_len,
        log.len() <= history_len,
    ensures
        ({
            let after = logged(log, history_len, now, description);
            &&& 0 < after.len() <= history_len
            &&& after[0] == (now, description)
            &&& 0 < i < after.len() ==> after[i] == log[i - 1]
            &&& after.len() == (if log.len() < history_len {
                log.len() + 1
            } else {
                history_len as nat
            })
        }),
{
}

/// What is shown fits the terminal: below the state there is room for messages and one line more,
/// and below the notice, which may take two lines, as well.
pub proof fn law_the_picture_fits_the_terminal(height: int, state_lines: int)
    requires
        0 <= height,
        0 <= state_lines,
    ensures
        height > state_lines ==> state_lines + lines_for_log(height, state_lines) + 1 == height,
        3 <= height <= state_lines ==> 3 + lines_for_log(height, state_lines) == height,
        height <= state_lines && height < 3 ==> lines_for_log(height, state_lines) == 0,
{
}

/// The messages are shown in the order in which they came, each in a line of its own: the older
/// ones first, then the `n` newest.
pub proof fn law_messages_are_shown_in_order(
    log: Seq<(Timestamp, Seq<char>)>,
    start_time: Timestamp,
    n: nat,
    older: nat,
)
    requires
        n + older <= log.len(),
    ensures
        log_lines(log, start_time, 0).len() == 0,
        log.len() > 0 ==> log_lines(log, start_time, 1) == log_line(start_time, log[0]),
        log_lines(log, start_time, n + older) == log_lines(log.skip(n as int), start_time, older)
            + log_lines(log, start_time, n),
    decreases older,
{
    reveal_with_fuel(log_lines, 2);
    if log.len() > 0 {
        assert(log_lines(log, start_time, 1) =~= log_line(start_time, log[0]));
    }
    if older > 0 {
        law_messages_are_shown_in_order(log, start_time, n, (older - 1) as nat);
        assert(log_lines(log, start_time, n + older) =~= log_lines(
            log.skip(n as int),
            start_time,
            older,
        ) + log_lines(log, start_time, n));
    } else {
        assert(log_lines(log.skip(n as int), start_time, 0) + log_lines(log, start_time, n)
            =~= log_lines(log, start_time, n));
    }
}

/// A message that came after the start is shown with the time since then, and ends its line.
pub proof fn law_how_a_message_is_shown(
    start_time: Timestamp,
    span: Duration,
    text: Seq<char>,
)
    requires
        start_time.wf(),
        span.wf(),
    ensures
        log_line(start_time, (start_time.spec_after(span), text)) == "\x1B[90m"@ + span.text(9, 3)
            + ":\x1B[0m "@ + text + "\n"@,
        span.nanos > 0 ==> log_line(start_time.spec_after(span), (start_time, text)) == text
            + "\n"@,
{
    assert(Seq::<char>::empty() + text + "\n"@ =~= text + "\n"@);
}

/// What a terminal shows: where there is a line to spare below the state, the state, and else the
/// notice; and below that the newest messages, as many as there is room for. Where the height is
/// not known, all messages alone.
pub proof fn law_what_the_terminal_shows(
    console: Console,
    height: usize,
    start_time: Timestamp,
    state: Seq<char>,
)
    ensures
        ({
            let n = console@.len();
            let lines = line_count(state);
            let newest = |room: int|
                log_lines(
                    console@,
                    start_time,
                    if room < n {
                        room as nat
                    } else {
                        n
                    },
                );
            let clear = "\x1B[2J\x1B[H"@;
            let notice = "Terminal height is too low! Can't show server state.\n"@;
            &&& height > lines ==> console.picture(Some(height), start_time, state) == clear + state
                + newest(height - lines - 1)
            &&& 3 <= height <= lines ==> console.picture(Some(height), start_time, state) == clear
                + notice + newest(height - 3)
            &&& height <= lines && height < 3 ==> console.picture(Some(height), start_time, state)
                == clear + notice
            &&& console.picture(None, start_time, state) == clear + log_lines(
                console@,
                start_time,
                n,
            )
        }),
{
    let clear = "\x1B[2J\x1B[H"@;
    let notice = "Terminal height is too low! Can't show server state.\n"@;
    let none = Seq::<char>::empty();
    assert(log_lines(console@, start_time, 0) =~= none);
    assert(clear + notice + none =~= clear + notice);
    assert(clear + none =~= clear);
}

} // verus!
