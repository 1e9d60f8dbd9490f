//! The spinner controller: a status line animated by a background worker.
//! This module holds the decisions — what each command, tick or interrupt
//! does to the worker's state and which terminal instructions it emits — as
//! pure, verified functions. The host process runs the loop: it owns the
//! thread, the command queue and the clock, performs each emitted action,
//! and feeds events back in.

use vstd::prelude::*;

use crate::text::append_str;
use crate::text::dec_str;
use crate::text::lemma_map_push;
use crate::text::str_chars;
use crate::text::u64_to_dec_string;

verus! {

/// A command sent from the foreground to the spinner worker.
#[derive(Debug)]
pub enum Command {
    Write(String),
    Pause,
    Resume,
    Stop,
}

/// The mathematical shape of a `Command`.
pub enum CommandView {
    Write(Seq<char>),
    Pause,
    Resume,
    Stop,
}

impl View for Command {
    type V = CommandView;

    open spec fn view(&self) -> CommandView {
        match self {
            Command::Write(s) => CommandView::Write(s@),
            Command::Pause => CommandView::Pause,
            Command::Resume => CommandView::Resume,
            Command::Stop => CommandView::Stop,
        }
    }
}

/// One terminal instruction the worker asks its host to perform.
#[derive(Debug)]
pub enum TermAction {
    Print(String),
    EnableRaw,
    DisableRaw,
    Flush,
    ExitInterrupt,
}

/// The mathematical shape of a `TermAction`.
pub enum TermActionView {
    Print(Seq<char>),
    EnableRaw,
    DisableRaw,
    Flush,
    ExitInterrupt,
}

impl View for TermAction {
    type V = TermActionView;

    open spec fn view(&self) -> TermActionView {
        match self {
            TermAction::Print(s) => TermActionView::Print(s@),
            TermAction::EnableRaw => TermActionView::EnableRaw,
            TermAction::DisableRaw => TermActionView::DisableRaw,
            TermAction::Flush => TermActionView::Flush,
            TermAction::ExitInterrupt => TermActionView::ExitInterrupt,
        }
    }
}

/// Clear the current line and return the cursor to column zero.
pub open spec fn clear_line_seq() -> Seq<char> {
    "\r\x1b[2K"@
}

pub open spec fn hide_cursor_seq() -> Seq<char> {
    "\x1b[?25l"@
}

pub open spec fn show_cursor_seq() -> Seq<char> {
    "\x1b[?25h"@
}

/// The full spinner line: glyph, status text, elapsed seconds and the
/// interrupt hint, drawn over the current line.
pub open spec fn spinner_line_spec(frame: Seq<char>, status: Seq<char>, seconds: nat) -> Seq<
    char,
> {
    clear_line_seq() + "\r\x1b[32m"@ + frame + "\x1b[0m  \x1b[1;32m"@ + status + "\x1b[0m "@
        + dec_str(seconds) + "s \u{b7} \x1b[2;37mCtrl+C to interrupt\x1b[0m"@
}

/// The glyph of an animation frame.
pub open spec fn frame_glyph(i: int) -> Seq<char> {
    if i == 0 {
        "\u{280b}"@
    } else if i == 1 {
        "\u{2819}"@
    } else if i == 2 {
        "\u{2839}"@
    } else if i == 3 {
        "\u{2838}"@
    } else if i == 4 {
        "\u{283c}"@
    } else if i == 5 {
        "\u{2834}"@
    } else if i == 6 {
        "\u{2826}"@
    } else if i == 7 {
        "\u{2827}"@
    } else if i == 8 {
        "\u{2807}"@
    } else {
        "\u{280f}"@
    }
}

/// The ten animation frames, in order.
pub fn spinner_frames() -> (r: Vec<&'static str>)
    ensures
        r@.len() == 10,
        forall|i: int| 0 <= i < 10 ==> #[trigger] r@[i]@ == frame_glyph(i),
{
    let mut v: Vec<&'static str> = Vec::new();
    v.push("\u{280b}");
    v.push("\u{2819}");
    v.push("\u{2839}");
    v.push("\u{2838}");
    v.push("\u{283c}");
    v.push("\u{2834}");
    v.push("\u{2826}");
    v.push("\u{2827}");
    v.push("\u{2807}");
    v.push("\u{280f}");
    v
}

/// One of the words a label is drawn from when none is given.
pub open spec fn word_view(i: int) -> Seq<char> {
    if i == 0 {
        "Thinking"@
    } else if i == 1 {
        "Processing"@
    } else if i == 2 {
        "Analyzing"@
    } else if i == 3 {
        "Forging"@
    } else if i == 4 {
        "Researching"@
    } else if i == 5 {
        "Synthesizing"@
    } else if i == 6 {
        "Reasoning"@
    } else {
        "Contemplating"@
    }
}

/// The words a spinner label is drawn from when none is given.
pub fn status_words() -> (r: Vec<&'static str>)
    ensures
        r@.len() == 8,
        forall|i: int| 0 <= i < 8 ==> #[trigger] r@[i]@ == word_view(i),
{
    let mut v: Vec<&'static str> = Vec::new();
    v.push("Thinking");
    v.push("Processing");
    v.push("Analyzing");
    v.push("Forging");
    v.push("Researching");
    v.push("Synthesizing");
    v.push("Reasoning");
    v.push("Contemplating");
    v
}

/// Relies on rand: `RngExt::random_range` on `0..n` returns a value of the
/// range and panics on an empty one. The draw comes from a process-wide
/// generator, so nothing more is promised of it.
#[verifier::external_body]
fn random_below(n: usize) -> (r: usize)
    requires
        n > 0,
    ensures
        r < n,
{
    rand::RngExt::random_range(&mut rand::rng(), 0..n)
}

/// Renders the spinner line: clears the current line and draws the glyph,
/// the status text, the elapsed seconds and the interrupt hint.
pub fn render_spinner_line(frame: &str, status: &str, seconds: u64) -> (r: String)
    ensures
        r@ == spinner_line_spec(frame@, status@, seconds as nat),
{
    let mut out: String = to_owned_str("\r\x1b[2K\r\x1b[32m");
    append_str(&mut out, frame);
    append_str(&mut out, "\x1b[0m  \x1b[1;32m");
    append_str(&mut out, status);
    append_str(&mut out, "\x1b[0m ");
    let d = u64_to_dec_string(seconds);
    append_str(&mut out, d.as_str());
    append_str(&mut out, "s \u{b7} \x1b[2;37mCtrl+C to interrupt\x1b[0m");
    proof {
        assert(clear_line_seq() + "\r\x1b[32m"@ =~= "\r\x1b[2K\r\x1b[32m"@) by {
            reveal_strlit("\r\x1b[2K");
            reveal_strlit("\r\x1b[32m");
            reveal_strlit("\r\x1b[2K\r\x1b[32m");
        }
        assert(out@ =~= spinner_line_spec(frame@, status@, seconds as nat));
    }
    out
}

/// What the worker knows between two events: the animation frame, whether
/// the animation is frozen, whether the loop should end, and the label.
/// The elapsed time is wall-clock and owned by the host, which hands the
/// current second count in with each event.
pub struct WorkerState {
    pub frame_index: usize,
    pub paused: bool,
    pub stopping: bool,
    pub status: String,
}

/// One event the worker reacts to.
#[derive(Debug)]
pub enum WorkerEvent {
    Got(Command),
    TimedOut,
    Disconnected,
}

/// The worker's first breath: hide the cursor and draw the line at frame
/// zero and zero seconds.
pub fn worker_init(status: String) -> (r: (WorkerState, Vec<TermAction>))
    ensures
        r.0.frame_index == 0,
        !r.0.paused,
        !r.0.stopping,
        r.0.status@ == status@,
        r.1@.map_values(|a: TermAction| a@) == seq![
            TermActionView::Print(hide_cursor_seq()),
            TermActionView::Print(spinner_line_spec(frame_glyph(0), status@, 0)),
        ],
{
    let frames = spinner_frames();
    let line = render_spinner_line(frames[0], status.as_str(), 0);
    let mut acts: Vec<TermAction> = Vec::new();
    acts.push(TermAction::Print(to_owned_str("\x1b[?25l")));
    acts.push(TermAction::Print(line));
    proof {
        assert(acts@.map_values(|a: TermAction| a@) =~= seq![
            TermActionView::Print(hide_cursor_seq()),
            TermActionView::Print(spinner_line_spec(frame_glyph(0), status@, 0)),
        ]);
    }
    (WorkerState { frame_index: 0, paused: false, stopping: false, status }, acts)
}

/// What one event does: a `Write` erases the spinner line, prints the
/// message on its own line and redraws the spinner (unless paused); `Pause`
/// erases the line, restores the cursor and leaves raw mode, freezing the
/// frame; `Resume` re-enters raw mode, hides the cursor and redraws at the
/// retained frame and the retained wall-clock elapsed time; `Stop` and a
/// closed queue end the loop; a timeout alone changes nothing.
pub fn worker_step(state: WorkerState, event: WorkerEvent, elapsed_secs: u64) -> (r: (
    WorkerState,
    Vec<TermAction>,
))
    requires
        state.frame_index < 10,
    ensures
        r.0.frame_index == state.frame_index,
        r.0.status@ == state.status@,
        match event {
            WorkerEvent::Got(cmd) => match cmd@ {
                CommandView::Write(line) => {
                    &&& r.0.paused == state.paused
                    &&& r.0.stopping == state.stopping
                    &&& r.1@.map_values(|a: TermAction| a@) == seq![
                        TermActionView::Print(clear_line_seq()),
                        TermActionView::Print(line + seq!['\n']),
                    ] + (if !state.paused {
                        seq![
                            TermActionView::Print(
                                spinner_line_spec(
                                    frame_glyph(state.frame_index as int),
                                    state.status@,
                                    elapsed_secs as nat,
                                ),
                            ),
                        ]
                    } else {
                        seq![TermActionView::Flush]
                    })
                },
                CommandView::Pause => {
                    &&& r.0.paused
                    &&& r.0.stopping == state.stopping
                    &&& r.1@.map_values(|a: TermAction| a@) == seq![
                        TermActionView::Print(clear_line_seq()),
                        TermActionView::Print(show_cursor_seq()),
                        TermActionView::Flush,
                        TermActionView::DisableRaw,
                    ]
                },
                CommandView::Resume => {
                    &&& !r.0.paused
                    &&& r.0.stopping == state.stopping
                    &&& r.1@.map_values(|a: TermAction| a@) == seq![
                        TermActionView::EnableRaw,
                        TermActionView::Print(hide_cursor_seq()),
                        TermActionView::Print(
                            spinner_line_spec(
                                frame_glyph(state.frame_index as int),
                                state.status@,
                                elapsed_secs as nat,
                            ),
                        ),
                    ]
                },
                CommandView::Stop => {
                    &&& r.0.paused == state.paused
                    &&& r.0.stopping
                    &&& r.1@.len() == 0
                },
            },
            WorkerEvent::TimedOut => {
                &&& r.0 == state
                &&& r.1@.len() == 0
            },
            WorkerEvent::Disconnected => {
                &&& r.0.paused == state.paused
                &&& r.0.stopping
                &&& r.1@.len() == 0
            },
        },
{
    let mut acts: Vec<TermAction> = Vec::new();
    match event {
        WorkerEvent::Got(cmd) => match cmd {
            Command::Write(line) => {
                acts.push(TermAction::Print(to_owned_str("\r\x1b[2K")));
                let mut msg = line;
                crate::text::push_char(&mut msg, '\n');
                acts.push(TermAction::Print(msg));
                if !state.paused {
                    let frames = spinner_frames();
                    let drawn = render_spinner_line(
                        frames[state.frame_index],
                        state.status.as_str(),
                        elapsed_secs,
                    );
                    acts.push(TermAction::Print(drawn));
                } else {
                    acts.push(TermAction::Flush);
                }
                proof {
                    lemma_map_push(acts@.drop_last().drop_last(), |a: TermAction| a@);
                    assert(acts@.map_values(|a: TermAction| a@) =~= seq![
                        TermActionView::Print(clear_line_seq()),
                        TermActionView::Print(
                            match cmd@ {
                                CommandView::Write(l) => l + seq!['\n'],
                                _ => Seq::<char>::empty(),
                            },
                        ),
                    ] + (if !state.paused {
                        seq![
                            TermActionView::Print(
                                spinner_line_spec(
                                    frame_glyph(state.frame_index as int),
                                    state.status@,
                                    elapsed_secs as nat,
                                ),
                            ),
                        ]
                    } else {
                        seq![TermActionView::Flush]
                    }));
                }
                (state, acts)
            },
            Command::Pause => {
                acts.push(TermAction::Print(to_owned_str("\r\x1b[2K")));
                acts.push(TermAction::Print(to_owned_str("\x1b[?25h")));
                acts.push(TermAction::Flush);
                acts.push(TermAction::DisableRaw);
                proof {
                    assert(acts@.map_values(|a: TermAction| a@) =~= seq![
                        TermActionView::Print(clear_line_seq()),
                        TermActionView::Print(show_cursor_seq()),
                        TermActionView::Flush,
                        TermActionView::DisableRaw,
                    ]);
                }
                (
                    WorkerState {
                        paused: true,
                        frame_index: state.frame_index,
                        stopping: state.stopping,
                        status: state.status,
                    },
                    acts,
                )
            },
            Command::Resume => {
                acts.push(TermAction::EnableRaw);
                acts.push(TermAction::Print(to_owned_str("\x1b[?25l")));
                let frames = spinner_frames();
                let drawn = render_spinner_line(
                    frames[state.frame_index],
                    state.status.as_str(),
                    elapsed_secs,
                );
                acts.push(TermAction::Print(drawn));
                proof {
                    assert(acts@.map_values(|a: TermAction| a@) =~= seq![
                        TermActionView::EnableRaw,
                        TermActionView::Print(hide_cursor_seq()),
                        TermActionView::Print(
                            spinner_line_spec(
                                frame_glyph(state.frame_index as int),
                                state.status@,
                                elapsed_secs as nat,
                            ),
                        ),
                    ]);
                }
                (
                    WorkerState {
                        paused: false,
                        frame_index: state.frame_index,
                        stopping: state.stopping,
                        status: state.status,
                    },
                    acts,
                )
            },
            Command::Stop => {
                (
                    WorkerState {
                        stopping: true,
                        frame_index: state.frame_index,
                        paused: state.paused,
                        status: state.status,
                    },
                    acts,
                )
            },
        },
        WorkerEvent::TimedOut => (state, acts),
        WorkerEvent::Disconnected => {
            (
                WorkerState {
                    stopping: true,
                    frame_index: state.frame_index,
                    paused: state.paused,
                    status: state.status,
                },
                acts,
            )
        },
    }
}

/// One animation tick: a running, unfrozen worker advances to the next of
/// the ten frames and redraws the line at the current elapsed time; a
/// paused or stopping worker does nothing.
pub fn worker_tick(state: WorkerState, elapsed_secs: u64) -> (r: (WorkerState, Vec<TermAction>))
    requires
        state.frame_index < 10,
    ensures
        r.0.status@ == state.status@,
        r.0.paused == state.paused,
        r.0.stopping == state.stopping,
        r.0.frame_index < 10,
        state.paused || state.stopping ==> r.0 == state && r.1@.len() == 0,
        !state.paused && !state.stopping ==> {
            &&& r.0.frame_index as int == (state.frame_index + 1) % 10
            &&& r.1@.map_values(|a: TermAction| a@) == seq![
                TermActionView::Print(
                    spinner_line_spec(
                        frame_glyph((state.frame_index + 1) % 10),
                        state.status@,
                        elapsed_secs as nat,
                    ),
                ),
            ]
        },
{
    if state.paused || state.stopping {
        (state, Vec::new())
    } else {
        let next = (state.frame_index + 1) % 10;
        let frames = spinner_frames();
        let drawn = render_spinner_line(frames[next], state.status.as_str(), elapsed_secs);
        let mut acts: Vec<TermAction> = Vec::new();
        acts.push(TermAction::Print(drawn));
        proof {
            assert(acts@.map_values(|a: TermAction| a@) =~= seq![
                TermActionView::Print(
                    spinner_line_spec(
                        frame_glyph((state.frame_index + 1) % 10),
                        state.status@,
                        elapsed_secs as nat,
                    ),
                ),
            ]);
        }
        (
            WorkerState {
                frame_index: next,
                paused: state.paused,
                stopping: state.stopping,
                status: state.status,
            },
            acts,
        )
    }
}

/// The worker's last words on any exit: clear the line, restore the cursor.
pub fn worker_cleanup() -> (r: Vec<TermAction>)
    ensures
        r@.map_values(|a: TermAction| a@) == seq![
            TermActionView::Print(clear_line_seq()),
            TermActionView::Print(show_cursor_seq()),
            TermActionView::Flush,
        ],
{
    let mut acts: Vec<TermAction> = Vec::new();
    acts.push(TermAction::Print(to_owned_str("\r\x1b[2K")));
    acts.push(TermAction::Print(to_owned_str("\x1b[?25h")));
    acts.push(TermAction::Flush);
    proof {
        assert(acts@.map_values(|a: TermAction| a@) =~= seq![
            TermActionView::Print(clear_line_seq()),
            TermActionView::Print(show_cursor_seq()),
            TermActionView::Flush,
        ]);
    }
    acts
}

/// The cancellation fast path, after the cleanup above: leave raw mode and
/// end the process with the conventional interrupt exit code.
pub fn worker_interrupt_exit() -> (r: Vec<TermAction>)
    ensures
        r@.map_values(|a: TermAction| a@) == seq![
            TermActionView::DisableRaw,
            TermActionView::ExitInterrupt,
        ],
{
    let mut acts: Vec<TermAction> = Vec::new();
    acts.push(TermAction::DisableRaw);
    acts.push(TermAction::ExitInterrupt);
    proof {
        assert(acts@.map_values(|a: TermAction| a@) =~= seq![
            TermActionView::DisableRaw,
            TermActionView::ExitInterrupt,
        ]);
    }
    acts
}

/// One instruction the foreground asks its host to perform on the spinner's
/// behalf.
#[derive(Debug)]
pub enum ManagerAction {
    SendCommand(Command),
    JoinWorker,
    DisableRaw,
    EnableRaw,
    PrintLine(String),
    PrintErrLine(String),
    PrintBlank,
    SpawnWorker(String),
}

/// The mathematical shape of a `ManagerAction`.
pub enum ManagerActionView {
    SendCommand(CommandView),
    JoinWorker,
    DisableRaw,
    EnableRaw,
    PrintLine(Seq<char>),
    PrintErrLine(Seq<char>),
    PrintBlank,
    SpawnWorker(Seq<char>),
}

impl View for ManagerAction {
    type V = ManagerActionView;

    open spec fn view(&self) -> ManagerActionView {
        match self {
            ManagerAction::SendCommand(c) => ManagerActionView::SendCommand(c@),
            ManagerAction::JoinWorker => ManagerActionView::JoinWorker,
            ManagerAction::DisableRaw => ManagerActionView::DisableRaw,
            ManagerAction::EnableRaw => ManagerActionView::EnableRaw,
            ManagerAction::PrintLine(s) => ManagerActionView::PrintLine(s@),
            ManagerAction::PrintErrLine(s) => ManagerActionView::PrintErrLine(s@),
            ManagerAction::PrintBlank => ManagerActionView::PrintBlank,
            ManagerAction::SpawnWorker(s) => ManagerActionView::SpawnWorker(s@),
        }
    }
}

/// The actions of a stop: signal and join the worker when one is running,
/// always leave raw mode, and print a trailing message when given one.
pub open spec fn stop_actions_spec(running: bool, msg: Option<Seq<char>>) -> Seq<
    ManagerActionView,
> {
    (if running {
        seq![ManagerActionView::SendCommand(CommandView::Stop), ManagerActionView::JoinWorker]
    } else {
        Seq::<ManagerActionView>::empty()
    }) + seq![ManagerActionView::DisableRaw] + (match msg {
        Some(t) => seq![ManagerActionView::PrintLine(t)],
        None => Seq::<ManagerActionView>::empty(),
    })
}

/// The actions of a start after the implicit stop: open a fresh line, enter
/// raw mode, and hand a new worker its label.
pub open spec fn start_tail_spec(word: Seq<char>) -> Seq<ManagerActionView> {
    seq![
        ManagerActionView::PrintBlank,
        ManagerActionView::EnableRaw,
        ManagerActionView::SpawnWorker(word),
    ]
}

/// All the actions of a start.
pub open spec fn start_actions_spec(running: bool, word: Seq<char>) -> Seq<ManagerActionView> {
    stop_actions_spec(running, None) + start_tail_spec(word)
}

/// How many workers a list of actions spawns.
pub open spec fn count_spawns(acts: Seq<ManagerActionView>) -> nat
    decreases acts.len(),
{
    if acts.len() == 0 {
        0
    } else {
        (match acts.first() {
            ManagerActionView::SpawnWorker(_) => 1nat,
            _ => 0nat,
        }) + count_spawns(acts.drop_first())
    }
}

proof fn lemma_count_spawns_app(a: Seq<ManagerActionView>, b: Seq<ManagerActionView>)
    ensures
        count_spawns(a + b) == count_spawns(a) + count_spawns(b),
    decreases a.len(),
{
    if a.len() == 0 {
        assert(a + b =~= b);
    } else {
        assert((a + b).drop_first() =~= a.drop_first() + b);
        lemma_count_spawns_app(a.drop_first(), b);
    }
}

/// Restart safety: a start spawns exactly one worker whatever the prior
/// state, and a start while one is running performs exactly the actions of
/// a stop followed by those of a start from the stopped state — so exactly
/// one worker is active afterwards.
pub proof fn lemma_restart_safety(running: bool, word: Seq<char>)
    ensures
        count_spawns(start_actions_spec(running, word)) == 1,
        running ==> start_actions_spec(running, word) == stop_actions_spec(true, None) + (
        start_actions_spec(false, word).skip(1)),
        start_actions_spec(false, word) == seq![ManagerActionView::DisableRaw]
            + start_tail_spec(word),
{
    lemma_count_spawns_app(stop_actions_spec(running, None), start_tail_spec(word));
    assert(count_spawns(stop_actions_spec(running, None)) == 0) by {
        assert(count_spawns(Seq::<ManagerActionView>::empty()) == 0);
        if running {
            let s = stop_actions_spec(true, None);
            let s1 = seq![ManagerActionView::JoinWorker, ManagerActionView::DisableRaw];
            let s2 = seq![ManagerActionView::DisableRaw];
            assert(s2.first() == ManagerActionView::DisableRaw);
            assert(s =~= seq![ManagerActionView::SendCommand(CommandView::Stop)] + s1);
            assert(s.drop_first() =~= s1);
            assert(s1.drop_first() =~= s2);
            assert(s2.drop_first() =~= Seq::<ManagerActionView>::empty());
            assert(count_spawns(s2) == 0);
            assert(count_spawns(s1) == 0);
            assert(count_spawns(s) == 0);
        } else {
            let s = stop_actions_spec(false, None);
            assert(s =~= seq![ManagerActionView::DisableRaw]);
            assert(s.drop_first() =~= Seq::<ManagerActionView>::empty());
            assert(count_spawns(s) == 0);
        }
    }
    assert(count_spawns(start_tail_spec(word)) == 1) by {
        assert(count_spawns(Seq::<ManagerActionView>::empty()) == 0);
        let t = start_tail_spec(word);
        let t1 = seq![ManagerActionView::EnableRaw, ManagerActionView::SpawnWorker(word)];
        let t2 = seq![ManagerActionView::SpawnWorker(word)];
        assert(t.drop_first() =~= t1);
        assert(t1.drop_first() =~= t2);
        assert(t2.drop_first() =~= Seq::<ManagerActionView>::empty());
        assert(count_spawns(t2) == 1);
        assert(count_spawns(t1) == 1);
        assert(count_spawns(t) == 1);
    }
    if running {
        assert(start_actions_spec(false, word).skip(1) =~= start_tail_spec(word));
    }
    assert(start_actions_spec(false, word) =~= seq![ManagerActionView::DisableRaw]
        + start_tail_spec(word));
}

/// The foreground's view of the spinner: whether a worker is running,
/// whether the animation is paused, and the current label.
pub struct SpinnerManager {
    pub running: bool,
    pub paused: bool,
    pub message: Option<String>,
}

/// The label as a character sequence, if any.
pub open spec fn manager_msg(m: SpinnerManager) -> Option<Seq<char>> {
    match m.message {
        Some(s) => Some(s@),
        None => None,
    }
}

/// A newline becomes a newline followed by a move to column zero, so each
/// sub-line of an interleaved write starts at the left edge.
pub open spec fn normalize_nl(s: Seq<char>) -> Seq<char>
    decreases s.len(),
{
    if s.len() == 0 {
        Seq::<char>::empty()
    } else {
        (if s.first() == '\n' {
            seq!['\n', '\x1b', '[', '0', 'G']
        } else {
            seq![s.first()]
        }) + normalize_nl(s.drop_first())
    }
}

impl SpinnerManager {
    /// A manager with no worker.
    pub fn new() -> (r: Self)
        ensures
            !r.running,
            !r.paused,
            r.message is None,
    {
        SpinnerManager { running: false, paused: false, message: None }
    }

    /// Stops the active spinner if any: the worker is signalled and joined,
    /// raw mode is always released, and a trailing message is printed when
    /// given.
    pub fn stop(&mut self, message: Option<String>) -> (acts: Vec<ManagerAction>)
        ensures
            !final(self).running,
            !final(self).paused,
            final(self).message is None,
            acts@.map_values(|a: ManagerAction| a@) == stop_actions_spec(
                old(self).running,
                match message {
                    Some(m) => Some(m@),
                    None => None,
                },
            ),
    {
        let ghost msgv: Option<Seq<char>> = match message {
            Some(ref m) => Some(m@),
            None => None,
        };
        let mut acts: Vec<ManagerAction> = Vec::new();
        if self.running {
            acts.push(ManagerAction::SendCommand(Command::Stop));
            acts.push(ManagerAction::JoinWorker);
        }
        acts.push(ManagerAction::DisableRaw);
        match message {
            Some(m) => {
                acts.push(ManagerAction::PrintLine(m));
            },
            None => {},
        }
        self.running = false;
        self.paused = false;
        self.message = None;
        proof {
            assert(acts@.map_values(|a: ManagerAction| a@) =~= stop_actions_spec(
                old(self).running,
                msgv,
            ));
        }
        acts
    }

    /// Starts the spinner: any running worker is stopped and joined first, a
    /// fresh line is opened, raw mode is entered, and one new worker is
    /// spawned with the given label — or one drawn from the built-in words.
    pub fn start(&mut self, message: Option<&str>) -> (acts: Vec<ManagerAction>)
        ensures
            final(self).running,
            !final(self).paused,
            final(self).message is Some,
            match message {
                Some(m) => manager_msg(*final(self)) == Some(m@),
                None => exists|i: int|
                    0 <= i < 8 && manager_msg(*final(self)) == Some(word_view(i)),
            },
            acts@.map_values(|a: ManagerAction| a@) == start_actions_spec(
                old(self).running,
                match manager_msg(*final(self)) {
                    Some(w) => w,
                    None => Seq::<char>::empty(),
                },
            ),
    {
        let mut acts = self.stop(None);
        acts.push(ManagerAction::PrintBlank);
        acts.push(ManagerAction::EnableRaw);
        let word: String = match message {
            Some(m) => to_owned_str(m),
            None => {
                let ws = status_words();
                let i = random_below(8);
                to_owned_str(ws[i])
            },
        };
        let kept = to_owned_str(word.as_str());
        self.message = Some(kept);
        self.running = true;
        self.paused = false;
        acts.push(ManagerAction::SpawnWorker(word));
        proof {
            assert(acts@.map_values(|a: ManagerAction| a@) =~= start_actions_spec(
                old(self).running,
                word@,
            ));
        }
        acts
    }

    /// Routes a message above the spinner line: newlines are normalized so
    /// every sub-line returns to column zero; a running worker receives it
    /// as a `Write` command, otherwise it is printed directly.
    pub fn write_ln(&mut self, message: &str) -> (acts: Vec<ManagerAction>)
        ensures
            *final(self) == *old(self),
            acts@.map_values(|a: ManagerAction| a@) == (if old(self).running {
                seq![
                    ManagerActionView::SendCommand(CommandView::Write(normalize_nl(message@))),
                ]
            } else {
                seq![ManagerActionView::PrintLine(normalize_nl(message@))]
            }),
    {
        let normalized = normalize_exec(message);
        let mut acts: Vec<ManagerAction> = Vec::new();
        if self.running {
            acts.push(ManagerAction::SendCommand(Command::Write(normalized)));
        } else {
            acts.push(ManagerAction::PrintLine(normalized));
        }
        proof {
            assert(acts@.map_values(|a: ManagerAction| a@) =~= (if old(self).running {
                seq![
                    ManagerActionView::SendCommand(CommandView::Write(normalize_nl(message@))),
                ]
            } else {
                seq![ManagerActionView::PrintLine(normalize_nl(message@))]
            }));
        }
        acts
    }

    /// Pauses a running, unpaused spinner without resetting its timer; any
    /// other state is left alone.
    pub fn pause(&mut self) -> (acts: Vec<ManagerAction>)
        ensures
            final(self).running == old(self).running,
            final(self).message == old(self).message,
            final(self).paused == (old(self).running || old(self).paused),
            acts@.map_values(|a: ManagerAction| a@) == (if old(self).running && !old(
                self,
            ).paused {
                seq![ManagerActionView::SendCommand(CommandView::Pause)]
            } else {
                Seq::<ManagerActionView>::empty()
            }),
    {
        let mut acts: Vec<ManagerAction> = Vec::new();
        if self.running && !self.paused {
            acts.push(ManagerAction::SendCommand(Command::Pause));
            self.paused = true;
            proof {
                assert(acts@.map_values(|a: ManagerAction| a@) =~= seq![
                    ManagerActionView::SendCommand(CommandView::Pause),
                ]);
            }
        } else {
            proof {
                assert(acts@.map_values(|a: ManagerAction| a@) =~= Seq::<
                    ManagerActionView,
                >::empty());
            }
        }
        acts
    }

    /// Resumes a paused spinner, keeping the elapsed time; any other state
    /// is left alone.
    pub fn resume(&mut self) -> (acts: Vec<ManagerAction>)
        ensures
            final(self).running == old(self).running,
            final(self).message == old(self).message,
            final(self).paused == (old(self).paused && !old(self).running),
            acts@.map_values(|a: ManagerAction| a@) == (if old(self).running && old(
                self,
            ).paused {
                seq![ManagerActionView::SendCommand(CommandView::Resume)]
            } else {
                Seq::<ManagerActionView>::empty()
            }),
    {
        let mut acts: Vec<ManagerAction> = Vec::new();
        if self.running && self.paused {
            acts.push(ManagerAction::SendCommand(Command::Resume));
            self.paused = false;
            proof {
                assert(acts@.map_values(|a: ManagerAction| a@) =~= seq![
                    ManagerActionView::SendCommand(CommandView::Resume),
                ]);
            }
        } else {
            proof {
                assert(acts@.map_values(|a: ManagerAction| a@) =~= Seq::<
                    ManagerActionView,
                >::empty());
            }
        }
        acts
    }

    /// Prints to standard error with the spinner paused around the write.
    pub fn ewrite_ln(&mut self, message: &str) -> (acts: Vec<ManagerAction>)
        ensures
            final(self).running == old(self).running,
            final(self).message == old(self).message,
            final(self).paused == (old(self).paused && !old(self).running),
            acts@.map_values(|a: ManagerAction| a@) == (if old(self).running && !old(
                self,
            ).paused {
                seq![ManagerActionView::SendCommand(CommandView::Pause)]
            } else {
                Seq::<ManagerActionView>::empty()
            }) + seq![ManagerActionView::PrintErrLine(message@)] + (if old(self).running {
                seq![ManagerActionView::SendCommand(CommandView::Resume)]
            } else {
                Seq::<ManagerActionView>::empty()
            }),
    {
        let mut acts: Vec<ManagerAction> = Vec::new();
        if self.running {
            if !self.paused {
                acts.push(ManagerAction::SendCommand(Command::Pause));
            }
            acts.push(ManagerAction::PrintErrLine(to_owned_str(message)));
            acts.push(ManagerAction::SendCommand(Command::Resume));
            self.paused = false;
        } else {
            acts.push(ManagerAction::PrintErrLine(to_owned_str(message)));
        }
        proof {
            assert(acts@.map_values(|a: ManagerAction| a@) =~= (if old(self).running && !old(
                self,
            ).paused {
                seq![ManagerActionView::SendCommand(CommandView::Pause)]
            } else {
                Seq::<ManagerActionView>::empty()
            }) + seq![ManagerActionView::PrintErrLine(message@)] + (if old(self).running {
                seq![ManagerActionView::SendCommand(CommandView::Resume)]
            } else {
                Seq::<ManagerActionView>::empty()
            }));
        }
        acts
    }

    /// Whether a worker is active.
    pub fn is_running(&self) -> (r: bool)
        ensures
            r == self.running,
    {
        self.running
    }
}




/// The normalized form of a message: every newline gains a move to column
/// zero.
fn normalize_exec(s: &str) -> (r: String)
    ensures
        r@ == normalize_nl(s@),
{
    let cs = str_chars(s);
    let n = cs.len();
    let mut out: Vec<char> = Vec::new();
    let mut i: usize = 0;
    proof {
        assert(cs@.skip(0) =~= cs@);
    }
    while i < n
        invariant
            i <= n == cs@.len(),
            normalize_nl(cs@) == out@ + normalize_nl(cs@.skip(i as int)),
        decreases n - i,
    {
        proof {
            assert(cs@.skip(i as int).first() == cs@[i as int]);
            assert(cs@.skip(i as int).drop_first() =~= cs@.skip(i as int + 1));
        }
        let c = cs[i];
        if c == '\n' {
            out.push('\n');
            out.push('\x1b');
            out.push('[');
            out.push('0');
            out.push('G');
        } else {
            out.push(c);
        }
        i = i + 1;
        proof {
            assert(normalize_nl(cs@) =~= out@ + normalize_nl(cs@.skip(i as int)));
        }
    }
    proof {
        assert(normalize_nl(cs@.skip(n as int)) =~= Seq::<char>::empty());
        assert(out@ =~= normalize_nl(cs@));
    }
    crate::text::chars_to_string(&out)
}


/// A spinner seen by its users: something that can be started with an
/// optional label, stopped, and asked whether it runs.
pub trait Spinner {
    spec fn running_spec(&self) -> bool;

    /// Start the spinner with an optional message.
    fn start(&mut self, message: Option<&str>) -> (r: Result<(), SpinnerError>)
        ensures
            r is Ok ==> final(self).running_spec(),
    ;

    /// Stop and clear the spinner.
    fn stop(&mut self) -> (r: Result<(), SpinnerError>)
        ensures
            r is Ok ==> !final(self).running_spec(),
    ;

    /// Check if spinner is currently running.
    fn is_running(&self) -> (r: bool)
        ensures
            r == self.running_spec(),
    ;
}

/// A failed spinner operation.
#[derive(Clone, Copy, Debug, PartialEq, Eq, Structural)]
pub struct SpinnerError;

/// The plainest spinner: it only tracks whether it was started. It anchors
/// the `Spinner` trait and serves as a stand-in where no terminal exists.
pub struct FlagSpinner {
    pub active: bool,
}

impl FlagSpinner {
    pub fn new() -> (r: Self)
        ensures
            !r.running_spec(),
    {
        FlagSpinner { active: false }
    }
}

impl Spinner for FlagSpinner {
    open spec fn running_spec(&self) -> bool {
        self.active
    }

    fn start(&mut self, message: Option<&str>) -> (r: Result<(), SpinnerError>)
        ensures
            r is Ok,
    {
        self.active = true;
        Ok(())
    }

    fn stop(&mut self) -> (r: Result<(), SpinnerError>)
        ensures
            r is Ok,
    {
        self.active = false;
        Ok(())
    }

    fn is_running(&self) -> (r: bool) {
        self.active
    }
}

/// An owned copy of a string slice.
fn to_owned_str(s: &str) -> (r: String)
    ensures
        r@ == s@,
{
    s.to_owned()
}

} // verus!
