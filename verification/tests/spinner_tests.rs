use forge_display::spinner::Command;
use forge_display::spinner::FlagSpinner;
use forge_display::spinner::ManagerAction;
use forge_display::spinner::Spinner;
use forge_display::spinner::SpinnerManager;
use forge_display::spinner::TermAction;
use forge_display::spinner::WorkerEvent;
use forge_display::spinner::render_spinner_line;
use forge_display::spinner::spinner_frames;
use forge_display::spinner::status_words;
use forge_display::spinner::worker_init;
use forge_display::spinner::worker_step;
use forge_display::spinner::worker_tick;
use forge_display::track::EventKind;
use forge_display::track::Name;
use forge_display::track::ToolCallPayload;

#[test]
fn test_render_spinner_line_content() {
    let line = render_spinner_line("*", "Thinking", 5);
    assert!(line.starts_with("\r\x1b[2K"));
    assert!(line.contains("Thinking"));
    assert!(line.contains("5s"));
    assert!(line.contains("Ctrl+C to interrupt"));
}

#[test]
fn test_spinner_restart_keeps_one_worker() {
    let mut m = SpinnerManager::new();
    let first = m.start(Some("One"));
    assert!(m.is_running());
    let spawns = first
        .iter()
        .filter(|a| matches!(a, ManagerAction::SpawnWorker(_)))
        .count();
    assert_eq!(spawns, 1);

    // restarting while running behaves as stop-then-start: the old worker is
    // signalled and joined before exactly one new worker is spawned
    let second = m.start(Some("Two"));
    assert!(m.is_running());
    assert!(matches!(second[0], ManagerAction::SendCommand(Command::Stop)));
    assert!(matches!(second[1], ManagerAction::JoinWorker));
    let spawns = second
        .iter()
        .filter(|a| matches!(a, ManagerAction::SpawnWorker(_)))
        .count();
    assert_eq!(spawns, 1);
    assert_eq!(m.message.as_deref(), Some("Two"));
}

#[test]
fn test_spinner_start_without_label_picks_word() {
    let mut m = SpinnerManager::new();
    m.start(None);
    let words = status_words();
    let picked = m.message.clone().unwrap();
    assert!(words.iter().any(|w| *w == picked.as_str()));
}

#[test]
fn test_write_while_running_redraws_with_same_elapsed() {
    // Scenario: a Write command delivered to a running spinner prints the
    // status text and then a fresh spinner line with the unchanged elapsed
    // time handed in for this tick.
    let (state, _acts) = worker_init("Working".to_string());
    let (state, acts) = worker_step(
        state,
        WorkerEvent::Got(Command::Write("status".to_string())),
        7,
    );
    assert!(!state.stopping);
    assert_eq!(acts.len(), 3);
    assert!(matches!(&acts[0], TermAction::Print(s) if s.as_str() == "\r\x1b[2K"));
    assert!(matches!(&acts[1], TermAction::Print(s) if s.as_str() == "status\n"));
    assert!(
        matches!(&acts[2], TermAction::Print(s) if s.contains("Working") && s.contains("7s"))
    );
}

#[test]
fn test_worker_stop_command_ends_loop() {
    let (state, _acts) = worker_init("w".to_string());
    let (state, acts) = worker_step(state, WorkerEvent::Got(Command::Stop), 0);
    assert!(state.stopping);
    assert!(acts.is_empty());
}

#[test]
fn test_worker_pause_resume_keeps_frame() {
    let (state, _acts) = worker_init("w".to_string());
    let (state, acts) = worker_tick(state, 1);
    assert_eq!(state.frame_index, 1);
    let (state, acts_pause) = worker_step(state, WorkerEvent::Got(Command::Pause), 2);
    assert!(state.paused);
    assert_eq!(state.frame_index, 1);
    assert!(matches!(&acts_pause[3], TermAction::DisableRaw));
    // a paused worker does not animate
    let (state, tick_acts) = worker_tick(state, 3);
    assert!(tick_acts.is_empty());
    assert_eq!(state.frame_index, 1);
    // resume redraws at the retained frame with the wall-clock elapsed time
    let (state, acts_resume) = worker_step(state, WorkerEvent::Got(Command::Resume), 9);
    assert!(!state.paused);
    assert_eq!(state.frame_index, 1);
    assert!(matches!(&acts_resume[0], TermAction::EnableRaw));
    assert!(matches!(&acts_resume[2], TermAction::Print(s) if s.contains("9s")));
    let _ = acts;
}

#[test]
fn test_worker_tick_cycles_frames() {
    let frames = spinner_frames();
    assert_eq!(frames.len(), 10);
    let (mut state, _acts) = worker_init("w".to_string());
    for expected in [1, 2, 3, 4, 5, 6, 7, 8, 9, 0, 1] {
        let (next, acts) = worker_tick(state, 0);
        assert_eq!(next.frame_index, expected);
        assert_eq!(acts.len(), 1);
        state = next;
    }
}

#[test]
fn test_write_ln_normalizes_newlines() {
    let mut m = SpinnerManager::new();
    let acts = m.write_ln("a\nb");
    assert_eq!(acts.len(), 1);
    assert!(matches!(&acts[0], ManagerAction::PrintLine(s) if s.as_str() == "a\n\x1b[0Gb"));
    m.start(Some("x"));
    let acts = m.write_ln("c");
    assert!(
        matches!(&acts[0], ManagerAction::SendCommand(Command::Write(s)) if s.as_str() == "c")
    );
}

#[test]
fn test_pause_resume_state_machine() {
    let mut m = SpinnerManager::new();
    // pausing a stopped spinner does nothing
    assert!(m.pause().is_empty());
    m.start(Some("x"));
    let acts = m.pause();
    assert!(matches!(&acts[0], ManagerAction::SendCommand(Command::Pause)));
    // pausing twice sends nothing the second time
    assert!(m.pause().is_empty());
    let acts = m.resume();
    assert!(matches!(&acts[0], ManagerAction::SendCommand(Command::Resume)));
    assert!(m.resume().is_empty());
}

#[test]
fn test_stop_prints_trailing_message() {
    let mut m = SpinnerManager::new();
    m.start(Some("x"));
    let acts = m.stop(Some("done".to_string()));
    assert!(!m.is_running());
    assert!(matches!(&acts[0], ManagerAction::SendCommand(Command::Stop)));
    assert!(matches!(&acts[1], ManagerAction::JoinWorker));
    assert!(matches!(&acts[2], ManagerAction::DisableRaw));
    assert!(matches!(&acts[3], ManagerAction::PrintLine(s) if s.as_str() == "done"));
}

#[test]
fn test_flag_spinner_roundtrip() {
    let mut s = FlagSpinner::new();
    assert!(!s.is_running());
    s.start(Some("m")).unwrap();
    assert!(s.is_running());
    s.stop().unwrap();
    assert!(!s.is_running());
}

#[test]
fn test_event_name_is_snake_cased() {
    let name = Name::new("HelloWorld".to_string());
    assert_eq!(name.as_str(), "hello_world");
    let kind = EventKind::ToolCall(ToolCallPayload::new("read".to_string()));
    assert_eq!(kind.name().as_str(), "tool_call");
    assert_eq!(EventKind::Start.name().as_str(), "start");
}

#[test]
fn test_tool_call_payload_cause() {
    let payload = ToolCallPayload::new("write".to_string()).with_cause("denied".to_string());
    assert_eq!(payload.tool_name, "write");
    assert_eq!(payload.cause.as_deref(), Some("denied"));
}

#[test]
fn test_dec_strings() {
    assert_eq!(forge_display::text::u64_to_dec_string(0), "0");
    assert_eq!(forge_display::text::u64_to_dec_string(1234), "1234");
    assert_eq!(forge_display::text::i64_to_dec_string(-25), "-25");
    assert_eq!(forge_display::text::i64_to_dec_string(158), "158");
}
