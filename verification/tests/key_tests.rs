use atto8::terminal::{debug_key_action, running_key_action, DebugAction, Key, KeyAction};

#[test]
fn running_keys_queue_bytes_and_press_buttons() {
    assert_eq!(running_key_action(Key::Char('a')), KeyAction::Input(None, vec![0x61]));
    assert_eq!(running_key_action(Key::Char('\u{141}')), KeyAction::Input(None, vec![0x41]));
    assert_eq!(running_key_action(Key::Enter), KeyAction::Input(None, vec![0x0A]));
    assert_eq!(running_key_action(Key::Backspace), KeyAction::Input(None, vec![0x08]));
    assert_eq!(running_key_action(Key::ArrowLeft), KeyAction::Input(Some(2), vec![]));
    assert_eq!(running_key_action(Key::End), KeyAction::Input(Some(7), vec![]));
    assert_eq!(running_key_action(Key::Other), KeyAction::Input(None, vec![]));
}

#[test]
fn running_keys_control_the_loop() {
    assert_eq!(running_key_action(Key::Del), KeyAction::ClearStdout);
    assert_eq!(running_key_action(Key::Tab), KeyAction::ToggleState);
    assert_eq!(running_key_action(Key::Escape), KeyAction::ToggleDebug);
}

#[test]
fn debug_keys() {
    assert_eq!(debug_key_action(Key::Del), Some(DebugAction::ClearStdout));
    assert_eq!(debug_key_action(Key::Tab), Some(DebugAction::Step));
    assert_eq!(debug_key_action(Key::Escape), Some(DebugAction::Resume));
    assert_eq!(debug_key_action(Key::Char('x')), None);
}

use atto8::common::TickTrap;
use atto8::terminal::{after_debug_wait, loop_start, on_running_key, on_tick, poll, trap_message, LoopState, Task};

#[test]
fn illegal_opcode_enters_debug_mode() {
    let st = loop_start();
    let n = on_tick(st, Err(TickTrap::IllegalOpcode));
    assert!(n.debug_mode);
    assert_eq!(n.current_clocks, 0);
    assert_eq!(trap_message(TickTrap::IllegalOpcode), "Illegal opcode");
    assert_eq!(trap_message(TickTrap::DebugRequest), "Debug request");
    let n = on_tick(st, Ok(12));
    assert!(!n.debug_mode);
    assert_eq!(n.current_clocks, 12);
}

#[test]
fn tasks_run_on_schedule() {
    let st = loop_start();
    let (due, st) = poll(st, Task::Pace, 1_000_000);
    assert!(due);
    assert_eq!(st.next_call_clocks, 1000);
    let (due, st) = poll(st, Task::Pace, 1_000_000);
    assert!(!due);
    let st = LoopState { current_clocks: 1000, ..st };
    let (due, st) = poll(st, Task::Pace, 1_000_000);
    assert!(due);
    assert_eq!(st.next_call_clocks, 2000);
    let (due, st) = poll(st, Task::Redraw, 600);
    assert!(due);
    assert_eq!(st.next_stdout_clocks, 10);
}

#[test]
fn debug_mode_runs_every_task_and_restarts_clocks() {
    let st = LoopState { debug_mode: true, current_clocks: 5, next_stdin_clocks: 99, ..loop_start() };
    let (due, n) = poll(st, Task::ReadKeys, 600);
    assert!(due);
    assert_eq!(n, st);
    let n = after_debug_wait(st, DebugAction::Step);
    assert!(n.debug_mode);
    assert_eq!(n.current_clocks, 0);
    assert_eq!(n.next_stdin_clocks, 0);
    let n = after_debug_wait(st, DebugAction::Resume);
    assert!(!n.debug_mode);
}

#[test]
fn running_keys_switch_modes() {
    let st = loop_start();
    let n = on_running_key(st, &KeyAction::ToggleState);
    assert!(n.show_state);
    let n = on_running_key(n, &KeyAction::ToggleDebug);
    assert!(n.debug_mode);
    let n2 = on_running_key(n, &KeyAction::Input(Some(1), vec![]));
    assert_eq!(n2, n);
}
