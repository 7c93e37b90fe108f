//! What the execution loop shows on a terminal: the machine's standard output as text, and the
//! controller state as a byte.

use std::collections::VecDeque;
use vstd::prelude::*;
use crate::common::TickTrap;
use crate::text::{chars_of, string_from_chars};

verus! {

/// Whether a byte of standard output is shown: ASCII, but not NUL.
pub open spec fn spec_shown(c: u8) -> bool {
    0 < c && c <= 0x7F
}

/// The text a shown byte stands for on a terminal: a newline returns the carriage too, and a
/// backspace erases the character before it.
pub open spec fn spec_byte_text(c: u8) -> Seq<char> {
    if c == 0x0A {
        seq!['\r', '\n']
    } else if c == 0x08 {
        seq!['\x08', ' ', '\x08']
    } else {
        seq![c as char]
    }
}

/// The text of the shown bytes of standard output.
pub open spec fn spec_stdout_text(s: Seq<u8>) -> Seq<char>
    decreases s.len(),
{
    if s.len() == 0 {
        Seq::empty()
    } else if spec_shown(s.last()) {
        spec_stdout_text(s.drop_last()) + spec_byte_text(s.last())
    } else {
        spec_stdout_text(s.drop_last())
    }
}

/// The bytes of standard output that stay: the shown ones but the bell, which rings once.
pub open spec fn spec_stdout_kept(s: Seq<u8>) -> Seq<u8>
    decreases s.len(),
{
    if s.len() == 0 {
        Seq::empty()
    } else if spec_shown(s.last()) && s.last() != 0x07 {
        spec_stdout_kept(s.drop_last()).push(s.last())
    } else {
        spec_stdout_kept(s.drop_last())
    }
}

/// The text to show for standard output, and the bytes of it to keep: bytes outside ASCII and
/// NUL are dropped, newlines and backspaces are spelled for a terminal, and a bell is shown
/// once and then dropped.
pub fn render_stdout(stdout: &VecDeque<u8>) -> (r: (String, VecDeque<u8>))
    ensures
        r.0@ == spec_stdout_text(stdout@),
        r.1@ == spec_stdout_kept(stdout@),
{
    let mut text: Vec<char> = Vec::new();
    let mut kept: VecDeque<u8> = VecDeque::new();
    let mut i: usize = 0;
    while i < stdout.len()
        invariant
            i <= stdout@.len(),
            text@ == spec_stdout_text(stdout@.subrange(0, i as int)),
            kept@ == spec_stdout_kept(stdout@.subrange(0, i as int)),
        decreases stdout.len() - i,
    {
        let c = stdout[i];
        proof {
            let t = stdout@.subrange(0, i + 1 as int);
            assert(t.drop_last() == stdout@.subrange(0, i as int));
            assert(t.last() == c);
        }
        if 0 < c && c <= 0x7F {
            if c == 0x0A {
                text.push('\r');
                text.push('\n');
            } else if c == 0x08 {
                text.push('\x08');
                text.push(' ');
                text.push('\x08');
            } else {
                text.push(c as char);
            }
            if c != 0x07 {
                kept.push_back(c);
            }
        }
        i = i + 1;
    }
    assert(stdout@.subrange(0, stdout@.len() as int) == stdout@);
    (string_from_chars(&text), kept)
}

/// The controller byte: bit `i` is set where button `i` is pressed.
pub open spec fn spec_controller_byte(pressed: Seq<bool>, n: nat) -> nat
    decreases n,
{
    if n == 0 {
        0
    } else {
        2 * spec_controller_byte(pressed.drop_first(), (n - 1) as nat) + if pressed[0] {
            1nat
        } else {
            0nat
        }
    }
}

pub open spec fn spec_pow2(n: nat) -> nat
    decreases n,
{
    if n == 0 {
        1
    } else {
        2 * spec_pow2((n - 1) as nat)
    }
}

proof fn lemma_controller_bound(pressed: Seq<bool>, n: nat)
    requires
        n <= pressed.len(),
    ensures
        spec_controller_byte(pressed, n) < spec_pow2(n),
    decreases n,
{
    if n > 0 {
        lemma_controller_bound(pressed.drop_first(), (n - 1) as nat);
    }
}

/// The controller byte for the buttons pressed, button `i` in bit `i`.
pub fn controller_byte(pressed: &[bool; 8]) -> (r: u8)
    ensures
        r as nat == spec_controller_byte(pressed@, 8),
{
    let mut acc: u16 = 0;
    let mut i: usize = 8;
    while i > 0
        invariant
            i <= 8,
            pressed@.len() == 8,
            acc as nat == spec_controller_byte(pressed@.subrange(i as int, 8), (8 - i) as nat),
            acc < 256,
        decreases i,
    {
        i = i - 1;
        proof {
            let t = pressed@.subrange(i as int, 8);
            assert(t.drop_first() == pressed@.subrange(i + 1 as int, 8));
            assert(t[0] == pressed@[i as int]);
            lemma_controller_bound(t, (8 - i) as nat);
            reveal_with_fuel(spec_pow2, 9);
        }
        acc = 2 * acc + if pressed[i] {
            1
        } else {
            0
        };
    }
    assert(pressed@.subrange(0, 8) == pressed@);
    acc as u8
}


/// A key read from the terminal, as the execution loop tells keys apart.
#[derive(Clone, Copy, Debug, PartialEq, Eq)]
pub enum Key {
    Char(char),
    Backspace,
    Enter,
    Tab,
    Del,
    Escape,
    ArrowUp,
    ArrowDown,
    ArrowLeft,
    ArrowRight,
    PageUp,
    PageDown,
    Home,
    End,
    Other,
}

/// What a key does while the machine runs.
#[derive(Debug, PartialEq, Eq)]
pub enum KeyAction {
    /// Empty standard output.
    ClearStdout,
    /// Show or hide the machine state.
    ToggleState,
    /// Enter or leave debug mode.
    ToggleDebug,
    /// Press a controller button, if the key is one, and queue bytes on standard input.
    Input(Option<u8>, Vec<u8>),
}

/// What a key does in debug mode: the machine waits for one of these.
#[derive(Clone, Copy, Debug, PartialEq, Eq)]
pub enum DebugAction {
    /// Empty standard output and step once.
    ClearStdout,
    /// Step once.
    Step,
    /// Leave debug mode.
    Resume,
}

/// The controller button of a key: up, down, left, right, page up, page down, home and end, in
/// order.
pub open spec fn spec_controller_button(k: Key) -> Option<u8> {
    match k {
        Key::ArrowUp => Some(0),
        Key::ArrowDown => Some(1),
        Key::ArrowLeft => Some(2),
        Key::ArrowRight => Some(3),
        Key::PageUp => Some(4),
        Key::PageDown => Some(5),
        Key::Home => Some(6),
        Key::End => Some(7),
        _ => None,
    }
}

/// The bytes a key queues on standard input: a character its code truncated to a byte,
/// backspace, enter, tab and delete their ASCII codes.
pub open spec fn spec_key_bytes(k: Key) -> Seq<u8> {
    match k {
        Key::Char(c) => seq![((c as u32) % 256) as u8],
        Key::Backspace => seq![0x08u8],
        Key::Enter => seq![0x0Au8],
        Key::Tab => seq![0x09u8],
        Key::Del => seq![0x7Fu8],
        _ => Seq::empty(),
    }
}

/// The bytes a key queues on standard input.
pub fn key_bytes(k: Key) -> (r: Vec<u8>)
    ensures
        r@ == spec_key_bytes(k),
{
    match k {
        Key::Char(c) => vec![((c as u32) % 256) as u8],
        Key::Backspace => vec![0x08],
        Key::Enter => vec![0x0A],
        Key::Tab => vec![0x09],
        Key::Del => vec![0x7F],
        _ => Vec::new(),
    }
}

/// The controller button of a key.
pub fn controller_button(k: Key) -> (r: Option<u8>)
    ensures
        r == spec_controller_button(k),
{
    match k {
        Key::ArrowUp => Some(0),
        Key::ArrowDown => Some(1),
        Key::ArrowLeft => Some(2),
        Key::ArrowRight => Some(3),
        Key::PageUp => Some(4),
        Key::PageDown => Some(5),
        Key::Home => Some(6),
        Key::End => Some(7),
        _ => None,
    }
}

/// What a key does while the machine runs: delete empties standard output, tab shows or hides
/// the machine state, escape enters debug mode; any other key presses its controller button, if
/// it is one, and queues its bytes on standard input.
pub fn running_key_action(k: Key) -> (r: KeyAction)
    ensures
        k == Key::Del ==> r == KeyAction::ClearStdout,
        k == Key::Tab ==> r == KeyAction::ToggleState,
        k == Key::Escape ==> r == KeyAction::ToggleDebug,
        k != Key::Del && k != Key::Tab && k != Key::Escape ==> (r matches KeyAction::Input(b, v)
            && b == spec_controller_button(k) && v@ == spec_key_bytes(k)),
{
    match k {
        Key::Del => KeyAction::ClearStdout,
        Key::Tab => KeyAction::ToggleState,
        Key::Escape => KeyAction::ToggleDebug,
        _ => KeyAction::Input(controller_button(k), key_bytes(k)),
    }
}

/// What a key does in debug mode: delete empties standard output and steps, tab steps, escape
/// resumes; any other key is ignored.
pub fn debug_key_action(k: Key) -> (r: Option<DebugAction>)
    ensures
        r == (match k {
            Key::Del => Some(DebugAction::ClearStdout),
            Key::Tab => Some(DebugAction::Step),
            Key::Escape => Some(DebugAction::Resume),
            _ => None::<DebugAction>,
        }),
{
    match k {
        Key::Del => Some(DebugAction::ClearStdout),
        Key::Tab => Some(DebugAction::Step),
        Key::Escape => Some(DebugAction::Resume),
        _ => None,
    }
}


/// The bookkeeping of the execution loop: clocks run so far, when each periodic task is next
/// due, and the modes that keys switch.
#[derive(Clone, Copy, Debug, PartialEq, Eq, Structural)]
pub struct LoopState {
    pub current_clocks: u128,
    pub next_call_clocks: u128,
    pub next_stdin_clocks: u128,
    pub next_stdout_clocks: u128,
    pub debug_mode: bool,
    pub show_state: bool,
}

/// A periodic task of the execution loop: pacing against the wall clock a thousand times a
/// second, and reading keys and redrawing the terminal sixty times a second.
#[derive(Clone, Copy, Debug, PartialEq, Eq, Structural)]
pub enum Task {
    Pace,
    ReadKeys,
    Redraw,
}

/// The state the loop starts in: nothing run, every task due, debug mode off, the display shown.
pub open spec fn spec_loop_start() -> LoopState {
    LoopState {
        current_clocks: 0,
        next_call_clocks: 0,
        next_stdin_clocks: 0,
        next_stdout_clocks: 0,
        debug_mode: false,
        show_state: false,
    }
}

/// The state the loop starts in.
pub fn loop_start() -> (st: LoopState)
    ensures
        st == spec_loop_start(),
{
    LoopState {
        current_clocks: 0,
        next_call_clocks: 0,
        next_stdin_clocks: 0,
        next_stdout_clocks: 0,
        debug_mode: false,
        show_state: false,
    }
}

/// The clocks between two runs of a task at `clock_speed` clocks per second.
pub open spec fn spec_task_period(task: Task, clock_speed: u128) -> u128 {
    match task {
        Task::Pace => clock_speed / 1000,
        Task::ReadKeys | Task::Redraw => clock_speed / 60,
    }
}

/// When a task is next due.
pub open spec fn spec_task_next(st: LoopState, task: Task) -> u128 {
    match task {
        Task::Pace => st.next_call_clocks,
        Task::ReadKeys => st.next_stdin_clocks,
        Task::Redraw => st.next_stdout_clocks,
    }
}

/// `st` with the task next due at `next`.
pub open spec fn spec_with_task_next(st: LoopState, task: Task, next: u128) -> LoopState {
    match task {
        Task::Pace => LoopState { next_call_clocks: next, ..st },
        Task::ReadKeys => LoopState { next_stdin_clocks: next, ..st },
        Task::Redraw => LoopState { next_stdout_clocks: next, ..st },
    }
}

/// Whether a task runs now, and the state after: in debug mode every task runs at every step
/// and its schedule stays; otherwise a task runs once its time has come, and is then due one
/// period later.
pub open spec fn spec_poll(st: LoopState, task: Task, clock_speed: u128) -> (bool, LoopState) {
    let next = spec_task_next(st, task);
    if st.debug_mode {
        (true, st)
    } else if next <= st.current_clocks {
        (true, spec_with_task_next(st, task, (next + spec_task_period(task, clock_speed)) as u128))
    } else {
        (false, st)
    }
}

/// Whether a task runs now, and the state after.
pub fn poll(st: LoopState, task: Task, clock_speed: u128) -> (r: (bool, LoopState))
    requires
        !st.debug_mode && spec_task_next(st, task) <= st.current_clocks
            ==> spec_task_next(st, task) + spec_task_period(task, clock_speed) <= u128::MAX,
    ensures
        r == spec_poll(st, task, clock_speed),
{
    let (next, period) = match task {
        Task::Pace => (st.next_call_clocks, clock_speed / 1000),
        Task::ReadKeys => (st.next_stdin_clocks, clock_speed / 60),
        Task::Redraw => (st.next_stdout_clocks, clock_speed / 60),
    };
    if st.debug_mode {
        (true, st)
    } else if next <= st.current_clocks {
        let next = next + period;
        let n = match task {
            Task::Pace => LoopState { next_call_clocks: next, ..st },
            Task::ReadKeys => LoopState { next_stdin_clocks: next, ..st },
            Task::Redraw => LoopState { next_stdout_clocks: next, ..st },
        };
        (true, n)
    } else {
        (false, st)
    }
}

/// The state after a tick: its clocks are counted, and a trap enters debug mode.
pub open spec fn spec_on_tick(st: LoopState, r: Result<u128, TickTrap>) -> LoopState {
    match r {
        Ok(clocks) => LoopState { current_clocks: (st.current_clocks + clocks) as u128, ..st },
        Err(_) => LoopState { debug_mode: true, ..st },
    }
}

/// The state after a tick.
pub fn on_tick(st: LoopState, r: Result<u128, TickTrap>) -> (n: LoopState)
    requires
        r matches Ok(clocks) ==> st.current_clocks + clocks <= u128::MAX,
    ensures
        n == spec_on_tick(st, r),
{
    match r {
        Ok(clocks) => LoopState { current_clocks: st.current_clocks + clocks, ..st },
        Err(_) => LoopState { debug_mode: true, ..st },
    }
}

/// The status line for a trap.
pub open spec fn spec_trap_message(t: TickTrap) -> Seq<char> {
    match t {
        TickTrap::MicrocodeFault => "Microcode fault"@,
        TickTrap::IllegalOpcode => "Illegal opcode"@,
        TickTrap::DebugRequest => "Debug request"@,
        TickTrap::BusFault => "Bus fault"@,
    }
}

/// The status line for a trap.
pub fn trap_message(t: TickTrap) -> (s: String)
    ensures
        s@ == spec_trap_message(t),
{
    let text = match t {
        TickTrap::MicrocodeFault => "Microcode fault",
        TickTrap::IllegalOpcode => "Illegal opcode",
        TickTrap::DebugRequest => "Debug request",
        TickTrap::BusFault => "Bus fault",
    };
    string_from_chars(&chars_of(text))
}

/// The state after a key while the machine runs: tab shows or hides the machine state, escape
/// enters or leaves debug mode, and no other key changes the loop's modes.
pub open spec fn spec_on_running_key(st: LoopState, a: &KeyAction) -> LoopState {
    match a {
        KeyAction::ToggleState => LoopState { show_state: !st.show_state, ..st },
        KeyAction::ToggleDebug => LoopState { debug_mode: !st.debug_mode, ..st },
        _ => st,
    }
}

/// The state after a key while the machine runs.
pub fn on_running_key(st: LoopState, a: &KeyAction) -> (n: LoopState)
    ensures
        n == spec_on_running_key(st, a),
{
    match a {
        KeyAction::ToggleState => LoopState { show_state: !st.show_state, ..st },
        KeyAction::ToggleDebug => LoopState { debug_mode: !st.debug_mode, ..st },
        _ => st,
    }
}

/// The state after the key that ends a wait in debug mode: the clocks start again from zero
/// with every task due, and escape leaves debug mode.
pub open spec fn spec_after_debug_wait(st: LoopState, a: DebugAction) -> LoopState {
    LoopState {
        current_clocks: 0,
        next_call_clocks: 0,
        next_stdin_clocks: 0,
        next_stdout_clocks: 0,
        debug_mode: if a == DebugAction::Resume { !st.debug_mode } else { st.debug_mode },
        show_state: st.show_state,
    }
}

/// The state after the key that ends a wait in debug mode.
pub fn after_debug_wait(st: LoopState, a: DebugAction) -> (n: LoopState)
    ensures
        n == spec_after_debug_wait(st, a),
{
    LoopState {
        current_clocks: 0,
        next_call_clocks: 0,
        next_stdin_clocks: 0,
        next_stdout_clocks: 0,
        debug_mode: match a {
            DebugAction::Resume => !st.debug_mode,
            _ => st.debug_mode,
        },
        show_state: st.show_state,
    }
}

/// A trap always leaves the loop in debug mode, and a tick that runs counts its clocks.
pub proof fn law_trap_enters_debug(st: LoopState, r: Result<u128, TickTrap>)
    ensures
        r is Err ==> spec_on_tick(st, r).debug_mode,
        r matches Ok(c) ==> spec_on_tick(st, r).debug_mode == st.debug_mode && spec_on_tick(st, r).current_clocks == (st.current_clocks + c) as u128,
{
}

} // verus!
