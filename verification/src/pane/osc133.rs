//! OSC 133 state machine: follows the shell's command cycle.
//!
//! The markers of a cycle are A (prompt shown), B (input ready), C (command
//! executing) and D (command done); E gives the command's text. The machine
//! recovers from any order of markers: A is a hard reset, B finalizes whatever
//! is in flight, and a lost command never spoils the next one.
//!
//! One capture buffer collects all terminal text. C clears it, D consumes it, B
//! clears it. So output is captured even where C is missing.

use super::state::{Activity, PaneState, StateModel};
use super::vt::{strip_escapes, visible_text};
use crate::text::{chars_of, has_prefix, lossy_text, opt_text, parse_i32, parsed_i32, starts_with, substring, utf8_lossy};
use vstd::prelude::*;
use vstd::string::StringExecFns;

verus! {

/// Phase of the command cycle.
#[derive(Debug, Clone, PartialEq, Eq)]
pub enum Osc133Phase {
    /// No cycle yet, or recovering.
    Idle,
    /// The prompt is being shown.
    Prompt,
    /// The shell is ready for input.
    Input,
    /// A command is executing.
    Executing {
        /// Its text.
        command: String,
    },
}

/// A phase, mathematically.
pub ghost enum PhaseModel {
    Idle,
    Prompt,
    Input,
    Executing(Seq<char>),
}

impl View for Osc133Phase {
    type V = PhaseModel;

    open spec fn view(&self) -> PhaseModel {
        match *self {
            Osc133Phase::Idle => PhaseModel::Idle,
            Osc133Phase::Prompt => PhaseModel::Prompt,
            Osc133Phase::Input => PhaseModel::Input,
            Osc133Phase::Executing { command } => PhaseModel::Executing(command@),
        }
    }
}

/// The OSC 133 state machine.
#[derive(Debug)]
pub struct Osc133Parser {
    phase: Osc133Phase,
    /// Text from an E marker that came before C.
    pending_command_text: Option<String>,
    /// Exit code from D, until B finalizes the command.
    pending_exit_code: Option<i32>,
    /// Text of the command that D ended, until B finalizes it.
    pending_command: Option<String>,
    /// Output of the command that D ended, until B finalizes it.
    pending_output: Option<String>,
    /// All terminal text since it was last cleared.
    capture: String,
}

/// The state machine, mathematically.
pub ghost struct ParserModel {
    pub phase: PhaseModel,
    pub text: Option<Seq<char>>,
    pub exit_code: Option<i32>,
    pub command: Option<Seq<char>>,
    pub output: Option<Seq<char>>,
    pub capture: Seq<char>,
}

impl View for Osc133Parser {
    type V = ParserModel;

    closed spec fn view(&self) -> ParserModel {
        ParserModel {
            phase: self.phase@,
            text: opt_text(self.pending_command_text),
            exit_code: self.pending_exit_code,
            command: opt_text(self.pending_command),
            output: opt_text(self.pending_output),
            capture: self.capture@,
        }
    }
}

/// An optional text, empty where there is none.
pub open spec fn text_or_empty(s: Option<Seq<char>>) -> Seq<char> {
    match s {
        Some(t) => t,
        None => Seq::empty(),
    }
}

impl ParserModel {
    /// The machine before any marker.
    pub open spec fn fresh() -> ParserModel {
        ParserModel {
            phase: PhaseModel::Idle,
            text: None,
            exit_code: None,
            command: None,
            output: None,
            capture: Seq::empty(),
        }
    }

    /// Whether D has ended a command that B has not finalized.
    pub open spec fn has_pending(self) -> bool {
        self.exit_code is Some || self.command is Some
    }
}

/// The state after the command in execution, if any, was recorded with that
/// exit code. A command without text and output leaves no record.
pub open spec fn record_executing(p: ParserModel, s: StateModel, exit_code: Option<i32>) -> StateModel {
    match p.phase {
        PhaseModel::Executing(command) => if command.len() > 0 || p.capture.len() > 0 {
            s.completed(command, p.capture, exit_code)
        } else {
            s
        },
        _ => s,
    }
}

/// A (prompt shown): a command still in execution is recorded without an exit
/// code. What D left pending stays for B.
pub open spec fn step_a(p: ParserModel, s: StateModel) -> (ParserModel, StateModel) {
    (
        ParserModel {
            phase: PhaseModel::Prompt,
            text: None,
            capture: if p.phase is Executing {
                Seq::empty()
            } else {
                p.capture
            },
            ..p
        },
        StateModel { activity: Activity::Idle, ..record_executing(p, s, None) },
    )
}

/// B (input ready): what D left pending is recorded; a command in execution
/// that never ended is recorded with exit code 1.
pub open spec fn step_b(p: ParserModel, s: StateModel) -> (ParserModel, StateModel) {
    let command = text_or_empty(p.command);
    let output = text_or_empty(p.output);
    let finalized = if p.has_pending() && (command.len() > 0 || output.len() > 0) {
        s.completed(command, output, p.exit_code)
    } else {
        s
    };
    (
        ParserModel {
            phase: PhaseModel::Input,
            exit_code: None,
            command: None,
            output: if p.has_pending() {
                None
            } else {
                p.output
            },
            capture: Seq::empty(),
            ..p
        },
        StateModel { activity: Activity::Idle, ..record_executing(p, finalized, Some(1)) },
    )
}

/// C (command executing): the command's text comes from E, or else from the
/// parameter, or else from what was captured, without escape sequences. Ignored
/// while a command executes.
pub open spec fn step_c(p: ParserModel, param: Option<Seq<char>>) -> ParserModel {
    if p.phase is Executing {
        p
    } else {
        let command = match p.text {
            Some(t) => t,
            None => match cmdline_of(param) {
                Some(t) => t,
                None => visible_text(p.capture),
            },
        };
        ParserModel {
            phase: PhaseModel::Executing(command),
            text: None,
            capture: Seq::empty(),
            ..p
        }
    }
}

/// D (command done): command, output and exit code are held for B. Completion
/// is always counted.
pub open spec fn step_d(p: ParserModel, s: StateModel, param: Option<Seq<char>>) -> (
    ParserModel,
    StateModel,
) {
    let exit_code = match param {
        Some(t) => parsed_i32(t),
        None => None,
    };
    (
        ParserModel {
            phase: PhaseModel::Idle,
            text: if p.phase is Input {
                None
            } else {
                p.text
            },
            exit_code,
            command: match p.phase {
                PhaseModel::Executing(command) => Some(command),
                PhaseModel::Input => Some(text_or_empty(p.text)),
                _ => None,
            },
            output: Some(p.capture),
            capture: Seq::empty(),
        },
        StateModel {
            completion_seq: s.completion_seq + 1,
            last_exit_code: exit_code,
            activity: Activity::Idle,
            ..s
        },
    )
}

/// E (command text): the text of the command in execution, or of the next one.
pub open spec fn step_e(p: ParserModel, param: Option<Seq<char>>) -> ParserModel {
    match param {
        None => p,
        Some(t) => if p.phase is Executing {
            ParserModel { phase: PhaseModel::Executing(t), ..p }
        } else {
            ParserModel { text: Some(t), ..p }
        },
    }
}

/// What a marker does to the machine and to the pane's state.
pub open spec fn marker_step(
    p: ParserModel,
    s: StateModel,
    marker: u8,
    param: Option<Seq<char>>,
) -> (ParserModel, StateModel) {
    let seen = StateModel { last_osc133_marker: Some(s.now as u64), ..s };
    if marker == 65 {
        step_a(p, seen)
    } else if marker == 66 {
        step_b(p, seen)
    } else if marker == 67 {
        (step_c(p, param), seen)
    } else if marker == 68 {
        step_d(p, seen, param)
    } else if marker == 69 {
        (step_e(p, param), seen)
    } else {
        (p, seen)
    }
}

/// What an outside reset does: what is in flight or pending is recorded, if
/// there is anything to tell.
pub open spec fn reset_step(p: ParserModel, s: StateModel) -> (ParserModel, StateModel) {
    let abandoned = record_executing(p, s, None);
    let command = text_or_empty(p.command);
    let output = text_or_empty(p.output);
    let failed = match p.exit_code {
        Some(c) => c != 0,
        None => false,
    };
    let flushed = if p.has_pending() && (command.len() > 0 || output.len() > 0 || failed) {
        abandoned.completed(command, output, p.exit_code)
    } else {
        abandoned
    };
    (ParserModel::fresh(), StateModel { activity: Activity::Unknown, ..flushed })
}

/// Whether `b` is a hexadecimal digit.
pub open spec fn is_hex(b: u8) -> bool {
    48 <= b <= 57 || 65 <= b <= 70 || 97 <= b <= 102
}

/// The value of a hexadecimal digit.
pub open spec fn hex_value(b: u8) -> int {
    if b <= 57 {
        b - 48
    } else if b <= 70 {
        b - 55
    } else {
        b - 87
    }
}

/// Bytes with their percent escapes read. A percent sign takes two bytes with
/// it, and stands for nothing where they are no hexadecimal digits; a plus
/// stands for a space.
pub open spec fn percent_decoded(b: Seq<u8>) -> Seq<u8>
    decreases b.len(),
{
    if b.len() == 0 {
        b
    } else if b[0] == 37 {
        if b.len() < 3 {
            Seq::empty()
        } else {
            (if is_hex(b[1]) && is_hex(b[2]) {
                seq![(16 * hex_value(b[1]) + hex_value(b[2])) as u8]
            } else {
                Seq::empty()
            }) + percent_decoded(b.subrange(3, b.len() as int))
        }
    } else {
        seq![if b[0] == 43 { 32u8 } else { b[0] }] + percent_decoded(b.drop_first())
    }
}

/// The command text that a C marker's parameter gives, if any.
pub open spec fn cmdline_of(param: Option<Seq<char>>) -> Option<Seq<char>> {
    let key = "cmdline_url="@;
    match param {
        Some(t) => if has_prefix(t, key) {
            Some(
                lossy_text(
                    percent_decoded(
                        vstd::utf8::encode_utf8(t.subrange(key.len() as int, t.len() as int)),
                    ),
                ),
            )
        } else {
            None
        },
        None => None,
    }
}

/// The value of a hexadecimal digit.
fn hex_digit(b: u8) -> (r: Option<u8>)
    ensures
        match r {
            Some(v) => is_hex(b) && v == hex_value(b) && v < 16,
            None => !is_hex(b),
        },
{
    if 48 <= b && b <= 57 {
        Some(b - 48)
    } else if 65 <= b && b <= 70 {
        Some(b - 55)
    } else if 97 <= b && b <= 102 {
        Some(b - 87)
    } else {
        None
    }
}

/// The text of a percent-encoded string.
pub fn percent_decode(input: &str) -> (r: String)
    ensures
        r@ == lossy_text(percent_decoded(vstd::utf8::encode_utf8(input@))),
{
    let b = input.as_bytes();
    let n: usize = b.len();
    let mut out: Vec<u8> = Vec::new();
    let mut i: usize = 0;
    assert(b@.subrange(0, n as int) =~= b@);
    assert(out@ + percent_decoded(b@) =~= percent_decoded(b@));
    while i < n
        invariant
            i <= n == b@.len(),
            out@ + percent_decoded(b@.subrange(i as int, n as int)) == percent_decoded(b@),
        decreases n - i,
    {
        let ghost rest = b@.subrange(i as int, n as int);
        let ghost before = out@;
        if b[i] == 37 {
            if n - i < 3 {
                assert(before + Seq::<u8>::empty() =~= before);
                i = n;
                assert(b@.subrange(i as int, n as int) =~= Seq::<u8>::empty());
            } else {
                if let (Some(h), Some(l)) = (hex_digit(b[i + 1]), hex_digit(b[i + 2])) {
                    out.push(h * 16 + l);
                }
                assert(rest.subrange(3, rest.len() as int) =~= b@.subrange(i + 3, n as int));
                i = i + 3;
            }
        } else {
            assert(rest.drop_first() =~= b@.subrange(i + 1, n as int));
            out.push(
                if b[i] == 43 {
                    32
                } else {
                    b[i]
                },
            );
            i = i + 1;
        }
        assert(out@ + percent_decoded(b@.subrange(i as int, n as int)) =~= before
            + percent_decoded(rest));
    }
    assert(out@ + percent_decoded(b@.subrange(i as int, n as int)) =~= out@);
    utf8_lossy(out.as_slice())
}

/// The command text that a C marker's parameter gives, if any.
pub fn parse_cmdline_url(param: &str) -> (r: Option<String>)
    ensures
        opt_text(r) == cmdline_of(Some(param@)),
{
    let chars = chars_of(param);
    let key = chars_of("cmdline_url=");
    if starts_with(chars.as_slice(), key.as_slice()) {
        let value = substring(chars.as_slice(), key.len(), chars.len());
        Some(percent_decode(value.as_str()))
    } else {
        None
    }
}

/// An optional string, empty where there is none.
fn string_or_empty(s: Option<String>) -> (r: String)
    ensures
        r@ == text_or_empty(opt_text(s)),
{
    match s {
        Some(t) => t,
        None => String::new(),
    }
}

impl Osc133Parser {
    /// A machine before any marker.
    pub fn new() -> (r: Self)
        ensures
            r@ == ParserModel::fresh(),
    {
        Self {
            phase: Osc133Phase::Idle,
            pending_command_text: None,
            pending_exit_code: None,
            pending_command: None,
            pending_output: None,
            capture: String::new(),
        }
    }

    /// Current phase.
    pub fn phase(&self) -> (r: &Osc133Phase)
        ensures
            r@ == self@.phase,
    {
        &self.phase
    }

    /// Terminal text captured since it was last cleared.
    pub fn capture(&self) -> (r: &str)
        ensures
            r@ == self@.capture,
    {
        self.capture.as_str()
    }

    /// Text of the command in execution, if any.
    pub fn executing_command(&self) -> (r: Option<&str>)
        ensures
            match r {
                Some(t) => self@.phase == PhaseModel::Executing(t@),
                None => !(self@.phase is Executing),
            },
    {
        match &self.phase {
            Osc133Phase::Executing { command } => Some(command.as_str()),
            _ => None,
        }
    }

    /// Handle a marker: an uppercase letter with its parameter (exit code for D,
    /// command text for E, `cmdline_url` for C).
    pub fn handle_marker(&mut self, marker: u8, param: Option<&str>, state: &mut PaneState)
        requires
            old(state)@.seq_counter + 2 <= u64::MAX,
            old(state)@.completion_seq < u64::MAX,
        ensures
            (final(self)@, final(state)@) == marker_step(
                old(self)@,
                old(state)@,
                marker,
                match param {
                    Some(t) => Some(t@),
                    None => None,
                },
            ),
            final(state)@.seq_counter <= old(state)@.seq_counter + 2,
            final(state)@.completion_seq <= old(state)@.completion_seq + 1,
    {
        state.last_osc133_marker = Some(state.now);
        if marker == 65 {
            self.handle_a(state);
        } else if marker == 66 {
            self.handle_b(state);
        } else if marker == 67 {
            self.handle_c(param);
        } else if marker == 68 {
            self.handle_d(param, state);
        } else if marker == 69 {
            self.handle_e(param);
        }
    }

    /// Append terminal text, whatever the phase.
    pub fn append_output(&mut self, text: &str)
        ensures
            final(self)@ == (ParserModel { capture: old(self)@.capture + text@, ..old(self)@ }),
    {
        self.capture.append(text);
    }

    /// Force a reset.
    pub fn reset(&mut self, state: &mut PaneState)
        requires
            old(state)@.seq_counter + 2 <= u64::MAX,
        ensures
            (final(self)@, final(state)@) == reset_step(old(self)@, old(state)@),
    {
        self.abandon_in_flight(state);
        self.phase = Osc133Phase::Idle;
        self.pending_command_text = None;
        self.pending_exit_code = None;
        self.pending_command = None;
        self.pending_output = None;
        self.capture = String::new();
        state.activity = Activity::Unknown;
    }

    /// Record the command in execution, if any, and take the capture with it.
    fn finish_executing(&mut self, state: &mut PaneState, exit_code: Option<i32>)
        requires
            old(state)@.seq_counter < u64::MAX,
        ensures
            final(state)@ == record_executing(old(self)@, old(state)@, exit_code),
            final(self)@ == (ParserModel {
                capture: if old(self)@.phase is Executing {
                    Seq::empty()
                } else {
                    old(self)@.capture
                },
                ..old(self)@
            }),
    {
        if let Osc133Phase::Executing { command } = &self.phase {
            let command = command.clone();
            let output = self.capture.clone();
            if !command.as_str().is_empty() || !output.as_str().is_empty() {
                state.push_command(command, output, exit_code);
            }
            self.capture = String::new();
        }
    }

    fn handle_a(&mut self, state: &mut PaneState)
        requires
            old(state)@.seq_counter < u64::MAX,
        ensures
            (final(self)@, final(state)@) == step_a(old(self)@, old(state)@),
    {
        self.finish_executing(state, None);
        self.phase = Osc133Phase::Prompt;
        self.pending_command_text = None;
        state.activity = Activity::Idle;
    }

    fn handle_b(&mut self, state: &mut PaneState)
        requires
            old(state)@.seq_counter + 2 <= u64::MAX,
        ensures
            (final(self)@, final(state)@) == step_b(old(self)@, old(state)@),
    {
        if self.pending_exit_code.is_some() || self.pending_command.is_some() {
            let command = string_or_empty(self.pending_command.take());
            let output = string_or_empty(self.pending_output.take());
            let exit_code = self.pending_exit_code.take();
            if !command.as_str().is_empty() || !output.as_str().is_empty() {
                state.push_command(command, output, exit_code);
            }
        }
        self.finish_executing(state, Some(1));
        self.phase = Osc133Phase::Input;
        self.capture = String::new();
        state.activity = Activity::Idle;
    }

    fn handle_c(&mut self, param: Option<&str>)
        ensures
            final(self)@ == step_c(
                old(self)@,
                match param {
                    Some(t) => Some(t@),
                    None => None,
                },
            ),
    {
        if let Osc133Phase::Executing { .. } = &self.phase {
            return ;
        }
        let given: Option<String> = match self.pending_command_text.take() {
            Some(t) => Some(t),
            None => match param {
                Some(p) => parse_cmdline_url(p),
                None => None,
            },
        };
        let command = match given {
            Some(t) => t,
            None => strip_escapes(self.capture.as_str()),
        };
        self.start_executing(command);
    }

    /// A command with that text starts to execute.
    pub fn start_executing(&mut self, command: String)
        ensures
            final(self)@ == (ParserModel {
                phase: PhaseModel::Executing(command@),
                text: None,
                capture: Seq::empty(),
                ..old(self)@
            }),
    {
        self.pending_command_text = None;
        self.capture = String::new();
        self.phase = Osc133Phase::Executing { command };
    }

    fn handle_d(&mut self, param: Option<&str>, state: &mut PaneState)
        requires
            old(state)@.completion_seq < u64::MAX,
        ensures
            (final(self)@, final(state)@) == step_d(
                old(self)@,
                old(state)@,
                match param {
                    Some(t) => Some(t@),
                    None => None,
                },
            ),
    {
        let exit_code = match param {
            Some(p) => parse_i32(p),
            None => None,
        };
        state.completion_seq = state.completion_seq + 1;
        state.last_exit_code = exit_code;
        let output = self.capture.clone();
        self.capture = String::new();
        let command: Option<String> = match &self.phase {
            Osc133Phase::Executing { command } => Some(command.clone()),
            Osc133Phase::Input => Some(string_or_empty(self.pending_command_text.take())),
            _ => None,
        };
        self.pending_command = command;
        self.pending_output = Some(output);
        self.pending_exit_code = exit_code;
        self.phase = Osc133Phase::Idle;
        state.activity = Activity::Idle;
    }

    fn handle_e(&mut self, param: Option<&str>)
        ensures
            final(self)@ == step_e(
                old(self)@,
                match param {
                    Some(t) => Some(t@),
                    None => None,
                },
            ),
    {
        let text = match param {
            Some(t) => t.to_owned(),
            None => {
                return ;
            },
        };
        if let Osc133Phase::Executing { .. } = &self.phase {
            self.phase = Osc133Phase::Executing { command: text };
        } else {
            self.pending_command_text = Some(text);
        }
    }

    /// Record what is in flight or pending, if there is anything to tell.
    fn abandon_in_flight(&mut self, state: &mut PaneState)
        requires
            old(state)@.seq_counter + 2 <= u64::MAX,
        ensures
            (StateModel { activity: Activity::Unknown, ..final(state)@ }) == reset_step(
                old(self)@,
                old(state)@,
            ).1,
    {
        self.finish_executing(state, None);
        if self.pending_command.is_some() || self.pending_exit_code.is_some() {
            let command = string_or_empty(self.pending_command.take());
            let output = string_or_empty(self.pending_output.take());
            let exit_code = self.pending_exit_code.take();
            let failed = match exit_code {
                Some(c) => c != 0,
                None => false,
            };
            if !command.as_str().is_empty() || !output.as_str().is_empty() || failed {
                state.push_command(command, output, exit_code);
            }
        }
    }
}

impl Default for Osc133Parser {
    fn default() -> (r: Self)
        ensures
            r@ == ParserModel::fresh(),
    {
        Self::new()
    }
}

/// The machine after terminal text came.
pub open spec fn with_output(p: ParserModel, text: Seq<char>) -> ParserModel {
    ParserModel { capture: p.capture + text, ..p }
}

/// A marker leaves the history bounded and newest first.
pub proof fn markers_keep_history(p: ParserModel, s: StateModel, marker: u8, param: Option<Seq<char>>)
    requires
        s.history_ordered(),
    ensures
        marker_step(p, s, marker, param).1.history_ordered(),
{
    let seen = StateModel { last_osc133_marker: Some(s.now as u64), ..s };
    assert(seen.history_ordered());
    completed_keeps_history(seen);
    let command = text_or_empty(p.command);
    let output = text_or_empty(p.output);
    let finalized = if p.has_pending() && (command.len() > 0 || output.len() > 0) {
        seen.completed(command, output, p.exit_code)
    } else {
        seen
    };
    completed_keeps_history(finalized);
    if marker == 65 {
        let after = record_executing(p, seen, None);
        assert(after.history_ordered());
    } else if marker == 66 {
        let after = record_executing(p, finalized, Some(1));
        assert(after.history_ordered());
    }
}

/// Recording a completed command keeps the history bounded and newest first.
proof fn completed_keeps_history(s: StateModel)
    requires
        s.history_ordered(),
    ensures
        forall|c: Seq<char>, o: Seq<char>, e: Option<i32>|
            (#[trigger] s.completed(c, o, e)).history_ordered(),
{
    assert forall|c: Seq<char>, o: Seq<char>, e: Option<i32>| (#[trigger] s.completed(
        c,
        o,
        e,
    )).history_ordered() by {
        super::state::recording_keeps_history(
            s,
            super::state::RecordModel {
                id: s.seq_counter + 1,
                command: c,
                output: o,
                exit_code: e,
                output_done: true,
                completed: true,
                read_cursor: 0,
                timestamp: s.now,
            },
        );
    }
}

/// Completion is counted by D markers and by nothing else.
pub proof fn only_d_counts_completion(
    p: ParserModel,
    s: StateModel,
    marker: u8,
    param: Option<Seq<char>>,
)
    ensures
        marker_step(p, s, marker, param).1.completion_seq == s.completion_seq + (if marker == 68 {
            1int
        } else {
            0int
        }),
{
}

/// From whatever state, a prompt (A, B) followed by a full cycle (E, C, output,
/// D, A, B) records exactly that command with its output and exit code: a
/// command lost before never spoils it.
pub proof fn full_cycle_records_command(
    p: ParserModel,
    before: StateModel,
    text: Seq<char>,
    output: Seq<char>,
    code: Option<Seq<char>>,
)
    requires
        text.len() > 0,
    ensures
        ({
            let (p1, s1) = marker_step(p, before, 65, None);
            let (p2, s2) = marker_step(p1, s1, 66, None);
            let (p3, s3) = marker_step(p2, s2, 69, Some(text));
            let (p4, s4) = marker_step(p3, s3, 67, None);
            let (p5, s5) = marker_step(with_output(p4, output), s4, 68, code);
            let (p6, s6) = marker_step(p5, s5, 65, None);
            let (p7, s7) = marker_step(p6, s6, 66, None);
            &&& s5.commands == s2.commands
            &&& s7.commands == s2.completed(
                text,
                output,
                match code {
                    Some(t) => parsed_i32(t),
                    None => None,
                },
            ).commands
            &&& s7.completion_seq == s2.completion_seq + 1
            &&& p7.phase is Input
        }),
{
    assert(Seq::<char>::empty() + output =~= output);
}

/// C while a command executes changes nothing, and A twice is A once.
pub proof fn duplicate_markers_are_harmless(p: ParserModel, s: StateModel, param: Option<Seq<char>>)
    requires
        p.phase is Executing,
    ensures
        marker_step(p, s, 67, param).0 == p,
        marker_step(marker_step(p, s, 65, None).0, marker_step(p, s, 65, None).1, 65, None)
            == marker_step(p, s, 65, None),
{
}

/// Where each marker leaves the machine: A at the prompt, B at the input, D at
/// rest, and C with a command in execution. E and unknown markers leave the phase
/// as it is, but for the text of a command in execution.
pub proof fn phases_follow_markers(
    p: ParserModel,
    s: StateModel,
    marker: u8,
    param: Option<Seq<char>>,
)
    ensures
        marker == 65 ==> marker_step(p, s, marker, param).0.phase is Prompt,
        marker == 66 ==> marker_step(p, s, marker, param).0.phase is Input,
        marker == 67 ==> marker_step(p, s, marker, param).0.phase is Executing,
        marker == 68 ==> marker_step(p, s, marker, param).0.phase is Idle,
        marker == 69 && !(p.phase is Executing) ==> marker_step(p, s, marker, param).0.phase
            == p.phase,
        marker == 69 && p.phase is Executing && param is Some ==> marker_step(
            p,
            s,
            marker,
            param,
        ).0.phase == PhaseModel::Executing(param->0),
        !(65 <= marker <= 69) ==> marker_step(p, s, marker, param).0 == p,
        marker_step(p, s, marker, param).1.last_osc133_marker == Some(s.now as u64),
{
}

/// The text of a command that starts is that of the E marker before it, or else
/// that of C's parameter, or else what was typed; and its output starts empty.
pub proof fn command_text_by_priority(p: ParserModel, s: StateModel, param: Option<Seq<char>>)
    requires
        !(p.phase is Executing),
    ensures
        p.text matches Some(t) ==> marker_step(p, s, 67, param).0.phase == PhaseModel::Executing(t),
        p.text is None && cmdline_of(param) is Some ==> marker_step(p, s, 67, param).0.phase
            == PhaseModel::Executing(cmdline_of(param)->0),
        p.text is None && cmdline_of(param) is None ==> marker_step(p, s, 67, param).0.phase
            == PhaseModel::Executing(visible_text(p.capture)),
        marker_step(p, s, 67, param).0.capture.len() == 0,
        marker_step(p, s, 67, param).1.commands == s.commands,
{
}

/// Whether a history begins with a finished command of that text, output and exit
/// code, and goes on as before.
pub open spec fn begins_with(
    now: StateModel,
    before: StateModel,
    command: Seq<char>,
    output: Seq<char>,
    exit_code: Option<i32>,
) -> bool {
    &&& now.commands.len() > 0
    &&& now.commands[0].command == command
    &&& now.commands[0].output == output
    &&& now.commands[0].exit_code == exit_code
    &&& now.commands[0].completed
    &&& now.commands[0].output_done
    &&& now.commands[0].read_cursor == 0
    &&& now.commands[0].id == before.seq_counter + 1
    &&& now.seq_counter == before.seq_counter + 1
    &&& now.commands.len() == (if before.commands.len() < 100 {
        before.commands.len() + 1
    } else {
        100
    })
    &&& forall|i: int|
        1 <= i < now.commands.len() ==> #[trigger] now.commands[i] == before.commands[i - 1]
}

/// A command whose D marker is followed by B is recorded with the output since C
/// and the exit code that D told, and nothing is recorded before B.
pub proof fn ended_command_is_recorded(
    p: ParserModel,
    s: StateModel,
    command: Seq<char>,
    code: Option<Seq<char>>,
    through_prompt: bool,
)
    requires
        p.phase == PhaseModel::Executing(command),
        command.len() > 0,
        s.history_ordered(),
    ensures
        ({
            let (p1, s1) = marker_step(p, s, 68, code);
            let (p2, s2) = if through_prompt {
                marker_step(p1, s1, 65, None)
            } else {
                (p1, s1)
            };
            let (p3, s3) = marker_step(p2, s2, 66, None);
            let exit_code = match code {
                Some(t) => parsed_i32(t),
                None => None,
            };
            &&& s1.commands == s.commands && s2.commands == s.commands
            &&& s1.last_exit_code == exit_code
            &&& s1.completion_seq == s.completion_seq + 1
            &&& begins_with(s3, s, command, p.capture, exit_code)
            &&& p3.exit_code is None && p3.command is None && p3.capture.len() == 0
        }),
{
    let (p1, s1) = marker_step(p, s, 68, code);
    let (p2, s2) = if through_prompt {
        marker_step(p1, s1, 65, None)
    } else {
        (p1, s1)
    };
    let (p3, s3) = marker_step(p2, s2, 66, None);
    assert(s2.commands == s.commands);
    let all = seq![s3.commands[0]] + s.commands;
    assert(s3.commands.len() > 0);
}

/// A command that never tells its end is recorded all the same: with no exit code
/// where the prompt comes back or the machine is reset, and with 1 where input is
/// open again at once.
pub proof fn abandoned_command_is_recorded(p: ParserModel, s: StateModel, command: Seq<char>)
    requires
        p.phase == PhaseModel::Executing(command),
        command.len() > 0,
        p.exit_code is None,
        p.command is None,
        s.history_ordered(),
    ensures
        begins_with(marker_step(p, s, 65, None).1, s, command, p.capture, None),
        begins_with(marker_step(p, s, 66, None).1, s, command, p.capture, Some(1)),
        begins_with(reset_step(p, s).1, s, command, p.capture, None),
        reset_step(p, s).0 == ParserModel::fresh(),
        reset_step(p, s).1.activity == Activity::Unknown,
{
}

/// What is captured is all terminal text since the last C, D or B, in order.
pub proof fn output_is_captured(p: ParserModel, s: StateModel, a: Seq<char>, b: Seq<char>)
    ensures
        with_output(with_output(p, a), b) == with_output(p, a + b),
        ({
            let (p1, _) = marker_step(with_output(p, a), s, 68, None);
            p1.output == Some(p.capture + a)
        }),
        marker_step(p, s, 66, None).0.capture.len() == 0,
        marker_step(p, s, 68, None).0.capture.len() == 0,
        !(p.phase is Executing) ==> marker_step(p, s, 65, None).0.capture == p.capture,
{
    assert(p.capture + a + b =~= p.capture + (a + b));
}

/// Bytes without a percent sign or a plus are read as they are, and a percent
/// sign with two hexadecimal digits as the byte that they write.
pub proof fn percent_escapes_are_read(front: Seq<u8>, h: u8, l: u8, rest: Seq<u8>)
    requires
        forall|i: int| 0 <= i < front.len() ==> #[trigger] front[i] != 37 && front[i] != 43,
        is_hex(h),
        is_hex(l),
    ensures
        percent_decoded(front) == front,
        percent_decoded(front + seq![37u8, h, l] + rest) == front + seq![
            (16 * hex_value(h) + hex_value(l)) as u8,
        ] + percent_decoded(rest),
        hex_value(48) == 0 && hex_value(57) == 9 && hex_value(65) == 10 && hex_value(70) == 15
            && hex_value(97) == 10 && hex_value(102) == 15,
    decreases front.len(),
{
    let all = front + seq![37u8, h, l] + rest;
    let byte = seq![(16 * hex_value(h) + hex_value(l)) as u8];
    if front.len() == 0 {
        assert(all.subrange(3, all.len() as int) =~= rest);
        assert(all[0] == 37 && all[1] == h && all[2] == l);
        assert(percent_decoded(all) =~= front + byte + percent_decoded(rest));
        assert(percent_decoded(front) =~= front);
    } else {
        let tail = front.drop_first();
        assert forall|i: int| 0 <= i < tail.len() implies #[trigger] tail[i] != 37 && tail[i] != 43 by {
            assert(front[i + 1] != 37);
        }
        percent_escapes_are_read(tail, h, l, rest);
        assert(front[0] != 37 && front[0] != 43);
        assert(all[0] == front[0]);
        assert(all.drop_first() =~= tail + seq![37u8, h, l] + rest);
        assert(seq![front[0]] + tail =~= front);
        assert(percent_decoded(all) =~= front + byte + percent_decoded(rest));
        assert(percent_decoded(front) =~= front);
    }
}

/// What is captured belongs to one command: where a command is cut short by a new
/// prompt, where input begins, where a command begins to run and where one ends,
/// capturing starts afresh.
pub proof fn capture_is_of_one_command(p: ParserModel, s: StateModel, param: Option<Seq<char>>)
    ensures
        p.phase is Executing ==> marker_step(p, s, 'A' as u8, param).0.capture.len() == 0,
        !(p.phase is Executing) ==> marker_step(p, s, 'A' as u8, param).0.capture == p.capture,
        marker_step(p, s, 'B' as u8, param).0.capture.len() == 0,
        !(p.phase is Executing) ==> marker_step(p, s, 'C' as u8, param).0.capture.len() == 0,
        marker_step(p, s, 'D' as u8, param).0.capture.len() == 0,
        marker_step(p, s, 'D' as u8, param).0.output == Some(p.capture),
        marker_step(p, s, 'E' as u8, param).0.capture == p.capture,
{
}

/// A reset records what was in flight, with its command and what it had put out, or
/// what had ended and was not recorded yet, with its exit code; it leaves nothing
/// in flight and the pane's activity unknown. Every marker is noted with its time.
pub proof fn reset_leaves_nothing_in_flight(
    p: ParserModel,
    s: StateModel,
    command: Seq<char>,
    marker: u8,
    param: Option<Seq<char>>,
)
    requires
        command.len() > 0,
    ensures
        reset_step(p, s).0 == ParserModel::fresh(),
        reset_step(p, s).1.activity is Unknown,
        p.phase == PhaseModel::Executing(command) && !p.has_pending() ==> {
            let r = reset_step(p, s).1.commands[0];
            r.command == command && r.output == p.capture && r.completed && r.exit_code is None
        },
        !(p.phase is Executing) && p.has_pending() && p.command == Some(command) ==> {
            let r = reset_step(p, s).1.commands[0];
            r.command == command && r.output == text_or_empty(p.output) && r.completed
                && r.exit_code == p.exit_code
        },
        !(p.phase is Executing) && !p.has_pending() ==> reset_step(p, s).1.commands == s.commands,
        marker_step(p, s, marker, param).1.last_osc133_marker == Some(s.now as u64),
{
}

} // verus!
