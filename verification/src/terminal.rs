//! What the library knows of a session's terminal, and what it tells the terminal to do. The
//! screen itself is kept elsewhere.
use vstd::prelude::*;

verus! {

/// Something the terminal is told to do.
pub enum TermOp {
    /// Swallow the echo of this text.
    ExpectEcho(String),
    /// Capture output until this prefix and an exit code are printed.
    ArmMarker(String),
    /// Capture output until the shell itself reports the exit code.
    ArmIntegration,
    /// Stop capturing.
    CancelCapture,
    /// Count this text as typed on the current line.
    InputLine(String),
}

/// A [`TermOp`] with its strings as characters.
pub enum TermOpView {
    ExpectEcho(Seq<char>),
    ArmMarker(Seq<char>),
    ArmIntegration,
    CancelCapture,
    InputLine(Seq<char>),
}

impl View for TermOp {
    type V = TermOpView;

    open spec fn view(&self) -> TermOpView {
        match *self {
            TermOp::ExpectEcho(t) => TermOpView::ExpectEcho(t@),
            TermOp::ArmMarker(t) => TermOpView::ArmMarker(t@),
            TermOp::ArmIntegration => TermOpView::ArmIntegration,
            TermOp::CancelCapture => TermOpView::CancelCapture,
            TermOp::InputLine(t) => TermOpView::InputLine(t@),
        }
    }
}

/// A terminal as it was at the start of the frame, and what it was told since.
pub struct Terminal {
    /// Whether the shell reports the start and the end of commands by itself.
    pub integration: bool,
    /// Whether output is being captured for an agent.
    pub capturing: bool,
    /// What was captured so far.
    pub captured: Option<String>,
    /// The exit code and the output of a capture that is complete.
    pub done: Option<(i32, String)>,
    /// The working directory that the shell reported.
    pub cwd: Option<String>,
    /// Whether something runs in the foreground.
    pub busy: bool,
    /// For how long nothing was printed, in milliseconds.
    pub output_idle_ms: u64,
    /// For how long nothing was typed, in milliseconds.
    pub input_idle_ms: u64,
    /// What the terminal was told, in order.
    pub ops: Vec<TermOp>,
}

/// What a terminal was told, with strings as characters.
pub open spec fn op_views(v: Seq<TermOp>) -> Seq<TermOpView> {
    Seq::new(v.len(), |i: int| v[i]@)
}

impl Terminal {
    pub open spec fn log(self) -> Seq<TermOpView> {
        op_views(self.ops@)
    }

    /// A terminal in which nothing has happened.
    pub fn new() -> (r: Terminal)
        ensures
            !r.integration && !r.capturing && !r.busy,
            r.captured is None && r.done is None && r.cwd is None,
            r.output_idle_ms == 0 && r.input_idle_ms == 0,
            r.ops@.len() == 0,
    {
        Terminal {
            integration: false,
            capturing: false,
            captured: None,
            done: None,
            cwd: None,
            busy: false,
            output_idle_ms: 0,
            input_idle_ms: 0,
            ops: Vec::new(),
        }
    }

    /// This terminal after it was told one thing more.
    pub open spec fn told(self, before: Terminal, op: TermOpView) -> bool {
        &&& self.log() == before.log().push(op)
        &&& self == (Terminal { ops: self.ops, ..before })
    }

    /// Tells the terminal one thing.
    pub fn tell(&mut self, op: TermOp)
        ensures
            final(self).told(*old(self), op@),
    {
        self.ops.push(op);
        assert(op_views(self.ops@) =~= op_views(old(self).ops@).push(op@));
    }

    /// This terminal after its capture was cancelled.
    pub open spec fn cancelled(self, before: Terminal) -> bool {
        &&& self.log() == before.log().push(TermOpView::CancelCapture)
        &&& !self.capturing
        &&& self.captured is None
        &&& self.done is None
        &&& self == (Terminal {
            capturing: false,
            captured: None,
            done: None,
            ops: self.ops,
            ..before
        })
    }

    /// Stops capturing and drops what was captured.
    pub fn cancel_ai_capture(&mut self)
        ensures
            final(self).cancelled(*old(self)),
    {
        self.tell(TermOp::CancelCapture);
        self.capturing = false;
        self.captured = None;
        self.done = None;
    }

    /// This terminal after it was set to capture until a marker is printed: the echo of the typed
    /// marker line is swallowed.
    pub open spec fn armed_marker(self, before: Terminal, typed: Seq<char>, prefix: Seq<char>) -> bool {
        &&& self.log() == before.log().push(TermOpView::ExpectEcho(typed)).push(
            TermOpView::ArmMarker(prefix),
        )
        &&& self == (Terminal { capturing: true, ops: self.ops, ..before })
    }

    /// Captures until a marker is printed.
    pub fn arm_ai_capture(&mut self, typed: String, prefix: String)
        ensures
            final(self).armed_marker(*old(self), typed@, prefix@),
    {
        self.tell(TermOp::ExpectEcho(typed));
        self.tell(TermOp::ArmMarker(prefix));
        self.capturing = true;
    }

    /// This terminal after it was set to capture until the shell reports the end.
    pub open spec fn armed_integration(self, before: Terminal) -> bool {
        &&& self.log() == before.log().push(TermOpView::ArmIntegration)
        &&& self == (Terminal { capturing: true, ops: self.ops, ..before })
    }

    /// Captures until the shell reports the end.
    pub fn arm_ai_capture_integration(&mut self)
        ensures
            final(self).armed_integration(*old(self)),
    {
        self.tell(TermOp::ArmIntegration);
        self.capturing = true;
    }
}

} // verus!
