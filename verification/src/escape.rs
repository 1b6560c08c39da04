//! Escape sequences in the input of an interactive session.

use vstd::prelude::*;

verus! {

/// Where the input stands.
#[derive(Clone, Copy, PartialEq, Eq, Structural, Debug)]
pub enum InputState {
    /// At the start of a line.
    LineStart,
    /// Within a line.
    InLine,
    /// Behind an escape character at the start of a line.
    Escaped,
}

/// What is done with a byte of input.
pub enum InputAction {
    /// These bytes are sent.
    Send(Vec<u8>),
    /// Nothing yet.
    Hold,
    /// The session ends.
    Disconnect,
    /// The escape sequences are explained.
    Help,
}

/// What is done with a byte of input, over sequences.
pub enum InputActionModel {
    Send(Seq<u8>),
    Hold,
    Disconnect,
    Help,
}

impl View for InputAction {
    type V = InputActionModel;

    open spec fn view(&self) -> InputActionModel {
        match self {
            InputAction::Send(b) => InputActionModel::Send(b@),
            InputAction::Hold => InputActionModel::Hold,
            InputAction::Disconnect => InputActionModel::Disconnect,
            InputAction::Help => InputActionModel::Help,
        }
    }
}

/// The input of a session on its way to the remote side.
#[derive(Clone, Copy, PartialEq, Eq, Structural, Debug)]
pub struct EscapeFilter {
    /// The escape character, if there is one.
    pub escape: Option<u8>,
    pub state: InputState,
}

/// What is shown where the escape sequences are explained.
pub fn escape_help() -> (r: String)
    ensures
        r@
            == "Supported escape sequences:\r\n  .  terminate connection\r\n  ?  this message\r\n"@,
{
    "Supported escape sequences:\r\n  .  terminate connection\r\n  ?  this message\r\n".to_owned()
}

/// Whether a byte ends a line.
pub open spec fn ends_line(b: u8) -> bool {
    b == 0x0a || b == 0x0d
}

impl EscapeFilter {
    /// The state once a byte was sent.
    pub open spec fn sent(self, b: u8) -> EscapeFilter {
        EscapeFilter {
            state: if ends_line(b) {
                InputState::LineStart
            } else {
                InputState::InLine
            },
            ..self
        }
    }

    /// State and action for a byte. At the start of a line the escape
    /// character is held back. After it `.` disconnects, `?` explains, the
    /// escape character itself is sent once, and anything else is sent
    /// together with it.
    pub open spec fn next(self, b: u8) -> (EscapeFilter, InputActionModel) {
        match self.escape {
            None => (self.sent(b), InputActionModel::Send(seq![b])),
            Some(e) => match self.state {
                InputState::Escaped => if b == 0x2e {
                    (
                        EscapeFilter { state: InputState::LineStart, ..self },
                        InputActionModel::Disconnect,
                    )
                } else if b == 0x3f {
                    (EscapeFilter { state: InputState::LineStart, ..self }, InputActionModel::Help)
                } else if b == e {
                    (self.sent(b), InputActionModel::Send(seq![e]))
                } else {
                    (self.sent(b), InputActionModel::Send(seq![e, b]))
                },
                InputState::LineStart => if b == e {
                    (EscapeFilter { state: InputState::Escaped, ..self }, InputActionModel::Hold)
                } else {
                    (self.sent(b), InputActionModel::Send(seq![b]))
                },
                InputState::InLine => (self.sent(b), InputActionModel::Send(seq![b])),
            },
        }
    }

    /// A filter at the start of a session. Without a terminal on the remote
    /// side, or where the input is not typed at one, there are no escape
    /// sequences.
    pub open spec fn fresh(escape: Option<u8>, pty: bool, typed: bool) -> EscapeFilter {
        EscapeFilter {
            escape: if pty && typed {
                escape
            } else {
                None
            },
            state: InputState::LineStart,
        }
    }

    /// A filter at the start of a session; see [`Self::fresh`].
    pub fn new(escape: Option<u8>, pty: bool, typed: bool) -> (r: Self)
        ensures
            r == Self::fresh(escape, pty, typed),
            r.escape == (if pty && typed {
                escape
            } else {
                None
            }),
            r.state == InputState::LineStart,
    {
        EscapeFilter {
            escape: if pty && typed {
                escape
            } else {
                None
            },
            state: InputState::LineStart,
        }
    }

    fn pass(&mut self, b: u8)
        ensures
            *final(self) == old(self).sent(b),
    {
        self.state = if b == 0x0a || b == 0x0d {
            InputState::LineStart
        } else {
            InputState::InLine
        };
    }

    /// Takes one byte of input.
    pub fn step(&mut self, b: u8) -> (r: InputAction)
        ensures
            (*final(self), r@) == old(self).next(b),
    {
        let e: u8 = match self.escape {
            None => {
                self.pass(b);
                let out: Vec<u8> = vec![b];
                assert(out@ =~= seq![b]);
                return InputAction::Send(out);
            },
            Some(e) => e,
        };
        match self.state {
            InputState::Escaped => {
                if b == 0x2e {
                    self.state = InputState::LineStart;
                    InputAction::Disconnect
                } else if b == 0x3f {
                    self.state = InputState::LineStart;
                    InputAction::Help
                } else if b == e {
                    self.pass(b);
                    let out: Vec<u8> = vec![e];
                    assert(out@ =~= seq![e]);
                    InputAction::Send(out)
                } else {
                    self.pass(b);
                    let out: Vec<u8> = vec![e, b];
                    assert(out@ =~= seq![e, b]);
                    InputAction::Send(out)
                }
            },
            InputState::LineStart => {
                if b == e {
                    self.state = InputState::Escaped;
                    InputAction::Hold
                } else {
                    self.pass(b);
                    let out: Vec<u8> = vec![b];
                    assert(out@ =~= seq![b]);
                    InputAction::Send(out)
                }
            },
            InputState::InLine => {
                self.pass(b);
                let out: Vec<u8> = vec![b];
                assert(out@ =~= seq![b]);
                InputAction::Send(out)
            },
        }
    }
}

// ---------------------------------------------------------------------
// Laws
// ---------------------------------------------------------------------

/// The bytes sent for a run of input, up to a disconnect.
pub open spec fn sent_bytes(f: EscapeFilter, input: Seq<u8>) -> Seq<u8>
    decreases input.len(),
{
    if input.len() == 0 {
        Seq::empty()
    } else {
        let (next, action) = f.next(input[0]);
        match action {
            InputActionModel::Send(b) => b + sent_bytes(next, input.skip(1)),
            InputActionModel::Disconnect => Seq::empty(),
            _ => sent_bytes(next, input.skip(1)),
        }
    }
}

/// Without an escape character every byte is sent as it is.
pub proof fn no_escape_sends_everything(f: EscapeFilter, input: Seq<u8>)
    requires
        f.escape is None,
    ensures
        sent_bytes(f, input) == input,
    decreases input.len(),
{
    if input.len() > 0 {
        no_escape_sends_everything(f.next(input[0]).0, input.skip(1));
        assert(seq![input[0]] + input.skip(1) =~= input);
    }
}

/// A session is disconnected, or the sequences explained, only behind an
/// escape character that stood at the start of a line.
pub proof fn escapes_need_a_line_start(f: EscapeFilter, b: u8)
    ensures
        f.next(b).1 is Disconnect || f.next(b).1 is Help ==> f.state == InputState::Escaped
            && f.escape is Some,
        f.next(b).0.state == InputState::Escaped ==> f.state == InputState::LineStart && f.escape
            == Some(b),
{
}

/// At the start of a line the escape character and a dot end the session, and
/// the escape character and a question mark explain the sequences; nothing of
/// either is sent.
pub proof fn escape_sequences_act(e: u8)
    ensures
        ({
            let start = EscapeFilter { escape: Some(e), state: InputState::LineStart };
            let (held, action) = start.next(e);
            &&& action is Hold
            &&& held.next(0x2e).1 is Disconnect
            &&& held.next(0x3f).1 is Help
            &&& held.next(0x3f).0 == start
        }),
{
}

/// The escape character twice at the start of a line sends it once; with any
/// other byte behind it, both are sent. Within a line it is a byte like others.
pub proof fn other_input_is_sent(e: u8, b: u8, f: EscapeFilter)
    requires
        b != e,
        b != 0x2e,
        b != 0x3f,
        e != 0x2e,
        e != 0x3f,
        f.escape == Some(e),
    ensures
        f.state == InputState::LineStart ==> f.next(e).0.next(e).1 == InputActionModel::Send(
            seq![e],
        ),
        f.state == InputState::LineStart ==> f.next(e).0.next(b).1 == InputActionModel::Send(
            seq![e, b],
        ),
        f.state == InputState::LineStart ==> f.next(b).1 == InputActionModel::Send(seq![b]),
        f.state == InputState::InLine ==> f.next(e).1 == InputActionModel::Send(seq![e]),
        f.state == InputState::InLine ==> f.next(b).1 == InputActionModel::Send(seq![b]),
{
}

/// A line begins behind a carriage return or a line feed, and nowhere else once
/// something was sent; the escape character itself never changes.
pub proof fn lines_begin_behind_line_ends(f: EscapeFilter, b: u8)
    ensures
        f.next(b).0.escape == f.escape,
        f.next(b).1 is Send ==> (f.next(b).0.state == InputState::LineStart <==> b == 0x0a || b
            == 0x0d),
        f.next(b).1 is Send ==> f.next(b).0.state != InputState::Escaped,
{
}

/// Escape sequences are looked for just where there is a terminal at either end,
/// and from the first byte on; else every byte is sent as it is.
pub proof fn terminals_have_escapes(e: u8, pty: bool, typed: bool, input: Seq<u8>)
    ensures
        EscapeFilter::fresh(Some(e), true, true).next(e).1 is Hold,
        EscapeFilter::fresh(Some(e), true, true).next(e).0.next(0x2e).1 is Disconnect,
        !pty || !typed ==> sent_bytes(EscapeFilter::fresh(Some(e), pty, typed), input) == input,
        sent_bytes(EscapeFilter::fresh(None, pty, typed), input) == input,
{
    no_escape_sends_everything(EscapeFilter::fresh(None, pty, typed), input);
    if !pty || !typed {
        no_escape_sends_everything(EscapeFilter::fresh(Some(e), pty, typed), input);
    }
}

} // verus!
