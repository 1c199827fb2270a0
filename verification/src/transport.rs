use vstd::prelude::*;

use crate::text::{chars_of, parse_unsigned, parse_unsigned_chars};

verus! {

/// What the transport bar asks of the rest of the window.
#[derive(Clone, Copy, PartialEq, Eq, Structural, Debug)]
pub enum TransportAction {
    /// Silence every output at once.
    Panic,
}

/// The transport field being edited, with the typed text and whether the text field is to
/// take the focus.
pub enum TransportEditing {
    Idle,
    Tempo { buf: String, request_focus: bool },
    Quantum { buf: String, request_focus: bool },
}

/// The transport bar: play/stop, tempo, quantum and the phase ring. (Reading the typed
/// tempo, a floating-point number, is left to the window code.)
pub struct TransportBar {
    pub editing: TransportEditing,
    pub show_phase_bar: bool,
}

/// The quantum a typed text sets: the text read as a 32-bit unsigned number, held between 1
/// and 16; none when the text is not such a number.
pub open spec fn quantum_of(text: Seq<char>) -> Option<nat> {
    match parse_unsigned(text, 0xffff_ffff) {
        Some(q) => Some(
            if q < 1 {
                1
            } else if q > 16 {
                16
            } else {
                q
            },
        ),
        None => None,
    }
}

impl TransportBar {
    /// A bar editing nothing, with the phase bar shown.
    pub fn new() -> (r: Self)
        ensures
            r.editing is Idle,
            r.show_phase_bar,
    {
        TransportBar { editing: TransportEditing::Idle, show_phase_bar: true }
    }

    /// Starts editing the tempo from `text`, asking for the focus.
    pub fn begin_tempo_edit(&mut self, text: String)
        ensures
            final(self).editing matches TransportEditing::Tempo { buf, request_focus } && buf@
                == text@ && request_focus,
            final(self).show_phase_bar == old(self).show_phase_bar,
    {
        self.editing = TransportEditing::Tempo { buf: text, request_focus: true };
    }

    /// Starts editing the quantum from `text`, asking for the focus.
    pub fn begin_quantum_edit(&mut self, text: String)
        ensures
            final(self).editing matches TransportEditing::Quantum { buf, request_focus } && buf@
                == text@ && request_focus,
            final(self).show_phase_bar == old(self).show_phase_bar,
    {
        self.editing = TransportEditing::Quantum { buf: text, request_focus: true };
    }

    /// The focus request of the field being edited was served.
    pub fn focus_requested(&mut self)
        ensures
            final(self).show_phase_bar == old(self).show_phase_bar,
            match old(self).editing {
                TransportEditing::Tempo { buf, .. } => final(self).editing == (TransportEditing::Tempo {
                    buf,
                    request_focus: false,
                }),
                TransportEditing::Quantum { buf, .. } => final(self).editing == (
                TransportEditing::Quantum { buf, request_focus: false }),
                TransportEditing::Idle => final(self).editing is Idle,
            },
    {
        match &mut self.editing {
            TransportEditing::Tempo { request_focus, .. } => *request_focus = false,
            TransportEditing::Quantum { request_focus, .. } => *request_focus = false,
            TransportEditing::Idle => {},
        }
    }

    /// The quantum field lost the focus: the edit ends, and when Enter was pressed on a
    /// readable number the quantum to set is returned (see [`quantum_of`]). Outside a
    /// quantum edit nothing happens.
    pub fn commit_quantum_edit(&mut self, enter: bool) -> (r: Option<u32>)
        ensures
            final(self).show_phase_bar == old(self).show_phase_bar,
            match old(self).editing {
                TransportEditing::Quantum { buf, .. } => {
                    &&& final(self).editing is Idle
                    &&& match (if enter { quantum_of(buf@) } else { None }) {
                        Some(q) => r == Some(q as u32),
                        None => r is None,
                    }
                },
                _ => final(self).editing == old(self).editing && r is None,
            },
    {
        let q = match &self.editing {
            TransportEditing::Quantum { buf, .. } => if enter {
                parse_unsigned_chars(&chars_of(buf.as_str()), 0xffff_ffff)
            } else {
                None
            },
            _ => return None,
        };
        self.editing = TransportEditing::Idle;
        match q {
            Some(v) => Some(
                if v < 1 {
                    1
                } else if v > 16 {
                    16
                } else {
                    v as u32
                },
            ),
            None => None,
        }
    }

    /// Ends the edit in progress.
    pub fn end_edit(&mut self)
        ensures
            final(self).editing is Idle,
            final(self).show_phase_bar == old(self).show_phase_bar,
    {
        self.editing = TransportEditing::Idle;
    }
}

} // verus!
