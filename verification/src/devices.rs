use vstd::prelude::*;

use crate::text::{
    chars_of, decimal, decimal_string, lemma_parse_decimal, parse_unsigned, parse_unsigned_chars, string_from_chars, trim,
    trim_chars,
};

verus! {

/// The step of the OSC output wizard.
#[derive(Clone, Copy, PartialEq, Eq, Structural, Debug)]
pub enum OscStep {
    Name,
    Ip,
    Port,
}

/// The step of the OSC input wizard.
#[derive(Clone, Copy, PartialEq, Eq, Structural, Debug)]
pub enum OscInputStep {
    Name,
    Port,
}

/// The device being created, with what was typed so far.
pub enum Creation {
    Idle,
    Midi { name: String },
    Osc { step: OscStep, name: String, ip: String, port: String },
    OscInput { step: OscInputStep, name: String, port: String },
}

/// The device field being edited, with the device's name and the typed text.
pub enum EditingField {
    Idle,
    Slot { device: String, buf: String },
    Latency { device: String, buf: String },
}

/// What the devices panel asks the server to do.
pub enum DeviceCommand {
    CreateVirtualMidi { name: String },
    CreateOsc { name: String, ip: String, port: u16 },
    CreateOscInput { name: String, port: u16 },
    AssignSlot { slot: usize, device: String },
    UnassignSlot { slot: usize },
}

/// The devices panel: the device list with its creation wizards and inline edits, and
/// when the device list was last asked for (in milliseconds of the window's clock).
pub struct DevicesPanel {
    pub open: bool,
    pub creation: Creation,
    pub editing: EditingField,
    pub last_device_poll: Option<u64>,
}

/// The device list is asked for again after two seconds.
pub const POLL_INTERVAL_MS: u64 = 2000;

/// Whether the device list is to be asked for at `now`: only while connected and with no
/// feedback pending, and then the first time or once the interval has passed.
pub open spec fn poll_due(last: Option<u64>, has_feedback: bool, connected: bool, now: u64) -> bool {
    &&& !has_feedback
    &&& connected
    &&& match last {
        None => true,
        Some(t) => now >= t && now - t >= POLL_INTERVAL_MS,
    }
}

/// Ports are 16-bit numbers.
pub open spec fn parse_port(s: Seq<char>) -> Option<nat> {
    parse_unsigned(trim(s), 65535)
}

impl DevicesPanel {
    /// A closed panel creating and editing nothing.
    pub fn new() -> (r: Self)
        ensures
            !r.open,
            r.creation is Idle,
            r.editing is Idle,
            r.last_device_poll is None,
    {
        DevicesPanel {
            open: false,
            creation: Creation::Idle,
            editing: EditingField::Idle,
            last_device_poll: None,
        }
    }

    /// Decides whether to ask the server for the device list at `now`; when it does, `now`
    /// is noted as the time of the last request.
    pub fn poll_devices_if_needed(&mut self, has_feedback: bool, connected: bool, now: u64) -> (r:
        bool)
        ensures
            r == poll_due(old(self).last_device_poll, has_feedback, connected, now),
            final(self).last_device_poll == (if r {
                Some(now)
            } else {
                old(self).last_device_poll
            }),
            final(self).open == old(self).open,
            final(self).creation == old(self).creation,
            final(self).editing == old(self).editing,
    {
        if has_feedback || !connected {
            return false;
        }
        let due = match self.last_device_poll {
            None => true,
            Some(last) => now >= last && now - last >= POLL_INTERVAL_MS,
        };
        if due {
            self.last_device_poll = Some(now);
        }
        due
    }

    /// Starts naming a new virtual MIDI device.
    pub fn start_midi_creation(&mut self)
        ensures
            final(self).creation matches Creation::Midi { name } && name@.len() == 0,
            final(self).open == old(self).open,
    {
        self.creation = Creation::Midi { name: String::new() };
    }

    /// Starts the OSC output wizard, on the local machine, port 9000.
    pub fn start_osc_creation(&mut self)
        ensures
            final(self).creation matches Creation::Osc { step, name, ip, port } && step
                == OscStep::Name && name@.len() == 0 && ip@ == "127.0.0.1"@ && port@ == "9000"@,
            final(self).open == old(self).open,
    {
        self.creation = Creation::Osc {
            step: OscStep::Name,
            name: String::new(),
            ip: String::from_str("127.0.0.1"),
            port: String::from_str("9000"),
        };
    }

    /// Starts the OSC input wizard, port 9000.
    pub fn start_osc_input_creation(&mut self)
        ensures
            final(self).creation matches Creation::OscInput { step, name, port } && step
                == OscInputStep::Name && name@.len() == 0 && port@ == "9000"@,
            final(self).open == old(self).open,
    {
        self.creation = Creation::OscInput {
            step: OscInputStep::Name,
            name: String::new(),
            port: String::from_str("9000"),
        };
    }

    /// Ends the virtual MIDI wizard: confirming creates a device named by the trimmed text
    /// (unless it is empty); either way the wizard closes. Nothing happens when neither is
    /// asked or no MIDI device is being created.
    pub fn finish_midi_creation(&mut self, commit: bool, cancel: bool) -> (r: Option<DeviceCommand>)
        ensures
            match old(self).creation {
                Creation::Midi { name } => if commit {
                    &&& final(self).creation is Idle
                    &&& if trim(name@).len() > 0 {
                        r matches Some(DeviceCommand::CreateVirtualMidi { name: n }) && n@ == trim(
                            name@,
                        )
                    } else {
                        r is None
                    }
                } else if cancel {
                    final(self).creation is Idle && r is None
                } else {
                    final(self).creation == old(self).creation && r is None
                },
                _ => final(self).creation == old(self).creation && r is None,
            },
            final(self).open == old(self).open,
    {
        let name = match &self.creation {
            Creation::Midi { name } => name,
            _ => return None,
        };
        if commit {
            let trimmed = trim_chars(&chars_of(name.as_str()));
            let r = if trimmed.len() > 0 {
                Some(DeviceCommand::CreateVirtualMidi { name: string_from_chars(&trimmed) })
            } else {
                None
            };
            self.creation = Creation::Idle;
            r
        } else {
            if cancel {
                self.creation = Creation::Idle;
            }
            None
        }
    }

    /// One step of the OSC output wizard: cancelling closes it; advancing goes from the name
    /// to the address to the port, and from the port creates the device when the port is a
    /// 16-bit number and the trimmed name and address are not empty, closing the wizard
    /// either way.
    pub fn step_osc_creation(&mut self, advance: bool, cancel: bool) -> (r: Option<DeviceCommand>)
        ensures
            final(self).open == old(self).open,
            match old(self).creation {
                Creation::Osc { step, name, ip, port } => if cancel {
                    final(self).creation is Idle && r is None
                } else if !advance {
                    final(self).creation == old(self).creation && r is None
                } else {
                    match step {
                        OscStep::Name => r is None && final(self).creation == (Creation::Osc {
                            step: OscStep::Ip,
                            name,
                            ip,
                            port,
                        }),
                        OscStep::Ip => r is None && final(self).creation == (Creation::Osc {
                            step: OscStep::Port,
                            name,
                            ip,
                            port,
                        }),
                        OscStep::Port => {
                            &&& final(self).creation is Idle
                            &&& if parse_port(port@) is Some && trim(name@).len() > 0 && trim(
                                ip@,
                            ).len() > 0 {
                                r matches Some(DeviceCommand::CreateOsc { name: n, ip: a, port: p })
                                    && n@ == trim(name@) && a@ == trim(ip@) && p == parse_port(
                                    port@,
                                )->0
                            } else {
                                r is None
                            }
                        },
                    }
                },
                _ => final(self).creation == old(self).creation && r is None,
            },
    {
        if !matches!(self.creation, Creation::Osc { .. }) {
            return None;
        }
        if cancel {
            self.creation = Creation::Idle;
            return None;
        }
        if !advance {
            return None;
        }
        let mut creation = Creation::Idle;
        std::mem::swap(&mut creation, &mut self.creation);
        match creation {
            Creation::Osc { step, name, ip, port } => match step {
                OscStep::Name => {
                    self.creation = Creation::Osc { step: OscStep::Ip, name, ip, port };
                    None
                },
                OscStep::Ip => {
                    self.creation = Creation::Osc { step: OscStep::Port, name, ip, port };
                    None
                },
                OscStep::Port => {
                    let n = trim_chars(&chars_of(name.as_str()));
                    let a = trim_chars(&chars_of(ip.as_str()));
                    let p = parse_unsigned_chars(&trim_chars(&chars_of(port.as_str())), 65535);
                    match p {
                        Some(p) => {
                            if n.len() > 0 && a.len() > 0 {
                                Some(
                                    DeviceCommand::CreateOsc {
                                        name: string_from_chars(&n),
                                        ip: string_from_chars(&a),
                                        port: p as u16,
                                    },
                                )
                            } else {
                                None
                            }
                        },
                        None => None,
                    }
                },
            },
            _ => None,
        }
    }

    /// One step of the OSC input wizard: cancelling closes it; advancing goes from the name
    /// to the port, and from the port creates the device when the port is a 16-bit number
    /// and the trimmed name is not empty, closing the wizard either way.
    pub fn step_osc_input_creation(&mut self, advance: bool, cancel: bool) -> (r: Option<
        DeviceCommand,
    >)
        ensures
            final(self).open == old(self).open,
            match old(self).creation {
                Creation::OscInput { step, name, port } => if cancel {
                    final(self).creation is Idle && r is None
                } else if !advance {
                    final(self).creation == old(self).creation && r is None
                } else {
                    match step {
                        OscInputStep::Name => r is None && final(self).creation == (
                        Creation::OscInput { step: OscInputStep::Port, name, port }),
                        OscInputStep::Port => {
                            &&& final(self).creation is Idle
                            &&& if parse_port(port@) is Some && trim(name@).len() > 0 {
                                r matches Some(DeviceCommand::CreateOscInput { name: n, port: p })
                                    && n@ == trim(name@) && p == parse_port(port@)->0
                            } else {
                                r is None
                            }
                        },
                    }
                },
                _ => final(self).creation == old(self).creation && r is None,
            },
    {
        if !matches!(self.creation, Creation::OscInput { .. }) {
            return None;
        }
        if cancel {
            self.creation = Creation::Idle;
            return None;
        }
        if !advance {
            return None;
        }
        let mut creation = Creation::Idle;
        std::mem::swap(&mut creation, &mut self.creation);
        match creation {
            Creation::OscInput { step, name, port } => match step {
                OscInputStep::Name => {
                    self.creation = Creation::OscInput { step: OscInputStep::Port, name, port };
                    None
                },
                OscInputStep::Port => {
                    let n = trim_chars(&chars_of(name.as_str()));
                    let p = parse_unsigned_chars(&trim_chars(&chars_of(port.as_str())), 65535);
                    match p {
                        Some(p) => {
                            if n.len() > 0 {
                                Some(
                                    DeviceCommand::CreateOscInput {
                                        name: string_from_chars(&n),
                                        port: p as u16,
                                    },
                                )
                            } else {
                                None
                            }
                        },
                        None => None,
                    }
                },
            },
            _ => None,
        }
    }
}


/// The slot a typed slot text asks for: a number from 1 to 16.
pub open spec fn requested_slot(buf: Seq<char>) -> Option<nat> {
    match parse_unsigned(trim(buf), usize::MAX as nat) {
        Some(n) => if 1 <= n <= 16 {
            Some(n)
        } else {
            None
        },
        None => None,
    }
}

/// `cmds` are what committing the slot text `buf` for `device`, now on slot `current`,
/// sends: an empty text frees its slot; a slot from 1 to 16 frees its other slot and
/// assigns the new one; anything else sends nothing.
pub open spec fn slot_commit(
    buf: Seq<char>,
    current: Option<usize>,
    device: Seq<char>,
    cmds: Seq<DeviceCommand>,
) -> bool {
    if trim(buf).len() == 0 {
        match current {
            Some(s) => cmds.len() == 1 && cmds[0] == (DeviceCommand::UnassignSlot { slot: s }),
            None => cmds.len() == 0,
        }
    } else {
        match requested_slot(buf) {
            Some(n) => {
                let frees = current matches Some(s) && s != n;
                &&& cmds.len() == if frees {
                    2int
                } else {
                    1int
                }
                &&& frees ==> cmds[0] == (DeviceCommand::UnassignSlot { slot: current->0 })
                &&& cmds.last() matches DeviceCommand::AssignSlot { slot, device: d } && slot == n
                    && d@ == device
            },
            None => cmds.len() == 0,
        }
    }
}

impl DevicesPanel {
    /// Starts editing the slot of `device`, from its current slot's number (or nothing).
    pub fn begin_slot_edit(&mut self, device: String, slot: Option<usize>)
        ensures
            final(self).editing matches EditingField::Slot { device: d, buf } && d@ == device@
                && buf@ == match slot {
                Some(n) => decimal(n as nat),
                None => Seq::empty(),
            },
            final(self).open == old(self).open,
    {
        let buf = match slot {
            Some(n) => decimal_string(n),
            None => String::new(),
        };
        self.editing = EditingField::Slot { device, buf };
    }

    /// Starts editing the latency of `device`, from `text`.
    pub fn begin_latency_edit(&mut self, device: String, text: String)
        ensures
            final(self).editing matches EditingField::Latency { device: d, buf } && d@ == device@
                && buf@ == text@,
            final(self).open == old(self).open,
    {
        self.editing = EditingField::Latency { device, buf: text };
    }

    /// Drops the edit in progress.
    pub fn cancel_edit(&mut self)
        ensures
            final(self).editing is Idle,
            final(self).open == old(self).open,
    {
        self.editing = EditingField::Idle;
    }

    /// Commits the slot edit of `device`, now on slot `current` (see [`slot_commit`]), and
    /// ends it. Without a slot edit in progress nothing happens.
    pub fn commit_slot_edit(&mut self, device: &String, current: Option<usize>) -> (r: Vec<
        DeviceCommand,
    >)
        ensures
            final(self).open == old(self).open,
            match old(self).editing {
                EditingField::Slot { buf, .. } => final(self).editing is Idle && slot_commit(
                    buf@,
                    current,
                    device@,
                    r@,
                ),
                _ => final(self).editing == old(self).editing && r@.len() == 0,
            },
    {
        let mut out: Vec<DeviceCommand> = Vec::new();
        let val = match &self.editing {
            EditingField::Slot { buf, .. } => trim_chars(&chars_of(buf.as_str())),
            _ => return out,
        };
        if val.len() == 0 {
            if let Some(s) = current {
                out.push(DeviceCommand::UnassignSlot { slot: s });
            }
        } else {
            match parse_unsigned_chars(&val, usize::MAX) {
                Some(slot) => {
                    if 1 <= slot && slot <= 16 {
                        if let Some(old_slot) = current {
                            if old_slot != slot {
                                out.push(DeviceCommand::UnassignSlot { slot: old_slot });
                            }
                        }
                        out.push(DeviceCommand::AssignSlot { slot, device: device.clone() });
                    }
                },
                None => {},
            }
        }
        self.editing = EditingField::Idle;
        out
    }
}


/// Confirming a slot edit left as it was opened keeps the device on its slot: only the
/// assignment of that same slot is sent, and nothing is freed.
pub proof fn lemma_slot_edit_unchanged(n: usize, device: Seq<char>, cmds: Seq<DeviceCommand>)
    requires
        1 <= n <= 16,
        slot_commit(decimal(n as nat), Some(n), device, cmds),
    ensures
        cmds.len() == 1,
        cmds[0] matches DeviceCommand::AssignSlot { slot, device: d } && slot == n && d@ == device,
{
    lemma_parse_decimal(n as nat, usize::MAX as nat);
}

} // verus!
