use vstd::prelude::*;

use crate::settings::ServerSettings;
use crate::text::{chars_of, parse_unsigned, parse_unsigned_chars};

verus! {

/// What the server controls ask for.
#[derive(Clone, Copy, PartialEq, Eq, Structural, Debug)]
pub enum ServerAction {
    Idle,
    Start,
    Stop,
}

/// What the rest of the window is told of the embedded server.
pub struct ServerInfo {
    pub running: bool,
    pub address: String,
}

/// Why the embedded server is not running.
#[derive(Clone, Copy, PartialEq, Eq, Structural, Debug)]
pub enum ServerError {
    /// The port is not a 16-bit number.
    InvalidPort,
    /// The server stopped by itself.
    UnexpectedStop,
}

/// The state of the embedded server.
#[derive(Clone, Copy, PartialEq, Eq, Structural, Debug)]
pub enum ServerStatus {
    Stopped,
    Running,
    Error(ServerError),
}

/// The embedded server's address fields and status (its tasks and threads live with the
/// window code).
pub struct ServerConfig {
    pub ip: String,
    pub port: String,
    pub password: String,
    pub status: ServerStatus,
}

impl ServerConfig {
    /// A stopped server at the stored address, without a password.
    pub fn new(settings: ServerSettings) -> (r: Self)
        ensures
            r.ip@ == settings.ip@,
            r.port@ == settings.port@,
            r.password@.len() == 0,
            r.status == ServerStatus::Stopped,
    {
        ServerConfig {
            ip: settings.ip,
            port: settings.port,
            password: String::new(),
            status: ServerStatus::Stopped,
        }
    }

    /// The address to store.
    pub fn settings(&self) -> (r: ServerSettings)
        ensures
            r.ip@ == self.ip@,
            r.port@ == self.port@,
    {
        ServerSettings { ip: self.ip.clone(), port: self.port.clone() }
    }

    /// Whether the server runs, and its address as `ip:port`.
    pub fn info(&self) -> (r: ServerInfo)
        ensures
            r.running == (self.status == ServerStatus::Running),
            r.address@ == self.ip@ + ":"@ + self.port@,
    {
        let address = self.ip.clone().concat(":").concat(self.port.as_str());
        ServerInfo { running: self.is_running(), address }
    }

    pub fn is_running(&self) -> (r: bool)
        ensures
            r == (self.status == ServerStatus::Running),
    {
        match self.status {
            ServerStatus::Running => true,
            _ => false,
        }
    }

    /// The port to start the server on, when the port field is a 16-bit number; otherwise
    /// the status says so and nothing starts.
    pub fn start_port(&mut self) -> (r: Option<u16>)
        ensures
            match parse_unsigned(old(self).port@, 65535) {
                Some(p) => r == Some(p as u16) && final(self).status == old(self).status,
                None => r is None && final(self).status == ServerStatus::Error(
                    ServerError::InvalidPort,
                ),
            },
            final(self).ip == old(self).ip,
            final(self).port == old(self).port,
            final(self).password == old(self).password,
    {
        match parse_unsigned_chars(&chars_of(self.port.as_str()), 65535) {
            Some(p) => Some(p as u16),
            None => {
                self.status = ServerStatus::Error(ServerError::InvalidPort);
                None
            },
        }
    }

    /// The password the server is started with: none when the field is empty.
    pub fn start_password(&self) -> (r: Option<String>)
        ensures
            match r {
                Some(p) => self.password@.len() > 0 && p@ == self.password@,
                None => self.password@.len() == 0,
            },
    {
        if self.password.as_str().is_empty() {
            None
        } else {
            Some(self.password.clone())
        }
    }

    /// Records that the server started.
    pub fn mark_running(&mut self)
        ensures
            final(self).status == ServerStatus::Running,
            final(self).ip == old(self).ip,
            final(self).port == old(self).port,
            final(self).password == old(self).password,
    {
        self.status = ServerStatus::Running;
    }

    /// Records that the server was stopped.
    pub fn mark_stopped(&mut self)
        ensures
            final(self).status == ServerStatus::Stopped,
            final(self).ip == old(self).ip,
            final(self).port == old(self).port,
            final(self).password == old(self).password,
    {
        self.status = ServerStatus::Stopped;
    }

    /// Records that the server task ended by itself, if it did.
    pub fn note_task_end(&mut self, finished: bool)
        ensures
            final(self).status == if finished {
                ServerStatus::Error(ServerError::UnexpectedStop)
            } else {
                old(self).status
            },
            final(self).ip == old(self).ip,
            final(self).port == old(self).port,
            final(self).password == old(self).password,
    {
        if finished {
            self.status = ServerStatus::Error(ServerError::UnexpectedStop);
        }
    }

    /// What the start/stop button asks for when clicked: stop a running server, else start.
    pub fn action_for_click(&self, clicked: bool) -> (r: ServerAction)
        ensures
            r == if !clicked {
                ServerAction::Idle
            } else if self.status == ServerStatus::Running {
                ServerAction::Stop
            } else {
                ServerAction::Start
            },
    {
        if !clicked {
            ServerAction::Idle
        } else if self.is_running() {
            ServerAction::Stop
        } else {
            ServerAction::Start
        }
    }
}

} // verus!
