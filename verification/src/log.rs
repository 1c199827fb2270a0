use vstd::prelude::*;
use std::collections::VecDeque;

use crate::sample_scan::{lowercase_of, to_lowercase};
use crate::text::chars_of;

verus! {

/// Where a log message comes from.
#[derive(Clone, Copy, PartialEq, Eq, Structural, Debug)]
pub enum LogSource {
    Server,
    Client,
}

/// How serious a log message is.
#[derive(Clone, Copy, PartialEq, Eq, Structural, Debug)]
pub enum Severity {
    Fatal,
    Error,
    Warn,
    Info,
    Debug,
}

/// A log message: its severity and its text.
pub struct LogLine {
    pub level: Severity,
    pub msg: String,
}

/// A log message and where it comes from.
pub struct LogEntry {
    pub source: LogSource,
    pub message: LogLine,
}

/// Which log the panel shows.
#[derive(Clone, Copy, PartialEq, Eq, Structural, Debug)]
pub enum LogTab {
    Server,
    Client,
}

/// How many messages each log keeps.
pub const MAX_LOGS: usize = 500;

/// The position of a severity in the filter, most serious first.
pub open spec fn severity_rank(s: Severity) -> int {
    match s {
        Severity::Fatal => 0,
        Severity::Error => 1,
        Severity::Warn => 2,
        Severity::Info => 3,
        Severity::Debug => 4,
    }
}

/// The position of a severity in the filter, most serious first.
pub fn severity_index(s: Severity) -> (r: usize)
    ensures
        r == severity_rank(s),
{
    match s {
        Severity::Fatal => 0,
        Severity::Error => 1,
        Severity::Warn => 2,
        Severity::Info => 3,
        Severity::Debug => 4,
    }
}

/// The last `n` items of `s` (all of them when there are fewer).
pub open spec fn keep_last<T>(s: Seq<T>, n: nat) -> Seq<T> {
    if s.len() > n {
        s.skip(s.len() - n)
    } else {
        s
    }
}

/// `needle` occurs in `hay`.
pub open spec fn occurs(hay: Seq<char>, needle: Seq<char>) -> bool {
    exists|i: int| 0 <= i <= hay.len() - needle.len() && #[trigger] hay.subrange(i, i + needle.len()) == needle
}

/// What the log panel holds.
pub struct LogView {
    pub server: Seq<LogLine>,
    pub client: Seq<LogLine>,
    pub tab: LogTab,
    pub filter: Seq<bool>,
    pub search: Seq<char>,
}

/// The log panel: the last messages of the server and of the client, with a severity
/// filter and a search.
pub struct LogPanel {
    server_logs: VecDeque<LogLine>,
    client_logs: VecDeque<LogLine>,
    active_tab: LogTab,
    severity_filter: Vec<bool>,
    search: String,
}

impl View for LogPanel {
    type V = LogView;

    closed spec fn view(&self) -> LogView {
        LogView {
            server: self.server_logs@,
            client: self.client_logs@,
            tab: self.active_tab,
            filter: self.severity_filter@,
            search: self.search@,
        }
    }
}

/// The log a tab shows.
pub open spec fn active_log(v: LogView) -> Seq<LogLine> {
    match v.tab {
        LogTab::Server => v.server,
        LogTab::Client => v.client,
    }
}

/// A message is shown when its severity is let through and, with a search, its text
/// contains the search text, case aside.
pub open spec fn shown(v: LogView, l: LogLine) -> bool {
    &&& v.filter[severity_rank(l.level)]
    &&& lowercase_of(v.search).len() == 0 || occurs(lowercase_of(l.msg@), lowercase_of(v.search))
}

/// The positions, in `log[from..]` and in order, of the messages shown.
pub open spec fn shown_from(v: LogView, log: Seq<LogLine>, from: int) -> Seq<int>
    decreases log.len() - from,
{
    if from < 0 || from >= log.len() {
        Seq::empty()
    } else if shown(v, log[from]) {
        seq![from] + shown_from(v, log, from + 1)
    } else {
        shown_from(v, log, from + 1)
    }
}

fn occurs_exec(hay: &Vec<char>, needle: &Vec<char>) -> (r: bool)
    ensures
        r == occurs(hay@, needle@),
{
    if needle.len() == 0 {
        proof {
            assert(hay@.subrange(0int, 0int + needle@.len()) =~= needle@);
        }
        return true;
    }
    if needle.len() > hay.len() {
        return false;
    }
    let last = hay.len() - needle.len();
    assert(last < hay.len());
    let mut i: usize = 0;
    while i <= last
        invariant
            last == hay@.len() - needle@.len(),
            needle@.len() > 0,
            needle@.len() <= hay@.len(),
            hay@.len() <= usize::MAX,
            last < usize::MAX,
            i <= last + 1,
            forall|k: int| 0 <= k < i ==> #[trigger] hay@.subrange(k, k + needle@.len()) != needle@,
        decreases last + 1 - i,
    {
        let mut j: usize = 0;
        while j < needle.len() && hay[i + j] == needle[j]
            invariant
                i <= last,
                last == hay@.len() - needle@.len(),
                needle@.len() <= hay@.len(),
                hay@.len() <= usize::MAX,
                j <= needle@.len(),
                forall|m: int| 0 <= m < j ==> hay@[i + m] == needle@[m],
            decreases needle@.len() - j,
        {
            j += 1;
        }
        if j == needle.len() {
            proof {
                assert(hay@.subrange(i as int, i + needle@.len()) =~= needle@);
            }
            return true;
        }
        proof {
            assert(hay@.subrange(i as int, i + needle@.len())[j as int] != needle@[j as int]);
        }
        i += 1;
    }
    false
}

/// A filter that lets every severity through.
fn all_shown() -> (f: Vec<bool>)
    ensures
        f@ == seq![true, true, true, true, true],
{
    let mut f: Vec<bool> = Vec::new();
    f.push(true);
    f.push(true);
    f.push(true);
    f.push(true);
    f.push(true);
    proof {
        assert(f@ =~= seq![true, true, true, true, true]);
    }
    f
}

impl LogPanel {
    #[verifier::type_invariant]
    spec fn inv(self) -> bool {
        &&& self.server_logs@.len() <= MAX_LOGS
        &&& self.client_logs@.len() <= MAX_LOGS
        &&& self.severity_filter@.len() == 5
    }

    /// Empty logs, the server tab, every severity shown, no search.
    pub fn new() -> (r: Self)
        ensures
            r@.server.len() == 0,
            r@.client.len() == 0,
            r@.tab == LogTab::Server,
            r@.filter == seq![true, true, true, true, true],
            r@.search.len() == 0,
    {
        let f = all_shown();
        LogPanel {
            server_logs: VecDeque::new(),
            client_logs: VecDeque::new(),
            active_tab: LogTab::Server,
            severity_filter: f,
            search: String::new(),
        }
    }

    /// Adds a message to the log of its source, dropping the oldest one beyond
    /// [`MAX_LOGS`].
    pub fn push(&mut self, entry: LogEntry)
        ensures
            match entry.source {
                LogSource::Server => final(self)@ == (LogView {
                    server: keep_last(old(self)@.server.push(entry.message), MAX_LOGS as nat),
                    ..old(self)@
                }),
                LogSource::Client => final(self)@ == (LogView {
                    client: keep_last(old(self)@.client.push(entry.message), MAX_LOGS as nat),
                    ..old(self)@
                }),
            },
    {
        proof {
            use_type_invariant(&*self);
        }
        match entry.source {
            LogSource::Server => {
                let mut logs = VecDeque::new();
                std::mem::swap(&mut logs, &mut self.server_logs);
                let ghost pushed = logs@.push(entry.message);
                logs.push_back(entry.message);
                if logs.len() > MAX_LOGS {
                    let _ = logs.pop_front();
                    proof {
                        assert(logs@ =~= pushed.skip(pushed.len() - MAX_LOGS));
                    }
                }
                self.server_logs = logs;
            },
            LogSource::Client => {
                let mut logs = VecDeque::new();
                std::mem::swap(&mut logs, &mut self.client_logs);
                let ghost pushed = logs@.push(entry.message);
                logs.push_back(entry.message);
                if logs.len() > MAX_LOGS {
                    let _ = logs.pop_front();
                    proof {
                        assert(logs@ =~= pushed.skip(pushed.len() - MAX_LOGS));
                    }
                }
                self.client_logs = logs;
            },
        }
    }

    /// Shows the log of `tab`.
    pub fn set_tab(&mut self, tab: LogTab)
        ensures
            final(self)@ == (LogView { tab, ..old(self)@ }),
    {
        proof {
            use_type_invariant(&*self);
        }
        self.active_tab = tab;
    }

    /// Shows or hides the messages of severity rank `i` (0 for fatal to 4 for debug).
    pub fn toggle_severity(&mut self, i: usize)
        requires
            i < 5,
        ensures
            final(self)@ == (LogView {
                filter: old(self)@.filter.update(i as int, !old(self)@.filter[i as int]),
                ..old(self)@
            }),
    {
        proof {
            use_type_invariant(&*self);
        }
        let mut f = all_shown();
        std::mem::swap(&mut f, &mut self.severity_filter);
        let b = f[i];
        f.set(i, !b);
        self.severity_filter = f;
    }

    /// Replaces the search text.
    pub fn set_search(&mut self, search: String)
        ensures
            final(self)@ == (LogView { search: search@, ..old(self)@ }),
    {
        proof {
            use_type_invariant(&*self);
        }
        self.search = search;
    }

    /// Empties the log on display.
    pub fn clear_active(&mut self)
        ensures
            final(self)@ == match old(self)@.tab {
                LogTab::Server => LogView { server: Seq::empty(), ..old(self)@ },
                LogTab::Client => LogView { client: Seq::empty(), ..old(self)@ },
            },
    {
        proof {
            use_type_invariant(&*self);
        }
        match self.active_tab {
            LogTab::Server => self.server_logs = VecDeque::new(),
            LogTab::Client => self.client_logs = VecDeque::new(),
        }
    }

    /// The messages of the log on display, oldest first.
    pub fn active_logs(&self) -> (r: &VecDeque<LogLine>)
        ensures
            r@ == active_log(self@),
    {
        match self.active_tab {
            LogTab::Server => &self.server_logs,
            LogTab::Client => &self.client_logs,
        }
    }

    /// The positions in [`LogPanel::active_logs`] of the messages shown (see [`shown`]).
    pub fn visible(&self) -> (r: Vec<usize>)
        ensures
            r@.map_values(|k: usize| k as int) == shown_from(self@, active_log(self@), 0),
    {
        proof {
            use_type_invariant(self);
        }
        let logs = self.active_logs();
        let search_lower = chars_of(to_lowercase(self.search.as_str()).as_str());
        let mut out: Vec<usize> = Vec::new();
        let n = logs.len();
        let mut k: usize = 0;
        while k < n
            invariant
                k <= n,
                n == active_log(self@).len(),
                logs@ == active_log(self@),
                search_lower@ == lowercase_of(self@.search),
                self@.filter.len() == 5,
                out@.map_values(|x: usize| x as int) + shown_from(self@, logs@, k as int)
                    == shown_from(self@, logs@, 0),
            decreases n - k,
        {
            let line = &logs[k];
            let rank = severity_index(line.level);
            let pass = self.severity_filter[rank] && (search_lower.len() == 0 || occurs_exec(
                &chars_of(to_lowercase(line.msg.as_str()).as_str()),
                &search_lower,
            ));
            proof {
                assert(pass == shown(self@, logs@[k as int]));
            }
            let ghost before = out@.map_values(|x: usize| x as int);
            if pass {
                out.push(k);
                proof {
                    assert(out@.map_values(|x: usize| x as int) =~= before.push(k as int));
                    assert(out@.map_values(|x: usize| x as int) + shown_from(self@, logs@, k + 1)
                        =~= before + shown_from(self@, logs@, k as int));
                }
            }
            k += 1;
        }
        out
    }
}


/// Keeping the last `n` messages after each push gives the last `n` messages of everything
/// pushed: the log is always the tail of the whole stream of messages.
pub proof fn lemma_keep_last_push<T>(s: Seq<T>, x: T, n: nat)
    requires
        n > 0,
    ensures
        keep_last(keep_last(s, n).push(x), n) == keep_last(s.push(x), n),
        keep_last(s, n).len() <= n,
{
    let a = keep_last(keep_last(s, n).push(x), n);
    let b = keep_last(s.push(x), n);
    assert(a =~= b);
}

} // verus!
