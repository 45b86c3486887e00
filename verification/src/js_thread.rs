//! The decisions of the native JS thread: how a `console.*` level maps to a
//! log level, when the event-loop pump hands control back, which bundle a
//! hot reload keeps, and when the bundle watcher signals a reload.

use vstd::prelude::*;
use vstd::string::*;

verus! {

/// The log level a JS `console.*` call is surfaced under.
#[derive(Debug, Clone, Copy, PartialEq, Eq, Structural)]
pub enum LogLevel {
    Error,
    Warn,
    Info,
    Debug,
}

/// `"error"`, `"warn"` and `"debug"` keep their level; anything else
/// (`"info"`, `"log"`, …) is info.
pub open spec fn log_level_of(level: Seq<char>) -> LogLevel {
    if level == "error"@ {
        LogLevel::Error
    } else if level == "warn"@ {
        LogLevel::Warn
    } else if level == "debug"@ {
        LogLevel::Debug
    } else {
        LogLevel::Info
    }
}

/// The log level for a JS console level name (see [`log_level_of`]).
pub fn log_level(level: &str) -> (r: LogLevel)
    ensures
        r == log_level_of(level@),
{
    let level = String::from_str(level);
    if level == String::from_str("error") {
        LogLevel::Error
    } else if level == String::from_str("warn") {
        LogLevel::Warn
    } else if level == String::from_str("debug") {
        LogLevel::Debug
    } else {
        LogLevel::Info
    }
}

/// How one turn of driving the JS event loop ended.
#[derive(Debug, Clone, Copy, PartialEq, Eq, Structural)]
pub enum LoopTurn {
    /// The reload notification woke the pump (possibly a stale permit).
    Notified,
    /// The event loop failed.
    Failed,
    /// The event loop went idle.
    Idle,
}

/// What ended a pump of the JS event loop.
#[derive(Debug, Clone, Copy, PartialEq, Eq, Structural)]
pub enum Pumped {
    /// A reload was signalled: re-execute the app bundle.
    Reload,
    /// All senders dropped: Bevy is shutting down.
    Shutdown,
}

/// After one turn of the pump: a notification counts only when the reload
/// flag is set (else it is a stale permit and the pump keeps driving the
/// loop, `None`); an event-loop error is treated as a reload so the runtime
/// rebuilds rather than wedges; an idle loop is a reload if one was
/// signalled, else shutdown.
pub fn pump_turn(turn: LoopTurn, reload_flag: bool) -> (r: Option<Pumped>)
    ensures
        r == match turn {
            LoopTurn::Notified => if reload_flag {
                Some(Pumped::Reload)
            } else {
                None
            },
            LoopTurn::Failed => Some(Pumped::Reload),
            LoopTurn::Idle => if reload_flag {
                Some(Pumped::Reload)
            } else {
                Some(Pumped::Shutdown)
            },
        },
{
    match turn {
        LoopTurn::Notified => if reload_flag {
            Some(Pumped::Reload)
        } else {
            None
        },
        LoopTurn::Failed => Some(Pumped::Reload),
        LoopTurn::Idle => if reload_flag {
            Some(Pumped::Reload)
        } else {
            Some(Pumped::Shutdown)
        },
    }
}

/// The hot-reload state of the live isolate: the last app bundle that
/// executed without throwing, and the rebuilt bundle being tried.
pub struct HotReload {
    last_good: String,
    trying: Option<String>,
}

/// What the JS thread does next on a hot reload.
#[derive(Debug)]
pub enum ReloadAction {
    /// Nothing to run: keep the current app.
    Keep,
    /// Execute this rebuilt bundle in the live isolate.
    Execute(String),
    /// The rebuilt bundle threw: re-run the last working bundle.
    Restore(String),
    /// The rebuilt bundle applied cleanly.
    Applied,
}

impl HotReload {
    /// The initial bundle, which executed as part of building the runtime.
    pub fn new(initial: String) -> (r: Self)
        ensures
            r.last_good() == initial@,
            r.trying() is None,
    {
        HotReload { last_good: initial, trying: None }
    }

    /// The last bundle that executed cleanly.
    pub closed spec fn last_good(&self) -> Seq<char> {
        self.last_good@
    }

    /// The rebuilt bundle being tried, if any.
    pub closed spec fn trying(&self) -> Option<Seq<char>> {
        match self.trying {
            Some(s) => Some(s@),
            None => None,
        }
    }

    /// The rebuilt bundle was read (`Some`), or reading it failed (`None`,
    /// keep the previous working version).
    pub fn on_read(&mut self, code: Option<String>) -> (r: ReloadAction)
        ensures
            final(self).last_good() == old(self).last_good(),
            match code {
                None => r is Keep && final(self).trying() is None,
                Some(c) => (r matches ReloadAction::Execute(e) && e@ == c@) && final(self).trying()
                    == Some(c@),
            },
    {
        match code {
            None => {
                self.trying = None;
                ReloadAction::Keep
            },
            Some(c) => {
                let run = c.clone();
                self.trying = Some(c);
                ReloadAction::Execute(run)
            },
        }
    }

    /// The tried bundle executed (`ok`) or threw. A clean run becomes the new
    /// fallback; a throw never tears the working UI down — the last working
    /// bundle is re-run instead.
    pub fn on_executed(&mut self, ok: bool) -> (r: ReloadAction)
        ensures
            final(self).trying() is None,
            ok && old(self).trying() is Some ==> r is Applied && final(self).last_good()
                == old(self).trying().unwrap(),
            ok && old(self).trying() is None ==> r is Applied && final(self).last_good()
                == old(self).last_good(),
            !ok ==> (r matches ReloadAction::Restore(b) && b@ == old(self).last_good()),
            !ok ==> final(self).last_good() == old(self).last_good(),
    {
        let tried = self.trying.take();
        if ok {
            if let Some(code) = tried {
                self.last_good = code;
            }
            ReloadAction::Applied
        } else {
            ReloadAction::Restore(self.last_good.clone())
        }
    }
}

/// Whether the bundle watcher signals a hot reload: the bundle's
/// modification time (nanoseconds since the epoch) is known and differs
/// from the last one seen.
pub fn bundle_changed(current: Option<u128>, last: Option<u128>) -> (r: bool)
    ensures
        r == (current is Some && current != last),
{
    match (current, last) {
        (Some(c), Some(l)) => c != l,
        (Some(_), None) => true,
        (None, _) => false,
    }
}

} // verus!
