//! Decision logic of the logging-backend setup.
//!
//! Relaying is enabled only when the backend's configuration file exists.
//! When the backend rejects that file, it is overwritten with the default
//! template and initialization is retried once; a second rejection is
//! fatal.  The probing, the initialization calls and the file write are
//! performed by the caller, which feeds each outcome back in.

use vstd::prelude::*;

verus! {

/// A step of the logging setup that the caller performs.
#[derive(PartialEq, Eq, Structural, Clone, Copy, Debug)]
pub enum LoggerStep {
    /// Probe whether the backend's configuration file exists.
    ProbeConfig,
    /// Ask the backend to initialize from the configuration file.
    TryInit,
    /// Overwrite the configuration file with the default template.
    RewriteConfig,
    /// Ask the backend to initialize once more, from the rewritten file.
    RetryInit,
}

/// Where the logging setup stands after a step's outcome.
#[derive(PartialEq, Eq, Structural, Clone, Copy, Debug)]
pub enum LoggerVerdict {
    /// Perform the given step next.
    Pending(LoggerStep),
    /// No configuration file: log relaying stays disabled.
    Disabled,
    /// The backend is initialized: log relaying is enabled.
    Enabled,
    /// The backend cannot be set up.
    Fatal,
}

/// The step the logging setup starts with.
pub fn logger_start() -> (r: LoggerStep)
    ensures
        r == LoggerStep::ProbeConfig,
{
    LoggerStep::ProbeConfig
}

/// One decision of the logging setup, from the step just performed and
/// its outcome.
pub fn logger_next(step: LoggerStep, ok: bool) -> (r: LoggerVerdict)
    ensures
        step == LoggerStep::ProbeConfig ==> r == (if ok {
            LoggerVerdict::Pending(LoggerStep::TryInit)
        } else {
            LoggerVerdict::Disabled
        }),
        step == LoggerStep::TryInit ==> r == (if ok {
            LoggerVerdict::Enabled
        } else {
            LoggerVerdict::Pending(LoggerStep::RewriteConfig)
        }),
        step == LoggerStep::RewriteConfig ==> r == (if ok {
            LoggerVerdict::Pending(LoggerStep::RetryInit)
        } else {
            LoggerVerdict::Fatal
        }),
        step == LoggerStep::RetryInit ==> r == (if ok {
            LoggerVerdict::Enabled
        } else {
            LoggerVerdict::Fatal
        }),
{
    match step {
        LoggerStep::ProbeConfig => {
            if ok {
                LoggerVerdict::Pending(LoggerStep::TryInit)
            } else {
                LoggerVerdict::Disabled
            }
        },
        LoggerStep::TryInit => {
            if ok {
                LoggerVerdict::Enabled
            } else {
                LoggerVerdict::Pending(LoggerStep::RewriteConfig)
            }
        },
        LoggerStep::RewriteConfig => {
            if ok {
                LoggerVerdict::Pending(LoggerStep::RetryInit)
            } else {
                LoggerVerdict::Fatal
            }
        },
        LoggerStep::RetryInit => {
            if ok {
                LoggerVerdict::Enabled
            } else {
                LoggerVerdict::Fatal
            }
        },
    }
}

/// The written template: every run of four spaces in the bundled template
/// text is narrowed to two, left to right.
pub open spec fn shrink_indent_spec(s: Seq<char>) -> Seq<char>
    decreases s.len(),
{
    if s.len() >= 4 && s[0] == ' ' && s[1] == ' ' && s[2] == ' ' && s[3] == ' ' {
        seq![' ', ' '] + shrink_indent_spec(s.skip(4))
    } else if s.len() == 0 {
        Seq::empty()
    } else {
        seq![s[0]] + shrink_indent_spec(s.skip(1))
    }
}

/// Narrow each four-space run of the template to two spaces.
pub fn shrink_indent(s: &str) -> (r: String)
    ensures
        r@ == shrink_indent_spec(s@),
    decreases s@.len(),
{
    let n: usize = s.unicode_len();
    if n == 0 {
        let out = String::new();
        proof {
            assert(out@ =~= shrink_indent_spec(s@));
        }
        return out;
    }
    if n >= 4 && s.get_char(0) == ' ' && s.get_char(1) == ' ' && s.get_char(2) == ' '
        && s.get_char(3) == ' ' {
        let tail = s.substring_char(4, n);
        proof {
            assert(tail@ =~= s@.skip(4));
        }
        let mut out: String = "  ".to_owned();
        let rest = shrink_indent(tail);
        out.append(rest.as_str());
        proof {
            reveal_strlit("  ");
            assert(("  ")@ =~= seq![' ', ' ']);
        }
        out
    } else {
        let head = s.substring_char(0, 1);
        let tail = s.substring_char(1, n);
        proof {
            assert(tail@ =~= s@.skip(1));
            assert(head@ =~= seq![s@[0]]);
        }
        let mut out: String = head.to_owned();
        let rest = shrink_indent(tail);
        out.append(rest.as_str());
        out
    }
}

} // verus!
