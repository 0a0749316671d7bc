//! Signal and other event handling settings.
//!
//! The trap is a mechanism of the shell that allows the user to configure
//! event handlers for specific situations. A [`TrapSet`] is a mapping from
//! [`Condition`]s to [`Action`]s. When the mapping is modified, the set
//! updates the corresponding signal disposition in the underlying system
//! through a [`SignalSystem`] implementor. Methods of `TrapSet` expect to be
//! passed the same system instance in every call to keep it in a correct
//! state.
//!
//! `TrapSet` manages two kinds of signal handling configuration: user-defined
//! traps, which the user configures with the trap built-in, and internal
//! handlers, which the shell installs for its own purposes. The set merges
//! the two into a single [`SignalHandling`] per signal: the system is told to
//! catch a signal whenever the internal handler is enabled, and otherwise to
//! follow the user's setting. The predicate [`os_consistent`] states this
//! merge, and every operation preserves it.

use crate::source::Location;
use crate::strings::str_eq;
use vstd::prelude::*;

verus! {

/// Signals the trap set can manage.
#[derive(Clone, Copy, Debug, Eq, Hash, PartialEq, Structural)]
pub enum Signal {
    /// Hangup
    SIGHUP,
    /// Interrupt from keyboard
    SIGINT,
    /// Quit from keyboard
    SIGQUIT,
    /// Illegal instruction
    SIGILL,
    /// Abort
    SIGABRT,
    /// Bus error
    SIGBUS,
    /// Floating-point exception
    SIGFPE,
    /// Kill, cannot be caught
    SIGKILL,
    /// User-defined signal 1
    SIGUSR1,
    /// Invalid memory reference
    SIGSEGV,
    /// User-defined signal 2
    SIGUSR2,
    /// Broken pipe
    SIGPIPE,
    /// Alarm clock
    SIGALRM,
    /// Termination
    SIGTERM,
    /// Child stopped or terminated
    SIGCHLD,
    /// Continue if stopped
    SIGCONT,
    /// Stop, cannot be caught
    SIGSTOP,
    /// Stop from terminal
    SIGTSTP,
    /// Terminal input for background process
    SIGTTIN,
    /// Terminal output for background process
    SIGTTOU,
}

/// The conventional number of a signal, which orders conditions.
pub open spec fn signal_number(s: Signal) -> int {
    match s {
        Signal::SIGHUP => 1,
        Signal::SIGINT => 2,
        Signal::SIGQUIT => 3,
        Signal::SIGILL => 4,
        Signal::SIGABRT => 6,
        Signal::SIGBUS => 7,
        Signal::SIGFPE => 8,
        Signal::SIGKILL => 9,
        Signal::SIGUSR1 => 10,
        Signal::SIGSEGV => 11,
        Signal::SIGUSR2 => 12,
        Signal::SIGPIPE => 13,
        Signal::SIGALRM => 14,
        Signal::SIGTERM => 15,
        Signal::SIGCHLD => 17,
        Signal::SIGCONT => 18,
        Signal::SIGSTOP => 19,
        Signal::SIGTSTP => 20,
        Signal::SIGTTIN => 21,
        Signal::SIGTTOU => 22,
    }
}

/// The abbreviated name of a signal, without the `SIG` prefix.
pub open spec fn signal_abbrev(s: Signal) -> Seq<char> {
    match s {
        Signal::SIGHUP => seq!['H', 'U', 'P'],
        Signal::SIGINT => seq!['I', 'N', 'T'],
        Signal::SIGQUIT => seq!['Q', 'U', 'I', 'T'],
        Signal::SIGILL => seq!['I', 'L', 'L'],
        Signal::SIGABRT => seq!['A', 'B', 'R', 'T'],
        Signal::SIGBUS => seq!['B', 'U', 'S'],
        Signal::SIGFPE => seq!['F', 'P', 'E'],
        Signal::SIGKILL => seq!['K', 'I', 'L', 'L'],
        Signal::SIGUSR1 => seq!['U', 'S', 'R', '1'],
        Signal::SIGSEGV => seq!['S', 'E', 'G', 'V'],
        Signal::SIGUSR2 => seq!['U', 'S', 'R', '2'],
        Signal::SIGPIPE => seq!['P', 'I', 'P', 'E'],
        Signal::SIGALRM => seq!['A', 'L', 'R', 'M'],
        Signal::SIGTERM => seq!['T', 'E', 'R', 'M'],
        Signal::SIGCHLD => seq!['C', 'H', 'L', 'D'],
        Signal::SIGCONT => seq!['C', 'O', 'N', 'T'],
        Signal::SIGSTOP => seq!['S', 'T', 'O', 'P'],
        Signal::SIGTSTP => seq!['T', 'S', 'T', 'P'],
        Signal::SIGTTIN => seq!['T', 'T', 'I', 'N'],
        Signal::SIGTTOU => seq!['T', 'T', 'O', 'U'],
    }
}

impl Signal {
    /// The conventional number of this signal.
    pub fn number(self) -> (r: i32)
        ensures
            r as int == signal_number(self),
    {
        match self {
            Signal::SIGHUP => 1,
            Signal::SIGINT => 2,
            Signal::SIGQUIT => 3,
            Signal::SIGILL => 4,
            Signal::SIGABRT => 6,
            Signal::SIGBUS => 7,
            Signal::SIGFPE => 8,
            Signal::SIGKILL => 9,
            Signal::SIGUSR1 => 10,
            Signal::SIGSEGV => 11,
            Signal::SIGUSR2 => 12,
            Signal::SIGPIPE => 13,
            Signal::SIGALRM => 14,
            Signal::SIGTERM => 15,
            Signal::SIGCHLD => 17,
            Signal::SIGCONT => 18,
            Signal::SIGSTOP => 19,
            Signal::SIGTSTP => 20,
            Signal::SIGTTIN => 21,
            Signal::SIGTTOU => 22,
        }
    }

    /// The abbreviated name of this signal, without the `SIG` prefix.
    pub fn abbrev(self) -> (r: String)
        ensures
            r@ == signal_abbrev(self),
    {
        let s = match self {
            Signal::SIGHUP => "HUP",
            Signal::SIGINT => "INT",
            Signal::SIGQUIT => "QUIT",
            Signal::SIGILL => "ILL",
            Signal::SIGABRT => "ABRT",
            Signal::SIGBUS => "BUS",
            Signal::SIGFPE => "FPE",
            Signal::SIGKILL => "KILL",
            Signal::SIGUSR1 => "USR1",
            Signal::SIGSEGV => "SEGV",
            Signal::SIGUSR2 => "USR2",
            Signal::SIGPIPE => "PIPE",
            Signal::SIGALRM => "ALRM",
            Signal::SIGTERM => "TERM",
            Signal::SIGCHLD => "CHLD",
            Signal::SIGCONT => "CONT",
            Signal::SIGSTOP => "STOP",
            Signal::SIGTSTP => "TSTP",
            Signal::SIGTTIN => "TTIN",
            Signal::SIGTTOU => "TTOU",
        };
        proof {
            reveal_strlit("HUP");
            reveal_strlit("INT");
            reveal_strlit("QUIT");
            reveal_strlit("ILL");
            reveal_strlit("ABRT");
            reveal_strlit("BUS");
            reveal_strlit("FPE");
            reveal_strlit("KILL");
            reveal_strlit("USR1");
            reveal_strlit("SEGV");
            reveal_strlit("USR2");
            reveal_strlit("PIPE");
            reveal_strlit("ALRM");
            reveal_strlit("TERM");
            reveal_strlit("CHLD");
            reveal_strlit("CONT");
            reveal_strlit("STOP");
            reveal_strlit("TSTP");
            reveal_strlit("TTIN");
            reveal_strlit("TTOU");
            assert(s@ =~= signal_abbrev(self));
        }
        s.to_owned()
    }

    /// Parses an abbreviated signal name, without the `SIG` prefix.
    pub fn from_abbrev(s: &str) -> (r: Option<Signal>)
        ensures
            match r {
                Some(sig) => signal_abbrev(sig) == s@,
                None => forall|sig: Signal| signal_abbrev(sig) != s@,
            },
    {
        proof {
            reveal_strlit("HUP");
            reveal_strlit("INT");
            reveal_strlit("QUIT");
            reveal_strlit("ILL");
            reveal_strlit("ABRT");
            reveal_strlit("BUS");
            reveal_strlit("FPE");
            reveal_strlit("KILL");
            reveal_strlit("USR1");
            reveal_strlit("SEGV");
            reveal_strlit("USR2");
            reveal_strlit("PIPE");
            reveal_strlit("ALRM");
            reveal_strlit("TERM");
            reveal_strlit("CHLD");
            reveal_strlit("CONT");
            reveal_strlit("STOP");
            reveal_strlit("TSTP");
            reveal_strlit("TTIN");
            reveal_strlit("TTOU");
            assert("HUP"@ =~= seq!['H','U','P']);
            assert("INT"@ =~= seq!['I','N','T']);
            assert("QUIT"@ =~= seq!['Q','U','I','T']);
            assert("ILL"@ =~= seq!['I','L','L']);
            assert("ABRT"@ =~= seq!['A','B','R','T']);
            assert("BUS"@ =~= seq!['B','U','S']);
            assert("FPE"@ =~= seq!['F','P','E']);
            assert("KILL"@ =~= seq!['K','I','L','L']);
            assert("USR1"@ =~= seq!['U','S','R','1']);
            assert("SEGV"@ =~= seq!['S','E','G','V']);
            assert("USR2"@ =~= seq!['U','S','R','2']);
            assert("PIPE"@ =~= seq!['P','I','P','E']);
            assert("ALRM"@ =~= seq!['A','L','R','M']);
            assert("TERM"@ =~= seq!['T','E','R','M']);
            assert("CHLD"@ =~= seq!['C','H','L','D']);
            assert("CONT"@ =~= seq!['C','O','N','T']);
            assert("STOP"@ =~= seq!['S','T','O','P']);
            assert("TSTP"@ =~= seq!['T','S','T','P']);
            assert("TTIN"@ =~= seq!['T','T','I','N']);
            assert("TTOU"@ =~= seq!['T','T','O','U']);
        }
        if str_eq(s, "HUP") {
            Some(Signal::SIGHUP)
        } else if str_eq(s, "INT") {
            Some(Signal::SIGINT)
        } else if str_eq(s, "QUIT") {
            Some(Signal::SIGQUIT)
        } else if str_eq(s, "ILL") {
            Some(Signal::SIGILL)
        } else if str_eq(s, "ABRT") {
            Some(Signal::SIGABRT)
        } else if str_eq(s, "BUS") {
            Some(Signal::SIGBUS)
        } else if str_eq(s, "FPE") {
            Some(Signal::SIGFPE)
        } else if str_eq(s, "KILL") {
            Some(Signal::SIGKILL)
        } else if str_eq(s, "USR1") {
            Some(Signal::SIGUSR1)
        } else if str_eq(s, "SEGV") {
            Some(Signal::SIGSEGV)
        } else if str_eq(s, "USR2") {
            Some(Signal::SIGUSR2)
        } else if str_eq(s, "PIPE") {
            Some(Signal::SIGPIPE)
        } else if str_eq(s, "ALRM") {
            Some(Signal::SIGALRM)
        } else if str_eq(s, "TERM") {
            Some(Signal::SIGTERM)
        } else if str_eq(s, "CHLD") {
            Some(Signal::SIGCHLD)
        } else if str_eq(s, "CONT") {
            Some(Signal::SIGCONT)
        } else if str_eq(s, "STOP") {
            Some(Signal::SIGSTOP)
        } else if str_eq(s, "TSTP") {
            Some(Signal::SIGTSTP)
        } else if str_eq(s, "TTIN") {
            Some(Signal::SIGTTIN)
        } else if str_eq(s, "TTOU") {
            Some(Signal::SIGTTOU)
        } else {
            None
        }
    }
}

/// How the system disposes of a delivered signal.
#[derive(Clone, Copy, Debug, Eq, PartialEq, Structural)]
pub enum SignalHandling {
    /// Performs the default action for the signal.
    Default,
    /// Ignores the signal.
    Ignore,
    /// Catches the signal so the shell can handle it.
    Catch,
}

/// An error number reported by the underlying system.
#[derive(Clone, Copy, Debug, Eq, PartialEq, Structural)]
pub struct Errno(pub i32);

/// System interface for signal handling configuration.
///
/// The `disposition` specification function abstracts the system's current
/// signal dispositions; `infallible` says that the system never reports an
/// error, which holds of the in-memory [`VirtualSignalSystem`].
pub trait SignalSystem {
    /// The current disposition of a signal, as an abstraction.
    spec fn disposition(&self, signal: Signal) -> SignalHandling;

    /// Whether this system never fails to set a disposition.
    spec fn infallible(&self) -> bool;

    /// Sets how a signal is handled and returns the previous disposition.
    fn set_signal_handling(&mut self, signal: Signal, handling: SignalHandling) -> (r: Result<
        SignalHandling,
        Errno,
    >)
        ensures
            match r {
                Ok(prev) => prev == old(self).disposition(signal) && forall|g: Signal|
                    final (self).disposition(g) == (if g == signal {
                        handling
                    } else {
                        old(self).disposition(g)
                    }),
                Err(_) => forall|g: Signal|
                    final (self).disposition(g) == old(self).disposition(g),
            },
            final (self).infallible() == old(self).infallible(),
            old(self).infallible() ==> r is Ok,
    ;
}

/// An in-memory signal system that merely records dispositions. Every signal
/// starts with the default disposition.
#[derive(Clone, Debug, Eq, PartialEq)]
pub struct VirtualSignalSystem {
    dispositions: Vec<(Signal, SignalHandling)>,
}

/// The recorded disposition of a signal: the first recorded entry, or the
/// default.
pub open spec fn recorded_disposition(
    entries: Seq<(Signal, SignalHandling)>,
    signal: Signal,
) -> SignalHandling
    decreases entries.len(),
{
    if entries.len() == 0 {
        SignalHandling::Default
    } else if entries[0].0 == signal {
        entries[0].1
    } else {
        recorded_disposition(entries.drop_first(), signal)
    }
}

impl VirtualSignalSystem {
    /// Creates a system in which every signal has the default disposition.
    pub fn new() -> (r: VirtualSignalSystem)
        ensures
            forall|g: Signal| r.disposition(g) == SignalHandling::Default,
            r.infallible(),
    {
        VirtualSignalSystem { dispositions: Vec::new() }
    }

    /// Reads the recorded disposition of a signal.
    pub fn current_disposition(&self, signal: Signal) -> (r: SignalHandling)
        ensures
            r == self.disposition(signal),
    {
        let mut i: usize = 0;
        let n = self.dispositions.len();
        proof {
            assert(self.dispositions@.skip(0) =~= self.dispositions@);
        }
        while i < n
            invariant
                i <= n,
                n == self.dispositions@.len(),
                recorded_disposition(self.dispositions@, signal) == recorded_disposition(
                    self.dispositions@.skip(i as int),
                    signal,
                ),
            decreases n - i,
        {
            proof {
                assert(self.dispositions@.skip(i as int)[0] == self.dispositions@[i as int]);
                assert(self.dispositions@.skip(i as int).drop_first() =~= self.dispositions@.skip(
                    i + 1 as int,
                ));
            }
            if self.dispositions[i].0 == signal {
                return self.dispositions[i].1;
            }
            i = i + 1;
        }
        proof {
            assert(self.dispositions@.skip(n as int) =~= Seq::<(Signal, SignalHandling)>::empty());
        }
        SignalHandling::Default
    }
}

impl SignalSystem for VirtualSignalSystem {
    closed spec fn disposition(&self, signal: Signal) -> SignalHandling {
        recorded_disposition(self.dispositions@, signal)
    }

    open spec fn infallible(&self) -> bool {
        true
    }

    fn set_signal_handling(&mut self, signal: Signal, handling: SignalHandling) -> (r: Result<
        SignalHandling,
        Errno,
    >) {
        let prev = self.current_disposition(signal);
        let ghost entries0 = self.dispositions@;
        self.dispositions.insert(0, (signal, handling));
        proof {
            assert(self.dispositions@[0] == (signal, handling));
            assert(self.dispositions@.drop_first() =~= entries0);
            assert forall|g: Signal|
                final (self).disposition(g) == (if g == signal {
                    handling
                } else {
                    old(self).disposition(g)
                }) by {}
        }
        Ok(prev)
    }
}

/// Condition under which an [`Action`] is executed.
#[derive(Clone, Copy, Debug, Eq, Hash, PartialEq, Structural)]
pub enum Condition {
    /// When the shell exits.
    Exit,
    /// When the specified signal is delivered to the shell process.
    Signal(Signal),
}

/// The key that orders conditions: `Exit` first, then signals by number.
pub open spec fn cond_key(c: Condition) -> int {
    match c {
        Condition::Exit => 0,
        Condition::Signal(s) => 1 + signal_number(s),
    }
}

/// Distinct conditions have distinct keys.
proof fn lemma_cond_key_injective(a: Condition, b: Condition)
    ensures
        cond_key(a) == cond_key(b) ==> a == b,
{
}

/// The uppercase name of a condition: `EXIT`, or the signal name without the
/// `SIG` prefix.
pub open spec fn condition_name(c: Condition) -> Seq<char> {
    match c {
        Condition::Exit => seq!['E', 'X', 'I', 'T'],
        Condition::Signal(s) => signal_abbrev(s),
    }
}

/// Error in conversion from a string to a [`Condition`].
#[derive(Clone, Copy, Debug, Eq, Hash, PartialEq, Structural)]
pub struct ParseConditionError;

impl Condition {
    /// The uppercase name of this condition, such as `EXIT` or `TERM`.
    pub fn name(&self) -> (r: String)
        ensures
            r@ == condition_name(*self),
    {
        match self {
            Condition::Exit => {
                let r = "EXIT".to_owned();
                proof {
                    reveal_strlit("EXIT");
                    assert(r@ =~= seq!['E', 'X', 'I', 'T']);
                }
                r
            },
            Condition::Signal(s) => s.abbrev(),
        }
    }

    /// Parses an uppercase condition name such as `EXIT` or `TERM`.
    pub fn from_str(s: &str) -> (r: Result<Condition, ParseConditionError>)
        ensures
            match r {
                Ok(c) => condition_name(c) == s@,
                Err(_) => s@ != condition_name(Condition::Exit) && (forall|sig: Signal|
                    signal_abbrev(sig) != s@),
            },
    {
        proof {
            reveal_strlit("EXIT");
            assert("EXIT"@ =~= seq!['E', 'X', 'I', 'T']);
        }
        if str_eq(s, "EXIT") {
            Ok(Condition::Exit)
        } else {
            match Signal::from_abbrev(s) {
                Some(sig) => Ok(Condition::Signal(sig)),
                None => Err(ParseConditionError),
            }
        }
    }
}

/// Action performed when a [`Condition`] is met.
#[derive(Debug, Eq, PartialEq)]
pub enum Action {
    /// Performs the default action.
    ///
    /// For signal conditions, the behavior depends on the signal delivered.
    /// For other conditions, this is equivalent to `Ignore`.
    Default,
    /// Pretends as if the condition was not met.
    Ignore,
    /// Executes a command string.
    Command(String),
}

impl Clone for Action {
    fn clone(&self) -> (r: Self)
        ensures
            r == *self,
    {
        match self {
            Action::Default => Action::Default,
            Action::Ignore => Action::Ignore,
            Action::Command(s) => Action::Command(s.clone()),
        }
    }
}

impl Default for Action {
    /// The default action of every condition is `Default`.
    fn default() -> (r: Self)
        ensures
            r == Action::Default,
    {
        Action::Default
    }
}

/// The signal disposition an action asks for.
pub open spec fn action_handling(a: Action) -> SignalHandling {
    match a {
        Action::Default => SignalHandling::Default,
        Action::Ignore => SignalHandling::Ignore,
        Action::Command(_) => SignalHandling::Catch,
    }
}

/// The signal disposition an action asks for.
pub fn action_to_handling(a: &Action) -> (r: SignalHandling)
    ensures
        r == action_handling(*a),
{
    match a {
        Action::Default => SignalHandling::Default,
        Action::Ignore => SignalHandling::Ignore,
        Action::Command(_) => SignalHandling::Catch,
    }
}

/// Error that may happen in [`TrapSet::set_action`].
#[derive(Clone, Copy, Debug, Eq, PartialEq, Structural)]
pub enum SetActionError {
    /// Attempt to set a trap that has been ignored since the shell startup.
    InitiallyIgnored,
    /// Attempt to set a trap for the `SIGKILL` signal.
    SIGKILL,
    /// Attempt to set a trap for the `SIGSTOP` signal.
    SIGSTOP,
    /// Error from the underlying system interface.
    SystemError(Errno),
}

/// The message describing each trap-setting error.
pub open spec fn set_action_error_message(e: SetActionError) -> Seq<char> {
    match e {
        SetActionError::InitiallyIgnored => "the signal has been ignored since startup"@,
        SetActionError::SIGKILL => "cannot set a trap for SIGKILL"@,
        SetActionError::SIGSTOP => "cannot set a trap for SIGSTOP"@,
        SetActionError::SystemError(errno) => "system error "@ + crate::numeral::dec_int(
            errno.0 as int,
        ),
    }
}

impl SetActionError {
    /// A message describing this error.
    pub fn message(&self) -> (r: String)
        ensures
            r@ == set_action_error_message(*self),
    {
        match self {
            SetActionError::InitiallyIgnored => "the signal has been ignored since startup".to_owned(),
            SetActionError::SIGKILL => "cannot set a trap for SIGKILL".to_owned(),
            SetActionError::SIGSTOP => "cannot set a trap for SIGSTOP".to_owned(),
            SetActionError::SystemError(errno) => {
                let mut r = String::new();
                r.append("system error ");
                crate::numeral::push_dec_i64(&mut r, errno.0 as i64);
                proof {
                    assert(r@ =~= "system error "@ + crate::numeral::dec_int(errno.0 as int));
                }
                r
            },
        }
    }
}

/// State of the trap action for a condition.
#[derive(Debug, Eq, PartialEq)]
pub struct TrapState {
    /// Action taken when the condition is met.
    pub action: Action,
    /// Location of the simple command that invoked the trap built-in that set
    /// the current action.
    pub origin: Location,
    /// True iff a signal specified by the condition has been caught and the
    /// action command has not yet executed.
    pub pending: bool,
}

impl Clone for TrapState {
    fn clone(&self) -> (r: Self)
        ensures
            r == *self,
    {
        TrapState {
            action: self.action.clone(),
            origin: self.origin.clone(),
            pending: self.pending,
        }
    }
}

/// User-visible trap setting.
#[derive(Debug, Eq, PartialEq)]
pub enum Setting {
    /// The user has not set a trap for the condition, and the signal
    /// disposition the shell inherited from the pre-exec process is the
    /// default.
    InitiallyDefaulted,
    /// The user has not set a trap for the condition, and the signal
    /// disposition the shell inherited from the pre-exec process is to
    /// ignore.
    InitiallyIgnored,
    /// User-defined trap.
    UserSpecified(TrapState),
}

impl Clone for Setting {
    fn clone(&self) -> (r: Self)
        ensures
            r == *self,
    {
        match self {
            Setting::InitiallyDefaulted => Setting::InitiallyDefaulted,
            Setting::InitiallyIgnored => Setting::InitiallyIgnored,
            Setting::UserSpecified(t) => Setting::UserSpecified(t.clone()),
        }
    }
}

/// The trap state a setting exposes to the user: only user-specified
/// settings are visible.
pub open spec fn setting_as_trap(s: Setting) -> Option<TrapState> {
    match s {
        Setting::UserSpecified(t) => Some(t),
        _ => None,
    }
}

impl Setting {
    /// The trap state of this setting, if it is user-specified.
    pub fn as_trap(&self) -> (r: Option<&TrapState>)
        ensures
            match r {
                Some(t) => setting_as_trap(*self) == Some(*t),
                None => setting_as_trap(*self) is None,
            },
    {
        if let Setting::UserSpecified(trap) = self {
            Some(trap)
        } else {
            None
        }
    }
}

/// The signal disposition a setting asks for.
pub open spec fn setting_handling(s: Setting) -> SignalHandling {
    match s {
        Setting::InitiallyDefaulted => SignalHandling::Default,
        Setting::InitiallyIgnored => SignalHandling::Ignore,
        Setting::UserSpecified(t) => action_handling(t.action),
    }
}

/// Whole configuration and state for a trap condition.
#[derive(Debug)]
pub struct GrandState {
    /// Setting that is effective in the current environment.
    pub current_setting: Setting,
    /// Setting that was effective in the parent environment.
    pub parent_setting: Option<Setting>,
    /// Whether the internal handler has been installed in the current
    /// environment.
    pub internal_handler_enabled: bool,
}

/// A state with its remembered parent setting dropped.
pub open spec fn clear_parent(g: GrandState) -> GrandState {
    GrandState { parent_setting: None, ..g }
}

/// The disposition the system must hold for a condition's state: catch while
/// the internal handler is enabled, the user's setting otherwise.
pub open spec fn expected_disposition(g: GrandState) -> SignalHandling {
    if g.internal_handler_enabled {
        SignalHandling::Catch
    } else {
        setting_handling(g.current_setting)
    }
}

/// A condition with its state, as stored in a [`TrapSet`].
#[derive(Debug)]
pub struct CondEntry {
    /// The condition.
    pub cond: Condition,
    /// The state for the condition.
    pub state: GrandState,
}

/// The state for a condition in a sequence of entries: the state of the
/// first entry carrying the condition, if any.
pub open spec fn grand_in(entries: Seq<CondEntry>, c: Condition) -> Option<GrandState>
    decreases entries.len(),
{
    if entries.len() == 0 {
        None
    } else if entries[0].cond == c {
        Some(entries[0].state)
    } else {
        grand_in(entries.drop_first(), c)
    }
}

/// Collection of event handling settings.
///
/// See the [module documentation](self) for details.
#[derive(Debug)]
pub struct TrapSet {
    traps: Vec<CondEntry>,
}

impl TrapSet {
    /// The stored entries, for specification purposes.
    pub closed spec fn entries(self) -> Seq<CondEntry> {
        self.traps@
    }

    /// The state stored for a condition.
    pub open spec fn state_of(self, c: Condition) -> Option<GrandState> {
        grand_in(self.entries(), c)
    }

    /// The number of signals whose user trap is pending.
    pub open spec fn pending_count(self) -> nat {
        count_pending(self.entries())
    }

    /// Well-formedness: entries are sorted by strictly increasing condition
    /// key, so each condition appears at most once.
    pub closed spec fn wf(self) -> bool {
        forall|i: int, j: int|
            0 <= i < j < self.traps@.len() ==> cond_key(#[trigger] self.traps@[i].cond) < cond_key(
                #[trigger] self.traps@[j].cond,
            )
    }
}

proof fn lemma_grand_in_found(entries: Seq<CondEntry>, c: Condition, i: int)
    requires
        0 <= i < entries.len(),
        entries[i].cond == c,
        forall|j: int| 0 <= j < i ==> (#[trigger] entries[j].cond) != c,
    ensures
        grand_in(entries, c) == Some(entries[i].state),
    decreases entries.len(),
{
    if i > 0 {
        assert(forall|j: int|
            0 <= j < entries.len() - 1 ==> #[trigger] entries.drop_first()[j] == entries[j + 1]);
        lemma_grand_in_found(entries.drop_first(), c, i - 1);
    }
}

proof fn lemma_grand_in_absent(entries: Seq<CondEntry>, c: Condition)
    requires
        forall|j: int| 0 <= j < entries.len() ==> (#[trigger] entries[j].cond) != c,
    ensures
        grand_in(entries, c) is None,
    decreases entries.len(),
{
    if entries.len() > 0 {
        assert(forall|j: int|
            0 <= j < entries.len() - 1 ==> #[trigger] entries.drop_first()[j] == entries[j + 1]);
        lemma_grand_in_absent(entries.drop_first(), c);
    }
}

proof fn lemma_grand_in_update(entries: Seq<CondEntry>, i: int, e: CondEntry, c: Condition)
    requires
        0 <= i < entries.len(),
        entries[i].cond == e.cond,
        forall|p: int, q: int|
            0 <= p < q < entries.len() ==> (#[trigger] entries[p].cond) != (
            #[trigger] entries[q].cond),
    ensures
        grand_in(entries.update(i, e), c) == if c == e.cond {
            Some(e.state)
        } else {
            grand_in(entries, c)
        },
    decreases entries.len(),
{
    let updated = entries.update(i, e);
    if i == 0 {
        assert(updated[0] == e);
        assert(updated.drop_first() =~= entries.drop_first());
        if c != e.cond && entries[0].cond == c {
            assert(false);
        }
    } else {
        assert(updated[0] == entries[0]);
        assert(updated.drop_first() =~= entries.drop_first().update(i - 1, e));
        assert(forall|j: int|
            0 <= j < entries.len() - 1 ==> #[trigger] entries.drop_first()[j] == entries[j + 1]);
        lemma_grand_in_update(entries.drop_first(), i - 1, e, c);
        if entries[0].cond == c {
            assert(c != e.cond);
        }
    }
}

proof fn lemma_grand_in_insert(entries: Seq<CondEntry>, i: int, e: CondEntry, c: Condition)
    requires
        0 <= i <= entries.len(),
        forall|j: int| 0 <= j < entries.len() ==> (#[trigger] entries[j].cond) != e.cond,
    ensures
        grand_in(entries.insert(i, e), c) == if c == e.cond {
            Some(e.state)
        } else {
            grand_in(entries, c)
        },
    decreases entries.len(),
{
    let inserted = entries.insert(i, e);
    if i == 0 {
        assert(inserted[0] == e);
        assert(inserted.drop_first() =~= entries);
        if c != e.cond {
        } else {
            assert(inserted[0].cond == c);
        }
    } else {
        assert(inserted[0] == entries[0]);
        assert(inserted.drop_first() =~= entries.drop_first().insert(i - 1, e));
        assert(forall|j: int|
            0 <= j < entries.len() - 1 ==> #[trigger] entries.drop_first()[j] == entries[j + 1]);
        lemma_grand_in_insert(entries.drop_first(), i - 1, e, c);
        if entries[0].cond == c {
            assert(c != e.cond);
        }
    }
}

proof fn lemma_grand_in_pointwise(e1: Seq<CondEntry>, e2: Seq<CondEntry>, c: Condition)
    requires
        e1.len() == e2.len(),
        forall|j: int| 0 <= j < e1.len() ==> (#[trigger] e1[j].cond) == e2[j].cond,
    ensures
        (exists|j: int|
            0 <= j < e1.len() && e1[j].cond == c && grand_in(e1, c) == Some(e1[j].state)
                && grand_in(e2, c) == Some(e2[j].state)) || (grand_in(e1, c) is None && grand_in(
            e2,
            c,
        ) is None),
    decreases e1.len(),
{
    if e1.len() == 0 {
    } else if e1[0].cond == c {
        assert(e2[0].cond == c);
    } else {
        assert(e2[0].cond != c);
        assert(forall|j: int| 0 <= j < e1.len() - 1 ==> #[trigger] e1.drop_first()[j] == e1[j + 1]);
        assert(forall|j: int| 0 <= j < e2.len() - 1 ==> #[trigger] e2.drop_first()[j] == e2[j + 1]);
        lemma_grand_in_pointwise(e1.drop_first(), e2.drop_first(), c);
        if exists|j: int|
            0 <= j < e1.drop_first().len() && e1.drop_first()[j].cond == c && grand_in(
                e1.drop_first(),
                c,
            ) == Some(e1.drop_first()[j].state) && grand_in(e2.drop_first(), c) == Some(
                e2.drop_first()[j].state,
            ) {
            let j = choose|j: int|
                0 <= j < e1.drop_first().len() && e1.drop_first()[j].cond == c && grand_in(
                    e1.drop_first(),
                    c,
                ) == Some(e1.drop_first()[j].state) && grand_in(e2.drop_first(), c) == Some(
                    e2.drop_first()[j].state,
                );
            assert(e1[j + 1].cond == c && grand_in(e1, c) == Some(e1[j + 1].state) && grand_in(
                e2,
                c,
            ) == Some(e2[j + 1].state));
        }
    }
}

/// A found state is the state of some entry.
proof fn lemma_grand_in_witness(entries: Seq<CondEntry>, c: Condition)
    requires
        grand_in(entries, c) is Some,
    ensures
        exists|j: int|
            0 <= j < entries.len() && (#[trigger] entries[j].cond) == c && grand_in(entries, c)
                == Some(entries[j].state),
    decreases entries.len(),
{
    if entries.len() > 0 && entries[0].cond != c {
        assert(forall|j: int|
            0 <= j < entries.len() - 1 ==> #[trigger] entries.drop_first()[j] == entries[j + 1]);
        lemma_grand_in_witness(entries.drop_first(), c);
        let j = choose|j: int|
            0 <= j < entries.drop_first().len() && (#[trigger] entries.drop_first()[j].cond) == c
                && grand_in(entries.drop_first(), c) == Some(entries.drop_first()[j].state);
        assert(entries[j + 1].cond == c && grand_in(entries, c) == Some(entries[j + 1].state));
    }
}

impl Default for TrapSet {
    /// Creates a trap set with no conditions configured.
    fn default() -> (r: TrapSet)
        ensures
            r.wf(),
            forall|c: Condition| r.state_of(c) is None,
    {
        let r = TrapSet { traps: Vec::new() };
        proof {
            assert forall|c: Condition| #[trigger] r.state_of(c) is None by {
                assert(r.entries().len() == 0);
            }
        }
        r
    }
}

impl TrapSet {
    /// Creates a trap set with no conditions configured.
    pub fn new() -> (r: TrapSet)
        ensures
            r.wf(),
            forall|c: Condition| r.state_of(c) is None,
    {
        Default::default()
    }

    /// Looks up where the entry for a condition is or would be.
    fn find_slot(&self, cond: Condition) -> (r: (usize, bool))
        requires
            self.wf(),
        ensures
            ({
                let (i, found) = r;
                &&& i <= self.entries().len()
                &&& found ==> i < self.entries().len() && self.entries()[i as int].cond == cond
                    && self.state_of(cond) == Some(self.entries()[i as int].state)
                &&& !found ==> self.state_of(cond) is None && (forall|j: int|
                    0 <= j < i ==> cond_key(#[trigger] self.entries()[j].cond) < cond_key(cond))
                    && (forall|j: int|
                    i <= j < self.entries().len() ==> cond_key(#[trigger] self.entries()[j].cond)
                        > cond_key(cond))
            }),
    {
        let n = self.traps.len();
        let mut i: usize = 0;
        while i < n && cond_key_exec(self.traps[i].cond) < cond_key_exec(cond)
            invariant
                self.wf(),
                i <= n,
                n == self.entries().len(),
                forall|j: int|
                    0 <= j < i ==> cond_key(#[trigger] self.entries()[j].cond) < cond_key(cond),
            decreases n - i,
        {
            i = i + 1;
        }
        if i < n && self.traps[i].cond == cond {
            proof {
                assert(forall|j: int| 0 <= j < i ==> (#[trigger] self.entries()[j].cond) != cond);
                lemma_grand_in_found(self.entries(), cond, i as int);
            }
            (i, true)
        } else {
            proof {
                if i < n {
                    lemma_cond_key_injective(self.entries()[i as int].cond, cond);
                }
                assert forall|j: int|
                    i <= j < self.entries().len() implies cond_key(
                    #[trigger] self.entries()[j].cond,
                ) > cond_key(cond) by {
                    if j > i {
                        assert(cond_key(self.entries()[i as int].cond) < cond_key(
                            self.entries()[j].cond,
                        ));
                    }
                    lemma_cond_key_injective(self.entries()[j].cond, cond);
                }
                assert forall|j: int|
                    0 <= j < self.entries().len() implies (#[trigger] self.entries()[j].cond)
                    != cond by {
                    lemma_cond_key_injective(self.entries()[j].cond, cond);
                }
                lemma_grand_in_absent(self.entries(), cond);
            }
            (i, false)
        }
    }

    /// Returns the current state for a signal.
    ///
    /// The first element is the currently configured trap action; the second
    /// is the action that was set before [`enter_subshell`](Self::enter_subshell)
    /// was called. Initial signal dispositions inherited on startup are not
    /// reflected here.
    pub fn get_state(&self, signal: Signal) -> (r: (Option<&TrapState>, Option<&TrapState>))
        requires
            self.wf(),
        ensures
            ({
                match self.state_of(Condition::Signal(signal)) {
                    None => r.0 is None && r.1 is None,
                    Some(g) => (match r.0 {
                        Some(t) => setting_as_trap(g.current_setting) == Some(*t),
                        None => setting_as_trap(g.current_setting) is None,
                    }) && (match r.1 {
                        Some(t) => (g.parent_setting matches Some(p) && setting_as_trap(p) == Some(
                            *t,
                        )),
                        None => (match g.parent_setting {
                            Some(p) => setting_as_trap(p) is None,
                            None => true,
                        }),
                    }),
                }
            }),
    {
        let (i, found) = self.find_slot(Condition::Signal(signal));
        if !found {
            return (None, None);
        }
        let entry = &self.traps[i];
        let current = entry.state.current_setting.as_trap();
        let parent = match &entry.state.parent_setting {
            Some(p) => p.as_trap(),
            None => None,
        };
        (current, parent)
    }

    /// Sets the `pending` flag of the state for the specified signal.
    ///
    /// This function does nothing if no trap action has been set for the
    /// signal.
    pub fn catch_signal(&mut self, signal: Signal)
        requires
            old(self).wf(),
        ensures
            final (self).wf(),
            forall|c: Condition|
                c != Condition::Signal(signal) ==> final (self).state_of(c) == old(self).state_of(
                    c,
                ),
            final (self).state_of(Condition::Signal(signal)) == (match old(self).state_of(
                Condition::Signal(signal),
            ) {
                Some(g) => Some(
                    (match g.current_setting {
                        Setting::UserSpecified(t) => (GrandState {
                            current_setting: Setting::UserSpecified(
                                (TrapState { pending: true, ..t }),
                            ),
                            ..g
                        }),
                        _ => g,
                    }),
                ),
                None => None,
            }),
    {
        let cond = Condition::Signal(signal);
        let (i, found) = self.find_slot(cond);
        if !found {
            return ;
        }
        let ghost entries0 = self.entries();
        let is_user = matches!(self.traps[i].state.current_setting, Setting::UserSpecified(_));
        if is_user {
            let mut taken = Setting::InitiallyDefaulted;
            core::mem::swap(&mut taken, &mut self.traps[i].state.current_setting);
            let updated = match taken {
                Setting::UserSpecified(t) => Setting::UserSpecified(
                    TrapState { pending: true, ..t },
                ),
                other => other,
            };
            self.traps[i].state.current_setting = updated;
        }
        proof {
            let e = self.entries()[i as int];
            assert(self.entries() =~= entries0.update(i as int, e));
            assert forall|p: int, q: int|
                0 <= p < q < entries0.len() implies (#[trigger] entries0[p].cond) != (
            #[trigger] entries0[q].cond) by {
                lemma_cond_key_injective(entries0[p].cond, entries0[q].cond);
            }
            assert forall|c: Condition| #[trigger]
                self.state_of(c) == if c == cond {
                    Some(e.state)
                } else {
                    grand_in(entries0, c)
                } by {
                lemma_grand_in_update(entries0, i as int, e, c);
            }
        }
    }

    /// Returns a signal that has been caught, clearing its `pending` flag.
    ///
    /// If more than one signal is pending, which one is returned is left
    /// open, but repeated calls drain them all: when this function returns
    /// `None`, no signal is pending.
    pub fn take_caught_signal(&mut self) -> (r: Option<(Signal, TrapState)>)
        requires
            old(self).wf(),
        ensures
            final (self).wf(),
            r is Some ==> final (self).pending_count() < old(self).pending_count(),
            match r {
                Some((sig, st)) => ({
                    &&& old(self).state_of(Condition::Signal(sig)) matches Some(g)
                        && g.current_setting matches Setting::UserSpecified(t) && t.pending && st
                        == (TrapState { pending: false, ..t }) && final (self).state_of(
                        Condition::Signal(sig),
                    ) == Some(
                        (GrandState { current_setting: Setting::UserSpecified(st), ..g }),
                    )
                    &&& forall|c: Condition|
                        c != Condition::Signal(sig) ==> final (self).state_of(c) == old(
                            self,
                        ).state_of(c)
                }),
                None => *final (self) == *old(self) && (forall|sig: Signal|
                    match #[trigger] old(self).state_of(Condition::Signal(sig)) {
                        Some(g) => match g.current_setting {
                            Setting::UserSpecified(t) => !t.pending,
                            _ => true,
                        },
                        None => true,
                    }),
            },
    {
        let n = self.traps.len();
        let mut i: usize = 0;
        while i < n
            invariant
                old(self).wf(),
                *self == *old(self),
                i <= n,
                n == self.entries().len(),
                forall|j: int|
                    0 <= j < i ==> !pending_signal_entry(#[trigger] self.entries()[j]),
            decreases n - i,
        {
            let found_sig = match &self.traps[i].cond {
                Condition::Signal(sig) => Some(*sig),
                Condition::Exit => None,
            };
            let is_pending = match &self.traps[i].state.current_setting {
                Setting::UserSpecified(t) => t.pending,
                _ => false,
            };
            if found_sig.is_some() && is_pending {
                let sig = match found_sig {
                    Some(s) => s,
                    None => {
                        proof {
                            assert(false);
                        }
                        return None;
                    },
                };
                let ghost entries0 = self.entries();
                let mut taken = Setting::InitiallyDefaulted;
                core::mem::swap(&mut taken, &mut self.traps[i].state.current_setting);
                let st = match taken {
                    Setting::UserSpecified(t) => TrapState { pending: false, ..t },
                    _ => {
                        proof {
                            assert(false);
                        }
                        return None;
                    },
                };
                self.traps[i].state.current_setting = Setting::UserSpecified(st.clone());
                proof {
                    let e = self.entries()[i as int];
                    assert(self.entries() =~= entries0.update(i as int, e));
                    assert forall|p: int, q: int|
                        0 <= p < q < entries0.len() implies (#[trigger] entries0[p].cond) != (
                    #[trigger] entries0[q].cond) by {
                        lemma_cond_key_injective(entries0[p].cond, entries0[q].cond);
                    }
                    assert(forall|j: int|
                        0 <= j < i ==> (#[trigger] entries0[j].cond) != Condition::Signal(sig));
                    lemma_grand_in_found(entries0, Condition::Signal(sig), i as int);
                    assert forall|c: Condition| #[trigger]
                        self.state_of(c) == if c == Condition::Signal(sig) {
                            Some(e.state)
                        } else {
                            grand_in(entries0, c)
                        } by {
                        lemma_grand_in_update(entries0, i as int, e, c);
                    }
                    lemma_count_pending_update(entries0, i as int, e);
                }
                return Some((sig, st));
            }
            i = i + 1;
        }
        proof {
            assert forall|sig: Signal|
                match #[trigger] old(self).state_of(Condition::Signal(sig)) {
                    Some(g) => match g.current_setting {
                        Setting::UserSpecified(t) => !t.pending,
                        _ => true,
                    },
                    None => true,
                } by {
                if old(self).state_of(Condition::Signal(sig)) is Some {
                    lemma_grand_in_witness(old(self).entries(), Condition::Signal(sig));
                }
            }
        }
        None
    }
}

/// An optional state with its remembered parent setting dropped.
pub open spec fn cleared_state(o: Option<GrandState>) -> Option<GrandState> {
    match o {
        Some(g) => Some(clear_parent(g)),
        None => None,
    }
}

/// Whether a setting is a user-specified command trap.
pub open spec fn is_user_command(s: Setting) -> bool {
    s matches Setting::UserSpecified(t) && t.action matches Action::Command(_)
}

/// The state of a condition after the shell enters a subshell: a
/// user-specified command trap moves to the parent slot and the current
/// setting resets to the default; any other state merely forgets its parent.
pub open spec fn subshell_state(g: GrandState) -> GrandState {
    if is_user_command(g.current_setting) {
        GrandState {
            current_setting: Setting::InitiallyDefaulted,
            parent_setting: Some(g.current_setting),
            internal_handler_enabled: g.internal_handler_enabled,
        }
    } else {
        GrandState { parent_setting: None, ..g }
    }
}

/// Whether entering a subshell resets the disposition of a signal: it does
/// exactly when the signal has a user-specified command trap and no internal
/// handler.
pub open spec fn subshell_resets(ts: TrapSet, h: Signal) -> bool {
    match ts.state_of(Condition::Signal(h)) {
        Some(g) => is_user_command(g.current_setting) && !g.internal_handler_enabled,
        None => false,
    }
}

/// Whether some entry of the sequence resets the disposition of a signal on
/// subshell entry.
pub open spec fn resets_in(entries: Seq<CondEntry>, h: Signal) -> bool {
    exists|j: int|
        0 <= j < entries.len() && (#[trigger] entries[j]).cond == Condition::Signal(h)
            && is_user_command(entries[j].state.current_setting)
            && !entries[j].state.internal_handler_enabled
}

/// The OS disposition of every configured signal equals the combination of
/// the user's setting and the internal-handler flag: catch while the internal
/// handler is enabled, and the disposition the user's setting asks for
/// otherwise. Every operation of [`TrapSet`] keeps this invariant; see the
/// `lemma_*_keeps_os_consistent` laws.
pub open spec fn os_consistent<S: SignalSystem>(ts: TrapSet, sys: S) -> bool {
    forall|sig: Signal|
        match #[trigger] ts.state_of(Condition::Signal(sig)) {
            Some(g) => sys.disposition(sig) == expected_disposition(g),
            None => true,
        }
}

/// What [`TrapSet::set_action`] guarantees, over the states of the trap set
/// and the signal system before and after the call.
pub open spec fn set_action_post<S: SignalSystem>(
    pre: TrapSet,
    post: TrapSet,
    sys_pre: S,
    sys_post: S,
    signal: Signal,
    action: Action,
    origin: Location,
    override_ignore: bool,
    r: Result<(), SetActionError>,
) -> bool {
    if signal == Signal::SIGKILL || signal == Signal::SIGSTOP {
        &&& r == Err::<(), SetActionError>(
            if signal == Signal::SIGKILL {
                SetActionError::SIGKILL
            } else {
                SetActionError::SIGSTOP
            },
        )
        &&& forall|c: Condition| post.state_of(c) == pre.state_of(c)
        &&& forall|h: Signal| sys_post.disposition(h) == sys_pre.disposition(h)
    } else {
        let cond = Condition::Signal(signal);
        let new_trap = TrapState { action, origin, pending: false };
        &&& forall|c: Condition|
            c != cond ==> post.state_of(c) == cleared_state(#[trigger] pre.state_of(c))
        &&& match r {
            Ok(()) => match pre.state_of(cond) {
                Some(g) => !(g.current_setting == Setting::InitiallyIgnored && !override_ignore)
                    && (if g.internal_handler_enabled {
                    post.state_of(cond) == Some(
                        (GrandState {
                            current_setting: Setting::UserSpecified(new_trap),
                            parent_setting: None,
                            internal_handler_enabled: true,
                        }),
                    ) && forall|h: Signal| sys_post.disposition(h) == sys_pre.disposition(h)
                } else {
                    post.state_of(cond) == Some(
                        (GrandState {
                            current_setting: Setting::UserSpecified(new_trap),
                            parent_setting: None,
                            internal_handler_enabled: false,
                        }),
                    ) && forall|h: Signal|
                        sys_post.disposition(h) == (if h == signal {
                            action_handling(action)
                        } else {
                            sys_pre.disposition(h)
                        })
                }),
                None => (!override_ignore ==> sys_pre.disposition(signal)
                    != SignalHandling::Ignore) && post.state_of(cond) == Some(
                    (GrandState {
                        current_setting: Setting::UserSpecified(new_trap),
                        parent_setting: None,
                        internal_handler_enabled: false,
                    }),
                ) && forall|h: Signal|
                    sys_post.disposition(h) == (if h == signal {
                        action_handling(action)
                    } else {
                        sys_pre.disposition(h)
                    }),
            },
            Err(SetActionError::InitiallyIgnored) => !override_ignore && match pre.state_of(cond) {
                Some(g) => g.current_setting == Setting::InitiallyIgnored && post.state_of(cond)
                    == Some(clear_parent(g)) && forall|h: Signal|
                    sys_post.disposition(h) == sys_pre.disposition(h),
                None => sys_pre.disposition(signal) == SignalHandling::Ignore && post.state_of(
                    cond,
                ) == Some(
                    (GrandState {
                        current_setting: Setting::InitiallyIgnored,
                        parent_setting: None,
                        internal_handler_enabled: false,
                    }),
                ) && forall|h: Signal| sys_post.disposition(h) == sys_pre.disposition(h),
            },
            Err(SetActionError::SystemError(_)) => !sys_pre.infallible() && post.state_of(cond)
                == cleared_state(pre.state_of(cond)) && (forall|h: Signal|
                h != signal ==> sys_post.disposition(h) == sys_pre.disposition(h)) && (match
            pre.state_of(cond) {
                Some(_) => sys_post.disposition(signal) == sys_pre.disposition(signal),
                None => sys_post.disposition(signal) == sys_pre.disposition(signal)
                    || sys_post.disposition(signal) == SignalHandling::Ignore,
            }),
            _ => false,
        }
    }
}

impl TrapSet {
    /// Drops the remembered parent setting of every condition.
    fn clear_parent_settings(&mut self)
        requires
            old(self).wf(),
        ensures
            final (self).wf(),
            forall|c: Condition|
                final (self).state_of(c) == cleared_state(#[trigger] old(self).state_of(c)),
    {
        let n = self.traps.len();
        let mut i: usize = 0;
        while i < n
            invariant
                n == self.entries().len(),
                i <= n,
                old(self).entries().len() == n,
                forall|j: int|
                    0 <= j < n ==> (#[trigger] self.entries()[j].cond) == old(
                        self,
                    ).entries()[j].cond,
                forall|j: int|
                    0 <= j < i ==> (#[trigger] self.entries()[j].state) == clear_parent(
                        old(self).entries()[j].state,
                    ),
                forall|j: int|
                    i <= j < n ==> (#[trigger] self.entries()[j].state) == old(
                        self,
                    ).entries()[j].state,
            decreases n - i,
        {
            self.traps[i].state.parent_setting = None;
            i = i + 1;
        }
        proof {
            assert forall|c: Condition| #[trigger]
                final (self).state_of(c) == cleared_state(old(self).state_of(c)) by {
                lemma_grand_in_pointwise(old(self).entries(), self.entries(), c);
            }
            assert(forall|j: int|
                0 <= j < n ==> (#[trigger] self.entries()[j].cond) == old(self).entries()[j].cond);
        }
    }

    /// Sets a trap action for a signal.
    ///
    /// The trap set tells the system the disposition the action asks for,
    /// unless an internal handler for the signal is in place, in which case
    /// only the logical setting changes. Setting a trap clears every
    /// condition's remembered parent setting.
    ///
    /// Traps can never be set for `SIGKILL` or `SIGSTOP`. Unless
    /// `override_ignore` is true, a trap cannot be set for a signal the shell
    /// inherited as ignored: the attempt records that fact and returns the
    /// error. A failure reported by the system is passed on as
    /// `SystemError`; with an infallible system, exactly the two signal
    /// errors and `InitiallyIgnored` remain possible.
    pub fn set_action<S: SignalSystem>(
        &mut self,
        system: &mut S,
        signal: Signal,
        action: Action,
        origin: Location,
        override_ignore: bool,
    ) -> (r: Result<(), SetActionError>)
        requires
            old(self).wf(),
        ensures
            final (self).wf(),
            final (system).infallible() == old(system).infallible(),
            set_action_post(
                *old(self),
                *final (self),
                *old(system),
                *final (system),
                signal,
                action,
                origin,
                override_ignore,
                r,
            ),
    {
        if matches!(signal, Signal::SIGKILL) {
            return Err(SetActionError::SIGKILL);
        }
        if matches!(signal, Signal::SIGSTOP) {
            return Err(SetActionError::SIGSTOP);
        }

        self.clear_parent_settings();
        let ghost mid = *self;
        let cond = Condition::Signal(signal);
        let handling = action_to_handling(&action);
        let state = TrapState { action, origin, pending: false };

        let (i, found) = self.find_slot(cond);
        if found {
            if !override_ignore && matches!(
                self.traps[i].state.current_setting,
                Setting::InitiallyIgnored,
            ) {
                return Err(SetActionError::InitiallyIgnored);
            }
            let ghost entries1 = self.entries();
            proof {
                assert forall|p: int, q: int|
                    0 <= p < q < entries1.len() implies (#[trigger] entries1[p].cond) != (
                #[trigger] entries1[q].cond) by {
                    lemma_cond_key_injective(entries1[p].cond, entries1[q].cond);
                }
            }
            if self.traps[i].state.internal_handler_enabled {
                self.traps[i].state.current_setting = Setting::UserSpecified(state);
                proof {
                    let e = self.entries()[i as int];
                    assert(self.entries() =~= entries1.update(i as int, e));
                    assert forall|c: Condition| #[trigger]
                        self.state_of(c) == if c == cond {
                            Some(e.state)
                        } else {
                            grand_in(entries1, c)
                        } by {
                        lemma_grand_in_update(entries1, i as int, e, c);
                    }
                }
                return Ok(());
            }
            match system.set_signal_handling(signal, handling) {
                Err(e) => {
                    return Err(SetActionError::SystemError(e));
                },
                Ok(_) => {},
            }
            self.traps[i].state = GrandState {
                current_setting: Setting::UserSpecified(state),
                parent_setting: None,
                internal_handler_enabled: false,
            };
            proof {
                let e = self.entries()[i as int];
                assert(self.entries() =~= entries1.update(i as int, e));
                assert forall|c: Condition| #[trigger]
                    self.state_of(c) == if c == cond {
                        Some(e.state)
                    } else {
                        grand_in(entries1, c)
                    } by {
                    lemma_grand_in_update(entries1, i as int, e, c);
                }
            }
            Ok(())
        } else {
            let ghost entries1 = self.entries();
            if !override_ignore {
                let prev = match system.set_signal_handling(signal, SignalHandling::Ignore) {
                    Err(e) => {
                        return Err(SetActionError::SystemError(e));
                    },
                    Ok(prev) => prev,
                };
                if matches!(prev, SignalHandling::Ignore) {
                    let entry = CondEntry {
                        cond,
                        state: GrandState {
                            current_setting: Setting::InitiallyIgnored,
                            parent_setting: None,
                            internal_handler_enabled: false,
                        },
                    };
                    self.insert_sorted(i, entry);
                    return Err(SetActionError::InitiallyIgnored);
                }
            }
            match system.set_signal_handling(signal, handling) {
                Err(e) => {
                    return Err(SetActionError::SystemError(e));
                },
                Ok(_) => {},
            }
            let entry = CondEntry {
                cond,
                state: GrandState {
                    current_setting: Setting::UserSpecified(state),
                    parent_setting: None,
                    internal_handler_enabled: false,
                },
            };
            self.insert_sorted(i, entry);
            Ok(())
        }
    }

    /// Inserts an entry at the position [`find_slot`](Self::find_slot) chose
    /// for its condition.
    fn insert_sorted(&mut self, i: usize, entry: CondEntry)
        requires
            old(self).wf(),
            i <= old(self).entries().len(),
            forall|j: int|
                0 <= j < i ==> cond_key(#[trigger] old(self).entries()[j].cond) < cond_key(
                    entry.cond,
                ),
            forall|j: int|
                i <= j < old(self).entries().len() ==> cond_key(
                    #[trigger] old(self).entries()[j].cond,
                ) > cond_key(entry.cond),
        ensures
            final (self).wf(),
            forall|c: Condition|
                final (self).state_of(c) == if c == entry.cond {
                    Some(entry.state)
                } else {
                    old(self).state_of(c)
                },
    {
        self.traps.insert(i, entry);
        proof {
            let entries0 = old(self).entries();
            assert(self.entries() =~= entries0.insert(i as int, entry));
            assert forall|j: int|
                0 <= j < entries0.len() implies (#[trigger] entries0[j].cond) != entry.cond by {
                lemma_cond_key_injective(entries0[j].cond, entry.cond);
            }
            assert forall|c: Condition| #[trigger]
                final (self).state_of(c) == if c == entry.cond {
                    Some(entry.state)
                } else {
                    old(self).state_of(c)
                } by {
                lemma_grand_in_insert(entries0, i as int, entry, c);
            }
            assert forall|p: int, q: int|
                0 <= p < q < self.entries().len() implies cond_key(
                #[trigger] self.entries()[p].cond,
            ) < cond_key(#[trigger] self.entries()[q].cond) by {
                let e = self.entries();
                if q < i {
                    assert(e[p] == entries0[p] && e[q] == entries0[q]);
                } else if p < i && q == i {
                    assert(e[p] == entries0[p] && e[q] == entry);
                } else if p < i && q > i {
                    assert(e[p] == entries0[p] && e[q] == entries0[q - 1]);
                } else if p == i {
                    assert(e[p] == entry && e[q] == entries0[q - 1]);
                } else {
                    assert(e[p] == entries0[p - 1] && e[q] == entries0[q - 1]);
                }
            }
        }
    }

    /// Resets existing command traps to the default on entering a subshell.
    ///
    /// POSIX requires that traps other than `Ignore` be reset when entering a
    /// subshell, while ignored traps are preserved. The original trap states
    /// are remembered as the parent states, which
    /// [`get_state`](Self::get_state) and [`iter`](Self::iter) report.
    pub fn enter_subshell<S: SignalSystem>(&mut self, system: &mut S)
        requires
            old(self).wf(),
        ensures
            final (self).wf(),
            final (system).infallible() == old(system).infallible(),
            forall|c: Condition|
                final (self).state_of(c) == (match #[trigger] old(self).state_of(c) {
                    Some(g) => Some(subshell_state(g)),
                    None => None,
                }),
            forall|h: Signal|
                final (system).disposition(h) == old(system).disposition(h) || final (
                system).disposition(h) == SignalHandling::Default,
            old(system).infallible() ==> (forall|h: Signal|
                final (system).disposition(h) == (if subshell_resets(*old(self), h) {
                    SignalHandling::Default
                } else {
                    old(system).disposition(h)
                })),
    {
        let n = self.traps.len();
        let mut i: usize = 0;
        proof {
            assert(old(self).entries().take(0) =~= Seq::<CondEntry>::empty());
        }
        while i < n
            invariant
                n == self.entries().len(),
                i <= n,
                old(self).wf(),
                old(self).entries().len() == n,
                forall|j: int|
                    0 <= j < n ==> (#[trigger] self.entries()[j].cond) == old(
                        self,
                    ).entries()[j].cond,
                forall|j: int|
                    0 <= j < i ==> (#[trigger] self.entries()[j].state) == subshell_state(
                        old(self).entries()[j].state,
                    ),
                forall|j: int|
                    i <= j < n ==> (#[trigger] self.entries()[j].state) == old(
                        self,
                    ).entries()[j].state,
                system.infallible() == old(system).infallible(),
                forall|h: Signal|
                    system.disposition(h) == old(system).disposition(h) || system.disposition(h)
                        == SignalHandling::Default,
                old(system).infallible() ==> forall|h: Signal|
                    system.disposition(h) == (if resets_in(
                        old(self).entries().take(i as int),
                        h,
                    ) {
                        SignalHandling::Default
                    } else {
                        old(system).disposition(h)
                    }),
            decreases n - i,
        {
            let ghost prefix = old(self).entries().take(i as int);
            let ghost prefix1 = old(self).entries().take(i + 1 as int);
            proof {
                assert(prefix1.drop_last() =~= prefix);
                assert(prefix1.last() == old(self).entries()[i as int]);
                assert forall|h: Signal| #[trigger]
                    resets_in(prefix1, h) == (resets_in(prefix, h) || (prefix1.last().cond
                        == Condition::Signal(h) && is_user_command(
                        prefix1.last().state.current_setting,
                    ) && !prefix1.last().state.internal_handler_enabled)) by {
                    if resets_in(prefix1, h) {
                        let j = choose|j: int|
                            0 <= j < prefix1.len() && (#[trigger] prefix1[j]).cond
                                == Condition::Signal(h) && is_user_command(
                                prefix1[j].state.current_setting,
                            ) && !prefix1[j].state.internal_handler_enabled;
                        if j < prefix.len() {
                            assert(prefix[j] == prefix1[j]);
                            assert(resets_in(prefix, h));
                        }
                    }
                    if resets_in(prefix, h) {
                        let j = choose|j: int|
                            0 <= j < prefix.len() && (#[trigger] prefix[j]).cond
                                == Condition::Signal(h) && is_user_command(
                                prefix[j].state.current_setting,
                            ) && !prefix[j].state.internal_handler_enabled;
                        assert(prefix1[j] == prefix[j]);
                        assert(resets_in(prefix1, h));
                    }
                }
            }
            let is_cmd = match &self.traps[i].state.current_setting {
                Setting::UserSpecified(t) => matches!(t.action, Action::Command(_)),
                _ => false,
            };
            if is_cmd {
                let mut taken = Setting::InitiallyDefaulted;
                core::mem::swap(&mut taken, &mut self.traps[i].state.current_setting);
                self.traps[i].state.parent_setting = Some(taken);
                let maybe_signal = match &self.traps[i].cond {
                    Condition::Signal(sig) => Some(*sig),
                    Condition::Exit => None,
                };
                if let Some(sig) = maybe_signal {
                    if !self.traps[i].state.internal_handler_enabled {
                        let _ = system.set_signal_handling(sig, SignalHandling::Default);
                    }
                }
            } else {
                self.traps[i].state.parent_setting = None;
            }
            i = i + 1;
        }
        proof {
            assert(old(self).entries().take(n as int) =~= old(self).entries());
            assert forall|c: Condition| #[trigger]
                final (self).state_of(c) == (match old(self).state_of(c) {
                    Some(g) => Some(subshell_state(g)),
                    None => None,
                }) by {
                lemma_grand_in_pointwise(old(self).entries(), self.entries(), c);
            }
            if old(system).infallible() {
                assert forall|h: Signal| #[trigger]
                    resets_in(old(self).entries(), h) == subshell_resets(*old(self), h) by {
                    if resets_in(old(self).entries(), h) {
                        let j = choose|j: int|
                            0 <= j < old(self).entries().len() && (#[trigger] old(
                                self,
                            ).entries()[j]).cond == Condition::Signal(h) && is_user_command(
                                old(self).entries()[j].state.current_setting,
                            ) && !old(self).entries()[j].state.internal_handler_enabled;
                        assert forall|k: int|
                            0 <= k < j implies (#[trigger] old(self).entries()[k].cond)
                            != Condition::Signal(h) by {
                            lemma_cond_key_injective(
                                old(self).entries()[k].cond,
                                Condition::Signal(h),
                            );
                        }
                        lemma_grand_in_found(old(self).entries(), Condition::Signal(h), j);
                    }
                    if subshell_resets(*old(self), h) {
                        lemma_grand_in_witness(old(self).entries(), Condition::Signal(h));
                    }
                }
            }
        }
    }

    /// Installs the internal handler for `SIGCHLD`, telling the system to
    /// catch the signal. A second call is a no-op. The user-visible setting
    /// is not affected; a signal never configured before is recorded as
    /// initially defaulted or initially ignored according to the disposition
    /// the system reports.
    pub fn enable_sigchld_handler<S: SignalSystem>(&mut self, system: &mut S) -> (r: Result<
        (),
        Errno,
    >)
        requires
            old(self).wf(),
        ensures
            final (self).wf(),
            final (system).infallible() == old(system).infallible(),
            old(system).infallible() ==> r is Ok,
            match r {
                Ok(()) => match old(self).state_of(Condition::Signal(Signal::SIGCHLD)) {
                    Some(g) => if g.internal_handler_enabled {
                        (forall|c: Condition|
                            final (self).state_of(c) == old(self).state_of(c)) && forall|h: Signal|
                            final (system).disposition(h) == old(system).disposition(h)
                    } else {
                        final (self).state_of(Condition::Signal(Signal::SIGCHLD)) == Some(
                            (GrandState { internal_handler_enabled: true, ..g }),
                        ) && (forall|c: Condition|
                            c != Condition::Signal(Signal::SIGCHLD) ==> final (self).state_of(c)
                                == old(self).state_of(c)) && forall|h: Signal|
                            final (system).disposition(h) == (if h == Signal::SIGCHLD {
                                SignalHandling::Catch
                            } else {
                                old(system).disposition(h)
                            })
                    },
                    None => final (self).state_of(Condition::Signal(Signal::SIGCHLD)) == Some(
                        (GrandState {
                            current_setting: (if old(system).disposition(Signal::SIGCHLD)
                                == SignalHandling::Ignore {
                                Setting::InitiallyIgnored
                            } else {
                                Setting::InitiallyDefaulted
                            }),
                            parent_setting: None,
                            internal_handler_enabled: true,
                        }),
                    ) && (forall|c: Condition|
                        c != Condition::Signal(Signal::SIGCHLD) ==> final (self).state_of(c) == old(
                            self,
                        ).state_of(c)) && forall|h: Signal|
                        final (system).disposition(h) == (if h == Signal::SIGCHLD {
                            SignalHandling::Catch
                        } else {
                            old(system).disposition(h)
                        }),
                },
                Err(_) => !old(system).infallible() && (forall|c: Condition|
                    final (self).state_of(c) == old(self).state_of(c)) && forall|h: Signal|
                    final (system).disposition(h) == old(system).disposition(h),
            },
    {
        let cond = Condition::Signal(Signal::SIGCHLD);
        let (i, found) = self.find_slot(cond);
        if found && self.traps[i].state.internal_handler_enabled {
            return Ok(());
        }
        let prev = match system.set_signal_handling(Signal::SIGCHLD, SignalHandling::Catch) {
            Err(e) => {
                return Err(e);
            },
            Ok(prev) => prev,
        };
        if found {
            let ghost entries1 = self.entries();
            proof {
                assert forall|p: int, q: int|
                    0 <= p < q < entries1.len() implies (#[trigger] entries1[p].cond) != (
                #[trigger] entries1[q].cond) by {
                    lemma_cond_key_injective(entries1[p].cond, entries1[q].cond);
                }
            }
            self.traps[i].state.internal_handler_enabled = true;
            proof {
                let e = self.entries()[i as int];
                assert(self.entries() =~= entries1.update(i as int, e));
                assert forall|c: Condition| #[trigger]
                    self.state_of(c) == if c == cond {
                        Some(e.state)
                    } else {
                        grand_in(entries1, c)
                    } by {
                    lemma_grand_in_update(entries1, i as int, e, c);
                }
            }
        } else {
            let current_setting = if matches!(prev, SignalHandling::Ignore) {
                Setting::InitiallyIgnored
            } else {
                Setting::InitiallyDefaulted
            };
            let entry = CondEntry {
                cond,
                state: GrandState {
                    current_setting,
                    parent_setting: None,
                    internal_handler_enabled: true,
                },
            };
            self.insert_sorted(i, entry);
        }
        Ok(())
    }

    /// Uninstalls the internal handlers installed by this trap set, restoring
    /// the disposition the user's current setting asks for. Handlers for
    /// existing user traps are left in place.
    pub fn disable_internal_handlers<S: SignalSystem>(&mut self, system: &mut S) -> (r: Result<
        (),
        Errno,
    >)
        requires
            old(self).wf(),
        ensures
            final (self).wf(),
            final (system).infallible() == old(system).infallible(),
            old(system).infallible() ==> r is Ok,
            match old(self).state_of(Condition::Signal(Signal::SIGCHLD)) {
                Some(g) => if g.internal_handler_enabled {
                    match r {
                        Ok(()) => final (self).state_of(Condition::Signal(Signal::SIGCHLD))
                            == Some((GrandState { internal_handler_enabled: false, ..g })) && (
                        forall|c: Condition|
                            c != Condition::Signal(Signal::SIGCHLD) ==> final (self).state_of(c)
                                == old(self).state_of(c)) && forall|h: Signal|
                            final (system).disposition(h) == (if h == Signal::SIGCHLD {
                                setting_handling(g.current_setting)
                            } else {
                                old(system).disposition(h)
                            }),
                        Err(_) => !old(system).infallible() && (forall|c: Condition|
                            final (self).state_of(c) == old(self).state_of(c)) && forall|h: Signal|
                            final (system).disposition(h) == old(system).disposition(h),
                    }
                } else {
                    r is Ok && (forall|c: Condition|
                        final (self).state_of(c) == old(self).state_of(c)) && forall|h: Signal|
                        final (system).disposition(h) == old(system).disposition(h)
                },
                None => r is Ok && (forall|c: Condition|
                    final (self).state_of(c) == old(self).state_of(c)) && forall|h: Signal|
                    final (system).disposition(h) == old(system).disposition(h),
            },
    {
        let cond = Condition::Signal(Signal::SIGCHLD);
        let (i, found) = self.find_slot(cond);
        if !found {
            return Ok(());
        }
        if !self.traps[i].state.internal_handler_enabled {
            return Ok(());
        }
        let handling = match &self.traps[i].state.current_setting {
            Setting::InitiallyDefaulted => SignalHandling::Default,
            Setting::InitiallyIgnored => SignalHandling::Ignore,
            Setting::UserSpecified(t) => action_to_handling(&t.action),
        };
        match system.set_signal_handling(Signal::SIGCHLD, handling) {
            Err(e) => {
                return Err(e);
            },
            Ok(_) => {},
        }
        let ghost entries1 = self.entries();
        proof {
            assert forall|p: int, q: int|
                0 <= p < q < entries1.len() implies (#[trigger] entries1[p].cond) != (
            #[trigger] entries1[q].cond) by {
                lemma_cond_key_injective(entries1[p].cond, entries1[q].cond);
            }
        }
        self.traps[i].state.internal_handler_enabled = false;
        proof {
            let e = self.entries()[i as int];
            assert(self.entries() =~= entries1.update(i as int, e));
            assert forall|c: Condition| #[trigger]
                self.state_of(c) == if c == cond {
                    Some(e.state)
                } else {
                    grand_in(entries1, c)
                } by {
                lemma_grand_in_update(entries1, i as int, e, c);
            }
        }
        Ok(())
    }
}

/// The items [`TrapSet::iter`] reports: each signal condition whose current
/// or parent setting is user-specified, in condition order.
pub open spec fn iter_items(entries: Seq<CondEntry>) -> Seq<
    (Signal, Option<TrapState>, Option<TrapState>),
>
    decreases entries.len(),
{
    if entries.len() == 0 {
        Seq::empty()
    } else {
        let rest = iter_items(entries.drop_first());
        match entries[0].cond {
            Condition::Signal(sig) => {
                let current = setting_as_trap(entries[0].state.current_setting);
                let parent = match entries[0].state.parent_setting {
                    Some(p) => setting_as_trap(p),
                    None => None,
                };
                if current is Some || parent is Some {
                    seq![(sig, current, parent)] + rest
                } else {
                    rest
                }
            },
            Condition::Exit => rest,
        }
    }
}

impl TrapSet {
    /// Returns the signal trap actions configured in this trap set, in
    /// condition order: each entry carries the signal, the currently
    /// configured trap action, and the action that was set before
    /// [`enter_subshell`](Self::enter_subshell) was called.
    pub fn iter(&self) -> (r: Vec<(Signal, Option<TrapState>, Option<TrapState>)>)
        ensures
            r@ == iter_items(self.entries()),
    {
        let mut r: Vec<(Signal, Option<TrapState>, Option<TrapState>)> = Vec::new();
        let n = self.traps.len();
        let mut i: usize = 0;
        proof {
            assert(self.entries().skip(0) =~= self.entries());
        }
        while i < n
            invariant
                i <= n,
                n == self.entries().len(),
                iter_items(self.entries()) =~= r@ + iter_items(self.entries().skip(i as int)),
            decreases n - i,
        {
            let ghost suffix = self.entries().skip(i as int);
            proof {
                assert(suffix[0] == self.entries()[i as int]);
                assert(suffix.drop_first() =~= self.entries().skip(i + 1 as int));
            }
            let entry = &self.traps[i];
            if let Condition::Signal(sig) = &entry.cond {
                let current = match &entry.state.current_setting {
                    Setting::UserSpecified(t) => Some(t.clone()),
                    _ => None,
                };
                let parent = match &entry.state.parent_setting {
                    Some(Setting::UserSpecified(t)) => Some(t.clone()),
                    _ => None,
                };
                if current.is_some() || parent.is_some() {
                    let ghost prev = r@;
                    r.push((*sig, current, parent));
                    proof {
                        assert(r@ =~= prev.push(r@.last()));
                    }
                }
            }
            i = i + 1;
            proof {
                assert(iter_items(self.entries()) =~= r@ + iter_items(
                    self.entries().skip(i as int),
                ));
            }
        }
        proof {
            assert(self.entries().skip(n as int) =~= Seq::<CondEntry>::empty());
            assert(iter_items(self.entries()) =~= r@);
        }
        r
    }
}

/// Trap OS disposition: `set_action` leaves the system disposition of every
/// configured signal equal to the merge of the user's setting and the
/// internal-handler flag, whether it succeeded or reported an error.
pub proof fn lemma_set_action_keeps_os_consistent<S: SignalSystem>(
    pre: TrapSet,
    post: TrapSet,
    sys_pre: S,
    sys_post: S,
    signal: Signal,
    action: Action,
    origin: Location,
    override_ignore: bool,
    r: Result<(), SetActionError>,
)
    requires
        os_consistent(pre, sys_pre),
        set_action_post(pre, post, sys_pre, sys_post, signal, action, origin, override_ignore, r),
    ensures
        os_consistent(post, sys_post),
{
    assert forall|sig: Signal|
        match #[trigger] post.state_of(Condition::Signal(sig)) {
            Some(g) => sys_post.disposition(sig) == expected_disposition(g),
            None => true,
        } by {
        assert(pre.state_of(Condition::Signal(sig)) is Some ==> sys_pre.disposition(sig)
            == expected_disposition(pre.state_of(Condition::Signal(sig))->0));
    }
}

/// Trap OS disposition: entering a subshell keeps the system disposition of
/// every configured signal equal to the merge of the user's setting and the
/// internal-handler flag.
pub proof fn lemma_enter_subshell_keeps_os_consistent<S: SignalSystem>(
    pre: TrapSet,
    post: TrapSet,
    sys_pre: S,
    sys_post: S,
)
    requires
        os_consistent(pre, sys_pre),
        sys_pre.infallible(),
        forall|c: Condition|
            post.state_of(c) == (match #[trigger] pre.state_of(c) {
                Some(g) => Some(subshell_state(g)),
                None => None,
            }),
        forall|h: Signal|
            sys_post.disposition(h) == (if subshell_resets(pre, h) {
                SignalHandling::Default
            } else {
                sys_pre.disposition(h)
            }),
    ensures
        os_consistent(post, sys_post),
{
    assert forall|sig: Signal|
        match #[trigger] post.state_of(Condition::Signal(sig)) {
            Some(g) => sys_post.disposition(sig) == expected_disposition(g),
            None => true,
        } by {
        assert(post.state_of(Condition::Signal(sig)) == (match pre.state_of(
            Condition::Signal(sig),
        ) {
            Some(g) => Some(subshell_state(g)),
            None => None,
        }));
        assert(pre.state_of(Condition::Signal(sig)) is Some ==> sys_pre.disposition(sig)
            == expected_disposition(pre.state_of(Condition::Signal(sig))->0));
    }
}

/// Trap OS disposition: enabling the internal `SIGCHLD` handler keeps the
/// system disposition of every configured signal equal to the merge of the
/// user's setting and the internal-handler flag.
pub proof fn lemma_enable_sigchld_keeps_os_consistent<S: SignalSystem>(
    pre: TrapSet,
    post: TrapSet,
    sys_pre: S,
    sys_post: S,
)
    requires
        os_consistent(pre, sys_pre),
        match pre.state_of(Condition::Signal(Signal::SIGCHLD)) {
            Some(g) => if g.internal_handler_enabled {
                (forall|c: Condition| post.state_of(c) == pre.state_of(c)) && forall|h: Signal|
                    sys_post.disposition(h) == sys_pre.disposition(h)
            } else {
                post.state_of(Condition::Signal(Signal::SIGCHLD)) == Some(
                    (GrandState { internal_handler_enabled: true, ..g }),
                ) && (forall|c: Condition|
                    c != Condition::Signal(Signal::SIGCHLD) ==> post.state_of(c) == pre.state_of(
                        c,
                    )) && forall|h: Signal|
                    sys_post.disposition(h) == (if h == Signal::SIGCHLD {
                        SignalHandling::Catch
                    } else {
                        sys_pre.disposition(h)
                    })
            },
            None => post.state_of(Condition::Signal(Signal::SIGCHLD)) == Some(
                (GrandState {
                    current_setting: (if sys_pre.disposition(Signal::SIGCHLD)
                        == SignalHandling::Ignore {
                        Setting::InitiallyIgnored
                    } else {
                        Setting::InitiallyDefaulted
                    }),
                    parent_setting: None,
                    internal_handler_enabled: true,
                }),
            ) && (forall|c: Condition|
                c != Condition::Signal(Signal::SIGCHLD) ==> post.state_of(c) == pre.state_of(c))
                && forall|h: Signal|
                sys_post.disposition(h) == (if h == Signal::SIGCHLD {
                    SignalHandling::Catch
                } else {
                    sys_pre.disposition(h)
                }),
        },
    ensures
        os_consistent(post, sys_post),
{
    assert forall|sig: Signal|
        match #[trigger] post.state_of(Condition::Signal(sig)) {
            Some(g) => sys_post.disposition(sig) == expected_disposition(g),
            None => true,
        } by {
        assert(pre.state_of(Condition::Signal(sig)) is Some ==> sys_pre.disposition(sig)
            == expected_disposition(pre.state_of(Condition::Signal(sig))->0));
    }
}

/// Trap OS disposition: disabling the internal handlers keeps the system
/// disposition of every configured signal equal to the merge of the user's
/// setting and the internal-handler flag.
pub proof fn lemma_disable_internal_keeps_os_consistent<S: SignalSystem>(
    pre: TrapSet,
    post: TrapSet,
    sys_pre: S,
    sys_post: S,
)
    requires
        os_consistent(pre, sys_pre),
        match pre.state_of(Condition::Signal(Signal::SIGCHLD)) {
            Some(g) => if g.internal_handler_enabled {
                post.state_of(Condition::Signal(Signal::SIGCHLD)) == Some(
                    (GrandState { internal_handler_enabled: false, ..g }),
                ) && (forall|c: Condition|
                    c != Condition::Signal(Signal::SIGCHLD) ==> post.state_of(c) == pre.state_of(
                        c,
                    )) && forall|h: Signal|
                    sys_post.disposition(h) == (if h == Signal::SIGCHLD {
                        setting_handling(g.current_setting)
                    } else {
                        sys_pre.disposition(h)
                    })
            } else {
                (forall|c: Condition| post.state_of(c) == pre.state_of(c)) && forall|h: Signal|
                    sys_post.disposition(h) == sys_pre.disposition(h)
            },
            None => (forall|c: Condition| post.state_of(c) == pre.state_of(c)) && forall|h: Signal|
                sys_post.disposition(h) == sys_pre.disposition(h),
        },
    ensures
        os_consistent(post, sys_post),
{
    assert forall|sig: Signal|
        match #[trigger] post.state_of(Condition::Signal(sig)) {
            Some(g) => sys_post.disposition(sig) == expected_disposition(g),
            None => true,
        } by {
        assert(pre.state_of(Condition::Signal(sig)) is Some ==> sys_pre.disposition(sig)
            == expected_disposition(pre.state_of(Condition::Signal(sig))->0));
    }
}

/// The number of entries with a pending user trap for a signal.
pub open spec fn count_pending(entries: Seq<CondEntry>) -> nat
    decreases entries.len(),
{
    if entries.len() == 0 {
        0
    } else {
        (if pending_signal_entry(entries[0]) {
            1nat
        } else {
            0nat
        }) + count_pending(entries.drop_first())
    }
}

proof fn lemma_count_pending_update(entries: Seq<CondEntry>, i: int, e: CondEntry)
    requires
        0 <= i < entries.len(),
        pending_signal_entry(entries[i]),
        !pending_signal_entry(e),
    ensures
        count_pending(entries.update(i, e)) < count_pending(entries),
    decreases entries.len(),
{
    let updated = entries.update(i, e);
    if i == 0 {
        assert(updated[0] == e);
        assert(updated.drop_first() =~= entries.drop_first());
    } else {
        assert(updated[0] == entries[0]);
        assert(updated.drop_first() =~= entries.drop_first().update(i - 1, e));
        lemma_count_pending_update(entries.drop_first(), i - 1, e);
    }
}

/// Whether an entry is a signal condition with a pending user trap.
pub open spec fn pending_signal_entry(e: CondEntry) -> bool {
    e.cond matches Condition::Signal(_) && (e.state.current_setting matches Setting::UserSpecified(
        t,
    ) && t.pending)
}

/// The key that orders conditions.
fn cond_key_exec(c: Condition) -> (r: i32)
    ensures
        r as int == cond_key(c),
{
    match c {
        Condition::Exit => 0,
        Condition::Signal(s) => 1 + s.number(),
    }
}

} // verus!
