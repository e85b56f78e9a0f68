//! The service record: the immutable, validated description of one
//! managed unit, exactly as the loader hands it over.

use vstd::prelude::*;
use vstd::string::StringExecFns;
use crate::version::Version;

verus! {

/// A command with its ordered argument list.
#[derive(Debug)]
pub struct Command {
    pub command: String,
    pub arguments: Option<Vec<String>>,
}

/// A span of time: a startup or termination delay.
#[derive(Clone, Copy, Debug, PartialEq, Eq, Structural)]
pub struct Delay {
    pub secs: u64,
    pub nanos: u32,
}

/// The schema tag of a record.
#[derive(Clone, Copy, Debug, PartialEq, Eq, Structural)]
pub struct Meta {
    pub version: Version,
}

/// How a service is started: its command, an optional run-as user, the
/// ids it must start after, and an optional startup delay.
#[derive(Debug)]
pub struct Start {
    pub command: Command,
    pub user: Option<String>,
    pub dependencies: Option<Vec<String>>,
    pub delay: Option<Delay>,
}

/// Whether and how often a service is respawned after it exits.
#[derive(Clone, Copy, Debug, PartialEq, Eq, Structural)]
pub enum RestartStrategy {
    Never,
    OnFailure,
    Always,
}

/// The restart policy of a record: a strategy and the maximum number
/// of attempts.
#[derive(Clone, Copy, Debug, PartialEq, Eq, Structural)]
pub struct Restart {
    pub strategy: RestartStrategy,
    pub attempts: u64,
}

/// Reads a strategy tag as records carry it: exactly `never`,
/// `on-failure` or `always`; anything else is rejected.
pub fn restart_strategy_from(s: &String) -> (r: Option<RestartStrategy>)
    ensures
        r == Some(RestartStrategy::Never) <==> s@ == "never"@,
        r == Some(RestartStrategy::OnFailure) <==> s@ == "on-failure"@,
        r == Some(RestartStrategy::Always) <==> s@ == "always"@,
        r is None <==> (s@ != "never"@ && s@ != "on-failure"@ && s@ != "always"@),
{
    proof {
        broadcast use vstd::string::group_string_axioms;

        reveal_strlit("never");
        reveal_strlit("on-failure");
        reveal_strlit("always");
        assert("never"@.len() == 5);
        assert("on-failure"@.len() == 10);
        assert("always"@.len() == 6);
    }
    if *s == String::from_str("never") {
        Some(RestartStrategy::Never)
    } else if *s == String::from_str("on-failure") {
        Some(RestartStrategy::OnFailure)
    } else if *s == String::from_str("always") {
        Some(RestartStrategy::Always)
    } else {
        None
    }
}

/// How a service is stopped: a shutdown command, or a signal delivered
/// to the running process.
#[derive(Debug)]
pub enum CommandOrSignal {
    Command(Command),
    Signal(String),
}

/// The termination descriptor: the closed command-or-signal choice,
/// services that must be stopped first, and a delay before escalation.
#[derive(Debug)]
pub struct Termination {
    pub command_or_signal: CommandOrSignal,
    pub before: Option<Vec<String>>,
    pub delay: Option<Delay>,
}

/// The environment a process is given: whether the inherited one is
/// cleared, and extra variables as ordered name-value pairs.
#[derive(Debug)]
pub struct Environment {
    pub clear: Option<bool>,
    pub variables: Option<Vec<(String, String)>>,
}

/// Paths the standard streams are redirected to.
#[derive(Debug)]
pub struct Log {
    pub stdin: Option<String>,
    pub stdout: Option<String>,
    pub stderr: Option<String>,
}

/// The escalating health-check ladder, least to most invasive.
#[derive(Debug)]
pub struct Diagnosis {
    pub level1: Option<Command>,
    pub level2: Option<Command>,
    pub level3: Option<Command>,
    pub level4: Option<Command>,
    pub level5: Option<Command>,
}

impl Diagnosis {
    /// A ladder with no check configured at any level.
    pub fn none() -> (r: Diagnosis)
        ensures
            r.level1 is None,
            r.level2 is None,
            r.level3 is None,
            r.level4 is None,
            r.level5 is None,
    {
        Diagnosis { level1: None, level2: None, level3: None, level4: None, level5: None }
    }

    /// The check configured at `level`, counted from one.
    pub fn level(&self, level: usize) -> (r: &Option<Command>)
        requires
            1 <= level <= 5,
        ensures
            level == 1 ==> r == &self.level1,
            level == 2 ==> r == &self.level2,
            level == 3 ==> r == &self.level3,
            level == 4 ==> r == &self.level4,
            level == 5 ==> r == &self.level5,
    {
        if level == 1 {
            &self.level1
        } else if level == 2 {
            &self.level2
        } else if level == 3 {
            &self.level3
        } else if level == 4 {
            &self.level4
        } else {
            &self.level5
        }
    }
}

/// A failed health check at position `i` of the ladder: the check ran
/// and exited non-zero. `None` marks a level that is not configured or
/// whose check passed.
pub open spec fn check_failed(results: Seq<Option<i32>>, i: int) -> bool {
    results[i] matches Some(c) && c != 0
}

/// The health severity a completed diagnosis cycle reports: the first
/// level, least invasive first, whose check command exited non-zero.
/// `None` where every configured check passed.
pub fn health_severity(results: &Vec<Option<i32>>) -> (r: Option<usize>)
    requires
        results@.len() == 5,
    ensures
        r matches Some(i) ==> 0 <= i < 5 && check_failed(results@, i as int) && forall|j: int|
            0 <= j < i ==> !check_failed(results@, j),
        r is None ==> forall|j: int| 0 <= j < 5 ==> !check_failed(results@, j),
{
    let mut i: usize = 0;
    while i < 5
        invariant
            0 <= i <= 5,
            results@.len() == 5,
            forall|j: int| 0 <= j < i ==> !check_failed(results@, j),
        decreases 5 - i,
    {
        if let Some(code) = results[i] {
            if code != 0 {
                return Some(i);
            }
        }
        i += 1;
    }
    None
}

/// One managed unit, immutable after load. Field names follow the
/// record schema.
#[derive(Debug)]
pub struct Service {
    pub meta: Meta,
    pub id: String,
    pub start: Start,
    pub restart: Restart,
    pub termination: Option<Termination>,
    pub environment: Option<Environment>,
    pub log: Option<Log>,
    pub diagnosis: Diagnosis,
}

impl Service {
    /// The unique id of this service: the graph's node key.
    pub fn id(&self) -> (r: &String)
        ensures
            r == &self.id,
    {
        &self.id
    }

    /// The start descriptor of this service.
    pub fn start(&self) -> (r: &Start)
        ensures
            r == &self.start,
    {
        &self.start
    }

    /// The ids this service must start after, as the record declares
    /// them; an absent list means no dependencies.
    pub open spec fn spec_dependencies(&self) -> Seq<Seq<char>> {
        match self.start.dependencies {
            Some(v) => v.deep_view(),
            None => Seq::empty(),
        }
    }

    /// The ids that must be stopped before this service is terminated,
    /// as the record declares them.
    pub open spec fn spec_before(&self) -> Seq<Seq<char>> {
        match self.termination {
            Some(t) => match t.before {
                Some(v) => v.deep_view(),
                None => Seq::empty(),
            },
            None => Seq::empty(),
        }
    }
}

/// The character for one decimal digit.
pub open spec fn digit_char(d: nat) -> char {
    if d == 0 {
        '0'
    } else if d == 1 {
        '1'
    } else if d == 2 {
        '2'
    } else if d == 3 {
        '3'
    } else if d == 4 {
        '4'
    } else if d == 5 {
        '5'
    } else if d == 6 {
        '6'
    } else if d == 7 {
        '7'
    } else if d == 8 {
        '8'
    } else {
        '9'
    }
}

/// The decimal digits of `n`, most significant first.
pub open spec fn decimal_digits(n: nat) -> Seq<char>
    decreases n,
{
    if n < 10 {
        seq![digit_char(n)]
    } else {
        decimal_digits(n / 10) + seq![digit_char(n % 10)]
    }
}

/// A status code in decimal, a minus sign first where it is negative.
pub open spec fn decimal_i32(v: i32) -> Seq<char> {
    if v < 0 {
        seq!['-'] + decimal_digits((-(v as int)) as nat)
    } else {
        decimal_digits(v as nat)
    }
}

/// Appends one decimal digit to `out`.
fn push_digit(d: u64, out: &mut String)
    requires
        d < 10,
    ensures
        final(out)@ == old(out)@ + seq![digit_char(d as nat)],
{
    proof {
        reveal_strlit("0");
        reveal_strlit("1");
        reveal_strlit("2");
        reveal_strlit("3");
        reveal_strlit("4");
        reveal_strlit("5");
        reveal_strlit("6");
        reveal_strlit("7");
        reveal_strlit("8");
        reveal_strlit("9");
    }
    if d == 0 {
        out.append("0");
    } else if d == 1 {
        out.append("1");
    } else if d == 2 {
        out.append("2");
    } else if d == 3 {
        out.append("3");
    } else if d == 4 {
        out.append("4");
    } else if d == 5 {
        out.append("5");
    } else if d == 6 {
        out.append("6");
    } else if d == 7 {
        out.append("7");
    } else if d == 8 {
        out.append("8");
    } else {
        out.append("9");
    }
    proof {
        assert(final(out)@ =~= old(out)@ + seq![digit_char(d as nat)]);
    }
}

/// Appends `n` in decimal to `out`, most significant digit first.
fn push_u64_decimal(n: u64, out: &mut String)
    ensures
        final(out)@ == old(out)@ + decimal_digits(n as nat),
    decreases n,
{
    if n >= 10 {
        push_u64_decimal(n / 10, out);
        push_digit(n % 10, out);
        proof {
            assert(final(out)@ =~= old(out)@ + decimal_digits(n as nat));
        }
    } else {
        push_digit(n, out);
    }
}

/// A service process that ran and failed, with its exit status.
#[derive(Debug)]
pub struct Error {
    pub service_name: String,
    pub exit_status: i32,
}

impl Error {
    /// The failure, rendered as the operator sees it.
    pub fn message(&self) -> (r: String)
        ensures
            r@ == "Service "@ + self.service_name@ + " failed (exit status: "@ + decimal_i32(
                self.exit_status,
            ) + ")"@,
    {
        let mut m = String::new();
        m.append("Service ");
        m.append(self.service_name.as_str());
        m.append(" failed (exit status: ");
        let magnitude: u64 = if self.exit_status < 0 {
            proof {
                reveal_strlit("-");
            }
            m.append("-");
            (-(self.exit_status as i64)) as u64
        } else {
            self.exit_status as u64
        };
        push_u64_decimal(magnitude, &mut m);
        m.append(")");
        proof {
            assert(m@ =~= "Service "@ + self.service_name@ + " failed (exit status: "@
                + decimal_i32(self.exit_status) + ")"@);
        }
        m
    }
}

} // verus!
