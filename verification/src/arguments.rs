//! Command-line argument model: verbosity flags and the list of
//! directories that hold service definitions.

use vstd::prelude::*;
use crate::LevelFilter;

verus! {

/// An argument that could not be accepted, and why.
#[derive(Clone, Debug, PartialEq, Eq)]
pub enum ArgumentError {
    /// A dash-prefixed argument that is not a run of `v`s and `q`s.
    UnknownFlag(String),
    /// No service directory was given; at least one is required.
    MissingServiceDirectories,
}

/// Parsed command-line arguments: how verbose to log, and where the
/// service definitions live.
#[derive(Debug)]
pub struct Arguments {
    /// Number of `v` occurrences over all verbosity flags (saturating).
    pub verbose: u64,
    /// Number of `q` occurrences over all verbosity flags (saturating).
    pub quiet: u64,
    /// Directories holding service definition files, in the given order.
    pub service_directories: Vec<String>,
}

/// How many times `c` occurs in `s`.
pub open spec fn char_count(s: Seq<char>, c: char) -> nat
    decreases s.len(),
{
    if s.len() == 0 {
        0
    } else {
        char_count(s.drop_last(), c) + (if s.last() == c {
            1nat
        } else {
            0nat
        })
    }
}

/// A verbosity flag: a dash followed by one or more `v`s and `q`s.
pub open spec fn is_verbosity_flag(s: Seq<char>) -> bool {
    &&& s.len() >= 2
    &&& s[0] == '-'
    &&& forall|i: int| 1 <= i < s.len() ==> s[i] == 'v' || s[i] == 'q'
}

/// A positional argument: anything that does not begin with a dash,
/// or a lone dash.
pub open spec fn is_positional(s: Seq<char>) -> bool {
    s.len() < 2 || s[0] != '-'
}

/// An argument that is neither a verbosity flag nor positional.
pub open spec fn is_unknown_flag(s: Seq<char>) -> bool {
    !is_verbosity_flag(s) && !is_positional(s)
}

/// Total `v` count over the verbosity flags among `args`.
pub open spec fn total_count(args: Seq<Seq<char>>, c: char) -> nat
    decreases args.len(),
{
    if args.len() == 0 {
        0
    } else {
        total_count(args.drop_last(), c) + (if is_verbosity_flag(args.last()) {
            char_count(args.last(), c)
        } else {
            0nat
        })
    }
}

/// The positional arguments among `args`, in order.
pub open spec fn positionals(args: Seq<Seq<char>>) -> Seq<Seq<char>> {
    args.filter(|s: Seq<char>| is_positional(s))
}

/// Everything after the program name.
pub open spec fn tail(args: Seq<Seq<char>>) -> Seq<Seq<char>> {
    if args.len() == 0 {
        args
    } else {
        args.skip(1)
    }
}

/// `n`, saturated to fit in a `u64`.
pub open spec fn saturate_u64(n: nat) -> u64 {
    if n > u64::MAX {
        u64::MAX
    } else {
        n as u64
    }
}

/// The log level selected by `verbose` `-v`s and `quiet` `-q`s,
/// starting from `Info`: each `v` raises the level one step towards
/// `Trace`, each `q` lowers it one step towards `Off`.
pub open spec fn level_of(verbose: nat, quiet: nat) -> LevelFilter {
    if quiet >= verbose {
        if quiet - verbose == 0 {
            LevelFilter::Info
        } else if quiet - verbose == 1 {
            LevelFilter::Warn
        } else if quiet - verbose == 2 {
            LevelFilter::Error
        } else {
            LevelFilter::Off
        }
    } else {
        if verbose - quiet == 1 {
            LevelFilter::Debug
        } else {
            LevelFilter::Trace
        }
    }
}

/// Adds `a` and `b`, saturating at `u64::MAX`.
fn saturating_add_u64(a: u64, b: u64) -> (r: u64)
    ensures
        r == saturate_u64(a as nat + b as nat),
{
    if a <= u64::MAX - b {
        a + b
    } else {
        u64::MAX
    }
}

/// Classification of one raw argument.
enum RawArgument {
    /// A verbosity flag with its `v` and `q` counts.
    VerbosityFlag(u64, u64),
    Positional,
    Unknown,
}

/// Examines one argument: a verbosity flag yields its `v` and `q`
/// counts, anything not beginning with a dash is positional, and the
/// rest is unknown.
fn classify_argument(arg: &String) -> (r: RawArgument)
    ensures
        is_verbosity_flag(arg@) ==> r == RawArgument::VerbosityFlag(
            saturate_u64(char_count(arg@, 'v')),
            saturate_u64(char_count(arg@, 'q')),
        ),
        is_positional(arg@) ==> r == RawArgument::Positional,
        is_unknown_flag(arg@) ==> r == RawArgument::Unknown,
{
    let s = arg.as_str();
    let n = s.unicode_len();
    if n < 2 || s.get_char(0) != '-' {
        return RawArgument::Positional;
    }
    let mut vs: u64 = 0;
    let mut qs: u64 = 0;
    let mut i: usize = 1;
    proof {
        reveal_with_fuel(char_count, 2);
        assert(arg@.take(1).drop_last() =~= Seq::<char>::empty());
        assert(arg@.take(1).last() == '-');
        assert(char_count(arg@.take(1), 'v') == 0);
        assert(char_count(arg@.take(1), 'q') == 0);
    }
    while i < n
        invariant
            1 <= i <= n,
            n == arg@.len(),
            s@ == arg@,
            arg@[0] == '-',
            forall|j: int| 1 <= j < i ==> arg@[j] == 'v' || arg@[j] == 'q',
            vs == saturate_u64(char_count(arg@.take(i as int), 'v')),
            qs == saturate_u64(char_count(arg@.take(i as int), 'q')),
        decreases n - i,
    {
        let c = s.get_char(i);
        proof {
            assert(arg@.take(i + 1).drop_last() =~= arg@.take(i as int));
            assert(arg@.take(i + 1).last() == arg@[i as int]);
            lemma_saturate_add(char_count(arg@.take(i as int), 'v'), 1);
            lemma_saturate_add(char_count(arg@.take(i as int), 'q'), 1);
        }
        if c == 'v' {
            vs = saturating_add_u64(vs, 1);
        } else if c == 'q' {
            qs = saturating_add_u64(qs, 1);
        } else {
            return RawArgument::Unknown;
        }
        i += 1;
    }
    proof {
        assert(arg@.take(n as int) =~= arg@);
    }
    RawArgument::VerbosityFlag(vs, qs)
}

impl Arguments {
    /// Every argument after the program name is either a verbosity
    /// flag or a positional directory.
    pub open spec fn spec_wf_input(args: Seq<Seq<char>>) -> bool {
        forall|i: int| 1 <= i < args.len() ==> !is_unknown_flag(#[trigger] args[i])
    }

    /// What a successful parse holds: saturated flag counts and the
    /// positional directories, taken from everything after the
    /// program name.
    pub open spec fn spec_parsed(self, args: Seq<Seq<char>>) -> bool {
        let rest = tail(args);
        &&& self.verbose == saturate_u64(total_count(rest, 'v'))
        &&& self.quiet == saturate_u64(total_count(rest, 'q'))
        &&& self.service_directories.deep_view() == positionals(rest)
    }

    /// Parses raw arguments. The first argument is the program name
    /// and is ignored. Fails on a dash-prefixed argument that is not
    /// a run of `v`s and `q`s, and when no directory is given.
    pub fn try_parse_from(args: Vec<String>) -> (r: Result<Arguments, ArgumentError>)
        ensures
            r is Ok <==> Self::spec_wf_input(args.deep_view()) && positionals(
                tail(args.deep_view()),
            ).len() > 0,
            r matches Ok(a) ==> a.spec_parsed(args.deep_view()),
            r matches Err(ArgumentError::UnknownFlag(s)) ==> exists|i: int|
                1 <= i < args.deep_view().len() && is_unknown_flag(#[trigger] args.deep_view()[i])
                    && s@ == args.deep_view()[i],
            r == Err::<Arguments, ArgumentError>(ArgumentError::MissingServiceDirectories)
                ==> Self::spec_wf_input(args.deep_view()) && positionals(
                tail(args.deep_view()),
            ).len() == 0,
    {
        let ghost all: Seq<Seq<char>> = args.deep_view();
        let ghost rest: Seq<Seq<char>> = tail(args.deep_view());
        if args.len() == 0 {
            proof {
                assert(positionals(rest) =~= Seq::<Seq<char>>::empty());
            }
            return Err(ArgumentError::MissingServiceDirectories);
        }
        let mut verbose: u64 = 0;
        let mut quiet: u64 = 0;
        let mut service_directories: Vec<String> = Vec::new();
        let mut i: usize = 1;
        while i < args.len()
            invariant
                1 <= i <= args.len(),
                all == args.deep_view(),
                rest == all.skip(1),
                all.len() >= 1,
                all.len() == args.len(),
                verbose == saturate_u64(total_count(rest.take(i - 1), 'v')),
                quiet == saturate_u64(total_count(rest.take(i - 1), 'q')),
                service_directories.deep_view() == positionals(rest.take(i - 1)),
                forall|j: int| 1 <= j < i ==> !is_unknown_flag(#[trigger] all[j]),
            decreases args.len() - i,
        {
            let arg = &args[i];
            proof {
                assert(all[i as int] == arg@);
                assert(rest.take(i as int).drop_last() =~= rest.take(i - 1));
                assert(rest.take(i as int).last() == rest[i - 1]);
                assert(rest[i - 1] == all[i as int]);
                reveal_with_fuel(Seq::filter, 2);
            }
            match classify_argument(arg) {
                RawArgument::VerbosityFlag(vs, qs) => {
                    proof {
                        lemma_saturate_add(
                            total_count(rest.take(i - 1), 'v'),
                            char_count(arg@, 'v'),
                        );
                        lemma_saturate_add(
                            total_count(rest.take(i - 1), 'q'),
                            char_count(arg@, 'q'),
                        );
                    }
                    verbose = saturating_add_u64(verbose, vs);
                    quiet = saturating_add_u64(quiet, qs);
                    proof {
                        assert(positionals(rest.take(i as int)) =~= positionals(
                            rest.take(i - 1),
                        ));
                    }
                },
                RawArgument::Positional => {
                    let ghost before: Seq<Seq<char>> = service_directories.deep_view();
                    service_directories.push(arg.clone());
                    proof {
                        assert(service_directories.deep_view() =~= before.push(arg@));
                        assert(positionals(rest.take(i as int)) =~= positionals(
                            rest.take(i - 1),
                        ).push(arg@));
                    }
                },
                RawArgument::Unknown => {
                    return Err(ArgumentError::UnknownFlag(arg.clone()));
                },
            }
            i += 1;
        }
        proof {
            assert(rest.take(i - 1) =~= rest);
        }
        if service_directories.len() == 0 {
            return Err(ArgumentError::MissingServiceDirectories);
        }
        Ok(Arguments { verbose, quiet, service_directories })
    }

    /// Builds arguments directly, as tests do: verbosity preset to
    /// two `v`s (the `Trace` level) and the given directories.
    pub fn new_test(service_directories: Vec<String>) -> (r: Arguments)
        ensures
            r.verbose == 2,
            r.quiet == 0,
            r.service_directories == service_directories,
    {
        Arguments { verbose: 2, quiet: 0, service_directories }
    }

    /// The log level these arguments select, starting from `Info`.
    pub fn log_level_filter(&self) -> (r: LevelFilter)
        ensures
            r == level_of(self.verbose as nat, self.quiet as nat),
    {
        if self.quiet >= self.verbose {
            let d = self.quiet - self.verbose;
            if d == 0 {
                LevelFilter::Info
            } else if d == 1 {
                LevelFilter::Warn
            } else if d == 2 {
                LevelFilter::Error
            } else {
                LevelFilter::Off
            }
        } else {
            if self.verbose - self.quiet == 1 {
                LevelFilter::Debug
            } else {
                LevelFilter::Trace
            }
        }
    }

    /// The directories that hold service definitions.
    pub fn services_directories(&self) -> (r: &Vec<String>)
        ensures
            r == &self.service_directories,
    {
        &self.service_directories
    }
}

/// Saturated addition agrees with adding first and saturating once.
proof fn lemma_saturate_add(a: nat, b: nat)
    ensures
        saturate_u64(saturate_u64(a) as nat + saturate_u64(b) as nat) == saturate_u64(a + b),
{
}

} // verus!
