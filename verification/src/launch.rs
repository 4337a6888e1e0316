//! Launch planning: validating a batch of process specifications and
//! computing, for each, everything the fork needs — the resolved
//! executable, the environment, the fd handlers and the restriction
//! verdict.  The caller forks and execs from the plan; nothing here has
//! side effects, so a batch that fails validation starts nothing.

use vstd::prelude::*;

use crate::env::{admits, build, keys_unique, map_of, EnvSpec};
use crate::err::SpecError;
use crate::fd::{fd_of_name, parse_fd_name, CaptureBuffer, CaptureFormat, FdHandler};
use crate::registry::{has_id, Procs};

verus! {

/// Where a captured fd accumulates.
#[derive(Clone, Copy, Debug, PartialEq, Eq, Structural)]
pub enum CaptureMode {
    Memory,
    TempFile,
}

/// The declarative request for one fd of a child.
#[derive(Clone, Debug)]
pub enum FdSpec {
    /// Leave the fd as inherited from the parent.
    Inherit,
    /// Open the null device for reading.
    NullRead,
    /// Open the null device for writing.
    NullWrite,
    /// Open a file at a path.
    File { path: String },
    /// Capture the child's output on this fd.
    Capture { mode: CaptureMode, format: CaptureFormat },
    /// Duplicate another fd of the same child.
    Dup { from: i32 },
}

/// The declarative specification of one process.
#[derive(Clone, Debug)]
pub struct ProcSpec {
    /// The command line; the first element names the program by
    /// convention.
    pub argv: Vec<String>,
    /// The program to exec, when it is not `argv[0]`.
    pub exe: Option<String>,
    /// The child's environment policy.
    pub env: EnvSpec,
    /// Requested fds, keyed by fd name.
    pub fds: Vec<(String, FdSpec)>,
}

/// The path of the executable a spec resolves to: the explicit `exe` if
/// given, else `argv[0]`.
pub open spec fn exe_of(s: &ProcSpec) -> Seq<char> {
    match s.exe {
        Some(e) => e@,
        None => s.argv@[0]@,
    }
}

/// Returns the path to the executable to exec for the process.
pub fn get_exe(spec: &ProcSpec) -> (r: &String)
    requires
        spec.argv@.len() > 0,
    ensures
        r@ == exe_of(spec),
{
    match &spec.exe {
        Some(e) => e,
        None => &spec.argv[0],
    }
}

/// Sets the restricted executable: afterwards only that program may be
/// started.
pub fn restrict_exe(restriction: &mut Option<String>, restricted_exe: &str)
    ensures
        match *final(restriction) {
            Some(s) => s@ == restricted_exe@,
            None => false,
        },
{
    *restriction = Some(restricted_exe.to_owned());
}

/// Returns the restricted executable, if any.
pub fn get_restricted_exe(restriction: &Option<String>) -> (r: Option<String>)
    ensures
        match (r, restriction) {
            (Some(a), Some(b)) => a@ == b@,
            (Option::<String>::None, Option::<String>::None) => true,
            _ => false,
        },
{
    match restriction {
        Some(s) => Some(s.clone()),
        None => None,
    }
}

/// The diagnostic a child reports when the restriction forbids its
/// executable.
pub open spec fn restricted_message(restricted: Seq<char>) -> Seq<char> {
    "restricted executable: "@ + restricted
}

/// Checks a resolved executable against the restriction: the diagnostic
/// to report — naming the restricted executable — when they differ,
/// nothing when no restriction is set or the executable matches.
pub fn check_restricted(restriction: &Option<String>, exe: &str) -> (r: Option<String>)
    ensures
        match restriction {
            Some(re) => if re@ == exe@ {
                r is None
            } else {
                match r {
                    Some(m) => m@ == restricted_message(re@),
                    None => false,
                }
            },
            None => r is None,
        },
{
    match restriction {
        Some(re) => {
            if crate::fd::str_eq(re.as_str(), exe) {
                None
            } else {
                Some(String::from_str("restricted executable: ").concat(re.as_str()))
            }
        },
        None => None,
    }
}

/// The first fd spec configured for an fd number, if any.
pub open spec fn spec_of(m: Seq<(i32, FdSpec)>, fd: i32) -> Option<FdSpec>
    decreases m.len(),
{
    if m.len() == 0 {
        None
    } else if m[0].0 == fd {
        Some(m[0].1)
    } else {
        spec_of(m.drop_first(), fd)
    }
}

/// Whether following duplication links from an fd reaches a configured
/// non-duplicating fd within the given number of steps.
pub open spec fn resolves(m: Seq<(i32, FdSpec)>, fd: i32, fuel: nat) -> bool
    decreases fuel,
{
    if fuel == 0 {
        false
    } else {
        match spec_of(m, fd) {
            None => false,
            Some(FdSpec::Dup { from }) => resolves(m, from, (fuel - 1) as nat),
            Some(_) => true,
        }
    }
}

/// Whether one configured fd is acceptable: a duplication must reach,
/// within as many steps as there are fds, a configured fd that is not
/// itself a duplication.
pub open spec fn fd_entry_ok(m: Seq<(i32, FdSpec)>, i: int) -> bool {
    match m[i].1 {
        FdSpec::Dup { from } => resolves(m, from, (m.len() + 1) as nat),
        _ => true,
    }
}

/// Whether a spec is acceptable on its own: a non-empty command line,
/// unique environment overrides, fd names that parse, and duplications
/// that resolve.
pub open spec fn spec_ok(s: &ProcSpec) -> bool {
    &&& s.argv@.len() > 0
    &&& keys_unique(s.env.vars@)
    &&& forall|j: int| 0 <= j < s.fds@.len() ==> fd_of_name((#[trigger] s.fds@[j]).0@) is Some
    &&& forall|j: int| 0 <= j < parsed_fds(s.fds@).len() ==> fd_entry_ok(parsed_fds(s.fds@), j)
}

/// The fd table of a spec with each name parsed to its number.
pub open spec fn parsed_fds(fds: Seq<(String, FdSpec)>) -> Seq<(i32, FdSpec)> {
    Seq::new(fds.len(), |j: int| (fd_of_name(fds[j].0@)->Some_0 as i32, fds[j].1))
}

/// Whether a batch is acceptable: every id non-empty and unused, no id
/// twice, every spec acceptable.
pub open spec fn batch_ok(specs: Seq<(String, ProcSpec)>, registry: &Procs) -> bool {
    &&& forall|i: int|
        0 <= i < specs.len() ==> (#[trigger] specs[i]).0@.len() > 0 && !has_id(
            registry.entries@,
            specs[i].0@,
        ) && spec_ok(&specs[i].1)
    &&& forall|i: int, j: int|
        0 <= i < j < specs.len() ==> (#[trigger] specs[i]).0@ != (#[trigger] specs[j]).0@
}

/// Everything the caller needs to fork and exec one process.
pub struct StartPlan {
    /// The id the record will be registered under.
    pub proc_id: String,
    /// The resolved executable path.
    pub exe: String,
    /// The command line.
    pub argv: Vec<String>,
    /// The composed child environment.
    pub env: Vec<(String, String)>,
    /// The fds to set up, by number.
    pub fds: Vec<(i32, FdSpec)>,
    /// The diagnostic the child must report — and then exit without
    /// exec — when the restriction forbids its executable.
    pub restricted_error: Option<String>,
}

/// Whether a plan is the one a spec gives rise to under a parent
/// environment and a restriction.
pub open spec fn plan_matches(
    id: Seq<char>,
    s: &ProcSpec,
    parent: Seq<(String, String)>,
    restriction: &Option<String>,
    p: &StartPlan,
) -> bool {
    &&& p.proc_id@ == id
    &&& p.exe@ == exe_of(s)
    &&& p.argv.deep_view() == s.argv.deep_view()
    &&& keys_unique(p.env@)
    &&& forall|k: Seq<char>|
        map_of(p.env@).contains_key(k) <==> (map_of(s.env.vars@).contains_key(k) || (map_of(
            parent,
        ).contains_key(k) && admits(&s.env.inherit, k)))
    &&& forall|k: Seq<char>|
        map_of(s.env.vars@).contains_key(k) ==> map_of(p.env@)[k] == map_of(s.env.vars@)[k]
    &&& forall|k: Seq<char>|
        !map_of(s.env.vars@).contains_key(k) && map_of(parent).contains_key(k) && admits(
            &s.env.inherit,
            k,
        ) ==> map_of(p.env@)[k] == map_of(parent)[k]
    &&& p.fds@ == parsed_fds(s.fds@)
    &&& match restriction {
        Some(re) => if re@ == exe_of(s) {
            p.restricted_error is None
        } else {
            match p.restricted_error {
                Some(m) => m@ == restricted_message(re@),
                None => false,
            }
        },
        None => p.restricted_error is None,
    }
}

/// Validates a batch of specifications and computes one start plan per
/// spec, in batch order.  Nothing here has side effects, so a batch that
/// fails starts nothing and emits no notification.  Ids are checked
/// first: an id already in use, in the registry or twice within the
/// batch, rejects the batch with `DuplicateProcId`.  Then each spec is
/// checked on its own.  The batch succeeds if and only if it is
/// acceptable; an empty batch yields an empty plan.
#[verifier::loop_isolation(false)]
#[verifier::rlimit(100)]
pub fn plan_starts(
    specs: &Vec<(String, ProcSpec)>,
    registry: &Procs,
    parent_env: &Vec<(String, String)>,
    restriction: &Option<String>,
) -> (r: Result<Vec<StartPlan>, SpecError>)
    requires
        keys_unique(parent_env@),
    ensures
        r is Ok <==> batch_ok(specs@, registry),
        match r {
            Ok(plans) => plans@.len() == specs@.len() && forall|i: int|
                0 <= i < specs@.len() ==> plan_matches(
                    (#[trigger] specs@[i]).0@,
                    &specs@[i].1,
                    parent_env@,
                    restriction,
                    &plans@[i],
                ),
            Err(SpecError::DuplicateProcId(s)) => exists|i: int|
                0 <= i < specs@.len() && (#[trigger] specs@[i]).0@ == s@ && (has_id(
                    registry.entries@,
                    s@,
                ) || exists|j: int| 0 <= j < specs@.len() && j != i && (#[trigger] specs@[j]).0@
                    == s@),
            Err(SpecError::InvalidFdName(s)) => fd_of_name(s@) is None,
            _ => true,
        },
        ((forall|i: int| 0 <= i < specs@.len() ==> (#[trigger] specs@[i]).0@.len() > 0) && (
        exists|i: int|
            0 <= i < specs@.len() && (has_id(registry.entries@, (#[trigger] specs@[i]).0@)
                || exists|j: int|
                0 <= j < specs@.len() && j != i && (#[trigger] specs@[j]).0@ == specs@[i].0@)))
            ==> r matches Err(SpecError::DuplicateProcId(_)),
{
    let mut i: usize = 0;
    while i < specs.len()
        invariant
            0 <= i <= specs@.len(),
            forall|a: int|
                0 <= a < i ==> (#[trigger] specs@[a]).0@.len() > 0 && !has_id(
                    registry.entries@,
                    specs@[a].0@,
                ),
            forall|a: int, b: int|
                0 <= a < b < i ==> (#[trigger] specs@[a]).0@ != (#[trigger] specs@[b]).0@,
        decreases specs@.len() - i,
    {
        let id = &specs[i].0;
        if id.as_str().unicode_len() == 0 {
            return Err(SpecError::MalformedSpec(id.clone()));
        }
        match registry.get(id.as_str()) {
            Some(_) => {
                return Err(SpecError::DuplicateProcId(id.clone()));
            },
            None => {},
        }
        let mut a: usize = 0;
        while a < i
            invariant
                0 <= a <= i < specs@.len(),
                forall|b: int| 0 <= b < a ==> (#[trigger] specs@[b]).0@ != specs@[i as int].0@,
            decreases i - a,
        {
            if crate::fd::str_eq(specs[a].0.as_str(), id.as_str()) {
                return Err(SpecError::DuplicateProcId(id.clone()));
            }
            a += 1;
        }
        i += 1;
    }
    let mut plans: Vec<StartPlan> = Vec::new();
    let mut i: usize = 0;
    while i < specs.len()
        invariant
            0 <= i <= specs@.len(),
            plans@.len() == i,
            forall|a: int|
                0 <= a < specs@.len() ==> (#[trigger] specs@[a]).0@.len() > 0 && !has_id(
                    registry.entries@,
                    specs@[a].0@,
                ),
            forall|a: int, b: int|
                0 <= a < b < specs@.len() ==> (#[trigger] specs@[a]).0@ != (
                #[trigger] specs@[b]).0@,
            forall|a: int| 0 <= a < i ==> spec_ok(&(#[trigger] specs@[a]).1),
            forall|a: int|
                0 <= a < i ==> plan_matches(
                    (#[trigger] specs@[a]).0@,
                    &specs@[a].1,
                    parent_env@,
                    restriction,
                    &plans@[a],
                ),
        decreases specs@.len() - i,
    {
        let id = &specs[i].0;
        let sp = &specs[i].1;
        if sp.argv.len() == 0 {
            return Err(SpecError::MalformedSpec(id.clone()));
        }
        if !vars_keys_unique(&sp.env.vars) {
            return Err(SpecError::MalformedSpec(id.clone()));
        }
        let fds = match parse_spec_fds(sp) {
            Ok(fds) => fds,
            Err(e) => {
                proof {
                    assert(!spec_ok(&specs@[i as int].1));
                }
                return Err(e);
            },
        };
        let exe = get_exe(sp).clone();
        let restricted_error = check_restricted(restriction, exe.as_str());
        let env = build(parent_env, &sp.env);
        let mut argv: Vec<String> = Vec::new();
        let mut v: usize = 0;
        while v < sp.argv.len()
            invariant
                0 <= v <= sp.argv@.len(),
                argv@.len() == v,
                forall|b: int| 0 <= b < v ==> (#[trigger] argv@[b])@ == sp.argv@[b]@,
            decreases sp.argv@.len() - v,
        {
            argv.push(sp.argv[v].clone());
            v += 1;
        }
        proof {
            assert(argv.deep_view() =~= sp.argv.deep_view());
        }
        plans.push(StartPlan { proc_id: id.clone(), exe, argv, env, fds, restricted_error });
        i += 1;
    }
    Ok(plans)
}

/// Whether no environment override name repeats.
fn vars_keys_unique(vars: &Vec<(String, String)>) -> (r: bool)
    ensures
        r == keys_unique(vars@),
{
    let mut i: usize = 0;
    while i < vars.len()
        invariant
            0 <= i <= vars@.len(),
            forall|a: int, b: int| 0 <= a < b < vars@.len() && b < i ==> vars@[a].0@ != vars@[b].0@,
        decreases vars@.len() - i,
    {
        let mut j: usize = 0;
        while j < i
            invariant
                0 <= j <= i < vars@.len(),
                forall|a: int| 0 <= a < j ==> vars@[a].0@ != vars@[i as int].0@,
            decreases i - j,
        {
            if vars[j].0 == vars[i].0 {
                return false;
            }
            j += 1;
        }
        i += 1;
    }
    true
}

/// Parses and checks the fd table of one spec: every name must denote an
/// fd number, and duplications must reach a configured, non-duplicating
/// fd.
#[verifier::loop_isolation(false)]
fn parse_spec_fds(sp: &ProcSpec) -> (r: Result<Vec<(i32, FdSpec)>, SpecError>)
    ensures
        match r {
            Ok(fds) => fds@ == parsed_fds(sp.fds@) && (forall|j: int|
                0 <= j < sp.fds@.len() ==> fd_of_name((#[trigger] sp.fds@[j]).0@) is Some)
                && (forall|j: int|
                0 <= j < parsed_fds(sp.fds@).len() ==> fd_entry_ok(parsed_fds(sp.fds@), j)),
            Err(SpecError::InvalidFdName(s)) => exists|j: int|
                0 <= j < sp.fds@.len() && (#[trigger] sp.fds@[j]).0@ == s@ && fd_of_name(s@)
                    is None,
            Err(SpecError::UnknownFdRef(_)) | Err(SpecError::FdDupCycle(_)) => exists|j: int|
                0 <= j < parsed_fds(sp.fds@).len() && !fd_entry_ok(parsed_fds(sp.fds@), j),
            _ => false,
        },
{
    let mut fds: Vec<(i32, FdSpec)> = Vec::new();
    let mut j: usize = 0;
    while j < sp.fds.len()
        invariant
            0 <= j <= sp.fds@.len(),
            fds@.len() == j,
            forall|b: int| 0 <= b < j ==> fd_of_name((#[trigger] sp.fds@[b]).0@) is Some,
            forall|b: int|
                0 <= b < j ==> #[trigger] fds@[b] == (
                    fd_of_name(sp.fds@[b].0@)->Some_0 as i32,
                    sp.fds@[b].1,
                ),
        decreases sp.fds@.len() - j,
    {
        let name = &sp.fds[j].0;
        match parse_fd_name(name.as_str()) {
            Some(fd) => {
                let fs = sp.fds[j].1.clone_spec();
                fds.push((fd, fs));
            },
            None => {
                return Err(SpecError::InvalidFdName(name.clone()));
            },
        }
        j += 1;
    }
    proof {
        assert(fds@ =~= parsed_fds(sp.fds@));
    }
    let n = fds.len();
    let mut j: usize = 0;
    while j < n
        invariant
            0 <= j <= n,
            n == fds@.len(),
            fds@ == parsed_fds(sp.fds@),
            forall|b: int| 0 <= b < j ==> fd_entry_ok(fds@, b),
        decreases n - j,
    {
        let from: i32 = match &fds[j].1 {
            FdSpec::Dup { from } => *from,
            _ => {
                j += 1;
                continue ;
            },
        };
        let mut cur: i32 = from;
        let mut steps: u128 = 0;
        let bound: u128 = n as u128;
        let ghost fuel0: nat = (n + 1) as nat;
        while steps <= bound
            invariant
                0 <= steps <= bound + 1,
                bound == n,
                n == fds@.len(),
                fds@ == parsed_fds(sp.fds@),
                0 <= j < fds@.len(),
                fds@[j as int].1 == (FdSpec::Dup { from }),
                resolves(fds@, from, fuel0) == resolves(fds@, cur, (fuel0 - steps) as nat),
            decreases bound + 1 - steps,
        {
            match lookup_fd(&fds, cur) {
                None => {
                    proof {
                        assert(!resolves(fds@, cur, (fuel0 - steps) as nat));
                        assert(!fd_entry_ok(fds@, j as int));
                    }
                    return Err(SpecError::UnknownFdRef(sp.fds[j].0.clone()));
                },
                Some(k) => {
                    match &fds[k].1 {
                        FdSpec::Dup { from: g } => {
                            proof {
                                assert(spec_of(fds@, cur) == Some(fds@[k as int].1));
                            }
                            cur = *g;
                            steps += 1;
                        },
                        _ => {
                            proof {
                                assert(spec_of(fds@, cur) == Some(fds@[k as int].1));
                                assert(resolves(fds@, cur, (fuel0 - steps) as nat));
                                assert(fd_entry_ok(fds@, j as int));
                            }
                            break ;
                        },
                    }
                },
            }
        }
        proof {
            if steps > bound {
                assert(fuel0 - steps == 0);
                assert(!resolves(fds@, from, fuel0));
                assert(!fd_entry_ok(fds@, j as int));
            }
        }
        if steps > bound {
            return Err(SpecError::FdDupCycle(sp.fds[j].0.clone()));
        }
        j += 1;
    }
    Ok(fds)
}

/// The position of the first entry for an fd number, if any; agrees with
/// the first configured fd spec.
#[verifier::loop_isolation(false)]
fn lookup_fd(fds: &Vec<(i32, FdSpec)>, fd: i32) -> (r: Option<usize>)
    ensures
        match r {
            Some(k) => k < fds@.len() && fds@[k as int].0 == fd && spec_of(fds@, fd) == Some(
                fds@[k as int].1,
            ),
            None => spec_of(fds@, fd) is None,
        },
{
    let mut k: usize = 0;
    proof {
        assert(fds@.skip(0) =~= fds@);
    }
    while k < fds.len()
        invariant
            0 <= k <= fds@.len(),
            spec_of(fds@, fd) == spec_of(fds@.skip(k as int), fd),
        decreases fds@.len() - k,
    {
        proof {
            assert(fds@.skip(k as int)[0] == fds@[k as int]);
            assert(fds@.skip(k as int).drop_first() =~= fds@.skip(k + 1));
        }
        if fds[k].0 == fd {
            return Some(k);
        }
        k += 1;
    }
    None
}

impl FdSpec {
    /// A structural copy.
    pub fn clone_spec(&self) -> (r: FdSpec)
        ensures
            r == *self,
    {
        match self {
            FdSpec::Inherit => FdSpec::Inherit,
            FdSpec::NullRead => FdSpec::NullRead,
            FdSpec::NullWrite => FdSpec::NullWrite,
            FdSpec::File { path } => FdSpec::File { path: path.clone() },
            FdSpec::Capture { mode, format } => FdSpec::Capture { mode: *mode, format: *format },
            FdSpec::Dup { from } => FdSpec::Dup { from: *from },
        }
    }
}

/// The default cap on one captured fd, in bytes.
pub const DEFAULT_CAPTURE_CAP: usize = 67108864;

/// Builds the parent-side fd handlers a plan calls for, with the given
/// capture cap.
pub fn make_fd_handlers(fds: &Vec<(i32, FdSpec)>, cap: usize) -> (r: Vec<(i32, FdHandler)>)
    requires
        forall|j: int| 0 <= j < fds@.len() ==> (#[trigger] fds@[j]).0 >= 0,
    ensures
        r@.len() == fds@.len(),
        forall|j: int|
            0 <= j < fds@.len() ==> (#[trigger] r@[j]).0 == fds@[j].0 && r@[j].1.wf() && r@[j].0
                >= 0 && match (fds@[j].1, r@[j].1) {
                (FdSpec::Inherit, FdHandler::Inherit) => true,
                (FdSpec::NullRead, FdHandler::NullRead) => true,
                (FdSpec::NullWrite, FdHandler::NullWrite) => true,
                (FdSpec::File { path: p }, FdHandler::File { path: q }) => p@ == q@,
                (
                    FdSpec::Capture { format: f, .. },
                    FdHandler::Capture { format: g, buf },
                ) => f == g && buf.data@.len() == 0 && buf.cap == cap && !buf.truncated,
                (FdSpec::Dup { from: a }, FdHandler::Dup { from: b }) => a == b,
                _ => false,
            },
{
    let mut out: Vec<(i32, FdHandler)> = Vec::new();
    let mut j: usize = 0;
    while j < fds.len()
        invariant
            0 <= j <= fds@.len(),
            out@.len() == j,
            forall|b: int| 0 <= b < fds@.len() ==> (#[trigger] fds@[b]).0 >= 0,
            forall|b: int|
                0 <= b < j ==> (#[trigger] out@[b]).0 == fds@[b].0 && out@[b].1.wf() && out@[b].0
                    >= 0 && match (fds@[b].1, out@[b].1) {
                    (FdSpec::Inherit, FdHandler::Inherit) => true,
                    (FdSpec::NullRead, FdHandler::NullRead) => true,
                    (FdSpec::NullWrite, FdHandler::NullWrite) => true,
                    (FdSpec::File { path: p }, FdHandler::File { path: q }) => p@ == q@,
                    (
                        FdSpec::Capture { format: f, .. },
                        FdHandler::Capture { format: g, buf },
                    ) => f == g && buf.data@.len() == 0 && buf.cap == cap && !buf.truncated,
                    (FdSpec::Dup { from: a }, FdHandler::Dup { from: b }) => a == b,
                    _ => false,
                },
        decreases fds@.len() - j,
    {
        let fd = fds[j].0;
        let handler = match &fds[j].1 {
            FdSpec::Inherit => FdHandler::Inherit,
            FdSpec::NullRead => FdHandler::NullRead,
            FdSpec::NullWrite => FdHandler::NullWrite,
            FdSpec::File { path } => FdHandler::File { path: path.clone() },
            FdSpec::Capture { format, .. } => FdHandler::Capture {
                format: *format,
                buf: CaptureBuffer::new(cap),
            },
            FdSpec::Dup { from } => FdHandler::Dup { from: *from },
        };
        out.push((fd, handler));
        j += 1;
    }
    out
}

} // verus!
