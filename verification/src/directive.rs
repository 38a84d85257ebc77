//! Invocation modes for the external package-manager toolchain, and the
//! fallback policy over them: run the modes in order and take the first
//! success; when every mode fails, fail with all their errors together.
//!
//! Running a process is outside this crate; a caller performs one invocation
//! at a time and records its outcome, and [`exec_cargo_step`] decides what to
//! do next from the outcomes so far.

use vstd::prelude::*;

verus! {

/// One invocation mode of the toolchain's metadata commands.
#[derive(Debug, Clone, Copy, PartialEq, Eq, Structural)]
pub enum CargoDirective {
    /// Fetch metadata normally.
    Default,
    /// Fetch metadata with versions locked to the manifest.
    Locked,
    /// Fetch metadata with versions locked and offline.
    Frozen,
}

impl CargoDirective {
    /// The command-line flag of this mode (none for the default mode).
    pub fn as_argument(&self) -> (r: &'static str)
        ensures
            *self is Default ==> r@ == ""@,
            *self is Locked ==> r@ == "--locked"@,
            *self is Frozen ==> r@ == "--frozen"@,
    {
        match self {
            CargoDirective::Default => "",
            CargoDirective::Locked => "--locked",
            CargoDirective::Frozen => "--frozen",
        }
    }

    /// A short name of this mode.
    pub fn label(&self) -> (r: &'static str)
        ensures
            *self is Default ==> r@ == "default"@,
            *self is Locked ==> r@ == "locked"@,
            *self is Frozen ==> r@ == "frozen"@,
    {
        match self {
            CargoDirective::Default => "default",
            CargoDirective::Locked => "locked",
            CargoDirective::Frozen => "frozen",
        }
    }
}

/// The ordered list of invocation modes to fall back across: each mode is
/// tried only after the one before it failed.
pub struct CargoDirectiveList(pub Vec<CargoDirective>);

impl CargoDirectiveList {
    /// Try the locked mode first, then the default mode.
    pub fn prefer_locked() -> (r: Self)
        ensures
            r.0@ == seq![CargoDirective::Locked, CargoDirective::Default],
    {
        let mut v: Vec<CargoDirective> = Vec::new();
        v.push(CargoDirective::Locked);
        v.push(CargoDirective::Default);
        proof {
            assert(v@ =~= seq![CargoDirective::Locked, CargoDirective::Default]);
        }
        CargoDirectiveList(v)
    }
}

impl Default for CargoDirectiveList {
    /// The default mode alone.
    fn default() -> (r: Self)
        ensures
            r.0@ == seq![CargoDirective::Default],
    {
        let mut v: Vec<CargoDirective> = Vec::new();
        v.push(CargoDirective::Default);
        proof {
            assert(v@ =~= seq![CargoDirective::Default]);
        }
        CargoDirectiveList(v)
    }
}

impl From<Vec<CargoDirective>> for CargoDirectiveList {
    fn from(value: Vec<CargoDirective>) -> (r: Self)
        ensures
            r.0 == value,
    {
        CargoDirectiveList(value)
    }
}

impl vstd::std_specs::convert::FromSpecImpl<Vec<CargoDirective>> for CargoDirectiveList {
    open spec fn obeys_from_spec() -> bool {
        true
    }

    open spec fn from_spec(value: Vec<CargoDirective>) -> Self {
        CargoDirectiveList(value)
    }
}

/// Why one invocation of the toolchain failed.
#[derive(Debug, Clone, Copy, PartialEq, Eq, Structural)]
pub enum ExecCargoError {
    /// The toolchain ran and exited unsuccessfully.
    FailedExecution,
    /// The toolchain could not be started.
    FailedToExecute,
}

impl ExecCargoError {
    /// A short description of the failure.
    pub fn message(&self) -> &'static str {
        match self {
            ExecCargoError::FailedExecution => "`cargo` did not execute successfully.",
            ExecCargoError::FailedToExecute => "Failed to execute `cargo`.",
        }
    }
}

/// Every invocation mode failed; the per-mode error texts, in mode order.
#[derive(Debug)]
pub struct ExecCargoFailure {
    pub errors: Vec<String>,
}

/// What to do next while falling back across the invocation modes.
pub enum ExecCargoStep {
    /// Invoke the mode at this index of the directive list.
    RunNext(usize),
    /// The attempt at this index succeeded; take its output.
    Done(usize),
    /// Every mode was attempted and failed.
    Failed(ExecCargoFailure),
}

/// Decide the next step of the fallback policy from the outcomes recorded so
/// far: the first successful attempt wins; while attempts remain, run the
/// next mode; once every mode has failed, fail with all their errors.
pub fn exec_cargo_step(
    directives: &CargoDirectiveList,
    attempts: &Vec<Result<Vec<u8>, String>>,
) -> (r: ExecCargoStep)
    requires
        attempts@.len() <= directives.0@.len(),
    ensures
        match r {
            ExecCargoStep::Done(i) => {
                &&& 0 <= i < attempts@.len()
                &&& attempts@[i as int] is Ok
                &&& forall|j: int| 0 <= j < i ==> attempts@[j] is Err
            },
            ExecCargoStep::RunNext(i) => {
                &&& i == attempts@.len()
                &&& i < directives.0@.len()
                &&& forall|j: int| 0 <= j < attempts@.len() ==> attempts@[j] is Err
            },
            ExecCargoStep::Failed(f) => {
                &&& attempts@.len() == directives.0@.len()
                &&& forall|j: int| 0 <= j < attempts@.len() ==> attempts@[j] is Err
                &&& f.errors@.len() == attempts@.len()
                &&& forall|j: int|
                    0 <= j < attempts@.len() ==> f.errors@[j] == attempts@[j]->Err_0
            },
        },
{
    let mut i: usize = 0;
    while i < attempts.len()
        invariant
            i <= attempts@.len(),
            forall|j: int| 0 <= j < i ==> attempts@[j] is Err,
        decreases attempts@.len() - i,
    {
        if attempts[i].is_ok() {
            return ExecCargoStep::Done(i);
        }
        i += 1;
    }
    if attempts.len() < directives.0.len() {
        return ExecCargoStep::RunNext(attempts.len());
    }
    let mut errors: Vec<String> = Vec::new();
    let mut k: usize = 0;
    while k < attempts.len()
        invariant
            k <= attempts@.len(),
            forall|j: int| 0 <= j < attempts@.len() ==> attempts@[j] is Err,
            errors@.len() == k,
            forall|j: int| 0 <= j < k ==> errors@[j] == attempts@[j]->Err_0,
        decreases attempts@.len() - k,
    {
        match &attempts[k] {
            Ok(_) => {
                proof {
                    assert(false);
                }
            },
            Err(e) => {
                errors.push(e.clone());
            },
        }
        k += 1;
    }
    ExecCargoStep::Failed(ExecCargoFailure { errors })
}

} // verus!
