//! Drift detection and the per-cycle decision procedure.
//!
//! One cycle observes the managed VM, compares the first forty hex characters
//! of its reported application id with the freshly computed compose hash, and
//! decides to keep, recreate or create. The teardown steps and the bounded
//! removal retry policy are a small state machine that the surrounding loop
//! drives; it performs the calls and hands back the outcomes.

use vstd::prelude::*;
use vstd::string::StringSliceAdditionalSpecFns;

verus! {

/// How many characters of the compose hash the VM manager keeps as the
/// application id.
pub const APP_ID_LEN: usize = 40;

/// How often removal of a VM is attempted before the cycle is abandoned.
pub const REMOVE_ATTEMPTS: u64 = 3;

/// What the status query reported about the managed VM.
pub struct VmObservation {
    pub vm_id: String,
    pub status: String,
    pub app_id: Option<String>,
}

/// The outcome of one cycle's comparison.
#[derive(Debug, PartialEq, Eq, Structural)]
pub enum Decision {
    Keep,
    Recreate,
    Create,
}

/// Engine state carried across cycles; starts empty after a process start,
/// which is what lets the engine adopt a matching VM it did not create.
pub struct ReconcilerState {
    pub current_hash: Option<String>,
    pub vm_id: Option<String>,
}

/// Statuses that call for recreation regardless of any hash comparison.
pub open spec fn is_down_status(s: Seq<char>) -> bool {
    ||| s == "stopped"@
    ||| s == "exited"@
    ||| s == "killed"@
    ||| s == "error"@
}

/// The first `APP_ID_LEN` bytes of two UTF-8 texts agree.
pub open spec fn truncated_match(a: Seq<u8>, b: Seq<u8>) -> bool {
    a.take(min_len(a.len() as int)) == b.take(min_len(b.len() as int))
}

/// Caps a length at `APP_ID_LEN`.
pub open spec fn min_len(n: int) -> int {
    if n < 40 {
        n
    } else {
        40
    }
}

/// The decision table: no VM means create; a down VM means recreate; a
/// running VM is kept exactly when it reports an application id whose
/// truncation equals the new hash's truncation, and recreated otherwise.
pub open spec fn decision_of(obs: Option<VmObservation>, new_hash: Seq<u8>) -> Decision {
    match obs {
        Option::None => Decision::Create,
        Option::Some(o) => {
            if is_down_status(o.status@) {
                Decision::Recreate
            } else {
                match o.app_id {
                    Option::Some(existing) => {
                        if truncated_match(vstd::utf8::encode_utf8(existing@), new_hash) {
                            Decision::Keep
                        } else {
                            Decision::Recreate
                        }
                    },
                    Option::None => Decision::Recreate,
                }
            }
        },
    }
}

/// Equality of two strings, decided without any assumption about their
/// content.
pub fn streq(a: &str, b: &str) -> (r: bool)
    ensures
        r == (a@ == b@),
{
    let sa = a.to_owned();
    let sb = b.to_owned();
    sa == sb
}

/// Compares the first `APP_ID_LEN` bytes of two texts.
fn truncated_bytes_match(a: &[u8], b: &[u8]) -> (r: bool)
    ensures
        r == truncated_match(a@, b@),
{
    let na = if a.len() < APP_ID_LEN {
        a.len()
    } else {
        APP_ID_LEN
    };
    let nb = if b.len() < APP_ID_LEN {
        b.len()
    } else {
        APP_ID_LEN
    };
    if na != nb {
        proof {
            assert(a@.take(min_len(a@.len() as int)).len() != b@.take(
                min_len(b@.len() as int),
            ).len());
        }
        return false;
    }
    let mut i: usize = 0;
    while i < na
        invariant
            0 <= i <= na,
            na == min_len(a@.len() as int),
            na == nb,
            nb == min_len(b@.len() as int),
            forall|j: int| 0 <= j < i ==> a@[j] == b@[j],
        decreases na - i,
    {
        if a[i] != b[i] {
            proof {
                assert(a@.take(na as int)[i as int] != b@.take(nb as int)[i as int]);
            }
            return false;
        }
        i = i + 1;
    }
    proof {
        assert(a@.take(na as int) =~= b@.take(nb as int));
    }
    true
}

/// Whether the observed status is one of the down states.
pub fn status_is_down(status: &str) -> (r: bool)
    ensures
        r == is_down_status(status@),
{
    streq(status, "stopped") || streq(status, "exited") || streq(status, "killed") || streq(
        status,
        "error",
    )
}

/// Applies the decision table to one observation and the new compose hash.
pub fn decide(obs: &Option<VmObservation>, new_hash: &str) -> (d: Decision)
    ensures
        d == decision_of(*obs, new_hash.spec_bytes()),
{
    match obs {
        Option::None => Decision::Create,
        Option::Some(o) => {
            if status_is_down(o.status.as_str()) {
                Decision::Recreate
            } else {
                match &o.app_id {
                    Option::Some(existing) => {
                        if truncated_bytes_match(
                            existing.as_str().as_bytes(),
                            new_hash.as_bytes(),
                        ) {
                            Decision::Keep
                        } else {
                            Decision::Recreate
                        }
                    },
                    Option::None => Decision::Recreate,
                }
            }
        },
    }
}

impl ReconcilerState {
    /// The state right after a process start: nothing adopted yet.
    pub fn new() -> (s: ReconcilerState)
        ensures
            s.current_hash is None,
            s.vm_id is None,
    {
        ReconcilerState { current_hash: Option::None, vm_id: Option::None }
    }

    /// Whether this is the first completed cycle since the process started.
    pub fn is_first_run(&self) -> (r: bool)
        ensures
            r == (self.current_hash is None),
    {
        self.current_hash.is_none()
    }

    /// Records the id and hash of the VM the engine now stands behind; used
    /// both after a successful create and when adopting a kept VM.
    pub fn commit(&mut self, vm_id: String, hash: String)
        ensures
            final(self).vm_id == Option::Some(vm_id),
            final(self).current_hash == Option::Some(hash),
    {
        self.vm_id = Option::Some(vm_id);
        self.current_hash = Option::Some(hash);
    }

}

/// One VM as the status query reports it; absent fields stay absent.
pub struct VmRecord {
    pub id: Option<String>,
    pub name: Option<String>,
    pub app_id: Option<String>,
    pub status: Option<String>,
}

/// A record that names the managed VM: its name or its application id is
/// the managed name, and it carries an id.
pub open spec fn record_matches(r: VmRecord) -> bool {
    &&& (match r.name {
        Option::Some(n) => n@ == "validator_vm"@,
        Option::None => false,
    } || match r.app_id {
        Option::Some(a) => a@ == "validator_vm"@,
        Option::None => false,
    })
    &&& r.id is Some
}

/// The fixed name of the managed VM.
pub fn managed_vm_name() -> (r: String)
    ensures
        r@ == "validator_vm"@,
{
    "validator_vm".to_owned()
}

/// Picks the managed VM out of the status listing: the first record whose
/// name or application id is the managed name and that carries an id. A
/// record without a status is observed as `unknown`.
pub fn find_managed_vm(vms: &Vec<VmRecord>) -> (r: Option<VmObservation>)
    ensures
        r is None ==> (forall|i: int| 0 <= i < vms@.len() ==> !record_matches(
            #[trigger] vms@[i],
        )),
        r matches Option::Some(o) ==> (exists|i: int|
            0 <= i < vms@.len() && record_matches(#[trigger] vms@[i]) && (forall|j: int|
                0 <= j < i ==> !record_matches(#[trigger] vms@[j])) && o.vm_id
                == vms@[i].id->0 && (match vms@[i].status {
                Option::Some(st) => o.status@ == st@,
                Option::None => o.status@ == "unknown"@,
            }) && o.app_id == vms@[i].app_id),
{
    let mut i: usize = 0;
    while i < vms.len()
        invariant
            0 <= i <= vms@.len(),
            forall|j: int| 0 <= j < i ==> !record_matches(#[trigger] vms@[j]),
        decreases vms@.len() - i,
    {
        let vm = &vms[i];
        let name_matches = match &vm.name {
            Option::Some(n) => streq(n.as_str(), "validator_vm"),
            Option::None => false,
        };
        let app_id_matches = match &vm.app_id {
            Option::Some(a) => streq(a.as_str(), "validator_vm"),
            Option::None => false,
        };
        if name_matches || app_id_matches {
            match &vm.id {
                Option::Some(id) => {
                    let status: String = match &vm.status {
                        Option::Some(st) => st.clone(),
                        Option::None => "unknown".to_owned(),
                    };
                    let app_id: Option<String> = match &vm.app_id {
                        Option::Some(a) => Option::Some(a.clone()),
                        Option::None => Option::None,
                    };
                    proof {
                        assert(record_matches(vms@[i as int]));
                    }
                    return Option::Some(
                        VmObservation { vm_id: id.clone(), status, app_id },
                    );
                },
                Option::None => {},
            }
        }
        i = i + 1;
    }
    Option::None
}

/// The result of the stop call, which is advisory only: failure and timeout
/// are downgraded to a warning.
#[derive(Debug)]
pub enum StopOutcome {
    Stopped,
    StopFailed,
    StopTimedOut,
}

/// The outcome the loop reports for one RPC call.
#[derive(Debug, PartialEq, Eq, Structural)]
pub enum RpcOutcome {
    Success,
    Failure,
}

/// One step of the teardown sequence.
#[derive(Debug, PartialEq, Eq, Structural)]
pub enum TeardownStep {
    Stopping,
    Removing { attempt: u64 },
    Done,
    Failed,
}

/// Teardown begins with the advisory stop call.
pub fn teardown_start() -> (s: TeardownStep)
    ensures
        s == TeardownStep::Stopping,
{
    TeardownStep::Stopping
}

/// Whatever the stop call came to, teardown proceeds to the first removal
/// attempt: a stop failure or timeout never aborts the sequence.
pub fn teardown_after_stop(outcome: StopOutcome) -> (s: TeardownStep)
    ensures
        s == (TeardownStep::Removing { attempt: 1 }),
{
    let _ = outcome;
    TeardownStep::Removing { attempt: 1 }
}

/// After a removal attempt: success ends the teardown; failure is retried
/// until `REMOVE_ATTEMPTS` attempts are spent, then the cycle is abandoned.
pub fn teardown_after_remove(attempt: u64, outcome: RpcOutcome) -> (s: TeardownStep)
    requires
        1 <= attempt <= REMOVE_ATTEMPTS,
    ensures
        outcome == RpcOutcome::Success ==> s == TeardownStep::Done,
        outcome == RpcOutcome::Failure && attempt < REMOVE_ATTEMPTS ==> s
            == (TeardownStep::Removing { attempt: (attempt + 1) as u64 }),
        outcome == RpcOutcome::Failure && attempt == REMOVE_ATTEMPTS ==> s == TeardownStep::Failed,
{
    match outcome {
        RpcOutcome::Success => TeardownStep::Done,
        RpcOutcome::Failure => {
            if attempt < REMOVE_ATTEMPTS {
                TeardownStep::Removing { attempt: attempt + 1 }
            } else {
                TeardownStep::Failed
            }
        },
    }
}

/// The mutating calls one cycle issues for a decision, in order. Keeping a
/// VM issues none; creation issues only the create call; recreation tears the
/// old VM down first.
#[derive(Debug, PartialEq, Eq, Structural)]
pub enum VmCall {
    StopCall,
    RemoveCall,
    CreateCall,
}

/// Plans the mutating calls for a decision.
pub fn decision_calls(d: &Decision) -> (calls: Vec<VmCall>)
    ensures
        *d == Decision::Keep ==> calls@ =~= Seq::<VmCall>::empty(),
        *d == Decision::Create ==> calls@ =~= seq![VmCall::CreateCall],
        *d == Decision::Recreate ==> calls@ =~= seq![
            VmCall::StopCall,
            VmCall::RemoveCall,
            VmCall::CreateCall,
        ],
{
    let mut calls: Vec<VmCall> = Vec::new();
    match d {
        Decision::Keep => {},
        Decision::Create => {
            calls.push(VmCall::CreateCall);
        },
        Decision::Recreate => {
            calls.push(VmCall::StopCall);
            calls.push(VmCall::RemoveCall);
            calls.push(VmCall::CreateCall);
        },
    }
    calls
}

} // verus!
