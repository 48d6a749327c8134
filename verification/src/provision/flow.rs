//! The order of a provisioning run.
//!
//! A run alternates work on the node (over SSH, done by the binary) with
//! decisions. The decisions are here, as one step: from where the run stands
//! and the answer to the last piece of work, the next stage and what to do.
//! The binary performs each action and hands back its answer.
//!
//! What the order guarantees: nothing that changes anything on the node is
//! asked for before the ownership guard has passed, in every mode; `verify`
//! refuses a guest that does not exist; coturn and TLS are set up only when
//! the secrets they need are present.

use vstd::prelude::*;
use crate::text::{dec, extend_str, push_dec, to_string};
use crate::provision::config::{spec_effective_mac, Config, Guest};
use crate::provision::proxmox::{
    needs_create, needs_start, ownership, refusal_message, spec_is_ours, spec_needs_create,
    spec_needs_start, Lxc,
};

verus! {

broadcast use vstd::string::group_string_axioms;

/// What the run was asked to do.
#[derive(Clone, Copy, Debug, PartialEq, Eq, Structural)]
pub enum Mode {
    /// Read-only: report what exists and what would change.
    Plan,
    /// Create and configure the guest; coturn and TLS too when the secrets
    /// are present.
    Apply { with_secrets: bool },
    /// Re-check an existing guest.
    Verify,
}

/// A piece of work on the node.
#[derive(Debug)]
pub enum Op {
    /// `pveversion`.
    Preflight,
    /// List the containers and find ours, for the ownership guard.
    ListGuest,
    Create,
    /// List the containers again, after creating.
    Refresh,
    Start,
    /// Wait until `pct exec` answers.
    WaitResponsive,
    InstallBase,
    InstallDocker,
    /// Read the guest's leased address.
    FindAddress,
    /// Install coturn, listening on the given address.
    InstallCoturn(String),
    SetupTls,
    /// Check that certificate renewal is scheduled.
    VerifyRenewal,
    /// Deploy the application, its relay on the given address.
    DeployApp(String),
    /// Wait for the health check, trying this many times.
    WaitHealthy(u32),
    ReportAddress,
}

/// What to do next.
#[derive(Debug)]
pub enum Action {
    Do(Op),
    Finish,
    Fail(String),
}

/// The answer to the last piece of work.
#[derive(Debug)]
pub enum Event {
    /// It succeeded.
    Done,
    /// It failed, with this message.
    Failed(String),
    /// The container with our vmid, if any.
    Listed(Option<Lxc>),
    /// The guest's leased address, if any.
    Address(Option<String>),
}

/// Where the run stands: the work whose answer it is waiting for.
#[derive(Debug)]
pub enum Stage {
    Begin,
    Preflight,
    Guard,
    Create,
    Refresh,
    Start,
    Responsive,
    Base,
    Docker,
    Address,
    Coturn(String),
    Tls(String),
    /// Renewal check: in `apply` with the guest's address to deploy to next,
    /// in `verify` without.
    Renewal(Option<String>),
    Deploy,
    Healthy,
    Report,
    Ended,
}

/* --- the step ------------------------------------------------------------------- */

/// Whether the work changes anything on the node.
pub open spec fn mutating(op: Op) -> bool {
    match op {
        Op::Create | Op::Start | Op::InstallBase | Op::InstallDocker | Op::InstallCoturn(_)
        | Op::SetupTls | Op::DeployApp(_) => true,
        _ => false,
    }
}

/// Whether the action asks for work that changes the node.
pub open spec fn mutates(act: Action) -> bool {
    act matches Action::Do(op) && mutating(op)
}

/// The stages a run reaches only past the ownership guard.
pub open spec fn guarded(at: Stage) -> bool {
    !(at is Begin || at is Preflight || at is Guard || at is Ended)
}

/// The guard lets a run go on when there is no container with our vmid, or
/// when the one there carries our tag.
pub open spec fn guard_passes(existing: Option<Lxc>) -> bool {
    match existing {
        None => true,
        Some(l) => spec_is_ours(l),
    }
}

/// The guard, given the listing, lets the run go on.
pub open spec fn guard_lets_through(at: Stage, ev: Event) -> bool {
    at is Guard && match ev {
        Event::Listed(e) => guard_passes(e),
        _ => false,
    }
}

/// The guard, given the listing, refuses: a container with our vmid that
/// does not carry our tag.
pub open spec fn guard_refuses(at: Stage, ev: Event) -> bool {
    at is Guard && match ev {
        Event::Listed(e) => !guard_passes(e),
        _ => false,
    }
}

pub open spec fn with_secrets(mode: Mode) -> bool {
    mode == (Mode::Apply { with_secrets: true })
}

pub open spec fn failed_with(act: Action, msg: Seq<char>) -> bool {
    act matches Action::Fail(m) && m@ == msg
}

pub open spec fn missing_guest_message(vmid: u32) -> Seq<char> {
    "container "@ + dec(vmid as nat) + " does not exist — nothing to verify"@
}

pub open spec fn no_address_message(g: Guest) -> Seq<char> {
    "the guest has no IPv4 address on eth0. It is configured for DHCP with MAC "@
        + spec_effective_mac(g) + " — is the reservation in place and the bridge/VLAN correct?"@
}

/// An answer of the wrong kind for the work asked (a listing where an
/// address was due, say) stops the run.
pub open spec fn unexpected_message() -> Seq<char> {
    "unexpected answer from the node"@
}

/// One step from a stage that is neither the first nor the last, on an
/// answer that is not a failure.
pub open spec fn spec_advance(mode: Mode, at: Stage, ev: Event, cfg: Config, next: Stage, act: Action) -> bool {
    let vmid = cfg.guest.vmid;
    match at {
        Stage::Preflight => next == Stage::Guard && act == Action::Do(Op::ListGuest),
        Stage::Guard => match ev {
            Event::Listed(e) => if !guard_passes(e) {
                next == Stage::Ended && failed_with(act, refusal_message(vmid, cfg.proxmox.node@, e->0))
            } else {
                match mode {
                    Mode::Plan => next == Stage::Ended && act == Action::Finish,
                    Mode::Verify => if e is None {
                        next == Stage::Ended && failed_with(act, missing_guest_message(vmid))
                    } else {
                        next == Stage::Renewal(None) && act == Action::Do(Op::VerifyRenewal)
                    },
                    Mode::Apply { .. } => if spec_needs_create(e) {
                        next == Stage::Create && act == Action::Do(Op::Create)
                    } else {
                        next == Stage::Refresh && act == Action::Do(Op::Refresh)
                    },
                }
            },
            _ => next == Stage::Ended && failed_with(act, unexpected_message()),
        },
        Stage::Create => next == Stage::Refresh && act == Action::Do(Op::Refresh),
        Stage::Refresh => match ev {
            Event::Listed(c) => if spec_needs_start(c) {
                next == Stage::Start && act == Action::Do(Op::Start)
            } else {
                next == Stage::Base && act == Action::Do(Op::InstallBase)
            },
            _ => next == Stage::Ended && failed_with(act, unexpected_message()),
        },
        Stage::Start => next == Stage::Responsive && act == Action::Do(Op::WaitResponsive),
        Stage::Responsive => next == Stage::Base && act == Action::Do(Op::InstallBase),
        Stage::Base => next == Stage::Docker && act == Action::Do(Op::InstallDocker),
        Stage::Docker => next == Stage::Address && act == Action::Do(Op::FindAddress),
        Stage::Address => match ev {
            Event::Address(Some(ip)) => if with_secrets(mode) {
                next == Stage::Coturn(ip) && act == Action::Do(Op::InstallCoturn(ip))
            } else {
                next == Stage::Deploy && act == Action::Do(Op::DeployApp(ip))
            },
            Event::Address(None) => next == Stage::Ended && failed_with(act, no_address_message(cfg.guest)),
            _ => next == Stage::Ended && failed_with(act, unexpected_message()),
        },
        Stage::Coturn(ip) => next == Stage::Tls(ip) && act == Action::Do(Op::SetupTls),
        Stage::Tls(ip) => next == Stage::Renewal(Some(ip)) && act == Action::Do(Op::VerifyRenewal),
        Stage::Renewal(Some(ip)) => next == Stage::Deploy && act == Action::Do(Op::DeployApp(ip)),
        Stage::Renewal(None) => next == Stage::Healthy && act == Action::Do(Op::WaitHealthy(3)),
        Stage::Deploy => next == Stage::Healthy && act == Action::Do(Op::WaitHealthy(30)),
        Stage::Healthy => next == Stage::Report && act == Action::Do(Op::ReportAddress),
        _ => next == Stage::Ended && act == Action::Finish,
    }
}

/// One step of a run: a run begins with the preflight; a failed piece of
/// work ends it with that failure; an ended run stays ended.
pub open spec fn spec_step(mode: Mode, at: Stage, ev: Event, cfg: Config, next: Stage, act: Action) -> bool {
    match at {
        Stage::Begin => next == Stage::Preflight && act == Action::Do(Op::Preflight),
        Stage::Ended => next == Stage::Ended && act == Action::Finish,
        _ => match ev {
            Event::Failed(m) => next == Stage::Ended && act == Action::Fail(m),
            _ => spec_advance(mode, at, ev, cfg, next, act),
        },
    }
}

fn message(a: &str, n: u32, b: &str) -> (s: String)
    ensures
        s@ == a@ + dec(n as nat) + b@,
{
    let mut v: Vec<char> = Vec::new();
    extend_str(&mut v, a);
    push_dec(&mut v, n as u64);
    extend_str(&mut v, b);
    to_string(v.as_slice())
}

fn unexpected() -> (r: (Stage, Action))
    ensures
        r.0 == Stage::Ended && failed_with(r.1, unexpected_message()),
{
    (Stage::Ended, Action::Fail("unexpected answer from the node".to_owned()))
}

/// The next stage of a run, and what to do, given the answer to the work it
/// was waiting for.
pub fn provision_step(mode: Mode, at: Stage, answer: Event, cfg: &Config) -> (r: (Stage, Action))
    ensures
        spec_step(mode, at, answer, *cfg, r.0, r.1),
{
    match at {
        Stage::Begin => {
            return (Stage::Preflight, Action::Do(Op::Preflight));
        },
        Stage::Ended => {
            return (Stage::Ended, Action::Finish);
        },
        _ => {},
    }
    if let Event::Failed(m) = answer {
        return (Stage::Ended, Action::Fail(m));
    }
    let vmid = cfg.guest.vmid;
    match at {
        Stage::Preflight => (Stage::Guard, Action::Do(Op::ListGuest)),
        Stage::Guard => match answer {
            Event::Listed(e) => match ownership(vmid, cfg.proxmox.node.as_str(), e) {
                Err(m) => (Stage::Ended, Action::Fail(m)),
                Ok(e) => match mode {
                    Mode::Plan => (Stage::Ended, Action::Finish),
                    Mode::Verify => if e.is_none() {
                        (
                            Stage::Ended,
                            Action::Fail(message("container ", vmid, " does not exist — nothing to verify")),
                        )
                    } else {
                        (Stage::Renewal(None), Action::Do(Op::VerifyRenewal))
                    },
                    Mode::Apply { .. } => if needs_create(&e) {
                        (Stage::Create, Action::Do(Op::Create))
                    } else {
                        (Stage::Refresh, Action::Do(Op::Refresh))
                    },
                },
            },
            _ => unexpected(),
        },
        Stage::Create => (Stage::Refresh, Action::Do(Op::Refresh)),
        Stage::Refresh => match answer {
            Event::Listed(c) => if needs_start(&c) {
                (Stage::Start, Action::Do(Op::Start))
            } else {
                (Stage::Base, Action::Do(Op::InstallBase))
            },
            _ => unexpected(),
        },
        Stage::Start => (Stage::Responsive, Action::Do(Op::WaitResponsive)),
        Stage::Responsive => (Stage::Base, Action::Do(Op::InstallBase)),
        Stage::Base => (Stage::Docker, Action::Do(Op::InstallDocker)),
        Stage::Docker => (Stage::Address, Action::Do(Op::FindAddress)),
        Stage::Address => match answer {
            Event::Address(Some(ip)) => if mode == (Mode::Apply { with_secrets: true }) {
                let at = ip.clone();
                (Stage::Coturn(ip), Action::Do(Op::InstallCoturn(at)))
            } else {
                (Stage::Deploy, Action::Do(Op::DeployApp(ip)))
            },
            Event::Address(None) => {
                let mut v: Vec<char> = Vec::new();
                extend_str(&mut v, "the guest has no IPv4 address on eth0. It is configured for DHCP with MAC ");
                extend_str(&mut v, cfg.guest.effective_mac().as_str());
                extend_str(&mut v, " — is the reservation in place and the bridge/VLAN correct?");
                (Stage::Ended, Action::Fail(to_string(v.as_slice())))
            },
            _ => unexpected(),
        },
        Stage::Coturn(ip) => (Stage::Tls(ip), Action::Do(Op::SetupTls)),
        Stage::Tls(ip) => (Stage::Renewal(Some(ip)), Action::Do(Op::VerifyRenewal)),
        Stage::Renewal(Some(ip)) => (Stage::Deploy, Action::Do(Op::DeployApp(ip))),
        Stage::Renewal(None) => (Stage::Healthy, Action::Do(Op::WaitHealthy(3))),
        Stage::Deploy => (Stage::Healthy, Action::Do(Op::WaitHealthy(30))),
        Stage::Healthy => (Stage::Report, Action::Do(Op::ReportAddress)),
        _ => (Stage::Ended, Action::Finish),
    }
}

/* --- laws ----------------------------------------------------------------------- */

/// Nothing that changes the node is asked for before the ownership guard
/// has passed, in any mode: a step asks for mutating work, or reaches a stage
/// past the guard, only from a stage already past it, or from the guard
/// itself on a listing the guard lets through. A run begins before the
/// guard, so every mutating action of a run comes after the guard passed.
pub proof fn lemma_no_mutation_before_guard(mode: Mode, at: Stage, ev: Event, cfg: Config, next: Stage, act: Action)
    requires
        spec_step(mode, at, ev, cfg, next, act),
    ensures
        mutates(act) ==> guarded(at) || guard_lets_through(at, ev),
        guarded(next) ==> guarded(at) || guard_lets_through(at, ev),
        (at is Begin || at is Preflight) ==> !mutates(act) && !guarded(next),
        guard_refuses(at, ev) ==> next is Ended && act is Fail,
{
}

/// `verify` refuses a guest that does not exist.
pub proof fn lemma_verify_needs_a_guest(at: Stage, cfg: Config, next: Stage, act: Action)
    requires
        at is Guard,
        spec_step(Mode::Verify, at, Event::Listed(None), cfg, next, act),
    ensures
        next is Ended,
        failed_with(act, missing_guest_message(cfg.guest.vmid)),
{
}

/// The stages a run in `mode` can be at: the coturn and TLS stages, and the
/// renewal check on the way to a deployment, only in `apply` with secrets;
/// the renewal check with nothing after it only in `verify`.
pub open spec fn stage_fits(mode: Mode, at: Stage) -> bool {
    &&& (at is Coturn || at is Tls || at matches Stage::Renewal(Some(_))) ==> with_secrets(mode)
    &&& at matches Stage::Renewal(None) ==> mode == Mode::Verify
}

/// coturn and TLS are set up only when the secrets they need are present:
/// a run that begins in a mode stays at stages that fit it, and asks for
/// coturn or TLS only in `apply` with secrets.
pub proof fn lemma_relay_and_tls_need_secrets(mode: Mode, at: Stage, ev: Event, cfg: Config, next: Stage, act: Action)
    requires
        stage_fits(mode, at),
        spec_step(mode, at, ev, cfg, next, act),
    ensures
        stage_fits(mode, next),
        (act matches Action::Do(Op::InstallCoturn(_)) || act matches Action::Do(Op::SetupTls))
            ==> with_secrets(mode),
{
}

/// A run begins at a stage that fits every mode.
pub proof fn lemma_begin_fits(mode: Mode)
    ensures
        stage_fits(mode, Stage::Begin),
        !guarded(Stage::Begin),
{
}

/// A run: from `Begin`, each stage, answer and action one step of
/// `provision_step` from the one before.
pub open spec fn is_run(mode: Mode, cfg: Config, stages: Seq<Stage>, answers: Seq<Event>, acts: Seq<Action>) -> bool {
    &&& stages.len() == answers.len() + 1
    &&& acts.len() == answers.len()
    &&& stages[0] is Begin
    &&& forall|k: int|
        0 <= k < answers.len() ==> spec_step(mode, #[trigger] stages[k], answers[k], cfg, stages[k + 1], acts[k])
}

proof fn lemma_guarded_after_guard(mode: Mode, cfg: Config, stages: Seq<Stage>, answers: Seq<Event>, acts: Seq<Action>, k: int)
    requires
        is_run(mode, cfg, stages, answers, acts),
        0 <= k < stages.len(),
        guarded(stages[k]),
    ensures
        exists|j: int| 0 <= j < k && #[trigger] guard_lets_through(stages[j], answers[j]),
    decreases k,
{
    if k > 0 {
        let p = k - 1;
        assert(spec_step(mode, stages[p], answers[p], cfg, stages[p + 1], acts[p]));
        lemma_no_mutation_before_guard(mode, stages[p], answers[p], cfg, stages[p + 1], acts[p]);
        if guarded(stages[p]) {
            lemma_guarded_after_guard(mode, cfg, stages, answers, acts, p);
            let j = choose|j: int| 0 <= j < p && #[trigger] guard_lets_through(stages[j], answers[j]);
            assert(guard_lets_through(stages[j], answers[j]));
        } else {
            assert(guard_lets_through(stages[p], answers[p]));
        }
    }
}

/// Over a whole run, in any mode: every action that changes the node comes
/// at or after the step where the ownership guard let the run through, and
/// coturn or TLS is asked for only in `apply` with secrets.
pub proof fn lemma_run_is_guarded(mode: Mode, cfg: Config, stages: Seq<Stage>, answers: Seq<Event>, acts: Seq<Action>, k: int)
    requires
        is_run(mode, cfg, stages, answers, acts),
        0 <= k < acts.len(),
    ensures
        mutates(acts[k]) ==> exists|j: int| 0 <= j <= k && #[trigger] guard_lets_through(stages[j], answers[j]),
        (acts[k] matches Action::Do(Op::InstallCoturn(_)) || acts[k] matches Action::Do(Op::SetupTls))
            ==> with_secrets(mode),
{
    assert(spec_step(mode, stages[k], answers[k], cfg, stages[k + 1], acts[k]));
    lemma_no_mutation_before_guard(mode, stages[k], answers[k], cfg, stages[k + 1], acts[k]);
    if mutates(acts[k]) {
        if guarded(stages[k]) {
            lemma_guarded_after_guard(mode, cfg, stages, answers, acts, k);
            let j = choose|j: int| 0 <= j < k && #[trigger] guard_lets_through(stages[j], answers[j]);
            assert(guard_lets_through(stages[j], answers[j]));
        } else {
            assert(guard_lets_through(stages[k], answers[k]));
        }
    }
    lemma_stages_fit(mode, cfg, stages, answers, acts, k);
    lemma_relay_and_tls_need_secrets(mode, stages[k], answers[k], cfg, stages[k + 1], acts[k]);
}

proof fn lemma_stages_fit(mode: Mode, cfg: Config, stages: Seq<Stage>, answers: Seq<Event>, acts: Seq<Action>, k: int)
    requires
        is_run(mode, cfg, stages, answers, acts),
        0 <= k < stages.len(),
    ensures
        stage_fits(mode, stages[k]),
    decreases k,
{
    if k > 0 {
        lemma_stages_fit(mode, cfg, stages, answers, acts, k - 1);
        assert(spec_step(mode, stages[k - 1], answers[k - 1], cfg, stages[k], acts[k - 1]));
        lemma_relay_and_tls_need_secrets(mode, stages[k - 1], answers[k - 1], cfg, stages[k], acts[k - 1]);
    }
}

} // verus!
