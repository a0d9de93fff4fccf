//! The course of a run: fetch the manifest, compare it with what is on disk, ask, download, tidy
//! up, and launch the game.

use vstd::prelude::*;

verus! {

/// What a run was asked to do and to leave out.
#[derive(Debug, Clone, Copy, PartialEq, Eq, Structural)]
pub struct Flags {
    /// Skip the update check and just launch the game.
    pub launch_only: bool,
    /// Show what would be downloaded, and stop.
    pub dry_run: bool,
    /// Sync but do not launch the game.
    pub no_launch: bool,
}

/// A step of a run.
#[derive(Debug, Clone, Copy, PartialEq, Eq, Structural)]
pub enum Step {
    /// Launch the game as it is, with the default command.
    LaunchDefault,
    FetchManifest,
    /// Compare the manifest with what is on disk.
    Plan,
    /// Show what would be downloaded.
    ShowPlan,
    /// Ask whether to download.
    Confirm,
    Download,
    /// Delete what the manifest has retired.
    Prune,
    /// Write down what is installed.
    Record,
    /// Make runnable what must be.
    RepairModes,
    /// Launch the game with the manifest's command.
    Launch,
    /// The run is over.
    Finished,
    /// The user declined.
    Cancelled,
    /// The run cannot go on.
    Failed,
}

/// How a step went: whether it succeeded (of a question, whether the answer was yes), and whether
/// there is anything to download.
#[derive(Debug, Clone, Copy, PartialEq, Eq, Structural)]
pub struct Outcome {
    pub ok: bool,
    pub pending: bool,
}

/// The first step of a run.
pub open spec fn opening(flags: Flags) -> Step {
    if flags.launch_only {
        Step::LaunchDefault
    } else {
        Step::FetchManifest
    }
}

/// The step that follows. A ledger that cannot be written and files that cannot be deleted are no
/// reason to stop.
pub open spec fn following(step: Step, flags: Flags, outcome: Outcome) -> Step {
    match step {
        Step::LaunchDefault => if outcome.ok { Step::Finished } else { Step::Failed },
        Step::FetchManifest => if outcome.ok { Step::Plan } else { Step::Failed },
        Step::Plan => if !outcome.ok {
            Step::Failed
        } else if flags.dry_run {
            Step::ShowPlan
        } else if outcome.pending {
            Step::Confirm
        } else {
            Step::Prune
        },
        Step::ShowPlan => Step::Finished,
        Step::Confirm => if outcome.ok { Step::Download } else { Step::Cancelled },
        Step::Download => if outcome.ok { Step::Prune } else { Step::Failed },
        Step::Prune => Step::Record,
        Step::Record => Step::RepairModes,
        Step::RepairModes => if flags.no_launch { Step::Finished } else { Step::Launch },
        Step::Launch => if outcome.ok { Step::Finished } else { Step::Failed },
        Step::Finished => Step::Finished,
        Step::Cancelled => Step::Cancelled,
        Step::Failed => Step::Failed,
    }
}

/// What to do first.
pub fn first_step(flags: Flags) -> (r: Step)
    ensures
        r == opening(flags),
{
    if flags.launch_only {
        Step::LaunchDefault
    } else {
        Step::FetchManifest
    }
}

/// What to do after `step`, given how it went.
pub fn next_step(step: Step, flags: Flags, outcome: Outcome) -> (r: Step)
    ensures
        r == following(step, flags, outcome),
{
    match step {
        Step::LaunchDefault => if outcome.ok { Step::Finished } else { Step::Failed },
        Step::FetchManifest => if outcome.ok { Step::Plan } else { Step::Failed },
        Step::Plan => if !outcome.ok {
            Step::Failed
        } else if flags.dry_run {
            Step::ShowPlan
        } else if outcome.pending {
            Step::Confirm
        } else {
            Step::Prune
        },
        Step::ShowPlan => Step::Finished,
        Step::Confirm => if outcome.ok { Step::Download } else { Step::Cancelled },
        Step::Download => if outcome.ok { Step::Prune } else { Step::Failed },
        Step::Prune => Step::Record,
        Step::Record => Step::RepairModes,
        Step::RepairModes => if flags.no_launch { Step::Finished } else { Step::Launch },
        Step::Launch => if outcome.ok { Step::Finished } else { Step::Failed },
        Step::Finished => Step::Finished,
        Step::Cancelled => Step::Cancelled,
        Step::Failed => Step::Failed,
    }
}

/// The step that a run has come to after `n` outcomes.
pub open spec fn step_at(flags: Flags, outcomes: Seq<Outcome>, n: nat) -> Step
    decreases n,
{
    if n == 0 {
        opening(flags)
    } else {
        following(step_at(flags, outcomes, (n - 1) as nat), flags, outcomes[n - 1])
    }
}

/// Whether a step may create the install directory: the first step that writes into it. After a
/// yes that is the download; where nothing was missing it is the ledger.
pub open spec fn may_create_install_dir(step: Step) -> bool {
    step is Download || step is Record
}

/// Whether the install directory has to be there for this step, and is created if it is not.
pub fn creates_install_dir(step: Step) -> (r: bool)
    ensures
        r == may_create_install_dir(step),
{
    match step {
        Step::Download | Step::Record => true,
        _ => false,
    }
}

/// Whether a step changes anything on disk, the install directory included, or starts the game.
pub open spec fn has_effects(step: Step) -> bool {
    match step {
        Step::LaunchDefault | Step::Download | Step::Prune | Step::Record | Step::RepairModes | Step::Launch => true,
        _ => false,
    }
}

/// Creating the install directory is an effect.
pub proof fn law_creating_the_directory_is_an_effect(step: Step)
    requires
        may_create_install_dir(step),
    ensures
        has_effects(step),
{
}

/// A dry run has no effects, unless it is told to launch only. It does not even create the install
/// directory.
pub proof fn law_dry_run_has_no_effects(flags: Flags, outcomes: Seq<Outcome>, n: nat)
    requires
        flags.dry_run,
        !flags.launch_only,
    ensures
        !has_effects(step_at(flags, outcomes, n)),
        !may_create_install_dir(step_at(flags, outcomes, n)),
        !(step_at(flags, outcomes, n) is Confirm),
    decreases n,
{
    if n > 0 {
        law_dry_run_has_no_effects(flags, outcomes, (n - 1) as nat);
    }
}

/// Nothing is downloaded unless there is something to download and the question was answered yes.
pub proof fn law_no_download_without_consent(flags: Flags, outcomes: Seq<Outcome>, n: nat)
    requires
        step_at(flags, outcomes, n) is Download,
    ensures
        n >= 2,
        step_at(flags, outcomes, (n - 1) as nat) is Confirm,
        outcomes[n - 1].ok,
        step_at(flags, outcomes, (n - 2) as nat) is Plan,
        outcomes[n - 2].pending,
{
    assert(step_at(flags, outcomes, (n - 1) as nat) is Confirm);
    assert(step_at(flags, outcomes, (n - 2) as nat) is Plan);
}

/// Files are deleted and the ledger is written only after a clean sync: when nothing was missing
/// or when everything that was missing has arrived. Pruning while downloads are failing could
/// leave the install missing both the old file and its replacement.
pub proof fn law_prune_only_after_clean_sync(flags: Flags, outcomes: Seq<Outcome>, n: nat)
    requires
        step_at(flags, outcomes, n) is Prune,
    ensures
        n >= 1,
        outcomes[n - 1].ok,
        step_at(flags, outcomes, (n - 1) as nat) is Download || (step_at(flags, outcomes, (n - 1) as nat) is Plan
            && !outcomes[n - 1].pending),
{
}

/// The ledger is written only behind a prune, and so only after a clean sync.
pub proof fn law_record_follows_prune(flags: Flags, outcomes: Seq<Outcome>, n: nat)
    requires
        step_at(flags, outcomes, n) is Record,
    ensures
        n >= 1,
        step_at(flags, outcomes, (n - 1) as nat) is Prune,
{
}

/// The game is launched after a sync only where that was not switched off.
pub proof fn law_no_launch_is_honoured(flags: Flags, outcomes: Seq<Outcome>, n: nat)
    requires
        flags.no_launch,
    ensures
        !(step_at(flags, outcomes, n) is Launch),
    decreases n,
{
    if n > 0 {
        law_no_launch_is_honoured(flags, outcomes, (n - 1) as nat);
    }
}

/// A launch without an update check does nothing else.
pub proof fn law_launch_only_does_nothing_else(flags: Flags, outcomes: Seq<Outcome>, n: nat)
    requires
        flags.launch_only,
        n >= 1,
    ensures
        step_at(flags, outcomes, 0) is LaunchDefault,
        step_at(flags, outcomes, n) is Finished || step_at(flags, outcomes, n) is Failed,
    decreases n,
{
    reveal_with_fuel(step_at, 2);
    if n > 1 {
        law_launch_only_does_nothing_else(flags, outcomes, (n - 1) as nat);
    }
}

/// Nothing is written before the question: no step up to it has effects.
pub proof fn law_nothing_is_written_before_the_question(flags: Flags, outcomes: Seq<Outcome>, n: nat, m: nat)
    requires
        step_at(flags, outcomes, n) is Confirm,
        m <= n,
    ensures
        !has_effects(step_at(flags, outcomes, m)),
        !may_create_install_dir(step_at(flags, outcomes, m)),
{
    // The question is asked in the third step, behind the manifest and the plan.
    if n > 0 {
        let plan = step_at(flags, outcomes, (n - 1) as nat);
        assert(plan is Plan);
        assert(n > 1);
        let fetch = step_at(flags, outcomes, (n - 2) as nat);
        assert(fetch is FetchManifest);
        if n > 2 {
            assert(following(step_at(flags, outcomes, (n - 3) as nat), flags, outcomes[n - 3]) == fetch);
            assert(false);
        }
    }
}

/// A refusal leaves everything as it was: no step of such a run has effects, before the question
/// or after it, not even the creation of the install directory.
pub proof fn law_refusal_writes_nothing(flags: Flags, outcomes: Seq<Outcome>, n: nat, m: nat)
    requires
        step_at(flags, outcomes, n) is Confirm,
        !outcomes[n as int].ok,
    ensures
        !has_effects(step_at(flags, outcomes, m)),
        !may_create_install_dir(step_at(flags, outcomes, m)),
        m > n ==> step_at(flags, outcomes, m) is Cancelled,
    decreases m,
{
    if m <= n {
        law_nothing_is_written_before_the_question(flags, outcomes, n, m);
    } else if m > n + 1 {
        law_refusal_writes_nothing(flags, outcomes, n, (m - 1) as nat);
    }
}

/// Whether a run is over.
pub open spec fn is_over(step: Step) -> bool {
    step is Finished || step is Cancelled || step is Failed
}

/// How many steps are left at most.
pub open spec fn steps_left(step: Step) -> nat {
    match step {
        Step::FetchManifest => 8,
        Step::Plan => 7,
        Step::Confirm => 6,
        Step::Download => 5,
        Step::Prune => 4,
        Step::Record => 3,
        Step::RepairModes => 2,
        Step::LaunchDefault | Step::ShowPlan | Step::Launch => 1,
        Step::Finished | Step::Cancelled | Step::Failed => 0,
    }
}

/// Each step brings a run nearer to its end.
proof fn lemma_steps_left(step: Step, flags: Flags, outcome: Outcome)
    ensures
        steps_left(following(step, flags, outcome)) < steps_left(step) || is_over(step),
        is_over(step) ==> following(step, flags, outcome) == step,
        is_over(step) <==> steps_left(step) == 0,
{
}

/// Every run ends, after eight steps at most, and stays ended.
pub proof fn law_every_run_ends(flags: Flags, outcomes: Seq<Outcome>, n: nat)
    ensures
        steps_left(step_at(flags, outcomes, n)) + n <= 8 || is_over(step_at(flags, outcomes, n)),
        n >= 8 ==> is_over(step_at(flags, outcomes, n)),
    decreases n,
{
    if n > 0 {
        law_every_run_ends(flags, outcomes, (n - 1) as nat);
        lemma_steps_left(step_at(flags, outcomes, (n - 1) as nat), flags, outcomes[n - 1]);
    }
    lemma_steps_left(step_at(flags, outcomes, n), flags, outcomes[n as int]);
}

/// A run that is not told otherwise asks the mirrors first, and goes on from one step to the next
/// only where the step went well.
pub proof fn law_update_precedes_everything(flags: Flags, outcomes: Seq<Outcome>)
    requires
        !flags.launch_only,
    ensures
        step_at(flags, outcomes, 0) is FetchManifest,
        outcomes[0].ok ==> step_at(flags, outcomes, 1) is Plan,
{
    reveal_with_fuel(step_at, 3);
}

/// What is missing is asked about and then fetched: a plan with anything to download leads to the
/// question, and a yes to the download. Where nothing is missing, the run goes on to tidy up at
/// once. A dry run shows the plan instead, and is done.
pub proof fn law_plan_is_carried_out(flags: Flags, outcomes: Seq<Outcome>, n: nat)
    requires
        step_at(flags, outcomes, n) is Plan,
        outcomes[n as int].ok,
    ensures
        flags.dry_run ==> step_at(flags, outcomes, n + 1) is ShowPlan && step_at(flags, outcomes, n + 2) is Finished,
        !flags.dry_run && outcomes[n as int].pending ==> step_at(flags, outcomes, n + 1) is Confirm && (outcomes[n as int
            + 1].ok ==> step_at(flags, outcomes, n + 2) is Download),
        !flags.dry_run && !outcomes[n as int].pending ==> step_at(flags, outcomes, n + 1) is Prune,
{
    reveal_with_fuel(step_at, 3);
}

/// A clean sync is completed, whatever the flags say of launching: once everything that was missing
/// has arrived, or nothing was, retired files are deleted, the ledger is written and the execute
/// bits are repaired, each whether or not the one in front of it went well. Only then is the game
/// launched, unless that was switched off.
pub proof fn law_clean_sync_is_completed(flags: Flags, outcomes: Seq<Outcome>, n: nat)
    requires
        outcomes[n as int].ok,
        step_at(flags, outcomes, n) is Download || (step_at(flags, outcomes, n) is Plan && !flags.dry_run
            && !outcomes[n as int].pending),
    ensures
        step_at(flags, outcomes, n + 1) is Prune,
        step_at(flags, outcomes, n + 2) is Record,
        step_at(flags, outcomes, n + 3) is RepairModes,
        flags.no_launch ==> step_at(flags, outcomes, n + 4) is Finished,
        !flags.no_launch ==> step_at(flags, outcomes, n + 4) is Launch && (step_at(flags, outcomes, n + 5) is Finished
            <==> outcomes[n as int + 4].ok),
{
    reveal_with_fuel(step_at, 6);
}

/// Whether a run has come through a step of this kind before its `n`th.
pub open spec fn has_passed(flags: Flags, outcomes: Seq<Outcome>, n: nat, step: Step) -> bool {
    exists|k: nat| k < n && #[trigger] step_at(flags, outcomes, k) == step
}

/// A run that has finished has done all of its work: unless it was told to launch only, or to show
/// the plan, it has fetched the manifest and compared it, deleted what is retired, written the
/// ledger and repaired the execute bits; where anything was missing it has downloaded that; and it
/// has launched the game, unless that was switched off. A run that was told to launch only has
/// launched it, and a dry run has shown the plan.
pub proof fn law_finished_run_has_done_its_work(flags: Flags, outcomes: Seq<Outcome>, n: nat)
    requires
        step_at(flags, outcomes, n) is Finished,
    ensures
        flags.launch_only ==> has_passed(flags, outcomes, n, Step::LaunchDefault),
        !flags.launch_only && flags.dry_run ==> has_passed(flags, outcomes, n, Step::ShowPlan),
        !flags.launch_only && !flags.dry_run ==> {
            &&& has_passed(flags, outcomes, n, Step::FetchManifest)
            &&& has_passed(flags, outcomes, n, Step::Plan)
            &&& has_passed(flags, outcomes, n, Step::Prune)
            &&& has_passed(flags, outcomes, n, Step::Record)
            &&& has_passed(flags, outcomes, n, Step::RepairModes)
            &&& outcomes[1].pending ==> has_passed(flags, outcomes, n, Step::Confirm) && has_passed(
                flags,
                outcomes,
                n,
                Step::Download,
            )
            &&& !flags.no_launch ==> has_passed(flags, outcomes, n, Step::Launch)
        },
    decreases n,
{
    let k = (n - 1) as nat;
    if n == 0 {
    } else if step_at(flags, outcomes, k) is Finished {
        law_finished_run_has_done_its_work(flags, outcomes, k);
        lemma_passed_stays(flags, outcomes, n);
    } else if step_at(flags, outcomes, k) is Launch {
        assert(step_at(flags, outcomes, (k - 1) as nat) is RepairModes);
        lemma_sync_was_clean(flags, outcomes, (k - 1) as nat, n);
    } else if step_at(flags, outcomes, k) is RepairModes {
        lemma_sync_was_clean(flags, outcomes, k, n);
    } else if step_at(flags, outcomes, k) is ShowPlan {
        lemma_plan_is_second(flags, outcomes, (k - 1) as nat);
    } else {
        assert(step_at(flags, outcomes, k) is LaunchDefault);
        if k > 0 {
            assert(following(step_at(flags, outcomes, (k - 1) as nat), flags, outcomes[k - 1]) is LaunchDefault);
        }
    }
}

/// The plan is the second step of a run, behind the manifest.
proof fn lemma_plan_is_second(flags: Flags, outcomes: Seq<Outcome>, n: nat)
    requires
        step_at(flags, outcomes, n) is Plan,
    ensures
        n == 1,
        step_at(flags, outcomes, 0) is FetchManifest,
        !flags.launch_only,
{
    assert(n > 0);
    let k = (n - 1) as nat;
    assert(step_at(flags, outcomes, k) is FetchManifest);
    if k > 0 {
        assert(following(step_at(flags, outcomes, (k - 1) as nat), flags, outcomes[k - 1]) is FetchManifest);
        assert(false);
    }
}

/// What lies behind a run that repairs execute bits.
proof fn lemma_sync_was_clean(flags: Flags, outcomes: Seq<Outcome>, k: nat, n: nat)
    requires
        k < n,
        step_at(flags, outcomes, k) is RepairModes,
    ensures
        !flags.launch_only,
        !flags.dry_run,
        has_passed(flags, outcomes, n, Step::FetchManifest),
        has_passed(flags, outcomes, n, Step::Plan),
        has_passed(flags, outcomes, n, Step::Prune),
        has_passed(flags, outcomes, n, Step::Record),
        has_passed(flags, outcomes, n, Step::RepairModes),
        outcomes[1].pending ==> has_passed(flags, outcomes, n, Step::Confirm) && has_passed(
            flags,
            outcomes,
            n,
            Step::Download,
        ),
{
    assert(step_at(flags, outcomes, (k - 1) as nat) is Record);
    assert(step_at(flags, outcomes, (k - 2) as nat) is Prune);
    let before = (k - 3) as nat;
    if step_at(flags, outcomes, before) is Plan {
        lemma_plan_is_second(flags, outcomes, before);
    } else {
        assert(step_at(flags, outcomes, before) is Download);
        assert(step_at(flags, outcomes, (before - 1) as nat) is Confirm);
        assert(step_at(flags, outcomes, (before - 2) as nat) is Plan);
        lemma_plan_is_second(flags, outcomes, (before - 2) as nat);
    }
}

proof fn lemma_passed_stays(flags: Flags, outcomes: Seq<Outcome>, n: nat)
    requires
        n > 0,
    ensures
        forall|step: Step|
            has_passed(flags, outcomes, (n - 1) as nat, step) ==> #[trigger] has_passed(flags, outcomes, n, step),
{
    assert forall|step: Step| has_passed(flags, outcomes, (n - 1) as nat, step) implies #[trigger] has_passed(
        flags,
        outcomes,
        n,
        step,
    ) by {
        let k = choose|k: nat| k < n - 1 && #[trigger] step_at(flags, outcomes, k) == step;
        assert(step_at(flags, outcomes, k) == step);
    }
}

/// A run fails exactly where one of the steps it depends on failed: the manifest, the plan, the
/// download or the launch. Files that cannot be deleted, a ledger that cannot be written and
/// execute bits that cannot be repaired fail nothing.
pub proof fn law_failure_has_a_cause(flags: Flags, outcomes: Seq<Outcome>, n: nat)
    ensures
        ({
            let step = step_at(flags, outcomes, n);
            let next = step_at(flags, outcomes, n + 1);
            next is Failed <==> step is Failed || (!outcomes[n as int].ok && (step is FetchManifest || step is Plan || step
                is Download || step is Launch || step is LaunchDefault))
        }),
        !(step_at(flags, outcomes, 0) is Failed),
{
    reveal_with_fuel(step_at, 2);
}

/// The steps that change something on disk or start the game are the launches, the download and
/// what follows a clean sync. The others only read, ask and show.
pub proof fn law_effects(step: Step)
    ensures
        step is FetchManifest || step is Plan || step is ShowPlan || step is Confirm || is_over(step) ==> !has_effects(step),
        step is Launch || step is LaunchDefault || step is Download || step is Prune || step is Record || step is RepairModes
            ==> has_effects(step),
        step is Download || step is Record ==> may_create_install_dir(step),
{
}

/// `next_step` on its own: after a successful download comes the deletion of retired files, then
/// the ledger, then the execute bits, whatever the flags are and however each of them went.
pub proof fn law_next_step_completes_a_sync(
    flags: Flags,
    download: Outcome,
    prune: Outcome,
    record: Outcome,
    repair: Outcome,
    after: (Step, Step, Step, Step),
)
    requires
        download.ok,
        call_ensures(next_step, (Step::Download, flags, download), after.0),
        call_ensures(next_step, (after.0, flags, prune), after.1),
        call_ensures(next_step, (after.1, flags, record), after.2),
        call_ensures(next_step, (after.2, flags, repair), after.3),
    ensures
        after.0 is Prune,
        after.1 is Record,
        after.2 is RepairModes,
        flags.no_launch ==> after.3 is Finished,
        !flags.no_launch ==> after.3 is Launch,
{
}

/// A run as it is carried out follows its course, and the install directory is created for the steps that write into it.
pub proof fn law_run_follows_its_course(
    flags: Flags,
    step: Step,
    outcome: Outcome,
    first: Step,
    next: Step,
    creates: bool,
)
    requires
        call_ensures(first_step, (flags,), first),
        call_ensures(next_step, (step, flags, outcome), next),
        call_ensures(creates_install_dir, (step,), creates),
    ensures
        first == step_at(flags, Seq::empty(), 0),
        next == following(step, flags, outcome),
        creates <==> step is Download || step is Record,
        first is LaunchDefault <==> flags.launch_only,
        first is FetchManifest <==> !flags.launch_only,
{
}

} // verus!
