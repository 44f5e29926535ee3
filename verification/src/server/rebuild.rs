//! How the index of a configuration is made anew.
//!
//! The new index is made in a temporary file. Only when it is complete is the old one closed and
//! replaced, so that a failure leaves the old one in place as long as possible.
use super::slots::SourceSlot;
use super::state;
use super::state::BslContextServer;
use crate::text;
use crate::text::same_text;
use vstd::prelude::*;

verus! {

/// What is to be made anew.
#[derive(Debug, Clone)]
pub struct RebuildPlan {
    /// The position of the configuration.
    pub slot: usize,
    /// The folder of the dump.
    pub root: String,
    /// The file of the index.
    pub db_path: String,
}

/// The value of a plan.
pub struct RebuildPlanView {
    pub slot: int,
    pub root: Seq<char>,
    pub db_path: Seq<char>,
}

/// Why the index of another program is not made anew.
pub open spec fn foreign_text(kind: Seq<char>) -> Seq<char> {
    "symbol_source.kind = \""@ + kind + "\": источник читает чужой индекс, пересобирать нечего"@
}

/// Why an index is not made anew where the settings lack something.
pub open spec fn no_paths_text() -> Seq<char> {
    "для пересборки нужны symbol_source.root и symbol_source.db_path в config.toml"@
}

/// Why an index is not made anew where there is no dump.
pub open spec fn no_root_text(root: Seq<char>) -> Seq<char> {
    "symbol_source.root = "@ + root + " — каталога нет"@
}

/// Why an index is not made twice at a time.
pub open spec fn busy_text() -> Seq<char> {
    "пересборка уже идёт"@
}

/// What is to be made anew for a configuration, or why nothing is.
pub open spec fn slot_plan(i: int, slot: SourceSlot) -> Result<RebuildPlanView, Seq<char>> {
    let c = slot.config;
    if c.kind@ != "lite"@ {
        Err(foreign_text(c.kind@))
    } else if c.root is None || c.db_path is None {
        Err(no_paths_text())
    } else {
        Ok(RebuildPlanView { slot: i, root: c.root->0@, db_path: c.db_path->0@ })
    }
}

/// What a request asks to be made anew, or why it is refused.
pub open spec fn rebuild_plan(
    sources: Seq<(Seq<char>, SourceSlot)>,
    repo: Option<Seq<char>>,
) -> Result<RebuildPlanView, Seq<char>> {
    match state::slot_of(state::slot_names(sources), repo) {
        Ok(i) => slot_plan(i, sources[i].1),
        Err(e) => Err(e),
    }
}

/// The value of a decision on a request.
pub open spec fn plan_view(r: Result<RebuildPlan, String>) -> Result<RebuildPlanView, Seq<char>> {
    match r {
        Ok(p) => Ok(
            RebuildPlanView { slot: p.slot as int, root: p.root@, db_path: p.db_path@ },
        ),
        Err(e) => Err(e@),
    }
}

/// The value of a refusal.
pub open spec fn refusal(r: Result<(), String>) -> Option<Seq<char>> {
    match r {
        Ok(_) => None,
        Err(e) => Some(e@),
    }
}

impl BslContextServer {
    /// What a request asks to be made anew, or why it is refused.
    pub fn plan_rebuild(&self, repo: Option<&str>) -> (r: Result<RebuildPlan, String>)
        ensures
            plan_view(r) == rebuild_plan(self.sources.view(), text::opt_str(repo)),
    {
        assert(self.sources.names() =~= state::slot_names(self.sources.view()));
        let i = match self.resolve_slot(repo) {
            Ok(i) => i,
            Err(e) => {
                return Err(e);
            },
        };
        let slot = self.sources.get(i);
        if !same_text(slot.config.kind.as_str(), "lite") {
            let mut s = "symbol_source.kind = \"".to_string();
            s.append(slot.config.kind.as_str());
            s.append("\": источник читает чужой индекс, пересобирать нечего");
            return Err(s);
        }
        match (&slot.config.root, &slot.config.db_path) {
            (Some(root), Some(db_path)) => Ok(
                RebuildPlan {
                    slot: i,
                    root: root.as_str().to_string(),
                    db_path: db_path.as_str().to_string(),
                },
            ),
            _ => Err(
                "для пересборки нужны symbol_source.root и symbol_source.db_path в config.toml".to_string(),
            ),
        }
    }
}

/// Starts the making of an index: the dump has to be there, and no other making of the same index
/// may be under way.
pub fn admit_rebuild(slot: &mut SourceSlot, root: &str, root_is_dir: bool) -> (r: Result<
    (),
    String,
>)
    ensures
        refusal(r) == if !root_is_dir {
            Some(no_root_text(root@))
        } else if old(slot).rebuilding {
            Some(busy_text())
        } else {
            None
        },
        final(slot).rebuilding == (old(slot).rebuilding || r is Ok),
        final(slot).config == old(slot).config,
        final(slot).connected == old(slot).connected,
        final(slot).last_error == old(slot).last_error,
{
    if !root_is_dir {
        let mut s = "symbol_source.root = ".to_string();
        s.append(root);
        s.append(" — каталога нет");
        return Err(s);
    }
    if slot.start_rebuild() {
        Ok(())
    } else {
        Err("пересборка уже идёт".to_string())
    }
}

/// What is to be done next.
#[derive(Debug, Clone, Copy, PartialEq, Eq, Structural)]
pub enum Stage {
    /// Make the folder of the index.
    Folder,
    /// Make the new index in a temporary file.
    Build,
    /// Close the old index, put the new one into its place and open it.
    Swap,
    /// Open the old index again.
    Reopen,
    /// Remove the temporary file.
    Clean,
    /// Nothing.
    Done,
}

/// How a piece of work came out.
#[derive(Debug, Clone)]
pub enum Outcome {
    Success,
    /// It failed; `old_exists` says whether the file of the index is there.
    Failure { error: String, old_exists: bool },
    /// It broke off without an outcome.
    Crash { error: String },
}

/// The value of an outcome.
pub enum OutcomeView {
    Success,
    Failure { error: Seq<char>, old_exists: bool },
    Crash { error: Seq<char> },
}

impl View for Outcome {
    type V = OutcomeView;

    open spec fn view(&self) -> OutcomeView {
        match *self {
            Outcome::Success => OutcomeView::Success,
            Outcome::Failure { error, old_exists } => OutcomeView::Failure {
                error: error@,
                old_exists,
            },
            Outcome::Crash { error } => OutcomeView::Crash { error: error@ },
        }
    }
}

/// How far the making of an index has come.
#[derive(Debug, Clone)]
pub struct Rebuild {
    pub stage: Stage,
    /// The names of the configuration are at hand.
    pub connected: bool,
    /// What went wrong.
    pub error: Option<String>,
}

/// The value of a making of an index.
pub struct RebuildView {
    pub stage: Stage,
    pub connected: bool,
    pub error: Option<Seq<char>>,
}

impl View for Rebuild {
    type V = RebuildView;

    open spec fn view(&self) -> RebuildView {
        RebuildView {
            stage: self.stage,
            connected: self.connected,
            error: text::opt_text(self.error),
        }
    }
}

/// The beginning, with the names at hand or not.
pub open spec fn begun(connected: bool) -> RebuildView {
    RebuildView { stage: Stage::Folder, connected, error: None }
}

/// What follows on an outcome. The old index is closed when the new one is complete; where it
/// cannot be replaced, it is opened again. The temporary file is removed after every failure
/// behind which it may be left. Work that breaks off ends the making as it stands.
pub open spec fn after(r: RebuildView, outcome: OutcomeView) -> RebuildView {
    match (r.stage, outcome) {
        (Stage::Folder, OutcomeView::Success) => RebuildView { stage: Stage::Build, ..r },
        (Stage::Folder, OutcomeView::Failure { error, old_exists }) => RebuildView {
            stage: Stage::Done,
            error: Some(error),
            ..r
        },
        (Stage::Folder | Stage::Build | Stage::Swap, OutcomeView::Crash { error }) => RebuildView {
            stage: Stage::Done,
            error: Some(error),
            ..r
        },
        (Stage::Build, OutcomeView::Success) => RebuildView {
            stage: Stage::Swap,
            connected: false,
            ..r
        },
        (Stage::Build, OutcomeView::Failure { error, old_exists }) => RebuildView {
            stage: Stage::Clean,
            error: Some(error),
            ..r
        },
        (Stage::Swap, OutcomeView::Success) => RebuildView {
            stage: Stage::Done,
            connected: true,
            ..r
        },
        (Stage::Swap, OutcomeView::Failure { error, old_exists }) => RebuildView {
            stage: if old_exists {
                Stage::Reopen
            } else {
                Stage::Clean
            },
            error: Some(error),
            ..r
        },
        (Stage::Reopen, OutcomeView::Success) => RebuildView {
            stage: Stage::Clean,
            connected: true,
            ..r
        },
        (Stage::Reopen, _) => RebuildView { stage: Stage::Clean, ..r },
        (Stage::Clean, _) => RebuildView { stage: Stage::Done, ..r },
        (Stage::Done, _) => r,
    }
}

impl Rebuild {
    /// The beginning.
    pub fn new(connected: bool) -> (r: Rebuild)
        ensures
            r@ == begun(connected),
    {
        Rebuild { stage: Stage::Folder, connected, error: None }
    }

    /// Takes in how the piece of work of this stage came out.
    pub fn advance(&mut self, outcome: Outcome)
        ensures
            final(self)@ == after(old(self)@, outcome@),
    {
        match (self.stage, outcome) {
            (Stage::Folder, Outcome::Success) => {
                self.stage = Stage::Build;
            },
            (Stage::Folder, Outcome::Failure { error, old_exists: _ }) => {
                self.stage = Stage::Done;
                self.error = Some(error);
            },
            (Stage::Folder | Stage::Build | Stage::Swap, Outcome::Crash { error }) => {
                self.stage = Stage::Done;
                self.error = Some(error);
            },
            (Stage::Build, Outcome::Success) => {
                self.stage = Stage::Swap;
                self.connected = false;
            },
            (Stage::Build, Outcome::Failure { error, old_exists: _ }) => {
                self.stage = Stage::Clean;
                self.error = Some(error);
            },
            (Stage::Swap, Outcome::Success) => {
                self.stage = Stage::Done;
                self.connected = true;
            },
            (Stage::Swap, Outcome::Failure { error, old_exists }) => {
                self.stage = if old_exists {
                    Stage::Reopen
                } else {
                    Stage::Clean
                };
                self.error = Some(error);
            },
            (Stage::Reopen, Outcome::Success) => {
                self.stage = Stage::Clean;
                self.connected = true;
            },
            (Stage::Reopen, _) => {
                self.stage = Stage::Clean;
            },
            (Stage::Clean, _) => {
                self.stage = Stage::Done;
            },
            (Stage::Done, _) => {},
        }
    }
}

/// What the first `n` outcomes lead to.
pub open spec fn course(connected: bool, outcomes: Seq<OutcomeView>, n: int) -> RebuildView
    decreases n,
{
    if n <= 0 {
        begun(connected)
    } else {
        after(course(connected, outcomes, n - 1), outcomes[n - 1])
    }
}

/// The making of an index comes to an end, whatever happens.
pub proof fn law_rebuild_ends(connected: bool, outcomes: Seq<OutcomeView>)
    requires
        outcomes.len() >= 5,
    ensures
        course(connected, outcomes, 5).stage == Stage::Done,
{
    reveal_with_fuel(course, 6);
}

/// As long as the new index is not complete, the old one stays: the names are at hand exactly
/// where they were before.
pub proof fn law_old_index_stays_until_the_new_one_is_complete(
    connected: bool,
    outcomes: Seq<OutcomeView>,
    n: int,
)
    requires
        0 <= n <= outcomes.len(),
        outcomes.len() < 2 || outcomes[0] !is Success || outcomes[1] !is Success,
    ensures
        course(connected, outcomes, n).connected == connected,
        course(connected, outcomes, n).stage != Stage::Swap,
        course(connected, outcomes, n).stage != Stage::Reopen,
    decreases n,
{
    reveal_with_fuel(course, 3);
    if n > 0 {
        law_old_index_stays_until_the_new_one_is_complete(connected, outcomes, n - 1);
        if n >= 3 {
            lemma_failed_early(connected, outcomes, n);
        }
    }
}

proof fn lemma_failed_early(connected: bool, outcomes: Seq<OutcomeView>, n: int)
    requires
        2 <= n <= outcomes.len(),
        outcomes[0] !is Success || outcomes[1] !is Success,
    ensures
        course(connected, outcomes, n).connected == connected,
        course(connected, outcomes, n).stage == Stage::Clean || course(
            connected,
            outcomes,
            n,
        ).stage == Stage::Done,
    decreases n,
{
    reveal_with_fuel(course, 3);
    if n > 2 {
        lemma_failed_early(connected, outcomes, n - 1);
    }
}

/// The making of an index succeeds exactly where the folder, the new index and the swap do; then
/// the names are at hand.
pub proof fn law_rebuild_succeeds(connected: bool, outcomes: Seq<OutcomeView>)
    requires
        outcomes.len() >= 5,
    ensures
        course(connected, outcomes, 5).error is None <==> (outcomes[0] is Success
            && outcomes[1] is Success && outcomes[2] is Success),
        course(connected, outcomes, 5).error is None ==> course(connected, outcomes, 5).connected,
{
    reveal_with_fuel(course, 6);
}

/// After a failure behind which the temporary file may be left, it is removed before the end.
pub proof fn law_temporary_file_is_removed(r: RebuildView, outcome: OutcomeView)
    requires
        r.stage == Stage::Build || r.stage == Stage::Swap || r.stage == Stage::Reopen,
        outcome is Failure,
    ensures
        after(r, outcome).stage == Stage::Clean || (after(r, outcome).stage == Stage::Reopen
            && forall|next: OutcomeView| #[trigger] after(after(r, outcome), next).stage == Stage::Clean),
{
}

/// An index is rebuilt exactly where the configuration is known, its source is an index of this
/// program and both the folder of the dump and the file of the index are set; the plan names the
/// slot of that configuration, its folder and its file.
pub proof fn law_only_own_indexes_are_rebuilt(sources: Seq<(Seq<char>, SourceSlot)>, repo: Option<Seq<char>>)
    ensures
        rebuild_plan(sources, repo) is Ok <==> (repo matches Some(name) && exists|i: int|
            0 <= i < sources.len() && (#[trigger] sources[i]).0 == name && state::slot_of(
                state::slot_names(sources),
                repo,
            ) == Ok::<int, Seq<char>>(i) && sources[i].1.config.kind@ == "lite"@
                && sources[i].1.config.root is Some && sources[i].1.config.db_path is Some),
        rebuild_plan(sources, repo) matches Ok(p) ==> 0 <= p.slot < sources.len() && sources[p.slot].0
            == repo->0 && p.root == sources[p.slot].1.config.root->0@ && p.db_path
            == sources[p.slot].1.config.db_path->0@,
{
    let names = state::slot_names(sources);
    if let Some(name) = repo {
        state::law_slot_bears_the_name(names, name);
        if let Ok(i) = state::slot_of(names, repo) {
            assert(names[i] == sources[i].0);
        }
    }
}

/// The first failure is the one that is told: what goes wrong before the new index is in place is
/// told as it is, and what is done afterwards changes nothing of it.
pub proof fn law_first_failure_is_told(r: RebuildView, outcome: OutcomeView)
    ensures
        r.stage == Stage::Folder || r.stage == Stage::Build || r.stage == Stage::Swap ==> {
            &&& outcome matches OutcomeView::Failure { error, old_exists } ==> after(r, outcome).error == Some(error)
            &&& outcome matches OutcomeView::Crash { error } ==> after(r, outcome).error == Some(error)
            &&& outcome is Success ==> after(r, outcome).error == r.error
        },
        r.stage == Stage::Reopen || r.stage == Stage::Clean || r.stage == Stage::Done ==> after(
            r,
            outcome,
        ).error == r.error,
{
}

/// While a new index is put in place the source is not connected, and afterwards it is connected
/// exactly where the new index could be opened or, where it could not, the old one could be opened
/// again.
pub proof fn law_source_is_connected_again(r: RebuildView, outcome: OutcomeView)
    ensures
        r.stage == Stage::Build && outcome is Success ==> !after(r, outcome).connected && after(r, outcome).stage
            == Stage::Swap,
        r.stage == Stage::Swap && outcome is Success ==> after(r, outcome).connected && after(r, outcome).stage
            == Stage::Done,
        r.stage == Stage::Swap && !(outcome is Success) ==> after(r, outcome).connected == r.connected,
        r.stage == Stage::Swap && (outcome matches OutcomeView::Failure { error, old_exists } && old_exists)
            ==> after(r, outcome).stage == Stage::Reopen,
        r.stage == Stage::Reopen ==> after(r, outcome).connected == (r.connected || outcome is Success),
        r.stage == Stage::Clean || r.stage == Stage::Done ==> after(r, outcome).connected == r.connected,
{
}

} // verus!
