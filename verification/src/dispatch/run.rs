//! One dispatch from beginning to end.
//!
//! Creating a worktree, starting an agent and running git happen elsewhere. Here is decided
//! what to do next: [`handle_dispatch`] begins a dispatch, and [`Dispatch::advance`] takes the
//! outcome of each action and gives the next one, until the dispatch is finished.

use crate::dispatch::naming;
use crate::dispatch::naming::DispatchPaths;
use crate::dispatch::worktrees;
use crate::dispatch::worktrees::{EntryModel, RemovalPolicy, WorktreeRegistry};
use crate::path::{NativePath, PathKey, PathModel};
use crate::text;
use vstd::prelude::*;
use vstd::string::*;

verus! {

// ---------------------------------------------------------------------------
// What is started
// ---------------------------------------------------------------------------

/// What the caller of a dispatch chose to start.
#[derive(Debug, PartialEq, Eq)]
pub enum DispatchShape {
    SingleAgent,
    /// The named orchestration, or the first one.
    Orchestration { name: Option<String> },
}

/// What a spawn is told to start in place of what the configuration implies.
#[derive(Debug, PartialEq, Eq)]
pub enum SpawnShapeOverride {
    SingleAgent,
    Orchestration(Option<String>),
}

/// A choice of what to start.
pub enum ShapeModel {
    SingleAgent,
    Orchestration(Option<Seq<char>>),
}

impl View for DispatchShape {
    type V = ShapeModel;

    open spec fn view(&self) -> ShapeModel {
        match *self {
            DispatchShape::SingleAgent => ShapeModel::SingleAgent,
            DispatchShape::Orchestration { name } => ShapeModel::Orchestration(text::maybe(name)),
        }
    }
}

impl View for SpawnShapeOverride {
    type V = ShapeModel;

    open spec fn view(&self) -> ShapeModel {
        match *self {
            SpawnShapeOverride::SingleAgent => ShapeModel::SingleAgent,
            SpawnShapeOverride::Orchestration(name) => ShapeModel::Orchestration(text::maybe(name)),
        }
    }
}

/// The choice of a dispatch, if there is one.
pub open spec fn chosen(shape: Option<&DispatchShape>) -> Option<ShapeModel> {
    match shape {
        Some(s) => Some(s@),
        None => None,
    }
}

/// The choice of a spawn, if there is one.
pub open spec fn overridden(shape: Option<SpawnShapeOverride>) -> Option<ShapeModel> {
    match shape {
        Some(s) => Some(s@),
        None => None,
    }
}

/// The choice of a dispatch as the spawn takes it. No choice stays no choice: the
/// configuration of the worktree then decides.
pub fn shape_override_of(shape: Option<&DispatchShape>) -> (r: Option<SpawnShapeOverride>)
    ensures
        overridden(r) == chosen(shape),
        is_choice(shape, overridden(r)),
        shape matches Some(DispatchShape::SingleAgent) ==> r matches Some(
            SpawnShapeOverride::SingleAgent,
        ),
        shape matches Some(DispatchShape::Orchestration { name }) ==> (r matches Some(
            SpawnShapeOverride::Orchestration(chosen_name),
        ) && text::maybe(chosen_name) == text::maybe(*name)),
{
    match shape {
        None => None,
        Some(s) => match s {
            DispatchShape::SingleAgent => Some(SpawnShapeOverride::SingleAgent),
            DispatchShape::Orchestration { name } => match name {
                Some(n) => Some(SpawnShapeOverride::Orchestration(Some(n.as_str().to_owned()))),
                None => Some(SpawnShapeOverride::Orchestration(None)),
            },
        },
    }
}

/// Whether what is started is what was chosen: one agent, the named orchestration or the first
/// one, or whatever the configuration implies.
pub open spec fn is_choice(shape: Option<&DispatchShape>, started: Option<ShapeModel>) -> bool {
    match shape {
        None => started is None,
        Some(DispatchShape::SingleAgent) => started == Some(ShapeModel::SingleAgent),
        Some(DispatchShape::Orchestration { name: None }) => started == Some(
            ShapeModel::Orchestration(None),
        ),
        Some(DispatchShape::Orchestration { name: Some(name) }) => started == Some(
            ShapeModel::Orchestration(Some(name@)),
        ),
    }
}

fn copy_override(shape: &Option<SpawnShapeOverride>) -> (r: Option<SpawnShapeOverride>)
    ensures
        overridden(r) == overridden(*shape),
{
    match shape {
        None => None,
        Some(SpawnShapeOverride::SingleAgent) => Some(SpawnShapeOverride::SingleAgent),
        Some(SpawnShapeOverride::Orchestration(None)) => Some(
            SpawnShapeOverride::Orchestration(None),
        ),
        Some(SpawnShapeOverride::Orchestration(Some(name))) => Some(
            SpawnShapeOverride::Orchestration(Some(name.as_str().to_owned())),
        ),
    }
}

/// What is to be started, and where.
#[derive(Debug)]
pub struct SpawnRequest {
    pub task_name: String,
    pub working_dir: String,
    /// The command of the agent; the configured one where there is none.
    pub command: Option<String>,
    pub prompt: String,
    pub shape_override: Option<SpawnShapeOverride>,
}

/// What a [`SpawnRequest`] stands for.
pub struct RequestModel {
    pub task_name: Seq<char>,
    pub working_dir: Seq<char>,
    pub command: Option<Seq<char>>,
    pub prompt: Seq<char>,
    pub shape: Option<ShapeModel>,
}

impl View for SpawnRequest {
    type V = RequestModel;

    open spec fn view(&self) -> RequestModel {
        RequestModel {
            task_name: self.task_name@,
            working_dir: self.working_dir@,
            command: text::maybe(self.command),
            prompt: self.prompt@,
            shape: overridden(self.shape_override),
        }
    }
}

// ---------------------------------------------------------------------------
// What happens
// ---------------------------------------------------------------------------

/// What came of creating a worktree.
#[derive(Debug, Clone, Copy, PartialEq, Eq, Structural)]
pub enum WorktreeCreation {
    Created,
    /// The directory is there already.
    AlreadyClaimed,
    /// The directory is not there, but its branch is.
    BranchExists,
}

/// What was actually started.
#[derive(Debug)]
pub enum SpawnKind {
    Orchestration { name: String },
    SingleAgent,
}

/// What a [`SpawnKind`] stands for.
pub enum KindModel {
    Orchestration(Seq<char>),
    SingleAgent,
}

impl View for SpawnKind {
    type V = KindModel;

    open spec fn view(&self) -> KindModel {
        match *self {
            SpawnKind::Orchestration { name } => KindModel::Orchestration(name@),
            SpawnKind::SingleAgent => KindModel::SingleAgent,
        }
    }
}

/// The outcome of an action.
#[derive(Debug)]
pub enum DispatchEvent {
    /// The worktree was asked for.
    Worktree(Result<WorktreeCreation, String>),
    /// The spawn was tried.
    Spawned(Result<SpawnKind, String>),
    /// The worktree was removed again.
    WorktreeRemoved,
    /// The branch was to be deleted; whether it was.
    BranchDeleted(bool),
}

/// What a [`DispatchEvent`] stands for.
pub enum EventModel {
    Worktree(Result<WorktreeCreation, Seq<char>>),
    Spawned(Result<KindModel, Seq<char>>),
    WorktreeRemoved,
    BranchDeleted(bool),
}

impl View for DispatchEvent {
    type V = EventModel;

    open spec fn view(&self) -> EventModel {
        match *self {
            DispatchEvent::Worktree(Ok(creation)) => EventModel::Worktree(Ok(creation)),
            DispatchEvent::Worktree(Err(e)) => EventModel::Worktree(Err(e@)),
            DispatchEvent::Spawned(Ok(kind)) => EventModel::Spawned(Ok(kind@)),
            DispatchEvent::Spawned(Err(e)) => EventModel::Spawned(Err(e@)),
            DispatchEvent::WorktreeRemoved => EventModel::WorktreeRemoved,
            DispatchEvent::BranchDeleted(ok) => EventModel::BranchDeleted(ok),
        }
    }
}

/// What came of a dispatch.
#[derive(Debug)]
pub struct DispatchResult {
    pub worktree_dir: String,
    pub success: bool,
    pub message: String,
}

/// What a [`DispatchResult`] stands for.
pub struct ResultModel {
    pub worktree_dir: Seq<char>,
    pub success: bool,
    pub message: Seq<char>,
}

impl View for DispatchResult {
    type V = ResultModel;

    open spec fn view(&self) -> ResultModel {
        ResultModel {
            worktree_dir: self.worktree_dir@,
            success: self.success,
            message: self.message@,
        }
    }
}

/// What to do next.
#[derive(Debug)]
pub enum DispatchAction {
    CreateWorktree { clone_dir: String, worktree_dir: String, branch: String },
    Spawn(SpawnRequest),
    RemoveWorktree { worktree_dir: String, clone_dir: String, policy: RemovalPolicy },
    DeleteBranch { clone_dir: String, branch: String },
    Finish(DispatchResult),
}

/// What a [`DispatchAction`] stands for.
pub enum ActionModel {
    CreateWorktree { clone_dir: Seq<char>, worktree_dir: Seq<char>, branch: Seq<char> },
    Spawn(RequestModel),
    RemoveWorktree { worktree_dir: Seq<char>, clone_dir: Seq<char>, policy: RemovalPolicy },
    DeleteBranch { clone_dir: Seq<char>, branch: Seq<char> },
    Finish(ResultModel),
}

impl View for DispatchAction {
    type V = ActionModel;

    open spec fn view(&self) -> ActionModel {
        match *self {
            DispatchAction::CreateWorktree { clone_dir, worktree_dir, branch } => {
                ActionModel::CreateWorktree {
                    clone_dir: clone_dir@,
                    worktree_dir: worktree_dir@,
                    branch: branch@,
                }
            },
            DispatchAction::Spawn(request) => ActionModel::Spawn(request@),
            DispatchAction::RemoveWorktree { worktree_dir, clone_dir, policy } => {
                ActionModel::RemoveWorktree {
                    worktree_dir: worktree_dir@,
                    clone_dir: clone_dir@,
                    policy,
                }
            },
            DispatchAction::DeleteBranch { clone_dir, branch } => {
                ActionModel::DeleteBranch { clone_dir: clone_dir@, branch: branch@ }
            },
            DispatchAction::Finish(result) => ActionModel::Finish(result@),
        }
    }
}

// ---------------------------------------------------------------------------
// The dispatch
// ---------------------------------------------------------------------------

/// What a dispatch is waiting for.
#[derive(Debug)]
pub enum DispatchStage {
    Creating,
    Spawning,
    /// The spawn failed with this error, and the worktree is being removed.
    Removing(String),
    /// The spawn failed with this error, and the branch is being deleted.
    Deleting(String),
    Finished,
}

/// What a [`DispatchStage`] stands for.
pub enum StageModel {
    Creating,
    Spawning,
    Removing(Seq<char>),
    Deleting(Seq<char>),
    Finished,
}

impl View for DispatchStage {
    type V = StageModel;

    open spec fn view(&self) -> StageModel {
        match *self {
            DispatchStage::Creating => StageModel::Creating,
            DispatchStage::Spawning => StageModel::Spawning,
            DispatchStage::Removing(e) => StageModel::Removing(e@),
            DispatchStage::Deleting(e) => StageModel::Deleting(e@),
            DispatchStage::Finished => StageModel::Finished,
        }
    }
}

/// One dispatch under way.
#[derive(Debug)]
pub struct Dispatch {
    working_dir: NativePath,
    name: String,
    task: String,
    shape: Option<SpawnShapeOverride>,
    paths: DispatchPaths,
    stage: DispatchStage,
}

/// What a [`Dispatch`] stands for.
pub struct DispatchModel {
    pub working_dir: PathModel,
    pub name: Seq<char>,
    pub task: Seq<char>,
    pub shape: Option<ShapeModel>,
    pub stage: StageModel,
}

impl View for Dispatch {
    type V = DispatchModel;

    closed spec fn view(&self) -> DispatchModel {
        DispatchModel {
            working_dir: self.working_dir@,
            name: self.name@,
            task: self.task@,
            shape: overridden(self.shape),
            stage: self.stage@,
        }
    }
}

impl DispatchModel {
    /// The directory of the worktree.
    pub open spec fn worktree_dir(self) -> PathModel {
        naming::worktree_dir(self.working_dir, self.name)
    }

    /// The branch.
    pub open spec fn branch(self) -> Seq<char> {
        naming::branch(self.name)
    }

    /// The dispatch as it goes on.
    pub open spec fn at(self, stage: StageModel) -> DispatchModel {
        DispatchModel { stage, ..self }
    }

    /// The end of the dispatch without success.
    pub open spec fn failure(self, message: Seq<char>) -> ActionModel {
        ActionModel::Finish(
            ResultModel { worktree_dir: self.worktree_dir().text, success: false, message },
        )
    }

    /// The end of the dispatch with success.
    pub open spec fn success(self, message: Seq<char>) -> ActionModel {
        ActionModel::Finish(
            ResultModel { worktree_dir: self.worktree_dir().text, success: true, message },
        )
    }

    /// What is asked for once the worktree is there.
    pub open spec fn request(self) -> RequestModel {
        RequestModel {
            task_name: "dispatch-"@ + self.name,
            working_dir: self.worktree_dir().text,
            command: None,
            prompt: self.task,
            shape: self.shape,
        }
    }

    /// Said where the worktree is there already.
    pub open spec fn claimed_message(self) -> Seq<char> {
        "dispatch: worktree "@ + self.worktree_dir().text
            + " is already claimed by another dispatch. Wait for it to finish, or dispatch under a different name."@
    }

    /// Said where the branch of an earlier dispatch is left. The branch may hold that
    /// dispatch's work, so it stays, and both ways on are named.
    pub open spec fn branch_message(self) -> Seq<char> {
        "dispatch: branch "@ + self.branch()
            + " already exists from an earlier dispatch named '"@ + self.name
            + "' (its worktree is already gone). That branch may hold committed work, so it is left alone. Dispatch under a different name, or run `git -C "@
            + self.working_dir.text + " branch -D "@ + self.branch()
            + "` first if you are done with it."@
    }

    /// Said where something was started: what it really was.
    pub open spec fn spawned_message(self, kind: KindModel) -> Seq<char> {
        match kind {
            KindModel::Orchestration(orchestration) => {
                "dispatch: spawned isolated orchestration '"@ + orchestration + "' for '"@
                    + self.name + "' in "@ + self.worktree_dir().text
            },
            KindModel::SingleAgent => {
                "dispatch: spawned isolated agent for '"@ + self.name + "' in "@
                    + self.worktree_dir().text
            },
        }
    }

    /// Said where nothing could be started.
    pub open spec fn spawn_failure_message(self, error: Seq<char>, branch_deleted: bool) -> Seq<
        char,
    > {
        "dispatch: spawn failed: "@ + error + (if branch_deleted {
            ""@
        } else {
            " (cleanup failed: branch may still exist — name may be wedged)"@
        })
    }

    /// Whether this is the outcome that the dispatch is waiting for.
    pub open spec fn awaits(self, event: EventModel) -> bool {
        match self.stage {
            StageModel::Creating => event is Worktree,
            StageModel::Spawning => event is Spawned,
            StageModel::Removing(_) => event is WorktreeRemoved,
            StageModel::Deleting(_) => event is BranchDeleted,
            StageModel::Finished => false,
        }
    }

    /// The dispatch after an outcome, and what to do next.
    pub open spec fn next(self, event: EventModel) -> (DispatchModel, ActionModel) {
        match (self.stage, event) {
            (StageModel::Creating, EventModel::Worktree(Ok(WorktreeCreation::Created))) => {
                (self.at(StageModel::Spawning), ActionModel::Spawn(self.request()))
            },
            (StageModel::Creating, EventModel::Worktree(Ok(WorktreeCreation::AlreadyClaimed))) => {
                (self.at(StageModel::Finished), self.failure(self.claimed_message()))
            },
            (StageModel::Creating, EventModel::Worktree(Ok(WorktreeCreation::BranchExists))) => {
                (self.at(StageModel::Finished), self.failure(self.branch_message()))
            },
            (StageModel::Creating, EventModel::Worktree(Err(e))) => {
                (
                    self.at(StageModel::Finished),
                    self.failure("dispatch: failed to create worktree: "@ + e),
                )
            },
            (StageModel::Spawning, EventModel::Spawned(Ok(kind))) => {
                (self.at(StageModel::Finished), self.success(self.spawned_message(kind)))
            },
            (StageModel::Spawning, EventModel::Spawned(Err(e))) => {
                (
                    self.at(StageModel::Removing(e)),
                    ActionModel::RemoveWorktree {
                        worktree_dir: self.worktree_dir().text,
                        clone_dir: self.working_dir.text,
                        policy: RemovalPolicy::Force,
                    },
                )
            },
            (StageModel::Removing(e), EventModel::WorktreeRemoved) => {
                (
                    self.at(StageModel::Deleting(e)),
                    ActionModel::DeleteBranch {
                        clone_dir: self.working_dir.text,
                        branch: self.branch(),
                    },
                )
            },
            (StageModel::Deleting(e), EventModel::BranchDeleted(ok)) => {
                (
                    self.at(StageModel::Finished),
                    self.failure(self.spawn_failure_message(e, ok)),
                )
            },
            _ => (self, self.failure(Seq::empty())),
        }
    }

    /// The registered worktrees after an outcome. A created one is registered, so that
    /// closing its tab removes it, but not with uncommitted work in it; one whose spawn
    /// failed is struck off.
    pub open spec fn worktrees_after(
        self,
        event: EventModel,
        worktrees: Map<PathKey, EntryModel>,
    ) -> Map<PathKey, EntryModel> {
        match (self.stage, event) {
            (StageModel::Creating, EventModel::Worktree(Ok(WorktreeCreation::Created))) => {
                worktrees.insert(
                    self.worktree_dir().key(),
                    EntryModel {
                        clone_dir: self.working_dir.text,
                        policy: RemovalPolicy::KeepIfDirty,
                    },
                )
            },
            (StageModel::Deleting(_), EventModel::BranchDeleted(_)) => {
                worktrees.remove(self.worktree_dir().key())
            },
            _ => worktrees,
        }
    }
}

/// Whether an action starts what the caller of a dispatch asked for: the task as the prompt, in
/// the worktree of that name, in the shape that was chosen, with the configured command.
pub open spec fn starts_what_was_chosen(
    action: ActionModel,
    working_dir: PathModel,
    name: Seq<char>,
    task: Seq<char>,
    shape: Option<&DispatchShape>,
) -> bool {
    action matches ActionModel::Spawn(request) && {
        &&& request.prompt == task
        &&& request.working_dir == naming::worktree_dir(working_dir, name).text
        &&& request.task_name == "dispatch-"@ + name
        &&& request.command is None
        &&& is_choice(shape, request.shape)
    }
}

/// Begin a dispatch of `task` under `name` out of `working_dir`.
pub fn handle_dispatch(
    working_dir: &NativePath,
    name: &str,
    task: &str,
    shape: Option<&DispatchShape>,
) -> (r: (Dispatch, DispatchAction))
    ensures
        r.0@ == (DispatchModel {
            working_dir: working_dir@,
            name: name@,
            task: task@,
            shape: chosen(shape),
            stage: StageModel::Creating,
        }),
        r.1@ == (ActionModel::CreateWorktree {
            clone_dir: working_dir@.text,
            worktree_dir: naming::worktree_dir(working_dir@, name@).text,
            branch: naming::branch(name@),
        }),
        starts_what_was_chosen(
            r.0@.next(EventModel::Worktree(Ok(WorktreeCreation::Created))).1,
            working_dir@,
            name@,
            task@,
            shape,
        ),
{
    let paths = naming::derive_dispatch_paths(working_dir, name);
    let action = DispatchAction::CreateWorktree {
        clone_dir: working_dir.as_str().to_owned(),
        worktree_dir: paths.worktree_dir.as_str().to_owned(),
        branch: paths.branch.as_str().to_owned(),
    };
    let dispatch = Dispatch {
        working_dir: working_dir.copied(),
        name: name.to_owned(),
        task: task.to_owned(),
        shape: shape_override_of(shape),
        paths,
        stage: DispatchStage::Creating,
    };
    (dispatch, action)
}

impl Dispatch {
    #[verifier::type_invariant]
    spec fn well_formed(self) -> bool {
        &&& self.paths.worktree_dir@ == naming::worktree_dir(self.working_dir@, self.name@)
        &&& self.paths.branch@ == naming::branch(self.name@)
    }

    fn result(&self, success: bool, message: String) -> (r: DispatchAction)
        ensures
            r@ == (ActionModel::Finish(
                ResultModel { worktree_dir: self@.worktree_dir().text, success, message: message@ },
            )),
    {
        proof {
            use_type_invariant(self);
        }
        DispatchAction::Finish(
            DispatchResult {
                worktree_dir: self.paths.worktree_dir.as_str().to_owned(),
                success,
                message,
            },
        )
    }

    fn claimed(&self) -> (r: String)
        ensures
            r@ == self@.claimed_message(),
    {
        proof {
            use_type_invariant(self);
        }
        let mut m = "dispatch: worktree ".to_owned();
        m.append(self.paths.worktree_dir.as_str());
        m.append(
            " is already claimed by another dispatch. Wait for it to finish, or dispatch under a different name.",
        );
        m
    }

    fn branch_left(&self) -> (r: String)
        ensures
            r@ == self@.branch_message(),
    {
        proof {
            use_type_invariant(self);
        }
        let mut m = "dispatch: branch ".to_owned();
        m.append(self.paths.branch.as_str());
        m.append(" already exists from an earlier dispatch named '");
        m.append(self.name.as_str());
        m.append(
            "' (its worktree is already gone). That branch may hold committed work, so it is left alone. Dispatch under a different name, or run `git -C ",
        );
        m.append(self.working_dir.as_str());
        m.append(" branch -D ");
        m.append(self.paths.branch.as_str());
        m.append("` first if you are done with it.");
        m
    }

    fn spawned(&self, kind: &SpawnKind) -> (r: String)
        ensures
            r@ == self@.spawned_message(kind@),
    {
        proof {
            use_type_invariant(self);
        }
        match kind {
            SpawnKind::Orchestration { name } => {
                let mut m = "dispatch: spawned isolated orchestration '".to_owned();
                m.append(name.as_str());
                m.append("' for '");
                m.append(self.name.as_str());
                m.append("' in ");
                m.append(self.paths.worktree_dir.as_str());
                m
            },
            SpawnKind::SingleAgent => {
                let mut m = "dispatch: spawned isolated agent for '".to_owned();
                m.append(self.name.as_str());
                m.append("' in ");
                m.append(self.paths.worktree_dir.as_str());
                m
            },
        }
    }

    fn spawn_failed(&self, error: &str, branch_deleted: bool) -> (r: String)
        ensures
            r@ == self@.spawn_failure_message(error@, branch_deleted),
    {
        let mut m = "dispatch: spawn failed: ".to_owned();
        m.append(error);
        if branch_deleted {
            m.append("");
        } else {
            m.append(" (cleanup failed: branch may still exist — name may be wedged)");
        }
        m
    }

    fn request(&self) -> (r: SpawnRequest)
        ensures
            r@ == self@.request(),
    {
        proof {
            use_type_invariant(self);
        }
        let mut task_name = "dispatch-".to_owned();
        task_name.append(self.name.as_str());
        SpawnRequest {
            task_name,
            working_dir: self.paths.worktree_dir.as_str().to_owned(),
            command: None,
            prompt: self.task.as_str().to_owned(),
            shape_override: copy_override(&self.shape),
        }
    }

    fn at(self, stage: DispatchStage) -> (r: Dispatch)
        ensures
            r@ == self@.at(stage@),
    {
        proof {
            use_type_invariant(&self);
        }
        Dispatch {
            working_dir: self.working_dir,
            name: self.name,
            task: self.task,
            shape: self.shape,
            paths: self.paths,
            stage,
        }
    }

    /// Whether this is the outcome that the dispatch is waiting for.
    pub fn is_awaiting(&self, event: &DispatchEvent) -> (r: bool)
        ensures
            r == self@.awaits(event@),
    {
        match (&self.stage, event) {
            (DispatchStage::Creating, DispatchEvent::Worktree(_)) => true,
            (DispatchStage::Spawning, DispatchEvent::Spawned(_)) => true,
            (DispatchStage::Removing(_), DispatchEvent::WorktreeRemoved) => true,
            (DispatchStage::Deleting(_), DispatchEvent::BranchDeleted(_)) => true,
            _ => false,
        }
    }

    /// Take the outcome of the last action, and give the next one. A refused or failed
    /// dispatch leaves no worktree registered, and one whose spawn failed is rolled back
    /// first: nobody has worked in it yet, and what is left of it would block its name.
    pub fn advance(self, event: DispatchEvent, worktrees: &mut WorktreeRegistry) -> (r: (
        Dispatch,
        DispatchAction,
    ))
        requires
            self@.awaits(event@),
        ensures
            (r.0@, r.1@) == self@.next(event@),
            event@ == EventModel::Worktree(Ok(WorktreeCreation::Created)) ==> (r.1 matches
                DispatchAction::Spawn(request) && {
                &&& request.prompt@ == self@.task
                &&& request.working_dir@ == self@.worktree_dir().text
                &&& request.command is None
                &&& overridden(request.shape_override) == self@.shape
            }),
            final(worktrees)@ == self@.worktrees_after(event@, old(worktrees)@),
    {
        proof {
            use_type_invariant(&self);
        }
        match event {
            DispatchEvent::Worktree(Ok(WorktreeCreation::Created)) => {
                worktrees::record_worktree(
                    worktrees,
                    &self.paths.worktree_dir,
                    self.working_dir.as_str(),
                    RemovalPolicy::KeepIfDirty,
                );
                let action = DispatchAction::Spawn(self.request());
                (self.at(DispatchStage::Spawning), action)
            },
            DispatchEvent::Worktree(Ok(WorktreeCreation::AlreadyClaimed)) => {
                let action = self.result(false, self.claimed());
                (self.at(DispatchStage::Finished), action)
            },
            DispatchEvent::Worktree(Ok(WorktreeCreation::BranchExists)) => {
                let action = self.result(false, self.branch_left());
                (self.at(DispatchStage::Finished), action)
            },
            DispatchEvent::Worktree(Err(e)) => {
                let mut m = "dispatch: failed to create worktree: ".to_owned();
                m.append(e.as_str());
                let action = self.result(false, m);
                (self.at(DispatchStage::Finished), action)
            },
            DispatchEvent::Spawned(Ok(kind)) => {
                let action = self.result(true, self.spawned(&kind));
                (self.at(DispatchStage::Finished), action)
            },
            DispatchEvent::Spawned(Err(e)) => {
                let action = DispatchAction::RemoveWorktree {
                    worktree_dir: self.paths.worktree_dir.as_str().to_owned(),
                    clone_dir: self.working_dir.as_str().to_owned(),
                    policy: RemovalPolicy::Force,
                };
                (self.at(DispatchStage::Removing(e)), action)
            },
            DispatchEvent::WorktreeRemoved => {
                let action = DispatchAction::DeleteBranch {
                    clone_dir: self.working_dir.as_str().to_owned(),
                    branch: self.paths.branch.as_str().to_owned(),
                };
                let error: String = match &self.stage {
                    DispatchStage::Removing(e) => e.as_str().to_owned(),
                    _ => String::new(),
                };
                (self.at(DispatchStage::Deleting(error)), action)
            },
            DispatchEvent::BranchDeleted(ok) => {
                let _ = worktrees::take_worktree(worktrees, &self.paths.worktree_dir);
                let m = match &self.stage {
                    DispatchStage::Deleting(e) => self.spawn_failed(e.as_str(), ok),
                    _ => String::new(),
                };
                let action = self.result(false, m);
                (self.at(DispatchStage::Finished), action)
            },
        }
    }
}

// ---------------------------------------------------------------------------
// Laws
// ---------------------------------------------------------------------------

/// A dispatch whose worktree could not be created ends there: nothing is started, and the
/// registered worktrees stay as they are.
pub proof fn a_refused_dispatch_changes_nothing(
    d: DispatchModel,
    creation: Result<WorktreeCreation, Seq<char>>,
    worktrees: Map<PathKey, EntryModel>,
)
    requires
        d.stage is Creating,
        creation != Ok::<WorktreeCreation, Seq<char>>(WorktreeCreation::Created),
    ensures
        d.next(EventModel::Worktree(creation)).0.stage is Finished,
        d.next(EventModel::Worktree(creation)).1 matches ActionModel::Finish(result)
            && !result.success,
        d.worktrees_after(EventModel::Worktree(creation), worktrees) == worktrees,
{
}

/// A dispatch whose spawn succeeds ends with success, and leaves its worktree registered
/// under the policy that spares uncommitted work.
pub proof fn a_spawned_dispatch_is_registered(
    d: DispatchModel,
    kind: KindModel,
    worktrees: Map<PathKey, EntryModel>,
)
    requires
        d.stage is Creating,
    ensures
        ({
            let created = EventModel::Worktree(Ok(WorktreeCreation::Created));
            let spawned = EventModel::Spawned(Ok(kind));
            let (d1, a1) = d.next(created);
            let (d2, a2) = d1.next(spawned);
            let after = d1.worktrees_after(spawned, d.worktrees_after(created, worktrees));
            &&& a1 == ActionModel::Spawn(d.request())
            &&& d1.awaits(spawned)
            &&& d2.stage is Finished
            &&& a2 == d.success(d.spawned_message(kind))
            &&& after == worktrees.insert(
                d.worktree_dir().key(),
                EntryModel { clone_dir: d.working_dir.text, policy: RemovalPolicy::KeepIfDirty },
            )
        }),
{
}

/// A dispatch whose spawn fails is rolled back: its worktree is removed by force, its branch
/// is deleted, and no worktree of its name stays registered. Every other one does.
pub proof fn a_failed_spawn_is_rolled_back(
    d: DispatchModel,
    error: Seq<char>,
    branch_deleted: bool,
    worktrees: Map<PathKey, EntryModel>,
)
    requires
        d.stage is Creating,
    ensures
        ({
            let created = EventModel::Worktree(Ok(WorktreeCreation::Created));
            let failed = EventModel::Spawned(Err(error));
            let removed = EventModel::WorktreeRemoved;
            let deleted = EventModel::BranchDeleted(branch_deleted);
            let (d1, a1) = d.next(created);
            let (d2, a2) = d1.next(failed);
            let (d3, a3) = d2.next(removed);
            let (d4, a4) = d3.next(deleted);
            let w1 = d.worktrees_after(created, worktrees);
            let w2 = d1.worktrees_after(failed, w1);
            let w3 = d2.worktrees_after(removed, w2);
            let w4 = d3.worktrees_after(deleted, w3);
            &&& d1.awaits(failed) && d2.awaits(removed) && d3.awaits(deleted)
            &&& a2 == ActionModel::RemoveWorktree {
                worktree_dir: d.worktree_dir().text,
                clone_dir: d.working_dir.text,
                policy: RemovalPolicy::Force,
            }
            &&& a3 == ActionModel::DeleteBranch { clone_dir: d.working_dir.text, branch: d.branch() }
            &&& d4.stage is Finished
            &&& a4 == d.failure(d.spawn_failure_message(error, branch_deleted))
            &&& w4 == worktrees.remove(d.worktree_dir().key())
        }),
{
    let dir = d.worktree_dir().key();
    let entry = EntryModel { clone_dir: d.working_dir.text, policy: RemovalPolicy::KeepIfDirty };
    assert(worktrees.insert(dir, entry).remove(dir) =~= worktrees.remove(dir));
}

/// How far a dispatch has come.
pub open spec fn progress(stage: StageModel) -> nat {
    match stage {
        StageModel::Creating => 0,
        StageModel::Spawning => 1,
        StageModel::Removing(_) => 2,
        StageModel::Deleting(_) => 3,
        StageModel::Finished => 4,
    }
}

/// Every outcome brings a dispatch nearer to its end, and it is finished exactly when it says
/// so. It succeeds only where a spawn did, and removes a worktree only where one failed.
pub proof fn every_dispatch_comes_to_an_end(d: DispatchModel, event: EventModel)
    requires
        d.awaits(event),
    ensures
        progress(d.next(event).0.stage) > progress(d.stage),
        d.next(event).0.stage is Finished <==> d.next(event).1 is Finish,
        d.next(event).1 matches ActionModel::Finish(result) ==> (result.success <==> (event matches
            EventModel::Spawned(Ok(_)))),
        d.next(event).1 is RemoveWorktree ==> (event matches EventModel::Spawned(Err(_))),
        d.next(event).1 is Spawn ==> event == EventModel::Worktree(Ok(WorktreeCreation::Created)),
{
}

/// What is started once the worktree is there is what the caller chose, for every choice,
/// working directory, name and task.
pub proof fn what_was_chosen_is_started(
    working_dir: PathModel,
    name: Seq<char>,
    task: Seq<char>,
    shape: Option<&DispatchShape>,
    d: DispatchModel,
)
    requires
        d.working_dir == working_dir,
        d.name == name,
        d.task == task,
        is_choice(shape, d.shape),
        d.stage is Creating,
    ensures
        starts_what_was_chosen(
            d.next(EventModel::Worktree(Ok(WorktreeCreation::Created))).1,
            working_dir,
            name,
            task,
            shape,
        ),
{
}

/// Whether an action ends a dispatch with this result.
pub open spec fn ends_with(
    action: ActionModel,
    worktree_dir: Seq<char>,
    success: bool,
    message: Seq<char>,
) -> bool {
    action matches ActionModel::Finish(result) && result.worktree_dir == worktree_dir
        && result.success == success && result.message == message
}

/// A dispatch that ends before anything is started says why, and names what is in its way: the
/// directory that is claimed, the branch that is left over and how to delete it, or the error.
pub proof fn a_refusal_names_what_is_in_the_way(d: DispatchModel, error: Seq<char>)
    requires
        d.stage is Creating,
    ensures
        ({
            let dir = naming::worktree_dir(d.working_dir, d.name).text;
            let branch = naming::branch(d.name);
            let answer = |creation: Result<WorktreeCreation, Seq<char>>|
                d.next(EventModel::Worktree(creation)).1;
            &&& ends_with(
                answer(Ok(WorktreeCreation::AlreadyClaimed)),
                dir,
                false,
                "dispatch: worktree "@ + dir
                    + " is already claimed by another dispatch. Wait for it to finish, or dispatch under a different name."@,
            )
            &&& ends_with(
                answer(Ok(WorktreeCreation::BranchExists)),
                dir,
                false,
                "dispatch: branch "@ + branch + " already exists from an earlier dispatch named '"@
                    + d.name
                    + "' (its worktree is already gone). That branch may hold committed work, so it is left alone. Dispatch under a different name, or run `git -C "@
                    + d.working_dir.text + " branch -D "@ + branch
                    + "` first if you are done with it."@,
            )
            &&& ends_with(
                answer(Err(error)),
                dir,
                false,
                "dispatch: failed to create worktree: "@ + error,
            )
        }),
{
}

/// A dispatch that started something says what it really was, under which name and where.
pub proof fn a_success_says_what_was_started(d: DispatchModel, orchestration: Seq<char>)
    requires
        d.stage is Spawning,
    ensures
        ({
            let dir = naming::worktree_dir(d.working_dir, d.name).text;
            &&& ends_with(
                d.next(EventModel::Spawned(Ok(KindModel::SingleAgent))).1,
                dir,
                true,
                "dispatch: spawned isolated agent for '"@ + d.name + "' in "@ + dir,
            )
            &&& ends_with(
                d.next(EventModel::Spawned(Ok(KindModel::Orchestration(orchestration)))).1,
                dir,
                true,
                "dispatch: spawned isolated orchestration '"@ + orchestration + "' for '"@ + d.name
                    + "' in "@ + dir,
            )
        }),
{
}

/// A spawn that fails is undone before it is reported, in this order: the worktree is removed by
/// force, then its branch is deleted; and the report gives the error of the spawn, and says so
/// where the branch could not be deleted.
pub proof fn a_failure_is_undone_before_it_is_reported(
    d: DispatchModel,
    error: Seq<char>,
    branch_deleted: bool,
)
    requires
        d.stage is Spawning,
    ensures
        ({
            let dir = naming::worktree_dir(d.working_dir, d.name).text;
            let (d1, first) = d.next(EventModel::Spawned(Err(error)));
            let (d2, second) = d1.next(EventModel::WorktreeRemoved);
            let (d3, third) = d2.next(EventModel::BranchDeleted(branch_deleted));
            &&& first matches ActionModel::RemoveWorktree { worktree_dir, clone_dir, policy }
                && worktree_dir == dir && clone_dir == d.working_dir.text && policy
                == RemovalPolicy::Force
            &&& second matches ActionModel::DeleteBranch { clone_dir, branch } && clone_dir
                == d.working_dir.text && branch == naming::branch(d.name)
            &&& branch_deleted ==> ends_with(
                third,
                dir,
                false,
                "dispatch: spawn failed: "@ + error,
            )
            &&& !branch_deleted ==> ends_with(
                third,
                dir,
                false,
                "dispatch: spawn failed: "@ + error
                    + " (cleanup failed: branch may still exist — name may be wedged)"@,
            )
        }),
{
    reveal_strlit("");
    assert("dispatch: spawn failed: "@ + error + ""@ =~= "dispatch: spawn failed: "@ + error);
}

/// The registered worktrees change in two places only: a worktree that was created is put in,
/// so that its uncommitted work is spared when its tab is closed, and one whose branch was
/// deleted after a failed spawn is taken out. No other worktree is touched.
pub proof fn only_created_and_undone_worktrees_change_the_registry(
    d: DispatchModel,
    event: EventModel,
    worktrees: Map<PathKey, EntryModel>,
    other: PathKey,
)
    requires
        d.awaits(event),
    ensures
        ({
            let key = naming::worktree_dir(d.working_dir, d.name).key();
            let after = d.worktrees_after(event, worktrees);
            &&& event == EventModel::Worktree(Ok(WorktreeCreation::Created)) ==> {
                &&& after.contains_key(key)
                &&& after[key].clone_dir == d.working_dir.text
                &&& after[key].policy == RemovalPolicy::KeepIfDirty
            }
            &&& event is BranchDeleted ==> !after.contains_key(key)
            &&& event != EventModel::Worktree(Ok(WorktreeCreation::Created))
                && !(event is BranchDeleted) ==> after == worktrees
            &&& other != key ==> after.contains_key(other) == worktrees.contains_key(other)
                && after[other] == worktrees[other]
        }),
{
}

} // verus!
