//! The repository plan of a fixture with explicit commits: every file written,
//! commit made, tag placed and branch created, in order. A repository writer
//! carries the plan out action by action.
use vstd::prelude::*;

use crate::text::{decimal, i64_to_decimal, push_deep, same_text, signed_decimal, u64_to_decimal};
use crate::types::{
    config_filename, resolve_config_filename, BranchModel, CommitDef, CommitModel, FixtureDef,
    FixtureModel, HookFileModel, PackageModel, TagModel,
};
use crate::validate::{branch_error, commit_count, default_branch_name, definition_errors};

verus! {

/// The author and committer name of generated commits.
pub const AUTHOR_NAME: &'static str = "Test";

/// The author and committer email of generated commits.
pub const AUTHOR_EMAIL: &'static str = "test@test.com";

/// Which list, if any, a commit's id is kept in for later tags and branches.
#[derive(Debug, Clone, Copy, PartialEq, Eq)]
pub enum Record {
    /// The setup commit, which `-1` refers to.
    Setup,
    /// The next of the listed commits, which `0..` refer to.
    Listed,
    /// A commit on a branch, which nothing refers to.
    Unlisted,
}

/// A commit that an earlier action made.
#[derive(Debug, Clone, Copy, PartialEq, Eq)]
pub enum CommitRef {
    /// The setup commit.
    Setup,
    /// The listed commit at this index.
    Listed(usize),
}

/// Where a branch starts.
#[derive(Debug)]
pub enum ForkPoint {
    /// At a commit made earlier.
    At(CommitRef),
    /// At the tip of a local branch; `missing` is the error when there is none.
    TipOf { branch: String, missing: String },
}

/// One step of building a fixture repository. Paths are lists of components
/// below the repository directory, joined in order.
#[derive(Debug)]
pub enum Action {
    /// Create the repository, with the given initial branch if any.
    InitRepo { initial_branch: Option<String> },
    /// Set the committer name and email in the repository configuration.
    SetIdentity { name: String, email: String },
    /// Create a directory and its missing parents.
    CreateDir { path: Vec<String> },
    /// Write a file, first creating its directory when `create_parents` is set.
    WriteFile { path: Vec<String>, content: String, create_parents: bool },
    /// Make a file executable by everyone.
    MakeExecutable { path: Vec<String> },
    /// Stage every file and commit on HEAD, keeping the id as `record` says.
    Commit { message: String, record: Record },
    /// Stage every file, commit it as a side commit on top of HEAD, then make
    /// a merge commit of HEAD and the side commit on HEAD.
    MergeCommit { side_message: String, merge_message: String, record: Record },
    /// Put a lightweight tag on a commit.
    Tag { name: String, target: CommitRef },
    /// Create a local branch at a fork point.
    CreateBranch { name: String, fork: ForkPoint },
    /// Point HEAD at a reference and force-check it out.
    Checkout { reference: String },
    /// Check out `reference` and commit the working tree on it with two
    /// parents: its former tip and the commit HEAD pointed at before.
    MergeInto { reference: String, message: String },
    /// Write the `.expect.toml` record of the fixture.
    WriteExpect,
}

/// The actions of a fixture with explicit commits; a `failure` means the
/// actions end early and generation fails with that message.
#[derive(Debug)]
pub struct ExplicitPlan {
    pub actions: Vec<Action>,
    pub failure: Option<String>,
}

/// Model of a `ForkPoint`.
pub enum ForkModel {
    At(CommitRef),
    TipOf { branch: Seq<char>, missing: Seq<char> },
}

/// Model of an `Action`.
pub enum ActionModel {
    InitRepo { initial_branch: Option<Seq<char>> },
    SetIdentity { name: Seq<char>, email: Seq<char> },
    CreateDir { path: Seq<Seq<char>> },
    WriteFile { path: Seq<Seq<char>>, content: Seq<char>, create_parents: bool },
    MakeExecutable { path: Seq<Seq<char>> },
    Commit { message: Seq<char>, record: Record },
    MergeCommit { side_message: Seq<char>, merge_message: Seq<char>, record: Record },
    Tag { name: Seq<char>, target: CommitRef },
    CreateBranch { name: Seq<char>, fork: ForkModel },
    Checkout { reference: Seq<char> },
    MergeInto { reference: Seq<char>, message: Seq<char> },
    WriteExpect,
}

/// Model of an `ExplicitPlan`.
pub struct PlanModel {
    pub actions: Seq<ActionModel>,
    pub failure: Option<Seq<char>>,
}

impl DeepView for ForkPoint {
    type V = ForkModel;

    open spec fn deep_view(&self) -> ForkModel {
        match self {
            ForkPoint::At(c) => ForkModel::At(*c),
            ForkPoint::TipOf { branch, missing } => ForkModel::TipOf {
                branch: branch@,
                missing: missing@,
            },
        }
    }
}

impl DeepView for Action {
    type V = ActionModel;

    open spec fn deep_view(&self) -> ActionModel {
        match self {
            Action::InitRepo { initial_branch } => ActionModel::InitRepo {
                initial_branch: initial_branch.deep_view(),
            },
            Action::SetIdentity { name, email } => ActionModel::SetIdentity {
                name: name@,
                email: email@,
            },
            Action::CreateDir { path } => ActionModel::CreateDir { path: path.deep_view() },
            Action::WriteFile { path, content, create_parents } => ActionModel::WriteFile {
                path: path.deep_view(),
                content: content@,
                create_parents: *create_parents,
            },
            Action::MakeExecutable { path } => ActionModel::MakeExecutable {
                path: path.deep_view(),
            },
            Action::Commit { message, record } => ActionModel::Commit {
                message: message@,
                record: *record,
            },
            Action::MergeCommit { side_message, merge_message, record } =>
                ActionModel::MergeCommit {
                side_message: side_message@,
                merge_message: merge_message@,
                record: *record,
            },
            Action::Tag { name, target } => ActionModel::Tag { name: name@, target: *target },
            Action::CreateBranch { name, fork } => ActionModel::CreateBranch {
                name: name@,
                fork: fork.deep_view(),
            },
            Action::Checkout { reference } => ActionModel::Checkout { reference: reference@ },
            Action::MergeInto { reference, message } => ActionModel::MergeInto {
                reference: reference@,
                message: message@,
            },
            Action::WriteExpect => ActionModel::WriteExpect,
        }
    }
}

impl DeepView for ExplicitPlan {
    type V = PlanModel;

    open spec fn deep_view(&self) -> PlanModel {
        PlanModel { actions: self.actions.deep_view(), failure: self.failure.deep_view() }
    }
}

/// The content written to a file that a listed commit touches.
pub open spec fn generated_content(file: Seq<char>) -> Seq<char> {
    "// generated content for "@ + file + "\n"@
}

/// Writing each touched file, creating its directory first.
pub open spec fn file_actions(files: Seq<Seq<char>>) -> Seq<ActionModel> {
    files.map_values(
        |f: Seq<char>|
            ActionModel::WriteFile {
                path: seq![f],
                content: generated_content(f),
                create_parents: true,
            },
    )
}

/// The commit of a commit definition: plain, or through a merge commit.
pub open spec fn commit_action(message: Seq<char>, merge: bool, record: Record) -> ActionModel {
    if merge {
        ActionModel::MergeCommit {
            side_message: message + " (branch)"@,
            merge_message: "Merge branch: "@ + message,
            record,
        }
    } else {
        ActionModel::Commit { message, record }
    }
}

/// Writing the files of a commit definition, then committing them.
pub open spec fn commit_def_actions(record: Record) -> spec_fn(CommitModel) -> Seq<ActionModel> {
    |c: CommitModel| file_actions(c.files) + seq![commit_action(c.message, c.merge, record)]
}

/// The version file of a package: at the root for path `.`, else in its directory.
pub open spec fn version_path(p: PackageModel) -> Seq<Seq<char>> {
    if p.path == "."@ {
        seq!["version.toml"@]
    } else {
        seq![p.path, "version.toml"@]
    }
}

/// The version file content of a package.
pub open spec fn version_text(p: PackageModel) -> Seq<char> {
    "[package]\nname = \""@ + p.name + "\"\nversion = \""@ + p.initial_version + "\"\n"@
}

/// Creating a package's `src` directory, then writing its version file.
pub open spec fn package_actions() -> spec_fn(PackageModel) -> Seq<ActionModel> {
    |p: PackageModel|
        seq![
            ActionModel::CreateDir { path: seq![p.path, "src"@] },
            ActionModel::WriteFile {
                path: version_path(p),
                content: version_text(p),
                create_parents: false,
            },
        ]
}

/// Writing a hook script, then making it executable.
pub open spec fn hook_actions() -> spec_fn(HookFileModel) -> Seq<ActionModel> {
    |h: HookFileModel|
        seq![
            ActionModel::WriteFile { path: seq![h.path], content: h.content, create_parents: true },
            ActionModel::MakeExecutable { path: seq![h.path] },
        ]
}

/// Writing the config file, if the fixture has one.
pub open spec fn config_actions(d: FixtureModel) -> Seq<ActionModel> {
    match d.config {
        Some(c) => seq![
            ActionModel::WriteFile {
                path: seq![config_filename(c)],
                content: c.content,
                create_parents: false,
            },
        ],
        None => Seq::empty(),
    }
}

/// Everything up to and including the setup commit.
pub open spec fn setup_actions(d: FixtureModel) -> Seq<ActionModel> {
    seq![
        ActionModel::InitRepo { initial_branch: d.meta.default_branch },
        ActionModel::SetIdentity { name: AUTHOR_NAME@, email: AUTHOR_EMAIL@ },
    ] + config_actions(d) + d.packages.flat_map(package_actions()) + d.hooks.flat_map(
        hook_actions(),
    ) + seq![ActionModel::Commit { message: "chore: initial setup"@, record: Record::Setup }]
}

/// The tag a package puts on the setup commit, if any.
pub open spec fn package_tag_actions() -> spec_fn(PackageModel) -> Seq<ActionModel> {
    |p: PackageModel|
        match p.tag {
            Some(t) => seq![ActionModel::Tag { name: t, target: CommitRef::Setup }],
            None => Seq::empty(),
        }
}

/// The tag of a listed tag if it is at commit `-1`.
pub open spec fn setup_tag_actions() -> spec_fn(TagModel) -> Seq<ActionModel> {
    |t: TagModel|
        if t.at_commit == -1 {
            seq![ActionModel::Tag { name: t.name, target: CommitRef::Setup }]
        } else {
            Seq::empty()
        }
}

/// The tag of a listed tag if it is at listed commit `i` (compared as `i32`).
pub open spec fn listed_tag_actions(i: int) -> spec_fn(TagModel) -> Seq<ActionModel> {
    |t: TagModel|
        if t.at_commit == i as i32 {
            seq![ActionModel::Tag { name: t.name, target: CommitRef::Listed(i as usize) }]
        } else {
            Seq::empty()
        }
}

/// The actions of the first `n` listed commits, each followed by its tags.
pub open spec fn listed_actions(d: FixtureModel, n: nat) -> Seq<ActionModel>
    decreases n,
{
    if n == 0 {
        Seq::empty()
    } else {
        listed_actions(d, (n - 1) as nat) + commit_def_actions(Record::Listed)(d.commits[n - 1])
            + d.tags.flat_map(listed_tag_actions(n - 1))
    }
}

/// `refs/heads/<name>`.
pub open spec fn branch_ref(name: Seq<char>) -> Seq<char> {
    "refs/heads/"@ + name
}

/// Where a branch starts, or the error when its commit index is past the
/// listed commits. Index `-1` is the setup commit; a missing or other negative
/// index means the tip of the source branch.
pub open spec fn fork_point(d: FixtureModel, b: BranchModel) -> Result<ForkModel, Seq<char>> {
    let from = match b.from {
        Some(f) => f,
        None => default_branch_name(d),
    };
    let tip = ForkModel::TipOf {
        branch: from,
        missing: "branch '"@ + b.name + "': source branch '"@ + from + "' not found"@,
    };
    match b.at_commit {
        Some(at) => if at == -1 {
            Ok(ForkModel::At(CommitRef::Setup))
        } else if at >= 0 {
            if (at as int) < d.commits.len() {
                Ok(ForkModel::At(CommitRef::Listed(at as usize)))
            } else {
                Err(
                    "branch '"@ + b.name + "': at_commit "@ + signed_decimal(at as int)
                        + " out of range (only "@ + decimal(d.commits.len()) + " commits)"@,
                )
            }
        } else {
            Ok(tip)
        },
        None => Ok(tip),
    }
}

/// The actions of one branch, or the error that stops generation there.
pub open spec fn branch_outcome(d: FixtureModel, b: BranchModel) -> Result<Seq<ActionModel>, Seq<char>> {
    match fork_point(d, b) {
        Err(m) => Err(m),
        Ok(f) => Ok(
            seq![
                ActionModel::CreateBranch { name: b.name, fork: f },
                ActionModel::Checkout { reference: branch_ref(b.name) },
            ] + b.commits.flat_map(commit_def_actions(Record::Unlisted)) + match b.merge {
                Some(m) => seq![
                    ActionModel::MergeInto {
                        reference: branch_ref(m),
                        message: "Merge branch '"@ + b.name + "'"@,
                    },
                ],
                None => Seq::empty(),
            },
        ),
    }
}

/// The actions of the first `k` branches, up to the first one that fails.
pub open spec fn branch_actions(d: FixtureModel, k: nat) -> (Seq<ActionModel>, Option<Seq<char>>)
    decreases k,
{
    if k == 0 {
        (Seq::empty(), None)
    } else {
        let (a, f) = branch_actions(d, (k - 1) as nat);
        if f is Some {
            (a, f)
        } else {
            match branch_outcome(d, d.branches[k - 1]) {
                Ok(x) => (a + x, None),
                Err(m) => (a, Some(m)),
            }
        }
    }
}

/// The plan of a fixture with explicit commits: setup and its commit, the
/// setup tags, the listed commits with their tags, the branches, then (when
/// there are branches) a checkout of the default branch, and the expectation
/// record. A branch whose commit index is past the listed commits ends the
/// plan there with an error.
pub open spec fn spec_explicit_plan(d: FixtureModel) -> PlanModel {
    let head = setup_actions(d) + d.packages.flat_map(package_tag_actions()) + d.tags.flat_map(
        setup_tag_actions(),
    ) + listed_actions(d, d.commits.len());
    let (b, f) = branch_actions(d, d.branches.len());
    if f is Some {
        PlanModel { actions: head + b, failure: f }
    } else {
        PlanModel {
            actions: head + b + (if d.branches.len() > 0 {
                seq![ActionModel::Checkout { reference: branch_ref(default_branch_name(d)) }]
            } else {
                Seq::empty()
            }) + seq![ActionModel::WriteExpect],
            failure: None,
        }
    }
}

/// A path of one component.
fn path1(a: String) -> (p: Vec<String>)
    ensures
        p.deep_view() == seq![a@],
{
    let mut p: Vec<String> = Vec::new();
    push_deep(&mut p, a);
    assert(p.deep_view() =~= seq![a@]);
    p
}

/// A path of two components.
fn path2(a: String, b: String) -> (p: Vec<String>)
    ensures
        p.deep_view() == seq![a@, b@],
{
    let mut p: Vec<String> = Vec::new();
    push_deep(&mut p, a);
    push_deep(&mut p, b);
    assert(p.deep_view() =~= seq![a@, b@]);
    p
}

/// Appends the actions of a commit definition: its file writes, then its commit.
fn push_commit_def_actions(actions: &mut Vec<Action>, c: &CommitDef, record: Record)
    ensures
        final(actions).deep_view() == old(actions).deep_view() + commit_def_actions(record)(
            c.deep_view(),
        ),
{
    let ghost start = actions.deep_view();
    let ghost files = c.files.deep_view();
    let mut i: usize = 0;
    while i < c.files.len()
        invariant
            i <= c.files@.len(),
            files == c.files.deep_view(),
            actions.deep_view() == start + file_actions(files.take(i as int)),
        decreases c.files.len() - i,
    {
        let f = c.files[i].as_str();
        let mut content = String::from_str("// generated content for ");
        content.append(f);
        content.append("\n");
        push_deep(
            actions,
            Action::WriteFile {
                path: path1(String::from_str(f)),
                content,
                create_parents: true,
            },
        );
        assert(files.take(i + 1) =~= files.take(i as int).push(files[i as int]));
        assert(file_actions(files.take(i + 1)) =~= file_actions(files.take(i as int)).push(
            ActionModel::WriteFile {
                path: seq![files[i as int]],
                content: generated_content(files[i as int]),
                create_parents: true,
            },
        ));
        i = i + 1;
    }
    assert(files.take(files.len() as int) =~= files);
    let message = c.message.clone();
    if c.merge {
        let mut side = c.message.clone();
        side.append(" (branch)");
        let merge_message = String::from_str("Merge branch: ").concat(message.as_str());
        push_deep(actions, Action::MergeCommit { side_message: side, merge_message, record });
    } else {
        push_deep(actions, Action::Commit { message, record });
    }
    assert(actions.deep_view() =~= start + commit_def_actions(record)(c.deep_view()));
}

/// Appends the tags placed on listed commit `i`.
fn push_listed_tags(actions: &mut Vec<Action>, def: &FixtureDef, i: usize)
    ensures
        final(actions).deep_view() == old(actions).deep_view() + def.deep_view().tags.flat_map(
            listed_tag_actions(i as int),
        ),
{
    let ghost start = actions.deep_view();
    let ghost tags = def.deep_view().tags;
    let at: i32 = i as i32;
    assert(tags.take(0).flat_map(listed_tag_actions(i as int)) =~= Seq::<ActionModel>::empty());
    let mut k: usize = 0;
    while k < def.tags.len()
        invariant
            k <= def.tags@.len(),
            tags == def.deep_view().tags,
            at == i as i32,
            actions.deep_view() == start + tags.take(k as int).flat_map(
                listed_tag_actions(i as int),
            ),
        decreases def.tags.len() - k,
    {
        proof {
            tags.lemma_flat_map_take_append(listed_tag_actions(i as int), k as int);
        }
        if def.tags[k].at_commit == at {
            push_deep(
                actions,
                Action::Tag { name: def.tags[k].name.clone(), target: CommitRef::Listed(i) },
            );
        }
        assert(actions.deep_view() =~= start + tags.take(k + 1).flat_map(
            listed_tag_actions(i as int),
        ));
        k = k + 1;
    }
    assert(tags.take(tags.len() as int) =~= tags);
}

/// Appends everything up to and including the setup commit.
fn push_setup_actions(actions: &mut Vec<Action>, def: &FixtureDef)
    ensures
        final(actions).deep_view() == old(actions).deep_view() + setup_actions(def.deep_view()),
{
    let ghost d = def.deep_view();
    let ghost start = actions.deep_view();
    let initial_branch = match &def.meta.default_branch {
        Some(b) => Some(b.clone()),
        None => None,
    };
    push_deep(actions, Action::InitRepo { initial_branch });
    push_deep(
        actions,
        Action::SetIdentity {
            name: String::from_str(AUTHOR_NAME),
            email: String::from_str(AUTHOR_EMAIL),
        },
    );
    match &def.config {
        Some(c) => {
            push_deep(
                actions,
                Action::WriteFile {
                    path: path1(resolve_config_filename(c)),
                    content: c.content.clone(),
                    create_parents: false,
                },
            );
        },
        None => {},
    }
    let ghost mid = actions.deep_view();
    assert(mid =~= start + seq![
        ActionModel::InitRepo { initial_branch: d.meta.default_branch },
        ActionModel::SetIdentity { name: AUTHOR_NAME@, email: AUTHOR_EMAIL@ },
    ] + config_actions(d));
    assert(d.packages.take(0).flat_map(package_actions()) =~= Seq::<ActionModel>::empty());
    let mut i: usize = 0;
    while i < def.packages.len()
        invariant
            i <= def.packages@.len(),
            d == def.deep_view(),
            actions.deep_view() == mid + d.packages.take(i as int).flat_map(package_actions()),
        decreases def.packages.len() - i,
    {
        proof {
            d.packages.lemma_flat_map_take_append(package_actions(), i as int);
        }
        let p = &def.packages[i];
        push_deep(
            actions,
            Action::CreateDir { path: path2(p.path.clone(), String::from_str("src")) },
        );
        let version_file = if same_text(p.path.as_str(), ".") {
            path1(String::from_str("version.toml"))
        } else {
            path2(p.path.clone(), String::from_str("version.toml"))
        };
        let mut content = String::from_str("[package]\nname = \"");
        content.append(p.name.as_str());
        content.append("\"\nversion = \"");
        content.append(p.initial_version.as_str());
        content.append("\"\n");
        push_deep(
            actions,
            Action::WriteFile { path: version_file, content, create_parents: false },
        );
        assert(actions.deep_view() =~= mid + d.packages.take(i + 1).flat_map(package_actions()));
        i = i + 1;
    }
    assert(d.packages.take(d.packages.len() as int) =~= d.packages);
    let ghost mid = actions.deep_view();
    assert(d.hooks.take(0).flat_map(hook_actions()) =~= Seq::<ActionModel>::empty());
    let mut i: usize = 0;
    while i < def.hooks.len()
        invariant
            i <= def.hooks@.len(),
            d == def.deep_view(),
            actions.deep_view() == mid + d.hooks.take(i as int).flat_map(hook_actions()),
        decreases def.hooks.len() - i,
    {
        proof {
            d.hooks.lemma_flat_map_take_append(hook_actions(), i as int);
        }
        let h = &def.hooks[i];
        push_deep(
            actions,
            Action::WriteFile {
                path: path1(h.path.clone()),
                content: h.content.clone(),
                create_parents: true,
            },
        );
        push_deep(actions, Action::MakeExecutable { path: path1(h.path.clone()) });
        assert(actions.deep_view() =~= mid + d.hooks.take(i + 1).flat_map(hook_actions()));
        i = i + 1;
    }
    assert(d.hooks.take(d.hooks.len() as int) =~= d.hooks);
    push_deep(
        actions,
        Action::Commit { message: String::from_str("chore: initial setup"), record: Record::Setup },
    );
    assert(actions.deep_view() =~= start + setup_actions(d));
}

/// Appends the tags placed on the setup commit: package tags, then listed tags
/// at `-1`.
fn push_setup_tags(actions: &mut Vec<Action>, def: &FixtureDef)
    ensures
        final(actions).deep_view() == old(actions).deep_view() + def.deep_view().packages.flat_map(
            package_tag_actions(),
        ) + def.deep_view().tags.flat_map(setup_tag_actions()),
{
    let ghost d = def.deep_view();
    let ghost start = actions.deep_view();
    assert(d.packages.take(0).flat_map(package_tag_actions()) =~= Seq::<ActionModel>::empty());
    let mut i: usize = 0;
    while i < def.packages.len()
        invariant
            i <= def.packages@.len(),
            d == def.deep_view(),
            actions.deep_view() == start + d.packages.take(i as int).flat_map(
                package_tag_actions(),
            ),
        decreases def.packages.len() - i,
    {
        proof {
            d.packages.lemma_flat_map_take_append(package_tag_actions(), i as int);
        }
        match &def.packages[i].tag {
            Some(t) => push_deep(actions, Action::Tag { name: t.clone(), target: CommitRef::Setup }),
            None => {},
        }
        assert(actions.deep_view() =~= start + d.packages.take(i + 1).flat_map(
            package_tag_actions(),
        ));
        i = i + 1;
    }
    assert(d.packages.take(d.packages.len() as int) =~= d.packages);
    let ghost mid = actions.deep_view();
    assert(d.tags.take(0).flat_map(setup_tag_actions()) =~= Seq::<ActionModel>::empty());
    let mut i: usize = 0;
    while i < def.tags.len()
        invariant
            i <= def.tags@.len(),
            d == def.deep_view(),
            actions.deep_view() == mid + d.tags.take(i as int).flat_map(setup_tag_actions()),
        decreases def.tags.len() - i,
    {
        proof {
            d.tags.lemma_flat_map_take_append(setup_tag_actions(), i as int);
        }
        if def.tags[i].at_commit == -1 {
            push_deep(
                actions,
                Action::Tag { name: def.tags[i].name.clone(), target: CommitRef::Setup },
            );
        }
        assert(actions.deep_view() =~= mid + d.tags.take(i + 1).flat_map(setup_tag_actions()));
        i = i + 1;
    }
    assert(d.tags.take(d.tags.len() as int) =~= d.tags);
}

/// The actions of one branch, or the error that stops generation there.
fn branch_plan(def: &FixtureDef, i: usize) -> (r: Result<Vec<Action>, String>)
    requires
        i < def.branches@.len(),
    ensures
        match r {
            Ok(a) => branch_outcome(def.deep_view(), def.deep_view().branches[i as int]) == Ok::<
                Seq<ActionModel>,
                Seq<char>,
            >(a.deep_view()),
            Err(m) => branch_outcome(def.deep_view(), def.deep_view().branches[i as int]) == Err::<
                Seq<ActionModel>,
                Seq<char>,
            >(m@),
        },
{
    let ghost d = def.deep_view();
    let b = &def.branches[i];
    let ghost bm = d.branches[i as int];
    assert(bm == b.deep_view());
    let from: &str = match &b.from {
        Some(f) => f.as_str(),
        None => match &def.meta.default_branch {
            Some(x) => x.as_str(),
            None => "main",
        },
    };
    let ghost from_model = match bm.from {
        Some(f) => f,
        None => default_branch_name(d),
    };
    assert(from@ == from_model);
    let mut missing = String::from_str("branch '");
    missing.append(b.name.as_str());
    missing.append("': source branch '");
    missing.append(from);
    missing.append("' not found");
    let tip = ForkPoint::TipOf { branch: String::from_str(from), missing };
    let fork = match b.at_commit {
        Some(at) => {
            if at == -1 {
                ForkPoint::At(CommitRef::Setup)
            } else if at >= 0 {
                if (at as usize) < def.commits.len() {
                    ForkPoint::At(CommitRef::Listed(at as usize))
                } else {
                    let mut m = String::from_str("branch '");
                    m.append(b.name.as_str());
                    m.append("': at_commit ");
                    m.append(i64_to_decimal(at as i64).as_str());
                    m.append(" out of range (only ");
                    m.append(u64_to_decimal(def.commits.len() as u64).as_str());
                    m.append(" commits)");
                    return Err(m);
                }
            } else {
                tip
            }
        },
        None => tip,
    };
    assert(fork_point(d, bm) == Ok::<ForkModel, Seq<char>>(fork.deep_view()));
    let mut actions: Vec<Action> = Vec::new();
    push_deep(&mut actions, Action::CreateBranch { name: b.name.clone(), fork });
    let reference = String::from_str("refs/heads/").concat(b.name.as_str());
    push_deep(&mut actions, Action::Checkout { reference });
    let ghost mid = actions.deep_view();
    assert(bm.commits.take(0).flat_map(commit_def_actions(Record::Unlisted)) =~= Seq::<
        ActionModel,
    >::empty());
    let mut k: usize = 0;
    while k < b.commits.len()
        invariant
            k <= b.commits@.len(),
            bm == b.deep_view(),
            actions.deep_view() == mid + bm.commits.take(k as int).flat_map(
                commit_def_actions(Record::Unlisted),
            ),
        decreases b.commits.len() - k,
    {
        proof {
            bm.commits.lemma_flat_map_take_append(commit_def_actions(Record::Unlisted), k as int);
        }
        push_commit_def_actions(&mut actions, &b.commits[k], Record::Unlisted);
        assert(actions.deep_view() =~= mid + bm.commits.take(k + 1).flat_map(
            commit_def_actions(Record::Unlisted),
        ));
        k = k + 1;
    }
    assert(bm.commits.take(bm.commits.len() as int) =~= bm.commits);
    match &b.merge {
        Some(m) => {
            let reference = String::from_str("refs/heads/").concat(m.as_str());
            let mut message = String::from_str("Merge branch '");
            message.append(b.name.as_str());
            message.append("'");
            push_deep(&mut actions, Action::MergeInto { reference, message });
        },
        None => {},
    }
    let ghost expected = branch_outcome(d, bm);
    assert(expected is Ok);
    assert(actions.deep_view() =~= expected->Ok_0);
    Ok(actions)
}

/// The plan of a fixture with explicit commits.
pub fn plan_explicit(def: &FixtureDef) -> (p: ExplicitPlan)
    ensures
        p.deep_view() == spec_explicit_plan(def.deep_view()),
{
    let ghost d = def.deep_view();
    let mut actions: Vec<Action> = Vec::new();
    push_setup_actions(&mut actions, def);
    push_setup_tags(&mut actions, def);
    let ghost mid = actions.deep_view();
    let mut i: usize = 0;
    while i < def.commits.len()
        invariant
            i <= def.commits@.len(),
            d == def.deep_view(),
            actions.deep_view() == mid + listed_actions(d, i as nat),
        decreases def.commits.len() - i,
    {
        push_commit_def_actions(&mut actions, &def.commits[i], Record::Listed);
        push_listed_tags(&mut actions, def, i);
        assert(actions.deep_view() =~= mid + listed_actions(d, (i + 1) as nat));
        i = i + 1;
    }
    let ghost head = actions.deep_view();
    assert(head =~= setup_actions(d) + d.packages.flat_map(package_tag_actions()) + d.tags.flat_map(
        setup_tag_actions(),
    ) + listed_actions(d, d.commits.len()));
    let mut k: usize = 0;
    while k < def.branches.len()
        invariant
            k <= def.branches@.len(),
            d == def.deep_view(),
            branch_actions(d, k as nat).1 is None,
            actions.deep_view() == head + branch_actions(d, k as nat).0,
            head == setup_actions(d) + d.packages.flat_map(package_tag_actions()) + d.tags.flat_map(
                setup_tag_actions(),
            ) + listed_actions(d, d.commits.len()),
        decreases def.branches.len() - k,
    {
        match branch_plan(def, k) {
            Ok(more) => {
                let ghost before = actions.deep_view();
                let mut more = more;
                let ghost added = more.deep_view();
                actions.append(&mut more);
                assert(actions.deep_view() =~= before + added);
            },
            Err(m) => {
                proof {
                    assert(branch_actions(d, (k + 1) as nat) == (
                        branch_actions(d, k as nat).0,
                        Some(m@),
                    ));
                    lemma_branch_failure_persists(d, (k + 1) as nat, d.branches.len());
                }
                let p = ExplicitPlan { actions, failure: Some(m) };
                assert(p.deep_view().actions == spec_explicit_plan(d).actions);
                assert(p.deep_view().failure == spec_explicit_plan(d).failure);
                return p;
            },
        }
        k = k + 1;
    }
    let ghost body = actions.deep_view();
    assert(body == head + branch_actions(d, d.branches.len()).0);
    if def.branches.len() > 0 {
        let reference = match &def.meta.default_branch {
            Some(b) => String::from_str("refs/heads/").concat(b.as_str()),
            None => String::from_str("refs/heads/main"),
        };
        proof {
            reveal_strlit("refs/heads/main");
            reveal_strlit("refs/heads/");
            reveal_strlit("main");
        }
        assert(reference@ == branch_ref(default_branch_name(d)));
        push_deep(&mut actions, Action::Checkout { reference });
    }
    assert(actions.deep_view() =~= body + (if d.branches.len() > 0 {
        seq![ActionModel::Checkout { reference: branch_ref(default_branch_name(d)) }]
    } else {
        Seq::empty()
    }));
    push_deep(&mut actions, Action::WriteExpect);
    let p = ExplicitPlan { actions, failure: None };
    assert(p.deep_view().actions =~= spec_explicit_plan(d).actions);
    p
}

/// Once a branch fails, the later branches add nothing and the failure stays.
proof fn lemma_branch_failure_persists(d: FixtureModel, k: nat, n: nat)
    requires
        k <= n,
        branch_actions(d, k).1 is Some,
    ensures
        branch_actions(d, n) == branch_actions(d, k),
    decreases n - k,
{
    if k < n {
        lemma_branch_failure_persists(d, k, (n - 1) as nat);
    }
}

/// A flat map with no elements has no elements from any item.
proof fn lemma_flat_map_empty<A, B>(s: Seq<A>, f: spec_fn(A) -> Seq<B>)
    requires
        s.flat_map(f).len() == 0,
    ensures
        forall|i: int| 0 <= i < s.len() ==> (#[trigger] f(s[i])).len() == 0,
    decreases s.len(),
{
    if s.len() > 0 {
        let n = s.len() - 1;
        s.lemma_flat_map_take_append(f, n);
        assert(s.take(n + 1) =~= s);
        lemma_flat_map_empty(s.take(n), f);
        assert forall|i: int| 0 <= i < s.len() implies (#[trigger] f(s[i])).len() == 0 by {
            if i < n {
                assert(s.take(n)[i] == s[i]);
            }
        }
    }
}

/// A count truncated to `i32` is, when not negative, at most the count.
proof fn lemma_truncated_count(n: usize)
    ensures
        0 <= (n as i32) ==> (n as i32) <= n,
{
    assert(0 <= (n as i32) ==> ((n as i32) as u64) <= (n as u64)) by (bit_vector);
}

/// With every branch's commit index valid, no branch fails.
proof fn lemma_branches_succeed(d: FixtureModel, k: nat)
    requires
        k <= d.branches.len(),
        d.commits.len() <= usize::MAX,
        forall|i: int| 0 <= i < d.branches.len() ==> (#[trigger] branch_error(d)(d.branches[i])).len() == 0,
    ensures
        branch_actions(d, k).1 is None,
    decreases k,
{
    if k > 0 {
        lemma_branches_succeed(d, (k - 1) as nat);
        let b = d.branches[k - 1];
        assert(branch_error(d)(b).len() == 0);
        match b.at_commit {
            Some(at) => {
                let n = d.commits.len() as usize;
                assert(commit_count(d) == n as i32);
                lemma_truncated_count(n);
                assert(!crate::validate::out_of_range(at, commit_count(d)));
                if at >= 0 && at != -1 {
                    assert((at as int) < d.commits.len());
                }
            },
            None => {},
        }
        assert(fork_point(d, b) is Ok);
    }
}

/// A definition that passes `check_definition` is generated in full: its
/// explicit plan has no failure and ends with the expectation record.
pub proof fn lemma_valid_definition_plan_succeeds(d: FixtureModel)
    requires
        definition_errors(d).len() == 0,
        d.commits.len() <= usize::MAX,
    ensures
        spec_explicit_plan(d).failure is None,
        spec_explicit_plan(d).actions.last() == ActionModel::WriteExpect,
{
    let rest = d.branches.flat_map(branch_error(d));
    assert(rest.len() == 0);
    lemma_flat_map_empty(d.branches, branch_error(d));
    lemma_branches_succeed(d, d.branches.len());
}

/// The action makes a commit kept as `r`.
pub open spec fn records(a: ActionModel, r: Record) -> bool {
    match a {
        ActionModel::Commit { record, .. } => record == r,
        ActionModel::MergeCommit { record, .. } => record == r,
        _ => false,
    }
}

/// How many actions of `s` make a commit kept as `r`.
pub open spec fn count_records(s: Seq<ActionModel>, r: Record) -> nat
    decreases s.len(),
{
    if s.len() == 0 {
        0
    } else {
        count_records(s.drop_last(), r) + if records(s.last(), r) {
            1nat
        } else {
            0nat
        }
    }
}

proof fn lemma_count_add(a: Seq<ActionModel>, b: Seq<ActionModel>, r: Record)
    ensures
        count_records(a + b, r) == count_records(a, r) + count_records(b, r),
    decreases b.len(),
{
    if b.len() == 0 {
        assert(a + b =~= a);
    } else {
        lemma_count_add(a, b.drop_last(), r);
        assert((a + b).drop_last() =~= a + b.drop_last());
    }
}

proof fn lemma_count_none(s: Seq<ActionModel>, r: Record)
    requires
        forall|i: int| 0 <= i < s.len() ==> !records(#[trigger] s[i], r),
    ensures
        count_records(s, r) == 0,
    decreases s.len(),
{
    if s.len() > 0 {
        lemma_count_none(s.drop_last(), r);
    }
}

proof fn lemma_count_flat_map<A>(s: Seq<A>, f: spec_fn(A) -> Seq<ActionModel>, r: Record, k: nat)
    requires
        forall|i: int| 0 <= i < s.len() ==> count_records(#[trigger] f(s[i]), r) == k,
    ensures
        count_records(s.flat_map(f), r) == k * s.len(),
    decreases s.len(),
{
    if s.len() == 0 {
        assert(s.flat_map(f) =~= Seq::<ActionModel>::empty()) by {
            assert(s.map_values(f) =~= Seq::<Seq<ActionModel>>::empty());
        }
    } else {
        let n = s.len() - 1;
        s.lemma_flat_map_take_append(f, n);
        assert(s.take(n + 1) =~= s);
        assert forall|i: int| 0 <= i < s.take(n).len() implies count_records(
            #[trigger] f(s.take(n)[i]),
            r,
        ) == k by {
            assert(s.take(n)[i] == s[i]);
        }
        lemma_count_flat_map(s.take(n), f, r, k);
        lemma_count_add(s.take(n).flat_map(f), f(s[n]), r);
        assert(k * s.len() == k * n + k) by (nonlinear_arith)
            requires
                s.len() == n + 1,
        ;
    }
}

/// The actions of a commit definition make one commit, kept as `record`.
proof fn lemma_commit_def_count(c: CommitModel, record: Record, r: Record)
    ensures
        count_records(commit_def_actions(record)(c), r) == if record == r {
            1nat
        } else {
            0nat
        },
{
    let files = file_actions(c.files);
    let a = commit_action(c.message, c.merge, record);
    lemma_count_none(files, r);
    lemma_count_add(files, seq![a], r);
    lemma_count_one(a, r);
    assert(records(a, r) == (record == r));
}

proof fn lemma_count_one(a: ActionModel, r: Record)
    ensures
        count_records(seq![a], r) == if records(a, r) {
            1nat
        } else {
            0nat
        },
{
    let s = seq![a];
    assert(s.drop_last() =~= Seq::<ActionModel>::empty());
    assert(count_records(s.drop_last(), r) == 0);
    assert(s.last() == a);
    assert(count_records(s, r) == count_records(s.drop_last(), r) + if records(s.last(), r) {
        1nat
    } else {
        0nat
    });
}

/// The listed commits make one commit each, kept as listed.
proof fn lemma_listed_count(d: FixtureModel, n: nat, r: Record)
    requires
        n <= d.commits.len(),
    ensures
        count_records(listed_actions(d, n), r) == if r == Record::Listed {
            n
        } else {
            0
        },
    decreases n,
{
    if n > 0 {
        lemma_listed_count(d, (n - 1) as nat, r);
        lemma_commit_def_count(d.commits[n - 1], Record::Listed, r);
        assert forall|i: int| 0 <= i < d.tags.len() implies count_records(
            #[trigger] listed_tag_actions(n - 1)(d.tags[i]),
            r,
        ) == 0 by {
            lemma_count_none(listed_tag_actions(n - 1)(d.tags[i]), r);
        }
        lemma_count_flat_map(d.tags, listed_tag_actions(n - 1), r, 0);
        let a = listed_actions(d, (n - 1) as nat);
        let b = commit_def_actions(Record::Listed)(d.commits[n - 1]);
        lemma_count_add(a, b, r);
        lemma_count_add(a + b, d.tags.flat_map(listed_tag_actions(n - 1)), r);
    }
}

/// Branches make only commits kept apart from the listed ones.
proof fn lemma_branch_count(d: FixtureModel, k: nat, r: Record)
    requires
        k <= d.branches.len(),
        r != Record::Unlisted,
    ensures
        count_records(branch_actions(d, k).0, r) == 0,
    decreases k,
{
    if k > 0 {
        lemma_branch_count(d, (k - 1) as nat, r);
        let (a, f) = branch_actions(d, (k - 1) as nat);
        let b = d.branches[k - 1];
        if f is None {
            match branch_outcome(d, b) {
                Ok(x) => {
                    let fk = fork_point(d, b)->Ok_0;
                    let head = seq![
                        ActionModel::CreateBranch { name: b.name, fork: fk },
                        ActionModel::Checkout { reference: branch_ref(b.name) },
                    ];
                    let tail = match b.merge {
                        Some(m) => seq![
                            ActionModel::MergeInto {
                                reference: branch_ref(m),
                                message: "Merge branch '"@ + b.name + "'"@,
                            },
                        ],
                        None => Seq::<ActionModel>::empty(),
                    };
                    lemma_count_none(head, r);
                    lemma_count_none(tail, r);
                    assert forall|i: int| 0 <= i < b.commits.len() implies count_records(
                        #[trigger] commit_def_actions(Record::Unlisted)(b.commits[i]),
                        r,
                    ) == 0 by {
                        lemma_commit_def_count(b.commits[i], Record::Unlisted, r);
                    }
                    let mid = b.commits.flat_map(commit_def_actions(Record::Unlisted));
                    lemma_count_flat_map(b.commits, commit_def_actions(Record::Unlisted), r, 0);
                    lemma_count_add(head, mid, r);
                    lemma_count_add(head + mid, tail, r);
                    lemma_count_add(a, x, r);
                },
                Err(_) => {},
            }
        }
    }
}

/// Generating a fixture with explicit commits makes exactly one setup commit
/// and one commit per listed commit (merge commits count once); every other
/// commit belongs to a branch and is kept apart from these.
pub proof fn lemma_main_line_commits(d: FixtureModel)
    ensures
        count_records(spec_explicit_plan(d).actions, Record::Setup) == 1,
        count_records(spec_explicit_plan(d).actions, Record::Listed) == d.commits.len(),
{
    lemma_plan_count(d, Record::Setup);
    lemma_plan_count(d, Record::Listed);
}

proof fn lemma_plan_count(d: FixtureModel, r: Record)
    requires
        r != Record::Unlisted,
    ensures
        count_records(spec_explicit_plan(d).actions, r) == if r == Record::Setup {
            1
        } else {
            d.commits.len()
        },
{
    let first = seq![
        ActionModel::InitRepo { initial_branch: d.meta.default_branch },
        ActionModel::SetIdentity { name: AUTHOR_NAME@, email: AUTHOR_EMAIL@ },
    ];
    let cfg = config_actions(d);
    let pk = d.packages.flat_map(package_actions());
    let hk = d.hooks.flat_map(hook_actions());
    let init = seq![ActionModel::Commit { message: "chore: initial setup"@, record: Record::Setup }];
    lemma_count_none(first, r);
    lemma_count_none(cfg, r);
    assert forall|i: int| 0 <= i < d.packages.len() implies count_records(
        #[trigger] package_actions()(d.packages[i]),
        r,
    ) == 0 by {
        lemma_count_none(package_actions()(d.packages[i]), r);
    }
    lemma_count_flat_map(d.packages, package_actions(), r, 0);
    assert forall|i: int| 0 <= i < d.hooks.len() implies count_records(
        #[trigger] hook_actions()(d.hooks[i]),
        r,
    ) == 0 by {
        lemma_count_none(hook_actions()(d.hooks[i]), r);
    }
    lemma_count_flat_map(d.hooks, hook_actions(), r, 0);
    lemma_count_one(init[0], r);
    assert(init =~= seq![init[0]]);
    lemma_count_add(first, cfg, r);
    lemma_count_add(first + cfg, pk, r);
    lemma_count_add(first + cfg + pk, hk, r);
    lemma_count_add(first + cfg + pk + hk, init, r);
    let setup = setup_actions(d);
    assert(setup == first + cfg + pk + hk + init);
    assert forall|i: int| 0 <= i < d.packages.len() implies count_records(
        #[trigger] package_tag_actions()(d.packages[i]),
        r,
    ) == 0 by {
        lemma_count_none(package_tag_actions()(d.packages[i]), r);
    }
    lemma_count_flat_map(d.packages, package_tag_actions(), r, 0);
    assert forall|i: int| 0 <= i < d.tags.len() implies count_records(
        #[trigger] setup_tag_actions()(d.tags[i]),
        r,
    ) == 0 by {
        lemma_count_none(setup_tag_actions()(d.tags[i]), r);
    }
    lemma_count_flat_map(d.tags, setup_tag_actions(), r, 0);
    let pt = d.packages.flat_map(package_tag_actions());
    let st = d.tags.flat_map(setup_tag_actions());
    let la = listed_actions(d, d.commits.len());
    lemma_listed_count(d, d.commits.len(), r);
    lemma_count_add(setup, pt, r);
    lemma_count_add(setup + pt, st, r);
    lemma_count_add(setup + pt + st, la, r);
    let head = setup + pt + st + la;
    let (b, f) = branch_actions(d, d.branches.len());
    lemma_branch_count(d, d.branches.len(), r);
    lemma_count_add(head, b, r);
    if f is None {
        let restore = if d.branches.len() > 0 {
            seq![ActionModel::Checkout { reference: branch_ref(default_branch_name(d)) }]
        } else {
            Seq::empty()
        };
        let last = seq![ActionModel::WriteExpect];
        lemma_count_none(restore, r);
        lemma_count_none(last, r);
        lemma_count_add(head + b, restore, r);
        lemma_count_add(head + b + restore, last, r);
        assert(spec_explicit_plan(d).actions == head + b + restore + last);
    } else {
        assert(spec_explicit_plan(d).actions == head + b);
    }
}

proof fn lemma_contains_left(a: Seq<ActionModel>, b: Seq<ActionModel>, x: ActionModel)
    requires
        a.contains(x),
    ensures
        (a + b).contains(x),
{
    let i = choose|i: int| 0 <= i < a.len() && a[i] == x;
    assert((a + b)[i] == x);
}

proof fn lemma_contains_right(a: Seq<ActionModel>, b: Seq<ActionModel>, x: ActionModel)
    requires
        b.contains(x),
    ensures
        (a + b).contains(x),
{
    let i = choose|i: int| 0 <= i < b.len() && b[i] == x;
    assert((a + b)[a.len() + i] == x);
}

proof fn lemma_flat_map_contains<A>(
    s: Seq<A>,
    f: spec_fn(A) -> Seq<ActionModel>,
    j: int,
    x: ActionModel,
)
    requires
        0 <= j < s.len(),
        f(s[j]).contains(x),
    ensures
        s.flat_map(f).contains(x),
    decreases s.len(),
{
    let n = s.len() - 1;
    s.lemma_flat_map_take_append(f, n);
    assert(s.take(n + 1) =~= s);
    if j == n {
        lemma_contains_right(s.take(n).flat_map(f), f(s[n]), x);
    } else {
        assert(s.take(n)[j] == s[j]);
        lemma_flat_map_contains(s.take(n), f, j, x);
        lemma_contains_left(s.take(n).flat_map(f), f(s[n]), x);
    }
}

/// The tags placed after listed commit `k` are among the actions of the
/// first `n > k` listed commits.
proof fn lemma_listed_tags_kept(d: FixtureModel, n: nat, k: nat, x: ActionModel)
    requires
        k < n,
        d.tags.flat_map(listed_tag_actions(k as int)).contains(x),
    ensures
        listed_actions(d, n).contains(x),
    decreases n,
{
    let a = listed_actions(d, (n - 1) as nat);
    let b = commit_def_actions(Record::Listed)(d.commits[n - 1]);
    let t = d.tags.flat_map(listed_tag_actions(n - 1));
    if k == n - 1 {
        lemma_contains_right(a + b, t, x);
    } else {
        lemma_listed_tags_kept(d, (n - 1) as nat, k, x);
        lemma_contains_left(a, b, x);
        lemma_contains_left(a + b, t, x);
    }
}

/// The tag action of a listed tag: on the setup commit for index `-1`, else on
/// the listed commit it names.
pub open spec fn tag_placement(t: TagModel) -> ActionModel {
    ActionModel::Tag {
        name: t.name,
        target: if t.at_commit == -1 {
            CommitRef::Setup
        } else {
            CommitRef::Listed(t.at_commit as usize)
        },
    }
}

/// Every listed tag whose commit index is `-1` (the setup commit) or the index
/// of a listed commit is placed on that commit, whether or not a later branch
/// stops generation.
pub proof fn lemma_tags_placed(d: FixtureModel, j: int)
    requires
        0 <= j < d.tags.len(),
        -1 <= d.tags[j].at_commit < d.commits.len(),
    ensures
        spec_explicit_plan(d).actions.contains(tag_placement(d.tags[j])),
{
    let t = d.tags[j];
    let x = tag_placement(t);
    let setup = setup_actions(d);
    let pt = d.packages.flat_map(package_tag_actions());
    let st = d.tags.flat_map(setup_tag_actions());
    let la = listed_actions(d, d.commits.len());
    if t.at_commit == -1 {
        assert(setup_tag_actions()(t)[0] == x);
        lemma_flat_map_contains(d.tags, setup_tag_actions(), j, x);
        lemma_contains_right(setup + pt, st, x);
        lemma_contains_left(setup + pt + st, la, x);
    } else {
        let k = t.at_commit as nat;
        assert(k as int as i32 == t.at_commit);
        assert(listed_tag_actions(k as int)(t)[0] == x);
        lemma_flat_map_contains(d.tags, listed_tag_actions(k as int), j, x);
        lemma_listed_tags_kept(d, d.commits.len(), k, x);
        lemma_contains_right(setup + pt + st, la, x);
    }
    let head = setup + pt + st + la;
    let (b, f) = branch_actions(d, d.branches.len());
    lemma_contains_left(head, b, x);
    if f is None {
        let restore = if d.branches.len() > 0 {
            seq![ActionModel::Checkout { reference: branch_ref(default_branch_name(d)) }]
        } else {
            Seq::empty()
        };
        lemma_contains_left(head + b, restore, x);
        lemma_contains_left(head + b + restore, seq![ActionModel::WriteExpect], x);
        assert(spec_explicit_plan(d).actions == head + b + restore + seq![ActionModel::WriteExpect]);
    }
}

/// Actions kept at the start of every plan stay in it, whether or not a
/// branch stops generation.
proof fn lemma_head_kept(d: FixtureModel, x: ActionModel)
    requires
        (setup_actions(d) + d.packages.flat_map(package_tag_actions()) + d.tags.flat_map(
            setup_tag_actions(),
        ) + listed_actions(d, d.commits.len())).contains(x),
    ensures
        spec_explicit_plan(d).actions.contains(x),
{
    let head = setup_actions(d) + d.packages.flat_map(package_tag_actions()) + d.tags.flat_map(
        setup_tag_actions(),
    ) + listed_actions(d, d.commits.len());
    let (b, f) = branch_actions(d, d.branches.len());
    lemma_contains_left(head, b, x);
    if f is None {
        let restore = if d.branches.len() > 0 {
            seq![ActionModel::Checkout { reference: branch_ref(default_branch_name(d)) }]
        } else {
            Seq::empty()
        };
        lemma_contains_left(head + b, restore, x);
        lemma_contains_left(head + b + restore, seq![ActionModel::WriteExpect], x);
        assert(spec_explicit_plan(d).actions == head + b + restore + seq![ActionModel::WriteExpect]);
    }
}

/// Every package gets its version file: `version.toml` at the repository
/// root for the package at path `.`, else `<path>/version.toml` inside the
/// package's own directory, holding its name and initial version. So packages
/// at different paths get version files at different paths.
pub proof fn lemma_version_files(d: FixtureModel, j: int)
    requires
        0 <= j < d.packages.len(),
    ensures
        spec_explicit_plan(d).actions.contains(
            ActionModel::WriteFile {
                path: if d.packages[j].path == "."@ {
                    seq!["version.toml"@]
                } else {
                    seq![d.packages[j].path, "version.toml"@]
                },
                content: "[package]\nname = \""@ + d.packages[j].name + "\"\nversion = \""@
                    + d.packages[j].initial_version + "\"\n"@,
                create_parents: false,
            },
        ),
{
    let p = d.packages[j];
    let x = ActionModel::WriteFile {
        path: if p.path == "."@ {
            seq!["version.toml"@]
        } else {
            seq![p.path, "version.toml"@]
        },
        content: "[package]\nname = \""@ + p.name + "\"\nversion = \""@ + p.initial_version
            + "\"\n"@,
        create_parents: false,
    };
    assert(package_actions()(p)[1] == x);
    lemma_flat_map_contains(d.packages, package_actions(), j, x);
    let first = seq![
        ActionModel::InitRepo { initial_branch: d.meta.default_branch },
        ActionModel::SetIdentity { name: AUTHOR_NAME@, email: AUTHOR_EMAIL@ },
    ] + config_actions(d);
    let pk = d.packages.flat_map(package_actions());
    let rest = d.hooks.flat_map(hook_actions()) + seq![
        ActionModel::Commit { message: "chore: initial setup"@, record: Record::Setup },
    ];
    lemma_contains_right(first, pk, x);
    lemma_contains_left(first + pk, d.hooks.flat_map(hook_actions()), x);
    lemma_contains_left(
        first + pk + d.hooks.flat_map(hook_actions()),
        seq![ActionModel::Commit { message: "chore: initial setup"@, record: Record::Setup }],
        x,
    );
    let setup = setup_actions(d);
    let pt = d.packages.flat_map(package_tag_actions());
    let st = d.tags.flat_map(setup_tag_actions());
    lemma_contains_left(setup, pt, x);
    lemma_contains_left(setup + pt, st, x);
    lemma_contains_left(setup + pt + st, listed_actions(d, d.commits.len()), x);
    lemma_head_kept(d, x);
}

/// When no branch failed among the first `k`, each of them was created: its
/// outcome is a list of actions, whose first one is in the branch actions.
proof fn lemma_branch_created(d: FixtureModel, k: nat, j: int)
    requires
        0 <= j < k <= d.branches.len(),
        branch_actions(d, k).1 is None,
    ensures
        branch_outcome(d, d.branches[j]) is Ok,
        branch_actions(d, k).0.contains(branch_outcome(d, d.branches[j])->Ok_0[0]),
    decreases k,
{
    let (a, f) = branch_actions(d, (k - 1) as nat);
    assert(f is None);
    let o = branch_outcome(d, d.branches[k - 1]);
    assert(o is Ok);
    let x = o->Ok_0;
    assert(branch_actions(d, k).0 == a + x);
    if j == k - 1 {
        assert(x.len() >= 2);
        assert((a + x)[a.len() as int] == x[0]);
    } else {
        lemma_branch_created(d, (k - 1) as nat, j);
        lemma_contains_left(a, x, branch_outcome(d, d.branches[j])->Ok_0[0]);
    }
}

/// A branch whose commit index is `-1` starts at the setup commit: when
/// generation runs through, the plan creates it there.
pub proof fn lemma_setup_forks(d: FixtureModel, j: int)
    requires
        0 <= j < d.branches.len(),
        d.branches[j].at_commit == Some(-1i32),
        spec_explicit_plan(d).failure is None,
    ensures
        spec_explicit_plan(d).actions.contains(
            ActionModel::CreateBranch {
                name: d.branches[j].name,
                fork: ForkModel::At(CommitRef::Setup),
            },
        ),
{
    let head = setup_actions(d) + d.packages.flat_map(package_tag_actions()) + d.tags.flat_map(
        setup_tag_actions(),
    ) + listed_actions(d, d.commits.len());
    let (b, f) = branch_actions(d, d.branches.len());
    lemma_branch_created(d, d.branches.len(), j);
    let x = ActionModel::CreateBranch {
        name: d.branches[j].name,
        fork: ForkModel::At(CommitRef::Setup),
    };
    assert(branch_outcome(d, d.branches[j])->Ok_0[0] == x);
    lemma_contains_right(head, b, x);
    let restore = if d.branches.len() > 0 {
        seq![ActionModel::Checkout { reference: branch_ref(default_branch_name(d)) }]
    } else {
        Seq::empty()
    };
    lemma_contains_left(head + b, restore, x);
    lemma_contains_left(head + b + restore, seq![ActionModel::WriteExpect], x);
    assert(spec_explicit_plan(d).actions == head + b + restore + seq![ActionModel::WriteExpect]);
}

} // verus!
