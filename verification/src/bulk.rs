//! The repository plan of a bulk fixture: synthetic packages and commits drawn
//! from a seeded generator, written through an incremental tree builder.
use vstd::prelude::*;

use crate::graph::{build_dependency_edges, dependency_edges, graph_config, spec_graph_config};
use crate::rng::{
    draw, lemma_message_breaking_mark, max_time_offset, rand_message, rand_time, spec_rand_message,
    spec_time_offset, xorshift, xorshift_n, Rng, RngError,
};
use crate::text::{decimal, push_deep, texts, zero_pad, zero_padded_decimal};
use crate::types::{config_filename, resolve_config_filename, FixtureDef, FixtureModel, GenerateDef};

verus! {

/// One step of building a bulk fixture repository through a tree builder.
#[derive(Debug)]
pub enum BulkAction {
    /// Store `content` as the file at `path` in the tree.
    SetFile { path: String, content: String },
    /// Append `change\n` to the dummy file at `path` and store it in the tree.
    AppendDummy { path: String },
    /// Commit the tree at `time` (seconds since the epoch, UTC) on HEAD; the
    /// first commit has no parent, each later one the commit before it.
    Commit { message: String, time: i64 },
    /// Put a lightweight tag on the first commit.
    TagInitial { name: String },
}

/// The steps of a bulk fixture, and the repository's initial branch.
#[derive(Debug)]
pub struct BulkPlan {
    pub initial_branch: Option<String>,
    pub actions: Vec<BulkAction>,
}

/// Model of a `BulkAction`.
pub enum BulkActionModel {
    SetFile { path: Seq<char>, content: Seq<char> },
    AppendDummy { path: Seq<char> },
    Commit { message: Seq<char>, time: i64 },
    TagInitial { name: Seq<char> },
}

/// Model of a `BulkPlan`.
pub struct BulkPlanModel {
    pub initial_branch: Option<Seq<char>>,
    pub actions: Seq<BulkActionModel>,
}

impl DeepView for BulkAction {
    type V = BulkActionModel;

    open spec fn deep_view(&self) -> BulkActionModel {
        match self {
            BulkAction::SetFile { path, content } => BulkActionModel::SetFile {
                path: path@,
                content: content@,
            },
            BulkAction::AppendDummy { path } => BulkActionModel::AppendDummy { path: path@ },
            BulkAction::Commit { message, time } => BulkActionModel::Commit {
                message: message@,
                time: *time,
            },
            BulkAction::TagInitial { name } => BulkActionModel::TagInitial { name: name@ },
        }
    }
}

impl DeepView for BulkPlan {
    type V = BulkPlanModel;

    open spec fn deep_view(&self) -> BulkPlanModel {
        BulkPlanModel {
            initial_branch: self.initial_branch.deep_view(),
            actions: self.actions.deep_view(),
        }
    }
}

/// The name of synthetic package `i` (counting from 0): `pkg-` and `i + 1`
/// with at least three digits.
pub open spec fn package_name(i: nat) -> Seq<char> {
    "pkg-"@ + zero_pad(decimal(i + 1), 3)
}

/// The names of `n` synthetic packages.
pub open spec fn package_names(n: nat) -> Seq<Seq<char>> {
    Seq::new(n, |i: int| package_name(i as nat))
}

/// The number of core packages among `n`: a fifth, and at least one.
pub open spec fn core_count_of(n: nat) -> nat {
    if n / 5 > 1 {
        n / 5
    } else {
        1
    }
}

/// The `package.json` of a synthetic package.
pub open spec fn manifest_text(name: Seq<char>) -> Seq<char> {
    "{\n  \"name\": \""@ + name + "\",\n  \"version\": \"0.1.0\"\n}\n"@
}

/// The scopes of commits in a single-package fixture.
pub open spec fn scope_words() -> Seq<Seq<char>> {
    seq!["core"@, "api"@, "cli"@, "config"@, "parser"@]
}

/// The commits of a monorepo fixture: each draws a package index below
/// `modulus`, appends to that package's dummy file, and commits a message
/// scoped to the package at a drawn time before `now`.
pub open spec fn mono_commits(s: u64, names: Seq<Seq<char>>, modulus: nat, now: i64, n: nat) -> (
    Seq<BulkActionModel>,
    u64,
)
    decreases n,
{
    if n == 0 {
        (Seq::empty(), s)
    } else {
        let (prev, s1) = mono_commits(s, names, modulus, now, (n - 1) as nat);
        let (idx, s2) = draw(s1, modulus);
        let p = names[idx as int];
        let (msg, s3) = spec_rand_message(s2, p);
        let (off, s4) = spec_time_offset(s3);
        (
            prev + seq![
                BulkActionModel::AppendDummy { path: "packages/"@ + p + "/dummy.txt"@ },
                BulkActionModel::Commit { message: msg, time: (now - off) as i64 },
            ],
            s4,
        )
    }
}

/// The commits of a single-package fixture: each appends to `dummy.txt` and
/// commits a message with a drawn scope at a drawn time before `now`.
pub open spec fn single_commits(s: u64, now: i64, n: nat) -> (Seq<BulkActionModel>, u64)
    decreases n,
{
    if n == 0 {
        (Seq::empty(), s)
    } else {
        let (prev, s1) = single_commits(s, now, (n - 1) as nat);
        let (idx, s2) = draw(s1, 5);
        let (msg, s3) = spec_rand_message(s2, scope_words()[idx as int]);
        let (off, s4) = spec_time_offset(s3);
        (
            prev + seq![
                BulkActionModel::AppendDummy { path: "dummy.txt"@ },
                BulkActionModel::Commit { message: msg, time: (now - off) as i64 },
            ],
            s4,
        )
    }
}

/// Writing the fixture's config file, if it has one.
pub open spec fn bulk_config_actions(d: FixtureModel) -> Seq<BulkActionModel> {
    match d.config {
        Some(c) => seq![BulkActionModel::SetFile { path: config_filename(c), content: c.content }],
        None => Seq::empty(),
    }
}

/// The steps of a monorepo fixture with `g.packages > 1` packages, generator at `s`.
pub open spec fn mono_actions(d: FixtureModel, g: GenerateDef, now: i64) -> Seq<BulkActionModel> {
    let pc = g.packages as nat;
    let names = package_names(pc);
    let core = core_count_of(pc);
    let s0 = g.seed;
    let cfg = if g.graph {
        seq![
            BulkActionModel::SetFile {
                path: "ferrflow.json"@,
                content: spec_graph_config(names, dependency_edges(s0, pc, core)),
            },
        ]
    } else {
        bulk_config_actions(d)
    };
    let s1 = if g.graph {
        crate::graph::dependency_state(s0, pc, core)
    } else {
        s0
    };
    let (off, s2) = spec_time_offset(s1);
    cfg + names.map_values(manifest_action()) + seq![
        BulkActionModel::Commit { message: "chore: initial commit"@, time: (now - off) as i64 },
    ] + names.map_values(package_tag_action()) + mono_commits(
        s2,
        names,
        if g.graph {
            core
        } else {
            pc
        },
        now,
        g.commits as nat,
    ).0
}

/// The steps of a single-package fixture.
pub open spec fn single_actions(d: FixtureModel, g: GenerateDef, now: i64) -> Seq<BulkActionModel> {
    let (off, s1) = spec_time_offset(g.seed);
    bulk_config_actions(d) + seq![
        BulkActionModel::SetFile {
            path: "package.json"@,
            content: "{\n  \"name\": \"myapp\",\n  \"version\": \"0.1.0\"\n}\n"@,
        },
        BulkActionModel::SetFile { path: "dummy.txt"@, content: Seq::empty() },
        BulkActionModel::Commit { message: "chore: initial commit"@, time: (now - off) as i64 },
        BulkActionModel::TagInitial { name: "v0.1.0"@ },
    ] + single_commits(s1, now, g.commits as nat).0
}

/// The plan of a bulk fixture at time `now`: a monorepo when it asks for more
/// than one package, else a single package; refused for a zero seed.
pub open spec fn spec_bulk_plan(d: FixtureModel, g: GenerateDef, now: i64) -> Result<
    BulkPlanModel,
    RngError,
> {
    if g.seed == 0 {
        Err(RngError::ZeroSeed)
    } else {
        Ok(
            BulkPlanModel {
                initial_branch: d.meta.default_branch,
                actions: if g.packages > 1 {
                    mono_actions(d, g, now)
                } else {
                    single_actions(d, g, now)
                },
            },
        )
    }
}

/// The names of `n` synthetic packages.
fn make_package_names(n: usize) -> (names: Vec<String>)
    ensures
        names.deep_view() == package_names(n as nat),
{
    let mut names: Vec<String> = Vec::new();
    let mut i: usize = 0;
    while i < n
        invariant
            i <= n,
            names.deep_view() == package_names(i as nat),
        decreases n - i,
    {
        let digits = zero_padded_decimal((i as u64) + 1, 3);
        let name = String::from_str("pkg-").concat(digits.as_str());
        push_deep(&mut names, name);
        assert(names.deep_view() =~= package_names((i + 1) as nat));
        i = i + 1;
    }
    names
}

/// Appends the config file of the fixture, if it has one.
fn push_bulk_config(actions: &mut Vec<BulkAction>, def: &FixtureDef)
    ensures
        final(actions).deep_view() == old(actions).deep_view() + bulk_config_actions(
            def.deep_view(),
        ),
{
    match &def.config {
        Some(c) => {
            push_deep(
                actions,
                BulkAction::SetFile { path: resolve_config_filename(c), content: c.content.clone() },
            );
        },
        None => {},
    }
    assert(actions.deep_view() =~= old(actions).deep_view() + bulk_config_actions(
        def.deep_view(),
    ));
}

/// The step storing the `package.json` of a synthetic package.
pub open spec fn manifest_action() -> spec_fn(Seq<char>) -> BulkActionModel {
    |p: Seq<char>|
        BulkActionModel::SetFile {
            path: "packages/"@ + p + "/package.json"@,
            content: manifest_text(p),
        }
}

/// The step tagging the first commit for a synthetic package.
pub open spec fn package_tag_action() -> spec_fn(Seq<char>) -> BulkActionModel {
    |p: Seq<char>| BulkActionModel::TagInitial { name: p + "@v0.1.0"@ }
}

/// Appends the manifest of each package.
fn push_manifests(actions: &mut Vec<BulkAction>, names: &Vec<String>)
    ensures
        final(actions).deep_view() == old(actions).deep_view() + names.deep_view().map_values(
            manifest_action(),
        ),
{
    let ghost head = actions.deep_view();
    let mut i: usize = 0;
    while i < names.len()
        invariant
            i <= names@.len(),
            actions.deep_view() == head + names.deep_view().take(i as int).map_values(
                manifest_action(),
            ),
        decreases names.len() - i,
    {
        let p = names[i].as_str();
        let mut path = String::from_str("packages/");
        path.append(p);
        path.append("/package.json");
        let mut content = String::from_str("{\n  \"name\": \"");
        content.append(p);
        content.append("\",\n  \"version\": \"0.1.0\"\n}\n");
        push_deep(actions, BulkAction::SetFile { path, content });
        assert(names.deep_view().take(i + 1) =~= names.deep_view().take(i as int).push(
            names.deep_view()[i as int],
        ));
        assert(actions.deep_view() =~= head + names.deep_view().take(i + 1).map_values(
            manifest_action(),
        ));
        i = i + 1;
    }
    assert(names.deep_view().take(names@.len() as int) =~= names.deep_view());
}

/// Appends a tag on the first commit for each package.
fn push_package_tags(actions: &mut Vec<BulkAction>, names: &Vec<String>)
    ensures
        final(actions).deep_view() == old(actions).deep_view() + names.deep_view().map_values(
            package_tag_action(),
        ),
{
    let ghost head = actions.deep_view();
    let mut i: usize = 0;
    while i < names.len()
        invariant
            i <= names@.len(),
            actions.deep_view() == head + names.deep_view().take(i as int).map_values(
                package_tag_action(),
            ),
        decreases names.len() - i,
    {
        let name = names[i].clone().concat("@v0.1.0");
        push_deep(actions, BulkAction::TagInitial { name });
        assert(names.deep_view().take(i + 1) =~= names.deep_view().take(i as int).push(
            names.deep_view()[i as int],
        ));
        assert(actions.deep_view() =~= head + names.deep_view().take(i + 1).map_values(
            package_tag_action(),
        ));
        i = i + 1;
    }
    assert(names.deep_view().take(names@.len() as int) =~= names.deep_view());
}

/// Appends `count` monorepo commits.
fn push_mono_commits(
    actions: &mut Vec<BulkAction>,
    names: &Vec<String>,
    modulus: usize,
    count: usize,
    now: i64,
    rng: &mut Rng,
)
    requires
        0 < modulus <= names@.len(),
        now >= i64::MIN + max_time_offset(),
    ensures
        (final(actions).deep_view(), final(rng)@) == (
            old(actions).deep_view() + mono_commits(
                old(rng)@,
                names.deep_view(),
                modulus as nat,
                now,
                count as nat,
            ).0,
            mono_commits(old(rng)@, names.deep_view(), modulus as nat, now, count as nat).1,
        ),
{
    let ghost s0 = rng@;
    let ghost head = actions.deep_view();
    let mut k: usize = 0;
    while k < count
        invariant
            k <= count,
            0 < modulus <= names@.len(),
            now >= i64::MIN + max_time_offset(),
            (actions.deep_view(), rng@) == (
                head + mono_commits(s0, names.deep_view(), modulus as nat, now, k as nat).0,
                mono_commits(s0, names.deep_view(), modulus as nat, now, k as nat).1,
            ),
        decreases count - k,
    {
        let idx = rng.usize(modulus);
        let p = names[idx].as_str();
        let mut path = String::from_str("packages/");
        path.append(p);
        path.append("/dummy.txt");
        push_deep(actions, BulkAction::AppendDummy { path });
        let message = rand_message(rng, p);
        let time = rand_time(rng, now);
        push_deep(actions, BulkAction::Commit { message, time });
        proof {
            assert(names.deep_view()[idx as int] == p@);
            assert(actions.deep_view() =~= head + mono_commits(
                s0,
                names.deep_view(),
                modulus as nat,
                now,
                (k + 1) as nat,
            ).0);
        }
        k = k + 1;
    }
}

/// Appends `count` single-package commits.
fn push_single_commits(actions: &mut Vec<BulkAction>, count: usize, now: i64, rng: &mut Rng)
    requires
        now >= i64::MIN + max_time_offset(),
    ensures
        (final(actions).deep_view(), final(rng)@) == (
            old(actions).deep_view() + single_commits(old(rng)@, now, count as nat).0,
            single_commits(old(rng)@, now, count as nat).1,
        ),
{
    let scopes = vec!["core", "api", "cli", "config", "parser"];
    assert(crate::rng::str_texts(scopes@) =~= scope_words());
    let ghost s0 = rng@;
    let ghost head = actions.deep_view();
    let mut k: usize = 0;
    while k < count
        invariant
            k <= count,
            scopes@.len() == 5,
            crate::rng::str_texts(scopes@) == scope_words(),
            now >= i64::MIN + max_time_offset(),
            (actions.deep_view(), rng@) == (
                head + single_commits(s0, now, k as nat).0,
                single_commits(s0, now, k as nat).1,
            ),
        decreases count - k,
    {
        push_deep(actions, BulkAction::AppendDummy { path: String::from_str("dummy.txt") });
        let ghost before = rng@;
        let scope = rng.pick(scopes.as_slice());
        proof {
            assert(crate::rng::str_texts(scopes@)[draw(before, 5).0 as int] == scope@);
        }
        let message = rand_message(rng, scope);
        let time = rand_time(rng, now);
        push_deep(actions, BulkAction::Commit { message, time });
        assert(actions.deep_view() =~= head + single_commits(s0, now, (k + 1) as nat).0);
        k = k + 1;
    }
}

/// The steps of a monorepo fixture.
fn mono_plan(def: &FixtureDef, g: GenerateDef, now: i64, rng: &mut Rng) -> (actions: Vec<BulkAction>)
    requires
        g.packages > 1,
        old(rng)@ == g.seed,
        now >= i64::MIN + max_time_offset(),
    ensures
        actions.deep_view() == mono_actions(def.deep_view(), g, now),
{
    let ghost d = def.deep_view();
    let mut actions: Vec<BulkAction> = Vec::new();
    let pc = g.packages;
    let names = make_package_names(pc);
    let core: usize = if pc / 5 > 1 {
        pc / 5
    } else {
        1
    };
    if g.graph {
        let deps = build_dependency_edges(pc, core, rng);
        assert(texts(names@) =~= names.deep_view());
        let config = graph_config(names.as_slice(), deps.as_slice());
        push_deep(
            &mut actions,
            BulkAction::SetFile { path: String::from_str("ferrflow.json"), content: config },
        );
    } else {
        push_bulk_config(&mut actions, def);
    }
    push_manifests(&mut actions, &names);
    let t = rand_time(rng, now);
    push_deep(
        &mut actions,
        BulkAction::Commit { message: String::from_str("chore: initial commit"), time: t },
    );
    push_package_tags(&mut actions, &names);
    let modulus: usize = if g.graph {
        core
    } else {
        pc
    };
    push_mono_commits(&mut actions, &names, modulus, g.commits, now, rng);
    assert(actions.deep_view() =~= mono_actions(d, g, now));
    actions
}

/// The steps of a single-package fixture.
fn single_plan(def: &FixtureDef, g: GenerateDef, now: i64, rng: &mut Rng) -> (actions: Vec<
    BulkAction,
>)
    requires
        old(rng)@ == g.seed,
        now >= i64::MIN + max_time_offset(),
    ensures
        actions.deep_view() == single_actions(def.deep_view(), g, now),
{
    let mut actions: Vec<BulkAction> = Vec::new();
    push_bulk_config(&mut actions, def);
    push_deep(
        &mut actions,
        BulkAction::SetFile {
            path: String::from_str("package.json"),
            content: String::from_str("{\n  \"name\": \"myapp\",\n  \"version\": \"0.1.0\"\n}\n"),
        },
    );
    push_deep(
        &mut actions,
        BulkAction::SetFile { path: String::from_str("dummy.txt"), content: String::new() },
    );
    let t = rand_time(rng, now);
    push_deep(
        &mut actions,
        BulkAction::Commit { message: String::from_str("chore: initial commit"), time: t },
    );
    push_deep(&mut actions, BulkAction::TagInitial { name: String::from_str("v0.1.0") });
    push_single_commits(&mut actions, g.commits, now, rng);
    assert(actions.deep_view() =~= single_actions(def.deep_view(), g, now));
    actions
}

/// The plan of a bulk fixture at time `now` (seconds since the epoch).
pub fn plan_bulk(def: &FixtureDef, now: i64) -> (r: Result<BulkPlan, RngError>)
    requires
        def.generate is Some,
        now >= i64::MIN + max_time_offset(),
    ensures
        match r {
            Ok(p) => spec_bulk_plan(def.deep_view(), def.generate->Some_0, now) == Ok::<
                BulkPlanModel,
                RngError,
            >(p.deep_view()),
            Err(e) => spec_bulk_plan(def.deep_view(), def.generate->Some_0, now) == Err::<
                BulkPlanModel,
                RngError,
            >(e),
        },
{
    let g = match def.generate {
        Some(g) => g,
        None => {
            return Err(RngError::ZeroSeed);
        },
    };
    let mut rng = match Rng::new(g.seed) {
        Ok(r) => r,
        Err(e) => {
            return Err(e);
        },
    };
    let initial_branch = match &def.meta.default_branch {
        Some(b) => Some(b.clone()),
        None => None,
    };
    let actions = if g.packages > 1 {
        mono_plan(def, g, now, &mut rng)
    } else {
        single_plan(def, g, now, &mut rng)
    };
    Ok(BulkPlan { initial_branch, actions })
}

/// How many steps of `s` make a commit.
pub open spec fn commit_steps(s: Seq<BulkActionModel>) -> nat
    decreases s.len(),
{
    if s.len() == 0 {
        0
    } else {
        commit_steps(s.drop_last()) + if s.last() is Commit {
            1nat
        } else {
            0nat
        }
    }
}

/// Every commit step of `s` is dated within the year before `now`.
pub open spec fn dated_within_year(s: Seq<BulkActionModel>, now: i64) -> bool {
    forall|i: int|
        0 <= i < s.len() && #[trigger] s[i] is Commit ==> now - max_time_offset() <= s[i]->time
            <= now
}

proof fn lemma_steps_add(a: Seq<BulkActionModel>, b: Seq<BulkActionModel>)
    ensures
        commit_steps(a + b) == commit_steps(a) + commit_steps(b),
    decreases b.len(),
{
    if b.len() == 0 {
        assert(a + b =~= a);
    } else {
        lemma_steps_add(a, b.drop_last());
        assert((a + b).drop_last() =~= a + b.drop_last());
    }
}

proof fn lemma_steps_none(s: Seq<BulkActionModel>)
    requires
        forall|i: int| 0 <= i < s.len() ==> !(#[trigger] s[i] is Commit),
    ensures
        commit_steps(s) == 0,
    decreases s.len(),
{
    if s.len() > 0 {
        lemma_steps_none(s.drop_last());
    }
}

/// An appended file followed by a commit dated `now - off`: one commit step,
/// dated within the year when the offset is.
proof fn lemma_commit_pair(a: BulkActionModel, message: Seq<char>, now: i64, off: int)
    requires
        !(a is Commit),
        0 <= off <= max_time_offset(),
        now >= i64::MIN + max_time_offset(),
    ensures
        commit_steps(seq![a, BulkActionModel::Commit { message, time: (now - off) as i64 }])
            == 1,
        dated_within_year(
            seq![a, BulkActionModel::Commit { message, time: (now - off) as i64 }],
            now,
        ),
{
    let c = BulkActionModel::Commit { message, time: (now - off) as i64 };
    let s = seq![a, c];
    assert(s.drop_last() =~= seq![a]);
    assert(seq![a].drop_last() =~= Seq::<BulkActionModel>::empty());
    assert(commit_steps(Seq::<BulkActionModel>::empty()) == 0);
    assert(commit_steps(seq![a]) == 0);
}

proof fn lemma_time_offset_bounds(s: u64)
    ensures
        0 <= spec_time_offset(s).0 <= max_time_offset(),
{
    let (days, s1) = draw(s, 365);
    let (hours, s2) = draw(s1, 24);
    let (mins, s3) = draw(s2, 60);
    assert(days <= 364 && hours <= 23 && mins <= 59);
    assert(days * 86400 <= 364 * 86400) by (nonlinear_arith)
        requires
            days <= 364,
    ;
    assert(hours * 3600 <= 23 * 3600) by (nonlinear_arith)
        requires
            hours <= 23,
    ;
    assert(mins * 60 <= 59 * 60) by (nonlinear_arith)
        requires
            mins <= 59,
    ;
}

proof fn lemma_dated_add(a: Seq<BulkActionModel>, b: Seq<BulkActionModel>, now: i64)
    requires
        dated_within_year(a, now),
        dated_within_year(b, now),
    ensures
        dated_within_year(a + b, now),
{
    assert forall|i: int| 0 <= i < (a + b).len() && #[trigger] (a + b)[i] is Commit implies now
        - max_time_offset() <= (a + b)[i]->time <= now by {
        if i < a.len() {
            assert((a + b)[i] == a[i]);
        } else {
            assert((a + b)[i] == b[i - a.len()]);
        }
    }
}

proof fn lemma_mono_commits(s: u64, names: Seq<Seq<char>>, modulus: nat, now: i64, n: nat)
    requires
        now >= i64::MIN + max_time_offset(),
    ensures
        commit_steps(mono_commits(s, names, modulus, now, n).0) == n,
        dated_within_year(mono_commits(s, names, modulus, now, n).0, now),
    decreases n,
{
    if n > 0 {
        lemma_mono_commits(s, names, modulus, now, (n - 1) as nat);
        let (prev, s1) = mono_commits(s, names, modulus, now, (n - 1) as nat);
        let (idx, s2) = draw(s1, modulus);
        let p = names[idx as int];
        let (msg, s3) = spec_rand_message(s2, p);
        let (off, s4) = spec_time_offset(s3);
        lemma_time_offset_bounds(s3);
        let a = BulkActionModel::AppendDummy { path: "packages/"@ + p + "/dummy.txt"@ };
        lemma_commit_pair(a, msg, now, off);
        let pair = seq![a, BulkActionModel::Commit { message: msg, time: (now - off) as i64 }];
        lemma_steps_add(prev, pair);
        lemma_dated_add(prev, pair, now);
    }
}

proof fn lemma_single_commits(s: u64, now: i64, n: nat)
    requires
        now >= i64::MIN + max_time_offset(),
    ensures
        commit_steps(single_commits(s, now, n).0) == n,
        dated_within_year(single_commits(s, now, n).0, now),
    decreases n,
{
    if n > 0 {
        lemma_single_commits(s, now, (n - 1) as nat);
        let (prev, s1) = single_commits(s, now, (n - 1) as nat);
        let (idx, s2) = draw(s1, 5);
        let (msg, s3) = spec_rand_message(s2, scope_words()[idx as int]);
        let (off, s4) = spec_time_offset(s3);
        lemma_time_offset_bounds(s3);
        let a = BulkActionModel::AppendDummy { path: "dummy.txt"@ };
        lemma_commit_pair(a, msg, now, off);
        let pair = seq![a, BulkActionModel::Commit { message: msg, time: (now - off) as i64 }];
        lemma_steps_add(prev, pair);
        lemma_dated_add(prev, pair, now);
    }
}

/// Steps that make no commit.
proof fn lemma_no_commits(s: Seq<BulkActionModel>, now: i64)
    requires
        forall|i: int| 0 <= i < s.len() ==> !(#[trigger] s[i] is Commit),
    ensures
        commit_steps(s) == 0,
        dated_within_year(s, now),
{
    lemma_steps_none(s);
}

/// The initial commit step, dated `now - off`.
proof fn lemma_initial_commit(now: i64, off: int)
    requires
        0 <= off <= max_time_offset(),
        now >= i64::MIN + max_time_offset(),
    ensures
        commit_steps(
            seq![
                BulkActionModel::Commit {
                    message: "chore: initial commit"@,
                    time: (now - off) as i64,
                },
            ],
        ) == 1,
        dated_within_year(
            seq![
                BulkActionModel::Commit {
                    message: "chore: initial commit"@,
                    time: (now - off) as i64,
                },
            ],
            now,
        ),
{
    let s = seq![
        BulkActionModel::Commit { message: "chore: initial commit"@, time: (now - off) as i64 },
    ];
    assert(s.drop_last() =~= Seq::<BulkActionModel>::empty());
    assert(commit_steps(Seq::<BulkActionModel>::empty()) == 0);
}

/// A bulk fixture has its initial commit and then exactly the number of
/// synthetic commits it asks for, each dated within the year before the time
/// of generation.
pub proof fn lemma_bulk_commits(d: FixtureModel, g: GenerateDef, now: i64)
    requires
        g.seed != 0,
        now >= i64::MIN + max_time_offset(),
    ensures
        commit_steps(spec_bulk_plan(d, g, now)->Ok_0.actions) == g.commits + 1,
        dated_within_year(spec_bulk_plan(d, g, now)->Ok_0.actions, now),
{
    let cfg_plain = bulk_config_actions(d);
    lemma_no_commits(cfg_plain, now);
    if g.packages > 1 {
        let pc = g.packages as nat;
        let names = package_names(pc);
        let core = core_count_of(pc);
        let s0 = g.seed;
        let cfg = if g.graph {
            seq![
                BulkActionModel::SetFile {
                    path: "ferrflow.json"@,
                    content: spec_graph_config(names, dependency_edges(s0, pc, core)),
                },
            ]
        } else {
            cfg_plain
        };
        let s1 = if g.graph {
            crate::graph::dependency_state(s0, pc, core)
        } else {
            s0
        };
        let (off, s2) = spec_time_offset(s1);
        lemma_time_offset_bounds(s1);
        let manifests = names.map_values(manifest_action());
        let init = seq![
            BulkActionModel::Commit { message: "chore: initial commit"@, time: (now - off) as i64 },
        ];
        let tags = names.map_values(package_tag_action());
        let modulus = if g.graph {
            core
        } else {
            pc
        };
        let rest = mono_commits(s2, names, modulus, now, g.commits as nat).0;
        lemma_no_commits(cfg, now);
        lemma_no_commits(manifests, now);
        lemma_no_commits(tags, now);
        lemma_initial_commit(now, off);
        lemma_mono_commits(s2, names, modulus, now, g.commits as nat);
        lemma_steps_add(cfg, manifests);
        lemma_steps_add(cfg + manifests, init);
        lemma_steps_add(cfg + manifests + init, tags);
        lemma_steps_add(cfg + manifests + init + tags, rest);
        lemma_dated_add(cfg, manifests, now);
        lemma_dated_add(cfg + manifests, init, now);
        lemma_dated_add(cfg + manifests + init, tags, now);
        lemma_dated_add(cfg + manifests + init + tags, rest, now);
        assert(mono_actions(d, g, now) == cfg + manifests + init + tags + rest);
    } else {
        let (off, s1) = spec_time_offset(g.seed);
        lemma_time_offset_bounds(g.seed);
        let files = seq![
            BulkActionModel::SetFile {
                path: "package.json"@,
                content: "{\n  \"name\": \"myapp\",\n  \"version\": \"0.1.0\"\n}\n"@,
            },
            BulkActionModel::SetFile { path: "dummy.txt"@, content: Seq::empty() },
        ];
        let init = seq![
            BulkActionModel::Commit { message: "chore: initial commit"@, time: (now - off) as i64 },
        ];
        let tag = seq![BulkActionModel::TagInitial { name: "v0.1.0"@ }];
        let rest = single_commits(s1, now, g.commits as nat).0;
        lemma_no_commits(files, now);
        lemma_no_commits(tag, now);
        lemma_initial_commit(now, off);
        lemma_single_commits(s1, now, g.commits as nat);
        lemma_steps_add(cfg_plain, files);
        lemma_steps_add(cfg_plain + files, init);
        lemma_steps_add(cfg_plain + files + init, tag);
        lemma_steps_add(cfg_plain + files + init + tag, rest);
        lemma_dated_add(cfg_plain, files, now);
        lemma_dated_add(cfg_plain + files, init, now);
        lemma_dated_add(cfg_plain + files + init, tag, now);
        lemma_dated_add(cfg_plain + files + init + tag, rest, now);
        assert(single_actions(d, g, now) =~= cfg_plain + files + init + tag + rest);
    }
}

/// Steps of the generator add up.
proof fn lemma_steps_compose(s: u64, a: nat, b: nat)
    ensures
        xorshift_n(xorshift_n(s, a), b) == xorshift_n(s, a + b),
    decreases b,
{
    if b > 0 {
        lemma_steps_compose(s, a, (b - 1) as nat);
    }
}

/// A commit time takes three steps of the generator.
proof fn lemma_time_steps(s: u64)
    ensures
        spec_time_offset(s).1 == xorshift_n(s, 3),
{
    reveal_with_fuel(xorshift_n, 4);
}

/// The `k`-th of `n` monorepo commits appends to the dummy of the package
/// whose index is the value `8k + 1` steps after `s`, modulo `modulus`; the
/// commits take eight steps each.
proof fn lemma_mono_commit_packages(
    s: u64,
    names: Seq<Seq<char>>,
    modulus: nat,
    now: i64,
    n: nat,
    k: int,
)
    requires
        0 <= k < n,
    ensures
        mono_commits(s, names, modulus, now, n).0.len() == 2 * n,
        mono_commits(s, names, modulus, now, n).1 == xorshift_n(s, 8 * n),
        mono_commits(s, names, modulus, now, n).0[2 * k] == (BulkActionModel::AppendDummy {
            path: "packages/"@ + names[((xorshift_n(s, (8 * k + 1) as nat) % (modulus as u64))
                as nat) as int] + "/dummy.txt"@,
        }),
    decreases n,
{
    let (prev, s1) = mono_commits(s, names, modulus, now, (n - 1) as nat);
    if n > 1 {
        lemma_mono_commit_packages(s, names, modulus, now, (n - 1) as nat, if k < n - 1 {
            k
        } else {
            0
        });
    } else {
        assert(prev.len() == 0);
        assert(s1 == xorshift_n(s, 0));
    }
    assert(prev.len() == 2 * (n - 1));
    assert(s1 == xorshift_n(s, (8 * (n - 1)) as nat));
    let (idx, s2) = draw(s1, modulus);
    let p = names[idx as int];
    let (msg, s3) = spec_rand_message(s2, p);
    let (off, s4) = spec_time_offset(s3);
    lemma_message_breaking_mark(s2, p);
    lemma_time_steps(s3);
    assert(xorshift_n(s1, 0) == s1);
    assert(s2 == xorshift_n(s1, 1));
    lemma_steps_compose(s, (8 * (n - 1)) as nat, 1);
    lemma_steps_compose(s2, 4, 3);
    lemma_steps_compose(s, (8 * (n - 1) + 1) as nat, 7);
    assert(s4 == xorshift_n(s, 8 * n));
    if k == n - 1 {
        assert((8 * k + 1) as nat == (8 * (n - 1) + 1) as nat);
        assert(xorshift_n(s, (8 * (n - 1)) as nat + 1) == xorshift(s1));
    }
}

/// In a monorepo without a dependency graph, the `k`-th synthetic commit
/// appends to the dummy file of the package whose index is the generator's
/// value `8k + 4` steps after the seed, modulo the number of packages: three
/// steps date the initial commit, and each synthetic commit takes eight (a
/// package, four for its message, three for its time). So any package can
/// receive a synthetic commit. The synthetic commits close the plan, two
/// steps each.
pub proof fn lemma_monorepo_commit_packages(d: FixtureModel, g: GenerateDef, now: i64, k: int)
    requires
        g.seed != 0,
        g.packages > 1,
        !g.graph,
        0 <= k < g.commits,
    ensures
        spec_bulk_plan(d, g, now)->Ok_0.actions.len() >= 2 * g.commits,
        spec_bulk_plan(d, g, now)->Ok_0.actions[spec_bulk_plan(d, g, now)->Ok_0.actions.len() - 2
            * g.commits + 2 * k] == (BulkActionModel::AppendDummy {
            path: "packages/"@ + package_name(
                ((xorshift_n(g.seed, (8 * k + 4) as nat) % (g.packages as u64)) as nat),
            ) + "/dummy.txt"@,
        }),
{
    let pc = g.packages as nat;
    let names = package_names(pc);
    let (off, s2) = spec_time_offset(g.seed);
    lemma_time_steps(g.seed);
    let head = bulk_config_actions(d) + names.map_values(manifest_action()) + seq![
        BulkActionModel::Commit { message: "chore: initial commit"@, time: (now - off) as i64 },
    ] + names.map_values(package_tag_action());
    let tail = mono_commits(s2, names, pc, now, g.commits as nat).0;
    assert(mono_actions(d, g, now) == head + tail);
    lemma_mono_commit_packages(s2, names, pc, now, g.commits as nat, k);
    lemma_steps_compose(g.seed, 3, (8 * k + 1) as nat);
    let a = head + tail;
    assert(a[a.len() - 2 * g.commits + 2 * k] == tail[2 * k]);
    let idx = (xorshift_n(g.seed, (8 * k + 4) as nat) % (g.packages as u64)) as nat;
    assert(idx < pc);
    assert(names[idx as int] == package_name(idx));
}

} // verus!
