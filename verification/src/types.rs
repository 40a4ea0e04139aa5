//! Fixture definitions, their mathematical models, the defaults that a
//! definition file may leave out, and the derived config file name and
//! expectation record.
use vstd::prelude::*;

use crate::text::same_text;

verus! {

/// A fixture definition: a git repository scenario and what it should produce.
#[derive(Debug)]
pub struct FixtureDef {
    pub meta: Meta,
    pub config: Option<ConfigDef>,
    pub packages: Vec<PackageDef>,
    pub commits: Vec<CommitDef>,
    pub tags: Vec<TagDef>,
    pub branches: Vec<BranchDef>,
    pub hooks: Vec<HookFileDef>,
    pub generate: Option<GenerateDef>,
    pub expect: Option<ExpectDef>,
}

/// Name and description of a fixture, and the repository's initial branch.
#[derive(Debug)]
pub struct Meta {
    pub name: String,
    pub description: String,
    pub default_branch: Option<String>,
}

/// The tool configuration file written at the repository root.
#[derive(Debug)]
pub struct ConfigDef {
    pub content: String,
    pub format: String,
    pub filename: Option<String>,
}

/// A package: its directory, first version and optional tag on the setup commit.
#[derive(Debug)]
pub struct PackageDef {
    pub name: String,
    pub path: String,
    pub initial_version: String,
    pub tag: Option<String>,
}

/// A commit that touches `files`; with `merge` it lands through a merge commit.
#[derive(Debug)]
pub struct CommitDef {
    pub message: String,
    pub files: Vec<String>,
    pub merge: bool,
}

/// A tag at a commit: `-1` is the setup commit, `0..` index the listed commits.
#[derive(Debug)]
pub struct TagDef {
    pub name: String,
    pub at_commit: i32,
}

/// A branch made from another branch at a commit, with its own commits and an
/// optional merge back.
#[derive(Debug)]
pub struct BranchDef {
    pub name: String,
    pub from: Option<String>,
    pub at_commit: Option<i32>,
    pub commits: Vec<CommitDef>,
    pub merge: Option<String>,
}

/// A hook script written into the repository and marked executable.
#[derive(Debug)]
pub struct HookFileDef {
    pub path: String,
    pub content: String,
}

/// Bulk generation: synthetic packages and commits from a seeded generator.
#[derive(Debug, Clone, Copy, PartialEq, Eq)]
pub struct GenerateDef {
    pub packages: usize,
    pub commits: usize,
    pub seed: u64,
    pub graph: bool,
}

/// What a consumer of the fixture should observe.
#[derive(Debug)]
pub struct ExpectDef {
    pub check_contains: Vec<String>,
    pub check_not_contains: Vec<String>,
    pub output_order: Vec<String>,
    pub packages_released: Option<usize>,
}

/// The `.expect.toml` record: the fixture's description and its expectations.
#[derive(Debug)]
pub struct SerializableExpect {
    pub description: String,
    pub check_contains: Vec<String>,
    pub check_not_contains: Vec<String>,
    pub output_order: Vec<String>,
    pub packages_released: Option<usize>,
}

/// Model of a `FixtureDef`.
pub struct FixtureModel {
    pub meta: MetaModel,
    pub config: Option<ConfigModel>,
    pub packages: Seq<PackageModel>,
    pub commits: Seq<CommitModel>,
    pub tags: Seq<TagModel>,
    pub branches: Seq<BranchModel>,
    pub hooks: Seq<HookFileModel>,
    pub generate: Option<GenerateDef>,
    pub expect: Option<ExpectModel>,
}

/// Model of a `Meta`.
pub struct MetaModel {
    pub name: Seq<char>,
    pub description: Seq<char>,
    pub default_branch: Option<Seq<char>>,
}

/// Model of a `ConfigDef`.
pub struct ConfigModel {
    pub content: Seq<char>,
    pub format: Seq<char>,
    pub filename: Option<Seq<char>>,
}

/// Model of a `PackageDef`.
pub struct PackageModel {
    pub name: Seq<char>,
    pub path: Seq<char>,
    pub initial_version: Seq<char>,
    pub tag: Option<Seq<char>>,
}

/// Model of a `CommitDef`.
pub struct CommitModel {
    pub message: Seq<char>,
    pub files: Seq<Seq<char>>,
    pub merge: bool,
}

/// Model of a `TagDef`.
pub struct TagModel {
    pub name: Seq<char>,
    pub at_commit: i32,
}

/// Model of a `BranchDef`.
pub struct BranchModel {
    pub name: Seq<char>,
    pub from: Option<Seq<char>>,
    pub at_commit: Option<i32>,
    pub commits: Seq<CommitModel>,
    pub merge: Option<Seq<char>>,
}

/// Model of a `HookFileDef`.
pub struct HookFileModel {
    pub path: Seq<char>,
    pub content: Seq<char>,
}

/// Model of an `ExpectDef`.
pub struct ExpectModel {
    pub check_contains: Seq<Seq<char>>,
    pub check_not_contains: Seq<Seq<char>>,
    pub output_order: Seq<Seq<char>>,
    pub packages_released: Option<usize>,
}

/// Model of a `SerializableExpect`.
pub struct SerializableExpectModel {
    pub description: Seq<char>,
    pub check_contains: Seq<Seq<char>>,
    pub check_not_contains: Seq<Seq<char>>,
    pub output_order: Seq<Seq<char>>,
    pub packages_released: Option<usize>,
}

impl DeepView for FixtureDef {
    type V = FixtureModel;

    open spec fn deep_view(&self) -> FixtureModel {
        FixtureModel {
            meta: self.meta.deep_view(),
            config: self.config.deep_view(),
            packages: self.packages.deep_view(),
            commits: self.commits.deep_view(),
            tags: self.tags.deep_view(),
            branches: self.branches.deep_view(),
            hooks: self.hooks.deep_view(),
            generate: self.generate,
            expect: self.expect.deep_view(),
        }
    }
}

impl DeepView for Meta {
    type V = MetaModel;

    open spec fn deep_view(&self) -> MetaModel {
        MetaModel {
            name: self.name@,
            description: self.description@,
            default_branch: self.default_branch.deep_view(),
        }
    }
}

impl DeepView for ConfigDef {
    type V = ConfigModel;

    open spec fn deep_view(&self) -> ConfigModel {
        ConfigModel {
            content: self.content@,
            format: self.format@,
            filename: self.filename.deep_view(),
        }
    }
}

impl DeepView for PackageDef {
    type V = PackageModel;

    open spec fn deep_view(&self) -> PackageModel {
        PackageModel {
            name: self.name@,
            path: self.path@,
            initial_version: self.initial_version@,
            tag: self.tag.deep_view(),
        }
    }
}

impl DeepView for CommitDef {
    type V = CommitModel;

    open spec fn deep_view(&self) -> CommitModel {
        CommitModel { message: self.message@, files: self.files.deep_view(), merge: self.merge }
    }
}

impl DeepView for TagDef {
    type V = TagModel;

    open spec fn deep_view(&self) -> TagModel {
        TagModel { name: self.name@, at_commit: self.at_commit }
    }
}

impl DeepView for BranchDef {
    type V = BranchModel;

    open spec fn deep_view(&self) -> BranchModel {
        BranchModel {
            name: self.name@,
            from: self.from.deep_view(),
            at_commit: self.at_commit,
            commits: self.commits.deep_view(),
            merge: self.merge.deep_view(),
        }
    }
}

impl DeepView for HookFileDef {
    type V = HookFileModel;

    open spec fn deep_view(&self) -> HookFileModel {
        HookFileModel { path: self.path@, content: self.content@ }
    }
}

impl DeepView for ExpectDef {
    type V = ExpectModel;

    open spec fn deep_view(&self) -> ExpectModel {
        ExpectModel {
            check_contains: self.check_contains.deep_view(),
            check_not_contains: self.check_not_contains.deep_view(),
            output_order: self.output_order.deep_view(),
            packages_released: self.packages_released,
        }
    }
}

impl DeepView for SerializableExpect {
    type V = SerializableExpectModel;

    open spec fn deep_view(&self) -> SerializableExpectModel {
        SerializableExpectModel {
            description: self.description@,
            check_contains: self.check_contains.deep_view(),
            check_not_contains: self.check_not_contains.deep_view(),
            output_order: self.output_order.deep_view(),
            packages_released: self.packages_released,
        }
    }
}

/// The config format assumed when a definition names none.
pub fn default_config_format() -> (f: String)
    ensures
        f@ == "json"@,
{
    String::from_str("json")
}

/// The package count of bulk generation when a definition names none.
pub fn default_gen_packages() -> (n: usize)
    ensures
        n == 1,
{
    1
}

/// The commit count of bulk generation when a definition names none.
pub fn default_gen_commits() -> (n: usize)
    ensures
        n == 100,
{
    100
}

/// The generator seed of bulk generation when a definition names none.
pub fn default_gen_seed() -> (n: u64)
    ensures
        n == 42,
{
    42
}

/// The config file name: the explicit one, else one derived from the format
/// (`toml` gives `.ferrflow.toml`, `json5` gives `ferrflow.json5`, any other
/// format `ferrflow.json`).
pub open spec fn config_filename(c: ConfigModel) -> Seq<char> {
    match c.filename {
        Some(f) => f,
        None => if c.format == "toml"@ {
            ".ferrflow.toml"@
        } else if c.format == "json5"@ {
            "ferrflow.json5"@
        } else {
            "ferrflow.json"@
        },
    }
}

/// The name of the config file that `config` is written to.
pub fn resolve_config_filename(config: &ConfigDef) -> (f: String)
    ensures
        f@ == config_filename(config.deep_view()),
{
    match &config.filename {
        Some(f) => f.clone(),
        None => {
            if same_text(config.format.as_str(), "toml") {
                String::from_str(".ferrflow.toml")
            } else if same_text(config.format.as_str(), "json5") {
                String::from_str("ferrflow.json5")
            } else {
                String::from_str("ferrflow.json")
            }
        },
    }
}

/// A copy of a list of strings.
pub fn clone_texts(v: &Vec<String>) -> (r: Vec<String>)
    ensures
        r.deep_view() == v.deep_view(),
{
    let mut r: Vec<String> = Vec::new();
    let mut i: usize = 0;
    while i < v.len()
        invariant
            i <= v.len(),
            r@.len() == i,
            r.deep_view() =~= v.deep_view().take(i as int),
        decreases v.len() - i,
    {
        let s = v[i].clone();
        let ghost before = r@;
        r.push(s);
        assert(s@ == v@[i as int]@);
        assert forall|k: int| 0 <= k < r@.len() implies r.deep_view()[k] == v.deep_view().take(
            i + 1,
        )[k] by {
            if k < i {
                assert(r@[k] == before[k]);
            }
        }
        assert(r.deep_view() =~= v.deep_view().take(i + 1));
        i = i + 1;
    }
    assert(v.deep_view().take(v.len() as int) =~= v.deep_view());
    r
}

/// The expectation record of a definition: its description, and the lists and
/// count of its `expect` section, empty or absent where there is none.
pub open spec fn spec_serializable_expect(d: FixtureModel) -> SerializableExpectModel {
    match d.expect {
        Some(e) => SerializableExpectModel {
            description: d.meta.description,
            check_contains: e.check_contains,
            check_not_contains: e.check_not_contains,
            output_order: e.output_order,
            packages_released: e.packages_released,
        },
        None => SerializableExpectModel {
            description: d.meta.description,
            check_contains: Seq::empty(),
            check_not_contains: Seq::empty(),
            output_order: Seq::empty(),
            packages_released: None,
        },
    }
}

impl SerializableExpect {
    /// The expectation record written to `.expect.toml` for `def`.
    pub fn from_def(def: &FixtureDef) -> (r: SerializableExpect)
        ensures
            r.deep_view() == spec_serializable_expect(def.deep_view()),
    {
        match &def.expect {
            Some(e) => SerializableExpect {
                description: def.meta.description.clone(),
                check_contains: clone_texts(&e.check_contains),
                check_not_contains: clone_texts(&e.check_not_contains),
                output_order: clone_texts(&e.output_order),
                packages_released: e.packages_released,
            },
            None => {
                let r = SerializableExpect {
                    description: def.meta.description.clone(),
                    check_contains: Vec::new(),
                    check_not_contains: Vec::new(),
                    output_order: Vec::new(),
                    packages_released: None,
                };
                assert(r.check_contains.deep_view() =~= Seq::<Seq<char>>::empty());
                assert(r.check_not_contains.deep_view() =~= Seq::<Seq<char>>::empty());
                assert(r.output_order.deep_view() =~= Seq::<Seq<char>>::empty());
                r
            },
        }
    }
}

} // verus!
