//! Checking a fixture definition: the errors that make it unusable and the
//! warnings worth reporting.
use vstd::prelude::*;

use crate::text::{
    decimal, i64_to_decimal, push_deep, push_text, same_text, signed_decimal, sort_texts,
    sorted_texts, texts, u64_to_decimal,
};
use crate::types::{BranchModel, FixtureDef, FixtureModel, PackageModel, TagModel};

verus! {

/// The listed commits counted as the `i32` that commit indices are.
pub open spec fn commit_count(d: FixtureModel) -> i32 {
    d.commits.len() as i32
}

/// A commit index outside `-1` (the setup commit) and `0..count`.
pub open spec fn out_of_range(at: i32, count: i32) -> bool {
    at != -1 && (at < 0 || at >= count)
}

/// `<kind> '<name>': at_commit <at> is out of range (valid: -1..<count - 1>)`.
pub open spec fn range_message(kind: Seq<char>, name: Seq<char>, at: i32, count: i32) -> Seq<char> {
    kind + " '"@ + name + "': at_commit "@ + signed_decimal(at as int)
        + " is out of range (valid: -1.."@ + signed_decimal(count - 1) + ")"@
}

/// Errors about the name and description of a fixture.
pub open spec fn meta_errors(d: FixtureModel) -> Seq<Seq<char>> {
    (if d.meta.name.len() == 0 {
        seq!["meta.name is empty"@]
    } else {
        Seq::empty()
    }) + (if d.meta.description.len() == 0 {
        seq!["meta.description is empty"@]
    } else {
        Seq::empty()
    })
}

/// The error of a tag whose commit index is out of range.
pub open spec fn tag_error(count: i32) -> spec_fn(TagModel) -> Seq<Seq<char>> {
    |t: TagModel|
        if out_of_range(t.at_commit, count) {
            seq![range_message("tag"@, t.name, t.at_commit, count)]
        } else {
            Seq::empty()
        }
}

/// The tag a package puts on the setup commit, if any.
pub open spec fn package_tag() -> spec_fn(PackageModel) -> Seq<Seq<char>> {
    |p: PackageModel|
        match p.tag {
            Some(t) => seq![t],
            None => Seq::empty(),
        }
}

/// The name of a tag.
pub open spec fn tag_name() -> spec_fn(TagModel) -> Seq<char> {
    |t: TagModel| t.name
}

/// Every tag name of a fixture: the listed tags, then the package tags.
pub open spec fn all_tag_names(d: FixtureModel) -> Seq<Seq<char>> {
    d.tags.map_values(tag_name()) + d.packages.flat_map(package_tag())
}

/// One error per adjacent equal pair among the first `k + 1` of sorted `s`.
pub open spec fn duplicate_errors_upto(s: Seq<Seq<char>>, k: nat) -> Seq<Seq<char>>
    decreases k,
{
    if k == 0 {
        Seq::empty()
    } else {
        duplicate_errors_upto(s, (k - 1) as nat) + (if s[k - 1] == s[k as int] {
            seq!["duplicate tag name: '"@ + s[k - 1] + "'"@]
        } else {
            Seq::empty()
        })
    }
}

/// One error per adjacent equal pair of sorted `s`: a name that occurs `n`
/// times is reported `n - 1` times, in ascending order of names.
pub open spec fn duplicate_errors(s: Seq<Seq<char>>) -> Seq<Seq<char>> {
    if s.len() == 0 {
        Seq::empty()
    } else {
        duplicate_errors_upto(s, (s.len() - 1) as nat)
    }
}

/// The branch that unnamed sources and targets refer to.
pub open spec fn default_branch_name(d: FixtureModel) -> Seq<char> {
    match d.meta.default_branch {
        Some(b) => b,
        None => "main"@,
    }
}

/// A name that is neither the default branch nor a listed branch.
pub open spec fn unknown_branch(d: FixtureModel, name: Seq<char>) -> bool {
    name != default_branch_name(d) && !d.branches.map_values(|b: BranchModel| b.name).contains(name)
}

/// The errors of one branch: its commit index, its source, its merge target.
pub open spec fn branch_error(d: FixtureModel) -> spec_fn(BranchModel) -> Seq<Seq<char>> {
    |b: BranchModel|
        (match b.at_commit {
            Some(at) => if out_of_range(at, commit_count(d)) {
                seq![range_message("branch"@, b.name, at, commit_count(d))]
            } else {
                Seq::empty()
            },
            None => Seq::empty(),
        }) + (match b.from {
            Some(f) => if unknown_branch(d, f) {
                seq![
                    "branch '"@ + b.name + "': from '"@ + f
                        + "' does not reference a known branch"@,
                ]
            } else {
                Seq::empty()
            },
            None => Seq::empty(),
        }) + (match b.merge {
            Some(m) => if unknown_branch(d, m) {
                seq![
                    "branch '"@ + b.name + "': merge target '"@ + m
                        + "' does not reference a known branch"@,
                ]
            } else {
                Seq::empty()
            },
            None => Seq::empty(),
        })
}

/// Everything that makes a definition unusable, in the order reported.
pub open spec fn definition_errors(d: FixtureModel) -> Seq<Seq<char>> {
    meta_errors(d) + d.tags.flat_map(tag_error(commit_count(d))) + duplicate_errors(
        sorted_texts(all_tag_names(d)),
    ) + d.branches.flat_map(branch_error(d))
}

/// What is worth reporting about a usable definition.
pub open spec fn definition_warnings(d: FixtureModel) -> Seq<Seq<char>> {
    (if d.expect is None {
        seq!["no 'expect' section — consumers won't have assertions to validate"@]
    } else {
        Seq::empty()
    }) + (if d.generate is Some && d.commits.len() > 0 {
        seq!["both 'generate' and 'commits' are set — 'commits' will be ignored in bulk mode"@]
    } else {
        Seq::empty()
    })
}

/// `<kind> '<name>': at_commit <at> is out of range (valid: -1..<count - 1>)`.
fn range_message_text(kind: &str, name: &str, at: i32, count: i32) -> (m: String)
    requires
        count > i32::MIN,
    ensures
        m@ == range_message(kind@, name@, at, count),
{
    let mut m = String::from_str(kind);
    m.append(" '");
    m.append(name);
    m.append("': at_commit ");
    m.append(i64_to_decimal(at as i64).as_str());
    m.append(" is out of range (valid: -1..");
    m.append(i64_to_decimal((count - 1) as i64).as_str());
    m.append(")");
    m
}

/// Whether a listed branch is called `name`.
fn has_branch(def: &FixtureDef, name: &str) -> (r: bool)
    ensures
        r == def.deep_view().branches.map_values(|b: BranchModel| b.name).contains(name@),
{
    let ghost names = def.deep_view().branches.map_values(|b: BranchModel| b.name);
    let mut i: usize = 0;
    while i < def.branches.len()
        invariant
            i <= def.branches@.len(),
            names == def.deep_view().branches.map_values(|b: BranchModel| b.name),
            forall|k: int| 0 <= k < i ==> names[k] != name@,
        decreases def.branches.len() - i,
    {
        assert(names[i as int] == def.branches@[i as int].name@);
        if same_text(def.branches[i].name.as_str(), name) {
            return true;
        }
        i = i + 1;
    }
    false
}

/// Checks a definition: `Ok` with its warnings when nothing makes it unusable,
/// else `Err` with every error, in the order of `definition_errors`.
pub fn check_definition(def: &FixtureDef) -> (r: Result<Vec<String>, Vec<String>>)
    requires
        commit_count(def.deep_view()) > i32::MIN,
    ensures
        definition_errors(def.deep_view()).len() == 0 <==> r is Ok,
        r matches Ok(w) ==> w.deep_view() == definition_warnings(def.deep_view()),
        r matches Err(e) ==> e.deep_view() == definition_errors(def.deep_view()),
{
    let ghost d = def.deep_view();
    let mut errors: Vec<String> = Vec::new();
    let mut warnings: Vec<String> = Vec::new();
    if def.meta.name.as_str().unicode_len() == 0 {
        push_text(&mut errors, String::from_str("meta.name is empty"));
    }
    if def.meta.description.as_str().unicode_len() == 0 {
        push_text(&mut errors, String::from_str("meta.description is empty"));
    }
    assert(errors.deep_view() =~= meta_errors(d));
    let count: i32 = def.commits.len() as i32;
    let ghost head = errors.deep_view();
    assert(d.tags.take(0).flat_map(tag_error(count)) =~= Seq::<Seq<char>>::empty());
    let mut i: usize = 0;
    while i < def.tags.len()
        invariant
            d == def.deep_view(),
            count == commit_count(d),
            count > i32::MIN,
            i <= def.tags@.len(),
            errors.deep_view() == head + d.tags.take(i as int).flat_map(tag_error(count)),
        decreases def.tags.len() - i,
    {
        proof {
            d.tags.lemma_flat_map_take_append(tag_error(count), i as int);
        }
        let at = def.tags[i].at_commit;
        if at != -1 && (at < 0 || at >= count) {
            let m = range_message_text("tag", def.tags[i].name.as_str(), at, count);
            push_text(&mut errors, m);
        }
        assert(errors.deep_view() =~= head + d.tags.take(i + 1).flat_map(tag_error(count)));
        i = i + 1;
    }
    assert(d.tags.take(d.tags.len() as int) =~= d.tags);
    // Every tag name, then duplicates among them in ascending order.
    let mut names: Vec<String> = Vec::new();
    let mut i: usize = 0;
    while i < def.tags.len()
        invariant
            d == def.deep_view(),
            i <= def.tags@.len(),
            names.deep_view() == d.tags.take(i as int).map_values(tag_name()),
        decreases def.tags.len() - i,
    {
        push_text(&mut names, def.tags[i].name.clone());
        assert(names.deep_view() =~= d.tags.take(i + 1).map_values(tag_name()));
        i = i + 1;
    }
    assert(d.tags.take(d.tags.len() as int) =~= d.tags);
    let ghost tag_names = names.deep_view();
    assert(d.packages.take(0).flat_map(package_tag()) =~= Seq::<Seq<char>>::empty());
    let mut i: usize = 0;
    while i < def.packages.len()
        invariant
            d == def.deep_view(),
            i <= def.packages@.len(),
            names.deep_view() == tag_names + d.packages.take(i as int).flat_map(package_tag()),
        decreases def.packages.len() - i,
    {
        proof {
            d.packages.lemma_flat_map_take_append(package_tag(), i as int);
        }
        match &def.packages[i].tag {
            Some(t) => push_text(&mut names, t.clone()),
            None => {},
        }
        assert(names.deep_view() =~= tag_names + d.packages.take(i + 1).flat_map(package_tag()));
        i = i + 1;
    }
    assert(d.packages.take(d.packages.len() as int) =~= d.packages);
    assert(names.deep_view() == all_tag_names(d));
    let sorted = sort_texts(&names);
    let ghost s = texts(sorted@);
    assert(texts(names@) =~= names.deep_view());
    let ghost head = errors.deep_view();
    if sorted.len() > 0 {
        let mut k: usize = 1;
        while k < sorted.len()
            invariant
                1 <= k <= sorted@.len(),
                s == texts(sorted@),
                errors.deep_view() == head + duplicate_errors_upto(s, (k - 1) as nat),
            decreases sorted.len() - k,
        {
            if same_text(sorted[k - 1].as_str(), sorted[k].as_str()) {
                let mut m = String::from_str("duplicate tag name: '");
                m.append(sorted[k - 1].as_str());
                m.append("'");
                push_text(&mut errors, m);
            }
            assert(errors.deep_view() =~= head + duplicate_errors_upto(s, k as nat));
            k = k + 1;
        }
    } else {
        assert(errors.deep_view() =~= head + duplicate_errors(s));
    }
    // Branch sources, targets and commit indices.
    let default_branch: &str = match &def.meta.default_branch {
        Some(b) => b.as_str(),
        None => "main",
    };
    let ghost head = errors.deep_view();
    assert(d.branches.take(0).flat_map(branch_error(d)) =~= Seq::<Seq<char>>::empty());
    let mut i: usize = 0;
    while i < def.branches.len()
        invariant
            d == def.deep_view(),
            count == commit_count(d),
            count > i32::MIN,
            default_branch@ == default_branch_name(d),
            i <= def.branches@.len(),
            errors.deep_view() == head + d.branches.take(i as int).flat_map(branch_error(d)),
        decreases def.branches.len() - i,
    {
        proof {
            d.branches.lemma_flat_map_take_append(branch_error(d), i as int);
        }
        let ghost before = errors.deep_view();
        let branch = &def.branches[i];
        match branch.at_commit {
            Some(at) => {
                if at != -1 && (at < 0 || at >= count) {
                    let m = range_message_text("branch", branch.name.as_str(), at, count);
                    push_text(&mut errors, m);
                }
            },
            None => {},
        }
        match &branch.from {
            Some(f) => {
                if !same_text(f.as_str(), default_branch) && !has_branch(def, f.as_str()) {
                    let mut m = String::from_str("branch '");
                    m.append(branch.name.as_str());
                    m.append("': from '");
                    m.append(f.as_str());
                    m.append("' does not reference a known branch");
                    push_text(&mut errors, m);
                }
            },
            None => {},
        }
        match &branch.merge {
            Some(t) => {
                if !same_text(t.as_str(), default_branch) && !has_branch(def, t.as_str()) {
                    let mut m = String::from_str("branch '");
                    m.append(branch.name.as_str());
                    m.append("': merge target '");
                    m.append(t.as_str());
                    m.append("' does not reference a known branch");
                    push_text(&mut errors, m);
                }
            },
            None => {},
        }
        assert(errors.deep_view() =~= before + branch_error(d)(d.branches[i as int]));
        i = i + 1;
    }
    assert(d.branches.take(d.branches.len() as int) =~= d.branches);
    assert(errors.deep_view() =~= definition_errors(d));
    if def.expect.is_none() {
        push_text(
            &mut warnings,
            String::from_str("no 'expect' section — consumers won't have assertions to validate"),
        );
    }
    if def.generate.is_some() && def.commits.len() > 0 {
        push_text(
            &mut warnings,
            String::from_str(
                "both 'generate' and 'commits' are set — 'commits' will be ignored in bulk mode",
            ),
        );
    }
    assert(warnings.deep_view() =~= definition_warnings(d));
    if errors.len() == 0 {
        Ok(warnings)
    } else {
        Err(errors)
    }
}

/// The check of one definition file: its name and what `check_definition`
/// (or reading it) gave.
#[derive(Debug)]
pub struct DefinitionOutcome {
    pub name: String,
    pub outcome: Result<Vec<String>, Vec<String>>,
}

/// A line of the validation report, for standard output or standard error.
#[derive(Debug)]
pub struct ReportLine {
    pub to_stderr: bool,
    pub text: String,
}

/// The lines of a validation report and whether every definition was valid.
#[derive(Debug)]
pub struct ValidationReport {
    pub lines: Vec<ReportLine>,
    pub all_valid: bool,
}

/// Model of a `DefinitionOutcome`.
pub struct OutcomeModel {
    pub name: Seq<char>,
    pub outcome: Result<Seq<Seq<char>>, Seq<Seq<char>>>,
}

impl DeepView for DefinitionOutcome {
    type V = OutcomeModel;

    open spec fn deep_view(&self) -> OutcomeModel {
        OutcomeModel {
            name: self.name@,
            outcome: match &self.outcome {
                Ok(w) => Ok(w.deep_view()),
                Err(e) => Err(e.deep_view()),
            },
        }
    }
}

impl DeepView for ReportLine {
    type V = (bool, Seq<char>);

    open spec fn deep_view(&self) -> (bool, Seq<char>) {
        (self.to_stderr, self.text@)
    }
}

/// The report lines of one definition: `  ok  <name>` when valid without
/// warnings, `  WARN <name>: <warning>` per warning, `  ERR <name>: <error>`
/// (to standard error) per error.
pub open spec fn outcome_lines() -> spec_fn(OutcomeModel) -> Seq<(bool, Seq<char>)> {
    |o: OutcomeModel|
        match o.outcome {
            Ok(w) => if w.len() == 0 {
                seq![(false, "  ok  "@ + o.name)]
            } else {
                w.map_values(|x: Seq<char>| (false, "  WARN "@ + o.name + ": "@ + x))
            },
            Err(e) => e.map_values(|x: Seq<char>| (true, "  ERR "@ + o.name + ": "@ + x)),
        }
}

/// How many outcomes are valid.
pub open spec fn valid_count(os: Seq<OutcomeModel>) -> nat
    decreases os.len(),
{
    if os.len() == 0 {
        0
    } else {
        valid_count(os.drop_last()) + if os.last().outcome is Ok {
            1nat
        } else {
            0nat
        }
    }
}

/// The full report: each definition's lines in order, then a blank line and
/// `<valid>/<total> definitions valid`.
pub open spec fn spec_report(os: Seq<OutcomeModel>) -> Seq<(bool, Seq<char>)> {
    os.flat_map(outcome_lines()) + seq![
        (false, "\n"@ + decimal(valid_count(os)) + "/"@ + decimal(os.len()) + " definitions valid"@),
    ]
}

/// Appends one line per message, each `<prefix><message>`.
fn push_prefixed(lines: &mut Vec<ReportLine>, to_stderr: bool, prefix: &String, msgs: &Vec<String>)
    ensures
        final(lines).deep_view() == old(lines).deep_view() + msgs.deep_view().map_values(
            |x: Seq<char>| (to_stderr, prefix@ + x),
        ),
{
    let ghost start = lines.deep_view();
    let mut i: usize = 0;
    while i < msgs.len()
        invariant
            i <= msgs@.len(),
            lines.deep_view() == start + msgs.deep_view().take(i as int).map_values(
                |x: Seq<char>| (to_stderr, prefix@ + x),
            ),
        decreases msgs.len() - i,
    {
        let text = prefix.clone().concat(msgs[i].as_str());
        push_deep(lines, ReportLine { to_stderr, text });
        assert(msgs.deep_view().take(i + 1) =~= msgs.deep_view().take(i as int).push(
            msgs.deep_view()[i as int],
        ));
        assert(lines.deep_view() =~= start + msgs.deep_view().take(i + 1).map_values(
            |x: Seq<char>| (to_stderr, prefix@ + x),
        ));
        i = i + 1;
    }
    assert(msgs.deep_view().take(msgs@.len() as int) =~= msgs.deep_view());
}

/// The report of checking a directory of definitions, in the given order, and
/// whether all of them are valid.
pub fn validation_report(outcomes: &Vec<DefinitionOutcome>) -> (r: ValidationReport)
    ensures
        r.lines.deep_view() == spec_report(outcomes.deep_view()),
        r.all_valid == (valid_count(outcomes.deep_view()) == outcomes@.len()),
{
    let ghost os = outcomes.deep_view();
    let mut lines: Vec<ReportLine> = Vec::new();
    let mut valid: usize = 0;
    let mut i: usize = 0;
    assert(os.take(0).flat_map(outcome_lines()) =~= Seq::<(bool, Seq<char>)>::empty());
    while i < outcomes.len()
        invariant
            i <= outcomes@.len(),
            os == outcomes.deep_view(),
            valid <= i,
            valid == valid_count(os.take(i as int)),
            lines.deep_view() == os.take(i as int).flat_map(outcome_lines()),
        decreases outcomes.len() - i,
    {
        proof {
            os.lemma_flat_map_take_append(outcome_lines(), i as int);
            assert(os.take(i + 1).drop_last() =~= os.take(i as int));
        }
        let o = &outcomes[i];
        match &o.outcome {
            Ok(w) => {
                if w.len() == 0 {
                    let text = String::from_str("  ok  ").concat(o.name.as_str());
                    push_deep(&mut lines, ReportLine { to_stderr: false, text });
                } else {
                    let prefix = String::from_str("  WARN ").concat(o.name.as_str()).concat(": ");
                    push_prefixed(&mut lines, false, &prefix, w);
                }
                valid = valid + 1;
            },
            Err(e) => {
                let prefix = String::from_str("  ERR ").concat(o.name.as_str()).concat(": ");
                push_prefixed(&mut lines, true, &prefix, e);
            },
        }
        assert(lines.deep_view() =~= os.take(i + 1).flat_map(outcome_lines()));
        i = i + 1;
    }
    assert(os.take(os.len() as int) =~= os);
    let mut summary = String::from_str("\n").concat(u64_to_decimal(valid as u64).as_str());
    summary.append("/");
    summary.append(u64_to_decimal(outcomes.len() as u64).as_str());
    summary.append(" definitions valid");
    push_deep(&mut lines, ReportLine { to_stderr: false, text: summary });
    ValidationReport { lines, all_valid: valid == outcomes.len() }
}

/// A directory entry named `name` is a definition file: its extension, the
/// part after a last dot that does not start the name, is `json`.
pub open spec fn is_definition_file(name: Seq<char>) -> bool {
    name.len() > 5 && name.skip(name.len() - 5) == ".json"@
}

/// The definition files among the entry names of a directory, in ascending
/// order of names, as they are checked and generated.
pub open spec fn spec_definition_files(names: Seq<Seq<char>>) -> Seq<Seq<char>> {
    sorted_texts(names.filter(|n: Seq<char>| is_definition_file(n)))
}

/// Whether `name` is a definition file.
fn definition_name(name: &str) -> (r: bool)
    ensures
        r == is_definition_file(name@),
{
    let n = name.unicode_len();
    if n <= 5 {
        return false;
    }
    let suffix = ".json";
    proof {
        reveal_strlit(".json");
    }
    let mut k: usize = 0;
    while k < 5
        invariant
            n == name@.len(),
            n > 5,
            k <= 5,
            suffix@ == ".json"@,
            suffix@.len() == 5,
            forall|j: int| 0 <= j < k ==> name@[n - 5 + j] == suffix@[j],
        decreases 5 - k,
    {
        if name.get_char(n - 5 + k) != suffix.get_char(k) {
            assert(name@.skip(n - 5)[k as int] != ".json"@[k as int]);
            return false;
        }
        k = k + 1;
    }
    assert(name@.skip(n - 5) =~= ".json"@);
    true
}

/// The definition files among the entry names of a directory, sorted.
pub fn definition_files(names: &Vec<String>) -> (r: Vec<String>)
    ensures
        texts(r@) == spec_definition_files(texts(names@)),
{
    let ghost pred = |n: Seq<char>| is_definition_file(n);
    let mut chosen: Vec<String> = Vec::new();
    let mut i: usize = 0;
    assert(texts(names@).take(0) =~= Seq::<Seq<char>>::empty());
    assert(texts(chosen@) =~= Seq::<Seq<char>>::empty().filter(pred));
    while i < names.len()
        invariant
            i <= names@.len(),
            pred == (|n: Seq<char>| is_definition_file(n)),
            texts(chosen@) == texts(names@).take(i as int).filter(pred),
        decreases names.len() - i,
    {
        let ghost before = texts(chosen@);
        proof {
            assert(texts(names@).take(i + 1) =~= texts(names@).take(i as int).push(names@[i as int]@));
            texts(names@).take(i as int).lemma_filter_push(names@[i as int]@, pred);
        }
        if definition_name(names[i].as_str()) {
            chosen.push(names[i].clone());
            assert(texts(chosen@) =~= before.push(names@[i as int]@));
        } else {
            assert(texts(chosen@) =~= before);
        }
        i = i + 1;
    }
    assert(texts(names@).take(names@.len() as int) =~= texts(names@));
    sort_texts(&chosen)
}


/// A text whose first character is `c`.
spec fn starts_with_char(x: Seq<char>, c: char) -> bool {
    x.len() > 0 && x[0] == c
}

/// Every member of a flattened list comes from one of the lists flattened.
proof fn lemma_flat_map_member<A>(s: Seq<A>, f: spec_fn(A) -> Seq<Seq<char>>, y: Seq<char>)
    requires
        s.flat_map(f).contains(y),
    ensures
        exists|i: int| 0 <= i < s.len() && #[trigger] f(s[i]).contains(y),
    decreases s.len(),
{
    if s.len() == 0 {
        assert(s.flat_map(f) =~= Seq::<Seq<char>>::empty()) by {
            assert(s.map_values(f) =~= Seq::<Seq<Seq<char>>>::empty());
        }
    } else {
        let n = s.len() - 1;
        s.lemma_flat_map_take_append(f, n);
        assert(s.take(n + 1) =~= s);
        let a = s.take(n).flat_map(f);
        let b = f(s[n]);
        let k = choose|k: int| 0 <= k < (a + b).len() && (a + b)[k] == y;
        if k < a.len() {
            assert(a[k] == y);
            lemma_flat_map_member(s.take(n), f, y);
            let i = choose|i: int| 0 <= i < s.take(n).len() && #[trigger] f(s.take(n)[i]).contains(y);
            assert(s.take(n)[i] == s[i]);
        } else {
            assert(b[k - a.len()] == y);
            assert(f(s[n]).contains(y));
        }
    }
}

/// Every duplicate-name error starts with `d`.
proof fn lemma_duplicate_errors_start(s: Seq<Seq<char>>, k: nat, y: Seq<char>)
    requires
        duplicate_errors_upto(s, k).contains(y),
    ensures
        starts_with_char(y, 'd'),
    decreases k,
{
    reveal_strlit("duplicate tag name: '");
    if k > 0 {
        let a = duplicate_errors_upto(s, (k - 1) as nat);
        let b = if s[k - 1] == s[k as int] {
            seq!["duplicate tag name: '"@ + s[k - 1] + "'"@]
        } else {
            Seq::<Seq<char>>::empty()
        };
        assert(duplicate_errors_upto(s, k) == a + b);
        let j = choose|j: int| 0 <= j < (a + b).len() && (a + b)[j] == y;
        if j < a.len() {
            assert(a[j] == y);
            lemma_duplicate_errors_start(s, (k - 1) as nat, y);
        } else {
            assert(b[j - a.len()] == y);
            assert(("duplicate tag name: '"@ + s[k - 1] + "'"@)[0] == 'd');
        }
    }
}

/// A member of `a + b` is a member of `a` or of `b`.
proof fn lemma_member_of_sum(a: Seq<Seq<char>>, b: Seq<Seq<char>>, y: Seq<char>)
    requires
        (a + b).contains(y),
    ensures
        a.contains(y) || b.contains(y),
{
    let j = choose|j: int| 0 <= j < (a + b).len() && (a + b)[j] == y;
    if j < a.len() {
        assert(a[j] == y);
    } else {
        assert(b[j - a.len()] == y);
    }
}

/// Every error about tags, duplicate names or branches starts with `t`, `d`
/// or `b`, so none is a `meta.` error.
proof fn lemma_other_errors(d: FixtureModel, y: Seq<char>)
    requires
        (d.tags.flat_map(tag_error(commit_count(d))) + duplicate_errors(
            sorted_texts(all_tag_names(d)),
        ) + d.branches.flat_map(branch_error(d))).contains(y),
    ensures
        !starts_with_char(y, 'm'),
{
    reveal_strlit("tag");
    reveal_strlit("branch");
    reveal_strlit("branch '");
    let t = d.tags.flat_map(tag_error(commit_count(d)));
    let u = duplicate_errors(sorted_texts(all_tag_names(d)));
    let b = d.branches.flat_map(branch_error(d));
    lemma_member_of_sum(t + u, b, y);
    if (t + u).contains(y) {
        lemma_member_of_sum(t, u, y);
        if t.contains(y) {
            lemma_flat_map_member(d.tags, tag_error(commit_count(d)), y);
            let i = choose|i: int| 0 <= i < d.tags.len() && #[trigger] tag_error(commit_count(d))(
                d.tags[i],
            ).contains(y);
            let tg = d.tags[i];
            let e = tag_error(commit_count(d))(tg);
            let j = choose|j: int| 0 <= j < e.len() && e[j] == y;
            assert(y == range_message("tag"@, tg.name, tg.at_commit, commit_count(d)));
            assert(y[0] == 't');
        } else {
            let s = sorted_texts(all_tag_names(d));
            if s.len() > 0 {
                lemma_duplicate_errors_start(s, (s.len() - 1) as nat, y);
            } else {
                let j = choose|j: int| 0 <= j < u.len() && u[j] == y;
            }
        }
    } else {
        lemma_flat_map_member(d.branches, branch_error(d), y);
        let i = choose|i: int| 0 <= i < d.branches.len() && #[trigger] branch_error(d)(
            d.branches[i],
        ).contains(y);
        let br = d.branches[i];
        let e1 = match br.at_commit {
            Some(at) => if out_of_range(at, commit_count(d)) {
                seq![range_message("branch"@, br.name, at, commit_count(d))]
            } else {
                Seq::<Seq<char>>::empty()
            },
            None => Seq::<Seq<char>>::empty(),
        };
        let e2 = match br.from {
            Some(f) => if unknown_branch(d, f) {
                seq![
                    "branch '"@ + br.name + "': from '"@ + f
                        + "' does not reference a known branch"@,
                ]
            } else {
                Seq::<Seq<char>>::empty()
            },
            None => Seq::<Seq<char>>::empty(),
        };
        let e3 = match br.merge {
            Some(m) => if unknown_branch(d, m) {
                seq![
                    "branch '"@ + br.name + "': merge target '"@ + m
                        + "' does not reference a known branch"@,
                ]
            } else {
                Seq::<Seq<char>>::empty()
            },
            None => Seq::<Seq<char>>::empty(),
        };
        assert(branch_error(d)(br) == e1 + e2 + e3);
        lemma_member_of_sum(e1 + e2, e3, y);
        if (e1 + e2).contains(y) {
            lemma_member_of_sum(e1, e2, y);
        }
        if e1.contains(y) {
            let j = choose|j: int| 0 <= j < e1.len() && e1[j] == y;
            assert(y[0] == 'b');
        } else if e2.contains(y) {
            let j = choose|j: int| 0 <= j < e2.len() && e2[j] == y;
            assert(y[0] == 'b');
        } else {
            let j = choose|j: int| 0 <= j < e3.len() && e3[j] == y;
            assert(y[0] == 'b');
        }
    }
}

/// A definition is reported with `meta.name is empty` exactly when its name
/// is empty, and with `meta.description is empty` exactly when its
/// description is empty, whatever else it holds.
pub proof fn lemma_meta_errors_reported(d: FixtureModel)
    ensures
        definition_errors(d).contains("meta.name is empty"@) <==> d.meta.name.len() == 0,
        definition_errors(d).contains("meta.description is empty"@) <==> d.meta.description.len()
            == 0,
{
    reveal_strlit("meta.name is empty");
    reveal_strlit("meta.description is empty");
    let name_err = "meta.name is empty"@;
    let desc_err = "meta.description is empty"@;
    assert(name_err[5] != desc_err[5]);
    let m = meta_errors(d);
    let rest = d.tags.flat_map(tag_error(commit_count(d))) + duplicate_errors(
        sorted_texts(all_tag_names(d)),
    ) + d.branches.flat_map(branch_error(d));
    assert(definition_errors(d) =~= m + rest);
    let n1 = if d.meta.name.len() == 0 {
        seq![name_err]
    } else {
        Seq::<Seq<char>>::empty()
    };
    let n2 = if d.meta.description.len() == 0 {
        seq![desc_err]
    } else {
        Seq::<Seq<char>>::empty()
    };
    assert(m == n1 + n2);
    assert forall|y: Seq<char>| y == name_err || y == desc_err implies (m + rest).contains(y)
        <==> (n1 + n2).contains(y) by {
        if (m + rest).contains(y) {
            lemma_member_of_sum(m, rest, y);
            if rest.contains(y) {
                lemma_other_errors(d, y);
                assert(starts_with_char(y, 'm'));
            }
        }
        if m.contains(y) {
            let j = choose|j: int| 0 <= j < m.len() && m[j] == y;
            assert((m + rest)[j] == y);
        }
    }
    if d.meta.name.len() == 0 {
        assert((n1 + n2)[0] == name_err);
    }
    if (n1 + n2).contains(name_err) {
        let j = choose|j: int| 0 <= j < (n1 + n2).len() && (n1 + n2)[j] == name_err;
        if d.meta.name.len() != 0 {
            assert(n2[j] == name_err);
            assert(name_err =~= desc_err);
        }
    }
    if d.meta.description.len() == 0 {
        assert((n1 + n2)[n1.len() as int] == desc_err);
    }
    if (n1 + n2).contains(desc_err) {
        let j = choose|j: int| 0 <= j < (n1 + n2).len() && (n1 + n2)[j] == desc_err;
        if d.meta.description.len() != 0 {
            assert(n1[j] == desc_err);
            assert(name_err =~= desc_err);
        }
    }
}

} // verus!
