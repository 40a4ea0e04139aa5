//! The dependency graph of bulk monorepo fixtures and the tool configuration
//! that wires its packages together.
use vstd::prelude::*;

use crate::rng::{draw, Rng};
use crate::text::{join_with, lemma_join_push, texts};
use std::collections::BTreeSet;
use vstd::std_specs::cmp::OrdSpec;
use vstd::std_specs::iter::IteratorSpec;

verus! {

broadcast use vstd::std_specs::btree::group_btree_axioms;

/// Every element is smaller than the next one.
pub open spec fn strictly_increasing(s: Seq<usize>) -> bool {
    forall|p: int, q: int| 0 <= p < q < s.len() ==> #[trigger] s[p] < #[trigger] s[q]
}

/// The elements of `s` in increasing order.
pub open spec fn sorted_edges(s: Set<usize>) -> Seq<usize> {
    choose|q: Seq<usize>| strictly_increasing(q) && q.to_set() == s
}

/// Two strictly increasing lists with the same elements are equal.
pub proof fn lemma_increasing_unique(a: Seq<usize>, b: Seq<usize>)
    requires
        strictly_increasing(a),
        strictly_increasing(b),
        a.to_set() == b.to_set(),
    ensures
        a == b,
    decreases a.len(),
{
    broadcast use vstd::seq_lib::group_seq_properties;

    if a.len() == 0 {
        if b.len() > 0 {
            assert(b.to_set().contains(b[0]));
        }
        assert(a =~= b);
    } else {
        assert(a.to_set().contains(a[0]));
        assert(b.len() > 0);
        assert(b.to_set().contains(b[0]));
        assert(b.contains(a[0]));
        assert(a.contains(b[0]));
        let i = choose|i: int| 0 <= i < b.len() && b[i] == a[0];
        let j = choose|j: int| 0 <= j < a.len() && a[j] == b[0];
        if i > 0 {
            assert(b[0] < b[i]);
        }
        if j > 0 {
            assert(a[0] < a[j]);
        }
        assert(a[0] == b[0]);
        let a1 = a.drop_first();
        let b1 = b.drop_first();
        assert forall|x: usize| a1.to_set().contains(x) == b1.to_set().contains(x) by {
            if a1.contains(x) {
                let k = choose|k: int| 0 <= k < a1.len() && a1[k] == x;
                assert(a[k + 1] == x);
                assert(a.contains(x));
                assert(b.to_set().contains(x));
                let m = choose|m: int| 0 <= m < b.len() && b[m] == x;
                assert(a[0] < a[k + 1]);
                assert(m != 0);
                assert(b1[m - 1] == x);
            }
            if b1.contains(x) {
                let k = choose|k: int| 0 <= k < b1.len() && b1[k] == x;
                assert(b[k + 1] == x);
                assert(b.contains(x));
                assert(a.to_set().contains(x));
                let m = choose|m: int| 0 <= m < a.len() && a[m] == x;
                assert(b[0] < b[k + 1]);
                assert(m != 0);
                assert(a1[m - 1] == x);
            }
        }
        assert(a1.to_set() =~= b1.to_set());
        lemma_increasing_unique(a1, b1);
        assert(a =~= seq![a[0]] + a1);
        assert(b =~= seq![b[0]] + b1);
    }
}

/// A strictly increasing list is the sorted list of its elements.
pub proof fn lemma_sorted_edges_of(q: Seq<usize>)
    requires
        strictly_increasing(q),
    ensures
        sorted_edges(q.to_set()) == q,
{
    let r = sorted_edges(q.to_set());
    lemma_increasing_unique(q, r);
}

/// The at most three core packages a leaf may depend on.
pub open spec fn max_dependencies(core: nat) -> nat {
    if core < 3 {
        core
    } else {
        3
    }
}

/// Drawing core indices below `core` from state `s` into `chosen` until it
/// holds `n` of them, at most `fuel` draws; the set reached and the state after.
pub open spec fn draw_distinct(s: u64, core: nat, n: nat, chosen: Set<usize>, fuel: nat) -> (
    Set<usize>,
    u64,
)
    decreases fuel,
{
    if chosen.len() >= n || fuel == 0 {
        (chosen, s)
    } else {
        let (c, s1) = draw(s, core);
        draw_distinct(s1, core, n, chosen.insert(c as usize), (fuel - 1) as nat)
    }
}

/// The dependencies of one leaf drawn from state `s`: first how many (one up to
/// `max_dependencies(core)`), then distinct core indices until there are that many.
pub open spec fn leaf_dependencies(s: u64, core: nat) -> (Set<usize>, u64) {
    let (k, s1) = draw(s, max_dependencies(core));
    draw_distinct(s1, core, k + 1, Set::empty(), u64::MAX as nat)
}

/// The dependencies of `count` leaves drawn in turn from state `s`.
pub open spec fn leaf_sets(s: u64, core: nat, count: nat) -> (Seq<Set<usize>>, u64)
    decreases count,
{
    if count == 0 {
        (Seq::empty(), s)
    } else {
        let (prev, s1) = leaf_sets(s, core, (count - 1) as nat);
        let (e, s2) = leaf_dependencies(s1, core);
        (prev.push(e), s2)
    }
}

/// `leaf_sets` draws one set per leaf.
proof fn lemma_leaf_sets_len(s: u64, core: nat, count: nat)
    ensures
        leaf_sets(s, core, count).0.len() == count,
    decreases count,
{
    if count > 0 {
        lemma_leaf_sets_len(s, core, (count - 1) as nat);
    }
}

/// The edges of core package `i`: the previous core package, if any.
pub open spec fn spine_edges(i: int) -> Seq<usize> {
    if i == 0 {
        Seq::empty()
    } else {
        seq![(i - 1) as usize]
    }
}

/// The edges of `pkg_count` packages with `core` core packages, leaves drawn
/// from state `s`: spine edges for the core, sorted drawn sets for the leaves.
pub open spec fn dependency_edges(s: u64, pkg_count: nat, core: nat) -> Seq<Seq<usize>> {
    let leaves = leaf_sets(s, core, if pkg_count > core { (pkg_count - core) as nat } else { 0 }).0;
    Seq::new(
        pkg_count,
        |i: int|
            if i < core {
                spine_edges(i)
            } else {
                sorted_edges(leaves[i - core])
            },
    )
}

/// The state after drawing the leaves of `dependency_edges`.
pub open spec fn dependency_state(s: u64, pkg_count: nat, core: nat) -> u64 {
    if pkg_count > core {
        leaf_sets(s, core, (pkg_count - core) as nat).1
    } else {
        s
    }
}

/// A strictly increasing list has as many elements as its set.
proof fn lemma_increasing_set_len(s: Seq<usize>)
    requires
        strictly_increasing(s),
    ensures
        s.to_set().len() == s.len(),
        s.to_set().finite(),
{
    assert(s.no_duplicates()) by {
        assert forall|i: int, j: int| 0 <= i < s.len() && 0 <= j < s.len() && i != j implies s[i]
            != s[j] by {
            if i < j {
                assert(s[i] < s[j]);
            } else {
                assert(s[j] < s[i]);
            }
        }
    }
    s.unique_seq_to_set();
    vstd::seq_lib::seq_to_set_is_finite(s);
}

/// The keys of a set, listed in increasing order, are listed by value.
proof fn lemma_increasing_keys(keys: Seq<&usize>)
    requires
        vstd::std_specs::btree::increasing_seq(keys),
    ensures
        forall|p: int, q: int| 0 <= p < q < keys.len() ==> *keys[p] < *keys[q],
{
    assert(vstd::laws_cmp::obeys_cmp::<usize>());
    assert(vstd::laws_cmp::obeys_cmp::<&usize>());
    vstd::std_specs::btree::axiom_increasing_seq_meaning::<&usize>(keys);
    assert forall|p: int, q: int| 0 <= p < q < keys.len() implies *keys[p] < *keys[q] by {
        assert(OrdSpec::cmp_spec(&keys[p], &keys[q]) is Less);
        assert(OrdSpec::cmp_spec(keys[p], keys[q]) is Less);
    }
}

/// The dependencies of one leaf, drawn from `rng`.
fn draw_leaf_dependencies(core_count: usize, rng: &mut Rng) -> (edges: Vec<usize>)
    requires
        core_count > 0,
    ensures
        strictly_increasing(edges@),
        (edges@.to_set(), final(rng)@) == leaf_dependencies(old(rng)@, core_count as nat),
        1 <= edges@.len() <= max_dependencies(core_count as nat),
        forall|k: int| 0 <= k < edges@.len() ==> #[trigger] edges@[k] < core_count,
{
    let max_deps: usize = if core_count < 3 {
        core_count
    } else {
        3
    };
    let k = rng.usize(max_deps);
    let n: usize = 1 + k;
    let ghost s1 = rng@;
    let mut chosen: BTreeSet<usize> = BTreeSet::new();
    let mut attempts: u64 = 0;
    while chosen.len() < n && attempts < u64::MAX
        invariant
            core_count > 0,
            n == 1 + k,
            n <= max_dependencies(core_count as nat),
            chosen@.finite(),
            chosen@.len() <= n,
            attempts > 0 ==> chosen@.len() >= 1,
            forall|x: usize| #[trigger] chosen@.contains(x) ==> x < core_count,
            draw_distinct(
                rng@,
                core_count as nat,
                n as nat,
                chosen@,
                (u64::MAX - attempts) as nat,
            ) == draw_distinct(s1, core_count as nat, n as nat, Set::empty(), u64::MAX as nat),
        decreases u64::MAX - attempts,
    {
        let c = rng.usize(core_count);
        let ghost before = chosen@;
        chosen.insert(c);
        proof {
            assert(chosen@ == before.insert(c));
            assert(chosen@.contains(c));
            if !before.contains(c) {
                assert(chosen@.len() == before.len() + 1);
            } else {
                assert(chosen@ =~= before);
            }
        }
        attempts = attempts + 1;
    }
    let mut edges: Vec<usize> = Vec::new();
    let ghost keys = vstd::std_specs::btree::spec_btree_keys_iter(&chosen).remaining();
    for x in it: chosen.iter()
        invariant
            it.seq() == keys,
            edges@.len() == it.index(),
            forall|i: int| 0 <= i < it.index() ==> edges@[i] == *it.seq()[i],
    {
        edges.push(*x);
    }
    proof {
        assert(edges@ =~= keys.unref());
        assert(keys.unref().to_set() == chosen@);
        assert(vstd::std_specs::btree::increasing_seq(keys));
        lemma_increasing_keys(keys);
        assert(strictly_increasing(edges@)) by {
            assert forall|p: int, q: int| 0 <= p < q < edges@.len() implies #[trigger] edges@[p]
                < #[trigger] edges@[q] by {
                assert(keys.unref()[p] == edges@[p]);
                assert(keys.unref()[q] == edges@[q]);
                assert(*keys[p] == edges@[p] && *keys[q] == edges@[q]);
            }
        }
        lemma_increasing_set_len(edges@);
        assert forall|i: int| 0 <= i < edges@.len() implies #[trigger] edges@[i] < core_count by {
            assert(edges@.to_set().contains(edges@[i]));
        }
    }
    edges
}

/// Wires `pkg_count` packages into a graph: the first `core_count` packages
/// form a spine (each depends on the previous one), and every later package
/// (a leaf) depends on one to three core packages drawn from `rng`. Every edge
/// points to an earlier core package, so the graph has no cycle.
pub fn build_dependency_edges(pkg_count: usize, core_count: usize, rng: &mut Rng) -> (deps: Vec<
    Vec<usize>,
>)
    requires
        pkg_count > core_count ==> core_count > 0,
    ensures
        deps@.len() == pkg_count,
        Seq::new(deps@.len(), |i: int| deps@[i]@) == dependency_edges(
            old(rng)@,
            pkg_count as nat,
            core_count as nat,
        ),
        final(rng)@ == dependency_state(old(rng)@, pkg_count as nat, core_count as nat),
        forall|i: int| 0 <= i < pkg_count && i < core_count ==> #[trigger] deps@[i]@ == spine_edges(
            i,
        ),
        forall|i: int|
            core_count <= i < pkg_count ==> strictly_increasing(#[trigger] deps@[i]@) && deps@[i]@.to_set()
                == leaf_sets(old(rng)@, core_count as nat, (pkg_count - core_count) as nat).0[i
                - core_count],
        final(rng)@ == if pkg_count > core_count {
            leaf_sets(old(rng)@, core_count as nat, (pkg_count - core_count) as nat).1
        } else {
            old(rng)@
        },
        forall|i: int, k: int|
            0 <= i < pkg_count && 0 <= k < deps@[i]@.len() ==> #[trigger] deps@[i]@[k] < i
                && deps@[i]@[k] < core_count,
        forall|i: int|
            core_count <= i < pkg_count ==> 1 <= (#[trigger] deps@[i]@).len() <= 3,
{
    let ghost s0 = rng@;
    let mut deps: Vec<Vec<usize>> = Vec::new();
    let mut i: usize = 0;
    while i < pkg_count
        invariant
            pkg_count > core_count ==> core_count > 0,
            i <= pkg_count,
            deps@.len() == i,
            forall|j: int| 0 <= j < i && j < core_count ==> #[trigger] deps@[j]@ == spine_edges(j),
            forall|j: int|
                core_count <= j < i ==> strictly_increasing(#[trigger] deps@[j]@) && deps@[j]@.to_set()
                    == leaf_sets(s0, core_count as nat, (i - core_count) as nat).0[j - core_count],
            rng@ == if i > core_count {
                leaf_sets(s0, core_count as nat, (i - core_count) as nat).1
            } else {
                s0
            },
            forall|j: int, k: int|
                0 <= j < i && 0 <= k < deps@[j]@.len() ==> #[trigger] deps@[j]@[k] < j
                    && deps@[j]@[k] < core_count,
            forall|j: int| core_count <= j < i ==> 1 <= (#[trigger] deps@[j]@).len() <= 3,
        decreases pkg_count - i,
    {
        if i < core_count {
            let mut edges: Vec<usize> = Vec::new();
            if i >= 1 {
                edges.push(i - 1);
            }
            assert(edges@ =~= spine_edges(i as int));
            deps.push(edges);
        } else {
            let ghost before = rng@;
            let edges = draw_leaf_dependencies(core_count, rng);
            proof {
                let count = (i - core_count) as nat;
                assert(before == leaf_sets(s0, core_count as nat, count).1);
                let (prev, s1) = leaf_sets(s0, core_count as nat, count);
                lemma_leaf_sets_len(s0, core_count as nat, count);
                assert(leaf_sets(s0, core_count as nat, count + 1) == (
                    prev.push(leaf_dependencies(s1, core_count as nat).0),
                    leaf_dependencies(s1, core_count as nat).1,
                ));
            }
            deps.push(edges);
        }
        i = i + 1;
    }
    proof {
        let leaves = leaf_sets(
            s0,
            core_count as nat,
            if pkg_count > core_count {
                (pkg_count - core_count) as nat
            } else {
                0
            },
        ).0;
        assert forall|i: int| 0 <= i < pkg_count implies #[trigger] deps@[i]@ == dependency_edges(
            s0,
            pkg_count as nat,
            core_count as nat,
        )[i] by {
            if i >= core_count {
                lemma_sorted_edges_of(deps@[i]@);
            }
        }
        assert(Seq::new(deps@.len(), |i: int| deps@[i]@) =~= dependency_edges(
            s0,
            pkg_count as nat,
            core_count as nat,
        ));
    }
    deps
}

/// The config entry of package `name` with dependency indices `edges`.
pub open spec fn package_entry(name: Seq<char>, edges: Seq<usize>, packages: Seq<Seq<char>>) -> Seq<
    char,
> {
    "{\"name\":\""@ + name + "\",\"path\":\"packages/"@ + name
        + "\",\"versioned_files\":[{\"path\":\"packages/"@ + name
        + "/package.json\",\"format\":\"json\"}]"@ + (if edges.len() == 0 {
        Seq::<char>::empty()
    } else {
        ",\"dependsOn\":["@ + join_with(
            Seq::new(edges.len(), |k: int| "\""@ + packages[edges[k] as int] + "\""@),
            ","@,
        ) + "]"@
    }) + "}"@
}

/// The tool configuration of a bulk monorepo: every package with its manifest,
/// its `dependsOn` edges where it has any, and missed-release recovery on.
pub open spec fn spec_graph_config(packages: Seq<Seq<char>>, deps: Seq<Seq<usize>>) -> Seq<char> {
    let n = if packages.len() < deps.len() {
        packages.len()
    } else {
        deps.len()
    };
    "{\"workspace\":{\"recoverMissedReleases\":true},\"package\":["@ + join_with(
        Seq::new(n, |i: int| package_entry(packages[i], deps[i], packages)),
        ","@,
    ) + "]}"@
}

/// The config entry of package `name` with dependency indices `edges`.
fn package_entry_text(name: &String, edges: &Vec<usize>, packages: &[String]) -> (r: String)
    requires
        forall|k: int| 0 <= k < edges@.len() ==> #[trigger] edges@[k] < packages@.len(),
    ensures
        r@ == package_entry(name@, edges@, texts(packages@)),
{
    let mut entry = String::from_str("{\"name\":\"");
    entry.append(name.as_str());
    entry.append("\",\"path\":\"packages/");
    entry.append(name.as_str());
    entry.append("\",\"versioned_files\":[{\"path\":\"packages/");
    entry.append(name.as_str());
    entry.append("/package.json\",\"format\":\"json\"}]");
    let ghost head = entry@;
    if edges.len() > 0 {
        let ghost items = Seq::new(
            edges@.len(),
            |k: int| "\""@ + texts(packages@)[edges@[k] as int] + "\""@,
        );
        entry.append(",\"dependsOn\":[");
        let ghost start = entry@;
        let mut k: usize = 0;
        while k < edges.len()
            invariant
                k <= edges@.len(),
                forall|j: int| 0 <= j < edges@.len() ==> #[trigger] edges@[j] < packages@.len(),
                items == Seq::new(
                    edges@.len(),
                    |k: int| "\""@ + texts(packages@)[edges@[k] as int] + "\""@,
                ),
                entry@ == start + join_with(items.take(k as int), ","@),
            decreases edges.len() - k,
        {
            proof {
                lemma_join_push(items.take(k as int), items[k as int], ","@);
                assert(items.take(k as int).push(items[k as int]) =~= items.take(k + 1));
            }
            if k > 0 {
                entry.append(",");
            }
            entry.append("\"");
            entry.append(packages[edges[k]].as_str());
            entry.append("\"");
            k = k + 1;
        }
        assert(items.take(edges@.len() as int) =~= items);
        entry.append("]");
    }
    entry.append("}");
    entry
}

/// The tool configuration of a bulk monorepo: every package with its manifest,
/// its `dependsOn` edges where it has any, and missed-release recovery on.
pub fn graph_config(packages: &[String], deps: &[Vec<usize>]) -> (r: String)
    requires
        forall|i: int, k: int|
            0 <= i < deps@.len() && i < packages@.len() && 0 <= k < deps@[i]@.len()
                ==> #[trigger] deps@[i]@[k] < packages@.len(),
    ensures
        r@ == spec_graph_config(texts(packages@), Seq::new(deps@.len(), |i: int| deps@[i]@)),
{
    let n: usize = if packages.len() < deps.len() {
        packages.len()
    } else {
        deps.len()
    };
    let ghost ps = texts(packages@);
    let ghost ds = Seq::new(deps@.len(), |i: int| deps@[i]@);
    let ghost items = Seq::new(n as nat, |i: int| package_entry(ps[i], ds[i], ps));
    let mut res = String::from_str("{\"workspace\":{\"recoverMissedReleases\":true},\"package\":[");
    let ghost start = res@;
    let mut i: usize = 0;
    while i < n
        invariant
            n <= packages@.len(),
            n <= deps@.len(),
            i <= n,
            forall|i: int, k: int|
                0 <= i < deps@.len() && i < packages@.len() && 0 <= k < deps@[i]@.len()
                    ==> #[trigger] deps@[i]@[k] < packages@.len(),
            ps == texts(packages@),
            ds == Seq::new(deps@.len(), |i: int| deps@[i]@),
            items == Seq::new(n as nat, |i: int| package_entry(ps[i], ds[i], ps)),
            res@ == start + join_with(items.take(i as int), ","@),
        decreases n - i,
    {
        proof {
            lemma_join_push(items.take(i as int), items[i as int], ","@);
            assert(items.take(i as int).push(items[i as int]) =~= items.take(i + 1));
        }
        if i > 0 {
            res.append(",");
        }
        let entry = package_entry_text(&packages[i], &deps[i], packages);
        res.append(entry.as_str());
        i = i + 1;
    }
    assert(items.take(n as int) =~= items);
    res.append("]}");
    res
}

} // verus!
