use fixtures::graph::{build_dependency_edges, graph_config};
use fixtures::rng::Rng;

#[test]
fn dependency_edges_form_a_dag() {
    let core_count = 3;
    let mut rng = Rng::new(20250714).unwrap();
    let deps = build_dependency_edges(12, core_count, &mut rng);

    assert_eq!(deps.len(), 12);
    assert!(deps[0].is_empty());
    assert_eq!(deps[1], vec![0]);
    assert_eq!(deps[2], vec![1]);
    for (i, edges) in deps.iter().enumerate().skip(core_count) {
        assert!(!edges.is_empty(), "leaf {i} has no dependencies");
        for &d in edges {
            assert!(d < core_count, "leaf {i} depends on non-core {d}");
            assert_ne!(d, i, "leaf {i} depends on itself");
        }
    }

    let mut rng2 = Rng::new(20250714).unwrap();
    assert_eq!(deps, build_dependency_edges(12, core_count, &mut rng2));
}

#[test]
fn config_lists_packages_and_edges() {
    let packages = vec!["pkg-001".to_string(), "pkg-002".to_string(), "pkg-003".to_string()];
    let deps = vec![Vec::new(), vec![0], vec![0, 1]];
    let config = graph_config(&packages, &deps);
    assert_eq!(
        config,
        [
            "{\"workspace\":{\"recoverMissedReleases\":true},\"package\":[",
            "{\"name\":\"pkg-001\",\"path\":\"packages/pkg-001\",\"versioned_files\":[{\"path\":\"packages/pkg-001/package.json\",\"format\":\"json\"}]},",
            "{\"name\":\"pkg-002\",\"path\":\"packages/pkg-002\",\"versioned_files\":[{\"path\":\"packages/pkg-002/package.json\",\"format\":\"json\"}],\"dependsOn\":[\"pkg-001\"]},",
            "{\"name\":\"pkg-003\",\"path\":\"packages/pkg-003\",\"versioned_files\":[{\"path\":\"packages/pkg-003/package.json\",\"format\":\"json\"}],\"dependsOn\":[\"pkg-001\",\"pkg-002\"]}",
            "]}"
        ]
        .concat()
    );
}

#[test]
fn config_of_no_packages() {
    assert_eq!(
        graph_config(&[], &[]),
        "{\"workspace\":{\"recoverMissedReleases\":true},\"package\":[]}"
    );
}

#[test]
fn spine_only_when_no_leaves() {
    let mut rng = Rng::new(3).unwrap();
    let deps = build_dependency_edges(3, 5, &mut rng);
    assert_eq!(deps, vec![vec![], vec![0], vec![1]]);
    // No leaf means nothing was drawn.
    let mut fresh = Rng::new(3).unwrap();
    assert_eq!(rng.usize(1000), fresh.usize(1000));
}

#[test]
fn leaves_depend_on_one_to_three_sorted_core_packages() {
    for seed in 1..50u64 {
        let mut rng = Rng::new(seed).unwrap();
        let deps = build_dependency_edges(40, 8, &mut rng);
        for edges in deps.iter().skip(8) {
            assert!((1..=3).contains(&edges.len()));
            assert!(edges.windows(2).all(|w| w[0] < w[1]));
            assert!(edges.iter().all(|&d| d < 8));
        }
    }
    let mut rng = Rng::new(9).unwrap();
    let deps = build_dependency_edges(6, 1, &mut rng);
    assert!(deps.iter().skip(1).all(|e| e == &vec![0]));
}

#[test]
fn config_ignores_edges_past_the_packages() {
    let packages = vec!["a".to_string()];
    let deps = vec![Vec::new(), vec![5]];
    assert_eq!(
        graph_config(&packages, &deps),
        "{\"workspace\":{\"recoverMissedReleases\":true},\"package\":[{\"name\":\"a\",\"path\":\"packages/a\",\"versioned_files\":[{\"path\":\"packages/a/package.json\",\"format\":\"json\"}]}]}"
    );
}
