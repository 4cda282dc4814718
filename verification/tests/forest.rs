use djvuxml::forest::{feature_index, DecisionTreeNode, PyForestModel};

fn at_most(a: &f64, b: &f64) -> bool {
    a <= b
}

fn leaf(no: f64, yes: f64) -> Box<DecisionTreeNode<f64>> {
    Box::new(DecisionTreeNode::Leaf { no, yes })
}

fn branch(
    fid: usize,
    threshold: f64,
    lhs: Box<DecisionTreeNode<f64>>,
    rhs: Box<DecisionTreeNode<f64>>,
) -> Box<DecisionTreeNode<f64>> {
    Box::new(DecisionTreeNode::Branch { fid, threshold, lhs, rhs })
}

fn names(list: &[&str]) -> Vec<String> {
    list.iter().map(|n| n.to_string()).collect()
}

fn score(model: &PyForestModel<f64>, features: &[(&str, f64)]) -> f64 {
    let pairs: Vec<(String, f64)> = features.iter().map(|(n, v)| (n.to_string(), *v)).collect();
    let dense = model.layout(&pairs, 0.0);
    let outcomes = model.outcomes(&dense, &at_most);
    let sum: f64 = outcomes.iter().map(|(no, yes)| yes / (no + yes)).sum();
    sum / outcomes.len() as f64
}

#[test]
fn one_forest_of_one_tree() {
    let model = PyForestModel {
        feature_names: names(&["f"]),
        forest: vec![vec![branch(0, 0.5, leaf(0.0, 1.0), leaf(1.0, 0.0))]],
    };
    assert!(model.is_well_indexed());
    assert_eq!(score(&model, &[("f", 0.6)]), 0.0);
    assert_eq!(score(&model, &[("f", 0.4)]), 1.0);
    assert_eq!(score(&model, &[("f", 0.5)]), 1.0);
    assert_eq!(score(&model, &[]), 1.0);
    assert_eq!(score(&model, &[("g", 0.6)]), 1.0);
}

#[test]
fn the_mean_is_over_all_trees_of_all_forests() {
    let model = PyForestModel {
        feature_names: names(&["a", "b"]),
        forest: vec![
            vec![leaf(0.0, 2.0)],
            vec![leaf(3.0, 1.0), branch(1, 10.0, leaf(1.0, 1.0), leaf(4.0, 0.0)), leaf(1.0, 0.0)],
        ],
    };
    let dense = model.layout(&vec![("b".to_string(), 11.0)], 0.0);
    assert_eq!(dense, vec![0.0, 11.0]);
    assert_eq!(
        model.outcomes(&dense, &at_most),
        vec![(0.0, 2.0), (3.0, 1.0), (4.0, 0.0), (1.0, 0.0)]
    );
    assert_eq!(score(&model, &[("b", 11.0)]), (1.0 + 0.25 + 0.0 + 0.0) / 4.0);
    assert_eq!(score(&model, &[("b", 10.0)]), (1.0 + 0.25 + 0.5 + 0.0) / 4.0);
}

#[test]
fn a_tree_goes_left_at_most_and_right_above() {
    let tree = branch(
        1,
        0.0,
        branch(0, -1.0, leaf(1.0, 0.0), leaf(2.0, 0.0)),
        branch(2, 5.0, leaf(3.0, 0.0), leaf(4.0, 0.0)),
    );
    assert_eq!(tree.predict(&[-1.0, 0.0, 9.0], &at_most), (1.0, 0.0));
    assert_eq!(tree.predict(&[-0.5, -3.0, 9.0], &at_most), (2.0, 0.0));
    assert_eq!(tree.predict(&[-1.0, 0.1, 5.0], &at_most), (3.0, 0.0));
    assert_eq!(tree.predict(&[-1.0, 0.1, 5.1], &at_most), (4.0, 0.0));
    assert_eq!(tree.predict(&[0.0, f64::NAN, f64::NAN], &at_most), (4.0, 0.0));
    assert_eq!(leaf(7.0, 8.0).predict(&[], &at_most), (7.0, 8.0));
    assert!(tree.tests_within(3));
    assert!(tree.tests_within(4));
    assert!(!tree.tests_within(2));
    assert!(leaf(0.0, 0.0).tests_within(0));
}

#[test]
fn a_model_names_the_features_that_its_trees_test() {
    let good = PyForestModel {
        feature_names: names(&["a", "b"]),
        forest: vec![vec![], vec![leaf(0.0, 1.0), branch(1, 0.0, leaf(0.0, 1.0), leaf(1.0, 0.0))]],
    };
    assert!(good.is_well_indexed());
    let bad = PyForestModel {
        feature_names: names(&["a", "b"]),
        forest: vec![vec![leaf(0.0, 1.0)], vec![branch(2, 0.0, leaf(0.0, 1.0), leaf(1.0, 0.0))]],
    };
    assert!(!bad.is_well_indexed());
    let empty: PyForestModel<f64> = PyForestModel { feature_names: vec![], forest: vec![] };
    assert!(empty.is_well_indexed());
    assert!(empty.outcomes(&[], &at_most).is_empty());
}

#[test]
fn features_are_laid_out_by_name() {
    let model: PyForestModel<i32> = PyForestModel {
        feature_names: names(&["num_words", "stopwords", "cap_lines_mean", "stopwords"]),
        forest: vec![],
    };
    let pairs = vec![
        ("stopwords".to_string(), 5),
        ("unknown".to_string(), 6),
        ("num_words".to_string(), 7),
        ("stopwords".to_string(), 8),
    ];
    assert_eq!(model.layout(&pairs, -1), vec![7, 8, -1, -1]);
    assert_eq!(model.layout(&vec![], 0), vec![0, 0, 0, 0]);
}

#[test]
fn a_feature_stands_where_its_name_first_stands() {
    let names = names(&["num_words", "stopwords", "cap_lines_mean", "stopwords"]);
    assert_eq!(feature_index(&names, "num_words"), Some(0));
    assert_eq!(feature_index(&names, "stopwords"), Some(1));
    assert_eq!(feature_index(&names, "cap_lines_mean"), Some(2));
    assert_eq!(feature_index(&names, "cap_lines"), None);
    assert_eq!(feature_index(&names, "Stopwords"), None);
    assert_eq!(feature_index(&vec![], "stopwords"), None);
}
