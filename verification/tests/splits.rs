use fut::domain::{PaneId, SplitId};
use fut::splits::{half_ratio, SplitAxis, SplitDirection, SplitRatio, SplitTree};

#[test]
fn split_order_and_collapse_are_deterministic() {
    let a = PaneId::new();
    let b = PaneId::new();
    let c = PaneId::new();
    let mut tree = SplitTree::leaf(a);
    assert!(tree.split(a, SplitDirection::Right, b));
    assert!(tree.split(a, SplitDirection::Down, c));
    assert_eq!(tree.leaf_ids(), [a, c, b]);
    assert!(tree.validate());

    let tree = tree.without(a).unwrap();
    assert_eq!(tree.leaf_ids(), [c, b]);
    let tree = tree.without(c).unwrap();
    assert_eq!(tree, SplitTree::leaf(b));
    assert!(tree.without(b).is_none());
}

#[test]
fn cell_ratios_reduce_and_reproduce_exact_positions() {
    let ratio = SplitRatio::from_cells(37, 79).unwrap();
    assert_eq!(ratio.first_cells(79), 37);
    assert_eq!(SplitRatio::from_cells(25, 100), SplitRatio::from_cells(1, 4));
    assert!(SplitRatio::from_cells(0, 79).is_none());
    assert!(SplitRatio::from_cells(79, 79).is_none());
}

fn wire_ratio(source: &str) -> Option<SplitRatio> {
    let value: serde_json::Value = serde_json::from_str(source).unwrap();
    let numerator = value["numerator"].as_u64().unwrap() as u16;
    let denominator = value["denominator"].as_u64().unwrap() as u16;
    SplitRatio::from_cells(numerator, denominator)
}

#[test]
fn wire_ratios_are_validated_and_reduced_at_deserialization() {
    let half = SplitRatio::from_cells(1, 2).unwrap();
    assert_eq!(wire_ratio(r#"{"numerator":2,"denominator":4}"#).unwrap(), half);
    for malformed in [
        r#"{"numerator":0,"denominator":4}"#,
        r#"{"numerator":4,"denominator":4}"#,
        r#"{"numerator":1,"denominator":0}"#,
        r#"{"numerator":5,"denominator":4}"#,
    ] {
        assert!(wire_ratio(malformed).is_none(), "accepted malformed ratio {malformed}");
    }
}

#[test]
fn branches_have_stable_unique_resize_targets() {
    let a = PaneId::new();
    let b = PaneId::new();
    let c = PaneId::new();
    let mut tree = SplitTree::leaf(a);
    assert!(tree.split(a, SplitDirection::Right, b));
    assert!(tree.split(a, SplitDirection::Down, c));
    let ids = match &tree {
        SplitTree::Branch { split_id: outer, first, .. } => match first.as_ref() {
            SplitTree::Branch { split_id: inner, .. } => (*outer, *inner),
            _ => panic!("expected nested split"),
        },
        _ => panic!("expected split"),
    };
    assert_ne!(ids.0, ids.1);
    let ratio = SplitRatio::from_cells(2, 3).unwrap();
    assert!(tree.resize(ids.1, ratio));
    assert_eq!(tree.ratio(ids.1), Some(ratio));
    assert_eq!(tree.ratio(ids.0), Some(half_ratio()));
    assert!(tree.validate());
}

#[test]
fn ratios_are_exact_fractions_in_lowest_terms() {
    let ratio = SplitRatio::from_cells(30, 80).unwrap();
    assert_eq!(ratio, SplitRatio { numerator: 3, denominator: 8 });
    assert_eq!(ratio.first_cells(80), 30);
    assert_eq!(ratio.first_cells(24), 9);
    assert_eq!(ratio.first_cells(7), 2);
    let broken = SplitRatio { numerator: 4, denominator: 4 };
    assert!(!broken.is_valid());
    assert_eq!(broken.first_cells(80), 0);
}

#[test]
fn a_removed_pane_undoes_its_split() {
    let a = PaneId(1);
    let b = PaneId(2);
    let c = PaneId(3);
    let mut tree = SplitTree::leaf(a);
    assert!(tree.split_with(a, SplitDirection::Right, b, SplitId(10)));
    let before = tree.clone();
    assert!(tree.split_with(b, SplitDirection::Down, c, SplitId(11)));
    assert_eq!(tree.leaf_ids(), [a, b, c]);
    assert_eq!(tree.without(c), Some(before));
}

#[test]
fn kept_panes_stay_in_order_and_unknown_anchors_change_nothing() {
    let a = PaneId(1);
    let b = PaneId(2);
    let c = PaneId(3);
    let mut tree = SplitTree::leaf(a);
    assert!(tree.split_with(a, SplitDirection::Right, b, SplitId(10)));
    assert!(tree.split_with(b, SplitDirection::Down, c, SplitId(11)));
    let kept = tree.retained(|pane| pane != b).unwrap();
    assert_eq!(kept.leaf_ids(), [a, c]);
    assert!(kept.validate());
    assert!(tree.retained(|_| false).is_none());

    let before = tree.clone();
    assert!(!tree.split_with(PaneId(9), SplitDirection::Down, PaneId(4), SplitId(12)));
    assert_eq!(tree, before);
    assert!(!tree.resize(SplitId(12), half_ratio()));
    assert!(!tree.resize(SplitId(11), SplitRatio { numerator: 0, denominator: 2 }));
    assert_eq!(tree, before);
    assert_eq!(tree.ratio(SplitId(12)), None);
    match tree {
        SplitTree::Branch { axis, .. } => assert_eq!(axis, SplitAxis::Horizontal),
        SplitTree::Leaf { .. } => panic!("expected split"),
    }
}

#[test]
fn repeated_panes_and_branches_are_not_valid() {
    let mut tree = SplitTree::leaf(PaneId(1));
    assert!(tree.split_with(PaneId(1), SplitDirection::Right, PaneId(1), SplitId(1)));
    assert!(!tree.validate());
    let mut tree = SplitTree::leaf(PaneId(1));
    assert!(tree.split_with(PaneId(1), SplitDirection::Right, PaneId(2), SplitId(1)));
    assert!(tree.split_with(PaneId(2), SplitDirection::Right, PaneId(3), SplitId(1)));
    assert!(!tree.validate());
}

#[test]
fn a_ratio_is_shown_reduced() {
    assert_eq!(SplitRatio::from_cells(20, 80).unwrap().shown(), "1/4");
}
