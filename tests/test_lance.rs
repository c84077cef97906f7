use gpig::entities::lane::LaneManager as MergingLaneManager;
use gpig::lane::LaneManager;
use gpig::oid::Oid;

fn oid(hex: &str) -> Oid {
    let parsed = git2::Oid::from_str(hex).unwrap();
    let b = parsed.as_bytes();
    Oid::new(
        u64::from_be_bytes(b[0..8].try_into().unwrap()),
        u64::from_be_bytes(b[8..16].try_into().unwrap()),
        u32::from_be_bytes(b[16..20].try_into().unwrap()),
    )
}

fn no_shared_slot(lanes: &[Option<Oid>]) -> bool {
    for i in 0..lanes.len() {
        for j in 0..lanes.len() {
            if i != j && lanes[i].is_some() && lanes[i] == lanes[j] {
                return false;
            }
        }
    }
    true
}

#[test]
fn straight_line() {
    let mut lane_manager = LaneManager::new();
    lane_manager.assign_commit(&oid("0001"), &vec![oid("0002")]);
    lane_manager.assign_commit(&oid("0002"), &vec![oid("0003")]);
    assert_eq!(lane_manager.get_lanes().iter().len(), 1);
}

#[test]
fn merge_line() {
    let mut lane_manager = LaneManager::new();
    //         1 _   _
    //         \   \  \
    //         2   \  \
    //         \   3  \
    //         \   \   4
    //         5  _
    //
    lane_manager.assign_commit(&oid("0001"), &vec![oid("0002"), oid("0003"), oid("0004")]);

    assert_eq!(lane_manager.get_lanes().iter().len(), 3);

    lane_manager.assign_commit(&oid("0002"), &vec![oid("0005")]);

    assert_eq!(lane_manager.get_lanes().iter().len(), 3);
    lane_manager.assign_commit(&oid("0003"), &vec![oid("0005")]);

    println!("{:?}", lane_manager.get_lanes());
    assert_eq!(lane_manager.get_lanes().iter().len(), 3);

    lane_manager.assign_commit(&oid("0004"), &vec![]);
    assert_eq!(lane_manager.get_lanes().iter().len(), 1);
    lane_manager.assign_commit(&oid("0005"), &vec![]);
    assert_eq!(lane_manager.get_lanes().iter().len(), 0);
}

#[test]
fn filling_table_reuses_highest_free_slot() {
    let mut lanes = LaneManager::new();
    lanes.assign_commit(&oid("0001"), &[oid("0002"), oid("0003"), oid("0004")]);
    // 0003 ends as a root: its slot stays free in the middle.
    assert_eq!(lanes.assign_commit(&oid("0003"), &[]), 1);
    assert_eq!(lanes.get_lanes(), &[Some(oid("0002")), None, Some(oid("0004"))]);
    // 0002 frees slot 0; its two parents take slot 1 (the highest free) and then slot 0.
    assert_eq!(lanes.assign_commit(&oid("0002"), &[oid("0005"), oid("0006")]), 0);
    assert_eq!(
        lanes.get_lanes(),
        &[Some(oid("0006")), Some(oid("0005")), Some(oid("0004"))]
    );
}

#[test]
fn merging_straight_line() {
    let mut lanes = MergingLaneManager::new();
    assert_eq!(lanes.assign_commit(&oid("0001"), &[oid("0002")]), 0);
    assert_eq!(lanes.assign_commit(&oid("0002"), &[oid("0003")]), 0);
    assert_eq!(lanes.get_lanes(), &[Some(oid("0003"))]);
}

#[test]
fn merging_long_line_keeps_one_lane() {
    let mut lanes = MergingLaneManager::new();
    for i in 0..50u32 {
        let id = Oid::new(0, 0, i);
        let parent = Oid::new(0, 0, i + 1);
        assert_eq!(lanes.assign_commit(&id, &[parent]), 0);
        assert_eq!(lanes.get_lanes().len(), 1);
    }
}

#[test]
fn merging_table_collapses_merged_branch() {
    let mut lanes = MergingLaneManager::new();
    lanes.assign_commit(&oid("0001"), &[oid("0002"), oid("0003"), oid("0004")]);
    assert_eq!(lanes.get_lanes().len(), 3);
    lanes.assign_commit(&oid("0002"), &[oid("0005")]);
    assert_eq!(lanes.get_lanes().len(), 3);
    // 0005 already waits in lane 0: lane 0 is removed and 0003's lane moves down to it.
    assert_eq!(lanes.assign_commit(&oid("0003"), &[oid("0005")]), 0);
    assert_eq!(lanes.get_lanes(), &[Some(oid("0005")), Some(oid("0004"))]);
    assert_eq!(lanes.assign_commit(&oid("0004"), &[]), 1);
    assert_eq!(lanes.get_lanes().len(), 1);
    assert_eq!(lanes.assign_commit(&oid("0005"), &[]), 0);
    assert_eq!(lanes.get_lanes().len(), 0);
}

#[test]
fn merging_table_continuing_parent_to_the_right() {
    let mut lanes = MergingLaneManager::new();
    lanes.assign_commit(&oid("0001"), &[oid("0002"), oid("0003")]);
    // 0002 waits in lane 0, 0003 in lane 1; 0002's parent 0003 continues lane 0.
    assert_eq!(lanes.assign_commit(&oid("0002"), &[oid("0003")]), 0);
    assert_eq!(lanes.get_lanes(), &[Some(oid("0003"))]);
}

#[test]
fn merging_split_opens_k_minus_one_lanes() {
    let mut lanes = MergingLaneManager::new();
    lanes.assign_commit(&oid("0001"), &[oid("0002"), oid("0009")]);
    let before = lanes.get_lanes().len();
    lanes.assign_commit(&oid("0002"), &[oid("0003"), oid("0004"), oid("0005")]);
    assert_eq!(lanes.get_lanes().len(), before + 2);
}

#[test]
fn merging_split_then_merge_restores_count() {
    let mut lanes = MergingLaneManager::new();
    lanes.assign_commit(&oid("0001"), &[oid("0002"), oid("0009")]);
    let before = lanes.get_lanes().len();
    lanes.assign_commit(&oid("0002"), &[oid("0003"), oid("0004"), oid("0005")]);
    lanes.assign_commit(&oid("0003"), &[oid("0006")]);
    lanes.assign_commit(&oid("0004"), &[oid("0006")]);
    lanes.assign_commit(&oid("0005"), &[oid("0006")]);
    assert_eq!(lanes.get_lanes().len(), before);
}

#[test]
fn tables_stay_unique_and_trimmed() {
    let mut filling = LaneManager::new();
    let mut merging = MergingLaneManager::new();
    let stream: Vec<(&str, Vec<&str>)> = vec![
        ("0001", vec!["0002", "0003"]),
        ("0003", vec!["0004", "0002"]),
        ("0002", vec!["0004"]),
        ("0004", vec!["0005", "0006", "0007"]),
        ("0006", vec![]),
        ("0005", vec!["0007"]),
        ("0007", vec![]),
    ];
    for (id, parents) in stream {
        let parents: Vec<Oid> = parents.into_iter().map(oid).collect();
        filling.assign_commit(&oid(id), &parents);
        merging.assign_commit(&oid(id), &parents);
        for lanes in [filling.get_lanes(), merging.get_lanes()] {
            assert!(no_shared_slot(lanes));
            assert_ne!(lanes.last(), Some(&None));
        }
    }
}
