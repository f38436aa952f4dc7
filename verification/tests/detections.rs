use tf2_demo_player::detections::{count_by_algorithm, group_by_player};

#[test]
fn detections_group_by_player_busiest_first() {
    // (tick, player)
    let dets = vec![(50, 7), (10, 9), (30, 7), (30, 9), (20, 7), (30, 7), (5, 3)];
    let groups = group_by_player(&dets);
    assert_eq!(groups.len(), 3);
    assert_eq!(groups[0], (7, vec![4, 2, 5, 0]));
    assert_eq!(groups[1], (9, vec![1, 3]));
    assert_eq!(groups[2], (3, vec![6]));
}

#[test]
fn players_with_as_many_detections_keep_their_first_order() {
    let dets = vec![(1, 5), (1, 4), (2, 4), (2, 5)];
    let groups = group_by_player(&dets);
    assert_eq!(groups, vec![(5, vec![0, 3]), (4, vec![1, 2])]);
    assert!(group_by_player(&Vec::new()).is_empty());
}

fn det(alg: &str, player: u64) -> (String, u64) {
    (alg.to_string(), player)
}

#[test]
fn detections_count_by_algorithm_and_player() {
    let dets = vec![
        det("triggerbot", 1),
        det("invalid_equip_region", 2),
        det("triggerbot", 3),
        det("triggerbot", 3),
        det("triggerbot", 1),
        det("triggerbot", 3),
    ];
    let counts = count_by_algorithm(&dets);
    assert_eq!(counts.len(), 2);
    assert_eq!(counts[0].algorithm, "triggerbot");
    assert_eq!(counts[0].total, 5);
    assert_eq!(counts[0].players, vec![(3, 3), (1, 2)]);
    assert_eq!(counts[1].algorithm, "invalid_equip_region");
    assert_eq!(counts[1].total, 1);
    assert_eq!(counts[1].players, vec![(2, 1)]);
    assert!(count_by_algorithm(&Vec::new()).is_empty());
}
