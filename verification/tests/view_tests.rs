use chunk_sync::view_diff::compute_view_diff;
use chunk_sync::view_diff::ChunkPos;
use chunk_sync::view_diff::Region;
use chunk_sync::view_diff::ViewShape;

fn has(v: &Vec<ChunkPos>, x: i32, z: i32) -> bool {
    v.iter().any(|p| p.x == x && p.z == z)
}

#[test]
fn first_diff_square_radius_two_loads_whole_square() {
    let next = Region { center: ChunkPos { x: 0, z: 0 }, radius: 2, shape: ViewShape::Square };
    let d = compute_view_diff(&None, &next);
    assert_eq!(d.to_unload.len(), 0);
    assert_eq!(d.to_load.len(), 25);
    for x in -2..=2 {
        for z in -2..=2 {
            assert!(has(&d.to_load, x, z));
        }
    }
    assert!(!has(&d.to_load, 3, 0));
    assert!(!has(&d.to_load, 0, -3));
}

#[test]
fn shifted_square_loads_and_unloads_one_column_each() {
    let prev = Some(Region { center: ChunkPos { x: 0, z: 0 }, radius: 2, shape: ViewShape::Square });
    let next = Region { center: ChunkPos { x: 1, z: 0 }, radius: 2, shape: ViewShape::Square };
    let d = compute_view_diff(&prev, &next);

    // entering: exactly the column x = 3, z in [-2, 2]
    assert_eq!(d.to_load.len(), 5);
    for z in -2..=2 {
        assert!(has(&d.to_load, 3, z));
    }

    // leaving: exactly the column x = -2, z in [-2, 2]
    assert_eq!(d.to_unload.len(), 5);
    for z in -2..=2 {
        assert!(has(&d.to_unload, -2, z));
    }

    // no coordinate appears in both outputs
    for p in d.to_load.iter() {
        assert!(!has(&d.to_unload, p.x, p.z));
    }
}

#[test]
fn teleport_with_radius_change_recomputes_fully() {
    let prev = Some(Region { center: ChunkPos { x: 0, z: 0 }, radius: 1, shape: ViewShape::Square });
    let next = Region { center: ChunkPos { x: 100, z: 100 }, radius: 2, shape: ViewShape::Square };
    let d = compute_view_diff(&prev, &next);
    // disjoint regions: everything old leaves, everything new enters
    assert_eq!(d.to_unload.len(), 9);
    assert_eq!(d.to_load.len(), 25);
    assert!(has(&d.to_unload, 0, 0));
    assert!(has(&d.to_load, 100, 100));
    assert!(has(&d.to_load, 102, 98));
}

#[test]
fn circular_region_uses_euclidean_distance() {
    let next = Region { center: ChunkPos { x: 0, z: 0 }, radius: 2, shape: ViewShape::Circular };
    let d = compute_view_diff(&None, &next);
    // the 13 coordinates with x^2 + z^2 <= 4
    assert_eq!(d.to_load.len(), 13);
    assert!(has(&d.to_load, 0, 0));
    assert!(has(&d.to_load, 2, 0));
    assert!(has(&d.to_load, 1, 1));
    assert!(!has(&d.to_load, 2, 2));
    assert!(!has(&d.to_load, 2, 1));
}

#[test]
fn unchanged_region_yields_empty_diff() {
    let r = Region { center: ChunkPos { x: 4, z: -7 }, radius: 3, shape: ViewShape::Square };
    let d = compute_view_diff(&Some(r), &r);
    assert_eq!(d.to_load.len(), 0);
    assert_eq!(d.to_unload.len(), 0);
}

#[test]
fn zero_radius_region_is_its_center() {
    let next = Region { center: ChunkPos { x: -3, z: 9 }, radius: 0, shape: ViewShape::Square };
    let d = compute_view_diff(&None, &next);
    assert_eq!(d.to_load.len(), 1);
    assert!(has(&d.to_load, -3, 9));
}

#[test]
fn outputs_hold_no_duplicates() {
    let prev = Some(Region { center: ChunkPos { x: 0, z: 0 }, radius: 3, shape: ViewShape::Square });
    let next = Region { center: ChunkPos { x: 2, z: 2 }, radius: 3, shape: ViewShape::Square };
    let d = compute_view_diff(&prev, &next);
    for (i, p) in d.to_load.iter().enumerate() {
        for (j, q) in d.to_load.iter().enumerate() {
            if i != j {
                assert!(!(p.x == q.x && p.z == q.z));
            }
        }
    }
    for (i, p) in d.to_unload.iter().enumerate() {
        for (j, q) in d.to_unload.iter().enumerate() {
            if i != j {
                assert!(!(p.x == q.x && p.z == q.z));
            }
        }
    }
}
