use emwave::{Boundary, ConfigError, ElectricRule, Layout, MagneticRule, Region, Site, Stamp};

fn region(x_min: usize, x_max: usize, y_min: usize, y_max: usize) -> Region {
    Region { x_min, x_max, y_min, y_max }
}

#[test]
fn grid_too_small_is_refused() {
    let r = Layout::new(0, 10, Boundary::Reflecting, vec![], vec![]);
    assert_eq!(r.err(), Some(ConfigError::GridTooSmall));
    let r = Layout::new(10, 0, Boundary::Reflecting, vec![], vec![]);
    assert_eq!(r.err(), Some(ConfigError::GridTooSmall));
    let r = Layout::new(10, 1, Boundary::Absorbing, vec![], vec![]);
    assert_eq!(r.err(), Some(ConfigError::GridTooSmall));
    let r = Layout::new(2, 10, Boundary::Absorbing, vec![], vec![]);
    assert_eq!(r.err(), Some(ConfigError::GridTooSmall));
    assert!(Layout::new(3, 3, Boundary::Absorbing, vec![], vec![]).is_ok());
}

#[test]
fn thin_reflecting_grid_is_accepted() {
    let l = Layout::new(1, 5, Boundary::Reflecting, vec![], vec![]).unwrap();
    assert_eq!((l.width(), l.height()), (1, 5));
    let s = l.schedule();
    assert!(s.magnetic.iter().all(|m| *m == MagneticRule::Skip));
    assert!(s.electric.iter().all(|e| *e == ElectricRule::Hold));
    let l = Layout::new(5, 1, Boundary::Reflecting, vec![], vec![Site { x: 4, y: 0 }]).unwrap();
    assert_eq!(l.stamp(4, 0), Stamp::Source(0));
}

#[test]
fn grid_too_large_is_refused() {
    let r = Layout::new(usize::MAX, 2, Boundary::Reflecting, vec![], vec![]);
    assert_eq!(r.err(), Some(ConfigError::GridTooLarge));
}

#[test]
fn obstacle_outside_grid_is_refused() {
    let r = Layout::new(10, 10, Boundary::Reflecting, vec![region(2, 11, 0, 3)], vec![]);
    assert_eq!(r.err(), Some(ConfigError::ObstacleOutsideGrid));
    let r = Layout::new(10, 10, Boundary::Reflecting, vec![region(11, 4, 0, 3)], vec![]);
    assert_eq!(r.err(), Some(ConfigError::ObstacleOutsideGrid));
    let r = Layout::new(10, 10, Boundary::Reflecting, vec![region(0, 10, 0, 10)], vec![]);
    assert!(r.is_ok());
}

#[test]
fn source_outside_grid_is_refused() {
    let r = Layout::new(10, 10, Boundary::Reflecting, vec![], vec![Site { x: 10, y: 0 }]);
    assert_eq!(r.err(), Some(ConfigError::SourceOutsideGrid));
    let r = Layout::new(10, 10, Boundary::Reflecting, vec![], vec![Site { x: 0, y: 10 }]);
    assert_eq!(r.err(), Some(ConfigError::SourceOutsideGrid));
}

#[test]
fn size_is_checked_before_obstacles_and_sources() {
    let r = Layout::new(0, 1, Boundary::Reflecting, vec![region(0, 5, 0, 5)], vec![Site { x: 9, y: 9 }]);
    assert_eq!(r.err(), Some(ConfigError::GridTooSmall));
    let r = Layout::new(4, 4, Boundary::Reflecting, vec![region(0, 5, 0, 5)], vec![Site { x: 9, y: 9 }]);
    assert_eq!(r.err(), Some(ConfigError::ObstacleOutsideGrid));
}

#[test]
fn accepted_layout_keeps_its_configuration() {
    let l = Layout::new(7, 5, Boundary::Absorbing, vec![], vec![Site { x: 1, y: 2 }, Site { x: 3, y: 4 }]).unwrap();
    assert_eq!((l.width(), l.height()), (7, 5));
    assert_eq!(l.boundary(), Boundary::Absorbing);
    assert_eq!(l.source_count(), 2);
}

#[test]
fn magnetic_rule_skips_last_row_and_column() {
    let l = Layout::new(10, 10, Boundary::Reflecting, vec![], vec![]).unwrap();
    assert_eq!(l.magnetic_rule(8, 8), MagneticRule::Update { x_next: 89, y_next: 98 });
    assert_eq!(l.magnetic_rule(0, 0), MagneticRule::Update { x_next: 1, y_next: 10 });
    assert_eq!(l.magnetic_rule(9, 3), MagneticRule::Skip);
    assert_eq!(l.magnetic_rule(3, 9), MagneticRule::Skip);
}

#[test]
fn reflecting_edges_hold() {
    let l = Layout::new(10, 10, Boundary::Reflecting, vec![], vec![]).unwrap();
    assert_eq!(l.electric_rule(3, 4), ElectricRule::Curl { x_prev: 42, y_prev: 33 });
    for (x, y) in [(0, 0), (9, 9), (0, 5), (9, 5), (5, 0), (5, 9)] {
        assert_eq!(l.electric_rule(x, y), ElectricRule::Hold);
    }
}

#[test]
fn absorbing_edges_take_inward_neighbour() {
    let l = Layout::new(10, 10, Boundary::Absorbing, vec![], vec![]).unwrap();
    assert_eq!(l.electric_rule(1, 1), ElectricRule::Curl { x_prev: 10, y_prev: 1 });
    assert_eq!(l.electric_rule(9, 4), ElectricRule::Mur { inward: 48 });
    assert_eq!(l.electric_rule(0, 4), ElectricRule::Mur { inward: 41 });
    assert_eq!(l.electric_rule(4, 9), ElectricRule::Mur { inward: 84 });
    assert_eq!(l.electric_rule(4, 0), ElectricRule::Mur { inward: 14 });
}

#[test]
fn corners_follow_column_faces() {
    let l = Layout::new(10, 10, Boundary::Absorbing, vec![], vec![]).unwrap();
    assert_eq!(l.electric_rule(9, 0), ElectricRule::Mur { inward: 8 });
    assert_eq!(l.electric_rule(9, 9), ElectricRule::Mur { inward: 98 });
    assert_eq!(l.electric_rule(0, 0), ElectricRule::Mur { inward: 1 });
    assert_eq!(l.electric_rule(0, 9), ElectricRule::Mur { inward: 91 });
}

#[test]
fn obstacle_cells_are_zeroed() {
    let l = Layout::new(10, 10, Boundary::Reflecting, vec![region(2, 5, 2, 4), region(3, 6, 3, 5)], vec![]).unwrap();
    assert!(l.in_obstacle(2, 2));
    assert!(l.in_obstacle(5, 4));
    assert!(!l.in_obstacle(5, 2));
    assert_eq!(l.stamp(3, 3), Stamp::Zero);
    assert_eq!(l.stamp(4, 2), Stamp::Zero);
    assert_eq!(l.stamp(5, 2), Stamp::Keep);
    assert_eq!(l.stamp(2, 4), Stamp::Keep);
}

#[test]
fn source_wins_over_obstacle() {
    let l = Layout::new(10, 10, Boundary::Reflecting, vec![region(2, 5, 2, 4)], vec![Site { x: 3, y: 3 }]).unwrap();
    assert_eq!(l.stamp(3, 3), Stamp::Source(0));
    assert_eq!(l.stamp(3, 2), Stamp::Zero);
}

#[test]
fn last_source_on_a_cell_wins() {
    let sites = vec![Site { x: 1, y: 1 }, Site { x: 2, y: 2 }, Site { x: 1, y: 1 }];
    let l = Layout::new(4, 4, Boundary::Reflecting, vec![], sites).unwrap();
    assert_eq!(l.source_at(1, 1), Some(2));
    assert_eq!(l.source_at(2, 2), Some(1));
    assert_eq!(l.source_at(3, 3), None);
    assert_eq!(l.stamp(1, 1), Stamp::Source(2));
}

#[test]
fn schedule_covers_every_cell() {
    let l = Layout::new(10, 10, Boundary::Absorbing, vec![region(2, 5, 2, 4)], vec![Site { x: 1, y: 5 }]).unwrap();
    let s = l.schedule();
    assert_eq!(s.magnetic.len(), 100);
    assert_eq!(s.electric.len(), 100);
    assert_eq!(s.stamps.len(), 100);
    for y in 0..10 {
        for x in 0..10 {
            let k = x + y * 10;
            assert_eq!(s.magnetic[k], l.magnetic_rule(x, y));
            assert_eq!(s.electric[k], l.electric_rule(x, y));
            assert_eq!(s.stamps[k], l.stamp(x, y));
        }
    }
    assert_eq!(s.stamps[51], Stamp::Source(0));
    assert_eq!(s.stamps[33], Stamp::Zero);
}

#[test]
fn without_sources_or_obstacles_nothing_is_stamped() {
    let l = Layout::new(6, 5, Boundary::Absorbing, vec![], vec![]).unwrap();
    let s = l.schedule();
    assert!(s.stamps.iter().all(|st| *st == Stamp::Keep));
}

#[test]
fn inverted_obstacle_covers_nothing() {
    let l = Layout::new(10, 10, Boundary::Reflecting, vec![region(5, 4, 0, 3)], vec![]).unwrap();
    for y in 0..10 {
        for x in 0..10 {
            assert!(!l.in_obstacle(x, y));
        }
    }
}

#[test]
fn electric_order_puts_edges_after_their_neighbours() {
    let l = Layout::new(4, 4, Boundary::Absorbing, vec![], vec![]).unwrap();
    let s = l.schedule();
    assert_eq!(s.order, vec![5, 6, 9, 10, 1, 2, 4, 7, 8, 11, 13, 14, 0, 3, 12, 15]);
    assert_eq!((l.stage(1, 1), l.stage(0, 1), l.stage(3, 3)), (0, 1, 2));
    let r = Layout::new(4, 4, Boundary::Reflecting, vec![], vec![]).unwrap().schedule();
    assert_eq!(r.order, (0..16).collect::<Vec<usize>>());
}
