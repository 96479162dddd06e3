use smart_brain::world::World;

#[test]
fn bounds_and_obstacles() {
    let mut w = World::new(5, 4);
    assert_eq!(w.width(), 5);
    assert_eq!(w.height(), 4);
    assert_eq!(w.free_cells(), 20);
    assert!(w.in_bounds(0, 0));
    assert!(w.in_bounds(4, 3));
    assert!(!w.in_bounds(5, 0));
    assert!(!w.in_bounds(-1, 2));
    assert!(w.is_obstacle(-1, 0));
    assert!(w.is_obstacle(0, 4));
    assert!(!w.is_obstacle(2, 2));
    w.set_obstacle(2, 2);
    assert!(w.is_obstacle(2, 2));
    assert!(!w.is_obstacle(2, 1));
    assert_eq!(w.free_cells(), 19);
    // outside the world: ignored
    w.set_obstacle(9, 9);
    assert_eq!(w.free_cells(), 19);
}

#[test]
fn walls_fill_rectangles_clipped_to_the_world() {
    let mut w = World::new(6, 6);
    w.wall(1..3, 0..10);
    for y in 0..6 {
        assert!(w.is_obstacle(1, y));
        assert!(w.is_obstacle(2, y));
        assert!(!w.is_obstacle(3, y));
        assert!(!w.is_obstacle(0, y));
    }
    assert_eq!(w.free_cells(), 24);
    w.wall(4..2, 0..6);
    assert_eq!(w.free_cells(), 24);
}

#[test]
fn set_obstacle_counts_each_free_cell_once() {
    let mut w = World::new(10, 10);
    assert_eq!(w.free_cells(), 100);
    w.set_obstacle(2, 3);
    assert!(w.is_obstacle(2, 3));
    assert!(!w.is_obstacle(1, 3));
    assert_eq!(w.free_cells(), 99);
    w.set_obstacle(2, 3);
    assert_eq!(w.free_cells(), 99);
    w.set_obstacle(10, 3);
    assert_eq!(w.free_cells(), 99);
}
