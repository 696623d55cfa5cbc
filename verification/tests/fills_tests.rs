use cells::fills::{
    evenly_distributed_grid, randomly_ordered_grid_of_points,
    randomly_ordered_grid_of_points_with, subtriangles, FillError,
};
use rand::rngs::StdRng;
use rand::SeedableRng;
use nannou_core::geom::Rect;
use nannou_core::glam::Vec2;

fn intervals(rect: &Rect, density: f32) -> (f32, i32, i32) {
    let interval = 100.0 / density;
    (interval, (rect.w() / interval).round() as i32, (rect.h() / interval).round() as i32)
}

#[test]
fn test_evenly_distributed_grid() {
    let in_rect = Rect::from_xy_wh(Vec2::new(0.0, 0.0), Vec2::new(10.0, 10.0));
    let (_, x, y) = intervals(&in_rect, 10.0);
    let _grid = evenly_distributed_grid(x, y);
}

#[test]
fn test_random_grid() {
    let in_rect = Rect::from_xy_wh(Vec2::new(0.0, 0.0), Vec2::new(10.0, 10.0));
    let (_, x, y) = intervals(&in_rect, 10.0);
    let _random_grid = randomly_ordered_grid_of_points(x, y);
}

#[test]
fn subtriangles_works() {
    let in_rect = Rect::from_xy_wh(Vec2::new(0.0, 0.0), Vec2::new(10.0, 10.0));
    let _triangles = subtriangles(&in_rect, 3);
}

#[test]
fn lattice_of_a_square_is_its_corners() {
    let rect = Rect::from_xy_wh(Vec2::new(0.0, 0.0), Vec2::new(10.0, 10.0));
    let (interval, x, y) = intervals(&rect, 10.0);
    assert_eq!(interval, 10.0);
    assert_eq!((x, y), (1, 1));
    let points: Vec<Vec2> = evenly_distributed_grid(x, y)
        .iter()
        .map(|&(i, j)| Vec2::new(rect.left() + i as f32 * interval, rect.bottom() + j as f32 * interval))
        .collect();
    assert_eq!(
        points,
        vec![
            Vec2::new(-5.0, -5.0),
            Vec2::new(-5.0, 5.0),
            Vec2::new(5.0, -5.0),
            Vec2::new(5.0, 5.0)
        ]
    );
}

#[test]
fn lattice_runs_column_by_column() {
    assert_eq!(
        evenly_distributed_grid(1, 2),
        vec![(0, 0), (0, 1), (0, 2), (1, 0), (1, 1), (1, 2)]
    );
    assert_eq!(evenly_distributed_grid(0, 0), vec![(0, 0)]);
    assert_eq!(evenly_distributed_grid(3, 0), vec![(0, 0), (1, 0), (2, 0), (3, 0)]);
    assert_eq!(evenly_distributed_grid(7, 4).len(), 40);
}

#[test]
fn lattice_with_a_negative_count_is_empty() {
    assert_eq!(evenly_distributed_grid(-1, 5), vec![]);
    assert_eq!(evenly_distributed_grid(5, -1), vec![]);
    assert_eq!(evenly_distributed_grid(i32::MIN, i32::MIN), vec![]);
    assert_eq!(randomly_ordered_grid_of_points(-3, 2), vec![]);
}

#[test]
fn shuffled_lattice_holds_the_same_points() {
    let lattice = evenly_distributed_grid(9, 9);
    let shuffled = randomly_ordered_grid_of_points(9, 9);
    assert_eq!(shuffled.len(), 100);
    assert_ne!(shuffled, lattice);
    let mut sorted = shuffled.clone();
    sorted.sort();
    assert_eq!(sorted, lattice);
}

#[test]
fn subtriangle_counts() {
    let rect = Rect::from_xy_wh(Vec2::new(0.0, 0.0), Vec2::new(10.0, 10.0));
    let level0 = subtriangles(&rect, 0).unwrap();
    assert_eq!(level0.len(), 8);
    assert!(level0.iter().all(|t| t.len() == 3));
    let level1 = subtriangles(&rect, 1).unwrap();
    assert_eq!(level1.len(), 32);
    assert!(level1.iter().all(|t| t.len() == 3));
    let level3 = subtriangles(&rect, 3).unwrap();
    assert_eq!(level3.len(), 512);
    assert!(level3.iter().all(|t| t.len() == 3));
}

#[test]
fn subtriangles_lie_in_the_rectangle_and_have_three_corners() {
    let rect = Rect::from_xy_wh(Vec2::new(2.0, -3.0), Vec2::new(8.0, 4.0));
    let triangles = subtriangles(&rect, 2).unwrap();
    for t in &triangles {
        assert!(t.iter().all(|p| rect.contains(*p)));
        assert_ne!(t[0], t[1]);
        assert_ne!(t[1], t[2]);
        assert_ne!(t[0], t[2]);
    }
    let quarter = Rect::from_xy_wh(Vec2::new(0.0, -4.0), Vec2::new(4.0, 2.0));
    let first = subtriangles(&rect, 0).unwrap();
    assert!(first[0].iter().all(|p| quarter.contains(*p)));
    assert!(first[1].iter().all(|p| quarter.contains(*p)));
}

#[test]
fn negative_levels_are_refused() {
    let rect = Rect::from_xy_wh(Vec2::new(0.0, 0.0), Vec2::new(10.0, 10.0));
    assert_eq!(subtriangles(&rect, -1), Err(FillError::InvalidLevels));
    assert_eq!(subtriangles(&rect, i32::MIN), Err(FillError::InvalidLevels));
}

#[test]
fn seeded_shuffles_repeat() {
    let first = randomly_ordered_grid_of_points_with(6, 5, &mut StdRng::seed_from_u64(31));
    let second = randomly_ordered_grid_of_points_with(6, 5, &mut StdRng::seed_from_u64(31));
    assert_eq!(first, second);
    assert_ne!(first, evenly_distributed_grid(6, 5));
    let mut sorted = first.clone();
    sorted.sort();
    assert_eq!(sorted, evenly_distributed_grid(6, 5));
}
