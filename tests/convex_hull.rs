use swrender::convex_hull::calculate_drawable_convex_hull;

fn grid(rows: &[&str]) -> (u32, u32, Vec<Vec<bool>>) {
    let cells: Vec<Vec<bool>> = rows
        .iter()
        .map(|r| r.chars().map(|c| c == '#').collect())
        .collect();
    (rows[0].len() as u32, rows.len() as u32, cells)
}

fn hull_of(rows: &[&str]) -> Vec<(u32, u32)> {
    let (w, h, cells) = grid(rows);
    calculate_drawable_convex_hull(w, h, |x, y| cells[y as usize][x as usize])
}

#[test]
fn filled_rectangle_hull_is_its_corners() {
    let hull = hull_of(&["####", "####"]);
    assert_eq!(hull, vec![(0, 0), (0, 1), (3, 1), (3, 0)]);
}

#[test]
fn empty_silhouette_has_empty_hull() {
    assert!(hull_of(&["....", "...."]).is_empty());
    assert!(calculate_drawable_convex_hull(0, 0, |_, _| true).is_empty());
}

#[test]
fn single_texel_hull() {
    assert_eq!(hull_of(&["...", ".#.", "..."]), vec![(1, 1), (1, 1)]);
}

#[test]
fn single_column_texel_at_left_edge() {
    assert_eq!(hull_of(&["#..", "..."]), vec![(0, 0), (0, 0)]);
}

#[test]
fn colinear_points_are_dropped() {
    let hull = hull_of(&["#####", "#####", "#####"]);
    assert_eq!(hull, vec![(0, 0), (0, 2), (4, 2), (4, 0)]);
}

#[test]
fn diamond_hull_drops_colinear_edge_points() {
    let hull = hull_of(&["..#..", ".###.", "#####", ".###.", "..#.."]);
    assert_eq!(
        hull,
        vec![(2, 0), (0, 2), (2, 4), (2, 4), (4, 2), (2, 0)]
    );
}

#[test]
fn concave_rows_are_skipped() {
    // Row 1 is empty; row 2 pulls the left chain in.
    let hull = hull_of(&["#...#", ".....", "..#..", "#...#"]);
    assert_eq!(hull, vec![(0, 0), (0, 3), (4, 3), (4, 0)]);
}
