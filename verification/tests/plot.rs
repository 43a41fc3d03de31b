use gas_law_sim::plot::{draw_axes, make_plot, plot_points};

fn text(g: &Vec<Vec<char>>) -> Vec<String> {
    g.iter().map(|r| r.iter().collect()).collect()
}

#[test]
fn make_plot_is_blank() {
    let g = make_plot(4, 3);
    assert_eq!(text(&g), vec!["    ", "    ", "    "]);
}

#[test]
fn make_plot_empty_dimensions() {
    assert_eq!(make_plot(5, 0).len(), 0);
    assert_eq!(make_plot(0, 2), vec![Vec::<char>::new(), Vec::new()]);
}

#[test]
fn draw_axes_frames_left_and_bottom() {
    let mut g = make_plot(4, 3);
    draw_axes(&mut g);
    assert_eq!(text(&g), vec!["|   ", "|   ", "+---"]);
}

#[test]
fn plot_points_counts_rows_from_bottom() {
    let mut g = make_plot(4, 3);
    plot_points(&mut g, &vec![(1, 0), (2, 2), (3, 1)], '#');
    assert_eq!(text(&g), vec!["  # ", "   #", " #  "]);
}

#[test]
fn plot_points_clamps_high_points_to_top_row() {
    let mut g = make_plot(3, 2);
    plot_points(&mut g, &vec![(0, 10)], 'x');
    assert_eq!(text(&g), vec!["x  ", "   "]);
}

#[test]
fn plot_points_drops_columns_outside() {
    let mut g = make_plot(3, 2);
    plot_points(&mut g, &vec![(3, 0), (99, 1)], 'x');
    assert_eq!(text(&g), vec!["   ", "   "]);
}

#[test]
fn plot_points_over_axes() {
    let mut g = make_plot(3, 2);
    draw_axes(&mut g);
    plot_points(&mut g, &vec![(0, 0), (2, 1)], '.');
    assert_eq!(text(&g), vec!["| .", ".--"]);
}
