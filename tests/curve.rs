use std::collections::BTreeMap;
use weather_landscape::curve::{
    collect_cubic_bezier_curve_points, draw_line, integer_sqrt, rasterize_curve,
    rasterize_polyline, CurveSegment, SUBPIXEL,
};

fn line(x0: i64, y0: i64, x1: i64, y1: i64) -> Vec<(i64, i64)> {
    let mut graph = BTreeMap::new();
    draw_line(&mut graph, x0, y0, x1, y1);
    graph.into_iter().collect()
}

#[test]
fn horizontal_line() {
    assert_eq!(line(0, 0, 3, 0), vec![(0, 0), (1, 0), (2, 0), (3, 0)]);
}

#[test]
fn backward_line() {
    assert_eq!(line(3, 0, 0, 0), vec![(0, 0), (1, 0), (2, 0), (3, 0)]);
    assert_eq!(line(3, 3, 0, 0), vec![(0, 0), (1, 1), (2, 2), (3, 3)]);
}

#[test]
fn diagonal_line() {
    assert_eq!(line(0, 0, 3, 3), vec![(0, 0), (1, 1), (2, 2), (3, 3)]);
}

#[test]
fn steep_line_keeps_last_row_of_column() {
    assert_eq!(line(0, 0, 1, 3), vec![(0, 1), (1, 3)]);
}

#[test]
fn single_point_line() {
    assert_eq!(line(2, 5, 2, 5), vec![(2, 5)]);
}

#[test]
fn square_roots() {
    assert_eq!(integer_sqrt(0), 0);
    assert_eq!(integer_sqrt(15), 3);
    assert_eq!(integer_sqrt(16), 4);
    assert_eq!(integer_sqrt(u64::MAX), 4294967295);
}

#[test]
fn polyline_has_no_gaps() {
    let points = vec![(0, 5), (4, 5), (8, 1), (20, 40), (25, 2)];
    let graph = rasterize_polyline(&points);
    for x in 0..=25 {
        assert!(graph.contains_key(&x), "column {x} missing");
    }
    assert_eq!(graph[&0], 5);
    // The steep piece after (8, 1) walks down column 8 as well; its last row there wins.
    assert_eq!(graph[&8], 2);
    let rows: Vec<i64> = (0..=25).map(|x| graph[&x]).collect();
    for pair in rows.windows(2) {
        assert!((pair[0] - pair[1]).abs() <= 8, "rows {pair:?} jump more than the steepest piece");
    }
}

#[test]
fn empty_polyline() {
    assert!(rasterize_polyline(&Vec::new()).is_empty());
}

#[test]
fn straight_curve_covers_its_columns() {
    let s = SUBPIXEL;
    let seg = CurveSegment {
        start: (0, 0),
        control_a: (3 * s, 0),
        control_b: (7 * s, 0),
        end: (10 * s, 0),
    };
    let mut graph = BTreeMap::new();
    collect_cubic_bezier_curve_points(&seg, &mut graph);
    let got: Vec<(i64, i64)> = graph.into_iter().collect();
    let want: Vec<(i64, i64)> = (0..=10).map(|x| (x, 0)).collect();
    assert_eq!(got, want);
}

#[test]
fn chained_curve_has_no_gaps() {
    let s = SUBPIXEL;
    let segs = vec![
        CurveSegment {
            start: (0, 10 * s),
            control_a: (10 * s, 0),
            control_b: (20 * s, 0),
            end: (30 * s, 10 * s),
        },
        CurveSegment {
            start: (30 * s, 10 * s),
            control_a: (40 * s, 20 * s),
            control_b: (50 * s, 20 * s),
            end: (60 * s, 10 * s),
        },
    ];
    let graph = rasterize_curve(&segs);
    for x in 0..=60 {
        assert!(graph.contains_key(&x), "column {x} missing");
    }
    assert_eq!(graph[&0], 10);
    assert_eq!(graph[&60], 10);
    assert!(graph[&15] < 10);
    assert!(graph[&45] > 10);
}

#[test]
fn no_curve_no_graph() {
    assert!(rasterize_curve(&Vec::new()).is_empty());
}

#[test]
fn curve_beyond_limit_is_skipped() {
    let far = 1i64 << 40;
    let segs = vec![CurveSegment {
        start: (0, 0),
        control_a: (far, 0),
        control_b: (far, 0),
        end: (far, 0),
    }];
    assert!(rasterize_curve(&segs).is_empty());
}

#[test]
fn steep_line_rows_climb_at_most_the_slope() {
    // 7 rows over 2 columns: at most 4 rows between neighbouring columns.
    assert_eq!(line(0, 0, 2, 7), vec![(0, 1), (1, 5), (2, 7)]);
}
