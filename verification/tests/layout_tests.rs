use gmaildb::layout::{layout_rects, Rect};

fn area(r: Rect) -> u64 {
    ((r.x1 - r.x0) as u64) * ((r.y1 - r.y0) as u64)
}

#[test]
fn proportional_tiling_on_square() {
    let rect = Rect { x0: 0, y0: 0, x1: 100, y1: 100 };
    let counts = vec![10u64, 30, 60];
    let rects = layout_rects(rect, &counts);
    assert_eq!(rects.len(), 3);
    assert_eq!(rects[0], Rect { x0: 0, y0: 0, x1: 10, y1: 100 });
    assert_eq!(rects[1], Rect { x0: 10, y0: 0, x1: 40, y1: 100 });
    assert_eq!(rects[2], Rect { x0: 40, y0: 0, x1: 100, y1: 100 });
    assert_eq!(area(rects[0]), 1000);
    assert_eq!(area(rects[1]), 3000);
    assert_eq!(area(rects[2]), 6000);
    let total: u64 = rects.iter().map(|r| area(*r)).sum();
    assert_eq!(total, area(rect));
}

#[test]
fn areas_sum_to_rect_area_with_rounding() {
    let rect = Rect { x0: 5, y0: 7, x1: 15, y1: 27 };
    let counts = vec![1u64, 1, 1];
    let rects = layout_rects(rect, &counts);
    // width 10 split three ways: 3, 3, 4
    assert_eq!(rects[0], Rect { x0: 5, y0: 7, x1: 8, y1: 27 });
    assert_eq!(rects[1], Rect { x0: 8, y0: 7, x1: 11, y1: 27 });
    assert_eq!(rects[2], Rect { x0: 11, y0: 7, x1: 15, y1: 27 });
    let total: u64 = rects.iter().map(|r| area(*r)).sum();
    assert_eq!(total, area(rect));
}

#[test]
fn zero_count_gets_zero_area_but_keeps_its_place() {
    let rect = Rect { x0: 0, y0: 0, x1: 10, y1: 10 };
    let counts = vec![5u64, 0, 5];
    let rects = layout_rects(rect, &counts);
    assert_eq!(rects.len(), 3);
    assert_eq!(area(rects[0]), 50);
    assert_eq!(area(rects[1]), 0);
    assert_eq!(area(rects[2]), 50);
    let total: u64 = rects.iter().map(|r| area(*r)).sum();
    assert_eq!(total, area(rect));
}

#[test]
fn zero_total_collapses_everything_without_error() {
    let rect = Rect { x0: 2, y0: 3, x1: 12, y1: 13 };
    let counts = vec![0u64, 0];
    let rects = layout_rects(rect, &counts);
    assert_eq!(rects.len(), 2);
    for r in &rects {
        assert_eq!(area(*r), 0);
    }
}

#[test]
fn empty_counts_lay_out_nothing() {
    let rect = Rect { x0: 0, y0: 0, x1: 10, y1: 10 };
    let counts: Vec<u64> = Vec::new();
    let rects = layout_rects(rect, &counts);
    assert!(rects.is_empty());
}

#[test]
fn huge_counts_stay_exact() {
    let rect = Rect { x0: 0, y0: 0, x1: 100, y1: 1 };
    let counts = vec![u64::MAX / 2, u64::MAX / 2];
    let rects = layout_rects(rect, &counts);
    assert_eq!(rects[0].x1 - rects[0].x0, 50);
    assert_eq!(rects[1].x1 - rects[1].x0, 50);
}

#[test]
fn area_px_matches_corner_arithmetic() {
    let rect = Rect { x0: 3, y0: 4, x1: 103, y1: 54 };
    assert_eq!(rect.area_px(), 100 * 50);
    assert_eq!(Rect::zero().area_px(), 0);
}
