use muvor::detect::{
    bands, contains, gradient, grid, iou, merge_bands, opaque_block, revalidate, targets_in, Claim,
    Fingerprint, Found, Params, Rect, Verdict, MAX_DRIFT, MIN_IOU,
};
use muvor::num::Ratio;

/// A ratio as a number.
fn value(r: Ratio) -> f64 {
    r.part as f64 / r.whole as f64
}

fn min_iou() -> f64 {
    MIN_IOU as f64 / 100.0
}

/// Where the gradient rises above its own mean and deviation.
fn edges(luma: &[u8], stride: usize, block: Rect, origin: (i32, i32)) -> Vec<Vec<bool>> {
    let mag: Vec<Vec<f32>> = gradient(luma, stride, block, origin)
        .iter()
        .map(|row| row.iter().map(|&m| (m as f32).sqrt()).collect())
        .collect();
    let n = (block.w.max(0) as usize * block.h.max(0) as usize) as f64;
    let mean = mag.iter().flatten().map(|&m| m as f64).sum::<f64>() / n;
    let var = mag.iter().flatten().map(|&m| (m as f64 - mean).powi(2)).sum::<f64>() / n;
    let threshold = (mean + var.sqrt()) as f32;
    mag.iter().map(|row| row.iter().map(|&m| m > threshold).collect()).collect()
}

fn grid_of(luma: &[u8], stride: usize, block: Rect, origin: (i32, i32), p: Params) -> Vec<Rect> {
    grid(block, &edges(luma, stride, block, origin), p)
}

fn targets_of(
    luma: &[u8],
    stride: usize,
    block: Rect,
    origin: (i32, i32),
    p: Params,
) -> (Vec<Rect>, Found) {
    targets_in(block, &edges(luma, stride, block, origin), p)
}

#[test]
fn opaque_block_is_the_whole_area_when_nothing_is_taken() {
    let a = Rect::new(10, 20, 100, 50);
    assert_eq!(opaque_block(a, &[]), Some(a));
}

#[test]
fn opaque_block_is_none_when_everything_is_taken() {
    let a = Rect::new(0, 0, 40, 40);
    assert_eq!(opaque_block(a, &[Rect::new(0, 0, 40, 40)]), None);
}

#[test]
fn opaque_block_finds_the_larger_of_two_free_regions() {
    let a = Rect::new(0, 0, 100, 100);
    let got = opaque_block(a, &[Rect::new(0, 30, 100, 10)]).expect("free space exists");
    assert_eq!(got, Rect::new(0, 40, 100, 60));
}

#[test]
fn opaque_block_reports_in_the_areas_own_coordinates() {
    let a = Rect::new(458, 293, 100, 100);
    let got = opaque_block(a, &[Rect::new(458, 293, 100, 40)]).expect("free space exists");
    assert_eq!(got, Rect::new(458, 333, 100, 60));
}

#[test]
fn opaque_block_survives_a_degenerate_rectangle() {
    let a = Rect::new(0, 0, 20, 20);
    let got = opaque_block(a, &[Rect::new(i32::MIN, i32::MIN, 4, 4)]);
    assert_eq!(got, Some(a));
}

#[test]
fn bands_split_only_on_a_wide_enough_gap() {
    let p = [1u32, 1, 0, 1, 1, 0, 0, 0, 1, 1];
    assert_eq!(bands(&p, 3, 1), vec![(0, 5), (8, 10)]);
}

#[test]
fn bands_drop_runs_shorter_than_min_run() {
    let p = [1u32, 0, 0, 0, 1, 1, 1, 1];
    assert_eq!(bands(&p, 3, 3), vec![(4, 8)]);
}

#[test]
fn merge_bands_pairs_an_icon_with_its_label() {
    let bs = [(41, 127), (140, 157), (179, 265), (278, 295)];
    assert_eq!(merge_bands(&bs), vec![(41, 157), (179, 295)]);
}

#[test]
fn merge_bands_leaves_a_uniform_run_alone() {
    let bs = [(0, 10), (20, 30), (40, 50), (60, 70)];
    assert_eq!(merge_bands(&bs), bs.to_vec());
}

fn synthetic_grid(cols: usize, rows: usize) -> (Vec<u8>, usize, usize) {
    let (pitch, size, margin) = (60usize, 30usize, 15usize);
    let (w, h) = (margin * 2 + pitch * cols, margin * 2 + pitch * rows);
    let mut buf = vec![0u8; w * h];
    for r in 0..rows {
        for c in 0..cols {
            let (x0, y0) = (margin + c * pitch, margin + r * pitch);
            for y in y0..y0 + size {
                buf[y * w + x0..y * w + x0 + size].fill(255);
            }
        }
    }
    (buf, w, h)
}

#[test]
fn grid_finds_every_item_of_a_synthetic_grid() {
    let (buf, w, h) = synthetic_grid(5, 4);
    let got = grid_of(&buf, w, Rect::new(0, 0, w as i32, h as i32), (0, 0), Params::default());
    assert_eq!(got.len(), 20, "5x4 squares should give 20 cells, got {got:?}");
    for r in &got {
        let (cx, cy) = r.centre();
        assert_eq!(
            buf[cy as usize * w + cx as usize], 255,
            "centre {cx},{cy} landed off the square"
        );
    }
    assert!(h > 0);
}

fn dense_texture(w: usize, h: usize) -> Vec<u8> {
    let mut buf = vec![0u8; w * h];
    let mut state: u64 = 12345;
    for p in buf.iter_mut() {
        state = state.wrapping_mul(1103515245).wrapping_add(12345) & 0x7fff_ffff;
        *p = ((state >> 16) & 0xff) as u8;
    }
    buf
}

#[test]
fn grid_returns_one_cell_when_there_is_no_grid() {
    let (w, h) = (200usize, 120usize);
    let buf = dense_texture(w, h);
    let got = grid_of(&buf, w, Rect::new(0, 0, w as i32, h as i32), (0, 0), Params::default());
    assert_eq!(got.len(), 1, "a region with no gaps is one target, got {got:?}");
}

#[test]
fn grid_finds_nothing_in_a_perfectly_uniform_field() {
    let (w, h) = (120usize, 80usize);
    let mut buf = vec![0u8; w * h];
    for y in 0..h {
        for x in 0..w {
            buf[y * w + x] = if (x + y) % 2 == 0 { 0 } else { 255 };
        }
    }
    let got = grid_of(&buf, w, Rect::new(0, 0, w as i32, h as i32), (0, 0), Params::default());
    assert!(got.is_empty(), "expected an honest nothing, got {got:?}");
}

#[test]
fn targets_in_always_offers_something_d11_can_click() {
    let (w, h) = (120usize, 80usize);
    let block = Rect::new(0, 0, w as i32, h as i32);
    let mut buf = vec![0u8; w * h];
    for y in 0..h {
        for x in 0..w {
            buf[y * w + x] = if (x + y) % 2 == 0 { 0 } else { 255 };
        }
    }
    let (got, found) = targets_of(&buf, w, block, (0, 0), Params::default());
    assert_eq!(found, Found::Single);
    assert_eq!(got, vec![block], "the region itself is the target");

    let flat = vec![17u8; w * h];
    let (got, found) = targets_of(&flat, w, block, (0, 0), Params::default());
    assert_eq!(found, Found::Single);
    assert_eq!(got.len(), 1);
}

#[test]
fn targets_in_reports_a_real_grid_as_a_grid() {
    let (buf, w, h) = synthetic_grid(5, 4);
    let (got, found) =
        targets_of(&buf, w, Rect::new(0, 0, w as i32, h as i32), (0, 0), Params::default());
    assert_eq!(found, Found::Grid(20));
    assert_eq!(got.len(), 20);
    assert!(h > 0);
}

#[test]
fn grid_returns_nothing_for_a_blank_region() {
    let buf = vec![17u8; 100 * 100];
    let got = grid_of(&buf, 100, Rect::new(0, 0, 100, 100), (0, 0), Params::default());
    assert!(got.is_empty(), "a flat region has nothing to click, got {got:?}");
}

#[test]
fn grid_reports_in_the_callers_coordinates() {
    let (buf, w, h) = synthetic_grid(2, 2);
    let origin = (458, 293);
    let block = Rect::new(origin.0, origin.1, w as i32, h as i32);
    let got = grid_of(&buf, w, block, origin, Params::default());
    assert_eq!(got.len(), 4);
    for r in &got {
        assert!(r.x >= origin.0 && r.y >= origin.1, "{r:?} is not in screen space");
    }
    assert!(h > 0);
}

#[test]
fn params_scale_the_distances_and_not_the_ratio() {
    let d = Params::default();
    let two = Params::for_scale(Ratio { part: 2, whole: 1 });
    assert_eq!(two.min_gap, d.min_gap * 2);
    assert_eq!(two.min_run, d.min_run * 2);
    assert_eq!(two.min_fill, d.min_fill);
}

fn flat(v: u8, w: usize, h: usize) -> Vec<u8> {
    vec![v; w * h]
}

fn patched(w: usize, h: usize, rect: Rect, v: u8) -> Vec<u8> {
    let mut buf = flat(10, w, h);
    for y in rect.y.max(0) as usize..(rect.y + rect.h).min(h as i32) as usize {
        for x in rect.x.max(0) as usize..(rect.x + rect.w).min(w as i32) as usize {
            buf[y * w + x] = v;
        }
    }
    buf
}

fn claim_at(rect: Rect, luma: &[u8], w: usize) -> Claim {
    Claim {
        rect,
        click: rect.centre(),
        print: Fingerprint::of(luma, w, rect, (0, 0)),
    }
}

#[test]
fn unchanged_is_ok() {
    let (w, h) = (200usize, 200usize);
    let r = Rect::new(20, 20, 60, 60);
    let buf = patched(w, h, r, 240);
    let c = claim_at(r, &buf, w);
    assert_eq!(revalidate(&c, &[r], &buf, w, (0, 0)), Verdict::Valid);
}

#[test]
fn nothing_under_the_point_is_gone() {
    let (w, h) = (200usize, 200usize);
    let r = Rect::new(20, 20, 60, 60);
    let buf = patched(w, h, r, 240);
    let c = claim_at(r, &buf, w);
    let elsewhere = Rect::new(120, 120, 60, 60);
    assert_eq!(revalidate(&c, &[elsewhere], &buf, w, (0, 0)), Verdict::Gone);
    assert_eq!(revalidate(&c, &[], &buf, w, (0, 0)), Verdict::Gone);
}

#[test]
fn a_partly_scrolled_item_is_refused_as_moved() {
    let (w, h) = (200usize, 400usize);
    let r = Rect::new(20, 20, 60, 60);
    let buf = patched(w, h, r, 240);
    let c = claim_at(r, &buf, w);
    let scrolled = Rect::new(20, 45, 60, 60);
    assert!(contains(scrolled, c.click), "the test needs the point still inside");
    assert!(value(iou(scrolled, r)) < min_iou());
    assert_eq!(revalidate(&c, &[scrolled], &buf, w, (0, 0)), Verdict::Moved);
}

#[test]
fn a_scroll_by_exactly_one_pitch_is_caught_by_the_fingerprint_alone() {
    let (w, h) = (200usize, 400usize);
    let slot = Rect::new(20, 20, 60, 60);
    let before = patched(w, h, slot, 240);
    let after = patched(w, h, slot, 40);
    let c = claim_at(slot, &before, w);
    assert_eq!(value(iou(slot, slot)), 1.0, "the geometry is unchanged");
    assert_eq!(revalidate(&c, &[slot], &after, w, (0, 0)), Verdict::Changed);
}

#[test]
fn a_few_pixels_of_movement_is_allowed() {
    let (w, h) = (200usize, 200usize);
    let r = Rect::new(20, 20, 60, 60);
    let moved = Rect::new(22, 22, 60, 60);
    let buf = patched(w, h, moved, 240);
    let c = Claim { rect: r, click: r.centre(), print: Fingerprint::of(&buf, w, moved, (0, 0)) };
    assert!(value(iou(moved, r)) > min_iou(), "2px should be well inside tolerance");
    assert_eq!(revalidate(&c, &[moved], &buf, w, (0, 0)), Verdict::Valid);
}

#[test]
fn same_rectangle_different_content_is_refused() {
    let (w, h) = (200usize, 200usize);
    let r = Rect::new(20, 20, 60, 60);
    let before = patched(w, h, r, 240);
    let after = patched(w, h, r, 60);
    let c = claim_at(r, &before, w);
    assert_eq!(value(iou(r, r)), 1.0);
    assert_eq!(revalidate(&c, &[r], &after, w, (0, 0)), Verdict::Changed);
}

#[test]
fn a_fingerprint_of_itself_is_zero() {
    let (w, h) = (128usize, 128usize);
    let buf = patched(w, h, Rect::new(10, 10, 40, 40), 200);
    let r = Rect::new(0, 0, 128, 128);
    let a = Fingerprint::of(&buf, w, r, (0, 0));
    assert_eq!(value(a.distance(&a)), 0.0);
}

#[test]
fn a_fingerprint_keeps_detail_a_thumbnail_would_lose() {
    let (w, h) = (64usize, 64usize);
    let mut a = flat(0, w, h);
    let mut b = flat(0, w, h);
    for x in 0..w {
        a[30 * w + x] = 255;
        b[34 * w + x] = 255;
    }
    let r = Rect::new(0, 0, w as i32, h as i32);
    let d = value(Fingerprint::of(&a, w, r, (0, 0)).distance(&Fingerprint::of(&b, w, r, (0, 0))));
    assert!(d > MAX_DRIFT as f64, "a moved stripe must read as different, got {d}");
}

#[test]
fn fingerprint_survives_a_rectangle_off_the_edge() {
    let (w, h) = (32usize, 32usize);
    let buf = flat(99, w, h);
    let r = Rect::new(-8, 20, 40, 40);
    let f = Fingerprint::of(&buf, w, r, (0, 0));
    assert_eq!(value(f.distance(&f)), 0.0);
}

#[test]
fn iou_is_zero_for_disjoint_and_one_for_identical() {
    let a = Rect::new(0, 0, 10, 10);
    assert_eq!(value(iou(a, a)), 1.0);
    assert_eq!(value(iou(a, Rect::new(50, 50, 10, 10))), 0.0);
}
