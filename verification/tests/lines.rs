use tinyrender::Canvas;
use tinyrender::pack_color;

const WHITE: u32 = 0x00ff_ffff;

fn fresh_canvas(stride: usize, height: usize) -> Canvas {
    Canvas::new(stride, height, 0)
}

fn colored_pixels(c: &Canvas) -> Vec<(usize, usize)> {
    let mut out: Vec<(usize, usize)> = Vec::new();
    for y in 0..c.height_px() {
        for x in 0..c.stride_px() {
            if c.get(x, y) != 0 {
                out.push((x, y));
            }
        }
    }
    out
}

#[test]
fn pack_color_layout() {
    assert_eq!(pack_color(255, 255, 255), 0x00ff_ffff);
    assert_eq!(pack_color(1, 2, 3), 3 | (2 << 8) | (1 << 16));
    assert_eq!(pack_color(0, 0, 0), 0);
}

#[test]
fn horizontal_line_pixels() {
    let mut c = fresh_canvas(12, 12);
    tinyrender::raster::line(&mut c, 0, 5, 10, 5, 1, 255, 255, 255);
    let px = colored_pixels(&c);
    assert_eq!(px.len(), 11);
    for x in 0..=10usize {
        assert_eq!(c.get(x, 5), WHITE);
    }
    for (_, y) in px {
        assert_eq!(y, 5);
    }
}

#[test]
fn vertical_line_pixels() {
    let mut c = fresh_canvas(12, 12);
    tinyrender::raster::line(&mut c, 5, 0, 5, 10, 1, 255, 255, 255);
    let px = colored_pixels(&c);
    assert_eq!(px.len(), 11);
    for y in 0..=10usize {
        assert_eq!(c.get(5, y), WHITE);
    }
    for (x, _) in px {
        assert_eq!(x, 5);
    }
}

#[test]
fn diagonal_line_pixels() {
    let mut c = fresh_canvas(12, 12);
    tinyrender::raster::line(&mut c, 0, 0, 10, 10, 1, 255, 255, 255);
    let px = colored_pixels(&c);
    assert_eq!(px.len(), 11);
    for i in 0..=10usize {
        assert_eq!(c.get(i, i), WHITE);
    }
}

#[test]
fn endpoint_swap_plots_same_pixels() {
    let cases = [
        (1, 2, 9, 5),
        (9, 5, 1, 2),
        (0, 0, 3, 11),
        (7, 1, 2, 8),
        (4, 4, 4, 4),
        (0, 11, 11, 0),
    ];
    for &(x0, y0, x1, y1) in cases.iter() {
        let mut a = fresh_canvas(12, 12);
        let mut b = fresh_canvas(12, 12);
        tinyrender::raster::line(&mut a, x0, y0, x1, y1, 1, 200, 100, 50);
        tinyrender::raster::line(&mut b, x1, y1, x0, y0, 1, 200, 100, 50);
        assert_eq!(colored_pixels(&a), colored_pixels(&b));
    }
}

#[test]
fn pixel_count_is_dominant_axis_length_plus_one() {
    let cases = [
        (0, 0, 7, 3),
        (0, 0, 3, 7),
        (2, 9, 10, 1),
        (5, 5, 5, 5),
        (0, 4, 11, 4),
    ];
    for &(x0, y0, x1, y1) in cases.iter() {
        let mut c = fresh_canvas(12, 12);
        tinyrender::raster::line(&mut c, x0, y0, x1, y1, 1, 255, 255, 255);
        let dx = if x1 >= x0 { x1 - x0 } else { x0 - x1 };
        let dy = if y1 >= y0 { y1 - y0 } else { y0 - y1 };
        let expect = (if dx >= dy { dx } else { dy }) as usize + 1;
        assert_eq!(colored_pixels(&c).len(), expect);
    }
}

#[test]
fn single_point_line() {
    let mut c = fresh_canvas(8, 8);
    tinyrender::raster::line(&mut c, 4, 4, 4, 4, 1, 10, 20, 30);
    let px = colored_pixels(&c);
    assert_eq!(px, vec![(4usize, 4usize)]);
    assert_eq!(c.get(4, 4), pack_color(10, 20, 30));
}

#[test]
fn scale_multiplies_endpoint_coordinates() {
    let mut c = fresh_canvas(16, 16);
    tinyrender::raster::line(&mut c, 0, 0, 3, 1, 2, 255, 255, 255);
    // scaled endpoints are (0,0) and (6,2): 7 pixels along x
    let px = colored_pixels(&c);
    assert_eq!(px.len(), 7);
    assert_eq!(c.get(0, 0), WHITE);
    assert_eq!(c.get(6, 2), WHITE);
}

#[test]
fn line_leaves_other_pixels_untouched() {
    let mut c = Canvas::new(10, 10, 7);
    tinyrender::raster::line(&mut c, 0, 2, 9, 2, 1, 255, 0, 0);
    for y in 0..10usize {
        for x in 0..10usize {
            if y == 2 {
                assert_eq!(c.get(x, y), pack_color(255, 0, 0));
            } else {
                assert_eq!(c.get(x, y), 7);
            }
        }
    }
}
