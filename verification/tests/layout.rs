use mandelbrot::band_layout;
use mandelbrot::pixel_index;
use mandelbrot::shade;
use mandelbrot::ImageBounds;

#[test]
fn shade_levels() {
    assert_eq!(shade(None), 0);
    assert_eq!(shade(Some(0)), 255);
    assert_eq!(shade(Some(1)), 254);
    assert_eq!(shade(Some(254)), 1);
}

#[test]
fn pixel_index_row_major() {
    let bounds = ImageBounds { width: 4, height: 3 };
    assert_eq!(pixel_index(&bounds, 0, 0), 0);
    assert_eq!(pixel_index(&bounds, 0, 3), 3);
    assert_eq!(pixel_index(&bounds, 2, 1), 9);
    assert_eq!(pixel_index(&bounds, 2, 3), 11);
}

#[test]
fn image_bounds_accepts_only_positive_sides() {
    assert_eq!(ImageBounds::new(4, 3), Some(ImageBounds { width: 4, height: 3 }));
    assert_eq!(ImageBounds::new(0, 3), None);
    assert_eq!(ImageBounds::new(4, 0), None);
    assert_eq!(ImageBounds::new(usize::MAX, 2), None);
}

#[test]
fn band_layout_even_split() {
    let bands = band_layout(18, 8);
    assert_eq!(bands.len(), 9);
    for (i, b) in bands.iter().enumerate() {
        assert_eq!(b.top, 2 * i);
        assert_eq!(b.height, 2);
    }
}

#[test]
fn band_layout_remainder_goes_to_extra_bands() {
    let bands = band_layout(19, 8);
    assert_eq!(bands.len(), 10);
    assert_eq!(bands[9].top, 18);
    assert_eq!(bands[9].height, 1);

    let bands = band_layout(3000, 8);
    assert_eq!(bands[0].height, 333);
    assert_eq!(bands.last().unwrap().height, 3);
}

#[test]
fn band_layout_partitions_every_height() {
    for height in [9usize, 10, 17, 100, 101, 3000] {
        for workers in [1usize, 2, 7, 8] {
            if workers + 1 > height {
                continue;
            }
            let bands = band_layout(height, workers);
            let mut next_row = 0;
            for b in &bands {
                assert_eq!(b.top, next_row);
                assert!(b.height > 0);
                next_row = b.top + b.height;
            }
            assert_eq!(next_row, height);
        }
    }
}
