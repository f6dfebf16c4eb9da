use mandelbrot::raster::{
    intensity, mandelbrot_screen, sample_count, try_mandelbrot_screen, RasterError,
};

#[test]
fn intensity_of_zero_is_black() {
    for limit in 1..300usize {
        assert_eq!(intensity(0, limit), 0);
    }
}

#[test]
fn intensity_of_limit_is_white() {
    for limit in 1..300usize {
        assert_eq!(intensity(limit, limit), 255);
    }
    assert_eq!(intensity(usize::MAX, usize::MAX), 255);
}

#[test]
fn intensity_rounds_down() {
    assert_eq!(intensity(1, 2), 127);
    assert_eq!(intensity(5, 10), 127);
    assert_eq!(intensity(1, 3), 85);
    assert_eq!(intensity(2, 3), 170);
    assert_eq!(intensity(1, 256), 0);
    assert_eq!(intensity(2, 256), 1);
    assert_eq!(intensity(999, 1000), 254);
    assert_eq!(intensity(1, 1000), 0);
    assert_eq!(intensity(4, 1000), 1);
}

#[test]
fn intensity_does_not_overflow() {
    assert_eq!(intensity(usize::MAX - 1, usize::MAX), 254);
    assert_eq!(intensity(usize::MAX / 2, usize::MAX), 127);
    assert_eq!(intensity(usize::MAX / 255 + 1, usize::MAX), 1);
}

#[test]
fn intensity_is_monotonic() {
    for limit in [1usize, 2, 7, 10, 255, 256, 1000] {
        let mut last = 0u8;
        for k in 0..=limit {
            let v = intensity(k, limit);
            assert!(v >= last);
            last = v;
        }
        assert_eq!(last, 255);
    }
}

#[test]
fn raster_of_two_points_inside_the_set() {
    // Two pixels one unit apart from the origin, one iteration allowed:
    // neither point escapes, so both counts equal the limit.
    let screen = mandelbrot_screen(2, 1, &[1, 1], 1);
    assert_eq!(screen.width(), 2);
    assert_eq!(screen.height(), 1);
    assert_eq!(screen.bytes(), &[255, 255, 255, 255, 255, 255, 255, 255]);
}

#[test]
fn raster_of_point_that_escapes_at_once() {
    for limit in [1usize, 2, 10, 1000] {
        let screen = mandelbrot_screen(1, 1, &[0], limit);
        assert_eq!(screen.bytes(), &[0, 0, 0, 255]);
    }
}

#[test]
fn raster_is_row_major() {
    let counts = [0usize, 1, 2, 3, 4, 5];
    let screen = mandelbrot_screen(3, 2, &counts, 5);
    assert_eq!(screen.bytes().len(), 24);
    let grays = [0u8, 51, 102, 153, 204, 255];
    for h in 0..2 {
        for w in 0..3 {
            let at = 4 * (3 * h + w);
            let g = grays[3 * h + w];
            assert_eq!(&screen.bytes()[at..at + 4], &[g, g, g, 255]);
        }
    }
}

#[test]
fn raster_paints_every_pixel_opaque() {
    let counts = vec![3usize; 35];
    let screen = mandelbrot_screen(7, 5, &counts, 10);
    assert_eq!(screen.bytes().len(), 140);
    for pixel in screen.bytes().chunks(4) {
        assert_eq!(pixel, &[76, 76, 76, 255]);
    }
}

#[test]
fn raster_length_matches_dimensions() {
    for width in 1..6usize {
        for height in 1..6usize {
            let counts = vec![1usize; width * height];
            let screen = mandelbrot_screen(width, height, &counts, 4);
            assert_eq!(screen.bytes().len(), 4 * width * height);
            assert_eq!(screen.width(), width);
            assert_eq!(screen.height(), height);
        }
    }
}

#[test]
fn raster_export_is_repeatable() {
    let screen = mandelbrot_screen(2, 2, &[0, 5, 10, 3], 10);
    let first = screen.image_data().bytes.to_vec();
    let second = screen.image_data();
    assert_eq!(first.as_slice(), second.bytes);
    assert_eq!(second.width, 2);
    assert_eq!(
        first,
        vec![0, 0, 0, 255, 127, 127, 127, 255, 255, 255, 255, 255, 76, 76, 76, 255]
    );
}

#[test]
fn sample_count_is_the_number_of_pixels() {
    assert_eq!(sample_count(600, 600, 10), Ok(360_000));
    assert_eq!(sample_count(1, 1, 1), Ok(1));
    assert_eq!(sample_count(3, 2, usize::MAX), Ok(6));
}

#[test]
fn sample_count_refuses_zero_dimension() {
    assert_eq!(sample_count(0, 5, 10), Err(RasterError::ZeroDimension));
    assert_eq!(sample_count(5, 0, 10), Err(RasterError::ZeroDimension));
    assert_eq!(sample_count(0, 0, 0), Err(RasterError::ZeroDimension));
    assert_eq!(sample_count(0, usize::MAX, 1), Err(RasterError::ZeroDimension));
}

#[test]
fn sample_count_refuses_too_large() {
    assert_eq!(sample_count(usize::MAX, 2, 10), Err(RasterError::TooLarge));
    assert_eq!(sample_count(usize::MAX, usize::MAX, 10), Err(RasterError::TooLarge));
    let most = (isize::MAX as usize) / 4;
    assert_eq!(sample_count(most + 1, 1, 10), Err(RasterError::TooLarge));
    assert_eq!(sample_count(1, most + 1, 0), Err(RasterError::TooLarge));
    assert_eq!(sample_count(most, 1, 10), Ok(most));
}

#[test]
fn sample_count_refuses_zero_limit() {
    assert_eq!(sample_count(5, 5, 0), Err(RasterError::ZeroLimit));
}

#[test]
fn try_raster_paints_a_valid_request() {
    let screen = try_mandelbrot_screen(2, 1, &[1, 1], 1).unwrap();
    assert_eq!(screen.bytes(), &[255, 255, 255, 255, 255, 255, 255, 255]);
    let screen = try_mandelbrot_screen(2, 2, &[0, 1, 2, 4], 4).unwrap();
    assert_eq!(
        screen.bytes(),
        &[0, 0, 0, 255, 63, 63, 63, 255, 127, 127, 127, 255, 255, 255, 255, 255]
    );
}

#[test]
fn try_raster_refuses_zero_dimension() {
    assert_eq!(
        try_mandelbrot_screen(0, 1, &[], 1).unwrap_err(),
        RasterError::ZeroDimension
    );
    assert_eq!(
        try_mandelbrot_screen(1, 0, &[], 1).unwrap_err(),
        RasterError::ZeroDimension
    );
    assert_eq!(
        try_mandelbrot_screen(0, 0, &[7], 0).unwrap_err(),
        RasterError::ZeroDimension
    );
}

#[test]
fn try_raster_refuses_too_large() {
    assert_eq!(
        try_mandelbrot_screen(usize::MAX, usize::MAX, &[1], 1).unwrap_err(),
        RasterError::TooLarge
    );
    assert_eq!(
        try_mandelbrot_screen((isize::MAX as usize) / 4 + 1, 1, &[], 0).unwrap_err(),
        RasterError::TooLarge
    );
}

#[test]
fn try_raster_refuses_zero_limit() {
    assert_eq!(
        try_mandelbrot_screen(2, 1, &[0, 0], 0).unwrap_err(),
        RasterError::ZeroLimit
    );
    assert_eq!(
        try_mandelbrot_screen(2, 1, &[], 0).unwrap_err(),
        RasterError::ZeroLimit
    );
}

#[test]
fn try_raster_refuses_wrong_number_of_counts() {
    assert_eq!(
        try_mandelbrot_screen(2, 2, &[1, 1, 1], 1).unwrap_err(),
        RasterError::CountsLength
    );
    assert_eq!(
        try_mandelbrot_screen(2, 2, &[1, 1, 1, 1, 1], 1).unwrap_err(),
        RasterError::CountsLength
    );
    assert_eq!(
        try_mandelbrot_screen(1, 1, &[], 1).unwrap_err(),
        RasterError::CountsLength
    );
    assert_eq!(
        try_mandelbrot_screen(2, 1, &[9, 9, 9], 1).unwrap_err(),
        RasterError::CountsLength
    );
}

#[test]
fn try_raster_refuses_count_above_limit() {
    assert_eq!(
        try_mandelbrot_screen(2, 2, &[1, 1, 1, 2], 1).unwrap_err(),
        RasterError::CountAboveLimit
    );
    assert_eq!(
        try_mandelbrot_screen(1, 1, &[usize::MAX], usize::MAX - 1).unwrap_err(),
        RasterError::CountAboveLimit
    );
    assert_eq!(
        try_mandelbrot_screen(3, 1, &[11, 0, 0], 10).unwrap_err(),
        RasterError::CountAboveLimit
    );
}
