use raytracing::camera::Camera;

#[test]
fn even_partition() {
    let cam = Camera::new(1200, 675, 4);
    assert_eq!(cam.get_width(), 1200);
    assert_eq!(cam.get_height(), 675);
    assert_eq!(cam.num_views(), 4);
    assert_eq!(cam.passes_wanted(), 0);
    for (i, (x, w)) in [(0, 300), (300, 300), (600, 300), (900, 300)].iter().enumerate() {
        assert_eq!(cam.view_x(i), *x);
        assert_eq!(cam.view_width(i), *w);
    }
}

#[test]
fn uneven_partition() {
    let cam = Camera::new(7, 1, 3);
    assert_eq!(cam.view_x(0), 0);
    assert_eq!(cam.view_x(1), 2);
    assert_eq!(cam.view_x(2), 4);
    assert_eq!(cam.view_width(0), 2);
    assert_eq!(cam.view_width(1), 2);
    assert_eq!(cam.view_width(2), 3);
}

#[test]
fn single_strip_takes_whole_image() {
    let cam = Camera::new(99, 55, 1);
    assert_eq!(cam.num_views(), 1);
    assert_eq!(cam.view_x(0), 0);
    assert_eq!(cam.view_width(0), 99);
}

#[test]
fn one_strip_per_column() {
    let cam = Camera::new(5, 9, 5);
    for i in 0..5 {
        assert_eq!(cam.view_x(i), i);
        assert_eq!(cam.view_width(i), 1);
    }
}

#[test]
fn strips_tile_and_stay_balanced() {
    for (w, n) in [
        (64u16, 3u8),
        (100, 7),
        (1200, 4),
        (1200, 11),
        (65535, 255),
        (255, 255),
        (16, 16),
    ] {
        let cam = Camera::new(w, 10, n);
        let base = (w as usize) / (n as usize);
        let mut end = 0usize;
        let mut total = 0usize;
        for i in 0..cam.num_views() {
            assert_eq!(cam.view_x(i), end, "strip {i} of w={w}, n={n} not contiguous");
            let width = cam.view_width(i);
            assert!(width == base || width == base + 1, "unbalanced strip {i}");
            assert!(width >= 1);
            end += width;
            total += width;
        }
        assert_eq!(end, w as usize);
        assert_eq!(total, w as usize);
    }
}

#[test]
fn pass_target_advances_only_when_all_report_done() {
    let mut cam = Camera::new(8, 2, 2);
    assert_eq!(cam.passes_wanted(), 0);

    // Both workers report the wanted count reached: the target advances.
    assert!(cam.finish_tick(&vec![0, 0]));
    assert_eq!(cam.passes_wanted(), 1);

    // One worker lags behind: the target holds still.
    assert!(!cam.finish_tick(&vec![1, 0]));
    assert_eq!(cam.passes_wanted(), 1);

    // Workers may run ahead; the target still advances one tick at a time.
    assert!(cam.finish_tick(&vec![5, 3]));
    assert_eq!(cam.passes_wanted(), 2);
}
