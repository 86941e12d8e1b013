use satori::frame::{
    hsv_to_rgb, render, set_dimensions, set_px, shade, Framebuffer, RenderError, Rgba, Sample,
    CAPACITY, HIT_VALUE, STATIC_HEIGHT, STATIC_WIDTH,
};

const BLANK: Rgba = Rgba { r: 0, g: 0, b: 0, a: 0 };
const BLACK: Rgba = Rgba { r: 0, g: 0, b: 0, a: 255 };

/// The conversion in single-precision floating point.
fn hsv_f32(h: u8, s: u8, v: u8) -> (u8, u8, u8) {
    let h = h as f32 / 255.0 * 360.0;
    let s = s as f32 / 255.0;
    let v = v as f32 / 255.0;
    let c = v * s;
    let x = c * (1.0 - ((h / 60.0) % 2.0 - 1.0).abs());
    let m = v - c;
    let (r, g, b) = if h < 60.0 {
        (c, x, 0.0)
    } else if h < 120.0 {
        (x, c, 0.0)
    } else if h < 180.0 {
        (0.0, c, x)
    } else if h < 240.0 {
        (0.0, x, c)
    } else if h < 300.0 {
        (x, 0.0, c)
    } else {
        (c, 0.0, x)
    };
    (
        ((r + m) * 255.0).round() as u8,
        ((g + m) * 255.0).round() as u8,
        ((b + m) * 255.0).round() as u8,
    )
}

#[test]
fn negotiate_keeps_a_preferred_size_below_capacity() {
    assert_eq!(set_dimensions(32, 0, 0, 100, 100, 4000, 4000), (100, 100));
    assert_eq!(set_dimensions(32, 100, 100, 640, 480, 2560, 1440), (640, 480));
}

#[test]
fn negotiate_falls_back_to_capacity() {
    assert_eq!(set_dimensions(32, 0, 0, 2000, 2000, 4000, 4000), (1024, 768));
    assert_eq!(set_dimensions(32, 0, 0, 2000, 100, 4000, 4000), (1024, 768));
    assert_eq!(set_dimensions(32, 0, 0, 100, 2000, 4000, 4000), (1024, 768));
}

#[test]
fn negotiate_is_strict_at_the_boundary() {
    assert_eq!(set_dimensions(96, 0, 0, 1023, 767, 0, 0), (1023, 767));
    assert_eq!(set_dimensions(96, 0, 0, 1024, 767, 0, 0), (1024, 768));
    assert_eq!(set_dimensions(96, 0, 0, 1023, 768, 0, 0), (1024, 768));
    assert_eq!(set_dimensions(96, 0, 0, 1024, 768, 0, 0), (1024, 768));
}

#[test]
fn negotiate_ignores_everything_but_the_preferred_size() {
    let a = set_dimensions(1, 2, 3, 300, 200, 4, 5);
    let b = set_dimensions(-9, 5000, 5000, 300, 200, -1, -1);
    assert_eq!(a, (300, 200));
    assert_eq!(a, b);
    assert_eq!(set_dimensions(0, 0, 0, -5, -7, 0, 0), (-5, -7));
    assert_eq!(set_dimensions(0, 0, 0, i32::MIN, 0, 0, 0), (i32::MIN, 0));
    assert_eq!(set_dimensions(0, 0, 0, i32::MAX, 0, 0, 0), (1024, 768));
}

#[test]
fn capacity_is_width_times_height() {
    assert_eq!(STATIC_WIDTH, 1024);
    assert_eq!(STATIC_HEIGHT, 768);
    assert_eq!(CAPACITY, STATIC_WIDTH * STATIC_HEIGHT);
}

#[test]
fn a_new_framebuffer_is_blank() {
    let buf = Framebuffer::new();
    assert_eq!(buf.pixel(0), Some(BLANK));
    assert_eq!(buf.pixel(CAPACITY / 2), Some(BLANK));
    assert_eq!(buf.pixel(CAPACITY - 1), Some(BLANK));
    assert_eq!(buf.pixel(CAPACITY), None);
    assert_eq!(buf.pixel(usize::MAX), None);
    assert_eq!(buf.as_bytes().len(), 4 * CAPACITY);
    assert!(buf.as_bytes().iter().all(|b| *b == 0));
}

#[test]
fn set_px_writes_one_cell() {
    let mut buf = Framebuffer::new();
    set_px(&mut buf, 3, 2, 10, 1, 2, 3, 4);
    assert_eq!(buf.pixel(23), Some(Rgba { r: 1, g: 2, b: 3, a: 4 }));
    assert_eq!(buf.pixel(22), Some(BLANK));
    assert_eq!(buf.pixel(24), Some(BLANK));
    assert_eq!(buf.pixel(32), Some(BLANK));
    let changed = (0..CAPACITY).filter(|k| buf.pixel(*k) != Some(BLANK)).count();
    assert_eq!(changed, 1);
}

#[test]
fn set_px_stores_rgba_bytes_in_order() {
    let mut buf = Framebuffer::new();
    set_px(&mut buf, 1, 1, 4, 10, 20, 30, 40);
    let bytes = buf.as_bytes();
    assert_eq!(&bytes[16..24], &[0, 0, 0, 0, 10, 20, 30, 40]);
    assert_eq!(&bytes[24..28], &[0, 0, 0, 0]);
}

#[test]
fn set_px_reaches_the_first_and_the_last_cell() {
    let mut buf = Framebuffer::new();
    set_px(&mut buf, 0, 0, 0, 9, 9, 9, 9);
    set_px(&mut buf, STATIC_WIDTH - 1, STATIC_HEIGHT - 1, STATIC_WIDTH, 7, 7, 7, 7);
    assert_eq!(buf.pixel(0), Some(Rgba { r: 9, g: 9, b: 9, a: 9 }));
    assert_eq!(buf.pixel(CAPACITY - 1), Some(Rgba { r: 7, g: 7, b: 7, a: 7 }));
    set_px(&mut buf, 0, 0, 0, 1, 1, 1, 1);
    assert_eq!(buf.pixel(0), Some(Rgba { r: 1, g: 1, b: 1, a: 1 }));
}

#[test]
fn hsv_bytes_exact_values() {
    assert_eq!(hsv_to_rgb(0, 0, 0), (0, 0, 0));
    assert_eq!(hsv_to_rgb(0, 255, 255), (255, 0, 0));
    assert_eq!(hsv_to_rgb(85, 255, 255), (0, 255, 0));
    assert_eq!(hsv_to_rgb(170, 255, 255), (0, 0, 255));
    assert_eq!(hsv_to_rgb(255, 255, 255), (255, 0, 0));
    assert_eq!(hsv_to_rgb(123, 0, 77), (77, 77, 77));
    assert_eq!(hsv_to_rgb(200, 90, 0), (0, 0, 0));
    // Hue 42 of 255 is just below 60 degrees, hue 43 just above.
    assert_eq!(hsv_to_rgb(42, 255, 255), (255, 252, 0));
    assert_eq!(hsv_to_rgb(43, 255, 255), (252, 255, 0));
    assert_eq!(hsv_to_rgb(62, 112, 56), (45, 56, 31));
}

#[test]
fn hsv_bytes_agree_with_floating_point() {
    // The inputs on which single precision rounds a channel that lies
    // within 0.00003 of a half the other way.
    let apart = [
        (154, 181, 209),
        (154, 209, 181),
        (166, 167, 193),
        (166, 193, 167),
        (189, 58, 163),
        (192, 137, 164),
        (192, 164, 137),
        (202, 177, 242),
        (202, 242, 177),
        (206, 201, 253),
        (206, 253, 201),
        (223, 239, 244),
        (223, 244, 239),
    ];
    let mut seen = 0;
    for h in 0..=255u8 {
        for s in (0..=255u8).step_by(3) {
            for v in (0..=255u8).step_by(5) {
                if apart.contains(&(h, s, v)) {
                    continue;
                }
                assert_eq!(hsv_to_rgb(h, s, v), hsv_f32(h, s, v), "{h} {s} {v}");
                seen += 1;
            }
        }
    }
    assert!(seen > 1_000_000);
    for (h, s, v) in apart.into_iter() {
        let exact = hsv_to_rgb(h, s, v);
        let float = hsv_f32(h, s, v);
        let off = (exact.0 as i32 - float.0 as i32).abs()
            + (exact.1 as i32 - float.1 as i32).abs()
            + (exact.2 as i32 - float.2 as i32).abs();
        assert_eq!(off, 1, "{h} {s} {v}");
    }
}

#[test]
fn hsv_bytes_agree_with_floating_point_at_the_hit_value() {
    for h in 0..=255u8 {
        for s in 0..=255u8 {
            assert_eq!(hsv_to_rgb(h, s, HIT_VALUE), hsv_f32(h, s, HIT_VALUE), "{h} {s}");
        }
    }
}

#[test]
fn shade_miss_is_opaque_black() {
    assert_eq!(shade(0, Sample::Miss), BLACK);
    assert_eq!(shade(200, Sample::Miss), BLACK);
}

#[test]
fn shade_hit_takes_the_intensity_as_saturation() {
    assert_eq!(HIT_VALUE, 100);
    assert_eq!(shade(0, Sample::Hit { intensity: 0 }), Rgba { r: 100, g: 100, b: 100, a: 255 });
    assert_eq!(shade(0, Sample::Hit { intensity: 255 }), Rgba { r: 100, g: 0, b: 0, a: 255 });
    assert_eq!(shade(85, Sample::Hit { intensity: 255 }), Rgba { r: 0, g: 100, b: 0, a: 255 });
    assert_eq!(shade(170, Sample::Hit { intensity: 128 }), Rgba { r: 50, g: 50, b: 100, a: 255 });
    for hue in [0u8, 17, 99, 254] {
        for intensity in [0u8, 1, 127, 255] {
            let (r, g, b) = hsv_to_rgb(hue, intensity, HIT_VALUE);
            assert_eq!(shade(hue, Sample::Hit { intensity }), Rgba { r, g, b, a: 255 });
        }
    }
}

#[test]
fn render_fills_the_frame_in_row_major_order() {
    let mut buf = Framebuffer::new();
    let samples = vec![
        Sample::Miss,
        Sample::Hit { intensity: 255 },
        Sample::Hit { intensity: 0 },
        Sample::Miss,
        Sample::Hit { intensity: 128 },
        Sample::Hit { intensity: 64 },
    ];
    assert_eq!(render(&mut buf, 170, 3, 2, &samples), Ok(()));
    for (k, sample) in samples.iter().enumerate() {
        assert_eq!(buf.pixel(k), Some(shade(170, *sample)), "{k}");
    }
    // Column 1 of row 1 is cell 1 * 3 + 1.
    assert_eq!(buf.pixel(4), Some(Rgba { r: 50, g: 50, b: 100, a: 255 }));
    assert_eq!(buf.pixel(6), Some(BLANK));
    assert_eq!(buf.pixel(CAPACITY - 1), Some(BLANK));
    assert_eq!(&buf.as_bytes()[0..8], &[0, 0, 0, 255, 0, 0, 100, 255]);
}

#[test]
fn render_keeps_what_lies_beyond_the_frame() {
    let mut buf = Framebuffer::new();
    let first = vec![Sample::Hit { intensity: 0 }; 12];
    assert_eq!(render(&mut buf, 0, 4, 3, &first), Ok(()));
    let second = vec![Sample::Miss; 4];
    assert_eq!(render(&mut buf, 0, 2, 2, &second), Ok(()));
    for k in 0..4 {
        assert_eq!(buf.pixel(k), Some(BLACK));
    }
    for k in 4..12 {
        assert_eq!(buf.pixel(k), Some(Rgba { r: 100, g: 100, b: 100, a: 255 }));
    }
    assert_eq!(buf.pixel(12), Some(BLANK));
}

#[test]
fn render_takes_an_empty_frame() {
    let mut buf = Framebuffer::new();
    assert_eq!(render(&mut buf, 1, 0, 0, &Vec::new()), Ok(()));
    assert_eq!(render(&mut buf, 1, 0, 500, &Vec::new()), Ok(()));
    assert_eq!(render(&mut buf, 1, 2000, 0, &Vec::new()), Ok(()));
    assert!(buf.as_bytes().iter().all(|b| *b == 0));
}

#[test]
fn render_takes_a_full_frame() {
    let mut buf = Framebuffer::new();
    let samples = vec![Sample::Hit { intensity: 255 }; CAPACITY];
    assert_eq!(render(&mut buf, 85, 1024, 768, &samples), Ok(()));
    let green = Rgba { r: 0, g: 100, b: 0, a: 255 };
    assert_eq!(buf.pixel(0), Some(green));
    assert_eq!(buf.pixel(CAPACITY - 1), Some(green));
    assert!((0..CAPACITY).all(|k| buf.pixel(k) == Some(green)));
}

#[test]
fn render_refuses_a_frame_beyond_capacity() {
    let mut buf = Framebuffer::new();
    let samples = vec![Sample::Miss; 4];
    assert_eq!(render(&mut buf, 0, 2000, 2000, &samples), Err(RenderError::CapacityExceeded));
    assert_eq!(render(&mut buf, 0, 1025, 768, &samples), Err(RenderError::CapacityExceeded));
    assert_eq!(render(&mut buf, 0, 1, 786433, &samples), Err(RenderError::CapacityExceeded));
    assert_eq!(render(&mut buf, 0, -2, 2, &samples), Err(RenderError::CapacityExceeded));
    assert_eq!(render(&mut buf, 0, 2, -2, &samples), Err(RenderError::CapacityExceeded));
    assert_eq!(render(&mut buf, 0, -2, -2, &samples), Err(RenderError::CapacityExceeded));
    assert_eq!(
        render(&mut buf, 0, i32::MAX, i32::MAX, &samples),
        Err(RenderError::CapacityExceeded)
    );
    assert!(buf.as_bytes().iter().all(|b| *b == 0));
}

#[test]
fn render_refuses_the_wrong_number_of_samples() {
    let mut buf = Framebuffer::new();
    let samples = vec![Sample::Hit { intensity: 9 }; 5];
    assert_eq!(render(&mut buf, 0, 2, 2, &samples), Err(RenderError::SampleCount));
    assert_eq!(render(&mut buf, 0, 3, 2, &samples), Err(RenderError::SampleCount));
    assert_eq!(render(&mut buf, 0, 0, 0, &samples), Err(RenderError::SampleCount));
    assert!(buf.as_bytes().iter().all(|b| *b == 0));
    assert_eq!(render(&mut buf, 0, 5, 1, &samples), Ok(()));
    // A frame of 768 by 1024 has the capacity's number of pixels and fits.
    let full = vec![Sample::Miss; CAPACITY];
    assert_eq!(render(&mut buf, 0, 768, 1024, &full), Ok(()));
}
