use libblur::fast_gaussian::{
    fast_gaussian_horizontal_pass_sse_u8, fast_gaussian_impl, fast_gaussian_vertical_pass_sse_u8,
};
use libblur::gauss::sweep_gauss;
use libblur::reciprocal::Reciprocal;
use libblur::{fast_gaussian, EdgeMode, FastBlurChannels, ThreadingPolicy};

fn pseudo_random(len: usize, seed: u32) -> Vec<u8> {
    let mut state = seed;
    let mut out = Vec::with_capacity(len);
    for _ in 0..len {
        state = state.wrapping_mul(1664525).wrapping_add(1013904223);
        out.push((state >> 24) as u8);
    }
    out
}

/// The double box sum with plain division, edges repeated.
fn expected_clamped(line: &[i64], r: i64) -> Vec<i64> {
    let n = line.len() as i64;
    let mut out = Vec::new();
    for i in 0..n {
        let mut sum = (r * r) / 2;
        for a in 0..r {
            for b in 0..r {
                let at = i + r - 1 - a - b;
                let at = if at < 0 { 0 } else if at > n - 1 { n - 1 } else { at };
                sum += line[at as usize];
            }
        }
        out.push(sum / (r * r));
    }
    out
}

fn expected_blur(img: &[u8], stride: usize, w: usize, h: usize, ch: usize, r: i64) -> Vec<u8> {
    let mut img: Vec<i64> = img.iter().map(|&v| v as i64).collect();
    for q in 0..w * ch {
        let column: Vec<i64> = (0..h).map(|y| img[y * stride + q]).collect();
        let blurred = expected_clamped(&column, r);
        for y in 0..h {
            img[y * stride + q] = blurred[y];
        }
    }
    for y in 0..h {
        for c in 0..ch {
            let row: Vec<i64> = (0..w).map(|x| img[y * stride + x * ch + c]).collect();
            let blurred = expected_clamped(&row, r);
            for x in 0..w {
                img[y * stride + x * ch + c] = blurred[x];
            }
        }
    }
    img.iter().map(|&v| v as u8).collect()
}

fn sweep(line: &[u8], radius: u32, mode: EdgeMode) -> Vec<u8> {
    let mut buf = line.to_vec();
    let count = buf.len();
    sweep_gauss(&mut buf, 0, 1, count, radius, mode, Reciprocal::of_square(radius));
    buf
}

#[test]
fn sweep_under_each_edge_policy() {
    let line = [0u8, 0, 0, 255, 0, 0, 0, 90];
    assert_eq!(sweep(&line, 2, EdgeMode::Clamp), vec![0, 0, 64, 128, 64, 0, 23, 68]);
    assert_eq!(sweep(&line, 2, EdgeMode::Wrap), vec![23, 0, 64, 128, 64, 0, 23, 51]);
    assert_eq!(sweep(&line, 2, EdgeMode::Reflect), vec![0, 0, 64, 128, 64, 0, 23, 51]);
    let other = [10u8, 200, 30, 40, 250, 60];
    assert_eq!(sweep(&other, 3, EdgeMode::Clamp), vec![54, 81, 92, 104, 116, 100]);
    assert_eq!(sweep(&other, 3, EdgeMode::Wrap), vec![92, 87, 92, 104, 119, 110]);
    assert_eq!(sweep(&other, 3, EdgeMode::Reflect), vec![99, 102, 92, 104, 137, 147]);
}

#[test]
fn sweep_of_radius_one_leaves_the_line() {
    for mode in [EdgeMode::Clamp, EdgeMode::Wrap, EdgeMode::Reflect] {
        assert_eq!(sweep(&[1, 2, 3, 4], 1, mode), vec![1, 2, 3, 4]);
    }
}

#[test]
fn constant_image_is_a_fixed_point_under_every_policy() {
    for mode in [EdgeMode::Clamp, EdgeMode::Wrap, EdgeMode::Reflect] {
        for radius in [1u32, 2, 5, 64, 319, 4000] {
            let mut bytes: Vec<u8> = Vec::new();
            for _ in 0..7 * 3 {
                bytes.extend_from_slice(&[255, 17, 0]);
            }
            let before = bytes.clone();
            fast_gaussian(&mut bytes, 21, 7, 3, radius, FastBlurChannels::Channels3, ThreadingPolicy::Single, mode);
            assert_eq!(bytes, before);
        }
    }
}

#[test]
fn square_of_radius_one_is_left_as_it_is() {
    // A window of one element is the element itself.
    let before: Vec<u8> = vec![0, 0, 0, 0, 0, 255, 255, 0, 0, 255, 255, 0, 0, 0, 0, 0];
    let mut bytes = before.clone();
    fast_gaussian_impl::<1>(&mut bytes, 4, 4, 4, 1, ThreadingPolicy::Single, EdgeMode::Clamp);
    assert_eq!(bytes, before);
}

#[test]
fn square_is_smoothed_without_inverting_contrast() {
    let mut bytes: Vec<u8> = vec![0, 0, 0, 0, 0, 255, 255, 0, 0, 255, 255, 0, 0, 0, 0, 0];
    fast_gaussian_impl::<1>(&mut bytes, 4, 4, 4, 2, ThreadingPolicy::Single, EdgeMode::Clamp);
    assert_eq!(bytes, vec![16, 48, 48, 16, 48, 143, 143, 48, 48, 143, 143, 48, 16, 48, 48, 16]);
    for centre in [5usize, 6, 9, 10] {
        assert!(bytes[centre] > 0 && bytes[centre] < 255);
    }
    for corner in [0usize, 3, 12, 15] {
        assert!((bytes[corner] as i32) < 255 - bytes[corner] as i32);
    }
}

#[test]
fn padding_is_kept_under_each_policy() {
    let before: Vec<u8> = vec![
        10, 20, 30, 40, 50, 60, 70, 80, 90, 1, 2, 100, 110, 120, 130, 140, 150, 160, 170, 180, 3, 4,
    ];
    let mut clamp = before.clone();
    fast_gaussian(&mut clamp, 11, 3, 2, 2, FastBlurChannels::Channels3, ThreadingPolicy::Single, EdgeMode::Clamp);
    assert_eq!(
        clamp,
        vec![41, 51, 61, 63, 73, 83, 86, 96, 106, 1, 2, 86, 96, 106, 108, 118, 128, 131, 141, 151, 3, 4]
    );
    let mut wrap = before.clone();
    fast_gaussian(&mut wrap, 11, 3, 2, 2, FastBlurChannels::Channels3, ThreadingPolicy::Single, EdgeMode::Wrap);
    assert_eq!(
        wrap,
        vec![78, 88, 98, 85, 95, 105, 98, 108, 118, 1, 2, 89, 99, 109, 96, 106, 116, 109, 119, 129, 3, 4]
    );
    let mut reflect = before.clone();
    fast_gaussian(&mut reflect, 11, 3, 2, 2, FastBlurChannels::Channels3, ThreadingPolicy::Single, EdgeMode::Reflect);
    assert_eq!(
        reflect,
        vec![70, 80, 90, 85, 95, 105, 100, 110, 120, 1, 2, 81, 91, 101, 96, 106, 116, 111, 121, 131, 3, 4]
    );
}

#[test]
fn fixed_point_arithmetic_agrees_with_plain_division() {
    let before = pseudo_random(8 * 8 * 3, 2024);
    let mut bytes = before.clone();
    fast_gaussian(&mut bytes, 24, 8, 8, 3, FastBlurChannels::Channels3, ThreadingPolicy::Single, EdgeMode::Clamp);
    let expected = expected_blur(&before, 24, 8, 8, 3, 3);
    for (got, want) in bytes.iter().zip(expected.iter()) {
        assert!((*got as i32 - *want as i32).abs() <= 1);
    }
    assert_eq!(bytes, expected);
}

#[test]
fn thread_count_does_not_change_the_first_order_result() {
    let before = pseudo_random(10 * 4 * 9, 11);
    for mode in [EdgeMode::Clamp, EdgeMode::Wrap, EdgeMode::Reflect] {
        let mut single = before.clone();
        fast_gaussian(&mut single, 40, 10, 9, 5, FastBlurChannels::Channels4, ThreadingPolicy::Single, mode);
        let mut four = before.clone();
        fast_gaussian(&mut four, 40, 10, 9, 5, FastBlurChannels::Channels4, ThreadingPolicy::Fixed(4), mode);
        assert_eq!(four, single);
    }
}

#[test]
fn first_order_radius_is_capped() {
    let before = pseudo_random(5 * 3 * 3, 8);
    let mut at_max = before.clone();
    fast_gaussian(&mut at_max, 15, 5, 3, 319, FastBlurChannels::Channels3, ThreadingPolicy::Single, EdgeMode::Reflect);
    let mut above = before.clone();
    fast_gaussian(&mut above, 15, 5, 3, 320, FastBlurChannels::Channels3, ThreadingPolicy::Single, EdgeMode::Reflect);
    assert_eq!(above, at_max);
}

#[test]
fn first_order_passes_cover_their_range_only() {
    let before = pseudo_random(6 * 3 * 5, 21);
    let mut whole = before.clone();
    fast_gaussian_vertical_pass_sse_u8::<3>(&mut whole, 18, 6, 5, 3, 0, 6, EdgeMode::Wrap);
    let mut pieces = before.clone();
    fast_gaussian_vertical_pass_sse_u8::<3>(&mut pieces, 18, 6, 5, 3, 0, 2, EdgeMode::Wrap);
    fast_gaussian_vertical_pass_sse_u8::<3>(&mut pieces, 18, 6, 5, 3, 2, 100, EdgeMode::Wrap);
    assert_eq!(pieces, whole);
    let mut rows = before.clone();
    fast_gaussian_horizontal_pass_sse_u8::<3>(&mut rows, 18, 6, 5, 3, 1, 2, EdgeMode::Clamp);
    assert_eq!(rows[..18], before[..18]);
    assert_eq!(rows[36..], before[36..]);
    assert_ne!(rows[18..36], before[18..36]);
}
