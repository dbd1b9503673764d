use libblur::fast_gaussian_next::{fast_gaussian_next_impl, narrow_accumulators};
use libblur::pass::{fast_gaussian_next_horizontal_pass, fast_gaussian_next_vertical_pass};
use libblur::sweep::sweep_next;
use libblur::{fast_gaussian_next, fast_gaussian_next_u16, FastBlurChannels, ThreadingPolicy};

fn noise(len: usize, seed: u32) -> Vec<u8> {
    let mut state = seed;
    let mut out = Vec::with_capacity(len);
    for _ in 0..len {
        state = state.wrapping_mul(1664525).wrapping_add(1013904223);
        out.push((state >> 24) as u8);
    }
    out
}

fn clamp_index(v: i64, n: i64) -> usize {
    if v < 0 {
        0
    } else if v > n - 1 {
        (n - 1) as usize
    } else {
        v as usize
    }
}

/// The triple box sum written out as three nested loops.
fn expected_line(line: &[i64], r: i64, rounded: bool) -> Vec<i64> {
    let n = line.len() as i64;
    let reach = (3 * r) / 2;
    let mut out = Vec::new();
    for i in 0..n {
        let mut sum = 0i64;
        for a in 0..r {
            for b in 0..r {
                for c in 0..r {
                    sum += line[clamp_index(i - 1 + reach - a - b - c, n)];
                }
            }
        }
        let weight = r * r * r;
        out.push(if rounded { (2 * sum + weight) / (2 * weight) } else { sum / weight });
    }
    out
}

fn expected_blur(img: &[u8], stride: usize, w: usize, h: usize, ch: usize, r: i64) -> Vec<u8> {
    let mut img: Vec<i64> = img.iter().map(|&v| v as i64).collect();
    for q in 0..w * ch {
        let column: Vec<i64> = (0..h).map(|y| img[y * stride + q]).collect();
        let blurred = expected_line(&column, r, false);
        for y in 0..h {
            img[y * stride + q] = blurred[y];
        }
    }
    for y in 0..h {
        for c in 0..ch {
            let row: Vec<i64> = (0..w).map(|x| img[y * stride + x * ch + c]).collect();
            let blurred = expected_line(&row, r, true);
            for x in 0..w {
                img[y * stride + x * ch + c] = blurred[x];
            }
        }
    }
    img.iter().map(|&v| v as u8).collect()
}

#[test]
fn constant_image_is_unchanged() {
    for radius in [1u32, 2, 3, 7, 125, 280, 1000] {
        let mut bytes: Vec<u8> = vec![77u8; 5 * 4 * 3];
        fast_gaussian_next(&mut bytes, 15, 5, 4, radius, FastBlurChannels::Channels3, ThreadingPolicy::Single);
        assert_eq!(bytes, vec![77u8; 60]);
    }
}

#[test]
fn constant_image_is_unchanged_u16() {
    for radius in [1u32, 32, 33, 40, 152, 500] {
        let mut bytes: Vec<u16> = vec![60000u16; 5 * 4 * 4];
        fast_gaussian_next_u16(&mut bytes, 20, 5, 4, radius, FastBlurChannels::Channels4, ThreadingPolicy::Adaptive);
        assert_eq!(bytes, vec![60000u16; 80]);
    }
}

#[test]
fn image_of_one_colour_is_unchanged() {
    let mut bytes: Vec<u8> = Vec::new();
    for _ in 0..6 * 5 {
        bytes.extend_from_slice(&[255, 0, 128, 3]);
    }
    let before = bytes.clone();
    fast_gaussian_next(&mut bytes, 24, 6, 5, 9, FastBlurChannels::Channels4, ThreadingPolicy::Fixed(3));
    assert_eq!(bytes, before);
}

#[test]
fn sweep_spreads_a_single_peak() {
    let mut floor_line: Vec<u8> = vec![0, 0, 0, 255, 0, 0, 0, 0];
    sweep_next::<u8, i32>(&mut floor_line, 0, 1, 8, 2, false);
    assert_eq!(floor_line, vec![0, 31, 95, 95, 31, 0, 0, 0]);
    let mut rounded_line: Vec<u8> = vec![0, 0, 0, 255, 0, 0, 0, 0];
    sweep_next::<u8, i64>(&mut rounded_line, 0, 1, 8, 2, true);
    assert_eq!(rounded_line, vec![0, 32, 96, 96, 32, 0, 0, 0]);
}

#[test]
fn sweep_of_radius_one_is_the_identity() {
    let mut line: Vec<u8> = vec![10, 20, 30, 40];
    sweep_next::<u8, i32>(&mut line, 0, 1, 4, 1, false);
    assert_eq!(line, vec![10, 20, 30, 40]);
}

#[test]
fn sweep_of_radius_three_rounds_to_nearest() {
    let mut line: Vec<u8> = vec![0, 100, 200, 50, 25, 255, 0, 7, 9, 11];
    sweep_next::<u8, i32>(&mut line, 0, 1, 10, 3, true);
    assert_eq!(line, vec![46, 77, 97, 102, 100, 86, 64, 35, 17, 10]);
}

#[test]
fn sweep_touches_only_its_line() {
    // A line of three elements that starts at 1 and steps by 4.
    let mut buf: Vec<u8> = vec![9, 0, 9, 9, 9, 255, 9, 9, 9, 0, 9, 9];
    sweep_next::<u8, i32>(&mut buf, 1, 4, 3, 2, false);
    let line = expected_line(&[0, 255, 0], 2, false);
    assert_eq!(buf, vec![9, line[0] as u8, 9, 9, 9, line[1] as u8, 9, 9, 9, line[2] as u8, 9, 9]);
}

#[test]
fn padding_and_length_are_kept() {
    let mut bytes: Vec<u8> = vec![
        10, 20, 30, 40, 50, 60, 70, 80, 90, 1, 2, 100, 110, 120, 130, 140, 150, 160, 170, 180, 3, 4,
    ];
    fast_gaussian_next(&mut bytes, 11, 3, 2, 2, FastBlurChannels::Channels3, ThreadingPolicy::Single);
    assert_eq!(
        bytes,
        vec![74, 84, 94, 96, 106, 116, 111, 121, 131, 1, 2, 107, 117, 127, 129, 139, 149, 144, 154, 164, 3, 4]
    );
}

#[test]
fn sixteen_bit_levels_are_exact() {
    let mut bytes: Vec<u16> = vec![0, 65535, 1000, 7, 65535, 0, 2000, 9, 30000, 30000, 3000, 11];
    fast_gaussian_next_u16(&mut bytes, 12, 3, 1, 2, FastBlurChannels::Channels4, ThreadingPolicy::Single);
    assert_eq!(bytes, vec![28326, 36518, 1625, 8, 39576, 23192, 2375, 10, 34442, 26250, 2875, 11]);
}

#[test]
fn blur_is_the_triple_box_sum() {
    for (w, h, ch, r) in [(8usize, 8usize, 3usize, 3u32), (5, 7, 4, 2), (9, 3, 3, 5), (4, 4, 4, 1)] {
        let stride = w * ch + 2;
        let before = noise(stride * h, 7 + r);
        let mut bytes = before.clone();
        let channels = if ch == 3 { FastBlurChannels::Channels3 } else { FastBlurChannels::Channels4 };
        fast_gaussian_next(&mut bytes, stride as u32, w as u32, h as u32, r, channels, ThreadingPolicy::Single);
        assert_eq!(bytes, expected_blur(&before, stride, w, h, ch, r as i64));
    }
}

#[test]
fn thread_count_does_not_change_the_result() {
    let before = noise(16 * 3 * 12, 99);
    let mut single = before.clone();
    fast_gaussian_next(&mut single, 48, 16, 12, 4, FastBlurChannels::Channels3, ThreadingPolicy::Single);
    for policy in [
        ThreadingPolicy::Fixed(4),
        ThreadingPolicy::Fixed(7),
        ThreadingPolicy::Fixed(100),
        ThreadingPolicy::Fixed(0),
        ThreadingPolicy::Adaptive,
    ] {
        let mut other = before.clone();
        fast_gaussian_next(&mut other, 48, 16, 12, 4, FastBlurChannels::Channels3, policy);
        assert_eq!(other, single);
    }
    assert_ne!(single, before);
}

#[test]
fn radius_above_the_maximum_counts_as_the_maximum() {
    let before = noise(6 * 3 * 4, 5);
    let mut at_max = before.clone();
    fast_gaussian_next(&mut at_max, 18, 6, 4, 280, FastBlurChannels::Channels3, ThreadingPolicy::Single);
    let mut above = before.clone();
    fast_gaussian_next(&mut above, 18, 6, 4, 100000, FastBlurChannels::Channels3, ThreadingPolicy::Single);
    assert_eq!(above, at_max);

    let before16: Vec<u16> = before.iter().map(|&v| (v as u16) * 257).collect();
    let mut at_max16 = before16.clone();
    fast_gaussian_next_u16(&mut at_max16, 18, 6, 4, 152, FastBlurChannels::Channels3, ThreadingPolicy::Single);
    let mut above16 = before16.clone();
    fast_gaussian_next_u16(&mut above16, 18, 6, 4, 153, FastBlurChannels::Channels3, ThreadingPolicy::Single);
    assert_eq!(above16, at_max16);
}

#[test]
fn both_accumulator_widths_agree_around_the_cutoff() {
    for radius in [124u32, 125, 126] {
        let before = noise(20 * 3 * 6, radius);
        let mut narrow = before.clone();
        fast_gaussian_next_vertical_pass::<u8, i32, 3>(&mut narrow, 60, 20, 6, radius, 0, 20);
        fast_gaussian_next_horizontal_pass::<u8, i32, 3>(&mut narrow, 60, 20, 6, radius, 0, 6);
        let mut wide = before.clone();
        fast_gaussian_next_vertical_pass::<u8, i64, 3>(&mut wide, 60, 20, 6, radius, 0, 20);
        fast_gaussian_next_horizontal_pass::<u8, i64, 3>(&mut wide, 60, 20, 6, radius, 0, 6);
        assert_eq!(narrow, wide);
        let mut whole = before.clone();
        fast_gaussian_next_impl::<u8, 3>(&mut whole, 60, 20, 6, radius, ThreadingPolicy::Single);
        assert_eq!(whole, wide);
    }
}

#[test]
fn brightest_image_does_not_overflow_at_the_cutoff() {
    for radius in [124u32, 125, 280] {
        let mut bytes: Vec<u8> = vec![255u8; 300 * 3 * 2];
        fast_gaussian_next(&mut bytes, 900, 300, 2, radius, FastBlurChannels::Channels3, ThreadingPolicy::Single);
        assert_eq!(bytes, vec![255u8; 1800]);
    }
    let mut bytes: Vec<u16> = vec![65535u16; 200 * 3 * 2];
    fast_gaussian_next_u16(&mut bytes, 600, 200, 2, 100, FastBlurChannels::Channels3, ThreadingPolicy::Single);
    assert_eq!(bytes, vec![65535u16; 1200]);
}

#[test]
fn accumulator_width_follows_radius_and_levels() {
    assert!(narrow_accumulators::<u8>(1));
    assert!(narrow_accumulators::<u8>(124));
    assert!(!narrow_accumulators::<u8>(125));
    assert!(!narrow_accumulators::<u8>(280));
    assert!(narrow_accumulators::<u16>(32));
    assert!(!narrow_accumulators::<u16>(33));
    assert!(!narrow_accumulators::<u16>(124));
}

#[test]
fn passes_stop_at_the_end_of_the_image() {
    let before = noise(4 * 3 * 4, 1);
    let mut whole = before.clone();
    fast_gaussian_next_vertical_pass::<u8, i32, 3>(&mut whole, 12, 4, 4, 2, 0, 4);
    let mut beyond = before.clone();
    fast_gaussian_next_vertical_pass::<u8, i32, 3>(&mut beyond, 12, 4, 4, 2, 0, 9);
    assert_eq!(beyond, whole);
    let mut pieces = before.clone();
    fast_gaussian_next_vertical_pass::<u8, i32, 3>(&mut pieces, 12, 4, 4, 2, 0, 1);
    fast_gaussian_next_vertical_pass::<u8, i32, 3>(&mut pieces, 12, 4, 4, 2, 1, 4);
    assert_eq!(pieces, whole);
    let mut none = before.clone();
    fast_gaussian_next_horizontal_pass::<u8, i32, 3>(&mut none, 12, 4, 4, 2, 3, 3);
    assert_eq!(none, before);
}

#[test]
fn empty_image_is_left_alone() {
    let mut bytes: Vec<u8> = vec![1, 2, 3];
    fast_gaussian_next(&mut bytes, 0, 0, 5, 3, FastBlurChannels::Channels3, ThreadingPolicy::Single);
    assert_eq!(bytes, vec![1, 2, 3]);
    fast_gaussian_next(&mut bytes, 3, 1, 0, 3, FastBlurChannels::Channels3, ThreadingPolicy::Single);
    assert_eq!(bytes, vec![1, 2, 3]);
}

#[test]
fn levels_stay_below_the_highest_of_the_image() {
    let before: Vec<u16> = noise(7 * 4 * 5, 3).iter().map(|&v| (v as u16) * 3).collect();
    let highest = *before.iter().max().unwrap();
    let mut bytes = before.clone();
    fast_gaussian_next_u16(&mut bytes, 28, 7, 5, 6, FastBlurChannels::Channels4, ThreadingPolicy::Single);
    assert!(bytes.iter().all(|&v| v <= highest));
}

#[test]
fn blur_of_radius_one_changes_nothing() {
    let before = noise(5 * 4 * 6, 314);
    let mut bytes = before.clone();
    fast_gaussian_next(&mut bytes, 20, 5, 6, 1, FastBlurChannels::Channels4, ThreadingPolicy::Fixed(2));
    assert_eq!(bytes, before);
}
