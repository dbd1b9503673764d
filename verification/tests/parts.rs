use libblur::edge::clamp_edge;
use libblur::gauss::GaussAccumulator;
use libblur::history::CircularHistory;
use libblur::lane::Lane;
use libblur::reciprocal::Reciprocal;
use libblur::recurrence::{normalise, NextAccumulator};
use libblur::sample::Sample;
use libblur::scheduler::segment;
use libblur::{EdgeMode, FastBlurChannels, ThreadingPolicy};

#[test]
fn clamp_repeats_the_edge() {
    assert_eq!(clamp_edge(EdgeMode::Clamp, -3, 0, 9), 0);
    assert_eq!(clamp_edge(EdgeMode::Clamp, 12, 0, 9), 9);
    assert_eq!(clamp_edge(EdgeMode::Clamp, 4, 0, 9), 4);
    assert_eq!(clamp_edge(EdgeMode::Clamp, 1, 2, 5), 2);
}

#[test]
fn wrap_enters_on_the_other_side() {
    assert_eq!(clamp_edge(EdgeMode::Wrap, -1, 0, 9), 9);
    assert_eq!(clamp_edge(EdgeMode::Wrap, 10, 0, 9), 0);
    assert_eq!(clamp_edge(EdgeMode::Wrap, 23, 0, 9), 3);
    assert_eq!(clamp_edge(EdgeMode::Wrap, -20, 0, 9), 0);
    assert_eq!(clamp_edge(EdgeMode::Wrap, 7, 0, 9), 7);
    assert_eq!(clamp_edge(EdgeMode::Wrap, 1, 2, 5), 5);
}

#[test]
fn reflect_mirrors_without_repeating_the_edge() {
    assert_eq!(clamp_edge(EdgeMode::Reflect, -1, 0, 9), 1);
    assert_eq!(clamp_edge(EdgeMode::Reflect, -9, 0, 9), 9);
    assert_eq!(clamp_edge(EdgeMode::Reflect, -10, 0, 9), 8);
    assert_eq!(clamp_edge(EdgeMode::Reflect, 10, 0, 9), 8);
    assert_eq!(clamp_edge(EdgeMode::Reflect, 18, 0, 9), 0);
    assert_eq!(clamp_edge(EdgeMode::Reflect, 19, 0, 9), 1);
    assert_eq!(clamp_edge(EdgeMode::Reflect, 5, 0, 9), 5);
    assert_eq!(clamp_edge(EdgeMode::Reflect, 77, 4, 4), 4);
}

#[test]
fn history_keeps_what_was_stored() {
    let mut history = CircularHistory::<i64>::new();
    assert_eq!(history.load(5), 0);
    history.store(5, 42);
    history.store(-7, 13);
    assert_eq!(history.load(5), 42);
    assert_eq!(history.load(-7), 13);
    assert_eq!(history.load(1017), 13);
    history.store(5 + 1024, 99);
    assert_eq!(history.load(5), 99);
}

#[test]
fn second_order_accumulator_steps() {
    let mut acc = NextAccumulator::<i32>::reset();
    acc.absorb(10);
    assert_eq!((acc.diff, acc.derivative, acc.sum), (10, 10, 10));
    acc.absorb(4);
    assert_eq!((acc.diff, acc.derivative, acc.sum), (14, 24, 34));
    acc.retire_one(10);
    assert_eq!((acc.diff, acc.derivative, acc.sum), (-16, 24, 34));
    acc.retire_two(10, 4);
    assert_eq!((acc.diff, acc.derivative, acc.sum), (2, 24, 34));
    acc.retire_three(7, 3, 5);
    assert_eq!((acc.diff, acc.derivative, acc.sum), (9, 24, 34));
}

#[test]
fn first_order_accumulator_steps() {
    let mut acc = GaussAccumulator::reset(5);
    assert_eq!((acc.diffs, acc.summs), (0, 12));
    acc.absorb(100);
    assert_eq!((acc.diffs, acc.summs), (100, 112));
    acc.retire_one(100);
    assert_eq!((acc.diffs, acc.summs), (-100, 112));
    acc.retire_two(100, 30);
    assert_eq!((acc.diffs, acc.summs), (-60, 112));
}

#[test]
fn normalise_divides_by_the_cube() {
    assert_eq!(normalise(135, 3, false), 5);
    assert_eq!(normalise(134, 3, false), 4);
    assert_eq!(normalise(134, 3, true), 5);
    assert_eq!(normalise(121, 3, true), 4);
    assert_eq!(normalise(122, 3, true), 5);
    assert_eq!(normalise(0, 7, true), 0);
    assert_eq!(normalise(255, 1, false), 255);
}

#[test]
fn reciprocal_divides_exactly() {
    for radius in [1u32, 2, 3, 7, 16, 100, 319, 511, 512] {
        let reciprocal = Reciprocal::of_square(radius);
        let divisor = radius * radius;
        assert_eq!(reciprocal.shift, 44);
        for s in [0u32, 1, divisor - 1, divisor, divisor + 1, 17 * divisor - 1, 255 * divisor, 256 * divisor - 1] {
            assert_eq!(reciprocal.apply(s), (s / divisor) as u64);
        }
    }
    let nine = Reciprocal::of_square(3);
    for s in 0..2304u32 {
        assert_eq!(nine.apply(s), (s / 9) as u64);
    }
}

#[test]
fn narrow_gives_zero_for_what_does_not_fit() {
    assert_eq!(<u8 as Sample>::narrow(200), 200u8);
    assert_eq!(<u8 as Sample>::narrow(255), 255u8);
    assert_eq!(<u8 as Sample>::narrow(256), 0u8);
    assert_eq!(<u8 as Sample>::narrow(300), 0u8);
    assert_eq!(<u16 as Sample>::narrow(65535), 65535u16);
    assert_eq!(<u16 as Sample>::narrow(65536), 0u16);
    assert_eq!(<u16 as Sample>::narrow(70000), 0u16);
    assert_eq!(<u8 as Sample>::ceiling(), 255);
    assert_eq!(<u16 as Sample>::ceiling(), 65535);
    assert_eq!(200u8.widen(), 200u16);
}

#[test]
fn lanes_hold_what_they_are_given() {
    assert_eq!(<i32 as Lane>::from_i32(3), 3i32);
    assert_eq!(<i32 as Lane>::from_i32(-5), -5i32);
    assert_eq!(<i64 as Lane>::from_i32(3), 3i64);
    assert_eq!(<i64 as Lane>::from_i32(-2_000_000_000), -2_000_000_000i64);
    assert_eq!(<i64 as Lane>::from_level(65535), 65535i64);
    assert_eq!(7i32.plus(5).minus(2).times(3).to_i64(), 30);
}

#[test]
fn segments_cover_the_dimension() {
    assert_eq!(segment(10, 3, 0), (0, 3));
    assert_eq!(segment(10, 3, 1), (3, 6));
    assert_eq!(segment(10, 3, 2), (6, 10));
    assert_eq!(segment(2, 4, 0), (0, 0));
    assert_eq!(segment(2, 4, 3), (0, 2));
    assert_eq!(segment(0, 1, 0), (0, 0));
    for (dimension, threads) in [(1u32, 1u32), (7, 7), (100, 12), (5, 9), (4096, 5)] {
        let mut next = 0;
        for i in 0..threads {
            let (start, end) = segment(dimension, threads, i);
            assert_eq!(start, next);
            assert!(start <= end);
            next = end;
        }
        assert_eq!(next, dimension);
    }
}

#[test]
fn policies_give_at_least_one_thread() {
    assert_eq!(ThreadingPolicy::Single.get_threads_count(4000, 4000), 1);
    assert_eq!(ThreadingPolicy::Fixed(0).get_threads_count(10, 10), 1);
    assert_eq!(ThreadingPolicy::Fixed(5).get_threads_count(10, 10), 5);
    assert_eq!(ThreadingPolicy::Adaptive.get_threads_count(100, 100), 1);
    assert_eq!(ThreadingPolicy::Adaptive.get_threads_count(512, 512), 4);
    assert_eq!(ThreadingPolicy::Adaptive.get_threads_count(10000, 10000), 12);
    assert_eq!(ThreadingPolicy::Adaptive.get_threads_count(0, 0), 1);
    assert_eq!(ThreadingPolicy::Adaptive.get_threads_count(4294967295, 4294967295), 12);
}

#[test]
fn channel_counts() {
    assert_eq!(FastBlurChannels::Channels3.get_channels(), 3);
    assert_eq!(FastBlurChannels::Channels4.get_channels(), 4);
}
