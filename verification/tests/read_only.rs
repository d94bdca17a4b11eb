use cuda_memory::read_only::{load, upper_bound, ThreadTile};

#[test]
fn thread_tile_proves_one_extent_and_keeps_partial_loads_explicit() {
    let samples = [0i32; 12];
    let full =
        ThreadTile::<_, 2, 2, true>::new(&samples, 4, 4).expect("complete two-pixel extent");
    assert_eq!(full.load::<0, 0>(), Some(0));
    assert_eq!(full.load::<1, 1>(), Some(0));

    let partial =
        ThreadTile::<_, 2, 2, false>::new(&samples, 8, 2).expect("one complete active pixel");
    assert_eq!(partial.load::<0, 0>(), Some(0));
    assert_eq!(partial.load::<0, 1>(), Some(0));
    assert_eq!(partial.load::<1, 0>(), None);
    assert_eq!(partial.load::<0, 2>(), None);
    assert!(ThreadTile::<_, 2, 2, true>::new(&samples, 9, 4).is_none());
    assert!(ThreadTile::<_, 2, 2, false>::new(&samples, 0, 3).is_none());
    let inactive = ThreadTile::<_, 2, 2, false>::new(&samples, usize::MAX, 0)
        .expect("inactive CUDA threads never form their nominal address");
    assert_eq!(inactive.load::<0, 0>(), None);
}

#[test]
fn tile_reads_the_elements_behind_its_start() {
    let samples: Vec<i32> = (10..22).collect();
    let full = ThreadTile::<_, 2, 3, true>::new(&samples, 4, 6).expect("complete tile");
    assert_eq!(full.load::<0, 0>(), Some(14));
    assert_eq!(full.load::<0, 2>(), Some(16));
    assert_eq!(full.load::<1, 0>(), Some(17));
    assert_eq!(full.load::<1, 2>(), Some(19));
    assert_eq!(full.load::<2, 0>(), None);
    assert_eq!(full.load::<0, 3>(), None);
}

#[test]
fn tile_may_end_with_the_input() {
    let samples = [1u8, 2, 3, 4];
    assert!(ThreadTile::<_, 2, 1, true>::new(&samples, 2, 2).is_some());
    assert!(ThreadTile::<_, 2, 1, true>::new(&samples, 3, 2).is_none());
    assert!(ThreadTile::<_, 2, 1, true>::new(&samples, usize::MAX, 2).is_none());
}

#[test]
fn sixteen_single_channel_pixels_sum_up() {
    let input: Vec<i32> = (1..=16).collect();
    let tile = ThreadTile::<i32, 16, 1, true>::new(&input, 0, 16).expect("complete tile");
    let values = [
        tile.load::<0, 0>(),
        tile.load::<1, 0>(),
        tile.load::<2, 0>(),
        tile.load::<3, 0>(),
        tile.load::<4, 0>(),
        tile.load::<5, 0>(),
        tile.load::<6, 0>(),
        tile.load::<7, 0>(),
        tile.load::<8, 0>(),
        tile.load::<9, 0>(),
        tile.load::<10, 0>(),
        tile.load::<11, 0>(),
        tile.load::<12, 0>(),
        tile.load::<13, 0>(),
        tile.load::<14, 0>(),
        tile.load::<15, 0>(),
    ];
    let sum: i32 = values.iter().map(|value| value.expect("live pixel")).sum();
    assert_eq!(sum, 136);
    assert_eq!(tile.load::<16, 0>(), None);
}

#[test]
fn full_and_partial_forms_agree_on_a_complete_extent() {
    let samples = [3i64, 5, 7, 11];
    let full = ThreadTile::<_, 2, 2, true>::new(&samples, 0, 4).expect("complete tile");
    let partial = ThreadTile::<_, 2, 2, false>::new(&samples, 0, 4).expect("complete tile");
    assert_eq!(full.load::<0, 0>(), partial.load::<0, 0>());
    assert_eq!(full.load::<0, 1>(), partial.load::<0, 1>());
    assert_eq!(full.load::<1, 0>(), partial.load::<1, 0>());
    assert_eq!(full.load::<1, 1>(), Some(11));
    assert_eq!(partial.load::<1, 1>(), Some(11));
    assert_eq!(full.load::<2, 0>(), None);
    assert_eq!(partial.load::<2, 0>(), None);
}

#[test]
fn tile_refuses_counts_that_it_cannot_own() {
    let samples = [0u16; 8];
    assert!(ThreadTile::<_, 2, 2, false>::new(&samples, 0, -2).is_none());
    assert!(ThreadTile::<_, 2, 2, false>::new(&samples, 0, 6).is_none());
    assert!(ThreadTile::<_, 2, 2, true>::new(&samples, 0, 2).is_none());
    assert!(ThreadTile::<_, 2, 2, true>::new(&samples, 0, 0).is_none());
    assert!(ThreadTile::<_, 0, 2, false>::new(&samples, 0, 0).is_none());
    assert!(ThreadTile::<_, 2, 0, false>::new(&samples, 0, 0).is_none());
    assert!(ThreadTile::<_, { usize::MAX }, 2, false>::new(&samples, 0, 0).is_none());
    assert!(ThreadTile::<_, 0x8000_0000, 1, false>::new(&samples, 0, 0).is_none());
    assert!(ThreadTile::<_, 0x7fff_ffff, 1, false>::new(&samples, 0, 8).is_some());
}

#[test]
fn tile_is_copied_with_its_samples() {
    let samples = [4i32, 6];
    let tile = ThreadTile::<_, 1, 2, true>::new(&samples, 0, 2).expect("complete tile");
    let copy = tile;
    let clone = tile.clone();
    assert_eq!(copy.load::<0, 1>(), Some(6));
    assert_eq!(clone.load::<0, 0>(), Some(4));
    assert_eq!(tile.load::<0, 0>(), Some(4));
}

#[test]
fn load_copies_the_value() {
    assert_eq!(load(&17i32), 17);
    assert_eq!(load(&[1u64, 2]), [1, 2]);
}

#[test]
fn quads_sum_up_through_read_only_loads() {
    let input: Vec<i32> = (1..=16).collect();
    let sums: Vec<i32> = input
        .chunks(4)
        .map(|quad| {
            let lanes = load(&[quad[0], quad[1], quad[2], quad[3]]);
            lanes[0] + lanes[1] + lanes[2] + lanes[3]
        })
        .collect();
    assert_eq!(sums, [10, 26, 42, 58]);
}

#[test]
fn upper_bound_is_the_first_greater_index() {
    let input = [1i32, 3, 3, 3, 9];
    assert_eq!(upper_bound(&input, 0), 0);
    assert_eq!(upper_bound(&input, 1), 1);
    assert_eq!(upper_bound(&input, 2), 1);
    assert_eq!(upper_bound(&input, 3), 4);
    assert_eq!(upper_bound(&input, 8), 4);
    assert_eq!(upper_bound(&input, 9), 5);
    assert_eq!(upper_bound(&input, i32::MAX), 5);
}

#[test]
fn upper_bound_agrees_with_a_linear_search() {
    for len in 0..40u32 {
        let input: Vec<u32> = (0..len).map(|i| i / 3 * 2).collect();
        for sample in 0..30u32 {
            let linear = input.iter().position(|value| sample < *value).unwrap_or(input.len());
            assert_eq!(upper_bound(&input, sample), linear as i32);
        }
    }
}

#[test]
fn upper_bound_is_the_last_place_that_keeps_the_order() {
    let input = [1i32, 3, 3, 3, 9];
    for sample in 0..11 {
        let keeps_order = |place: usize| {
            let mut longer = input.to_vec();
            longer.insert(place, sample);
            longer.windows(2).all(|neighbours| neighbours[0] <= neighbours[1])
        };
        let last = (0..=input.len()).filter(|place| keeps_order(*place)).max();
        assert_eq!(last, Some(upper_bound(&input, sample) as usize));
    }
}

#[test]
fn two_bounds_count_the_elements_between_their_samples() {
    let input = [1i32, 3, 3, 3, 9];
    assert_eq!(upper_bound(&input, 3) - upper_bound(&input, 2), 3);
    assert_eq!(upper_bound(&input, 8) - upper_bound(&input, 3), 0);
    assert_eq!(upper_bound(&input, 9) - upper_bound(&input, 0), 5);
}

#[test]
fn upper_bound_of_nothing_is_zero() {
    let input: [i8; 0] = [];
    assert_eq!(upper_bound(&input, 5), 0);
}

#[test]
fn upper_bound_of_an_unordered_input_ends_where_the_comparison_turns() {
    let input = [5i32, 1, 7, 2, 9];
    assert_eq!(upper_bound(&input, 4), 2);
    assert!(!(4 < input[1]) && 4 < input[2]);
}

#[test]
fn upper_bound_orders_floats_by_their_partial_order() {
    let input = [-1.0f32, 0.0, 0.5, 2.0];
    assert_eq!(upper_bound(&input, 0.0), 2);
    assert_eq!(upper_bound(&input, f32::NAN), 4);
    assert_eq!(upper_bound(&input, f32::NEG_INFINITY), 0);
}

/// A value that every other one of its kind compares greater than.
#[derive(Clone, Copy, PartialEq)]
struct Lowest;

impl PartialOrd for Lowest {
    fn partial_cmp(&self, _other: &Self) -> Option<std::cmp::Ordering> {
        Some(std::cmp::Ordering::Less)
    }
}

#[test]
fn upper_bound_of_a_long_input_is_its_first_greater_index() {
    for len in [0x7fff_ffffusize, 0x8000_0000, 0x1_0000_0005] {
        assert_eq!(upper_bound(&vec![Lowest; len], Lowest), 0);
    }
}

#[test]
fn upper_bound_beyond_the_largest_result_is_the_largest_result() {
    for len in [0x7fff_ffffusize, 0x8000_0000, 0x1_0000_0005] {
        assert_eq!(upper_bound(&vec![(); len], ()), 0x7fff_ffff);
    }
}
