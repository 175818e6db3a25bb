use aco_walk::roulette::RouletteSubjects;
use rand::rngs::StdRng;
use rand::{Rng, SeedableRng};

#[test]
fn test_vertice_probabilities_sort() {
    let mut probabilities = RouletteSubjects::new();
    probabilities.push((500_000, (5, 0)));
    probabilities.push((200_000, (2, 0)));
    probabilities.push((300_000, (3, 0)));
    assert_eq!(
        probabilities.0,
        vec![(500_000, (5, 0)), (200_000, (2, 0)), (300_000, (3, 0))]
    );
    probabilities.sort();
    assert_eq!(
        probabilities.0,
        vec![(200_000, (2, 0)), (300_000, (3, 0)), (500_000, (5, 0))]
    );
    probabilities.sort();
    assert_eq!(
        probabilities.0,
        vec![(200_000, (2, 0)), (300_000, (3, 0)), (500_000, (5, 0))]
    );
}

#[test]
fn test_vertice_probabilities_roulette() {
    let mut probabilities = RouletteSubjects::new();
    probabilities.push((500_000, (5, 0)));
    probabilities.push((200_000, (2, 0)));
    probabilities.push((300_000, (3, 0)));

    let mut cnt_02 = 0;
    let mut cnt_03 = 0;
    let mut cnt_05 = 0;

    const ITERATIONS: usize = 1000000;

    for _ in 0..ITERATIONS {
        match probabilities.roulette() {
            Some(v) => match v.0 {
                2 => cnt_02 += 1,
                3 => cnt_03 += 1,
                5 => cnt_05 += 1,
                _ => (),
            },
            None => (),
        }
    }

    let frq_02 = (cnt_02 as f32 / ITERATIONS as f32) * 10.0;
    let frq_03 = (cnt_03 as f32 / ITERATIONS as f32) * 10.0;
    let frq_05 = (cnt_05 as f32 / ITERATIONS as f32) * 10.0;

    assert_eq!(frq_02.round() as u32, 2);
    assert_eq!(frq_03.round() as u32, 3);
    assert_eq!(frq_05.round() as u32, 5);

    println!(
        "freq(0.2) = {}, freq(0.3) = {}, freq(0.5) = {}",
        frq_02.round() as u32,
        frq_03.round() as u32,
        frq_05.round() as u32
    );
}

fn sample() -> RouletteSubjects<char> {
    let mut subjects = RouletteSubjects::new();
    subjects.push((500_000, 'e'));
    subjects.push((200_000, 'b'));
    subjects.push((300_000, 'c'));
    subjects
}

#[test]
fn new_collection_is_empty() {
    let subjects: RouletteSubjects<char> = RouletteSubjects::new();
    assert_eq!(subjects.len(), 0);
    assert_eq!(subjects.total(), 0);
}

#[test]
fn push_appends_in_order() {
    let subjects = sample();
    assert_eq!(subjects.len(), 3);
    assert_eq!(subjects.0, vec![(500_000, 'e'), (200_000, 'b'), (300_000, 'c')]);
}

#[test]
fn total_adds_all_weights() {
    assert_eq!(sample().total(), 1_000_000);
}

#[test]
fn total_does_not_overflow_on_largest_weights() {
    let mut subjects = RouletteSubjects::new();
    subjects.push((u64::MAX, 0u8));
    subjects.push((u64::MAX, 1u8));
    subjects.push((1, 2u8));
    assert_eq!(subjects.total(), 2 * (u64::MAX as u128) + 1);
    assert_eq!(subjects.select(u64::MAX as u128 - 1), Some(0));
    assert_eq!(subjects.select(u64::MAX as u128), Some(1));
    assert_eq!(subjects.select(2 * (u64::MAX as u128)), Some(2));
    assert_eq!(subjects.select(2 * (u64::MAX as u128) + 1), None);
}

#[test]
fn sort_is_stable_among_equal_weights() {
    let mut subjects = RouletteSubjects::new();
    subjects.push((3, 'a'));
    subjects.push((1, 'b'));
    subjects.push((3, 'c'));
    subjects.push((1, 'd'));
    subjects.push((2, 'e'));
    subjects.push((3, 'f'));
    subjects.sort();
    assert_eq!(
        subjects.0,
        vec![(1, 'b'), (1, 'd'), (2, 'e'), (3, 'a'), (3, 'c'), (3, 'f')]
    );
}

#[test]
fn sort_of_descending_weights_reverses_them() {
    let mut subjects = RouletteSubjects::new();
    for w in (0..50u64).rev() {
        subjects.push((w, w as u32));
    }
    subjects.sort();
    let expected: Vec<(u64, u32)> = (0..50u64).map(|w| (w, w as u32)).collect();
    assert_eq!(subjects.0, expected);
}

#[test]
fn sort_of_empty_collection_is_empty() {
    let mut subjects: RouletteSubjects<u8> = RouletteSubjects::new();
    subjects.sort();
    assert_eq!(subjects.len(), 0);
}

#[test]
fn select_follows_the_cumulative_scale() {
    let mut subjects = sample();
    subjects.sort();
    assert_eq!(subjects.select(0), Some('b'));
    assert_eq!(subjects.select(199_999), Some('b'));
    assert_eq!(subjects.select(200_000), Some('c'));
    assert_eq!(subjects.select(499_999), Some('c'));
    assert_eq!(subjects.select(500_000), Some('e'));
    assert_eq!(subjects.select(999_999), Some('e'));
}

#[test]
fn select_beyond_the_total_is_none() {
    let mut subjects = sample();
    subjects.sort();
    assert_eq!(subjects.select(1_000_000), None);
    assert_eq!(subjects.select(u128::MAX), None);
}

#[test]
fn select_takes_the_pairs_as_they_stand() {
    let subjects = sample();
    assert_eq!(subjects.select(0), Some('e'));
    assert_eq!(subjects.select(499_999), Some('e'));
    assert_eq!(subjects.select(500_000), Some('b'));
    assert_eq!(subjects.select(699_999), Some('b'));
    assert_eq!(subjects.select(700_000), Some('c'));
}

#[test]
fn select_skips_pairs_of_weight_zero() {
    let mut subjects = RouletteSubjects::new();
    subjects.push((0, 'a'));
    subjects.push((5, 'b'));
    subjects.push((0, 'c'));
    subjects.push((1, 'd'));
    assert_eq!(subjects.select(0), Some('b'));
    assert_eq!(subjects.select(4), Some('b'));
    assert_eq!(subjects.select(5), Some('d'));
    assert_eq!(subjects.select(6), None);
}

#[test]
fn select_on_empty_collection_is_none() {
    let subjects: RouletteSubjects<char> = RouletteSubjects::new();
    assert_eq!(subjects.select(0), None);
}

#[test]
fn each_item_gets_as_many_draws_as_its_weight() {
    let mut subjects = RouletteSubjects::new();
    subjects.push((3, 'c'));
    subjects.push((1, 'a'));
    subjects.push((0, 'z'));
    subjects.push((2, 'b'));
    subjects.sort();
    let total = subjects.total();
    assert_eq!(total, 6);
    let mut a = 0;
    let mut b = 0;
    let mut c = 0;
    for draw in 0..total {
        match subjects.select(draw) {
            Some('a') => a += 1,
            Some('b') => b += 1,
            Some('c') => c += 1,
            other => panic!("unexpected selection {:?}", other),
        }
    }
    assert_eq!((a, b, c), (1, 2, 3));
}

#[test]
fn roulette_on_empty_collection_is_none() {
    let mut subjects: RouletteSubjects<(usize, usize)> = RouletteSubjects::new();
    assert_eq!(subjects.roulette(), None);
    assert_eq!(subjects.len(), 0);
}

#[test]
fn roulette_without_positive_weight_is_none() {
    let mut subjects = RouletteSubjects::new();
    subjects.push((0, 'a'));
    subjects.push((0, 'b'));
    for _ in 0..100 {
        assert_eq!(subjects.roulette(), None);
    }
}

#[test]
fn roulette_sorts_and_keeps_the_weights() {
    let mut subjects = sample();
    let drawn = subjects.roulette();
    assert!(drawn.is_some());
    assert_eq!(subjects.0, vec![(200_000, 'b'), (300_000, 'c'), (500_000, 'e')]);
    assert_eq!(subjects.total(), 1_000_000);
}

#[test]
fn roulette_never_draws_an_item_of_weight_zero() {
    let mut subjects = RouletteSubjects::new();
    subjects.push((0, 'a'));
    subjects.push((7, 'b'));
    subjects.push((0, 'c'));
    for _ in 0..1000 {
        assert_eq!(subjects.roulette(), Some('b'));
    }
}

#[test]
fn roulette_draws_every_item_of_positive_weight() {
    let mut subjects = sample();
    let mut seen = [false; 3];
    for _ in 0..10_000 {
        match subjects.roulette() {
            Some('b') => seen[0] = true,
            Some('c') => seen[1] = true,
            Some('e') => seen[2] = true,
            other => panic!("unexpected selection {:?}", other),
        }
    }
    assert_eq!(seen, [true, true, true]);
}

#[test]
fn select_takes_draws_from_a_seeded_generator() {
    let mut subjects = sample();
    subjects.sort();
    let total = subjects.total();
    let mut first = StdRng::seed_from_u64(42);
    let mut second = StdRng::seed_from_u64(42);
    let mut counts = [0usize; 3];
    for _ in 0..10_000 {
        let drawn = subjects.select(first.gen_range(0..total));
        assert_eq!(drawn, subjects.select(second.gen_range(0..total)));
        match drawn {
            Some('b') => counts[0] += 1,
            Some('c') => counts[1] += 1,
            Some('e') => counts[2] += 1,
            other => panic!("unexpected selection {:?}", other),
        }
    }
    assert_eq!(counts.iter().sum::<usize>(), 10_000);
    assert!(counts[0] < counts[1] && counts[1] < counts[2]);
}
