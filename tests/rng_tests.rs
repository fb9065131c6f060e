use caveripper::rng::{pick_weighted, PikminRng};

#[test]
fn raw_draws_follow_the_congruential_step() {
    let mut rng = PikminRng::new(1);
    let draws: Vec<u32> = (0..5).map(|_| rng.rand_raw()).collect();
    assert_eq!(draws, vec![16838, 5758, 10113, 17515, 31051]);
}

#[test]
fn first_draw_from_zero_seed() {
    let mut rng = PikminRng::new(0);
    assert_eq!(rng.rand_raw(), 0);
}

#[test]
fn same_seed_gives_same_stream() {
    let mut a = PikminRng::new(0x12345678);
    let mut b = PikminRng::new(0x12345678);
    let xs: Vec<u32> = (0..100).map(|_| a.rand_raw()).collect();
    let ys: Vec<u32> = (0..100).map(|_| b.rand_raw()).collect();
    assert_eq!(xs, ys);
    assert_eq!(&xs[..3], &[2929, 28487, 11805]);
}

#[test]
fn rand_int_scales_the_raw_draw() {
    let mut rng = PikminRng::new(1);
    assert_eq!(rng.rand_int(10), 16838 * 10 / 32768);
    assert_eq!(rng.rand_int(0), 0);
    for _ in 0..1000 {
        assert!(rng.rand_int(7) < 7);
    }
}

#[test]
fn pick_weighted_takes_first_exceeding_total() {
    let w = vec![1, 2, 3];
    assert_eq!(pick_weighted(&w, 0), Some(0));
    assert_eq!(pick_weighted(&w, 1), Some(1));
    assert_eq!(pick_weighted(&w, 2), Some(1));
    assert_eq!(pick_weighted(&w, 3), Some(2));
    assert_eq!(pick_weighted(&w, 5), Some(2));
    assert_eq!(pick_weighted(&w, 6), None);
    assert_eq!(pick_weighted(&vec![0, 0, 4], 0), Some(2));
    assert_eq!(pick_weighted(&vec![], 0), None);
}

#[test]
fn rand_index_weight_draws_once() {
    let mut rng = PikminRng::new(1);
    assert_eq!(rng.rand_index_weight(&vec![1, 2, 3]), Some(2));
    assert_eq!(rng.rand_raw(), 5758);
}

#[test]
fn all_zero_weights_give_none() {
    let mut rng = PikminRng::new(1);
    assert_eq!(rng.rand_index_weight(&vec![0, 0]), None);
    assert_eq!(rng.rand_raw(), 5758);
}
