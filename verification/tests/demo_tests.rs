use ross_os::demo::{beat_sum, squares};

#[test]
fn beat_sums_from_the_readme() {
    assert_eq!(beat_sum(24), 276);
    assert_eq!(beat_sum(25), 300);
    assert_eq!(beat_sum(26), 325);
}

#[test]
fn beat_sum_small_values() {
    assert_eq!(beat_sum(0), 0);
    assert_eq!(beat_sum(1), 0);
    assert_eq!(beat_sum(2), 1);
    assert_eq!(beat_sum(1000), 499_500);
}

#[test]
fn heap_demo_squares() {
    assert_eq!(squares(5), vec![0, 1, 4, 9, 16]);
    assert_eq!(squares(0), Vec::<u32>::new());
}
