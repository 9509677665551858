use proverb::selector::random_from;
use rand::rngs::StdRng;
use rand::SeedableRng;

#[test]
fn single_element_is_always_chosen() {
    let mut rng = StdRng::seed_from_u64(7);
    let list = vec!["only"];
    for _ in 0..100 {
        assert_eq!(random_from(&mut rng, &list), Some(&"only"));
    }
}

#[test]
fn empty_list_gives_nothing() {
    let mut rng = StdRng::seed_from_u64(7);
    let list: Vec<u32> = Vec::new();
    assert_eq!(random_from(&mut rng, &list), None);
}

#[test]
fn choice_is_an_element_and_list_is_untouched() {
    let mut rng = StdRng::seed_from_u64(11);
    let list = vec![10, 20, 30];
    for _ in 0..50 {
        let x = *random_from(&mut rng, &list).unwrap();
        assert!(list.contains(&x));
    }
    assert_eq!(list, vec![10, 20, 30]);
}

#[test]
fn choice_is_roughly_uniform() {
    let mut rng = StdRng::seed_from_u64(2024);
    let list: Vec<usize> = (0..5).collect();
    let trials = 50_000;
    let mut counts = [0usize; 5];
    for _ in 0..trials {
        counts[*random_from(&mut rng, &list).unwrap()] += 1;
    }
    let expected = trials / 5;
    for c in counts {
        assert!(c > expected * 9 / 10 && c < expected * 11 / 10, "{:?}", counts);
    }
}
