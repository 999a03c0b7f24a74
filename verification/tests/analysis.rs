use set_game::analysis::{
    empty_histogram, most_cards_with_no_set, most_cards_with_no_set_among,
    most_cards_with_no_set_fast, num_cards_to_forced_set, tally, trials_for_worker,
};
use set_game::cards::{is_set, Card};
use set_game::deck::make_deck;

#[test]
fn the_canonical_deck_lays_out_sixteen_cards() {
    let deck = make_deck();
    assert_eq!(most_cards_with_no_set_among(&deck), 16);
    let reversed: Vec<Card> = deck.iter().rev().cloned().collect();
    assert_eq!(most_cards_with_no_set_among(&reversed), 16);
}

#[test]
fn few_cards_are_laid_out_unless_they_complete_a_set() {
    let deck = make_deck();
    assert_eq!(most_cards_with_no_set_among(&[]), 0);
    assert_eq!(most_cards_with_no_set_among(&deck[..2]), 2);
    assert!(is_set(&deck[0], &deck[1], &deck[2]));
    assert_eq!(most_cards_with_no_set_among(&deck[..3]), 2);
    assert_eq!(most_cards_with_no_set_among(&[deck[0], deck[1], deck[3]]), 3);
    assert_eq!(most_cards_with_no_set_among(&[deck[0], deck[0], deck[1]]), 2);
}

#[test]
fn a_shuffled_deck_lays_out_a_set_free_number_of_cards() {
    for _ in 0..20 {
        let count = most_cards_with_no_set();
        assert!(count >= 3);
        assert!(count <= 20);
        let count = most_cards_with_no_set_fast();
        assert!(count >= 3);
        assert!(count <= 20);
    }
}

#[test]
fn the_histogram_counts_every_deal_once() {
    for count in [0, 1, 16, 50] {
        let histogram = num_cards_to_forced_set(count);
        assert_eq!(histogram.len(), 82);
        assert_eq!(histogram.iter().sum::<usize>(), count);
        for (outcome, occurrences) in histogram.iter().enumerate() {
            if *occurrences > 0 {
                assert!((3..=20).contains(&outcome));
            }
        }
    }
}

#[test]
fn tally_raises_one_count() {
    let mut histogram = empty_histogram();
    assert_eq!(histogram, vec![0; 82]);
    tally(&mut histogram, 16);
    tally(&mut histogram, 16);
    tally(&mut histogram, 81);
    assert_eq!(histogram[16], 2);
    assert_eq!(histogram[81], 1);
    assert_eq!(histogram.iter().sum::<usize>(), 3);
}

#[test]
fn the_workers_share_all_deals() {
    for count in [0, 1, 15, 16, 17, 1000, 1003] {
        for workers in [1, 16] {
            let shares: Vec<usize> =
                (0..workers).map(|w| trials_for_worker(count, workers, w)).collect();
            assert_eq!(shares.iter().sum::<usize>(), count);
        }
    }
    assert_eq!(trials_for_worker(1003, 16, 0), 63);
    assert_eq!(trials_for_worker(1003, 16, 10), 63);
    assert_eq!(trials_for_worker(1003, 16, 11), 62);
    assert_eq!(trials_for_worker(1003, 16, 15), 62);
}
