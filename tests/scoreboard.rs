use dino::game::DinoGame;
use dino::score::{digit_offsets, get_number_cords, score_count, score_digits, score_text};
use dino::spawner::spawn_allowed;

#[test]
fn zero_distance_scores_four_zeros() {
    let g = DinoGame::default();
    assert_eq!(g.score(), 0);
    assert_eq!(score_text(g.score()), "0000");
}

#[test]
fn score_twelve_is_padded() {
    assert_eq!(score_count(12 * 850_000 + 849_999), 12);
    assert_eq!(score_text(12), "0012");
}

#[test]
fn long_score_grows_past_width() {
    assert_eq!(score_text(10423), "10423");
    assert_eq!(score_text(9999), "9999");
    assert_eq!(score_text(7), "0007");
}

#[test]
fn score_text_of_largest_count() {
    assert_eq!(score_text(u64::MAX), u64::MAX.to_string());
}

#[test]
fn negative_distance_scores_nothing() {
    assert_eq!(score_count(-5_000_000), 0);
}

#[test]
fn score_digits_are_padded() {
    assert_eq!(score_digits(12), vec![0, 0, 1, 2]);
    assert_eq!(score_digits(10423), vec![1, 0, 4, 2, 3]);
}

#[test]
fn digit_cords_cover_all_digits() {
    assert_eq!(get_number_cords(0), Some((1292, 1314)));
    assert_eq!(get_number_cords(1), Some((1314, 1334)));
    assert_eq!(get_number_cords(5), Some((1392, 1414)));
    assert_eq!(get_number_cords(9), Some((1472, 1494)));
    assert_eq!(get_number_cords(10), None);
}

#[test]
fn digit_offsets_advance_by_glyph_width() {
    assert_eq!(digit_offsets(&vec![0, 0, 1, 2]), vec![0, 175_000, 350_000, 511_000]);
    assert_eq!(digit_offsets(&vec![]), Vec::<i64>::new());
}

#[test]
fn spawn_windows() {
    assert!(spawn_allowed(1, false));
    assert!(spawn_allowed(31, false));
    assert!(!spawn_allowed(32, false));
    assert!(spawn_allowed(32, true));
    assert!(spawn_allowed(100, true));
    assert!(!spawn_allowed(101, true));
    assert!(!spawn_allowed(1300, true));
}
