use pixel_cascade::engine::{move_pixels, move_pixels_with};
use pixel_cascade::pixel::PixelContent;

const BOARD_HEIGHT: i32 = 720;

#[test]
fn test_create_new_in_empty_vec() {
    let px = PixelContent::new(10, 10);
    let vec: Vec<PixelContent> = vec![px];
    assert_eq!(move_pixels(vec, BOARD_HEIGHT), vec![PixelContent::new(10, 20)])
}

#[test]
fn test_fix_simple_collision() {
    let crr = PixelContent::new(10, 20).as_static();
    let new = PixelContent::new(10, 00);
    let vec: Vec<PixelContent> = vec![crr, new];
    assert_eq!(move_pixels(vec, BOARD_HEIGHT), vec![crr, PixelContent::new(10, 10)])
}

#[test]
fn test_moves_in_the_right_direction() {
    let crr = PixelContent::new(10, 30);
    let new = PixelContent::new(10, 10);
    let vec: Vec<PixelContent> = vec![crr, new];
    assert_eq!(
        move_pixels(vec, BOARD_HEIGHT),
        vec![PixelContent::new(10, 40), PixelContent::new(10, 20)]
    )
}

#[test]
fn test_adds_adjacent() {
    let crr = PixelContent::new(10, 30).as_static();
    let new = PixelContent::new(20, 20);
    let vec: Vec<PixelContent> = vec![crr, new];
    assert_eq!(move_pixels(vec, BOARD_HEIGHT), vec![crr, PixelContent::new(20, 30)])
}

#[test]
fn test_adds_piles() {
    let crr_1 = PixelContent::new(10, 50).as_static();
    let crr_2 = PixelContent::new(10, 40).as_static();
    let crr_3 = PixelContent::new(10, 30).as_static();
    let new = PixelContent::new(10, 10);
    let vec: Vec<PixelContent> = vec![crr_1, crr_2, crr_3, new];
    assert_eq!(
        move_pixels(vec, BOARD_HEIGHT),
        vec![crr_1, crr_2, crr_3, PixelContent::new(10, 20)]
    );
}

#[test]
fn test_returns_static_point_when_hit_the_ground() {
    let y: i32 = BOARD_HEIGHT - 10;
    let new = PixelContent::new(10, y);
    let vec: Vec<PixelContent> = vec![new];
    let result = move_pixels(vec, BOARD_HEIGHT);
    assert_eq!(result, vec![PixelContent::new(10, y).as_static()]);
    assert!(result[0].is_static);
}

#[test]
fn test_does_nothing_with_static_point() {
    let px = PixelContent::new(30, 70).as_static();
    assert_eq!(move_pixels(vec![px], BOARD_HEIGHT), vec![px]);
}

#[test]
fn test_add_to_some_direction_when_pile_is_too_large() {
    // No obstacle of the pile decides a direction, so the tie-break coin
    // does; a coin showing "right" sends the blocked particle right.
    let crr_1 = PixelContent::new(30, 70).as_static();
    let crr_2 = PixelContent::new(30, 60).as_static();
    let crr_3 = PixelContent::new(30, 50).as_static();
    let new = PixelContent::new(30, 40);
    let vec: Vec<PixelContent> = vec![crr_1, crr_2, crr_3, new];
    let coins: Vec<bool> = vec![true, true, true, true];
    let result = move_pixels_with(vec, BOARD_HEIGHT, coins);
    let inserted_pixel = result.last().unwrap();
    assert_eq!(true, inserted_pixel.x == 40);
}

#[test]
fn test_add_to_some_direction_when_pile_is_too_large_left() {
    let crr_1 = PixelContent::new(30, 70).as_static();
    let crr_2 = PixelContent::new(30, 60).as_static();
    let crr_3 = PixelContent::new(30, 50).as_static();
    let crr_4 = PixelContent::new(40, 70).as_static();
    let new = PixelContent::new(30, 40);
    let vec: Vec<PixelContent> = vec![crr_1, crr_2, crr_3, crr_4, new];
    let result = move_pixels(vec, BOARD_HEIGHT);
    assert_eq!(vec![crr_1, crr_2, crr_3, crr_4, PixelContent::new(20, 40)], result);

    let inserted_pixel = result.last().unwrap();
    assert_eq!(true, inserted_pixel.x == 20);
}

#[test]
fn test_add_to_simple() {
    // The lone obstacle below is open on both sides, so the coin decides;
    // with a coin showing "right" the blocked particle shifts one cell right.
    let crr_1 = PixelContent::new(30, 70).as_static();
    let new = PixelContent::new(30, 60);
    let vec: Vec<PixelContent> = vec![crr_1, new];
    let coins: Vec<bool> = vec![true, true];
    let result = move_pixels_with(vec, BOARD_HEIGHT, coins);
    let expected: Vec<PixelContent> = vec![crr_1, PixelContent::new(40, 60)];
    assert_eq!(expected, result);
}

#[test]
fn test_one_sided_pile_displaces_right() {
    // The bottom obstacle has a static neighbor on its left only, so the
    // blocked particle shifts right, deterministically.
    let crr_1 = PixelContent::new(30, 70).as_static();
    let crr_2 = PixelContent::new(30, 60).as_static();
    let crr_3 = PixelContent::new(30, 50).as_static();
    let crr_4 = PixelContent::new(20, 70).as_static();
    let new = PixelContent::new(30, 40);
    let vec: Vec<PixelContent> = vec![crr_1, crr_2, crr_3, crr_4, new];
    let result = move_pixels(vec, BOARD_HEIGHT);
    assert_eq!(vec![crr_1, crr_2, crr_3, crr_4, PixelContent::new(40, 40)], result);
    assert!(!result[4].is_static);
}

#[test]
fn test_boxed_in_settles_in_place() {
    // The only obstacle has static neighbors on both sides: the blocked
    // particle settles where it stands, with no horizontal movement.
    let left = PixelContent::new(20, 50).as_static();
    let mid = PixelContent::new(30, 50).as_static();
    let right = PixelContent::new(40, 50).as_static();
    let new = PixelContent::new(30, 40);
    let vec: Vec<PixelContent> = vec![left, mid, right, new];
    let result = move_pixels(vec, BOARD_HEIGHT);
    assert_eq!(vec![left, mid, right, PixelContent::new(30, 40)], result);
    assert!(result[3].is_static);
}

#[test]
fn test_random_fallback_is_one_cell_either_way() {
    // Through the random path the outcome is one of exactly two positions.
    let crr_1 = PixelContent::new(30, 70).as_static();
    let new = PixelContent::new(30, 60);
    let vec: Vec<PixelContent> = vec![crr_1, new];
    let result = move_pixels(vec, BOARD_HEIGHT);
    assert_eq!(result.len(), 2);
    assert_eq!(result[1].y, 60);
    assert!(result[1].x == 20 || result[1].x == 40);
    assert!(!result[1].is_static);
}

#[test]
fn test_coin_seam_decides_direction() {
    let crr_1 = PixelContent::new(30, 70).as_static();
    let new = PixelContent::new(30, 60);
    let left_run = move_pixels_with(vec![crr_1, new], BOARD_HEIGHT, vec![false, false]);
    assert_eq!(left_run[1], PixelContent::new(20, 60));
    let right_run = move_pixels_with(vec![crr_1, new], BOARD_HEIGHT, vec![true, true]);
    assert_eq!(right_run[1], PixelContent::new(40, 60));
}

#[test]
fn test_order_and_length_preserved() {
    // Each output index answers the input index: three independent columns.
    let a = PixelContent::new(100, 0);
    let b = PixelContent::new(200, 30).as_static();
    let c = PixelContent::new(300, 710);
    let vec: Vec<PixelContent> = vec![a, b, c];
    let result = move_pixels(vec, BOARD_HEIGHT);
    assert_eq!(result.len(), 3);
    assert_eq!(result[0], PixelContent::new(100, 10));
    assert_eq!(result[1], b);
    assert_eq!(result[2], PixelContent::new(300, 710));
    assert!(result[2].is_static);
}
