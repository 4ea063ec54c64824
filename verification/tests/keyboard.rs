use layout_opt::keyboard::diagram_keyboard;

#[test]
fn keyboard_has_53_tiles() {
    assert_eq!(diagram_keyboard().len(), 53);
}

#[test]
fn keyboard_tile_positions() {
    let tiles = diagram_keyboard();
    // Top row starts at the origin with the first layout index.
    assert_eq!(tiles[0], (0, 0, 40, 0));
    assert_eq!(tiles[12], (480, 0, 40, 12));
    // Backspace closes the top row.
    assert_eq!(tiles[13], (520, 0, 60, 47));
    // Tab opens the second row, followed by the next symbol key.
    assert_eq!(tiles[14], (0, 40, 60, 48));
    assert_eq!(tiles[15], (60, 40, 40, 13));
    // Caps lock and enter frame the third row.
    assert_eq!(tiles[28], (0, 80, 70, 49));
    assert_eq!(tiles[29], (70, 80, 40, 26));
    assert_eq!(tiles[40], (510, 80, 70, 50));
    // The shifts frame the bottom row.
    assert_eq!(tiles[41], (0, 120, 90, 51));
    assert_eq!(tiles[42], (90, 120, 40, 37));
    assert_eq!(tiles[52], (490, 120, 90, 52));
}

#[test]
fn keyboard_covers_all_symbol_keys() {
    let tiles = diagram_keyboard();
    let mut seen = [false; 47];
    for &(_, _, _, li) in tiles.iter() {
        if li < 47 {
            seen[li] = true;
        }
    }
    assert!(seen.iter().all(|&s| s));
}
