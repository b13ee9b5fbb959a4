use rustplot::palette::nth_colour;

#[test]
fn palette_entries() {
    // First entries of the palette, as red, green, blue shares of 255.
    assert_eq!(nth_colour(0), (230, 25, 75));
    assert_eq!(nth_colour(1), (60, 180, 75));
    assert_eq!(nth_colour(2), (255, 225, 25));
    assert_eq!(nth_colour(3), (0, 130, 200));
    assert_eq!(nth_colour(19), (128, 128, 128));
}
