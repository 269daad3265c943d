use pepper::color::Palette;
use pepper::Color;

#[test]
fn color_new_sets_channels() {
    let c = Color::new(12, 34, 56);
    assert_eq!(c.red, 12);
    assert_eq!(c.green, 34);
    assert_eq!(c.blue, 56);
}

#[test]
fn palette_table_values() {
    assert_eq!(Palette::Black.rgb(), Color::new(0, 0, 0));
    assert_eq!(Palette::White.rgb(), Color::new(255, 255, 255));
    assert_eq!(Palette::Red.rgb(), Color::new(255, 0, 0));
    assert_eq!(Palette::Green.rgb(), Color::new(0, 255, 0));
    assert_eq!(Palette::Blue.rgb(), Color::new(0, 0, 255));
    assert_eq!(Palette::Teal.rgb(), Color::new(0, 255, 255));
    assert_eq!(Palette::Purple.rgb(), Color::new(255, 0, 255));
    assert_eq!(Palette::Yellow.rgb(), Color::new(255, 255, 0));
    assert_eq!(Palette::PastelYellow.rgb(), Color::new(239, 169, 74));
}
