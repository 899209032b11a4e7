use tmix::meter::{glyph_at, marker_row, meter_column};
use tmix::MeterGlyph;

#[test]
fn marker_row_scales_value() {
    assert_eq!(marker_row(2, 12, 0), 12);
    assert_eq!(marker_row(2, 12, 100), 2);
    assert_eq!(marker_row(2, 12, 50), 7);
    assert_eq!(marker_row(2, 12, 33), 9);
    assert_eq!(marker_row(2, 12, 250), 2);
    assert_eq!(marker_row(4, 4, 60), 4);
}

#[test]
fn glyphs_by_row() {
    assert_eq!(glyph_at(7, 2, 12, 7), MeterGlyph::Marker);
    assert_eq!(glyph_at(2, 2, 12, 7), MeterGlyph::TopCap);
    assert_eq!(glyph_at(12, 2, 12, 7), MeterGlyph::BottomCap);
    assert_eq!(glyph_at(10, 2, 12, 7), MeterGlyph::Tick);
    assert_eq!(glyph_at(11, 2, 12, 7), MeterGlyph::Rail);
}

#[test]
fn column_covers_scale() {
    let c = meter_column(3, 6, 0);
    assert_eq!(
        c,
        vec![MeterGlyph::TopCap, MeterGlyph::Rail, MeterGlyph::Tick, MeterGlyph::Marker]
    );
}
