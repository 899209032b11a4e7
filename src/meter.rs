//! Geometry of a vertical level meter: which glyph each row shows.
use vstd::prelude::*;

verus! {

/// What one row of a meter shows.
#[derive(Clone, Copy, Debug, PartialEq, Eq, Structural)]
pub enum MeterGlyph {
    /// The level marker, drawn wide.
    Marker,
    /// The cap at the top of the scale.
    TopCap,
    /// The cap at the bottom of the scale.
    BottomCap,
    /// A tick, on every fifth row.
    Tick,
    /// Plain scale.
    Rail,
}

/// The row of the level marker for a level of `value` percent (above 100 counts as
/// 100) on a scale from row `top` (100%) down to row `bottom` (0%).
pub open spec fn marker_row_of(top: u16, bottom: u16, value: u8) -> int {
    let v = if value > 100 {
        100int
    } else {
        value as int
    };
    bottom - (bottom - top) * v / 100
}

/// The glyph of row `row` on a scale from `top` to `bottom` with the marker at `marker`.
pub open spec fn glyph_of(row: u16, top: u16, bottom: u16, marker: u16) -> MeterGlyph {
    if row == marker {
        MeterGlyph::Marker
    } else if row == top {
        MeterGlyph::TopCap
    } else if row == bottom {
        MeterGlyph::BottomCap
    } else if row % 5 == 0 {
        MeterGlyph::Tick
    } else {
        MeterGlyph::Rail
    }
}

/// The row of the level marker; it lies on the scale.
pub fn marker_row(top: u16, bottom: u16, value: u8) -> (r: u16)
    requires
        top <= bottom,
    ensures
        r as int == marker_row_of(top, bottom, value),
        top <= r <= bottom,
{
    let v: u32 = if value > 100 {
        100
    } else {
        value as u32
    };
    let span: u32 = (bottom - top) as u32;
    assert(span * v <= span * 100) by (nonlinear_arith)
        requires
            v <= 100,
    ;
    let drop: u32 = span * v / 100;
    assert(drop <= span) by (nonlinear_arith)
        requires
            drop == span * v / 100,
            v <= 100,
    ;
    bottom - drop as u16
}

/// The glyph of one row.
pub fn glyph_at(row: u16, top: u16, bottom: u16, marker: u16) -> (r: MeterGlyph)
    ensures
        r == glyph_of(row, top, bottom, marker),
{
    if row == marker {
        MeterGlyph::Marker
    } else if row == top {
        MeterGlyph::TopCap
    } else if row == bottom {
        MeterGlyph::BottomCap
    } else if row % 5 == 0 {
        MeterGlyph::Tick
    } else {
        MeterGlyph::Rail
    }
}

/// The glyphs of rows `top` to `bottom`, top first, for a level of `value` percent.
pub fn meter_column(top: u16, bottom: u16, value: u8) -> (r: Vec<MeterGlyph>)
    requires
        top <= bottom,
    ensures
        r.len() == bottom - top + 1,
        forall|i: int|
            0 <= i < r.len() ==> #[trigger] r[i] == glyph_of(
                (top + i) as u16,
                top,
                bottom,
                marker_row_of(top, bottom, value) as u16,
            ),
{
    let marker = marker_row(top, bottom, value);
    let mut r: Vec<MeterGlyph> = Vec::new();
    let mut row: u16 = top;
    loop
        invariant_except_break
            top <= row <= bottom,
            r.len() == row - top,
        invariant
            marker as int == marker_row_of(top, bottom, value),
            forall|i: int|
                0 <= i < r.len() ==> #[trigger] r[i] == glyph_of((top + i) as u16, top, bottom, marker),
        ensures
            r.len() == bottom - top + 1,
        decreases bottom - row,
    {
        r.push(glyph_at(row, top, bottom, marker));
        if row == bottom {
            break;
        }
        row = row + 1;
    }
    r
}

} // verus!
