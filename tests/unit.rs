use frp2::unit::Bytes;
use frp2::unit::BytesToUBytesConversionError;
use frp2::unit::Chars;
use frp2::unit::CodePointIndex;
use frp2::unit::Line;
use frp2::unit::Location;
use frp2::unit::UBytes;
use frp2::unit::ViewLine;

#[test]
fn saturating_usize_conversions() {
    assert_eq!(Bytes { value: -3 }.as_usize(), 0);
    assert_eq!(Bytes { value: 7 }.as_usize(), 7);
    assert_eq!(Chars { value: -1 }.as_usize(), 0);
    assert_eq!(Chars { value: 12 }.as_usize(), 12);
    assert_eq!(Line { value: i32::MIN }.as_usize(), 0);
    assert_eq!(Line { value: i32::MAX }.as_usize(), i32::MAX as usize);
    assert_eq!(CodePointIndex { value: 5 }.as_usize(), 5);
}

#[test]
fn absolute_values_saturate() {
    assert_eq!(Line { value: -4 }.abs(), Line { value: 4 });
    assert_eq!(Line { value: i32::MIN }.abs(), Line { value: i32::MAX });
    assert_eq!(CodePointIndex { value: 6 }.abs(), CodePointIndex { value: 6 });
    assert_eq!(CodePointIndex { value: i32::MIN }.abs(), CodePointIndex { value: i32::MAX });
}

#[test]
fn bytes_to_ubytes() {
    assert_eq!(UBytes::try_from(Bytes { value: 9 }), Ok(UBytes { value: 9 }));
    assert_eq!(UBytes::try_from(Bytes { value: -1 }), Err(BytesToUBytesConversionError));
}

#[test]
fn view_lines() {
    assert_eq!(ViewLine(4).inc(), ViewLine(5));
    assert_eq!(ViewLine(4) + ViewLine(3), ViewLine(7));
    assert_eq!(ViewLine(4) - ViewLine(3), ViewLine(1));
    assert_eq!(ViewLine(3) - ViewLine(4), ViewLine(0));
}

#[test]
fn locations() {
    let loc: Location = Location(Line { value: 2 }, UBytes { value: 5 });
    assert_eq!(loc.with_line(Line { value: 7 }).line, Line { value: 7 });
    assert_eq!(loc.with_offset(UBytes { value: 1 }).offset, UBytes { value: 1 });
    assert_eq!(loc.mod_line(|l: Line| ViewLine(l.value as usize)).line, ViewLine(2));
    assert_eq!(loc.mod_offset(|o: UBytes| o.value * 2).offset, 10);
    assert_eq!(loc.zero_line(), Location(Line { value: 0 }, UBytes { value: 5 }));
    assert_eq!(loc.zero_offset(), Location(Line { value: 2 }, UBytes { value: 0 }));
    assert_eq!(loc.inc_line().line, Line { value: 3 });
    assert_eq!(loc.dec_line().line, Line { value: 1 });
    assert_eq!(loc.inc_offset().offset, UBytes { value: 6 });
    assert_eq!(loc.dec_offset().offset, Bytes { value: 4 });
    assert_eq!(Location(Line { value: 0 }, UBytes { value: 0 }).dec_offset().offset, Bytes { value: -1 });
}

#[test]
fn view_locations() {
    let loc = Location(ViewLine(0), UBytes { value: 3 });
    assert_eq!(loc.dec_line().line, ViewLine(0));
    assert_eq!(loc.inc_line().line, ViewLine(1));
    assert_eq!(loc.inc_line().inc_line().dec_line().line, ViewLine(1));
    assert_eq!(Location(ViewLine(5), UBytes { value: 3 }).zero_line().line, ViewLine(0));
}
