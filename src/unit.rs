//! Strongly typed units: byte and character offsets, lines, columns, and 2d locations.
use vstd::prelude::*;

verus! {

/// The value `v` clamped at zero, as the saturating conversions to `usize` compute it.
pub open spec fn clamp_to_usize(v: i32) -> usize {
    if v < 0 {
        0usize
    } else {
        v as usize
    }
}

/// The absolute value of `v`, saturated at `i32::MAX`.
pub open spec fn saturating_abs_of(v: i32) -> i32 {
    if v == i32::MIN {
        i32::MAX
    } else if v < 0 {
        (-v) as i32
    } else {
        v
    }
}

fn clamp_i32(v: i32) -> (r: usize)
    ensures
        r == clamp_to_usize(v),
{
    if v < 0 {
        0
    } else {
        v as usize
    }
}

fn abs_i32(v: i32) -> (r: i32)
    ensures
        r == saturating_abs_of(v),
{
    if v == i32::MIN {
        i32::MAX
    } else if v < 0 {
        -v
    } else {
        v
    }
}

// === Bytes ===
/// An offset in the buffer in bytes.
#[derive(Clone, Copy, Debug, Default, PartialEq, Eq, Structural, Hash, PartialOrd, Ord)]
pub struct Bytes {
    pub value: i32,
}

impl Bytes {
    /// Saturating conversion to `usize`.
    pub fn as_usize(self) -> (r: usize)
        ensures
            r == clamp_to_usize(self.value),
    {
        clamp_i32(self.value)
    }
}

// === UBytes ===
/// Unsigned bytes unit.
#[derive(Clone, Copy, Debug, Default, PartialEq, Eq, Structural, Hash, PartialOrd, Ord)]
pub struct UBytes {
    pub value: usize,
}

/// The error of converting a negative [`Bytes`] value to [`UBytes`].
#[derive(Clone, Copy, Debug, PartialEq, Eq, Structural)]
pub struct BytesToUBytesConversionError;

impl TryFrom<Bytes> for UBytes {
    type Error = BytesToUBytesConversionError;

    /// Conversion from [`Bytes`], refused for negative values.
    fn try_from(bytes: Bytes) -> (r: Result<UBytes, BytesToUBytesConversionError>) {
        if bytes.value < 0 {
            Err(BytesToUBytesConversionError)
        } else {
            Ok(UBytes { value: bytes.value as usize })
        }
    }
}

impl vstd::std_specs::convert::TryFromSpecImpl<Bytes> for UBytes {
    open spec fn obeys_try_from_spec() -> bool {
        true
    }

    open spec fn try_from_spec(bytes: Bytes) -> Result<UBytes, BytesToUBytesConversionError> {
        if bytes.value < 0 {
            Err(BytesToUBytesConversionError)
        } else {
            Ok(UBytes { value: bytes.value as usize })
        }
    }
}

// === Chars ===
/// An offset in the buffer in Rust's chars (roughly the Unicode code points).
#[derive(Clone, Copy, Debug, Default, PartialEq, Eq, Structural, Hash, PartialOrd, Ord)]
pub struct Chars {
    pub value: i32,
}

impl Chars {
    /// Saturating conversion to `usize`.
    pub fn as_usize(self) -> (r: usize)
        ensures
            r == clamp_to_usize(self.value),
    {
        clamp_i32(self.value)
    }
}

// === Line ===
/// A type representing vertical measurements.
#[derive(Clone, Copy, Debug, Default, PartialEq, Eq, Structural, Hash, PartialOrd, Ord)]
pub struct Line {
    pub value: i32,
}

impl Line {
    /// Saturating conversion to `usize`.
    pub fn as_usize(self) -> (r: usize)
        ensures
            r == clamp_to_usize(self.value),
    {
        clamp_i32(self.value)
    }

    /// Compute the absolute value of this line.
    pub fn abs(self) -> (r: Self)
        ensures
            r.value == saturating_abs_of(self.value),
    {
        Line { value: abs_i32(self.value) }
    }
}

// === ViewLine ===
/// A line counted from the top of the visible area.
#[derive(Clone, Copy, Debug, Default, PartialEq, Eq, Structural, Hash, PartialOrd, Ord)]
pub struct ViewLine {
    pub value: usize,
}

/// Smart constructor.
#[allow(non_snake_case)]
pub fn ViewLine(value: usize) -> (r: ViewLine)
    ensures
        r.value == value,
{
    ViewLine { value }
}

impl ViewLine {
    /// The next line.
    pub fn inc(self) -> (r: Self)
        requires
            self.value < usize::MAX,
        ensures
            r.value == self.value + 1,
    {
        self + ViewLine(1)
    }
}

impl core::ops::Add for ViewLine {
    type Output = ViewLine;

    /// Sum of two lines.
    fn add(self, rhs: ViewLine) -> (r: ViewLine) {
        ViewLine { value: self.value + rhs.value }
    }
}

impl vstd::std_specs::ops::AddSpecImpl for ViewLine {
    open spec fn obeys_add_spec() -> bool {
        true
    }

    open spec fn add_req(self, rhs: ViewLine) -> bool {
        self.value + rhs.value <= usize::MAX
    }

    open spec fn add_spec(self, rhs: ViewLine) -> ViewLine {
        ViewLine { value: (self.value + rhs.value) as usize }
    }
}

impl core::ops::Sub for ViewLine {
    type Output = ViewLine;

    /// Difference of two lines, which stops at the first line instead of going below it.
    fn sub(self, rhs: ViewLine) -> (r: ViewLine) {
        if self.value < rhs.value {
            ViewLine(0)
        } else {
            ViewLine(self.value - rhs.value)
        }
    }
}

impl vstd::std_specs::ops::SubSpecImpl for ViewLine {
    open spec fn obeys_sub_spec() -> bool {
        true
    }

    open spec fn sub_req(self, rhs: ViewLine) -> bool {
        true
    }

    open spec fn sub_spec(self, rhs: ViewLine) -> ViewLine {
        ViewLine {
            value: if self.value < rhs.value {
                0
            } else {
                (self.value - rhs.value) as usize
            },
        }
    }
}

// === Column ===
/// Unsigned column unit.
#[derive(Clone, Copy, Debug, Default, PartialEq, Eq, Structural, Hash, PartialOrd, Ord)]
pub struct Column {
    pub value: usize,
}

// === CodePointIndex ===
/// An index of a code point in a line.
#[derive(Clone, Copy, Debug, Default, PartialEq, Eq, Structural, Hash, PartialOrd, Ord)]
pub struct CodePointIndex {
    pub value: i32,
}

impl CodePointIndex {
    /// Saturating conversion to `usize`.
    pub fn as_usize(self) -> (r: usize)
        ensures
            r == clamp_to_usize(self.value),
    {
        clamp_i32(self.value)
    }

    /// Compute the absolute value of this column.
    pub fn abs(self) -> (r: Self)
        ensures
            r.value == saturating_abs_of(self.value),
    {
        CodePointIndex { value: abs_i32(self.value) }
    }
}

// === Location ===
/// A type representing 2d measurements.
#[derive(Clone, Copy, Debug, Default, PartialEq, Eq, Hash, PartialOrd, Ord)]
pub struct Location<Offset = UBytes, LineType = Line> {
    pub line: LineType,
    pub offset: Offset,
}

/// Smart constructor.
#[allow(non_snake_case)]
pub fn Location<Offset, LineType>(line: LineType, offset: Offset) -> (r: Location<Offset, LineType>)
    ensures
        r.line == line,
        r.offset == offset,
{
    Location { line, offset }
}

impl<Offset, LineType> Location<Offset, LineType> {
    /// Line setter.
    pub fn with_line<Line2>(self, line: Line2) -> (r: Location<Offset, Line2>)
        ensures
            r.line == line,
            r.offset == self.offset,
    {
        Location { line, offset: self.offset }
    }

    /// Offset setter.
    pub fn with_offset<Offset2>(self, offset: Offset2) -> (r: Location<Offset2, LineType>)
        ensures
            r.line == self.line,
            r.offset == offset,
    {
        Location { line: self.line, offset }
    }

    /// Replaces the line with `f` applied to it.
    pub fn mod_line<Line2, F: FnOnce(LineType) -> Line2>(self, f: F) -> (r: Location<Offset, Line2>)
        requires
            f.requires((self.line,)),
        ensures
            f.ensures((self.line,), r.line),
            r.offset == self.offset,
    {
        let line = f(self.line);
        Location { line, offset: self.offset }
    }

    /// Replaces the offset with `f` applied to it.
    pub fn mod_offset<Offset2, F: FnOnce(Offset) -> Offset2>(self, f: F) -> (r: Location<
        Offset2,
        LineType,
    >)
        requires
            f.requires((self.offset,)),
        ensures
            f.ensures((self.offset,), r.offset),
            r.line == self.line,
    {
        let offset = f(self.offset);
        Location { line: self.line, offset }
    }
}

impl<Offset> Location<Offset, Line> {
    /// The same offset on the first line.
    pub fn zero_line(self) -> (r: Self)
        ensures
            r.line.value == 0,
            r.offset == self.offset,
    {
        self.with_line(Line { value: 0 })
    }

    /// The same offset on the next line.
    pub fn inc_line(self) -> (r: Self)
        requires
            self.line.value < i32::MAX,
        ensures
            r.line.value == self.line.value + 1,
            r.offset == self.offset,
    {
        self.mod_line(|t: Line| -> (u: Line)
            requires
                t.value < i32::MAX,
            ensures
                u.value == t.value + 1,
            { Line { value: t.value + 1 } })
    }

    /// The same offset on the previous line.
    pub fn dec_line(self) -> (r: Self)
        requires
            self.line.value > i32::MIN,
        ensures
            r.line.value == self.line.value - 1,
            r.offset == self.offset,
    {
        self.mod_line(|t: Line| -> (u: Line)
            requires
                t.value > i32::MIN,
            ensures
                u.value == t.value - 1,
            { Line { value: t.value - 1 } })
    }
}

impl<Offset> Location<Offset, ViewLine> {
    /// The same offset on the first visible line.
    pub fn zero_line(self) -> (r: Self)
        ensures
            r.line.value == 0,
            r.offset == self.offset,
    {
        self.with_line(ViewLine(0))
    }

    /// The same offset on the next visible line.
    pub fn inc_line(self) -> (r: Self)
        requires
            self.line.value < usize::MAX,
        ensures
            r.line.value == self.line.value + 1,
            r.offset == self.offset,
    {
        self.mod_line(|t: ViewLine| -> (u: ViewLine)
            requires
                t.value < usize::MAX,
            ensures
                u.value == t.value + 1,
            { t + ViewLine(1) })
    }

    /// The same offset on the previous visible line, or on the first one if this is it.
    pub fn dec_line(self) -> (r: Self)
        ensures
            r.line.value == if self.line.value == 0 {
                0
            } else {
                self.line.value - 1
            },
            r.offset == self.offset,
    {
        self.mod_line(|t: ViewLine| -> (u: ViewLine)
            ensures
                u.value == if t.value == 0 {
                    0
                } else {
                    t.value - 1
                },
            { t - ViewLine(1) })
    }
}

impl<LineType> Location<UBytes, LineType> {
    /// The start of the same line.
    pub fn zero_offset(self) -> (r: Self)
        ensures
            r.line == self.line,
            r.offset.value == 0,
    {
        self.with_offset(UBytes { value: 0 })
    }

    /// The next byte on the same line.
    pub fn inc_offset(self) -> (r: Self)
        requires
            self.offset.value < usize::MAX,
        ensures
            r.line == self.line,
            r.offset.value == self.offset.value + 1,
    {
        self.mod_offset(|t: UBytes| -> (u: UBytes)
            requires
                t.value < usize::MAX,
            ensures
                u.value == t.value + 1,
            { UBytes { value: t.value + 1 } })
    }

    /// The previous byte on the same line; subtracting unsigned bytes gives signed ones.
    pub fn dec_offset(self) -> (r: Location<Bytes, LineType>)
        requires
            self.offset.value <= i32::MAX,
        ensures
            r.line == self.line,
            r.offset.value == self.offset.value - 1,
    {
        self.mod_offset(|t: UBytes| -> (u: Bytes)
            requires
                t.value <= i32::MAX,
            ensures
                u.value == t.value - 1,
            { Bytes { value: t.value as i32 - 1 } })
    }
}

} // verus!
