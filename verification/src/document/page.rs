//! Page settings: paper size, margins and orientation.
//!
//! Lengths are millimetre values held as the bit patterns of IEEE-754
//! doubles (`f64::to_bits`): the library stores and compares them, and the
//! renderer turns them back into numbers.

use vstd::prelude::*;

verus! {

/// Physical paper size.
#[derive(Debug, Clone, Copy, PartialEq, Eq, Structural)]
pub enum PaperSize {
    A3,
    A4,
    A5,
    /// 215.9 × 279.4 mm
    Letter,
    /// 215.9 × 355.6 mm
    Legal,
    /// 279.4 × 431.8 mm
    Tabloid,
    Custom { width_mm_bits: u64, height_mm_bits: u64 },
}

/// The width and height in millimetres of a paper size, as `f64` bit patterns.
pub open spec fn paper_dimensions(p: PaperSize) -> (u64, u64) {
    match p {
        PaperSize::A3 => (0x4072900000000000, 0x407a400000000000),  // 297.0 × 420.0
        PaperSize::A4 => (0x406a400000000000, 0x4072900000000000),  // 210.0 × 297.0
        PaperSize::A5 => (0x4062800000000000, 0x406a400000000000),  // 148.0 × 210.0
        PaperSize::Letter => (0x406afccccccccccd, 0x4071766666666666),  // 215.9 × 279.4
        PaperSize::Legal => (0x406afccccccccccd, 0x407639999999999a),  // 215.9 × 355.6
        PaperSize::Tabloid => (0x4071766666666666, 0x407afccccccccccd),  // 279.4 × 431.8
        PaperSize::Custom { width_mm_bits, height_mm_bits } => (width_mm_bits, height_mm_bits),
    }
}

impl PaperSize {
    /// Returns (width_mm, height_mm) as `f64` bit patterns.
    pub fn dimensions_bits(&self) -> (r: (u64, u64))
        ensures
            r == paper_dimensions(*self),
    {
        match self {
            PaperSize::A3 => (0x4072900000000000, 0x407a400000000000),
            PaperSize::A4 => (0x406a400000000000, 0x4072900000000000),
            PaperSize::A5 => (0x4062800000000000, 0x406a400000000000),
            PaperSize::Letter => (0x406afccccccccccd, 0x4071766666666666),
            PaperSize::Legal => (0x406afccccccccccd, 0x407639999999999a),
            PaperSize::Tabloid => (0x4071766666666666, 0x407afccccccccccd),
            PaperSize::Custom { width_mm_bits, height_mm_bits } => (*width_mm_bits, *height_mm_bits),
        }
    }
}

impl Default for PaperSize {
    fn default() -> (r: Self)
        ensures
            r == PaperSize::A4,
    {
        PaperSize::A4
    }
}

/// Page margins in millimetres, as `f64` bit patterns.
#[derive(Debug, Clone, Copy, PartialEq, Eq, Structural)]
pub struct Margins {
    pub top_mm_bits: u64,
    pub bottom_mm_bits: u64,
    pub left_mm_bits: u64,
    pub right_mm_bits: u64,
}

/// The bit pattern of 25.4 (one inch in millimetres).
pub const ONE_INCH_MM_BITS: u64 = 0x4039666666666666;

impl Default for Margins {
    fn default() -> (r: Self)
        ensures
            r.top_mm_bits == ONE_INCH_MM_BITS,
            r.bottom_mm_bits == ONE_INCH_MM_BITS,
            r.left_mm_bits == ONE_INCH_MM_BITS,
            r.right_mm_bits == ONE_INCH_MM_BITS,
    {
        Margins {
            top_mm_bits: ONE_INCH_MM_BITS,
            bottom_mm_bits: ONE_INCH_MM_BITS,
            left_mm_bits: ONE_INCH_MM_BITS,
            right_mm_bits: ONE_INCH_MM_BITS,
        }
    }
}

/// Page orientation.
#[derive(Debug, Clone, Copy, PartialEq, Eq, Structural)]
pub enum Orientation {
    Portrait,
    Landscape,
}

/// Per-document page settings stored inside the .folio bundle.
#[derive(Debug, Clone, Copy, PartialEq, Eq, Structural)]
pub struct PageSettings {
    pub paper_size: PaperSize,
    pub margins: Margins,
    pub orientation: Orientation,
}

/// The default page: A4, one-inch margins, portrait.
pub open spec fn default_page() -> PageSettings {
    PageSettings {
        paper_size: PaperSize::A4,
        margins: Margins {
            top_mm_bits: ONE_INCH_MM_BITS,
            bottom_mm_bits: ONE_INCH_MM_BITS,
            left_mm_bits: ONE_INCH_MM_BITS,
            right_mm_bits: ONE_INCH_MM_BITS,
        },
        orientation: Orientation::Portrait,
    }
}

impl Default for PageSettings {
    fn default() -> (r: Self)
        ensures
            r == default_page(),
    {
        PageSettings {
            paper_size: PaperSize::default(),
            margins: Margins::default(),
            orientation: Orientation::Portrait,
        }
    }
}

} // verus!
