//! Paper sizes of the ISO 216 A series, in millimetres and in pixels.

use vstd::prelude::*;

verus! {

/// A length in millimetres.
pub type MM = i32;

/// A sheet of paper: its size in the A series, and its sides as it lies.
pub struct Paper {
    pub size: ISO216,
    pub w: MM,
    pub h: MM,
}

/// How a sheet lies.
#[derive(Clone, Copy, Debug, PartialEq, Eq, Structural)]
pub enum Orientation {
    Portrait,
    Landscape,
}

/// The sizes of the A series.
#[derive(Clone, Copy, Debug, PartialEq, Eq, Structural)]
pub enum ISO216 {
    A0,
    A1,
    A2,
    A3,
    A4,
    A5,
    A6,
    A7,
    A8,
}

/// Why a size could not be looked up.
#[derive(Clone, Copy, Debug, PartialEq, Eq, Structural)]
pub enum ISO216PaperLookupErr {
    BadLenErr,
    ParseIntErr,
}

/// The number in the name of a size: how often A0 was halved to get it.
pub open spec fn halvings(size: ISO216) -> nat {
    match size {
        ISO216::A0 => 0,
        ISO216::A1 => 1,
        ISO216::A2 => 2,
        ISO216::A3 => 3,
        ISO216::A4 => 4,
        ISO216::A5 => 5,
        ISO216::A6 => 6,
        ISO216::A7 => 7,
        ISO216::A8 => 8,
    }
}

/// The name of a size: the letter A and the number of halvings.
pub open spec fn name_of(size: ISO216) -> Seq<char> {
    match size {
        ISO216::A0 => "A0"@,
        ISO216::A1 => "A1"@,
        ISO216::A2 => "A2"@,
        ISO216::A3 => "A3"@,
        ISO216::A4 => "A4"@,
        ISO216::A5 => "A5"@,
        ISO216::A6 => "A6"@,
        ISO216::A7 => "A7"@,
        ISO216::A8 => "A8"@,
    }
}

/// The long and the short side of the sheet that `n` halvings of A0 give.
/// Each halving turns the short side into the long one, and half of the
/// long side, rounded down, into the short one.
pub open spec fn sides(n: nat) -> (int, int)
    decreases n,
{
    if n == 0 {
        (1189, 841)
    } else {
        (sides((n - 1) as nat).1, sides((n - 1) as nat).0 / 2)
    }
}

/// The whole number of inches nearest to `mm` millimetres, of which an inch
/// holds 25.4. No length in whole millimetres lies halfway between two.
pub open spec fn whole_inches(mm: int) -> int {
    if mm >= 0 {
        (10 * mm + 127) / 254
    } else {
        -((127 - 10 * mm) / 254)
    }
}

/// The pixels that `mm` millimetres take at `dpi` dots per inch: the whole
/// inches times `dpi`, held within what a `u32` can hold.
pub open spec fn pixels(mm: int, dpi: int) -> int {
    let p = whole_inches(mm) * dpi;
    if p < 0 {
        0
    } else if p > u32::MAX {
        u32::MAX as int
    } else {
        p
    }
}

impl ISO216 {
    /// The name of the size, as it is written.
    pub fn to_string(&self) -> (name: String)
        ensures
            name@ == name_of(*self),
    {
        match self {
            ISO216::A0 => "A0".to_owned(),
            ISO216::A1 => "A1".to_owned(),
            ISO216::A2 => "A2".to_owned(),
            ISO216::A3 => "A3".to_owned(),
            ISO216::A4 => "A4".to_owned(),
            ISO216::A5 => "A5".to_owned(),
            ISO216::A6 => "A6".to_owned(),
            ISO216::A7 => "A7".to_owned(),
            ISO216::A8 => "A8".to_owned(),
        }
    }

    /// The number in the name of the size.
    pub fn number(&self) -> (n: u8)
        ensures
            n == halvings(*self),
    {
        match self {
            ISO216::A0 => 0,
            ISO216::A1 => 1,
            ISO216::A2 => 2,
            ISO216::A3 => 3,
            ISO216::A4 => 4,
            ISO216::A5 => 5,
            ISO216::A6 => 6,
            ISO216::A7 => 7,
            ISO216::A8 => 8,
        }
    }
}

fn pixels_of(mm: MM, dpi: u16) -> (p: u32)
    ensures
        p == pixels(mm as int, dpi as int),
{
    let m: i64 = mm as i64;
    let inches: i64 = if m >= 0 {
        (10 * m + 127) / 254
    } else {
        -((127 - 10 * m) / 254)
    };
    let d: i64 = dpi as i64;
    assert(-100000000 <= inches <= 100000000);
    assert(-100000000 * 65535 <= inches * d <= 100000000 * 65535) by (nonlinear_arith)
        requires
            -100000000 <= inches <= 100000000,
            0 <= d <= 65535,
    ;
    let p: i64 = inches * d;
    if p < 0 {
        0
    } else if p > u32::MAX as i64 {
        u32::MAX
    } else {
        p as u32
    }
}

impl Paper {
    /// The sheet of the given size and orientation. Every size of the series
    /// has one, so the result is never an error.
    pub fn from_iso216(size: ISO216, orientation: Orientation) -> (r: Result<
        Paper,
        ISO216PaperLookupErr,
    >)
        ensures
            r.is_ok(),
            r.unwrap().size == size,
            orientation == Orientation::Portrait ==> r.unwrap().w == sides(halvings(size)).1
                && r.unwrap().h == sides(halvings(size)).0,
            orientation == Orientation::Landscape ==> r.unwrap().w == sides(halvings(size)).0
                && r.unwrap().h == sides(halvings(size)).1,
    {
        let num: u8 = size.number();
        let mut longest: MM = 1189;
        let mut shortest: MM = 841;
        let mut k: u8 = 0;
        while k < num
            invariant
                k <= num,
                0 <= shortest,
                0 <= longest,
                longest == sides(k as nat).0,
                shortest == sides(k as nat).1,
            decreases num - k,
        {
            let temp: MM = longest;
            longest = shortest;
            shortest = temp / 2;
            k = k + 1;
        }
        match orientation {
            Orientation::Portrait => Ok(Paper { size, w: shortest, h: longest }),
            Orientation::Landscape => Ok(Paper { size, w: longest, h: shortest }),
        }
    }

    /// The width and the height of the sheet in pixels at `dpi` dots per
    /// inch: each side is taken to the nearest whole inch first.
    pub fn pixel_dimensions(&self, dpi: u16) -> (r: (u32, u32))
        ensures
            r.0 == pixels(self.w as int, dpi as int),
            r.1 == pixels(self.h as int, dpi as int),
    {
        (pixels_of(self.w, dpi), pixels_of(self.h, dpi))
    }
}

} // verus!
