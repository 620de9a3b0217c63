//! Colour values. A colour state carries its components in every device
//! space at once, and the current space selects which is live; setting a
//! colour writes the space whose operand count matches, and changing the
//! space never touches components.

use vstd::prelude::*;

use crate::numbers::Fixed;

verus! {

/// The device colour spaces.
#[derive(Debug, Clone, Copy, PartialEq, Eq, Structural)]
pub enum ColorSpace {
    DeviceRGB,
    DeviceGray,
    DeviceCMYK,
}

/// A colour-space name that is none of the device spaces.
#[derive(Debug, PartialEq)]
pub enum ColorSpaceError {
    UnrecognizedColorSpace(Vec<u8>),
}

/// Errors of colour operands.
#[derive(Debug, Clone, Copy, PartialEq, Eq, Structural)]
pub enum ColorError {
    TooManyParams(usize),
    TooFewParams,
}

/// Components clamp to `[0, 255]`.
pub open spec fn spec_clamp(v: int) -> int {
    if v > 255000000 {
        255000000
    } else if v < 0 {
        0
    } else {
        v
    }
}

/// A clamped component above one whole unit is scaled down by 255.
pub open spec fn spec_normalize(v: int) -> int {
    if v <= 1000000 {
        v
    } else {
        v / 255
    }
}

fn clamp(v: Fixed) -> (r: Fixed)
    ensures
        r.micros == spec_clamp(v.micros as int),
{
    if v.micros > 255000000 {
        Fixed { micros: 255000000 }
    } else if v.micros < 0 {
        Fixed { micros: 0 }
    } else {
        v
    }
}

/// An RGB colour; components at most one unit, scaled down by 255 when
/// given on the 0-to-255 scale.
#[derive(Debug, Clone, Copy, PartialEq, Eq, Structural)]
pub struct Rgb {
    pub red: Fixed,
    pub green: Fixed,
    pub blue: Fixed,
}

impl Rgb {
    pub fn new(r: Fixed, g: Fixed, b: Fixed) -> (c: Rgb)
        ensures
            c.red.micros == spec_normalize(spec_clamp(r.micros as int)),
            c.green.micros == spec_normalize(spec_clamp(g.micros as int)),
            c.blue.micros == spec_normalize(spec_clamp(b.micros as int)),
    {
        Rgb { red: Self::normalize(clamp(r)), green: Self::normalize(clamp(g)), blue: Self::normalize(clamp(b)) }
    }

    fn normalize(v: Fixed) -> (r: Fixed)
        requires
            0 <= v.micros,
        ensures
            r.micros == spec_normalize(v.micros as int),
    {
        if v.micros <= 1000000 {
            v
        } else {
            Fixed { micros: v.micros / 255 }
        }
    }

    pub fn set(&mut self, c: Rgb)
        ensures
            *final(self) == c,
    {
        *self = c;
    }

    pub fn red(&self) -> (r: Fixed)
        ensures
            r == self.red,
    {
        self.red
    }

    pub fn green(&self) -> (r: Fixed)
        ensures
            r == self.green,
    {
        self.green
    }

    pub fn blue(&self) -> (r: Fixed)
        ensures
            r == self.blue,
    {
        self.blue
    }
}

impl Default for Rgb {
    /// Black.
    fn default() -> (r: Rgb)
        ensures
            r.red.micros == 0,
            r.green.micros == 0,
            r.blue.micros == 0,
    {
        Rgb { red: Fixed { micros: 0 }, green: Fixed { micros: 0 }, blue: Fixed { micros: 0 } }
    }
}

/// A CMYK colour; components clamp to `[0, 255]`.
#[derive(Debug, Clone, Copy, PartialEq, Eq, Structural)]
pub struct Cmyk(pub Fixed, pub Fixed, pub Fixed, pub Fixed);

impl Cmyk {
    pub fn new(c: Fixed, m: Fixed, y: Fixed, k: Fixed) -> (r: Cmyk)
        ensures
            r.0.micros == spec_clamp(c.micros as int),
            r.1.micros == spec_clamp(m.micros as int),
            r.2.micros == spec_clamp(y.micros as int),
            r.3.micros == spec_clamp(k.micros as int),
    {
        Cmyk(clamp(c), clamp(m), clamp(y), clamp(k))
    }

    pub fn set(&mut self, c: Cmyk)
        ensures
            *final(self) == c,
    {
        *self = c;
    }
}

impl Default for Cmyk {
    fn default() -> (r: Cmyk)
        ensures
            r == (Cmyk(
                Fixed { micros: 0 },
                Fixed { micros: 0 },
                Fixed { micros: 0 },
                Fixed { micros: 0 },
            )),
    {
        Cmyk(Fixed { micros: 0 }, Fixed { micros: 0 }, Fixed { micros: 0 }, Fixed { micros: 0 })
    }
}

/// A grayscale colour; the component clamps to `[0, 255]`.
#[derive(Debug, Clone, Copy, PartialEq, Eq, Structural)]
pub struct Gray(pub Fixed);

impl Gray {
    pub fn new(c: Fixed) -> (r: Gray)
        ensures
            r.0.micros == spec_clamp(c.micros as int),
    {
        Gray(clamp(c))
    }

    pub fn set(&mut self, c: Gray)
        ensures
            *final(self) == c,
    {
        *self = c;
    }
}

impl Default for Gray {
    fn default() -> (r: Gray)
        ensures
            r == (Gray(Fixed { micros: 0 })),
    {
        Gray(Fixed { micros: 0 })
    }
}

/// The live colour: the current space together with its components.
#[derive(Debug, Clone, Copy, PartialEq, Eq, Structural)]
pub enum ColorSpaceWithColor {
    DeviceRGB(Rgb),
    DeviceGray(Gray),
    DeviceCMYK(Cmyk),
}

/// Reads a colour-space name: `DeviceRGB`, `DeviceGray` or `DeviceCMYK`.
pub fn color_space_from_bytes(name: &[u8]) -> (r: Result<ColorSpace, ColorSpaceError>)
    ensures
        match r {
            Ok(c) => (c == ColorSpace::DeviceRGB && name@ =~= seq![68u8, 101u8, 118u8, 105u8,
                99u8, 101u8, 82u8, 71u8, 66u8]) || (c == ColorSpace::DeviceGray && name@
                =~= seq![68u8, 101u8, 118u8, 105u8, 99u8, 101u8, 71u8, 114u8, 97u8, 121u8]) || (
            c == ColorSpace::DeviceCMYK && name@ =~= seq![68u8, 101u8, 118u8, 105u8, 99u8,
                101u8, 67u8, 77u8, 89u8, 75u8]),
            Err(e) => {
                &&& name@ != seq![68u8, 101u8, 118u8, 105u8, 99u8, 101u8, 82u8, 71u8, 66u8]
                &&& name@ != seq![68u8, 101u8, 118u8, 105u8, 99u8, 101u8, 71u8, 114u8, 97u8,
                    121u8]
                &&& name@ != seq![68u8, 101u8, 118u8, 105u8, 99u8, 101u8, 67u8, 77u8, 89u8,
                    75u8]
                &&& e matches ColorSpaceError::UnrecognizedColorSpace(n) && n@ == name@
            },
        },
{
    let rgb = vec![68u8, 101u8, 118u8, 105u8, 99u8, 101u8, 82u8, 71u8, 66u8];
    let gray = vec![68u8, 101u8, 118u8, 105u8, 99u8, 101u8, 71u8, 114u8, 97u8, 121u8];
    let cmyk = vec![68u8, 101u8, 118u8, 105u8, 99u8, 101u8, 67u8, 77u8, 89u8, 75u8];
    proof {
        assert(rgb@ =~= seq![68u8, 101u8, 118u8, 105u8, 99u8, 101u8, 82u8, 71u8, 66u8]);
        assert(gray@ =~= seq![68u8, 101u8, 118u8, 105u8, 99u8, 101u8, 71u8, 114u8, 97u8, 121u8]);
        assert(cmyk@ =~= seq![68u8, 101u8, 118u8, 105u8, 99u8, 101u8, 67u8, 77u8, 89u8, 75u8]);
    }
    if crate::object::bytes_eq(name, rgb.as_slice()) {
        Ok(ColorSpace::DeviceRGB)
    } else if crate::object::bytes_eq(name, gray.as_slice()) {
        Ok(ColorSpace::DeviceGray)
    } else if crate::object::bytes_eq(name, cmyk.as_slice()) {
        Ok(ColorSpace::DeviceCMYK)
    } else {
        let mut copy: Vec<u8> = Vec::new();
        let n = name.len();
        let mut i: usize = 0;
        while i < n
            invariant
                0 <= i <= n,
                n == name@.len(),
                copy@ == name@.subrange(0, i as int),
            decreases n - i,
        {
            copy.push(name[i]);
            proof {
                assert(copy@ =~= name@.subrange(0, i + 1));
            }
            i = i + 1;
        }
        proof {
            assert(copy@ =~= name@);
        }
        Err(ColorSpaceError::UnrecognizedColorSpace(copy))
    }
}

/// The colour used for non-stroking operations, with the last components
/// set in every space.
#[derive(Debug, Clone, Copy, PartialEq, Eq, Structural)]
pub struct NonStrokeColor {
    pub color_space: ColorSpace,
    pub rgb: Rgb,
    pub cmyk: Cmyk,
    pub gray: Gray,
}

impl NonStrokeColor {
    /// Black in every component, selected in the RGB space.
    pub open spec fn spec_black() -> NonStrokeColor {
        NonStrokeColor {
            color_space: ColorSpace::DeviceRGB,
            rgb: Rgb { red: Fixed { micros: 0 }, green: Fixed { micros: 0 }, blue: Fixed {
                micros: 0,
            } },
            cmyk: Cmyk(
                Fixed { micros: 0 },
                Fixed { micros: 0 },
                Fixed { micros: 0 },
                Fixed { micros: 0 },
            ),
            gray: Gray(Fixed { micros: 0 }),
        }
    }
}

impl Default for NonStrokeColor {
    /// Black in the RGB space.
    fn default() -> (r: NonStrokeColor)
        ensures
            r.color_space == ColorSpace::DeviceRGB,
            r.rgb == (Rgb { red: Fixed { micros: 0 }, green: Fixed { micros: 0 }, blue: Fixed { micros: 0 } }),
            r.cmyk == (Cmyk(Fixed { micros: 0 }, Fixed { micros: 0 }, Fixed { micros: 0 }, Fixed { micros: 0 })),
            r.gray == (Gray(Fixed { micros: 0 })),
    {
        NonStrokeColor {
            color_space: ColorSpace::DeviceRGB,
            rgb: Rgb::default(),
            cmyk: Cmyk::default(),
            gray: Gray::default(),
        }
    }
}

/// The colour used for stroking operations, with the last components set
/// in every space.
#[derive(Debug, Clone, Copy, PartialEq, Eq, Structural)]
pub struct StrokeColor {
    pub color_space: ColorSpace,
    pub rgb: Rgb,
    pub cmyk: Cmyk,
    pub gray: Gray,
}

impl StrokeColor {
    /// Black in every component, selected in the gray space.
    pub open spec fn spec_black() -> StrokeColor {
        StrokeColor {
            color_space: ColorSpace::DeviceGray,
            rgb: Rgb { red: Fixed { micros: 0 }, green: Fixed { micros: 0 }, blue: Fixed {
                micros: 0,
            } },
            cmyk: Cmyk(
                Fixed { micros: 0 },
                Fixed { micros: 0 },
                Fixed { micros: 0 },
                Fixed { micros: 0 },
            ),
            gray: Gray(Fixed { micros: 0 }),
        }
    }
}

impl Default for StrokeColor {
    /// Black in the gray space.
    fn default() -> (r: StrokeColor)
        ensures
            r.color_space == ColorSpace::DeviceGray,
            r.rgb == (Rgb { red: Fixed { micros: 0 }, green: Fixed { micros: 0 }, blue: Fixed { micros: 0 } }),
            r.cmyk == (Cmyk(Fixed { micros: 0 }, Fixed { micros: 0 }, Fixed { micros: 0 }, Fixed { micros: 0 })),
            r.gray == (Gray(Fixed { micros: 0 })),
    {
        StrokeColor {
            color_space: ColorSpace::DeviceGray,
            rgb: Rgb::default(),
            cmyk: Cmyk::default(),
            gray: Gray::default(),
        }
    }
}

/// What setting a colour from `c` operands does: one operand writes the
/// gray component, three write RGB, four write CMYK; zero is too few, any
/// other count too many. The current space is never touched.
pub open spec fn spec_set_color_ok(c: Seq<Fixed>) -> bool {
    c.len() == 1 || c.len() == 3 || c.len() == 4
}

/// The RGB value three operands build: clamped, then normalised.
pub open spec fn spec_rgb_of(r: Fixed, g: Fixed, b: Fixed) -> Rgb {
    Rgb {
        red: Fixed { micros: spec_normalize(spec_clamp(r.micros as int)) as i64 },
        green: Fixed { micros: spec_normalize(spec_clamp(g.micros as int)) as i64 },
        blue: Fixed { micros: spec_normalize(spec_clamp(b.micros as int)) as i64 },
    }
}

/// The CMYK value four operands build: clamped.
pub open spec fn spec_cmyk_of(c: Fixed, m: Fixed, y: Fixed, k: Fixed) -> Cmyk {
    Cmyk(
        Fixed { micros: spec_clamp(c.micros as int) as i64 },
        Fixed { micros: spec_clamp(m.micros as int) as i64 },
        Fixed { micros: spec_clamp(y.micros as int) as i64 },
        Fixed { micros: spec_clamp(k.micros as int) as i64 },
    )
}

impl NonStrokeColor {
    pub fn set_color_space(&mut self, c: ColorSpace)
        ensures
            final(self).color_space == c,
            final(self).rgb == old(self).rgb,
            final(self).cmyk == old(self).cmyk,
            final(self).gray == old(self).gray,
    {
        self.color_space = c;
    }

    /// Writes the components of the space the operand count names.
    pub fn set_color(&mut self, c: Vec<Fixed>) -> (r: Result<(), ColorError>)
        ensures
            final(self).color_space == old(self).color_space,
            match r {
                Ok(()) => {
                    &&& spec_set_color_ok(c@)
                    &&& (c@.len() == 1 ==> final(self).gray.0.micros == spec_clamp(
                        c@[0].micros as int,
                    ) && final(self).rgb == old(self).rgb && final(self).cmyk == old(
                        self,
                    ).cmyk)
                    &&& (c@.len() == 3 ==> final(self).rgb == spec_rgb_of(c@[0], c@[1], c@[2])
                        && final(self).gray == old(self).gray && final(self).cmyk == old(
                        self,
                    ).cmyk)
                    &&& (c@.len() == 4 ==> final(self).cmyk == spec_cmyk_of(
                        c@[0],
                        c@[1],
                        c@[2],
                        c@[3],
                    ) && final(self).gray == old(self).gray && final(self).rgb == old(
                        self,
                    ).rgb)
                },
                Err(e) => {
                    &&& !spec_set_color_ok(c@)
                    &&& *final(self) == *old(self)
                    &&& e == if c@.len() == 0 {
                        ColorError::TooFewParams
                    } else {
                        ColorError::TooManyParams(c@.len() as usize)
                    }
                },
            },
    {
        if c.len() == 0 {
            Err(ColorError::TooFewParams)
        } else if c.len() == 1 {
            self.gray = Gray::new(c[0]);
            Ok(())
        } else if c.len() == 3 {
            self.rgb = Rgb::new(c[0], c[1], c[2]);
            Ok(())
        } else if c.len() == 4 {
            self.cmyk = Cmyk::new(c[0], c[1], c[2], c[3]);
            Ok(())
        } else {
            Err(ColorError::TooManyParams(c.len()))
        }
    }

    /// The components of the current space.
    pub fn get_current_color(&self) -> (r: ColorSpaceWithColor)
        ensures
            r == match self.color_space {
                ColorSpace::DeviceCMYK => ColorSpaceWithColor::DeviceCMYK(self.cmyk),
                ColorSpace::DeviceRGB => ColorSpaceWithColor::DeviceRGB(self.rgb),
                ColorSpace::DeviceGray => ColorSpaceWithColor::DeviceGray(self.gray),
            },
    {
        match self.color_space {
            ColorSpace::DeviceCMYK => ColorSpaceWithColor::DeviceCMYK(self.cmyk),
            ColorSpace::DeviceRGB => ColorSpaceWithColor::DeviceRGB(self.rgb),
            ColorSpace::DeviceGray => ColorSpaceWithColor::DeviceGray(self.gray),
        }
    }
}

impl StrokeColor {
    pub fn set_color_space(&mut self, c: ColorSpace)
        ensures
            final(self).color_space == c,
            final(self).rgb == old(self).rgb,
            final(self).cmyk == old(self).cmyk,
            final(self).gray == old(self).gray,
    {
        self.color_space = c;
    }

    /// Writes the components of the space the operand count names.
    pub fn set_color(&mut self, c: Vec<Fixed>) -> (r: Result<(), ColorError>)
        ensures
            final(self).color_space == old(self).color_space,
            match r {
                Ok(()) => {
                    &&& spec_set_color_ok(c@)
                    &&& (c@.len() == 1 ==> final(self).gray.0.micros == spec_clamp(
                        c@[0].micros as int,
                    ) && final(self).rgb == old(self).rgb && final(self).cmyk == old(
                        self,
                    ).cmyk)
                    &&& (c@.len() == 3 ==> final(self).rgb == spec_rgb_of(c@[0], c@[1], c@[2])
                        && final(self).gray == old(self).gray && final(self).cmyk == old(
                        self,
                    ).cmyk)
                    &&& (c@.len() == 4 ==> final(self).cmyk == spec_cmyk_of(
                        c@[0],
                        c@[1],
                        c@[2],
                        c@[3],
                    ) && final(self).gray == old(self).gray && final(self).rgb == old(
                        self,
                    ).rgb)
                },
                Err(e) => {
                    &&& !spec_set_color_ok(c@)
                    &&& *final(self) == *old(self)
                    &&& e == if c@.len() == 0 {
                        ColorError::TooFewParams
                    } else {
                        ColorError::TooManyParams(c@.len() as usize)
                    }
                },
            },
    {
        if c.len() == 0 {
            Err(ColorError::TooFewParams)
        } else if c.len() == 1 {
            self.gray = Gray::new(c[0]);
            Ok(())
        } else if c.len() == 3 {
            self.rgb = Rgb::new(c[0], c[1], c[2]);
            Ok(())
        } else if c.len() == 4 {
            self.cmyk = Cmyk::new(c[0], c[1], c[2], c[3]);
            Ok(())
        } else {
            Err(ColorError::TooManyParams(c.len()))
        }
    }

    /// The components of the current space.
    pub fn get_current_color(&self) -> (r: ColorSpaceWithColor)
        ensures
            r == match self.color_space {
                ColorSpace::DeviceCMYK => ColorSpaceWithColor::DeviceCMYK(self.cmyk),
                ColorSpace::DeviceRGB => ColorSpaceWithColor::DeviceRGB(self.rgb),
                ColorSpace::DeviceGray => ColorSpaceWithColor::DeviceGray(self.gray),
            },
    {
        match self.color_space {
            ColorSpace::DeviceCMYK => ColorSpaceWithColor::DeviceCMYK(self.cmyk),
            ColorSpace::DeviceRGB => ColorSpaceWithColor::DeviceRGB(self.rgb),
            ColorSpace::DeviceGray => ColorSpaceWithColor::DeviceGray(self.gray),
        }
    }
}

} // verus!
