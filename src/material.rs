use vstd::prelude::*;

verus! {

/// Fixed-point unit: every optical quantity is stored in thousandths,
/// so `ONE` stands for `1.0`.
pub const ONE: i32 = 1000;

/// The closed set of surface kinds a voxel can carry.
#[derive(Clone, Copy, Debug, PartialEq, Eq, Structural)]
pub enum MaterialKind {
    Terrain,
    Trunk,
    Leaves,
    Glass,
    Water,
    Stone,
    Cloud,
}

impl MaterialKind {
    /// Whether a cell of this kind stops a shadow ray. Clouds never block;
    /// with `ignore_water` water does not block either.
    pub open spec fn spec_blocks_light(self, ignore_water: bool) -> bool {
        self != MaterialKind::Cloud && !(ignore_water && self == MaterialKind::Water)
    }

    pub fn blocks_light(self, ignore_water: bool) -> (r: bool)
        ensures
            r == self.spec_blocks_light(ignore_water),
    {
        match self {
            MaterialKind::Cloud => false,
            MaterialKind::Water => !ignore_water,
            _ => true,
        }
    }

    /// Kinds whose colour comes from a procedural texture.
    pub open spec fn spec_is_textured(self) -> bool {
        self == MaterialKind::Terrain || self == MaterialKind::Trunk
            || self == MaterialKind::Leaves || self == MaterialKind::Stone
    }

    pub fn is_textured(self) -> (r: bool)
        ensures
            r == self.spec_is_textured(),
    {
        match self {
            MaterialKind::Terrain | MaterialKind::Trunk | MaterialKind::Leaves
            | MaterialKind::Stone => true,
            _ => false,
        }
    }
}

/// A colour in thousandths per channel. Channels may leave `[0, ONE]`
/// while colours are combined and are clamped when presented.
#[derive(Clone, Copy, Debug, PartialEq, Eq, Structural)]
pub struct Color {
    pub r: i32,
    pub g: i32,
    pub b: i32,
}

pub open spec fn clamp_unit(c: int) -> int {
    if c < 0 {
        0
    } else if c > ONE {
        ONE as int
    } else {
        c
    }
}

/// An 8-bit channel: `c * 255 / ONE` truncated toward zero, saturated to `[0, 255]`.
pub open spec fn channel_to_u8(c: int) -> int {
    let scaled = if c >= 0 {
        (c * 255) / (ONE as int)
    } else {
        -((-c * 255) / (ONE as int))
    };
    if scaled < 0 {
        0
    } else if scaled > 255 {
        255
    } else {
        scaled
    }
}

fn channel_u8(c: i32) -> (r: u8)
    ensures
        r as int == channel_to_u8(c as int),
{
    let wide: i64 = c as i64 * 255;
    let scaled: i64 = if wide >= 0 {
        wide / 1000
    } else {
        -((-wide) / 1000)
    };
    if scaled < 0 {
        0
    } else if scaled > 255 {
        255
    } else {
        scaled as u8
    }
}

impl Color {
    pub fn new(r: i32, g: i32, b: i32) -> (c: Color)
        ensures
            c == (Color { r, g, b }),
    {
        Color { r, g, b }
    }

    pub fn black() -> (c: Color)
        ensures
            c == (Color { r: 0, g: 0, b: 0 }),
    {
        Color { r: 0, g: 0, b: 0 }
    }

    pub fn white() -> (c: Color)
        ensures
            c == (Color { r: ONE, g: ONE, b: ONE }),
    {
        Color { r: ONE, g: ONE, b: ONE }
    }

    /// Each channel clamped into `[0, ONE]`.
    pub fn clamped(self) -> (c: Color)
        ensures
            c.r == clamp_unit(self.r as int),
            c.g == clamp_unit(self.g as int),
            c.b == clamp_unit(self.b as int),
    {
        Color { r: clamp_channel(self.r), g: clamp_channel(self.g), b: clamp_channel(self.b) }
    }

    /// The colour as three bytes, `ONE` mapping to 255.
    pub fn to_rgb8(self) -> (rgb: [u8; 3])
        ensures
            rgb[0] as int == channel_to_u8(self.r as int),
            rgb[1] as int == channel_to_u8(self.g as int),
            rgb[2] as int == channel_to_u8(self.b as int),
    {
        [channel_u8(self.r), channel_u8(self.g), channel_u8(self.b)]
    }
}

fn clamp_channel(c: i32) -> (r: i32)
    ensures
        r == clamp_unit(c as int),
{
    if c < 0 {
        0
    } else if c > ONE {
        ONE
    } else {
        c
    }
}

/// Optical description of a voxel surface. Scalars are in thousandths:
/// `reflectivity` and `transparency` lie in `[0, ONE]`, `ior` is at least `ONE`.
#[derive(Clone, Copy, Debug, PartialEq, Eq, Structural)]
pub struct Material {
    pub color: Color,
    pub specular: i32,
    pub shininess: i32,
    pub kind: MaterialKind,
    pub reflectivity: i32,
    pub transparency: i32,
    pub ior: i32,
}

impl Material {
    /// The documented ranges of the optical scalars.
    pub open spec fn wf(self) -> bool {
        &&& 0 <= self.reflectivity <= ONE
        &&& 0 <= self.transparency <= ONE
        &&& self.ior >= ONE
    }

    /// An opaque, non-reflective material of the given kind.
    pub fn new_basic(color: Color, specular: i32, shininess: i32, kind: MaterialKind) -> (m: Material)
        ensures
            m == (Material {
                color,
                specular,
                shininess,
                kind,
                reflectivity: 0,
                transparency: 0,
                ior: ONE,
            }),
            m.wf(),
    {
        Material { color, specular, shininess, kind, reflectivity: 0, transparency: 0, ior: ONE }
    }

    /// A glossy glass with the given refraction index, reflectivity and transparency.
    pub fn new_glass(color: Color, ior: i32, reflectivity: i32, transparency: i32) -> (m: Material)
        requires
            ior >= ONE,
            0 <= reflectivity <= ONE,
            0 <= transparency <= ONE,
        ensures
            m == (Material {
                color,
                specular: 900,
                shininess: 180_000,
                kind: MaterialKind::Glass,
                reflectivity,
                transparency,
                ior,
            }),
            m.wf(),
    {
        Material {
            color,
            specular: 900,
            shininess: 180_000,
            kind: MaterialKind::Glass,
            reflectivity,
            transparency,
            ior,
        }
    }

    /// Water: mostly transparent, refraction index 1.33, no static reflectivity.
    pub fn new_water(color: Color) -> (m: Material)
        ensures
            m == (Material {
                color,
                specular: 500,
                shininess: 64_000,
                kind: MaterialKind::Water,
                reflectivity: 0,
                transparency: 800,
                ior: 1330,
            }),
            m.wf(),
    {
        Material {
            color,
            specular: 500,
            shininess: 64_000,
            kind: MaterialKind::Water,
            reflectivity: 0,
            transparency: 800,
            ior: 1330,
        }
    }

    /// Stone: opaque with a faint, broad highlight.
    pub fn new_stone(color: Color) -> (m: Material)
        ensures
            m == (Material {
                color,
                specular: 150,
                shininess: 18_000,
                kind: MaterialKind::Stone,
                reflectivity: 0,
                transparency: 0,
                ior: ONE,
            }),
            m.wf(),
    {
        Material {
            color,
            specular: 150,
            shininess: 18_000,
            kind: MaterialKind::Stone,
            reflectivity: 0,
            transparency: 0,
            ior: ONE,
        }
    }
}

} // verus!
