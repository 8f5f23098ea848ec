use vstd::prelude::*;

verus! {

/// An RGB colour, 8 bits per channel.
#[derive(Clone, Copy, Debug, PartialEq, Eq, Structural)]
pub struct Color {
    pub r: u8,
    pub g: u8,
    pub b: u8,
}

impl Color {
    /// Split a `0xRRGGBB` word into its three channels.
    pub fn rgb_u32(hex: u32) -> (c: Color)
        ensures
            c.r as u32 == (hex >> 16u32) & 0xff,
            c.g as u32 == (hex >> 8u32) & 0xff,
            c.b as u32 == hex & 0xff,
    {
        proof {
            assert((hex >> 16u32) & 0xff < 256 && (hex >> 8u32) & 0xff < 256 && hex & 0xff < 256)
                by (bit_vector);
        }
        Color {
            r: ((hex >> 16u32) & 0xff) as u8,
            g: ((hex >> 8u32) & 0xff) as u8,
            b: (hex & 0xff) as u8,
        }
    }
}

/// Width of the small module body sprite, in pixels.
pub const BODY_SMALL_WIDTH: u32 = 14;

/// Width of the large module body sprite, in pixels.
pub const BODY_LARGE_WIDTH: u32 = 22;

/// The physical shape a module body presents to the collision layer.
///
/// Lengths are in half-pixels so that shapes centred between pixels still
/// have exact integer measures.
#[derive(Clone, Copy, Debug, PartialEq, Eq, Structural)]
pub enum ColliderShape {
    Ball { radius_half_px: u32 },
}

/// The shape of a module's body: which sprite it is drawn with and which
/// collider it presents to the physics layer.
#[derive(Clone, Copy, Debug, PartialEq, Eq, Structural, Default)]
pub enum BodyType {
    #[default]
    Small,
    Large,
}

impl BodyType {
    /// Sprite width in pixels.
    pub fn width(self) -> (w: u32)
        ensures
            w == self.width_spec(),
    {
        match self {
            BodyType::Small => BODY_SMALL_WIDTH,
            BodyType::Large => BODY_LARGE_WIDTH,
        }
    }

    fn color_internal(self) -> (hex: u32)
        ensures
            hex == 0x65edc0u32,
    {
        let cyanish = 0x65edc0;
        match self {
            BodyType::Small => cyanish,
            BodyType::Large => cyanish,
        }
    }

    /// The body's fill colour.
    pub fn color(self) -> (c: Color)
        ensures
            c == (Color { r: 0x65, g: 0xed, b: 0xc0 }),
    {
        proof {
            assert((0x65edc0u32 >> 16u32) & 0xff == 0x65 && (0x65edc0u32 >> 8u32) & 0xff == 0xed
                && 0x65edc0u32 & 0xff == 0xc0) by (bit_vector);
        }
        Color::rgb_u32(self.color_internal())
    }

    /// The collider the body presents: a ball one pixel narrower than the
    /// sprite, so marbles touch the drawn rim.
    pub fn collider(self) -> (c: ColliderShape)
        ensures
            c == (ColliderShape::Ball { radius_half_px: (self.width_spec() - 1) as u32 }),
    {
        ColliderShape::Ball { radius_half_px: self.width() - 1 }
    }

    /// Sprite width in pixels (specification mirror of `width`).
    pub open spec fn width_spec(self) -> u32 {
        match self {
            BodyType::Small => BODY_SMALL_WIDTH,
            BodyType::Large => BODY_LARGE_WIDTH,
        }
    }
}

} // verus!
