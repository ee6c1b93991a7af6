//! Map colors and the physical materials of blocks.
use vstd::prelude::*;

verus! {

/// Colors used for blocks displayed in a map.
#[derive(Clone, Copy, Debug, PartialEq, Eq, Structural)]
pub enum Color {
    NoColor,
    Grass,
    Sand,
    Wool,
    Fire,
    Ice,
    Metal,
    Plant,
    Snow,
    Clay,
    Dirt,
    Stone,
    Water,
    Wood,
    Quartz,
    ColorOrange,
    ColorMagenta,
    ColorLightBlue,
    ColorYellow,
    ColorLightGreen,
    ColorPink,
    ColorGray,
    ColorLightGray,
    ColorCyan,
    ColorPurple,
    ColorBlue,
    ColorBrown,
    ColorGreen,
    ColorRed,
    ColorBlack,
    Gold,
    Diamond,
    Lapis,
    Emerald,
    Podzol,
    Nether,
    TerracottaWhite,
    TerracottaOrange,
    TerracottaMagenta,
    TerracottaLightBlue,
    TerracottaYellow,
    TerracottaLightGreen,
    TerracottaPink,
    TerracottaGray,
    TerracottaLightGray,
    TerracottaCyan,
    TerracottaPurple,
    TerracottaBlue,
    TerracottaBrown,
    TerracottaGreen,
    TerracottaRed,
    TerracottaBlack,
    CrimsonNylium,
    CrimsonStem,
    CrimsonHyphae,
    WarpedNylium,
    WarpedStem,
    WarpedHyphae,
    WarpedWartBlock,
    Deepslate,
    RawIron,
    GlowLichen,
}

impl Color {
    /// The RGB value of the color, `0xRRGGBB`.
    pub open spec fn spec_rgb(self) -> u32 {
        match self {
            Color::NoColor => 0x000000,
            Color::Grass => 0x7fb238,
            Color::Sand => 0xf7e9a3,
            Color::Wool => 0xc7c7c7,
            Color::Fire => 0xff0000,
            Color::Ice => 0xa0a0ff,
            Color::Metal => 0xa7a7a7,
            Color::Plant => 0x007c00,
            Color::Snow => 0xffffff,
            Color::Clay => 0xa4a8b8,
            Color::Dirt => 0x976d4d,
            Color::Stone => 0x707070,
            Color::Water => 0x4040ff,
            Color::Wood => 0x8f7748,
            Color::Quartz => 0xfffcf5,
            Color::ColorOrange => 0xd87f33,
            Color::ColorMagenta => 0xb24cd8,
            Color::ColorLightBlue => 0x6699d8,
            Color::ColorYellow => 0xe5e533,
            Color::ColorLightGreen => 0x7fcc19,
            Color::ColorPink => 0xf27fa5,
            Color::ColorGray => 0x4c4c4c,
            Color::ColorLightGray => 0x999999,
            Color::ColorCyan => 0x4c7f99,
            Color::ColorPurple => 0x7f3fb2,
            Color::ColorBlue => 0x334cb2,
            Color::ColorBrown => 0x664c33,
            Color::ColorGreen => 0x667f33,
            Color::ColorRed => 0x993333,
            Color::ColorBlack => 0x191919,
            Color::Gold => 0xfaee4d,
            Color::Diamond => 0x5cdbd5,
            Color::Lapis => 0x4a80ff,
            Color::Emerald => 0x00d93a,
            Color::Podzol => 0x815631,
            Color::Nether => 0x700200,
            Color::TerracottaWhite => 0xd1b1a1,
            Color::TerracottaOrange => 0x9f5224,
            Color::TerracottaMagenta => 0x95576c,
            Color::TerracottaLightBlue => 0x706c8a,
            Color::TerracottaYellow => 0xba8524,
            Color::TerracottaLightGreen => 0x677535,
            Color::TerracottaPink => 0xa04d4e,
            Color::TerracottaGray => 0x392923,
            Color::TerracottaLightGray => 0x876b62,
            Color::TerracottaCyan => 0x575c5c,
            Color::TerracottaPurple => 0x7a4958,
            Color::TerracottaBlue => 0x4c3e5c,
            Color::TerracottaBrown => 0x4c3223,
            Color::TerracottaGreen => 0x4c522a,
            Color::TerracottaRed => 0x8e3c2e,
            Color::TerracottaBlack => 0x251610,
            Color::CrimsonNylium => 0xbd3031,
            Color::CrimsonStem => 0x943f61,
            Color::CrimsonHyphae => 0x5c191d,
            Color::WarpedNylium => 0x167e86,
            Color::WarpedStem => 0x3a8e8c,
            Color::WarpedHyphae => 0x562c3e,
            Color::WarpedWartBlock => 0x14b485,
            Color::Deepslate => 0x646464,
            Color::RawIron => 0xd8af93,
            Color::GlowLichen => 0x7fa796,
        }
    }

    /// Returns the RGB value of the color, `0xRRGGBB`.
    pub fn rgb(self) -> (r: u32)
        ensures
            r == self.spec_rgb(),
    {
        match self {
            Color::NoColor => 0x000000,
            Color::Grass => 0x7fb238,
            Color::Sand => 0xf7e9a3,
            Color::Wool => 0xc7c7c7,
            Color::Fire => 0xff0000,
            Color::Ice => 0xa0a0ff,
            Color::Metal => 0xa7a7a7,
            Color::Plant => 0x007c00,
            Color::Snow => 0xffffff,
            Color::Clay => 0xa4a8b8,
            Color::Dirt => 0x976d4d,
            Color::Stone => 0x707070,
            Color::Water => 0x4040ff,
            Color::Wood => 0x8f7748,
            Color::Quartz => 0xfffcf5,
            Color::ColorOrange => 0xd87f33,
            Color::ColorMagenta => 0xb24cd8,
            Color::ColorLightBlue => 0x6699d8,
            Color::ColorYellow => 0xe5e533,
            Color::ColorLightGreen => 0x7fcc19,
            Color::ColorPink => 0xf27fa5,
            Color::ColorGray => 0x4c4c4c,
            Color::ColorLightGray => 0x999999,
            Color::ColorCyan => 0x4c7f99,
            Color::ColorPurple => 0x7f3fb2,
            Color::ColorBlue => 0x334cb2,
            Color::ColorBrown => 0x664c33,
            Color::ColorGreen => 0x667f33,
            Color::ColorRed => 0x993333,
            Color::ColorBlack => 0x191919,
            Color::Gold => 0xfaee4d,
            Color::Diamond => 0x5cdbd5,
            Color::Lapis => 0x4a80ff,
            Color::Emerald => 0x00d93a,
            Color::Podzol => 0x815631,
            Color::Nether => 0x700200,
            Color::TerracottaWhite => 0xd1b1a1,
            Color::TerracottaOrange => 0x9f5224,
            Color::TerracottaMagenta => 0x95576c,
            Color::TerracottaLightBlue => 0x706c8a,
            Color::TerracottaYellow => 0xba8524,
            Color::TerracottaLightGreen => 0x677535,
            Color::TerracottaPink => 0xa04d4e,
            Color::TerracottaGray => 0x392923,
            Color::TerracottaLightGray => 0x876b62,
            Color::TerracottaCyan => 0x575c5c,
            Color::TerracottaPurple => 0x7a4958,
            Color::TerracottaBlue => 0x4c3e5c,
            Color::TerracottaBrown => 0x4c3223,
            Color::TerracottaGreen => 0x4c522a,
            Color::TerracottaRed => 0x8e3c2e,
            Color::TerracottaBlack => 0x251610,
            Color::CrimsonNylium => 0xbd3031,
            Color::CrimsonStem => 0x943f61,
            Color::CrimsonHyphae => 0x5c191d,
            Color::WarpedNylium => 0x167e86,
            Color::WarpedStem => 0x3a8e8c,
            Color::WarpedHyphae => 0x562c3e,
            Color::WarpedWartBlock => 0x14b485,
            Color::Deepslate => 0x646464,
            Color::RawIron => 0xd8af93,
            Color::GlowLichen => 0x7fa796,
        }
    }
}

/// What should happen when a piston tries to push the block.
#[derive(Clone, Copy, Debug, PartialEq, Eq, Structural)]
pub enum PushReaction {
    /// Pushed normally.
    Normal,
    /// Block is destroyed.
    Destroy,
    /// Piston doesn't extend, block can't be pushed.
    Block,
    /// Piston head passes through the block.
    Ignore,
    /// Block can be pushed normally, but not retracted.
    PushOnly,
}

/// The physical material of a block.
#[derive(Clone, Copy, Debug, PartialEq, Eq, Structural)]
pub struct Material {
    pub color: Color,
    pub blocks_motion: bool,
    pub solid_blocking: bool,
    pub solid: bool,
    pub replaceable: bool,
    pub flammable: bool,
    pub liquid: bool,
    pub push_reaction: PushReaction,
}

impl Material {
    /// A solid, motion-blocking, pushable material of the given color.
    pub fn new(color: Color) -> (r: Self)
        ensures
            r == (Material {
                color,
                blocks_motion: true,
                solid_blocking: true,
                solid: true,
                replaceable: false,
                flammable: false,
                liquid: false,
                push_reaction: PushReaction::Normal,
            }),
    {
        Material {
            color,
            push_reaction: PushReaction::Normal,
            blocks_motion: true,
            flammable: false,
            liquid: false,
            solid_blocking: true,
            replaceable: false,
            solid: true,
        }
    }

    /// The same material, letting entities pass through.
    pub fn no_collider(self) -> (r: Self)
        ensures
            r == (Material { blocks_motion: false, ..self }),
    {
        Material { blocks_motion: false, ..self }
    }

    /// The same material, not blocking as a solid.
    pub fn non_solid_blocking(self) -> (r: Self)
        ensures
            r == (Material { solid_blocking: false, ..self }),
    {
        Material { solid_blocking: false, ..self }
    }

    /// The same material, not solid.
    pub fn non_solid(self) -> (r: Self)
        ensures
            r == (Material { solid: false, ..self }),
    {
        Material { solid: false, ..self }
    }

    /// The same material, flammable.
    pub fn flammable(self) -> (r: Self)
        ensures
            r == (Material { flammable: true, ..self }),
    {
        Material { flammable: true, ..self }
    }

    /// The same material, replaceable when placing another block.
    pub fn replaceable(self) -> (r: Self)
        ensures
            r == (Material { replaceable: true, ..self }),
    {
        Material { replaceable: true, ..self }
    }

    /// The same material, liquid.
    pub fn liquid(self) -> (r: Self)
        ensures
            r == (Material { liquid: true, ..self }),
    {
        Material { liquid: true, ..self }
    }

    /// The same material, destroyed when pushed.
    pub fn destroy_on_push(self) -> (r: Self)
        ensures
            r == (Material { push_reaction: PushReaction::Destroy, ..self }),
    {
        Material { push_reaction: PushReaction::Destroy, ..self }
    }

    /// The same material, not pushable.
    pub fn not_pushable(self) -> (r: Self)
        ensures
            r == (Material { push_reaction: PushReaction::Block, ..self }),
    {
        Material { push_reaction: PushReaction::Block, ..self }
    }
}

} // verus!
