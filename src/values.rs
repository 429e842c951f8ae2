use vstd::prelude::*;

verus! {

/// A color with red, green, blue and alpha channels.
#[derive(Clone, Copy, Debug, PartialEq, Eq, Structural)]
pub struct Rgba(pub u8, pub u8, pub u8, pub u8);

/// Opaque black: the initial foreground color.
pub open spec fn black() -> Rgba {
    Rgba(0, 0, 0, 255)
}

/// Fully transparent: the initial background color.
pub open spec fn transparent() -> Rgba {
    Rgba(0, 0, 0, 0)
}

#[derive(Clone, Copy, Debug, PartialEq, Eq, Structural)]
pub enum FontStyle {
    Normal,
    Italic,
    Oblique,
}

#[derive(Clone, Copy, Debug, PartialEq, Eq, Structural)]
pub enum FontWeight {
    Normal,
    Bold,
}

#[derive(Clone, Debug, PartialEq, Eq)]
pub enum FontFamily {
    GenericSans,
    GenericSerif,
    GenericMonospace,
    GenericFantasy,
    GenericCursive,
    FamilyName(String),
}

/// A font size in whole pixels.
#[derive(Clone, Copy, Debug, PartialEq, Eq, Structural)]
pub struct FontSize(pub u32);

/// The font size every document starts from.
pub const INITIAL_FONT_SIZE: u32 = 16;

/// A length as written in a stylesheet: absolute pixels, or a multiple of
/// the inherited font size given in thousandths (`Em(1500)` is `1.5em`).
#[derive(Clone, Copy, Debug, PartialEq, Eq, Structural)]
pub enum SpecifiedLength {
    Absolute(u32),
    Em(u32),
}

/// The pixel size that a specified font size computes to, given the parent's size.
pub open spec fn resolved_font_size(s: SpecifiedLength, inherited: u32) -> u32 {
    match s {
        SpecifiedLength::Absolute(px) => px,
        SpecifiedLength::Em(thousandths) => {
            let exact = inherited as int * thousandths as int / 1000;
            if exact > u32::MAX as int {
                u32::MAX
            } else {
                exact as u32
            }
        },
    }
}

/// Unit resolution: an absolute size ignores the parent; a relative size is
/// exactly the parent's size times the factor, rounded down to whole pixels
/// (and capped at `u32::MAX`), so a factor of one keeps the parent's size.
pub proof fn lemma_font_size_resolution(inherited: u32, px: u32, thousandths: u32)
    ensures
        resolved_font_size(SpecifiedLength::Absolute(px), inherited) == px,
        resolved_font_size(SpecifiedLength::Em(1000), inherited) == inherited,
        inherited as int * thousandths as int / 1000 <= u32::MAX ==> resolved_font_size(
            SpecifiedLength::Em(thousandths),
            inherited,
        ) == inherited as int * thousandths as int / 1000,
        inherited as int * thousandths as int / 1000 > u32::MAX ==> resolved_font_size(
            SpecifiedLength::Em(thousandths),
            inherited,
        ) == u32::MAX,
{
    assert(inherited as int * 1000 / 1000 == inherited) by (nonlinear_arith);
}

impl FontSize {
    /// Early resolution: an absolute size stays as it is, a relative one is
    /// scaled by the parent's already resolved size (saturating at `u32::MAX`).
    pub fn early_from_specified(s: &SpecifiedLength, inherited: &FontSize) -> (r: FontSize)
        ensures
            r.0 == resolved_font_size(*s, inherited.0),
    {
        match s {
            SpecifiedLength::Absolute(px) => FontSize(*px),
            SpecifiedLength::Em(thousandths) => {
                let a: u64 = inherited.0 as u64;
                let b: u64 = *thousandths as u64;
                proof {
                    assert(a * b <= 0xffff_ffffu64 * 0xffff_ffffu64) by (nonlinear_arith)
                        requires
                            a <= 0xffff_ffffu64,
                            b <= 0xffff_ffffu64,
                    ;
                }
                let prod: u64 = a * b;
                let scaled: u64 = prod / 1000;
                if scaled > u32::MAX as u64 {
                    FontSize(u32::MAX)
                } else {
                    FontSize(scaled as u32)
                }
            },
        }
    }
}

/// Makes an owned copy of a font family.
pub fn copy_family(f: &FontFamily) -> (r: FontFamily)
    ensures
        r == *f,
{
    match f {
        FontFamily::GenericSans => FontFamily::GenericSans,
        FontFamily::GenericSerif => FontFamily::GenericSerif,
        FontFamily::GenericMonospace => FontFamily::GenericMonospace,
        FontFamily::GenericFantasy => FontFamily::GenericFantasy,
        FontFamily::GenericCursive => FontFamily::GenericCursive,
        FontFamily::FamilyName(s) => FontFamily::FamilyName(s.clone()),
    }
}

/// The inherited color group.
pub struct ColorProps {
    pub color: Rgba,
}

/// The inherited font group.
pub struct FontProps {
    pub font_family: FontFamily,
    pub font_style: FontStyle,
    pub font_weight: FontWeight,
    pub font_size: FontSize,
}

/// The non-inherited background group.
pub struct BackgroundProps {
    pub background_color: Rgba,
}

/// The fully resolved properties of one node.
pub struct ComputedValues {
    pub color: ColorProps,
    pub font: FontProps,
    pub background: BackgroundProps,
}

/// The values a node takes when nothing is specified and there is no parent.
pub open spec fn initial_values() -> ComputedValues {
    ComputedValues {
        color: ColorProps { color: black() },
        font: FontProps {
            font_family: FontFamily::GenericSans,
            font_style: FontStyle::Normal,
            font_weight: FontWeight::Normal,
            font_size: FontSize(INITIAL_FONT_SIZE),
        },
        background: BackgroundProps { background_color: transparent() },
    }
}

impl ComputedValues {
    pub fn initial() -> (r: ComputedValues)
        ensures
            r == initial_values(),
    {
        ComputedValues {
            color: ColorProps { color: Rgba(0, 0, 0, 255) },
            font: FontProps {
                font_family: FontFamily::GenericSans,
                font_style: FontStyle::Normal,
                font_weight: FontWeight::Normal,
                font_size: FontSize(INITIAL_FONT_SIZE),
            },
            background: BackgroundProps { background_color: Rgba(0, 0, 0, 0) },
        }
    }

    /// An owned copy of these values.
    pub fn copy(&self) -> (r: ComputedValues)
        ensures
            r == *self,
    {
        ComputedValues {
            color: ColorProps { color: self.color.color },
            font: FontProps {
                font_family: copy_family(&self.font.font_family),
                font_style: self.font.font_style,
                font_weight: self.font.font_weight,
                font_size: self.font.font_size,
            },
            background: BackgroundProps { background_color: self.background.background_color },
        }
    }
}

} // verus!
