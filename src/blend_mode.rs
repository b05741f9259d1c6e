//! Blend modes and their four-byte tags.

use vstd::prelude::*;

verus! {

/// Blend modes used in a Photoshop document.
#[derive(Debug, Clone, Copy, PartialEq, Eq, Structural)]
pub enum BlendMode {
    /// Pass-through blend mode.
    PassThrough,
    /// Normal blend mode.
    Normal,
    /// Dissolve blend mode.
    Dissolve,
    /// Darken blend mode.
    Darken,
    /// Multiply blend mode.
    Multiply,
    /// Colour burn blend mode.
    ColorBurn,
    /// Linear burn blend mode.
    LinearBurn,
    /// Darker colour blend mode.
    DarkerColor,
    /// Lighten blend mode.
    Lighten,
    /// Screen blend mode.
    Screen,
    /// Colour dodge blend mode.
    ColorDodge,
    /// Linear dodge blend mode.
    LinearDodge,
    /// Lighter colour blend mode.
    LighterColor,
    /// Overlay blend mode.
    Overlay,
    /// Soft light blend mode.
    SoftLight,
    /// Hard light blend mode.
    HardLight,
    /// Vivid light blend mode.
    VividLight,
    /// Linear light blend mode.
    LinearLight,
    /// Pin light blend mode.
    PinLight,
    /// Hard mix blend mode.
    HardMix,
    /// Difference blend mode.
    Difference,
    /// Exclusion blend mode.
    Exclusion,
    /// Subtract blend mode.
    Subtract,
    /// Divide blend mode.
    Divide,
    /// Hue blend mode.
    Hue,
    /// Saturation blend mode.
    Saturation,
    /// Colour blend mode.
    Color,
    /// Luminosity blend mode.
    Luminosity,
}

/// The four ASCII bytes that stand for a blend mode in a file (a trailing
/// space is part of the tag).
pub open spec fn blend_tag(m: BlendMode) -> Seq<u8> {
    match m {
        BlendMode::PassThrough => seq![0x70u8, 0x61u8, 0x73u8, 0x73u8],
        BlendMode::Normal => seq![0x6eu8, 0x6fu8, 0x72u8, 0x6du8],
        BlendMode::Dissolve => seq![0x64u8, 0x69u8, 0x73u8, 0x73u8],
        BlendMode::Darken => seq![0x64u8, 0x61u8, 0x72u8, 0x6bu8],
        BlendMode::Multiply => seq![0x6du8, 0x75u8, 0x6cu8, 0x20u8],
        BlendMode::ColorBurn => seq![0x69u8, 0x64u8, 0x69u8, 0x76u8],
        BlendMode::LinearBurn => seq![0x6cu8, 0x62u8, 0x72u8, 0x6eu8],
        BlendMode::DarkerColor => seq![0x64u8, 0x6bu8, 0x43u8, 0x6cu8],
        BlendMode::Lighten => seq![0x6cu8, 0x69u8, 0x74u8, 0x65u8],
        BlendMode::Screen => seq![0x73u8, 0x63u8, 0x72u8, 0x6eu8],
        BlendMode::ColorDodge => seq![0x64u8, 0x69u8, 0x76u8, 0x20u8],
        BlendMode::LinearDodge => seq![0x6cu8, 0x64u8, 0x64u8, 0x67u8],
        BlendMode::LighterColor => seq![0x6cu8, 0x67u8, 0x43u8, 0x6cu8],
        BlendMode::Overlay => seq![0x6fu8, 0x76u8, 0x65u8, 0x72u8],
        BlendMode::SoftLight => seq![0x73u8, 0x4cu8, 0x69u8, 0x74u8],
        BlendMode::HardLight => seq![0x68u8, 0x4cu8, 0x69u8, 0x74u8],
        BlendMode::VividLight => seq![0x76u8, 0x4cu8, 0x69u8, 0x74u8],
        BlendMode::LinearLight => seq![0x6cu8, 0x4cu8, 0x69u8, 0x74u8],
        BlendMode::PinLight => seq![0x70u8, 0x4cu8, 0x69u8, 0x74u8],
        BlendMode::HardMix => seq![0x68u8, 0x4du8, 0x69u8, 0x78u8],
        BlendMode::Difference => seq![0x64u8, 0x69u8, 0x66u8, 0x66u8],
        BlendMode::Exclusion => seq![0x73u8, 0x6du8, 0x75u8, 0x64u8],
        BlendMode::Subtract => seq![0x66u8, 0x73u8, 0x75u8, 0x62u8],
        BlendMode::Divide => seq![0x66u8, 0x64u8, 0x69u8, 0x76u8],
        BlendMode::Hue => seq![0x68u8, 0x75u8, 0x65u8, 0x20u8],
        BlendMode::Saturation => seq![0x73u8, 0x61u8, 0x74u8, 0x20u8],
        BlendMode::Color => seq![0x63u8, 0x6fu8, 0x6cu8, 0x72u8],
        BlendMode::Luminosity => seq![0x6cu8, 0x75u8, 0x6du8, 0x20u8],
    }
}

/// The characters of an ASCII tag.
pub open spec fn tag_chars(t: Seq<u8>) -> Seq<char> {
    t.map_values(|b: u8| b as char)
}

/// The blend mode that a tag stands for: `Normal` for a tag that no mode has.
pub open spec fn blend_mode_of_tag(t: Seq<u8>) -> BlendMode {
    if exists|m: BlendMode| blend_tag(m) == t {
        choose|m: BlendMode| blend_tag(m) == t
    } else {
        BlendMode::Normal
    }
}

/// Two blend modes never share a tag.
pub proof fn lemma_blend_tags_distinct(a: BlendMode, b: BlendMode)
    ensures
        blend_tag(a) == blend_tag(b) ==> a == b,
{
    if blend_tag(a) == blend_tag(b) {
        assert(blend_tag(a)[0] == blend_tag(b)[0]);
        assert(blend_tag(a)[1] == blend_tag(b)[1]);
        assert(blend_tag(a)[2] == blend_tag(b)[2]);
        assert(blend_tag(a)[3] == blend_tag(b)[3]);
    }
}

impl BlendMode {
    /// Returns the blend mode as a string slice.
    pub fn as_str(&self) -> (r: &'static str)
        ensures
            r@ == tag_chars(blend_tag(*self)),
    {
        match self {
            BlendMode::PassThrough => {
                proof {
                    reveal_strlit("pass");
                }
                assert("pass"@ =~= tag_chars(blend_tag(*self)));
                "pass"
            },
            BlendMode::Normal => {
                proof {
                    reveal_strlit("norm");
                }
                assert("norm"@ =~= tag_chars(blend_tag(*self)));
                "norm"
            },
            BlendMode::Dissolve => {
                proof {
                    reveal_strlit("diss");
                }
                assert("diss"@ =~= tag_chars(blend_tag(*self)));
                "diss"
            },
            BlendMode::Darken => {
                proof {
                    reveal_strlit("dark");
                }
                assert("dark"@ =~= tag_chars(blend_tag(*self)));
                "dark"
            },
            BlendMode::Multiply => {
                proof {
                    reveal_strlit("mul ");
                }
                assert("mul "@ =~= tag_chars(blend_tag(*self)));
                "mul "
            },
            BlendMode::ColorBurn => {
                proof {
                    reveal_strlit("idiv");
                }
                assert("idiv"@ =~= tag_chars(blend_tag(*self)));
                "idiv"
            },
            BlendMode::LinearBurn => {
                proof {
                    reveal_strlit("lbrn");
                }
                assert("lbrn"@ =~= tag_chars(blend_tag(*self)));
                "lbrn"
            },
            BlendMode::DarkerColor => {
                proof {
                    reveal_strlit("dkCl");
                }
                assert("dkCl"@ =~= tag_chars(blend_tag(*self)));
                "dkCl"
            },
            BlendMode::Lighten => {
                proof {
                    reveal_strlit("lite");
                }
                assert("lite"@ =~= tag_chars(blend_tag(*self)));
                "lite"
            },
            BlendMode::Screen => {
                proof {
                    reveal_strlit("scrn");
                }
                assert("scrn"@ =~= tag_chars(blend_tag(*self)));
                "scrn"
            },
            BlendMode::ColorDodge => {
                proof {
                    reveal_strlit("div ");
                }
                assert("div "@ =~= tag_chars(blend_tag(*self)));
                "div "
            },
            BlendMode::LinearDodge => {
                proof {
                    reveal_strlit("lddg");
                }
                assert("lddg"@ =~= tag_chars(blend_tag(*self)));
                "lddg"
            },
            BlendMode::LighterColor => {
                proof {
                    reveal_strlit("lgCl");
                }
                assert("lgCl"@ =~= tag_chars(blend_tag(*self)));
                "lgCl"
            },
            BlendMode::Overlay => {
                proof {
                    reveal_strlit("over");
                }
                assert("over"@ =~= tag_chars(blend_tag(*self)));
                "over"
            },
            BlendMode::SoftLight => {
                proof {
                    reveal_strlit("sLit");
                }
                assert("sLit"@ =~= tag_chars(blend_tag(*self)));
                "sLit"
            },
            BlendMode::HardLight => {
                proof {
                    reveal_strlit("hLit");
                }
                assert("hLit"@ =~= tag_chars(blend_tag(*self)));
                "hLit"
            },
            BlendMode::VividLight => {
                proof {
                    reveal_strlit("vLit");
                }
                assert("vLit"@ =~= tag_chars(blend_tag(*self)));
                "vLit"
            },
            BlendMode::LinearLight => {
                proof {
                    reveal_strlit("lLit");
                }
                assert("lLit"@ =~= tag_chars(blend_tag(*self)));
                "lLit"
            },
            BlendMode::PinLight => {
                proof {
                    reveal_strlit("pLit");
                }
                assert("pLit"@ =~= tag_chars(blend_tag(*self)));
                "pLit"
            },
            BlendMode::HardMix => {
                proof {
                    reveal_strlit("hMix");
                }
                assert("hMix"@ =~= tag_chars(blend_tag(*self)));
                "hMix"
            },
            BlendMode::Difference => {
                proof {
                    reveal_strlit("diff");
                }
                assert("diff"@ =~= tag_chars(blend_tag(*self)));
                "diff"
            },
            BlendMode::Exclusion => {
                proof {
                    reveal_strlit("smud");
                }
                assert("smud"@ =~= tag_chars(blend_tag(*self)));
                "smud"
            },
            BlendMode::Subtract => {
                proof {
                    reveal_strlit("fsub");
                }
                assert("fsub"@ =~= tag_chars(blend_tag(*self)));
                "fsub"
            },
            BlendMode::Divide => {
                proof {
                    reveal_strlit("fdiv");
                }
                assert("fdiv"@ =~= tag_chars(blend_tag(*self)));
                "fdiv"
            },
            BlendMode::Hue => {
                proof {
                    reveal_strlit("hue ");
                }
                assert("hue "@ =~= tag_chars(blend_tag(*self)));
                "hue "
            },
            BlendMode::Saturation => {
                proof {
                    reveal_strlit("sat ");
                }
                assert("sat "@ =~= tag_chars(blend_tag(*self)));
                "sat "
            },
            BlendMode::Color => {
                proof {
                    reveal_strlit("colr");
                }
                assert("colr"@ =~= tag_chars(blend_tag(*self)));
                "colr"
            },
            BlendMode::Luminosity => {
                proof {
                    reveal_strlit("lum ");
                }
                assert("lum "@ =~= tag_chars(blend_tag(*self)));
                "lum "
            },
        }
    }

    /// Returns the four bytes of the blend mode's tag.
    pub fn tag_bytes(&self) -> (r: Vec<u8>)
        ensures
            r@ == blend_tag(*self),
    {
        let r = match self {
            BlendMode::PassThrough => vec![0x70u8, 0x61u8, 0x73u8, 0x73u8],
            BlendMode::Normal => vec![0x6eu8, 0x6fu8, 0x72u8, 0x6du8],
            BlendMode::Dissolve => vec![0x64u8, 0x69u8, 0x73u8, 0x73u8],
            BlendMode::Darken => vec![0x64u8, 0x61u8, 0x72u8, 0x6bu8],
            BlendMode::Multiply => vec![0x6du8, 0x75u8, 0x6cu8, 0x20u8],
            BlendMode::ColorBurn => vec![0x69u8, 0x64u8, 0x69u8, 0x76u8],
            BlendMode::LinearBurn => vec![0x6cu8, 0x62u8, 0x72u8, 0x6eu8],
            BlendMode::DarkerColor => vec![0x64u8, 0x6bu8, 0x43u8, 0x6cu8],
            BlendMode::Lighten => vec![0x6cu8, 0x69u8, 0x74u8, 0x65u8],
            BlendMode::Screen => vec![0x73u8, 0x63u8, 0x72u8, 0x6eu8],
            BlendMode::ColorDodge => vec![0x64u8, 0x69u8, 0x76u8, 0x20u8],
            BlendMode::LinearDodge => vec![0x6cu8, 0x64u8, 0x64u8, 0x67u8],
            BlendMode::LighterColor => vec![0x6cu8, 0x67u8, 0x43u8, 0x6cu8],
            BlendMode::Overlay => vec![0x6fu8, 0x76u8, 0x65u8, 0x72u8],
            BlendMode::SoftLight => vec![0x73u8, 0x4cu8, 0x69u8, 0x74u8],
            BlendMode::HardLight => vec![0x68u8, 0x4cu8, 0x69u8, 0x74u8],
            BlendMode::VividLight => vec![0x76u8, 0x4cu8, 0x69u8, 0x74u8],
            BlendMode::LinearLight => vec![0x6cu8, 0x4cu8, 0x69u8, 0x74u8],
            BlendMode::PinLight => vec![0x70u8, 0x4cu8, 0x69u8, 0x74u8],
            BlendMode::HardMix => vec![0x68u8, 0x4du8, 0x69u8, 0x78u8],
            BlendMode::Difference => vec![0x64u8, 0x69u8, 0x66u8, 0x66u8],
            BlendMode::Exclusion => vec![0x73u8, 0x6du8, 0x75u8, 0x64u8],
            BlendMode::Subtract => vec![0x66u8, 0x73u8, 0x75u8, 0x62u8],
            BlendMode::Divide => vec![0x66u8, 0x64u8, 0x69u8, 0x76u8],
            BlendMode::Hue => vec![0x68u8, 0x75u8, 0x65u8, 0x20u8],
            BlendMode::Saturation => vec![0x73u8, 0x61u8, 0x74u8, 0x20u8],
            BlendMode::Color => vec![0x63u8, 0x6fu8, 0x6cu8, 0x72u8],
            BlendMode::Luminosity => vec![0x6cu8, 0x75u8, 0x6du8, 0x20u8],
        };
        assert(r@ =~= blend_tag(*self));
        r
    }

    /// Returns the blend mode that a four-byte tag stands for; a tag that no
    /// mode has gives `Normal`.
    pub fn from_tag(tag: &[u8]) -> (m: BlendMode)
        ensures
            m == blend_mode_of_tag(tag@),
    {
        let r = if tag.len() != 4 {
            BlendMode::Normal
        } else {
            if tag[0] == 0x70u8 && tag[1] == 0x61u8 && tag[2] == 0x73u8 && tag[3] == 0x73u8 {
                BlendMode::PassThrough
            }
            else if tag[0] == 0x6eu8 && tag[1] == 0x6fu8 && tag[2] == 0x72u8 && tag[3] == 0x6du8 {
                BlendMode::Normal
            }
            else if tag[0] == 0x64u8 && tag[1] == 0x69u8 && tag[2] == 0x73u8 && tag[3] == 0x73u8 {
                BlendMode::Dissolve
            }
            else if tag[0] == 0x64u8 && tag[1] == 0x61u8 && tag[2] == 0x72u8 && tag[3] == 0x6bu8 {
                BlendMode::Darken
            }
            else if tag[0] == 0x6du8 && tag[1] == 0x75u8 && tag[2] == 0x6cu8 && tag[3] == 0x20u8 {
                BlendMode::Multiply
            }
            else if tag[0] == 0x69u8 && tag[1] == 0x64u8 && tag[2] == 0x69u8 && tag[3] == 0x76u8 {
                BlendMode::ColorBurn
            }
            else if tag[0] == 0x6cu8 && tag[1] == 0x62u8 && tag[2] == 0x72u8 && tag[3] == 0x6eu8 {
                BlendMode::LinearBurn
            }
            else if tag[0] == 0x64u8 && tag[1] == 0x6bu8 && tag[2] == 0x43u8 && tag[3] == 0x6cu8 {
                BlendMode::DarkerColor
            }
            else if tag[0] == 0x6cu8 && tag[1] == 0x69u8 && tag[2] == 0x74u8 && tag[3] == 0x65u8 {
                BlendMode::Lighten
            }
            else if tag[0] == 0x73u8 && tag[1] == 0x63u8 && tag[2] == 0x72u8 && tag[3] == 0x6eu8 {
                BlendMode::Screen
            }
            else if tag[0] == 0x64u8 && tag[1] == 0x69u8 && tag[2] == 0x76u8 && tag[3] == 0x20u8 {
                BlendMode::ColorDodge
            }
            else if tag[0] == 0x6cu8 && tag[1] == 0x64u8 && tag[2] == 0x64u8 && tag[3] == 0x67u8 {
                BlendMode::LinearDodge
            }
            else if tag[0] == 0x6cu8 && tag[1] == 0x67u8 && tag[2] == 0x43u8 && tag[3] == 0x6cu8 {
                BlendMode::LighterColor
            }
            else if tag[0] == 0x6fu8 && tag[1] == 0x76u8 && tag[2] == 0x65u8 && tag[3] == 0x72u8 {
                BlendMode::Overlay
            }
            else if tag[0] == 0x73u8 && tag[1] == 0x4cu8 && tag[2] == 0x69u8 && tag[3] == 0x74u8 {
                BlendMode::SoftLight
            }
            else if tag[0] == 0x68u8 && tag[1] == 0x4cu8 && tag[2] == 0x69u8 && tag[3] == 0x74u8 {
                BlendMode::HardLight
            }
            else if tag[0] == 0x76u8 && tag[1] == 0x4cu8 && tag[2] == 0x69u8 && tag[3] == 0x74u8 {
                BlendMode::VividLight
            }
            else if tag[0] == 0x6cu8 && tag[1] == 0x4cu8 && tag[2] == 0x69u8 && tag[3] == 0x74u8 {
                BlendMode::LinearLight
            }
            else if tag[0] == 0x70u8 && tag[1] == 0x4cu8 && tag[2] == 0x69u8 && tag[3] == 0x74u8 {
                BlendMode::PinLight
            }
            else if tag[0] == 0x68u8 && tag[1] == 0x4du8 && tag[2] == 0x69u8 && tag[3] == 0x78u8 {
                BlendMode::HardMix
            }
            else if tag[0] == 0x64u8 && tag[1] == 0x69u8 && tag[2] == 0x66u8 && tag[3] == 0x66u8 {
                BlendMode::Difference
            }
            else if tag[0] == 0x73u8 && tag[1] == 0x6du8 && tag[2] == 0x75u8 && tag[3] == 0x64u8 {
                BlendMode::Exclusion
            }
            else if tag[0] == 0x66u8 && tag[1] == 0x73u8 && tag[2] == 0x75u8 && tag[3] == 0x62u8 {
                BlendMode::Subtract
            }
            else if tag[0] == 0x66u8 && tag[1] == 0x64u8 && tag[2] == 0x69u8 && tag[3] == 0x76u8 {
                BlendMode::Divide
            }
            else if tag[0] == 0x68u8 && tag[1] == 0x75u8 && tag[2] == 0x65u8 && tag[3] == 0x20u8 {
                BlendMode::Hue
            }
            else if tag[0] == 0x73u8 && tag[1] == 0x61u8 && tag[2] == 0x74u8 && tag[3] == 0x20u8 {
                BlendMode::Saturation
            }
            else if tag[0] == 0x63u8 && tag[1] == 0x6fu8 && tag[2] == 0x6cu8 && tag[3] == 0x72u8 {
                BlendMode::Color
            }
            else if tag[0] == 0x6cu8 && tag[1] == 0x75u8 && tag[2] == 0x6du8 && tag[3] == 0x20u8 {
                BlendMode::Luminosity
            }
            else {
                BlendMode::Normal
            }
        };
        proof {
            if exists|k: BlendMode| blend_tag(k) == tag@ {
                let k = choose|k: BlendMode| blend_tag(k) == tag@;
                assert(blend_tag(r) =~= tag@);
                lemma_blend_tags_distinct(r, k);
            } else {
                assert(r == BlendMode::Normal) by {
                    if r != BlendMode::Normal {
                        assert(blend_tag(r) =~= tag@);
                    }
                }
            }
        }
        r
    }
}

} // verus!
