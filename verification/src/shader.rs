//! Which surface shader the scene's fragment shader runs. The shading itself
//! is floating-point colour arithmetic; what is decided here is the choice,
//! from the pattern and planet-mode selectors of the uniforms.
use vstd::prelude::*;

verus! {

/// The surface shaders that a fragment can be coloured by.
#[derive(Clone, Copy, Debug, PartialEq, Eq)]
pub enum SurfaceShader {
    /// The mode-selected planet shaders (with ring masking).
    StaticPlanet,
    /// The fragment's own base colour, clamped.
    BaseColor,
    /// The world-space star.
    Star,
    /// The world-space rocky planet.
    RockyWorld,
    /// The world-space gas planet.
    GasWorld,
    /// The world-space sci-fi planet.
    ScifiWorld,
    RainbowRings,
    Checker3d,
    GridLines,
    Stripes,
    Plasma,
    RedGradient,
}

/// The shader that pattern selector `pattern` picks: 200 the planet shaders,
/// 999 the base colour, 100 to 103 the world-space star, rocky, gas and
/// sci-fi shaders (any other value from 100 the rocky one), and below 100
/// one of six patterns by `pattern % 6`.
pub open spec fn shader_for(pattern: u32) -> SurfaceShader {
    if pattern == 200 {
        SurfaceShader::StaticPlanet
    } else if pattern == 999 {
        SurfaceShader::BaseColor
    } else if pattern >= 100 {
        if pattern == 100 {
            SurfaceShader::Star
        } else if pattern == 102 {
            SurfaceShader::GasWorld
        } else if pattern == 103 {
            SurfaceShader::ScifiWorld
        } else {
            SurfaceShader::RockyWorld
        }
    } else {
        let k = pattern % 6;
        if k == 0 {
            SurfaceShader::RainbowRings
        } else if k == 1 {
            SurfaceShader::Checker3d
        } else if k == 2 {
            SurfaceShader::GridLines
        } else if k == 3 {
            SurfaceShader::Stripes
        } else if k == 4 {
            SurfaceShader::Plasma
        } else {
            SurfaceShader::RedGradient
        }
    }
}

/// The shader for pattern selector `pattern`.
pub fn select_shader(pattern: u32) -> (s: SurfaceShader)
    ensures
        s == shader_for(pattern),
        pattern < 100 ==> s == residue_shader(pattern % 6),
{
    proof {
        lemma_patterns_cycle(pattern);
    }
    if pattern == 200 {
        return SurfaceShader::StaticPlanet;
    }
    if pattern == 999 {
        return SurfaceShader::BaseColor;
    }
    if pattern >= 100 {
        return match pattern {
            100 => SurfaceShader::Star,
            101 => SurfaceShader::RockyWorld,
            102 => SurfaceShader::GasWorld,
            103 => SurfaceShader::ScifiWorld,
            _ => SurfaceShader::RockyWorld,
        };
    }
    match pattern % 6 {
        0 => SurfaceShader::RainbowRings,
        1 => SurfaceShader::Checker3d,
        2 => SurfaceShader::GridLines,
        3 => SurfaceShader::Stripes,
        4 => SurfaceShader::Plasma,
        _ => SurfaceShader::RedGradient,
    }
}

/// The planet shaders of the static (mode-selected) family.
#[derive(Clone, Copy, Debug, PartialEq, Eq)]
pub enum PlanetStyle {
    Rocky,
    GasGiant,
    Scifi,
    Lava,
    Ice,
}

/// The planet shader that mode `mode` picks: 0 to 4 rocky, gas giant,
/// sci-fi, lava and ice; any other mode rocky.
pub open spec fn style_for(mode: u32) -> PlanetStyle {
    if mode == 1 {
        PlanetStyle::GasGiant
    } else if mode == 2 {
        PlanetStyle::Scifi
    } else if mode == 3 {
        PlanetStyle::Lava
    } else if mode == 4 {
        PlanetStyle::Ice
    } else {
        PlanetStyle::Rocky
    }
}

/// The planet shader for mode `mode`.
pub fn planet_style(mode: u32) -> (s: PlanetStyle)
    ensures
        s == style_for(mode),
{
    match mode {
        0 => PlanetStyle::Rocky,
        1 => PlanetStyle::GasGiant,
        2 => PlanetStyle::Scifi,
        3 => PlanetStyle::Lava,
        4 => PlanetStyle::Ice,
        _ => PlanetStyle::Rocky,
    }
}

/// The six patterns in the order the selector cycles through them:
/// rainbow rings, 3-D checker, grid lines, stripes, plasma, red gradient.
pub open spec fn residue_shader(r: u32) -> SurfaceShader {
    seq![
        SurfaceShader::RainbowRings,
        SurfaceShader::Checker3d,
        SurfaceShader::GridLines,
        SurfaceShader::Stripes,
        SurfaceShader::Plasma,
        SurfaceShader::RedGradient,
    ][r as int]
}

/// Below 100 the selector cycles through the six patterns with period 6:
/// the shader depends only on `pattern % 6` (residue 0 the rainbow rings,
/// 1 the 3D checker, 2 the grid lines, 3 the stripes, 4 the plasma and 5 the
/// red gradient), and two selectors six apart get the same shader.
pub proof fn lemma_patterns_cycle(pattern: u32)
    ensures
        pattern < 100 && pattern % 6 == 0 ==> shader_for(pattern) == SurfaceShader::RainbowRings,
        pattern < 100 && pattern % 6 == 1 ==> shader_for(pattern) == SurfaceShader::Checker3d,
        pattern < 100 && pattern % 6 == 2 ==> shader_for(pattern) == SurfaceShader::GridLines,
        pattern < 100 && pattern % 6 == 3 ==> shader_for(pattern) == SurfaceShader::Stripes,
        pattern < 100 && pattern % 6 == 4 ==> shader_for(pattern) == SurfaceShader::Plasma,
        pattern < 100 && pattern % 6 == 5 ==> shader_for(pattern) == SurfaceShader::RedGradient,
        pattern < 100 ==> shader_for(pattern) == residue_shader(pattern % 6),
        pattern < 100 ==> shader_for(pattern) == shader_for(pattern % 6),
        pattern + 6 < 100 ==> shader_for(pattern) == shader_for((pattern + 6) as u32),
{
    assert((pattern + 6) % 6 == pattern % 6);
    assert((pattern % 6) % 6 == pattern % 6);
}

/// The six patterns are all different, so the selector reaches each one.
pub proof fn lemma_patterns_distinct(a: u32, b: u32)
    requires
        a < 6,
        b < 6,
        a != b,
    ensures
        residue_shader(a) != residue_shader(b),
{
}

/// The world-space shaders: 100 the star, 101 and every selector from 104
/// up (other than 200 and 999) the rocky planet, 102 the gas and 103 the
/// sci-fi planet.
pub proof fn lemma_world_shaders(pattern: u32)
    ensures
        pattern == 100 ==> shader_for(pattern) == SurfaceShader::Star,
        pattern == 102 ==> shader_for(pattern) == SurfaceShader::GasWorld,
        pattern == 103 ==> shader_for(pattern) == SurfaceShader::ScifiWorld,
        100 <= pattern && pattern != 100 && pattern != 102 && pattern != 103 && pattern != 200
            && pattern != 999 ==> shader_for(pattern) == SurfaceShader::RockyWorld,
{
}

} // verus!
