use space_travel::planet_lab::triangle::pack_argb8;
use space_travel::scene::{generate_starfield, uv_sphere_faces, STAR_SEED};
use space_travel::shader::{planet_style, select_shader, PlanetStyle, SurfaceShader};

#[test]
fn sphere_with_one_cell() {
    assert_eq!(uv_sphere_faces(1, 1), vec![[0, 2, 1], [1, 2, 3]]);
}

#[test]
fn sphere_faces_follow_the_grid() {
    let f = uv_sphere_faces(2, 3);
    assert_eq!(f.len(), 12);
    assert_eq!(f[0], [0, 4, 1]);
    assert_eq!(f[1], [1, 4, 5]);
    assert_eq!(f[5], [3, 6, 7]);
    assert_eq!(f[6], [4, 8, 5]);
    assert_eq!(f[11], [7, 10, 11]);
    assert!(f.iter().all(|t| t.iter().all(|&i| i < 3 * 4)));
}

#[test]
fn sphere_of_the_scene_sizes() {
    assert_eq!(uv_sphere_faces(16, 22).len(), 2 * 16 * 22);
    assert_eq!(uv_sphere_faces(28, 40).len(), 2 * 28 * 40);
    assert!(uv_sphere_faces(0, 5).is_empty());
    assert!(uv_sphere_faces(5, 0).is_empty());
}

#[test]
fn starfield_first_stars() {
    let s = generate_starfield(STAR_SEED, 800, 1000, 800);
    assert_eq!(s.len(), 800);
    assert_eq!(s[0], (428, 12, 109));
    assert_eq!(s[1], (403, 656, 192));
    assert_eq!(s[2], (958, 763, 102));
}

#[test]
fn starfield_stays_on_screen() {
    let s = generate_starfield(STAR_SEED, 800, 1000, 800);
    assert!(s.iter().all(|&(x, y, b)| (0..1000).contains(&x) && (0..800).contains(&y) && (100..=254).contains(&b)));
    let n = generate_starfield(7, 50, -30, 20);
    assert!(n.iter().all(|&(x, y, _)| (0..30).contains(&x) && (0..20).contains(&y)));
    assert_eq!(generate_starfield(STAR_SEED, 0, 10, 10), vec![]);
}

#[test]
fn argb_packing() {
    assert_eq!(pack_argb8(0, 0, 0), 0xFF00_0000);
    assert_eq!(pack_argb8(255, 255, 255), 0xFFFF_FFFF);
    assert_eq!(pack_argb8(0x12, 0x34, 0x56), 0xFF12_3456);
    let c = pack_argb8(200, 100, 50);
    assert_eq!(((c >> 16) & 0xFF, (c >> 8) & 0xFF, c & 0xFF, c >> 24), (200, 100, 50, 255));
}

#[test]
fn shader_selection() {
    assert_eq!(select_shader(200), SurfaceShader::StaticPlanet);
    assert_eq!(select_shader(999), SurfaceShader::BaseColor);
    assert_eq!(select_shader(100), SurfaceShader::Star);
    assert_eq!(select_shader(101), SurfaceShader::RockyWorld);
    assert_eq!(select_shader(102), SurfaceShader::GasWorld);
    assert_eq!(select_shader(103), SurfaceShader::ScifiWorld);
    assert_eq!(select_shader(150), SurfaceShader::RockyWorld);
    assert_eq!(select_shader(1000), SurfaceShader::RockyWorld);
    assert_eq!(select_shader(0), SurfaceShader::RainbowRings);
    assert_eq!(select_shader(7), SurfaceShader::Checker3d);
    assert_eq!(select_shader(2), SurfaceShader::GridLines);
    assert_eq!(select_shader(9), SurfaceShader::Stripes);
    assert_eq!(select_shader(4), SurfaceShader::Plasma);
    assert_eq!(select_shader(5), SurfaceShader::RedGradient);
    assert_eq!(select_shader(99), SurfaceShader::Stripes);
}

#[test]
fn planet_styles() {
    assert_eq!(planet_style(0), PlanetStyle::Rocky);
    assert_eq!(planet_style(1), PlanetStyle::GasGiant);
    assert_eq!(planet_style(2), PlanetStyle::Scifi);
    assert_eq!(planet_style(3), PlanetStyle::Lava);
    assert_eq!(planet_style(4), PlanetStyle::Ice);
    assert_eq!(planet_style(99), PlanetStyle::Rocky);
}
