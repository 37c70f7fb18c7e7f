use perlin_field::field::NoiseError;
use perlin_field::field::Perlin2D;
use perlin_field::field::wrap_index;
use perlin_field::palette::PALETTE_LEN;
use perlin_field::palette::palette_vector;
use perlin_field::raster::chunk_bounds;
use perlin_field::raster::fill_chunked;
use perlin_field::raster::fill_range;
use perlin_field::raster::fill_raster;
use perlin_field::raster::quantize;
use perlin_field::raster::render;
use rand::RngExt;

#[test]
fn wrap_rule_maps_size_to_zero() {
    for size in [1u64, 2, 4, 16, 1000] {
        assert_eq!(wrap_index(size, size), 0);
        for i in 0..=size {
            assert!(wrap_index(i, size) < size);
        }
    }
    // interior indices pass through unchanged
    assert_eq!(wrap_index(3, 4), 3);
    assert_eq!(wrap_index(0, 4), 0);
}

#[test]
fn construction_with_zero_width_is_invalid_dimensions() {
    assert_eq!(
        Perlin2D::with_dimensions(0, 4, 1).err(),
        Some(NoiseError::InvalidDimensions)
    );
    assert_eq!(
        Perlin2D::with_dimensions(4, 0, 1).err(),
        Some(NoiseError::InvalidDimensions)
    );
    assert_eq!(Perlin2D::new(0, 3).err(), Some(NoiseError::InvalidDimensions));
}

#[test]
fn construction_with_unsupported_octave_depth_is_invalid_dimensions() {
    // zero octaves
    assert_eq!(
        Perlin2D::with_dimensions(4, 4, 0).err(),
        Some(NoiseError::InvalidDimensions)
    );
    // 2^3 = 8 > 4: the coarsest octave would have no lattice cell
    assert_eq!(
        Perlin2D::with_dimensions(4, 4, 3).err(),
        Some(NoiseError::InvalidDimensions)
    );
    // far too many octaves
    assert_eq!(
        Perlin2D::with_dimensions(1024, 1024, 31).err(),
        Some(NoiseError::InvalidDimensions)
    );
}

#[test]
fn construction_ok_on_valid_dimensions() {
    assert!(Perlin2D::with_dimensions(4, 4, 1).is_ok());
    assert!(Perlin2D::with_dimensions(8, 16, 2).is_ok());
    assert!(Perlin2D::new(4, 2).is_ok());
}

#[test]
fn lattice_cells_come_from_the_palette() {
    let f = Perlin2D::with_dimensions(8, 8, 1).unwrap();
    let palette: Vec<_> = (0..PALETTE_LEN).map(palette_vector).collect();
    for y in 0..8u32 {
        for x in 0..8u32 {
            let v = *f.get_vector(x, y).expect("in-bounds lattice lookup");
            assert!(
                palette.contains(&v),
                "lattice cell ({}, {}) holds {:?}, not a palette vector",
                x,
                y,
                v
            );
        }
    }
}

#[test]
fn get_vector_out_of_bounds_is_none() {
    let f = Perlin2D::with_dimensions(4, 4, 1).unwrap();
    assert!(f.get_vector(0, 0).is_some());
    assert!(f.get_vector(3, 3).is_some());
    assert!(f.get_vector(0, 4).is_none());
    assert!(f.get_vector(100, 100).is_none());
}

#[test]
fn basic_noise_at_lattice_nodes_is_midpoint() {
    // A 4x4 lattice, one octave: at the exact node coordinates the node's
    // own contribution is its gradient dotted with a zero displacement, so
    // the sample is the remap of zero: SCALE / 2, whatever was drawn.
    let f = Perlin2D::with_dimensions(4, 4, 1).unwrap();
    for xi in 0..4u64 {
        for yi in 0..4u64 {
            let x = xi * 250; // xi / 4 of a tile, at scale 1000
            let y = yi * 250;
            assert_eq!(f.basic_noise(x, y, 4, 4), 500);
        }
    }
}

#[test]
fn fractal_noise_at_nodes_of_every_octave_is_midpoint() {
    // 8x8 lattice, 2 octaves: octave resolutions 2 and 4; coordinates at
    // multiples of half a tile are nodes of both octaves at once.
    let f = Perlin2D::with_dimensions(8, 8, 2).unwrap();
    for xi in 0..2u64 {
        for yi in 0..2u64 {
            assert_eq!(f.noise(xi * 500, yi * 500), 500);
        }
    }
}

#[test]
fn noise_within_range_on_random_coordinates() {
    let f = Perlin2D::new(4, 3).unwrap();
    let mut rng = rand::rng();
    for _ in 0..10000 {
        let x: u64 = rng.random_range(0..10_000_000);
        let y: u64 = rng.random_range(0..10_000_000);
        let raw = f.noise(x, y);
        assert!((-500..=1500).contains(&raw), "raw noise {} out of band", raw);
        let clamped = f.noise01(x, y);
        assert!((0..=1000).contains(&clamped), "clamped noise {} out of [0, 1000]", clamped);
    }
}

#[test]
fn noise_tiles_across_whole_tiles() {
    // coordinates one or more whole tiles apart sample identically
    let f = Perlin2D::new(4, 2).unwrap();
    for i in 0..50u64 {
        let x = i * 73;
        let y = i * 41;
        assert_eq!(f.noise(x, y), f.noise(x + 1000, y + 3000));
        assert_eq!(f.basic_noise(x, y, 8, 8), f.basic_noise(x + 2000, y + 1000, 8, 8));
    }
}

#[test]
fn noise_is_deterministic_for_a_fixed_lattice() {
    let f = Perlin2D::new(4, 2).unwrap();
    for i in 0..100u64 {
        let x = i * 37;
        let y = i * 91;
        assert_eq!(f.noise(x, y), f.noise(x, y));
    }
}

#[test]
fn quantize_endpoints_and_clamping() {
    assert_eq!(quantize(0), 0);
    assert_eq!(quantize(1000), 255);
    assert_eq!(quantize(500), 127);
    assert_eq!(quantize(-100), 0);
    assert_eq!(quantize(1200), 255);
}

#[test]
fn chunk_bounds_partition_exactly() {
    for (total, workers) in [(10000usize, 8usize), (10000, 7), (5, 8), (0, 3), (97, 4)] {
        let mut expected_start = 0usize;
        for i in 0..workers {
            let (s, e) = chunk_bounds(total, workers, i);
            assert_eq!(s, expected_start, "gap or overlap at chunk {}", i);
            assert!(e <= total);
            expected_start = e;
        }
        assert_eq!(expected_start, total, "chunks do not cover the range");
    }
}

#[test]
fn chunked_fill_matches_reference_fill_even_division() {
    // 100 x 100 pixels over 8 workers: 10000 splits evenly
    let f = Perlin2D::new(4, 2).unwrap();
    let reference = fill_raster(&f, 100, 100);
    let chunked = fill_chunked(&f, 100, 100, 8);
    assert_eq!(reference, chunked);
}

#[test]
fn chunked_fill_matches_reference_fill_uneven_division() {
    // 100 x 100 pixels over 7 workers: the last chunk absorbs the remainder
    let f = Perlin2D::new(4, 2).unwrap();
    let reference = fill_raster(&f, 100, 100);
    let chunked = fill_chunked(&f, 100, 100, 7);
    assert_eq!(reference, chunked);
}

#[test]
fn manually_assembled_chunks_match_reference_fill() {
    // what a concurrent fill does: one fill_range per chunk, joined in order
    let f = Perlin2D::new(4, 1).unwrap();
    let (w, h, workers) = (33u32, 17u32, 8usize);
    let total = (w * h) as usize;
    let reference = fill_raster(&f, w, h);
    let mut assembled: Vec<u8> = Vec::new();
    for i in 0..workers {
        let (s, e) = chunk_bounds(total, workers, i);
        assembled.extend(fill_range(&f, w, h, s, e));
    }
    assert_eq!(reference, assembled);
}

#[test]
fn render_end_to_end_at_lattice_nodes() {
    // A 4x4 lattice, 1 octave, rendered onto 2x2 pixels: every pixel sits
    // exactly on a lattice node of the sampling resolution, so every byte is
    // the quantized midpoint, 127.
    let f = Perlin2D::with_dimensions(4, 4, 1).unwrap();
    let img = render(&f, 2, 2).unwrap();
    assert_eq!(img, vec![127u8, 127, 127, 127]);
}

#[test]
fn render_rejects_zero_image_dimensions() {
    let f = Perlin2D::with_dimensions(4, 4, 1).unwrap();
    assert_eq!(render(&f, 0, 100).err(), Some(NoiseError::InvalidDimensions));
    assert_eq!(render(&f, 100, 0).err(), Some(NoiseError::InvalidDimensions));
    assert_eq!(render(&f, 64, 64).unwrap().len(), 4096);
}
