use checkerboard::color::compose_color;
use checkerboard::color::split_rgb;
use checkerboard::pattern::fill_checkerboard;
use checkerboard::pattern::fill_with_check_pattern;
use checkerboard::pattern::get_random_color;
use checkerboard::pattern::parity;

#[test]
fn compose_color_packs_channels() {
    assert_eq!(compose_color(0, 0, 0), 0);
    assert_eq!(compose_color(20, 20, 20), 0x141414);
    assert_eq!(compose_color(0, 127, 127), 0x007F7F);
    assert_eq!(compose_color(255, 255, 255), 0xFFFFFF);
    assert_eq!(compose_color(1, 2, 3), 0x010203);
}

#[test]
fn split_rgb_unpacks_channels() {
    assert_eq!(split_rgb(0x141414), (20, 20, 20));
    assert_eq!(split_rgb(0x007F7F), (0, 127, 127));
    assert_eq!(split_rgb(0xFFFFFF), (255, 255, 255));
    assert_eq!(split_rgb(0x010203), (1, 2, 3));
}

#[test]
fn split_rgb_inverts_compose_color() {
    for (r, g, b) in [(0, 0, 0), (20, 20, 20), (254, 0, 254), (17, 200, 99)] {
        let packed = compose_color(r, g, b);
        assert_eq!(split_rgb(packed), (r as u8, g as u8, b as u8));
    }
}

#[test]
fn parity_is_deterministic() {
    for (x, y, scale) in [(0, 0, 1), (5, 9, 3), (100, 17, 7)] {
        let first = parity(x, y, scale);
        assert_eq!(parity(x, y, scale), first);
    }
    assert_eq!(parity(5, 9, 3), (5 / 3 + 9 / 3) % 2);
}

#[test]
fn two_by_two_board_at_scale_one_alternates() {
    // Cells (0,0) and (1,1) are even, (1,0) and (0,1) odd: the parity
    // pattern of a 2x2 buffer at scale 1 is [[0,1],[1,0]].
    assert_eq!(parity(0, 0, 1), 0);
    assert_eq!(parity(1, 0, 1), 1);
    assert_eq!(parity(0, 1, 1), 1);
    assert_eq!(parity(1, 1, 1), 0);
    let mut pixels = vec![0u32; 4];
    let even = 0xAAAAAA;
    let odd = 0x111111;
    fill_checkerboard(&mut pixels, 1, 2, 2, even, odd);
    assert_eq!(pixels, vec![even, odd, odd, even]);
}

#[test]
fn fill_checkerboard_groups_cells_by_scale() {
    let mut pixels = vec![0u32; 16];
    fill_checkerboard(&mut pixels, 2, 4, 4, 1, 0);
    assert_eq!(
        pixels,
        vec![1, 1, 0, 0, 1, 1, 0, 0, 0, 0, 1, 1, 0, 0, 1, 1]
    );
}

#[test]
fn fill_overwrites_every_element() {
    // Start from a sentinel that is not a valid 24-bit color: one call
    // must replace every element, leaving no stale pixel behind.
    let mut rng = rand::thread_rng();
    let mut pixels = vec![0xFFFF_FFFFu32; 6 * 5];
    fill_with_check_pattern(&mut pixels, &3, 5, 6, &mut rng);
    for &p in &pixels {
        assert!(p < 0x1000000);
    }
}

#[test]
fn fill_paints_odd_cells_near_black() {
    let mut rng = rand::thread_rng();
    let width = 8usize;
    let height = 6usize;
    let mut pixels = vec![0u32; width * height];
    let scale = 2usize;
    fill_with_check_pattern(&mut pixels, &scale, height, width, &mut rng);
    for y in 0..height {
        for x in 0..width {
            let p = pixels[y * width + x];
            if (x / scale + y / scale) % 2 != 0 {
                assert_eq!(p, compose_color(20, 20, 20));
            } else {
                assert!(p < 0x1000000);
            }
        }
    }
}

#[test]
fn random_colors_are_valid_and_vary() {
    let mut rng = rand::thread_rng();
    let mut distinct = std::collections::HashSet::new();
    for _ in 0..64 {
        let c = get_random_color(&mut rng);
        assert!(c < 0x1000000);
        distinct.insert(c);
    }
    // 64 uniform samples of a 24-bit space collide with all but
    // negligible probability only rarely; demand at least two values.
    assert!(distinct.len() >= 2);
}
