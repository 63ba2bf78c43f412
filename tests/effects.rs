use glitch::args::{validate, validation};
use glitch::blocks::{make_block, offset_blocks, Block, BlockShiftOptions};
use glitch::channels::{offset_channels, offset_red_cyan, ChannelShiftOptions, LimitedShiftOptions, ShiftOptions};
use glitch::coords::clamping_add;
use glitch::pipeline::{glitch_img, Options};
use glitch::pixel::{blend, Pixel};
use glitch::raster::Image;
use glitch::scanline::{scanlines, ScanlineOptions};
use glitch::wind::{draw_wind, wind, WindOptions, CHANCE_SCALE};
use rand::{SeedableRng, StdRng};

fn seeded(seed: usize) -> StdRng {
    SeedableRng::from_seed(&[seed, 7, 11, 13][..])
}

fn px(r: u8, g: u8, b: u8, a: u8) -> Pixel {
    Pixel::new(r, g, b, a)
}

fn grid<T: Copy>(w: usize, h: usize, v: T) -> Vec<Vec<T>> {
    vec![vec![v; w]; h]
}

fn same_pixels(a: &Image, b: &Image) -> bool {
    a.width == b.width && a.height == b.height && a.rows == b.rows
}

#[test]
fn clamping_add_clamps_both_ways() {
    assert_eq!(clamping_add(5, -10, 10), 0);
    assert_eq!(clamping_add(5, -5, 10), 0);
    assert_eq!(clamping_add(5, 10, 10), 10);
    assert_eq!(clamping_add(5, 3, 10), 8);
    assert_eq!(clamping_add(0, i32::MIN, 5), 0);
    assert_eq!(clamping_add(u32::MAX, i32::MAX, u32::MAX), u32::MAX);
    assert_eq!(clamping_add(3_000_000_000, -1, u32::MAX), 2_999_999_999);
}

#[test]
fn clamping_add_stays_in_range() {
    for v in 0..=20u32 {
        for off in [-100, -21, -1, 0, 1, 7, 21, 100, i32::MIN, i32::MAX] {
            let r = clamping_add(v, off, 20);
            assert!(r <= 20);
        }
    }
}

#[test]
fn blend_single_pixel_is_itself() {
    let p = px(10, 20, 30, 200);
    assert_eq!(blend(&vec![p]), p);
    let q = px(255, 1, 0, 1);
    assert_eq!(blend(&vec![q]), q);
    assert_eq!(blend(&vec![px(9, 9, 9, 0)]), px(0, 0, 0, 0));
}

#[test]
fn blend_all_clear_is_transparent_black() {
    let v = vec![px(10, 20, 30, 0), px(255, 255, 255, 0), px(1, 2, 3, 0)];
    assert_eq!(blend(&v), px(0, 0, 0, 0));
}

#[test]
fn blend_weights_by_alpha_and_composes_alpha() {
    assert_eq!(blend(&vec![px(200, 0, 0, 128), px(0, 100, 0, 64)]), px(200, 50, 0, 159));
    assert_eq!(blend(&vec![px(255, 0, 0, 255), px(0, 100, 50, 255)]), px(255, 100, 50, 255));
}

#[test]
fn blend_many_sources_exactly() {
    let alphas = [1u8, 50, 128, 200, 254];
    let v: Vec<Pixel> = (0..20usize)
        .map(|i| px(((i * 37) % 256) as u8, ((i * 91) % 256) as u8, ((i * 13) % 256) as u8, alphas[i % 5]))
        .collect();
    assert_eq!(blend(&v), px(191, 250, 247, 254));
    assert_eq!(blend(&vec![px(100, 100, 100, 1); 300]), px(100, 100, 100, 176));
    assert_eq!(blend(&vec![px(100, 100, 100, 1); 2000]), px(100, 100, 100, 254));
}

fn row_colour(j: u8) -> Pixel {
    px(j * 10, 5, 200 - j * 10, 255)
}

fn striped(w: usize, h: usize) -> Image {
    let rows: Vec<Vec<Pixel>> = (0..h).map(|j| vec![row_colour(j as u8); w]).collect();
    Image::from_rows(w as u32, rows).unwrap()
}

#[test]
fn scanline_gap_reads_rows_around_it() {
    let img = striped(3, 6);
    let cfg = ScanlineOptions::new(2, 1, 0, 0, 1000);
    let out = scanlines(&img, &cfg, &grid(3, 6, 0));
    for x in 0..3 {
        // row 2 blends row 1 with the gap's own last row
        assert_eq!(out.pixel(x, 2), px(20, 5, 190, 168));
        assert_eq!(out.pixel(x, 5), px(50, 5, 160, 168));
        for y in [0, 1, 3, 4] {
            assert_eq!(out.pixel(x, y), row_colour(y as u8));
        }
    }
    // the gap's far row lies below the image: only the row above is read
    let img = striped(3, 5);
    let cfg = ScanlineOptions::new(3, 3, 0, 0, 1000);
    let out = scanlines(&img, &cfg, &grid(3, 5, 0));
    for x in 0..3 {
        assert_eq!(out.pixel(x, 3), px(20, 5, 180, 106));
        assert_eq!(out.pixel(x, 4), px(20, 5, 180, 106));
    }
}

#[test]
fn scanline_desync_moves_pixels_sideways() {
    let rows = vec![vec![px(1, 0, 0, 255), px(2, 0, 0, 255), px(3, 0, 0, 255)]];
    let img = Image::from_rows(3, rows).unwrap();
    let cfg = ScanlineOptions::new(1, 0, 0, 0, 1000);
    let out = scanlines(&img, &cfg, &vec![vec![1, -5, 1]]);
    assert_eq!(out.rows[0], vec![px(2, 0, 0, 255), px(1, 0, 0, 255), px(3, 0, 0, 255)]);
}

#[test]
fn scanline_options_step_moves_phase() {
    let cfg = ScanlineOptions::new(6, 3, 1234, 6000, 300);
    let next = cfg.step();
    assert_eq!(next.desync_phase, 1534);
    assert_eq!(next.desync_frequency, 300);
    assert_eq!(next.vert_dist, 6);
    assert_eq!(next.step().desync_phase, 1834);
}

#[test]
fn scanline_options_random_phase_in_range() {
    let mut rng = seeded(3);
    for _ in 0..200 {
        let cfg = ScanlineOptions::random(6, 3, 6000, 300, &mut rng);
        assert!(cfg.desync_phase >= 0 && cfg.desync_phase < 3000);
        let neg = ScanlineOptions::random(6, 3, 6000, -300, &mut rng);
        assert!(neg.desync_phase <= 0 && neg.desync_phase > -3000);
    }
    assert_eq!(ScanlineOptions::random(6, 3, 6000, 0, &mut rng).desync_phase, 0);
}

#[test]
fn desync_line_counts_periods() {
    let cfg = ScanlineOptions::new(6, 3, 500, 6000, 300);
    assert_eq!(cfg.desync_line(0), 500);
    assert_eq!(cfg.desync_line(8), 500);
    assert_eq!(cfg.desync_line(9), 10500);
    assert_eq!(cfg.desync_line(20), 20500);
}

#[test]
fn red_cyan_offsets_channels() {
    let rows = vec![vec![px(10, 20, 30, 255), px(40, 50, 60, 128), px(70, 80, 90, 0)]];
    let img = Image::from_rows(3, rows).unwrap();
    let out = offset_red_cyan(&img, &LimitedShiftOptions::new(1));
    assert_eq!(out.rows[0], vec![px(20, 20, 30, 255), px(0, 20, 30, 255), px(0, 50, 60, 128)]);
}

#[test]
fn random_walk_channels_read_own_offsets() {
    let rows = vec![vec![px(10, 20, 30, 255), px(40, 50, 60, 255), px(70, 80, 90, 255)]];
    let img = Image::from_rows(3, rows).unwrap();
    let r = ChannelShiftOptions::new(1000, 0, 300, 500);
    let g = ChannelShiftOptions::new(-1999, 0, 300, 500);
    let b = ChannelShiftOptions::new(0, 0, 300, 500);
    let out = offset_channels(&img, &ShiftOptions::new(r, g, b));
    assert_eq!(out.rows[0], vec![px(40, 20, 30, 255), px(70, 20, 60, 255), px(70, 50, 90, 255)]);
}

#[test]
fn channel_step_moves_at_most_max_move() {
    let c = ChannelShiftOptions::new(0, 0, 3000, 5000);
    let near = c.step(3000, 4000);
    assert_eq!((near.current_shift_x, near.current_shift_y), (3000, 4000));
    let far = c.step(6000, 8000);
    assert_eq!((far.current_shift_x, far.current_shift_y), (3000, 4000));
    let back = c.step(-6000, -8000);
    assert_eq!((back.current_shift_x, back.current_shift_y), (-3000, -4000));
    assert_eq!(far.base_shift_x, 0);
    assert_eq!(far.max_move, 5000);
}

#[test]
fn channel_walk_ten_thousand_steps_bounded() {
    let mut c = ChannelShiftOptions::new(2500, -1200, 4000, 700);
    let mut state: u64 = 0x2545F4914F6CDD1D;
    for _ in 0..10_000 {
        state = state.wrapping_mul(6364136223846793005).wrapping_add(1442695040888963407);
        let nx = ((state >> 33) % 8001) as i32 - 4000;
        state = state.wrapping_mul(6364136223846793005).wrapping_add(1442695040888963407);
        let ny = ((state >> 33) % 8001) as i32 - 4000;
        let next = c.step(nx, ny);
        let dx = (next.current_shift_x - c.current_shift_x) as i128;
        let dy = (next.current_shift_y - c.current_shift_y) as i128;
        assert!(dx * dx + dy * dy <= 700 * 700);
        c = next;
    }
}

#[test]
fn shift_options_step_steps_each_channel() {
    let ch = ChannelShiftOptions::new(0, 0, 3000, 5000);
    let s = ShiftOptions::new(ch, ch, ch).step((6000, 8000), (0, 0), (-3000, 0));
    assert_eq!((s.r.current_shift_x, s.r.current_shift_y), (3000, 4000));
    assert_eq!((s.g.current_shift_x, s.g.current_shift_y), (0, 0));
    assert_eq!((s.b.current_shift_x, s.b.current_shift_y), (-3000, 0));
}

#[test]
fn wind_streak_runs_left_until_stopped() {
    let a = px(1, 1, 1, 255);
    let b = px(2, 2, 2, 255);
    let c = px(3, 3, 3, 255);
    let img = Image::from_rows(3, vec![vec![a, b, c]]).unwrap();
    let cfg = WindOptions::new(500_000, 500_000);
    // the last pixel starts a streak, which does not stop
    let out = wind(&img, &cfg, &vec![vec![900_000, 900_000, 0]]);
    assert_eq!(out.rows[0], vec![c, c, c]);
    // the streak stops after covering the middle pixel
    let out = wind(&img, &cfg, &vec![vec![900_000, 0, 0]]);
    assert_eq!(out.rows[0], vec![a, c, c]);
    // no onset anywhere
    let out = wind(&img, &cfg, &vec![vec![900_000, 900_000, 900_000]]);
    assert_eq!(out.rows[0], vec![a, b, c]);
}

#[test]
fn wind_skips_transparent_origin() {
    let a = px(1, 1, 1, 255);
    let t = px(9, 9, 9, 0);
    let img = Image::from_rows(2, vec![vec![a, t]]).unwrap();
    let out = wind(&img, &WindOptions::new(CHANCE_SCALE, 0), &vec![vec![0, 0]]);
    assert_eq!(out.rows[0], vec![a, t]);
}

#[test]
fn draw_wind_fills_grid_in_range() {
    let mut rng = seeded(5);
    let d = draw_wind(7, 4, &mut rng);
    assert_eq!(d.len(), 4);
    for row in &d {
        assert_eq!(row.len(), 7);
        assert!(row.iter().all(|&v| v < CHANCE_SCALE));
    }
    assert!(d.iter().flatten().any(|&v| v != 0));
}

#[test]
fn make_block_snaps_shift_and_raises_height() {
    assert_eq!(make_block(5, 10, -2), Block { min_y: 5, height: 16, shift: -3 });
    assert_eq!(make_block(5, 20, 0), Block { min_y: 5, height: 20, shift: 3 });
    assert_eq!(make_block(5, 20, 3), Block { min_y: 5, height: 20, shift: 3 });
    assert_eq!(make_block(5, 20, 7), Block { min_y: 5, height: 20, shift: 7 });
    assert_eq!(make_block(5, 20, -20), Block { min_y: 5, height: 20, shift: -20 });
    assert_eq!(make_block(5, 20, -4), Block { min_y: 5, height: 20, shift: -4 });
}

#[test]
fn random_blocks_are_placed() {
    let mut rng = seeded(11);
    for num in 1..12usize {
        for max_y in [16u32, 17, 64, 480, 1000] {
            let opts = BlockShiftOptions::random(num, max_y, &mut rng);
            let bs = &opts.blocks;
            assert_eq!(bs.len(), num);
            for i in 0..bs.len() {
                assert!(bs[i].min_y < max_y);
                assert!(bs[i].height >= 16);
                assert!(bs[i].shift.abs() >= 3 && bs[i].shift.abs() <= 20);
                if i + 1 < bs.len() {
                    assert!(bs[i].min_y <= bs[i + 1].min_y);
                    if bs[i + 1].min_y - bs[i].min_y >= 16 {
                        assert!(bs[i].min_y + bs[i].height <= bs[i + 1].min_y);
                    }
                }
            }
        }
    }
}

#[test]
fn block_step_moves_down_three() {
    let opts = BlockShiftOptions { blocks: vec![Block { min_y: 0, height: 16, shift: 4 }, Block { min_y: 40, height: 20, shift: -7 }] };
    let next = opts.step();
    assert_eq!(next.blocks, vec![Block { min_y: 3, height: 16, shift: 4 }, Block { min_y: 43, height: 20, shift: -7 }]);
}

#[test]
fn offset_blocks_shifts_covered_rows() {
    let rows = vec![
        vec![px(1, 0, 0, 255), px(2, 0, 0, 255), px(3, 0, 0, 255)],
        vec![px(4, 0, 0, 255), px(5, 0, 0, 255), px(6, 0, 0, 255)],
        vec![px(7, 0, 0, 255), px(8, 0, 0, 255), px(9, 0, 0, 255)],
    ];
    let img = Image::from_rows(3, rows).unwrap();
    let opts = BlockShiftOptions { blocks: vec![Block { min_y: 1, height: 1, shift: 1 }, Block { min_y: 2, height: 5, shift: -4 }] };
    let out = offset_blocks(&img, &opts);
    assert_eq!(out.rows[0], img.rows[0]);
    assert_eq!(out.rows[1], vec![px(5, 0, 0, 255), px(6, 0, 0, 255), px(6, 0, 0, 255)]);
    assert_eq!(out.rows[2], vec![px(7, 0, 0, 255), px(7, 0, 0, 255), px(7, 0, 0, 255)]);
}

#[test]
fn image_from_rows_checks_lengths() {
    assert!(Image::from_rows(2, vec![vec![px(0, 0, 0, 0); 2], vec![px(0, 0, 0, 0); 3]]).is_none());
    let img = Image::from_rows(2, vec![vec![px(0, 0, 0, 0); 2]; 3]).unwrap();
    assert_eq!((img.width, img.height), (2, 3));
    let f = Image::filled(4, 2, px(1, 2, 3, 4));
    assert_eq!(f.pixel(3, 1), px(1, 2, 3, 4));
}

#[test]
fn validate_reports_unreadable_values() {
    assert_eq!(validate::<u32>(String::from("12"), "Expected an integer"), Ok(()));
    assert_eq!(validate::<u32>(String::from("x"), "Expected an integer"), Err(String::from("Expected an integer")));
    assert_eq!(validate::<i32>(String::from("-4"), "Expected an integer"), Ok(()));
    assert_eq!(validate::<f64>(String::from("0.3"), "Expected a float"), Ok(()));
    assert_eq!(validate::<usize>(String::from("-1"), "Expected an integer"), Err(String::from("Expected an integer")));
    assert_eq!(validation(true, "e"), Ok(()));
    assert_eq!(validation(false, "e"), Err(String::from("e")));
}

fn solid() -> Image {
    Image::filled(4, 4, px(120, 40, 200, 255))
}

#[test]
fn solid_image_survives_degenerate_stages() {
    let img = solid();
    let scan = ScanlineOptions::new(1, 0, 0, 6000, 300);
    let shifts = vec![vec![2, -1, 0, 3]; 4];
    assert!(same_pixels(&scanlines(&img, &scan, &shifts), &img));
    let whole = BlockShiftOptions { blocks: vec![Block { min_y: 0, height: 4, shift: 0 }] };
    assert!(same_pixels(&offset_blocks(&img, &whole), &img));
    let calm = WindOptions::new(0, 150_000);
    assert!(same_pixels(&wind(&img, &calm, &grid(4, 4, 0)), &img));
}

#[test]
fn solid_image_survives_whole_pipeline() {
    let img = solid();
    let opts = Options::new(
        LimitedShiftOptions::new(0),
        ScanlineOptions::new(1, 0, 0, 6000, 300),
        WindOptions::new(0, 150_000),
        BlockShiftOptions { blocks: vec![Block { min_y: 0, height: 4, shift: 0 }] },
    );
    let out = glitch_img(&img, &opts, &grid(4, 4, 1), &grid(4, 4, 0));
    assert!(same_pixels(&out, &img));
    let next = opts.step();
    assert_eq!(next.blocks.blocks[0].min_y, 3);
    assert_eq!(next.scan.desync_phase, 300);
}
