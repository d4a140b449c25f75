use netrain::matrix_rain::{
    calculate_column_count_from_traffic, charset_glyph, random_matrix_char, wave, CharacterSet,
    MatrixRain, VisualMode,
};
use netrain::calculate_rain_density;

#[test]
fn test_add_rain_column() {
    let mut matrix = MatrixRain::new(80, 24);
    assert_eq!(matrix.column_count(), 0);
    matrix.add_column(10);
    assert_eq!(matrix.column_count(), 1);
    matrix.add_column(20);
    assert_eq!(matrix.column_count(), 2);
    matrix.add_column(10);
    assert_eq!(matrix.column_count(), 2);
}

#[test]
fn test_rain_density_based_on_traffic() {
    let mut matrix = MatrixRain::new(80, 24);
    matrix.set_traffic_rate(10);
    matrix.update_density();
    let low_density = matrix.column_count();
    matrix.set_traffic_rate(1000);
    matrix.update_density();
    let high_density = matrix.column_count();
    assert!(high_density > low_density);
    assert!(high_density <= 80);
}

#[test]
fn test_matrix_rain_with_empty_traffic() {
    let mut matrix = MatrixRain::new(80, 24);
    matrix.set_traffic_rate(0);
    matrix.update_density();
    assert!(matrix.column_count() <= 1);
    matrix.update(16);
}

#[test]
fn test_matrix_rain_performance() {
    let mut matrix = MatrixRain::new(160, 48);
    matrix.set_traffic_rate(10000);
    for x in 0..160 {
        if x % 2 == 0 {
            matrix.add_column(x);
        }
    }
    let start = std::time::Instant::now();
    for _ in 0..100 {
        matrix.update(16);
    }
    let elapsed = start.elapsed();
    let ms_per_update = elapsed.as_millis() as f64 / 100.0;
    assert!(ms_per_update < 5.0);
}

#[test]
fn test_remove_rain_column() {
    let mut matrix = MatrixRain::new(80, 24);
    matrix.add_column(10);
    matrix.add_column(20);
    matrix.add_column(30);
    assert_eq!(matrix.column_count(), 3);
    matrix.remove_column(20);
    assert_eq!(matrix.column_count(), 2);
    assert!(matrix.get_column(10).is_some());
    assert!(matrix.get_column(20).is_none());
    assert!(matrix.get_column(30).is_some());
}

#[test]
fn test_matrix_rain_fall_speed() {
    let mut matrix = MatrixRain::new(80, 24);
    matrix.set_traffic_rate(100);
    matrix.add_column(10);
    let column = matrix.get_column(10).unwrap();
    let fall_speed = column.fall_speed;
    assert!(fall_speed > 0);
    assert!(fall_speed <= 5000);
}

#[test]
fn add_column_out_of_range_is_ignored() {
    let mut matrix = MatrixRain::new(80, 24);
    matrix.add_column(80);
    matrix.add_column(1000);
    assert_eq!(matrix.column_count(), 0);
    assert!(matrix.particles().is_empty());
}

#[test]
fn distinct_adds_count_one_each() {
    let mut matrix = MatrixRain::new(40, 24);
    for x in [3usize, 7, 11, 0, 39] {
        matrix.add_column(x);
    }
    assert_eq!(matrix.column_count(), 5);
    assert_eq!(matrix.particles().len(), 25);
}

#[test]
fn new_column_depth_and_speed() {
    let mut matrix = MatrixRain::new(80, 24);
    matrix.set_traffic_rate(1000);
    matrix.add_column(4);
    let c = matrix.get_column(4).unwrap();
    assert!(c.z_depth >= 300 && c.z_depth < 1000);
    assert_eq!(c.fall_speed, 5000 * c.z_depth / 1000);
    assert_eq!(c.chars.len(), 1);
    assert_eq!(c.chars[0].intensity, 1000);
}

#[test]
fn traffic_rate_sets_fall_speed() {
    let mut matrix = MatrixRain::new(80, 24);
    matrix.add_column(1);
    let z = matrix.get_column(1).unwrap().z_depth;
    assert_eq!(matrix.get_column(1).unwrap().fall_speed, 500 * z / 1000);
    matrix.set_traffic_rate(500);
    assert_eq!(matrix.get_column(1).unwrap().fall_speed, 2750 * z / 1000);
}

#[test]
fn density_targets() {
    assert_eq!(calculate_column_count_from_traffic(0, 80), 0);
    assert_eq!(calculate_column_count_from_traffic(1, 80), 1);
    assert_eq!(calculate_column_count_from_traffic(500, 80), 40);
    assert_eq!(calculate_column_count_from_traffic(5000, 80), 80);
}

#[test]
fn density_fills_to_target_and_shrinks() {
    let mut matrix = MatrixRain::new(20, 10);
    matrix.set_traffic_rate(1000);
    matrix.update_density();
    assert_eq!(matrix.column_count(), 20);
    matrix.set_traffic_rate(250);
    matrix.update_density();
    assert_eq!(matrix.column_count(), 5);
    matrix.set_traffic_rate(0);
    matrix.update_density();
    assert_eq!(matrix.column_count(), 0);
}

#[test]
fn density_never_drops_when_traffic_rises() {
    let mut matrix = MatrixRain::new(60, 10);
    let mut last = 0;
    for rate in [0u64, 5, 50, 200, 400, 999, 1000, 5000] {
        matrix.set_traffic_rate(rate);
        matrix.update_density();
        assert!(matrix.column_count() >= last);
        assert!(matrix.column_count() <= 60);
        last = matrix.column_count();
    }
}

#[test]
fn rain_density_mapping() {
    assert_eq!(calculate_rain_density(0), 0);
    assert_eq!(calculate_rain_density(5000), 500);
    assert_eq!(calculate_rain_density(15000), 1000);
}

#[test]
fn threat_switches_look() {
    let mut matrix = MatrixRain::new(10, 10);
    matrix.set_threat_active(true);
    matrix.set_threat_active(true);
    matrix.set_threat_active(false);
    matrix.update(16);
    assert_eq!(matrix.column_count(), 0);
}

#[test]
fn glyphs_come_from_their_set() {
    assert_eq!(charset_glyph(CharacterSet::Binary, 0), '0');
    assert_eq!(charset_glyph(CharacterSet::Binary, 3), '1');
    assert_eq!(charset_glyph(CharacterSet::Hex, 15), 'F');
    assert_eq!(charset_glyph(CharacterSet::ASCII, 0), 'A');
    assert_eq!(charset_glyph(CharacterSet::Katakana, 0), 'ｱ');
    assert_eq!(charset_glyph(CharacterSet::Mixed, 0), 'A');
    for _ in 0..50 {
        let c = random_matrix_char(CharacterSet::Binary);
        assert!(c == '0' || c == '1');
        let h = random_matrix_char(CharacterSet::Hex);
        assert!(h.is_ascii_hexdigit() && !h.is_ascii_lowercase());
    }
}

#[test]
fn wave_shape() {
    assert_eq!(wave(0), 0);
    assert_eq!(wave(1571), 1000);
    assert_eq!(wave(4712), -1000);
    assert_eq!(wave(6283), 0);
}

#[test]
fn update_moves_and_fades_glyphs() {
    let mut matrix = MatrixRain::new(80, 24);
    matrix.set_traffic_rate(1000);
    matrix.add_column(10);
    let before = matrix.get_column(10).unwrap().clone();
    matrix.update(100);
    let after = matrix.get_column(10).unwrap();
    assert_eq!(after.chars.len(), 1);
    let expected = before.fall_speed * 100 / 1000;
    assert_eq!(after.chars[0].y, expected);
    assert_eq!(after.chars[0].intensity, 950);
    assert_eq!(after.chars[0].trail_intensity, vec![870, 660, 450, 240, 80]);
    assert_eq!(after.pulse_timer, 400);
    let _ = VisualMode::Matrix;
}

#[test]
fn head_spawns_after_falling_and_faded_glyphs_drop() {
    let mut matrix = MatrixRain::new(80, 24);
    matrix.set_traffic_rate(1000);
    matrix.add_column(10);
    matrix.update(1000);
    matrix.update(1000);
    let col = matrix.get_column(10).unwrap();
    assert!(!col.chars.is_empty());
    assert_eq!(col.chars[0].y, 0);
    assert_eq!(col.chars[0].intensity, 1000);
    assert!(col.chars.iter().all(|c| c.intensity > 0 && c.y < 24_000));
    assert!(col.chars.len() <= 2);
}

#[test]
fn update_keeps_glyphs_in_range() {
    let mut matrix = MatrixRain::new(30, 8);
    matrix.set_traffic_rate(600);
    for _ in 0..200 {
        matrix.update(40);
        for col in matrix.columns() {
            for c in &col.chars {
                assert!(c.y < 8000);
                assert!(c.intensity > 0 && c.intensity <= 1000);
                assert!(c.trail_intensity.iter().all(|t| *t <= 1000));
            }
        }
        assert!(matrix.particles().iter().all(|p| p.lifetime > 0 || p.lifetime == 1000));
        assert!(matrix.column_count() <= 30);
    }
}
