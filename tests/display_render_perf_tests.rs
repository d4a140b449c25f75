use netrain::display::{hex_dump, protocol_tag};
use netrain::matrix_rain::{MatrixRain, Particle, Rgb, VisualMode};
use netrain::perf::PerformanceMonitor;
use netrain::render::{
    calculate_character_color, calculate_trail_color, hsv_to_rgb, particle_cell, CellWrite,
};
use netrain::Protocol;

#[test]
fn log_labels() {
    assert_eq!(protocol_tag(Protocol::HTTP), "HTTP ");
    assert_eq!(protocol_tag(Protocol::HTTPS), "HTTPS");
    assert_eq!(protocol_tag(Protocol::Unknown), "???  ");
}

#[test]
fn hex_dump_lines() {
    let data: Vec<u8> = (0u8..20).map(|b| b + 0x3E).collect();
    let lines = hex_dump(&data);
    assert_eq!(lines.len(), 2);
    assert_eq!(
        lines[0],
        "00000000  3e 3f 40 41 42 43 44 45   46 47 48 49 4a 4b 4c 4d   >?@ABCDEFGHIJKLM"
    );
    assert_eq!(lines[1], format!("00000010  {:<50}  {}", "4e 4f 50 51 ", "NOPQ"));
    let odd = hex_dump(&[0x00, 0x7F, 0x20]);
    assert_eq!(odd.len(), 1);
    assert!(odd[0].ends_with(".. "));
    assert!(hex_dump(&[]).is_empty());
}

#[test]
fn hsv_primaries() {
    assert_eq!(hsv_to_rgb(0, 1000, 1000), Rgb(255, 0, 0));
    assert_eq!(hsv_to_rgb(333, 1000, 1000), Rgb(0, 255, 0));
    assert_eq!(hsv_to_rgb(500, 0, 1000), Rgb(255, 255, 255));
    assert_eq!(hsv_to_rgb(0, 1000, 0), Rgb(0, 0, 0));
}

#[test]
fn character_colors() {
    assert_eq!(calculate_character_color(950, 500, VisualMode::Matrix, 0, 0), Rgb(220, 255, 220));
    assert_eq!(calculate_character_color(800, 500, VisualMode::Matrix, 0, 0), Rgb(150, 255, 150));
    assert_eq!(calculate_character_color(500, 1000, VisualMode::Normal, 0, 0), Rgb(0, 255, 0));
    assert_eq!(calculate_character_color(100, 0, VisualMode::Matrix, 0, 0), Rgb(0, 100, 0));
    assert_eq!(calculate_character_color(1000, 0, VisualMode::Pulse, 0, 1571), Rgb(0, 255, 0));
    let g = calculate_character_color(1000, 0, VisualMode::Glitch, 0, 0);
    assert!(g == Rgb(255, 0, 255) || g == Rgb(0, 255, 255) || g == Rgb(0, 255, 0));
}

#[test]
fn trail_colors() {
    assert_eq!(calculate_trail_color(1000, 1000, VisualMode::Matrix, 0), Rgb(0, 80, 0));
    assert_eq!(calculate_trail_color(500, 0, VisualMode::Glitch, 0), Rgb(0, 25, 0));
}

#[test]
fn particle_cells() {
    let p = Particle {
        x: 3_500_000,
        y: -20,
        vx: 0,
        vy: 0,
        lifetime: 500,
        char: '*',
        color: Rgb(100, 255, 100),
    };
    assert_eq!(
        particle_cell(&p, 10, 10),
        Some(CellWrite { x: 3, y: 0, glyph: '*', color: Rgb(50, 127, 50) })
    );
    assert_eq!(particle_cell(&p, 3, 10), None);
}

#[test]
fn rendered_cells_stay_in_area() {
    let mut rain = MatrixRain::new(40, 12);
    rain.set_traffic_rate(1000);
    for _ in 0..30 {
        rain.update(50);
    }
    let cells = rain.render_cells(20, 6);
    assert!(cells.iter().all(|c| c.x < 20 && c.y < 6));
    assert!(!cells.is_empty());
    rain.set_threat_active(true);
    assert_eq!(rain.flash_color(), Some(Rgb(255, 0, 0)));
    rain.update(100);
    assert_eq!(rain.flash_color(), Some(Rgb(255, 76, 76)));
}

#[test]
fn frame_rate_from_frame_times() {
    let mut perf = PerformanceMonitor::new();
    for _ in 0..9 {
        perf.record_frame(20_000);
    }
    assert_eq!(perf.get_fps(), 0);
    perf.record_frame(20_000);
    assert_eq!(perf.get_fps(), 50);
    for _ in 0..60 {
        perf.record_frame(10_000);
    }
    assert_eq!(perf.get_fps(), 100);
}

#[test]
fn packet_rate_per_second() {
    let mut perf = PerformanceMonitor::new();
    perf.increment_packet_at(10);
    perf.increment_packet_at(500);
    assert_eq!(perf.get_packet_rate(), 0);
    perf.increment_packet_at(1000);
    assert_eq!(perf.get_packet_rate(), 3);
    perf.increment_packet_at(1500);
    assert_eq!(perf.get_packet_rate(), 3);
    perf.update_memory_usage();
    assert_eq!(perf.get_memory_kb(), 1024);
}
