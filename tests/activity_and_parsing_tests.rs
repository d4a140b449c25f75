use netrain::matrix_rain::{CharacterSet, MatrixChar};
use netrain::optimized::{
    classify_protocol_optimized, format_ipv4_inline, parse_packet_optimized,
    parse_packet_ultra_optimized, parse_packet_zero_alloc, random_matrix_char_optimized,
    MatrixCharPool, ProtocolCache,
};
use netrain::packet::PacketError;
use netrain::protocol_activity::{ProtocolActivityTracker, HISTORY_SIZE};
use netrain::simple_matrix::{sort_by_count, SimpleMatrixRain};
use netrain::{classify_protocol, parse_packet, Packet, Protocol};

fn packet_of(data: Vec<u8>) -> Packet {
    let length = data.len();
    Packet { data, length, timestamp: 0, src_ip: String::new(), dst_ip: String::new() }
}

fn ipv4_tcp_header() -> Vec<u8> {
    vec![
        0x45, 0x00, 0x00, 0x14, 0x1c, 0x46, 0x40, 0x00, 0x40, 0x06, 0x00, 0x00, 10, 0, 0, 1, 192,
        168, 1, 20,
    ]
}

#[test]
fn ssh_banner_wins_at_any_length() {
    for extra in [0usize, 1, 30, 500] {
        let mut data = b"SSH-".to_vec();
        data.extend(std::iter::repeat(0x06).take(extra));
        let p = packet_of(data);
        assert_eq!(classify_protocol(&p), Protocol::SSH);
        assert_eq!(classify_protocol_optimized(&p), Protocol::SSH);
    }
}

#[test]
fn parse_then_classify_ipv4_header() {
    let raw = ipv4_tcp_header();
    let p = parse_packet(&raw).unwrap();
    assert_eq!(p.src_ip, "10.0.0.1");
    assert_eq!(p.dst_ip, "192.168.1.20");
    assert_eq!(classify_protocol(&p), Protocol::TCP);
    let mut udp = raw.clone();
    udp[9] = 0x11;
    assert_eq!(classify_protocol(&parse_packet(&udp).unwrap()), Protocol::UDP);
}

#[test]
fn parse_defaults_for_non_ip() {
    let p = parse_packet(&[0x00, 0x01, 0x02]).unwrap();
    assert_eq!(p.src_ip, "0.0.0.0");
    assert_eq!(p.dst_ip, "0.0.0.0");
    assert_eq!(p.data, vec![0x00, 0x01, 0x02]);
    assert_eq!(parse_packet(&[]).unwrap_err(), PacketError::Empty);
}

#[test]
fn optimized_parse_reads_ethernet_frames() {
    let mut frame = vec![0u8; 12];
    frame.extend_from_slice(&[0x08, 0x00]);
    frame.extend_from_slice(&ipv4_tcp_header());
    let p = parse_packet_optimized(&frame).unwrap();
    assert_eq!(p.length, frame.len());
    assert_eq!(p.src_ip, "10.0.0.1");
    assert_eq!(p.dst_ip, "192.168.1.20");
    assert!(parse_packet_optimized(&[]).is_err());
}

#[test]
fn ultra_parse_moves_buffer_out() {
    let raw = ipv4_tcp_header();
    let mut buf = vec![1u8, 2, 3];
    let p = parse_packet_ultra_optimized(&raw, &mut buf).unwrap();
    assert_eq!(p.data, raw);
    assert_eq!(p.length, 60);
    assert!(buf.is_empty());
    assert_eq!(p.src_ip, "10.0.0.1");
    let mut keep = vec![9u8];
    assert!(parse_packet_ultra_optimized(&[], &mut keep).is_err());
    assert_eq!(keep, vec![9u8]);
}

#[test]
fn zero_alloc_parse_and_to_owned() {
    let raw = ipv4_tcp_header();
    let r = parse_packet_zero_alloc(&raw).unwrap();
    assert_eq!(r.src_ip, [10, 0, 0, 1]);
    assert_eq!(r.dst_ip, [192, 168, 1, 20]);
    let owned = r.to_owned();
    assert_eq!(owned.src_ip, "10.0.0.1");
    assert_eq!(owned.dst_ip, "192.168.1.20");
    assert_eq!(owned.data, raw);
    let short = parse_packet_zero_alloc(&[7u8]).unwrap();
    assert_eq!(short.src_ip, [0, 0, 0, 0]);
}

#[test]
fn dotted_quad_text() {
    assert_eq!(format_ipv4_inline(&[255, 0, 7, 100]), "255.0.7.100");
    assert_eq!(format_ipv4_inline(&[1, 2]), "0.0.0.0");
}

#[test]
fn optimized_classifier_ports_and_payload() {
    let mut tcp = ipv4_tcp_header();
    tcp.extend_from_slice(&[0x1F, 0x90, 0x00, 0x16]);
    tcp.extend_from_slice(&[0u8; 16]);
    assert_eq!(classify_protocol_optimized(&packet_of(tcp.clone())), Protocol::SSH);
    tcp[23] = 0x50;
    assert_eq!(classify_protocol_optimized(&packet_of(tcp.clone())), Protocol::HTTP);
    tcp[22] = 0x01;
    tcp[23] = 0xBB;
    assert_eq!(classify_protocol_optimized(&packet_of(tcp.clone())), Protocol::HTTPS);
    tcp[22] = 0x30;
    tcp[23] = 0x39;
    tcp[32] = 0x50;
    tcp.extend_from_slice(b"GET / HTTP/1.1");
    assert_eq!(classify_protocol_optimized(&packet_of(tcp.clone())), Protocol::HTTP);
    let mut udp = ipv4_tcp_header();
    udp[9] = 0x11;
    udp.extend_from_slice(&[0xC0, 0x00, 0x00, 0x35]);
    udp.extend_from_slice(&[0u8; 8]);
    assert_eq!(classify_protocol_optimized(&packet_of(udp.clone())), Protocol::DNS);
    udp[23] = 0x36;
    assert_eq!(classify_protocol_optimized(&packet_of(udp)), Protocol::UDP);
    assert_eq!(classify_protocol_optimized(&packet_of(vec![0x16, 0x03])), Protocol::HTTPS);
    assert_eq!(classify_protocol_optimized(&packet_of(b"PUT x".to_vec())), Protocol::HTTP);
    assert_eq!(classify_protocol_optimized(&packet_of(vec![0x00; 30])), Protocol::Unknown);
}

#[test]
fn cache_returns_first_answer() {
    let mut cache = ProtocolCache::new(2);
    let p = packet_of(vec![1, 2, 3, 4, 5, 6, 7, 8, 9]);
    assert_eq!(cache.get_or_classify(&p, |_| Protocol::DNS), Protocol::DNS);
    assert_eq!(cache.get_or_classify(&p, |_| Protocol::TCP), Protocol::DNS);
    let q = packet_of(vec![9, 9]);
    let r = packet_of(vec![8, 8]);
    assert_eq!(cache.get_or_classify(&q, |_| Protocol::UDP), Protocol::UDP);
    assert_eq!(cache.get_or_classify(&r, |_| Protocol::SSH), Protocol::SSH);
    assert_eq!(cache.get_or_classify(&p, |_| Protocol::HTTP), Protocol::HTTP);
}

#[test]
fn char_pool_reuses_and_resets() {
    let mut pool = MatrixCharPool::new(1);
    let fresh = pool.acquire('x', 7);
    assert_eq!(fresh.trail_intensity, vec![900, 700, 500, 300, 150]);
    let mut used = MatrixChar::new('q', 3000);
    used.intensity = 10;
    used.trail_intensity = vec![1, 2, 3, 4, 5, 6];
    pool.release(used);
    pool.release(MatrixChar::new('z', 0));
    let again = pool.acquire('k', 2);
    assert_eq!(again.value, 'k');
    assert_eq!(again.y, 2);
    assert_eq!(again.intensity, 1000);
    assert_eq!(again.trail_intensity, vec![900, 700, 500, 300, 150, 6]);
    assert_eq!(random_matrix_char_optimized(CharacterSet::Binary).is_ascii_digit(), true);
}

#[test]
fn tracker_history_and_sparkline() {
    let mut t = ProtocolActivityTracker::new();
    assert_eq!(t.get_history().len(), HISTORY_SIZE);
    assert_eq!(t.get_max_value(), 1);
    t.record_packet(Protocol::TCP);
    t.record_packet(Protocol::TCP);
    t.record_packet(Protocol::DNS);
    t.tick();
    t.record_packet(Protocol::TCP);
    let line = t.get_sparkline_data(Protocol::TCP);
    assert_eq!(line.len(), 20);
    assert_eq!(line[18], 2);
    assert_eq!(line[19], 1);
    assert_eq!(t.get_max_value(), 3);
    assert_eq!(t.get_history().len(), HISTORY_SIZE);
    assert_eq!(t.get_history()[HISTORY_SIZE - 1].dns, 1);
    assert_eq!(t.get_sparkline_data(Protocol::SSH), vec![0; 20]);
}

#[test]
fn simple_rain_columns_and_ips() {
    let mut rain = SimpleMatrixRain::new(30, 10);
    let before = rain.columns().len();
    assert!(before <= 10);
    rain.add_column(29);
    rain.add_column(29);
    rain.add_column(30);
    assert!(rain.columns().len() <= before + 1);
    for _ in 0..200 {
        rain.update();
    }
    rain.track_ip_packet("10.0.0.1", "10.0.0.2", "TCP");
    rain.track_ip_packet("10.0.0.1", "10.0.0.3", "TCP");
    let ips = rain.get_active_ips();
    assert_eq!(ips[0], ("10.0.0.1".to_string(), 2));
    assert_eq!(ips.len(), 3);
    for i in 0..6 {
        rain.track_ip_packet("10.0.0.1", &format!("10.1.0.{}", i), "UDP");
    }
    let ips = rain.get_active_ips();
    assert!(ips.len() <= 5);
    assert_eq!(ips[0], ("10.0.0.1".to_string(), 8));
}

#[test]
fn sort_is_stable_and_descending() {
    let input = vec![
        ("a".to_string(), 1),
        ("b".to_string(), 3),
        ("c".to_string(), 1),
        ("d".to_string(), 3),
    ];
    let out = sort_by_count(input);
    let names: Vec<&str> = out.iter().map(|e| e.0.as_str()).collect();
    assert_eq!(names, vec!["b", "d", "a", "c"]);
}

#[test]
fn ipv4_tcp_with_label_byte_is_tcp() {
    let mut data = vec![0u8; 21];
    data[0] = 0x45;
    data[9] = 0x06;
    data[15] = 0x03;
    assert_eq!(classify_protocol(&packet_of(data)), Protocol::TCP);
    let mut dns = vec![0u8; 21];
    dns[15] = 0x03;
    assert_eq!(classify_protocol(&packet_of(dns)), Protocol::DNS);
}
