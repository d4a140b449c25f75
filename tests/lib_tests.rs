use netrain::addr::IpAddr;
use netrain::{
    calculate_fall_speed, calculate_rain_density, classify_protocol, extract_dns_query,
    extract_protocol, fade_character, get_http_method, is_tls_handshake, parse_packet,
    validate_packet, MatrixChar, Packet, Protocol, ProtocolStats, RainColumn, RainManager,
    Severity, ThreatDetector, ThreatIndicator, ThreatLevel, ThreatType,
};

fn packet_of(data: Vec<u8>, length: usize) -> Packet {
    Packet {
        data,
        length,
        timestamp: 0,
        src_ip: "192.168.1.1".to_string(),
        dst_ip: "192.168.1.2".to_string(),
    }
}

fn create_syn_packet(ip: String) -> Packet {
    let mut data = vec![0x45, 0x00, 0x00, 0x3c, 0x00, 0x00, 0x40, 0x00, 0x40, 0x06];
    data.extend_from_slice(&[0x00; 50]);
    Packet { data, length: 60, timestamp: 0, src_ip: ip, dst_ip: "192.168.1.2".to_string() }
}

fn create_tcp_packet(ip: String) -> Packet {
    let mut data = vec![0x45, 0x00, 0x00, 0x3c, 0x00, 0x00, 0x40, 0x00, 0x40, 0x06];
    data.extend_from_slice(&[0x00; 50]);
    Packet { data, length: 60, timestamp: 0, src_ip: ip, dst_ip: "192.168.1.2".to_string() }
}

fn create_tcp_packet_with_port(ip: &str, port: u16) -> Packet {
    let mut data = vec![0x45, 0x00, 0x00, 0x3c, 0x00, 0x00, 0x40, 0x00, 0x40, 0x06];
    data.extend_from_slice(&[0x00; 10]);
    data.push(0x00);
    data.push(0x50);
    let port_bytes = port.to_be_bytes();
    data.push(port_bytes[0]);
    data.push(port_bytes[1]);
    data.extend_from_slice(&[0x00; 36]);
    Packet {
        data,
        length: 60,
        timestamp: 0,
        src_ip: ip.to_string(),
        dst_ip: "192.168.1.2".to_string(),
    }
}

fn create_udp_packet(ip: &str) -> Packet {
    let mut data = vec![0x45, 0x00, 0x00, 0x3c, 0x00, 0x00, 0x40, 0x00, 0x40, 0x11];
    data.extend_from_slice(&[0x00; 50]);
    Packet {
        data,
        length: 60,
        timestamp: 0,
        src_ip: ip.to_string(),
        dst_ip: "192.168.1.2".to_string(),
    }
}

fn create_http_request_packet() -> Packet {
    let data = b"GET / HTTP/1.1\r\nHost: example.com\r\n\r\n".to_vec();
    packet_of(data, 38)
}

fn create_tls_handshake_packet() -> Packet {
    let mut data = vec![0x16, 0x03, 0x01, 0x00, 0x00];
    data.extend_from_slice(&[0x00; 55]);
    packet_of(data, 60)
}

fn create_dns_query_packet(_domain: &str) -> Packet {
    let mut data = vec![0x00, 0x00, 0x01, 0x00];
    data.extend_from_slice(&[0x00; 8]);
    data.extend_from_slice(&[0x07, 0x65, 0x78, 0x61, 0x6d, 0x70, 0x6c, 0x65]);
    data.extend_from_slice(&[0x03, 0x63, 0x6f, 0x6d]);
    data.push(0x00);
    data.extend_from_slice(&[0x00, 0x01, 0x00, 0x01]);
    let length = data.len();
    packet_of(data, length)
}

fn create_ssh_packet() -> Packet {
    let data = b"SSH-2.0-OpenSSH_8.2\r\n".to_vec();
    packet_of(data, 21)
}

#[test]
fn test_parse_packet_with_valid_data() {
    let packet_data = vec![0x45, 0x00, 0x00, 0x3c];
    let result = parse_packet(&packet_data);
    assert!(result.is_ok());
    let packet = result.unwrap();
    assert_eq!(packet.length, 60);
}

#[test]
fn test_parse_packet_with_empty_data() {
    let packet_data = vec![];
    let result = parse_packet(&packet_data);
    assert!(result.is_err());
}

#[test]
fn test_extract_protocol_tcp() {
    let packet = packet_of(vec![0x45, 0x00, 0x00, 0x3c, 0x00, 0x00, 0x40, 0x00, 0x40, 0x06], 60);
    assert_eq!(extract_protocol(&packet), Protocol::TCP);
}

#[test]
fn test_extract_protocol_udp() {
    let packet = packet_of(vec![0x45, 0x00, 0x00, 0x3c, 0x00, 0x00, 0x40, 0x00, 0x40, 0x11], 60);
    assert_eq!(extract_protocol(&packet), Protocol::UDP);
}

#[test]
fn test_validate_packet_checksum() {
    let packet = packet_of(vec![0x45, 0x00, 0x00, 0x3c], 60);
    assert!(validate_packet(&packet));
}

#[test]
fn test_fall_speed_calculation() {
    let column = RainColumn { x: 0, chars: vec!['A', 'B', 'C'], speed: 1000, intensity: 800 };
    let speed = calculate_fall_speed(&column);
    assert!(speed > 0 && speed <= 2000);
}

#[test]
fn test_fall_speed_with_threat() {
    let column = RainColumn { x: 0, chars: vec!['!', '!', '!'], speed: 1000, intensity: 1000 };
    let speed = calculate_fall_speed(&column);
    assert!(speed > 2000);
}

#[test]
fn test_character_fade() {
    let mut matrix_char = MatrixChar { value: 'A', intensity: 1000, age: 0 };
    fade_character(&mut matrix_char);
    assert!(matrix_char.intensity < 1000);
    assert_eq!(matrix_char.age, 1);
}

#[test]
fn test_character_fade_to_zero() {
    let mut matrix_char = MatrixChar { value: 'A', intensity: 100, age: 10 };
    for _ in 0..5 {
        fade_character(&mut matrix_char);
    }
    assert_eq!(matrix_char.intensity, 0);
}

#[test]
fn test_column_management_add() {
    let mut rain_manager = RainManager::new(80, 24);
    rain_manager.add_column(5);
    assert_eq!(rain_manager.active_columns(), 1);
}

#[test]
fn test_column_management_remove_faded() {
    let mut rain_manager = RainManager::new(80, 24);
    rain_manager.add_column(5);
    rain_manager.add_faded_column(3);
    rain_manager.remove_faded_columns();
    assert_eq!(rain_manager.active_columns(), 1);
}

#[test]
fn test_rain_density_normal() {
    let traffic_rate = 100;
    let density = calculate_rain_density(traffic_rate);
    assert!(density > 0 && density <= 1000);
}

#[test]
fn test_rain_density_high_traffic() {
    let traffic_rate = 10000;
    let density = calculate_rain_density(traffic_rate);
    assert_eq!(density, 1000);
}

#[test]
fn test_port_scan_detection_positive() {
    let mut detector = ThreatDetector::new();
    let source_ip = IpAddr::v4(192, 168, 1, 100);
    for port in 1000..1100 {
        detector.add_connection(source_ip, port);
    }
    assert!(detector.is_port_scan(source_ip));
}

#[test]
fn test_port_scan_detection_negative() {
    let mut detector = ThreatDetector::new();
    let source_ip = IpAddr::v4(192, 168, 1, 100);
    detector.add_connection(source_ip, 80);
    detector.add_connection(source_ip, 443);
    assert!(!detector.is_port_scan(source_ip));
}

#[test]
fn test_ddos_detection_syn_flood() {
    let mut detector = ThreatDetector::new();
    for i in 0..1000 {
        let packet = create_syn_packet(format!("192.168.1.{}", i % 255));
        detector.analyze_packet(&packet);
    }
    assert!(detector.is_ddos_active());
    assert_eq!(detector.get_threat_type(), ThreatType::SynFlood);
}

#[test]
fn test_ddos_detection_normal_traffic() {
    let mut detector = ThreatDetector::new();
    for i in 0..10 {
        let packet = create_tcp_packet(format!("192.168.1.{}", i));
        detector.analyze_packet(&packet);
    }
    assert!(!detector.is_ddos_active());
}

#[test]
fn test_anomaly_detection_unusual_port() {
    let detector = ThreatDetector::new();
    let packet = create_tcp_packet_with_port("192.168.1.100", 31337);
    let anomaly = detector.detect_anomaly(&packet);
    assert!(anomaly.is_some());
    assert_eq!(anomaly.unwrap().severity, Severity::Medium);
}

#[test]
fn test_anomaly_detection_malformed_packet() {
    let detector = ThreatDetector::new();
    let packet = packet_of(vec![0xFF, 0xFF, 0xFF], 3);
    let anomaly = detector.detect_anomaly(&packet);
    assert!(anomaly.is_some());
    assert_eq!(anomaly.unwrap().severity, Severity::High);
}

#[test]
fn test_threat_aggregation() {
    let mut detector = ThreatDetector::new();
    detector.add_threat_indicator(ThreatIndicator::PortScan);
    detector.add_threat_indicator(ThreatIndicator::HighTrafficRate);
    detector.add_threat_indicator(ThreatIndicator::SuspiciousPayload);
    assert_eq!(detector.get_threat_level(), ThreatLevel::Critical);
}

#[test]
#[should_panic(expected = "Detector not initialized")]
fn test_uninitialized_detector() {
    let detector: Option<ThreatDetector> = None;
    detector.expect("Detector not initialized").is_ddos_active();
}

#[test]
fn test_classify_tcp_packet() {
    let packet = create_tcp_packet("192.168.1.1".to_string());
    assert_eq!(classify_protocol(&packet), Protocol::TCP);
}

#[test]
fn test_classify_udp_packet() {
    let packet = create_udp_packet("192.168.1.1");
    assert_eq!(classify_protocol(&packet), Protocol::UDP);
}

#[test]
fn test_classify_http_packet() {
    let packet = create_http_request_packet();
    assert_eq!(classify_protocol(&packet), Protocol::HTTP);
    assert_eq!(get_http_method(&packet), Some("GET"));
}

#[test]
fn test_classify_https_packet() {
    let packet = create_tls_handshake_packet();
    assert_eq!(classify_protocol(&packet), Protocol::HTTPS);
    assert!(is_tls_handshake(&packet));
}

#[test]
fn test_classify_dns_query() {
    let packet = create_dns_query_packet("example.com");
    assert_eq!(classify_protocol(&packet), Protocol::DNS);
    assert_eq!(extract_dns_query(&packet), Some("example.com"));
}

#[test]
fn test_classify_ssh_packet() {
    let packet = create_ssh_packet();
    assert_eq!(classify_protocol(&packet), Protocol::SSH);
    assert!(packet.data.starts_with(b"SSH-"));
}

#[test]
fn test_classify_unknown_protocol() {
    let packet = packet_of(vec![0x00; 100], 100);
    assert_eq!(classify_protocol(&packet), Protocol::Unknown);
}

#[test]
fn protocol_statistics_counts_and_bytes() {
    let mut stats = ProtocolStats::new();
    stats.add_packet(Protocol::TCP, 1500);
    stats.add_packet(Protocol::TCP, 800);
    stats.add_packet(Protocol::UDP, 512);
    stats.add_packet(Protocol::HTTP, 2048);
    assert_eq!(stats.get_count(Protocol::TCP), 2);
    assert_eq!(stats.get_total_bytes(Protocol::TCP), 2300);
    assert_eq!(stats.get_count(Protocol::HTTP), 1);
    assert_eq!(stats.get_total_count(), 4);
    assert_eq!(stats.get_count(Protocol::DNS), 0);
}
