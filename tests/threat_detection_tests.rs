use netrain::addr::IpAddr;
use netrain::threat_detection::ThreatDetector;
use netrain::{Packet, Severity, ThreatIndicator, ThreatLevel, ThreatType};

fn create_tcp_packet() -> Packet {
    let mut data = vec![0x45, 0x00, 0x00, 0x3c, 0x00, 0x00, 0x40, 0x00, 0x40, 0x06];
    data.extend_from_slice(&[0x00; 50]);
    Packet {
        data,
        length: 60,
        timestamp: 0,
        src_ip: "192.168.1.1".to_string(),
        dst_ip: "192.168.1.2".to_string(),
    }
}

fn create_syn_packet() -> Packet {
    create_tcp_packet()
}

fn packet_of(data: Vec<u8>) -> Packet {
    let length = data.len();
    Packet {
        data,
        length,
        timestamp: 0,
        src_ip: "192.168.1.1".to_string(),
        dst_ip: "192.168.1.2".to_string(),
    }
}

#[test]
fn test_detect_port_scan() {
    let mut detector = ThreatDetector::new();
    let source_ip = IpAddr::v4(192, 168, 1, 100);
    for port in 80..85 {
        detector.add_connection(source_ip, port);
    }
    assert!(!detector.is_port_scan(source_ip));
    for port in 1000..1025 {
        detector.add_connection(source_ip, port);
    }
    assert!(detector.is_port_scan(source_ip));
}

#[test]
fn test_detect_ddos_attack() {
    let mut detector = ThreatDetector::new();
    for _ in 0..2000 {
        let packet = create_tcp_packet();
        detector.analyze_packet(&packet);
    }
    assert!(detector.is_ddos_active());
}

#[test]
fn test_detect_anomaly() {
    let detector = ThreatDetector::new();
    let normal_packet = create_tcp_packet();
    assert!(detector.detect_anomaly(&normal_packet).is_none());
    let small_packet = packet_of(vec![0x45, 0x00]);
    let anomaly = detector.detect_anomaly(&small_packet);
    assert!(anomaly.is_some());
    assert_eq!(anomaly.unwrap().severity, Severity::High);
}

#[test]
fn test_threat_detector_time_window() {
    let mut detector = ThreatDetector::new();
    let source_ip = IpAddr::v4(192, 168, 1, 100);
    for port in 1000..1030 {
        detector.add_connection(source_ip, port);
    }
    assert!(detector.is_port_scan(source_ip));
    let detector2 = ThreatDetector::new();
    assert!(!detector2.is_port_scan(source_ip));
}

#[test]
fn test_threat_detector_alert_generation() {
    let detector = ThreatDetector::new();
    let high_severity_packet = packet_of(vec![0xFF; 10]);
    let alert = detector.detect_anomaly(&high_severity_packet);
    assert!(alert.is_some());
    assert_eq!(alert.unwrap().severity, Severity::High);

    let mut unusual_port_packet = vec![0x45, 0x00, 0x00, 0x3c, 0x00, 0x00, 0x40, 0x00, 0x40, 0x06];
    unusual_port_packet.extend_from_slice(&[0x00; 10]);
    unusual_port_packet.extend_from_slice(&[0x00, 0x50, 0x7A, 0x69]);
    unusual_port_packet.extend_from_slice(&[0x00; 36]);
    let packet = packet_of(unusual_port_packet);
    let alert = detector.detect_anomaly(&packet);
    assert!(alert.is_some());
    assert_eq!(alert.unwrap().severity, Severity::Medium);
}

#[test]
fn test_threat_detector_false_positive_rate() {
    let mut detector = ThreatDetector::new();
    let mut false_positives = 0;
    let total_packets = 100;
    for _ in 0..total_packets {
        let packet = create_tcp_packet();
        detector.analyze_packet(&packet);
        if detector.detect_anomaly(&packet).is_some() {
            false_positives += 1;
        }
    }
    assert_eq!(false_positives, 0);
    assert!(!detector.is_ddos_active());
}

#[test]
fn test_aggregate_threats() {
    let mut detector = ThreatDetector::new();
    assert_eq!(detector.get_threat_level(), ThreatLevel::Low);
    detector.add_threat_indicator(ThreatIndicator::PortScan);
    assert_eq!(detector.get_threat_level(), ThreatLevel::Medium);
    detector.add_threat_indicator(ThreatIndicator::HighTrafficRate);
    assert_eq!(detector.get_threat_level(), ThreatLevel::High);
    detector.add_threat_indicator(ThreatIndicator::SuspiciousPayload);
    assert_eq!(detector.get_threat_level(), ThreatLevel::Critical);
}

#[test]
fn test_threat_scoring_system() {
    let mut detector = ThreatDetector::new();
    assert_eq!(detector.get_threat_type(), ThreatType::Unknown);
    for _ in 0..150 {
        let packet = create_syn_packet();
        detector.analyze_packet(&packet);
    }
    assert_eq!(detector.get_threat_type(), ThreatType::SynFlood);
}

#[test]
fn test_mock_packet_streams() {
    let mut detector = ThreatDetector::new();
    let attacker_ip = IpAddr::v4(10, 0, 0, 1);
    for port in 1..100 {
        detector.add_connection(attacker_ip, port * 100);
    }
    assert!(detector.is_port_scan(attacker_ip));

    let mut flood_detector = ThreatDetector::new();
    for _ in 0..1500 {
        let packet = create_tcp_packet();
        flood_detector.analyze_packet(&packet);
    }
    assert!(flood_detector.is_ddos_active());

    let mut mixed_detector = ThreatDetector::new();
    let normal_ip = IpAddr::v4(192, 168, 1, 1);
    let attack_ip = IpAddr::v4(192, 168, 1, 2);
    mixed_detector.add_connection(normal_ip, 80);
    mixed_detector.add_connection(normal_ip, 443);
    for port in 1000..1050 {
        mixed_detector.add_connection(attack_ip, port);
    }
    assert!(!mixed_detector.is_port_scan(normal_ip));
    assert!(mixed_detector.is_port_scan(attack_ip));
}

#[test]
fn repeated_port_never_counts_as_scan() {
    let mut detector = ThreatDetector::new();
    let ip = IpAddr::v4(10, 0, 0, 7);
    for _ in 0..500 {
        detector.add_connection_at(ip, 8080, 5);
    }
    assert!(!detector.is_port_scan_at(ip, 5));
}

#[test]
fn port_scan_threshold_is_exact() {
    let mut detector = ThreatDetector::new();
    let ip = IpAddr::v4(10, 0, 0, 8);
    for port in 0..19u16 {
        detector.add_connection_at(ip, 2000 + port, 100);
    }
    assert!(!detector.is_port_scan_at(ip, 100));
    detector.add_connection_at(ip, 3000, 100);
    assert!(detector.is_port_scan_at(ip, 100));
}

#[test]
fn port_scan_window_excludes_old_ports() {
    let mut detector = ThreatDetector::new();
    let ip = IpAddr::v4(10, 0, 0, 9);
    for port in 0..25u16 {
        detector.add_connection_at(ip, 4000 + port, 0);
    }
    assert!(detector.is_port_scan_at(ip, 60_000));
    assert!(!detector.is_port_scan_at(ip, 60_001));
}

#[test]
fn old_connections_are_pruned() {
    let mut detector = ThreatDetector::new();
    let ip = IpAddr::v4(10, 0, 0, 10);
    for port in 0..25u16 {
        detector.add_connection_at(ip, 5000 + port, 0);
    }
    detector.add_connection_at(ip, 9999, 300_001);
    assert!(!detector.is_port_scan_at(ip, 0));
}

#[test]
fn syn_flood_scenario_under_one_second() {
    let mut detector = ThreatDetector::new();
    let packet = create_syn_packet();
    for i in 0..1200u64 {
        detector.analyze_packet_at(&packet, i * 900 / 1200);
    }
    assert!(detector.is_ddos_active_at(900));
    assert_eq!(detector.get_threat_type(), ThreatType::SynFlood);
}

#[test]
fn ddos_rate_uses_one_second_floor() {
    let mut detector = ThreatDetector::new();
    let packet = create_tcp_packet();
    for _ in 0..999 {
        detector.analyze_packet_at(&packet, 0);
    }
    assert!(!detector.is_ddos_active_at(10));
    detector.analyze_packet_at(&packet, 0);
    assert!(detector.is_ddos_active_at(10));
    assert!(!detector.is_ddos_active_at(2000));
}

#[test]
fn ddos_window_resets_counts() {
    let mut detector = ThreatDetector::new();
    let packet = create_tcp_packet();
    for _ in 0..99 {
        detector.analyze_packet_at(&packet, 0);
    }
    assert_eq!(detector.get_threat_type(), ThreatType::Unknown);
    detector.analyze_packet_at(&packet, 10_001);
    assert_eq!(detector.get_threat_type(), ThreatType::Unknown);
    assert!(!detector.is_ddos_active_at(10_001));
}

#[test]
fn anomaly_scenarios() {
    let detector = ThreatDetector::new();
    let garbage = packet_of(vec![0xFF; 30]);
    assert_eq!(detector.detect_anomaly(&garbage).unwrap().severity, Severity::High);
    let tiny = packet_of(vec![0x45, 0x00]);
    assert_eq!(detector.detect_anomaly(&tiny).unwrap().severity, Severity::High);
    let mut backdoor = vec![0u8; 60];
    backdoor[22] = 0x7A;
    backdoor[23] = 0x69;
    assert_eq!(detector.detect_anomaly(&packet_of(backdoor)).unwrap().severity, Severity::Medium);
    assert!(detector.detect_anomaly(&create_tcp_packet()).is_none());
}

#[test]
fn threat_level_ignores_indicator_order() {
    let mut a = ThreatDetector::new();
    let mut b = ThreatDetector::new();
    a.add_threat_indicator(ThreatIndicator::PortScan);
    a.add_threat_indicator(ThreatIndicator::PortScan);
    b.add_threat_indicator(ThreatIndicator::SuspiciousPayload);
    b.add_threat_indicator(ThreatIndicator::HighTrafficRate);
    assert_eq!(a.get_threat_level(), ThreatLevel::High);
    assert_eq!(b.get_threat_level(), ThreatLevel::High);
    for _ in 0..10 {
        a.add_threat_indicator(ThreatIndicator::HighTrafficRate);
    }
    assert_eq!(a.get_threat_level(), ThreatLevel::Critical);
}

#[test]
fn ipv4_address_value() {
    assert_eq!(IpAddr::v4(192, 168, 1, 100), IpAddr::V4(0xC0A8_0164));
}
