use arachne::common::{
    endpoint_key, is_service_ip, port_key, BackendKey, BackendVal, Endpoint, NatKey, NatVal,
    ServiceKey, ServiceVal,
};
use arachne::net::Ipv4Addr;

#[test]
fn endpoint_layout_is_stable() {
    assert_eq!(core::mem::size_of::<Endpoint>(), 12);
    assert_eq!(core::mem::align_of::<Endpoint>(), 4);
}

#[test]
fn service_key_layout() {
    assert_eq!(core::mem::size_of::<ServiceKey>(), 8);
    assert_eq!(core::mem::size_of::<ServiceVal>(), 8);
    assert_eq!(core::mem::size_of::<BackendKey>(), 12);
    assert_eq!(core::mem::size_of::<BackendVal>(), 8);
    assert_eq!(core::mem::size_of::<NatKey>(), 16);
    assert_eq!(core::mem::size_of::<NatVal>(), 32);
}

#[test]
fn key_matches_network_order_load() {
    let ip = Ipv4Addr::new(10, 244, 1, 5);
    assert_eq!(endpoint_key(ip), u32::from_le_bytes([10, 244, 1, 5]));
}

#[test]
fn port_key_matches_packet_load() {
    // Port 80 in a packet is bytes [0x00, 0x50]; loaded as LE u16 on x86 = 0x5000.
    assert_eq!(port_key(80), 0x5000u16);
    assert_eq!(port_key(53), 53u16.swap_bytes());
}

#[test]
fn service_ips_are_detected() {
    assert!(is_service_ip(endpoint_key(Ipv4Addr::new(10, 96, 0, 1))));
    assert!(is_service_ip(endpoint_key(Ipv4Addr::new(10, 96, 0, 10))));
    assert!(is_service_ip(endpoint_key(Ipv4Addr::new(10, 111, 255, 255))));
    assert!(!is_service_ip(endpoint_key(Ipv4Addr::new(10, 244, 1, 5))));
    assert!(!is_service_ip(endpoint_key(Ipv4Addr::new(10, 95, 255, 255))));
    assert!(!is_service_ip(endpoint_key(Ipv4Addr::new(10, 112, 0, 0))));
}
