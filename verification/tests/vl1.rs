use network_hypervisor::crypto::aes_ctr_keystream;
use network_hypervisor::dictionary::Dictionary;
use network_hypervisor::inet::{Endpoint, InetAddress};
use network_hypervisor::networkconfig::{DnsEntry, IpRoute, NetworkConfig, SSOAuthConfiguration};
use network_hypervisor::credentials::{CertificateOfMembership, CertificateOfOwnership, Rule, Tag};
use network_hypervisor::peer::{Identity, Node, Path, Peer, VL1CallerInterface, VL1PacketHandler};
use network_hypervisor::protocol::{
    salsa_derive_per_packet_key, PacketHeader, CIPHER_NOCRYPT_POLY1305,
    CIPHER_SALSA2012_POLY1305, VERB_VL1_ECHO,
};
use network_hypervisor::crypto::{poly1305_tag, salsa12_keystream};
use network_hypervisor::util::{addr_to_bytes, be64, sub_vec, xor_bytes};

struct RecordingTransport {
    frames: Vec<Vec<u8>>,
    accept: bool,
}

impl VL1CallerInterface for RecordingTransport {
    fn wire_send(
        &mut self,
        _endpoint: &Endpoint,
        _local_socket: Option<i64>,
        _local_interface: Option<i64>,
        data: &Vec<Vec<u8>>,
        _ttl: u8,
    ) -> bool {
        let mut frame = Vec::new();
        for part in data.iter() {
            frame.extend_from_slice(part);
        }
        self.frames.push(frame);
        self.accept
    }

    fn time_ticks(&mut self) -> i64 {
        1000
    }

    fn time_clock(&mut self) -> i64 {
        1_700_000_000_000
    }
}

struct PassThroughHandler;

impl VL1PacketHandler for PassThroughHandler {
    fn handle_packet(
        &mut self,
        _peer_address: u64,
        _source_path: &Path,
        _forward_secrecy: bool,
        _verb: u8,
        _payload: &Vec<u8>,
    ) -> bool {
        false
    }
}

fn test_identity(address: u64, seed: u8) -> Identity {
    Identity {
        address,
        public: vec![seed; 32],
        secret: Some(vec![seed ^ 0xff; 32]),
    }
}

fn test_path() -> Path {
    Path {
        endpoint: Endpoint::IpUdp(InetAddress::Ipv4 { octets: vec![10, 0, 0, 1], port: 9993 }),
        local_socket: Some(1),
        local_interface: Some(2),
        last_receive_time_ticks: 0,
        quality: 0,
    }
}

fn test_node(address: u64) -> Node {
    Node {
        address,
        instance_id: 0xabcdef,
        fips_mode: false,
        wimp: false,
        locator: None,
        root_path: None,
        roots: Vec::new(),
        sys_arch: b"x86_64".to_vec(),
        sys_bits: 64,
        os_name: b"linux".to_vec(),
    }
}

fn peer_pair() -> (Peer, Peer) {
    let a = test_identity(0x1111111111, 0x41);
    let b = test_identity(0x2222222222, 0x42);
    let peer_at_a = Peer::new(&a, b.clone()).expect("local identity holds its secret");
    let peer_at_b = Peer::new(&b, a.clone()).expect("local identity holds its secret");
    (peer_at_a, peer_at_b)
}

#[test]
fn agreement_is_symmetric() {
    let a = test_identity(0x1111111111, 0x41);
    let b = test_identity(0x2222222222, 0x42);
    let sab = a.agree(&b).unwrap();
    let sba = b.agree(&a).unwrap();
    assert_eq!(sab, sba);
    assert_eq!(sab.len(), 48);
}

#[test]
fn gmac_siv_round_trip_single_fragment() {
    let (peer_at_a, mut peer_at_b) = peer_pair();
    let mut payload = vec![VERB_VL1_ECHO];
    for i in 0..200u32 {
        payload.push((i % 251) as u8);
    }
    let packet = Peer::seal_packet_gmac_siv(
        &peer_at_a.static_secret,
        77,
        peer_at_a.identity.address,
        peer_at_b.identity.address,
        &payload,
    );
    let header = PacketHeader::from_bytes(&packet).unwrap();
    let node = test_node(peer_at_b.identity.address);
    let mut ci = RecordingTransport { frames: Vec::new(), accept: true };
    let mut ph = PassThroughHandler;
    let path = test_path();
    let before = peer_at_b.total_bytes_received;
    let r = peer_at_b.receive(&node, &mut ci, &mut ph, 555, &path, &header, &packet, &Vec::new());
    let (fs, verb, got) = r.expect("a packet sealed under the shared secret authenticates");
    assert!(!fs);
    assert_eq!(verb, VERB_VL1_ECHO);
    assert_eq!(got, payload);
    assert_eq!(peer_at_b.last_receive_time_ticks, 555);
    assert_eq!(peer_at_b.total_bytes_received, before + 201 + 27);
}

#[test]
fn gmac_siv_tampered_packet_is_dropped() {
    let (peer_at_a, mut peer_at_b) = peer_pair();
    let payload = vec![VERB_VL1_ECHO, 1, 2, 3, 4];
    let mut packet = Peer::seal_packet_gmac_siv(
        &peer_at_a.static_secret,
        78,
        peer_at_a.identity.address,
        peer_at_b.identity.address,
        &payload,
    );
    packet[30] ^= 0x01;
    let header = PacketHeader::from_bytes(&packet).unwrap();
    let node = test_node(peer_at_b.identity.address);
    let mut ci = RecordingTransport { frames: Vec::new(), accept: true };
    let mut ph = PassThroughHandler;
    let path = test_path();
    let before = peer_at_b.total_bytes_received;
    let r = peer_at_b.receive(&node, &mut ci, &mut ph, 556, &path, &header, &packet, &Vec::new());
    assert!(r.is_none());
    assert_eq!(peer_at_b.total_bytes_received, before);
}

#[test]
fn cleartext_non_hello_is_rejected() {
    let (_, mut peer_at_b) = peer_pair();
    let mut packet = vec![0u8; 27];
    packet[18] = CIPHER_NOCRYPT_POLY1305;
    packet.push(VERB_VL1_ECHO);
    packet.extend_from_slice(&[1, 2, 3]);
    let header = PacketHeader::from_bytes(&packet).unwrap();
    let node = test_node(peer_at_b.identity.address);
    let mut ci = RecordingTransport { frames: Vec::new(), accept: true };
    let mut ph = PassThroughHandler;
    let path = test_path();
    let before = peer_at_b.total_bytes_received;
    let r = peer_at_b.receive(&node, &mut ci, &mut ph, 557, &path, &header, &packet, &Vec::new());
    assert!(r.is_none());
    assert_eq!(peer_at_b.total_bytes_received, before);
    assert_eq!(peer_at_b.last_receive_time_ticks, 0);
}

fn build_salsa_packet(secret: &network_hypervisor::peer::PeerSecret, dest: u64, src: u64, payload: &Vec<u8>) -> Vec<u8> {
    let id = be64(0x1122334455667788);
    let header = PacketHeader {
        id: id.clone(),
        dest: addr_to_bytes(dest),
        src: addr_to_bytes(src),
        flags_cipher_hops: CIPHER_SALSA2012_POLY1305,
        mac: vec![0u8; 8],
    };
    let packet_len = 27 + payload.len();
    let dk = salsa_derive_per_packet_key(&secret.secret, &header, packet_len);
    let dk32 = sub_vec(&dk, 0, 32);
    let ks = salsa12_keystream(&dk32, &id, 32 + payload.len());
    let poly_key = sub_vec(&ks, 0, 32);
    let ks_tail = sub_vec(&ks, 32, 32 + payload.len());
    let ct = xor_bytes(payload, &ks_tail);
    let tag = poly1305_tag(&poly_key, &ct);
    let mut packet = header.as_bytes();
    packet.extend_from_slice(&ct);
    for i in 0..8 {
        packet[19 + i] = tag[i];
    }
    packet
}

#[test]
fn salsa_round_trip_and_byte_flip_rejected() {
    let (peer_at_a, mut peer_at_b) = peer_pair();
    let payload = vec![VERB_VL1_ECHO, 9, 8, 7, 6, 5, 4, 3, 2, 1, 0, 11, 12, 13, 14, 15, 16, 17];
    let good = build_salsa_packet(
        &peer_at_a.static_secret,
        peer_at_a.identity.address,
        peer_at_b.identity.address,
        &payload,
    );
    let node = test_node(peer_at_b.identity.address);
    let mut ci = RecordingTransport { frames: Vec::new(), accept: true };
    let mut ph = PassThroughHandler;
    let path = test_path();
    let header = PacketHeader::from_bytes(&good).unwrap();
    let r = peer_at_b.receive(&node, &mut ci, &mut ph, 600, &path, &header, &good, &Vec::new());
    let (fs, verb, got) = r.expect("an untampered Salsa packet authenticates");
    assert!(!fs);
    assert_eq!(verb, VERB_VL1_ECHO);
    assert_eq!(got, payload);

    let mut bad = good.clone();
    bad[40] ^= 0x20;
    let bad_header = PacketHeader::from_bytes(&bad).unwrap();
    let before = peer_at_b.total_bytes_received;
    let r2 = peer_at_b.receive(&node, &mut ci, &mut ph, 601, &path, &bad_header, &bad,
        &Vec::new());
    assert!(r2.is_none());
    assert_eq!(peer_at_b.total_bytes_received, before);
}

#[test]
fn send_udp_fragments_as_specified() {
    let (peer_at_a, _) = peer_pair();
    let mut data = vec![0u8; 6000];
    for i in 0..6000usize {
        data[i] = (i % 255) as u8;
    }
    let mut ci = RecordingTransport { frames: Vec::new(), accept: true };
    let endpoint = Endpoint::IpUdp(InetAddress::Ipv4 { octets: vec![10, 0, 0, 2], port: 9993 });
    let ok = peer_at_a.send_udp(&mut ci, &endpoint, None, None, 42, &data);
    assert!(ok);
    let lens: Vec<usize> = ci.frames.iter().map(|f| f.len()).collect();
    assert_eq!(lens, vec![1400, 1400, 1400, 1400, 464]);
    let mut reassembled = ci.frames[0].clone();
    for f in &ci.frames[1..] {
        assert_eq!(f[13], 0xff);
        assert_eq!(f[14] >> 4, 5);
        reassembled.extend_from_slice(&f[16..]);
    }
    assert_eq!(reassembled, data);
    for (k, f) in ci.frames[1..].iter().enumerate() {
        assert_eq!((f[14] & 0x0f) as usize, k + 1);
    }
}

#[test]
fn send_udp_aborts_on_wire_failure() {
    let (peer_at_a, _) = peer_pair();
    let data = vec![0u8; 6000];
    let mut ci = RecordingTransport { frames: Vec::new(), accept: false };
    let endpoint = Endpoint::IpUdp(InetAddress::Ipv4 { octets: vec![10, 0, 0, 2], port: 9993 });
    let ok = peer_at_a.send_udp(&mut ci, &endpoint, None, None, 43, &data);
    assert!(!ok);
    assert_eq!(ci.frames.len(), 1);
}

#[test]
fn packet_ivs_strictly_increase_and_differ() {
    let (mut peer_at_a, _) = peer_pair();
    if peer_at_a.packet_iv_counter > u64::MAX - 16 {
        peer_at_a.packet_iv_counter = 0;
    }
    let mut seen = Vec::new();
    for _ in 0..8 {
        seen.push(peer_at_a.next_packet_iv());
    }
    for w in seen.windows(2) {
        assert!(w[0] < w[1]);
    }
    for i in 0..seen.len() {
        for j in 0..seen.len() {
            if i != j {
                assert_ne!(seen[i], seen[j]);
            }
        }
    }
}

#[test]
fn hello_dictionary_encrypts_under_fresh_ivs() {
    let (mut peer_at_a, _) = peer_pair();
    if peer_at_a.packet_iv_counter > u64::MAX - 16 {
        peer_at_a.packet_iv_counter = 0;
    }
    let node = test_node(0x3333333333);
    let endpoint = Endpoint::IpUdp(InetAddress::Ipv4 { octets: vec![10, 0, 0, 3], port: 9993 });
    let iv1 = network_hypervisor::crypto::random_bytes(12);
    let iv2 = network_hypervisor::crypto::random_bytes(12);
    assert_ne!(iv1, iv2);
    let hp1 = peer_at_a.build_hello(&node, &endpoint, false, 1000, 2000, &iv1).unwrap();
    let hp2 = peer_at_a.build_hello(&node, &endpoint, false, 1001, 2001, &iv2).unwrap();
    assert_eq!(&hp1.packet[hp1.iv_position..hp1.iv_position + 12], &iv1[..]);
    assert_eq!(&hp2.packet[hp2.iv_position..hp2.iv_position + 12], &iv2[..]);
    for hp in [&hp1, &hp2] {
        let iv = hp.packet[hp.iv_position..hp.iv_position + 12].to_vec();
        let region =
            hp.packet[hp.dictionary_position..hp.packet.len() - 48].to_vec();
        let ks = aes_ctr_keystream(
            &peer_at_a.static_secret_hello_dictionary_key,
            &iv,
            region.len(),
        );
        let decrypted: Vec<u8> = region.iter().zip(ks.iter()).map(|(a, b)| a ^ b).collect();
        assert_eq!(decrypted, hp.dictionary_plaintext);
    }
    assert_ne!(
        &hp1.packet[hp1.dictionary_position..hp1.packet.len() - 48],
        &hp2.packet[hp2.dictionary_position..hp2.packet.len() - 48]
    );
}

#[test]
fn send_hello_emits_a_cleartext_hello() {
    let (mut peer_at_a, _) = peer_pair();
    if peer_at_a.packet_iv_counter > u64::MAX - 16 {
        peer_at_a.packet_iv_counter = 0;
    }
    let node = test_node(0x3333333333);
    let mut ci = RecordingTransport { frames: Vec::new(), accept: true };
    let endpoint = Endpoint::IpUdp(InetAddress::Ipv4 { octets: vec![10, 0, 0, 3], port: 9993 });
    let ok = peer_at_a.send_hello(&mut ci, &node, Some(endpoint));
    assert!(ok);
    assert_eq!(ci.frames.len(), 1);
    let packet = &ci.frames[0];
    assert_eq!(packet[18], CIPHER_NOCRYPT_POLY1305);
    assert_eq!(packet[27] & 0x1f, 1);
    assert_eq!(packet[28], 20);
}

#[test]
fn send_hello_without_any_path_fails() {
    let (mut peer_at_a, _) = peer_pair();
    if peer_at_a.packet_iv_counter > u64::MAX - 16 {
        peer_at_a.packet_iv_counter = 0;
    }
    let node = test_node(0x3333333333);
    let mut ci = RecordingTransport { frames: Vec::new(), accept: true };
    let ok = peer_at_a.send_hello(&mut ci, &node, None);
    assert!(!ok);
    assert_eq!(ci.frames.len(), 0);
}

#[test]
fn network_config_v1_wire_round_trip() {
    let mut c = NetworkConfig::new(0x8056c2e21c000001, 0x1122334455);
    c.name = b"home".to_vec();
    c.private = true;
    c.timestamp = 1_700_000_000_123;
    c.max_delta = 60_000;
    c.revision = 7;
    c.mtu = 2800;
    c.multicast_limit = 32;
    c.routes = vec![IpRoute {
        target: InetAddress::Ipv4 { octets: vec![192, 168, 1, 0], port: 24 },
        via: None,
        flags: 0,
        metric: 1,
    }];
    c.static_ips = vec![InetAddress::Ipv4 { octets: vec![192, 168, 1, 10], port: 24 }];
    c.rules = vec![Rule { t: 1, data: vec![0, 0, 0, 6] }];
    c.dns = vec![DnsEntry {
        name: b"example.lan".to_vec(),
        servers: vec![
            InetAddress::Ipv4 { octets: vec![192, 168, 1, 1], port: 53 },
            InetAddress::Ipv4 { octets: vec![192, 168, 1, 2], port: 53 },
        ],
    }];
    c.certificate_of_membership = Some(CertificateOfMembership { raw: vec![9, 9, 9, 9] });
    c.certificates_of_ownership = vec![
        CertificateOfOwnership { raw: vec![1, 2, 3] },
        CertificateOfOwnership { raw: vec![4, 5] },
    ];
    c.tags = vec![Tag { id: 1, value: 100 }, Tag { id: 2, value: 200 }];
    c.central_url = b"https://controller.example".to_vec();
    c.sso = Some(SSOAuthConfiguration {
        version: 1,
        authentication_url: b"https://auth.example/a".to_vec(),
        authentication_expiry_time: 1_700_000_111_000,
        issuer_url: b"https://issuer.example".to_vec(),
        nonce: b"nonce123".to_vec(),
        state: b"state456".to_vec(),
        client_id: b"client789".to_vec(),
    });
    let d = c.v1_proto_to_dictionary().expect("a config with a certificate encodes");
    let back = NetworkConfig::v1_proto_from_dictionary(&d).expect("the encoding decodes");
    assert_eq!(back.network_id, c.network_id);
    assert_eq!(back.issued_to, c.issued_to);
    assert_eq!(back.name, c.name);
    assert_eq!(back.private, c.private);
    assert_eq!(back.timestamp, c.timestamp);
    assert_eq!(back.max_delta, c.max_delta);
    assert_eq!(back.revision, c.revision);
    assert_eq!(back.mtu, c.mtu);
    assert_eq!(back.multicast_limit, c.multicast_limit);
    assert_eq!(back.routes, c.routes);
    assert_eq!(back.static_ips, c.static_ips);
    assert_eq!(back.rules, c.rules);
    assert_eq!(back.dns, c.dns);
    assert_eq!(back.certificate_of_membership, c.certificate_of_membership);
    assert_eq!(back.certificates_of_ownership, c.certificates_of_ownership);
    assert_eq!(back.tags, c.tags);
    assert_eq!(back.central_url, c.central_url);
    assert_eq!(back.sso, c.sso);
    assert!(back.banned.is_empty());
    assert!(back.node_info.is_empty());
    assert!(back.motd.is_empty());
}

#[test]
fn network_config_without_membership_certificate_fails_to_encode() {
    let c = NetworkConfig::new(0x8056c2e21c000001, 0x1122334455);
    assert!(c.v1_proto_to_dictionary().is_none());
}

#[test]
fn network_config_missing_required_fields_fails_to_decode() {
    let d = Dictionary::new();
    assert!(NetworkConfig::v1_proto_from_dictionary(&d).is_err());
}
