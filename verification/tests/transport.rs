use bettercursor::discovery::{filter_out_self_device, DiscoveredDevice};
use bettercursor::transport::config::{PeerConfig, TransportConfigFile};
use bettercursor::transport::lan::{
    parse_pair_legacy_response, parse_pair_v2_response, PairResult, PendingPairing,
};
use bettercursor::transport::ssh::SshRsyncTransport;
use bettercursor::transport::trusted_peers::{TrustedPeer, TrustedPeersFile};

fn fake_peer() -> PeerConfig {
    PeerConfig {
        id: "test-peer".into(),
        kind: "ssh".into(),
        host: "fake-host".into(),
        port: 22,
        identity_file: "/tmp/fake-key".into(),
        remote_snap_dir: "/tmp/fake-snap".into(),
        remote_hostname: "fake-remote-host".into(),
    }
}

#[test]
fn endpoint_id_returns_peer_id() {
    let t = SshRsyncTransport::new(fake_peer());
    assert_eq!(t.endpoint_id(), "test-peer");
}

#[test]
fn with_bins_stores_binaries() {
    let t = SshRsyncTransport::with_bins(fake_peer(), "/fake/ssh", "/fake/rsync");
    assert_eq!(t.ssh_bin, "/fake/ssh");
    assert_eq!(t.rsync_bin, "/fake/rsync");
    let t2 = SshRsyncTransport::new(fake_peer());
    assert_eq!(t2.ssh_bin, "ssh");
    assert_eq!(t2.rsync_bin, "rsync");
}

#[test]
fn peer_lookup_by_id() {
    let cfg = TransportConfigFile {
        peers: vec![
            PeerConfig {
                id: "a".into(),
                kind: "ssh".into(),
                host: "x".into(),
                port: 22,
                identity_file: "i".into(),
                remote_snap_dir: "d".into(),
                remote_hostname: "h".into(),
            },
            PeerConfig {
                id: "b".into(),
                kind: "ssh".into(),
                host: "y".into(),
                port: 22,
                identity_file: "i".into(),
                remote_snap_dir: "d".into(),
                remote_hostname: "h".into(),
            },
        ],
    };
    assert!(cfg.peer("a").is_some());
    assert!(cfg.peer("b").is_some());
    assert!(cfg.peer("c").is_none());
    assert_eq!(cfg.peer("a").unwrap().host, "x");
}

#[test]
fn pending_pairing_has_six_digit_code() {
    let p = PendingPairing { code: "123456".into(), secret: "abc".into(), created_at_ms: 0 };
    assert_eq!(p.code.len(), 6);
}

#[test]
fn parse_pair_v2_response_keeps_remote_name() {
    let got = parse_pair_v2_response("OK PAIR2 remote-id secret-1 macbook pro").unwrap();
    assert_eq!(
        got,
        PairResult {
            device_id: "remote-id".into(),
            secret: "secret-1".into(),
            device_name: "macbook pro".into(),
        }
    );
}

#[test]
fn parse_pair_legacy_response_uses_addr_fallback_name() {
    let got = parse_pair_legacy_response("OK PAIR remote-id secret-1", "192.168.0.8:38472").unwrap();
    assert_eq!(got.device_name, "192.168.0.8");
}

#[test]
fn cleanup_replaces_legacy_self_name_with_addr_fallback() {
    let mut peers = TrustedPeersFile {
        peers: vec![TrustedPeer {
            id: "legacy".into(),
            device_name: "my-mac".into(),
            lan_addr: "192.168.0.5:38472".into(),
            pairing_secret: "abc123".into(),
            trusted_at_ms: 1,
        }],
    };
    let outcome = peers.cleanup_with_discovery(&[], "self-id", "my-mac");
    assert!(outcome.changed);
    assert_eq!(peers.peers[0].device_name, "192.168.0.5");
}

#[test]
fn cleanup_reconciles_discovered_name_and_id() {
    let mut peers = TrustedPeersFile {
        peers: vec![TrustedPeer {
            id: "legacy-random".into(),
            device_name: "192.168.0.5".into(),
            lan_addr: "192.168.0.5:38472".into(),
            pairing_secret: "abc123".into(),
            trusted_at_ms: 1,
        }],
    };
    let discovered = vec![DiscoveredDevice {
        device_id: "stable-peer-id".into(),
        device_name: "macbook-pro".into(),
        host: "192.168.0.5".into(),
        port: 38472,
    }];
    let outcome = peers.cleanup_with_discovery(&discovered, "self-id", "my-mac");
    assert!(outcome.changed);
    assert_eq!(peers.peers[0].id, "stable-peer-id");
    assert_eq!(peers.peers[0].device_name, "macbook-pro");
}

#[test]
fn filter_out_self_device_removes_local_id() {
    let devices = vec![
        DiscoveredDevice {
            device_id: "self".into(),
            device_name: "my-mac".into(),
            host: "192.168.1.2".into(),
            port: 38472,
        },
        DiscoveredDevice {
            device_id: "peer".into(),
            device_name: "linux-box".into(),
            host: "192.168.1.3".into(),
            port: 38472,
        },
    ];
    let filtered = filter_out_self_device(devices, "self");
    assert_eq!(filtered.len(), 1);
    assert_eq!(filtered[0].device_id, "peer");
}
