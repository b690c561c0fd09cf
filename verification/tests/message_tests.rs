use plcmon::protocol::broadcom::{
    bcm_restart_ack, build_nw_info_req, build_nw_stats_req, build_sta_info_req,
    build_sta_restart_req, extract_macs_from_payload, holds_mac, parse_nw_info_cnf,
    parse_nw_stats_cnf, parse_rate_word, parse_sta_info_cnf, SignalType, BCM_NW_INFO_CNF,
    BCM_NW_INFO_REQ, BCM_NW_STATS_CNF, BCM_NW_STATS_REQ, BCM_STA_INFO_CNF, BCM_STA_INFO_REQ,
    BCM_STA_RESTART_CNF, BCM_STA_RESTART_REQ,
};
use plcmon::protocol::qualcomm::{QCA_LOCALCAST, VS_NW_INFO_CNF, VS_NW_INFO_REQ, VS_SW_VER_REQ};
use plcmon::protocol::standard::{CC_DISCOVER_LIST_CNF, CM_NW_STATS_CNF, CM_NW_STATS_REQ};
use plcmon::protocol::{
    bcm_message, build_bcm_frame, build_hpav_frame, build_qca_frame, hpav_message, parse_bcm_hdr,
    parse_eth, parse_hpav, qualcomm, read_le16, read_le32, read_mac, standard, MacAddr,
    ETHERTYPE_HPAV, ETHERTYPE_MEDIAXTREAM,
};

const A: MacAddr = MacAddr([0x02, 0x11, 0x22, 0x33, 0x44, 0x55]);
const B: MacAddr = MacAddr([0x06, 0x66, 0x77, 0x88, 0x99, 0xAA]);

/// A standard message with the given body.
fn hpav(mmtype: u16, body: &[u8]) -> Vec<u8> {
    let mut f = build_hpav_frame(A, B, mmtype);
    f.truncate(17);
    f.extend_from_slice(body);
    f
}

/// A Mediaxtream message with the given body and no padding.
fn bcm(mmtype: u16, body: &[u8]) -> Vec<u8> {
    let mut f = build_bcm_frame(A, B, mmtype, 0, &[]);
    f.truncate(23);
    f.extend_from_slice(body);
    f
}

// -- Frames ------------------------------------------------------------------------------

#[test]
fn frames_have_the_minimum_size() {
    assert_eq!(build_hpav_frame(A, B, 1).len(), 60);
    assert_eq!(build_qca_frame(A, B, 1).len(), 60);
    assert_eq!(build_bcm_frame(A, B, 1, 0, &[]).len(), 60);
    assert_eq!(build_bcm_frame(A, B, 1, 0, &[7; 37]).len(), 60);
    assert_eq!(build_bcm_frame(A, B, 1, 0, &[7; 38]).len(), 61);
    assert_eq!(build_bcm_frame(A, B, 1, 0, &[7; 1000]).len(), 1023);
}

#[test]
fn padding_is_zero() {
    let f = build_bcm_frame(A, B, 0xFFFF, 0xFF, &[0xFF]);
    assert!(f[24..].iter().all(|b| *b == 0));
    let f = build_hpav_frame(A, B, 0xFFFF);
    assert!(f[17..].iter().all(|b| *b == 0));
}

#[test]
fn hpav_frame_reads_back() {
    let f = build_hpav_frame(A, B, 0x6048);
    assert_eq!(parse_eth(&f), Some((A, B, ETHERTYPE_HPAV, 14)));
    assert_eq!(parse_hpav(&f, 14), Some((0x6048, 17)));
    assert_eq!(hpav_message(&f, 0x6048), Some(B));
    assert_eq!(hpav_message(&f, 0x6049), None);
    assert_eq!(bcm_message(&f, 0x6048), None);
}

#[test]
fn qca_frame_reads_back() {
    let f = build_qca_frame(A, B, 0xA038);
    assert_eq!(parse_eth(&f), Some((A, B, ETHERTYPE_HPAV, 14)));
    assert_eq!(parse_hpav(&f, 14), Some((0xA038, 17)));
    assert_eq!(&f[17..20], &[0x00, 0xB0, 0x52]);
}

#[test]
fn bcm_frame_reads_back() {
    let f = build_bcm_frame(A, B, 0xA02C, 200, &[1, 2, 3]);
    assert_eq!(parse_eth(&f), Some((A, B, ETHERTYPE_MEDIAXTREAM, 14)));
    assert_eq!(parse_bcm_hdr(&f, 14), Some((0xA02C, 200, 23)));
    assert_eq!(&f[23..26], &[1, 2, 3]);
    assert_eq!(bcm_message(&f, 0xA02C), Some(B));
    assert_eq!(bcm_message(&f, 0xA02D), None);
    assert_eq!(hpav_message(&f, 0xA02C), None);
}

#[test]
fn headers_need_their_length_and_version() {
    let f = build_bcm_frame(A, B, 0xA02C, 0, &[]);
    assert!(parse_bcm_hdr(&f[..22], 14).is_none());
    assert!(parse_bcm_hdr(&f[..23], 14).is_some());
    let f = build_hpav_frame(A, B, 0x0014);
    assert!(parse_hpav(&f[..16], 14).is_none());
    assert!(parse_hpav(&f[..17], 14).is_some());
    assert!(parse_bcm_hdr(&f, 14).is_none());
    assert!(parse_eth(&f[..13]).is_none());
    assert!(parse_eth(&f[..14]).is_some());
}

#[test]
fn numbers_are_little_endian() {
    assert_eq!(read_le16(0x34, 0x12), 0x1234);
    assert_eq!(read_le32(&[0, 0x78, 0x56, 0x34, 0x12], 1), 0x12345678);
    assert_eq!(read_mac(&[9, 2, 0x11, 0x22, 0x33, 0x44, 0x55], 1), A);
}

#[test]
fn requests_have_their_types() {
    for (f, t, seq) in [
        (build_nw_stats_req(A, B, 5), BCM_NW_STATS_REQ, 5),
        (build_nw_info_req(A, B, 6), BCM_NW_INFO_REQ, 6),
        (build_sta_info_req(A, B, 7), BCM_STA_INFO_REQ, 7),
        (build_sta_restart_req(A, B, 8), BCM_STA_RESTART_REQ, 8),
    ] {
        assert_eq!(f, build_bcm_frame(A, B, t, seq, &[]));
    }
    assert_eq!(BCM_NW_STATS_REQ, 0xA02C);
    assert_eq!(BCM_NW_INFO_REQ, 0xA028);
    assert_eq!(BCM_STA_INFO_REQ, 0xA04C);
    assert_eq!(BCM_STA_RESTART_REQ, 0xA020);
    assert_eq!(standard::build_nw_stats_req(A, B), build_hpav_frame(A, B, CM_NW_STATS_REQ));
    assert_eq!(qualcomm::build_nw_info_req(A, B), build_qca_frame(A, B, VS_NW_INFO_REQ));
    assert_eq!(
        qualcomm::build_sw_ver_req(MacAddr(QCA_LOCALCAST), B),
        build_qca_frame(MacAddr([0x00, 0xB0, 0x52, 0x00, 0x00, 0x01]), B, VS_SW_VER_REQ)
    );
}

// -- Standard messages -----------------------------------------------------------------------

#[test]
fn discover_list_without_a_body() {
    let f = hpav(CC_DISCOVER_LIST_CNF, &[]);
    let (src, stations) = standard::parse_discover_list_cnf(&f).unwrap();
    assert_eq!(src, B);
    assert!(stations.is_empty());
}

#[test]
fn discover_list_stops_at_the_end_of_the_frame() {
    let mut body = vec![3];
    body.extend_from_slice(&[1, 2, 3, 4, 5, 6, 10, 0, 20, 0xFE, 99]);
    body.extend_from_slice(&[6, 5, 4, 3, 2, 1, 11, 7, 21, 0x03, 98]);
    body.extend_from_slice(&[9, 9, 9, 9, 9, 9, 9, 9, 9, 9]);
    let (_, stations) = standard::parse_discover_list_cnf(&hpav(CC_DISCOVER_LIST_CNF, &body)).unwrap();
    assert_eq!(stations.len(), 2);
    assert_eq!(stations[0].mac, MacAddr([1, 2, 3, 4, 5, 6]));
    assert_eq!((stations[0].tei, stations[0].snid), (10, 20));
    assert!(!stations[0].same_network && !stations[0].is_cco);
    assert_eq!(stations[1].mac, MacAddr([6, 5, 4, 3, 2, 1]));
    assert!(stations[1].same_network && stations[1].is_cco);
}

#[test]
fn discover_list_lists_no_more_than_announced() {
    let mut body = vec![1];
    body.extend_from_slice(&[5; 22]);
    let (_, stations) = standard::parse_discover_list_cnf(&hpav(CC_DISCOVER_LIST_CNF, &body)).unwrap();
    assert_eq!(stations.len(), 1);
}

#[test]
fn standard_stats() {
    let mut body = vec![2];
    body.extend_from_slice(&[1, 2, 3, 4, 5, 6, 100, 255]);
    body.extend_from_slice(&[6, 5, 4, 3, 2, 1, 7, 8]);
    let stats = standard::parse_nw_stats_cnf(&hpav(CM_NW_STATS_CNF, &body)).unwrap();
    assert_eq!(
        stats,
        vec![(MacAddr([1, 2, 3, 4, 5, 6]), 100, 255), (MacAddr([6, 5, 4, 3, 2, 1]), 7, 8)]
    );
    assert_eq!(standard::parse_nw_stats_cnf(&hpav(CM_NW_STATS_CNF, &body[..16])).unwrap().len(), 1);
    assert!(standard::parse_nw_stats_cnf(&hpav(CM_NW_STATS_CNF, &[])).unwrap().is_empty());
    assert!(standard::parse_nw_stats_cnf(&hpav(CC_DISCOVER_LIST_CNF, &body)).is_none());
}

// -- Broadcom messages --------------------------------------------------------------------------

#[test]
fn rate_words() {
    assert_eq!(parse_rate_word(0), (0, SignalType::Siso1));
    assert_eq!(parse_rate_word(0xFFFF), (0x7FF, SignalType::SisoOnly));
    assert_eq!(parse_rate_word(0x1000 | 5), (5, SignalType::Siso2));
    assert_eq!(parse_rate_word(0x2133), (307, SignalType::Mimo));
    assert_eq!(parse_rate_word(0xC800), (0, SignalType::Siso1));
}

#[test]
fn signal_names() {
    assert_eq!(SignalType::Siso1.to_string(), "SISO");
    assert_eq!(SignalType::Siso2.to_string(), "SISO2");
    assert_eq!(SignalType::Mimo.to_string(), "MIMO");
    assert_eq!(SignalType::SisoOnly.to_string(), "SISO");
}

#[test]
fn link_rates_stop_at_the_end_of_the_frame() {
    let mut body = vec![9];
    body.extend_from_slice(&[1, 2, 3, 4, 5, 6, 0x64, 0x20, 0x32, 0x10]);
    body.extend_from_slice(&[7; 9]);
    let (src, rates) = parse_nw_stats_cnf(&bcm(BCM_NW_STATS_CNF, &body)).unwrap();
    assert_eq!(src, B);
    assert_eq!(rates.len(), 1);
    assert_eq!((rates[0].tx_mbps, rates[0].rx_mbps), (100, 50));
    assert_eq!((rates[0].tx_signal, rates[0].rx_signal), (SignalType::Mimo, SignalType::Siso2));
    assert!(parse_nw_stats_cnf(&bcm(BCM_NW_STATS_CNF, &[])).unwrap().1.is_empty());
}

#[test]
fn nw_info_hands_out_the_payload() {
    let (src, payload) = parse_nw_info_cnf(&bcm(BCM_NW_INFO_CNF, &[1, 2, 3])).unwrap();
    assert_eq!(src, B);
    assert_eq!(payload, vec![1, 2, 3]);
    assert!(parse_nw_info_cnf(&bcm(BCM_NW_STATS_CNF, &[1, 2, 3])).is_none());
}

#[test]
fn addresses_in_a_payload() {
    assert!(extract_macs_from_payload(&[2, 2, 2, 2, 2]).is_empty());
    assert!(extract_macs_from_payload(&[0; 20]).is_empty());
    assert!(extract_macs_from_payload(&[0xFF; 20]).is_empty());
    assert!(extract_macs_from_payload(&[1; 20]).is_empty());
    // Every window counts, each address once.
    assert_eq!(extract_macs_from_payload(&[2; 20]), vec![MacAddr([2; 6])]);
    let macs = extract_macs_from_payload(&[1, 0, 3, 5, 7, 9, 11, 2]);
    assert_eq!(macs, vec![MacAddr([0, 3, 5, 7, 9, 11])]);
    let macs = extract_macs_from_payload(&[2, 4, 1, 1, 1, 1, 1, 2, 4, 1, 1, 1, 1]);
    assert_eq!(macs, vec![
        MacAddr([2, 4, 1, 1, 1, 1]),
        MacAddr([4, 1, 1, 1, 1, 1]),
    ]);
    assert!(holds_mac(&macs, MacAddr([4, 1, 1, 1, 1, 1])));
    assert!(!holds_mac(&macs, A));
}

#[test]
fn station_info() {
    let mut body: Vec<u8> = (1..=48).collect();
    let info = parse_sta_info_cnf(&bcm(BCM_STA_INFO_CNF, &body)).unwrap();
    assert_eq!(info.chip_version, 0x04030201);
    assert_eq!(info.hardware_version, 0x08070605);
    assert_eq!(info.firmware_svn, 0x0C0B0A09);
    assert_eq!(info.uptime_secs, 0x302F2E2D);
    body.truncate(47);
    assert_eq!(parse_sta_info_cnf(&bcm(BCM_STA_INFO_CNF, &body)).unwrap().uptime_secs, 0);
    body.truncate(16);
    assert!(parse_sta_info_cnf(&bcm(BCM_STA_INFO_CNF, &body)).is_some());
    body.truncate(15);
    assert!(parse_sta_info_cnf(&bcm(BCM_STA_INFO_CNF, &body)).is_none());
}

#[test]
fn restart_acknowledgements() {
    assert_eq!(bcm_restart_ack(&bcm(BCM_STA_RESTART_CNF, &[])), Some(B));
    assert_eq!(bcm_restart_ack(&bcm(BCM_STA_RESTART_REQ, &[])), None);
}

// -- Qualcomm messages ------------------------------------------------------------------------------

#[test]
fn qca_networks() {
    let mut body = vec![0x00, 0xB0, 0x52, 2];
    body.extend_from_slice(&[1, 2, 3, 4, 5, 6, 7, 8, 9, 10]);
    body.extend_from_slice(&[2, 2, 2, 2, 2, 2, 77, 1]);
    body.extend_from_slice(&[4, 4, 4, 4, 4, 4, 11, 0, 0, 0, 0, 0, 0, 120, 130]);
    body.extend_from_slice(&[7, 6, 5, 4, 3, 2, 1, 0, 0, 2]);
    body.extend_from_slice(&[6, 6, 6, 6, 6, 6, 78, 3]);
    body.extend_from_slice(&[8; 14]);
    let nets = qualcomm::parse_nw_info_cnf(&hpav(VS_NW_INFO_CNF, &body)).unwrap();
    assert_eq!(nets.len(), 2);
    assert_eq!(nets[0].nid, [1, 2, 3, 4, 5, 6, 7]);
    assert_eq!((nets[0].snid, nets[0].tei, nets[0].role), (8, 9, 10));
    assert_eq!(nets[0].cco_mac, MacAddr([2; 6]));
    assert_eq!(nets[0].stations.len(), 1);
    let s = nets[0].stations[0];
    assert_eq!((s.mac, s.tei, s.avg_tx_mbps, s.avg_rx_mbps), (MacAddr([4; 6]), 11, 120, 130));
    assert_eq!(nets[1].cco_mac, MacAddr([6; 6]));
    assert!(nets[1].stations.is_empty());
}

#[test]
fn qca_networks_stop_at_the_end_of_the_frame() {
    assert!(qualcomm::parse_nw_info_cnf(&hpav(VS_NW_INFO_CNF, &[0, 0xB0, 0x52])).unwrap().is_empty());
    let mut body = vec![0x00, 0xB0, 0x52, 1];
    body.extend_from_slice(&[0; 17]);
    assert!(qualcomm::parse_nw_info_cnf(&hpav(VS_NW_INFO_CNF, &body)).unwrap().is_empty());
    body.push(0);
    assert_eq!(qualcomm::parse_nw_info_cnf(&hpav(VS_NW_INFO_CNF, &body)).unwrap().len(), 1);
    assert!(qualcomm::parse_nw_info_cnf(&hpav(VS_NW_INFO_REQ, &body)).is_none());
}
