use neewer_control::protocol::{
    build_packet, byte_to_kelvin, cct_command, checksum, kelvin_to_byte, parse_status,
};

#[test]
fn test_checksum() {
    // 3A 02 03 01 64 09 → sum = 0x00AD
    let cs = checksum(&[0x3A, 0x02, 0x03, 0x01, 0x64, 0x09]);
    assert_eq!(cs, [0x00, 0xAD]);
}

#[test]
fn test_cct_command() {
    let cmd = cct_command(100, 7000);
    // brightness=100=0x64, temp=0x12 for 7000K
    assert_eq!(&cmd[..6], &[0x3A, 0x02, 0x03, 0x01, 0x64, 0x12]);
    assert_eq!(cmd.len(), 8);
}

#[test]
fn test_kelvin_roundtrip() {
    assert_eq!(kelvin_to_byte(2900), 0);
    assert_eq!(kelvin_to_byte(7000), 18);
    assert_eq!(byte_to_kelvin(0), 2900);
    assert_eq!(byte_to_kelvin(18), 7000);
    // midpoint
    assert_eq!(kelvin_to_byte(4950), 9);
}

#[test]
fn test_parse_status() {
    let pkt = cct_command(50, 4950);
    let (bri, temp) = parse_status(&pkt).unwrap();
    assert_eq!(bri, 50);
    assert_eq!(temp, 9);
}

#[test]
fn checksum_wraps_at_sixteen_bits() {
    let data = vec![0xFFu8; 258];
    // 258 * 255 = 65790 = 0x100FE
    assert_eq!(checksum(&data), [0x00, 0xFE]);
}

#[test]
fn checksum_is_big_endian() {
    assert_eq!(checksum(&[0xFF, 0xFF, 0x02]), [0x02, 0x00]);
    assert_eq!(checksum(&[]), [0x00, 0x00]);
}

#[test]
fn build_packet_appends_checksum() {
    assert_eq!(build_packet(&[0x3A, 0x01, 0x02]), vec![0x3A, 0x01, 0x02, 0x00, 0x3D]);
    assert_eq!(build_packet(&[]), vec![0x00, 0x00]);
}

#[test]
fn cct_command_full_bytes() {
    let cmd = cct_command(100, 7000);
    assert_eq!(cmd, vec![0x3A, 0x02, 0x03, 0x01, 0x64, 0x12, 0x00, 0xB6]);
}

#[test]
fn cct_command_caps_brightness() {
    let cmd = cct_command(250, 2900);
    assert_eq!(cmd[4], 100);
    assert_eq!(cmd[5], 0);
    assert_eq!(cmd.len(), 8);
    assert_eq!(cmd, cct_command(100, 2900));
}

#[test]
fn kelvin_to_byte_clamps() {
    assert_eq!(kelvin_to_byte(0), 0);
    assert_eq!(kelvin_to_byte(2899), 0);
    assert_eq!(kelvin_to_byte(7001), 18);
    assert_eq!(kelvin_to_byte(u32::MAX), 18);
}

#[test]
fn kelvin_to_byte_rounds_to_nearest() {
    // one step is 4100 / 18 = 227.78 K; half a step is 113.89 K
    assert_eq!(kelvin_to_byte(3013), 0);
    assert_eq!(kelvin_to_byte(3014), 1);
    assert_eq!(kelvin_to_byte(3128), 1);
    assert_eq!(kelvin_to_byte(6886), 17);
    assert_eq!(kelvin_to_byte(6887), 18);
}

#[test]
fn byte_to_kelvin_values() {
    assert_eq!(byte_to_kelvin(1), 3128);
    assert_eq!(byte_to_kelvin(9), 4950);
    assert_eq!(byte_to_kelvin(17), 6772);
    assert_eq!(byte_to_kelvin(19), 7000);
    assert_eq!(byte_to_kelvin(255), 7000);
}

#[test]
fn every_step_round_trips() {
    for b in 0u8..=18 {
        assert_eq!(kelvin_to_byte(byte_to_kelvin(b)), b);
    }
}

#[test]
fn kelvin_round_trip_within_one_step() {
    for k in (2900u32..=7000).step_by(7) {
        let back = byte_to_kelvin(kelvin_to_byte(k)) as i64;
        assert!((back - k as i64).abs() <= 228);
    }
    assert_eq!(byte_to_kelvin(kelvin_to_byte(3000)), 2900);
}

#[test]
fn kelvin_to_byte_monotonic() {
    let mut last = 0u8;
    for k in 2000u32..8000 {
        let b = kelvin_to_byte(k);
        assert!(b >= last);
        last = b;
    }
}

#[test]
fn parse_status_reads_any_cct_command() {
    for bri in [0u8, 1, 50, 100, 101, 255] {
        for k in [0u32, 2900, 4000, 4950, 7000, 9000] {
            let cmd = cct_command(bri, k);
            assert_eq!(parse_status(&cmd), Some((bri.min(100), kelvin_to_byte(k))));
        }
    }
}

#[test]
fn parse_status_rejects_short_input() {
    let cmd = cct_command(50, 4950);
    assert_eq!(parse_status(&cmd[..7]), None);
    assert_eq!(parse_status(&[]), None);
}

#[test]
fn parse_status_rejects_bad_header() {
    let mut cmd = cct_command(50, 4950);
    cmd[0] = 0x3B;
    assert_eq!(parse_status(&cmd), None);
    let mut other = cct_command(50, 4950);
    other[1] = 0x03;
    assert_eq!(parse_status(&other), None);
}

#[test]
fn parse_status_rejects_bad_checksum() {
    let mut cmd = cct_command(50, 4950);
    cmd[7] = cmd[7].wrapping_add(1);
    assert_eq!(parse_status(&cmd), None);
    let mut hi = cct_command(50, 4950);
    hi[6] = hi[6].wrapping_add(1);
    assert_eq!(parse_status(&hi), None);
}

#[test]
fn parse_status_ignores_trailing_bytes() {
    let mut cmd = cct_command(30, 3500);
    cmd.extend_from_slice(&[0x01, 0x02, 0x03]);
    assert_eq!(parse_status(&cmd), Some((30, kelvin_to_byte(3500))));
}
