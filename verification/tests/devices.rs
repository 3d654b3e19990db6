use buitenzorg::audio;
use buitenzorg::pci;
use buitenzorg::rtc;

#[test]
fn rtc_decodes_bcd_and_binary() {
    // 23:59:58 on 2026-05-17 in BCD, 24-hour mode, century register 0x20.
    let raw = (0x58u8, 0x59u8, 0x23u8, 0x17u8, 0x05u8, 0x26u8, 0x20u8, 0x02u8);
    assert_eq!(rtc::decode(raw), (2026, 5, 17, 23, 59, 58));
    // Binary mode (status B bit 2), 12-hour mode with the PM bit: 1 PM.
    let raw = (5u8, 30u8, 0x81u8, 1u8, 12u8, 99u8, 0u8, 0x04u8);
    assert_eq!(rtc::decode(raw), (2099, 12, 1, 13, 30, 5));
    assert_eq!(rtc::read_hm((2026, 5, 17, 23, 59, 58)), (23, 59));
}

#[test]
fn pci_addresses_and_probes() {
    assert_eq!(pci::config_address(0, 3, 0, 0x08), 0x8000_1808);
    assert_eq!(pci::config_address(1, 0, 2, 0x0F), 0x8001_020C);
    assert!(pci::probe(0, 0, 0, 0xFFFF_FFFF, 0).is_none());
    let d = pci::probe(0, 3, 0, 0x100E_8086, 0x0200_0000).unwrap();
    assert_eq!((d.vendor_id, d.device_id, d.class, d.subclass), (0x8086, 0x100E, 0x02, 0x00));
    assert!(pci::is_multifunction(0x0080_0000));
    assert!(!pci::is_multifunction(0x0000_0000));
}

#[test]
fn ac97_volume_encoding() {
    assert_eq!(audio::vol_encode(0, false), 0x8000);
    assert_eq!(audio::vol_encode(80, true), 0x8000);
    assert_eq!(audio::vol_encode(100, false), 0x0000);
    assert_eq!(audio::vol_encode(50, false), 0x1F1F);
    assert_eq!(audio::vol_encode(1, false), 0x3E3E);
}

#[test]
fn sine_stays_in_range() {
    assert_eq!(audio::sine_fx(0), 0);
    assert_eq!(audio::sine_fx(0x4000), 6144);
    for p in (0u32..0x10000).step_by(997) {
        let s = audio::sine_fx(p);
        assert!((-8192..=8192).contains(&(s as i32)));
    }
}

#[test]
fn rtc_twelve_hour_midnight_and_noon() {
    // 12-hour BCD: register 12 without PM is midnight, with PM is noon.
    let am = (0x00u8, 0x00u8, 0x12u8, 0x01u8, 0x01u8, 0x26u8, 0x20u8, 0x00u8);
    assert_eq!(rtc::decode(am), (2026, 1, 1, 0, 0, 0));
    let pm = (0x00u8, 0x00u8, 0x92u8, 0x01u8, 0x01u8, 0x26u8, 0x20u8, 0x00u8);
    assert_eq!(rtc::decode(pm), (2026, 1, 1, 12, 0, 0));
}

#[test]
fn ac97_is_found_and_brought_up() {
    let nic = pci::PciDevice { bus: 0, slot: 3, function: 0, vendor_id: 0x8086, device_id: 0x100e, class: 0x02, subclass: 0x00, prog_if: 0 };
    let snd = pci::PciDevice { bus: 0, slot: 4, function: 0, vendor_id: 0x8086, device_id: 0x2415, class: 0x04, subclass: 0x01, prog_if: 0 };
    assert!(!audio::is_ac97(&nic));
    assert!(audio::is_ac97(&snd));
    assert_eq!(audio::find_ac97(&vec![nic, snd]), Some(1));
    assert_eq!(audio::find_ac97(&vec![nic]), None);
    assert!(audio::bring_up(0, 0x1100, 0, 0x0808).is_none());
    let a = audio::bring_up(0x1000, 0x1100, 0x6a90, 0x0808).unwrap();
    assert_eq!((a.volume, a.muted, a.mixer_ok, a.reset_caps), (80, false, true, 0x6a90));
    assert!(!audio::bring_up(0x1000, 0x1100, 0, 0x0000).unwrap().mixer_ok);
}
