//! Descriptor blocks, data phases and responses of the SCSI commands.

use nkscan::scsi::cdbs::{
    CompressionType, DataTypeCode, GetWindow, ImageCompositionCode, Inquiry, ModeSelect,
    PaddingType, Read, ReleaseUnit, ReserveUnit, Scan, SendDiagnostic, SetWindow, TestUnitReady,
    VendorC1, VendorE0, VendorE1, VpdInquiry, Write,
};
use nkscan::scsi::{Command, CommandData, Error};

#[test]
fn read_cdb_encodes_opcode_lun_and_dtc() {
    let read = Read::new(2, DataTypeCode::HalftoneMask, 0, 0, 0x00);
    let cdb = read.cdb().0;
    assert_eq!(cdb[0], 0x28);
    assert_eq!(cdb[1], 2 << 5);
    assert_eq!(cdb[2], 0x02);
    assert_eq!(cdb[3], 0x00);
}

#[test]
fn read_cdb_encodes_dtq_big_endian() {
    let read = Read::new(0, DataTypeCode::Image, 0x1234, 0, 0x00);
    let cdb = read.cdb().0;
    assert_eq!(cdb[4], 0x12);
    assert_eq!(cdb[5], 0x34);
}

#[test]
fn read_cdb_encodes_transfer_length_as_big_endian_u24() {
    let read = Read::new(0, DataTypeCode::Image, 0, 0x01_2345, 0x00);
    let cdb = read.cdb().0;
    assert_eq!(cdb[6], 0x01);
    assert_eq!(cdb[7], 0x23);
    assert_eq!(cdb[8], 0x45);
}

#[test]
fn read_cdb_encodes_control_byte_verbatim() {
    let read = Read::new(0, DataTypeCode::Image, 0, 0, 0x80);
    assert_eq!(read.cdb().0[9], 0x80);
}

#[test]
fn cdb_matches_real_capture() {
    // Real capture of the LS-9000 driver's own image READ: lun=0,
    // dtc=Image, dtq=0x0000, transfer_length=0x0C471C (804636 bytes),
    // control=0x80 (vendor-specific bit set, not spec's 0x00).
    let read = Read::new(0, DataTypeCode::Image, 0x0000, 804_636, 0x80);
    assert_eq!(
        read.cdb().0,
        [0x28, 0x00, 0x00, 0x00, 0x00, 0x00, 0x0C, 0x47, 0x1C, 0x80]
    );
}

#[test]
fn data_is_read_with_transfer_length() {
    let read = Read::new(0, DataTypeCode::Image, 0, 512, 0x00);
    assert!(matches!(read.data(), CommandData::Read(512)));
}

#[test]
fn decode_returns_owned_copy_of_data() {
    let data = [0xAA, 0xBB, 0xCC];
    let response = Read::new(0, DataTypeCode::Image, 0, 3, 0x00)
        .decode(&data)
        .unwrap();
    assert_eq!(response, vec![0xAA, 0xBB, 0xCC]);
}

#[test]
fn cdb_transfer_length_is_channel_count() {
    // RGB preview pass: three channels.
    let cdb = Scan::new(vec![0x01, 0x02, 0x03]).cdb().0;
    assert_eq!(cdb, [0x1B, 0x00, 0x00, 0x00, 0x03, 0x00]);
}

#[test]
fn cdb_matches_calibration_pass_capture() {
    // Cal pass prepends the IR channel: 09 01 02 03 -> length 4.
    let cdb = Scan::new(vec![0x09, 0x01, 0x02, 0x03]).cdb().0;
    assert_eq!(cdb, [0x1B, 0x00, 0x00, 0x00, 0x04, 0x00]);
}

#[test]
fn data_is_write_of_channels() {
    let scan = Scan::new(vec![0x01, 0x02, 0x03]);
    assert!(matches!(
        scan.data(),
        CommandData::Write(&[0x01, 0x02, 0x03])
    ));
}

#[test]
fn cdb_sets_selftest_bit() {
    assert_eq!(
        SendDiagnostic::new().cdb().0,
        [0x1D, 0x04, 0x00, 0x00, 0x00, 0x00]
    );
}

#[test]
fn has_no_data_phase() {
    assert!(matches!(SendDiagnostic::new().data(), CommandData::NoData));
}

#[test]
fn set_window_cdb_encodes_transfer_length_as_big_endian_u24() {
    let cdb = SetWindow::new(vec![0u8; 0x01_2345]).cdb().0;
    assert_eq!(cdb[6], 0x01);
    assert_eq!(cdb[7], 0x23);
    assert_eq!(cdb[8], 0x45);
}

#[test]
fn cdb_matches_real_preview_capture() {
    // A preview SET WINDOW carries a 58-byte payload (0x3A); control 0x80.
    let cdb = SetWindow::new(vec![0u8; 58]).cdb().0;
    assert_eq!(
        cdb,
        [0x24, 0x00, 0x00, 0x00, 0x00, 0x00, 0x00, 0x00, 0x3A, 0x80]
    );
}

#[test]
fn set_window_data_is_write_of_the_payload() {
    let payload = vec![0xAA, 0xBB, 0xCC];
    let sw = SetWindow::new(payload.clone());
    assert!(matches!(sw.data(), CommandData::Write(p) if p == payload));
}

#[test]
fn cdb_is_opcode_only() {
    assert_eq!(
        VendorC1::new().cdb().0,
        [0xC1, 0x00, 0x00, 0x00, 0x00, 0x00]
    );
}

#[test]
fn vendor_e0_cdb_sets_sub_command_and_length() {
    // CCD-setup preheat: sub 0xA0, 9-byte payload.
    let cdb = VendorE0::new(0xA0, vec![0u8; 9]).cdb().0;
    assert_eq!(
        cdb,
        [0xE0, 0x00, 0xA0, 0x00, 0x00, 0x00, 0x00, 0x00, 0x09, 0x00]
    );
}

#[test]
fn trigger_sub_command_has_zero_length() {
    // Lamp on/off (sub 0x80) carries no payload.
    let cdb = VendorE0::new(0x80, vec![]).cdb().0;
    assert_eq!(cdb[2], 0x80);
    assert_eq!([cdb[6], cdb[7], cdb[8]], [0, 0, 0]);
}

#[test]
fn eject_uses_e0_d0_command() {
    // E0 sub 0xD0 + 13 zero bytes (then C1). The load sub 0xD1 is rejected
    // 05/24 on this unit, so only eject has a working E0 form.
    let cmd = VendorE0::new(0xD0, vec![0u8; 13]);
    assert_eq!(
        cmd.cdb().0,
        [0xE0, 0x00, 0xD0, 0x00, 0x00, 0x00, 0x00, 0x00, 0x0D, 0x00]
    );
    assert!(matches!(cmd.data(), CommandData::Write(p) if p == [0u8; 13]));
}

#[test]
fn vendor_e1_cdb_sets_sub_command_and_length() {
    // Exposure readback: sub 0x45, 13-byte allocation (the firmware max).
    let cdb = VendorE1::new(0x45, 13).cdb().0;
    assert_eq!(
        cdb,
        [0xE1, 0x00, 0x45, 0x00, 0x00, 0x00, 0x00, 0x00, 0x0D, 0x00]
    );
}

#[test]
fn data_is_read_of_allocation_length() {
    assert!(matches!(
        VendorE1::new(0xA0, 9).data(),
        CommandData::Read(9)
    ));
}

#[test]
fn write_cdb_encodes_opcode_lun_and_dtc() {
    let write = Write::new(2, DataTypeCode::HalftoneMask, 0, vec![], 0x00);
    let cdb = write.cdb().0;
    assert_eq!(cdb[0], 0x2A);
    assert_eq!(cdb[1], 2 << 5);
    assert_eq!(cdb[2], 0x02);
    assert_eq!(cdb[3], 0x00);
}

#[test]
fn write_cdb_encodes_dtq_big_endian() {
    let cdb = Write::new(0, DataTypeCode::GammaFunction, 0x1234, vec![], 0x00)
        .cdb()
        .0;
    assert_eq!(cdb[4], 0x12);
    assert_eq!(cdb[5], 0x34);
}

#[test]
fn cdb_transfer_length_is_payload_len_big_endian_u24() {
    let cdb = Write::new(
        0,
        DataTypeCode::GammaFunction,
        0,
        vec![0u8; 0x01_2345],
        0x00,
    )
    .cdb()
    .0;
    assert_eq!(cdb[6], 0x01);
    assert_eq!(cdb[7], 0x23);
    assert_eq!(cdb[8], 0x45);
}

#[test]
fn write_cdb_encodes_control_byte_verbatim() {
    let cdb = Write::new(0, DataTypeCode::GammaFunction, 0, vec![], 0x80)
        .cdb()
        .0;
    assert_eq!(cdb[9], 0x80);
}

#[test]
fn cdb_matches_gamma_lut_capture() {
    // RE 002-preview exchange #15: 32 KB gamma LUT for channel R, DTQ 0x0101
    // (CDB[4]=channel 01, CDB[5]=0x01 constant), control 0x00.
    let cdb = Write::new(
        0,
        DataTypeCode::GammaFunction,
        0x0101,
        vec![0u8; 32768],
        0x00,
    )
    .cdb()
    .0;
    assert_eq!(
        cdb,
        [0x2A, 0x00, 0x03, 0x00, 0x01, 0x01, 0x00, 0x80, 0x00, 0x00]
    );
}

#[test]
fn write_data_is_write_of_the_payload() {
    let payload = vec![0xAA, 0xBB, 0xCC];
    let w = Write::new(0, DataTypeCode::GammaFunction, 0, payload.clone(), 0x00);
    assert!(matches!(w.data(), CommandData::Write(p) if p == payload));
}

#[test]
fn data_type_codes_have_their_bytes() {
    let dtc = |code: DataTypeCode| Read::new(0, code, 0, 0, 0).cdb().0[2];
    assert_eq!(dtc(DataTypeCode::Image), 0x00);
    assert_eq!(dtc(DataTypeCode::HalftoneMask), 0x02);
    assert_eq!(dtc(DataTypeCode::GammaFunction), 0x03);
    assert_eq!(dtc(DataTypeCode::Vendor(0x88)), 0x88);
}

#[test]
fn lun_is_three_bits() {
    assert_eq!(Read::new(9, DataTypeCode::Image, 0, 0, 0).cdb().0[1], 0x20);
    assert_eq!(GetWindow::new(7, true, 0, 58, 0).cdb().0[1], 0xE1);
}

#[test]
fn write_response_is_empty() {
    let w = Write::new(0, DataTypeCode::Image, 0, vec![1], 0);
    assert!(w.decode(&[1]).is_ok());
}

#[test]
fn unit_commands_have_no_data() {
    assert_eq!(TestUnitReady::new().cdb().0, [0, 0, 0, 0, 0, 0]);
    assert!(matches!(TestUnitReady::new().data(), CommandData::NoData));
    assert_eq!(ReserveUnit::default().cdb().0, [0x16, 0, 0, 0, 0, 0]);
    assert_eq!(ReleaseUnit::default().cdb().0, [0x17, 0, 0, 0, 0, 0]);
    assert_eq!(ReserveUnit::new(1, Some(3), 0x80).cdb().0, [0x16, 0x36, 0, 0, 0, 0x80]);
    assert_eq!(ReleaseUnit::new(1, Some(3), 0x80).cdb().0, [0x17, 0x36, 0, 0, 0, 0x80]);
    assert!(matches!(ReserveUnit::default().data(), CommandData::NoData));
    assert!(matches!(ReleaseUnit::default().data(), CommandData::NoData));
}

#[test]
fn mode_select_sends_its_pages() {
    let cmd = ModeSelect::new(0, true, false, vec![7u8; 20], 0x00);
    assert_eq!(cmd.cdb().0, [0x15, 0x10, 0x00, 0x00, 0x14, 0x00]);
    assert!(matches!(cmd.data(), CommandData::Write(p) if p == [7u8; 20]));
    assert_eq!(ModeSelect::new(1, false, true, vec![], 0).cdb().0[1], 0x21);
}

#[test]
fn inquiry_reads_padded_fields() {
    let cmd = Inquiry::new();
    assert_eq!(cmd.cdb().0, [0x12, 0x00, 0x00, 0x00, 36, 0x00]);
    assert!(matches!(cmd.data(), CommandData::Read(36)));
    let mut data = vec![0u8; 36];
    data[8..16].copy_from_slice(b"Nikon   ");
    data[16..32].copy_from_slice(b"LS-50 ED        ");
    data[32..36].copy_from_slice(b"1.02");
    let identity = cmd.decode(&data).unwrap();
    assert_eq!(identity.vendor, "Nikon");
    assert_eq!(identity.product, "LS-50 ED");
    assert_eq!(identity.revision, "1.02");
}

#[test]
fn short_inquiry_is_invalid() {
    assert!(matches!(
        Inquiry::new().decode(&[0u8; 35]),
        Err(Error::InvalidResponse(_))
    ));
}

#[test]
fn vpd_page_loses_its_header() {
    let cmd = VpdInquiry::new(0xC1, 87);
    assert_eq!(cmd.cdb().0, [0x12, 0x01, 0xC1, 0x00, 87, 0x00]);
    assert!(matches!(cmd.data(), CommandData::Read(87)));
    let page = cmd.decode(&[0x06, 0xC1, 0x00, 0x02, 0xAA, 0xBB, 0xCC]).unwrap();
    assert_eq!(page.page_code, 0xC1);
    assert_eq!(page.data, vec![0xAA, 0xBB]);
    // A page longer than what came is as long as what came.
    let cut = cmd.decode(&[0x06, 0xC1, 0x00, 0x09, 0xAA]).unwrap();
    assert_eq!(cut.data, vec![0xAA]);
    assert!(matches!(cmd.decode(&[0, 0, 0]), Err(Error::InvalidResponse(_))));
}

#[test]
fn get_window_cdb_selects_one_window() {
    let cmd = GetWindow::new(0, true, 0x02, 58, 0x00);
    assert_eq!(cmd.cdb().0, [0x25, 0x01, 0, 0, 0, 0x02, 0x00, 0x00, 0x3A, 0x00]);
    let all = GetWindow::new(0, false, 0, 58, 0x00);
    assert_eq!(all.cdb().0, [0x25, 0x00, 0, 0, 0, 0x00, 0x00, 0x00, 0x3A, 0x00]);
    assert!(matches!(all.data(), CommandData::Read(58)));
}

/// A GET WINDOW response with one descriptor whose fields are all different.
fn window_response() -> Vec<u8> {
    let mut data = vec![0u8; 58];
    data[6..8].copy_from_slice(&50u16.to_be_bytes());
    let d = &mut data[8..];
    d[0] = 0x02;
    d[1] = 0x01;
    d[2..4].copy_from_slice(&307u16.to_be_bytes());
    d[4..6].copy_from_slice(&308u16.to_be_bytes());
    d[6..10].copy_from_slice(&1u32.to_be_bytes());
    d[10..14].copy_from_slice(&5984u32.to_be_bytes());
    d[14..18].copy_from_slice(&3939u32.to_be_bytes());
    d[18..22].copy_from_slice(&5954u32.to_be_bytes());
    d[22] = 11;
    d[23] = 12;
    d[24] = 13;
    d[25] = 0x05;
    d[26] = 14;
    d[27..29].copy_from_slice(&0x1516u16.to_be_bytes());
    d[29] = 0x80;
    d[30..32].copy_from_slice(&0x1718u16.to_be_bytes());
    d[32] = 0x00;
    d[33] = 19;
    d[40..50].copy_from_slice(&[1, 2, 3, 4, 5, 6, 7, 8, 9, 10]);
    data
}

#[test]
fn get_window_decodes_every_field() {
    let cmd = GetWindow::new(0, false, 0, 58, 0x00);
    let descriptors = cmd.decode(&window_response()).unwrap();
    assert_eq!(descriptors.len(), 1);
    let d = &descriptors[0];
    assert_eq!(d.id, 0x02);
    assert!(d.auto);
    assert_eq!((d.x_resolution, d.y_resolution), (307, 308));
    assert_eq!((d.x_upper_left, d.y_upper_left), (1, 5984));
    assert_eq!((d.width, d.length), (3939, 5954));
    assert_eq!((d.brightness, d.threshold, d.contrast), (11, 12, 13));
    assert_eq!(d.composition, ImageCompositionCode::from_byte(0x05));
    assert_eq!(d.bits_per_pixel, 14);
    assert_eq!(d.halftone_pattern, 0x1516);
    assert!(d.rif);
    assert_eq!(d.padding, PaddingType::from_byte(0x80));
    assert_eq!(d.bit_ordering, 0x1718);
    assert_eq!(d.compression, CompressionType::from_byte(0x00));
    assert_eq!(d.compression_arg, 19);
    assert_eq!(d.vendor, vec![1, 2, 3, 4, 5, 6, 7, 8, 9, 10]);
}

#[test]
fn get_window_drops_a_partial_descriptor() {
    let mut data = window_response();
    data.extend_from_slice(&[0u8; 49]);
    let cmd = GetWindow::new(0, false, 0, 107, 0x00);
    assert_eq!(cmd.decode(&data).unwrap().len(), 1);
    data.push(0);
    assert_eq!(cmd.decode(&data).unwrap().len(), 2);
}

#[test]
fn get_window_refuses_short_responses() {
    let cmd = GetWindow::new(0, false, 0, 58, 0x00);
    assert!(matches!(cmd.decode(&[0u8; 7]), Err(Error::InvalidResponse(_))));
    let mut data = window_response();
    data[6..8].copy_from_slice(&39u16.to_be_bytes());
    assert!(matches!(cmd.decode(&data), Err(Error::InvalidResponse(_))));
}

#[test]
fn window_codes_round_trip() {
    for b in 0..=255u8 {
        assert_eq!(ImageCompositionCode::from_byte(b).to_byte(), b);
        assert_eq!(CompressionType::from_byte(b).to_byte(), b);
    }
}
