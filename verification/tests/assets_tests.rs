use canary::assets::{extract_assets, AssetType};
use canary::linear_sweep::SectionData;

#[test]
fn test_asset_detection() {
    // Raw bytes that do not load as an executable: the flat PNG sweep runs.
    let bytes = vec![
        0, 0, 0, 0, 0x89, 0x50, 0x4E, 0x47, 0x0D, 0x0A, 0x1A, 0x0A, 0x00, 0x00, 0x00, 0x00, 0x49,
        0x45, 0x4E, 0x44, 0x00, 0x00, 0x00, 0x00,
    ];
    let assets = extract_assets(None, &bytes);
    assert_eq!(assets.len(), 1);
    let asset = &assets[0];
    assert_eq!(asset.detected_type, AssetType::Png);
    assert_eq!(asset.address, 4);
    assert_eq!(asset.size, 20);
    assert_eq!(asset.path, "assets/img_4.png");
    assert_eq!(asset.bytes, bytes[4..24].to_vec());
}

fn section(start: u64, data: Vec<u8>) -> SectionData {
    SectionData { name: ".rdata".to_string(), executable: false, start, data }
}

#[test]
fn sections_are_swept_for_every_kind() {
    let mut data = vec![0u8; 4];
    // JPEG at offset 4: FF D8 FF .. FF D9
    data.extend_from_slice(&[0xFF, 0xD8, 0xFF, 0xE0, 0x11, 0xFF, 0xD9]);
    // WAV at offset 11: RIFF, chunk size 4, WAVE
    data.extend_from_slice(b"RIFF");
    data.extend_from_slice(&[4, 0, 0, 0]);
    data.extend_from_slice(b"WAVE");
    // Lua at offset 23, ended by sixteen zero bytes at offset 29
    data.extend_from_slice(&[0x1B, 0x4C, 0x75, 0x61, 0x51, 0x01]);
    data.extend_from_slice(&[0u8; 16]);
    data.extend_from_slice(&[0u8; 8]);
    let assets = extract_assets(Some(&[section(0x140001000, data.clone())]), &vec![]);
    let kinds: Vec<AssetType> = assets.iter().map(|a| a.detected_type).collect();
    assert_eq!(kinds, vec![AssetType::Jpeg, AssetType::Wav, AssetType::Lua]);
    assert_eq!(assets[0].address, 0x140001004);
    assert_eq!(assets[0].size, 7);
    assert_eq!(assets[0].path, "assets/img_140001004.jpg");
    assert_eq!(assets[1].address, 0x14000100b);
    assert_eq!(assets[1].size, 12);
    assert_eq!(assets[1].path, "assets/audio_14000100b.wav");
    assert_eq!(assets[1].bytes, data[11..23].to_vec());
    assert_eq!(assets[2].address, 0x140001017);
    assert_eq!(assets[2].size, 6);
    assert_eq!(assets[2].path, "assets/script_140001017.luac");
}

#[test]
fn png_without_end_marker_is_not_carved() {
    let bytes = vec![0x89, 0x50, 0x4E, 0x47, 0x0D, 0x0A, 0x1A, 0x0A, 0, 0, 0, 0, 0, 0];
    assert!(extract_assets(None, &bytes).is_empty());
    assert!(extract_assets(Some(&[section(0x1000, bytes.clone())]), &vec![]).is_empty());
}

#[test]
fn flat_sweep_ignores_other_kinds() {
    let bytes = vec![0xFF, 0xD8, 0xFF, 0x00, 0xFF, 0xD9, 0, 0, 0, 0];
    assert!(extract_assets(None, &bytes).is_empty());
    assert_eq!(extract_assets(Some(&[section(0, bytes)]), &vec![]).len(), 1);
}

#[test]
fn wav_longer_than_section_is_skipped() {
    let mut data = b"RIFF".to_vec();
    data.extend_from_slice(&[0xFF, 0, 0, 0]);
    data.extend_from_slice(b"WAVE");
    data.extend_from_slice(&[0u8; 20]);
    assert!(extract_assets(Some(&[section(0, data)]), &vec![]).is_empty());
}
