use psx::cdrom::{parse_color_palette, CdRom, Sector, SECTOR_SIZE};

fn image(sectors: usize) -> Vec<u8> {
    vec![0u8; sectors * SECTOR_SIZE]
}

#[test]
fn sector_new_is_zeroed() {
    let s = Sector::new();
    assert!(s.header.iter().all(|b| *b == 0));
    assert!(s.data.iter().all(|b| *b == 0));
    assert!(s.ecc.iter().all(|b| *b == 0));
}

#[test]
fn splits_image_into_sectors_and_drops_partial_tail() {
    let mut bytes = image(3);
    bytes[SECTOR_SIZE + 24] = 0xAB;
    bytes.extend_from_slice(&[1, 2, 3]);
    let cd = CdRom::from_bytes(&bytes);
    assert_eq!(cd.sector_count(), 3);
}

#[test]
fn system_identifier_strings() {
    let mut bytes = image(17);
    let base = 16 * SECTOR_SIZE + 24;
    bytes[base + 8..base + 14].copy_from_slice(b"TEKKEN");
    bytes[base + 286..base + 291].copy_from_slice(b"NAMCO");
    bytes[base + 414..base + 424].copy_from_slice(b"SONY\0 X\0\0\0");
    bytes[base + 542..base + 562].copy_from_slice(b"PLAYSTATION         ");
    let cd = CdRom::from_bytes(&bytes);
    assert_eq!(cd.get_title().unwrap(), "TEKKEN");
    assert_eq!(cd.get_developer().unwrap(), "NAMCO");
    assert_eq!(cd.get_publisher().unwrap(), "SONY\0 X");
    assert_eq!(cd.get_platform().unwrap(), "PLAYSTATION         ");
}

#[test]
fn ecc_check_names_first_bad_sector() {
    let mut bytes = image(5);
    let cd = CdRom::from_bytes(&bytes);
    assert_eq!(cd.check_ecc(), Ok(true));
    bytes[3 * SECTOR_SIZE + 2072 + 10] = 2;
    bytes[3 * SECTOR_SIZE + 2072 + 11] = 3;
    bytes[4 * SECTOR_SIZE + 2072] = 1;
    let cd = CdRom::from_bytes(&bytes);
    assert_eq!(cd.check_ecc(), Err("Sector 3 has ECC: 5".to_string()));
}

#[test]
fn palette_entries_are_big_endian_555() {
    let colors = parse_color_palette(&[0x7C, 0x00, 0x03, 0xE0, 0x00, 0x1F, 0xFF, 0xFF]);
    assert_eq!(colors, vec![[248, 0, 0], [0, 248, 0], [0, 0, 248], [248, 248, 248]]);
}

#[test]
fn finds_and_reads_tim_images() {
    let mut bytes = image(2);
    let data = SECTOR_SIZE + 24;
    let j = 100;
    bytes[data + j..data + j + 4].copy_from_slice(b"TIM1");
    // 2 x 1 pixels, palette of 2 colours at offset 20, pixels at offset 24.
    bytes[data + j + 4..data + j + 8].copy_from_slice(&[0, 2, 0, 1]);
    bytes[data + j + 8..data + j + 20].copy_from_slice(&[0, 0, 0, 20, 0, 0, 0, 4, 0, 0, 0, 24]);
    bytes[data + j + 20..data + j + 24].copy_from_slice(&[0x7C, 0x00, 0x00, 0x1F]);
    bytes[data + j + 24..data + j + 26].copy_from_slice(&[1, 0]);
    let cd = CdRom::from_bytes(&bytes);
    assert_eq!(cd.find_tim_images(), vec![(1, 100)]);
    let img = cd.parse_tim_image(1, 100).unwrap();
    assert_eq!((img.width, img.height), (2, 1));
    assert_eq!(img.pixels, vec![0, 0, 248, 248, 0, 0]);
    // A pixel beyond the palette.
    bytes[data + j + 24] = 2;
    let cd = CdRom::from_bytes(&bytes);
    assert!(cd.parse_tim_image(1, 100).is_none());
    // No header room, or no such sector.
    assert!(cd.parse_tim_image(1, 2040).is_none());
    assert!(cd.parse_tim_image(5, 0).is_none());
}
