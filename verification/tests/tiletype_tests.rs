use utiles::libtiletype::{
    const2enum, enum2const, headers, tiletype, tiletype_overruns, tiletype_str, TileType, TILETYPE_GIF,
    TILETYPE_PNG, TILETYPE_UNKNOWN, TILETYPE_WEBP,
};

fn png() -> Vec<u8> {
    vec![0x89, 0x50, 0x4e, 0x47, 0x0d, 0x0a, 0x1a, 0x0a, 0, 0, 0, 0]
}

#[test]
fn sniff_formats() {
    assert_eq!(tiletype(&png()), TileType::Png);
    assert_eq!(tiletype(&[0xff, 0xd8, 1, 2, 3, 4, 0xff, 0xd9]), TileType::Jpg);
    assert_eq!(tiletype(b"GIF89a\x01\x00"), TileType::Gif);
    assert_eq!(tiletype(b"GIF87a\x01\x00"), TileType::Gif);
    assert_eq!(tiletype(b"RIFF\x00\x00\x00\x00WEBPVP8 "), TileType::Webp);
    assert_eq!(tiletype(&[0x78, 0x9c, 0, 0, 0, 0, 0, 0]), TileType::Pbf);
    assert_eq!(tiletype(&[0x1f, 0x8b, 0, 0, 0, 0, 0, 0]), TileType::Pbfgz);
    assert_eq!(tiletype(b"hello, world"), TileType::Unknown);
    // too short to sniff
    assert_eq!(tiletype(&[0x1f, 0x8b, 0]), TileType::Unknown);
    assert_eq!(tiletype(&[]), TileType::Unknown);
}

#[test]
fn format_names() {
    assert_eq!(tiletype_str(&png()), "png");
    assert_eq!(tiletype_str(&[0x1f, 0x8b, 0, 0, 0, 0, 0, 0]), "pbfgz");
    assert_eq!(tiletype_str(b"RIFF\x00\x00\x00\x00WEBPVP8 "), "webp");
    assert_eq!(tiletype_str(b"{\"a\": 1}"), "unknown");
}

#[test]
fn format_numbers() {
    assert_eq!(enum2const(TileType::Png), TILETYPE_PNG);
    assert_eq!(enum2const(TileType::Webp), TILETYPE_WEBP);
    assert_eq!(enum2const(TileType::Unknown), TILETYPE_UNKNOWN);
    assert_eq!(const2enum(TILETYPE_GIF), TileType::Gif);
    assert_eq!(const2enum(99), TileType::Unknown);
    for t in [
        TileType::Unknown,
        TileType::Gif,
        TileType::Jpg,
        TileType::Pbf,
        TileType::Pbfgz,
        TileType::Png,
        TileType::Webp,
    ] {
        assert_eq!(const2enum(enum2const(t)), t);
    }
}

#[test]
fn format_headers() {
    assert_eq!(headers(TileType::Png), vec![("Content-Type", "image/png")]);
    assert_eq!(headers(TileType::Jpg), vec![("Content-Type", "image/jpeg")]);
    assert_eq!(
        headers(TileType::Pbf),
        vec![("Content-Type", "application/x-protobuf"), ("Content-Encoding", "gzip")]
    );
    assert_eq!(headers(TileType::Unknown), vec![]);
}

#[test]
fn sniffing_short_riff_data_would_overrun() {
    assert!(tiletype_overruns(b"RIFF\x00\x00\x00\x00"));
    assert!(tiletype_overruns(b"RIFF\x00\x00\x00\x00W"));
    assert!(tiletype_overruns(b"RIFF\x00\x00\x00\x00WE"));
    assert!(tiletype_overruns(b"RIFF\x00\x00\x00\x00WEB"));
    assert!(!tiletype_overruns(b"RIFF\x00\x00\x00\x00XY"));
    assert!(!tiletype_overruns(b"RIFF\x00\x00\x00\x00WEBP"));
    assert!(!tiletype_overruns(&png()));
    assert!(!tiletype_overruns(b"RIFF"));
    assert_eq!(tiletype(b"RIFF\x00\x00\x00\x00XY"), TileType::Unknown);
}
