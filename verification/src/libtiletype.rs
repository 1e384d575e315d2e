//! Sniffing the format of tile data from its first bytes.
use vstd::prelude::*;

verus! {

/// The formats a tile's data can be recognised as.
#[derive(Debug, Clone, Copy, PartialEq, Eq, Structural)]
pub enum TileType {
    Unknown,
    Gif,
    Jpg,
    Pbf,
    Pbfgz,
    Png,
    Webp,
}

pub const TILETYPE_UNKNOWN: usize = 0;
pub const TILETYPE_GIF: usize = 1;
pub const TILETYPE_JPG: usize = 2;
pub const TILETYPE_PBF: usize = 3;
pub const TILETYPE_PBFGZ: usize = 4;
pub const TILETYPE_PNG: usize = 5;
pub const TILETYPE_WEBP: usize = 6;

/// The PNG signature.
pub open spec fn is_png(b: Seq<u8>) -> bool {
    b[0] == 0x89 && b[1] == 0x50 && b[2] == 0x4e && b[3] == 0x47 && b[4] == 0x0d && b[5] == 0x0a
        && b[6] == 0x1a && b[7] == 0x0a
}

/// A JPEG start-of-image marker at the front and end-of-image marker at the back.
pub open spec fn is_jpg(b: Seq<u8>) -> bool {
    b[0] == 0xff && b[1] == 0xd8 && b[b.len() - 2] == 0xff && b[b.len() - 1] == 0xd9
}

/// The `GIF87a` or `GIF89a` signature.
pub open spec fn is_gif(b: Seq<u8>) -> bool {
    b[0] == 0x47 && b[1] == 0x49 && b[2] == 0x46 && b[3] == 0x38 && (b[4] == 0x39 || b[4] == 0x37)
        && b[5] == 0x61
}

/// A RIFF container header.
pub open spec fn is_riff(b: Seq<u8>) -> bool {
    b[0] == 0x52 && b[1] == 0x49 && b[2] == 0x46 && b[3] == 0x46
}

/// A RIFF header followed, at offset 8, by `WEBP`.
pub open spec fn is_webp(b: Seq<u8>) -> bool {
    is_riff(b) && b[8] == 0x57 && b[9] == 0x45 && b[10] == 0x42 && b[11] == 0x50
}

/// A zlib stream header.
pub open spec fn is_zlib(b: Seq<u8>) -> bool {
    b[0] == 0x78 && b[1] == 0x9c
}

/// A gzip stream header.
pub open spec fn is_gzip(b: Seq<u8>) -> bool {
    b[0] == 0x1f && b[1] == 0x8b
}

/// The WebP check reads past the end of the data: a RIFF header on 8 to 11
/// bytes whose tail so far matches `WEBP`.
pub open spec fn webp_check_overruns(b: Seq<u8>) -> bool {
    b.len() >= 8 && !is_png(b) && !is_jpg(b) && !is_gif(b) && is_riff(b) && (b.len() <= 8 || (b[8]
        == 0x57 && (b.len() <= 9 || (b[9] == 0x45 && (b.len() <= 10 || (b[10] == 0x42 && b.len()
        <= 11))))))
}

/// The format that the first bytes of `b` show.
pub open spec fn tiletype_spec(b: Seq<u8>) -> TileType {
    if b.len() >= 8 {
        if is_png(b) {
            TileType::Png
        } else if is_jpg(b) {
            TileType::Jpg
        } else if is_gif(b) {
            TileType::Gif
        } else if is_webp(b) {
            TileType::Webp
        } else if is_zlib(b) {
            TileType::Pbf
        } else if is_gzip(b) {
            TileType::Pbfgz
        } else {
            TileType::Unknown
        }
    } else {
        TileType::Unknown
    }
}

/// Whether sniffing `buffer` would read past its end (see
/// `webp_check_overruns`); `tiletype` may be called exactly when it would not.
pub fn tiletype_overruns(buffer: &[u8]) -> (r: bool)
    ensures
        r == webp_check_overruns(buffer@),
{
    let n = buffer.len();
    if n < 8 || n >= 12 {
        return false;
    }
    let png = buffer[0] == 0x89 && buffer[1] == 0x50 && buffer[2] == 0x4e && buffer[3] == 0x47
        && buffer[4] == 0x0d && buffer[5] == 0x0a && buffer[6] == 0x1a && buffer[7] == 0x0a;
    let jpg = buffer[0] == 0xff && buffer[1] == 0xd8 && buffer[n - 2] == 0xff && buffer[n - 1]
        == 0xd9;
    let gif = buffer[0] == 0x47 && buffer[1] == 0x49 && buffer[2] == 0x46 && buffer[3] == 0x38
        && (buffer[4] == 0x39 || buffer[4] == 0x37) && buffer[5] == 0x61;
    let riff = buffer[0] == 0x52 && buffer[1] == 0x49 && buffer[2] == 0x46 && buffer[3] == 0x46;
    if png || jpg || gif || !riff {
        return false;
    }
    if n == 8 {
        return true;
    }
    if buffer[8] != 0x57 {
        return false;
    }
    if n == 9 {
        return true;
    }
    if buffer[9] != 0x45 {
        return false;
    }
    if n == 10 {
        return true;
    }
    buffer[10] == 0x42
}

/// The format of tile data, from its first bytes.
pub fn tiletype(buffer: &[u8]) -> (r: TileType)
    requires
        !webp_check_overruns(buffer@),
    ensures
        r == tiletype_spec(buffer@),
{
    if buffer.len() >= 8 {
        if buffer[0] == 0x89 && buffer[1] == 0x50 && buffer[2] == 0x4e && buffer[3] == 0x47
            && buffer[4] == 0x0d && buffer[5] == 0x0a && buffer[6] == 0x1a && buffer[7] == 0x0a {
            return TileType::Png;
        } else if buffer[0] == 0xff && buffer[1] == 0xd8 && buffer[buffer.len() - 2] == 0xff
            && buffer[buffer.len() - 1] == 0xd9 {
            return TileType::Jpg;
        } else if buffer[0] == 0x47 && buffer[1] == 0x49 && buffer[2] == 0x46 && buffer[3] == 0x38
            && (buffer[4] == 0x39 || buffer[4] == 0x37) && buffer[5] == 0x61 {
            return TileType::Gif;
        } else if buffer[0] == 0x52 && buffer[1] == 0x49 && buffer[2] == 0x46 && buffer[3] == 0x46
            && buffer[8] == 0x57 && buffer[9] == 0x45 && buffer[10] == 0x42 && buffer[11] == 0x50 {
            return TileType::Webp;
        } else if buffer[0] == 0x78 && buffer[1] == 0x9c {
            return TileType::Pbf;
        } else if buffer[0] == 0x1f && buffer[1] == 0x8b {
            return TileType::Pbfgz;
        }
    }
    TileType::Unknown
}

/// The number of a format.
pub open spec fn tiletype_code(t: TileType) -> usize {
    match t {
        TileType::Unknown => TILETYPE_UNKNOWN,
        TileType::Gif => TILETYPE_GIF,
        TileType::Jpg => TILETYPE_JPG,
        TileType::Pbf => TILETYPE_PBF,
        TileType::Pbfgz => TILETYPE_PBFGZ,
        TileType::Png => TILETYPE_PNG,
        TileType::Webp => TILETYPE_WEBP,
    }
}

/// The number of a format.
pub fn enum2const(tiletype: TileType) -> (r: usize)
    ensures
        r == tiletype_code(tiletype),
{
    match tiletype {
        TileType::Unknown => TILETYPE_UNKNOWN,
        TileType::Gif => TILETYPE_GIF,
        TileType::Jpg => TILETYPE_JPG,
        TileType::Pbf => TILETYPE_PBF,
        TileType::Pbfgz => TILETYPE_PBFGZ,
        TileType::Png => TILETYPE_PNG,
        TileType::Webp => TILETYPE_WEBP,
    }
}

/// The format with a number (`Unknown` for numbers of no format).
pub fn const2enum(tiletype: usize) -> (r: TileType)
    ensures
        tiletype <= 6 ==> tiletype_code(r) == tiletype,
        tiletype > 6 ==> r == TileType::Unknown,
{
    if tiletype == TILETYPE_UNKNOWN {
        TileType::Unknown
    } else if tiletype == TILETYPE_GIF {
        TileType::Gif
    } else if tiletype == TILETYPE_JPG {
        TileType::Jpg
    } else if tiletype == TILETYPE_PBF {
        TileType::Pbf
    } else if tiletype == TILETYPE_PBFGZ {
        TileType::Pbfgz
    } else if tiletype == TILETYPE_PNG {
        TileType::Png
    } else if tiletype == TILETYPE_WEBP {
        TileType::Webp
    } else {
        TileType::Unknown
    }
}

/// A format's number names the format back.
pub proof fn lemma_tiletype_code_roundtrip(t: TileType)
    ensures
        tiletype_code(t) <= 6,
        forall|u: TileType| tiletype_code(u) == tiletype_code(t) ==> u == t,
{
}

/// A header (name, value) pair has the given texts.
pub open spec fn header_is(h: (&'static str, &'static str), name: Seq<char>, value: Seq<char>) -> bool {
    h.0@ == name && h.1@ == value
}

/// The HTTP headers to serve a tile of a format with.
pub fn headers(tiletype: TileType) -> (r: Vec<(&'static str, &'static str)>)
    ensures
        match tiletype {
            TileType::Png => r@.len() == 1 && header_is(r@[0], "Content-Type"@, "image/png"@),
            TileType::Jpg => r@.len() == 1 && header_is(r@[0], "Content-Type"@, "image/jpeg"@),
            TileType::Gif => r@.len() == 1 && header_is(r@[0], "Content-Type"@, "image/gif"@),
            TileType::Webp => r@.len() == 1 && header_is(r@[0], "Content-Type"@, "image/webp"@),
            TileType::Pbf | TileType::Pbfgz => r@.len() == 2 && header_is(
                r@[0],
                "Content-Type"@,
                "application/x-protobuf"@,
            ) && header_is(r@[1], "Content-Encoding"@, "gzip"@),
            TileType::Unknown => r@.len() == 0,
        },
{
    match tiletype {
        TileType::Png => vec![("Content-Type", "image/png")],
        TileType::Jpg => vec![("Content-Type", "image/jpeg")],
        TileType::Gif => vec![("Content-Type", "image/gif")],
        TileType::Webp => vec![("Content-Type", "image/webp")],
        TileType::Pbf => vec![
            ("Content-Type", "application/x-protobuf"),
            ("Content-Encoding", "gzip"),
        ],
        TileType::Pbfgz => vec![
            ("Content-Type", "application/x-protobuf"),
            ("Content-Encoding", "gzip"),
        ],
        _ => vec![],
    }
}

/// The short name of a format.
pub open spec fn tiletype_name(t: TileType) -> Seq<char> {
    match t {
        TileType::Unknown => "unknown"@,
        TileType::Gif => "gif"@,
        TileType::Jpg => "jpg"@,
        TileType::Pbf => "pbf"@,
        TileType::Pbfgz => "pbfgz"@,
        TileType::Png => "png"@,
        TileType::Webp => "webp"@,
    }
}

/// The short name of the format of tile data.
pub fn tiletype_str(buffer: &[u8]) -> (r: String)
    requires
        !webp_check_overruns(buffer@),
    ensures
        r@ == tiletype_name(tiletype_spec(buffer@)),
{
    let tiletype = tiletype(buffer);
    match tiletype {
        TileType::Unknown => "unknown".to_string(),
        TileType::Gif => "gif".to_string(),
        TileType::Jpg => "jpg".to_string(),
        TileType::Pbf => "pbf".to_string(),
        TileType::Pbfgz => "pbfgz".to_string(),
        TileType::Png => "png".to_string(),
        TileType::Webp => "webp".to_string(),
    }
}

/// The lower-case letter of an upper-case ASCII letter byte.
pub open spec fn ascii_lower(b: u8) -> char {
    ((b + 32) as u8) as char
}

/// Different formats have different names, and `unknown` names only
/// unrecognised data.
pub proof fn lemma_tiletype_names_distinct(t: TileType, u: TileType)
    ensures
        tiletype_name(t) == tiletype_name(u) ==> t == u,
{
    reveal_strlit("unknown");
    reveal_strlit("gif");
    reveal_strlit("jpg");
    reveal_strlit("pbf");
    reveal_strlit("pbfgz");
    reveal_strlit("png");
    reveal_strlit("webp");
    if tiletype_name(t) == tiletype_name(u) && t != u {
        assert(tiletype_name(t).len() == tiletype_name(u).len());
        assert(tiletype_name(t)[0] == tiletype_name(u)[0]);
        assert(tiletype_name(t)[1] == tiletype_name(u)[1]);
        assert(tiletype_name(t)[2] == tiletype_name(u)[2]);
    }
}

/// The name that sniffing gives tile data is the name of the format whose
/// signature the data starts with. Where the signature spells the format
/// in ASCII capitals (`PNG` at byte 1, `GIF` at byte 0, `WEBP` at byte 8),
/// the name is those letters in lower case; JPEG data (start and end
/// markers) is `jpg`; a zlib stream `pbf`; a gzip stream `pbfgz`; anything
/// else, or fewer than 8 bytes, `unknown`.
pub proof fn lemma_tiletype_name_of_data(b: Seq<u8>)
    requires
        !webp_check_overruns(b),
    ensures
        b.len() >= 8 && is_png(b) ==> tiletype_name(tiletype_spec(b)) == seq![
            ascii_lower(b[1]),
            ascii_lower(b[2]),
            ascii_lower(b[3]),
        ],
        b.len() >= 8 && !is_png(b) && is_jpg(b) ==> tiletype_name(tiletype_spec(b)) == "jpg"@,
        b.len() >= 8 && !is_png(b) && !is_jpg(b) && is_gif(b) ==> tiletype_name(tiletype_spec(b))
            == seq![ascii_lower(b[0]), ascii_lower(b[1]), ascii_lower(b[2])],
        b.len() >= 12 && !is_png(b) && !is_jpg(b) && !is_gif(b) && is_webp(b) ==> tiletype_name(
            tiletype_spec(b),
        ) == seq![ascii_lower(b[8]), ascii_lower(b[9]), ascii_lower(b[10]), ascii_lower(b[11])],
        b.len() >= 8 && !is_png(b) && !is_jpg(b) && !is_gif(b) && !is_webp(b) && is_zlib(b)
            ==> tiletype_name(tiletype_spec(b)) == "pbf"@,
        b.len() >= 8 && !is_png(b) && !is_jpg(b) && !is_gif(b) && !is_webp(b) && !is_zlib(b)
            && is_gzip(b) ==> tiletype_name(tiletype_spec(b)) == "pbfgz"@,
        b.len() < 8 || !(is_png(b) || is_jpg(b) || is_gif(b) || is_webp(b) || is_zlib(b) || is_gzip(b))
            ==> tiletype_name(tiletype_spec(b)) == "unknown"@,
{
    reveal_strlit("gif");
    reveal_strlit("png");
    reveal_strlit("webp");
    if b.len() >= 8 && is_png(b) {
        assert(tiletype_name(tiletype_spec(b)) =~= seq![ascii_lower(b[1]), ascii_lower(b[2]), ascii_lower(b[3])]);
    }
    if b.len() >= 8 && !is_png(b) && !is_jpg(b) && is_gif(b) {
        assert(tiletype_name(tiletype_spec(b)) =~= seq![ascii_lower(b[0]), ascii_lower(b[1]), ascii_lower(b[2])]);
    }
    if b.len() >= 12 && !is_png(b) && !is_jpg(b) && !is_gif(b) && is_webp(b) {
        assert(tiletype_name(tiletype_spec(b)) =~= seq![
            ascii_lower(b[8]),
            ascii_lower(b[9]),
            ascii_lower(b[10]),
            ascii_lower(b[11]),
        ]);
    }
}

} // verus!
