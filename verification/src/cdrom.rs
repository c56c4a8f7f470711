use vstd::prelude::*;

use crate::text::{
    append_bytes, ascii_chars, ascii_string, decimal, decimal_digits, is_ascii_bytes, lemma_digits_ascii,
    string_from_utf8_lossy, utf8_lossy,
};

verus! {

/// Size of a sector in an image: header, data and error correction.
pub const SECTOR_SIZE: usize = 2354;
pub const SECTOR_HEADER_SIZE: usize = 24;
pub const SECTOR_DATA_SIZE: usize = 2048;
pub const SECTOR_ECC_SIZE: usize = 282;

/// The sector that holds the system identifier.
pub const SYSTEM_IDENTIFIER_SECTOR: usize = 16;
pub const GAME_TITLE_OFFSET: usize = 8;
pub const GAME_DEVELOPER_OFFSET: usize = 286;
pub const GAME_PUBLISHER_OFFSET: usize = 414;
pub const GAME_PLATFORM_OFFSET: usize = 542;
pub const SYSTEM_INFO_LENGTH: usize = 20;

/// One sector of a disc image.
pub struct Sector {
    pub header: [u8; SECTOR_HEADER_SIZE],
    pub data: [u8; SECTOR_DATA_SIZE],
    pub ecc: [u8; SECTOR_ECC_SIZE],
}

impl Sector {
    /// A sector of zeros.
    pub fn new() -> (r: Self)
        ensures
            r.header@ == Seq::new(SECTOR_HEADER_SIZE as nat, |i: int| 0u8),
            r.data@ == Seq::new(SECTOR_DATA_SIZE as nat, |i: int| 0u8),
            r.ecc@ == Seq::new(SECTOR_ECC_SIZE as nat, |i: int| 0u8),
    {
        let r = Self {
            header: [0;SECTOR_HEADER_SIZE],
            data: [0;SECTOR_DATA_SIZE],
            ecc: [0;SECTOR_ECC_SIZE],
        };
        assert(r.header@ =~= Seq::new(SECTOR_HEADER_SIZE as nat, |i: int| 0u8));
        assert(r.data@ =~= Seq::new(SECTOR_DATA_SIZE as nat, |i: int| 0u8));
        assert(r.ecc@ =~= Seq::new(SECTOR_ECC_SIZE as nat, |i: int| 0u8));
        r
    }
}

/// The sum of some bytes.
pub open spec fn byte_sum(bytes: Seq<u8>) -> int
    decreases bytes.len(),
{
    if bytes.len() == 0 {
        0
    } else {
        byte_sum(bytes.drop_last()) + bytes.last()
    }
}

/// The bytes with the trailing zero bytes removed. (A zero byte always
/// decodes to NUL, so decoding these bytes is the same as decoding them all
/// and removing the trailing NUL characters.)
pub open spec fn trim_trailing_zeros(bytes: Seq<u8>) -> Seq<u8>
    decreases bytes.len(),
{
    if bytes.len() > 0 && bytes.last() == 0 {
        trim_trailing_zeros(bytes.drop_last())
    } else {
        bytes
    }
}

/// Sector `index` of an image as the three parts it is read into.
pub open spec fn sector_matches(s: Sector, bytes: Seq<u8>, index: int) -> bool {
    let start = index * SECTOR_SIZE;
    &&& s.header@ == bytes.subrange(start, start + SECTOR_HEADER_SIZE)
    &&& s.data@ == bytes.subrange(start + SECTOR_HEADER_SIZE, start + SECTOR_HEADER_SIZE + SECTOR_DATA_SIZE)
    &&& s.ecc@ == bytes.subrange(start + SECTOR_HEADER_SIZE + SECTOR_DATA_SIZE, start + SECTOR_SIZE)
}

/// A 16-bit big-endian value.
pub open spec fn be16(b0: u8, b1: u8) -> u16 {
    (((b0 as u16) << 8u16) | (b1 as u16)) as u16
}

/// A 32-bit big-endian value.
pub open spec fn be32(b0: u8, b1: u8, b2: u8, b3: u8) -> u32 {
    ((b0 as u32) << 24u32) | ((b1 as u32) << 16u32) | ((b2 as u32) << 8u32) | (b3 as u32)
}

/// The colour of a palette entry (big-endian, 5 bits each of red, green and
/// blue from bit 10 down), each channel widened to 8 bits.
pub open spec fn palette_color(b0: u8, b1: u8) -> [u8; 3] {
    let color = be16(b0, b1);
    [
        ((((color >> 10u16) & 0x1F) as u8) << 3u8) as u8,
        ((((color >> 5u16) & 0x1F) as u8) << 3u8) as u8,
        (((color & 0x1F) as u8) << 3u8) as u8,
    ]
}

/// A TIM image: its size and its pixels as red, green, blue bytes.
pub struct TimImage {
    pub width: u32,
    pub height: u32,
    pub pixels: Vec<u8>,
}

/// A disc image read into sectors.
pub struct CdRom {
    sectors: Vec<Sector>,
}

impl View for CdRom {
    type V = Seq<Sector>;

    closed spec fn view(&self) -> Seq<Sector> {
        self.sectors@
    }
}

/// Copies `N` bytes from `bytes[start..]`.
fn copy_bytes<const N: usize>(bytes: &[u8], start: usize) -> (r: [u8; N])
    requires
        start + N <= bytes@.len(),
    ensures
        r@ == bytes@.subrange(start as int, start + N),
{
    let mut r = [0u8;N];
    let mut k: usize = 0;
    let len = bytes.len();
    while k < N
        invariant
            k <= N,
            len == bytes@.len(),
            start + N <= bytes@.len(),
            r@.len() == N,
            forall|j: int| 0 <= j < k ==> #[trigger] r@[j] == bytes@[start + j],
        decreases N - k,
    {
        r[k] = bytes[start + k];
        k = k + 1;
    }
    assert(r@ =~= bytes@.subrange(start as int, start + N));
    r
}

impl CdRom {
    /// Reads an image: each full `SECTOR_SIZE` bytes make a sector (24 bytes
    /// of header, 2048 of data, 282 of error correction); bytes after the
    /// last full sector are ignored.
    pub fn from_bytes(bytes: &[u8]) -> (r: Self)
        ensures
            r@.len() == bytes@.len() / (SECTOR_SIZE as nat),
            forall|i: int| 0 <= i < r@.len() ==> sector_matches(#[trigger] r@[i], bytes@, i),
    {
        let mut sectors: Vec<Sector> = Vec::new();
        let mut start: usize = 0;
        while bytes.len() - start >= SECTOR_SIZE
            invariant
                start == sectors@.len() * SECTOR_SIZE,
                start <= bytes@.len(),
                forall|i: int| 0 <= i < sectors@.len() ==> sector_matches(#[trigger] sectors@[i], bytes@, i),
            decreases bytes@.len() - start,
        {
            let sector = Sector {
                header: copy_bytes::<SECTOR_HEADER_SIZE>(bytes, start),
                data: copy_bytes::<SECTOR_DATA_SIZE>(bytes, start + SECTOR_HEADER_SIZE),
                ecc: copy_bytes::<SECTOR_ECC_SIZE>(bytes, start + SECTOR_HEADER_SIZE + SECTOR_DATA_SIZE),
            };
            sectors.push(sector);
            start = start + SECTOR_SIZE;
        }
        proof {
            vstd::arithmetic::div_mod::lemma_fundamental_div_mod(bytes@.len() as int, SECTOR_SIZE as int);
        }
        Self { sectors }
    }

    /// Number of sectors.
    pub fn sector_count(&self) -> (r: usize)
        ensures
            r == self@.len(),
    {
        self.sectors.len()
    }

    /// Sector `index`.
    pub fn sector(&self, index: usize) -> (r: &Sector)
        requires
            index < self@.len(),
        ensures
            *r == self@[index as int],
    {
        &self.sectors[index]
    }

    /// `Ok(true)` when the error-correction bytes of every sector add up to
    /// zero; otherwise an error that names the first sector where they do not.
    pub fn check_ecc(&self) -> (r: Result<bool, String>)
        ensures
            r is Ok <==> forall|i: int| 0 <= i < self@.len() ==> byte_sum(#[trigger] self@[i].ecc@) == 0,
            r is Ok ==> r == Ok::<bool, String>(true),
            r matches Err(message) ==> exists|i: int|
                #![trigger self@[i]]
                0 <= i < self@.len() && byte_sum(self@[i].ecc@) != 0 && (forall|k: int|
                    0 <= k < i ==> byte_sum(#[trigger] self@[k].ecc@) == 0) && message@ == ecc_message(
                    i as nat,
                    byte_sum(self@[i].ecc@) as nat,
                ),
    {
        let mut i: usize = 0;
        while i < self.sectors.len()
            invariant
                i <= self@.len(),
                forall|k: int| 0 <= k < i ==> byte_sum(#[trigger] self@[k].ecc@) == 0,
            decreases self@.len() - i,
        {
            let sector = &self.sectors[i];
            let ecc = ecc_sum(&sector.ecc);
            if ecc != 0 {
                let message = ecc_error_message(i, ecc);
                assert(self@[i as int] == *sector);
                return Err(message);
            }
            i = i + 1;
        }
        Ok(true)
    }

    /// The text at `offset` in the data of the system identifier sector,
    /// decoded as UTF-8 with the trailing NULs removed.
    fn get_system_info(&self, offset: usize, length: usize) -> (r: Result<String, String>)
        requires
            self@.len() > SYSTEM_IDENTIFIER_SECTOR,
            offset + length <= SECTOR_DATA_SIZE,
        ensures
            r matches Ok(text) && text@ == utf8_lossy(
                trim_trailing_zeros(
                    self@[SYSTEM_IDENTIFIER_SECTOR as int].data@.subrange(
                        offset as int,
                        offset + length,
                    ),
                ),
            ),
    {
        let sector = &self.sectors[SYSTEM_IDENTIFIER_SECTOR];
        let ghost field = sector.data@.subrange(offset as int, offset + length);
        let mut end = offset + length;
        while end > offset && sector.data[end - 1] == 0
            invariant
                offset <= end <= offset + length,
                offset + length <= SECTOR_DATA_SIZE,
                field == sector.data@.subrange(offset as int, offset + length),
                trim_trailing_zeros(field) == trim_trailing_zeros(
                    sector.data@.subrange(offset as int, end as int),
                ),
            decreases end,
        {
            proof {
                let part = sector.data@.subrange(offset as int, end as int);
                assert(part.drop_last() =~= sector.data@.subrange(offset as int, end - 1));
            }
            end = end - 1;
        }
        let mut bytes: Vec<u8> = Vec::new();
        let mut k = offset;
        while k < end
            invariant
                offset <= k <= end,
                end <= SECTOR_DATA_SIZE,
                bytes@ == sector.data@.subrange(offset as int, k as int),
            decreases end - k,
        {
            bytes.push(sector.data[k]);
            k = k + 1;
            proof {
                assert(bytes@ =~= sector.data@.subrange(offset as int, k as int));
            }
        }
        proof {
            let part = sector.data@.subrange(offset as int, end as int);
            if end > offset {
                assert(part.last() == sector.data@[end - 1]);
            }
            assert(trim_trailing_zeros(part) == part);
        }
        Ok(string_from_utf8_lossy(bytes.as_slice()))
    }

    /// The game title in the system identifier sector.
    pub fn get_title(&self) -> (r: Result<String, String>)
        requires
            self@.len() > SYSTEM_IDENTIFIER_SECTOR,
        ensures
            r matches Ok(text) && text@ == utf8_lossy(
                trim_trailing_zeros(
                    self@[SYSTEM_IDENTIFIER_SECTOR as int].data@.subrange(
                        GAME_TITLE_OFFSET as int,
                        GAME_TITLE_OFFSET + SYSTEM_INFO_LENGTH,
                    ),
                ),
            ),
    {
        self.get_system_info(GAME_TITLE_OFFSET, SYSTEM_INFO_LENGTH)
    }

    /// The developer in the system identifier sector.
    pub fn get_developer(&self) -> (r: Result<String, String>)
        requires
            self@.len() > SYSTEM_IDENTIFIER_SECTOR,
        ensures
            r matches Ok(text) && text@ == utf8_lossy(
                trim_trailing_zeros(
                    self@[SYSTEM_IDENTIFIER_SECTOR as int].data@.subrange(
                        GAME_DEVELOPER_OFFSET as int,
                        GAME_DEVELOPER_OFFSET + SYSTEM_INFO_LENGTH,
                    ),
                ),
            ),
    {
        self.get_system_info(GAME_DEVELOPER_OFFSET, SYSTEM_INFO_LENGTH)
    }

    /// The publisher in the system identifier sector.
    pub fn get_publisher(&self) -> (r: Result<String, String>)
        requires
            self@.len() > SYSTEM_IDENTIFIER_SECTOR,
        ensures
            r matches Ok(text) && text@ == utf8_lossy(
                trim_trailing_zeros(
                    self@[SYSTEM_IDENTIFIER_SECTOR as int].data@.subrange(
                        GAME_PUBLISHER_OFFSET as int,
                        GAME_PUBLISHER_OFFSET + SYSTEM_INFO_LENGTH,
                    ),
                ),
            ),
    {
        self.get_system_info(GAME_PUBLISHER_OFFSET, SYSTEM_INFO_LENGTH)
    }

    /// The platform in the system identifier sector.
    pub fn get_platform(&self) -> (r: Result<String, String>)
        requires
            self@.len() > SYSTEM_IDENTIFIER_SECTOR,
        ensures
            r matches Ok(text) && text@ == utf8_lossy(
                trim_trailing_zeros(
                    self@[SYSTEM_IDENTIFIER_SECTOR as int].data@.subrange(
                        GAME_PLATFORM_OFFSET as int,
                        GAME_PLATFORM_OFFSET + SYSTEM_INFO_LENGTH,
                    ),
                ),
            ),
    {
        self.get_system_info(GAME_PLATFORM_OFFSET, SYSTEM_INFO_LENGTH)
    }
}

/// The sum of the error-correction bytes of a sector.
fn ecc_sum(ecc: &[u8; SECTOR_ECC_SIZE]) -> (r: u32)
    ensures
        r == byte_sum(ecc@),
{
    let mut sum: u32 = 0;
    let mut k: usize = 0;
    while k < SECTOR_ECC_SIZE
        invariant
            k <= SECTOR_ECC_SIZE,
            sum == byte_sum(ecc@.subrange(0, k as int)),
            sum <= 255 * k,
        decreases SECTOR_ECC_SIZE - k,
    {
        proof {
            assert(ecc@.subrange(0, k + 1).drop_last() =~= ecc@.subrange(0, k as int));
        }
        sum = sum + ecc[k] as u32;
        k = k + 1;
    }
    assert(ecc@.subrange(0, SECTOR_ECC_SIZE as int) =~= ecc@);
    sum
}

/// "Sector " in ASCII.
pub open spec fn sector_text() -> Seq<u8> {
    seq![0x53u8, 0x65, 0x63, 0x74, 0x6f, 0x72, 0x20]
}

/// " has ECC: " in ASCII.
pub open spec fn has_ecc_text() -> Seq<u8> {
    seq![0x20u8, 0x68, 0x61, 0x73, 0x20, 0x45, 0x43, 0x43, 0x3a, 0x20]
}

/// The message for a sector whose error-correction bytes add up to `sum`,
/// not zero: "Sector <index> has ECC: <sum>", both in decimal.
pub open spec fn ecc_message(sector: nat, sum: nat) -> Seq<char> {
    ascii_chars(sector_text() + decimal_digits(sector) + has_ecc_text() + decimal_digits(sum))
}

fn ecc_error_message(sector: usize, ecc: u32) -> (r: String)
    ensures
        r@ == ecc_message(sector as nat, ecc as nat),
{
    let mut bytes: Vec<u8> = Vec::new();
    let sector_bytes: [u8; 7] = [0x53, 0x65, 0x63, 0x74, 0x6f, 0x72, 0x20];
    let has_ecc_bytes: [u8; 10] = [0x20, 0x68, 0x61, 0x73, 0x20, 0x45, 0x43, 0x43, 0x3a, 0x20];
    assert(sector_bytes@ =~= sector_text());
    assert(has_ecc_bytes@ =~= has_ecc_text());
    append_bytes(&mut bytes, &sector_bytes);
    let index = decimal(sector as u64);
    append_bytes(&mut bytes, index.as_slice());
    append_bytes(&mut bytes, &has_ecc_bytes);
    let sum = decimal(ecc as u64);
    append_bytes(&mut bytes, sum.as_slice());
    proof {
        lemma_digits_ascii(sector as nat, 0);
        lemma_digits_ascii(ecc as nat, 0);
        assert(is_ascii_bytes(bytes@));
    }
    ascii_string(bytes.as_slice())
}

/// Whether "TIM1" starts at byte `j` of a sector's data, with `j` among the
/// positions that are searched (all but the last four).
pub open spec fn is_tim_marker(s: Sector, j: int) -> bool {
    &&& 0 <= j < SECTOR_DATA_SIZE - 4
    &&& s.data@[j] == 0x54
    &&& s.data@[j + 1] == 0x49
    &&& s.data@[j + 2] == 0x4D
    &&& s.data@[j + 3] == 0x31
}

/// Lexicographic order on (sector, byte) positions.
pub open spec fn position_before(a: (usize, usize), b: (usize, usize)) -> bool {
    a.0 < b.0 || (a.0 == b.0 && a.1 < b.1)
}

/// The palette that a TIM colour lookup table holds: one colour per two bytes.
pub open spec fn palette_spec(data: Seq<u8>) -> Seq<[u8; 3]> {
    Seq::new(data.len() / 2, |i: int| palette_color(data[2 * i], data[2 * i + 1]))
}

/// Reads a TIM colour lookup table.
pub fn parse_color_palette(data: &[u8]) -> (r: Vec<[u8; 3]>)
    requires
        data@.len() % 2 == 0,
    ensures
        r@ == palette_spec(data@),
{
    let mut colors: Vec<[u8; 3]> = Vec::new();
    let mut i: usize = 0;
    while i < data.len()
        invariant
            i <= data@.len(),
            i % 2 == 0,
            data@.len() % 2 == 0,
            colors@.len() == i / 2,
            forall|k: int| 0 <= k < colors@.len() ==> #[trigger] colors@[k] == palette_color(data@[2 * k], data@[2 * k + 1]),
        decreases data@.len() - i,
    {
        let color: u16 = ((data[i] as u16) << 8) | (data[i + 1] as u16);
        let r = ((color >> 10) & 0x1F) as u8;
        let g = ((color >> 5) & 0x1F) as u8;
        let b = (color & 0x1F) as u8;
        colors.push([r << 3, g << 3, b << 3]);
        i = i + 2;
    }
    assert(colors@ =~= palette_spec(data@));
    colors
}

/// The fields of a TIM header at the start of `d`: width, height, palette
/// offset, palette length and pixel data offset (big-endian).
pub open spec fn tim_header(d: Seq<u8>) -> (u16, u16, u32, u32, u32) {
    (
        be16(d[4], d[5]),
        be16(d[6], d[7]),
        be32(d[8], d[9], d[10], d[11]),
        be32(d[12], d[13], d[14], d[15]),
        be32(d[16], d[17], d[18], d[19]),
    )
}

/// Whether the TIM image that starts at `byte_offset` of sector
/// `sector_index` can be read: the header fits, the palette and the pixel
/// data lie within the sector's data, the palette has whole entries, and
/// every pixel names an entry of the palette.
pub open spec fn tim_readable(sectors: Seq<Sector>, sector_index: int, byte_offset: int) -> bool {
    &&& 0 <= sector_index < sectors.len()
    &&& byte_offset + 20 <= SECTOR_DATA_SIZE
    &&& {
        let d = sectors[sector_index].data@.subrange(byte_offset, SECTOR_DATA_SIZE as int);
        let (width, height, clut_offset, clut_len, pixel_offset) = tim_header(d);
        let n = width * height;
        &&& clut_offset + clut_len <= d.len()
        &&& clut_len % 2 == 0
        &&& pixel_offset + n <= d.len()
        &&& forall|k: int| 0 <= k < n ==> #[trigger] d[pixel_offset + k] < clut_len / 2
    }
}

/// The TIM image that starts at `byte_offset` of sector `sector_index`:
/// each pixel byte looked up in the palette.
pub open spec fn tim_pixels(sectors: Seq<Sector>, sector_index: int, byte_offset: int) -> Seq<u8> {
    let d = sectors[sector_index].data@.subrange(byte_offset, SECTOR_DATA_SIZE as int);
    let (width, height, clut_offset, clut_len, pixel_offset) = tim_header(d);
    let palette = palette_spec(d.subrange(clut_offset as int, clut_offset + clut_len));
    Seq::new(
        3 * (width * height) as nat,
        |k: int| palette[d[pixel_offset + k / 3] as int][k % 3],
    )
}

impl CdRom {
    /// The positions (sector, byte) in the sectors' data where "TIM1"
    /// starts, in order.
    pub fn find_tim_images(&self) -> (r: Vec<(usize, usize)>)
        ensures
            forall|k: int| 0 <= k < r@.len() ==> is_tim_marker(self@[#[trigger] r@[k].0 as int], r@[k].1 as int) && r@[k].0 < self@.len(),
            forall|k: int, l: int| 0 <= k < l < r@.len() ==> position_before(#[trigger] r@[k], #[trigger] r@[l]),
            forall|i: int, j: int| 0 <= i < self@.len() && #[trigger] is_tim_marker(self@[i], j) ==> exists|k: int| 0 <= k < r@.len() && #[trigger] r@[k] == (i as usize, j as usize),
    {
        let mut found: Vec<(usize, usize)> = Vec::new();
        let mut i: usize = 0;
        while i < self.sectors.len()
            invariant
                i <= self@.len(),
                forall|k: int| 0 <= k < found@.len() ==> is_tim_marker(self@[#[trigger] found@[k].0 as int], found@[k].1 as int) && found@[k].0 < i,
                forall|k: int, l: int| 0 <= k < l < found@.len() ==> position_before(#[trigger] found@[k], #[trigger] found@[l]),
                forall|a: int, j: int| 0 <= a < i && #[trigger] is_tim_marker(self@[a], j) ==> exists|k: int| 0 <= k < found@.len() && #[trigger] found@[k] == (a as usize, j as usize),
            decreases self@.len() - i,
        {
            let sector = &self.sectors[i];
            let mut j: usize = 0;
            while j < SECTOR_DATA_SIZE - 4
                invariant
                    i < self@.len(),
                    *sector == self@[i as int],
                    j <= SECTOR_DATA_SIZE - 4,
                    forall|k: int| 0 <= k < found@.len() ==> is_tim_marker(self@[#[trigger] found@[k].0 as int], found@[k].1 as int) && (found@[k].0 < i || (found@[k].0 == i && found@[k].1 < j)),
                    forall|k: int, l: int| 0 <= k < l < found@.len() ==> position_before(#[trigger] found@[k], #[trigger] found@[l]),
                    forall|a: int, b: int| ((0 <= a < i) || (a == i && b < j)) && #[trigger] is_tim_marker(self@[a], b) ==> exists|k: int| 0 <= k < found@.len() && #[trigger] found@[k] == (a as usize, b as usize),
                decreases SECTOR_DATA_SIZE - 4 - j,
            {
                let ghost before = found@;
                if sector.data[j] == 0x54 && sector.data[j + 1] == 0x49 && sector.data[j + 2] == 0x4D
                    && sector.data[j + 3] == 0x31 {
                    found.push((i, j));
                }
                proof {
                    assert forall|a: int, b: int|
                        ((0 <= a < i) || (a == i && b < j + 1)) && #[trigger] is_tim_marker(
                            self@[a],
                            b,
                        ) implies exists|k: int|
                        0 <= k < found@.len() && #[trigger] found@[k] == (a as usize, b as usize) by {
                        if a == i && b == j {
                            assert(found@[found@.len() - 1] == (i, j));
                        } else {
                            let k = choose|k: int|
                                0 <= k < before.len() && #[trigger] before[k] == (a as usize, b as usize);
                            assert(found@[k] == before[k]);
                        }
                    }
                }
                j = j + 1;
            }
            i = i + 1;
        }
        found
    }

    /// Reads the TIM image that starts at `byte_offset` of sector
    /// `sector_index`: `None` exactly when it cannot be read (see `tim_readable`).
    pub fn parse_tim_image(&self, sector_index: usize, byte_offset: usize) -> (r: Option<TimImage>)
        ensures
            r is Some <==> tim_readable(self@, sector_index as int, byte_offset as int),
            r matches Some(img) ==> {
                let d = self@[sector_index as int].data@.subrange(byte_offset as int, SECTOR_DATA_SIZE as int);
                &&& img.width == tim_header(d).0 as u32
                &&& img.height == tim_header(d).1 as u32
                &&& img.pixels@ == tim_pixels(self@, sector_index as int, byte_offset as int)
            },
    {
        if sector_index >= self.sectors.len() || byte_offset > SECTOR_DATA_SIZE - 20 {
            return None;
        }
        let data = &self.sectors[sector_index].data;
        let ghost d = data@.subrange(byte_offset as int, SECTOR_DATA_SIZE as int);
        let b = byte_offset;
        let width = ((data[b + 4] as u16) << 8) | (data[b + 5] as u16);
        let height = ((data[b + 6] as u16) << 8) | (data[b + 7] as u16);
        let clut_offset = ((data[b + 8] as u32) << 24) | ((data[b + 9] as u32) << 16) | ((data[b + 10] as u32) << 8) | (data[b + 11] as u32);
        let clut_len = ((data[b + 12] as u32) << 24) | ((data[b + 13] as u32) << 16) | ((data[b + 14] as u32) << 8) | (data[b + 15] as u32);
        let pixel_data_offset = ((data[b + 16] as u32) << 24) | ((data[b + 17] as u32) << 16) | ((data[b + 18] as u32) << 8) | (data[b + 19] as u32);
        assert(tim_header(d) == (width, height, clut_offset, clut_len, pixel_data_offset));
        let available = (SECTOR_DATA_SIZE - byte_offset) as u64;
        assert((width as u64) * (height as u64) <= 0xFFFF * 0xFFFF) by (nonlinear_arith)
            requires
                width <= 0xFFFF,
                height <= 0xFFFF,
        ;
        let pixel_data_len: u64 = (width as u64) * (height as u64);
        if (clut_offset as u64) + (clut_len as u64) > available || clut_len % 2 != 0
            || (pixel_data_offset as u64) + pixel_data_len > available {
            return None;
        }
        let clut_start = byte_offset + clut_offset as usize;
        let clut_end = clut_start + clut_len as usize;
        let mut clut_data: Vec<u8> = Vec::new();
        let mut k = clut_start;
        while k < clut_end
            invariant
                clut_start <= k <= clut_end <= SECTOR_DATA_SIZE,
                clut_data@ == data@.subrange(clut_start as int, k as int),
            decreases clut_end - k,
        {
            clut_data.push(data[k]);
            k = k + 1;
            proof {
                assert(clut_data@ =~= data@.subrange(clut_start as int, k as int));
            }
        }
        assert(clut_data@ =~= d.subrange(clut_offset as int, clut_offset + clut_len));
        let clut = parse_color_palette(clut_data.as_slice());
        let pixel_start = byte_offset + pixel_data_offset as usize;
        let n = pixel_data_len as usize;
        let mut pixels: Vec<u8> = Vec::new();
        let mut p: usize = 0;
        while p < n
            invariant
                p <= n,
                n == width * height,
                pixel_start + n <= SECTOR_DATA_SIZE,
                pixel_start == byte_offset + pixel_data_offset,
                d == data@.subrange(byte_offset as int, SECTOR_DATA_SIZE as int),
                d.len() == SECTOR_DATA_SIZE - byte_offset,
                sector_index < self@.len(),
                d == self@[sector_index as int].data@.subrange(byte_offset as int, SECTOR_DATA_SIZE as int),
                tim_header(d) == (width, height, clut_offset, clut_len, pixel_data_offset),
                clut_offset + clut_len <= d.len(),
                clut@ == palette_spec(d.subrange(clut_offset as int, clut_offset + clut_len)),
                clut@.len() == clut_len / 2,
                pixels@.len() == 3 * p,
                forall|q: int| 0 <= q < p ==> #[trigger] d[pixel_data_offset + q] < clut@.len(),
                forall|m: int| 0 <= m < 3 * p ==> #[trigger] pixels@[m] == clut@[d[pixel_data_offset + m / 3] as int][m % 3],
            decreases n - p,
        {
            let index = data[pixel_start + p] as usize;
            if index >= clut.len() {
                proof {
                    assert(d[pixel_data_offset + p] == index);
                    assert(!(d[pixel_data_offset + p] < clut_len / 2));
                }
                return None;
            }
            let color = clut[index];
            pixels.push(color[0]);
            pixels.push(color[1]);
            pixels.push(color[2]);
            proof {
                assert forall|m: int| 0 <= m < 3 * (p + 1) implies #[trigger] pixels@[m] == clut@[d[pixel_data_offset + m / 3] as int][m % 3] by {
                    if m >= 3 * p {
                        assert(m / 3 == p);
                    }
                }
            }
            p = p + 1;
        }
        assert(pixels@ =~= tim_pixels(self@, sector_index as int, byte_offset as int));
        assert(forall|q: int| 0 <= q < n ==> #[trigger] d[pixel_data_offset + q] < clut_len / 2);
        Some(TimImage { width: width as u32, height: height as u32, pixels })
    }
}

} // verus!
verus! {

/// Disc headers are big-endian: the first byte is the most significant.
/// A palette entry holds red in bits 14..10, green in bits 9..5 and blue in
/// bits 4..0 of that big-endian half-word, each widened to 8 bits by
/// multiplying by 8.
pub proof fn lemma_big_endian_fields(b0: u8, b1: u8, b2: u8, b3: u8)
    ensures
        be16(b0, b1) == 256 * b0 + b1,
        be32(b0, b1, b2, b3) == 16777216 * b0 + 65536 * b1 + 256 * b2 + b3,
        palette_color(b0, b1)[0] == ((b0 / 4) % 32) * 8,
        palette_color(b0, b1)[1] == ((b0 % 4) * 8 + b1 / 32) * 8,
        palette_color(b0, b1)[2] == (b1 % 32) * 8,
{
    let c = be16(b0, b1);
    assert(c == (((b0 as u16) << 8u16) | (b1 as u16)) as u16);
    assert(c == 256 * b0 + b1 && ((b0 as u32) << 24u32) | ((b1 as u32) << 16u32) | ((b2 as u32)
        << 8u32) | (b3 as u32) == 16777216 * b0 + 65536 * b1 + 256 * b2 + b3 && ((((c >> 10u16)
        & 0x1F) as u8) << 3u8) as u8 == ((b0 / 4) % 32) * 8 && ((((c >> 5u16) & 0x1F) as u8)
        << 3u8) as u8 == ((b0 % 4) * 8 + b1 / 32) * 8 && (((c & 0x1F) as u8) << 3u8) as u8 == (b1
        % 32) * 8) by (bit_vector)
        requires
            c == (((b0 as u16) << 8u16) | (b1 as u16)) as u16,
    ;
}

} // verus!
