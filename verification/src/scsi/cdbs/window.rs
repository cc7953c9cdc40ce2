//! GET WINDOW(10), SCSI-2 scanner devices, 15.2.2, and the window descriptors it returns.

use crate::scsi::{bytes, cdbs, Cdb, Command, CommandData, DataPhase, Error};
use vstd::prelude::*;

verus! {

/// GET WINDOW - reads back the window descriptors the scanner holds.
#[derive(Debug, Copy, Clone)]
pub struct GetWindow {
    /// Logical unit number (3 bits)
    pub lun: u8,
    /// "Single": specifies that a single window descriptor shall be returned for the specified window identifier
    pub single: bool,
    /// Window identifier
    pub window_identifier: u8,
    /// Transfer length (24-bits)
    pub transfer_length: u32,
    /// Control,
    pub control: u8,
}

impl GetWindow {
    /// `transfer_length` is how many bytes we're willing to receive - the
    /// caller has to size it (header + however many descriptors of however
    /// many bytes are expected back), since neither the descriptor count nor
    /// the vendor-specific tail length is something this generic command can
    /// know ahead of time; that's device-specific.
    pub fn new(
        lun: u8,
        single: bool,
        window_identifier: u8,
        transfer_length: u32,
        control: u8,
    ) -> (r: Self)
        ensures
            r == (GetWindow { lun, single, window_identifier, transfer_length, control }),
    {
        Self { lun, single, window_identifier, transfer_length, control }
    }
}

/// How the pixels of a window are composed.
#[derive(Debug, Copy, Clone, PartialEq, Eq)]
pub enum ImageCompositionCode {
    BiLevelBlackAndWhite,
    DitheredHalftoneBlackAndWhite,
    Greyscale,
    BiLevelRgb,
    DitheredHalftoneRgb,
    Rgb,
    Reserved(u8),
}

impl ImageCompositionCode {
    /// The code's byte in a descriptor.
    pub open spec fn byte(self) -> u8 {
        match self {
            ImageCompositionCode::BiLevelBlackAndWhite => 0x00,
            ImageCompositionCode::DitheredHalftoneBlackAndWhite => 0x01,
            ImageCompositionCode::Greyscale => 0x02,
            ImageCompositionCode::BiLevelRgb => 0x03,
            ImageCompositionCode::DitheredHalftoneRgb => 0x04,
            ImageCompositionCode::Rgb => 0x05,
            ImageCompositionCode::Reserved(x) => x,
        }
    }

    /// The code a descriptor's byte stands for.
    pub open spec fn of_byte(byte: u8) -> Self {
        if byte == 0x00 {
            ImageCompositionCode::BiLevelBlackAndWhite
        } else if byte == 0x01 {
            ImageCompositionCode::DitheredHalftoneBlackAndWhite
        } else if byte == 0x02 {
            ImageCompositionCode::Greyscale
        } else if byte == 0x03 {
            ImageCompositionCode::BiLevelRgb
        } else if byte == 0x04 {
            ImageCompositionCode::DitheredHalftoneRgb
        } else if byte == 0x05 {
            ImageCompositionCode::Rgb
        } else {
            ImageCompositionCode::Reserved(byte)
        }
    }

    pub fn to_byte(self) -> (r: u8)
        ensures
            r == self.byte(),
    {
        match self {
            ImageCompositionCode::BiLevelBlackAndWhite => 0x00,
            ImageCompositionCode::DitheredHalftoneBlackAndWhite => 0x01,
            ImageCompositionCode::Greyscale => 0x02,
            ImageCompositionCode::BiLevelRgb => 0x03,
            ImageCompositionCode::DitheredHalftoneRgb => 0x04,
            ImageCompositionCode::Rgb => 0x05,
            ImageCompositionCode::Reserved(x) => x,
        }
    }

    pub fn from_byte(byte: u8) -> (r: Self)
        ensures
            r == Self::of_byte(byte),
    {
        match byte {
            0x00 => ImageCompositionCode::BiLevelBlackAndWhite,
            0x01 => ImageCompositionCode::DitheredHalftoneBlackAndWhite,
            0x02 => ImageCompositionCode::Greyscale,
            0x03 => ImageCompositionCode::BiLevelRgb,
            0x04 => ImageCompositionCode::DitheredHalftoneRgb,
            0x05 => ImageCompositionCode::Rgb,
            other => ImageCompositionCode::Reserved(other),
        }
    }
}

/// What the scanner does with pixels that do not fill a whole byte.
#[derive(Debug, Copy, Clone, PartialEq, Eq)]
pub enum PaddingType {
    NoPadding,
    PadWithZeros,
    PadWithOnes,
    Truncate,
    Reserved(u8),
}

impl PaddingType {
    /// The type's value in a descriptor.
    pub open spec fn byte(self) -> u8 {
        match self {
            PaddingType::NoPadding => 0x00,
            PaddingType::PadWithZeros => 0x01,
            PaddingType::PadWithOnes => 0x02,
            PaddingType::Truncate => 0x03,
            PaddingType::Reserved(x) => x,
        }
    }

    /// The type a descriptor's byte stands for, by its low 3 bits.
    pub open spec fn of_byte(byte: u8) -> Self {
        let low = byte % 8;
        if low == 0x00 {
            PaddingType::NoPadding
        } else if low == 0x01 {
            PaddingType::PadWithZeros
        } else if low == 0x02 {
            PaddingType::PadWithOnes
        } else if low == 0x03 {
            PaddingType::Truncate
        } else {
            PaddingType::Reserved(low)
        }
    }

    pub fn to_byte(self) -> (r: u8)
        ensures
            r == self.byte(),
    {
        match self {
            PaddingType::NoPadding => 0x00,
            PaddingType::PadWithZeros => 0x01,
            PaddingType::PadWithOnes => 0x02,
            PaddingType::Truncate => 0x03,
            PaddingType::Reserved(x) => x,
        }
    }

    /// Padding type only occupies the low 3 bits of its byte (the rest is
    /// shared with the RIF bit and reserved bits), so only 0x00-0x07 are
    /// actually representable - anything above 0x03 is reserved.
    pub fn from_byte(byte: u8) -> (r: Self)
        ensures
            r == Self::of_byte(byte),
    {
        match byte % 8 {
            0x00 => PaddingType::NoPadding,
            0x01 => PaddingType::PadWithZeros,
            0x02 => PaddingType::PadWithOnes,
            0x03 => PaddingType::Truncate,
            other => PaddingType::Reserved(other),
        }
    }
}

/// How the image data of a window is compressed.
#[derive(Debug, Copy, Clone, PartialEq, Eq)]
pub enum CompressionType {
    NoCompression,
    CcittGroupIii1dimensional,
    CcittGroupIii2dimensional,
    CcittGroupIv2dimensional,
    Reserved(u8),
    Ocr,
    Vendor(u8),
}

impl CompressionType {
    /// The type's byte in a descriptor.
    pub open spec fn byte(self) -> u8 {
        match self {
            CompressionType::NoCompression => 0x00,
            CompressionType::CcittGroupIii1dimensional => 0x01,
            CompressionType::CcittGroupIii2dimensional => 0x02,
            CompressionType::CcittGroupIv2dimensional => 0x03,
            CompressionType::Reserved(x) => x,
            CompressionType::Ocr => 0x10,
            CompressionType::Vendor(x) => x,
        }
    }

    /// The type a descriptor's byte stands for.
    pub open spec fn of_byte(byte: u8) -> Self {
        if byte == 0x00 {
            CompressionType::NoCompression
        } else if byte == 0x01 {
            CompressionType::CcittGroupIii1dimensional
        } else if byte == 0x02 {
            CompressionType::CcittGroupIii2dimensional
        } else if byte == 0x03 {
            CompressionType::CcittGroupIv2dimensional
        } else if byte == 0x10 {
            CompressionType::Ocr
        } else if byte >= 0x80 {
            CompressionType::Vendor(byte)
        } else {
            CompressionType::Reserved(byte)
        }
    }

    pub fn to_byte(self) -> (r: u8)
        ensures
            r == self.byte(),
    {
        match self {
            CompressionType::NoCompression => 0x00,
            CompressionType::CcittGroupIii1dimensional => 0x01,
            CompressionType::CcittGroupIii2dimensional => 0x02,
            CompressionType::CcittGroupIv2dimensional => 0x03,
            CompressionType::Reserved(x) => x,
            CompressionType::Ocr => 0x10,
            CompressionType::Vendor(x) => x,
        }
    }

    /// 04h-0Fh and 11h-7Fh are reserved; 80h-FFh is the vendor-specific range
    pub fn from_byte(byte: u8) -> (r: Self)
        ensures
            r == Self::of_byte(byte),
    {
        match byte {
            0x00 => CompressionType::NoCompression,
            0x01 => CompressionType::CcittGroupIii1dimensional,
            0x02 => CompressionType::CcittGroupIii2dimensional,
            0x03 => CompressionType::CcittGroupIv2dimensional,
            0x10 => CompressionType::Ocr,
            0x80..=0xFF => CompressionType::Vendor(byte),
            other => CompressionType::Reserved(other),
        }
    }
}

/// Reading a composition or compression byte and writing it again gives the same byte, and
/// a padding byte its low 3 bits.
pub proof fn lemma_byte_to_code_to_byte(byte: u8)
    ensures
        ImageCompositionCode::of_byte(byte).byte() == byte,
        CompressionType::of_byte(byte).byte() == byte,
        PaddingType::of_byte(byte).byte() == byte % 8,
{
}

/// GET WINDOW data header, precedes one or more window descriptors
#[derive(Debug, Copy, Clone, PartialEq, Eq)]
pub struct GetWindowHeader {
    /// Length in bytes of all the data that follows this field, not including itself
    pub data_length: u16,
    /// Length in bytes of each window descriptor
    pub descriptor_length: u16,
}

impl GetWindowHeader {
    /// The header at the start of a GET WINDOW response.
    pub open spec fn of_bytes(data: Seq<u8>) -> Self {
        GetWindowHeader {
            data_length: bytes::be16_at(data, 0),
            descriptor_length: bytes::be16_at(data, 6),
        }
    }
}

/// The 40-byte standard descriptor
#[derive(Debug, Clone)]
pub struct WindowDescriptor {
    /// Window identifier
    pub id: u8,
    pub auto: bool,
    pub x_resolution: u16,
    pub y_resolution: u16,
    pub x_upper_left: u32,
    pub y_upper_left: u32,
    pub width: u32,
    pub length: u32,
    pub brightness: u8,
    pub threshold: u8,
    pub contrast: u8,
    pub composition: ImageCompositionCode,
    pub bits_per_pixel: u8,
    pub halftone_pattern: u16,
    /// Reverse image format (the top bit of the byte that it shares with `padding`)
    pub rif: bool,
    pub padding: PaddingType,
    pub bit_ordering: u16,
    pub compression: CompressionType,
    pub compression_arg: u8,
    /// Vendor-specific descriptor tail (bytes 40..). Nikon stores the
    /// firmware-measured per-channel exposure here.
    pub vendor: Vec<u8>,
}

impl WindowDescriptor {
    /// Whether this is the descriptor that `b` holds.
    pub open spec fn is_read_from(&self, b: Seq<u8>) -> bool {
        &&& self.id == b[0]
        &&& self.auto == (b[1] % 2 == 1)
        &&& self.x_resolution == bytes::be16_at(b, 2)
        &&& self.y_resolution == bytes::be16_at(b, 4)
        &&& self.x_upper_left == bytes::be32_at(b, 6)
        &&& self.y_upper_left == bytes::be32_at(b, 10)
        &&& self.width == bytes::be32_at(b, 14)
        &&& self.length == bytes::be32_at(b, 18)
        &&& self.brightness == b[22]
        &&& self.threshold == b[23]
        &&& self.contrast == b[24]
        &&& self.composition == ImageCompositionCode::of_byte(b[25])
        &&& self.bits_per_pixel == b[26]
        &&& self.halftone_pattern == bytes::be16_at(b, 27)
        &&& self.rif == (b[29] >= 0x80)
        &&& self.padding == PaddingType::of_byte(b[29])
        &&& self.bit_ordering == bytes::be16_at(b, 30)
        &&& self.compression == CompressionType::of_byte(b[32])
        &&& self.compression_arg == b[33]
        &&& self.vendor@ == b.subrange(40, b.len() as int)
    }

    pub fn from_bytes(b: &[u8]) -> (r: Self)
        requires
            b@.len() >= 40,
        ensures
            r.is_read_from(b@),
    {
        Self {
            id: b[0],
            auto: b[1] % 2 == 1,
            x_resolution: bytes::read_be16(b, 2),
            y_resolution: bytes::read_be16(b, 4),
            x_upper_left: bytes::read_be32(b, 6),
            y_upper_left: bytes::read_be32(b, 10),
            width: bytes::read_be32(b, 14),
            length: bytes::read_be32(b, 18),
            brightness: b[22],
            threshold: b[23],
            contrast: b[24],
            composition: ImageCompositionCode::from_byte(b[25]),
            bits_per_pixel: b[26],
            halftone_pattern: bytes::read_be16(b, 27),
            rif: b[29] >= 0x80,
            padding: PaddingType::from_byte(b[29]),
            bit_ordering: bytes::read_be16(b, 30),
            compression: CompressionType::from_byte(b[32]),
            compression_arg: b[33],
            vendor: vstd::slice::slice_to_vec(vstd::slice::slice_subrange(b, 40, b.len())),
        }
    }
}

/// A GET WINDOW response: its header and the descriptors after it.
#[derive(Debug, Clone)]
pub struct GetWindowResponse {
    pub header: GetWindowHeader,
    pub descriptors: Vec<WindowDescriptor>,
}

/// The GET WINDOW descriptor block; of the transfer length the low 24 bits.
pub open spec fn get_window_cdb(
    lun: u8,
    single: bool,
    window_identifier: u8,
    transfer_length: u32,
    control: u8,
) -> Seq<u8> {
    seq![
        0x25u8,
        (cdbs::lun_bits(lun) + if single { 1int } else { 0 }) as u8,
        0x00u8,
        0x00u8,
        0x00u8,
        window_identifier,
        bytes::byte_of(transfer_length as int, 2),
        bytes::byte_of(transfer_length as int, 1),
        bytes::byte_of(transfer_length as int, 0),
        control,
    ]
}

/// How many whole descriptors of `descriptor_length` bytes follow the 8-byte header.
pub open spec fn descriptor_count(data: Seq<u8>, descriptor_length: int) -> int {
    (data.len() - 8) / descriptor_length
}

/// The bytes of descriptor `i`.
pub open spec fn descriptor_bytes(data: Seq<u8>, descriptor_length: int, i: int) -> Seq<u8> {
    data.subrange(8 + i * descriptor_length, 8 + (i + 1) * descriptor_length)
}

/// Descriptor `i` lies within a response that holds more than `i` whole descriptors.
proof fn lemma_descriptor_in_bounds(len: int, descriptor_length: int, i: int)
    requires
        0 <= len,
        0 < descriptor_length,
        0 <= i < len / descriptor_length,
    ensures
        0 <= i * descriptor_length,
        (i + 1) * descriptor_length == i * descriptor_length + descriptor_length,
        (i + 1) * descriptor_length <= len,
{
    assert((i + 1) * descriptor_length == i * descriptor_length + descriptor_length)
        by (nonlinear_arith);
    assert(0 <= i * descriptor_length) by (nonlinear_arith)
        requires
            0 <= i,
            0 < descriptor_length,
    ;
    let n = len / descriptor_length;
    assert(n * descriptor_length <= len) by (nonlinear_arith)
        requires
            n == len / descriptor_length,
            0 < descriptor_length,
            0 <= len,
    ;
    assert((i + 1) * descriptor_length <= n * descriptor_length) by (nonlinear_arith)
        requires
            i + 1 <= n,
            0 < descriptor_length,
    ;
}

/// The number that the two bytes at offset `i` spell, most significant first.
pub open spec fn half(b: Seq<u8>, i: int) -> int {
    b[i] * 256 + b[i + 1]
}

/// A descriptor is its bytes, field after field.
pub proof fn lemma_descriptor_fields(d: WindowDescriptor, b: Seq<u8>)
    requires
        40 <= b.len(),
        d.is_read_from(b),
    ensures
        d.id == b[0],
        d.auto <==> b[1] % 2 == 1,
        d.x_resolution == half(b, 2),
        d.y_resolution == half(b, 4),
        d.x_upper_left == half(b, 6) * 65536 + half(b, 8),
        d.y_upper_left == half(b, 10) * 65536 + half(b, 12),
        d.width == half(b, 14) * 65536 + half(b, 16),
        d.length == half(b, 18) * 65536 + half(b, 20),
        d.brightness == b[22],
        d.threshold == b[23],
        d.contrast == b[24],
        d.composition.byte() == b[25],
        d.bits_per_pixel == b[26],
        d.halftone_pattern == half(b, 27),
        d.rif <==> b[29] >= 128,
        d.padding.byte() == b[29] % 8,
        d.bit_ordering == half(b, 30),
        d.compression.byte() == b[32],
        d.compression_arg == b[33],
        d.vendor@.len() == b.len() - 40,
        forall|i: int| 40 <= i < b.len() ==> d.vendor@[i - 40] == #[trigger] b[i],
{
    assert forall|i: int| 40 <= i < b.len() implies d.vendor@[i - 40] == #[trigger] b[i] by {
        assert(b.subrange(40, b.len() as int)[i - 40] == b[i]);
    }
}

/// As many descriptors are read as fit whole behind the 8-byte header, one right after the other,
/// each as long as the header says.
pub proof fn lemma_descriptors_are_whole(
    command: GetWindow,
    data: Seq<u8>,
    descriptors: Vec<WindowDescriptor>,
    i: int,
)
    requires
        command.decodes(data, Ok(descriptors)),
    ensures
        8 <= data.len(),
        40 <= half(data, 6),
        ({
            let (n, len) = (descriptors@.len() as int, half(data, 6));
            8 + n * len <= data.len() < 8 + n * len + len
        }),
        0 <= i < descriptors@.len() ==> ({
            let from = 8 + i * half(data, 6);
            &&& from + half(data, 6) <= data.len()
            &&& descriptors@[i].is_read_from(data.subrange(from, from + half(data, 6)))
        }),
{
    let (len, rest) = (half(data, 6), data.len() - 8);
    let n = rest / len;
    assert(0 <= n && n * len <= rest < n * len + len) by (nonlinear_arith)
        requires
            0 < len,
            0 <= rest,
            n == rest / len,
    ;
    if 0 <= i < n {
        lemma_descriptor_in_bounds(rest, len, i);
        assert(descriptors@[i].is_read_from(descriptor_bytes(data, len, i)));
    }
}

impl Command for GetWindow {
    type Response = Vec<WindowDescriptor>;
    type Cdb = Cdb<10>;

    open spec fn cdb_bytes(&self) -> Seq<u8> {
        get_window_cdb(
            self.lun,
            self.single,
            self.window_identifier,
            self.transfer_length,
            self.control,
        )
    }

    open spec fn phase(&self) -> DataPhase {
        DataPhase::Read(self.transfer_length as nat)
    }

    open spec fn decodes(
        &self,
        data: Seq<u8>,
        response: Result<Vec<WindowDescriptor>, Error>,
    ) -> bool {
        let descriptor_length = GetWindowHeader::of_bytes(data).descriptor_length as int;
        if data.len() < 8 {
            response == Err::<Vec<WindowDescriptor>, Error>(
                Error::InvalidResponse("GET WINDOW response shorter than the 8-byte header"),
            )
        } else if descriptor_length < 40 {
            response == Err::<Vec<WindowDescriptor>, Error>(
                Error::InvalidResponse("window descriptor shorter than the standardized 40 bytes"),
            )
        } else {
            &&& response matches Ok(descriptors)
            &&& descriptors@.len() == descriptor_count(data, descriptor_length)
            &&& forall|i: int|
                0 <= i < descriptors@.len() ==> (#[trigger] descriptors@[i]).is_read_from(
                    descriptor_bytes(data, descriptor_length, i),
                )
        }
    }

    fn cdb(&self) -> (r: Cdb<10>) {
        let len: u32 = self.transfer_length;
        let single: u8 = if self.single { 1 } else { 0 };
        let r = Cdb(
            [
                0x25,  // opcode
                self.lun % 8 * 32 + single,
                0x00,  // reserved
                0x00,  // reserved
                0x00,  // reserved
                self.window_identifier,
                (len / 0x1_0000 % 0x100) as u8,
                (len / 0x100 % 0x100) as u8,
                (len % 0x100) as u8,
                self.control,
            ],
        );
        assert(r.0@ =~= self.cdb_bytes());
        r
    }

    fn data(&self) -> (r: CommandData<'_>) {
        CommandData::Read(self.transfer_length as usize)
    }

    fn decode(&self, data: &[u8]) -> (r: Result<Vec<WindowDescriptor>, Error>) {
        if data.len() < 8 {
            return Err(
                Error::InvalidResponse("GET WINDOW response shorter than the 8-byte header"),
            );
        }
        let header = GetWindowHeader {
            data_length: bytes::read_be16(data, 0),
            descriptor_length: bytes::read_be16(data, 6),
        };
        let descriptor_len: usize = header.descriptor_length as usize;
        if descriptor_len < 40 {
            return Err(
                Error::InvalidResponse("window descriptor shorter than the standardized 40 bytes"),
            );
        }
        // `header.data_length` is the device's advertised total across every
        // window it has defined, not the size of `data` - per spec it's
        // "not adjusted to reflect truncation," so it can't be used to size
        // anything here. Only decode as many whole descriptors as actually
        // fit in what we received; a short trailing remainder (data.len()
        // not an exact multiple of descriptor_len) is silently dropped
        // rather than indexed into.

        let len: usize = data.len();
        let count: usize = (len - 8) / descriptor_len;
        let mut descriptors: Vec<WindowDescriptor> = Vec::new();
        let mut start: usize = 8;
        let ghost stride: int = descriptor_len as int;
        assert(0 * stride == 0);
        for i in 0..count
            invariant
                len == data@.len(),
                len >= 8,
                40 <= descriptor_len,
                stride == descriptor_len,
                count == (data@.len() - 8) / stride,
                start == 8 + i * stride,
                start <= data@.len(),
                descriptors@.len() == i,
                forall|j: int|
                    0 <= j < i ==> (#[trigger] descriptors@[j]).is_read_from(
                        descriptor_bytes(data@, stride, j),
                    ),
        {
            proof {
                lemma_descriptor_in_bounds(data@.len() - 8, stride, i as int);
            }
            let next: usize = start + descriptor_len;
            descriptors.push(
                WindowDescriptor::from_bytes(vstd::slice::slice_subrange(data, start, next)),
            );
            start = next;
        }
        Ok(descriptors)
    }
}

} // verus!
