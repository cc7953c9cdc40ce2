//! The commands of the LS-50 as their bytes say them: what each one asks for, read off its
//! descriptor block and its payload.

use super::laws;
use super::protocol;
use super::ScanSettings;
use crate::scsi;
use crate::scsi::bytes;
use crate::scsi::{DataDirection, Error as ScsiError, Event, Request};
use vstd::prelude::*;

verus! {

/// The number that the two bytes at offset `i` spell, most significant first.
pub open spec fn half(data: Seq<u8>, i: int) -> int {
    data[i] * 256 + data[i + 1]
}

/// The number that the four bytes at offset `i` spell, most significant first.
pub open spec fn word(data: Seq<u8>, i: int) -> int {
    data[i] * 16777216 + data[i + 1] * 65536 + data[i + 2] * 256 + data[i + 3]
}

/// Bytes hold numbers most significant first.
pub proof fn lemma_numbers(data: Seq<u8>, i: int)
    ensures
        bytes::be16_at(data, i) == half(data, i),
        bytes::be32_at(data, i) == word(data, i),
{
}

/// The command at position `i` of `log`, if there is one.
pub open spec fn command_at(log: Seq<Event>, i: int) -> Option<Request> {
    if 0 <= i < log.len() {
        match log[i] {
            Event::Exchange { request, .. } => Some(request),
            Event::Pause { .. } => None,
        }
    } else {
        None
    }
}

/// How the command at position `i` of `log` ended.
pub open spec fn outcome_at(log: Seq<Event>, i: int) -> Result<(), ScsiError> {
    scsi::reply_at(log, i).outcome
}

/// What the device answered to the command at position `i` of `log`.
pub open spec fn answer_at(log: Seq<Event>, i: int) -> Seq<u8> {
    scsi::reply_at(log, i).data
}

/// Whether a command of opcode `opcode` stands at position `i` of `log`.
pub open spec fn sends(log: Seq<Event>, i: int, opcode: u8) -> bool {
    command_at(log, i) matches Some(r) && r.cdb.len() > 0 && r.cdb[0] == opcode
}

/// Whether a command declares a strip of `n` frames, the first of which begins at row
/// `subframe`: frame `k` covers the 5984 rows from `5984 * k + subframe` on, and the columns up
/// to `native_x`.
pub open spec fn is_declaration(r: Request, native_x: int, n: int, subframe: int) -> bool {
    &&& r.cdb.len() == 10 && r.cdb[0] == 0x2A && r.cdb[1] == 0 && r.cdb[2] == 0x88
    &&& r.cdb[3] == 0 && half(r.cdb, 4) == 3 && r.cdb[9] == 0
    &&& n < 4096 ==> r.cdb[6] == 0 && half(r.cdb, 7) == 4 + 16 * n
    &&& r.direction == DataDirection::Write
    &&& r.data.len() == 4 + 16 * n
    &&& n < 256 ==> half(r.data, 0) == 4 + 16 * n && r.data[2] == n && r.data[3] == n
    &&& forall|k: int| 0 <= k < n ==> #[trigger] declares_frame(r.data, k, native_x, subframe)
}

/// Whether a declaration says where frame `k` lies: its first row and column, and its last ones.
pub open spec fn declares_frame(data: Seq<u8>, k: int, native_x: int, subframe: int) -> bool {
    &&& word(data, 4 + 16 * k) == 5984 * k + subframe
    &&& word(data, 8 + 16 * k) == 0
    &&& word(data, 12 + 16 * k) == 5984 * k + subframe + 5983
    &&& word(data, 16 + 16 * k) == native_x - 1
}

/// A declaration says where each frame lies.
proof fn lemma_declared_frame(native_x: int, n: nat, subframe: int, k: int)
    requires
        0 <= k < n,
        1 <= native_x <= u32::MAX,
        0 <= subframe,
        5984 * n + subframe <= 0x1_0000_0000,
    ensures
        declares_frame(
            protocol::boundary_payload(native_x, n, subframe),
            k,
            native_x,
            subframe,
        ),
{
    protocol::lemma_frame_pitch();
    let payload = protocol::boundary_payload(native_x, n, subframe);
    laws::lemma_boundary_layout(native_x, n, subframe, k);
    lemma_numbers(payload, 4 + 16 * k);
    lemma_numbers(payload, 8 + 16 * k);
    lemma_numbers(payload, 12 + 16 * k);
    lemma_numbers(payload, 16 + 16 * k);
}

/// A declaration says how long it is and how many frames it declares.
proof fn lemma_declared_header(native_x: int, n: nat, subframe: int)
    ensures
        ({
            let payload = protocol::boundary_payload(native_x, n, subframe);
            &&& payload.len() == 4 + 16 * n
            &&& n < 256 ==> half(payload, 0) == 4 + 16 * n && payload[2] == n && payload[3] == n
        }),
{
    let payload = protocol::boundary_payload(native_x, n, subframe);
    laws::lemma_strip_bounds(native_x, n, subframe, 0);
    if n < 256 {
        let len = bytes::be16_bytes((4 + 16 * n) as u16);
        bytes::lemma_be16_round_trip((4 + 16 * n) as u16);
        assert(payload[0] == len[0] && payload[1] == len[1]);
        assert(payload[2] == n && payload[3] == n);
    }
}

/// Declaring a strip declares its frames at their places.
pub proof fn lemma_declaration(native_x: int, n: nat, subframe: int)
    requires
        0 < n ==> 1 <= native_x <= u32::MAX,
        0 <= subframe,
        5984 * n + subframe <= 0x1_0000_0000,
    ensures
        is_declaration(
            protocol::boundary_request(native_x, n, subframe),
            native_x,
            n as int,
            subframe,
        ),
{
    let payload = protocol::boundary_payload(native_x, n, subframe);
    lemma_declared_header(native_x, n, subframe);
    if n < 4096 {
        crate::scsi::cdbs::lemma_lengths(
            0,
            crate::scsi::cdbs::DataTypeCode::Vendor(0x88),
            3,
            (4 + 16 * n) as u32,
            0,
            0,
        );
    }
    assert forall|k: int| 0 <= k < n implies #[trigger] declares_frame(
        payload,
        k,
        native_x,
        subframe,
    ) by {
        lemma_declared_frame(native_x, n, subframe, k);
    }
}

/// Whether a command asks for autofocus at column `x` and row `y`.
pub open spec fn is_focus(r: Request, x: int, y: int) -> bool {
    &&& r.cdb == seq![0xE0u8, 0, 0xA0, 0, 0, 0, 0, 0, 9, 0]
    &&& r.direction == DataDirection::Write
    &&& r.data.len() == 9
    &&& r.data[0] == 0
    &&& word(r.data, 1) == x
    &&& word(r.data, 5) == y
}

/// Asking for autofocus names the point.
pub proof fn lemma_focus(x: u32, y: u32)
    ensures
        is_focus(protocol::set_up_request(0xA0, protocol::autofocus_bytes(x, y)), x as int, y as int),
{
    let r = protocol::set_up_request(0xA0, protocol::autofocus_bytes(x, y));
    assert(r.cdb =~= seq![0xE0u8, 0, 0xA0, 0, 0, 0, 0, 0, 9, 0]);
    let (a, b) = (bytes::be32_bytes(x), bytes::be32_bytes(y));
    bytes::lemma_be32_round_trip(x);
    bytes::lemma_be32_round_trip(y);
    assert(r.data[1] == a[0] && r.data[2] == a[1] && r.data[3] == a[2] && r.data[4] == a[3]);
    assert(r.data[5] == b[0] && r.data[6] == b[1] && r.data[7] == b[2] && r.data[8] == b[3]);
    lemma_numbers(a, 0);
    lemma_numbers(b, 0);
}

/// Whether a command starts what was set up.
pub open spec fn is_trigger(r: Request) -> bool {
    r.cdb == seq![0xC1u8, 0, 0, 0, 0, 0] && r.data.len() == 0
}

/// Whether a command parks the focus at 0.
pub open spec fn is_parking(r: Request) -> bool {
    &&& r.cdb == seq![0xE0u8, 0, 0xC1, 0, 0, 0, 0, 0, 9, 0]
    &&& r.data.len() == 9
    &&& forall|i: int| 0 <= i < 9 ==> r.data[i] == 0
}

/// Whether a command uploads the gamma table of a channel, and the table maps every 14-bit value
/// to itself.
pub open spec fn is_table(r: Request, channel: u8) -> bool {
    &&& r.cdb == seq![0x2Au8, 0, 3, 0, channel, 1, 0, 128, 0, 0]
    &&& r.direction == DataDirection::Write
    &&& r.data.len() == 32768
    &&& forall|v: int| 0 <= v < 16384 ==> #[trigger] half(r.data, 2 * v) == v
}

/// Uploading a gamma table uploads the identity.
pub proof fn lemma_table(channel: u8)
    ensures
        is_table(protocol::lut_request(channel), channel),
{
    let r = protocol::lut_request(channel);
    assert(r.cdb =~= seq![0x2Au8, 0, 3, 0, channel, 1, 0, 128, 0, 0]);
    assert forall|v: int| 0 <= v < 16384 implies #[trigger] half(r.data, 2 * v) == v by {
        laws::lemma_lut_is_identity(v);
        lemma_numbers(r.data, 2 * v);
    }
}

/// Whether a command sets the window of a channel: the whole area of the settings, at their
/// resolution, from row `y` on, with an exposure and a scan mode.
pub open spec fn is_window(
    r: Request,
    s: ScanSettings,
    channel: u8,
    exposure: int,
    y: int,
    mode: int,
) -> bool {
    &&& r.cdb == seq![0x24u8, 0, 0, 0, 0, 0, 0, 0, 58, 128]
    &&& r.direction == DataDirection::Write
    &&& r.data.len() == 58
    &&& forall|i: int| 0 <= i < 6 || i == 9 || 30 <= i < 33 || 35 <= i < 49 ==> r.data[i] == 0
    &&& half(r.data, 6) == 50
    &&& r.data[8] == channel
    &&& half(r.data, 10) == s.grid_res() && half(r.data, 12) == s.grid_res()
    &&& word(r.data, 14) == 0 && word(r.data, 18) == y
    &&& word(r.data, 22) == s.native_columns() && word(r.data, 26) == s.native_rows()
    &&& r.data[33] == 5 && r.data[34] == 14
    &&& r.data[49] == 0x81 && r.data[50] == mode
    &&& r.data[51] == 2 && r.data[52] == 2 && r.data[53] == 0xFF
    &&& word(r.data, 54) == exposure
}

/// Setting a window sets what was asked for.
pub proof fn lemma_window(
    s: ScanSettings,
    channel: u8,
    exposure: Option<u32>,
    y: u32,
    ae: bool,
)
    ensures
        is_window(
            protocol::set_window_request(protocol::window_payload(s, channel, exposure, y, ae)),
            s,
            channel,
            match exposure {
                Some(v) => v as int,
                None => 0,
            },
            y as int,
            if ae {
                32
            } else if s.samples == 0 {
                1
            } else {
                s.samples as int
            },
        ),
{
    let d = protocol::window_payload(s, channel, exposure, y, ae);
    let e: u32 = match exposure {
        Some(v) => v,
        None => 0,
    };
    assert(d.len() == 58);
    assert(protocol::set_window_request(d).cdb =~= seq![0x24u8, 0, 0, 0, 0, 0, 0, 0, 58, 128]);
    assert(d[49] == 0x81 && d[51] == 2 && d[52] == 2 && d[53] == 0xFF);
    assert forall|i: int| 0 <= i < 6 || i == 9 || 30 <= i < 33 || 35 <= i < 49 implies d[i] == 0 by {}
    s.lemma_native_dims();
    let (w, h) = (s.native_columns() as u32, s.native_rows() as u32);
    bytes::lemma_be16_round_trip(s.grid_res());
    bytes::lemma_be32_round_trip(y);
    bytes::lemma_be32_round_trip(w);
    bytes::lemma_be32_round_trip(h);
    bytes::lemma_be32_round_trip(e);
    let res = bytes::be16_bytes(s.grid_res());
    assert(d[6] == 0 && d[7] == 50 && d[8] == channel);
    assert(d[10] == res[0] && d[11] == res[1] && d[12] == res[0] && d[13] == res[1]);
    assert(d[14] == 0 && d[15] == 0 && d[16] == 0 && d[17] == 0);
    let b = bytes::be32_bytes(y);
    assert(d[18] == b[0] && d[19] == b[1] && d[20] == b[2] && d[21] == b[3]);
    let b = bytes::be32_bytes(w);
    assert(d[22] == b[0] && d[23] == b[1] && d[24] == b[2] && d[25] == b[3]);
    let b = bytes::be32_bytes(h);
    assert(d[26] == b[0] && d[27] == b[1] && d[28] == b[2] && d[29] == b[3]);
    let b = bytes::be32_bytes(e);
    assert(d[33] == 5 && d[34] == 14 && d[50] == protocol::scan_mode(s.samples, ae));
    assert(d[54] == b[0] && d[55] == b[1] && d[56] == b[2] && d[57] == b[3]);
    lemma_numbers(res, 0);
    lemma_numbers(bytes::be32_bytes(y), 0);
    lemma_numbers(bytes::be32_bytes(w), 0);
    lemma_numbers(bytes::be32_bytes(h), 0);
    lemma_numbers(bytes::be32_bytes(e), 0);
}

/// Whether a window was taken: the command succeeded, or the device recovered from it (sense key
/// 1).
pub open spec fn is_taken(outcome: Result<(), ScsiError>) -> bool {
    ||| outcome is Ok
    ||| outcome matches Err(ScsiError::Status { sense: Some(sense), .. }) && sense.key == 1
}

/// Whether a command scans the channels of `ids`.
pub open spec fn is_scan(r: Request, ids: Seq<u8>) -> bool {
    &&& r.cdb == seq![0x1Bu8, 0, 0, 0, ids.len() as u8, 0]
    &&& r.direction == DataDirection::Write
    &&& r.data == ids
}

/// Whether a command reads `len` bytes of the image.
pub open spec fn is_read(r: Request, len: int) -> bool {
    &&& r.cdb.len() == 10 && r.cdb[0] == 0x28 && r.cdb[9] == 0
    &&& forall|i: int| 1 <= i < 6 ==> r.cdb[i] == 0
    &&& len < 16777216 ==> r.cdb[6] * 65536 + half(r.cdb, 7) == len
    &&& r.direction == DataDirection::Read
    &&& r.data.len() == len
}

/// Whether a command asks for the window of a channel.
pub open spec fn is_window_query(r: Request, channel: u8) -> bool {
    &&& r.cdb == seq![0x25u8, 1, 0, 0, 0, channel, 0, 0, 58, 0]
    &&& r.direction == DataDirection::Read
    &&& r.data.len() == 58
}

/// The commands that scan, read and ask for windows say so.
pub proof fn lemma_image_commands(infrared: bool, len: u32, channel: u8)
    ensures
        is_trigger(protocol::trigger_request()),
        is_parking(protocol::set_up_request(0xC1, bytes::zeros(9))),
        is_scan(protocol::scan_request(protocol::channel_ids(infrared)), channels(infrared)),
        is_read(protocol::read_request(len), len as int),
        is_window_query(protocol::get_window_request(true, channel), channel),
{
    assert(protocol::trigger_request().cdb =~= seq![0xC1u8, 0, 0, 0, 0, 0]);
    assert(protocol::get_window_request(true, channel).cdb =~= seq![
        0x25u8, 1, 0, 0, 0, channel, 0, 0, 58, 0,
    ]);
    assert(protocol::channel_ids(infrared) =~= channels(infrared));
    assert(protocol::set_up_request(0xC1, bytes::zeros(9)).cdb =~= seq![
        0xE0u8, 0, 0xC1, 0, 0, 0, 0, 0, 9, 0,
    ]);
    let ids = protocol::channel_ids(infrared);
    assert(protocol::scan_request(ids).cdb =~= seq![0x1Bu8, 0, 0, 0, ids.len() as u8, 0]);
    let cdb = protocol::read_request(len).cdb;
    assert forall|i: int| 1 <= i < 6 implies cdb[i] == 0 by {}
    crate::scsi::cdbs::lemma_lengths(
        0,
        crate::scsi::cdbs::DataTypeCode::Image,
        0,
        len,
        0,
        0,
    );
}

/// The channels of a scan: red, green and blue are 1, 2 and 3, and infrared is 9.
pub open spec fn channels(infrared: bool) -> Seq<u8> {
    if infrared {
        seq![1u8, 2, 3, 9]
    } else {
        seq![1u8, 2, 3]
    }
}

} // verus!
