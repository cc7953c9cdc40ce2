//! What a scan does, read off the link: which places were declared, focused on and scanned, with
//! which exposures, and which bytes became which frame.

use super::decode;
use super::laws;
use super::protocol;
use super::status::Status;
use super::wire;
use super::{ScanError, ScanSettings};
use crate::scanners::decode::{Frame, Raster};
use crate::scsi;
use crate::scsi::bytes;
use crate::scsi::{Error as ScsiError, Event};
use vstd::prelude::*;

verus! {

/// Where the parts of one pass stand on the link.
pub struct Pass {
    /// The declaration of the strip, the first command of the pass
    pub declared: nat,
    /// The command that sets the focus up
    pub focused: nat,
    /// The first gamma table
    pub tables: nat,
    /// The first window
    pub windows: nat,
    /// The SCAN that was accepted
    pub started: nat,
    /// The position after the pass
    pub end: nat,
}

/// Whether the state was asked for at position `i`.
pub open spec fn is_poll(log: Seq<Event>, i: int) -> bool {
    sends_cdb(log, i, seq![0u8, 0, 0, 0, 0, 0])
}

/// Whether all windows were asked for at position `i`.
pub open spec fn is_read_back(log: Seq<Event>, i: int) -> bool {
    sends_cdb(log, i, seq![0x25u8, 0, 0, 0, 0, 0, 0, 0, 58, 0])
}

/// Whether the gamma table of a channel was accepted at position `i`.
pub open spec fn has_table(log: Seq<Event>, i: int, channel: u8) -> bool {
    &&& wire::command_at(log, i) matches Some(r) && wire::is_table(r, channel)
    &&& wire::outcome_at(log, i) is Ok
}

/// Whether the window of a channel was taken at position `i`.
pub open spec fn has_window(
    log: Seq<Event>,
    i: int,
    s: ScanSettings,
    channel: u8,
    exposure: int,
    y: int,
    mode: int,
) -> bool {
    &&& wire::command_at(log, i) matches Some(r) && wire::is_window(
        r,
        s,
        channel,
        exposure,
        y,
        mode,
    )
    &&& wire::is_taken(wire::outcome_at(log, i))
}

/// The exposure of channel number `k`: those of red, green and blue are given, and infrared has
/// none.
pub open spec fn exposure_of(exposure: Seq<u32>, k: int) -> int {
    if k < 3 {
        exposure[k] as int
    } else {
        0
    }
}

/// The scan mode of a pass: 32 for a measurement, else the number of samples, at least 1.
pub open spec fn mode_of(s: ScanSettings, measuring: bool) -> int {
    if measuring {
        32
    } else if s.samples == 0 {
        1
    } else {
        s.samples as int
    }
}

/// The channels of a pass: red, green and blue, and infrared where that is asked for and the
/// pass is no measurement.
pub open spec fn ids_of(s: ScanSettings, measuring: bool) -> Seq<u8> {
    if measuring {
        wire::channels(false)
    } else {
        wire::channels(s.infrared)
    }
}

/// Whether the command at position `i`, if there is one, has its place in the pass: strips are
/// declared, focus points named, tables uploaded and windows set only where the pass says so,
/// only the last SCAN is accepted, and lines are read only after it.
pub open spec fn in_place(
    log: Seq<Event>,
    p: Pass,
    i: int,
    s: ScanSettings,
    measuring: bool,
) -> bool {
    let ids = ids_of(s, measuring);
    wire::command_at(log, i) matches Some(r) ==> {
        &&& r.cdb[0] == 0x2A && r.cdb[2] == 0x88 ==> i == p.declared
        &&& r.cdb[0] == 0xE0 && r.cdb[2] == 0xA0 ==> s.autofocus && !measuring && i == p.focused
        &&& r.cdb[0] == 0x2A && r.cdb[2] != 0x88 ==> p.tables <= i < p.windows
        &&& r.cdb[0] == 0x24 ==> p.windows <= i < p.windows + ids.len()
        &&& r.cdb[0] == 0x1B ==> i <= p.started && wire::is_scan(r, ids) && (wire::outcome_at(
            log,
            i,
        ) is Ok ==> i == p.started)
        &&& r.cdb[0] == 0x28 ==> p.started < i
    }
}

/// Whether `p` is a pass over frame `frame` of a strip of `n` frames that begins at row
/// `subframe`: the strip is declared; the focus is set to the middle of the frame, or parked;
/// every channel gets its gamma table, and then its window at the frame's place with its
/// exposure; the windows are read back, once for each channel; and then the channels are scanned.
/// The scanner is polled after it focused, and after the windows were read back. A measurement parks the focus, uploads no table
/// and leaves infrared out.
#[verifier::opaque]
pub open spec fn is_pass(
    log: Seq<Event>,
    p: Pass,
    s: ScanSettings,
    n: int,
    frame: int,
    subframe: int,
    exposure: Seq<u32>,
    measuring: bool,
) -> bool {
    let ids = ids_of(s, measuring);
    let y = 5984 * frame + subframe;
    &&& p.declared < p.focused && p.focused + 2 < p.tables
    &&& p.windows == p.tables + if measuring {
        0
    } else {
        ids.len()
    }
    &&& p.windows + 2 * ids.len() < p.started < p.end <= log.len()
    &&& wire::command_at(log, p.declared as int) matches Some(r) && wire::is_declaration(
        r,
        s.caps.native_x as int,
        n,
        subframe,
    )
    &&& wire::command_at(log, p.focused as int) matches Some(r) && if s.autofocus && !measuring {
        wire::is_focus(r, s.native_columns() / 2, y + s.native_rows() / 2)
    } else {
        wire::is_parking(r)
    }
    &&& wire::command_at(log, (p.focused + 1) as int) matches Some(r) && wire::is_trigger(r)
    &&& is_poll(log, (p.focused + 2) as int)
    &&& !measuring ==> forall|k: int|
        0 <= k < ids.len() ==> has_table(log, p.tables + k, #[trigger] ids[k])
    &&& forall|k: int|
        0 <= k < ids.len() ==> has_window(
            log,
            p.windows + k,
            s,
            #[trigger] ids[k],
            exposure_of(exposure, k),
            y,
            mode_of(s, measuring),
        )
    &&& forall|k: int|
        0 <= k < ids.len() ==> #[trigger] is_read_back(log, p.windows + ids.len() + k)
    &&& is_poll(log, (p.windows + 2 * ids.len()) as int)
    &&& wire::command_at(log, p.started as int) matches Some(r) && wire::is_scan(r, ids)
    &&& wire::outcome_at(log, p.started as int) is Ok
    &&& forall|i: int|
        p.declared <= i < p.end ==> #[trigger] in_place(log, p, i, s, measuring)
}

/// Whether `frame` is the picture in `data`, lines of whole planes: the sample of column `x` and
/// channel `c` in row `y` is the number at that place of plane `c` of line `y`, planes being
/// padded to an even number of samples.
pub open spec fn is_picture(frame: Raster, s: ScanSettings, data: Seq<u8>) -> bool {
    let w = s.columns();
    let h = frame.height as int;
    let plane = w + w % 2;
    let stride = s.line_len();
    &&& frame.width == w
    &&& 0 < stride ==> h * stride <= data.len() < h * stride + stride
    &&& stride == 0 ==> h == 0
    &&& frame.rgb.len() == w * h * 3
    &&& forall|y: int, x: int, c: int|
        0 <= y < h && 0 <= x < w && 0 <= c < 3 ==> #[trigger] rgb_at(frame, w, y, x, c)
            == wire::half(data, y * stride + 2 * (c * plane + x))
    &&& s.infrared <==> frame.ir is Some
    &&& frame.ir matches Some(ir) ==> ir.len() == w * h && forall|y: int, x: int|
        0 <= y < h && 0 <= x < w ==> #[trigger] ir_at(ir, w, y, x) == wire::half(
            data,
            y * stride + 2 * (3 * plane + x),
        )
}

/// The sample of channel `c` at column `x` of row `y`.
pub open spec fn rgb_at(frame: Raster, w: int, y: int, x: int, c: int) -> int {
    frame.rgb[(y * w + x) * 3 + c] as int
}

/// The infrared sample at column `x` of row `y`.
pub open spec fn ir_at(ir: Seq<u16>, w: int, y: int, x: int) -> int {
    ir[y * w + x] as int
}

/// A stream decodes to the picture in it.
pub proof fn lemma_picture(s: ScanSettings, data: Seq<u8>)
    ensures
        is_picture(decode::planar_frame(decode::settings_layout(s), data), s, data),
{
    let frame = decode::planar_frame(decode::settings_layout(s), data);
    s.lemma_grid_pitch();
    s.lemma_line_len();
    let (w, h, stride) = (s.columns(), frame.height as int, s.line_len());
    let n = data.len() as int;
    if 0 < stride {
        assert((n / stride) * stride <= n < (n / stride) * stride + stride && 0 <= n / stride)
            by (nonlinear_arith)
            requires
                0 < stride,
                0 <= n,
        ;
    }
    let planes = s.planes();
    assert(0 <= planes * (w + w % 2) * 2) by (nonlinear_arith)
        requires
            0 <= w + w % 2,
            0 <= planes,
    ;
    assert(0 <= w * h) by (nonlinear_arith)
        requires
            0 <= w,
            0 <= h,
    ;
    assert forall|y: int, x: int, c: int| 0 <= y < h && 0 <= x < w && 0 <= c < 3 implies #[trigger] rgb_at(
        frame,
        w,
        y,
        x,
        c,
    ) == wire::half(data, y * stride + 2 * (c * (w + w % 2) + x)) by {
        decode::lemma_rgb_position(w, y, x, c);
        assert(0 <= y * w + x < w * h) by (nonlinear_arith)
            requires
                0 <= y < h,
                0 <= x < w,
        ;
        assert((y * w + x) * 3 + c == y * w * 3 + x * 3 + c) by (nonlinear_arith);
        wire::lemma_numbers(data, y * stride + 2 * (c * (w + w % 2) + x));
    }
    if s.infrared {
        let ir = frame.ir->0;
        assert forall|y: int, x: int| 0 <= y < h && 0 <= x < w implies #[trigger] ir_at(
            ir,
            w,
            y,
            x,
        ) == wire::half(data, y * stride + 2 * (3 * (w + w % 2) + x)) by {
            decode::lemma_rgb_position(w, y, x, 0);
            assert(0 <= y * w + x < w * h) by (nonlinear_arith)
                requires
                    0 <= y < h,
                    0 <= x < w,
            ;
            wire::lemma_numbers(data, y * stride + 2 * (3 * (w + w % 2) + x));
        }
    }
}

/// Where a walk ends.
spec fn end_of<R>(told: protocol::Told<R>) -> nat {
    match told {
        Some((_, end)) => end,
        None => 0,
    }
}

/// Whether a command at position `i`, if there is one, has a place anywhere in a pass.
pub(super) open spec fn is_quiet(log: Seq<Event>, i: int) -> bool {
    wire::command_at(log, i) matches Some(r) ==> {
        &&& r.cdb[0] != 0x2A && r.cdb[0] != 0x24 && r.cdb[0] != 0x1B && r.cdb[0] != 0x28
        &&& r.cdb[0] == 0xE0 ==> r.cdb[2] != 0xA0
    }
}

/// Waiting for readiness is quiet.
proof fn lemma_ready_is_quiet(log: Seq<Event>, at: nat)
    ensures
        protocol::ready_walk(log, at) matches Some((_, end)) ==> at < end <= log.len() && is_poll(
            log,
            at as int,
        ) && forall|i: int| at <= i < end ==> #[trigger] is_quiet(log, i),
{
    laws::lemma_readying_only_polls(
        log,
        at,
        super::scan::READY_ATTEMPTS as nat,
        Status::Initializing,
    );
    if protocol::ready_walk(log, at) is Some {
        match protocol::status_walk(log, at) {
            Some((Ok(status), _)) => {
                laws::lemma_readying_only_polls(
                    log,
                    at + 2,
                    (super::scan::READY_ATTEMPTS - 1) as nat,
                    status,
                );
            },
            _ => {},
        }
        assert(protocol::test_request().cdb =~= seq![0u8, 0, 0, 0, 0, 0]);
        let end = end_of(protocol::ready_walk(log, at));
        assert forall|i: int| at <= i < end implies #[trigger] is_quiet(log, i) by {
            assert(laws::is_poll(log[i]));
        }
    }
}

/// Focusing sets the focus up, and starts it, in one place.
proof fn lemma_focused(
    log: Seq<Event>,
    at: nat,
    s: ScanSettings,
    y: int,
    ae: bool,
    end: nat,
) -> (focused: nat)
    requires
        protocol::focus_walk(log, at, s, y, ae) matches Some((Ok(_), next)) && next == end,
        0 <= y,
        s.autofocus && !ae ==> y + s.native_rows() / 2 <= u32::MAX,
    ensures
        at <= focused,
        focused + 2 < end <= log.len(),
        is_poll(log, (focused + 2) as int),
        wire::command_at(log, focused as int) matches Some(r) && if s.autofocus && !ae {
            wire::is_focus(r, s.native_columns() / 2, y + s.native_rows() / 2)
        } else {
            wire::is_parking(r)
        },
        wire::command_at(log, (focused + 1) as int) matches Some(r) && wire::is_trigger(r),
        forall|i: int|
            at <= i < end ==> #[trigger] is_quiet(log, i) || (s.autofocus && !ae && i == focused),
{
    wire::lemma_image_commands(false, 0, 0);
    s.lemma_native_dims();
    if s.autofocus && !ae {
        wire::lemma_focus((s.native_columns() / 2) as u32, (y + s.native_rows() / 2) as u32);
        lemma_ready_is_quiet(log, at + 3);
        at + 1
    } else {
        lemma_ready_is_quiet(log, at + 2);
        at
    }
}

/// Reading the windows back is quiet.
pub(super) proof fn lemma_read_back_is_quiet(log: Seq<Event>, at: nat, n: nat)
    ensures
        protocol::read_back_walk(log, at, n) matches Some((_, end)) ==> at + n < end <= log.len()
            && is_poll(log, (at + n) as int) && (forall|k: int|
            0 <= k < n ==> #[trigger] is_read_back(log, at + k)) && forall|i: int|
            at <= i < end ==> #[trigger] is_quiet(log, i),
{
    let asked = protocol::read_back_requests(n);
    if protocol::all_sent(log, at, asked) {
        lemma_ready_is_quiet(log, at + n);
        assert(protocol::get_window_request(false, 0).cdb =~= seq![
            0x25u8, 0, 0, 0, 0, 0, 0, 0, 58, 0,
        ]);
        assert forall|k: int| 0 <= k < n implies #[trigger] is_read_back(log, at + k) by {
            assert(scsi::reply_to(log, (at + k) as nat, asked[k]) is Some);
        }
        assert forall|i: int| at <= i < at + n implies #[trigger] is_quiet(log, i) by {
            assert(is_read_back(log, at + (i - at)));
        }
    }
}

/// Whether the channels were given their tables from position `tables` on, and their windows
/// from position `windows` on.
spec fn is_configured(
    log: Seq<Event>,
    tables: nat,
    windows: nat,
    s: ScanSettings,
    y: int,
    exposure: Seq<u32>,
    measuring: bool,
) -> bool {
    let ids = ids_of(s, measuring);
    &&& windows == tables + if measuring {
        0
    } else {
        ids.len()
    }
    &&& !measuring ==> forall|k: int|
        0 <= k < ids.len() ==> has_table(log, tables + k, #[trigger] ids[k])
    &&& forall|k: int|
        0 <= k < ids.len() ==> has_window(
            log,
            windows + k,
            s,
            #[trigger] ids[k],
            exposure_of(exposure, k),
            y,
            mode_of(s, measuring),
        )
    &&& forall|k: int|
        0 <= k < ids.len() ==> #[trigger] is_read_back(log, windows + ids.len() + k)
    &&& is_poll(log, (windows + 2 * ids.len()) as int)
}

/// The tables that were accepted were those of the channels.
proof fn lemma_tabled(log: Seq<Event>, at: nat, infrared: bool, end: nat)
    requires
        protocol::luts_walk(log, at, protocol::channel_ids(infrared), 0) matches Some((Ok(_), next))
            && next == end,
    ensures
        end == at + wire::channels(infrared).len(),
        forall|k: int|
            0 <= k < wire::channels(infrared).len() ==> has_table(
                log,
                at + k,
                #[trigger] wire::channels(infrared)[k],
            ),
{
    let ids = protocol::channel_ids(infrared);
    assert(ids =~= wire::channels(infrared));
    laws::lemma_luts_accepted(log, at, ids, 0, end);
    assert forall|k: int| 0 <= k < ids.len() implies has_table(log, at + k, #[trigger] ids[k]) by {
        wire::lemma_table(ids[k]);
        assert(scsi::reply_to(log, (at + k - 0) as nat, protocol::lut_request(ids[k])) is Some);
    }
}

/// The windows that were taken were those of the channels.
proof fn lemma_windowed(
    log: Seq<Event>,
    at: nat,
    s: ScanSettings,
    exposure: Seq<u32>,
    y: int,
    ae: bool,
    end: nat,
)
    requires
        protocol::windows_walk(log, at, s, exposure, y, ae, 0) matches Some((Ok(_), next)) && next
            == end,
        exposure.len() == 3,
        0 <= y <= u32::MAX,
    ensures
        end == at + wire::channels(s.infrared).len(),
        forall|k: int|
            0 <= k < wire::channels(s.infrared).len() ==> has_window(
                log,
                at + k,
                s,
                #[trigger] wire::channels(s.infrared)[k],
                exposure_of(exposure, k),
                y,
                mode_of(s, ae),
            ),
{
    let ids = protocol::channel_ids(s.infrared);
    assert(ids =~= wire::channels(s.infrared));
    laws::lemma_windows_accepted(log, at, s, exposure, y, ae, 0, end);
    assert forall|k: int| 0 <= k < ids.len() implies has_window(
        log,
        at + k,
        s,
        #[trigger] ids[k],
        exposure_of(exposure, k),
        y,
        mode_of(s, ae),
    ) by {
        wire::lemma_window(s, ids[k], protocol::channel_exposure(exposure, k), y as u32, ae);
        let asked = laws::window_request_of(s, exposure, y, ae, k);
        assert(scsi::reply_to(log, (at + k - 0) as nat, asked) is Some);
    }
}

/// Channels that were configured got their tables and windows, and what comes after is quiet.
proof fn lemma_configured(
    log: Seq<Event>,
    tables: nat,
    s: ScanSettings,
    exposure: Seq<u32>,
    y: int,
    ae: bool,
    armed: nat,
) -> (windows: nat)
    requires
        protocol::configure_walk(log, tables, s, exposure, y, ae) matches Some((Ok(_), next))
            && next == armed,
        exposure.len() == 3,
        ae ==> !s.infrared,
        0 <= y <= u32::MAX,
    ensures
        is_configured(log, tables, windows, s, y, exposure, ae),
        windows + 2 * ids_of(s, ae).len() < armed <= log.len(),
        forall|i: int|
            windows + ids_of(s, ae).len() <= i < armed ==> #[trigger] is_quiet(log, i),
{
    let ids = protocol::channel_ids(s.infrared);
    assert(ids =~= wire::channels(s.infrared));
    if ae {
        assert(protocol::luts_walk(log, tables, Seq::empty(), 0) matches Some((Ok(_), next))
            && next == tables);
        let back = end_of(protocol::windows_walk(log, tables, s, exposure, y, ae, 0));
        lemma_windowed(log, tables, s, exposure, y, ae, back);
        lemma_read_back_is_quiet(log, back, ids.len());
        tables
    } else {
        let windows = end_of(protocol::luts_walk(log, tables, ids, 0));
        lemma_tabled(log, tables, s.infrared, windows);
        let back = end_of(protocol::windows_walk(log, windows, s, exposure, y, ae, 0));
        lemma_windowed(log, windows, s, exposure, y, ae, back);
        lemma_read_back_is_quiet(log, back, ids.len());
        windows
    }
}

/// A pass that was armed has its declaration, focus, tables and windows; `started` and `end` are
/// left open.
proof fn lemma_armed(
    log: Seq<Event>,
    at: nat,
    s: ScanSettings,
    n: nat,
    frame: int,
    subframe: int,
    exposure: Seq<u32>,
    ae: bool,
    armed: nat,
) -> (p: Pass)
    requires
        protocol::arm_walk(log, at, s, n, frame, subframe, exposure, ae) matches Some((Ok(_), next))
            && next == armed,
        exposure.len() == 3,
        ae ==> !s.infrared,
        0 <= subframe,
        0 <= frame,
        5984 * frame + subframe <= u32::MAX,
        0 < n ==> 1 <= s.caps.native_x,
        5984 * n + subframe <= 0x1_0000_0000,
        s.autofocus && !ae ==> 5984 * frame + subframe + s.native_rows() / 2 <= u32::MAX,
    ensures
        is_armed(log, p, s, n as int, frame, subframe, exposure, ae),
        p.declared == at,
        p.windows + 2 * ids_of(s, ae).len() < armed <= log.len(),
        forall|i: int|
            p.windows + ids_of(s, ae).len() <= i < armed ==> #[trigger] is_quiet(log, i),
{
    reveal(protocol::arm_walk);
    protocol::lemma_frame_pitch();
    let y = protocol::frame_start(frame, subframe);
    assert(y == 5984 * frame + subframe);
    wire::lemma_declaration(s.caps.native_x as int, n, subframe);
    let tables = end_of(protocol::focus_walk(log, at + 1, s, y, ae));
    let focused = lemma_focused(log, at + 1, s, y, ae, tables);
    let windows = lemma_configured(log, tables, s, exposure, y, ae, armed);
    let p = Pass { declared: at, focused, tables, windows, started: armed, end: armed };
    lemma_all_in_place(log, p, s, y, exposure, ae);
    p
}

/// The commands before the SCAN of a pass have their places.
proof fn lemma_all_in_place(
    log: Seq<Event>,
    p: Pass,
    s: ScanSettings,
    y: int,
    exposure: Seq<u32>,
    measuring: bool,
)
    requires
        p.declared < p.tables,
        wire::command_at(log, p.declared as int) matches Some(r) && r.cdb[0] == 0x2A && r.cdb[2]
            == 0x88,
        forall|i: int|
            p.declared + 1 <= i < p.tables ==> #[trigger] is_quiet(log, i) || (s.autofocus
                && !measuring && i == p.focused),
        wire::command_at(log, p.focused as int) matches Some(r) && (r.cdb[0] == 0xE0),
        is_configured(log, p.tables, p.windows, s, y, exposure, measuring),
    ensures
        forall|i: int|
            p.declared <= i < p.windows + ids_of(s, measuring).len() ==> #[trigger] in_place_before(
                log,
                p,
                i,
                s,
                measuring,
            ),
{
    let ids = ids_of(s, measuring);
    assert forall|i: int| p.declared <= i < p.windows + ids.len() implies #[trigger] in_place_before(
        log,
        p,
        i,
        s,
        measuring,
    ) by {
        if i == p.declared {
        } else if i < p.tables {
            assert(is_quiet(log, i) || s.autofocus && !measuring && i == p.focused);
        } else if i < p.windows {
            let k = i - p.tables;
            assert(has_table(log, p.tables + k, ids[k]));
        } else {
            let k = i - p.windows;
            assert(has_window(
                log,
                p.windows + k,
                s,
                ids[k],
                exposure_of(exposure, k),
                y,
                mode_of(s, measuring),
            ));
        }
    }
}

/// Whether the command at position `i`, if there is one, has its place in what comes before the
/// SCAN of a pass.
spec fn in_place_before(
    log: Seq<Event>,
    p: Pass,
    i: int,
    s: ScanSettings,
    measuring: bool,
) -> bool {
    wire::command_at(log, i) matches Some(r) ==> {
        &&& r.cdb[0] == 0x2A && r.cdb[2] == 0x88 ==> i == p.declared
        &&& r.cdb[0] == 0xE0 && r.cdb[2] == 0xA0 ==> s.autofocus && !measuring && i == p.focused
        &&& r.cdb[0] == 0x2A && r.cdb[2] != 0x88 ==> p.tables <= i < p.windows
        &&& r.cdb[0] == 0x24 ==> p.windows <= i < p.windows + ids_of(s, measuring).len()
        &&& r.cdb[0] != 0x1B
        &&& r.cdb[0] != 0x28
    }
}

/// Whether `p` has what comes before the SCAN of a pass.
spec fn is_armed(
    log: Seq<Event>,
    p: Pass,
    s: ScanSettings,
    n: int,
    frame: int,
    subframe: int,
    exposure: Seq<u32>,
    measuring: bool,
) -> bool {
    let ids = ids_of(s, measuring);
    let y = 5984 * frame + subframe;
    &&& p.declared < p.focused && p.focused + 2 < p.tables
    &&& p.windows == p.tables + if measuring {
        0
    } else {
        ids.len()
    }
    &&& wire::command_at(log, p.declared as int) matches Some(r) && wire::is_declaration(
        r,
        s.caps.native_x as int,
        n,
        subframe,
    )
    &&& wire::command_at(log, p.focused as int) matches Some(r) && if s.autofocus && !measuring {
        wire::is_focus(r, s.native_columns() / 2, y + s.native_rows() / 2)
    } else {
        wire::is_parking(r)
    }
    &&& wire::command_at(log, (p.focused + 1) as int) matches Some(r) && wire::is_trigger(r)
    &&& is_poll(log, (p.focused + 2) as int)
    &&& !measuring ==> forall|k: int|
        0 <= k < ids.len() ==> has_table(log, p.tables + k, #[trigger] ids[k])
    &&& forall|k: int|
        0 <= k < ids.len() ==> has_window(
            log,
            p.windows + k,
            s,
            #[trigger] ids[k],
            exposure_of(exposure, k),
            y,
            mode_of(s, measuring),
        )
    &&& forall|k: int|
        0 <= k < ids.len() ==> #[trigger] is_read_back(log, p.windows + ids.len() + k)
    &&& is_poll(log, (p.windows + 2 * ids.len()) as int)
    &&& forall|i: int|
        p.declared <= i < p.windows + ids.len() ==> #[trigger] in_place_before(log, p, i, s, measuring)
}

/// A scan that was started was accepted by its last SCAN, and by none before.
pub(super) proof fn lemma_started(log: Seq<Event>, at: nat, infrared: bool, tries: nat, end: nat)
    requires
        protocol::start_walk(log, at, protocol::channel_ids(infrared), tries) matches Some(
            (Ok(_), next),
        ) && next == end,
    ensures
        at < end <= log.len(),
        wire::command_at(log, end - 1) matches Some(r) && wire::is_scan(r, wire::channels(infrared)),
        wire::outcome_at(log, end - 1) is Ok,
        forall|i: int| at <= i < end ==> #[trigger] is_start(log, i, end - 1, infrared),
    decreases tries,
{
    wire::lemma_image_commands(infrared, 0, 0);
    if tries > 0 {
        let asked = protocol::scan_request(protocol::channel_ids(infrared));
        match scsi::reply_to(log, at, asked) {
            Some(reply) => {
                if reply.outcome is Err {
                    lemma_started(log, at + 2, infrared, (tries - 1) as nat, end);
                    assert(is_start(log, at as int, end - 1, infrared));
                    assert(is_start(log, (at + 1) as int, end - 1, infrared));
                }
            },
            None => {},
        }
    }
}

/// Whether the command at position `i`, if there is one, is a SCAN that is accepted only if it
/// stands at `last`.
pub(super) open spec fn is_start(log: Seq<Event>, i: int, last: int, infrared: bool) -> bool {
    wire::command_at(log, i) matches Some(r) ==> wire::is_scan(r, wire::channels(infrared)) && (
    wire::outcome_at(log, i) is Ok ==> i == last)
}

/// What was armed and then started is a pass, whatever lines are read after it.
proof fn lemma_pass(
    log: Seq<Event>,
    p: Pass,
    s: ScanSettings,
    n: int,
    frame: int,
    subframe: int,
    exposure: Seq<u32>,
    measuring: bool,
    infrared: bool,
    armed: nat,
    started: nat,
    end: nat,
) -> (q: Pass)
    requires
        infrared == (s.infrared && !measuring),
        is_armed(log, p, s, n, frame, subframe, exposure, measuring),
        p.windows + 2 * ids_of(s, measuring).len() < armed <= log.len(),
        forall|i: int|
            p.windows + ids_of(s, measuring).len() <= i < armed
                ==> #[trigger] is_quiet(log, i),
        protocol::start_walk(
            log,
            armed,
            protocol::channel_ids(infrared),
            super::scan::SCAN_ATTEMPTS as nat,
        ) matches Some((Ok(_), next)) && next == started,
        started <= end <= log.len(),
        forall|i: int|
            started <= i < end ==> (#[trigger] wire::command_at(log, i) matches Some(r)
                ==> r.cdb[0] == 0x00 || r.cdb[0] == 0x28),
    ensures
        is_pass(log, q, s, n, frame, subframe, exposure, measuring),
        q.declared == p.declared,
        q.started + 1 == started,
        q.end == end,
{
    reveal(is_pass);
    let ids = ids_of(s, measuring);
    lemma_started(log, armed, infrared, super::scan::SCAN_ATTEMPTS as nat, started);
    let q = Pass { started: (started - 1) as nat, end, ..p };
    assert forall|i: int| q.declared <= i < q.end implies #[trigger] in_place(log, q, i, s, measuring) by {
        if i < p.windows + ids.len() {
            assert(in_place_before(log, p, i, s, measuring));
        } else if i < armed {
            assert(is_quiet(log, i));
        } else if i < started {
            assert(is_start(log, i, started - 1, infrared));
        } else {
            assert(wire::command_at(log, i) matches Some(r) ==> r.cdb[0] == 0x00 || r.cdb[0]
                == 0x28);
        }
    }
    q
}

/// Whether a READ at position `i` ended the image early: the device answered with a CHECK
/// CONDITION that does not say that the line is only not there yet.
pub open spec fn ends_image(log: Seq<Event>, i: int) -> bool {
    &&& wire::sends(log, i, 0x28)
    &&& wire::outcome_at(log, i) matches Err(ScsiError::Status { sense, .. }) && (sense matches Some(
        sense,
    ) ==> sense.key != 2 && !(sense.key == 5 && sense.asc == 0x2C))
}

/// Whether the command at position `i`, if there is one, polls or reads one line.
pub open spec fn reads_a_line(log: Seq<Event>, i: int, s: ScanSettings) -> bool {
    wire::command_at(log, i) matches Some(r) ==> {
        ||| r.cdb == seq![0u8, 0, 0, 0, 0, 0]
        ||| wire::is_read(r, s.line_len() % 0x1_0000_0000)
    }
}

/// Whether the image of a pass was read to its end: line after line, until there were as many as
/// the settings have or the device ended it.
pub open spec fn is_read_out(log: Seq<Event>, p: Pass, s: ScanSettings) -> bool {
    &&& forall|i: int| p.started < i < p.end ==> #[trigger] reads_a_line(log, i, s)
    &&& laws::lines_read(log, p.declared, p.end) == s.rows() || (laws::lines_read(
        log,
        p.declared,
        p.end,
    ) < s.rows() && ends_image(log, p.end - 1))
}

/// A drain that does not fail reads all lines, or ends where the device ends the image.
proof fn lemma_drain_ends(
    log: Seq<Event>,
    at: nat,
    len: u32,
    lines: nat,
    idle: nat,
    stream: Seq<u8>,
    out: Seq<u8>,
    end: nat,
)
    requires
        protocol::drain_walk(log, at, len, lines, idle, stream) matches Some(((Ok(_), o), next)) && o
            == out && next == end,
        at <= log.len(),
    ensures
        at <= end <= log.len(),
        out == stream + laws::data_read(log, at, end),
        laws::lines_read(log, at, end) == lines || (laws::lines_read(log, at, end) < lines && at
            < end && ends_image(log, end - 1)),
        forall|i: int|
            at <= i < end ==> (#[trigger] wire::command_at(log, i) matches Some(r) ==> r
                == protocol::test_request() || r == protocol::read_request(len)),
    decreases lines, super::scan::IMAGE_IDLE_ATTEMPTS - idle,
{
    reveal_with_fuel(laws::lines_read, 4);
    reveal_with_fuel(laws::data_read, 4);
    assert(stream + Seq::<u8>::empty() =~= stream);
    if lines > 0 {
        match protocol::status_walk(log, at) {
            None => {},
            Some((status, _)) => if status != Ok::<Status, ScsiError>(Status::Ready) {
                lemma_drain_ends(log, at + 2, len, lines, idle + 1, stream, out, end);
            } else {
                match scsi::reply_to(log, at + 1, protocol::read_request(len)) {
                    None => {},
                    Some(reply) => match reply.outcome {
                        Ok(_) => {
                            lemma_drain_ends(
                                log,
                                at + 2,
                                len,
                                (lines - 1) as nat,
                                0,
                                stream + reply.data,
                                out,
                                end,
                            );
                            assert(stream + reply.data + laws::data_read(log, at + 2, end)
                                =~= stream + (reply.data + laws::data_read(log, at + 2, end)));
                        },
                        Err(err) => if protocol::line_pending(err) {
                            lemma_drain_ends(log, at + 3, len, lines, idle + 1, stream, out, end);
                        },
                    },
                }
            },
        }
    }
}

/// Where no READ stands, nothing is read.
proof fn lemma_nothing_read(log: Seq<Event>, from: nat, mid: nat, to: nat)
    requires
        from <= mid <= to <= log.len(),
        forall|i: int|
            from <= i < mid ==> (#[trigger] wire::command_at(log, i) matches Some(r) ==> r.cdb[0]
                != 0x28),
    ensures
        laws::data_read(log, from, to) == laws::data_read(log, mid, to),
        laws::lines_read(log, from, to) == laws::lines_read(log, mid, to),
    decreases mid - from,
{
    if from < mid {
        assert(wire::command_at(log, from as int) matches Some(r) ==> r.cdb[0] != 0x28);
        lemma_nothing_read(log, from + 1, mid, to);
    }
}

/// Whether the numbers of a pass over frame `frame` of a strip of `n` frames are 32-bit numbers.
pub open spec fn places_fit(s: ScanSettings, n: int, frame: int, subframe: int) -> bool {
    &&& 0 <= subframe && 0 <= frame && (frame < n || frame == 0)
    &&& 0 < n ==> 1 <= s.caps.native_x
    &&& 5984 * n + subframe <= 0x1_0000_0000
    &&& 5984 * frame + subframe <= u32::MAX
    &&& s.autofocus ==> 5984 * frame + subframe + s.native_rows() / 2 <= u32::MAX
}

/// A pass that did not fail was armed at its frame's place and read to its end, and its bytes are
/// those of its READs.
pub proof fn lemma_image_pass(
    log: Seq<Event>,
    at: nat,
    s: ScanSettings,
    n: nat,
    frame: int,
    subframe: int,
    exposure: Seq<u32>,
    stream: Seq<u8>,
    end: nat,
) -> (p: Pass)
    requires
        protocol::drive_walk(log, at, s, n, frame, subframe, exposure) matches Some(
            ((Ok(_), out), next),
        ) && out == stream && next == end,
        exposure.len() == 3,
        places_fit(s, n as int, frame, subframe),
    ensures
        is_pass(log, p, s, n as int, frame, subframe, exposure, false),
        p.declared == at,
        p.end == end,
        stream == laws::data_read(log, p.declared, p.end),
        is_read_out(log, p, s),
{
    reveal(is_pass);
    reveal(protocol::drive_walk);
    s.lemma_grid_pitch();
    s.lemma_line_len();
    let armed = end_of(protocol::arm_walk(log, at, s, n, frame, subframe, exposure, false));
    let a = lemma_armed(log, at, s, n, frame, subframe, exposure, false, armed);
    let ids = protocol::channel_ids(s.infrared);
    let tries = super::scan::SCAN_ATTEMPTS as nat;
    let started = end_of(protocol::start_walk(log, armed, ids, tries));
    lemma_started(log, armed, s.infrared, tries, started);
    let len = protocol::line_request_len(s);
    lemma_drain_ends(log, started, len, s.rows() as nat, 0, Seq::empty(), stream, end);
    assert(Seq::<u8>::empty() + laws::data_read(log, started, end) =~= laws::data_read(
        log,
        started,
        end,
    ));
    let p = lemma_pass(
        log,
        a,
        s,
        n as int,
        frame,
        subframe,
        exposure,
        false,
        s.infrared,
        armed,
        started,
        end,
    );
    assert forall|i: int| at <= i < started implies (#[trigger] wire::command_at(log, i) matches Some(
        r,
    ) ==> r.cdb[0] != 0x28) by {
        assert(in_place(log, p, i, s, false));
    }
    lemma_nothing_read(log, at, started, end);
    wire::lemma_image_commands(s.infrared, len, 0);
    assert(protocol::test_request().cdb =~= seq![0u8, 0, 0, 0, 0, 0]);
    assert forall|i: int| p.started < i < p.end implies #[trigger] reads_a_line(log, i, s) by {
        assert(wire::command_at(log, i) matches Some(r) ==> r == protocol::test_request() || r
            == protocol::read_request(len));
    }
    p
}

/// Whether the answer at position `i` is that of the window of a channel, and gives its exposure:
/// the number at bytes 54 to 57 of a window with a 50-byte descriptor, and 0 of any other.
pub open spec fn gives_exposure(log: Seq<Event>, i: int, channel: u8, exposure: u32) -> bool {
    let answer = wire::answer_at(log, i);
    &&& wire::command_at(log, i) matches Some(r) && wire::is_window_query(r, channel)
    &&& wire::outcome_at(log, i) is Ok
    &&& 40 <= wire::half(answer, 6)
    &&& wire::half(answer, 6) == 50 ==> exposure == wire::word(answer, 54)
    &&& wire::half(answer, 6) != 50 ==> exposure == 0
}

/// The exposures of red, green and blue where none are measured, in units of 10 ns.
pub open spec fn default_exposure() -> Seq<u32> {
    seq![120000u32, 120000, 100000]
}

/// Whether `exposure` is what a scan between the positions `from` and `to` found: without
/// autoexposure the default, and nothing was sent; with it, what the device answered for each
/// channel after a measurement over the first frame, with the default.
#[verifier::opaque]
pub open spec fn is_exposure(
    log: Seq<Event>,
    m: Pass,
    from: nat,
    to: nat,
    s: ScanSettings,
    n: int,
    subframe: int,
    exposure: Seq<u32>,
) -> bool {
    &&& exposure.len() == 3
    &&& !s.autoexposure ==> from == to && exposure == default_exposure()
    &&& s.autoexposure ==> {
        &&& is_pass(log, m, s, n, 0, subframe, default_exposure(), true)
        &&& m.declared == from
        &&& m.end == m.started + 1
        &&& m.end + 3 < to <= log.len()
        &&& is_poll(log, m.end as int)
        &&& forall|i: int|
            m.end <= i < to - 3 ==> (#[trigger] wire::command_at(log, i) matches Some(r) ==> r.cdb[0]
                == 0)
        &&& gives_exposure(log, to - 3, 1, exposure[0])
        &&& gives_exposure(log, to - 2, 2, exposure[1])
        &&& gives_exposure(log, to - 1, 3, exposure[2])
    }
}

/// The exposure of one channel is the whole number that the device answers.
pub proof fn lemma_exposure_read(log: Seq<Event>, at: nat, channel: u8, exposure: u32, end: nat)
    requires
        protocol::exposure_walk(log, at, channel) == Some((Ok::<u32, ScanError>(exposure), end)),
    ensures
        end == at + 1,
        end <= log.len(),
        gives_exposure(log, at as int, channel, exposure),
{
    wire::lemma_image_commands(false, 0, channel);
    wire::lemma_numbers(wire::answer_at(log, at as int), 6);
    wire::lemma_numbers(wire::answer_at(log, at as int), 54);
}

/// The exposures that are read are those that the device answers, one for each channel.
pub proof fn lemma_exposures_read(log: Seq<Event>, at: nat, exposure: Seq<u32>, end: nat)
    requires
        protocol::exposures_walk(log, at) == Some((Ok::<Seq<u32>, ScanError>(exposure), end)),
    ensures
        exposure.len() == 3,
        end == at + 3,
        end <= log.len(),
        gives_exposure(log, at as int, 1, exposure[0]),
        gives_exposure(log, (at + 1) as int, 2, exposure[1]),
        gives_exposure(log, (at + 2) as int, 3, exposure[2]),
{
    match protocol::exposure_walk(log, at, 1) {
        Some((Ok(red), next)) => {
            lemma_exposure_read(log, at, 1, red, next);
            match protocol::exposure_walk(log, next, 2) {
                Some((Ok(green), last)) => {
                    lemma_exposure_read(log, next, 2, green, last);
                    match protocol::exposure_walk(log, last, 3) {
                        Some((Ok(blue), done)) => {
                            lemma_exposure_read(log, last, 3, blue, done);
                            assert(exposure == seq![red, green, blue]);
                        },
                        _ => {},
                    }
                },
                _ => {},
            }
        },
        _ => {},
    }
}

/// The exposure of a scan is the default, or what the device answers after a measurement.
pub proof fn lemma_exposure(
    log: Seq<Event>,
    at: nat,
    s: ScanSettings,
    n: nat,
    subframe: int,
    exposure: Seq<u32>,
    end: nat,
) -> (m: Pass)
    requires
        protocol::exposure_for_walk(log, at, s, n, 0, subframe) == Some(
            (Ok::<Seq<u32>, ScanError>(exposure), end),
        ),
        at <= log.len(),
        0 <= subframe <= u32::MAX,
        0 < n ==> 1 <= s.caps.native_x,
        5984 * n + subframe <= 0x1_0000_0000,
    ensures
        is_exposure(log, m, at, end, s, n as int, subframe, exposure),
{
    reveal(is_exposure);
    let fixed = protocol::fixed_exposure();
    assert(fixed =~= default_exposure());
    if s.autoexposure {
        reveal(protocol::measure_walk);
        let t = protocol::measuring(s);
        let armed = end_of(protocol::arm_walk(log, at, t, n, 0, subframe, fixed, true));
        let a = lemma_armed(log, at, t, n, 0, subframe, fixed, true, armed);
        let ids = protocol::channel_ids(false);
        let tries = super::scan::SCAN_ATTEMPTS as nat;
        let started = end_of(protocol::start_walk(log, armed, ids, tries));
        lemma_started(log, armed, false, tries, started);
        let m = lemma_pass(
            log,
            a,
            t,
            n as int,
            0,
            subframe,
            fixed,
            true,
            false,
            armed,
            started,
            started,
        );
        lemma_same_measurement(log, m, s, n as int, subframe, fixed);
        let ready = end_of(protocol::ready_walk(log, started));
        laws::lemma_readying_only_polls(
            log,
            started,
            super::scan::READY_ATTEMPTS as nat,
            Status::Initializing,
        );
        lemma_exposures_read(log, ready, exposure, end);
        assert forall|i: int| m.end <= i < end - 3 implies (#[trigger] wire::command_at(
            log,
            i,
        ) matches Some(r) ==> r.cdb[0] == 0) by {
            assert(laws::is_poll(log[i]));
        }
        m
    } else {
        no_pass()
    }
}

/// Three exposures are found, and finding them does not go back.
pub(super) proof fn lemma_exposure_len(
    log: Seq<Event>,
    m: Pass,
    from: nat,
    to: nat,
    s: ScanSettings,
    n: int,
    subframe: int,
    exposure: Seq<u32>,
)
    requires
        is_exposure(log, m, from, to, s, n, subframe, exposure),
    ensures
        exposure.len() == 3,
        from <= to,
{
    reveal(is_pass);
    reveal(is_exposure);
}

/// A pass that stands for nothing.
spec fn no_pass() -> Pass {
    Pass { declared: 0, focused: 0, tables: 0, windows: 0, started: 0, end: 0 }
}

/// A measurement does not depend on the settings that it leaves out.
proof fn lemma_same_measurement(
    log: Seq<Event>,
    m: Pass,
    s: ScanSettings,
    n: int,
    subframe: int,
    exposure: Seq<u32>,
)
    requires
        is_pass(log, m, protocol::measuring(s), n, 0, subframe, exposure, true),
    ensures
        is_pass(log, m, s, n, 0, subframe, exposure, true),
{
    reveal(is_pass);
    let t = protocol::measuring(s);
    let ids = ids_of(s, true);
    assert(ids == ids_of(t, true));
    assert forall|k: int| 0 <= k < ids.len() implies has_window(
        log,
        m.windows + k,
        s,
        #[trigger] ids[k],
        exposure_of(exposure, k),
        5984 * 0 + subframe,
        mode_of(s, true),
    ) by {
        assert(has_window(
            log,
            m.windows + k,
            t,
            ids[k],
            exposure_of(exposure, k),
            5984 * 0 + subframe,
            mode_of(t, true),
        ));
    }
    assert forall|i: int| m.declared <= i < m.end implies #[trigger] in_place(log, m, i, s, true) by {
        assert(in_place(log, m, i, t, true));
    }
}

/// Whether position `i` polls: TEST UNIT READY, or a pause of a quarter of a second.
pub open spec fn polls(log: Seq<Event>, i: int) -> bool {
    match log[i] {
        Event::Exchange { request, .. } => request.cdb == seq![0u8, 0, 0, 0, 0, 0],
        Event::Pause { millis } => millis == 250,
    }
}

/// Whether the command at position `i` has the descriptor block `cdb`.
pub open spec fn sends_cdb(log: Seq<Event>, i: int, cdb: Seq<u8>) -> bool {
    wire::command_at(log, i) matches Some(r) && r.cdb == cdb
}

/// Whether an answer lists a page: after a 4-byte header, the last byte of which is how many
/// there are.
pub open spec fn lists(answer: Seq<u8>, page: u8) -> bool {
    exists|i: int| 4 <= i < answer.len() && i < 4 + answer[3] && #[trigger] answer[i] == page
}

/// Whether the answer at position `i` is that of a motorized feeder.
pub open spec fn is_feeder(log: Seq<Event>, i: int) -> bool {
    let answer = wire::answer_at(log, i);
    &&& wire::outcome_at(log, i) is Ok
    &&& answer[1] == 0
    &&& lists(answer, 0x46) && lists(answer, 0xE2)
    &&& !lists(answer, 0x43) && !lists(answer, 0x44) && !lists(answer, 0x45) && !lists(answer, 0x47)
        && !lists(answer, 0xF1)
}

/// Whether a sense triple is the one of an outcome.
pub open spec fn senses(outcome: Result<(), ScsiError>, key: u8, asc: u8, ascq: u8) -> bool {
    outcome matches Err(ScsiError::Status { sense: Some(sense), .. }) && sense.key == key
        && sense.asc == asc && sense.ascq == ascq
}

/// Whether the scanner was prepared between the positions `at` and `end`, having settled at
/// `settled`: it was polled until it was ready or wanted its self-test; its adapter was asked
/// for; it was claimed and probed, and its mode set to 4000 dots per inch; unless it is a feeder
/// it ran its self-test and lit its lamp; and it was polled until it was ready.
#[verifier::opaque]
pub open spec fn is_prepared(log: Seq<Event>, at: nat, settled: nat, end: nat) -> bool {
    let homed = settled + if is_feeder(log, settled as int) {
        9int
    } else {
        12
    };
    &&& at < settled && homed < end <= log.len()
    &&& forall|i: int| at <= i < settled ==> #[trigger] polls(log, i)
    &&& sends_cdb(log, settled - 1, seq![0u8, 0, 0, 0, 0, 0])
    &&& wire::outcome_at(log, settled - 1) is Ok || senses(
        wire::outcome_at(log, settled - 1),
        2,
        4,
        2,
    )
    &&& sends_cdb(log, settled as int, seq![0x12u8, 1, 0, 0, 255, 0])
    &&& sends_cdb(log, settled as int + 1, seq![0x16u8, 0, 0, 0, 0, 0])
    &&& sends_cdb(log, settled as int + 2, seq![0x12u8, 1, 0, 0, 23, 0])
    &&& sends_cdb(log, settled as int + 3, seq![0x12u8, 1, 0xD1, 0, 28, 0])
    &&& sends_cdb(log, settled as int + 4, seq![0x12u8, 1, 0xC1, 0, 87, 0])
    &&& sends_cdb(log, settled as int + 5, seq![0x12u8, 1, 0xE1, 0, 39, 0])
    &&& sends_cdb(log, settled as int + 6, seq![0x12u8, 1, 0xF0, 0, 53, 0])
    &&& sends_cdb(log, settled as int + 7, seq![0x12u8, 1, 0xF8, 0, 17, 0])
    &&& wire::command_at(log, settled as int + 8) matches Some(r) && is_mode(r)
    &&& !is_feeder(log, settled as int) ==> {
        &&& sends_cdb(log, settled as int + 9, seq![0x1Du8, 4, 0, 0, 0, 0])
        &&& sends_cdb(log, settled as int + 10, seq![0xE0u8, 0, 0x80, 0, 0, 0, 0, 0, 0, 0])
        &&& sends_cdb(log, settled as int + 11, seq![0xC1u8, 0, 0, 0, 0, 0])
    }
    &&& forall|i: int| homed <= i < end ==> #[trigger] polls(log, i)
    &&& sends_cdb(log, end - 1, seq![0u8, 0, 0, 0, 0, 0])
    &&& wire::outcome_at(log, end - 1) is Ok
}

/// Whether a command sets the mode: one 8-byte block descriptor, and the measurement units page
/// with 4000 of them to the inch.
pub open spec fn is_mode(r: scsi::Request) -> bool {
    &&& r.cdb == seq![0x15u8, 0x10, 0, 0, 20, 0]
    &&& r.data.len() == 20
    &&& r.data[3] == 8 && r.data[11] == 1 && r.data[12] == 3 && r.data[13] == 6
    &&& wire::half(r.data, 16) == 4000
    &&& forall|i: int|
        0 <= i < 20 && i != 3 && i != 11 && i != 12 && i != 13 && i != 16 && i != 17 ==> r.data[i]
            == 0
}

/// The pages of an answer are those that it lists.
pub(super) proof fn lemma_listed(answer: Seq<u8>, page: u8)
    requires
        4 <= answer.len(),
    ensures
        crate::scsi::cdbs::inquiry::vpd_data(answer).contains(page) <==> lists(answer, page),
{
    let pages = crate::scsi::cdbs::inquiry::vpd_data(answer);
    if pages.contains(page) {
        let k = choose|k: int| 0 <= k < pages.len() && pages[k] == page;
        assert(answer[k + 4] == page);
    }
    if lists(answer, page) {
        let i = choose|i: int|
            4 <= i < answer.len() && i < 4 + answer[3] && #[trigger] answer[i] == page;
        assert(pages[i - 4] == page);
    }
}

/// An adapter is a feeder where its pages say so.
proof fn lemma_feeder(log: Seq<Event>, at: nat)
    requires
        protocol::holder_walk(log, at) is Some,
        4 <= wire::answer_at(log, at as int).len(),
    ensures
        protocol::holder_walk(log, at) matches Some((holder, next)) && next == at + 1 && (holder
            == Ok::<super::holder::Holder, ScsiError>(super::holder::Holder::Feeder) <==> is_feeder(
            log,
            at as int,
        )),
{
    let answer = wire::answer_at(log, at as int);
    lemma_listed(answer, 0x43);
    lemma_listed(answer, 0x44);
    lemma_listed(answer, 0x45);
    lemma_listed(answer, 0x46);
    lemma_listed(answer, 0x47);
    lemma_listed(answer, 0xE2);
    lemma_listed(answer, 0xF1);
}

/// Polling until the scanner is ready ends with the poll that found it so.
proof fn lemma_readied(log: Seq<Event>, at: nat, tries: nat, last: Status, end: nat)
    requires
        protocol::wait_ready_walk(log, at, tries, last) matches Some((Ok(_), next)) && next == end,
    ensures
        at < end <= log.len(),
        forall|i: int| at <= i < end ==> #[trigger] polls(log, i),
        sends_cdb(log, end - 1, seq![0u8, 0, 0, 0, 0, 0]),
        wire::outcome_at(log, end - 1) is Ok,
    decreases tries,
{
    assert(protocol::test_request().cdb =~= seq![0u8, 0, 0, 0, 0, 0]);
    if tries > 0 {
        match protocol::status_walk(log, at) {
            Some((Ok(status), next)) => if status != Status::Ready {
                lemma_readied(log, next + 1, (tries - 1) as nat, status, end);
                assert(polls(log, at as int));
                assert(polls(log, next as int));
            } else {
                laws::lemma_only_good_is_ready(wire::outcome_at(log, at as int));
            },
            _ => {},
        }
    }
}

/// Polling until the state is decisive ends with the poll that found it so.
pub(super) proof fn lemma_settled(log: Seq<Event>, at: nat, tries: nat, status: Status, end: nat)
    requires
        protocol::wait_settled_walk(log, at, tries) == Some((Ok::<Status, ScanError>(status), end)),
    ensures
        at < end <= log.len(),
        forall|i: int| at <= i < end ==> #[trigger] polls(log, i),
        sends_cdb(log, end - 1, seq![0u8, 0, 0, 0, 0, 0]),
        wire::outcome_at(log, end - 1) is Ok <==> status == Status::Ready,
        senses(wire::outcome_at(log, end - 1), 2, 4, 2) <==> status == Status::NeedsInit,
        senses(wire::outcome_at(log, end - 1), 2, 0x3A, 0) <==> status == Status::NoFilm,
        status == Status::Ready || status == Status::NeedsInit || status == Status::NoFilm,
    decreases tries,
{
    assert(protocol::test_request().cdb =~= seq![0u8, 0, 0, 0, 0, 0]);
    if tries > 0 {
        match protocol::status_walk(log, at) {
            Some((Ok(now), next)) => if !protocol::is_settled(now) {
                lemma_settled(log, next + 1, (tries - 1) as nat, status, end);
                assert(polls(log, at as int));
                assert(polls(log, next as int));
            },
            _ => {},
        }
    }
}

/// A scanner that was prepared was claimed, probed, set up and, unless it is a feeder, homed, and
/// was found ready at the end.
pub proof fn lemma_prepared(log: Seq<Event>, at: nat, end: nat) -> (settled: nat)
    requires
        protocol::prepare_walk(log, at) matches Some((Ok(_), next)) && next == end,
        scsi::answers_fit(log),
    ensures
        is_prepared(log, at, settled, end),
{
    reveal(protocol::prepare_walk);
    reveal(scsi::answers_fit);
    reveal(is_prepared);
    let tries = super::scan::READY_ATTEMPTS as nat;
    match protocol::settled_walk(log, at) {
        Some((Ok(status), settled)) => {
            lemma_settled(log, at, tries, status, settled);
            let asked = protocol::vpd_request(0, 0xFF);
            assert(log[settled as int] matches Event::Exchange { request, .. } && request == asked);
            lemma_feeder(log, settled);
            lemma_initialized(log, settled, end);
            settled
        },
        _ => 0,
    }
}

/// Claiming, probing and homing a scanner.
proof fn lemma_initialized(log: Seq<Event>, settled: nat, end: nat)
    requires
        protocol::init_walk(log, settled) matches Some((Ok(_), next)) && next == end,
        protocol::holder_walk(log, settled) matches Some((holder, next)) && next == settled + 1 && (
        holder == Ok::<super::holder::Holder, ScsiError>(super::holder::Holder::Feeder)
            <==> is_feeder(log, settled as int)),
    ensures
        ({
            let homed = settled + if is_feeder(log, settled as int) {
                9int
            } else {
                12
            };
            &&& homed < end <= log.len()
            &&& sends_cdb(log, settled as int, seq![0x12u8, 1, 0, 0, 255, 0])
            &&& sends_cdb(log, settled as int + 1, seq![0x16u8, 0, 0, 0, 0, 0])
            &&& sends_cdb(log, settled as int + 2, seq![0x12u8, 1, 0, 0, 23, 0])
            &&& sends_cdb(log, settled as int + 3, seq![0x12u8, 1, 0xD1, 0, 28, 0])
            &&& sends_cdb(log, settled as int + 4, seq![0x12u8, 1, 0xC1, 0, 87, 0])
            &&& sends_cdb(log, settled as int + 5, seq![0x12u8, 1, 0xE1, 0, 39, 0])
            &&& sends_cdb(log, settled as int + 6, seq![0x12u8, 1, 0xF0, 0, 53, 0])
            &&& sends_cdb(log, settled as int + 7, seq![0x12u8, 1, 0xF8, 0, 17, 0])
            &&& wire::command_at(log, settled as int + 8) matches Some(r) && is_mode(r)
            &&& !is_feeder(log, settled as int) ==> {
                &&& sends_cdb(log, settled as int + 9, seq![0x1Du8, 4, 0, 0, 0, 0])
                &&& sends_cdb(log, settled as int + 10, seq![0xE0u8, 0, 0x80, 0, 0, 0, 0, 0, 0, 0])
                &&& sends_cdb(log, settled as int + 11, seq![0xC1u8, 0, 0, 0, 0, 0])
            }
            &&& forall|i: int| homed <= i < end ==> #[trigger] polls(log, i)
            &&& sends_cdb(log, end - 1, seq![0u8, 0, 0, 0, 0, 0])
            &&& wire::outcome_at(log, end - 1) is Ok
        }),
{
    let tries = super::scan::READY_ATTEMPTS as nat;
    let asked = protocol::probe_requests();
    assert(scsi::reply_to(log, (settled + 2 + 0) as nat, asked[0]) is Some);
    assert(scsi::reply_to(log, (settled + 2 + 1) as nat, asked[1]) is Some);
    assert(scsi::reply_to(log, (settled + 2 + 2) as nat, asked[2]) is Some);
    assert(scsi::reply_to(log, (settled + 2 + 3) as nat, asked[3]) is Some);
    assert(scsi::reply_to(log, (settled + 2 + 4) as nat, asked[4]) is Some);
    assert(scsi::reply_to(log, (settled + 2 + 5) as nat, asked[5]) is Some);
    assert(protocol::vpd_request(0, 0xFF).cdb =~= seq![0x12u8, 1, 0, 0, 255, 0]);
    assert(protocol::reserve_request().cdb =~= seq![0x16u8, 0, 0, 0, 0, 0]);
    assert(asked[0].cdb =~= seq![0x12u8, 1, 0, 0, 23, 0]);
    assert(asked[1].cdb =~= seq![0x12u8, 1, 0xD1, 0, 28, 0]);
    assert(asked[2].cdb =~= seq![0x12u8, 1, 0xC1, 0, 87, 0]);
    assert(asked[3].cdb =~= seq![0x12u8, 1, 0xE1, 0, 39, 0]);
    assert(asked[4].cdb =~= seq![0x12u8, 1, 0xF0, 0, 53, 0]);
    assert(asked[5].cdb =~= seq![0x12u8, 1, 0xF8, 0, 17, 0]);
    assert(protocol::mode_request().cdb =~= seq![0x15u8, 0x10, 0, 0, 20, 0]);
    assert(protocol::self_test_request().cdb =~= seq![0x1Du8, 4, 0, 0, 0, 0]);
    assert(protocol::set_up_request(0x80, Seq::empty()).cdb =~= seq![
        0xE0u8, 0, 0x80, 0, 0, 0, 0, 0, 0, 0,
    ]);
    assert(protocol::trigger_request().cdb =~= seq![0xC1u8, 0, 0, 0, 0, 0]);
    if is_feeder(log, settled as int) {
        lemma_readied(log, settled + 9, tries, Status::Initializing, end);
    } else {
        lemma_readied(log, settled + 12, tries, Status::Initializing, end);
    }
}

/// Where the parts of a scan stand on the link.
pub struct Run {
    /// The position after the first decisive poll
    pub settled: nat,
    /// The position after the preparation
    pub prepared: nat,
    /// The measurement of the exposure, if there is one
    pub measured: Pass,
    /// The position after the exposure was found
    pub exposed: nat,
    /// The exposures of red, green and blue
    pub exposure: Seq<u32>,
    /// The passes, one for each frame
    pub passes: Seq<Pass>,
}

/// Whether `frame` was read by pass `p` over frame number `i`.
pub open spec fn is_frame(
    log: Seq<Event>,
    p: Pass,
    s: ScanSettings,
    n: int,
    i: int,
    subframe: int,
    exposure: Seq<u32>,
    frame: Raster,
) -> bool {
    &&& is_pass(log, p, s, n, i, subframe, exposure, false)
    &&& is_read_out(log, p, s)
    &&& is_picture(frame, s, laws::data_read(log, p.declared, p.end))
    &&& 0 < frame.height
}

/// Where pass number `i` begins, the first of them at `at`: where the one before ends.
pub open spec fn pass_start(passes: Seq<Pass>, at: nat, i: int) -> nat {
    if i <= 0 {
        at
    } else {
        passes[i - 1].end
    }
}

/// Whether a scan of `n` frames, from row `subframe` on, happened between the positions `at` and
/// `end` and gave `frames`: the scanner was prepared and the exposure found; then the frames were
/// scanned, one pass after the other, pass number `i` over frame number `i` with that exposure,
/// and what pass number `i` read is frame number `i` of the result; and at last the scanner was
/// given back.
#[verifier::opaque]
pub open spec fn is_run(
    log: Seq<Event>,
    run: Run,
    at: nat,
    end: nat,
    s: ScanSettings,
    n: int,
    subframe: int,
    frames: Seq<Raster>,
) -> bool {
    &&& at < run.prepared
    &&& scsi::answers_fit(log) ==> is_prepared(log, at, run.settled, run.prepared)
    &&& is_exposure(
        log,
        run.measured,
        run.prepared,
        run.exposed,
        s,
        n,
        subframe,
        run.exposure,
    )
    &&& run.passes.len() == n
    &&& frames.len() == n
    &&& forall|i: int|
        0 <= i < n ==> is_frame(
            log,
            #[trigger] run.passes[i],
            s,
            n,
            i,
            subframe,
            run.exposure,
            frames[i],
        ) && run.passes[i].declared == pass_start(run.passes, run.exposed, i)
    &&& end == pass_start(run.passes, run.exposed, n) + 1
    &&& end <= log.len()
    &&& sends_cdb(log, end - 1, seq![0x17u8, 0, 0, 0, 0, 0])
}

/// Whether the buffers of `frames` hold `pictures`, in this order.
pub open spec fn are_shown(frames: Seq<Frame>, pictures: Seq<Raster>) -> bool {
    &&& frames.len() == pictures.len()
    &&& forall|i: int| 0 <= i < frames.len() ==> is_shown(#[trigger] frames[i], pictures[i])
}

/// Whether the buffers of `frame` hold `picture`.
pub open spec fn is_shown(frame: Frame, picture: Raster) -> bool {
    &&& frame.rgb.width == picture.width
    &&& frame.rgb.height == picture.height
    &&& frame.rgb.samples@ == picture.rgb
    &&& frame.ir is Some <==> picture.ir is Some
    &&& frame.ir matches Some(ir) ==> ir.width == picture.width && ir.height == picture.height
        && picture.ir == Some(ir.samples@)
}

/// Whether `frames` are what a scan of `n` frames, from row `subframe` on, gave between the
/// positions `at` and `end`.
pub open spec fn is_scan_of(
    log: Seq<Event>,
    at: nat,
    end: nat,
    s: ScanSettings,
    n: int,
    subframe: int,
    frames: Seq<Frame>,
) -> bool {
    exists|run: Run, pictures: Seq<Raster>| #[trigger]
        is_run(log, run, at, end, s, n, subframe, pictures) && are_shown(frames, pictures)
}

/// Whether a strip of `n` frames from row `subframe` on, and the middles of its frames where
/// these are focused on, lie at 32-bit places.
pub open spec fn strip_places_fit(s: ScanSettings, n: int, subframe: int) -> bool {
    &&& 0 <= n
    &&& 0 <= subframe <= u32::MAX
    &&& 0 < n ==> 1 <= s.caps.native_x
    &&& 5984 * n + subframe <= 0x1_0000_0000
    &&& s.autofocus && 0 < n ==> 5984 * (n - 1) + subframe + s.native_rows() / 2 <= u32::MAX
}

/// A strip fits if and only if its places do.
pub proof fn lemma_places(s: ScanSettings, n: nat, subframe: u32)
    ensures
        protocol::strip_fits(s, n, subframe as int) <==> strip_places_fit(
            s,
            n as int,
            subframe as int,
        ),
{
    protocol::lemma_frame_pitch();
}

/// The frames from number `f` on are read by passes one after the other, in order.
proof fn lemma_frame_passes(
    log: Seq<Event>,
    at: nat,
    s: ScanSettings,
    n: nat,
    subframe: int,
    exposure: Seq<u32>,
    f: nat,
    done: Seq<Raster>,
    frames: Seq<Raster>,
    end: nat,
) -> (passes: Seq<Pass>)
    requires
        protocol::frames_walk(log, at, s, n, n, subframe, exposure, f, done) == Some(
            (Ok::<Seq<Raster>, ScanError>(frames), end),
        ),
        f <= n,
        done.len() == f,
        exposure.len() == 3,
        strip_places_fit(s, n as int, subframe),
    ensures
        passes.len() == n - f,
        frames.len() == n,
        forall|i: int| 0 <= i < f ==> frames[i] == #[trigger] done[i],
        forall|j: int|
            0 <= j < n - f ==> is_frame(
                log,
                #[trigger] passes[j],
                s,
                n as int,
                f + j,
                subframe,
                exposure,
                frames[f + j],
            ) && passes[j].declared == pass_start(passes, at, j),
        end == pass_start(passes, at, n - f),
    decreases n - f,
{
    if f == n {
        Seq::empty()
    } else {
        match protocol::drive_walk(log, at, s, n, f as int, subframe, exposure) {
            Some(((Ok(_), stream), next)) => {
                let p = lemma_image_pass(
                    log,
                    at,
                    s,
                    n,
                    f as int,
                    subframe,
                    exposure,
                    stream,
                    next,
                );
                lemma_picture(s, stream);
                match protocol::frame_in(s, stream) {
                    Ok(frame) => {
                        let rest = lemma_frame_passes(
                            log,
                            next,
                            s,
                            n,
                            subframe,
                            exposure,
                            f + 1,
                            done.push(frame),
                            frames,
                            end,
                        );
                        let passes = seq![p] + rest;
                        assert(done.push(frame)[f as int] == frame);
                        assert forall|i: int| 0 <= i < f implies frames[i] == #[trigger] done[i] by {
                            assert(done.push(frame)[i] == done[i]);
                        }
                        assert(is_frame(
                            log,
                            p,
                            s,
                            n as int,
                            f as int,
                            subframe,
                            exposure,
                            frames[f as int],
                        ));
                        assert forall|j: int| 0 <= j < n - f implies is_frame(
                            log,
                            #[trigger] passes[j],
                            s,
                            n as int,
                            f + j,
                            subframe,
                            exposure,
                            frames[f + j],
                        ) && passes[j].declared == pass_start(passes, at, j) by {
                            if j > 0 {
                                assert(passes[j] == rest[j - 1]);
                                assert(f + 1 + (j - 1) == f + j);
                            }
                        }
                        passes
                    },
                    Err(_) => Seq::empty(),
                }
            },
            _ => Seq::empty(),
        }
    }
}

/// Preparing takes at least one event.
pub(super) proof fn lemma_preparing_advances(log: Seq<Event>, at: nat, end: nat)
    requires
        protocol::prepare_walk(log, at) matches Some((Ok(_), next)) && next == end,
    ensures
        at < end <= log.len(),
{
    reveal(protocol::prepare_walk);
    let tries = super::scan::READY_ATTEMPTS as nat;
    match protocol::settled_walk(log, at) {
        Some((Ok(status), settled)) => {
            lemma_settled(log, at, tries, status, settled);
            match protocol::holder_walk(log, settled) {
                Some((holder, _)) => {
                    if holder == Ok::<super::holder::Holder, ScsiError>(
                        super::holder::Holder::Feeder,
                    ) {
                        lemma_readied(log, settled + 9, tries, Status::Initializing, end);
                    } else {
                        lemma_readied(log, settled + 12, tries, Status::Initializing, end);
                    }
                },
                None => {},
            }
        },
        _ => {},
    }
}

/// Where the first decisive poll of a preparation was.
proof fn lemma_settled_at(log: Seq<Event>, at: nat, end: nat) -> (settled: nat)
    requires
        protocol::prepare_walk(log, at) matches Some((Ok(_), next)) && next == end,
    ensures
        scsi::answers_fit(log) ==> is_prepared(log, at, settled, end),
{
    if scsi::answers_fit(log) {
        lemma_prepared(log, at, end)
    } else {
        0
    }
}

/// A scan of a strip gives the frames in the order in which they lie on the strip: frame number
/// `i` is what was read in pass number `i`, which was armed at the place of frame number `i`.
pub proof fn lemma_strip_run(
    log: Seq<Event>,
    at: nat,
    s: ScanSettings,
    n: nat,
    subframe: int,
    frames: Seq<Raster>,
    end: nat,
) -> (run: Run)
    requires
        protocol::strip_walk(log, at, s, n, subframe) == Some(
            (Ok::<Seq<Raster>, ScanError>(frames), end),
        ),
        strip_places_fit(s, n as int, subframe),
    ensures
        is_run(log, run, at, end, s, n as int, subframe, frames),
{
    reveal(is_run);
    assert(protocol::release_request().cdb =~= seq![0x17u8, 0, 0, 0, 0, 0]);
    let prepared = end_of(protocol::prepare_walk(log, at));
    lemma_preparing_advances(log, at, prepared);
    let settled = lemma_settled_at(log, at, prepared);
    match protocol::exposure_for_walk(log, prepared, s, n, 0, subframe) {
        Some((Ok(exposure), exposed)) => {
            let measured = lemma_exposure(log, prepared, s, n, subframe, exposure, exposed);
            lemma_exposure_len(log, measured, prepared, exposed, s, n as int, subframe, exposure);
            let last = end_of(
                protocol::frames_walk(
                    log,
                    exposed,
                    s,
                    n,
                    n,
                    subframe,
                    exposure,
                    0,
                    Seq::empty(),
                ),
            );
            let passes = lemma_frame_passes(
                log,
                exposed,
                s,
                n,
                subframe,
                exposure,
                0,
                Seq::empty(),
                frames,
                last,
            );
            Run { settled, prepared, measured, exposed, exposure, passes }
        },
        _ => no_run(),
    }
}

/// A run that stands for nothing.
spec fn no_run() -> Run {
    Run {
        settled: 0,
        prepared: 0,
        measured: no_pass(),
        exposed: 0,
        exposure: Seq::empty(),
        passes: Seq::empty(),
    }
}

/// A scan of one frame at offset `subframe` is one pass, armed at that offset, and the frame is
/// what was read in it.
pub proof fn lemma_scan_run(
    log: Seq<Event>,
    at: nat,
    s: ScanSettings,
    subframe: int,
    frame: Raster,
    end: nat,
) -> (run: Run)
    requires
        protocol::scan_walk(log, at, s, subframe) == Some((Ok::<Raster, ScanError>(frame), end)),
        strip_places_fit(s, 1, subframe),
    ensures
        is_run(log, run, at, end, s, 1, subframe, seq![frame]),
{
    reveal(is_run);
    assert(protocol::release_request().cdb =~= seq![0x17u8, 0, 0, 0, 0, 0]);
    let prepared = end_of(protocol::prepare_walk(log, at));
    lemma_preparing_advances(log, at, prepared);
    let settled = lemma_settled_at(log, at, prepared);
    match protocol::exposure_for_walk(log, prepared, s, 1, 0, subframe) {
        Some((Ok(exposure), exposed)) => {
            let measured = lemma_exposure(log, prepared, s, 1, subframe, exposure, exposed);
            lemma_exposure_len(log, measured, prepared, exposed, s, 1, subframe, exposure);
            match protocol::drive_walk(log, exposed, s, 1, 0, subframe, exposure) {
                Some(((Ok(_), stream), next)) => {
                    let p = lemma_image_pass(
                        log,
                        exposed,
                        s,
                        1,
                        0,
                        subframe,
                        exposure,
                        stream,
                        next,
                    );
                    lemma_picture(s, stream);
                    assert(is_frame(log, p, s, 1, 0, subframe, exposure, frame));
                    Run { settled, prepared, measured, exposed, exposure, passes: seq![p] }
                },
                _ => no_run(),
            }
        },
        _ => no_run(),
    }
}

/// Whether every SET WINDOW between the positions `from` and `to` begins at row `y`.
pub open spec fn windows_begin_at(log: Seq<Event>, from: nat, to: nat, y: int) -> bool {
    forall|i: int|
        from <= i < to ==> (#[trigger] wire::command_at(log, i) matches Some(r) ==> r.cdb[0] == 0x24
            ==> wire::word(r.data, 18) == y)
}

/// The windows of a pass begin where its frame does.
proof fn lemma_windows_begin(
    log: Seq<Event>,
    p: Pass,
    s: ScanSettings,
    n: int,
    frame: int,
    subframe: int,
    exposure: Seq<u32>,
)
    requires
        is_pass(log, p, s, n, frame, subframe, exposure, false),
    ensures
        windows_begin_at(log, p.declared, p.end, 5984 * frame + subframe),
{
    reveal(is_pass);
    let ids = ids_of(s, false);
    assert forall|i: int| p.declared <= i < p.end implies (#[trigger] wire::command_at(
        log,
        i,
    ) matches Some(r) ==> r.cdb[0] == 0x24 ==> wire::word(r.data, 18) == 5984 * frame
        + subframe) by {
        assert(in_place(log, p, i, s, false));
        if p.windows <= i < p.windows + ids.len() {
            let k = i - p.windows;
            assert(has_window(
                log,
                p.windows + k,
                s,
                ids[k],
                exposure_of(exposure, k),
                5984 * frame + subframe,
                mode_of(s, false),
            ));
        }
    }
}

/// Whether the windows of all channels were taken from position `at` on, one after the other,
/// and begin at row `y`.
pub open spec fn windows_taken_at(log: Seq<Event>, at: nat, ids: Seq<u8>, y: int) -> bool {
    forall|k: int|
        0 <= k < ids.len() ==> ({
            &&& wire::command_at(log, at + k) matches Some(c) && c.cdb[0] == 0x24 && c.data[8]
                == #[trigger] ids[k] && wire::word(c.data, 18) == y
            &&& wire::is_taken(wire::outcome_at(log, at + k))
        })
}

/// What a pass over a frame does, in short: the strip is declared first, every channel has its
/// window taken at the frame's place, no window is set elsewhere, and then the scan is accepted.
proof fn lemma_pass_places(
    log: Seq<Event>,
    p: Pass,
    s: ScanSettings,
    n: int,
    frame: int,
    subframe: int,
    exposure: Seq<u32>,
)
    requires
        is_pass(log, p, s, n, frame, subframe, exposure, false),
    ensures
        p.declared < p.windows < p.started < p.end,
        wire::command_at(log, p.declared as int) matches Some(c) && wire::is_declaration(
            c,
            s.caps.native_x as int,
            n,
            subframe,
        ),
        windows_taken_at(log, p.windows, wire::channels(s.infrared), 5984 * frame + subframe),
        windows_begin_at(log, p.declared, p.end, 5984 * frame + subframe),
        wire::command_at(log, p.started as int) matches Some(c) && wire::is_scan(
            c,
            wire::channels(s.infrared),
        ),
        wire::outcome_at(log, p.started as int) is Ok,
{
    lemma_windows_begin(log, p, s, n, frame, subframe, exposure);
    reveal(is_pass);
    let ids = ids_of(s, false);
    assert forall|k: int| 0 <= k < ids.len() implies ({
        &&& wire::command_at(log, p.windows + k) matches Some(c) && c.cdb[0] == 0x24 && c.data[8]
            == #[trigger] ids[k] && wire::word(c.data, 18) == 5984 * frame + subframe
        &&& wire::is_taken(wire::outcome_at(log, p.windows + k))
    }) by {
        assert(has_window(
            log,
            p.windows + k,
            s,
            ids[k],
            exposure_of(exposure, k),
            5984 * frame + subframe,
            mode_of(s, false),
        ));
    }
}

/// Frame number `i` of a scanned strip is the picture in the bytes that were read in the pass `p`
/// whose windows were set to `5984 * i + subframe`, before the next pass began.
pub proof fn lemma_frames_come_in_order(
    log: Seq<Event>,
    at: nat,
    s: ScanSettings,
    n: nat,
    subframe: int,
    frames: Seq<Raster>,
    end: nat,
    i: int,
) -> (p: Pass)
    requires
        protocol::strip_walk(log, at, s, n, subframe) == Some(
            (Ok::<Seq<Raster>, ScanError>(frames), end),
        ),
        strip_places_fit(s, n as int, subframe),
        0 <= i < n,
    ensures
        frames.len() == n,
        at <= p.declared < p.windows < p.started < p.end < end,
        wire::command_at(log, p.declared as int) matches Some(c) && wire::is_declaration(
            c,
            s.caps.native_x as int,
            n as int,
            subframe,
        ),
        windows_taken_at(log, p.windows, wire::channels(s.infrared), 5984 * i + subframe),
        windows_begin_at(log, p.declared, p.end, 5984 * i + subframe),
        wire::command_at(log, p.started as int) matches Some(c) && wire::is_scan(
            c,
            wire::channels(s.infrared),
        ),
        wire::outcome_at(log, p.started as int) is Ok,
        is_picture(frames[i], s, laws::data_read(log, p.declared, p.end)),
{
    let run = lemma_strip_run(log, at, s, n, subframe, frames, end);
    lemma_run_advances(log, run, at, end, s, n as int, subframe, frames, i);
    let p = run.passes[i];
    assert(frames.len() == n && is_frame(
        log,
        p,
        s,
        n as int,
        i,
        subframe,
        run.exposure,
        frames[i],
    )) by {
        reveal(is_run);
    }
    lemma_pass_places(log, p, s, n as int, i, subframe, run.exposure);
    p
}

/// The passes of a run lie within it.
proof fn lemma_run_advances(
    log: Seq<Event>,
    run: Run,
    at: nat,
    end: nat,
    s: ScanSettings,
    n: int,
    subframe: int,
    frames: Seq<Raster>,
    i: int,
)
    requires
        is_run(log, run, at, end, s, n, subframe, frames),
        0 <= i < n,
    ensures
        at <= run.passes[i].declared < run.passes[i].end < end,
{
    reveal(is_run);
    lemma_exposure_len(
        log,
        run.measured,
        run.prepared,
        run.exposed,
        s,
        n,
        subframe,
        run.exposure,
    );
    lemma_passes_advance(log, run, s, n, subframe, frames, i);
    lemma_passes_follow(log, run, s, n, subframe, frames, i, n - 1);
}

/// No pass begins before the first, and every one ends after it begins.
proof fn lemma_passes_advance(
    log: Seq<Event>,
    run: Run,
    s: ScanSettings,
    n: int,
    subframe: int,
    frames: Seq<Raster>,
    i: int,
)
    requires
        run.passes.len() == n,
        forall|i: int|
            0 <= i < n ==> is_frame(
                log,
                #[trigger] run.passes[i],
                s,
                n,
                i,
                subframe,
                run.exposure,
                frames[i],
            ) && run.passes[i].declared == pass_start(run.passes, run.exposed, i),
        0 <= i < n,
    ensures
        run.exposed <= run.passes[i].declared < run.passes[i].end,
    decreases i,
{
    reveal(is_pass);
    assert(is_frame(log, run.passes[i], s, n, i, subframe, run.exposure, frames[i]));
    if i > 0 {
        lemma_passes_advance(log, run, s, n, subframe, frames, i - 1);
    }
}

/// A later pass does not end before an earlier one.
proof fn lemma_passes_follow(
    log: Seq<Event>,
    run: Run,
    s: ScanSettings,
    n: int,
    subframe: int,
    frames: Seq<Raster>,
    i: int,
    j: int,
)
    requires
        run.passes.len() == n,
        forall|i: int|
            0 <= i < n ==> is_frame(
                log,
                #[trigger] run.passes[i],
                s,
                n,
                i,
                subframe,
                run.exposure,
                frames[i],
            ) && run.passes[i].declared == pass_start(run.passes, run.exposed, i),
        0 <= i <= j < n,
    ensures
        run.passes[i].end <= run.passes[j].end,
    decreases j - i,
{
    if i < j {
        lemma_passes_follow(log, run, s, n, subframe, frames, i, j - 1);
        lemma_passes_advance(log, run, s, n, subframe, frames, j);
        assert(run.passes[j].declared == run.passes[j - 1].end);
    }
}

/// A frame that was scanned at offset `subframe` was armed there: one frame was declared from
/// that row on, and every channel had its window taken at that row, before the SCAN whose lines
/// are the frame. `p` is its pass.
pub proof fn lemma_frame_is_at_offset(
    log: Seq<Event>,
    at: nat,
    s: ScanSettings,
    subframe: int,
    frame: Raster,
    end: nat,
) -> (p: Pass)
    requires
        protocol::scan_walk(log, at, s, subframe) == Some((Ok::<Raster, ScanError>(frame), end)),
        strip_places_fit(s, 1, subframe),
    ensures
        at <= p.declared < p.windows < p.started < p.end < end,
        wire::command_at(log, p.declared as int) matches Some(c) && wire::is_declaration(
            c,
            s.caps.native_x as int,
            1,
            subframe,
        ),
        windows_taken_at(log, p.windows, wire::channels(s.infrared), subframe),
        windows_begin_at(log, p.declared, p.end, subframe),
        wire::command_at(log, p.started as int) matches Some(c) && wire::is_scan(
            c,
            wire::channels(s.infrared),
        ),
        wire::outcome_at(log, p.started as int) is Ok,
        is_picture(frame, s, laws::data_read(log, p.declared, p.end)),
{
    let run = lemma_scan_run(log, at, s, subframe, frame, end);
    let frames = seq![frame];
    lemma_run_advances(log, run, at, end, s, 1, subframe, frames, 0);
    let p = run.passes[0];
    assert(is_frame(log, p, s, 1, 0, subframe, run.exposure, frames[0])) by {
        reveal(is_run);
    }
    lemma_pass_places(log, p, s, 1, 0, subframe, run.exposure);
    p
}

/// A measured exposure is what the device answered last, for each channel.
proof fn lemma_answered(
    log: Seq<Event>,
    m: Pass,
    from: nat,
    to: nat,
    s: ScanSettings,
    n: int,
    subframe: int,
    exposure: Seq<u32>,
    k: int,
)
    requires
        is_exposure(log, m, from, to, s, n, subframe, exposure),
        s.autoexposure,
        0 <= k < 3,
    ensures
        from + 3 <= to,
        gives_exposure(log, to - 3 + k, (k + 1) as u8, exposure[k]),
{
    reveal(is_pass);
    reveal(is_exposure);
}

/// The window of colour channel `k + 1` in a pass carries its exposure.
proof fn lemma_window_exposure(
    log: Seq<Event>,
    p: Pass,
    s: ScanSettings,
    n: int,
    frame: int,
    subframe: int,
    exposure: Seq<u32>,
    k: int,
)
    requires
        is_pass(log, p, s, n, frame, subframe, exposure, false),
        0 <= k < 3,
    ensures
        p.declared < p.windows + k < p.end,
        wire::command_at(log, p.windows + k) matches Some(c) && c.cdb[0] == 0x24 && c.data[8] == k + 1
            && wire::word(c.data, 54) == exposure[k],
{
    reveal(is_pass);
    let ids = ids_of(s, false);
    assert(has_window(
        log,
        p.windows + k,
        s,
        ids[k],
        exposure_of(exposure, k),
        5984 * frame + subframe,
        mode_of(s, false),
    ));
}

/// With autoexposure, the window of colour channel `k + 1` in the pass over any frame carries the
/// exposure that the device answered for that channel, all 32 bits of it, if the answer has a
/// descriptor of 50 bytes: `r.0` is where it answered, and `r.1` where the window was set.
pub proof fn lemma_measured_exposure_is_used(
    log: Seq<Event>,
    at: nat,
    s: ScanSettings,
    n: nat,
    subframe: int,
    frames: Seq<Raster>,
    end: nat,
    i: int,
    k: int,
) -> (r: (int, int))
    requires
        protocol::strip_walk(log, at, s, n, subframe) == Some(
            (Ok::<Seq<Raster>, ScanError>(frames), end),
        ),
        strip_places_fit(s, n as int, subframe),
        s.autoexposure,
        0 <= i < n,
        0 <= k < 3,
    ensures
        at <= r.0 < r.1 < end,
        wire::command_at(log, r.0) matches Some(c) && wire::is_window_query(c, (k + 1) as u8),
        wire::outcome_at(log, r.0) is Ok,
        wire::command_at(log, r.1) matches Some(c) && c.cdb[0] == 0x24 && c.data[8] == k + 1 && (
        wire::half(wire::answer_at(log, r.0), 6) == 50 ==> wire::word(c.data, 54) == wire::word(
            wire::answer_at(log, r.0),
            54,
        )),
{
    let run = lemma_strip_run(log, at, s, n, subframe, frames, end);
    lemma_run_advances(log, run, at, end, s, n as int, subframe, frames, i);
    let p = run.passes[i];
    assert(at < run.prepared && run.exposed <= p.declared && is_exposure(
        log,
        run.measured,
        run.prepared,
        run.exposed,
        s,
        n as int,
        subframe,
        run.exposure,
    ) && is_pass(log, p, s, n as int, i, subframe, run.exposure, false)) by {
        reveal(is_run);
        lemma_passes_advance(log, run, s, n as int, subframe, frames, i);
        assert(is_frame(log, p, s, n as int, i, subframe, run.exposure, frames[i]));
    }
    lemma_answered(
        log,
        run.measured,
        run.prepared,
        run.exposed,
        s,
        n as int,
        subframe,
        run.exposure,
        k,
    );
    lemma_window_exposure(log, p, s, n as int, i, subframe, run.exposure, k);
    (run.exposed - 3 + k, p.windows + k)
}

/// A pass with autofocus focuses on the middle of its window.
proof fn lemma_focus_point(
    log: Seq<Event>,
    p: Pass,
    s: ScanSettings,
    n: int,
    frame: int,
    subframe: int,
    exposure: Seq<u32>,
)
    requires
        is_pass(log, p, s, n, frame, subframe, exposure, false),
        s.autofocus,
    ensures
        p.declared < p.focused < p.end,
        wire::command_at(log, p.focused as int) matches Some(c) && wire::is_focus(
            c,
            s.native_columns() / 2,
            5984 * frame + subframe + s.native_rows() / 2,
        ),
{
    reveal(is_pass);
}

/// With autofocus, the pass over frame `i` of a strip focuses on one point, the middle of the
/// window of that frame: half its width to the right, and half its height below the row where the
/// frame begins. `r` is where it was asked for.
pub proof fn lemma_focus_is_in_the_middle(
    log: Seq<Event>,
    at: nat,
    s: ScanSettings,
    n: nat,
    subframe: int,
    frames: Seq<Raster>,
    end: nat,
    i: int,
) -> (r: int)
    requires
        protocol::strip_walk(log, at, s, n, subframe) == Some(
            (Ok::<Seq<Raster>, ScanError>(frames), end),
        ),
        strip_places_fit(s, n as int, subframe),
        s.autofocus,
        0 <= i < n,
    ensures
        at <= r < end,
        wire::command_at(log, r) matches Some(c) && {
            let (x, y) = (wire::word(c.data, 1), wire::word(c.data, 5) - (5984 * i + subframe));
            &&& c.cdb[0] == 0xE0 && c.cdb[2] == 0xA0
            &&& c.data.len() == 9 && c.data[0] == 0
            &&& 2 * x <= s.native_columns() < 2 * x + 2
            &&& 2 * y <= s.native_rows() < 2 * y + 2
        },
{
    let run = lemma_strip_run(log, at, s, n, subframe, frames, end);
    lemma_run_advances(log, run, at, end, s, n as int, subframe, frames, i);
    let p = run.passes[i];
    assert(is_pass(log, p, s, n as int, i, subframe, run.exposure, false)) by {
        reveal(is_run);
        assert(is_frame(log, p, s, n as int, i, subframe, run.exposure, frames[i]));
    }
    lemma_focus_point(log, p, s, n as int, i, subframe, run.exposure);
    p.focused as int
}

} // verus!
