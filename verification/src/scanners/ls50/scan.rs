//! The LS-50 scan drive: cold-start init, arming, and draining the image.
//!
//! RGB or RGB+IR ([`ScanSettings::infrared`]), one frame
//! ([`scan`](Ls50::scan)/[`scan_at`](Ls50::scan_at)) or a whole strip
//! ([`scan_strip`](Ls50::scan_strip)).

use super::decode;
use super::decode::{Error as DecodeError, Frame, FrameDecoder, PlanarDecoder};
use super::failures;
use super::holder::Holder;
use super::laws;
use super::protocol;
use super::runs;
use super::status::Status;
use super::{Ls50, ScanSettings, BASE_RES};
use crate::scanners::decode::Raster;
use crate::scsi;
use crate::scsi::bytes;
use crate::scsi::cdbs::{
    DataTypeCode, GetWindow, ModeSelect, Read, ReserveUnit, Scan, SendDiagnostic, SetWindow,
    VendorC1, VendorE0, VendorE1, VpdInquiry, WindowDescriptor, Write,
};
use crate::scsi::cdbs::window;
use crate::scsi::{Command, Error as ScsiError, Transport};
use vstd::prelude::*;

verus! {

/// R, G, B channel ids (SCAN payload / SET WINDOW window-id).
pub const CHANNELS_RGB: [u8; 3] = [0x01, 0x02, 0x03];

/// Infrared channel id, appended after RGB when [`ScanSettings::infrared`] is set.
/// Its window exposure is left at 0.
pub const IR_CHANNEL: u8 = 0x09;

/// Channel list for this scan: `[R, G, B]`, or `[R, G, B, IR]` with infrared.
pub fn channels(settings: &ScanSettings) -> (r: Vec<u8>)
    ensures
        r@ == protocol::channel_ids(settings.infrared),
{
    let mut c: Vec<u8> = vstd::slice::slice_to_vec(CHANNELS_RGB.as_slice());
    if settings.infrared {
        c.push(IR_CHANNEL);
    }
    assert(c@ =~= protocol::channel_ids(settings.infrared));
    c
}

/// Fixed per-channel exposure (R, G, B) in 10 ns units: AE seed, and used when AE off.
pub const EXPOSURE_10NS: [u32; 3] = [120_000, 120_000, 100_000];

/// SCAN returns a busy CHECK CONDITION during lamp/carriage warm-up; retry until GOOD.
pub const SCAN_ATTEMPTS: u32 = 30;

pub const SCAN_RETRY_PAUSE_MS: u64 = 500;

/// Poll TUR long enough to drain cold-start unit attentions + the ~12 s warm-up.
pub const READY_ATTEMPTS: u32 = 100;

pub const READY_PAUSE_MS: u64 = 250;

/// Mid-drain not-ready sense = next line not produced yet, not end-of-data; retry cap.
pub const IMAGE_IDLE_ATTEMPTS: u32 = 600;

pub const IMAGE_IDLE_PAUSE_MS: u64 = 200;

/// Why a scan failed.
#[derive(Debug, Clone, PartialEq, Eq)]
pub enum ScanError {
    /// A command failed.
    Scsi(ScsiError),
    /// The image stream cannot be decoded.
    Decode(DecodeError),
    /// SCAN, or a line of the image, was not ready after this many attempts.
    ScanNotReady(u32),
    /// The scanner is not in a state to scan.
    NotReady(Status),
    /// The scanner produced no image data (pre-scan calibration/preheat not done?).
    NoData,
}

/// Bits per sample requested in the window descriptor. 14-bit ADC range, delivered
/// as 2 bytes/sample big-endian in a 16-bit container.
const DEPTH_14BIT: u8 = 0x0E;

/// Append `n` zero bytes.
fn push_zeros(out: &mut Vec<u8>, n: usize)
    ensures
        final(out)@ == old(out)@ + bytes::zeros(n as nat),
{
    for i in 0..n
        invariant
            out@ == old(out)@ + bytes::zeros(i as nat),
    {
        out.push(0);
        assert(out@ =~= old(out)@ + bytes::zeros((i + 1) as nat));
    }
    assert(out@ =~= old(out)@ + bytes::zeros(n as nat));
}

/// Build the SET WINDOW data-out payload for one channel: 50-byte descriptor packed
/// from zero (fresh forces `d[1]=0`; a stale read-back there once no-op'd the scan).
/// Body `d` (after 8-byte header): `d[0]` channel, `d[2..6]` resolution, `d[10..14]` Y
/// offset, `d[14..22]` native w/h, `d[25]` composition, `d[26]` depth, `d[42]`
/// scan-mode, `d[46..50]` exposure. `exposure` `None` (-> 0) for IR.
pub fn build_window(
    settings: &ScanSettings,
    channel: u8,
    exposure: Option<u32>,
    y_offset: u32,
    ae: bool,
) -> (r: Vec<u8>)
    ensures
        r@ == protocol::window_payload(*settings, channel, exposure, y_offset, ae),
{
    let res: u16 = settings.res();
    let (native_w, native_h) = settings.native_dims();
    let exposure: u32 = match exposure {
        Some(exposure) => exposure,
        None => 0,
    };
    let mut payload: Vec<u8> = bytes::zero_bytes(6);
    bytes::push_be16(&mut payload, 50);
    payload.push(channel);
    payload.push(0);
    bytes::push_be16(&mut payload, res);  // X resolution (grid-snapped)
    bytes::push_be16(&mut payload, res);  // Y resolution
    push_zeros(&mut payload, 4);  // X offset: full-frame origin
    bytes::push_be32(&mut payload, y_offset);  // Y offset (feed axis)
    // Width/height are in native (max-resolution) units, not output pixels.
    bytes::push_be32(&mut payload, native_w);
    bytes::push_be32(&mut payload, native_h);
    push_zeros(&mut payload, 3);
    payload.push(0x05);  // composition: RGB
    payload.push(DEPTH_14BIT);  // 14-bit, delivered in a 16-bit container
    push_zeros(&mut payload, 13);
    payload.push(0x00);
    payload.push(0x81);  // 0x80 | positive
    // Scan-mode byte: 0x01 normal, 0x20 AE (SANE), 0x22=4x multisample. Literal
    // `samples` valid only at 1; an invalid code stalls.
    payload.push(
        if ae {
            0x20
        } else if settings.samples < 1 {
            1
        } else {
            settings.samples
        },
    );
    payload.push(0x02);  // compression: none
    payload.push(0x02);  // colour interleaving
    payload.push(0xff);  // AE
    bytes::push_be32(&mut payload, exposure);  // exposure (0 = IR)
    assert(payload@ =~= protocol::window_payload(
        *settings,
        channel,
        Some(exposure),
        y_offset,
        ae,
    ));
    payload
}

/// The `E0 0xA0` autofocus data-out payload: `00` + focusX (u32 BE) + focusY (u32 BE),
/// 9 bytes (SANE `cs3_autofocus`).
pub fn autofocus_payload(focus_x: u32, focus_y: u32) -> (r: Vec<u8>)
    ensures
        r@ == protocol::autofocus_bytes(focus_x, focus_y),
{
    let mut p: Vec<u8> = Vec::new();
    p.push(0);
    bytes::push_be32(&mut p, focus_x);
    bytes::push_be32(&mut p, focus_y);
    assert(p@ =~= protocol::autofocus_bytes(focus_x, focus_y));
    p
}

/// 135 frame pitch (tenths of a mm): feed advance between frames.
const FRAME_PITCH_TENTHS: u32 = 380;

/// Tenths of a mm per inch.
const INCH_TENTHS: u32 = 254;

/// Frame pitch in native pixels: `pitch_mm * BASE_RES / 25.4`, rounded, = 5984.
pub fn pitch_native() -> (r: u32)
    ensures
        r == protocol::frame_pitch(),
        r == 5984,
{
    (2 * FRAME_PITCH_TENTHS * BASE_RES + INCH_TENTHS) / (2 * INCH_TENTHS)
}

/// Identity gamma LUT: 16384 BE words `lut[i] = i` (32768 bytes). Hardware-applied;
/// identity = linear pass-through.
pub fn build_gamma_lut() -> (r: Vec<u8>)
    ensures
        r@ == protocol::identity_lut(),
{
    let mut lut: Vec<u8> = Vec::new();
    for i in 0..16384u16
        invariant
            lut@ == protocol::identity_lut().take(2 * i),
    {
        bytes::push_be16(&mut lut, i);
        assert(lut@ =~= protocol::identity_lut().take(2 * (i + 1)));
    }
    assert(lut@ =~= protocol::identity_lut());
    lut
}

impl<T> Ls50<T> where T: Transport {
    /// SET BOUNDARY (WRITE DTC 0x88): declare all `n_frames` frames in one command. The
    /// scanner needs the full layout to advance the feed; a single-frame boundary leaves
    /// later frames black. Payload: `[len_hi len_lo n n]` (`len = 4 + 16*n`) then per
    /// frame `[Ystart Xstart Yend Xend]` u32 BE: `Ystart = i*pitch + subframe`,
    /// `Yend = Ystart + pitch - 1`, `Xend = native_x - 1` (adapter caps).
    pub fn boundary_cmd(&self, settings: &ScanSettings, n_frames: u32, subframe: u32) -> (r: Write)
        requires
            n_frames > 0 ==> settings.caps.native_x > 0,
            protocol::frame_start(n_frames as int, subframe as int) - 1 <= u32::MAX,
        ensures
            r.lun == 0,
            r.dtc == DataTypeCode::Vendor(0x88),
            r.dtq == 0x03,
            r.payload@ == protocol::boundary_payload(
                settings.caps.native_x as int,
                n_frames as nat,
                subframe as int,
            ),
            r.control == 0x00,
    {
        let pitch: u32 = pitch_native();
        let len: u32 = 4 + 16 * n_frames;
        let mut p: Vec<u8> = Vec::new();
        p.push((len / 0x100 % 0x100) as u8);
        p.push((len % 0x100) as u8);
        p.push((n_frames % 0x100) as u8);
        p.push((n_frames % 0x100) as u8);
        let ghost native_x = settings.caps.native_x as int;
        let ghost header = p@;
        for i in 0..n_frames
            invariant
                pitch == protocol::frame_pitch(),
                pitch == 5984,
                n_frames > 0 ==> settings.caps.native_x > 0,
                native_x == settings.caps.native_x,
                n_frames * 5984 + subframe - 1 <= u32::MAX,
                p@ == header + protocol::strip_bounds(native_x, i as nat, subframe as int),
        {
            let ystart: u32 = i * pitch + subframe;
            let ghost before = p@;
            bytes::push_be32(&mut p, ystart);  // Ystart
            bytes::push_be32(&mut p, 0);  // Xstart
            bytes::push_be32(&mut p, ystart + (pitch - 1));  // Yend
            bytes::push_be32(&mut p, settings.caps.native_x - 1);  // Xend
            assert(p@ =~= before + protocol::frame_bounds(native_x, i as int, subframe as int));
            assert(p@ =~= header + protocol::strip_bounds(
                native_x,
                (i + 1) as nat,
                subframe as int,
            ));
        }
        assert(p@ =~= protocol::boundary_payload(native_x, n_frames as nat, subframe as int));
        Write::new(0, DataTypeCode::Vendor(0x88), 0x03, p, 0x00)
    }
}

impl<T> Ls50<T> where T: Transport {
    /// Fire-and-forget control command, tolerating the "busy" CHECK CONDITION a
    /// triggered operation returns while it runs.
    fn trigger<C: Command>(&mut self, command: &C) -> (r: Result<(), ScanError>)
        ensures
            scsi::extends(final(self).log(), old(self).log()),
            scsi::answers_fit(old(self).log()) ==> scsi::answers_fit(final(self).log()),
            final(self).log().len() == old(self).log().len() + 1,
            scsi::reply_to(
                final(self).log(),
                old(self).log().len(),
                scsi::request(command.cdb_bytes(), command.phase()),
            ) matches Some(reply) && exists|sent: Result<C::Response, ScsiError>|
                {
                    &&& #[trigger] scsi::answers(*command, reply, sent)
                    &&& r == match sent {
                        Ok(_) => protocol::tolerated(Ok(())),
                        Err(err) => protocol::tolerated(Err(err)),
                    }
                },
    {
        let sent = self.send(command);
        match sent {
            Ok(_) | Err(ScsiError::Status { .. }) => Ok(()),
            Err(err) => Err(ScanError::Scsi(err)),
        }
    }

    /// Poll TUR until decisive (`Ready`/`NoFilm`/`NeedsInit`), draining transient
    /// becoming-ready / unit-attention states. `NeedsInit` ends the poll: scanner wants
    /// the self-test next.
    fn wait_settled(&mut self) -> (r: Result<Status, ScanError>)
        ensures
            scsi::extends(final(self).log(), old(self).log()),
            scsi::answers_fit(old(self).log()) ==> scsi::answers_fit(final(self).log()),
            forall|log: Seq<scsi::Event>|
                scsi::extends(log, final(self).log()) ==> #[trigger] protocol::settled_walk(
                    log,
                    old(self).log().len(),
                ) == Some((r, final(self).log().len())),
    {
        let ghost start = self.log().len();
        for i in 0..READY_ATTEMPTS
            invariant
                start == old(self).log().len(),
                scsi::extends(self.log(), old(self).log()),
                scsi::answers_fit(old(self).log()) ==> scsi::answers_fit(self.log()),
                forall|log: Seq<scsi::Event>|
                    scsi::extends(log, self.log()) ==> #[trigger] protocol::settled_walk(log, start)
                        == protocol::wait_settled_walk(
                        log,
                        self.log().len(),
                        (READY_ATTEMPTS - i) as nat,
                    ),
        {
            let status = match self.status() {
                Ok(status) => status,
                Err(err) => {
                    return Err(ScanError::Scsi(err));
                },
            };
            match status {
                Status::Ready | Status::NoFilm | Status::NeedsInit => {
                    return Ok(status);
                },
                _ => self.pause(READY_PAUSE_MS),
            }
        }
        Err(ScanError::NotReady(Status::Initializing))
    }

    /// Poll TUR until `Ready`, draining cold-start unit attentions (reset/medium/holder
    /// changed). Without it the first SET WINDOW is rejected by a pending unit attention.
    fn wait_ready(&mut self) -> (r: Result<(), ScanError>)
        ensures
            scsi::extends(final(self).log(), old(self).log()),
            scsi::answers_fit(old(self).log()) ==> scsi::answers_fit(final(self).log()),
            forall|log: Seq<scsi::Event>|
                scsi::extends(log, final(self).log()) ==> #[trigger] protocol::ready_walk(
                    log,
                    old(self).log().len(),
                ) == Some((r, final(self).log().len())),
    {
        let ghost start = self.log().len();
        let mut last = Status::Initializing;
        for i in 0..READY_ATTEMPTS
            invariant
                start == old(self).log().len(),
                scsi::extends(self.log(), old(self).log()),
                scsi::answers_fit(old(self).log()) ==> scsi::answers_fit(self.log()),
                forall|log: Seq<scsi::Event>|
                    scsi::extends(log, self.log()) ==> #[trigger] protocol::ready_walk(log, start)
                        == protocol::wait_ready_walk(
                        log,
                        self.log().len(),
                        (READY_ATTEMPTS - i) as nat,
                        last,
                    ),
        {
            match self.status() {
                Ok(Status::Ready) => {
                    return Ok(());
                },
                Ok(Status::NoFilm) => {
                    return Err(ScanError::NotReady(Status::NoFilm));
                },
                Ok(other) => {
                    last = other;
                },
                Err(err) => {
                    return Err(ScanError::Scsi(err));
                },
            }
            self.pause(READY_PAUSE_MS);
        }
        Err(ScanError::NotReady(last))
    }

    /// Issue SCAN for `channels`, retrying while the scanner is busy.
    fn start_scan(&mut self, channels: &[u8]) -> (r: Result<(), ScanError>)
        ensures
            scsi::extends(final(self).log(), old(self).log()),
            scsi::answers_fit(old(self).log()) ==> scsi::answers_fit(final(self).log()),
            forall|log: Seq<scsi::Event>|
                scsi::extends(log, final(self).log()) ==> #[trigger] protocol::start_walk(
                    log,
                    old(self).log().len(),
                    channels@,
                    SCAN_ATTEMPTS as nat,
                ) == Some((r, final(self).log().len())),
    {
        let ghost start = self.log().len();
        for attempt in 0..SCAN_ATTEMPTS
            invariant
                start == old(self).log().len(),
                scsi::extends(self.log(), old(self).log()),
                scsi::answers_fit(old(self).log()) ==> scsi::answers_fit(self.log()),
                forall|log: Seq<scsi::Event>|
                    scsi::extends(log, self.log()) ==> #[trigger] protocol::start_walk(
                        log,
                        start,
                        channels@,
                        SCAN_ATTEMPTS as nat,
                    ) == protocol::start_walk(
                        log,
                        self.log().len(),
                        channels@,
                        (SCAN_ATTEMPTS - attempt) as nat,
                    ),
        {
            match self.send(&Scan::new(vstd::slice::slice_to_vec(channels))) {
                Ok(()) => {
                    return Ok(());
                },
                // CHECK CONDITION here is the warm-up "busy" state, not a failure.
                Err(ScsiError::Status { .. }) => self.pause(SCAN_RETRY_PAUSE_MS),
                Err(err) => {
                    return Err(ScanError::Scsi(err));
                },
            }
        }
        Err(ScanError::ScanNotReady(SCAN_ATTEMPTS))
    }
}

impl<T> Ls50<T> where T: Transport {
    /// Cold-start init, once before configuring: reserve, adapter probe, mode select,
    /// and, non-feeder holder only, self-test + lamp warm-up. Triggers report benign
    /// "busy"; the trailing `wait_ready` waits out the warm-up.
    fn prepare(&mut self) -> (r: Result<(), ScanError>)
        ensures
            scsi::extends(final(self).log(), old(self).log()),
            scsi::answers_fit(old(self).log()) ==> scsi::answers_fit(final(self).log()),
            forall|log: Seq<scsi::Event>|
                scsi::extends(log, final(self).log()) ==> #[trigger] protocol::prepare_walk(
                    log,
                    old(self).log().len(),
                ) == Some((r, final(self).log().len())),
    {
        reveal(protocol::prepare_walk);
        // Bail on NoFilm before motion: self-test/lamp ejects a strip not at the scan
        // position. A feeder's loaded strip reads Ready, not NoFilm.
        match self.wait_settled() {
            Ok(Status::NoFilm) => {
                return Err(ScanError::NotReady(Status::NoFilm));
            },
            Ok(_) => {},
            Err(err) => {
                return Err(err);
            },
        }
        let feeder = match self.holder() {
            Ok(Holder::Feeder) => true,
            _ => false,
        };
        if let Err(err) = self.trigger(&ReserveUnit::new(0, None, 0)) {
            return Err(err);
        }
        self.detect_adapter();
        if let Err(err) = self.configure_mode() {
            return Err(err);
        }
        if !feeder {
            // Self-test homes carriage; lamp/C1 eject a positioned strip: non-feeder only.
            if let Err(err) = self.trigger(&SendDiagnostic::new()) {
                return Err(err);
            }  // self-test: clears NeedsInit
            if let Err(err) = self.trigger(&VendorE0::new(0x80, Vec::new())) {
                return Err(err);
            }  // lamp on
            if let Err(err) = self.trigger(&VendorC1::new()) {
                return Err(err);
            }
        }
        self.wait_ready()
    }

    /// Probe the INQUIRY EVPD adapter-config pages, best-effort: pages absent on
    /// this unit come back `05/24` and are skipped. Read-only, no film motion.
    fn detect_adapter(&mut self)
        ensures
            scsi::extends(final(self).log(), old(self).log()),
            scsi::answers_fit(old(self).log()) ==> scsi::answers_fit(final(self).log()),
            forall|log: Seq<scsi::Event>|
                scsi::extends(log, final(self).log()) ==> #[trigger] protocol::probe_walk(
                    log,
                    old(self).log().len(),
                ) == Some(((), final(self).log().len())),
    {
        let pages: [(u8, u8); 6] = [
            (0x00, 23),
            (0xd1, 28),
            (0xc1, 87),
            (0xe1, 39),
            (0xf0, 53),
            (0xf8, 17),
        ];
        let ghost start = self.log().len();
        for i in 0..6usize
            invariant
                start == old(self).log().len(),
                self.log().len() == start + i,
                scsi::extends(self.log(), old(self).log()),
                scsi::answers_fit(old(self).log()) ==> scsi::answers_fit(self.log()),
                pages@ =~= seq![
                    (0x00u8, 23u8),
                    (0xd1u8, 28u8),
                    (0xc1u8, 87u8),
                    (0xe1u8, 39u8),
                    (0xf0u8, 53u8),
                    (0xf8u8, 17u8),
                ],
                protocol::all_sent(self.log(), start, protocol::probe_requests().take(i as int)),
        {
            let (page, alloc) = pages[i];
            let _ = self.send(&VpdInquiry::new(page, alloc));
        }
        assert(protocol::probe_requests().take(6) =~= protocol::probe_requests());
    }

    /// MODE SELECT page 0x03: base resolution (`0x0FA0` = 4000 DPI) and scan area.
    /// Without it the scan mode is unset and SCAN rejects its channel list
    /// (`05/26/02`).
    fn configure_mode(&mut self) -> (r: Result<(), ScanError>)
        ensures
            scsi::extends(final(self).log(), old(self).log()),
            scsi::answers_fit(old(self).log()) ==> scsi::answers_fit(final(self).log()),
            forall|log: Seq<scsi::Event>|
                scsi::extends(log, final(self).log()) ==> #[trigger] protocol::trigger_walk(
                    log,
                    old(self).log().len(),
                    protocol::mode_request(),
                ) == Some((r, final(self).log().len())),
    {
        let mode_page_3: [u8; 20] = [
            // header: block-descriptor length 8
            0x00,
            0x00,
            0x00,
            0x08,
            // block descriptor
            0x00,
            0x00,
            0x00,
            0x00,
            0x00,
            0x00,
            0x00,
            0x01,
            // page 0x03, res 0x0FA0
            0x03,
            0x06,
            0x00,
            0x00,
            0x0F,
            0xA0,
            0x00,
            0x00,
        ];
        let page: Vec<u8> = vstd::slice::slice_to_vec(mode_page_3.as_slice());
        assert(page@ =~= protocol::mode_page());
        self.trigger(&ModeSelect::new(0, true, false, page, 0x00))
    }
}

impl<T> Ls50<T> where T: Transport {
    /// Read the current focus position (SANE `cs3_read_focus`): `E1 0xC1`, 13 bytes,
    /// focus = response bytes 1..4 u32 BE.
    fn read_focus(&mut self) -> (r: Result<u32, ScanError>)
        ensures
            scsi::extends(final(self).log(), old(self).log()),
            scsi::answers_fit(old(self).log()) ==> scsi::answers_fit(final(self).log()),
            forall|log: Seq<scsi::Event>|
                scsi::extends(log, final(self).log()) ==> #[trigger] protocol::focus_read_walk(
                    log,
                    old(self).log().len(),
                ) == Some((r, final(self).log().len())),
    {
        match self.send(&VendorE1::new(0xC1, 13)) {
            Ok(resp) => Ok(
                if resp.len() >= 5 {
                    bytes::read_be32(resp.as_slice(), 1)
                } else {
                    0
                },
            ),
            Err(err) => Err(ScanError::Scsi(err)),
        }
    }

    /// Firmware autofocus at frame centre (SANE `cs3_autofocus`): read focus, run AF at
    /// the centre (`E0 0xA0` + focusX/focusY, then C1), read result. Centre = `width/2`,
    /// `y_offset + height/2` native (xoffset 0). `E0 0xA0` with a focus X/Y payload does
    /// not eject here (a different payload did); before/after read confirms motor moved.
    fn autofocus(&mut self, settings: &ScanSettings, y_offset: u32) -> (r: Result<(), ScanError>)
        requires
            y_offset + settings.native_rows() / 2 <= u32::MAX,
        ensures
            scsi::extends(final(self).log(), old(self).log()),
            scsi::answers_fit(old(self).log()) ==> scsi::answers_fit(final(self).log()),
            forall|log: Seq<scsi::Event>|
                scsi::extends(log, final(self).log()) ==> #[trigger] protocol::autofocus_walk(
                    log,
                    old(self).log().len(),
                    *settings,
                    y_offset as int,
                ) == Some((r, final(self).log().len())),
    {
        let (native_w, native_h) = settings.native_dims();
        let focus_x: u32 = native_w / 2;
        let focus_y: u32 = y_offset + native_h / 2;
        let _ = self.read_focus();
        if let Err(err) = self.trigger(&VendorE0::new(0xA0, autofocus_payload(focus_x, focus_y))) {
            return Err(err);
        }
        if let Err(err) = self.trigger(&VendorC1::new()) {
            return Err(err);
        }
        let _ = self.wait_ready();
        let _ = self.read_focus();
        Ok(())
    }

    /// Read one channel's firmware-measured exposure from its window descriptor:
    /// GET WINDOW (Single, window-id = channel), exposure = descriptor `vendor[6..10]`
    /// u32 BE (descriptor offset 46..50, the same offset [`build_window`] writes).
    pub fn get_window_exposure(&mut self, channel: u8) -> (r: Result<u32, ScanError>)
        ensures
            scsi::extends(final(self).log(), old(self).log()),
            scsi::answers_fit(old(self).log()) ==> scsi::answers_fit(final(self).log()),
            forall|log: Seq<scsi::Event>|
                scsi::extends(log, final(self).log()) ==> #[trigger] protocol::exposure_walk(
                    log,
                    old(self).log().len(),
                    channel,
                ) == Some((r, final(self).log().len())),
    {
        let ghost at = self.log().len();
        let descriptors = match self.send(&GetWindow::new(0, true, channel, 58, 0x00)) {
            Ok(descriptors) => descriptors,
            Err(err) => {
                return Err(ScanError::Scsi(err));
            },
        };
        proof {
            lemma_one_descriptor(scsi::reply_at(self.log(), at as int).data, descriptors@);
        }
        if descriptors.len() > 0 && descriptors[0].vendor.len() >= 10 {
            Ok(bytes::read_be32(descriptors[0].vendor.as_slice(), 6))
        } else {
            Ok(0)
        }
    }

    /// Read the per-channel RGB exposure (RAM 0x400FAE) back from the window
    /// descriptors: GET WINDOW bytes 54..57 per channel.
    fn read_exposure_rgb(&mut self) -> (r: Result<[u32; 3], ScanError>)
        ensures
            scsi::extends(final(self).log(), old(self).log()),
            scsi::answers_fit(old(self).log()) ==> scsi::answers_fit(final(self).log()),
            forall|log: Seq<scsi::Event>|
                scsi::extends(log, final(self).log()) ==> #[trigger] protocol::exposures_walk(
                    log,
                    old(self).log().len(),
                ) == Some((exposures(r), final(self).log().len())),
    {
        let red: u32 = match self.get_window_exposure(CHANNELS_RGB[0]) {
            Ok(red) => red,
            Err(err) => {
                return Err(err);
            },
        };
        let green: u32 = match self.get_window_exposure(CHANNELS_RGB[1]) {
            Ok(green) => green,
            Err(err) => {
                return Err(err);
            },
        };
        let blue: u32 = match self.get_window_exposure(CHANNELS_RGB[2]) {
            Ok(blue) => blue,
            Err(err) => {
                return Err(err);
            },
        };
        let measured: [u32; 3] = [red, green, blue];
        assert(measured@ =~= seq![red, green, blue]);
        Ok(measured)
    }
}

/// The exposures in `r`, as a sequence.
pub open spec fn exposures(r: Result<[u32; 3], ScanError>) -> Result<Seq<u32>, ScanError> {
    match r {
        Ok(exposure) => Ok(exposure@),
        Err(err) => Err(err),
    }
}

/// A 58-byte answer to GET WINDOW has a descriptor with an exposure in it only if descriptors
/// are 50 bytes long.
proof fn lemma_one_descriptor(data: Seq<u8>, descriptors: Seq<WindowDescriptor>)
    requires
        data.len() == 58,
        bytes::be16_at(data, 6) >= 40,
        descriptors.len() == window::descriptor_count(data, bytes::be16_at(data, 6) as int),
        forall|i: int|
            0 <= i < descriptors.len() ==> (#[trigger] descriptors[i]).is_read_from(
                window::descriptor_bytes(data, bytes::be16_at(data, 6) as int, i),
            ),
    ensures
        (descriptors.len() > 0 && descriptors[0].vendor@.len() >= 10) <==> bytes::be16_at(data, 6)
            == 50,
        bytes::be16_at(data, 6) == 50 ==> bytes::be32_at(descriptors[0].vendor@, 6)
            == bytes::be32_at(data, 54),
{
    let len = bytes::be16_at(data, 6) as int;
    assert(0 * len == 0 && (0 + 1) * len == len) by (nonlinear_arith);
    if len <= 50 {
        assert(50int / len == 1) by (nonlinear_arith)
            requires
                40 <= len <= 50,
        ;
        let d = window::descriptor_bytes(data, len, 0);
        assert(d.len() == len);
        assert(descriptors[0].is_read_from(d));
    } else {
        assert(50int / len == 0) by (nonlinear_arith)
            requires
                50 < len,
        ;
    }
}

impl<T> Ls50<T> where T: Transport {
    /// Upload the identity gamma LUT for each of `chans`.
    fn upload_luts(&mut self, chans: &Vec<u8>) -> (r: Result<(), ScanError>)
        ensures
            scsi::extends(final(self).log(), old(self).log()),
            scsi::answers_fit(old(self).log()) ==> scsi::answers_fit(final(self).log()),
            forall|log: Seq<scsi::Event>|
                scsi::extends(log, final(self).log()) ==> #[trigger] protocol::luts_walk(
                    log,
                    old(self).log().len(),
                    chans@,
                    0,
                ) == Some((r, final(self).log().len())),
    {
        let lut: Vec<u8> = build_gamma_lut();
        let ghost start = self.log().len();
        for k in 0..chans.len()
            invariant
                start == old(self).log().len(),
                lut@ == protocol::identity_lut(),
                scsi::extends(self.log(), old(self).log()),
                scsi::answers_fit(old(self).log()) ==> scsi::answers_fit(self.log()),
                forall|log: Seq<scsi::Event>|
                    scsi::extends(log, self.log()) ==> #[trigger] protocol::luts_walk(
                        log,
                        start,
                        chans@,
                        0,
                    ) == protocol::luts_walk(log, self.log().len(), chans@, k as nat),
        {
            let sent = self.send(
                &Write::new(
                    0,
                    DataTypeCode::GammaFunction,
                    chans[k] as u16 * 0x100 + 0x01,
                    vstd::slice::slice_to_vec(lut.as_slice()),
                    0x00,
                ),
            );
            if let Err(err) = sent {
                return Err(ScanError::Scsi(err));
            }
        }
        Ok(())
    }

    /// SET WINDOW for each channel: given exposure, or 0 for the IR channel (index >= 3).
    fn set_windows(
        &mut self,
        settings: &ScanSettings,
        chans: &Vec<u8>,
        exposure: &[u32; 3],
        y_offset: u32,
        ae: bool,
    ) -> (r: Result<(), ScanError>)
        requires
            chans@ == protocol::channel_ids(settings.infrared),
        ensures
            scsi::extends(final(self).log(), old(self).log()),
            scsi::answers_fit(old(self).log()) ==> scsi::answers_fit(final(self).log()),
            forall|log: Seq<scsi::Event>|
                scsi::extends(log, final(self).log()) ==> #[trigger] protocol::windows_walk(
                    log,
                    old(self).log().len(),
                    *settings,
                    exposure@,
                    y_offset as int,
                    ae,
                    0,
                ) == Some((r, final(self).log().len())),
    {
        let ghost start = self.log().len();
        for k in 0..chans.len()
            invariant
                start == old(self).log().len(),
                chans@ == protocol::channel_ids(settings.infrared),
                scsi::extends(self.log(), old(self).log()),
                scsi::answers_fit(old(self).log()) ==> scsi::answers_fit(self.log()),
                forall|log: Seq<scsi::Event>|
                    scsi::extends(log, self.log()) ==> #[trigger] protocol::windows_walk(
                        log,
                        start,
                        *settings,
                        exposure@,
                        y_offset as int,
                        ae,
                        0,
                    ) == protocol::windows_walk(
                        log,
                        self.log().len(),
                        *settings,
                        exposure@,
                        y_offset as int,
                        ae,
                        k as nat,
                    ),
        {
            let exp: Option<u32> = if k < 3 {
                Some(exposure[k])
            } else {
                None
            };
            let payload: Vec<u8> = build_window(settings, chans[k], exp, y_offset, ae);
            match self.send(&SetWindow::new(payload)) {
                Ok(()) => {},
                Err(err) => {
                    // key 0x01 RECOVERED (e.g. 01/37): window set, value snapped to grid.
                    let recovered = match &err {
                        ScsiError::Status { sense: Some(sense), .. } => sense.key == 0x01,
                        _ => false,
                    };
                    if !recovered {
                        return Err(ScanError::Scsi(err));
                    }
                },
            }
        }
        Ok(())
    }

    /// GET WINDOW read-back, `n` times; required or the scan never reaches read-ready.
    fn read_back(&mut self, n: usize)
        ensures
            scsi::extends(final(self).log(), old(self).log()),
            scsi::answers_fit(old(self).log()) ==> scsi::answers_fit(final(self).log()),
            forall|log: Seq<scsi::Event>|
                scsi::extends(log, final(self).log()) ==> #[trigger] protocol::read_back_walk(
                    log,
                    old(self).log().len(),
                    n as nat,
                ) == Some(((), final(self).log().len())),
    {
        let ghost start = self.log().len();
        for i in 0..n
            invariant
                start == old(self).log().len(),
                self.log().len() == start + i,
                scsi::extends(self.log(), old(self).log()),
                scsi::answers_fit(old(self).log()) ==> scsi::answers_fit(self.log()),
                protocol::all_sent(self.log(), start, protocol::read_back_requests(i as nat)),
        {
            let ghost before = self.log();
            let _ = self.send(&GetWindow::new(0, false, 0, 58, 0x00));
            proof {
                let sent = protocol::read_back_requests(i as nat);
                let asked = protocol::read_back_requests((i + 1) as nat);
                assert forall|j: int| 0 <= j < asked.len() implies scsi::reply_to(
                    self.log(),
                    (start + j) as nat,
                    #[trigger] asked[j],
                ) is Some by {
                    if j < i {
                        assert(sent[j] == asked[j]);
                        assert(scsi::reply_to(before, (start + j) as nat, sent[j]) is Some);
                    }
                }
            }
        }
        let _ = self.wait_ready();
    }

    /// Arm one image pass: frame boundary, focus, per-channel identity gamma LUT,
    /// per-channel SET WINDOW (per-channel `exposure`; IR gets none), GET WINDOW
    /// read-back. `ae` sets the AE scan-mode byte for a measurement pass. The caller
    /// issues SCAN afterwards. The boundary declares all `n_frames`; the window
    /// selects `frame` (0-based) at `frame*pitch + subframe`.
    fn arm_pass(
        &mut self,
        settings: &ScanSettings,
        n_frames: u32,
        frame: u32,
        subframe: u32,
        exposure: &[u32; 3],
        ae: bool,
    ) -> (r: Result<(), ScanError>)
        requires
            protocol::bounds_fit(*settings, n_frames as nat, subframe as int),
            !ae ==> protocol::middle_fits(*settings, frame as int, subframe as int),
            frame < n_frames || frame == 0 && ae,
        ensures
            scsi::extends(final(self).log(), old(self).log()),
            scsi::answers_fit(old(self).log()) ==> scsi::answers_fit(final(self).log()),
            forall|log: Seq<scsi::Event>|
                scsi::extends(log, final(self).log()) ==> #[trigger] protocol::arm_walk(
                    log,
                    old(self).log().len(),
                    *settings,
                    n_frames as nat,
                    frame as int,
                    subframe as int,
                    exposure@,
                    ae,
                ) == Some((r, final(self).log().len())),
    {
        reveal(protocol::arm_walk);
        let pitch: u32 = pitch_native();
        let y_offset: u32 = frame * pitch + subframe;
        // Boundary: declare whole strip so the feed reaches `frame`.
        let boundary = self.boundary_cmd(settings, n_frames, subframe);
        let _ = self.send(&boundary);
        // Autofocus at the frame centre (real pass, when enabled); else park focus at 0.
        // The motor runs ~1 s afterward: wait it out or SCAN fires mid-motion.
        if settings.autofocus && !ae {
            if let Err(err) = self.autofocus(settings, y_offset) {
                return Err(err);
            }
        } else {
            if let Err(err) = self.trigger(&VendorE0::new(0xC1, bytes::zero_bytes(9))) {
                return Err(err);
            }
            if let Err(err) = self.trigger(&VendorC1::new()) {
                return Err(err);
            }
            let _ = self.wait_ready();
        }
        let chans: Vec<u8> = channels(settings);
        // Identity gamma LUT: normal scans only (SANE `cs3_scan` skips it for AE).
        if !ae {
            if let Err(err) = self.upload_luts(&chans) {
                return Err(err);
            }
        }
        if let Err(err) = self.set_windows(settings, &chans, exposure, y_offset, ae) {
            return Err(err);
        }
        self.read_back(chans.len());
        Ok(())
    }
}

/// Lines that were read whole or in part never fill a decoder beyond its frame.
proof fn lemma_lines_fit(done: int, lines: int, len: int, stride: int)
    requires
        0 <= done < lines,
        0 <= len <= stride,
    ensures
        0 <= done * len,
        done * len + len == (done + 1) * len,
        (done + 1) * len <= lines * len,
        (done + 1) * len <= stride * lines,
{
    assert(0 <= done * len && done * len + len == (done + 1) * len && (done + 1) * len <= lines
        * len && (done + 1) * len <= stride * lines) by (nonlinear_arith)
        requires
            0 <= done < lines,
            0 <= len <= stride,
    ;
}

impl<T> Ls50<T> where T: Transport {
    /// Drain the image into `dec`, one padded line per READ (each plane padded to even
    /// bytes, planes concatenated, line block-padded to 512). Lines arrive as the
    /// carriage moves: a not-ready sense (key 0x02, or 05/2C) means retry the same line;
    /// any other CHECK CONDITION is end-of-data.
    pub fn drain_image(&mut self, settings: &ScanSettings, dec: &mut PlanarDecoder) -> (r: Result<
        (),
        ScanError,
    >)
        requires
            decode::settings_fit(*settings),
            old(dec).wf(),
            old(dec).layout() == decode::settings_layout(*settings),
            old(dec).offered() == 0,
            old(dec).stream() == Seq::<u8>::empty(),
        ensures
            final(dec).wf(),
            final(dec).layout() == old(dec).layout(),
            scsi::extends(final(self).log(), old(self).log()),
            scsi::answers_fit(old(self).log()) ==> scsi::answers_fit(final(self).log()),
            forall|log: Seq<scsi::Event>|
                scsi::extends(log, final(self).log()) ==> #[trigger] protocol::drain_walk(
                    log,
                    old(self).log().len(),
                    protocol::line_request_len(*settings),
                    settings.rows() as nat,
                    0,
                    Seq::empty(),
                ) == Some(((r, final(dec).stream()), final(self).log().len())),
            final(dec).stream().len() <= settings.rows() * protocol::line_request_len(*settings),
            laws::is_drain(
                final(self).log(),
                old(self).log().len(),
                final(self).log().len(),
                *settings,
                r,
                final(dec).stream(),
            ),
    {
        let ghost at = self.log().len();
        let r = self.read_lines(settings, dec);
        proof {
            laws::lemma_drain(self.log(), at, *settings, r, dec.stream(), self.log().len());
        }
        r
    }

    /// The loop of [`drain_image`](Self::drain_image).
    fn read_lines(&mut self, settings: &ScanSettings, dec: &mut PlanarDecoder) -> (r: Result<
        (),
        ScanError,
    >)
        requires
            decode::settings_fit(*settings),
            old(dec).wf(),
            old(dec).layout() == decode::settings_layout(*settings),
            old(dec).offered() == 0,
            old(dec).stream() == Seq::<u8>::empty(),
        ensures
            final(dec).wf(),
            final(dec).layout() == old(dec).layout(),
            scsi::extends(final(self).log(), old(self).log()),
            scsi::answers_fit(old(self).log()) ==> scsi::answers_fit(final(self).log()),
            forall|log: Seq<scsi::Event>|
                scsi::extends(log, final(self).log()) ==> #[trigger] protocol::drain_walk(
                    log,
                    old(self).log().len(),
                    protocol::line_request_len(*settings),
                    settings.rows() as nat,
                    0,
                    Seq::empty(),
                ) == Some(((r, final(dec).stream()), final(self).log().len())),
            final(dec).stream().len() <= settings.rows() * protocol::line_request_len(*settings),
    {
        let (_, max_lines) = settings.output_dims();
        let stride: usize = settings.bytes_per_line();
        let len: u32 = (stride as u64 % 0x1_0000_0000) as u32;
        let ghost start = self.log().len();
        let ghost frame_len = stride * max_lines;
        let mut line: u32 = 0;
        let mut idle: u32 = 0;
        proof {
            settings.lemma_grid_pitch();
            settings.lemma_line_len();
            assert(0 * len == 0);
            assert(0 <= max_lines * len) by (nonlinear_arith)
                requires
                    0 <= max_lines,
                    0 <= len,
            ;
        }
        while line < max_lines
            invariant
                start == old(self).log().len(),
                line <= max_lines,
                idle < IMAGE_IDLE_ATTEMPTS,
                max_lines == settings.rows(),
                stride == settings.line_len(),
                len == protocol::line_request_len(*settings),
                len <= stride,
                stride * max_lines <= u64::MAX,
                dec.wf(),
                dec.layout() == old(dec).layout(),
                dec.layout() == decode::settings_layout(*settings),
                dec.offered() == line * len,
                dec.stream().len() == line * len,
                0 <= line * len <= max_lines * len,
                scsi::extends(self.log(), old(self).log()),
                scsi::answers_fit(old(self).log()) ==> scsi::answers_fit(self.log()),
                forall|log: Seq<scsi::Event>|
                    scsi::extends(log, self.log()) ==> #[trigger] protocol::drain_walk(
                        log,
                        start,
                        len,
                        max_lines as nat,
                        0,
                        Seq::empty(),
                    ) == protocol::drain_walk(
                        log,
                        self.log().len(),
                        len,
                        (max_lines - line) as nat,
                        idle as nat,
                        dec.stream(),
                    ),
            decreases max_lines - line, IMAGE_IDLE_ATTEMPTS - idle,
        {
            // Wait Ready before each READ: reading mid-positioning (05/2C) aborts the scan.
            let ready = match self.status() {
                Ok(Status::Ready) => true,
                _ => false,
            };
            if !ready {
                idle = idle + 1;
                if idle >= IMAGE_IDLE_ATTEMPTS {
                    return Err(ScanError::ScanNotReady(idle));
                }
                self.pause(IMAGE_IDLE_PAUSE_MS);
                continue ;
            }
            match self.send(&Read::new(0, DataTypeCode::Image, 0, len, 0x00)) {
                Ok(bytes) => {
                    proof {
                        lemma_lines_fit(line as int, max_lines as int, len as int, stride as int);
                    }
                    if let Err(err) = dec.push(bytes.as_slice()) {
                        return Err(ScanError::Decode(err));
                    }
                    line = line + 1;
                    idle = 0;
                },
                Err(err) => {
                    // Flipped back to not-ready between poll and read: retry the line.
                    let pending = match &err {
                        ScsiError::Status { sense: Some(sense), .. } => sense.key == 0x02 || (
                        sense.key == 0x05 && sense.asc == 0x2C),
                        _ => false,
                    };
                    if pending {
                        idle = idle + 1;
                        if idle >= IMAGE_IDLE_ATTEMPTS {
                            return Err(ScanError::ScanNotReady(idle));
                        }
                        self.pause(IMAGE_IDLE_PAUSE_MS);
                        continue ;
                    }
                    return match err {
                        // any other sense ends the transfer early.
                        ScsiError::Status { .. } => Ok(()),
                        err => Err(ScanError::Scsi(err)),
                    };
                },
            }
        }
        Ok(())
    }

    /// Arm frame `frame`, issue SCAN, and drain its lines into `dec`.
    fn drive_one(
        &mut self,
        settings: &ScanSettings,
        n_frames: u32,
        frame: u32,
        subframe: u32,
        exposure: &[u32; 3],
        dec: &mut PlanarDecoder,
    ) -> (r: Result<(), ScanError>)
        requires
            decode::settings_fit(*settings),
            protocol::bounds_fit(*settings, n_frames as nat, subframe as int),
            protocol::middle_fits(*settings, frame as int, subframe as int),
            frame < n_frames,
            old(dec).wf(),
            old(dec).layout() == decode::settings_layout(*settings),
            old(dec).offered() == 0,
            old(dec).stream() == Seq::<u8>::empty(),
        ensures
            final(dec).wf(),
            final(dec).layout() == old(dec).layout(),
            scsi::extends(final(self).log(), old(self).log()),
            scsi::answers_fit(old(self).log()) ==> scsi::answers_fit(final(self).log()),
            forall|log: Seq<scsi::Event>|
                scsi::extends(log, final(self).log()) ==> #[trigger] protocol::drive_walk(
                    log,
                    old(self).log().len(),
                    *settings,
                    n_frames as nat,
                    frame as int,
                    subframe as int,
                    exposure@,
                ) == Some(((r, final(dec).stream()), final(self).log().len())),
            final(dec).stream().len() <= settings.rows() * protocol::line_request_len(*settings),
    {
        reveal(protocol::drive_walk);
        proof {
            protocol::lemma_frame_height(*settings, dec.stream());
        }
        let chans: Vec<u8> = channels(settings);
        if let Err(err) = self.arm_pass(settings, n_frames, frame, subframe, exposure, false) {
            return Err(err);
        }
        if let Err(err) = self.start_scan(chans.as_slice()) {
            return Err(err);
        }
        self.drain_image(settings, dec)
    }

    /// Autoexposure pre-pass: arm `frame` in AE mode (`d[42]=0x20`), SCAN RGB, read the
    /// measured exposure via GET WINDOW. AE pass streams no image: nothing to drain.
    /// Firmware re-measures only when calibration is stale (cold-start/idle); otherwise
    /// it returns the seed, which is the fixed exposure.
    fn measure_exposure(
        &mut self,
        settings: &ScanSettings,
        n_frames: u32,
        frame: u32,
        subframe: u32,
    ) -> (r: Result<[u32; 3], ScanError>)
        requires
            protocol::bounds_fit(*settings, n_frames as nat, subframe as int),
            frame < n_frames || frame == 0,
        ensures
            scsi::extends(final(self).log(), old(self).log()),
            scsi::answers_fit(old(self).log()) ==> scsi::answers_fit(final(self).log()),
            forall|log: Seq<scsi::Event>|
                scsi::extends(log, final(self).log()) ==> #[trigger] protocol::measure_walk(
                    log,
                    old(self).log().len(),
                    *settings,
                    n_frames as nat,
                    frame as int,
                    subframe as int,
                ) == Some((exposures(r), final(self).log().len())),
    {
        reveal(protocol::measure_walk);
        assert(EXPOSURE_10NS@ =~= protocol::fixed_exposure());
        assert(CHANNELS_RGB@ =~= protocol::channel_ids(false));
        if let Err(err) = self.arm_pass(settings, n_frames, frame, subframe, &EXPOSURE_10NS, true) {
            return Err(err);
        }
        if let Err(err) = self.start_scan(CHANNELS_RGB.as_slice()) {
            return Err(err);
        }
        let _ = self.wait_ready();
        self.read_exposure_rgb()
    }

    /// Per-channel exposure for the upcoming pass: firmware-measured (via an AE
    /// pre-pass on `frame`) when [`ScanSettings::autoexposure`] is set, else the
    /// fixed [`EXPOSURE_10NS`].
    fn exposure_for(
        &mut self,
        settings: &ScanSettings,
        n_frames: u32,
        frame: u32,
        subframe: u32,
    ) -> (r: Result<[u32; 3], ScanError>)
        requires
            protocol::bounds_fit(*settings, n_frames as nat, subframe as int),
            frame < n_frames || frame == 0,
        ensures
            scsi::extends(final(self).log(), old(self).log()),
            scsi::answers_fit(old(self).log()) ==> scsi::answers_fit(final(self).log()),
            forall|log: Seq<scsi::Event>|
                scsi::extends(log, final(self).log()) ==> #[trigger] protocol::exposure_for_walk(
                    log,
                    old(self).log().len(),
                    *settings,
                    n_frames as nat,
                    frame as int,
                    subframe as int,
                ) == Some((exposures(r), final(self).log().len())),
    {
        if settings.autoexposure {
            // Measure RGB only; IR keeps a fixed exposure.
            let ae = ScanSettings { infrared: false, autoexposure: false, ..*settings };
            self.measure_exposure(&ae, n_frames, frame, subframe)
        } else {
            assert(EXPOSURE_10NS@ =~= protocol::fixed_exposure());
            Ok(EXPOSURE_10NS)
        }
    }

    /// Scan frame 0 and return the decoded frame (no feed offset).
    pub fn scan(&mut self, settings: &ScanSettings) -> (r: Result<Frame, ScanError>)
        requires
            decode::settings_fit(*settings),
            protocol::strip_fits(*settings, 1, 0),
        ensures
            r matches Err(err) ==> failures::fails_for_a_reason(
                final(self).log(),
                old(self).log().len(),
                final(self).log().len(),
                *settings,
                err,
            ),
            r matches Ok(frame) ==> runs::is_scan_of(
                final(self).log(),
                old(self).log().len(),
                final(self).log().len(),
                *settings,
                1,
                0,
                seq![frame],
            ),
            r matches Ok(frame) ==> is_frame_of(frame, *settings),
            scsi::extends(final(self).log(), old(self).log()),
            scsi::answers_fit(old(self).log()) ==> scsi::answers_fit(final(self).log()),
            forall|log: Seq<scsi::Event>|
                scsi::extends(log, final(self).log()) ==> #[trigger] protocol::scan_walk(
                    log,
                    old(self).log().len(),
                    *settings,
                    0,
                ) == Some((raster(r), final(self).log().len())),
    {
        self.scan_at(settings, 0)
    }

    /// Scan one frame at feed-axis offset `subframe` (native pixels): prepare, arm, SCAN,
    /// drain, decode.
    pub fn scan_at(&mut self, settings: &ScanSettings, subframe: u32) -> (r: Result<
        Frame,
        ScanError,
    >)
        requires
            decode::settings_fit(*settings),
            protocol::strip_fits(*settings, 1, subframe as int),
        ensures
            r matches Err(err) ==> failures::fails_for_a_reason(
                final(self).log(),
                old(self).log().len(),
                final(self).log().len(),
                *settings,
                err,
            ),
            r matches Ok(frame) ==> runs::is_scan_of(
                final(self).log(),
                old(self).log().len(),
                final(self).log().len(),
                *settings,
                1,
                subframe as int,
                seq![frame],
            ),
            r matches Ok(frame) ==> is_frame_of(frame, *settings),
            scsi::extends(final(self).log(), old(self).log()),
            scsi::answers_fit(old(self).log()) ==> scsi::answers_fit(final(self).log()),
            forall|log: Seq<scsi::Event>|
                scsi::extends(log, final(self).log()) ==> #[trigger] protocol::scan_walk(
                    log,
                    old(self).log().len(),
                    *settings,
                    subframe as int,
                ) == Some((raster(r), final(self).log().len())),
    {
        let ghost at = self.log().len();
        if let Err(err) = self.prepare() {
            proof {
                lemma_scan_runs(
                    self.log(),
                    at,
                    *settings,
                    subframe,
                    Err::<Frame, ScanError>(err),
                    self.log().len(),
                );
            }
            return Err(err);
        }
        let r = self.drive_frame(settings, subframe);
        proof {
            lemma_scan_runs(self.log(), at, *settings, subframe, r, self.log().len());
        }
        r
    }

    /// [`scan_at`](Self::scan_at) for a geometry that need not fit: no frame where it does not,
    /// as soon as the scan cannot go on.
    pub fn try_scan_at(&mut self, settings: &ScanSettings, subframe: u32) -> (r: Result<
        Option<Frame>,
        ScanError,
    >)
        ensures
            r matches Ok(Some(frame)) ==> runs::is_scan_of(
                final(self).log(),
                old(self).log().len(),
                final(self).log().len(),
                *settings,
                1,
                subframe as int,
                seq![frame],
            ),
            r matches Ok(Some(frame)) ==> is_frame_of(frame, *settings),
            scsi::extends(final(self).log(), old(self).log()),
            scsi::answers_fit(old(self).log()) ==> scsi::answers_fit(final(self).log()),
            forall|log: Seq<scsi::Event>|
                scsi::extends(log, final(self).log()) ==> #[trigger] protocol::try_scan_walk(
                    log,
                    old(self).log().len(),
                    *settings,
                    subframe as int,
                ) == Some((tried_raster(r), final(self).log().len())),
    {
        let ghost at = self.log().len();
        if let Err(err) = self.prepare() {
            return Err(err);
        }
        if !settings.fits() || !settings.bounds_fit(1, subframe) {
            let _ = self.release();
            return Ok(None);
        }
        if !settings.middle_fits(0, subframe) {
            let result = self.exposure_for(settings, 1, 0, subframe);
            let _ = self.release();
            return match result {
                Ok(_) => Ok(None),
                Err(err) => Err(err),
            };
        }
        let r = self.drive_frame(settings, subframe);
        proof {
            lemma_scan_runs(self.log(), at, *settings, subframe, r, self.log().len());
        }
        match r {
            Ok(frame) => Ok(Some(frame)),
            Err(err) => Err(err),
        }
    }

    /// One frame for [`scan_at`](Self::scan_at), once the scanner is prepared; releases the
    /// unit.
    fn drive_frame(&mut self, settings: &ScanSettings, subframe: u32) -> (r: Result<
        Frame,
        ScanError,
    >)
        requires
            decode::settings_fit(*settings),
            protocol::strip_fits(*settings, 1, subframe as int),
        ensures
            r matches Ok(frame) ==> is_frame_of(frame, *settings),
            scsi::extends(final(self).log(), old(self).log()),
            scsi::answers_fit(old(self).log()) ==> scsi::answers_fit(final(self).log()),
            forall|log: Seq<scsi::Event>|
                scsi::extends(log, final(self).log()) ==> #[trigger] protocol::frame_walk(
                    log,
                    old(self).log().len(),
                    *settings,
                    subframe as int,
                ) == Some((raster(r), final(self).log().len())),
    {
        let mut dec = match PlanarDecoder::new(settings) {
            Ok(dec) => dec,
            Err(err) => {
                return Err(ScanError::Decode(err));
            },
        };
        // One frame: declare one, select frame 0.
        let result = match self.exposure_for(settings, 1, 0, subframe) {
            Ok(exp) => self.drive_one(settings, 1, 0, subframe, &exp, &mut dec),
            Err(err) => Err(err),
        };
        let _ = self.release();
        if let Err(err) = result {
            return Err(err);
        }
        proof {
            settings.lemma_grid_pitch();
            protocol::lemma_frame_height(*settings, dec.stream());
        }
        let frame = match dec.finish() {
            Ok(view) => view.to_owned(),
            Err(err) => {
                return Err(ScanError::Decode(err));
            },
        };
        if frame.rgb.height == 0 {
            return Err(ScanError::NoData);
        }
        Ok(frame)
    }

    /// Per-frame loop for [`scan_strip`](Self::scan_strip) over the first `count` of `frames`
    /// frames; caller releases the unit.
    fn drive_strip(
        &mut self,
        settings: &ScanSettings,
        frames: u32,
        count: u32,
        subframe: u32,
    ) -> (r: Result<Vec<Frame>, ScanError>)
        requires
            decode::settings_fit(*settings),
            protocol::bounds_fit(*settings, frames as nat, subframe as int),
            count <= frames,
            count > 0 ==> protocol::middle_fits(*settings, count - 1, subframe as int),
        ensures
            r matches Ok(done) ==> done@.len() == count && forall|i: int|
                0 <= i < done@.len() ==> is_frame_of(#[trigger] done@[i], *settings),
            scsi::extends(final(self).log(), old(self).log()),
            scsi::answers_fit(old(self).log()) ==> scsi::answers_fit(final(self).log()),
            forall|log: Seq<scsi::Event>|
                scsi::extends(log, final(self).log()) ==> #[trigger] protocol::drive_strip_walk(
                    log,
                    old(self).log().len(),
                    *settings,
                    frames as nat,
                    count as nat,
                    subframe as int,
                ) == Some((rasters(r), final(self).log().len())),
    {
        let ghost start = self.log().len();
        // Measure exposure once on frame 0 and reuse it for the whole strip.
        let exposure: [u32; 3] = match self.exposure_for(settings, frames, 0, subframe) {
            Ok(exposure) => exposure,
            Err(err) => {
                return Err(err);
            },
        };
        let mut dec = match PlanarDecoder::new(settings) {
            Ok(dec) => dec,
            Err(err) => {
                return Err(ScanError::Decode(err));
            },
        };
        let mut out: Vec<Frame> = Vec::new();
        assert(views(out@) =~= Seq::empty());
        for f in 0..count
            invariant
                start == old(self).log().len(),
                decode::settings_fit(*settings),
                protocol::bounds_fit(*settings, frames as nat, subframe as int),
                count <= frames,
                count > 0 ==> protocol::middle_fits(*settings, count - 1, subframe as int),
                dec.wf(),
                dec.layout() == decode::settings_layout(*settings),
                out@.len() == f,
                forall|i: int| 0 <= i < out@.len() ==> is_frame_of(#[trigger] out@[i], *settings),
                scsi::extends(self.log(), old(self).log()),
                scsi::answers_fit(old(self).log()) ==> scsi::answers_fit(self.log()),
                forall|log: Seq<scsi::Event>|
                    scsi::extends(log, self.log()) ==> #[trigger] protocol::drive_strip_walk(
                        log,
                        start,
                        *settings,
                        frames as nat,
                        count as nat,
                        subframe as int,
                    ) == protocol::frames_walk(
                        log,
                        self.log().len(),
                        *settings,
                        frames as nat,
                        count as nat,
                        subframe as int,
                        exposure@,
                        f as nat,
                        views(out@),
                    ),
        {
            dec.reset();
            assert(protocol::middle_fits(*settings, f as int, subframe as int)) by {
                let (k, last, pitch) = (f as int, count - 1, protocol::frame_pitch());
                assert(k * pitch <= last * pitch) by (nonlinear_arith)
                    requires
                        k <= last,
                        0 <= pitch,
                ;
            }
            // Boundary declares all frames so the feed reaches `f`; window selects it.
            if let Err(err) = self.drive_one(settings, frames, f, subframe, &exposure, &mut dec) {
                return Err(err);
            }
            proof {
                settings.lemma_grid_pitch();
                protocol::lemma_frame_height(*settings, dec.stream());
            }
            let frame = match dec.finish() {
                Ok(view) => view.to_owned(),
                Err(err) => {
                    return Err(ScanError::Decode(err));
                },
            };
            if frame.rgb.height == 0 {
                return Err(ScanError::NoData);
            }
            let ghost before = views(out@);
            out.push(frame);
            assert(views(out@) =~= before.push(frame@));
        }
        Ok(out)
    }

    /// Scan `frames` frames of a loaded strip. `prepare` once; each frame declares the
    /// whole strip in the boundary (so the feed advances) and selects frame `f` by
    /// window Y-offset `f*pitch + subframe` (native pixels). No host feed command: the feed
    /// motor moves. Strip must be sensed multi-frame (freshly loaded) or later frames come
    /// back black.
    pub fn scan_strip(&mut self, settings: &ScanSettings, frames: u32, subframe: u32) -> (r: Result<
        Vec<Frame>,
        ScanError,
    >)
        requires
            decode::settings_fit(*settings),
            protocol::strip_fits(*settings, frames as nat, subframe as int),
        ensures
            r matches Err(err) ==> failures::fails_for_a_reason(
                final(self).log(),
                old(self).log().len(),
                final(self).log().len(),
                *settings,
                err,
            ),
            r matches Ok(done) ==> runs::is_scan_of(
                final(self).log(),
                old(self).log().len(),
                final(self).log().len(),
                *settings,
                frames as int,
                subframe as int,
                done@,
            ),
            r matches Ok(done) ==> done@.len() == frames && forall|i: int|
                0 <= i < done@.len() ==> is_frame_of(#[trigger] done@[i], *settings),
            scsi::extends(final(self).log(), old(self).log()),
            scsi::answers_fit(old(self).log()) ==> scsi::answers_fit(final(self).log()),
            forall|log: Seq<scsi::Event>|
                scsi::extends(log, final(self).log()) ==> #[trigger] protocol::strip_walk(
                    log,
                    old(self).log().len(),
                    *settings,
                    frames as nat,
                    subframe as int,
                ) == Some((rasters(r), final(self).log().len())),
    {
        let ghost at = self.log().len();
        if let Err(err) = self.prepare() {
            proof {
                lemma_strip_runs(
                    self.log(),
                    at,
                    *settings,
                    frames,
                    subframe,
                    Err::<Vec<Frame>, ScanError>(err),
                    self.log().len(),
                );
            }
            return Err(err);
        }
        let result = self.drive_strip(settings, frames, frames, subframe);
        let _ = self.release();
        proof {
            lemma_strip_runs(self.log(), at, *settings, frames, subframe, result, self.log().len());
        }
        result
    }

    /// [`scan_strip`](Self::scan_strip) for a geometry that need not fit: no frames where it
    /// does not, as soon as the scan cannot go on.
    pub fn try_scan_strip(&mut self, settings: &ScanSettings, frames: u32, subframe: u32) -> (r:
        Result<Option<Vec<Frame>>, ScanError>)
        ensures
            r matches Ok(Some(done)) ==> runs::is_scan_of(
                final(self).log(),
                old(self).log().len(),
                final(self).log().len(),
                *settings,
                frames as int,
                subframe as int,
                done@,
            ),
            r matches Ok(Some(done)) ==> done@.len() == frames && forall|i: int|
                0 <= i < done@.len() ==> is_frame_of(#[trigger] done@[i], *settings),
            scsi::extends(final(self).log(), old(self).log()),
            scsi::answers_fit(old(self).log()) ==> scsi::answers_fit(final(self).log()),
            forall|log: Seq<scsi::Event>|
                scsi::extends(log, final(self).log()) ==> #[trigger] protocol::try_strip_walk(
                    log,
                    old(self).log().len(),
                    *settings,
                    frames as nat,
                    subframe as int,
                ) == Some((tried_rasters(r), final(self).log().len())),
    {
        let ghost at = self.log().len();
        if let Err(err) = self.prepare() {
            return Err(err);
        }
        if !settings.bounds_fit(frames, subframe) {
            let _ = self.release();
            return Ok(None);
        }
        if !settings.fits() {
            let result = self.exposure_for(settings, frames, 0, subframe);
            let _ = self.release();
            return match result {
                Ok(_) => Ok(None),
                Err(err) => Err(err),
            };
        }
        let count: u32 = settings.frames_in_reach(frames, subframe);
        let result = self.drive_strip(settings, frames, count, subframe);
        let _ = self.release();
        proof {
            if count == frames {
                lemma_strip_runs(
                    self.log(),
                    at,
                    *settings,
                    frames,
                    subframe,
                    result,
                    self.log().len(),
                );
            }
        }
        match result {
            Ok(done) => Ok(
                if count == frames {
                    Some(done)
                } else {
                    None
                },
            ),
            Err(err) => Err(err),
        }
    }

    /// Eject the loaded film/strip: VENDOR E0 sub `0xD0` + 13 zero bytes, then C1.
    /// Reserves, ejects, releases. Load/advance sub `0xD1` is rejected `05/24` here:
    /// frames advance by window Y-offset, no load counterpart.
    pub fn eject(&mut self) -> (r: Result<(), ScanError>)
        ensures
            scsi::extends(final(self).log(), old(self).log()),
            scsi::answers_fit(old(self).log()) ==> scsi::answers_fit(final(self).log()),
            forall|log: Seq<scsi::Event>|
                scsi::extends(log, final(self).log()) ==> #[trigger] protocol::eject_walk(
                    log,
                    old(self).log().len(),
                ) == Some((r, final(self).log().len())),
    {
        if let Err(err) = self.reserve() {
            return Err(ScanError::Scsi(err));
        }
        if let Err(err) = self.trigger(&VendorE0::new(0xD0, bytes::zero_bytes(13))) {
            return Err(err);
        }
        if let Err(err) = self.trigger(&VendorC1::new()) {
            return Err(err);
        }
        // Eject motor runs several s (TUR = Ejecting); drain transients before release.
        let _ = self.wait_settled();
        let _ = self.release();
        Ok(())
    }
}

/// Whether `frame` has the geometry that the settings ask for: their width, at least one line
/// and no more than theirs, and an infrared plane if and only if they ask for one.
pub open spec fn is_frame_of(frame: Frame, settings: ScanSettings) -> bool {
    &&& frame.wf()
    &&& frame.rgb.width == settings.columns()
    &&& 1 <= frame.rgb.height <= settings.rows()
    &&& frame.ir is Some <==> settings.infrared
}

/// A scan of one frame is a run of one pass that gave the frame, or it failed for a reason.
proof fn lemma_scan_runs(
    log: Seq<scsi::Event>,
    at: nat,
    settings: ScanSettings,
    subframe: u32,
    r: Result<Frame, ScanError>,
    end: nat,
)
    requires
        protocol::scan_walk(log, at, settings, subframe as int) == Some((raster(r), end)),
        protocol::strip_fits(settings, 1, subframe as int),
        r matches Ok(frame) ==> frame.wf(),
        at <= log.len(),
    ensures
        r matches Err(err) ==> failures::fails_for_a_reason(log, at, end, settings, err),
        r matches Ok(frame) ==> runs::is_scan_of(
            log,
            at,
            end,
            settings,
            1,
            subframe as int,
            seq![frame],
        ),
{
    protocol::lemma_frame_pitch();
    if let Err(err) = r {
        failures::lemma_scan_fails_for_a_reason(log, at, settings, subframe as int, err, end);
    }
    if let Ok(frame) = r {
        let run = runs::lemma_scan_run(log, at, settings, subframe as int, frame@, end);
        let pictures = seq![frame@];
        assert(runs::is_run(log, run, at, end, settings, 1, subframe as int, pictures));
        assert(runs::are_shown(seq![frame], pictures));
    }
}

/// A scan of a strip is a run of as many passes that gave the frames, or it failed for a reason.
proof fn lemma_strip_runs(
    log: Seq<scsi::Event>,
    at: nat,
    settings: ScanSettings,
    n: u32,
    subframe: u32,
    r: Result<Vec<Frame>, ScanError>,
    end: nat,
)
    requires
        protocol::strip_walk(log, at, settings, n as nat, subframe as int) == Some(
            (rasters(r), end),
        ),
        protocol::strip_fits(settings, n as nat, subframe as int),
        r matches Ok(done) ==> forall|i: int|
            0 <= i < done@.len() ==> is_frame_of(#[trigger] done@[i], settings),
        at <= log.len(),
    ensures
        r matches Err(err) ==> failures::fails_for_a_reason(log, at, end, settings, err),
        r matches Ok(done) ==> runs::is_scan_of(
            log,
            at,
            end,
            settings,
            n as int,
            subframe as int,
            done@,
        ),
{
    protocol::lemma_frame_pitch();
    if let Err(err) = r {
        failures::lemma_strip_fails_for_a_reason(
            log,
            at,
            settings,
            n as nat,
            subframe as int,
            err,
            end,
        );
    }
    if let Ok(done) = r {
        let frames = views(done@);
        let run = runs::lemma_strip_run(
            log,
            at,
            settings,
            n as nat,
            subframe as int,
            frames,
            end,
        );
        assert(runs::is_run(log, run, at, end, settings, n as int, subframe as int, frames));
        assert(runs::are_shown(done@, frames));
    }
}

/// The frame in `r`, as a mathematical object.
pub open spec fn raster(r: Result<Frame, ScanError>) -> Result<Raster, ScanError> {
    match r {
        Ok(frame) => Ok(frame@),
        Err(err) => Err(err),
    }
}

/// The frame in `r`, if there is one, as a mathematical object.
pub open spec fn tried_raster(r: Result<Option<Frame>, ScanError>) -> Result<
    Option<Raster>,
    ScanError,
> {
    match r {
        Ok(Some(frame)) => Ok(Some(frame@)),
        Ok(None) => Ok(None),
        Err(err) => Err(err),
    }
}

/// The frames, as mathematical objects.
pub open spec fn views(frames: Seq<Frame>) -> Seq<Raster> {
    Seq::new(frames.len(), |i: int| frames[i]@)
}

/// The frames in `r`, as mathematical objects.
pub open spec fn rasters(r: Result<Vec<Frame>, ScanError>) -> Result<Seq<Raster>, ScanError> {
    match r {
        Ok(frames) => Ok(views(frames@)),
        Err(err) => Err(err),
    }
}

/// The frames in `r`, if there are any, as mathematical objects.
pub open spec fn tried_rasters(r: Result<Option<Vec<Frame>>, ScanError>) -> Result<
    Option<Seq<Raster>>,
    ScanError,
> {
    match r {
        Ok(Some(frames)) => Ok(Some(views(frames@))),
        Ok(None) => Ok(None),
        Err(err) => Err(err),
    }
}

} // verus!
