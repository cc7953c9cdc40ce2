//! What driving an LS-50 does on the link, in mathematical terms.
//!
//! A *walk* reads the history of the link from a position on: it holds each event against what
//! the driver does next, takes the device's answers from it, and says what the driver returns
//! and at which position it is done. A walk is `None` where the history is not one that the
//! driver leaves. The driver's contracts say that its calls leave histories of which the walk
//! gives the result that was returned, whatever happens on the link later.

use super::holder::Holder;
use super::status::Status;
use super::decode;
use super::scan;
use super::{AdapterCaps, ScanError, ScanSettings};
use crate::scanners::decode::Raster;
use crate::scsi::bytes;
use crate::scsi::cdbs;
use crate::scsi::cdbs::DataTypeCode;
use crate::scsi::{DataPhase, Error as ScsiError, Event, Request};
use crate::scsi;
use crate::text;
use vstd::prelude::*;

verus! {

/// What a walk gives: the result of the call and the position after its last event.
pub type Told<R> = Option<(R, nat)>;

/// INQUIRY.
pub open spec fn inquiry_request() -> Request {
    scsi::request(
        cdbs::inquiry::inquiry_cdb(None, cdbs::inquiry::INQUIRY_LEN),
        DataPhase::Read(cdbs::inquiry::INQUIRY_LEN as nat),
    )
}

/// INQUIRY for one vital product data page.
pub open spec fn vpd_request(page: u8, allocation_length: u8) -> Request {
    scsi::request(
        cdbs::inquiry::inquiry_cdb(Some(page), allocation_length),
        DataPhase::Read(allocation_length as nat),
    )
}

/// TEST UNIT READY.
pub open spec fn test_request() -> Request {
    scsi::request(cdbs::test_unit_ready::test_unit_ready_cdb(), DataPhase::NoData)
}

/// RESERVE UNIT.
pub open spec fn reserve_request() -> Request {
    scsi::request(cdbs::unit::unit_cdb(0x16, 0, None, 0), DataPhase::NoData)
}

/// RELEASE UNIT.
pub open spec fn release_request() -> Request {
    scsi::request(cdbs::unit::unit_cdb(0x17, 0, None, 0), DataPhase::NoData)
}

/// Who the device says it is.
pub struct Identity {
    pub vendor: Seq<char>,
    pub product: Seq<char>,
    pub revision: Seq<char>,
}

/// Asking who the device is: three padded fields of the standard answer.
pub open spec fn inquiry_walk(log: Seq<Event>, at: nat) -> Told<Result<Identity, ScsiError>> {
    match scsi::reply_to(log, at, inquiry_request()) {
        Some(reply) => Some(
            (
                match reply.outcome {
                    Ok(_) => Ok(
                        Identity {
                            vendor: text::padded_field(reply.data.subrange(8, 16)),
                            product: text::padded_field(reply.data.subrange(16, 32)),
                            revision: text::padded_field(reply.data.subrange(32, 36)),
                        },
                    ),
                    Err(err) => Err(err),
                },
                at + 1,
            ),
        ),
        None => None,
    }
}

/// A command whose only answer is how it ended.
pub open spec fn plain_walk(log: Seq<Event>, at: nat, asked: Request) -> Told<
    Result<(), ScsiError>,
> {
    match scsi::reply_to(log, at, asked) {
        Some(reply) => Some(
            (
                match reply.outcome {
                    Ok(_) => Ok(()),
                    Err(err) => Err(err),
                },
                at + 1,
            ),
        ),
        None => None,
    }
}

/// Asking for the adapter's geometry.
pub open spec fn caps_walk(log: Seq<Event>, at: nat) -> Told<AdapterCaps> {
    match scsi::reply_to(log, at, vpd_request(0xC1, 87)) {
        Some(reply) => Some(
            (
                match reply.outcome {
                    Ok(_) => AdapterCaps::of_page(cdbs::inquiry::vpd_data(reply.data)),
                    Err(_) => AdapterCaps::fallback(),
                },
                at + 1,
            ),
        ),
        None => None,
    }
}

/// Asking for the state.
pub open spec fn status_walk(log: Seq<Event>, at: nat) -> Told<Result<Status, ScsiError>> {
    match scsi::reply_to(log, at, test_request()) {
        Some(reply) => Some((Status::of_outcome(reply.outcome), at + 1)),
        None => None,
    }
}

/// Asking for the adapter.
pub open spec fn holder_walk(log: Seq<Event>, at: nat) -> Told<Result<Holder, ScsiError>> {
    match scsi::reply_to(
        log,
        at,
        vpd_request(Holder::SUPPORTED_PAGES_CODE, Holder::ALLOCATION_LENGTH),
    ) {
        Some(reply) => Some(
            (
                match reply.outcome {
                    Ok(_) => Ok(
                        Holder::of_pages(reply.data[1], cdbs::inquiry::vpd_data(reply.data)),
                    ),
                    Err(err) => Err(err),
                },
                at + 1,
            ),
        ),
        None => None,
    }
}

/// The channels a scan acquires: red, green and blue, and infrared (9) last.
pub open spec fn channel_ids(infrared: bool) -> Seq<u8> {
    if infrared {
        seq![0x01u8, 0x02u8, 0x03u8, 0x09u8]
    } else {
        seq![0x01u8, 0x02u8, 0x03u8]
    }
}

/// The exposure used where none is measured, for red, green and blue.
pub open spec fn fixed_exposure() -> Seq<u32> {
    seq![120_000u32, 120_000u32, 100_000u32]
}

/// Native pixels from one frame to the next: 38 mm at 4000 dots per inch.
pub open spec fn frame_pitch() -> int {
    super::nearest_quotient(380 * super::BASE_RES, 254)
}

/// The frames are 5984 native pixels apart.
pub proof fn lemma_frame_pitch()
    ensures
        frame_pitch() == 5984,
{
}

/// Where frame `frame` begins, in native pixels along the feed.
pub open spec fn frame_start(frame: int, subframe: int) -> int {
    frame * frame_pitch() + subframe
}

/// The bounds of one frame: first row, first column, last row, last column.
pub open spec fn frame_bounds(native_x: int, frame: int, subframe: int) -> Seq<u8> {
    bytes::be32_bytes(frame_start(frame, subframe) as u32) + bytes::be32_bytes(0)
        + bytes::be32_bytes((frame_start(frame, subframe) + frame_pitch() - 1) as u32)
        + bytes::be32_bytes((native_x - 1) as u32)
}

/// The bounds of the first `n` frames.
pub open spec fn strip_bounds(native_x: int, n: nat, subframe: int) -> Seq<u8>
    decreases n,
{
    if n == 0 {
        Seq::empty()
    } else {
        strip_bounds(native_x, (n - 1) as nat, subframe) + frame_bounds(native_x, n - 1, subframe)
    }
}

/// The header of the declaration of `n` frames: its length, and the count twice. Of the length
/// the low 16 bits, of the count the low 8.
pub open spec fn boundary_header(n: nat) -> Seq<u8> {
    seq![
        bytes::byte_of((4 + 16 * n) as int, 1),
        bytes::byte_of((4 + 16 * n) as int, 0),
        bytes::byte_of(n as int, 0),
        bytes::byte_of(n as int, 0),
    ]
}

/// The payload that declares a strip of `n` frames: the header, and the bounds of each frame.
pub open spec fn boundary_payload(native_x: int, n: nat, subframe: int) -> Seq<u8> {
    boundary_header(n) + strip_bounds(native_x, n, subframe)
}

/// Whether the bounds of the frames on a strip of `n_frames` frames are 32-bit numbers.
pub open spec fn bounds_fit(s: ScanSettings, n_frames: nat, subframe: int) -> bool {
    &&& n_frames > 0 ==> s.caps.native_x > 0
    &&& frame_start(n_frames as int, subframe) - 1 <= u32::MAX
}

/// Whether the middle of frame `frame` is a 32-bit number, where it is focused on.
pub open spec fn middle_fits(s: ScanSettings, frame: int, subframe: int) -> bool {
    s.autofocus ==> frame_start(frame, subframe) + s.native_rows() / 2 <= u32::MAX
}

/// Whether the places on a strip of `n_frames` frames, and the middles of the frames where
/// these are focused on, are 32-bit numbers.
pub open spec fn strip_fits(s: ScanSettings, n_frames: nat, subframe: int) -> bool {
    &&& bounds_fit(s, n_frames, subframe)
    &&& n_frames > 0 ==> middle_fits(s, n_frames - 1, subframe)
}

/// How many frames of a strip of `n_frames` frames have middles that fit: those up to the last
/// one whose middle does.
pub open spec fn frames_in_reach(s: ScanSettings, n_frames: nat, subframe: int) -> nat
    decreases n_frames,
{
    if n_frames == 0 || middle_fits(s, n_frames - 1, subframe) {
        n_frames
    } else {
        frames_in_reach(s, (n_frames - 1) as nat, subframe)
    }
}

/// The payload that sets the window of one channel: the header with the descriptor's length,
/// and the descriptor.
pub open spec fn window_payload(
    s: ScanSettings,
    channel: u8,
    exposure: Option<u32>,
    y_offset: u32,
    ae: bool,
) -> Seq<u8> {
    bytes::zeros(6) + bytes::be16_bytes(50) + seq![channel, 0u8] + bytes::be16_bytes(
        s.grid_res(),
    ) + bytes::be16_bytes(s.grid_res()) + bytes::zeros(4) + bytes::be32_bytes(y_offset)
        + bytes::be32_bytes(s.native_columns() as u32) + bytes::be32_bytes(s.native_rows() as u32)
        + bytes::zeros(3) + seq![0x05u8, 0x0Eu8] + bytes::zeros(13) + seq![
        0x00u8,
        0x81u8,
        scan_mode(s.samples, ae),
        0x02u8,
        0x02u8,
        0xFFu8,
    ] + bytes::be32_bytes(
        match exposure {
            Some(exposure) => exposure,
            None => 0,
        },
    )
}

/// The scan-mode byte: 0x20 for a measurement, else the number of samples, at least 1.
pub open spec fn scan_mode(samples: u8, ae: bool) -> u8 {
    if ae {
        0x20
    } else if samples < 1 {
        1
    } else {
        samples
    }
}

/// The payload that asks for autofocus at a point.
pub open spec fn autofocus_bytes(focus_x: u32, focus_y: u32) -> Seq<u8> {
    seq![0u8] + bytes::be32_bytes(focus_x) + bytes::be32_bytes(focus_y)
}

/// The gamma table that maps every 14-bit value to itself: 16384 words.
pub open spec fn identity_lut() -> Seq<u8> {
    Seq::new(
        2 * 16384,
        |j: int|
            bytes::byte_of(
                j / 2,
                if j % 2 == 0 {
                    1
                } else {
                    0
                },
            ),
    )
}

/// SEND DIAGNOSTIC: the self-test, which homes the carriage.
pub open spec fn self_test_request() -> Request {
    scsi::request(cdbs::send_diagnostic::send_diagnostic_cdb(), DataPhase::NoData)
}

/// VENDOR E0: set up an operation.
pub open spec fn set_up_request(sub: u8, payload: Seq<u8>) -> Request {
    scsi::request(cdbs::vendor_e0::vendor_e0_cdb(sub, payload.len()), DataPhase::Write(payload))
}

/// VENDOR C1: start what was set up.
pub open spec fn trigger_request() -> Request {
    scsi::request(cdbs::vendor_c1::vendor_c1_cdb(), DataPhase::NoData)
}

/// VENDOR E1 0xC1: read the focus position.
pub open spec fn focus_request() -> Request {
    scsi::request(cdbs::vendor_e1::vendor_e1_cdb(0xC1, 13), DataPhase::Read(13))
}

/// MODE SELECT with the base resolution (0x0FA0 = 4000 dots per inch).
pub open spec fn mode_request() -> Request {
    scsi::request(
        cdbs::mode_select::mode_select_cdb(0, true, false, 20, 0),
        DataPhase::Write(mode_page()),
    )
}

/// Header, block descriptor and page 3 of MODE SELECT.
pub open spec fn mode_page() -> Seq<u8> {
    seq![
        0u8, 0u8, 0u8, 8u8, 0u8, 0u8, 0u8, 0u8, 0u8, 0u8, 0u8, 1u8, 3u8, 6u8, 0u8, 0u8, 0x0Fu8,
        0xA0u8, 0u8, 0u8,
    ]
}

/// WRITE.
pub open spec fn write_request(dtc: DataTypeCode, dtq: u16, payload: Seq<u8>) -> Request {
    scsi::request(
        cdbs::write::write_cdb(0, dtc, dtq, payload.len(), 0),
        DataPhase::Write(payload),
    )
}

/// Declaring the frames of a strip.
pub open spec fn boundary_request(native_x: int, n: nat, subframe: int) -> Request {
    write_request(DataTypeCode::Vendor(0x88), 3, boundary_payload(native_x, n, subframe))
}

/// Uploading the gamma table of one channel.
pub open spec fn lut_request(channel: u8) -> Request {
    write_request(DataTypeCode::GammaFunction, (channel * 0x100 + 1) as u16, identity_lut())
}

/// SET WINDOW.
pub open spec fn set_window_request(payload: Seq<u8>) -> Request {
    scsi::request(
        cdbs::set_window::set_window_cdb(payload.len()),
        DataPhase::Write(payload),
    )
}

/// GET WINDOW for 58 bytes: of all windows, or of one.
pub open spec fn get_window_request(single: bool, id: u8) -> Request {
    scsi::request(cdbs::window::get_window_cdb(0, single, id, 58, 0), DataPhase::Read(58))
}

/// SCAN.
pub open spec fn scan_request(channels: Seq<u8>) -> Request {
    scsi::request(cdbs::scan::scan_cdb(channels.len()), DataPhase::Write(channels))
}

/// READ of `len` bytes of the image.
pub open spec fn read_request(len: u32) -> Request {
    scsi::request(
        cdbs::read::read_cdb(0, DataTypeCode::Image, 0, len, 0),
        DataPhase::Read(len as nat),
    )
}

/// How a fire-and-forget command counts: the "busy" that a triggered operation answers while
/// it runs is no failure.
pub open spec fn tolerated(outcome: Result<(), ScsiError>) -> Result<(), ScanError> {
    match outcome {
        Ok(_) => Ok(()),
        Err(ScsiError::Status { .. }) => Ok(()),
        Err(err) => Err(ScanError::Scsi(err)),
    }
}

/// A fire-and-forget command.
pub open spec fn trigger_walk(log: Seq<Event>, at: nat, asked: Request) -> Told<
    Result<(), ScanError>,
> {
    match scsi::reply_to(log, at, asked) {
        Some(reply) => Some((tolerated(reply.outcome), at + 1)),
        None => None,
    }
}

/// Two fire-and-forget commands, the second only if the first did not fail.
pub open spec fn trigger_both_walk(
    log: Seq<Event>,
    at: nat,
    first: Request,
    second: Request,
) -> Told<Result<(), ScanError>> {
    match trigger_walk(log, at, first) {
        Some((Ok(_), next)) => trigger_walk(log, next, second),
        failed => failed,
    }
}

/// Whether polling for a settled state ends with `status`.
pub open spec fn is_settled(status: Status) -> bool {
    status == Status::Ready || status == Status::NoFilm || status == Status::NeedsInit
}

/// Polling until the state is decisive, at most `tries` times, a quarter of a second apart.
pub open spec fn wait_settled_walk(log: Seq<Event>, at: nat, tries: nat) -> Told<
    Result<Status, ScanError>,
>
    decreases tries,
{
    if tries == 0 {
        Some((Err(ScanError::NotReady(Status::Initializing)), at))
    } else {
        match status_walk(log, at) {
            None => None,
            Some((Err(err), next)) => Some((Err(ScanError::Scsi(err)), next)),
            Some((Ok(status), next)) => if is_settled(status) {
                Some((Ok(status), next))
            } else if scsi::waited(log, next, scan::READY_PAUSE_MS) {
                wait_settled_walk(log, next + 1, (tries - 1) as nat)
            } else {
                None
            },
        }
    }
}

/// Polling until the scanner is ready, at most `tries` times, a quarter of a second apart;
/// `last` is the state last seen.
pub open spec fn wait_ready_walk(log: Seq<Event>, at: nat, tries: nat, last: Status) -> Told<
    Result<(), ScanError>,
>
    decreases tries,
{
    if tries == 0 {
        Some((Err(ScanError::NotReady(last)), at))
    } else {
        match status_walk(log, at) {
            None => None,
            Some((Err(err), next)) => Some((Err(ScanError::Scsi(err)), next)),
            Some((Ok(status), next)) => if status == Status::Ready {
                Some((Ok(()), next))
            } else if status == Status::NoFilm {
                Some((Err(ScanError::NotReady(Status::NoFilm)), next))
            } else if scsi::waited(log, next, scan::READY_PAUSE_MS) {
                wait_ready_walk(log, next + 1, (tries - 1) as nat, status)
            } else {
                None
            },
        }
    }
}

/// Waiting for readiness from a cold start.
pub open spec fn ready_walk(log: Seq<Event>, at: nat) -> Told<Result<(), ScanError>> {
    wait_ready_walk(log, at, scan::READY_ATTEMPTS as nat, Status::Initializing)
}

/// Waiting for a decisive state.
pub open spec fn settled_walk(log: Seq<Event>, at: nat) -> Told<Result<Status, ScanError>> {
    wait_settled_walk(log, at, scan::READY_ATTEMPTS as nat)
}

/// SCAN, tried at most `tries` times, half a second apart, while the scanner answers "busy".
pub open spec fn start_walk(log: Seq<Event>, at: nat, channels: Seq<u8>, tries: nat) -> Told<
    Result<(), ScanError>,
>
    decreases tries,
{
    if tries == 0 {
        Some((Err(ScanError::ScanNotReady(scan::SCAN_ATTEMPTS)), at))
    } else {
        match scsi::reply_to(log, at, scan_request(channels)) {
            None => None,
            Some(reply) => match reply.outcome {
                Ok(_) => Some((Ok(()), at + 1)),
                Err(ScsiError::Status { .. }) => if scsi::waited(log, at + 1, scan::SCAN_RETRY_PAUSE_MS) {
                    start_walk(log, at + 2, channels, (tries - 1) as nat)
                } else {
                    None
                },
                Err(err) => Some((Err(ScanError::Scsi(err)), at + 1)),
            },
        }
    }
}

/// Whether all of `asked` were sent from position `at` on, one after the other.
pub open spec fn all_sent(log: Seq<Event>, at: nat, asked: Seq<Request>) -> bool {
    forall|i: int|
        0 <= i < asked.len() ==> scsi::reply_to(log, (at + i) as nat, #[trigger] asked[i]) is Some
}

/// The pages that are read to probe the adapter.
pub open spec fn probe_requests() -> Seq<Request> {
    seq![
        vpd_request(0x00, 23),
        vpd_request(0xD1, 28),
        vpd_request(0xC1, 87),
        vpd_request(0xE1, 39),
        vpd_request(0xF0, 53),
        vpd_request(0xF8, 17),
    ]
}

/// Probing the adapter, whatever it answers.
pub open spec fn probe_walk(log: Seq<Event>, at: nat) -> Told<()> {
    if all_sent(log, at, probe_requests()) {
        Some(((), at + 6))
    } else {
        None
    }
}

/// Homing the carriage and lighting the lamp: self-test, lamp on, trigger.
pub open spec fn home_walk(log: Seq<Event>, at: nat) -> Told<Result<(), ScanError>> {
    match trigger_walk(log, at, self_test_request()) {
        Some((Ok(_), next)) => trigger_both_walk(
            log,
            next,
            set_up_request(0x80, Seq::empty()),
            trigger_request(),
        ),
        failed => failed,
    }
}

/// Preparing a scanner that has settled with film in it: claim it, probe it, set its mode, home
/// it unless it is a feeder, and wait until it is ready.
pub open spec fn init_walk(log: Seq<Event>, at: nat) -> Told<Result<(), ScanError>> {
    match holder_walk(log, at) {
        None => None,
        Some((holder, next)) => match trigger_walk(log, next, reserve_request()) {
            Some((Ok(_), next)) => match probe_walk(log, next) {
                None => None,
                Some((_, next)) => match trigger_walk(log, next, mode_request()) {
                    Some((Ok(_), next)) => if holder == Ok::<Holder, ScsiError>(Holder::Feeder) {
                        ready_walk(log, next)
                    } else {
                        match home_walk(log, next) {
                            Some((Ok(_), next)) => ready_walk(log, next),
                            failed => failed,
                        }
                    },
                    failed => failed,
                },
            },
            failed => failed,
        },
    }
}

/// Preparing for a scan. Without film nothing is moved.
#[verifier::opaque]
pub open spec fn prepare_walk(log: Seq<Event>, at: nat) -> Told<Result<(), ScanError>> {
    match settled_walk(log, at) {
        None => None,
        Some((Err(err), next)) => Some((Err(err), next)),
        Some((Ok(status), next)) => if status == Status::NoFilm {
            Some((Err(ScanError::NotReady(Status::NoFilm)), next))
        } else {
            init_walk(log, next)
        },
    }
}

/// Reading the focus position: bytes 1 to 4 of the answer.
pub open spec fn focus_read_walk(log: Seq<Event>, at: nat) -> Told<Result<u32, ScanError>> {
    match scsi::reply_to(log, at, focus_request()) {
        None => None,
        Some(reply) => Some(
            (
                match reply.outcome {
                    Ok(_) => Ok(bytes::be32_at(reply.data, 1)),
                    Err(err) => Err(ScanError::Scsi(err)),
                },
                at + 1,
            ),
        ),
    }
}

/// Focusing on the middle of a frame that begins at `y_offset`. The positions read before and
/// after are only a record of what happened.
pub open spec fn autofocus_walk(log: Seq<Event>, at: nat, s: ScanSettings, y_offset: int) -> Told<
    Result<(), ScanError>,
> {
    match focus_read_walk(log, at) {
        None => None,
        Some((_, next)) => match trigger_both_walk(
            log,
            next,
            set_up_request(
                0xA0,
                autofocus_bytes(
                    (s.native_columns() / 2) as u32,
                    (y_offset + s.native_rows() / 2) as u32,
                ),
            ),
            trigger_request(),
        ) {
            Some((Ok(_), next)) => match ready_walk(log, next) {
                None => None,
                Some((_, next)) => match focus_read_walk(log, next) {
                    None => None,
                    Some((_, next)) => Some((Ok(()), next)),
                },
            },
            failed => failed,
        },
    }
}

/// Parking the focus at 0.
pub open spec fn park_walk(log: Seq<Event>, at: nat) -> Told<Result<(), ScanError>> {
    match trigger_both_walk(log, at, set_up_request(0xC1, bytes::zeros(9)), trigger_request()) {
        Some((Ok(_), next)) => match ready_walk(log, next) {
            None => None,
            Some((_, next)) => Some((Ok(()), next)),
        },
        failed => failed,
    }
}

/// Uploading the gamma table for the channels from `k` on, until one is refused.
pub open spec fn luts_walk(log: Seq<Event>, at: nat, channels: Seq<u8>, k: nat) -> Told<
    Result<(), ScanError>,
>
    decreases channels.len() - k,
{
    if k >= channels.len() {
        Some((Ok(()), at))
    } else {
        match scsi::reply_to(log, at, lut_request(channels[k as int])) {
            None => None,
            Some(reply) => match reply.outcome {
                Ok(_) => luts_walk(log, at + 1, channels, k + 1),
                Err(err) => Some((Err(ScanError::Scsi(err)), at + 1)),
            },
        }
    }
}

/// The exposure of channel number `k`: infrared has none.
pub open spec fn channel_exposure(exposure: Seq<u32>, k: int) -> Option<u32> {
    if k < exposure.len() {
        Some(exposure[k])
    } else {
        None
    }
}

/// Whether a window was set: GOOD, or recovered (sense key 1, a value snapped to the grid).
pub open spec fn window_accepted(outcome: Result<(), ScsiError>) -> bool {
    match outcome {
        Ok(_) => true,
        Err(ScsiError::Status { sense: Some(sense), .. }) => sense.key == 0x01,
        Err(_) => false,
    }
}

/// Setting the windows of the channels from `k` on, until one is refused.
pub open spec fn windows_walk(
    log: Seq<Event>,
    at: nat,
    s: ScanSettings,
    exposure: Seq<u32>,
    y_offset: int,
    ae: bool,
    k: nat,
) -> Told<Result<(), ScanError>>
    decreases channel_ids(s.infrared).len() - k,
{
    let channels = channel_ids(s.infrared);
    if k >= channels.len() {
        Some((Ok(()), at))
    } else {
        match scsi::reply_to(
            log,
            at,
            set_window_request(
                window_payload(
                    s,
                    channels[k as int],
                    channel_exposure(exposure, k as int),
                    y_offset as u32,
                    ae,
                ),
            ),
        ) {
            None => None,
            Some(reply) => if window_accepted(reply.outcome) {
                windows_walk(log, at + 1, s, exposure, y_offset, ae, k + 1)
            } else {
                Some((Err(ScanError::Scsi(reply.outcome->Err_0)), at + 1))
            },
        }
    }
}

/// GET WINDOW for all windows, `n` times.
pub open spec fn read_back_requests(n: nat) -> Seq<Request> {
    Seq::new(n, |i: int| get_window_request(false, 0))
}

/// Reading the windows back, once per channel, and waiting until the scanner is ready; neither
/// answer matters.
pub open spec fn read_back_walk(log: Seq<Event>, at: nat, n: nat) -> Told<()> {
    if all_sent(log, at, read_back_requests(n)) {
        match ready_walk(log, at + n) {
            None => None,
            Some((_, next)) => Some(((), next)),
        }
    } else {
        None
    }
}

/// Configuring the channels of a pass: upload the gamma tables (not for a measurement), set the
/// windows and read them back.
pub open spec fn configure_walk(
    log: Seq<Event>,
    at: nat,
    s: ScanSettings,
    exposure: Seq<u32>,
    y_offset: int,
    ae: bool,
) -> Told<Result<(), ScanError>> {
    let channels = channel_ids(s.infrared);
    match luts_walk(
        log,
        at,
        if ae {
            Seq::empty()
        } else {
            channels
        },
        0,
    ) {
        Some((Ok(_), next)) => match windows_walk(log, next, s, exposure, y_offset, ae, 0) {
            Some((Ok(_), next)) => match read_back_walk(log, next, channels.len()) {
                None => None,
                Some((_, next)) => Some((Ok(()), next)),
            },
            failed => failed,
        },
        failed => failed,
    }
}

/// Focusing for a pass: on the middle of the frame if that is asked for and the pass is no
/// measurement, else parked.
pub open spec fn focus_walk(
    log: Seq<Event>,
    at: nat,
    s: ScanSettings,
    y_offset: int,
    ae: bool,
) -> Told<Result<(), ScanError>> {
    if s.autofocus && !ae {
        autofocus_walk(log, at, s, y_offset)
    } else {
        park_walk(log, at)
    }
}

/// Arming one pass over frame `frame` of a strip of `n_frames`: declare the strip (whether it
/// is accepted or not), focus, and configure the channels.
#[verifier::opaque]
pub open spec fn arm_walk(
    log: Seq<Event>,
    at: nat,
    s: ScanSettings,
    n_frames: nat,
    frame: int,
    subframe: int,
    exposure: Seq<u32>,
    ae: bool,
) -> Told<Result<(), ScanError>> {
    let y_offset = frame_start(frame, subframe);
    match scsi::reply_to(log, at, boundary_request(s.caps.native_x as int, n_frames, subframe)) {
        None => None,
        Some(_) => match focus_walk(log, at + 1, s, y_offset, ae) {
            Some((Ok(_), next)) => configure_walk(log, next, s, exposure, y_offset, ae),
            failed => failed,
        },
    }
}

/// The exposure in an answer to GET WINDOW: bytes 46 to 49 of the one descriptor after the 8-byte header, 0 if there is
/// no whole descriptor that has them; a descriptor cannot be shorter than 40 bytes.
pub open spec fn exposure_in(data: Seq<u8>) -> Result<u32, ScsiError> {
    let descriptor_length = bytes::be16_at(data, 6);
    if descriptor_length < 40 {
        Err(
            ScsiError::InvalidResponse("window descriptor shorter than the standardized 40 bytes"),
        )
    } else if descriptor_length == 50 {
        Ok(bytes::be32_at(data, 54))
    } else {
        Ok(0)
    }
}

/// Reading the exposure of one channel.
pub open spec fn exposure_walk(log: Seq<Event>, at: nat, channel: u8) -> Told<
    Result<u32, ScanError>,
> {
    match scsi::reply_to(log, at, get_window_request(true, channel)) {
        None => None,
        Some(reply) => Some(
            (
                match reply.outcome {
                    Ok(_) => match exposure_in(reply.data) {
                        Ok(exposure) => Ok(exposure),
                        Err(err) => Err(ScanError::Scsi(err)),
                    },
                    Err(err) => Err(ScanError::Scsi(err)),
                },
                at + 1,
            ),
        ),
    }
}

/// Reading the exposures of red, green and blue.
pub open spec fn exposures_walk(log: Seq<Event>, at: nat) -> Told<Result<Seq<u32>, ScanError>> {
    match exposure_walk(log, at, 1) {
        None => None,
        Some((Err(err), next)) => Some((Err(err), next)),
        Some((Ok(red), next)) => match exposure_walk(log, next, 2) {
            None => None,
            Some((Err(err), next)) => Some((Err(err), next)),
            Some((Ok(green), next)) => match exposure_walk(log, next, 3) {
                None => None,
                Some((Err(err), next)) => Some((Err(err), next)),
                Some((Ok(blue), next)) => Some((Ok(seq![red, green, blue]), next)),
            },
        },
    }
}

/// The settings of a measurement: those of the scan without infrared.
pub open spec fn measuring(s: ScanSettings) -> ScanSettings {
    ScanSettings { infrared: false, autoexposure: false, ..s }
}

/// Measuring the exposure: arm and scan without reading an image, wait (whatever comes of it),
/// and read what the scanner measured.
#[verifier::opaque]
pub open spec fn measure_walk(
    log: Seq<Event>,
    at: nat,
    s: ScanSettings,
    n_frames: nat,
    frame: int,
    subframe: int,
) -> Told<Result<Seq<u32>, ScanError>> {
    match arm_walk(log, at, s, n_frames, frame, subframe, fixed_exposure(), true) {
        None => None,
        Some((Err(err), next)) => Some((Err(err), next)),
        Some((Ok(_), next)) => match start_walk(
            log,
            next,
            channel_ids(false),
            scan::SCAN_ATTEMPTS as nat,
        ) {
            None => None,
            Some((Err(err), next)) => Some((Err(err), next)),
            Some((Ok(_), next)) => match ready_walk(log, next) {
                None => None,
                Some((_, next)) => exposures_walk(log, next),
            },
        },
    }
}

/// The exposure of a scan: measured if that is asked for, else fixed.
pub open spec fn exposure_for_walk(
    log: Seq<Event>,
    at: nat,
    s: ScanSettings,
    n_frames: nat,
    frame: int,
    subframe: int,
) -> Told<Result<Seq<u32>, ScanError>> {
    if s.autoexposure {
        measure_walk(log, at, measuring(s), n_frames, frame, subframe)
    } else {
        Some((Ok(fixed_exposure()), at))
    }
}

/// Whether a line is only not there yet: not ready, or 05/2C.
pub open spec fn line_pending(err: ScsiError) -> bool {
    match err {
        ScsiError::Status { sense: Some(sense), .. } => sense.key == 0x02 || sense.key == 0x05
            && sense.asc == 0x2C,
        _ => false,
    }
}

/// Reading up to `lines` lines of the image, each as soon as the scanner is ready; `idle` is
/// how often the next one was not there, and `stream` what was read before. Any other CHECK
/// CONDITION ends the image. Gives the bytes read as well.
pub open spec fn drain_walk(
    log: Seq<Event>,
    at: nat,
    len: u32,
    lines: nat,
    idle: nat,
    stream: Seq<u8>,
) -> Told<(Result<(), ScanError>, Seq<u8>)>
    decreases lines, scan::IMAGE_IDLE_ATTEMPTS - idle,
{
    if lines == 0 {
        Some(((Ok(()), stream), at))
    } else {
        match status_walk(log, at) {
            None => None,
            Some((status, next)) => if status != Ok::<Status, ScsiError>(Status::Ready) {
                if idle + 1 >= scan::IMAGE_IDLE_ATTEMPTS {
                    Some(((Err(ScanError::ScanNotReady((idle + 1) as u32)), stream), next))
                } else if scsi::waited(log, next, scan::IMAGE_IDLE_PAUSE_MS) {
                    drain_walk(log, next + 1, len, lines, idle + 1, stream)
                } else {
                    None
                }
            } else {
                match scsi::reply_to(log, next, read_request(len)) {
                    None => None,
                    Some(reply) => match reply.outcome {
                        Ok(_) => drain_walk(
                            log,
                            next + 1,
                            len,
                            (lines - 1) as nat,
                            0,
                            stream + reply.data,
                        ),
                        Err(err) => if line_pending(err) {
                            if idle + 1 >= scan::IMAGE_IDLE_ATTEMPTS {
                                Some(
                                    (
                                        (Err(ScanError::ScanNotReady((idle + 1) as u32)), stream),
                                        next + 1,
                                    ),
                                )
                            } else if scsi::waited(log, next + 1, scan::IMAGE_IDLE_PAUSE_MS) {
                                drain_walk(log, next + 2, len, lines, idle + 1, stream)
                            } else {
                                None
                            }
                        } else if err is Status {
                            Some(((Ok(()), stream), next + 1))
                        } else {
                            Some(((Err(ScanError::Scsi(err)), stream), next + 1))
                        },
                    },
                }
            },
        }
    }
}

/// The bytes of a line that are asked for: of the length the low 32 bits.
pub open spec fn line_request_len(s: ScanSettings) -> u32 {
    (s.line_len() % 0x1_0000_0000) as u32
}

/// One pass: arm, SCAN, and read the image.
#[verifier::opaque]
pub open spec fn drive_walk(
    log: Seq<Event>,
    at: nat,
    s: ScanSettings,
    n_frames: nat,
    frame: int,
    subframe: int,
    exposure: Seq<u32>,
) -> Told<(Result<(), ScanError>, Seq<u8>)> {
    match arm_walk(log, at, s, n_frames, frame, subframe, exposure, false) {
        None => None,
        Some((Err(err), next)) => Some(((Err(err), Seq::empty()), next)),
        Some((Ok(_), next)) => match start_walk(
            log,
            next,
            channel_ids(s.infrared),
            scan::SCAN_ATTEMPTS as nat,
        ) {
            None => None,
            Some((Err(err), next)) => Some(((Err(err), Seq::empty()), next)),
            Some((Ok(_), next)) => drain_walk(
                log,
                next,
                line_request_len(s),
                s.rows() as nat,
                0,
                Seq::empty(),
            ),
        },
    }
}

/// The frame in the bytes of a pass that did not fail; a frame without lines is none.
pub open spec fn frame_in(s: ScanSettings, stream: Seq<u8>) -> Result<Raster, ScanError> {
    let frame = decode::planar_frame(decode::settings_layout(s), stream);
    if frame.height == 0 {
        Err(ScanError::NoData)
    } else {
        Ok(frame)
    }
}

/// Lines that are no more than the settings say make a frame that is no higher than they say.
pub proof fn lemma_frame_height(s: ScanSettings, stream: Seq<u8>)
    requires
        stream.len() <= s.rows() * line_request_len(s),
    ensures
        0 <= s.rows() * line_request_len(s),
        decode::planar_frame(decode::settings_layout(s), stream).height <= s.rows(),
{
    s.lemma_grid_pitch();
    s.lemma_line_len();
    let (rows, stride, len, n) = (
        s.rows(),
        s.line_len(),
        line_request_len(s) as int,
        stream.len() as int,
    );
    assert(0 <= len <= stride);
    if stride > 0 {
        assert(0 <= n / stride <= rows) by (nonlinear_arith)
            requires
                0 <= n <= rows * len,
                0 <= len <= stride,
                0 < stride,
                0 <= rows,
        ;
    }
}

/// One frame, once the scanner is prepared: find the exposure, make the pass, and give the
/// scanner back whatever came of it.
pub open spec fn frame_walk(log: Seq<Event>, at: nat, s: ScanSettings, subframe: int) -> Told<
    Result<Raster, ScanError>,
> {
    match exposure_for_walk(log, at, s, 1, 0, subframe) {
        None => None,
        Some((Err(err), next)) => match plain_walk(log, next, release_request()) {
            None => None,
            Some((_, next)) => Some((Err(err), next)),
        },
        Some((Ok(exposure), next)) => match drive_walk(log, next, s, 1, 0, subframe, exposure) {
            None => None,
            Some(((r, stream), next)) => match plain_walk(log, next, release_request()) {
                None => None,
                Some((_, next)) => Some(
                    (
                        match r {
                            Err(err) => Err(err),
                            Ok(_) => frame_in(s, stream),
                        },
                        next,
                    ),
                ),
            },
        },
    }
}

/// Scanning one frame.
pub open spec fn scan_walk(log: Seq<Event>, at: nat, s: ScanSettings, subframe: int) -> Told<
    Result<Raster, ScanError>,
> {
    match prepare_walk(log, at) {
        None => None,
        Some((Err(err), next)) => Some((Err(err), next)),
        Some((Ok(_), next)) => frame_walk(log, next, s, subframe),
    }
}

/// The frames of a strip from `f` up to `count`, until one fails; `done` are those before.
pub open spec fn frames_walk(
    log: Seq<Event>,
    at: nat,
    s: ScanSettings,
    n_frames: nat,
    count: nat,
    subframe: int,
    exposure: Seq<u32>,
    f: nat,
    done: Seq<Raster>,
) -> Told<Result<Seq<Raster>, ScanError>>
    decreases count - f,
{
    if f >= count {
        Some((Ok(done), at))
    } else {
        match drive_walk(log, at, s, n_frames, f as int, subframe, exposure) {
            None => None,
            Some(((Err(err), _), next)) => Some((Err(err), next)),
            Some(((Ok(_), stream), next)) => match frame_in(s, stream) {
                Err(err) => Some((Err(err), next)),
                Ok(frame) => frames_walk(
                    log,
                    next,
                    s,
                    n_frames,
                    count,
                    subframe,
                    exposure,
                    f + 1,
                    done.push(frame),
                ),
            },
        }
    }
}

/// The first `count` frames of a strip, with one exposure for all of them.
pub open spec fn drive_strip_walk(
    log: Seq<Event>,
    at: nat,
    s: ScanSettings,
    n_frames: nat,
    count: nat,
    subframe: int,
) -> Told<Result<Seq<Raster>, ScanError>> {
    match exposure_for_walk(log, at, s, n_frames, 0, subframe) {
        None => None,
        Some((Err(err), next)) => Some((Err(err), next)),
        Some((Ok(exposure), next)) => frames_walk(
            log,
            next,
            s,
            n_frames,
            count,
            subframe,
            exposure,
            0,
            Seq::empty(),
        ),
    }
}

/// Scanning a strip.
pub open spec fn strip_walk(
    log: Seq<Event>,
    at: nat,
    s: ScanSettings,
    n_frames: nat,
    subframe: int,
) -> Told<Result<Seq<Raster>, ScanError>> {
    match prepare_walk(log, at) {
        None => None,
        Some((Err(err), next)) => Some((Err(err), next)),
        Some((Ok(_), next)) => match drive_strip_walk(log, next, s, n_frames, n_frames, subframe) {
            None => None,
            Some((r, next)) => match plain_walk(log, next, release_request()) {
                None => None,
                Some((_, next)) => Some((r, next)),
            },
        },
    }
}

/// Finding the exposure for a scan that cannot go on from there, and giving the scanner back:
/// no frames, or why there is no exposure.
pub open spec fn exposure_only_walk<R>(
    log: Seq<Event>,
    at: nat,
    s: ScanSettings,
    n_frames: nat,
    subframe: int,
) -> Told<Result<Option<R>, ScanError>> {
    match exposure_for_walk(log, at, s, n_frames, 0, subframe) {
        None => None,
        Some((r, next)) => match plain_walk(log, next, release_request()) {
            None => None,
            Some((_, next)) => Some(
                (
                    match r {
                        Err(err) => Err(err),
                        Ok(_) => Ok(None),
                    },
                    next,
                ),
            ),
        },
    }
}

/// Giving the scanner back without a scan.
pub open spec fn unscanned_walk<R>(log: Seq<Event>, at: nat) -> Told<
    Result<Option<R>, ScanError>,
> {
    match plain_walk(log, at, release_request()) {
        None => None,
        Some((_, next)) => Some((Ok(None), next)),
    }
}

/// Scanning one frame as far as its geometry goes. A frame that does not fit in memory, or
/// whose bounds do not fit, ends the scan once the scanner is prepared; a middle that does not,
/// once the exposure is found. Either way there is no frame then.
pub open spec fn try_scan_walk(log: Seq<Event>, at: nat, s: ScanSettings, subframe: int) -> Told<
    Result<Option<Raster>, ScanError>,
> {
    match prepare_walk(log, at) {
        None => None,
        Some((Err(err), next)) => Some((Err(err), next)),
        Some((Ok(_), next)) => if !decode::settings_fit(s) || !bounds_fit(s, 1, subframe) {
            unscanned_walk(log, next)
        } else if !middle_fits(s, 0, subframe) {
            exposure_only_walk(log, next, s, 1, subframe)
        } else {
            match frame_walk(log, next, s, subframe) {
                None => None,
                Some((Err(err), next)) => Some((Err(err), next)),
                Some((Ok(frame), next)) => Some((Ok(Some(frame)), next)),
            }
        },
    }
}

/// Scanning a strip as far as its geometry goes. Bounds that do not fit end the scan once the
/// scanner is prepared; a frame that does not fit in memory, once the exposure is found; a
/// middle that does not fit, once the frames before it are scanned. Either way there are no
/// frames then.
pub open spec fn try_strip_walk(
    log: Seq<Event>,
    at: nat,
    s: ScanSettings,
    n_frames: nat,
    subframe: int,
) -> Told<Result<Option<Seq<Raster>>, ScanError>> {
    let count = frames_in_reach(s, n_frames, subframe);
    match prepare_walk(log, at) {
        None => None,
        Some((Err(err), next)) => Some((Err(err), next)),
        Some((Ok(_), next)) => if !bounds_fit(s, n_frames, subframe) {
            unscanned_walk(log, next)
        } else if !decode::settings_fit(s) {
            exposure_only_walk(log, next, s, n_frames, subframe)
        } else {
            match drive_strip_walk(log, next, s, n_frames, count, subframe) {
                None => None,
                Some((r, next)) => match plain_walk(log, next, release_request()) {
                    None => None,
                    Some((_, next)) => Some(
                        (
                            match r {
                                Err(err) => Err(err),
                                Ok(frames) => Ok(
                                    if count == n_frames {
                                        Some(frames)
                                    } else {
                                        None
                                    },
                                ),
                            },
                            next,
                        ),
                    ),
                },
            }
        },
    }
}

/// Ejecting the film: claim the scanner, set the eject up, start it, wait until the motor is
/// done and give the scanner back, whatever these answer.
pub open spec fn eject_walk(log: Seq<Event>, at: nat) -> Told<Result<(), ScanError>> {
    match plain_walk(log, at, reserve_request()) {
        None => None,
        Some((Err(err), next)) => Some((Err(ScanError::Scsi(err)), next)),
        Some((Ok(_), next)) => match trigger_both_walk(
            log,
            next,
            set_up_request(0xD0, bytes::zeros(13)),
            trigger_request(),
        ) {
            Some((Ok(_), next)) => match settled_walk(log, next) {
                None => None,
                Some((_, next)) => match plain_walk(log, next, release_request()) {
                    None => None,
                    Some((_, next)) => Some((Ok(()), next)),
                },
            },
            failed => failed,
        },
    }
}

} // verus!
