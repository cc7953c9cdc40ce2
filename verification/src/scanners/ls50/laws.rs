//! What holds of every run of the LS-50 drive, and of what it sends.

use super::decode;
use super::decode::PlanarLayout;
use super::holder::Holder;
use super::protocol;
use super::status::Status;
use super::{ScanError, ScanSettings};
use crate::scanners::decode::Raster;
use crate::scsi;
use crate::scsi::bytes;
use crate::scsi::cdbs::{ImageCompositionCode, WindowDescriptor};
use crate::scsi::{Error as ScsiError, Event, SenseData};
use vstd::prelude::*;

verus! {

/// Whether an event is part of polling: TEST UNIT READY, or a pause.
pub open spec fn is_poll(event: Event) -> bool {
    match event {
        Event::Exchange { request, .. } => request == protocol::test_request(),
        Event::Pause { .. } => true,
    }
}

/// Whether an event can move film or carriage: the self-test, and the vendor commands that set
/// an operation up and start it.
pub open spec fn can_move(event: Event) -> bool {
    match event {
        Event::Exchange { request, .. } => request.cdb[0] == 0x1D || request.cdb[0] == 0xE0
            || request.cdb[0] == 0xC1,
        Event::Pause { .. } => false,
    }
}

/// Polling for a settled state takes at most two events per try, and nothing but polls.
pub proof fn lemma_settling_only_polls(log: Seq<Event>, at: nat, tries: nat)
    ensures
        protocol::wait_settled_walk(log, at, tries) matches Some((_, end)) ==> {
            &&& at <= end <= at + 2 * tries
            &&& end <= log.len() || end == at
            &&& forall|i: int| at <= i < end ==> is_poll(#[trigger] log[i])
        },
    decreases tries,
{
    if tries > 0 {
        lemma_settling_only_polls(log, at + 2, (tries - 1) as nat);
    }
}

/// Polling for readiness takes at most two events per try, and nothing but polls.
pub proof fn lemma_readying_only_polls(log: Seq<Event>, at: nat, tries: nat, last: Status)
    ensures
        protocol::wait_ready_walk(log, at, tries, last) matches Some((_, end)) ==> {
            &&& at <= end <= at + 2 * tries
            &&& end <= log.len() || end == at
            &&& forall|i: int| at <= i < end ==> is_poll(#[trigger] log[i])
        },
    decreases tries,
{
    if tries > 0 {
        match protocol::status_walk(log, at) {
            Some((Ok(status), _)) => {
                lemma_readying_only_polls(log, at + 2, (tries - 1) as nat, status);
            },
            _ => {},
        }
    }
}

/// SCAN is tried at most as often as allowed, with one pause after each try that found the
/// scanner busy.
pub proof fn lemma_starting_is_bounded(log: Seq<Event>, at: nat, channels: Seq<u8>, tries: nat)
    ensures
        protocol::start_walk(log, at, channels, tries) matches Some((_, end)) ==> at <= end <= at
            + 2 * tries,
    decreases tries,
{
    if tries > 0 {
        lemma_starting_is_bounded(log, at + 2, channels, (tries - 1) as nat);
    }
}

/// Without film nothing moves: a scan then fails with that state as its reason, whether or not
/// its geometry fits, and all that happened on the link is polling.
pub proof fn lemma_no_film_moves_nothing(
    log: Seq<Event>,
    at: nat,
    end: nat,
    s: ScanSettings,
    n_frames: nat,
    subframe: int,
)
    requires
        protocol::settled_walk(log, at) == Some((Ok::<Status, ScanError>(Status::NoFilm), end)),
    ensures
        protocol::scan_walk(log, at, s, subframe) == Some(
            (Err::<Raster, ScanError>(ScanError::NotReady(Status::NoFilm)), end),
        ),
        protocol::strip_walk(log, at, s, n_frames, subframe) == Some(
            (Err::<Seq<Raster>, ScanError>(ScanError::NotReady(Status::NoFilm)), end),
        ),
        protocol::try_scan_walk(log, at, s, subframe) == Some(
            (Err::<Option<Raster>, ScanError>(ScanError::NotReady(Status::NoFilm)), end),
        ),
        protocol::try_strip_walk(log, at, s, n_frames, subframe) == Some(
            (Err::<Option<Seq<Raster>>, ScanError>(ScanError::NotReady(Status::NoFilm)), end),
        ),
        forall|i: int| at <= i < end ==> is_poll(#[trigger] log[i]) && !can_move(log[i]),
{
    reveal(protocol::prepare_walk);
    lemma_settling_only_polls(log, at, super::scan::READY_ATTEMPTS as nat);
}

/// Preparing with a feeder moves nothing: no self-test, no lamp, no trigger.
pub proof fn lemma_feeder_is_not_homed(
    log: Seq<Event>,
    at: nat,
    settled: nat,
    status: Status,
    next: nat,
    r: Result<(), ScanError>,
    end: nat,
)
    requires
        protocol::settled_walk(log, at) == Some((Ok::<Status, ScanError>(status), settled)),
        protocol::holder_walk(log, settled) == Some(
            (Ok::<Holder, ScsiError>(Holder::Feeder), next),
        ),
        protocol::prepare_walk(log, at) == Some((r, end)),
    ensures
        forall|i: int| at <= i < end ==> !can_move(#[trigger] log[i]),
{
    reveal(protocol::prepare_walk);
    let tries = super::scan::READY_ATTEMPTS as nat;
    lemma_settling_only_polls(log, at, tries);
    let asked = protocol::probe_requests();
    assert(asked.len() == 6);
    if status != Status::NoFilm {
        let probed = next + 1;
        if protocol::all_sent(log, probed, asked) {
            assert forall|i: int| probed <= i < probed + 6 implies !can_move(#[trigger] log[i]) by {
                let k = i - probed;
                assert(scsi::reply_to(log, (probed + k) as nat, asked[k]) is Some);
                assert(asked[k].cdb[0] == 0x12);
            }
            lemma_readying_only_polls(log, probed + 7, tries, Status::Initializing);
        }
    }
}

/// Where a walk ends.
spec fn end_of<R>(told: protocol::Told<R>) -> nat {
    match told {
        Some((_, end)) => end,
        None => 0,
    }
}

/// An eject that does not fail has claimed the scanner, set the eject up, started it and given
/// the scanner back, in this order.
pub proof fn lemma_eject_order(log: Seq<Event>, at: nat, end: nat)
    requires
        protocol::eject_walk(log, at) matches Some((Ok(_), next)) && next == end,
    ensures
        at + 3 < end,
        scsi::reply_to(log, at, protocol::reserve_request()) is Some,
        scsi::reply_to(log, at + 1, protocol::set_up_request(0xD0, bytes::zeros(13))) is Some,
        scsi::reply_to(log, at + 2, protocol::trigger_request()) is Some,
        scsi::reply_to(log, (end - 1) as nat, protocol::release_request()) is Some,
        forall|i: int| at + 3 <= i < end - 1 ==> is_poll(#[trigger] log[i]),
{
    lemma_settling_only_polls(log, at + 3, super::scan::READY_ATTEMPTS as nat);
}

/// Gamma tables that were all accepted were uploaded one after the other, one per channel.
pub(super) proof fn lemma_luts_accepted(log: Seq<Event>, at: nat, channels: Seq<u8>, k: nat, end: nat)
    requires
        k <= channels.len(),
        protocol::luts_walk(log, at, channels, k) matches Some((Ok(_), next)) && next == end,
    ensures
        end == at + channels.len() - k,
        forall|j: int|
            k <= j < channels.len() ==> (scsi::reply_to(
                log,
                (at + j - k) as nat,
                protocol::lut_request(#[trigger] channels[j]),
            ) matches Some(reply) && reply.outcome is Ok),
    decreases channels.len() - k,
{
    if k < channels.len() {
        lemma_luts_accepted(log, at + 1, channels, k + 1, end);
    }
}

/// The window request of channel number `k`.
pub open spec fn window_request_of(
    s: ScanSettings,
    exposure: Seq<u32>,
    y_offset: int,
    ae: bool,
    k: int,
) -> scsi::Request {
    protocol::set_window_request(
        protocol::window_payload(
            s,
            protocol::channel_ids(s.infrared)[k],
            protocol::channel_exposure(exposure, k),
            y_offset as u32,
            ae,
        ),
    )
}

/// Windows that were all accepted were set one after the other, one per channel.
pub(super) proof fn lemma_windows_accepted(
    log: Seq<Event>,
    at: nat,
    s: ScanSettings,
    exposure: Seq<u32>,
    y_offset: int,
    ae: bool,
    k: nat,
    end: nat,
)
    requires
        k <= protocol::channel_ids(s.infrared).len(),
        protocol::windows_walk(log, at, s, exposure, y_offset, ae, k) matches Some((Ok(_), next))
            && next == end,
    ensures
        end == at + protocol::channel_ids(s.infrared).len() - k,
        forall|j: int|
            k <= j < protocol::channel_ids(s.infrared).len() ==> (scsi::reply_to(
                log,
                (at + j - k) as nat,
                #[trigger] window_request_of(s, exposure, y_offset, ae, j),
            ) matches Some(reply) && protocol::window_accepted(reply.outcome)),
    decreases protocol::channel_ids(s.infrared).len() - k,
{
    if k < protocol::channel_ids(s.infrared).len() {
        lemma_windows_accepted(log, at + 1, s, exposure, y_offset, ae, k + 1, end);
    }
}

/// Focusing takes at least one event.
pub(super) proof fn lemma_focusing_advances(
    log: Seq<Event>,
    at: nat,
    s: ScanSettings,
    y_offset: int,
    ae: bool,
)
    ensures
        protocol::focus_walk(log, at, s, y_offset, ae) matches Some((_, end)) ==> at < end,
{
    let tries = super::scan::READY_ATTEMPTS as nat;
    lemma_readying_only_polls(log, at + 2, tries, Status::Initializing);
    lemma_readying_only_polls(log, at + 3, tries, Status::Initializing);
}

/// Whether the gamma tables were accepted from position `at` on, one for every channel, then
/// the windows, one for every channel, and the windows were read back after that.
pub open spec fn configured(
    log: Seq<Event>,
    at: nat,
    s: ScanSettings,
    exposure: Seq<u32>,
    y_offset: int,
) -> bool {
    let channels = protocol::channel_ids(s.infrared);
    let windows = at + channels.len();
    &&& forall|j: int|
        0 <= j < channels.len() ==> (scsi::reply_to(
            log,
            (at + j) as nat,
            protocol::lut_request(#[trigger] channels[j]),
        ) matches Some(reply) && reply.outcome is Ok)
    &&& forall|j: int|
        0 <= j < channels.len() ==> (scsi::reply_to(
            log,
            (windows + j) as nat,
            #[trigger] window_request_of(s, exposure, y_offset, false, j),
        ) matches Some(reply) && protocol::window_accepted(reply.outcome))
    &&& protocol::all_sent(
        log,
        windows + channels.len(),
        protocol::read_back_requests(channels.len()),
    )
}

/// Channels that were configured for a scan have their tables and windows.
proof fn lemma_configured(
    log: Seq<Event>,
    at: nat,
    s: ScanSettings,
    exposure: Seq<u32>,
    y_offset: int,
    end: nat,
)
    requires
        protocol::configure_walk(log, at, s, exposure, y_offset, false) matches Some((Ok(_), next))
            && next == end,
    ensures
        configured(log, at, s, exposure, y_offset),
        at + 3 * protocol::channel_ids(s.infrared).len() <= end,
{
    let channels = protocol::channel_ids(s.infrared);
    let windows = at + channels.len();
    lemma_luts_accepted(log, at, channels, 0, end_of(protocol::luts_walk(log, at, channels, 0)));
    lemma_windows_accepted(
        log,
        windows,
        s,
        exposure,
        y_offset,
        false,
        0,
        end_of(protocol::windows_walk(log, windows, s, exposure, y_offset, false, 0)),
    );
    lemma_readying_only_polls(
        log,
        windows + 2 * channels.len(),
        super::scan::READY_ATTEMPTS as nat,
        Status::Initializing,
    );
}

/// A pass is only scanned, and its image only read, after its gamma tables and then its windows
/// were accepted, one of each for every channel, and the windows were read back: where a pass
/// was armed, this happened from some position `r` on.
pub proof fn lemma_armed_pass(
    log: Seq<Event>,
    at: nat,
    s: ScanSettings,
    n_frames: nat,
    frame: int,
    subframe: int,
    exposure: Seq<u32>,
    armed: nat,
) -> (r: nat)
    requires
        protocol::arm_walk(log, at, s, n_frames, frame, subframe, exposure, false) matches Some(
            (Ok(_), next),
        ) && next == armed,
    ensures
        at < r,
        configured(log, r, s, exposure, protocol::frame_start(frame, subframe)),
        r + 3 * protocol::channel_ids(s.infrared).len() <= armed,
{
    reveal(protocol::arm_walk);
    let y_offset = protocol::frame_start(frame, subframe);
    lemma_focusing_advances(log, at + 1, s, y_offset, false);
    let focused = end_of(protocol::focus_walk(log, at + 1, s, y_offset, false));
    lemma_configured(log, focused, s, exposure, y_offset, armed);
    focused
}

/// A strip that was scanned has as many frames as were asked for, and every frame has the width
/// of the settings, at least one line, and, answers being as long as they have to be, no more
/// lines than the settings say.
pub proof fn lemma_strip_is_complete(
    log: Seq<Event>,
    at: nat,
    s: ScanSettings,
    n_frames: nat,
    subframe: int,
    frames: Seq<Raster>,
    end: nat,
)
    requires
        protocol::strip_walk(log, at, s, n_frames, subframe) == Some(
            (Ok::<Seq<Raster>, ScanError>(frames), end),
        ),
    ensures
        frames.len() == n_frames,
        forall|i: int| 0 <= i < frames.len() ==> is_raster_of(#[trigger] frames[i], s),
        scsi::answers_fit(log) ==> forall|i: int|
            0 <= i < frames.len() ==> (#[trigger] frames[i]).height <= s.rows(),
{
    let prepared = end_of(protocol::prepare_walk(log, at));
    match protocol::exposure_for_walk(log, prepared, s, n_frames, 0, subframe) {
        Some((Ok(exposure), next)) => {
            lemma_frames(
                log,
                next,
                s,
                n_frames,
                n_frames,
                subframe,
                exposure,
                0,
                Seq::empty(),
                frames,
                end_of(protocol::drive_strip_walk(log, prepared, s, n_frames, n_frames, subframe)),
            );
        },
        _ => {},
    }
}

/// The frames of a strip are those done before and one for each frame after.
proof fn lemma_frames(
    log: Seq<Event>,
    at: nat,
    s: ScanSettings,
    n_frames: nat,
    count: nat,
    subframe: int,
    exposure: Seq<u32>,
    f: nat,
    done: Seq<Raster>,
    frames: Seq<Raster>,
    end: nat,
)
    requires
        f <= count,
        done.len() == f,
        forall|i: int| 0 <= i < done.len() ==> is_raster_of(#[trigger] done[i], s),
        scsi::answers_fit(log) ==> forall|i: int|
            0 <= i < done.len() ==> (#[trigger] done[i]).height <= s.rows(),
        protocol::frames_walk(log, at, s, n_frames, count, subframe, exposure, f, done) == Some(
            (Ok::<Seq<Raster>, ScanError>(frames), end),
        ),
    ensures
        frames.len() == count,
        forall|i: int| 0 <= i < frames.len() ==> is_raster_of(#[trigger] frames[i], s),
        scsi::answers_fit(log) ==> forall|i: int|
            0 <= i < frames.len() ==> (#[trigger] frames[i]).height <= s.rows(),
    decreases count - f,
{
    if f < count {
        match protocol::drive_walk(log, at, s, n_frames, f as int, subframe, exposure) {
            Some(((_, stream), next)) => match protocol::frame_in(s, stream) {
                Ok(frame) => {
                    if scsi::answers_fit(log) {
                        lemma_driven(log, at, s, n_frames, f as int, subframe, exposure);
                        protocol::lemma_frame_height(s, stream);
                    }
                    lemma_frames(
                        log,
                        next,
                        s,
                        n_frames,
                        count,
                        subframe,
                        exposure,
                        f + 1,
                        done.push(frame),
                        frames,
                        end,
                    );
                },
                _ => {},
            },
            _ => {},
        }
    }
}

/// Whether frame `frame` of a strip was armed: the whole strip was declared at position
/// `declared`, and from position `tables` on the channels were configured for the place of the
/// frame.
pub open spec fn frame_armed(
    log: Seq<Event>,
    declared: nat,
    tables: nat,
    s: ScanSettings,
    n_frames: nat,
    frame: int,
    subframe: int,
    exposure: Seq<u32>,
) -> bool {
    &&& declared < tables
    &&& scsi::reply_to(
        log,
        declared,
        protocol::boundary_request(s.caps.native_x as int, n_frames, subframe),
    ) is Some
    &&& configured(log, tables, s, exposure, protocol::frame_start(frame, subframe))
}

/// Every frame of a scanned strip was scanned with the whole strip declared, with its windows a
/// pitch behind those of the frame before, and with one exposure for all frames: `r` is where
/// it was armed.
pub proof fn lemma_strip_frame_is_armed(
    log: Seq<Event>,
    at: nat,
    s: ScanSettings,
    n_frames: nat,
    subframe: int,
    frames: Seq<Raster>,
    end: nat,
    prepared: nat,
    frame: nat,
) -> (r: (nat, nat))
    requires
        protocol::prepare_walk(log, at) matches Some((Ok(_), next)) && next == prepared,
        protocol::strip_walk(log, at, s, n_frames, subframe) == Some(
            (Ok::<Seq<Raster>, ScanError>(frames), end),
        ),
        frame < n_frames,
    ensures
        protocol::exposure_for_walk(log, prepared, s, n_frames, 0, subframe) matches Some(
            (Ok(exposure), _),
        ) && frame_armed(log, r.0, r.1, s, n_frames, frame as int, subframe, exposure),
{
    match protocol::exposure_for_walk(log, prepared, s, n_frames, 0, subframe) {
        Some((Ok(exposure), next)) => lemma_frame_is_armed(
            log,
            next,
            s,
            n_frames,
            n_frames,
            subframe,
            exposure,
            0,
            Seq::empty(),
            frame,
        ),
        _ => (0, 0),
    }
}

/// Frame `frame` is armed in a walk over the frames from `f` on that gives all of them.
proof fn lemma_frame_is_armed(
    log: Seq<Event>,
    at: nat,
    s: ScanSettings,
    n_frames: nat,
    count: nat,
    subframe: int,
    exposure: Seq<u32>,
    f: nat,
    done: Seq<Raster>,
    frame: nat,
) -> (r: (nat, nat))
    requires
        f <= frame < count,
        protocol::frames_walk(log, at, s, n_frames, count, subframe, exposure, f, done) matches Some(
            (Ok(_), _),
        ),
    ensures
        frame_armed(log, r.0, r.1, s, n_frames, frame as int, subframe, exposure),
    decreases count - f,
{
    match protocol::drive_walk(log, at, s, n_frames, f as int, subframe, exposure) {
        Some(((Ok(_), stream), next)) => {
            if f == frame {
                reveal(protocol::drive_walk);
                let armed = end_of(
                    protocol::arm_walk(log, at, s, n_frames, f as int, subframe, exposure, false),
                );
                let tables = lemma_armed_pass(
                    log,
                    at,
                    s,
                    n_frames,
                    f as int,
                    subframe,
                    exposure,
                    armed,
                );
                reveal(protocol::arm_walk);
                (at, tables)
            } else {
                match protocol::frame_in(s, stream) {
                    Ok(one) => lemma_frame_is_armed(
                        log,
                        next,
                        s,
                        n_frames,
                        count,
                        subframe,
                        exposure,
                        f + 1,
                        done.push(one),
                        frame,
                    ),
                    Err(_) => (0, 0),
                }
            }
        },
        _ => (0, 0),
    }
}

/// Whether every command sent from position `from` up to `to` is one that `ok` allows.
pub open spec fn only_sends(
    log: Seq<Event>,
    from: nat,
    to: nat,
    ok: spec_fn(scsi::Request) -> bool,
) -> bool {
    &&& from <= to
    &&& forall|i: int|
        from <= i < to ==> (#[trigger] log[i] matches Event::Exchange { request, .. } ==> ok(
            request,
        ))
}

/// What the wait for readiness sends.
proof fn lemma_ready_sends(log: Seq<Event>, at: nat, ok: spec_fn(scsi::Request) -> bool)
    requires
        ok(protocol::test_request()),
    ensures
        protocol::ready_walk(log, at) matches Some((_, end)) ==> only_sends(log, at, end, ok),
{
    lemma_readying_only_polls(
        log,
        at,
        super::scan::READY_ATTEMPTS as nat,
        Status::Initializing,
    );
}

/// What the wait for a decisive state sends.
proof fn lemma_settled_sends(log: Seq<Event>, at: nat, ok: spec_fn(scsi::Request) -> bool)
    requires
        ok(protocol::test_request()),
    ensures
        protocol::settled_walk(log, at) matches Some((_, end)) ==> only_sends(log, at, end, ok),
{
    lemma_settling_only_polls(log, at, super::scan::READY_ATTEMPTS as nat);
}

/// What starting a scan sends.
proof fn lemma_start_sends(
    log: Seq<Event>,
    at: nat,
    channels: Seq<u8>,
    tries: nat,
    ok: spec_fn(scsi::Request) -> bool,
)
    requires
        ok(protocol::scan_request(channels)),
    ensures
        protocol::start_walk(log, at, channels, tries) matches Some((_, end)) ==> only_sends(
            log,
            at,
            end,
            ok,
        ),
    decreases tries,
{
    if tries > 0 {
        lemma_start_sends(log, at + 2, channels, (tries - 1) as nat, ok);
    }
}

/// What parking the focus sends.
proof fn lemma_park_sends(log: Seq<Event>, at: nat, ok: spec_fn(scsi::Request) -> bool)
    requires
        ok(protocol::test_request()),
        ok(protocol::trigger_request()),
        ok(protocol::set_up_request(0xC1, bytes::zeros(9))),
    ensures
        protocol::park_walk(log, at) matches Some((_, end)) ==> only_sends(log, at, end, ok),
{
    lemma_ready_sends(log, at + 2, ok);
}

/// What focusing on a frame sends.
proof fn lemma_autofocus_sends(
    log: Seq<Event>,
    at: nat,
    s: ScanSettings,
    y_offset: int,
    ok: spec_fn(scsi::Request) -> bool,
)
    requires
        ok(protocol::test_request()),
        ok(protocol::trigger_request()),
        ok(protocol::focus_request()),
        forall|payload: Seq<u8>| ok(#[trigger] protocol::set_up_request(0xA0, payload)),
    ensures
        protocol::autofocus_walk(log, at, s, y_offset) matches Some((_, end)) ==> only_sends(
            log,
            at,
            end,
            ok,
        ),
{
    lemma_ready_sends(log, at + 3, ok);
    lemma_readying_only_polls(
        log,
        at + 3,
        super::scan::READY_ATTEMPTS as nat,
        Status::Initializing,
    );
}

/// What uploading gamma tables sends.
proof fn lemma_luts_send(
    log: Seq<Event>,
    at: nat,
    channels: Seq<u8>,
    k: nat,
    ok: spec_fn(scsi::Request) -> bool,
)
    requires
        channels.len() > k ==> forall|channel: u8| ok(#[trigger] protocol::lut_request(channel)),
    ensures
        protocol::luts_walk(log, at, channels, k) matches Some((_, end)) ==> only_sends(
            log,
            at,
            end,
            ok,
        ),
    decreases channels.len() - k,
{
    if k < channels.len() {
        lemma_luts_send(log, at + 1, channels, k + 1, ok);
    }
}

/// What setting windows sends.
proof fn lemma_windows_send(
    log: Seq<Event>,
    at: nat,
    s: ScanSettings,
    exposure: Seq<u32>,
    y_offset: int,
    ae: bool,
    k: nat,
    ok: spec_fn(scsi::Request) -> bool,
)
    requires
        forall|payload: Seq<u8>| ok(#[trigger] protocol::set_window_request(payload)),
    ensures
        protocol::windows_walk(log, at, s, exposure, y_offset, ae, k) matches Some((_, end))
            ==> only_sends(log, at, end, ok),
    decreases protocol::channel_ids(s.infrared).len() - k,
{
    if k < protocol::channel_ids(s.infrared).len() {
        lemma_windows_send(log, at + 1, s, exposure, y_offset, ae, k + 1, ok);
    }
}

/// What reading windows back sends.
proof fn lemma_read_back_sends(
    log: Seq<Event>,
    at: nat,
    n: nat,
    ok: spec_fn(scsi::Request) -> bool,
)
    requires
        ok(protocol::test_request()),
        ok(protocol::get_window_request(false, 0)),
    ensures
        protocol::read_back_walk(log, at, n) matches Some((_, end)) ==> only_sends(
            log,
            at,
            end,
            ok,
        ),
{
    let asked = protocol::read_back_requests(n);
    if protocol::all_sent(log, at, asked) {
        lemma_ready_sends(log, at + n, ok);
        assert forall|i: int| at <= i < at + n implies (#[trigger] log[i] matches Event::Exchange {
            request,
            ..
        } ==> ok(request)) by {
            let k = i - at;
            assert(scsi::reply_to(log, (at + k) as nat, asked[k]) is Some);
        }
    }
}

/// Whether `ok` allows what arming a pass sends; with `ae`, that of a measurement.
pub open spec fn allows_arming(ok: spec_fn(scsi::Request) -> bool, ae: bool) -> bool {
    &&& ok(protocol::test_request())
    &&& ok(protocol::trigger_request())
    &&& ok(protocol::set_up_request(0xC1, bytes::zeros(9)))
    &&& ok(protocol::get_window_request(false, 0))
    &&& forall|native_x: int, n: nat, subframe: int|
        ok(#[trigger] protocol::boundary_request(native_x, n, subframe))
    &&& forall|payload: Seq<u8>| ok(#[trigger] protocol::set_window_request(payload))
    &&& !ae ==> {
        &&& ok(protocol::focus_request())
        &&& forall|payload: Seq<u8>| ok(#[trigger] protocol::set_up_request(0xA0, payload))
        &&& forall|channel: u8| ok(#[trigger] protocol::lut_request(channel))
    }
}

/// What configuring the channels sends.
proof fn lemma_configure_sends(
    log: Seq<Event>,
    at: nat,
    s: ScanSettings,
    exposure: Seq<u32>,
    y_offset: int,
    ae: bool,
    ok: spec_fn(scsi::Request) -> bool,
)
    requires
        allows_arming(ok, ae),
    ensures
        protocol::configure_walk(log, at, s, exposure, y_offset, ae) matches Some((_, end))
            ==> only_sends(log, at, end, ok),
{
    let channels = protocol::channel_ids(s.infrared);
    let tables = if ae {
        Seq::<u8>::empty()
    } else {
        channels
    };
    lemma_luts_send(log, at, tables, 0, ok);
    let windows = end_of(protocol::luts_walk(log, at, tables, 0));
    lemma_windows_send(log, windows, s, exposure, y_offset, ae, 0, ok);
    let back = end_of(protocol::windows_walk(log, windows, s, exposure, y_offset, ae, 0));
    lemma_read_back_sends(log, back, channels.len(), ok);
}

/// What arming a pass sends.
proof fn lemma_arm_sends(
    log: Seq<Event>,
    at: nat,
    s: ScanSettings,
    n_frames: nat,
    frame: int,
    subframe: int,
    exposure: Seq<u32>,
    ae: bool,
    ok: spec_fn(scsi::Request) -> bool,
)
    requires
        allows_arming(ok, ae),
    ensures
        protocol::arm_walk(log, at, s, n_frames, frame, subframe, exposure, ae) matches Some(
            (_, end),
        ) ==> only_sends(log, at, end, ok),
{
    reveal(protocol::arm_walk);
    let y_offset = protocol::frame_start(frame, subframe);
    if s.autofocus && !ae {
        lemma_autofocus_sends(log, at + 1, s, y_offset, ok);
    } else {
        lemma_park_sends(log, at + 1, ok);
    }
    let focused = end_of(protocol::focus_walk(log, at + 1, s, y_offset, ae));
    lemma_configure_sends(log, focused, s, exposure, y_offset, ae, ok);
}

/// What measuring the exposure sends.
proof fn lemma_measure_sends(
    log: Seq<Event>,
    at: nat,
    s: ScanSettings,
    n_frames: nat,
    frame: int,
    subframe: int,
    ok: spec_fn(scsi::Request) -> bool,
)
    requires
        allows_arming(ok, true),
        ok(protocol::scan_request(protocol::channel_ids(false))),
        forall|id: u8| ok(#[trigger] protocol::get_window_request(true, id)),
    ensures
        protocol::measure_walk(log, at, s, n_frames, frame, subframe) matches Some((_, end))
            ==> only_sends(log, at, end, ok),
{
    reveal(protocol::measure_walk);
    let fixed = protocol::fixed_exposure();
    lemma_arm_sends(log, at, s, n_frames, frame, subframe, fixed, true, ok);
    let armed = end_of(
        protocol::arm_walk(log, at, s, n_frames, frame, subframe, fixed, true),
    );
    let rgb = protocol::channel_ids(false);
    let tries = super::scan::SCAN_ATTEMPTS as nat;
    lemma_start_sends(log, armed, rgb, tries, ok);
    let started = end_of(protocol::start_walk(log, armed, rgb, tries));
    lemma_ready_sends(log, started, ok);
}

/// Whether a command could be part of a measurement: it reads no image, uploads no gamma table
/// and asks for no autofocus.
pub open spec fn is_measuring(request: scsi::Request) -> bool {
    &&& request.cdb[0] != 0x28
    &&& request.cdb[0] == 0x2A ==> request.cdb[2] == 0x88
    &&& request.cdb[0] == 0xE0 ==> request.cdb[2] == 0xC1
}

/// Measuring the exposure reads no image, uploads no gamma table and does not focus.
pub proof fn lemma_measuring_only_measures(
    log: Seq<Event>,
    at: nat,
    s: ScanSettings,
    n_frames: nat,
    frame: int,
    subframe: int,
    r: Result<Seq<u32>, ScanError>,
    end: nat,
)
    requires
        protocol::measure_walk(log, at, s, n_frames, frame, subframe) == Some((r, end)),
    ensures
        only_sends(log, at, end, |request: scsi::Request| is_measuring(request)),
{
    lemma_measure_sends(
        log,
        at,
        s,
        n_frames,
        frame,
        subframe,
        |request: scsi::Request| is_measuring(request),
    );
}

/// What reading the image sends.
proof fn lemma_drain_sends(
    log: Seq<Event>,
    at: nat,
    len: u32,
    lines: nat,
    idle: nat,
    stream: Seq<u8>,
    ok: spec_fn(scsi::Request) -> bool,
)
    requires
        ok(protocol::test_request()),
        ok(protocol::read_request(len)),
    ensures
        protocol::drain_walk(log, at, len, lines, idle, stream) matches Some((_, end))
            ==> only_sends(log, at, end, ok),
    decreases lines, super::scan::IMAGE_IDLE_ATTEMPTS - idle,
{
    if lines > 0 {
        match protocol::status_walk(log, at) {
            Some((status, next)) => {
                if status != Ok::<Status, ScsiError>(Status::Ready) {
                    if idle + 1 < super::scan::IMAGE_IDLE_ATTEMPTS {
                        lemma_drain_sends(log, next + 1, len, lines, idle + 1, stream, ok);
                    }
                } else {
                    match scsi::reply_to(log, next, protocol::read_request(len)) {
                        Some(reply) => match reply.outcome {
                            Ok(_) => {
                                lemma_drain_sends(
                                    log,
                                    next + 1,
                                    len,
                                    (lines - 1) as nat,
                                    0,
                                    stream + reply.data,
                                    ok,
                                );
                            },
                            Err(_) => {
                                if idle + 1 < super::scan::IMAGE_IDLE_ATTEMPTS {
                                    lemma_drain_sends(
                                        log,
                                        next + 2,
                                        len,
                                        lines,
                                        idle + 1,
                                        stream,
                                        ok,
                                    );
                                }
                            },
                        },
                        None => {},
                    }
                }
            },
            None => {},
        }
    }
}

/// Whether `ok` allows what a pass sends.
pub open spec fn allows_driving(ok: spec_fn(scsi::Request) -> bool) -> bool {
    &&& allows_arming(ok, false)
    &&& forall|channels: Seq<u8>| ok(#[trigger] protocol::scan_request(channels))
    &&& forall|len: u32| ok(#[trigger] protocol::read_request(len))
    &&& forall|id: u8| ok(#[trigger] protocol::get_window_request(true, id))
}

/// What a pass sends.
proof fn lemma_drive_sends(
    log: Seq<Event>,
    at: nat,
    s: ScanSettings,
    n_frames: nat,
    frame: int,
    subframe: int,
    exposure: Seq<u32>,
    ok: spec_fn(scsi::Request) -> bool,
)
    requires
        allows_driving(ok),
    ensures
        protocol::drive_walk(log, at, s, n_frames, frame, subframe, exposure) matches Some(
            (_, end),
        ) ==> only_sends(log, at, end, ok),
{
    reveal(protocol::drive_walk);
    lemma_arm_sends(log, at, s, n_frames, frame, subframe, exposure, false, ok);
    let armed = end_of(
        protocol::arm_walk(log, at, s, n_frames, frame, subframe, exposure, false),
    );
    let channels = protocol::channel_ids(s.infrared);
    let tries = super::scan::SCAN_ATTEMPTS as nat;
    lemma_start_sends(log, armed, channels, tries, ok);
    let started = end_of(protocol::start_walk(log, armed, channels, tries));
    lemma_drain_sends(
        log,
        started,
        protocol::line_request_len(s),
        s.rows() as nat,
        0,
        Seq::empty(),
        ok,
    );
}

/// What finding the exposure of a scan sends.
proof fn lemma_exposure_for_sends(
    log: Seq<Event>,
    at: nat,
    s: ScanSettings,
    n_frames: nat,
    frame: int,
    subframe: int,
    ok: spec_fn(scsi::Request) -> bool,
)
    requires
        allows_driving(ok),
    ensures
        protocol::exposure_for_walk(log, at, s, n_frames, frame, subframe) matches Some((_, end))
            ==> only_sends(log, at, end, ok),
{
    lemma_measure_sends(log, at, protocol::measuring(s), n_frames, frame, subframe, ok);
}

/// Whether `ok` allows what preparing sends.
pub open spec fn allows_preparing(ok: spec_fn(scsi::Request) -> bool) -> bool {
    &&& ok(protocol::test_request())
    &&& ok(protocol::reserve_request())
    &&& ok(protocol::mode_request())
    &&& ok(protocol::self_test_request())
    &&& ok(protocol::set_up_request(0x80, Seq::empty()))
    &&& ok(protocol::trigger_request())
    &&& forall|page: u8, len: u8| ok(#[trigger] protocol::vpd_request(page, len))
}

/// What preparing sends.
pub(super) proof fn lemma_prepare_sends(log: Seq<Event>, at: nat, ok: spec_fn(scsi::Request) -> bool)
    requires
        allows_preparing(ok),
    ensures
        protocol::prepare_walk(log, at) matches Some((_, end)) ==> only_sends(log, at, end, ok),
{
    reveal(protocol::prepare_walk);
    lemma_settled_sends(log, at, ok);
    let settled = end_of(protocol::settled_walk(log, at));
    let asked = protocol::probe_requests();
    let probed = settled + 2;
    if protocol::all_sent(log, probed, asked) {
        assert forall|i: int| probed <= i < probed + 6 implies (#[trigger] log[i] matches
            Event::Exchange { request, .. } ==> ok(request)) by {
            let k = i - probed;
            assert(scsi::reply_to(log, (probed + k) as nat, asked[k]) is Some);
        }
        lemma_ready_sends(log, probed + 7, ok);
        lemma_ready_sends(log, probed + 10, ok);
    }
}

/// What the frames of a strip send.
proof fn lemma_frames_send(
    log: Seq<Event>,
    at: nat,
    s: ScanSettings,
    n_frames: nat,
    count: nat,
    subframe: int,
    exposure: Seq<u32>,
    f: nat,
    done: Seq<Raster>,
    ok: spec_fn(scsi::Request) -> bool,
)
    requires
        allows_driving(ok),
    ensures
        protocol::frames_walk(log, at, s, n_frames, count, subframe, exposure, f, done) matches Some(
            (_, end),
        ) ==> only_sends(log, at, end, ok),
    decreases count - f,
{
    if f < count {
        lemma_drive_sends(log, at, s, n_frames, f as int, subframe, exposure, ok);
        match protocol::drive_walk(log, at, s, n_frames, f as int, subframe, exposure) {
            Some(((_, stream), next)) => match protocol::frame_in(s, stream) {
                Ok(frame) => {
                    lemma_frames_send(
                        log,
                        next,
                        s,
                        n_frames,
                        count,
                        subframe,
                        exposure,
                        f + 1,
                        done.push(frame),
                        ok,
                    );
                },
                _ => {},
            },
            None => {},
        }
    }
}

/// What scanning a frame sends, once the scanner is prepared: RELEASE UNIT comes last.
proof fn lemma_frame_sends(
    log: Seq<Event>,
    at: nat,
    s: ScanSettings,
    subframe: int,
    ok: spec_fn(scsi::Request) -> bool,
)
    requires
        allows_driving(ok),
    ensures
        protocol::frame_walk(log, at, s, subframe) matches Some((_, end)) ==> at < end
            && only_sends(log, at, (end - 1) as nat, ok) && scsi::reply_to(
            log,
            (end - 1) as nat,
            protocol::release_request(),
        ) is Some,
{
    lemma_exposure_for_sends(log, at, s, 1, 0, subframe, ok);
    match protocol::exposure_for_walk(log, at, s, 1, 0, subframe) {
        Some((Ok(exposure), next)) => {
            lemma_drive_sends(log, next, s, 1, 0, subframe, exposure, ok);
        },
        _ => {},
    }
}

/// Whether a command asks for the film to be ejected.
pub open spec fn is_eject(request: scsi::Request) -> bool {
    request.cdb[0] == 0xE0 && request.cdb[2] == 0xD0
}

/// What is not an eject is allowed throughout a scan.
proof fn lemma_scanning_allowed()
    ensures
        allows_preparing(|request: scsi::Request| !is_eject(request)),
        allows_driving(|request: scsi::Request| !is_eject(request)),
{
}

/// Scanning a frame never asks for the film to be ejected.
pub proof fn lemma_scan_never_ejects(
    log: Seq<Event>,
    at: nat,
    s: ScanSettings,
    subframe: int,
    r: Result<Raster, ScanError>,
    end: nat,
)
    requires
        protocol::scan_walk(log, at, s, subframe) == Some((r, end)),
    ensures
        only_sends(log, at, end, |request: scsi::Request| !is_eject(request)),
{
    let ok = |request: scsi::Request| !is_eject(request);
    lemma_scanning_allowed();
    lemma_prepare_sends(log, at, ok);
    let prepared = end_of(protocol::prepare_walk(log, at));
    lemma_frame_sends(log, prepared, s, subframe, ok);
    assert(ok(protocol::release_request()));
}

/// What the first `count` frames of a strip send, once the scanner is prepared.
proof fn lemma_drive_strip_sends(
    log: Seq<Event>,
    at: nat,
    s: ScanSettings,
    n_frames: nat,
    count: nat,
    subframe: int,
    ok: spec_fn(scsi::Request) -> bool,
)
    requires
        allows_driving(ok),
    ensures
        protocol::drive_strip_walk(log, at, s, n_frames, count, subframe) matches Some((_, end))
            ==> only_sends(log, at, end, ok),
{
    lemma_exposure_for_sends(log, at, s, n_frames, 0, subframe, ok);
    match protocol::exposure_for_walk(log, at, s, n_frames, 0, subframe) {
        Some((Ok(exposure), next)) => {
            lemma_frames_send(
                log,
                next,
                s,
                n_frames,
                count,
                subframe,
                exposure,
                0,
                Seq::empty(),
                ok,
            );
        },
        _ => {},
    }
}

/// Scanning a strip never asks for the film to be ejected.
pub proof fn lemma_strip_never_ejects(
    log: Seq<Event>,
    at: nat,
    s: ScanSettings,
    n_frames: nat,
    subframe: int,
    r: Result<Seq<Raster>, ScanError>,
    end: nat,
)
    requires
        protocol::strip_walk(log, at, s, n_frames, subframe) == Some((r, end)),
    ensures
        only_sends(log, at, end, |request: scsi::Request| !is_eject(request)),
{
    let ok = |request: scsi::Request| !is_eject(request);
    lemma_scanning_allowed();
    lemma_prepare_sends(log, at, ok);
    let prepared = end_of(protocol::prepare_walk(log, at));
    lemma_drive_strip_sends(log, prepared, s, n_frames, n_frames, subframe, ok);
}

/// Whether a command is RELEASE UNIT.
pub open spec fn is_release(request: scsi::Request) -> bool {
    request.cdb[0] == 0x17
}

/// What is not RELEASE UNIT is allowed throughout a scan, up to its end.
proof fn lemma_claimed_allowed()
    ensures
        is_release(protocol::release_request()),
        allows_preparing(|request: scsi::Request| !is_release(request)),
        allows_driving(|request: scsi::Request| !is_release(request)),
{
}

/// Whether the scanner is given back once between the positions `from` and `to`, and by the
/// last command there: RELEASE UNIT, which no command before it is.
pub open spec fn given_back_once(log: Seq<Event>, from: nat, to: nat) -> bool {
    &&& from < to
    &&& scsi::reply_to(log, (to - 1) as nat, protocol::release_request()) is Some
    &&& only_sends(log, from, (to - 1) as nat, |request: scsi::Request| !is_release(request))
    &&& only_sends(
        log,
        from,
        (to - 1) as nat,
        |request: scsi::Request| request != protocol::release_request(),
    )
}

/// Commands none of which is RELEASE UNIT, and then RELEASE UNIT, give the scanner back once.
proof fn lemma_given_back_once(log: Seq<Event>, from: nat, to: nat)
    requires
        from < to,
        scsi::reply_to(log, (to - 1) as nat, protocol::release_request()) is Some,
        only_sends(log, from, (to - 1) as nat, |request: scsi::Request| !is_release(request)),
    ensures
        given_back_once(log, from, to),
{
    lemma_claimed_allowed();
    let ok = |request: scsi::Request| !is_release(request);
    assert forall|i: int| from <= i < to - 1 implies (#[trigger] log[i] matches Event::Exchange {
        request,
        ..
    } ==> request != protocol::release_request()) by {
        assert(log[i] matches Event::Exchange { request, .. } ==> ok(request));
    }
}

/// Once a scan of one frame was prepared, the scanner is given back exactly once, whatever came
/// of it: the last command is RELEASE UNIT, and no command of the scan before it is.
pub proof fn lemma_scan_gives_back(
    log: Seq<Event>,
    at: nat,
    s: ScanSettings,
    subframe: int,
    prepared: nat,
    r: Result<Raster, ScanError>,
    end: nat,
)
    requires
        protocol::prepare_walk(log, at) matches Some((Ok(_), next)) && next == prepared,
        protocol::scan_walk(log, at, s, subframe) == Some((r, end)),
    ensures
        prepared < end,
        given_back_once(log, prepared, end),
        given_back_once(log, at, end),
{
    let ok = |request: scsi::Request| !is_release(request);
    lemma_claimed_allowed();
    lemma_prepare_sends(log, at, ok);
    lemma_frame_sends(log, prepared, s, subframe, ok);
    lemma_given_back_once(log, prepared, end);
    lemma_given_back_once(log, at, end);
}

/// Once a scan of a strip was prepared, the scanner is given back exactly once, whatever came of
/// it: the last command is RELEASE UNIT, and no command of the scan before it is.
pub proof fn lemma_strip_gives_back(
    log: Seq<Event>,
    at: nat,
    s: ScanSettings,
    n_frames: nat,
    subframe: int,
    prepared: nat,
    r: Result<Seq<Raster>, ScanError>,
    end: nat,
)
    requires
        protocol::prepare_walk(log, at) matches Some((Ok(_), next)) && next == prepared,
        protocol::strip_walk(log, at, s, n_frames, subframe) == Some((r, end)),
    ensures
        prepared < end,
        given_back_once(log, prepared, end),
        given_back_once(log, at, end),
{
    let ok = |request: scsi::Request| !is_release(request);
    lemma_claimed_allowed();
    lemma_prepare_sends(log, at, ok);
    lemma_drive_strip_sends(log, prepared, s, n_frames, n_frames, subframe, ok);
    lemma_given_back_once(log, prepared, end);
    lemma_given_back_once(log, at, end);
}

/// A scan that was prepared gives the scanner back exactly once also where its geometry does
/// not fit.
pub proof fn lemma_try_gives_back(
    log: Seq<Event>,
    at: nat,
    s: ScanSettings,
    n_frames: nat,
    subframe: int,
    prepared: nat,
)
    requires
        protocol::prepare_walk(log, at) matches Some((Ok(_), next)) && next == prepared,
    ensures
        protocol::try_scan_walk(log, at, s, subframe) matches Some((_, end)) ==> given_back_once(
            log,
            at,
            end,
        ),
        protocol::try_strip_walk(log, at, s, n_frames, subframe) matches Some((_, end))
            ==> given_back_once(log, at, end),
{
    let ok = |request: scsi::Request| !is_release(request);
    let count = protocol::frames_in_reach(s, n_frames, subframe);
    lemma_claimed_allowed();
    lemma_prepare_sends(log, at, ok);
    lemma_exposure_for_sends(log, prepared, s, 1, 0, subframe, ok);
    lemma_frame_sends(log, prepared, s, subframe, ok);
    lemma_exposure_for_sends(log, prepared, s, n_frames, 0, subframe, ok);
    lemma_drive_strip_sends(log, prepared, s, n_frames, count, subframe, ok);
    match protocol::try_scan_walk(log, at, s, subframe) {
        Some((_, end)) => {
            lemma_given_back_once(log, at, end);
        },
        None => {},
    }
    match protocol::try_strip_walk(log, at, s, n_frames, subframe) {
        Some((_, end)) => {
            lemma_given_back_once(log, at, end);
        },
        None => {},
    }
}

/// Where the geometry fits, a scan that need not fit is the scan.
pub proof fn lemma_try_is_scan(
    log: Seq<Event>,
    at: nat,
    s: ScanSettings,
    n_frames: nat,
    subframe: int,
)
    requires
        decode::settings_fit(s),
    ensures
        protocol::strip_fits(s, 1, subframe) ==> protocol::try_scan_walk(log, at, s, subframe) == (
        match protocol::scan_walk(log, at, s, subframe) {
            None => None,
            Some((Err(err), end)) => Some((Err(err), end)),
            Some((Ok(frame), end)) => Some((Ok(Some(frame)), end)),
        }),
        protocol::strip_fits(s, n_frames, subframe) ==> protocol::try_strip_walk(
            log,
            at,
            s,
            n_frames,
            subframe,
        ) == (match protocol::strip_walk(log, at, s, n_frames, subframe) {
            None => None,
            Some((Err(err), end)) => Some((Err(err), end)),
            Some((Ok(frames), end)) => Some((Ok(Some(frames)), end)),
        }),
{
}

/// The image grows by whole answers, and by no more lines than were asked for.
proof fn lemma_drained(
    log: Seq<Event>,
    at: nat,
    len: u32,
    lines: nat,
    idle: nat,
    stream: Seq<u8>,
)
    requires
        scsi::answers_fit(log),
    ensures
        protocol::drain_walk(log, at, len, lines, idle, stream) matches Some(((_, out), _))
            ==> stream.len() <= out.len() <= stream.len() + lines * len,
    decreases lines, super::scan::IMAGE_IDLE_ATTEMPTS - idle,
{
    reveal(scsi::answers_fit);
    assert(0 <= lines * len) by (nonlinear_arith);
    if lines > 0 {
        assert(lines * len == (lines - 1) * len + len) by (nonlinear_arith);
        match protocol::status_walk(log, at) {
            Some((status, next)) => {
                if status != Ok::<Status, ScsiError>(Status::Ready) {
                    if idle + 1 < super::scan::IMAGE_IDLE_ATTEMPTS {
                        lemma_drained(log, next + 1, len, lines, idle + 1, stream);
                    }
                } else {
                    match scsi::reply_to(log, next, protocol::read_request(len)) {
                        Some(reply) => match reply.outcome {
                            Ok(_) => {
                                assert(log[next as int] matches Event::Exchange { request, .. }
                                    && request == protocol::read_request(len));
                                lemma_drained(
                                    log,
                                    next + 1,
                                    len,
                                    (lines - 1) as nat,
                                    0,
                                    stream + reply.data,
                                );
                            },
                            Err(_) => {
                                if idle + 1 < super::scan::IMAGE_IDLE_ATTEMPTS {
                                    lemma_drained(log, next + 2, len, lines, idle + 1, stream);
                                }
                            },
                        },
                        None => {},
                    }
                }
            },
            None => {},
        }
    }
}

/// A pass reads no more than the lines of the settings.
proof fn lemma_driven(
    log: Seq<Event>,
    at: nat,
    s: ScanSettings,
    n_frames: nat,
    frame: int,
    subframe: int,
    exposure: Seq<u32>,
)
    requires
        scsi::answers_fit(log),
    ensures
        protocol::drive_walk(log, at, s, n_frames, frame, subframe, exposure) matches Some(
            ((_, out), _),
        ) ==> out.len() <= s.rows() * protocol::line_request_len(s),
{
    reveal(protocol::drive_walk);
    s.lemma_grid_pitch();
    protocol::lemma_frame_height(s, Seq::empty());
    let armed = end_of(
        protocol::arm_walk(log, at, s, n_frames, frame, subframe, exposure, false),
    );
    let started = end_of(
        protocol::start_walk(
            log,
            armed,
            protocol::channel_ids(s.infrared),
            super::scan::SCAN_ATTEMPTS as nat,
        ),
    );
    lemma_drained(
        log,
        started,
        protocol::line_request_len(s),
        s.rows() as nat,
        0,
        Seq::empty(),
    );
}

/// Whether `frame` has the width that the settings ask for, at least one line, and an infrared
/// plane if and only if they ask for one.
pub open spec fn is_raster_of(frame: Raster, s: ScanSettings) -> bool {
    &&& frame.wf()
    &&& frame.width == s.columns() as nat
    &&& 0 < frame.height
    &&& frame.ir is Some <==> s.infrared
}

/// A scanned frame has the width of the settings, at least one line, and, answers being as long
/// as they have to be, no more lines than the settings say.
pub proof fn lemma_scanned_frame(
    log: Seq<Event>,
    at: nat,
    s: ScanSettings,
    subframe: int,
    frame: Raster,
    end: nat,
)
    requires
        protocol::scan_walk(log, at, s, subframe) == Some((Ok::<Raster, ScanError>(frame), end)),
    ensures
        is_raster_of(frame, s),
        scsi::answers_fit(log) ==> frame.height <= s.rows(),
{
    let prepared = end_of(protocol::prepare_walk(log, at));
    match protocol::exposure_for_walk(log, prepared, s, 1, 0, subframe) {
        Some((Ok(exposure), next)) => if scsi::answers_fit(log) {
            lemma_driven(log, next, s, 1, 0, subframe, exposure);
            match protocol::drive_walk(log, next, s, 1, 0, subframe, exposure) {
                Some(((_, out), _)) => {
                    protocol::lemma_frame_height(s, out);
                },
                None => {},
            }
        },
        _ => {},
    }
}

/// Whether an event is a READ that succeeded.
pub open spec fn is_line(event: Event) -> bool {
    event matches Event::Exchange { request, reply } && request.cdb[0] == 0x28
        && reply.outcome is Ok
}

/// How many READs succeeded from position `from` up to `to`.
pub open spec fn lines_read(log: Seq<Event>, from: nat, to: nat) -> nat
    decreases to - from,
{
    if from >= to {
        0
    } else {
        (if is_line(log[from as int]) {
            1nat
        } else {
            0
        }) + lines_read(log, from + 1, to)
    }
}

/// The data of the READs that succeeded from position `from` up to `to`, in the order in which
/// they were read.
pub open spec fn data_read(log: Seq<Event>, from: nat, to: nat) -> Seq<u8>
    decreases to - from,
{
    if from >= to {
        Seq::empty()
    } else if is_line(log[from as int]) {
        scsi::reply_at(log, from as int).data + data_read(log, from + 1, to)
    } else {
        data_read(log, from + 1, to)
    }
}

/// Whether the command at position `i`, if one was sent there, asks for the state, or is a READ
/// of `len` bytes of the image directly after the state was asked for and was Ready; nothing
/// before position `from` counts.
pub open spec fn reads_when_ready(log: Seq<Event>, from: nat, i: int, len: u32) -> bool {
    log[i] matches Event::Exchange { request, .. } ==> {
        ||| request == protocol::test_request()
        ||| {
            &&& request == protocol::read_request(len)
            &&& from < i
            &&& protocol::status_walk(log, (i - 1) as nat) == Some(
                (Ok::<Status, ScsiError>(Status::Ready), i as nat),
            )
        }
    }
}

/// One try for a line that did not give it: the state was not Ready, or the READ after it found
/// the line pending. Gives the position after it.
pub open spec fn idle_try(log: Seq<Event>, at: nat, len: u32) -> Option<nat> {
    match protocol::status_walk(log, at) {
        None => None,
        Some((status, next)) => if status != Ok::<Status, ScsiError>(Status::Ready) {
            Some(next)
        } else {
            match scsi::reply_to(log, next, protocol::read_request(len)) {
                None => None,
                Some(reply) => match reply.outcome {
                    Ok(_) => None,
                    Err(err) => if protocol::line_pending(err) {
                        Some(next + 1)
                    } else {
                        None
                    },
                },
            }
        },
    }
}

/// One try for a line that gave it. Gives the position after it.
pub open spec fn good_try(log: Seq<Event>, at: nat, len: u32) -> Option<nat> {
    match protocol::status_walk(log, at) {
        None => None,
        Some((status, next)) => if status != Ok::<Status, ScsiError>(Status::Ready) {
            None
        } else {
            match scsi::reply_to(log, next, protocol::read_request(len)) {
                None => None,
                Some(reply) => match reply.outcome {
                    Ok(_) => Some(next + 1),
                    Err(_) => None,
                },
            }
        },
    }
}

/// `n` tries for one line that did not give it, with a pause between each two. Gives the
/// position after the last.
pub open spec fn idle_tries(log: Seq<Event>, at: nat, len: u32, n: nat) -> Option<nat>
    decreases n,
{
    match idle_try(log, at, len) {
        None => None,
        Some(next) => if n <= 1 {
            Some(next)
        } else if scsi::waited(log, next, super::scan::IMAGE_IDLE_PAUSE_MS) {
            idle_tries(log, next + 1, len, (n - 1) as nat)
        } else {
            None
        },
    }
}

/// Tries for one line until one gives it, fewer than `n` in vain, with a pause after each of
/// these. Gives the position after the line.
pub open spec fn line_gained(log: Seq<Event>, at: nat, len: u32, n: nat) -> Option<nat>
    decreases n,
{
    match good_try(log, at, len) {
        Some(next) => Some(next),
        None => match idle_try(log, at, len) {
            None => None,
            Some(next) => if n > 1 && scsi::waited(
                log,
                next,
                super::scan::IMAGE_IDLE_PAUSE_MS,
            ) {
                line_gained(log, next + 1, len, (n - 1) as nat)
            } else {
                None
            },
        },
    }
}

/// `k` lines, one after the other. Gives the position after the last.
pub open spec fn lines_gained(log: Seq<Event>, at: nat, len: u32, k: nat) -> Option<nat>
    decreases k,
{
    if k == 0 {
        Some(at)
    } else {
        match line_gained(log, at, len, super::scan::IMAGE_IDLE_ATTEMPTS as nat) {
            None => None,
            Some(next) => lines_gained(log, next, len, (k - 1) as nat),
        }
    }
}

/// Reading the image from a state in the middle of it: every command polls or is a READ after a
/// Ready poll, no more lines are read than are left, and the data go to the end of what was read
/// before. Where the scanner is given up on, it is after as many vain tries for one line as are
/// allowed: this one, or a later one.
proof fn lemma_drained_well(
    log: Seq<Event>,
    at: nat,
    len: u32,
    lines: nat,
    idle: nat,
    stream: Seq<u8>,
    r: Result<(), ScanError>,
    out: Seq<u8>,
    end: nat,
)
    requires
        idle < super::scan::IMAGE_IDLE_ATTEMPTS,
        protocol::drain_walk(log, at, len, lines, idle, stream) == Some(((r, out), end)),
    ensures
        at <= end,
        forall|i: int| at <= i < end ==> #[trigger] reads_when_ready(log, at, i, len),
        lines_read(log, at, end) <= lines,
        out == stream + data_read(log, at, end),
        r matches Err(ScanError::ScanNotReady(n)) ==> n == super::scan::IMAGE_IDLE_ATTEMPTS && {
            ||| idle_tries(log, at, len, (super::scan::IMAGE_IDLE_ATTEMPTS - idle) as nat) == Some(
                end,
            )
            ||| exists|p: nat|
                at <= p && #[trigger] idle_tries(
                    log,
                    p,
                    len,
                    super::scan::IMAGE_IDLE_ATTEMPTS as nat,
                ) == Some(end)
        },
    decreases lines, super::scan::IMAGE_IDLE_ATTEMPTS - idle,
{
    reveal_with_fuel(lines_read, 4);
    reveal_with_fuel(data_read, 4);
    if lines == 0 {
        assert(stream + Seq::<u8>::empty() =~= stream);
    } else {
        let next = at + 1;
        let last_idle = idle + 1 >= super::scan::IMAGE_IDLE_ATTEMPTS;
        assert(stream + Seq::<u8>::empty() =~= stream);
        match protocol::status_walk(log, at) {
            None => {},
            Some((status, _)) => if status != Ok::<Status, ScsiError>(Status::Ready) {
                if !last_idle {
                    lemma_drained_well(log, at + 2, len, lines, idle + 1, stream, r, out, end);
                    lemma_reads_from(log, at, at + 2, end, len);
                }
            } else {
                match scsi::reply_to(log, next, protocol::read_request(len)) {
                    None => {},
                    Some(reply) => match reply.outcome {
                        Ok(_) => {
                            lemma_drained_well(
                                log,
                                at + 2,
                                len,
                                (lines - 1) as nat,
                                0,
                                stream + reply.data,
                                r,
                                out,
                                end,
                            );
                            lemma_reads_from(log, at, at + 2, end, len);
                            assert(stream + reply.data + data_read(log, at + 2, end) =~= stream + (
                            reply.data + data_read(log, at + 2, end)));
                        },
                        Err(err) => if protocol::line_pending(err) && !last_idle {
                            lemma_drained_well(
                                log,
                                at + 3,
                                len,
                                lines,
                                idle + 1,
                                stream,
                                r,
                                out,
                                end,
                            );
                            lemma_reads_from(log, at, at + 3, end, len);
                        },
                    },
                }
            },
        }
    }
}

/// What holds of READs counted from a later position holds counted from an earlier one.
proof fn lemma_reads_from(log: Seq<Event>, at: nat, later: nat, end: nat, len: u32)
    requires
        at <= later,
        forall|i: int| later <= i < end ==> #[trigger] reads_when_ready(log, later, i, len),
    ensures
        forall|i: int| later <= i < end ==> #[trigger] reads_when_ready(log, at, i, len),
{
    assert forall|i: int| later <= i < end implies #[trigger] reads_when_ready(log, at, i, len) by {
        assert(reads_when_ready(log, later, i, len));
    }
}

/// Whether what happened between the positions `at` and `end` drained the image of a scan into
/// `out`, with the result `r`: every READ asks for one line of the image and directly follows a
/// poll that found the scanner Ready; no more READs succeed than the settings have lines; what
/// is decoded is their data, in the order in which they were read; and the scanner is given up
/// on only after all the tries that are allowed for one line, with that count.
pub open spec fn is_drain(
    log: Seq<Event>,
    at: nat,
    end: nat,
    s: ScanSettings,
    r: Result<(), ScanError>,
    out: Seq<u8>,
) -> bool {
    let len = protocol::line_request_len(s);
    &&& at <= end
    &&& forall|i: int| at <= i < end ==> #[trigger] reads_when_ready(log, at, i, len)
    &&& lines_read(log, at, end) <= s.rows()
    &&& out == data_read(log, at, end)
    &&& r matches Err(ScanError::ScanNotReady(n)) ==> n == super::scan::IMAGE_IDLE_ATTEMPTS
        && exists|p: nat|
        at <= p && #[trigger] idle_tries(
            log,
            p,
            len,
            super::scan::IMAGE_IDLE_ATTEMPTS as nat,
        ) == Some(end)
}

/// Draining the image of a scan reads its lines when they are ready, each once and no more than
/// there are, and gives up only on a line that all tries were spent on. A line that is asked for
/// is a whole line, if its length is a 32-bit number.
pub proof fn lemma_drain(
    log: Seq<Event>,
    at: nat,
    s: ScanSettings,
    r: Result<(), ScanError>,
    out: Seq<u8>,
    end: nat,
)
    requires
        protocol::drain_walk(
            log,
            at,
            protocol::line_request_len(s),
            s.rows() as nat,
            0,
            Seq::empty(),
        ) == Some(((r, out), end)),
    ensures
        is_drain(log, at, end, s, r, out),
        s.line_len() <= u32::MAX ==> protocol::line_request_len(s) == s.line_len(),
{
    s.lemma_grid_pitch();
    s.lemma_line_len();
    let len = protocol::line_request_len(s);
    lemma_drained_well(log, at, len, s.rows() as nat, 0, Seq::empty(), r, out, end);
    assert(Seq::<u8>::empty() + data_read(log, at, end) =~= data_read(log, at, end));
}

/// Vain tries for a line, as many as are left, end the drain.
proof fn lemma_idle_ends(
    log: Seq<Event>,
    at: nat,
    len: u32,
    lines: nat,
    idle: nat,
    stream: Seq<u8>,
    end: nat,
)
    requires
        0 < lines,
        idle < super::scan::IMAGE_IDLE_ATTEMPTS,
        idle_tries(log, at, len, (super::scan::IMAGE_IDLE_ATTEMPTS - idle) as nat) == Some(end),
    ensures
        protocol::drain_walk(log, at, len, lines, idle, stream) == Some(
            (
                (
                    Err::<(), ScanError>(
                        ScanError::ScanNotReady(super::scan::IMAGE_IDLE_ATTEMPTS),
                    ),
                    stream,
                ),
                end,
            ),
        ),
    decreases super::scan::IMAGE_IDLE_ATTEMPTS - idle,
{
    if idle + 1 < super::scan::IMAGE_IDLE_ATTEMPTS {
        match idle_try(log, at, len) {
            Some(next) => {
                lemma_idle_ends(log, next + 1, len, lines, idle + 1, stream, end);
            },
            None => {},
        }
    }
}

/// A line that was gained takes the drain to the next line.
proof fn lemma_line_gained(
    log: Seq<Event>,
    at: nat,
    len: u32,
    lines: nat,
    idle: nat,
    stream: Seq<u8>,
    p: nat,
)
    requires
        0 < lines,
        idle < super::scan::IMAGE_IDLE_ATTEMPTS,
        line_gained(log, at, len, (super::scan::IMAGE_IDLE_ATTEMPTS - idle) as nat) == Some(p),
    ensures
        at <= p,
        protocol::drain_walk(log, at, len, lines, idle, stream) == protocol::drain_walk(
            log,
            p,
            len,
            (lines - 1) as nat,
            0,
            stream + data_read(log, at, p),
        ),
    decreases super::scan::IMAGE_IDLE_ATTEMPTS - idle,
{
    reveal_with_fuel(data_read, 4);
    match good_try(log, at, len) {
        Some(next) => {
            let data = scsi::reply_at(log, at as int + 1).data;
            assert(data + Seq::<u8>::empty() =~= data);
        },
        None => match idle_try(log, at, len) {
            Some(next) => {
                lemma_line_gained(log, next + 1, len, lines, idle + 1, stream, p);
            },
            None => {},
        },
    }
}

/// What was read from `from` up to `to` was read up to any position between, and then from it.
proof fn lemma_data_splits(log: Seq<Event>, from: nat, mid: nat, to: nat)
    requires
        from <= mid <= to,
    ensures
        data_read(log, from, to) == data_read(log, from, mid) + data_read(log, mid, to),
    decreases mid - from,
{
    if from < mid {
        lemma_data_splits(log, from + 1, mid, to);
        let (a, b) = (data_read(log, from + 1, mid), data_read(log, mid, to));
        if is_line(log[from as int]) {
            let own = scsi::reply_at(log, from as int).data;
            assert(own + (a + b) =~= own + a + b);
        }
    } else {
        assert(Seq::<u8>::empty() + data_read(log, mid, to) =~= data_read(log, mid, to));
    }
}

/// Where some lines were gained and then all the tries that are allowed for the next one were in
/// vain, the scanner is given up on with their count, and what was read up to then is kept.
pub proof fn lemma_idle_line_gives_up(
    log: Seq<Event>,
    at: nat,
    len: u32,
    lines: nat,
    k: nat,
    stream: Seq<u8>,
    p: nat,
    end: nat,
)
    requires
        k < lines,
        lines_gained(log, at, len, k) == Some(p),
        idle_tries(log, p, len, super::scan::IMAGE_IDLE_ATTEMPTS as nat) == Some(end),
    ensures
        at <= p,
        protocol::drain_walk(log, at, len, lines, 0, stream) == Some(
            (
                (
                    Err::<(), ScanError>(
                        ScanError::ScanNotReady(super::scan::IMAGE_IDLE_ATTEMPTS),
                    ),
                    stream + data_read(log, at, p),
                ),
                end,
            ),
        ),
    decreases k,
{
    if k == 0 {
        lemma_idle_ends(log, at, len, lines, 0, stream, end);
        assert(stream + data_read(log, at, p) =~= stream);
    } else {
        match line_gained(log, at, len, super::scan::IMAGE_IDLE_ATTEMPTS as nat) {
            Some(next) => {
                lemma_line_gained(log, at, len, lines, 0, stream, next);
                let more = stream + data_read(log, at, next);
                lemma_idle_line_gives_up(
                    log,
                    next,
                    len,
                    (lines - 1) as nat,
                    (k - 1) as nat,
                    more,
                    p,
                    end,
                );
                lemma_data_splits(log, at, next, p);
                assert(more + data_read(log, next, p) =~= stream + data_read(log, at, p));
            },
            None => {},
        }
    }
}

/// Asking for the state, the adapter, its geometry, the identity or the adapter's pages moves
/// nothing.
pub proof fn lemma_questions_move_nothing(log: Seq<Event>, at: nat)
    ensures
        protocol::status_walk(log, at) is Some ==> !can_move(log[at as int]),
        protocol::holder_walk(log, at) is Some ==> !can_move(log[at as int]),
        protocol::caps_walk(log, at) is Some ==> !can_move(log[at as int]),
        protocol::inquiry_walk(log, at) is Some ==> !can_move(log[at as int]),
        protocol::probe_walk(log, at) matches Some((_, end)) ==> forall|i: int|
            at <= i < end ==> !can_move(#[trigger] log[i]),
{
    let asked = protocol::probe_requests();
    if protocol::all_sent(log, at, asked) {
        assert forall|i: int| at <= i < at + 6 implies !can_move(#[trigger] log[i]) by {
            let k = i - at;
            assert(scsi::reply_to(log, (at + k) as nat, asked[k]) is Some);
            assert(asked[k].cdb[0] == 0x12);
        }
    }
}

/// A window that a device hands back as it was set reads as the exposure that was set, and as 0
/// for a channel without one.
pub proof fn lemma_exposure_reads_back(
    s: ScanSettings,
    channel: u8,
    exposure: Option<u32>,
    y_offset: u32,
    ae: bool,
)
    ensures
        protocol::window_payload(s, channel, exposure, y_offset, ae).len() == 58,
        protocol::exposure_in(protocol::window_payload(s, channel, exposure, y_offset, ae))
            == Ok::<u32, ScsiError>(
            match exposure {
                Some(exposure) => exposure,
                None => 0,
            },
        ),
{
    let payload = protocol::window_payload(s, channel, exposure, y_offset, ae);
    assert(payload[6] == 0 && payload[7] == 50);
    let v = match exposure {
        Some(exposure) => exposure,
        None => 0,
    };
    bytes::lemma_be32_round_trip(v);
    let field = bytes::be32_bytes(v);
    assert(payload[54] == field[0] && payload[55] == field[1] && payload[56] == field[2]
        && payload[57] == field[3]);
}

/// Asking a device for the exposure of a channel gives the exposure that the window was set
/// with, if the device hands the window back as it was set. What is asked for is the window of
/// that channel, 58 bytes of it.
pub proof fn lemma_exposure_is_what_was_set(
    log: Seq<Event>,
    at: nat,
    s: ScanSettings,
    channel: u8,
    exposure: Option<u32>,
    y_offset: u32,
    ae: bool,
)
    requires
        scsi::reply_to(log, at, protocol::get_window_request(true, channel)) matches Some(reply)
            && reply.outcome is Ok && reply.data == protocol::window_payload(
            s,
            channel,
            exposure,
            y_offset,
            ae,
        ),
    ensures
        protocol::get_window_request(true, channel).cdb == seq![
            0x25u8,
            0x01u8,
            0u8,
            0u8,
            0u8,
            channel,
            0u8,
            0u8,
            58u8,
            0u8,
        ],
        protocol::exposure_walk(log, at, channel) == Some(
            (
                Ok::<u32, ScanError>(
                    match exposure {
                        Some(exposure) => exposure,
                        None => 0,
                    },
                ),
                at + 1,
            ),
        ),
{
    lemma_exposure_reads_back(s, channel, exposure, y_offset, ae);
}

/// The descriptor in a SET WINDOW payload says what the settings ask for.
pub proof fn lemma_window_says_settings(
    s: ScanSettings,
    channel: u8,
    exposure: Option<u32>,
    y_offset: u32,
    ae: bool,
    d: WindowDescriptor,
)
    requires
        d.is_read_from(
            protocol::window_payload(s, channel, exposure, y_offset, ae).subrange(8, 58),
        ),
    ensures
        d.id == channel,
        !d.auto,
        d.x_resolution == s.grid_res(),
        d.y_resolution == s.grid_res(),
        d.x_upper_left == 0,
        d.y_upper_left == y_offset,
        d.width == s.native_columns(),
        d.length == s.native_rows(),
        d.composition == ImageCompositionCode::of_byte(0x05),
        d.bits_per_pixel == 14,
        d.vendor@.len() == 10,
        d.vendor@[2] == protocol::scan_mode(s.samples, ae),
{
    let payload = protocol::window_payload(s, channel, exposure, y_offset, ae);
    let b = payload.subrange(8, 58);
    s.lemma_native_dims();
    bytes::lemma_be16_round_trip(s.grid_res());
    bytes::lemma_be32_round_trip(y_offset);
    bytes::lemma_be32_round_trip(s.native_columns() as u32);
    bytes::lemma_be32_round_trip(s.native_rows() as u32);
    let res = bytes::be16_bytes(s.grid_res());
    assert(b[2] == res[0] && b[3] == res[1] && b[4] == res[0] && b[5] == res[1]);
    assert(b[6] == 0 && b[7] == 0 && b[8] == 0 && b[9] == 0);
    let y = bytes::be32_bytes(y_offset);
    assert(b[10] == y[0] && b[11] == y[1] && b[12] == y[2] && b[13] == y[3]);
    let w = bytes::be32_bytes(s.native_columns() as u32);
    assert(b[14] == w[0] && b[15] == w[1] && b[16] == w[2] && b[17] == w[3]);
    let h = bytes::be32_bytes(s.native_rows() as u32);
    assert(b[18] == h[0] && b[19] == h[1] && b[20] == h[2] && b[21] == h[3]);
    assert(b[25] == 0x05 && b[26] == 0x0E);
    assert(b[42] == protocol::scan_mode(s.samples, ae));
}

/// The bounds of all frames of a strip take 16 bytes per frame, and those of frame `i` stand at
/// offset `16 * i`.
pub(super) proof fn lemma_strip_bounds(native_x: int, n: nat, subframe: int, i: int)
    ensures
        protocol::strip_bounds(native_x, n, subframe).len() == 16 * n,
        0 <= i < n ==> protocol::strip_bounds(native_x, n, subframe).subrange(16 * i, 16 * i + 16)
            == protocol::frame_bounds(native_x, i, subframe),
    decreases n,
{
    if n > 0 {
        lemma_strip_bounds(native_x, (n - 1) as nat, subframe, i);
        let all = protocol::strip_bounds(native_x, n, subframe);
        let before = protocol::strip_bounds(native_x, (n - 1) as nat, subframe);
        let last = protocol::frame_bounds(native_x, n - 1, subframe);
        assert(last.len() == 16);
        if i == n - 1 {
            assert(all.subrange(16 * i, 16 * i + 16) =~= last);
        } else if 0 <= i < n {
            assert(all.subrange(16 * i, 16 * i + 16) =~= before.subrange(16 * i, 16 * i + 16));
        }
    }
}

/// The header of the declaration of a strip says how long the declaration is.
proof fn lemma_boundary_header(native_x: int, n: nat, subframe: int)
    requires
        4 + 16 * n < 0x1_0000,
    ensures
        bytes::be16_at(protocol::boundary_payload(native_x, n, subframe), 0) == 4 + 16 * n,
{
    let payload = protocol::boundary_payload(native_x, n, subframe);
    let len = bytes::be16_bytes((4 + 16 * n) as u16);
    bytes::lemma_be16_round_trip((4 + 16 * n) as u16);
    assert(payload[0] == len[0] && payload[1] == len[1]);
}

/// The declaration of a strip is as long as it says, and frame `i` of it covers the rows from
/// `i` pitches on up to the row before the next frame, and all columns.
pub proof fn lemma_boundary_layout(native_x: int, n: nat, subframe: int, i: int)
    requires
        0 <= i < n,
        1 <= native_x <= u32::MAX,
        0 <= subframe,
        protocol::frame_start(n as int, subframe) - 1 <= u32::MAX,
    ensures
        ({
            let payload = protocol::boundary_payload(native_x, n, subframe);
            let at = 4 + 16 * i;
            &&& payload.len() == 4 + 16 * n
            &&& 4 + 16 * n < 0x1_0000 ==> bytes::be16_at(payload, 0) == payload.len()
            &&& bytes::be32_at(payload, at) == protocol::frame_start(i, subframe)
            &&& bytes::be32_at(payload, at + 4) == 0
            &&& bytes::be32_at(payload, at + 8) == protocol::frame_start(i + 1, subframe) - 1
            &&& bytes::be32_at(payload, at + 12) == native_x - 1
        }),
{
    lemma_strip_bounds(native_x, n, subframe, i);
    assert(protocol::frame_start(i + 1, subframe) - 1 <= u32::MAX) by {
        protocol::lemma_frame_pitch();
        let pitch = protocol::frame_pitch();
        assert((i + 1) * pitch <= n * pitch) by (nonlinear_arith)
            requires
                i + 1 <= n,
                0 <= pitch,
        ;
    }
    lemma_frame_bounds(native_x, i, subframe);
    let header = protocol::boundary_header(n);
    assert(header.len() == 4);
    lemma_words_in(
        header,
        protocol::strip_bounds(native_x, n, subframe),
        i,
        protocol::frame_bounds(native_x, i, subframe),
    );
    if 4 + 16 * n < 0x1_0000 {
        lemma_boundary_header(native_x, n, subframe);
    }
}

/// The four words of a frame's bounds.
proof fn lemma_frame_bounds(native_x: int, i: int, subframe: int)
    requires
        0 <= i,
        1 <= native_x <= u32::MAX,
        0 <= subframe,
        protocol::frame_start(i + 1, subframe) - 1 <= u32::MAX,
    ensures
        ({
            let own = protocol::frame_bounds(native_x, i, subframe);
            &&& own.len() == 16
            &&& bytes::be32_at(own, 0) == protocol::frame_start(i, subframe)
            &&& bytes::be32_at(own, 4) == 0
            &&& bytes::be32_at(own, 8) == protocol::frame_start(i + 1, subframe) - 1
            &&& bytes::be32_at(own, 12) == native_x - 1
        }),
{
    let own = protocol::frame_bounds(native_x, i, subframe);
    protocol::lemma_frame_pitch();
    let start = protocol::frame_start(i, subframe);
    let first = bytes::be32_bytes(start as u32);
    let zero = bytes::be32_bytes(0);
    let last = bytes::be32_bytes((start + 5984 - 1) as u32);
    let right = bytes::be32_bytes((native_x - 1) as u32);
    bytes::lemma_be32_round_trip(start as u32);
    bytes::lemma_be32_round_trip((start + 5984 - 1) as u32);
    bytes::lemma_be32_round_trip((native_x - 1) as u32);
    assert(own == first + zero + last + right);
    assert(own[0] == first[0] && own[1] == first[1] && own[2] == first[2] && own[3] == first[3]);
    assert(own[4] == 0 && own[5] == 0 && own[6] == 0 && own[7] == 0);
    assert(own[8] == last[0] && own[9] == last[1] && own[10] == last[2] && own[11] == last[3]);
    assert(own[12] == right[0] && own[13] == right[1] && own[14] == right[2] && own[15]
        == right[3]);
}

/// Four words that stand behind a header and `i` groups of four words read there as they read
/// on their own.
proof fn lemma_words_in(header: Seq<u8>, groups: Seq<u8>, i: int, own: Seq<u8>)
    requires
        header.len() == 4,
        0 <= i,
        16 * i + 16 <= groups.len(),
        own.len() == 16,
        groups.subrange(16 * i, 16 * i + 16) == own,
    ensures
        ({
            let all = header + groups;
            let at = 4 + 16 * i;
            &&& bytes::be32_at(all, at) == bytes::be32_at(own, 0)
            &&& bytes::be32_at(all, at + 4) == bytes::be32_at(own, 4)
            &&& bytes::be32_at(all, at + 8) == bytes::be32_at(own, 8)
            &&& bytes::be32_at(all, at + 12) == bytes::be32_at(own, 12)
        }),
{
    let all = header + groups;
    let at = 4 + 16 * i;
    assert forall|j: int| 0 <= j < 16 implies #[trigger] own[j] == all[at + j] by {
        assert(own[j] == groups[16 * i + j]);
    }
    assert(own[0] == all[at + 0] && own[1] == all[at + 1] && own[2] == all[at + 2] && own[3]
        == all[at + 3]);
    assert(own[4] == all[at + 4] && own[5] == all[at + 5] && own[6] == all[at + 6] && own[7]
        == all[at + 7]);
    assert(own[8] == all[at + 8] && own[9] == all[at + 9] && own[10] == all[at + 10] && own[11]
        == all[at + 11]);
    assert(own[12] == all[at + 12] && own[13] == all[at + 13] && own[14] == all[at + 14]
        && own[15] == all[at + 15]);
}

/// The gamma table maps every 14-bit value to itself.
pub proof fn lemma_lut_is_identity(v: int)
    requires
        0 <= v < 16384,
    ensures
        bytes::be16_at(protocol::identity_lut(), 2 * v) == v,
{
    assert((2 * v) / 2 == v && (2 * v) % 2 == 0);
    assert((2 * v + 1) / 2 == v && (2 * v + 1) % 2 == 1);
}

/// No two sense triples stand for the same state.
pub proof fn lemma_states_have_one_sense(a: SenseData, b: SenseData)
    requires
        Status::of_sense(a) is Some,
        Status::of_sense(a) == Status::of_sense(b),
    ensures
        a.key == b.key,
        a.asc == b.asc,
        a.ascq == b.ascq,
{
}

/// GOOD is the only outcome of TEST UNIT READY that counts as ready.
pub proof fn lemma_only_good_is_ready(outcome: Result<(), ScsiError>)
    ensures
        Status::of_outcome(outcome) == Ok::<Status, ScsiError>(Status::Ready) <==> outcome is Ok,
{
}

/// Which adapter is loaded depends on which pages are listed, not on their order or on how
/// often they are.
pub proof fn lemma_holder_ignores_order(page_code: u8, a: Seq<u8>, b: Seq<u8>)
    requires
        forall|code: u8| a.contains(code) <==> b.contains(code),
    ensures
        Holder::of_pages(page_code, a) == Holder::of_pages(page_code, b),
{
}

/// Whether the bytes of `a` and `b` agree wherever a sample of a whole line stands.
pub open spec fn samples_agree(layout: PlanarLayout, a: Seq<u8>, b: Seq<u8>) -> bool {
    let stride = layout.stride as int;
    let width = layout.width as int;
    forall|y: int, c: int, x: int|
        0 <= y < decode::whole_lines(stride, a.len() as int) && 0 <= c < decode::decoded_planes(
            layout.n_colors as int,
        ) && 0 <= x < width ==> #[trigger] decode::planar_sample(width, stride, a, y, c, x)
            == decode::planar_sample(width, stride, b, y, c, x)
}

/// Padding is dropped: two streams of as many whole lines with the same samples decode to the
/// same frame, whatever stands in the padding of odd planes, behind the planes of a line, and
/// in a last line that is not whole.
pub proof fn lemma_padding_is_dropped(layout: PlanarLayout, a: Seq<u8>, b: Seq<u8>)
    requires
        decode::whole_lines(layout.stride as int, a.len() as int) == decode::whole_lines(
            layout.stride as int,
            b.len() as int,
        ),
        samples_agree(layout, a, b),
    ensures
        decode::planar_frame(layout, a) == decode::planar_frame(layout, b),
{
    let stride = layout.stride as int;
    let width = layout.width as int;
    let rows = decode::whole_lines(stride, a.len() as int);
    let (fa, fb) = (decode::planar_frame(layout, a), decode::planar_frame(layout, b));
    assert(0 <= rows) by {
        if stride > 0 {
            let len = a.len() as int;
            assert(0 <= len / stride) by (nonlinear_arith)
                requires
                    0 <= len,
                    0 < stride,
            ;
        }
    }
    assert forall|i: int| 0 <= i < fa.rgb.len() implies fa.rgb[i] == fb.rgb[i] by {
        lemma_row_of(width, rows, i / 3);
    }
    assert(fa.rgb =~= fb.rgb);
    if layout.n_colors == 4 {
        let (ia, ib) = (fa.ir->0, fb.ir->0);
        assert forall|i: int| 0 <= i < ia.len() implies ia[i] == ib[i] by {
            lemma_row_of(width, rows, i);
        }
        assert(ia =~= ib);
    }
    assert(fa =~= fb);
}

/// A place in `rows` rows of `width` samples has a row and a column.
proof fn lemma_row_of(width: int, rows: int, i: int)
    requires
        0 <= width,
        0 <= rows,
        0 <= i < width * rows,
    ensures
        0 <= i / width < rows,
        0 <= i % width < width,
{
    assert(0 < width) by (nonlinear_arith)
        requires
            0 <= i < width * rows,
            0 <= width,
            0 <= rows,
    ;
    assert(0 <= i / width < rows && 0 <= i % width < width) by (nonlinear_arith)
        requires
            0 < width,
            0 <= i < width * rows,
    ;
}

} // verus!
