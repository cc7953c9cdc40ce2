//! Why a scan fails: for every failure, the event on the link that is its reason.

use super::laws;
use super::protocol;
use super::runs;
use super::status::Status;
use super::wire;
use super::{ScanError, ScanSettings};
use crate::scanners::decode::Raster;
use crate::scsi;
use crate::scsi::{Error as ScsiError, Event, Request};
use vstd::prelude::*;

verus! {

/// Whether an outcome of TEST UNIT READY is a state, and no failure.
pub open spec fn is_state(outcome: Result<(), ScsiError>) -> bool {
    ||| outcome is Ok
    ||| runs::senses(outcome, 2, 0x04, 1)
    ||| runs::senses(outcome, 2, 0x04, 2)
    ||| runs::senses(outcome, 2, 0x3A, 0)
    ||| runs::senses(outcome, 2, 0x05, 0)
    ||| runs::senses(outcome, 6, 0x29, 0)
    ||| runs::senses(outcome, 6, 0x28, 0)
    ||| runs::senses(outcome, 6, 0x3F, 3)
}

/// Whether a command that ends with `err` stops a scan. While the scanner is prepared, a poll
/// does that finds no known state; after that, a gamma table that is refused, a window that is
/// not taken, and an exposure that is not answered. Commands that run on their own, SCAN and READ
/// only stop it if the link fails. What is only asked for or declared never does.
pub open spec fn stops(r: Request, err: ScsiError, preparing: bool) -> bool {
    let (op, sub) = (r.cdb[0], r.cdb[2]);
    if preparing {
        ||| op == 0x00 && !is_state(Err(err))
        ||| (op == 0x16 || op == 0x15 || op == 0x1D || op == 0xE0 && sub == 0x80 || op == 0xC1)
            && err !is Status
    } else {
        ||| (op == 0xE0 && (sub == 0xA0 || sub == 0xC1) || op == 0xC1 || op == 0x1B || op == 0x28)
            && err !is Status
        ||| op == 0x2A && sub == 0x03
        ||| op == 0x24 && !wire::is_taken(Err(err))
        ||| op == 0x25 && r.cdb[1] == 1
    }
}

/// Whether the command at position `i` failed with `err`, and stops a scan by it; an answer to
/// the question for an exposure whose descriptor is shorter than 40 bytes does as well.
pub open spec fn is_cause(log: Seq<Event>, i: int, err: ScsiError, preparing: bool) -> bool {
    wire::command_at(log, i) matches Some(r) && {
        ||| wire::outcome_at(log, i) == Err::<(), ScsiError>(err) && stops(r, err, preparing)
        ||| {
            &&& !preparing && r.cdb[0] == 0x25 && r.cdb[1] == 1
            &&& wire::outcome_at(log, i) is Ok
            &&& wire::half(wire::answer_at(log, i), 6) < 40
            &&& err is InvalidResponse
        }
    }
}

/// Whether 100 polls, each with its pause, end at position `i`, and none found the scanner ready.
pub open spec fn is_polled_out(log: Seq<Event>, i: int) -> bool {
    &&& 199 <= i < log.len()
    &&& forall|j: int| i - 200 < j <= i ==> #[trigger] runs::polls(log, j)
    &&& forall|j: int|
        i - 200 < j <= i ==> (#[trigger] wire::command_at(log, j) matches Some(r)
            ==> wire::outcome_at(log, j) is Err)
    &&& wire::command_at(log, i) is None
}

/// Whether 30 SCANs, each with its pause, end at position `i`, and all found the scanner busy.
pub open spec fn is_scanned_out(log: Seq<Event>, i: int) -> bool {
    &&& 59 <= i < log.len()
    &&& forall|j: int| i - 60 < j <= i ==> #[trigger] is_busy_scan(log, j)
    &&& wire::command_at(log, i) is None
}

/// Whether position `j` is a SCAN that found the scanner busy, or a pause of half a second.
pub open spec fn is_busy_scan(log: Seq<Event>, j: int) -> bool {
    match log[j] {
        Event::Exchange { request, reply } => request.cdb[0] == 0x1B && (reply.outcome matches Err(
            err,
        ) && err is Status),
        Event::Pause { millis } => millis == 500,
    }
}

/// Whether position `i` is a vain try for a line: a poll that did not find the scanner ready, or
/// a READ that found the line not there yet.
pub open spec fn is_idle(log: Seq<Event>, i: int) -> bool {
    let outcome = wire::outcome_at(log, i);
    ||| wire::sends(log, i, 0x00) && outcome is Err
    ||| wire::sends(log, i, 0x28) && (outcome matches Err(ScsiError::Status { sense: Some(sense), .. })
        && (sense.key == 2 || sense.key == 5 && sense.asc == 0x2C))
}

/// Whether what stands at position `i` is the reason for `err`.
pub open spec fn is_reason(log: Seq<Event>, i: int, err: ScanError, preparing: bool) -> bool {
    match err {
        ScanError::Scsi(cause) => is_cause(log, i, cause, preparing),
        ScanError::NotReady(Status::NoFilm) => preparing && wire::sends(log, i, 0x00)
            && runs::senses(wire::outcome_at(log, i), 2, 0x3A, 0),
        ScanError::NotReady(_) => preparing && is_polled_out(log, i),
        ScanError::ScanNotReady(n) => !preparing && (n == 30 && is_scanned_out(log, i) || n == 600
            && is_idle(log, i)),
        ScanError::NoData => false,
        ScanError::Decode(_) => false,
    }
}

/// Where a walk ends.
spec fn end_of<R>(told: protocol::Told<R>) -> nat {
    match told {
        Some((_, end)) => end,
        None => 0,
    }
}

/// Polling for a decisive state fails where a poll does, or when it was polled out; `run` polls
/// came before, in vain.
proof fn lemma_settling_fails(log: Seq<Event>, at: nat, tries: nat, err: ScanError, end: nat)
    requires
        protocol::wait_settled_walk(log, at, tries) == Some((Err::<Status, ScanError>(err), end)),
        tries <= 100,
        at >= 2 * (100 - tries),
        at <= log.len(),
        forall|j: int| at - 2 * (100 - tries) <= j < at ==> #[trigger] runs::polls(log, j),
        forall|j: int|
            at - 2 * (100 - tries) <= j < at ==> (#[trigger] wire::command_at(log, j) matches Some(r)
                ==> wire::outcome_at(log, j) is Err),
        tries < 100 ==> wire::command_at(log, at - 1) is None,
    ensures
        0 < end <= log.len(),
        at <= end,
        is_reason(log, end - 1, err, true),
    decreases tries,
{
    assert(protocol::test_request().cdb =~= seq![0u8, 0, 0, 0, 0, 0]);
    if tries > 0 {
        match protocol::status_walk(log, at) {
            Some((Ok(status), next)) => if !protocol::is_settled(status) {
                assert(runs::polls(log, at as int));
                assert(runs::polls(log, next as int));
                lemma_settling_fails(log, next + 1, (tries - 1) as nat, err, end);
            },
            _ => {},
        }
    }
}

/// Polling for readiness fails where a poll does, or when it was polled out.
proof fn lemma_readying_fails(
    log: Seq<Event>,
    at: nat,
    tries: nat,
    last: Status,
    err: ScanError,
    end: nat,
)
    requires
        protocol::wait_ready_walk(log, at, tries, last) matches Some((Err(e), next)) && e == err
            && next == end,
        tries <= 100,
        at >= 2 * (100 - tries),
        at <= log.len(),
        last != Status::NoFilm,
        forall|j: int| at - 2 * (100 - tries) <= j < at ==> #[trigger] runs::polls(log, j),
        forall|j: int|
            at - 2 * (100 - tries) <= j < at ==> (#[trigger] wire::command_at(log, j) matches Some(r)
                ==> wire::outcome_at(log, j) is Err),
        tries < 100 ==> wire::command_at(log, at - 1) is None,
    ensures
        0 < end <= log.len(),
        at <= end,
        is_reason(log, end - 1, err, true),
    decreases tries,
{
    assert(protocol::test_request().cdb =~= seq![0u8, 0, 0, 0, 0, 0]);
    if tries > 0 {
        match protocol::status_walk(log, at) {
            Some((Ok(status), next)) => if status != Status::Ready && status != Status::NoFilm {
                assert(runs::polls(log, at as int));
                assert(runs::polls(log, next as int));
                lemma_readying_fails(log, next + 1, (tries - 1) as nat, status, err, end);
            },
            _ => {},
        }
    }
}

/// Preparing fails where its last command does, or when it was polled out.
pub proof fn lemma_preparing_fails(log: Seq<Event>, at: nat, err: ScanError, end: nat)
    requires
        protocol::prepare_walk(log, at) matches Some((Err(e), next)) && e == err && next == end,
        at <= log.len(),
    ensures
        0 < end <= log.len(),
        at <= end,
        is_reason(log, end - 1, err, true),
{
    reveal(protocol::prepare_walk);
    match protocol::settled_walk(log, at) {
        Some((Err(e), next)) => {
            lemma_settling_fails(log, at, 100, e, next);
        },
        Some((Ok(status), next)) => {
            runs::lemma_settled(log, at, super::scan::READY_ATTEMPTS as nat, status, next);
            if status != Status::NoFilm {
                lemma_initializing_fails(log, next, err, end);
            }
        },
        None => {},
    }
}

/// Claiming, probing and homing a scanner fails where its last command does, or when it was
/// polled out.
proof fn lemma_initializing_fails(log: Seq<Event>, at: nat, err: ScanError, end: nat)
    requires
        protocol::init_walk(log, at) matches Some((Err(e), next)) && e == err && next == end,
    ensures
        at < end <= log.len(),
        is_reason(log, end - 1, err, true),
{
    match protocol::holder_walk(log, at) {
        Some((holder, _)) => match protocol::trigger_walk(
            log,
            at + 1,
            protocol::reserve_request(),
        ) {
            Some((Ok(_), _)) => match protocol::trigger_walk(
                log,
                at + 8,
                protocol::mode_request(),
            ) {
                Some((Ok(_), _)) => {
                    if holder == Ok::<super::holder::Holder, ScsiError>(
                        super::holder::Holder::Feeder,
                    ) {
                        lemma_readying_fails(log, at + 9, 100, Status::Initializing, err, end);
                    } else {
                        match protocol::home_walk(log, at + 9) {
                            Some((Ok(_), _)) => {
                                lemma_readying_fails(
                                    log,
                                    at + 12,
                                    100,
                                    Status::Initializing,
                                    err,
                                    end,
                                );
                            },
                            _ => {},
                        }
                    }
                },
                _ => {},
            },
            _ => {},
        },
        None => {},
    }
}

/// Starting a scan fails where the link does, or when all SCANs found the scanner busy.
proof fn lemma_starting_fails(
    log: Seq<Event>,
    at: nat,
    channels: Seq<u8>,
    tries: nat,
    err: ScanError,
    end: nat,
)
    requires
        protocol::start_walk(log, at, channels, tries) matches Some((Err(e), next)) && e == err
            && next == end,
        tries <= 30,
        at >= 2 * (30 - tries),
        0 < at <= log.len(),
        forall|j: int| at - 2 * (30 - tries) <= j < at ==> #[trigger] is_busy_scan(log, j),
        tries < 30 ==> wire::command_at(log, at - 1) is None,
    ensures
        at <= end <= log.len(),
        is_reason(log, end - 1, err, false),
    decreases tries,
{
    if tries > 0 {
        match scsi::reply_to(log, at, protocol::scan_request(channels)) {
            Some(reply) => match reply.outcome {
                Err(ScsiError::Status { .. }) => {
                    assert(is_busy_scan(log, at as int));
                    assert(is_busy_scan(log, (at + 1) as int));
                    lemma_starting_fails(log, at + 2, channels, (tries - 1) as nat, err, end);
                },
                _ => {},
            },
            None => {},
        }
    }
}

/// Uploading tables fails where one is refused.
proof fn lemma_uploading_fails(
    log: Seq<Event>,
    at: nat,
    channels: Seq<u8>,
    k: nat,
    err: ScanError,
    end: nat,
)
    requires
        protocol::luts_walk(log, at, channels, k) matches Some((Err(e), next)) && e == err && next
            == end,
    ensures
        at < end <= log.len(),
        is_reason(log, end - 1, err, false),
    decreases channels.len() - k,
{
    if k < channels.len() {
        match scsi::reply_to(log, at, protocol::lut_request(channels[k as int])) {
            Some(reply) => if reply.outcome is Ok {
                lemma_uploading_fails(log, at + 1, channels, k + 1, err, end);
            },
            None => {},
        }
    }
}

/// Setting windows fails where one is not taken.
proof fn lemma_windowing_fails(
    log: Seq<Event>,
    at: nat,
    s: ScanSettings,
    exposure: Seq<u32>,
    y: int,
    ae: bool,
    k: nat,
    err: ScanError,
    end: nat,
)
    requires
        protocol::windows_walk(log, at, s, exposure, y, ae, k) matches Some((Err(e), next)) && e
            == err && next == end,
    ensures
        at < end <= log.len(),
        is_reason(log, end - 1, err, false),
    decreases protocol::channel_ids(s.infrared).len() - k,
{
    if k < protocol::channel_ids(s.infrared).len() {
        match scsi::reply_to(
            log,
            at,
            laws::window_request_of(s, exposure, y, ae, k as int),
        ) {
            Some(reply) => if protocol::window_accepted(reply.outcome) {
                lemma_windowing_fails(log, at + 1, s, exposure, y, ae, k + 1, err, end);
            },
            None => {},
        }
    }
}

/// Focusing fails where the link does.
proof fn lemma_focusing_fails(
    log: Seq<Event>,
    at: nat,
    s: ScanSettings,
    y: int,
    ae: bool,
    err: ScanError,
    end: nat,
)
    requires
        protocol::focus_walk(log, at, s, y, ae) matches Some((Err(e), next)) && e == err && next
            == end,
    ensures
        at < end <= log.len(),
        is_reason(log, end - 1, err, false),
{
}

/// Arming a pass fails where focusing, a table or a window does; that the strip is not accepted
/// does not matter.
proof fn lemma_arming_fails(
    log: Seq<Event>,
    at: nat,
    s: ScanSettings,
    n: nat,
    frame: int,
    subframe: int,
    exposure: Seq<u32>,
    ae: bool,
    err: ScanError,
    end: nat,
)
    requires
        protocol::arm_walk(log, at, s, n, frame, subframe, exposure, ae) matches Some((Err(e), next))
            && e == err && next == end,
    ensures
        at < end <= log.len(),
        is_reason(log, end - 1, err, false),
{
    reveal(protocol::arm_walk);
    let y = protocol::frame_start(frame, subframe);
    match protocol::focus_walk(log, at + 1, s, y, ae) {
        Some((Ok(_), tables)) => {
            laws::lemma_focusing_advances(log, at + 1, s, y, ae);
            let channels = if ae {
                Seq::<u8>::empty()
            } else {
                protocol::channel_ids(s.infrared)
            };
            match protocol::luts_walk(log, tables, channels, 0) {
                Some((Ok(_), windows)) => {
                    laws::lemma_luts_accepted(log, tables, channels, 0, windows);
                    match protocol::windows_walk(log, windows, s, exposure, y, ae, 0) {
                        Some((Err(e), last)) => {
                            lemma_windowing_fails(
                                log,
                                windows,
                                s,
                                exposure,
                                y,
                                ae,
                                0,
                                e,
                                last,
                            );
                        },
                        _ => {},
                    }
                },
                Some((Err(e), last)) => {
                    lemma_uploading_fails(log, tables, channels, 0, e, last);
                },
                None => {},
            }
        },
        Some((Err(e), last)) => {
            lemma_focusing_fails(log, at + 1, s, y, ae, e, last);
        },
        None => {},
    }
}

/// Reading an exposure fails where the question does, or its answer is too short.
proof fn lemma_asking_fails(log: Seq<Event>, at: nat, channel: u8, err: ScanError, end: nat)
    requires
        protocol::exposure_walk(log, at, channel) == Some((Err::<u32, ScanError>(err), end)),
    ensures
        at < end <= log.len(),
        is_reason(log, end - 1, err, false),
{
    wire::lemma_image_commands(false, 0, channel);
    wire::lemma_numbers(wire::answer_at(log, at as int), 6);
}

/// Finding the exposure fails where arming or starting the measurement does, or a question for
/// an exposure.
pub proof fn lemma_exposing_fails(
    log: Seq<Event>,
    at: nat,
    s: ScanSettings,
    n: nat,
    subframe: int,
    err: ScanError,
    end: nat,
)
    requires
        protocol::exposure_for_walk(log, at, s, n, 0, subframe) == Some(
            (Err::<Seq<u32>, ScanError>(err), end),
        ),
    ensures
        at < end <= log.len(),
        is_reason(log, end - 1, err, false),
{
    reveal(protocol::measure_walk);
    let t = protocol::measuring(s);
    let fixed = protocol::fixed_exposure();
    match protocol::arm_walk(log, at, t, n, 0, subframe, fixed, true) {
        Some((Err(e), last)) => {
            lemma_arming_fails(log, at, t, n, 0, subframe, fixed, true, e, last);
        },
        Some((Ok(_), armed)) => {
            lemma_arming_ends(log, at, t, n, 0, subframe, fixed, true, armed);
            let ids = protocol::channel_ids(false);
            match protocol::start_walk(log, armed, ids, 30) {
                Some((Err(e), last)) => {
                    lemma_starting_fails(log, armed, ids, 30, e, last);
                },
                Some((Ok(_), started)) => {
                    runs::lemma_started(log, armed, false, 30, started);
                    laws::lemma_readying_only_polls(
                        log,
                        started,
                        super::scan::READY_ATTEMPTS as nat,
                        Status::Initializing,
                    );
                    let ready = end_of(protocol::ready_walk(log, started));
                    match protocol::exposure_walk(log, ready, 1) {
                        Some((Err(e), last)) => {
                            lemma_asking_fails(log, ready, 1, e, last);
                        },
                        Some((Ok(_), next)) => match protocol::exposure_walk(log, next, 2) {
                            Some((Err(e), last)) => {
                                lemma_asking_fails(log, next, 2, e, last);
                            },
                            Some((Ok(_), next)) => {
                                lemma_asking_fails(log, next, 3, err, end);
                            },
                            None => {},
                        },
                        None => {},
                    }
                },
                None => {},
            }
        },
        None => {},
    }
}

/// An armed pass ends where it was armed.
proof fn lemma_arming_ends(
    log: Seq<Event>,
    at: nat,
    s: ScanSettings,
    n: nat,
    frame: int,
    subframe: int,
    exposure: Seq<u32>,
    ae: bool,
    end: nat,
)
    requires
        protocol::arm_walk(log, at, s, n, frame, subframe, exposure, ae) matches Some((Ok(_), next))
            && next == end,
    ensures
        at < end <= log.len(),
{
    reveal(protocol::arm_walk);
    let y = protocol::frame_start(frame, subframe);
    laws::lemma_focusing_advances(log, at + 1, s, y, ae);
    let ids = protocol::channel_ids(s.infrared);
    let channels = if ae {
        Seq::<u8>::empty()
    } else {
        ids
    };
    let tables = end_of(protocol::focus_walk(log, at + 1, s, y, ae));
    let windows = end_of(protocol::luts_walk(log, tables, channels, 0));
    laws::lemma_luts_accepted(log, tables, channels, 0, windows);
    let back = end_of(protocol::windows_walk(log, windows, s, exposure, y, ae, 0));
    laws::lemma_windows_accepted(log, windows, s, exposure, y, ae, 0, back);
    runs::lemma_read_back_is_quiet(log, back, ids.len());
}

/// Reading the image fails where the link does, or when all tries for a line were in vain.
proof fn lemma_draining_fails(
    log: Seq<Event>,
    at: nat,
    len: u32,
    lines: nat,
    idle: nat,
    stream: Seq<u8>,
    err: ScanError,
    end: nat,
)
    requires
        protocol::drain_walk(log, at, len, lines, idle, stream) matches Some(((Err(e), _), next))
            && e == err && next == end,
        idle < 600,
    ensures
        at < end <= log.len(),
        is_reason(log, end - 1, err, false),
    decreases lines, 600 - idle,
{
    if lines > 0 {
        match protocol::status_walk(log, at) {
            None => {},
            Some((status, _)) => if status != Ok::<Status, ScsiError>(Status::Ready) {
                if idle + 1 < 600 {
                    lemma_draining_fails(log, at + 2, len, lines, idle + 1, stream, err, end);
                }
            } else {
                match scsi::reply_to(log, at + 1, protocol::read_request(len)) {
                    None => {},
                    Some(reply) => match reply.outcome {
                        Ok(_) => {
                            lemma_draining_fails(
                                log,
                                at + 2,
                                len,
                                (lines - 1) as nat,
                                0,
                                stream + reply.data,
                                err,
                                end,
                            );
                        },
                        Err(e) => if protocol::line_pending(e) && idle + 1 < 600 {
                            lemma_draining_fails(
                                log,
                                at + 3,
                                len,
                                lines,
                                idle + 1,
                                stream,
                                err,
                                end,
                            );
                        },
                    },
                }
            },
        }
    }
}

/// A pass fails where arming it, starting it or reading its image does.
pub proof fn lemma_driving_fails(
    log: Seq<Event>,
    at: nat,
    s: ScanSettings,
    n: nat,
    frame: int,
    subframe: int,
    exposure: Seq<u32>,
    err: ScanError,
    end: nat,
)
    requires
        protocol::drive_walk(log, at, s, n, frame, subframe, exposure) matches Some(
            ((Err(e), _), next),
        ) && e == err && next == end,
    ensures
        at < end <= log.len(),
        is_reason(log, end - 1, err, false),
{
    reveal(protocol::drive_walk);
    match protocol::arm_walk(log, at, s, n, frame, subframe, exposure, false) {
        Some((Err(e), last)) => {
            lemma_arming_fails(log, at, s, n, frame, subframe, exposure, false, e, last);
        },
        Some((Ok(_), armed)) => {
            lemma_arming_ends(log, at, s, n, frame, subframe, exposure, false, armed);
            let ids = protocol::channel_ids(s.infrared);
            match protocol::start_walk(log, armed, ids, 30) {
                Some((Err(e), last)) => {
                    lemma_starting_fails(log, armed, ids, 30, e, last);
                },
                Some((Ok(_), started)) => {
                    runs::lemma_started(log, armed, s.infrared, 30, started);
                    lemma_draining_fails(
                        log,
                        started,
                        protocol::line_request_len(s),
                        s.rows() as nat,
                        0,
                        Seq::empty(),
                        err,
                        end,
                    );
                },
                None => {},
            }
        },
        None => {},
    }
}

/// Whether a pass that ends at position `end` read less than one line.
pub open spec fn is_blank(log: Seq<Event>, from: nat, end: nat, s: ScanSettings) -> bool {
    exists|p: runs::Pass|
        from <= p.declared && p.end == end && #[trigger] runs::is_read_out(log, p, s)
            && is_blank_pass(log, p, s)
}

/// Whether a pass read less than one line.
pub open spec fn is_blank_pass(log: Seq<Event>, p: runs::Pass, s: ScanSettings) -> bool {
    s.line_len() == 0 || laws::data_read(log, p.declared, p.end).len() < s.line_len()
}

/// Whether a scan between the positions `at` and `end` failed with `err` for a reason. Either it
/// was not prepared, the reason is the last thing that happened, and no strip was declared; or it
/// was given back at the end, and the reason is the last thing before that: a command that failed,
/// or a pass without a line.
pub open spec fn fails_for_a_reason(
    log: Seq<Event>,
    at: nat,
    end: nat,
    s: ScanSettings,
    err: ScanError,
) -> bool {
    ||| {
        &&& at < end <= log.len()
        &&& is_reason(log, end - 1, err, true)
        &&& forall|i: int|
            at <= i < end ==> (#[trigger] wire::command_at(log, i) matches Some(r) ==> r.cdb[0]
                != 0x2A && r.cdb[0] != 0x17)
    }
    ||| {
        &&& at + 1 < end <= log.len()
        &&& runs::sends_cdb(log, end - 1, seq![0x17u8, 0, 0, 0, 0, 0])
        &&& is_reason(log, end - 2, err, false) || err == ScanError::NoData && is_blank(
            log,
            at,
            (end - 1) as nat,
            s,
        )
    }
}

/// Whether a preparation that failed declared no strip, and did not give the scanner back.
proof fn lemma_unprepared(log: Seq<Event>, at: nat, s: ScanSettings, err: ScanError, end: nat)
    requires
        protocol::prepare_walk(log, at) matches Some((Err(e), next)) && e == err && next == end,
        at <= log.len(),
    ensures
        fails_for_a_reason(log, at, end, s, err),
{
    lemma_preparing_fails(log, at, err, end);
    let ok = |r: Request| r.cdb[0] != 0x2A && r.cdb[0] != 0x17;
    laws::lemma_prepare_sends(log, at, ok);
    lemma_preparing_starts(log, at, err, end);
    assert forall|i: int| at <= i < end implies (#[trigger] wire::command_at(log, i) matches Some(r)
        ==> r.cdb[0] != 0x2A && r.cdb[0] != 0x17) by {
        assert(log[i] matches Event::Exchange { request, .. } ==> ok(request));
    }
}

/// Preparing takes at least one event.
proof fn lemma_preparing_starts(log: Seq<Event>, at: nat, err: ScanError, end: nat)
    requires
        protocol::prepare_walk(log, at) matches Some((Err(e), next)) && e == err && next == end,
        at <= log.len(),
    ensures
        at < end,
{
    reveal(protocol::prepare_walk);
    super::answers::lemma_settling_polls(log, at, super::scan::READY_ATTEMPTS as nat);
    match protocol::settled_walk(log, at) {
        Some((Ok(status), next)) => if status != Status::NoFilm {
            lemma_initializing_fails(log, next, err, end);
        },
        _ => {},
    }
}

/// A pass whose bytes hold no line is blank.
proof fn lemma_no_data(
    log: Seq<Event>,
    from: nat,
    at: nat,
    s: ScanSettings,
    n: nat,
    frame: int,
    subframe: int,
    exposure: Seq<u32>,
    stream: Seq<u8>,
    err: ScanError,
    end: nat,
)
    requires
        protocol::drive_walk(log, at, s, n, frame, subframe, exposure) matches Some(
            ((Ok(_), out), next),
        ) && out == stream && next == end,
        protocol::frame_in(s, stream) == Err::<Raster, ScanError>(err),
        exposure.len() == 3,
        runs::places_fit(s, n as int, frame, subframe),
        from <= at,
    ensures
        at < end <= log.len(),
        err == ScanError::NoData,
        is_blank(log, from, end, s),
{
    reveal(runs::is_pass);
    let p = runs::lemma_image_pass(log, at, s, n, frame, subframe, exposure, stream, end);
    runs::lemma_picture(s, stream);
    s.lemma_line_len();
    assert(is_blank_pass(log, p, s));
}

/// The frames of a strip fail where a pass does, or has no line.
proof fn lemma_frames_fail(
    log: Seq<Event>,
    from: nat,
    at: nat,
    s: ScanSettings,
    n: nat,
    subframe: int,
    exposure: Seq<u32>,
    f: nat,
    done: Seq<Raster>,
    err: ScanError,
    end: nat,
)
    requires
        protocol::frames_walk(log, at, s, n, n, subframe, exposure, f, done) == Some(
            (Err::<Seq<Raster>, ScanError>(err), end),
        ),
        f <= n,
        exposure.len() == 3,
        runs::strip_places_fit(s, n as int, subframe),
        from <= at,
    ensures
        at < end <= log.len(),
        is_reason(log, end - 1, err, false) || err == ScanError::NoData && is_blank(
            log,
            from,
            end,
            s,
        ),
    decreases n - f,
{
    reveal(runs::is_pass);
    if f < n {
        match protocol::drive_walk(log, at, s, n, f as int, subframe, exposure) {
            Some(((Err(e), _), last)) => {
                lemma_driving_fails(log, at, s, n, f as int, subframe, exposure, e, last);
            },
            Some(((Ok(_), stream), next)) => match protocol::frame_in(s, stream) {
                Err(e) => {
                    lemma_no_data(
                        log,
                        from,
                        at,
                        s,
                        n,
                        f as int,
                        subframe,
                        exposure,
                        stream,
                        e,
                        next,
                    );
                },
                Ok(frame) => {
                    let p = runs::lemma_image_pass(
                        log,
                        at,
                        s,
                        n,
                        f as int,
                        subframe,
                        exposure,
                        stream,
                        next,
                    );
                    lemma_frames_fail(
                        log,
                        from,
                        next,
                        s,
                        n,
                        subframe,
                        exposure,
                        f + 1,
                        done.push(frame),
                        err,
                        end,
                    );
                },
            },
            None => {},
        }
    }
}

/// A scan of a strip fails only for a reason.
pub proof fn lemma_strip_fails_for_a_reason(
    log: Seq<Event>,
    at: nat,
    s: ScanSettings,
    n: nat,
    subframe: int,
    err: ScanError,
    end: nat,
)
    requires
        protocol::strip_walk(log, at, s, n, subframe) == Some(
            (Err::<Seq<Raster>, ScanError>(err), end),
        ),
        runs::strip_places_fit(s, n as int, subframe),
        at <= log.len(),
    ensures
        fails_for_a_reason(log, at, end, s, err),
{
    assert(protocol::release_request().cdb =~= seq![0x17u8, 0, 0, 0, 0, 0]);
    match protocol::prepare_walk(log, at) {
        Some((Err(e), last)) => {
            lemma_unprepared(log, at, s, e, last);
        },
        Some((Ok(_), prepared)) => {
            runs::lemma_preparing_advances(log, at, prepared);
            match protocol::exposure_for_walk(log, prepared, s, n, 0, subframe) {
                Some((Err(e), last)) => {
                    lemma_exposing_fails(log, prepared, s, n, subframe, e, last);
                },
                Some((Ok(exposure), exposed)) => {
                    let m = runs::lemma_exposure(log, prepared, s, n, subframe, exposure, exposed);
                    runs::lemma_exposure_len(
                        log,
                        m,
                        prepared,
                        exposed,
                        s,
                        n as int,
                        subframe,
                        exposure,
                    );
                    lemma_frames_fail(
                        log,
                        at,
                        exposed,
                        s,
                        n,
                        subframe,
                        exposure,
                        0,
                        Seq::empty(),
                        err,
                        (end - 1) as nat,
                    );
                },
                None => {},
            }
        },
        None => {},
    }
}

/// A scan of one frame fails only for a reason.
pub proof fn lemma_scan_fails_for_a_reason(
    log: Seq<Event>,
    at: nat,
    s: ScanSettings,
    subframe: int,
    err: ScanError,
    end: nat,
)
    requires
        protocol::scan_walk(log, at, s, subframe) == Some((Err::<Raster, ScanError>(err), end)),
        runs::strip_places_fit(s, 1, subframe),
        at <= log.len(),
    ensures
        fails_for_a_reason(log, at, end, s, err),
{
    assert(protocol::release_request().cdb =~= seq![0x17u8, 0, 0, 0, 0, 0]);
    match protocol::prepare_walk(log, at) {
        Some((Err(e), last)) => {
            lemma_unprepared(log, at, s, e, last);
        },
        Some((Ok(_), prepared)) => {
            runs::lemma_preparing_advances(log, at, prepared);
            match protocol::exposure_for_walk(log, prepared, s, 1, 0, subframe) {
                Some((Err(e), last)) => {
                    lemma_exposing_fails(log, prepared, s, 1, subframe, e, last);
                },
                Some((Ok(exposure), exposed)) => {
                    let m = runs::lemma_exposure(log, prepared, s, 1, subframe, exposure, exposed);
                    runs::lemma_exposure_len(log, m, prepared, exposed, s, 1, subframe, exposure);
                    match protocol::drive_walk(log, exposed, s, 1, 0, subframe, exposure) {
                        Some(((Err(e), _), last)) => {
                            lemma_driving_fails(log, exposed, s, 1, 0, subframe, exposure, e, last);
                        },
                        Some(((Ok(_), stream), last)) => {
                            lemma_no_data(
                                log,
                                at,
                                exposed,
                                s,
                                1,
                                0,
                                subframe,
                                exposure,
                                stream,
                                err,
                                last,
                            );
                        },
                        None => {},
                    }
                },
                None => {},
            }
        },
        None => {},
    }
}

} // verus!
