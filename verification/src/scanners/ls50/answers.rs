//! What the LS-50's answers say, read off their bytes.

use super::holder::Holder;
use super::protocol;
use super::protocol::Identity;
use super::runs;
use super::status::Status;
use super::wire;
use super::{AdapterCaps, ScanError};
use crate::scsi;
use crate::scsi::cdbs;
use crate::scsi::{Error as ScsiError, Event};
use crate::text;
use vstd::prelude::*;

verus! {

/// How many bytes of a page an answer holds: those that it counts, as far as they arrived.
pub open spec fn page_len(answer: Seq<u8>) -> int {
    if 4 + answer[3] <= answer.len() {
        answer[3] as int
    } else {
        answer.len() - 4
    }
}

/// Asking for the adapter's geometry asks for page 0xC1. Of the answer, frames stand at byte 75,
/// the resolution at bytes 42 and 43, and the boundaries, which are one past the last dot, at
/// bytes 36 to 39 and 58 to 61; what is missing or zero is 4000 dots per inch and 3945 by 5958
/// dots, and without an answer all of it is.
pub proof fn lemma_geometry(log: Seq<Event>, at: nat, caps: AdapterCaps, end: nat)
    requires
        protocol::caps_walk(log, at) == Some((caps, end)),
        scsi::answers_fit(log),
    ensures
        end == at + 1,
        runs::sends_cdb(log, at as int, seq![0x12u8, 1, 0xC1, 0, 87, 0]),
        ({
            let answer = wire::answer_at(log, at as int);
            let n = page_len(answer);
            let good = wire::outcome_at(log, at as int) is Ok;
            &&& caps.n_frames == if good && 72 <= n {
                answer[75] as int
            } else {
                0
            }
            &&& caps.base_res == if good && 40 <= n && wire::half(answer, 42) > 0 {
                wire::half(answer, 42)
            } else {
                4000
            }
            &&& caps.native_x == if good && 36 <= n && wire::word(answer, 36) > 0 {
                wire::word(answer, 36) - 1
            } else {
                3945
            }
            &&& caps.native_y == if good && 58 <= n && wire::word(answer, 58) > 0 {
                wire::word(answer, 58) - 1
            } else {
                5958
            }
        }),
{
    reveal(scsi::answers_fit);
    let asked = protocol::vpd_request(0xC1, 87);
    assert(asked.cdb =~= seq![0x12u8, 1, 0xC1, 0, 87, 0]);
    assert(log[at as int] matches Event::Exchange { request, .. } && request == asked);
    let answer = wire::answer_at(log, at as int);
    assert(answer.len() == 87);
    let page = cdbs::inquiry::vpd_data(answer);
    assert(page.len() == page_len(answer));
    wire::lemma_numbers(page, 38);
    wire::lemma_numbers(page, 32);
    wire::lemma_numbers(page, 54);
}

/// Whether `text` is what a field holds: its bytes as characters, without the spaces after them.
pub open spec fn is_field(text: Seq<char>, field: Seq<u8>) -> bool {
    let n = text.len() as int;
    &&& n <= field.len()
    &&& forall|i: int| 0 <= i < n ==> text[i] as int == #[trigger] field[i]
    &&& forall|i: int| n <= i < field.len() ==> #[trigger] field[i] == 0x20
    &&& 0 < n ==> field[n - 1] != 0x20
}

/// A padded field is read without its padding.
pub proof fn lemma_field(field: Seq<u8>)
    ensures
        is_field(text::padded_field(field), field),
    decreases field.len(),
{
    if field.len() > 0 && field.last() == 0x20 {
        let rest = field.drop_last();
        lemma_field(rest);
        let out = text::padded_field(field);
        assert forall|i: int| 0 <= i < out.len() implies out[i] as int == #[trigger] field[i] by {
            assert(rest[i] == field[i]);
        }
        assert forall|i: int| out.len() <= i < field.len() implies #[trigger] field[i] == 0x20 by {
            if i < rest.len() {
                assert(rest[i] == field[i]);
            }
        }
        if 0 < out.len() {
            assert(rest[out.len() - 1] == field[out.len() - 1]);
        }
    }
}

/// Asking who the device is sends INQUIRY for 36 bytes; of the answer, the vendor stands at bytes
/// 8 to 15, the product at 16 to 31 and the revision at 32 to 35. A failure is passed on.
pub proof fn lemma_identity(
    log: Seq<Event>,
    at: nat,
    r: Result<Identity, ScsiError>,
    end: nat,
)
    requires
        protocol::inquiry_walk(log, at) == Some((r, end)),
    ensures
        end == at + 1,
        runs::sends_cdb(log, at as int, seq![0x12u8, 0, 0, 0, 36, 0]),
        match wire::outcome_at(log, at as int) {
            Ok(_) => r matches Ok(identity) && {
                let answer = wire::answer_at(log, at as int);
                &&& is_field(identity.vendor, answer.subrange(8, 16))
                &&& is_field(identity.product, answer.subrange(16, 32))
                &&& is_field(identity.revision, answer.subrange(32, 36))
            },
            Err(err) => r == Err::<Identity, ScsiError>(err),
        },
{
    assert(protocol::inquiry_request().cdb =~= seq![0x12u8, 0, 0, 0, 36, 0]);
    let answer = wire::answer_at(log, at as int);
    lemma_field(answer.subrange(8, 16));
    lemma_field(answer.subrange(16, 32));
    lemma_field(answer.subrange(32, 36));
}

/// Asking for the state sends TEST UNIT READY. GOOD is readiness, seven sense triples are states,
/// and everything else is passed on as the failure that it is.
pub proof fn lemma_state(log: Seq<Event>, at: nat, r: Result<Status, ScsiError>, end: nat)
    requires
        protocol::status_walk(log, at) == Some((r, end)),
    ensures
        end == at + 1,
        runs::sends_cdb(log, at as int, seq![0u8, 0, 0, 0, 0, 0]),
        ({
            let outcome = wire::outcome_at(log, at as int);
            &&& r == Ok::<Status, ScsiError>(Status::Ready) <==> outcome is Ok
            &&& r == Ok::<Status, ScsiError>(Status::Initializing) <==> runs::senses(outcome, 2, 0x04, 1)
            &&& r == Ok::<Status, ScsiError>(Status::NeedsInit) <==> runs::senses(outcome, 2, 0x04, 2)
            &&& r == Ok::<Status, ScsiError>(Status::NoFilm) <==> runs::senses(outcome, 2, 0x3A, 0)
            &&& r == Ok::<Status, ScsiError>(Status::Ejecting) <==> runs::senses(outcome, 2, 0x05, 0)
            &&& r == Ok::<Status, ScsiError>(Status::Reset) <==> runs::senses(outcome, 6, 0x29, 0)
            &&& r == Ok::<Status, ScsiError>(Status::MediumChanged) <==> runs::senses(outcome, 6, 0x28, 0)
            &&& r == Ok::<Status, ScsiError>(Status::HolderChanged) <==> runs::senses(outcome, 6, 0x3F, 3)
            &&& r matches Err(err) ==> outcome == Err::<(), ScsiError>(err)
        }),
{
    assert(protocol::test_request().cdb =~= seq![0u8, 0, 0, 0, 0, 0]);
}

/// Asking for the adapter sends INQUIRY for the list of pages. The first of these that holds says
/// which it is: page 0x43 or 0x44 a strip adapter, 0x47 one for six frames, 0x45 or 0xF1 one for
/// APS, 0x46 with 0xE2 a feeder and without it one for mounts, and 0xF8, 0xFA, 0xFB or 0xFC none.
pub proof fn lemma_adapter(log: Seq<Event>, at: nat, r: Result<Holder, ScsiError>, end: nat)
    requires
        protocol::holder_walk(log, at) == Some((r, end)),
        scsi::answers_fit(log),
    ensures
        end == at + 1,
        runs::sends_cdb(log, at as int, seq![0x12u8, 1, 0, 0, 255, 0]),
        match wire::outcome_at(log, at as int) {
            Err(err) => r == Err::<Holder, ScsiError>(err),
            Ok(_) => r matches Ok(holder) && {
                let a = wire::answer_at(log, at as int);
                let strip = runs::lists(a, 0x43) || runs::lists(a, 0x44);
                let aps = runs::lists(a, 0x45) || runs::lists(a, 0xF1);
                let six = runs::lists(a, 0x47);
                let mount = runs::lists(a, 0x46);
                let base = runs::lists(a, 0xF8) || runs::lists(a, 0xFA) || runs::lists(a, 0xFB)
                    || runs::lists(a, 0xFC);
                let known = a[1] == 0;
                &&& holder == Holder::Strip <==> known && strip
                &&& holder == Holder::SixStrip <==> known && six && !strip
                &&& holder == Holder::Format240 <==> known && aps && !six && !strip
                &&& holder == Holder::Feeder <==> known && mount && runs::lists(a, 0xE2) && !aps
                    && !six && !strip
                &&& holder == Holder::Mount <==> known && mount && !runs::lists(a, 0xE2) && !aps
                    && !six && !strip
                &&& holder == Holder::NoAdapter <==> known && base && !mount && !aps && !six
                    && !strip
            },
        },
{
    reveal(scsi::answers_fit);
    let asked = protocol::vpd_request(0, 0xFF);
    assert(asked.cdb =~= seq![0x12u8, 1, 0, 0, 255, 0]);
    assert(log[at as int] matches Event::Exchange { request, .. } && request == asked);
    let a = wire::answer_at(log, at as int);
    assert(a.len() == 255);
    runs::lemma_listed(a, 0x43);
    runs::lemma_listed(a, 0x44);
    runs::lemma_listed(a, 0x45);
    runs::lemma_listed(a, 0x46);
    runs::lemma_listed(a, 0x47);
    runs::lemma_listed(a, 0xE2);
    runs::lemma_listed(a, 0xF1);
    runs::lemma_listed(a, 0xF8);
    runs::lemma_listed(a, 0xFA);
    runs::lemma_listed(a, 0xFB);
    runs::lemma_listed(a, 0xFC);
}

/// Ejecting claims the scanner, sets the eject up with 13 zero bytes, starts it, polls and gives
/// the scanner back. It fails only if the claim does, or the link while the eject is set up or
/// started, and then with that failure, as the last thing that happened.
pub proof fn lemma_eject(log: Seq<Event>, at: nat, r: Result<(), ScanError>, end: nat)
    requires
        protocol::eject_walk(log, at) == Some((r, end)),
    ensures
        at < end,
        runs::sends_cdb(log, at as int, seq![0x16u8, 0, 0, 0, 0, 0]),
        r is Ok ==> {
            &&& at + 4 < end <= log.len()
            &&& wire::outcome_at(log, at as int) is Ok
            &&& runs::sends_cdb(log, at as int + 1, seq![0xE0u8, 0, 0xD0, 0, 0, 0, 0, 0, 13, 0])
            &&& wire::command_at(log, at as int + 1) matches Some(c) && c.data.len() == 13 && forall|
                i: int,
            | 0 <= i < 13 ==> c.data[i] == 0
            &&& runs::sends_cdb(log, at as int + 2, seq![0xC1u8, 0, 0, 0, 0, 0])
            &&& forall|i: int| at + 3 <= i < end - 1 ==> #[trigger] runs::polls(log, i)
            &&& runs::sends_cdb(log, end - 1, seq![0x17u8, 0, 0, 0, 0, 0])
        },
        r matches Err(err) ==> {
            &&& end <= at + 3
            &&& wire::outcome_at(log, end - 1) matches Err(cause) && err == ScanError::Scsi(cause)
                && (end == at + 1 || cause !is Status)
        },
{
    assert(protocol::reserve_request().cdb =~= seq![0x16u8, 0, 0, 0, 0, 0]);
    assert(protocol::release_request().cdb =~= seq![0x17u8, 0, 0, 0, 0, 0]);
    assert(protocol::trigger_request().cdb =~= seq![0xC1u8, 0, 0, 0, 0, 0]);
    assert(protocol::set_up_request(0xD0, crate::scsi::bytes::zeros(13)).cdb =~= seq![
        0xE0u8, 0, 0xD0, 0, 0, 0, 0, 0, 13, 0,
    ]);
    lemma_settling_polls(log, at + 3, super::scan::READY_ATTEMPTS as nat);
}

/// Polling for a decisive state polls at least once, if it may.
pub(super) proof fn lemma_settling_polls(log: Seq<Event>, at: nat, tries: nat)
    ensures
        protocol::wait_settled_walk(log, at, tries) matches Some((_, end)) ==> at <= end && (0 < tries
            ==> at < end <= log.len()) && forall|i: int| at <= i < end ==> #[trigger] runs::polls(log, i),
    decreases tries,
{
    assert(protocol::test_request().cdb =~= seq![0u8, 0, 0, 0, 0, 0]);
    if tries > 0 {
        lemma_settling_polls(log, at + 2, (tries - 1) as nat);
        match protocol::wait_settled_walk(log, at, tries) {
            Some((_, end)) => {
                assert forall|i: int| at <= i < end implies #[trigger] runs::polls(log, i) by {
                    if i > at + 1 {
                        assert(runs::polls(log, i));
                    }
                }
            },
            None => {},
        }
    }
}

} // verus!
