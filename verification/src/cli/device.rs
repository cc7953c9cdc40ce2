//! Device selection and the per-device dispatch seam.
//!
//! One [`Backend`] variant per supported scanner; every per-device `match` lives here so
//! the command handlers stay device-agnostic. Adding a device: add a [`Device`] variant and
//! a [`Backend`] variant, then fill the `Backend` method arms the compiler now flags.
//! `Backend` is an enum, not `Box<dyn _>`, because `Transport::send` is generic (not
//! object-safe) so drivers keep a concrete transport.

use super::ScanCommon;
use crate::scanners::decode::{Frame, Raster};
use crate::scanners::ls50::{answers, decode, failures, laws, protocol, runs, scan, wire};
use crate::scanners::ls50::holder::Holder;
use crate::scanners::ls50::protocol::{Identity, Told};
use crate::scanners::ls50::status::Status;
use crate::scanners::ls50::{AdapterCaps, Ls50, ScanError, ScanSettings};
use crate::scsi;
use crate::scsi::{Error as ScsiError, Event, Transport};
use vstd::prelude::*;

verus! {

/// The scanners there are.
#[derive(Debug, Copy, Clone, PartialEq, Eq)]
pub enum Device {
    /// Nikon LS-50 ED / Super Coolscan V ED (USB).
    Ls50,
}

/// An opened scanner.
pub enum Backend<T> {
    Ls50(Ls50<T>),
}

/// Why no frames came of a request to scan.
#[derive(Debug, Clone, PartialEq, Eq)]
pub enum Error {
    /// A scan failed.
    Scan(ScanError),
    /// No frame count and the adapter reports 0 frames (load a strip, or pass --count N).
    NoFrames,
    /// The scanner was prepared, but the geometry that the adapter reports cannot be scanned at
    /// these settings.
    Geometry(AdapterCaps),
}

/// Build LS-50 scan settings from the shared CLI flags + probed caps.
pub open spec fn settings_of(common: ScanCommon, caps: AdapterCaps) -> ScanSettings {
    ScanSettings {
        dpi: common.dpi,
        infrared: common.ir,
        samples: common.samples,
        autoexposure: common.ae,
        autofocus: common.af,
        caps,
    }
}

/// Build LS-50 scan settings from the shared CLI flags + probed caps.
pub fn ls50_settings(common: &ScanCommon, caps: AdapterCaps) -> (r: ScanSettings)
    ensures
        r == settings_of(*common, caps),
{
    ScanSettings {
        dpi: common.dpi,
        infrared: common.ir,
        samples: common.samples,
        autoexposure: common.ae,
        autofocus: common.af,
        caps,
    }
}

/// What is shown of a scanner: its identity, its adapter, and the adapter's geometry.
pub open spec fn info_text(identity: Identity, holder: Holder, caps: AdapterCaps) -> Seq<char> {
    identity.vendor + " "@ + identity.product + " rev "@ + identity.revision + "\nholder: "@
        + holder.spelled() + "\ncaps: "@ + caps.spelled()
}

/// Asking for what is shown of a scanner.
pub open spec fn info_walk(log: Seq<Event>, at: nat) -> Told<Result<Seq<char>, ScsiError>> {
    match protocol::inquiry_walk(log, at) {
        None => None,
        Some((Err(err), next)) => Some((Err(err), next)),
        Some((Ok(identity), next)) => match protocol::holder_walk(log, next) {
            None => None,
            Some((Err(err), next)) => Some((Err(err), next)),
            Some((Ok(holder), next)) => match protocol::caps_walk(log, next) {
                None => None,
                Some((caps, next)) => Some((Ok(info_text(identity, holder, caps)), next)),
            },
        },
    }
}

/// Asking for what is shown of a scanner asks who it is, for its adapter and for the adapter's
/// geometry, and shows all of them. The first question that fails, of the first two, ends it with
/// its failure.
pub proof fn lemma_info(log: Seq<Event>, at: nat, r: Result<Seq<char>, ScsiError>, end: nat)
    requires
        info_walk(log, at) == Some((r, end)),
    ensures
        r matches Err(err) ==> at < end <= at + 2 && wire::outcome_at(log, end - 1) == Err::<
            (),
            ScsiError,
        >(err),
        r matches Ok(text) ==> {
            &&& end == at + 3
            &&& wire::outcome_at(log, at as int) is Ok && wire::outcome_at(log, (at + 1) as int) is Ok
            &&& protocol::holder_walk(log, at + 1) matches Some((Ok(holder), _))
            &&& protocol::caps_walk(log, at + 2) matches Some((caps, _))
            &&& exists|vendor: Seq<char>, product: Seq<char>, revision: Seq<char>|
                answers::is_field(vendor, wire::answer_at(log, at as int).subrange(8, 16))
                    && answers::is_field(
                    product,
                    wire::answer_at(log, at as int).subrange(16, 32),
                ) && answers::is_field(revision, wire::answer_at(log, at as int).subrange(32, 36))
                    && text == #[trigger] shown_as(vendor, product, revision) + holder.spelled()
                    + "\ncaps: "@ + caps.spelled()
        },
{
    match protocol::inquiry_walk(log, at) {
        Some((identified, next)) => {
            answers::lemma_identity(log, at, identified, next);
            if let Ok(identity) = identified {
                let head = shown_as(identity.vendor, identity.product, identity.revision);
                match (r, protocol::holder_walk(log, at + 1), protocol::caps_walk(log, at + 2)) {
                    (Ok(text), Some((Ok(holder), _)), Some((caps, _))) => {
                        assert(text =~= head + holder.spelled() + "\ncaps: "@ + caps.spelled());
                    },
                    _ => {},
                }
            }
        },
        None => {},
    }
}

/// How a scanner's identity is shown, up to its adapter.
pub open spec fn shown_as(vendor: Seq<char>, product: Seq<char>, revision: Seq<char>) -> Seq<char> {
    vendor + " "@ + product + " rev "@ + revision + "\nholder: "@
}

/// Whether `n_frames` frames can be scanned at these settings.
pub open spec fn scannable(s: ScanSettings, n_frames: nat, offset: int) -> bool {
    decode::settings_fit(s) && protocol::strip_fits(s, n_frames, offset)
}

/// Scanning one frame with the geometry that the adapter reports.
pub open spec fn scan_walk(log: Seq<Event>, at: nat, common: ScanCommon) -> Told<
    Result<Seq<Raster>, Error>,
> {
    match protocol::caps_walk(log, at) {
        None => None,
        Some((caps, next)) => {
            let s = settings_of(common, caps);
            match protocol::try_scan_walk(log, next, s, common.offset as int) {
                None => None,
                Some((Err(err), next)) => Some((Err(Error::Scan(err)), next)),
                Some((Ok(None), next)) => Some((Err(Error::Geometry(caps)), next)),
                Some((Ok(Some(frame)), next)) => Some((Ok(seq![frame]), next)),
            }
        },
    }
}

/// Scanning as many frames as were asked for, or as the adapter reports.
pub open spec fn scan_strip_walk(
    log: Seq<Event>,
    at: nat,
    common: ScanCommon,
    count: Option<u32>,
) -> Told<Result<Seq<Raster>, Error>> {
    match protocol::caps_walk(log, at) {
        None => None,
        Some((caps, next)) => {
            let n: u32 = match count {
                Some(n) => n,
                None => caps.n_frames,
            };
            let s = settings_of(common, caps);
            if n == 0 {
                Some((Err(Error::NoFrames), next))
            } else {
                match protocol::try_strip_walk(log, next, s, n as nat, common.offset as int) {
                    None => None,
                    Some((Err(err), next)) => Some((Err(Error::Scan(err)), next)),
                    Some((Ok(None), next)) => Some((Err(Error::Geometry(caps)), next)),
                    Some((Ok(Some(frames)), next)) => Some((Ok(frames), next)),
                }
            }
        },
    }
}

/// A geometry is refused only if the frames cannot be scanned with it.
pub proof fn lemma_scannable_is_not_refused(
    log: Seq<Event>,
    at: nat,
    common: ScanCommon,
    count: Option<u32>,
)
    ensures
        scan_walk(log, at, common) matches Some((Err(Error::Geometry(caps)), _)) ==> !scannable(
            settings_of(common, caps),
            1,
            common.offset as int,
        ),
        scan_strip_walk(log, at, common, count) matches Some((Err(Error::Geometry(caps)), _))
            ==> !scannable(
            settings_of(common, caps),
            match count {
                Some(n) => n as nat,
                None => caps.n_frames as nat,
            },
            common.offset as int,
        ),
{
}

/// A scan of frames that can be scanned fails only for a reason on the link, which is passed on.
pub proof fn lemma_scans_fail_for_a_reason(
    log: Seq<Event>,
    at: nat,
    common: ScanCommon,
    count: Option<u32>,
    caps: AdapterCaps,
    next: nat,
    err: Error,
    end: nat,
)
    requires
        protocol::caps_walk(log, at) == Some((caps, next)),
    ensures
        scannable(settings_of(common, caps), 1, common.offset as int) && scan_walk(log, at, common)
            == Some((Err::<Seq<Raster>, Error>(err), end)) ==> (err matches Error::Scan(why)
            && failures::fails_for_a_reason(log, next, end, settings_of(common, caps), why)),
        ({
            let n: u32 = match count {
                Some(n) => n,
                None => caps.n_frames,
            };
            n > 0 && scannable(settings_of(common, caps), n as nat, common.offset as int)
                && scan_strip_walk(log, at, common, count) == Some(
                (Err::<Seq<Raster>, Error>(err), end),
            ) ==> (err matches Error::Scan(why) && failures::fails_for_a_reason(
                log,
                next,
                end,
                settings_of(common, caps),
                why,
            ))
        }),
{
    let s = settings_of(common, caps);
    let n: u32 = match count {
        Some(n) => n,
        None => caps.n_frames,
    };
    let offset = common.offset as int;
    protocol::lemma_frame_pitch();
    if decode::settings_fit(s) {
        laws::lemma_try_is_scan(log, next, s, n as nat, offset);
    }
    if scannable(s, 1, offset) {
        match protocol::scan_walk(log, next, s, offset) {
            Some((Err(why), last)) => {
                failures::lemma_scan_fails_for_a_reason(log, next, s, offset, why, last);
            },
            _ => {},
        }
    }
    if n > 0 && scannable(s, n as nat, offset) {
        match protocol::strip_walk(log, next, s, n as nat, offset) {
            Some((Err(why), last)) => {
                failures::lemma_strip_fails_for_a_reason(log, next, s, n as nat, offset, why, last);
            },
            _ => {},
        }
    }
}

/// Whether every frame has the geometry that the adapter reported at position `at`, at the
/// flags' settings.
pub open spec fn frames_follow(
    log: Seq<Event>,
    at: nat,
    common: ScanCommon,
    frames: Seq<Frame>,
) -> bool {
    protocol::caps_walk(log, at) matches Some((caps, _)) && forall|i: int|
        0 <= i < frames.len() ==> scan::is_frame_of(
            #[trigger] frames[i],
            settings_of(common, caps),
        )
}

/// Whether `frames` are what the scanner gave between the positions `at` and `end` for the flags:
/// after its geometry was asked for, a scan at that geometry and at the resolution, with the
/// infrared plane, the samples, the autoexposure, the autofocus and the offset of the flags, of
/// as many frames as were asked for, or as the adapter reports.
pub open spec fn gave(
    log: Seq<Event>,
    at: nat,
    end: nat,
    common: ScanCommon,
    count: Option<u32>,
    frames: Seq<Frame>,
) -> bool {
    protocol::caps_walk(log, at) matches Some((caps, next)) && runs::is_scan_of(
        log,
        next,
        end,
        (ScanSettings {
            dpi: common.dpi,
            infrared: common.ir,
            samples: common.samples,
            autoexposure: common.ae,
            autofocus: common.af,
            caps,
        }),
        match count {
            Some(n) => n as int,
            None => caps.n_frames as int,
        },
        common.offset as int,
        frames,
    )
}

/// Every flag becomes the setting that it is for.
pub proof fn lemma_settings_follow_flags(common: ScanCommon, caps: AdapterCaps)
    ensures
        ({
            let s = settings_of(common, caps);
            &&& s.dpi == common.dpi
            &&& s.infrared == common.ir
            &&& s.samples == common.samples
            &&& s.autoexposure == common.ae
            &&& s.autofocus == common.af
            &&& s.caps == caps
        }),
{
}

/// A strip is refused for want of frames if and only if none were asked for, or none were and
/// the adapter reports none; nothing but the geometry is asked for then.
pub proof fn lemma_no_frames(
    log: Seq<Event>,
    at: nat,
    common: ScanCommon,
    count: Option<u32>,
    caps: AdapterCaps,
    next: nat,
)
    requires
        protocol::caps_walk(log, at) == Some((caps, next)),
    ensures
        (scan_strip_walk(log, at, common, count) matches Some((Err(Error::NoFrames), _))) <==> (
        count == Some(0u32) || count is None && caps.n_frames == 0),
        scan_strip_walk(log, at, common, count) matches Some((Err(Error::NoFrames), end)) ==> end
            == next,
{
}

/// The text in `r`.
pub open spec fn shown(r: Result<String, ScsiError>) -> Result<Seq<char>, ScsiError> {
    match r {
        Ok(text) => Ok(text@),
        Err(err) => Err(err),
    }
}

/// The frames in `r`, as mathematical objects.
pub open spec fn rasters(r: Result<Vec<Frame>, Error>) -> Result<Seq<Raster>, Error> {
    match r {
        Ok(frames) => Ok(scan::views(frames@)),
        Err(err) => Err(err),
    }
}

/// The name of the state in `r`.
pub open spec fn state_name(r: Result<Status, ScsiError>) -> Result<Seq<char>, ScsiError> {
    match r {
        Ok(status) => Ok(status.spelled()),
        Err(err) => Err(err),
    }
}

/// Asking for the name of the state.
pub open spec fn state_walk(log: Seq<Event>, at: nat) -> Told<Result<Seq<char>, ScsiError>> {
    match protocol::status_walk(log, at) {
        None => None,
        Some((status, next)) => Some((state_name(status), next)),
    }
}

impl<T> Backend<T> where T: Transport {
    /// Everything that has happened on the link.
    pub open spec fn log(&self) -> Seq<Event> {
        match *self {
            Backend::Ls50(s) => s.log(),
        }
    }

    /// The name of the scanner's state.
    pub fn status(&mut self) -> (r: Result<String, ScsiError>)
        ensures
            scsi::extends(final(self).log(), old(self).log()),
            scsi::answers_fit(old(self).log()) ==> scsi::answers_fit(final(self).log()),
            forall|log: Seq<Event>|
                scsi::extends(log, final(self).log()) ==> #[trigger] state_walk(
                    log,
                    old(self).log().len(),
                ) == Some((shown(r), final(self).log().len())),
    {
        match self {
            Backend::Ls50(s) => match s.status() {
                Ok(status) => Ok(status.name().to_owned()),
                Err(err) => Err(err),
            },
        }
    }

    /// Identity, holder and adapter caps as text.
    pub fn info(&mut self) -> (r: Result<String, ScsiError>)
        ensures
            scsi::extends(final(self).log(), old(self).log()),
            scsi::answers_fit(old(self).log()) ==> scsi::answers_fit(final(self).log()),
            forall|log: Seq<Event>|
                scsi::extends(log, final(self).log()) ==> #[trigger] info_walk(
                    log,
                    old(self).log().len(),
                ) == Some((shown(r), final(self).log().len())),
    {
        match self {
            Backend::Ls50(s) => {
                let inq = match s.inquiry() {
                    Ok(inq) => inq,
                    Err(err) => {
                        return Err(err);
                    },
                };
                let holder = match s.holder() {
                    Ok(holder) => holder,
                    Err(err) => {
                        return Err(err);
                    },
                };
                let caps = s.caps();
                let ghost identity = Identity {
                    vendor: inq.vendor@,
                    product: inq.product@,
                    revision: inq.revision@,
                };
                let mut out = String::new();
                out.append(inq.vendor.as_str());
                out.append(" ");
                out.append(inq.product.as_str());
                out.append(" rev ");
                out.append(inq.revision.as_str());
                out.append("\nholder: ");
                out.append(holder.name());
                out.append("\ncaps: ");
                caps.push_to(&mut out);
                assert(out@ =~= info_text(identity, holder, caps));
                Ok(out)
            },
        }
    }

    /// Eject the loaded film.
    pub fn eject(&mut self) -> (r: Result<(), ScanError>)
        ensures
            scsi::extends(final(self).log(), old(self).log()),
            scsi::answers_fit(old(self).log()) ==> scsi::answers_fit(final(self).log()),
            forall|log: Seq<Event>|
                scsi::extends(log, final(self).log()) ==> #[trigger] protocol::eject_walk(
                    log,
                    old(self).log().len(),
                ) == Some((r, final(self).log().len())),
    {
        match self {
            Backend::Ls50(s) => s.eject(),
        }
    }

    /// Poll readiness once. Gives the state's name if it is not the one in `last`, and
    /// remembers it there.
    pub fn watch(&mut self, last: &mut String) -> (r: Result<Option<String>, ScsiError>)
        ensures
            scsi::extends(final(self).log(), old(self).log()),
            scsi::answers_fit(old(self).log()) ==> scsi::answers_fit(final(self).log()),
            forall|log: Seq<Event>|
                scsi::extends(log, final(self).log()) ==> #[trigger] state_walk(
                    log,
                    old(self).log().len(),
                ) == Some(
                    (
                        match r {
                            Ok(_) => Ok(final(last)@),
                            Err(err) => Err(err),
                        },
                        final(self).log().len(),
                    ),
                ),
            match r {
                Ok(Some(now)) => now@ == final(last)@ && final(last)@ != old(last)@,
                _ => final(last)@ == old(last)@,
            },
    {
        match self.status() {
            Ok(now) => if now == *last {
                Ok(None)
            } else {
                *last = now.clone();
                Ok(Some(now))
            },
            Err(err) => Err(err),
        }
    }

    /// Scan one frame.
    pub fn scan(&mut self, common: &ScanCommon) -> (r: Result<Vec<Frame>, Error>)
        ensures
            r matches Ok(frames) ==> gave(
                final(self).log(),
                old(self).log().len(),
                final(self).log().len(),
                *common,
                Some(1u32),
                frames@,
            ),
            r matches Ok(frames) ==> frames_follow(
                final(self).log(),
                old(self).log().len(),
                *common,
                frames@,
            ),
            scsi::extends(final(self).log(), old(self).log()),
            scsi::answers_fit(old(self).log()) ==> scsi::answers_fit(final(self).log()),
            forall|log: Seq<Event>|
                scsi::extends(log, final(self).log()) ==> #[trigger] scan_walk(
                    log,
                    old(self).log().len(),
                    *common,
                ) == Some((rasters(r), final(self).log().len())),
    {
        match self {
            Backend::Ls50(s) => {
                let caps = s.caps();
                let settings = ls50_settings(common, caps);
                match s.try_scan_at(&settings, common.offset) {
                    Ok(None) => Err(Error::Geometry(caps)),
                    Ok(Some(frame)) => {
                        let mut frames: Vec<Frame> = Vec::new();
                        frames.push(frame);
                        assert(scan::views(frames@) =~= seq![frame@]);
                        assert(frames@ =~= seq![frame]);
                        Ok(frames)
                    },
                    Err(err) => Err(Error::Scan(err)),
                }
            },
        }
    }

    /// Scan `count` frames, or the adapter's sensed count when `None`.
    pub fn scan_strip(&mut self, common: &ScanCommon, count: Option<u32>) -> (r: Result<
        Vec<Frame>,
        Error,
    >)
        ensures
            r matches Ok(frames) ==> gave(
                final(self).log(),
                old(self).log().len(),
                final(self).log().len(),
                *common,
                count,
                frames@,
            ),
            r matches Ok(frames) ==> frames_follow(
                final(self).log(),
                old(self).log().len(),
                *common,
                frames@,
            ),
            scsi::extends(final(self).log(), old(self).log()),
            scsi::answers_fit(old(self).log()) ==> scsi::answers_fit(final(self).log()),
            forall|log: Seq<Event>|
                scsi::extends(log, final(self).log()) ==> #[trigger] scan_strip_walk(
                    log,
                    old(self).log().len(),
                    *common,
                    count,
                ) == Some((rasters(r), final(self).log().len())),
    {
        match self {
            Backend::Ls50(s) => {
                let caps = s.caps();
                let n: u32 = match count {
                    Some(n) => n,
                    None => caps.n_frames,
                };
                if n == 0 {
                    return Err(Error::NoFrames);
                }
                let settings = ls50_settings(common, caps);
                match s.try_scan_strip(&settings, n, common.offset) {
                    Ok(None) => Err(Error::Geometry(caps)),
                    Ok(Some(frames)) => Ok(frames),
                    Err(err) => Err(Error::Scan(err)),
                }
            },
        }
    }
}

} // verus!
