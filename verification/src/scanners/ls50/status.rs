//! TEST UNIT READY sense -> readiness state. Only key/ASC/ASCQ triples seen in normal
//! operation map to a state; anything else stays a real error.

use crate::scsi::{Error as ScsiError, SenseData};
use vstd::prelude::*;

verus! {

/// Scanner state, as reported by TEST UNIT READY.
#[derive(Debug, Clone, Copy, PartialEq, Eq, Structural)]
pub enum Status {
    Ready,
    /// 0x02 04/01 - warming up / initializing. Retry.
    Initializing,
    /// 0x02 04/02 - waiting for the init self-test. Won't clear on retry; caller must
    /// run init.
    NeedsInit,
    /// 0x02 3A/00 - no film loaded (adapter still reported by `holder()`).
    NoFilm,
    /// 0x02 05/00 - ejecting film.
    Ejecting,
    /// 0x06 29/00 - power-on / bus reset. Clear and retry.
    Reset,
    /// 0x06 28/00 - not-ready-to-ready change (medium).
    MediumChanged,
    /// 0x06 3F/03 - inquiry data changed; adapter swapped. Re-read holder.
    HolderChanged,
}

/// Whether `sense` is the triple `key` `asc`/`ascq`.
pub open spec fn sense_is(sense: SenseData, key: u8, asc: u8, ascq: u8) -> bool {
    sense.key == key && sense.asc == asc && sense.ascq == ascq
}

impl Status {
    /// The state that a sense triple stands for, if it stands for one.
    pub open spec fn of_sense(sense: SenseData) -> Option<Status> {
        if sense_is(sense, 0x02, 0x04, 0x01) {
            Some(Status::Initializing)
        } else if sense_is(sense, 0x02, 0x04, 0x02) {
            Some(Status::NeedsInit)
        } else if sense_is(sense, 0x02, 0x3A, 0x00) {
            Some(Status::NoFilm)
        } else if sense_is(sense, 0x02, 0x05, 0x00) {
            Some(Status::Ejecting)
        } else if sense_is(sense, 0x06, 0x29, 0x00) {
            Some(Status::Reset)
        } else if sense_is(sense, 0x06, 0x28, 0x00) {
            Some(Status::MediumChanged)
        } else if sense_is(sense, 0x06, 0x3F, 0x03) {
            Some(Status::HolderChanged)
        } else {
            None
        }
    }

    /// The state that the outcome of TEST UNIT READY stands for: GOOD is readiness, a known
    /// sense triple its state, and anything else the error that it is.
    pub open spec fn of_outcome(outcome: Result<(), ScsiError>) -> Result<Status, ScsiError> {
        match outcome {
            Ok(_) => Ok(Status::Ready),
            Err(err) => match err {
                ScsiError::Status { sense: Some(sense), .. } => match Status::of_sense(sense) {
                    Some(state) => Ok(state),
                    None => Err(err),
                },
                _ => Err(err),
            },
        }
    }

    /// Classify sense data as a known readiness state; `None` = treat as a real error.
    pub fn from_sense(sense: &SenseData) -> (r: Option<Self>)
        ensures
            r == Status::of_sense(*sense),
    {
        match (sense.key, sense.asc, sense.ascq) {
            (0x02, 0x04, 0x01) => Some(Self::Initializing),
            (0x02, 0x04, 0x02) => Some(Self::NeedsInit),
            (0x02, 0x3A, 0x00) => Some(Self::NoFilm),
            (0x02, 0x05, 0x00) => Some(Self::Ejecting),
            (0x06, 0x29, 0x00) => Some(Self::Reset),
            (0x06, 0x28, 0x00) => Some(Self::MediumChanged),
            (0x06, 0x3F, 0x03) => Some(Self::HolderChanged),
            _ => None,
        }
    }

    /// Classify the outcome of TEST UNIT READY.
    pub fn from_outcome(outcome: Result<(), ScsiError>) -> (r: Result<Self, ScsiError>)
        ensures
            r == Status::of_outcome(outcome),
    {
        match outcome {
            Ok(()) => Ok(Status::Ready),
            Err(err) => {
                if let ScsiError::Status { sense: Some(sense), .. } = &err {
                    if let Some(state) = Status::from_sense(sense) {
                        return Ok(state);
                    }
                }
                Err(err)
            },
        }
    }

    /// The state's name, as it is shown.
    pub open spec fn spelled(self) -> Seq<char> {
        match self {
            Status::Ready => "Ready"@,
            Status::Initializing => "Initializing"@,
            Status::NeedsInit => "NeedsInit"@,
            Status::NoFilm => "NoFilm"@,
            Status::Ejecting => "Ejecting"@,
            Status::Reset => "Reset"@,
            Status::MediumChanged => "MediumChanged"@,
            Status::HolderChanged => "HolderChanged"@,
        }
    }

    /// The state's name.
    pub fn name(self) -> (r: &'static str)
        ensures
            r@ == self.spelled(),
    {
        match self {
            Status::Ready => "Ready",
            Status::Initializing => "Initializing",
            Status::NeedsInit => "NeedsInit",
            Status::NoFilm => "NoFilm",
            Status::Ejecting => "Ejecting",
            Status::Reset => "Reset",
            Status::MediumChanged => "MediumChanged",
            Status::HolderChanged => "HolderChanged",
        }
    }
}

/// States are shown by their names, no two of them alike.
pub proof fn lemma_states_are_named(a: Status, b: Status)
    ensures
        Status::Ready.spelled() == "Ready"@,
        Status::Initializing.spelled() == "Initializing"@,
        Status::NeedsInit.spelled() == "NeedsInit"@,
        Status::NoFilm.spelled() == "NoFilm"@,
        Status::Ejecting.spelled() == "Ejecting"@,
        Status::Reset.spelled() == "Reset"@,
        Status::MediumChanged.spelled() == "MediumChanged"@,
        Status::HolderChanged.spelled() == "HolderChanged"@,
        a.spelled() == b.spelled() ==> a == b,
{
    reveal_strlit("Ready");
    reveal_strlit("Initializing");
    reveal_strlit("NeedsInit");
    reveal_strlit("NoFilm");
    reveal_strlit("Ejecting");
    reveal_strlit("Reset");
    reveal_strlit("MediumChanged");
    reveal_strlit("HolderChanged");
    if a.spelled() == b.spelled() {
        assert(a.spelled().len() == b.spelled().len());
        assert(a.spelled()[2] == b.spelled()[2]);
    }
}

} // verus!
