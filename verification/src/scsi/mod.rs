//! The SCSI layer: commands, the data they carry, and the link that takes them to a device.

use vstd::prelude::*;

pub mod bytes;
pub mod cdbs;

verus! {

/// Decoded sense data of a CHECK CONDITION.
#[derive(Debug, Clone, Copy, PartialEq, Eq)]
pub struct SenseData {
    /// Sense key
    pub key: u8,
    /// Additional sense code
    pub asc: u8,
    /// Additional sense code qualifier
    pub ascq: u8,
    /// Incorrect-length indicator
    pub ili: bool,
    /// Whether the error belongs to an earlier command
    pub deferred: bool,
}

/// Why a command failed.
#[derive(Debug, Clone, PartialEq, Eq)]
pub enum Error {
    /// The device answered with a status other than GOOD.
    Status { status: u8, sense: Option<SenseData> },
    /// The device's answer does not have the layout of the command's response.
    InvalidResponse(&'static str),
    /// The link to the device failed.
    Link(String),
}

/// Which way a command's data phase goes.
#[derive(Debug, Clone, Copy, PartialEq, Eq)]
pub enum DataDirection {
    /// No data phase
    NoData,
    /// Device to host
    Read,
    /// Host to device
    Write,
}

/// A command's data phase: how much it is ready to receive, or what it sends.
pub enum CommandData<'a> {
    NoData,
    Read(usize),
    Write(&'a [u8]),
}

/// What a [`CommandData`] says, in mathematical terms.
pub enum DataPhase {
    NoData,
    Read(nat),
    Write(Seq<u8>),
}

impl<'a> View for CommandData<'a> {
    type V = DataPhase;

    open spec fn view(&self) -> DataPhase {
        match *self {
            CommandData::NoData => DataPhase::NoData,
            CommandData::Read(n) => DataPhase::Read(n as nat),
            CommandData::Write(payload) => DataPhase::Write(payload@),
        }
    }
}

/// A command descriptor block of `N` bytes.
#[derive(Debug, Clone, Copy)]
pub struct Cdb<const N: usize>(pub [u8; N]);

/// A command descriptor block of any size, as the bytes it is sent as.
pub trait CdbBytes: Sized {
    spec fn bytes(&self) -> Seq<u8>;

    fn as_bytes(&self) -> (r: &[u8])
        ensures
            r@ == self.bytes(),
    ;
}

impl<const N: usize> CdbBytes for Cdb<N> {
    open spec fn bytes(&self) -> Seq<u8> {
        self.0@
    }

    fn as_bytes(&self) -> (r: &[u8]) {
        self.0.as_slice()
    }
}

/// What a command hands to the link: the descriptor block, the direction of its data
/// phase, and the buffer for it (the payload, or zeros to be filled).
pub struct Request {
    pub cdb: Seq<u8>,
    pub direction: DataDirection,
    pub data: Seq<u8>,
}

/// What came back: the buffer as the device left it, and how the command ended.
pub struct Reply {
    pub data: Seq<u8>,
    pub outcome: Result<(), Error>,
}

/// One thing that happened on the link.
pub enum Event {
    /// A command was carried out.
    Exchange { request: Request, reply: Reply },
    /// The host waited.
    Pause { millis: u64 },
}

/// The request of a command with descriptor block `cdb` and data phase `phase`.
pub open spec fn request(cdb: Seq<u8>, phase: DataPhase) -> Request {
    match phase {
        DataPhase::NoData => Request {
            cdb,
            direction: DataDirection::NoData,
            data: Seq::empty(),
        },
        DataPhase::Read(n) => Request {
            cdb,
            direction: DataDirection::Read,
            data: bytes::zeros(n),
        },
        DataPhase::Write(payload) => Request {
            cdb,
            direction: DataDirection::Write,
            data: payload,
        },
    }
}

/// The device's answer to the exchange at position `i` of `log`.
pub open spec fn reply_at(log: Seq<Event>, i: int) -> Reply {
    log[i]->reply
}

/// Whether `log` begins with `base`: it is the history of the same link, now or later.
pub open spec fn extends(log: Seq<Event>, base: Seq<Event>) -> bool {
    &&& base.len() <= log.len()
    &&& forall|i: int| 0 <= i < base.len() ==> #[trigger] log[i] == base[i]
}

/// Whether every answer in `log` fills the room it was given, as a transport's do.
#[verifier::opaque]
pub open spec fn answers_fit(log: Seq<Event>) -> bool {
    forall|i: int|
        0 <= i < log.len() ==> (#[trigger] log[i] matches Event::Exchange { request, reply }
            ==> reply.data.len() == request.data.len())
}

/// The device's answer at position `at` of `log`, if `asked` is what was sent there.
pub open spec fn reply_to(log: Seq<Event>, at: nat, asked: Request) -> Option<Reply> {
    if at < log.len() {
        match log[at as int] {
            Event::Exchange { request, reply } => if request == asked {
                Some(reply)
            } else {
                None
            },
            Event::Pause { .. } => None,
        }
    } else {
        None
    }
}

/// Whether position `at` of `log` is a pause of `millis`.
pub open spec fn waited(log: Seq<Event>, at: nat, millis: u64) -> bool {
    at < log.len() && log[at as int] == (Event::Pause { millis })
}

/// A SCSI command: how it is sent, and how its response is read.
pub trait Command: Sized {
    type Response;
    type Cdb: CdbBytes;

    /// The bytes of the command descriptor block.
    spec fn cdb_bytes(&self) -> Seq<u8>;

    /// The data phase.
    spec fn phase(&self) -> DataPhase;

    /// Whether `response` is what `data` decodes to.
    spec fn decodes(&self, data: Seq<u8>, response: Result<Self::Response, Error>) -> bool;

    fn cdb(&self) -> (r: Self::Cdb)
        ensures
            r.bytes() == self.cdb_bytes(),
    ;

    fn data(&self) -> (r: CommandData<'_>)
        ensures
            r@ == self.phase(),
    ;

    fn decode(&self, data: &[u8]) -> (r: Result<Self::Response, Error>)
        ensures
            self.decodes(data@, r),
    ;
}

/// Whether `r` is the result of sending `command`, given the device's `reply`: the error
/// that ended the command, else what the returned buffer decodes to.
pub open spec fn answers<C: Command>(
    command: C,
    reply: Reply,
    r: Result<C::Response, Error>,
) -> bool {
    match reply.outcome {
        Ok(_) => command.decodes(reply.data, r),
        Err(err) => r == Err::<C::Response, Error>(err),
    }
}

/// Room offered to a transport for the raw sense bytes of a failed command.
pub const SENSE_LEN: usize = 32;

/// The link to a device.
///
/// An implementation moves bytes and waits; what to send and how to read the answer is
/// decided by the callers. `events` is the history of the link: every call of a method
/// appends the one event that it stands for, and nothing else changes the history.
pub trait Transport: Sized {
    /// The history of the link. A verified implementation defines it. One outside verified code,
    /// which talks to a real device, does not: its history is then some function of the link,
    /// of which nothing is known but what the methods say.
    closed spec fn events(&self) -> Seq<Event> {
        let history: spec_fn(Self) -> Seq<Event> = vstd::pervasive::arbitrary();
        history(*self)
    }

    /// Carry out one command. `data` holds the payload of a write, or is filled by a read;
    /// `sense` is room for the raw sense bytes.
    fn execute(
        &mut self,
        cdb: &[u8],
        direction: DataDirection,
        data: &mut [u8],
        sense: &mut [u8],
    ) -> (outcome: Result<(), Error>)
        ensures
            final(data)@.len() == old(data)@.len(),
            final(self).events() == old(self).events().push(
                Event::Exchange {
                    request: (Request { cdb: cdb@, direction, data: old(data)@ }),
                    reply: (Reply { data: final(data)@, outcome }),
                },
            ),
    ;

    /// Wait `millis` milliseconds.
    fn pause(&mut self, millis: u64)
        ensures
            final(self).events() == old(self).events().push(Event::Pause { millis }),
    ;

    /// Send `command` and decode the device's answer.
    fn send<C: Command>(&mut self, command: &C) -> (r: Result<C::Response, Error>)
        ensures
            final(self).events() == old(self).events().push(
                Event::Exchange {
                    request: request(command.cdb_bytes(), command.phase()),
                    reply: reply_at(final(self).events(), old(self).events().len() as int),
                },
            ),
            reply_at(final(self).events(), old(self).events().len() as int).data.len() == request(
                command.cdb_bytes(),
                command.phase(),
            ).data.len(),
            answers(*command, reply_at(final(self).events(), old(self).events().len() as int), r),
    {
        let cdb = command.cdb();
        let mut sense: Vec<u8> = bytes::zero_bytes(SENSE_LEN);
        let (direction, mut data) = match command.data() {
            CommandData::NoData => (DataDirection::NoData, Vec::<u8>::new()),
            CommandData::Read(n) => (DataDirection::Read, bytes::zero_bytes(n)),
            CommandData::Write(payload) => (
                DataDirection::Write,
                vstd::slice::slice_to_vec(payload),
            ),
        };
        let ghost sent = Request { cdb: cdb.bytes(), direction, data: data@ };
        assert(sent == request(command.cdb_bytes(), command.phase()));
        let outcome = self.execute(
            cdb.as_bytes(),
            direction,
            data.as_mut_slice(),
            sense.as_mut_slice(),
        );
        let ghost reply = Reply { data: data@, outcome };
        let r = match outcome {
            Ok(()) => command.decode(data.as_slice()),
            Err(err) => Err(err),
        };
        assert(self.events() == old(self).events().push(Event::Exchange { request: sent, reply }));
        r
    }
}

} // verus!
