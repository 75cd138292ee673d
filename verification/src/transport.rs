//! The two collaborators the driver writes through: the byte-oriented
//! command/data transport and the millisecond delay provider.
//!
//! Both are traits whose implementors carry a ghost log of everything asked
//! of them; every driver contract is stated over those logs. The module also
//! holds two verified in-memory implementations: one that records every
//! transaction, and one that additionally fails after a chosen number of
//! transfers, standing in for a link that dies mid-sequence.
use vstd::prelude::*;

verus! {

/// One transaction on the command/data transport, as the contracts see it:
/// the byte payload of a single command-channel or data-channel transfer.
#[verifier::ext_equal]
pub enum TxRec {
    Command(Seq<u8>),
    Data(Seq<u8>),
}

/// One recorded transaction of `RecordingTransport` or `FaultyTransport`.
#[derive(Clone, Debug, PartialEq, Eq)]
pub enum Record {
    Command(Vec<u8>),
    Data(Vec<u8>),
}

impl View for Record {
    type V = TxRec;

    open spec fn view(&self) -> TxRec {
        match self {
            Record::Command(b) => TxRec::Command(b@),
            Record::Data(b) => TxRec::Data(b@),
        }
    }
}

/// The single error kind: an opaque transport failure, passed through
/// unmodified from the transport collaborator.
#[derive(Clone, Copy, Debug, PartialEq, Eq, Structural)]
pub enum DisplayError {
    InvalidFormatError,
    BusWriteError,
    DCError,
    CSError,
}

/// The byte-oriented transport the driver exclusively owns.
///
/// `log()` is the implementor's model of every transfer completed so far. A
/// successful send appends exactly one record holding the bytes handed over;
/// a failed send appends nothing. The driver never retries: an error is
/// surfaced unchanged to whoever asked for the operation in progress.
pub trait Transport: Sized {
    /// The implementor's model of every transfer completed so far. An
    /// implementor outside the verified world may leave the default; a
    /// verified one gives the model its contracts rest on.
    open spec fn log(&self) -> Seq<TxRec> {
        Seq::empty()
    }

    fn send_commands(&mut self, bytes: &Vec<u8>) -> (r: Result<(), DisplayError>)
        ensures
            r is Ok ==> final(self).log() == old(self).log().push(TxRec::Command(bytes@)),
            r is Err ==> final(self).log() == old(self).log(),
    ;

    fn send_data(&mut self, bytes: &Vec<u8>) -> (r: Result<(), DisplayError>)
        ensures
            r is Ok ==> final(self).log() == old(self).log().push(TxRec::Data(bytes@)),
            r is Err ==> final(self).log() == old(self).log(),
    ;
}

/// Blocks for at least the asked number of milliseconds. `log()` models the
/// delays asked for, in order.
pub trait Delay: Sized {
    /// The implementor's model of the delays asked of it so far. An
    /// implementor outside the verified world may leave the default.
    open spec fn log(&self) -> Seq<u16> {
        Seq::empty()
    }

    fn delay_ms(&mut self, ms: u16)
        ensures
            final(self).log() == old(self).log().push(ms),
    ;
}

fn copy_bytes(bytes: &Vec<u8>) -> (r: Vec<u8>)
    ensures
        r@ == bytes@,
{
    let mut out: Vec<u8> = Vec::new();
    let mut i: usize = 0;
    while i < bytes.len()
        invariant
            i <= bytes.len(),
            out@ == bytes@.take(i as int),
        decreases bytes.len() - i,
    {
        out.push(bytes[i]);
        i += 1;
        proof {
            assert(out@ =~= bytes@.take(i as int));
        }
    }
    proof {
        assert(bytes@.take(bytes@.len() as int) =~= bytes@);
    }
    out
}

/// A transport that performs no hardware I/O and records every transaction;
/// its record list is the byte-for-byte trace a test inspects.
pub struct RecordingTransport {
    pub records: Vec<Record>,
}

impl RecordingTransport {
    pub fn new() -> (r: RecordingTransport)
        ensures
            r.log() == Seq::<TxRec>::empty(),
    {
        let r = RecordingTransport { records: Vec::new() };
        proof {
            assert(r.log() =~= Seq::<TxRec>::empty());
        }
        r
    }
}

impl Transport for RecordingTransport {
    open spec fn log(&self) -> Seq<TxRec> {
        self.records@.map_values(|r: Record| r@)
    }

    fn send_commands(&mut self, bytes: &Vec<u8>) -> (r: Result<(), DisplayError>) {
        let copy = copy_bytes(bytes);
        self.records.push(Record::Command(copy));
        proof {
            assert(final(self).log() =~~= old(self).log().push(TxRec::Command(bytes@)));
        }
        Ok(())
    }

    fn send_data(&mut self, bytes: &Vec<u8>) -> (r: Result<(), DisplayError>) {
        let copy = copy_bytes(bytes);
        self.records.push(Record::Data(copy));
        proof {
            assert(final(self).log() =~~= old(self).log().push(TxRec::Data(bytes@)));
        }
        Ok(())
    }
}

/// A transport that records like `RecordingTransport` but lets only the first
/// `remaining` transfers through, then fails each further one with
/// `BusWriteError`. A failed transfer records nothing and does not consume
/// the allowance.
pub struct FaultyTransport {
    pub records: Vec<Record>,
    pub remaining: usize,
}

impl FaultyTransport {
    /// A transport whose first `allowed` transfers succeed.
    pub fn new(allowed: usize) -> (r: FaultyTransport)
        ensures
            r.log() == Seq::<TxRec>::empty(),
            r.remaining == allowed,
    {
        let r = FaultyTransport { records: Vec::new(), remaining: allowed };
        proof {
            assert(r.log() =~= Seq::<TxRec>::empty());
        }
        r
    }
}

impl Transport for FaultyTransport {
    open spec fn log(&self) -> Seq<TxRec> {
        self.records@.map_values(|r: Record| r@)
    }

    fn send_commands(&mut self, bytes: &Vec<u8>) -> (r: Result<(), DisplayError>) {
        if self.remaining == 0 {
            return Err(DisplayError::BusWriteError);
        }
        self.remaining = self.remaining - 1;
        let copy = copy_bytes(bytes);
        self.records.push(Record::Command(copy));
        proof {
            assert(final(self).log() =~~= old(self).log().push(TxRec::Command(bytes@)));
        }
        Ok(())
    }

    fn send_data(&mut self, bytes: &Vec<u8>) -> (r: Result<(), DisplayError>) {
        if self.remaining == 0 {
            return Err(DisplayError::BusWriteError);
        }
        self.remaining = self.remaining - 1;
        let copy = copy_bytes(bytes);
        self.records.push(Record::Data(copy));
        proof {
            assert(final(self).log() =~~= old(self).log().push(TxRec::Data(bytes@)));
        }
        Ok(())
    }
}

/// A delay provider that waits for nothing and records every request; its
/// list of delays is the trace a test inspects.
pub struct RecordingDelay {
    pub delays: Vec<u16>,
}

impl RecordingDelay {
    pub fn new() -> (r: RecordingDelay)
        ensures
            r.log() == Seq::<u16>::empty(),
    {
        RecordingDelay { delays: Vec::new() }
    }
}

impl Delay for RecordingDelay {
    open spec fn log(&self) -> Seq<u16> {
        self.delays@
    }

    fn delay_ms(&mut self, ms: u16) {
        self.delays.push(ms);
    }
}

} // verus!
