//! Connection state of a serial session: which port handle is held, writes
//! through it, and the choice of a port by name.
use vstd::prelude::*;

verus! {

/// Why an operation on the session failed.
#[derive(Debug)]
pub enum SerialError {
    /// The named port could not be opened.
    PortOpenFailed(String),
    /// The port could not be duplicated for the read loop.
    PortCloneFailed(String),
    /// A write was attempted while no port is held.
    NotConnected,
    /// Writing the bytes failed.
    WriteFailed(String),
    /// Flushing after the write failed.
    FlushFailed(String),
}

/// The writing side of an open serial port. An implementation keeps, as a
/// model, the record of the calls made on it and of how each one ended.
/// Verified implementations define that record; the default bodies only let
/// implementations outside verified code compile, and nothing checks the
/// contracts below against those.
pub trait PortWriter {
    /// Every `write_all` so far, in order: the bytes handed over and whether
    /// the call succeeded.
    closed spec fn writes(&self) -> Seq<(Seq<u8>, bool)> {
        Seq::empty()
    }

    /// Every `flush` so far, in order: whether the call succeeded.
    closed spec fn flushes(&self) -> Seq<bool> {
        Seq::empty()
    }

    /// Writes every byte of `data`, or reports why it could not.
    fn write_all(&mut self, data: &[u8]) -> (r: Result<(), String>)
        ensures
            final(self).writes() == old(self).writes().push((data@, r is Ok)),
            final(self).flushes() == old(self).flushes(),
    ;

    /// Waits until what was written has gone out, or reports why it could not.
    fn flush(&mut self) -> (r: Result<(), String>)
        ensures
            final(self).writes() == old(self).writes(),
            final(self).flushes() == old(self).flushes().push(r is Ok),
    ;
}

/// A port that keeps in memory what is written to it and never fails.
pub struct MemoryPort {
    sent: Vec<Vec<u8>>,
    flushed: Ghost<Seq<bool>>,
}

impl MemoryPort {
    /// A port to which nothing has been written.
    pub fn new() -> (r: Self)
        ensures
            r.writes().len() == 0,
            r.flushes().len() == 0,
    {
        MemoryPort { sent: Vec::new(), flushed: Ghost(Seq::empty()) }
    }

    /// The bytes of each write so far, in order.
    pub fn sent(&self) -> (r: &Vec<Vec<u8>>)
        ensures
            r@.len() == self.writes().len(),
            forall|i: int| 0 <= i < r@.len() ==> #[trigger] r@[i]@ == self.writes()[i].0,
    {
        &self.sent
    }
}

impl PortWriter for MemoryPort {
    closed spec fn writes(&self) -> Seq<(Seq<u8>, bool)> {
        self.sent@.map_values(|v: Vec<u8>| (v@, true))
    }

    closed spec fn flushes(&self) -> Seq<bool> {
        self.flushed@
    }

    fn write_all(&mut self, data: &[u8]) -> (r: Result<(), String>) {
        let mut copy: Vec<u8> = Vec::new();
        let mut i: usize = 0;
        while i < data.len()
            invariant
                i <= data@.len(),
                copy@ == data@.take(i as int),
            decreases data@.len() - i,
        {
            copy.push(data[i]);
            i = i + 1;
        }
        assert(data@.take(data@.len() as int) == data@);
        self.sent.push(copy);
        assert(self.sent@.map_values(|v: Vec<u8>| (v@, true)) == old(self).sent@.map_values(
            |v: Vec<u8>| (v@, true),
        ).push((data@, true)));
        Ok(())
    }

    fn flush(&mut self) -> (r: Result<(), String>) {
        self.flushed = Ghost(self.flushed@.push(true));
        Ok(())
    }
}

/// What a call of `write` with `data` that returned `r` did to the port,
/// going from `before` to `after`: one `write_all` of `data`; then, if it
/// succeeded, one `flush`. `r` is `Ok` when both succeeded, `WriteFailed`
/// when the write failed (no flush is tried), `FlushFailed` when the flush
/// failed.
pub open spec fn write_effect<P: PortWriter>(
    before: P,
    after: P,
    data: Seq<u8>,
    r: Result<(), SerialError>,
) -> bool {
    let write_ok = after.writes().last().1;
    let flush_ok = after.flushes().last();
    &&& after.writes() == before.writes().push((data, write_ok))
    &&& if write_ok {
        &&& after.flushes() == before.flushes().push(flush_ok)
        &&& if flush_ok {
            r is Ok
        } else {
            r matches Err(SerialError::FlushFailed(_))
        }
    } else {
        &&& after.flushes() == before.flushes()
        &&& r matches Err(SerialError::WriteFailed(_))
    }
}

/// Owner of the port handle used for writes; `None` while disconnected.
pub struct SerialManager<P> {
    port: Option<P>,
}

impl<P> View for SerialManager<P> {
    type V = Option<P>;

    closed spec fn view(&self) -> Option<P> {
        self.port
    }
}

/// Whether a port handle is held in state `s`.
pub open spec fn connected<P>(s: Option<P>) -> bool {
    s is Some
}

impl<P> SerialManager<P> {
    /// A manager that holds no port.
    pub fn new() -> (r: Self)
        ensures
            r@ is None,
    {
        SerialManager { port: None }
    }

    /// Takes over a freshly opened port, or the reason why opening it failed.
    /// Any port held before is dropped either way; on failure the manager is
    /// left disconnected and the failure is handed back.
    pub fn connect(&mut self, opened: Result<P, SerialError>) -> (r: Result<(), SerialError>)
        ensures
            match opened {
                Ok(p) => final(self)@ == Some(p) && r is Ok,
                Err(e) => final(self)@ is None && r == Err::<(), SerialError>(e),
            },
    {
        self.port = None;
        match opened {
            Ok(p) => {
                self.port = Some(p);
                Ok(())
            },
            Err(e) => Err(e),
        }
    }

    /// Whether a port handle is held.
    pub fn is_connected(&self) -> (r: bool)
        ensures
            r == connected(self@),
    {
        self.port.is_some()
    }

    /// Drops the port handle; does nothing when none is held, so a second
    /// call leaves the state as the first one left it.
    pub fn disconnect(&mut self)
        ensures
            final(self)@ is None,
            old(self)@ is None ==> final(self)@ == old(self)@,
    {
        self.port = None;
    }
}

impl<P: PortWriter> SerialManager<P> {
    /// Writes `data` to the held port and flushes it. Fails with
    /// `NotConnected` when no port is held; a failed write or flush is
    /// reported, not retried, and the port stays held.
    pub fn write(&mut self, data: &[u8]) -> (r: Result<(), SerialError>)
        ensures
            !connected(old(self)@) ==> final(self)@ == old(self)@ && r == Err::<(), SerialError>(
                SerialError::NotConnected,
            ),
            connected(old(self)@) ==> connected(final(self)@) && write_effect(
                old(self)@->0,
                final(self)@->0,
                data@,
                r,
            ),
    {
        match &mut self.port {
            None => Err(SerialError::NotConnected),
            Some(port) => {
                match port.write_all(data) {
                    Err(e) => {
                        return Err(SerialError::WriteFailed(e));
                    },
                    Ok(()) => {},
                }
                match port.flush() {
                    Err(e) => Err(SerialError::FlushFailed(e)),
                    Ok(()) => Ok(()),
                }
            },
        }
    }
}

/// The state that `disconnect` leaves is not `connected`: the condition on
/// which `is_connected` returns false and `write` fails with `NotConnected`.
pub proof fn lemma_disconnected_after_disconnect<P>(s: Option<P>)
    requires
        s is None,
    ensures
        !connected(s),
{
}

} // verus!
