//! Small packet-device polling seam used by the synchronous endpoint loops.

use vstd::prelude::*;

use crate::text::{decimal, decimal_string, join, join3};

verus! {

/// Why a packet device could not read or write.
#[derive(Debug)]
pub enum DeviceFailure {
    /// Nothing was ready; the device does not wait.
    WouldBlock,
    /// The operation failed, with the text of its error.
    Failed(String),
}

impl DeviceFailure {
    /// The text of this failure.
    pub open spec fn described(self) -> Seq<char> {
        match self {
            DeviceFailure::WouldBlock => "operation would block"@,
            DeviceFailure::Failed(text) => text@,
        }
    }

    /// Returns the text of this failure.
    pub fn message(&self) -> (result: String)
        ensures
            result@ == self.described(),
    {
        match self {
            DeviceFailure::WouldBlock => "operation would block".to_owned(),
            DeviceFailure::Failed(text) => text.clone(),
        }
    }
}

/// One operation of a packet device with its answer.
pub enum DeviceEvent {
    /// A read.
    Read(Result<Vec<u8>, DeviceFailure>),
    /// A write of some bytes.
    Write(Seq<u8>, Result<usize, DeviceFailure>),
}

/// A device that reads and writes complete packets.
pub trait PacketDevice {
    /// The operations that were asked of this device, in their order. A
    /// verified device says what they are; nothing is known of them otherwise.
    closed spec fn history(&self) -> Seq<DeviceEvent> {
        arbitrary()
    }

    /// Reads one packet.
    fn read_packet(&mut self) -> (result: Result<Vec<u8>, DeviceFailure>)
        ensures
            final(self).history() == old(self).history().push(DeviceEvent::Read(result)),
    ;

    /// Writes one packet and returns how many of its bytes were taken.
    fn write_packet(&mut self, packet: &[u8]) -> (result: Result<usize, DeviceFailure>)
        ensures
            final(self).history() == old(self).history().push(
                DeviceEvent::Write(packet@, result),
            ),
    ;
}

/// The result of one bounded packet-device poll.
#[derive(Debug)]
pub enum PacketPoll {
    /// No packet was ready.
    Idle,
    /// One complete packet was read.
    Packet(Vec<u8>),
}

/// Errors from packet-device polling and writes.
#[derive(Debug)]
pub enum PacketLoopError {
    /// A packet-device operation failed.
    Device(DeviceFailure),
    /// The device consumed fewer bytes than one complete packet.
    ShortWrite {
        /// Number of bytes supplied to the device.
        expected: usize,
        /// Number of bytes consumed by the device.
        actual: usize,
    },
}

impl PacketLoopError {
    /// The text that describes this error.
    pub open spec fn described(self) -> Seq<char> {
        match self {
            PacketLoopError::Device(failure) => "TUN packet-device operation failed: "@
                + failure.described(),
            PacketLoopError::ShortWrite { expected, actual } => (
            "short TUN packet write: expected "@ + decimal(expected as nat) + " bytes, wrote "@
                + decimal(actual as nat)),
        }
    }

    /// Returns the text that describes this error.
    pub fn message(&self) -> (result: String)
        ensures
            result@ == self.described(),
    {
        match self {
            PacketLoopError::Device(failure) => join(
                "TUN packet-device operation failed: ",
                failure.message().as_str(),
            ),
            PacketLoopError::ShortWrite { expected, actual } => join3(
                join(
                    "short TUN packet write: expected ",
                    decimal_string(*expected as u64).as_str(),
                ).as_str(),
                " bytes, wrote ",
                decimal_string(*actual as u64).as_str(),
            ),
        }
    }
}

/// What a read means for a poll: nothing ready is no failure.
pub open spec fn poll_of(read: Result<Vec<u8>, DeviceFailure>) -> Result<
    PacketPoll,
    PacketLoopError,
> {
    match read {
        Ok(packet) => Ok(PacketPoll::Packet(packet)),
        Err(DeviceFailure::WouldBlock) => Ok(PacketPoll::Idle),
        Err(failure) => Err(PacketLoopError::Device(failure)),
    }
}

/// Returns what a read means for a poll.
pub fn poll_outcome(read: Result<Vec<u8>, DeviceFailure>) -> (result: Result<
    PacketPoll,
    PacketLoopError,
>)
    ensures
        result == poll_of(read),
{
    match read {
        Ok(packet) => Ok(PacketPoll::Packet(packet)),
        Err(DeviceFailure::WouldBlock) => Ok(PacketPoll::Idle),
        Err(failure) => Err(PacketLoopError::Device(failure)),
    }
}

/// What a write of some bytes means: a packet is written whole or not at all.
pub open spec fn write_of(expected: usize, written: Result<usize, DeviceFailure>) -> Result<
    (),
    PacketLoopError,
> {
    match written {
        Err(failure) => Err(PacketLoopError::Device(failure)),
        Ok(actual) => if actual != expected {
            Err(PacketLoopError::ShortWrite { expected, actual })
        } else {
            Ok(())
        },
    }
}

/// Returns what a write of some bytes means.
pub fn write_outcome(expected: usize, written: Result<usize, DeviceFailure>) -> (result: Result<
    (),
    PacketLoopError,
>)
    ensures
        result == write_of(expected, written),
{
    match written {
        Err(failure) => Err(PacketLoopError::Device(failure)),
        Ok(actual) => {
            if actual != expected {
                return Err(PacketLoopError::ShortWrite { expected, actual });
            }
            Ok(())
        },
    }
}

/// Owns one packet device for one endpoint event loop.
#[derive(Debug)]
pub struct PacketEventLoop<D> {
    /// The device.
    pub device: D,
}

impl<D: PacketDevice> PacketEventLoop<D> {
    /// Creates a packet event loop around its exclusive packet device.
    pub fn new(device: D) -> (result: Self)
        ensures
            result.device == device,
    {
        PacketEventLoop { device }
    }

    /// Polls once without turning the normal nonblocking idle condition into
    /// an endpoint failure. The device is asked for one read and nothing else;
    /// the result is what its answer means for a poll.
    pub fn poll(&mut self) -> (result: Result<PacketPoll, PacketLoopError>)
        ensures
            final(self).device.history().len() == old(self).device.history().len() + 1,
            final(self).device.history().drop_last() == old(self).device.history(),
            match final(self).device.history().last() {
                DeviceEvent::Read(read) => result == poll_of(read),
                DeviceEvent::Write(_, _) => false,
            },
    {
        let read = self.device.read_packet();
        assert(self.device.history().drop_last() =~= old(self).device.history());
        poll_outcome(read)
    }

    /// Writes one complete packet and rejects a short device write. The device
    /// is asked for one write, of this packet, and nothing else; the result is
    /// what its answer means for a packet of this length.
    pub fn write(&mut self, packet: &[u8]) -> (result: Result<(), PacketLoopError>)
        ensures
            final(self).device.history().len() == old(self).device.history().len() + 1,
            final(self).device.history().drop_last() == old(self).device.history(),
            match final(self).device.history().last() {
                DeviceEvent::Write(handed, written) => handed == packet@ && result == write_of(
                    packet@.len() as usize,
                    written,
                ),
                DeviceEvent::Read(_) => false,
            },
    {
        let written = self.device.write_packet(packet);
        assert(self.device.history().drop_last() =~= old(self).device.history());
        write_outcome(packet.len(), written)
    }
}

/// A poll hands on the packet that was read, is idle where nothing is ready,
/// and fails with any other failure; a write succeeds where all bytes were
/// written.
pub proof fn packets_are_read_and_written_whole(
    read: Result<Vec<u8>, DeviceFailure>,
    expected: usize,
    written: Result<usize, DeviceFailure>,
)
    ensures
        read is Ok ==> poll_of(read) is Ok && poll_of(read)->Ok_0 is Packet && poll_of(
            read,
        )->Ok_0->Packet_0 == read->Ok_0,
        read is Err && read->Err_0 is WouldBlock ==> poll_of(read) is Ok && poll_of(
            read,
        )->Ok_0 is Idle,
        read is Err && read->Err_0 is Failed ==> poll_of(read) is Err && poll_of(
            read,
        )->Err_0 is Device,
        write_of(expected, written) is Ok <==> written is Ok && written->Ok_0 == expected,
        written is Ok && written->Ok_0 != expected ==> write_of(expected, written)->Err_0
            is ShortWrite && write_of(expected, written)->Err_0->expected == expected && write_of(
            expected,
            written,
        )->Err_0->actual == written->Ok_0,
        written is Err ==> write_of(expected, written)->Err_0 is Device,
{
}

} // verus!
