//! CoAP messages as plain values, and their encoding.

use coap_lite::{CoapOption as CodecOption, MessageClass, MessageType, Packet};
use vstd::prelude::*;


verus! {

/// Number of the If-Match option.
pub const IF_MATCH: u16 = 1;

/// Number of the Uri-Path option.
pub const URI_PATH: u16 = 11;

/// Number of the Content-Format option.
pub const CONTENT_FORMAT: u16 = 12;

/// Message type of a confirmable message.
pub const COAP_CONFIRMABLE: u8 = 0;

/// Message type of a non-confirmable message.
pub const COAP_NON_CONFIRMABLE: u8 = 1;

/// Message type of an acknowledgement.
pub const COAP_ACKNOWLEDGEMENT: u8 = 2;

/// Message type of a reset.
pub const COAP_RESET: u8 = 3;

/// The longest token that a message can carry.
pub const MAX_COAP_TOKEN_LEN: usize = 8;

/// A CoAP message as a mathematical value.
pub struct Coap {
    /// Protocol version.
    pub version: u8,
    /// Message type.
    pub message_type: u8,
    /// Method or response code.
    pub code: u8,
    /// Message identifier.
    pub message_id: u16,
    /// Token bytes.
    pub token: Seq<u8>,
    /// Option numbers and values.
    pub options: Seq<(u16, Seq<u8>)>,
    /// Payload bytes.
    pub payload: Seq<u8>,
}

/// One option of a CoAP message.
#[derive(Debug)]
pub struct CoapOption {
    /// Option number.
    pub number: u16,
    /// Option value.
    pub value: Vec<u8>,
}

impl CoapOption {
    /// Creates an option from its number and value.
    pub fn new(number: u16, value: Vec<u8>) -> (result: Self)
        ensures
            result.number == number,
            result.value@ == value@,
    {
        CoapOption { number, value }
    }

    /// Returns the option number.
    pub fn number(&self) -> (result: u16)
        ensures
            result == self.number,
    {
        self.number
    }

    /// Returns the option value.
    pub fn value(&self) -> (result: &[u8])
        ensures
            result@ == self.value@,
    {
        self.value.as_slice()
    }
}

/// The numbers and values of a list of options.
pub open spec fn options_view(options: Seq<CoapOption>) -> Seq<(u16, Seq<u8>)> {
    Seq::new(options.len(), |i: int| (options[i].number, options[i].value@))
}

/// A CoAP message.
#[derive(Debug)]
pub struct CoapMessage {
    /// Protocol version.
    pub version: u8,
    /// Message type.
    pub message_type: u8,
    /// Method or response code.
    pub code: u8,
    /// Message identifier.
    pub message_id: u16,
    /// Token bytes.
    pub token: Vec<u8>,
    /// Options in the order of their numbers.
    pub options: Vec<CoapOption>,
    /// Payload bytes.
    pub payload: Vec<u8>,
}

impl View for CoapMessage {
    type V = Coap;

    open spec fn view(&self) -> Coap {
        Coap {
            version: self.version,
            message_type: self.message_type,
            code: self.code,
            message_id: self.message_id,
            token: self.token@,
            options: options_view(self.options@),
            payload: self.payload@,
        }
    }
}

/// A message field that no CoAP message can hold.
#[derive(Debug, Clone, Copy, PartialEq, Eq, Structural)]
pub enum PacketError {
    /// The version does not fit two bits.
    Version,
    /// The message type does not fit two bits.
    MessageType,
    /// The token is longer than eight bytes.
    Token,
}

/// Whether the header fields of a message fit their encoding.
pub open spec fn fits_header(message: Coap) -> bool {
    message.version <= 3 && message.message_type <= 3 && message.token.len() <= 8
}

impl CoapMessage {
    /// Creates a message from its fields.
    pub fn from_parts(
        version: u8,
        message_type: u8,
        code: u8,
        message_id: u16,
        token: Vec<u8>,
        options: Vec<CoapOption>,
        payload: Vec<u8>,
    ) -> (result: Result<Self, PacketError>)
        ensures
            match result {
                Ok(message) => {
                    &&& fits_header(message@)
                    &&& message@ == (Coap {
                        version,
                        message_type,
                        code,
                        message_id,
                        token: token@,
                        options: options_view(options@),
                        payload: payload@,
                    })
                },
                Err(PacketError::Version) => version > 3,
                Err(PacketError::MessageType) => version <= 3 && message_type > 3,
                Err(PacketError::Token) => version <= 3 && message_type <= 3 && token@.len() > 8,
            },
    {
        if version > 3 {
            return Err(PacketError::Version);
        }
        if message_type > 3 {
            return Err(PacketError::MessageType);
        }
        if token.len() > MAX_COAP_TOKEN_LEN {
            return Err(PacketError::Token);
        }
        Ok(CoapMessage { version, message_type, code, message_id, token, options, payload })
    }

    /// Returns the message type.
    pub fn message_type(&self) -> (result: u8)
        ensures
            result == self@.message_type,
    {
        self.message_type
    }

    /// Returns the method or response code.
    pub fn code(&self) -> (result: u8)
        ensures
            result == self@.code,
    {
        self.code
    }

    /// Returns the message identifier.
    pub fn message_id(&self) -> (result: u16)
        ensures
            result == self@.message_id,
    {
        self.message_id
    }

    /// Returns the token bytes.
    pub fn token(&self) -> (result: &[u8])
        ensures
            result@ == self@.token,
    {
        self.token.as_slice()
    }

    /// Returns the payload bytes.
    pub fn payload(&self) -> (result: &[u8])
        ensures
            result@ == self@.payload,
    {
        self.payload.as_slice()
    }
}

/// A packet of the CoAP codec.
#[verifier::external_type_specification]
#[verifier::external_body]
pub struct ExCodecPacket(Packet);

/// The message that `coap_lite::Packet::from_bytes` reads from a datagram.
pub uninterp spec fn coap_read(datagram: Seq<u8>) -> Option<Coap>;

/// The datagram that `coap_lite::Packet::to_bytes` writes for a message.
pub uninterp spec fn coap_written(message: Coap) -> Option<Seq<u8>>;

/// The datagram that `coap_lite::Packet::to_bytes_unlimited` writes for a
/// message.
pub uninterp spec fn coap_written_unlimited(message: Coap) -> Seq<u8>;

/// Whether the options come in the order of their numbers.
pub open spec fn options_ordered(options: Seq<(u16, Seq<u8>)>) -> bool {
    forall|i: int, j: int|
        0 <= i <= j < options.len() ==> (#[trigger] options[i]).0 <= (#[trigger] options[j]).0
}

/// Whether a message is written in a form that reads back unchanged: a
/// message that is not empty, whose options come in order and need no
/// two-byte extension.
pub open spec fn reads_back(message: Coap) -> bool {
    &&& fits_header(message)
    &&& message.code != 0
    &&& options_ordered(message.options)
    &&& forall|i: int|
        0 <= i < message.options.len() ==> (#[trigger] message.options[i]).0 < 269
            && message.options[i].1.len() < 269
}

/// An upper bound of the number of bytes that some options take.
pub open spec fn options_size(options: Seq<(u16, Seq<u8>)>) -> nat
    decreases options.len(),
{
    if options.len() == 0 {
        0
    } else {
        options_size(options.drop_last()) + 5 + options.last().1.len()
    }
}

/// An upper bound of the number of bytes that a message takes.
pub open spec fn message_size(message: Coap) -> nat {
    5 + message.token.len() + options_size(message.options) + message.payload.len()
}

/// Moves the fields of a codec packet into a message.
#[verifier::external_body]
fn packet_in(packet: Packet) -> CoapMessage {
    CoapMessage {
        version: packet.header.get_version(),
        message_type: match packet.header.get_type() {
            MessageType::Confirmable => COAP_CONFIRMABLE,
            MessageType::NonConfirmable => COAP_NON_CONFIRMABLE,
            MessageType::Acknowledgement => COAP_ACKNOWLEDGEMENT,
            MessageType::Reset => COAP_RESET,
        },
        code: packet.header.code.into(),
        message_id: packet.header.message_id,
        token: packet.get_token().to_vec(),
        options: packet.options().flat_map(|(number, values)| values.iter().map(|value| CoapOption::new(*number, value.clone()))).collect(),
        payload: packet.payload,
    }
}

/// Moves the fields of a message into a codec packet.
#[verifier::external_body]
fn packet_out(message: &CoapMessage) -> Packet {
    let mut packet = Packet::new();
    packet.header.set_version(message.version);
    packet.header.set_type(match message.message_type {
        0 => MessageType::Confirmable,
        1 => MessageType::NonConfirmable,
        2 => MessageType::Acknowledgement,
        _ => MessageType::Reset,
    });
    packet.header.code = MessageClass::from(message.code);
    packet.header.message_id = message.message_id;
    packet.set_token(message.token.clone());
    message.options.iter().for_each(|option| packet.add_option(CodecOption::from(option.number), option.value.clone()));
    packet.payload = message.payload.clone();
    packet
}

/// Calls `coap_lite::Packet::from_bytes` and returns the message that it
/// reads, or the text of its error. A message that is read fits the header
/// fields and holds its options in order. What an error says is left open.
#[verifier::external_body]
pub(crate) fn read_coap(datagram: &[u8]) -> (result: Result<CoapMessage, String>)
    ensures
        match result {
            Ok(message) => coap_read(datagram@) == Some(message@) && fits_header(message@)
                && options_ordered(message@.options),
            Err(_) => coap_read(datagram@) is None,
        },
{
    match Packet::from_bytes(datagram) {
        Ok(packet) => Ok(packet_in(packet)),
        Err(error) => Err(error.to_string()),
    }
}

/// Calls `coap_lite::Packet::to_bytes`, which refuses a message of more than
/// 1280 bytes, and returns the datagram or the text of its error. A datagram
/// of a message in reading order reads back as that message. What an error
/// says is left open.
#[verifier::external_body]
pub(crate) fn write_coap(message: &CoapMessage) -> (result: Result<Vec<u8>, String>)
    requires
        fits_header(message@),
    ensures
        match result {
            Ok(datagram) => coap_written(message@) == Some(datagram@) && (reads_back(message@)
                ==> coap_read(datagram@) == Some(message@)),
            Err(_) => coap_written(message@) is None && message_size(message@) > 1280,
        },
{
    packet_out(message).to_bytes().map_err(|error| error.to_string())
}

/// Calls `coap_lite::Packet::to_bytes_unlimited`, which accepts a message of
/// any size. A datagram of a message in reading order reads back as that
/// message.
#[verifier::external_body]
pub(crate) fn write_coap_unlimited(message: &CoapMessage) -> (result: Vec<u8>)
    requires
        fits_header(message@),
    ensures
        result@ == coap_written_unlimited(message@),
        reads_back(message@) ==> coap_read(result@) == Some(message@),
{
    packet_out(message).to_bytes_unlimited().unwrap_or_default()
}

} // verus!
