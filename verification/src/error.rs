use vstd::prelude::*;

verus! {

/// Text of the error raised when the command line is wrong.
pub const COMMAND_FAILED: &'static str = "Command failed";

/// Text of the error raised when a configuration entry is missing or wrong.
pub const CONFIG_ERROR: &'static str = "Config error";

/// Everything that can go wrong in the library's logic.
#[derive(Debug)]
pub enum ProxyError {
    /// A message of an unknown type was received.
    Message,
    /// A message of a known type arrived where it is not allowed.
    MessageType,
    /// A channel could not be registered on a closed connection.
    Register,
    /// The connection was already closed.
    Closed,
    /// No connection to the remote server is available.
    NoConnection,
    /// The stream cipher failed while encrypting.
    Encrypt,
    /// The stream cipher failed while decrypting.
    Decrypt,
    /// The stream cipher failed.
    Crypto,
    /// A connection did not start with the encrypted magic code.
    MagicCode,
    /// A SOCKS5 message did not start with version 5.
    InvalidVersion,
    /// The SOCKS5 client asked for a command other than CONNECT.
    UnsupportedCommand,
    /// The SOCKS5 reserved byte was not zero.
    InvalidReserved,
    /// The SOCKS5 address type is unknown.
    InvalidAddressType,
    /// Bytes that should hold a UTF-8 text do not.
    InvalidUtf8,
    /// A slice did not have the length of the array it was converted to.
    SliceLength,
    /// An error with a message of its own.
    Custom(String),
}

} // verus!
