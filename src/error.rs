use vstd::prelude::*;

verus! {

/// Why a stage of the pipeline gave up.
#[derive(Debug, Clone, Copy, PartialEq, Eq, Structural)]
pub enum PeelError {
    /// No `<~` was found, the text is not UTF-8, or the ASCII85 body does not decode.
    MalformedArmor,
    /// A stage that needs at least one byte was given none.
    EmptyInput,
    /// Some key column has no byte that makes it printable.
    NoKeyCandidate,
    /// The packet stream does not end exactly on a packet boundary.
    TruncatedStream,
    /// A packet does not start with the IPv4 version/IHL byte `0x45`.
    UnsupportedPacket,
    /// The unwrapped integrity value differs from the header's IV.
    IntegrityFailure,
    /// The ciphertext is empty or not a whole number of AES blocks.
    BadBlockSize,
}

/// The view of an executable result.
pub open spec fn result_view(r: Result<Vec<u8>, PeelError>) -> Result<Seq<u8>, PeelError> {
    match r {
        Ok(v) => Ok(v@),
        Err(e) => Err(e),
    }
}

} // verus!
