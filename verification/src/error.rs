use vstd::prelude::*;

verus! {

/// What can go wrong while reading or writing a DNS message, or while
/// resolving a query.
#[derive(Clone, Copy, Debug, PartialEq, Eq, Structural)]
pub enum DnsError {
    /// A field, label, record or pointer target lies beyond the end of the buffer.
    TruncatedMessage,
    /// A label is empty or longer than 63 octets, or a name is longer than 255 octets.
    InvalidLabel,
    /// Following compression pointers would read an offset a second time.
    CompressionLoop,
    /// The upstream exchange failed, or the upstream answer could not be decoded.
    ResolutionFailed,
}

} // verus!
