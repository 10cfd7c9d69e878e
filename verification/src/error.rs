use vstd::prelude::*;

verus! {

/// The error taxonomy of the boot pipeline.
///
/// Every fallible operation of the library returns one of these; nothing
/// panics. `HardwareFault` covers an absent or failing device, including a
/// read past the end of the device image. `FormatInvalid` covers bad
/// signatures and magic numbers, malformed executable headers, and a path
/// component that is not a directory. `NotFound` covers a missing path
/// component or a missing kernel. `ResourceExhausted` covers a too-small
/// buffer, a file over the size cap, an allocator out of space, and a
/// reservation that overlaps in-use memory. `Unsupported` covers
/// triple-indirect chains, disallowed feature flags, and block sizes
/// outside the supported bounds.
#[derive(Clone, Copy, Debug, PartialEq, Eq, Structural)]
pub enum BootError {
    HardwareFault,
    FormatInvalid,
    NotFound,
    ResourceExhausted,
    Unsupported,
}

} // verus!
