use vstd::prelude::*;

verus! {

/// Representation type negotiated by `TYPE`.
#[derive(Debug, Clone, Copy, PartialEq, Eq, Structural)]
pub enum FileType {
    Ascii,
    Ebcdic,
    Image,
    NoPrint,
    Telnet,
}

} // verus!
