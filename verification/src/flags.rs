//! Hardware-independent permission flags requested by mapper callers.

use vstd::prelude::*;

verus! {

/// Capabilities a caller may request for a mapping. The mapper translates
/// these into hardware flag bits, always forcing Valid and Readable.
#[derive(Clone, Copy, Debug, PartialEq, Eq, Structural)]
pub struct VirtualMemoryFlags {
    pub writeable: bool,
    pub executable: bool,
    pub user_accessible: bool,
    pub mmio: bool,
}

impl VirtualMemoryFlags {
    /// No capability beyond read access.
    pub fn empty() -> (r: Self)
        ensures
            r == (VirtualMemoryFlags {
                writeable: false,
                executable: false,
                user_accessible: false,
                mmio: false,
            }),
    {
        VirtualMemoryFlags { writeable: false, executable: false, user_accessible: false, mmio: false }
    }

    pub fn new(writeable: bool, executable: bool, user_accessible: bool, mmio: bool) -> (r: Self)
        ensures
            r == (VirtualMemoryFlags { writeable, executable, user_accessible, mmio }),
    {
        VirtualMemoryFlags { writeable, executable, user_accessible, mmio }
    }
}

} // verus!
