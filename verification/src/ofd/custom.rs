//! Fields of this application's own, kept in records beside the fiscal ones.
use vstd::prelude::*;

verus! {

/// The provider's own identifier of a document (text).
pub struct Id;

impl Id {
    pub const TAG: u16 = 29000;
}

/// The providers a document was asked from (text, repeated).
pub struct ProviderId;

impl ProviderId {
    pub const TAG: u16 = 29001;
}

/// The provider's session identifier (text).
pub struct SessionId;

impl SessionId {
    pub const TAG: u16 = 29002;
}

/// The identifier of the document at the tax service (number).
pub struct FdId;

impl FdId {
    pub const TAG: u16 = 29003;
}

/// The three-byte code of a transport-card payment (bytes).
pub struct IcomCode;

impl IcomCode {
    pub const TAG: u16 = 29004;
}

} // verus!
