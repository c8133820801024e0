//! CAN frames as they travel on the bus.

use vstd::prelude::*;

verus! {

/// The largest 11-bit identifier.
pub const MAX_STANDARD_ID: u16 = 0x7FF;

/// The largest 29-bit identifier.
pub const MAX_EXTENDED_ID: u32 = 0x1FFF_FFFF;

/// A CAN identifier.
#[derive(Clone, Copy, Debug, PartialEq, Eq, Structural)]
pub enum Id {
    /// 11-bit identifier.
    Standard(u16),
    /// 29-bit identifier.
    Extended(u32),
}

impl Id {
    /// Whether the identifier fits its format.
    pub open spec fn wf(self) -> bool {
        match self {
            Id::Standard(n) => n <= MAX_STANDARD_ID,
            Id::Extended(n) => n <= MAX_EXTENDED_ID,
        }
    }

    /// The identifier's number.
    pub open spec fn number(self) -> u32 {
        match self {
            Id::Standard(n) => n as u32,
            Id::Extended(n) => n,
        }
    }

    /// The 11-bit identifier with the given number, if there is one.
    pub fn standard(raw: u16) -> (r: Option<Id>)
        ensures
            r == (if raw <= MAX_STANDARD_ID {
                Some(Id::Standard(raw))
            } else {
                None::<Id>
            }),
    {
        if raw <= MAX_STANDARD_ID {
            Some(Id::Standard(raw))
        } else {
            None
        }
    }

    /// The 29-bit identifier with the given number, if there is one.
    pub fn extended(raw: u32) -> (r: Option<Id>)
        ensures
            r == (if raw <= MAX_EXTENDED_ID {
                Some(Id::Extended(raw))
            } else {
                None::<Id>
            }),
    {
        if raw <= MAX_EXTENDED_ID {
            Some(Id::Extended(raw))
        } else {
            None
        }
    }

    /// The identifier's number.
    pub fn raw(&self) -> (r: u32)
        ensures
            r == self.number(),
    {
        match self {
            Id::Standard(n) => *n as u32,
            Id::Extended(n) => *n,
        }
    }
}

/// A classic CAN data frame: an identifier and up to eight bytes.
#[derive(Debug)]
pub struct CanFrame {
    id: Id,
    data: Vec<u8>,
}

impl CanFrame {
    /// The identifier.
    pub closed spec fn spec_id(self) -> Id {
        self.id
    }

    /// The payload.
    pub closed spec fn payload(self) -> Seq<u8> {
        self.data@
    }

    /// At most eight bytes and an identifier within its format.
    #[verifier::type_invariant]
    pub closed spec fn wf(self) -> bool {
        self.id.wf() && self.data@.len() <= 8
    }

    /// A frame with the given identifier and payload; none for an identifier out of range or for
    /// more than eight bytes.
    pub fn new(id: Id, data: &[u8]) -> (r: Option<CanFrame>)
        ensures
            r is Some == (id.wf() && data@.len() <= 8),
            r is Some ==> r->0.spec_id() == id && r->0.payload() == data@,
    {
        let fits: bool = match id {
            Id::Standard(n) => n <= MAX_STANDARD_ID,
            Id::Extended(n) => n <= MAX_EXTENDED_ID,
        };
        if fits && data.len() <= 8 {
            Some(CanFrame { id, data: vstd::slice::slice_to_vec(data) })
        } else {
            None
        }
    }

    /// The identifier.
    pub fn id(&self) -> (r: Id)
        ensures
            r == self.spec_id(),
            r.wf(),
    {
        proof {
            use_type_invariant(self);
        }
        self.id
    }

    /// The payload.
    pub fn data(&self) -> (r: &[u8])
        ensures
            r@ == self.payload(),
            r@.len() <= 8,
    {
        proof {
            use_type_invariant(self);
        }
        self.data.as_slice()
    }

    /// The number of payload bytes.
    pub fn dlc(&self) -> (r: usize)
        ensures
            r == self.payload().len(),
            r <= 8,
    {
        proof {
            use_type_invariant(self);
        }
        self.data.len()
    }
}

impl Clone for CanFrame {
    fn clone(&self) -> (r: Self)
        ensures
            r.spec_id() == self.spec_id(),
            r.payload() == self.payload(),
    {
        proof {
            use_type_invariant(self);
        }
        CanFrame { id: self.id, data: vstd::slice::slice_to_vec(self.data.as_slice()) }
    }
}

} // verus!
