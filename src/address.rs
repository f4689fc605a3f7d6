use crate::encoding::hex_of;
use crate::hash::{bytes32_eq, prefixed_hex};
use vstd::prelude::*;

verus! {

/// The 32-byte identifier of an account. Its bytes carry no structure.
#[derive(Clone, Copy, Debug, Hash)]
pub struct Address(pub [u8; 32]);

impl View for Address {
    type V = Seq<u8>;

    open spec fn view(&self) -> Seq<u8> {
        self.0@
    }
}

impl PartialEq for Address {
    fn eq(&self, o: &Address) -> (r: bool) {
        bytes32_eq(&self.0, &o.0)
    }
}

impl vstd::std_specs::cmp::PartialEqSpecImpl for Address {
    open spec fn obeys_eq_spec() -> bool {
        true
    }

    open spec fn eq_spec(&self, o: &Address) -> bool {
        self@ == o@
    }
}

impl Eq for Address {
}

impl Address {
    /// `0x` followed by the lowercase hexadecimal form of the bytes.
    pub fn to_hex_string(&self) -> (r: String)
        ensures
            r@ == "0x"@ + hex_of(self@),
    {
        prefixed_hex(self.0.as_slice())
    }
}

} // verus!
