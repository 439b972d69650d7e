//! A bounded copy of the raw bytes of an address.
use crate::error::{AppError, ErrorView};
use vstd::prelude::*;
use vstd::slice::slice_subrange;

verus! {

/// Between one and sixteen bytes.
#[derive(Debug, Clone, Copy)]
pub struct RawAddrBuf {
    bytes: [u8; 16],
    len: usize,
}

impl View for RawAddrBuf {
    type V = Seq<u8>;

    closed spec fn view(&self) -> Seq<u8> {
        self.bytes@.subrange(0, self.len as int)
    }
}

impl RawAddrBuf {
    #[verifier::type_invariant]
    spec fn wf(&self) -> bool {
        1 <= self.len <= 16
    }

    /// Copies the bytes; none or more than sixteen are an error with the given text.
    pub fn from_slice(value: &[u8], invalid_msg: &str) -> (r: Result<Self, AppError>)
        ensures
            r is Ok <==> 1 <= value@.len() <= 16,
            r matches Ok(buf) ==> buf@ == value@,
            r matches Err(e) ==> e@ == ErrorView::Netlink(invalid_msg@),
    {
        let n: usize = value.len();
        if n == 0 || n > 16 {
            return Err(AppError::netlink(invalid_msg));
        }
        let mut bytes: [u8; 16] = [0; 16];
        for i in 0..n
            invariant
                n == value@.len(),
                n <= 16,
                bytes@.len() == 16,
                forall|j: int| 0 <= j < i ==> bytes@[j] == value@[j],
        {
            bytes[i] = value[i];
        }
        let buf = RawAddrBuf { bytes, len: n };
        assert(buf@ =~= value@);
        Ok(buf)
    }

    /// The bytes.
    pub fn as_slice(&self) -> (r: &[u8])
        ensures
            r@ == self@,
            1 <= r@.len() <= 16,
    {
        proof {
            use_type_invariant(self);
        }
        slice_subrange(self.bytes.as_slice(), 0, self.len)
    }
}

} // verus!
