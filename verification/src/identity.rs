//! Public identities and record addresses: 32-byte keys, as the host chain
//! represents both signers and account addresses.

use vstd::prelude::*;

verus! {

/// The length, in bytes, of a public identity or record address.
pub const KEY_LEN: usize = 32;

/// A 32-byte public identity. The same shape serves as a record address,
/// since record addresses are derived into the key space.
pub struct Pubkey {
    pub bytes: Vec<u8>,
}

impl View for Pubkey {
    type V = Seq<u8>;

    open spec fn view(&self) -> Seq<u8> {
        self.bytes@
    }
}

impl Clone for Pubkey {
    fn clone(&self) -> (r: Self)
        ensures
            r@ == self@,
    {
        let r = Pubkey { bytes: self.bytes.clone() };
        proof {
            assert(r@ =~= self@);
        }
        r
    }
}

impl Pubkey {
    /// Well-formed: exactly 32 bytes long.
    pub open spec fn wf(&self) -> bool {
        self@.len() == KEY_LEN
    }

    /// Wraps 32 raw bytes as a key.
    pub fn new(bytes: Vec<u8>) -> (r: Pubkey)
        requires
            bytes@.len() == KEY_LEN,
        ensures
            r@ == bytes@,
            r.wf(),
    {
        Pubkey { bytes }
    }

    /// Byte-for-byte equality of two keys.
    pub fn eq_key(&self, other: &Pubkey) -> (r: bool)
        ensures
            r <==> self@ == other@,
    {
        let r = self.bytes == other.bytes;
        proof {
            if r {
                assert(self@ =~= other@);
            }
        }
        r
    }
}

} // verus!
