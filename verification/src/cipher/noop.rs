use vstd::prelude::*;

use crate::cipher::suite::StreamCipherExt;

verus! {

/// A cipher that leaves data as it is.
#[derive(Debug)]
pub struct NoOp;

impl StreamCipherExt for NoOp {
    open spec fn valid(&self) -> bool {
        true
    }

    open spec fn modifies(&self) -> bool {
        false
    }

    open spec fn can_apply(&self, len: nat) -> bool {
        true
    }

    open spec fn applied(&self, data: Seq<u8>) -> Seq<u8> {
        data
    }

    open spec fn advanced(&self, len: nat) -> Self {
        NoOp
    }

    open spec fn can_rewind(&self, cnt: nat) -> bool {
        true
    }

    open spec fn rewound(&self, cnt: nat) -> Self {
        NoOp
    }

    fn apply_keystream(&mut self, buf: &mut Vec<u8>) {
    }

    fn will_modify_data(&self) -> (r: bool) {
        false
    }

    fn rewind(&mut self, cnt: usize) {
    }

    proof fn lemma_rewind_after_apply(&self, l: nat, k: nat) {
    }

    proof fn lemma_advance_zero(&self) {
    }

    proof fn lemma_apply_in_chunks(&self, a: Seq<u8>, b: Seq<u8>) {
    }

    proof fn lemma_applied_len(&self, data: Seq<u8>) {
    }
}

/// A cipher that leaves data as it is.
pub fn new_no_op() -> (r: NoOp)
    ensures
        !r.modifies(),
{
    NoOp
}

} // verus!
