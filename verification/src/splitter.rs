//! The splitter: cuts one telegram into its object code and its payload.
use vstd::prelude::*;
use crate::text::{field_len, lemma_field_len, lowercase, lower_byte, to_lowercase};

verus! {

/// The byte `(`, which opens the payload.
pub const OPEN: u8 = 0x28;

/// The bytes at the end of a telegram that belong to no payload: the byte
/// that closes it and the two bytes of the terminator.
pub const TAIL: usize = 3;

/// Where the payload of `t` ends, given that it opens at `k`: before the
/// last three bytes, and never before its own start.
pub open spec fn payload_end(t: Seq<u8>, k: int) -> int {
    if t.len() - TAIL > k + 1 {
        t.len() - TAIL
    } else {
        k + 1
    }
}

/// The object code and payload of a telegram, both in lower case, or `None`
/// where the telegram holds no `(`. The code is what stands before the first
/// `(`; the payload is what stands after it, short of the last three bytes.
pub open spec fn split_spec(t: Seq<u8>) -> Option<(Seq<u8>, Seq<u8>)> {
    let k = field_len(t, OPEN);
    if 0 <= k < t.len() {
        Some((lowercase(t.take(k)), lowercase(t.subrange(k + 1, payload_end(t, k)))))
    } else {
        None
    }
}

/// The bytes of a split that may or may not be there.
pub open spec fn split_view(r: Option<(Vec<u8>, Vec<u8>)>) -> Option<(Seq<u8>, Seq<u8>)> {
    match r {
        Some((code, payload)) => Some((code@, payload@)),
        None => None,
    }
}

/// Cuts a telegram into object code and payload. Every byte string has an
/// answer: `None` exactly when it holds no `(`, which is the shape of the
/// identification lines that come before the data. A code never holds `(`.
pub fn split(telegram: &[u8]) -> (r: Option<(Vec<u8>, Vec<u8>)>)
    ensures
        split_view(r) == split_spec(telegram@),
        r.is_some() <==> telegram@.contains(OPEN),
        r matches Some((code, _)) ==> !code@.contains(OPEN),
{
    let n: usize = telegram.len();
    let mut k: usize = 0;
    while k < n && telegram[k] != OPEN
        invariant
            k <= n,
            n == telegram@.len(),
            forall|j: int| 0 <= j < k ==> telegram@[j] != OPEN,
        decreases n - k,
    {
        k += 1;
    }
    proof {
        lemma_field_len(telegram@, OPEN, k as int);
    }
    if k == n {
        return None;
    }
    assert(telegram@[k as int] == OPEN);
    let end: usize = if n >= TAIL && n - TAIL > k + 1 { n - TAIL } else { k + 1 };
    let code = to_lowercase(vstd::slice::slice_subrange(telegram, 0, k));
    let payload = to_lowercase(vstd::slice::slice_subrange(telegram, k + 1, end));
    proof {
        assert(telegram@.subrange(0, k as int) =~= telegram@.take(k as int));
        assert forall|j: int| 0 <= j < code@.len() implies code@[j] != OPEN by {
            assert(code@[j] == lower_byte(telegram@[j]));
        }
    }
    Some((code, payload))
}

} // verus!
