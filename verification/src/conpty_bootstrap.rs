//! The decision of the ConPTY staging step: a staged file is rewritten only
//! when its content differs from the bundled bytes.
use vstd::prelude::*;

verus! {

/// Whether a staged file must be written: always when it could not be read,
/// else when what it holds differs from `bytes`.
pub fn needs_write(existing: &Option<Vec<u8>>, bytes: &[u8]) -> (w: bool)
    ensures
        w == !(existing matches Some(e) && e@ == bytes@),
{
    match existing {
        None => true,
        Some(e) => {
            if e.len() != bytes.len() {
                return true;
            }
            let mut i: usize = 0;
            while i < e.len()
                invariant
                    i <= e@.len(),
                    e@.len() == bytes@.len(),
                    existing matches Some(x) && x@ == e@,
                    forall|j: int| 0 <= j < i ==> e@[j] == bytes@[j],
                decreases e@.len() - i,
            {
                if e[i] != bytes[i] {
                    assert(e@[i as int] != bytes@[i as int]);
                    return true;
                }
                i = i + 1;
            }
            assert(e@ =~= bytes@);
            false
        },
    }
}

} // verus!
