//! Building argument lists for the tools the library runs.
use vstd::prelude::*;

verus! {

/// Appends `s` to the argument list.
pub fn push_arg(v: &mut Vec<String>, s: String)
    ensures
        final(v).deep_view() == old(v).deep_view().push(s@),
{
    let ghost before = v.deep_view();
    let ghost old_v = v@;
    v.push(s);
    assert(v.deep_view() =~= before.push(s@)) by {
        assert forall|k: int| 0 <= k < v@.len() implies v.deep_view()[k] == before.push(s@)[k] by {
            if k < old_v.len() {
                assert(v@[k] == old_v[k]);
            }
        }
    }
}

/// Appends the literal text `s` to the argument list.
pub fn push_lit(v: &mut Vec<String>, s: &str)
    ensures
        final(v).deep_view() == old(v).deep_view().push(s@),
{
    push_arg(v, crate::text::owned(s));
}

} // verus!
