//! Bridging lemmas between the deep views of the byte-vector structures used
//! on the wire and their element views.

use vstd::prelude::*;

verus! {

/// A byte vector's deep view is its view.
pub broadcast proof fn lemma_bytes_deep_view(v: Vec<u8>)
    ensures
        #[trigger] v.deep_view() == v@,
{
    assert(v.deep_view() =~= v@);
}

/// Pointwise description of the deep view of a header list.
pub broadcast proof fn lemma_header_list_deep_view(v: Vec<(Vec<u8>, Vec<u8>)>)
    ensures
        (#[trigger] v.deep_view()).len() == v@.len(),
        forall|i: int| 0 <= i < v@.len() ==> v.deep_view()[i] == (v@[i].0@, v@[i].1@),
{
    assert forall|i: int| 0 <= i < v@.len() implies v.deep_view()[i] == (v@[i].0@, v@[i].1@) by {
        lemma_bytes_deep_view(v@[i].0);
        lemma_bytes_deep_view(v@[i].1);
    }
}

/// Pointwise description of the deep view of a capture-group list.
pub broadcast proof fn lemma_caps_deep_view(v: Vec<Option<Vec<u8>>>)
    ensures
        (#[trigger] v.deep_view()).len() == v@.len(),
        forall|i: int|
            0 <= i < v@.len() ==> v.deep_view()[i] == match v@[i] {
                Some(b) => Some(b@),
                None => None::<Seq<u8>>,
            },
{
    assert forall|i: int|
        0 <= i < v@.len() implies v.deep_view()[i] == match v@[i] {
        Some(b) => Some(b@),
        None => None::<Seq<u8>>,
    } by {
        if let Some(b) = v@[i] {
            lemma_bytes_deep_view(b);
        }
    }
}

} // verus!
