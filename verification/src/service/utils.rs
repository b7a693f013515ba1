use vstd::prelude::*;
use crate::text::{
    drop_empty, join_with, keep_nonempty, lemma_drop_empty_kept, lemma_drop_empty_same,
    lemma_split_join, lemma_split_pieces_free, split_by, split_spec, views,
};

verus! {

/// Splits '/' and filters empty strings
pub fn split_path(path: String) -> (r: Vec<String>)
    ensures
        views(r@) == drop_empty(split_spec(path@, '/')),
{
    keep_nonempty(split_by(path.as_str(), '/'))
}

/// The pieces of a path are not empty and hold no `/`, and splitting the
/// pieces joined with `/` gives them back.
pub proof fn law_split_path_pieces(path: Seq<char>)
    ensures
        forall|i: int|
            0 <= i < drop_empty(split_spec(path, '/')).len() ==> (#[trigger] drop_empty(
                split_spec(path, '/'),
            )[i]).len() > 0 && !drop_empty(split_spec(path, '/'))[i].contains('/'),
        drop_empty(split_spec(join_with(drop_empty(split_spec(path, '/')), '/'), '/')) == drop_empty(
            split_spec(path, '/'),
        ),
{
    let all = split_spec(path, '/');
    let parts = drop_empty(all);
    lemma_split_pieces_free(path, '/');
    lemma_drop_empty_kept(all);
    assert forall|i: int| 0 <= i < parts.len() implies (#[trigger] parts[i]).len() > 0 && !parts[i].contains('/') by {
        let j = choose|j: int| 0 <= j < all.len() && parts[i] == all[j];
        assert(!all[j].contains('/'));
    }
    if parts.len() == 0 {
        assert(join_with(parts, '/') =~= Seq::<char>::empty());
        assert(split_spec(Seq::<char>::empty(), '/') =~= seq![Seq::<char>::empty()]);
        reveal_with_fuel(drop_empty, 2);
        assert(drop_empty(seq![Seq::<char>::empty()]) =~= parts) by {
            assert(seq![Seq::<char>::empty()].drop_last() =~= Seq::<Seq<char>>::empty());
        }
    } else {
        lemma_split_join(parts, '/');
        lemma_drop_empty_same(parts);
    }
}

} // verus!
