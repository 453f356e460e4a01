//! The fill resolver: picks the single most specific fill for a tag path.
//!
//! The tag path is walked left to right, building the `>`-joined partial path
//! incrementally; after each extension the partial path is looked up in the
//! palette's tag-fill table, and a later (longer, more specific) match
//! overwrites an earlier one. The longest matching prefix wins; when none
//! matches the caller falls back to the palette's default fills.

use vstd::prelude::*;
use vstd::string::StringExecFns;
use crate::dict::{Dict, seq_lookup};
use crate::palette::IconFills;

verus! {

/// The `>`-joined prefix of the first `n` segments (`n` at least 1).
pub open spec fn spec_join(segs: Seq<Seq<char>>, n: int) -> Seq<char>
    decreases n,
{
    if n <= 1 {
        segs[0]
    } else {
        spec_join(segs, n - 1) + ">"@ + segs[n - 1]
    }
}

/// The most specific matching fill: the fill of the longest `>`-joined
/// prefix of the tag path that is a key of the table, if any prefix matches.
pub open spec fn spec_resolve(
    segs: Seq<Seq<char>>,
    fills: Seq<(Seq<char>, IconFills)>,
) -> Option<IconFills>
    decreases segs.len(),
{
    if segs.len() == 0 {
        None
    } else {
        match seq_lookup(fills, spec_join(segs, segs.len() as int)) {
            Some(f) => Some(f),
            None => spec_resolve(segs.drop_last(), fills),
        }
    }
}

/// A joined prefix only reads the segments it covers.
pub proof fn lemma_join_take(segs: Seq<Seq<char>>, n: int, m: int)
    requires
        1 <= n <= m <= segs.len(),
    ensures
        spec_join(segs.take(m), n) == spec_join(segs, n),
    decreases n,
{
    if n > 1 {
        lemma_join_take(segs, n - 1, m);
    }
}

/// Resolution returns the fill of the longest matching prefix: if the prefix
/// of length `n` matches and no longer prefix does, that match is the result.
pub proof fn lemma_resolve_longest_match(
    segs: Seq<Seq<char>>,
    fills: Seq<(Seq<char>, IconFills)>,
    n: int,
    f: IconFills,
)
    requires
        1 <= n <= segs.len(),
        seq_lookup(fills, spec_join(segs, n)) == Some(f),
        forall|m: int|
            n < m <= segs.len() ==> seq_lookup(fills, #[trigger] spec_join(segs, m)) is None,
    ensures
        spec_resolve(segs, fills) == Some(f),
    decreases segs.len(),
{
    if n == segs.len() {
    } else {
        assert(seq_lookup(fills, spec_join(segs, segs.len() as int)) is None);
        let head = segs.drop_last();
        assert(head =~= segs.take(segs.len() - 1));
        lemma_join_take(segs, n, segs.len() - 1);
        assert(spec_join(head, n) == spec_join(segs, n));
        assert forall|m: int|
            n < m <= head.len() implies seq_lookup(fills, #[trigger] spec_join(head, m)) is None by {
            lemma_join_take(segs, m, segs.len() - 1);
            assert(spec_join(head, m) == spec_join(segs, m));
        }
        lemma_resolve_longest_match(head, fills, n, f);
    }
}

/// Resolution fails exactly when no joined prefix of the tag path is a key
/// of the table; the caller must then fall back to the default fills.
pub proof fn lemma_resolve_none(segs: Seq<Seq<char>>, fills: Seq<(Seq<char>, IconFills)>)
    ensures
        (spec_resolve(segs, fills) is None) <==> (forall|n: int|
            1 <= n <= segs.len() ==> seq_lookup(fills, #[trigger] spec_join(segs, n)) is None),
    decreases segs.len(),
{
    if segs.len() > 0 {
        let head = segs.drop_last();
        assert(head =~= segs.take(segs.len() - 1));
        lemma_resolve_none(head, fills);
        assert forall|n: int| 1 <= n <= head.len() implies #[trigger] spec_join(segs, n)
            == spec_join(head, n) by {
            lemma_join_take(segs, n, segs.len() - 1);
        }
        assert forall|n: int| 1 <= n <= head.len() implies #[trigger] spec_join(head, n)
            == spec_join(segs, n) by {
            lemma_join_take(segs, n, segs.len() - 1);
        }
    }
}

/// Walks an item's tag path and returns the most specific fill the table
/// defines for it, if any prefix of the path is defined at all.
pub fn get_fill_for<'a>(tag_fills: &'a Dict<IconFills>, tag_path: &Vec<String>) -> (r: Option<
    &'a IconFills,
>)
    ensures
        match r {
            Some(f) => spec_resolve(tag_path.deep_view(), tag_fills.view_seq()) == Some(*f),
            None => spec_resolve(tag_path.deep_view(), tag_fills.view_seq()) is None,
        },
{
    let ghost segs = tag_path.deep_view();
    let mut result: Option<&'a IconFills> = None;
    let mut partial: String = String::new();
    let mut i: usize = 0;
    while i < tag_path.len()
        invariant
            0 <= i <= tag_path@.len(),
            segs == tag_path.deep_view(),
            segs.len() == tag_path@.len(),
            forall|k: int| 0 <= k < segs.len() ==> segs[k] == tag_path@[k]@,
            i > 0 ==> partial@ == spec_join(segs, i as int),
            match result {
                Some(f) => spec_resolve(segs.take(i as int), tag_fills.view_seq()) == Some(*f),
                None => spec_resolve(segs.take(i as int), tag_fills.view_seq()) is None,
            },
        decreases tag_path@.len() - i,
    {
        if i == 0 {
            partial = tag_path[i].clone();
        } else {
            partial.append(">");
            partial.append(tag_path[i].as_str());
        }
        proof {
            if i > 0 {
                assert(partial@ == spec_join(segs, i as int) + ">"@ + segs[i as int]);
            }
            assert(partial@ == spec_join(segs, i as int + 1));
            lemma_join_take(segs, i as int + 1, i as int + 1);
            assert(spec_join(segs.take(i as int + 1), i as int + 1) == spec_join(
                segs,
                i as int + 1,
            ));
            assert(segs.take(i as int + 1).drop_last() =~= segs.take(i as int));
        }
        match tag_fills.get(partial.as_str()) {
            Some(f) => {
                result = Some(f);
            },
            None => {},
        }
        i = i + 1;
    }
    proof {
        assert(segs.take(segs.len() as int) =~= segs);
    }
    result
}

} // verus!
