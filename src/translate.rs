use vstd::prelude::*;

use crate::catalog::{map_of, pair_views, Catalog};
use crate::tencent::TencentPayload;

verus! {

/// The pairs of `s`, in order, whose key `ex` does not hold.
pub open spec fn pending(s: Seq<(Seq<char>, Seq<char>)>, ex: Map<Seq<char>, Seq<char>>) -> Seq<
    (Seq<char>, Seq<char>),
>
    decreases s.len(),
{
    if s.len() == 0 {
        Seq::empty()
    } else if ex.contains_key(s.last().0) {
        pending(s.drop_last(), ex)
    } else {
        pending(s.drop_last(), ex).push(s.last())
    }
}

/// Each key of `pairs` with the text at the same position of `texts`.
pub open spec fn translated(pairs: Seq<(Seq<char>, Seq<char>)>, texts: Seq<String>) -> Seq<
    (Seq<char>, Seq<char>),
> {
    Seq::new(pairs.len(), |i: int| (pairs[i].0, texts[i]@))
}

/// The pairs of `input`, in order, whose key `excludes` does not hold.
pub fn get_pair_list(input: &Catalog, excludes: &Catalog) -> (r: Vec<(String, String)>)
    requires
        excludes.wf(),
    ensures
        pair_views(r@) == pending(pair_views(input.entries@), excludes@),
{
    let mut r: Vec<(String, String)> = Vec::new();
    let mut i: usize = 0;
    while i < input.entries.len()
        invariant
            i <= input.entries.len(),
            excludes.wf(),
            pair_views(r@) == pending(pair_views(input.entries@.take(i as int)), excludes@),
        decreases input.entries.len() - i,
    {
        let ghost before = r@;
        let e = &input.entries[i];
        let skip = excludes.contains_key(&e.0);
        if !skip {
            r.push((e.0.clone(), e.1.clone()));
        }
        proof {
            let t = pair_views(input.entries@.take(i as int + 1));
            assert(t.drop_last() =~= pair_views(input.entries@.take(i as int)));
            assert(t.last() == (e.0@, e.1@));
            if !skip {
                assert(pair_views(r@) =~= pair_views(before).push((e.0@, e.1@)));
            }
        }
        i = i + 1;
    }
    assert(input.entries@.take(input.entries.len() as int) =~= input.entries@);
    r
}

/// The pairs of the catalog to send for translation: all of them, or those whose
/// key the target catalog does not hold yet.
pub fn plan_translation(input: &Catalog, existing: &Catalog, write_all: bool) -> (r: Vec<
    (String, String),
>)
    requires
        existing.wf(),
    ensures
        pair_views(r@) == pending(
            pair_views(input.entries@),
            if write_all {
                Map::<Seq<char>, Seq<char>>::empty()
            } else {
                existing@
            },
        ),
{
    if write_all {
        let none = Catalog::new();
        get_pair_list(input, &none)
    } else {
        get_pair_list(input, existing)
    }
}

/// Writes the translated texts into the target catalog under their keys.
pub fn merge_translations(
    existing: &mut Catalog,
    payload: &TencentPayload,
    pair_list: &Vec<(String, String)>,
    list: Vec<String>,
)
    requires
        old(existing).wf(),
        list.len() >= pair_list.len(),
    ensures
        final(existing).wf(),
        final(existing)@ == old(existing)@.union_prefer_right(
            map_of(translated(pair_views(pair_list@), list@)),
        ),
{
    let ghost texts = list@;
    let json = payload.to_map(pair_list, list);
    assert(pair_views(json@) =~= translated(pair_views(pair_list@), texts));
    existing.extend(&json);
}

} // verus!
