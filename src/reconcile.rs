use vstd::prelude::*;

use crate::catalog::{map_of, Catalog};
use crate::extract::{
    classify, empty_scan, is_marker_call, ok_views, scan, scan_step, CallSite, IntlInfo,
    ScanState, RUN_CONFLICT,
};

verus! {

/// The catalog a run writes: the persisted catalog, or under pruning only the
/// persisted pairs seen again, with the new entries laid over it.
pub open spec fn reconciled(p: Map<Seq<char>, Seq<char>>, a: ScanState, prune: bool) -> Map<
    Seq<char>,
    Seq<char>,
> {
    let base = if prune {
        map_of(a.1)
    } else {
        p
    };
    base.union_prefer_right(a.0)
}

/// Whether some marker call of `cs` passes the literal `k`.
pub open spec fn found(cs: Seq<CallSite>, k: Seq<char>) -> bool {
    exists|j: int| 0 <= j < cs.len() && is_marker_call(#[trigger] cs[j]) && classify(cs[j]) == Ok::<Seq<char>, u8>(k)
}

/// Merges the run's findings into the persisted catalog.
pub fn reconcile(persisted: &Catalog, info: &IntlInfo, delete_unreached: bool) -> (r: Catalog)
    requires
        persisted.wf(),
    ensures
        r.wf(),
        r@ == reconciled(persisted@, info@, delete_unreached),
{
    let mut r = if delete_unreached {
        Catalog::from_pairs(&info.repeat_key_list)
    } else {
        Catalog::from_pairs(&persisted.entries)
    };
    let ghost base = r@;
    let mut i: usize = 0;
    while i < info.info_map.len()
        invariant
            i <= info.info_map.len(),
            r.wf(),
            r@ == base.union_prefer_right(map_of(ok_views(info.info_map@.take(i as int)))),
        decreases info.info_map.len() - i,
    {
        let e = &info.info_map[i];
        r.insert(e.key.clone(), e.default.clone());
        proof {
            let t = ok_views(info.info_map@.take(i as int + 1));
            assert(t.drop_last() =~= ok_views(info.info_map@.take(i as int)));
            assert(r@ =~= base.union_prefer_right(map_of(t)));
        }
        i = i + 1;
    }
    assert(info.info_map@.take(info.info_map.len() as int) =~= info.info_map@);
    r
}

/// Runs one extraction over the calls of all visited files, in visiting order,
/// and returns the run's state with the catalog to write.
pub fn run_extract_calls(persisted: &Catalog, calls: &Vec<CallSite>, delete_unreached: bool) -> (r: (
    IntlInfo,
    Catalog,
))
    requires
        persisted.wf(),
    ensures
        r.0@ == scan(empty_scan(), persisted@, calls@),
        r.1.wf(),
        r.1@ == reconciled(persisted@, r.0@, delete_unreached),
{
    let mut info = IntlInfo::new();
    info.extract_calls(persisted, calls);
    let out = reconcile(persisted, &info, delete_unreached);
    (info, out)
}

/// Scanning only adds keys to the new entries, and each new entry is its own text.
proof fn lemma_scan_new_entries(p: Map<Seq<char>, Seq<char>>, cs: Seq<CallSite>)
    ensures
        forall|k: Seq<char>| #[trigger] scan(empty_scan(), p, cs).0.contains_key(k) ==> scan(
            empty_scan(),
            p,
            cs,
        ).0[k] == k && !p.contains_key(k),
        forall|i: int| #![trigger scan(empty_scan(), p, cs).1[i]] 0 <= i < scan(empty_scan(), p, cs).1.len()
            ==> p.contains_key(scan(empty_scan(), p, cs).1[i].0) && scan(empty_scan(), p, cs).1[i].1
                == p[scan(empty_scan(), p, cs).1[i].0],
        forall|i: int| #![trigger scan(empty_scan(), p, cs).2[i]] 0 <= i < scan(empty_scan(), p, cs).2.len()
            ==> scan(empty_scan(), p, cs).2[i].0 != RUN_CONFLICT,
        forall|k: Seq<char>| found(cs, k) ==> #[trigger] scan(empty_scan(), p, cs).0.contains_key(k)
            || p.contains_key(k),
        forall|k: Seq<char>| #[trigger] scan(empty_scan(), p, cs).0.contains_key(k) ==> found(cs, k),
        forall|i: int| #![trigger scan(empty_scan(), p, cs).1[i]] 0 <= i < scan(empty_scan(), p, cs).1.len()
            ==> found(cs, scan(empty_scan(), p, cs).1[i].0),
    decreases cs.len(),
{
    if cs.len() > 0 {
        let t = cs.drop_last();
        let c = cs.last();
        lemma_scan_new_entries(p, t);
        let a = scan(empty_scan(), p, t);
        let b = scan(empty_scan(), p, cs);
        assert(b == scan_step(a, p, c));
        assert forall|k: Seq<char>| found(t, k) implies found(cs, k) by {
            let j = choose|j: int| 0 <= j < t.len() && is_marker_call(#[trigger] t[j]) && classify(t[j]) == Ok::<Seq<char>, u8>(k);
            assert(cs[j] == t[j]);
        }
        if is_marker_call(c) && classify(c) is Ok {
            let k = classify(c)->Ok_0;
            assert(cs[cs.len() - 1] == c);
            assert(found(cs, k));
        }
        assert forall|k: Seq<char>| found(cs, k) implies #[trigger] b.0.contains_key(k) || p.contains_key(k) by {
            let j = choose|j: int| 0 <= j < cs.len() && is_marker_call(#[trigger] cs[j]) && classify(cs[j]) == Ok::<Seq<char>, u8>(k);
            if j < cs.len() - 1 {
                assert(t[j] == cs[j]);
                assert(found(t, k));
            }
        }
        assert forall|i: int| #![trigger b.1[i]] 0 <= i < b.1.len() implies found(cs, b.1[i].0) by {
            if i < a.1.len() {
                assert(b.1[i] == a.1[i]);
            }
        }
    }
}

/// Once every literal marker key is in `q`, a scan against `q` finds nothing new.
proof fn lemma_scan_nothing_new(q: Map<Seq<char>, Seq<char>>, cs: Seq<CallSite>)
    requires
        forall|k: Seq<char>| found(cs, k) ==> #[trigger] q.contains_key(k),
    ensures
        scan(empty_scan(), q, cs).0 == Map::<Seq<char>, Seq<char>>::empty(),
    decreases cs.len(),
{
    if cs.len() > 0 {
        let t = cs.drop_last();
        assert forall|k: Seq<char>| found(t, k) implies #[trigger] q.contains_key(k) by {
            let j = choose|j: int| 0 <= j < t.len() && is_marker_call(#[trigger] t[j]) && classify(t[j]) == Ok::<Seq<char>, u8>(k);
            assert(cs[j] == t[j]);
        }
        lemma_scan_nothing_new(q, t);
        let c = cs.last();
        if is_marker_call(c) && classify(c) is Ok {
            let k = classify(c)->Ok_0;
            assert(cs[cs.len() - 1] == c);
            assert(found(cs, k));
        }
    }
}

/// Running the extraction a second time over the same calls, without pruning,
/// writes the same catalog as the first run.
pub proof fn lemma_extraction_idempotent(p: Map<Seq<char>, Seq<char>>, cs: Seq<CallSite>)
    ensures
        ({
            let out1 = reconciled(p, scan(empty_scan(), p, cs), false);
            reconciled(out1, scan(empty_scan(), out1, cs), false) == out1
        }),
{
    let out1 = reconciled(p, scan(empty_scan(), p, cs), false);
    lemma_scan_new_entries(p, cs);
    lemma_scan_nothing_new(out1, cs);
    assert(reconciled(out1, scan(empty_scan(), out1, cs), false) =~= out1);
}

/// A key passed twice keeps the text of its first call, and no run conflict is
/// ever recorded: a key is its own default text.
pub proof fn lemma_first_occurrence_wins(p: Map<Seq<char>, Seq<char>>, cs: Seq<CallSite>, k: Seq<char>)
    requires
        found(cs, k),
        !p.contains_key(k),
    ensures
        scan(empty_scan(), p, cs).0.contains_key(k),
        scan(empty_scan(), p, cs).0[k] == k,
        forall|i: int| #![trigger scan(empty_scan(), p, cs).2[i]] 0 <= i < scan(empty_scan(), p, cs).2.len()
            ==> scan(empty_scan(), p, cs).2[i].0 != RUN_CONFLICT,
{
    lemma_scan_new_entries(p, cs);
    assert(scan(empty_scan(), p, cs).0.contains_key(k));
}

/// Under pruning, the written catalog holds exactly the literal keys that the
/// calls pass; a key the persisted catalog held keeps its persisted text, and a
/// new key has itself as text.
pub proof fn lemma_pruned_catalog(p: Map<Seq<char>, Seq<char>>, cs: Seq<CallSite>, k: Seq<char>)
    ensures
        reconciled(p, scan(empty_scan(), p, cs), true).contains_key(k) == found(cs, k),
        found(cs, k) ==> reconciled(p, scan(empty_scan(), p, cs), true)[k] == if p.contains_key(k) {
            p[k]
        } else {
            k
        },
{
    let a = scan(empty_scan(), p, cs);
    lemma_scan_new_entries(p, cs);
    let out = reconciled(p, a, true);
    crate::catalog::lemma_map_of_domain(a.1, k);
    if map_of(a.1).contains_key(k) {
        let i = choose|i: int| 0 <= i < a.1.len() && #[trigger] a.1[i].0 == k;
        assert(found(cs, a.1[i].0));
        lemma_map_of_rediscovered(a.1, p, k);
    }
    if found(cs, k) && !a.0.contains_key(k) {
        assert(p.contains_key(k));
        lemma_rediscovered_found(p, cs, k);
    }
}

/// Each pair of `s` carries the persisted text of its key, so the map they make does too.
proof fn lemma_map_of_rediscovered(
    s: Seq<(Seq<char>, Seq<char>)>,
    p: Map<Seq<char>, Seq<char>>,
    k: Seq<char>,
)
    requires
        forall|i: int| #![trigger s[i]] 0 <= i < s.len() ==> p.contains_key(s[i].0) && s[i].1 == p[s[i].0],
        map_of(s).contains_key(k),
    ensures
        map_of(s)[k] == p[k],
    decreases s.len(),
{
    let t = s.drop_last();
    if s.last().0 != k {
        assert forall|i: int| #![trigger t[i]] 0 <= i < t.len() implies p.contains_key(t[i].0) && t[i].1
            == p[t[i].0] by {
            assert(t[i] == s[i]);
        }
        lemma_map_of_rediscovered(t, p, k);
    } else {
        assert(s[s.len() - 1] == s.last());
    }
}

/// A persisted key that a call passes is among the rediscovered pairs.
proof fn lemma_rediscovered_found(p: Map<Seq<char>, Seq<char>>, cs: Seq<CallSite>, k: Seq<char>)
    requires
        found(cs, k),
        p.contains_key(k),
    ensures
        map_of(scan(empty_scan(), p, cs).1).contains_key(k),
    decreases cs.len(),
{
    let t = cs.drop_last();
    let c = cs.last();
    lemma_scan_new_entries(p, t);
    let a = scan(empty_scan(), p, t);
    if found(t, k) {
        lemma_rediscovered_found(p, t, k);
        crate::catalog::lemma_map_of_domain(a.1, k);
        let i = choose|i: int| 0 <= i < a.1.len() && #[trigger] a.1[i].0 == k;
        let b = scan(empty_scan(), p, cs).1;
        assert(b.len() >= a.1.len());
        if b.len() > a.1.len() {
            assert(b == a.1.push(b.last()));
        } else {
            assert(b == a.1);
        }
        assert(b[i] == a.1[i]);
        crate::catalog::lemma_map_of_domain(b, k);
    } else {
        let j = choose|j: int| 0 <= j < cs.len() && is_marker_call(#[trigger] cs[j]) && classify(cs[j]) == Ok::<Seq<char>, u8>(k);
        if j < cs.len() - 1 {
            assert(t[j] == cs[j]);
            assert(found(t, k));
        }
        assert(c == cs[j]);
        assert(!a.0.contains_key(k));
        let b = scan(empty_scan(), p, cs).1;
        assert(b == a.1.push((k, p[k])));
        assert(b[b.len() - 1].0 == k);
        crate::catalog::lemma_map_of_domain(b, k);
    }
}

} // verus!
