//! Search boxes: keeping the items whose name contains the typed text, ignoring case.

use vstd::prelude::*;
use crate::model::{FsEntry, QuickLocation, RecentFileEntry};
use crate::text::{contains_seq, spec_to_lowercase, str_contains, to_lowercase};

verus! {

/// Items that a search box filters by name.
pub trait Named {
    spec fn name_view(&self) -> Seq<char>;

    fn name_str(&self) -> (r: &str)
        ensures
            r@ == self.name_view();
}

impl Named for FsEntry {
    open spec fn name_view(&self) -> Seq<char> {
        self.name@
    }

    fn name_str(&self) -> (r: &str) {
        self.name.as_str()
    }
}

impl Named for RecentFileEntry {
    open spec fn name_view(&self) -> Seq<char> {
        self.name@
    }

    fn name_str(&self) -> (r: &str) {
        self.name.as_str()
    }
}

impl Named for QuickLocation {
    open spec fn name_view(&self) -> Seq<char> {
        self.name@
    }

    fn name_str(&self) -> (r: &str) {
        self.name.as_str()
    }
}

/// A name matches a query when the query is empty or the lowercase name
/// contains the lowercase query.
pub open spec fn name_matches(name: Seq<char>, query: Seq<char>) -> bool {
    spec_to_lowercase(query).len() == 0 || contains_seq(spec_to_lowercase(name), spec_to_lowercase(query))
}

/// Whether `name` matches the search text `query`.
pub fn matches_query(name: &str, query: &str) -> (r: bool)
    ensures
        r == name_matches(name@, query@),
{
    let q = to_lowercase(query);
    if q.as_str().unicode_len() == 0 {
        return true;
    }
    let n = to_lowercase(name);
    str_contains(n.as_str(), q.as_str())
}

/// The items whose name matches `query`, in their order.
pub fn filter_by_name<T: Named>(items: Vec<T>, query: &str) -> (r: Vec<T>)
    ensures
        r@ == items@.filter(|x: T| name_matches(x.name_view(), query@)),
{
    let ghost all = items@;
    let ghost p = |x: T| name_matches(x.name_view(), query@);
    let mut rest = items;
    let mut out: Vec<T> = Vec::new();
    let mut k: usize = 0;
    let n = rest.len();
    assert(all.take(0).filter(p) =~= Seq::<T>::empty()) by {
        reveal(Seq::filter);
    }
    while rest.len() > 0
        invariant
            n == all.len(),
            p == (|x: T| name_matches(x.name_view(), query@)),
            k + rest@.len() == n,
            rest@ == all.skip(k as int),
            out@ == all.take(k as int).filter(p),
        decreases rest@.len(),
    {
        let x = rest.remove(0);
        let nm = x.name_str();
        let keep = matches_query(nm, query);
        assert(keep == name_matches(x.name_view(), query@));
        proof {
            assert(x == all[k as int]);
            assert(all.take(k + 1).drop_last() =~= all.take(k as int));
            assert(all.take(k + 1).last() == all[k as int]);
            reveal(Seq::filter);
            assert(p(x) == keep);
            let t1 = all.take(k + 1);
            assert(t1.filter(p) == (if p(t1.last()) { t1.drop_last().filter(p).push(t1.last()) } else { t1.drop_last().filter(p) }));
        }
        if keep {
            out.push(x);
        }
        assert(rest@ =~= all.skip(k + 1));
        k = k + 1;
    }
    assert(all.take(n as int) =~= all);
    out
}

} // verus!
