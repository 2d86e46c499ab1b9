//! The table of recently opened files: one row per path, listed newest first.

use vstd::prelude::*;
use crate::model::RecentFileEntry;
use crate::clock::{format_timestamp, is_date_label};
use crate::paths::{opt_view, path_parent, path_file_name, spec_path_file_name, spec_path_parent};

verus! {

/// How many recent files are listed.
pub const RECENT_FILES_LIMIT: usize = 20;

/// One stored row: the file's path and name, when it was last opened (Unix
/// seconds), and the bit pattern of its fiber length in km when it was known.
pub struct RecentFileRow {
    pub path: String,
    pub name: String,
    pub opened_at: i64,
    pub length_km_bits: Option<u64>,
}

/// What the table holds for one path: name, time of last opening, length bits.
pub type RowData = (Seq<char>, i64, Option<u64>);

pub open spec fn row_data(r: RecentFileRow) -> RowData {
    (r.name@, r.opened_at, r.length_km_bits)
}

/// The table as a map from path to row data (the last row for a path wins).
pub open spec fn rows_map(rows: Seq<RecentFileRow>) -> Map<Seq<char>, RowData>
    decreases rows.len(),
{
    if rows.len() == 0 {
        Map::empty()
    } else {
        rows_map(rows.drop_last()).insert(rows.last().path@, row_data(rows.last()))
    }
}

/// No two rows share a path.
pub open spec fn paths_distinct(rows: Seq<RecentFileRow>) -> bool {
    forall|i: int, j: int| 0 <= i < j < rows.len() ==> (#[trigger] rows[i]).path@ != (#[trigger] rows[j]).path@
}

/// The recent-files table.
pub struct RecentFiles {
    rows: Vec<RecentFileRow>,
}

impl RecentFiles {
    #[verifier::type_invariant]
    spec fn wf(self) -> bool {
        paths_distinct(self.rows@)
    }
}

impl View for RecentFiles {
    type V = Map<Seq<char>, RowData>;

    /// The table: for each path, its name, last opening time and length bits.
    closed spec fn view(&self) -> Map<Seq<char>, RowData> {
        rows_map(self.rows@)
    }
}

#[verifier::spinoff_prover]
proof fn lemma_rows_map(rows: Seq<RecentFileRow>)
    requires
        paths_distinct(rows),
    ensures
        forall|i: int| 0 <= i < rows.len() ==> #[trigger] rows_map(rows).contains_key(rows[i].path@)
            && rows_map(rows)[rows[i].path@] == row_data(rows[i]),
        forall|k: Seq<char>| #[trigger] rows_map(rows).contains_key(k) ==> exists|i: int| 0 <= i < rows.len() && rows[i].path@ == k,
        rows_map(rows).dom().finite(),
        rows_map(rows).dom().len() == rows.len(),
    decreases rows.len(),
{
    if rows.len() > 0 {
        let init = rows.drop_last();
        assert(paths_distinct(init)) by {
            assert forall|i: int, j: int| 0 <= i < j < init.len() implies (#[trigger] init[i]).path@ != (#[trigger] init[j]).path@ by {
                assert(init[i] == rows[i] && init[j] == rows[j]);
            }
        }
        lemma_rows_map(init);
        let last = rows.last();
        assert(!rows_map(init).contains_key(last.path@)) by {
            if rows_map(init).contains_key(last.path@) {
                let i = choose|i: int| 0 <= i < init.len() && init[i].path@ == last.path@;
                assert(rows[i].path@ != rows[rows.len() - 1].path@);
            }
        }
        let whole = rows_map(rows);
        assert(whole == rows_map(init).insert(last.path@, row_data(last)));
        assert forall|i: int| 0 <= i < rows.len() implies #[trigger] rows_map(rows).contains_key(rows[i].path@)
            && rows_map(rows)[rows[i].path@] == row_data(rows[i]) by {
            if i < rows.len() - 1 {
                assert(rows[i] == init[i]);
                assert(rows[i].path@ != rows[rows.len() - 1].path@);
                assert(rows_map(init).contains_key(init[i].path@));
                assert(rows_map(init)[init[i].path@] == row_data(init[i]));
                assert(whole.contains_key(rows[i].path@));
                assert(whole[rows[i].path@] == row_data(rows[i]));
            } else {
                assert(rows[i] == last);
            }
        }
        assert forall|k: Seq<char>| #[trigger] rows_map(rows).contains_key(k) implies exists|i: int| 0 <= i < rows.len() && rows[i].path@ == k by {
            if k != last.path@ {
                assert(rows_map(init).contains_key(k));
                let i = choose|i: int| 0 <= i < init.len() && init[i].path@ == k;
                assert(rows[i] == init[i]);
            } else {
                assert(rows[rows.len() - 1].path@ == k);
            }
        }
    }
}

/// The table after opening `path` at time `at`: a known path only has its time
/// updated; a new path is added with the given name and length.
pub open spec fn recorded(m: Map<Seq<char>, RowData>, path: Seq<char>, name: Seq<char>, at: i64, length: Option<u64>) -> Map<Seq<char>, RowData> {
    if m.contains_key(path) {
        m.insert(path, (m[path].0, at, m[path].2))
    } else {
        m.insert(path, (name, at, length))
    }
}

/// `rows` is a correct listing of table `m` with at most `limit` rows: distinct
/// paths taken from the table with their data, newest first, as many as the
/// table and the limit allow, and no unlisted row newer than the last listed.
pub open spec fn is_listing(m: Map<Seq<char>, RowData>, limit: nat, rows: Seq<RecentFileRow>) -> bool {
    &&& rows.len() == if m.dom().len() < limit { m.dom().len() } else { limit }
    &&& paths_distinct(rows)
    &&& forall|i: int| 0 <= i < rows.len() ==> #[trigger] m.contains_key(rows[i].path@) && m[rows[i].path@] == row_data(rows[i])
    &&& forall|i: int, j: int| 0 <= i < j < rows.len() ==> (#[trigger] rows[i]).opened_at >= (#[trigger] rows[j]).opened_at
    &&& forall|k: Seq<char>| #[trigger] m.contains_key(k) && (forall|i: int| 0 <= i < rows.len() ==> rows[i].path@ != k)
            ==> (rows.len() == 0 || m[k].1 <= rows.last().opened_at)
}

fn copy_row(r: &RecentFileRow) -> (c: RecentFileRow)
    ensures
        c.path@ == r.path@,
        row_data(c) == row_data(*r),
{
    RecentFileRow { path: r.path.clone(), name: r.name.clone(), opened_at: r.opened_at, length_km_bits: r.length_km_bits }
}

impl RecentFiles {
    /// An empty table.
    pub fn new() -> (t: RecentFiles)
        ensures
            t@ == Map::<Seq<char>, RowData>::empty(),
    {
        RecentFiles { rows: Vec::new() }
    }

    /// Number of rows.
    pub fn len(&self) -> (n: usize)
        ensures
            n == self@.dom().len(),
    {
        proof {
            use_type_invariant(self);
            lemma_rows_map(self.rows@);
        }
        self.rows.len()
    }

    /// Records that `path` was opened at `opened_at`: the time of a known path
    /// is updated (its name and length stay); a new path is added.
    pub fn record(&mut self, path: String, name: String, opened_at: i64, length_km_bits: Option<u64>)
        ensures
            final(self)@ == recorded(old(self)@, path@, name@, opened_at, length_km_bits),
    {
        proof {
            use_type_invariant(&*self);
            lemma_rows_map(self.rows@);
        }
        let ghost old_rows = self.rows@;
        let n = self.rows.len();
        let mut i: usize = 0;
        while i < n && !(self.rows[i].path == path)
            invariant
                n == self.rows@.len(),
                self.rows@ == old_rows,
                i <= n,
                forall|k: int| 0 <= k < i ==> (#[trigger] old_rows[k]).path@ != path@,
            decreases n - i,
        {
            i = i + 1;
        }
        let mut rows: Vec<RecentFileRow> = Vec::new();
        std::mem::swap(&mut rows, &mut self.rows);
        if i < n {
            let updated = RecentFileRow {
                path: rows[i].path.clone(),
                name: rows[i].name.clone(),
                opened_at,
                length_km_bits: rows[i].length_km_bits,
            };
            rows.set(i, updated);
            proof {
                let new_rows = rows@;
                assert(new_rows == old_rows.update(i as int, updated));
                assert(paths_distinct(new_rows)) by {
                    assert forall|a: int, b: int| 0 <= a < b < new_rows.len() implies (#[trigger] new_rows[a]).path@ != (#[trigger] new_rows[b]).path@ by {
                        assert(new_rows[a].path@ == old_rows[a].path@);
                        assert(new_rows[b].path@ == old_rows[b].path@);
                    }
                }
                lemma_rows_map(new_rows);
                let want = recorded(rows_map(old_rows), path@, name@, opened_at, length_km_bits);
                assert(rows_map(old_rows).contains_key(path@));
                assert forall|k: Seq<char>| want.contains_key(k) implies #[trigger] rows_map(new_rows).contains_key(k) by {
                    if want.contains_key(k) && k != path@ {
                        let j = choose|j: int| 0 <= j < old_rows.len() && old_rows[j].path@ == k;
                        assert(new_rows[j].path@ == k);
                    }
                    if k == path@ {
                        assert(new_rows[i as int].path@ == k);
                    }
                }
                assert forall|k: Seq<char>| #[trigger] rows_map(new_rows).contains_key(k) implies want.contains_key(k) && rows_map(new_rows)[k] == want[k] by {
                    if rows_map(new_rows).contains_key(k) {
                        let j = choose|j: int| 0 <= j < new_rows.len() && new_rows[j].path@ == k;
                        assert(old_rows[j].path@ == k);
                        if j != i {
                            assert(new_rows[j] == old_rows[j]);
                        }
                    }
                }
                assert(rows_map(new_rows) =~= want);
            }
        } else {
            let ghost newrow = RecentFileRow { path, name, opened_at, length_km_bits };
            rows.push(RecentFileRow { path, name, opened_at, length_km_bits });
            proof {
                let new_rows = rows@;
                assert(new_rows.drop_last() =~= old_rows);
                assert(!rows_map(old_rows).contains_key(path@)) by {
                    if rows_map(old_rows).contains_key(path@) {
                        let j = choose|j: int| 0 <= j < old_rows.len() && old_rows[j].path@ == path@;
                        assert(old_rows[j].path@ != path@);
                    }
                }
                assert(paths_distinct(new_rows)) by {
                    assert forall|a: int, b: int| 0 <= a < b < new_rows.len() implies (#[trigger] new_rows[a]).path@ != (#[trigger] new_rows[b]).path@ by {
                        assert(new_rows[a] == old_rows[a]);
                        if b < old_rows.len() {
                            assert(new_rows[b] == old_rows[b]);
                        }
                    }
                }
            }
        }
        self.rows = rows;
    }

    /// Empties the table.
    pub fn clear(&mut self)
        ensures
            final(self)@ == Map::<Seq<char>, RowData>::empty(),
    {
        self.rows = Vec::new();
    }
}


impl RecentFiles {
    /// The `limit` most recently opened rows, newest first
    /// (`ORDER BY opened_at DESC LIMIT limit`).
    pub fn recent(&self, limit: usize) -> (r: Vec<RecentFileRow>)
        ensures
            is_listing(self@, limit as nat, r@),
    {
        proof {
            use_type_invariant(self);
            lemma_rows_map(self.rows@);
        }
        let rows = &self.rows;
        let n = rows.len();
        let count = if limit < n { limit } else { n };
        let mut taken: Vec<bool> = Vec::new();
        let mut t: usize = 0;
        while t < n
            invariant
                taken@.len() == t,
                t <= n,
                forall|k: int| 0 <= k < t ==> !#[trigger] taken@[k],
            decreases n - t,
        {
            taken.push(false);
            t = t + 1;
        }
        let mut out: Vec<RecentFileRow> = Vec::new();
        let ghost mut idx: Seq<int> = Seq::empty();
        let mut step: usize = 0;
        while step < count
            invariant
                n == rows@.len(),
                paths_distinct(rows@),
                count <= n,
                step <= count,
                taken@.len() == n,
                out@.len() == step,
                idx.len() == step,
                forall|k: int| 0 <= k < step ==> 0 <= #[trigger] idx[k] < n,
                forall|a: int, b: int| 0 <= a < b < step ==> #[trigger] idx[a] != #[trigger] idx[b],
                forall|j: int| 0 <= j < n ==> (#[trigger] taken@[j] <==> idx.contains(j)),
                forall|k: int| 0 <= k < step ==> (#[trigger] out@[k]).path@ == rows@[idx[k]].path@
                    && row_data(out@[k]) == row_data(rows@[idx[k]]),
                forall|a: int, b: int| 0 <= a < b < step ==> (#[trigger] out@[a]).opened_at >= (#[trigger] out@[b]).opened_at,
                forall|j: int| 0 <= j < n && !taken@[j] && step > 0 ==> #[trigger] rows@[j].opened_at <= out@[step - 1].opened_at,
            decreases count - step,
        {
            // The first untaken row with the latest time.
            let mut best: usize = n;
            let mut j: usize = 0;
            while j < n
                invariant
                    n == rows@.len(),
                    taken@.len() == n,
                    j <= n,
                    best == n || (best < j && !taken@[best as int]),
                    best == n ==> forall|k: int| 0 <= k < j ==> #[trigger] taken@[k],
                    best < n ==> forall|k: int| 0 <= k < j && !taken@[k] ==> #[trigger] rows@[k].opened_at <= rows@[best as int].opened_at,
                decreases n - j,
            {
                if !taken[j] && (best == n || rows[j].opened_at > rows[best].opened_at) {
                    best = j;
                }
                j = j + 1;
            }
            proof {
                if best == n {
                    // Fewer than `n` rows are taken, so some row is still free.
                    assert forall|k: int| 0 <= k < n implies idx.contains(k) by {
                        assert(taken@[k]);
                    }
                    lemma_distinct_indices_cover(idx, n as int);
                    assert(false);
                }
            }
            let row = copy_row(&rows[best]);
            out.push(row);
            let ghost taken_before = taken@;
            taken.set(best, true);
            proof {
                let idx_before = idx;
                idx = idx.push(best as int);
                assert forall|k: int| 0 <= k < n implies (#[trigger] taken@[k] <==> idx.contains(k)) by {
                    if k == best as int {
                        assert(idx[idx.len() - 1] == k);
                    } else {
                        assert(taken_before[k] == taken@[k]);
                        if idx_before.contains(k) {
                            let q = choose|q: int| 0 <= q < idx_before.len() && idx_before[q] == k;
                            assert(idx[q] == k);
                        }
                        if idx.contains(k) {
                            let q = choose|q: int| 0 <= q < idx.len() && idx[q] == k;
                            assert(q < idx_before.len());
                            assert(idx_before[q] == k);
                        }
                    }
                }
            }
            step = step + 1;
        }
        proof {
            let m = rows_map(rows@);
            assert forall|i: int, j: int| 0 <= i < j < out@.len() implies (#[trigger] out@[i]).path@ != (#[trigger] out@[j]).path@ by {
                assert(rows@[idx[i]].path@ != rows@[idx[j]].path@) by {
                    if idx[i] < idx[j] {
                        assert(rows@[idx[i]].path@ != rows@[idx[j]].path@);
                    } else {
                        assert(rows@[idx[j]].path@ != rows@[idx[i]].path@);
                    }
                }
            }
            assert forall|k: Seq<char>| #[trigger] m.contains_key(k) && (forall|i: int| 0 <= i < out@.len() ==> out@[i].path@ != k)
                implies (out@.len() == 0 || m[k].1 <= out@.last().opened_at) by {
                let j = choose|j: int| 0 <= j < rows@.len() && rows@[j].path@ == k;
                if taken@[j] {
                    let q = choose|q: int| 0 <= q < idx.len() && idx[q] == j;
                    assert(out@[q].path@ == k);
                }
                assert(m[rows@[j].path@] == row_data(rows@[j]));
            }
            assert forall|i: int| 0 <= i < out@.len() implies #[trigger] m.contains_key(out@[i].path@) && m[out@[i].path@] == row_data(out@[i]) by {
                assert(m.contains_key(rows@[idx[i]].path@));
            }
        }
        out
    }

    /// The recent-files listing: at most `RECENT_FILES_LIMIT` rows, newest first.
    pub fn list_recent_files(&self) -> (r: Vec<RecentFileRow>)
        ensures
            is_listing(self@, RECENT_FILES_LIMIT as nat, r@),
    {
        self.recent(RECENT_FILES_LIMIT)
    }
}

proof fn lemma_distinct_indices_cover(idx: Seq<int>, n: int)
    requires
        0 <= n,
        forall|k: int| 0 <= k < n ==> idx.contains(k),
        forall|a: int, b: int| 0 <= a < b < idx.len() ==> #[trigger] idx[a] != #[trigger] idx[b],
    ensures
        idx.len() >= n,
    decreases n,
{
    if n > 0 {
        assert(idx.contains(n - 1));
        let p = choose|p: int| 0 <= p < idx.len() && idx[p] == n - 1;
        let rest = idx.subrange(0, p) + idx.subrange(p + 1, idx.len() as int);
        assert forall|k: int| 0 <= k < n - 1 implies rest.contains(k) by {
            assert(idx.contains(k));
            let q = choose|q: int| 0 <= q < idx.len() && idx[q] == k;
            assert(q != p);
            assert(rest.len() == idx.len() - 1);
            if q < p {
                assert(rest[q] == idx.subrange(0, p)[q]);
                assert(rest[q] == k);
            } else {
                assert(rest[q - 1] == idx.subrange(p + 1, idx.len() as int)[q - 1 - p]);
                assert(rest[q - 1] == k);
            }
        }
        assert forall|a: int, b: int| 0 <= a < b < rest.len() implies #[trigger] rest[a] != #[trigger] rest[b] by {
            let a2 = if a < p { a } else { a + 1 };
            let b2 = if b < p { b } else { b + 1 };
            assert(rest[a] == idx[a2]);
            assert(rest[b] == idx[b2]);
        }
        lemma_distinct_indices_cover(rest, n - 1);
    }
}


/// A file just opened, at a time later than every other row's, is listed first.
pub proof fn lemma_newest_listed_first(
    m: Map<Seq<char>, RowData>,
    path: Seq<char>,
    name: Seq<char>,
    at: i64,
    length: Option<u64>,
    limit: nat,
    rows: Seq<RecentFileRow>,
)
    requires
        m.dom().finite(),
        forall|k: Seq<char>| #[trigger] m.contains_key(k) && k != path ==> m[k].1 < at,
        limit > 0,
        is_listing(recorded(m, path, name, at, length), limit, rows),
    ensures
        rows.len() > 0,
        rows[0].path@ == path,
        rows[0].opened_at == at,
{
    let m2 = recorded(m, path, name, at, length);
    assert(m2.contains_key(path));
    assert(m2.dom().contains(path));
    vstd::set_lib::lemma_set_empty_equivalency_len(m2.dom());
    assert(m2.dom().len() > 0) by {
        if m2.dom().len() == 0 {
            assert(m2.dom() =~= Set::<Seq<char>>::empty());
            assert(!Set::<Seq<char>>::empty().contains(path));
        }
    }
    assert(rows.len() > 0);
    assert(m2.contains_key(rows[0].path@));
    if rows[0].path@ != path {
        assert(rows[0].opened_at < at);
        if exists|i: int| 0 <= i < rows.len() && rows[i].path@ == path {
            let i = choose|i: int| 0 <= i < rows.len() && rows[i].path@ == path;
            assert(m2.contains_key(rows[i].path@));
            assert(rows[i].opened_at == at);
            assert(rows[0].opened_at >= rows[i].opened_at);
        } else {
            assert(m2[path].1 <= rows.last().opened_at);
            assert(m2.contains_key(rows[rows.len() - 1].path@));
            assert(rows[0].opened_at >= rows[rows.len() - 1].opened_at) by {
                if rows.len() > 1 {
                    assert(rows[0].opened_at >= rows[rows.len() - 1].opened_at);
                }
            }
        }
    }
}

/// The listing of an empty table is empty.
pub proof fn lemma_empty_listing(limit: nat, rows: Seq<RecentFileRow>)
    requires
        is_listing(Map::<Seq<char>, RowData>::empty(), limit, rows),
    ensures
        rows.len() == 0,
{
    assert(Map::<Seq<char>, RowData>::empty().dom() =~= Set::<Seq<char>>::empty());
}

/// Recording a path keeps every other row unchanged and leaves exactly one row for the path.
pub proof fn lemma_recorded_rows(m: Map<Seq<char>, RowData>, path: Seq<char>, name: Seq<char>, at: i64, length: Option<u64>)
    ensures
        recorded(m, path, name, at, length).dom() == m.dom().insert(path),
        recorded(m, path, name, at, length)[path].1 == at,
        forall|k: Seq<char>| #[trigger] m.contains_key(k) && k != path ==> recorded(m, path, name, at, length)[k] == m[k],
{
    assert(recorded(m, path, name, at, length).dom() =~= m.dom().insert(path));
}

/// The name under which a recent file is stored: its file name, or the whole
/// path when it has none.
pub open spec fn stored_name(path: Seq<char>) -> Seq<char> {
    match spec_path_file_name(path) {
        Some(n) => n,
        None => path,
    }
}

/// The name under which a recent file is stored (see `stored_name`).
pub fn recent_file_name(path: &str) -> (r: String)
    ensures
        r@ == stored_name(path@),
{
    match path_file_name(path) {
        Some(n) => n,
        None => String::from_str(path),
    }
}

/// Records that the file at `path` was opened at `opened_at`: a new path is
/// stored under its file name with the bits of its fiber length, when known; a
/// known path only has its time updated.
pub fn record_recent_file(table: &mut RecentFiles, path: String, opened_at: i64, length_km_bits: Option<u64>)
    ensures
        final(table)@ == recorded(old(table)@, path@, stored_name(path@), opened_at, length_km_bits),
{
    let name = recent_file_name(path.as_str());
    table.record(path, name, opened_at, length_km_bits);
}

/// The folder shown under a recent file: its parent path, or empty.
pub open spec fn location_of(path: Seq<char>) -> Seq<char> {
    match spec_path_parent(path) {
        Some(p) => p,
        None => Seq::empty(),
    }
}

/// The panel line of a stored row: its date label is rendered here from the
/// time of opening; the length label, rendered from the stored length, is given.
pub fn recent_file_entry(row: &RecentFileRow, length_label: Option<String>) -> (e: RecentFileEntry)
    ensures
        e.path@ == row.path@,
        e.name@ == row.name@,
        e.location@ == location_of(row.path@),
        is_date_label(row.opened_at as int, e.opened_at_label@),
        opt_view(e.length_label) == opt_view(length_label),
{
    let location = match path_parent(row.path.as_str()) {
        Some(p) => p,
        None => String::new(),
    };
    RecentFileEntry {
        path: row.path.clone(),
        name: row.name.clone(),
        location,
        opened_at_label: format_timestamp(row.opened_at),
        length_label,
    }
}

} // verus!
