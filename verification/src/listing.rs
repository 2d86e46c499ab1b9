//! Directory listings: which folder entries are shown, their labels and their order.

use vstd::prelude::*;
use crate::model::{DirListing, FsEntry, QuickLocation};
use crate::paths::{is_sor_file, is_sor_path, opt_view, path_parent, spec_path_parent};
use crate::size::{format_size, size_label};
use crate::text::{
    lex_lt, spec_to_lowercase, to_lowercase, str_less, lemma_lex_irreflexive, lemma_lex_total,
    lemma_lex_asymmetric, lemma_lex_transitive,
};

verus! {

/// The name by which entries are ordered: the lowercase form of `e.name`.
pub open spec fn sort_name(e: FsEntry) -> Seq<char> {
    spec_to_lowercase(e.name@)
}

/// `a` sorts strictly before `b`: folders before files, then by lowercase name.
pub open spec fn entry_before(a: FsEntry, b: FsEntry) -> bool {
    (a.is_dir && !b.is_dir) || (a.is_dir == b.is_dir && lex_lt(sort_name(a), sort_name(b)))
}

/// `a` and `b` have the same sort key.
pub open spec fn same_sort_key(a: FsEntry, b: FsEntry) -> bool {
    a.is_dir == b.is_dir && sort_name(a) == sort_name(b)
}

/// Folders first, then files, each group by lowercase name.
pub open spec fn entries_sorted(s: Seq<FsEntry>) -> bool {
    forall|i: int, j: int| 0 <= i < j < s.len() ==> !entry_before(#[trigger] s[j], #[trigger] s[i])
}

/// The entries of `s` whose sort key equals that of `e`, in their order in `s`.
pub open spec fn key_class(s: Seq<FsEntry>, e: FsEntry) -> Seq<FsEntry> {
    s.filter(|x: FsEntry| same_sort_key(x, e))
}

proof fn lemma_entry_order(a: FsEntry, b: FsEntry, c: FsEntry)
    ensures
        !entry_before(a, a),
        entry_before(a, b) ==> !entry_before(b, a),
        entry_before(a, b) || entry_before(b, a) || same_sort_key(a, b),
        entry_before(a, b) && entry_before(b, c) ==> entry_before(a, c),
        entry_before(a, b) ==> !same_sort_key(a, b),
        same_sort_key(a, b) && entry_before(b, c) ==> entry_before(a, c),
        entry_before(a, b) && same_sort_key(b, c) ==> entry_before(a, c),
{
    lemma_lex_irreflexive(sort_name(a));
    lemma_lex_irreflexive(sort_name(b));
    lemma_lex_asymmetric(sort_name(a), sort_name(b));
    lemma_lex_total(sort_name(a), sort_name(b));
    if lex_lt(sort_name(a), sort_name(b)) && lex_lt(sort_name(b), sort_name(c)) {
        lemma_lex_transitive(sort_name(a), sort_name(b), sort_name(c));
    }
}

proof fn lemma_filter_none(s: Seq<FsEntry>, p: spec_fn(FsEntry) -> bool)
    requires
        forall|i: int| 0 <= i < s.len() ==> !p(#[trigger] s[i]),
    ensures
        s.filter(p) == Seq::<FsEntry>::empty(),
    decreases s.len(),
{
    reveal(Seq::filter);
    if s.len() > 0 {
        lemma_filter_none(s.drop_last(), p);
    }
}

proof fn lemma_filter_single(x: FsEntry, p: spec_fn(FsEntry) -> bool)
    ensures
        seq![x].filter(p) == (if p(x) { seq![x] } else { Seq::<FsEntry>::empty() }),
{
    reveal_with_fuel(Seq::filter, 2);
    assert(seq![x].drop_last() =~= Seq::<FsEntry>::empty());
}

fn entry_before_exec(a: &FsEntry, b: &FsEntry) -> (r: bool)
    ensures
        r == entry_before(*a, *b),
{
    if a.is_dir != b.is_dir {
        a.is_dir
    } else {
        let la = to_lowercase(a.name.as_str());
        let lb = to_lowercase(b.name.as_str());
        str_less(la.as_str(), lb.as_str())
    }
}

/// Sorts `entries` folders first, then files, each group by lowercase name;
/// entries with equal keys keep their relative order (a stable sort).
pub fn sort_entries(entries: &mut Vec<FsEntry>)
    ensures
        final(entries)@.len() == old(entries)@.len(),
        entries_sorted(final(entries)@),
        forall|e: FsEntry| #[trigger] key_class(final(entries)@, e) == key_class(old(entries)@, e),
        forall|i: int, j: int| 0 <= i < j < final(entries)@.len() && (#[trigger] final(entries)@[j]).is_dir
            ==> (#[trigger] final(entries)@[i]).is_dir,
        forall|i: int, j: int| 0 <= i < j < final(entries)@.len()
            && (#[trigger] final(entries)@[i]).is_dir == (#[trigger] final(entries)@[j]).is_dir
            ==> !lex_lt(spec_to_lowercase(final(entries)@[j].name@), spec_to_lowercase(final(entries)@[i].name@)),
{
    let ghost input = entries@;
    let mut rest: Vec<FsEntry> = Vec::new();
    std::mem::swap(entries, &mut rest);
    let mut out: Vec<FsEntry> = Vec::new();
    assert(input.skip(input.len() as int) =~= Seq::<FsEntry>::empty());
    assert forall|e: FsEntry| #[trigger] key_class(out@, e) == key_class(input.skip(rest@.len() as int), e) by {
        reveal(Seq::filter);
    }
    while rest.len() > 0
        invariant
            rest@ == input.take(rest@.len() as int),
            rest@.len() <= input.len(),
            out@.len() + rest@.len() == input.len(),
            entries_sorted(out@),
            forall|e: FsEntry| #[trigger] key_class(out@, e) == key_class(input.skip(rest@.len() as int), e),
        decreases rest@.len(),
    {
        let ghost old_out = out@;
        let ghost r = rest@.len() as int;
        let x = rest.pop().unwrap();
        assert(x == input[r - 1]);
        assert(rest@ =~= input.take(r - 1));
        let mut j: usize = 0;
        while j < out.len() && entry_before_exec(&out[j], &x)
            invariant
                j <= out@.len(),
                out@ == old_out,
                forall|i: int| 0 <= i < j ==> entry_before(#[trigger] out@[i], x),
            decreases out@.len() - j,
        {
            j = j + 1;
        }
        proof {
            // Everything from `j` on is not before `x`.
            assert forall|k: int| j <= k < old_out.len() implies !entry_before(#[trigger] old_out[k], x) by {
                lemma_entry_order(old_out[j as int], x, old_out[k]);
                lemma_entry_order(x, old_out[j as int], old_out[k]);
                lemma_entry_order(old_out[k], old_out[j as int], x);
                lemma_entry_order(old_out[k], x, old_out[j as int]);
                if k > j {
                    assert(!entry_before(old_out[k], old_out[j as int]));
                }
            }
        }
        out.insert(j, x);
        proof {
            let new_out = out@;
            assert(new_out =~= old_out.take(j as int) + seq![x] + old_out.skip(j as int));
            assert forall|a: int, b: int| 0 <= a < b < new_out.len() implies !entry_before(
                #[trigger] new_out[b],
                #[trigger] new_out[a],
            ) by {
                if a < j && b == j {
                    lemma_entry_order(old_out[a], x, x);
                } else if a == j && b > j {
                    assert(new_out[b] == old_out[b - 1]);
                } else if a < j && b > j {
                    assert(new_out[b] == old_out[b - 1]);
                } else if a > j {
                    assert(new_out[b] == old_out[b - 1]);
                    assert(new_out[a] == old_out[a - 1]);
                }
            }
            let processed = input.skip(r - 1);
            assert(processed =~= seq![x] + input.skip(r));
            assert forall|e: FsEntry| #[trigger] key_class(new_out, e) == key_class(processed, e) by {
                let p = |y: FsEntry| same_sort_key(y, e);
                Seq::filter_distributes_over_add(old_out.take(j as int) + seq![x], old_out.skip(j as int), p);
                Seq::filter_distributes_over_add(old_out.take(j as int), seq![x], p);
                Seq::filter_distributes_over_add(old_out.take(j as int), old_out.skip(j as int), p);
                assert(old_out =~= old_out.take(j as int) + old_out.skip(j as int));
                Seq::filter_distributes_over_add(seq![x], input.skip(r), p);
                lemma_filter_single(x, p);
                assert(key_class(old_out, e) == key_class(input.skip(r), e));
                if same_sort_key(x, e) {
                    assert forall|i: int| 0 <= i < old_out.take(j as int).len() implies !p(
                        #[trigger] old_out.take(j as int)[i],
                    ) by {
                        lemma_entry_order(old_out[i], x, e);
                        lemma_entry_order(x, e, old_out[i]);
                        lemma_entry_order(e, x, old_out[i]);
                    }
                    lemma_filter_none(old_out.take(j as int), p);
                    assert(old_out.take(j as int).filter(p) + seq![x] + old_out.skip(j as int).filter(p)
                        =~= seq![x] + old_out.skip(j as int).filter(p));
                    assert(old_out.take(j as int).filter(p) + old_out.skip(j as int).filter(p)
                        =~= old_out.skip(j as int).filter(p));
                } else {
                    assert(old_out.take(j as int).filter(p) + Seq::<FsEntry>::empty()
                        =~= old_out.take(j as int).filter(p));
                    assert(Seq::<FsEntry>::empty() + input.skip(r).filter(p) =~= input.skip(r).filter(p));
                }
            }
        }
    }
    assert(input.skip(0) =~= input);
    proof {
        lemma_folders_first_then_whole_name(out@);
    }
    *entries = out;
}


/// What the file system reports of one folder entry.
pub struct ItemMetadata {
    pub is_dir: bool,
    pub len: u64,
    pub modified_label: Option<String>,
}

/// One entry of a folder as read from the file system: its name, its path and,
/// when they could be read, its metadata.
pub struct DirItem {
    pub name: String,
    pub path: String,
    pub metadata: Option<ItemMetadata>,
}

/// `name` starts with a dot (a hidden entry).
pub open spec fn is_hidden_name(name: Seq<char>) -> bool {
    name.len() > 0 && name[0] == '.'
}

/// The item is listed: not hidden, its metadata known, and a folder or a `.sor` file.
pub open spec fn item_shown(item: DirItem) -> bool {
    &&& !is_hidden_name(item.name@)
    &&& item.metadata is Some
    &&& (item.metadata->0.is_dir || is_sor_path(item.path@))
}

/// `e` is the listing row of `item`.
pub open spec fn entry_of_item(item: DirItem, e: FsEntry) -> bool {
    let m = item.metadata->0;
    &&& e.name@ == item.name@
    &&& e.path@ == item.path@
    &&& e.is_dir == m.is_dir
    &&& opt_view(e.size_label) == (if m.is_dir { None } else { Some(size_label(m.len as nat)) })
    &&& opt_view(e.modified_label) == opt_view(m.modified_label)
}

/// The listing row of a folder entry: none for hidden entries, entries whose
/// metadata could not be read, and files other than `.sor`; files carry a size label.
pub fn to_fs_entry(item: DirItem) -> (r: Option<FsEntry>)
    ensures
        r is Some <==> item_shown(item),
        r matches Some(e) ==> entry_of_item(item, e),
        (item.metadata is Some && item.metadata->0.is_dir && !(item.name@.len() > 0 && item.name@[0] == '.'))
            ==> (r is Some && r->0.is_dir && r->0.name@ == item.name@ && r->0.path@ == item.path@),
{
    let hidden = item.name.as_str().unicode_len() > 0 && item.name.as_str().get_char(0) == '.';
    if hidden {
        return None;
    }
    let DirItem { name, path, metadata } = item;
    match metadata {
        None => None,
        Some(m) => {
            if !m.is_dir && !is_sor_file(path.as_str()) {
                None
            } else {
                let size_label = if m.is_dir { None } else { Some(format_size(m.len)) };
                Some(FsEntry { name, path, is_dir: m.is_dir, size_label, modified_label: m.modified_label })
            }
        },
    }
}

/// The folder to list: the requested path, else the home folder, else ".".
pub open spec fn listing_dir_spec(path: Option<Seq<char>>, home: Option<Seq<char>>) -> Seq<char> {
    match path {
        Some(p) => p,
        None => match home {
            Some(h) => h,
            None => seq!['.'],
        },
    }
}

/// Chooses the folder to list.
pub fn listing_dir(path: Option<String>, home: Option<String>) -> (r: String)
    ensures
        r@ == listing_dir_spec(opt_view(path), opt_view(home)),
{
    proof {
        reveal_strlit(".");
    }
    match path {
        Some(p) => p,
        None => match home {
            Some(h) => h,
            None => String::from_str("."),
        },
    }
}

/// The message shown when the chosen path is not a folder.
pub open spec fn not_a_folder_message() -> Seq<char> {
    "Указанный путь не является папкой"@
}

/// The message shown when a folder cannot be read, given the cause.
pub open spec fn read_failed_message(cause: Seq<char>) -> Seq<char> {
    "Не удалось прочитать папку: "@ + cause
}

/// `rows` are the listing rows of the shown entries among `items`, in their order.
pub open spec fn rows_of_items(items: Seq<DirItem>, rows: Seq<FsEntry>) -> bool
    decreases items.len(),
{
    if items.len() == 0 {
        rows.len() == 0
    } else if item_shown(items.last()) {
        &&& rows.len() > 0
        &&& entry_of_item(items.last(), rows.last())
        &&& rows_of_items(items.drop_last(), rows.drop_last())
    } else {
        rows_of_items(items.drop_last(), rows)
    }
}

/// `rows` are the rows of the shown entries among `items`, ordered as
/// `sort_entries` orders them.
pub open spec fn sorted_rows_of(items: Seq<DirItem>, rows: Seq<FsEntry>) -> bool {
    exists|unsorted: Seq<FsEntry>|
        #[trigger] rows_of_items(items, unsorted)
        && entries_sorted(rows)
        && forall|e: FsEntry| #[trigger] key_class(rows, e) == key_class(unsorted, e)
}

/// The rows of a folder from its entries as read, or the message of the read error.
pub fn read_entries(items: Result<Vec<DirItem>, String>) -> (r: Result<Vec<FsEntry>, String>)
    ensures
        match items {
            Ok(v) => r matches Ok(rows) && sorted_rows_of(v@, rows@),
            Err(e) => r matches Err(m) && m@ == read_failed_message(e@),
        },
{
    match items {
        Err(e) => {
            let mut m = String::from_str("Не удалось прочитать папку: ");
            proof {
                reveal_strlit("Не удалось прочитать папку: ");
            }
            m.append(e.as_str());
            Err(m)
        },
        Ok(v) => {
            let ghost all = v@;
            let mut rest = v;
            let mut out: Vec<FsEntry> = Vec::new();
            let n = rest.len();
            let mut k: usize = 0;
            assert(all.take(0) =~= Seq::<DirItem>::empty());
            while rest.len() > 0
                invariant
                    n == all.len(),
                    k + rest@.len() == n,
                    rest@ == all.skip(k as int),
                    rows_of_items(all.take(k as int), out@),
                decreases rest@.len(),
            {
                let item = rest.remove(0);
                let ghost gi = item;
                assert(gi == all[k as int]);
                let ghost before = out@;
                match to_fs_entry(item) {
                    Some(e) => out.push(e),
                    None => {},
                }
                proof {
                    let t = all.take(k + 1);
                    assert(t.drop_last() =~= all.take(k as int));
                    assert(t.last() == gi);
                    if item_shown(gi) {
                        assert(out@.drop_last() =~= before);
                    }
                }
                assert(rest@ =~= all.skip(k + 1));
                k = k + 1;
            }
            assert(all.take(n as int) =~= all);
            let ghost unsorted = out@;
            sort_entries(&mut out);
            assert(rows_of_items(all, unsorted));
            Ok(out)
        },
    }
}

/// Builds the listing of folder `dir`. `contents` is `None` when `dir` is not a
/// folder, otherwise its entries as read, or the cause of the read error.
pub fn list_directory(dir: String, contents: Option<Result<Vec<DirItem>, String>>) -> (r: DirListing)
    ensures
        r.current_path@ == dir@,
        opt_view(r.parent_path) == spec_path_parent(dir@),
        match contents {
            None => r.entries@.len() == 0 && opt_view(r.error) == Some(not_a_folder_message()),
            Some(Ok(items)) => sorted_rows_of(items@, r.entries@) && r.error is None,
            Some(Err(e)) => r.entries@.len() == 0 && opt_view(r.error) == Some(read_failed_message(e@)),
        },
{
    let parent_path = path_parent(dir.as_str());
    let (entries, error) = match contents {
        None => (Vec::new(), Some(String::from_str("Указанный путь не является папкой"))),
        Some(read) => match read_entries(read) {
            Ok(es) => (es, None),
            Err(m) => (Vec::new(), Some(m)),
        },
    };
    DirListing { current_path: dir, parent_path, entries, error }
}

/// The shortcut named `name` at `path`.
pub open spec fn location_is(l: QuickLocation, name: Seq<char>, path: Seq<char>) -> bool {
    l.name@ == name && l.path@ == path
}

/// The shortcut `(name, path)` when the folder resolved, nothing otherwise.
pub open spec fn offered(name: Seq<char>, path: Option<Seq<char>>) -> Seq<(Seq<char>, Seq<char>)> {
    match path {
        Some(p) => seq![(name, p)],
        None => Seq::empty(),
    }
}

/// The quick locations offered, in order: home, desktop, documents, downloads,
/// each only when it resolved to an existing folder.
pub open spec fn quick_locations_spec(
    home: Option<Seq<char>>,
    desktop: Option<Seq<char>>,
    documents: Option<Seq<char>>,
    downloads: Option<Seq<char>>,
) -> Seq<(Seq<char>, Seq<char>)> {
    offered("Домашняя папка"@, home) + offered("Рабочий стол"@, desktop)
        + offered("Документы"@, documents) + offered("Загрузки"@, downloads)
}

/// `out` holds exactly the shortcuts `want`, in order.
pub open spec fn locations_match(out: Seq<QuickLocation>, want: Seq<(Seq<char>, Seq<char>)>) -> bool {
    out.len() == want.len() && forall|i: int| 0 <= i < want.len() ==> location_is(#[trigger] out[i], want[i].0, want[i].1)
}

fn push_location(out: &mut Vec<QuickLocation>, name: &str, path: Option<String>, Ghost(want): Ghost<Seq<(Seq<char>, Seq<char>)>>)
    requires
        locations_match(old(out)@, want),
    ensures
        locations_match(final(out)@, want + offered(name@, opt_view(path))),
{
    if let Some(p) = path {
        let ghost pv = p@;
        out.push(QuickLocation { name: String::from_str(name), path: p });
        assert(want + offered(name@, Some(pv)) =~= want.push((name@, pv)));
    } else {
        assert(want + offered(name@, None) =~= want);
    }
}

/// The quick locations shown in the open dialog. Each argument is the folder's
/// path when it resolved to an existing folder.
pub fn list_quick_locations(
    home: Option<String>,
    desktop: Option<String>,
    documents: Option<String>,
    downloads: Option<String>,
) -> (r: Vec<QuickLocation>)
    ensures
        locations_match(r@, quick_locations_spec(opt_view(home), opt_view(desktop), opt_view(documents), opt_view(downloads))),
        forall|i: int| 0 <= i < r@.len() && (#[trigger] r@[i]).name@ == "Домашняя папка"@ ==> opt_view(home) == Some(r@[i].path@),
        forall|i: int| 0 <= i < r@.len() && (#[trigger] r@[i]).name@ == "Рабочий стол"@ ==> opt_view(desktop) == Some(r@[i].path@),
        forall|i: int| 0 <= i < r@.len() && (#[trigger] r@[i]).name@ == "Документы"@ ==> opt_view(documents) == Some(r@[i].path@),
        forall|i: int| 0 <= i < r@.len() && (#[trigger] r@[i]).name@ == "Загрузки"@ ==> opt_view(downloads) == Some(r@[i].path@),
        desktop is Some ==> exists|i: int| 0 <= i < r@.len() && (#[trigger] r@[i]).name@ == "Рабочий стол"@,
        documents is Some ==> exists|i: int| 0 <= i < r@.len() && (#[trigger] r@[i]).name@ == "Документы"@,
        downloads is Some ==> exists|i: int| 0 <= i < r@.len() && (#[trigger] r@[i]).name@ == "Загрузки"@,
        home is Some ==> r@.len() > 0 && r@[0].name@ == "Домашняя папка"@,
        forall|i: int, j: int| 0 <= i < j < r@.len() ==> location_rank((#[trigger] r@[i]).name@) < location_rank((#[trigger] r@[j]).name@),
{
    proof {
        reveal_strlit("Домашняя папка");
        reveal_strlit("Рабочий стол");
        reveal_strlit("Документы");
        reveal_strlit("Загрузки");
    }
    let ghost (h, de, doc, dl) = (opt_view(home), opt_view(desktop), opt_view(documents), opt_view(downloads));
    let mut out: Vec<QuickLocation> = Vec::new();
    push_location(&mut out, "Домашняя папка", home, Ghost(Seq::empty()));
    assert(Seq::<(Seq<char>, Seq<char>)>::empty() + offered("Домашняя папка"@, h) =~= offered("Домашняя папка"@, h));
    push_location(&mut out, "Рабочий стол", desktop, Ghost(offered("Домашняя папка"@, h)));
    push_location(&mut out, "Документы", documents, Ghost(offered("Домашняя папка"@, h) + offered("Рабочий стол"@, de)));
    push_location(&mut out, "Загрузки", downloads, Ghost(offered("Домашняя папка"@, h) + offered("Рабочий стол"@, de) + offered("Документы"@, doc)));
    proof {
        lemma_quick_locations_named_by_folder(h, de, doc, dl, out@);
    }
    out
}

} // verus!

verus! {

proof fn lemma_key_class_step(s: Seq<FsEntry>, e: FsEntry)
    requires
        s.len() > 0,
    ensures
        key_class(s, e) == (if same_sort_key(s.last(), e) {
            key_class(s.drop_last(), e).push(s.last())
        } else {
            key_class(s.drop_last(), e)
        }),
{
    reveal_with_fuel(Seq::filter, 1);
}

proof fn lemma_sorted_prefix(s: Seq<FsEntry>)
    requires
        s.len() > 0,
        entries_sorted(s),
    ensures
        entries_sorted(s.drop_last()),
        forall|i: int| 0 <= i < s.len() ==> !entry_before(s.last(), #[trigger] s[i]),
{
    let p = s.drop_last();
    assert forall|i: int, j: int| 0 <= i < j < p.len() implies !entry_before(#[trigger] p[j], #[trigger] p[i]) by {
        assert(p[i] == s[i] && p[j] == s[j]);
    }
    assert forall|i: int| 0 <= i < s.len() implies !entry_before(s.last(), #[trigger] s[i]) by {
        if i < s.len() - 1 {
            assert(s.last() == s[s.len() - 1]);
        } else {
            lemma_entry_order(s[i], s[i], s[i]);
        }
    }
}

/// Two sorted sequences whose entries of each sort key come in the same order are equal.
proof fn lemma_sorted_classes_determine(s: Seq<FsEntry>, t: Seq<FsEntry>)
    requires
        entries_sorted(s),
        entries_sorted(t),
        forall|e: FsEntry| #[trigger] key_class(s, e) == key_class(t, e),
    ensures
        s == t,
    decreases s.len() + t.len(),
{
    if s.len() == 0 && t.len() == 0 {
        assert(s =~= t);
    } else if s.len() == 0 || t.len() == 0 {
        let (full, empty) = if s.len() == 0 { (t, s) } else { (s, t) };
        let x = full.last();
        lemma_key_class_step(full, x);
        assert(same_sort_key(x, x));
        assert(key_class(full, x).len() > 0);
        assert(empty =~= Seq::<FsEntry>::empty());
        assert(key_class(empty, x) =~= Seq::<FsEntry>::empty()) by {
            reveal_with_fuel(Seq::filter, 1);
        }
        assert(key_class(s, x) == key_class(t, x));
    } else {
        let x = s.last();
        let y = t.last();
        lemma_sorted_prefix(s);
        lemma_sorted_prefix(t);
        // `x` occurs in `t` and `y` in `s`.
        assert(same_sort_key(x, x));
        assert(same_sort_key(y, y));
        s.lemma_filter_contains(|z: FsEntry| same_sort_key(z, x), s.len() - 1);
        t.lemma_filter_contains(|z: FsEntry| same_sort_key(z, y), t.len() - 1);
        assert(key_class(s, x) == key_class(t, x));
        assert(key_class(s, y) == key_class(t, y));
        t.lemma_filter_contains_rev(|z: FsEntry| same_sort_key(z, x), s[s.len() - 1]);
        s.lemma_filter_contains_rev(|z: FsEntry| same_sort_key(z, y), t[t.len() - 1]);
        let i = choose|i: int| 0 <= i < t.len() && t[i] == x;
        let k = choose|k: int| 0 <= k < s.len() && s[k] == y;
        assert(!entry_before(y, t[i]));
        assert(!entry_before(x, s[k]));
        lemma_entry_order(x, y, x);
        assert(same_sort_key(x, y));
        let s2 = s.drop_last();
        let t2 = t.drop_last();
        lemma_key_class_step(s, x);
        lemma_key_class_step(t, x);
        assert(key_class(s2, x).push(x) == key_class(t2, x).push(y));
        assert(x == key_class(s2, x).push(x).last());
        assert(y == key_class(t2, x).push(y).last());
        assert(x == y);
        assert forall|e: FsEntry| #[trigger] key_class(s2, e) == key_class(t2, e) by {
            lemma_key_class_step(s, e);
            lemma_key_class_step(t, e);
            assert(key_class(s, e) == key_class(t, e));
            if same_sort_key(x, e) {
                assert(key_class(s2, e).push(x).drop_last() =~= key_class(s2, e));
                assert(key_class(t2, e).push(y).drop_last() =~= key_class(t2, e));
            }
        }
        lemma_sorted_classes_determine(s2, t2);
        assert(s =~= s2.push(x));
        assert(t =~= t2.push(y));
    }
}

/// Sorting is determined: two results that `sort_entries` may give for the
/// same entries (sorted, each sort key's entries in their original order) are equal.
pub proof fn lemma_sort_entries_deterministic(input: Seq<FsEntry>, a: Seq<FsEntry>, b: Seq<FsEntry>)
    requires
        entries_sorted(a),
        entries_sorted(b),
        forall|e: FsEntry| #[trigger] key_class(a, e) == key_class(input, e),
        forall|e: FsEntry| #[trigger] key_class(b, e) == key_class(input, e),
    ensures
        a == b,
{
    assert forall|e: FsEntry| #[trigger] key_class(a, e) == key_class(b, e) by {
        assert(key_class(a, e) == key_class(input, e));
        assert(key_class(b, e) == key_class(input, e));
    }
    lemma_sorted_classes_determine(a, b);
}

/// Sorting entries that are already in order leaves them unchanged.
pub proof fn lemma_sort_entries_idempotent(input: Seq<FsEntry>, out: Seq<FsEntry>)
    requires
        entries_sorted(input),
        entries_sorted(out),
        forall|e: FsEntry| #[trigger] key_class(out, e) == key_class(input, e),
    ensures
        out == input,
{
    lemma_sorted_classes_determine(out, input);
}

} // verus!

verus! {

/// In a sorted listing folders come before files, and entries of the same kind
/// are in the order of their whole lowercase names.
pub proof fn lemma_folders_first_then_whole_name(s: Seq<FsEntry>)
    requires
        entries_sorted(s),
    ensures
        forall|i: int, j: int| 0 <= i < j < s.len() && (#[trigger] s[j]).is_dir ==> (#[trigger] s[i]).is_dir,
        forall|i: int, j: int| 0 <= i < j < s.len() && (#[trigger] s[i]).is_dir == (#[trigger] s[j]).is_dir
            ==> !lex_lt(spec_to_lowercase(s[j].name@), spec_to_lowercase(s[i].name@)),
{
    assert forall|i: int, j: int| 0 <= i < j < s.len() && (#[trigger] s[j]).is_dir implies (#[trigger] s[i]).is_dir by {
        assert(!entry_before(s[j], s[i]));
    }
    assert forall|i: int, j: int| 0 <= i < j < s.len() && (#[trigger] s[i]).is_dir == (#[trigger] s[j]).is_dir
        implies !lex_lt(spec_to_lowercase(s[j].name@), spec_to_lowercase(s[i].name@)) by {
        assert(!entry_before(s[j], s[i]));
    }
}

proof fn lemma_rows_contain_shown(items: Seq<DirItem>, rows: Seq<FsEntry>, i: int)
    requires
        rows_of_items(items, rows),
        0 <= i < items.len(),
        item_shown(items[i]),
    ensures
        exists|k: int| 0 <= k < rows.len() && entry_of_item(items[i], #[trigger] rows[k]),
    decreases items.len(),
{
    if i == items.len() - 1 {
        assert(entry_of_item(items[i], rows[rows.len() - 1]));
    } else {
        let init = items.drop_last();
        assert(init[i] == items[i]);
        if item_shown(items.last()) {
            lemma_rows_contain_shown(init, rows.drop_last(), i);
            let k = choose|k: int| 0 <= k < rows.drop_last().len() && entry_of_item(init[i], #[trigger] rows.drop_last()[k]);
            assert(rows[k] == rows.drop_last()[k]);
        } else {
            lemma_rows_contain_shown(init, rows, i);
        }
    }
}

/// Every folder that is not hidden and whose metadata could be read is
/// listed, under its own name and path, whatever its name.
pub proof fn lemma_visible_folders_listed(items: Seq<DirItem>, rows: Seq<FsEntry>, i: int)
    requires
        sorted_rows_of(items, rows),
        0 <= i < items.len(),
        items[i].metadata is Some,
        items[i].metadata->0.is_dir,
        !(items[i].name@.len() > 0 && items[i].name@[0] == '.'),
    ensures
        exists|k: int| 0 <= k < rows.len() && (#[trigger] rows[k]).is_dir
            && rows[k].name@ == items[i].name@ && rows[k].path@ == items[i].path@,
{
    let pre = choose|unsorted: Seq<FsEntry>|
        #[trigger] rows_of_items(items, unsorted)
        && entries_sorted(rows)
        && forall|e: FsEntry| #[trigger] key_class(rows, e) == key_class(unsorted, e);
    lemma_rows_contain_shown(items, pre, i);
    let j = choose|k: int| 0 <= k < pre.len() && entry_of_item(items[i], #[trigger] pre[k]);
    let e = pre[j];
    let p = |x: FsEntry| same_sort_key(x, e);
    assert(same_sort_key(e, e));
    pre.lemma_filter_contains(p, j);
    assert(key_class(rows, e) == key_class(pre, e));
    rows.lemma_filter_contains_rev(p, e);
    let k = choose|k: int| 0 <= k < rows.len() && rows[k] == e;
    assert(rows[k].is_dir && rows[k].name@ == items[i].name@ && rows[k].path@ == items[i].path@);
}

/// Each quick location carries its own folder: the home folder is named
/// «Домашняя папка», the desktop «Рабочий стол», the documents folder
/// «Документы» and the downloads folder «Загрузки», in that order, each
/// present exactly when its folder resolved.
pub proof fn lemma_quick_locations_named_by_folder(
    home: Option<Seq<char>>,
    desktop: Option<Seq<char>>,
    documents: Option<Seq<char>>,
    downloads: Option<Seq<char>>,
    out: Seq<QuickLocation>,
)
    requires
        locations_match(out, quick_locations_spec(home, desktop, documents, downloads)),
    ensures
        out.len() == (if home is Some { 1int } else { 0 }) + (if desktop is Some { 1int } else { 0 })
            + (if documents is Some { 1int } else { 0 }) + (if downloads is Some { 1int } else { 0 }),
        forall|i: int| 0 <= i < out.len() && (#[trigger] out[i]).name@ == "Домашняя папка"@ ==> home == Some(out[i].path@),
        forall|i: int| 0 <= i < out.len() && (#[trigger] out[i]).name@ == "Рабочий стол"@ ==> desktop == Some(out[i].path@),
        forall|i: int| 0 <= i < out.len() && (#[trigger] out[i]).name@ == "Документы"@ ==> documents == Some(out[i].path@),
        forall|i: int| 0 <= i < out.len() && (#[trigger] out[i]).name@ == "Загрузки"@ ==> downloads == Some(out[i].path@),
        home is Some ==> out[0].name@ == "Домашняя папка"@ && out[0].path@ == home->0,
        desktop is Some ==> exists|i: int| 0 <= i < out.len() && (#[trigger] out[i]).name@ == "Рабочий стол"@ && out[i].path@ == desktop->0,
        documents is Some ==> exists|i: int| 0 <= i < out.len() && (#[trigger] out[i]).name@ == "Документы"@ && out[i].path@ == documents->0,
        downloads is Some ==> exists|i: int| 0 <= i < out.len() && (#[trigger] out[i]).name@ == "Загрузки"@ && out[i].path@ == downloads->0,
        forall|i: int, j: int| 0 <= i < j < out.len() ==> location_rank((#[trigger] out[i]).name@) < location_rank((#[trigger] out[j]).name@),
{
    reveal_strlit("Домашняя папка");
    reveal_strlit("Рабочий стол");
    reveal_strlit("Документы");
    reveal_strlit("Загрузки");
    let a = offered("Домашняя папка"@, home);
    let b = offered("Рабочий стол"@, desktop);
    let c = offered("Документы"@, documents);
    let d = offered("Загрузки"@, downloads);
    let want = quick_locations_spec(home, desktop, documents, downloads);
    assert(want == a + b + c + d);
    let na = a.len() as int;
    let nb = b.len() as int;
    let nc = c.len() as int;
    assert forall|i: int| 0 <= i < want.len() implies
        (i < na ==> (#[trigger] want[i]) == a[i])
        && (na <= i < na + nb ==> want[i] == b[i - na])
        && (na + nb <= i < na + nb + nc ==> want[i] == c[i - na - nb])
        && (na + nb + nc <= i ==> want[i] == d[i - na - nb - nc]) by {
    }
    assert forall|i: int| 0 <= i < out.len() implies location_is(#[trigger] out[i], want[i].0, want[i].1) by {}
    assert("Домашняя папка"@.len() == 14);
    assert("Рабочий стол"@.len() == 12);
    assert("Документы"@.len() == 9);
    assert("Загрузки"@.len() == 8);
    assert forall|i: int| 0 <= i < out.len() implies {
        &&& ((#[trigger] out[i]).name@ == "Домашняя папка"@ ==> home == Some(out[i].path@))
        &&& (out[i].name@ == "Рабочий стол"@ ==> desktop == Some(out[i].path@))
        &&& (out[i].name@ == "Документы"@ ==> documents == Some(out[i].path@))
        &&& (out[i].name@ == "Загрузки"@ ==> downloads == Some(out[i].path@))
        &&& location_rank(out[i].name@) == (if i < na { 0int } else if i < na + nb { 1 } else if i < na + nb + nc { 2 } else { 3 })
    } by {
        assert(location_is(out[i], want[i].0, want[i].1));
        if i < na {
            assert(want[i] == a[i]);
        } else if i < na + nb {
            assert(want[i] == b[i - na]);
        } else if i < na + nb + nc {
            assert(want[i] == c[i - na - nb]);
        } else {
            assert(want[i] == d[i - na - nb - nc]);
        }
    }
    if let Some(p) = desktop {
        assert(location_is(out[na], want[na].0, want[na].1));
    }
    if let Some(p) = documents {
        assert(location_is(out[na + nb], want[na + nb].0, want[na + nb].1));
    }
    if let Some(p) = downloads {
        assert(location_is(out[na + nb + nc], want[na + nb + nc].0, want[na + nb + nc].1));
    }
}

/// The place of a quick location's name in the fixed order home, desktop,
/// documents, downloads.
pub open spec fn location_rank(name: Seq<char>) -> int {
    if name == "Домашняя папка"@ { 0 }
    else if name == "Рабочий стол"@ { 1 }
    else if name == "Документы"@ { 2 }
    else if name == "Загрузки"@ { 3 }
    else { 4 }
}

} // verus!
