//! Labels of the events table, the measurement panel and the drop zone.

use vstd::prelude::*;
use crate::paths::opt_view;
use crate::text::{decimal, has_sor_extension, has_sor_extension_spec, u64_to_decimal};

verus! {

/// The label of an event kind as read from a `.sor` file; the first reflection
/// is the launch connector.
pub open spec fn event_kind_text(kind: Seq<char>, is_first: bool) -> Seq<char> {
    if kind == "reflection"@ && is_first {
        "Разъём (старт)"@
    } else if kind == "reflection"@ {
        "Разъём"@
    } else if kind == "loss/drop/gain"@ {
        "Сварной стык"@
    } else if kind == "end of fiber"@ {
        "Конец волокна"@
    } else if kind == "multiple events"@ {
        "Множественное событие"@
    } else {
        "Неизвестно"@
    }
}

/// The table label of an event of kind `kind`.
pub fn event_kind_label(kind: &str, is_first: bool) -> (r: &'static str)
    ensures
        r@ == event_kind_text(kind@, is_first),
{
    let k = String::from_str(kind);
    if k == String::from_str("reflection") && is_first {
        "Разъём (старт)"
    } else if k == String::from_str("reflection") {
        "Разъём"
    } else if k == String::from_str("loss/drop/gain") {
        "Сварной стык"
    } else if k == String::from_str("end of fiber") {
        "Конец волокна"
    } else if k == String::from_str("multiple events") {
        "Множественное событие"
    } else {
        "Неизвестно"
    }
}

/// The panel title: the cable id, else the fiber id, else "Файл открыт".
pub open spec fn panel_title(cable_id: Option<Seq<char>>, fiber_id: Option<Seq<char>>) -> Seq<char> {
    match cable_id {
        Some(c) => c,
        None => match fiber_id {
            Some(f) => f,
            None => "Файл открыт"@,
        },
    }
}

/// The title of the measurement panel.
pub fn summary_title(cable_id: Option<String>, fiber_id: Option<String>) -> (r: String)
    ensures
        r@ == panel_title(opt_view(cable_id), opt_view(fiber_id)),
{
    match cable_id {
        Some(c) => c,
        None => match fiber_id {
            Some(f) => f,
            None => String::from_str("Файл открыт"),
        },
    }
}

/// The pulse width shown: the first one in nanoseconds, or a dash.
pub open spec fn pulse_width_text(widths: Seq<u16>) -> Seq<char> {
    if widths.len() > 0 {
        decimal(widths[0] as nat) + " нс"@
    } else {
        "—"@
    }
}

/// The pulse width label of the measurement panel.
pub fn pulse_width_label(pulse_widths_ns: &Vec<u16>) -> (r: String)
    ensures
        r@ == pulse_width_text(pulse_widths_ns@),
{
    if pulse_widths_ns.len() > 0 {
        let mut s = u64_to_decimal(pulse_widths_ns[0] as u64);
        s.append(" нс");
        s
    } else {
        String::from_str("—")
    }
}

/// The message shown when nothing dropped is a `.sor` file.
pub open spec fn only_sor_message() -> Seq<char> {
    "Можно открыть только файлы .sor"@
}

/// Index of the first path with a `.sor` name, or `paths.len()`.
pub open spec fn first_sor_index(paths: Seq<Seq<char>>) -> int
    decreases paths.len(),
{
    if paths.len() == 0 {
        0
    } else if has_sor_extension_spec(paths[0]) {
        0
    } else {
        1 + first_sor_index(paths.drop_first())
    }
}

proof fn lemma_first_sor_index(paths: Seq<Seq<char>>)
    ensures
        0 <= first_sor_index(paths) <= paths.len(),
        forall|k: int| 0 <= k < first_sor_index(paths) ==> !has_sor_extension_spec(#[trigger] paths[k]),
        first_sor_index(paths) < paths.len() ==> has_sor_extension_spec(paths[first_sor_index(paths)]),
    decreases paths.len(),
{
    if paths.len() > 0 && !has_sor_extension_spec(paths[0]) {
        lemma_first_sor_index(paths.drop_first());
        assert forall|k: int| 0 <= k < first_sor_index(paths) implies !has_sor_extension_spec(#[trigger] paths[k]) by {
            if k > 0 {
                assert(paths[k] == paths.drop_first()[k - 1]);
            }
        }
    }
}

/// The views of a list of strings.
pub open spec fn views(v: Seq<String>) -> Seq<Seq<char>> {
    v.map_values(|s: String| s@)
}

/// Of the paths dropped on the window, the first `.sor` file, or the message
/// that only `.sor` files can be opened.
pub fn dropped_sor_path(paths: Vec<String>) -> (r: Result<String, String>)
    ensures
        ({
            let k = first_sor_index(views(paths@));
            match r {
                Ok(p) => k < paths@.len() && p@ == paths@[k]@,
                Err(e) => k == paths@.len() && e@ == only_sor_message(),
            }
        }),
{
    let ghost all = views(paths@);
    proof {
        lemma_first_sor_index(all);
    }
    let mut rest = paths;
    let n = rest.len();
    let mut i: usize = 0;
    while rest.len() > 0
        invariant
            n == all.len(),
            i + rest@.len() == n,
            all == views(paths@),
            forall|k: int| 0 <= k < rest@.len() ==> #[trigger] rest@[k]@ == all[i + k],
            forall|k: int| 0 <= k < i ==> !has_sor_extension_spec(#[trigger] all[k]),
            0 <= first_sor_index(all) <= all.len(),
            forall|k: int| 0 <= k < first_sor_index(all) ==> !has_sor_extension_spec(#[trigger] all[k]),
            first_sor_index(all) < all.len() ==> has_sor_extension_spec(all[first_sor_index(all)]),
        decreases rest@.len(),
    {
        let ghost before = rest@;
        let p = rest.remove(0);
        assert(p@ == all[i as int]);
        if has_sor_extension(p.as_str()) {
            assert(first_sor_index(all) == i);
            return Ok(p);
        }
        assert forall|k: int| 0 <= k < rest@.len() implies #[trigger] rest@[k]@ == all[i + 1 + k] by {
            assert(rest@[k] == before[k + 1]);
        }
        i = i + 1;
    }
    Err(String::from_str("Можно открыть только файлы .sor"))
}

} // verus!
