//! The cleanup pass over the loaded modules.
//!
//! The pass reads the module listing, selects every line that carries the
//! marker of this tool's modules, and unloads each selected module by the
//! identifier in its first field.  Individual unload failures are ignored:
//! the pass always reports success.

use vstd::prelude::*;

use crate::text::{
    contains_str, has_substring, lines_of, split_lines, split_on, split_on_char, views_of,
    lemma_split_on_nonempty,
};

verus! {

/// The marker that the names of this tool's modules carry.
pub open spec fn module_marker() -> Seq<char> {
    "beacn_link_"@
}

/// The identifier a module line starts with: its field before the first tab.
pub open spec fn module_id_of(line: Seq<char>) -> Seq<char> {
    split_on(line, '\t')[0]
}

/// The identifiers of the marked module lines, in listing order.
pub open spec fn cleanup_ids(lines: Seq<Seq<char>>) -> Seq<Seq<char>> {
    lines.filter_map(
        |l: Seq<char>|
            if has_substring(l, module_marker()) {
                Some(module_id_of(l))
            } else {
                None
            },
    )
}

/// Selects the modules a cleanup pass unloads: exactly the lines that carry
/// the marker, each by the identifier in its first field.
pub fn modules_to_unload(modules_listing: &str) -> (ids: Vec<String>)
    ensures
        views_of(ids@) == cleanup_ids(split_lines(modules_listing@)),
{
    let lines = lines_of(modules_listing);
    let ghost line_views = views_of(lines@);
    let mut ids: Vec<String> = Vec::new();
    proof {
        assert(views_of(ids@) =~~= cleanup_ids(line_views.take(0)));
    }
    let mut i: usize = 0;
    while i < lines.len()
        invariant
            line_views == views_of(lines@),
            i <= lines@.len(),
            views_of(ids@) == cleanup_ids(line_views.take(i as int)),
        decreases lines@.len() - i,
    {
        let ghost ids_before = ids@;
        if contains_str(lines[i].as_str(), "beacn_link_") {
            let parts = split_on_char(lines[i].as_str(), '\t');
            proof {
                broadcast use lemma_split_on_nonempty;

                assert(views_of(parts@).len() >= 1);
            }
            ids.push(parts[0].clone());
        }
        proof {
            let taken = line_views.take(i as int + 1);
            assert(taken.drop_last() =~~= line_views.take(i as int));
            assert(taken.last() == line_views[i as int]);
            if has_substring(line_views[i as int], module_marker()) {
                assert(views_of(ids@) =~~= views_of(ids_before).push(module_id_of(
                    line_views[i as int],
                )));
                assert(views_of(ids_before).push(module_id_of(line_views[i as int]))
                    =~~= views_of(ids_before) + seq![module_id_of(line_views[i as int])]);
            }
        }
        i += 1;
    }
    proof {
        assert(line_views.take(line_views.len() as int) =~~= line_views);
    }
    ids
}

/// The overall result of a cleanup pass.  The pass unloads each selected
/// module and ignores the individual outcomes: whatever they were, it
/// reports success.
pub fn cleanup_virtual_devices(_unload_results: &Vec<bool>) -> (ok: bool)
    ensures
        ok,
{
    true
}

/// `id` is the first field of a line of `lines` that carries the marker.
pub open spec fn id_from_marked_line(lines: Seq<Seq<char>>, id: Seq<char>) -> bool {
    exists|j: int|
        0 <= j < lines.len() && has_substring(#[trigger] lines[j], module_marker()) && id
            == module_id_of(lines[j])
}

/// A cleanup pass unloads only marked entries, and all of them: every
/// selected identifier is the first field of a line that carries the marker,
/// and the identifier of every marked line is selected.
pub proof fn lemma_cleanup_selects_marked(lines: Seq<Seq<char>>)
    ensures
        forall|i: int|
            0 <= i < cleanup_ids(lines).len() ==> id_from_marked_line(
                lines,
                #[trigger] cleanup_ids(lines)[i],
            ),
        forall|j: int|
            0 <= j < lines.len() && has_substring(#[trigger] lines[j], module_marker())
                ==> cleanup_ids(lines).contains(module_id_of(lines[j])),
    decreases lines.len(),
{
    if lines.len() > 0 {
        lemma_cleanup_selects_marked(lines.drop_last());
        let rest = cleanup_ids(lines.drop_last());
        let whole = cleanup_ids(lines);
        let last_marked = has_substring(lines.last(), module_marker());
        assert(forall|j: int| 0 <= j < lines.len() - 1 ==> lines.drop_last()[j] == lines[j]);
        if last_marked {
            assert(whole == rest + seq![module_id_of(lines.last())]);
            assert(forall|i: int| 0 <= i < rest.len() ==> whole[i] == rest[i]);
            assert(whole[rest.len() as int] == module_id_of(lines.last()));
        } else {
            assert(whole == rest);
        }
        assert forall|i: int| 0 <= i < whole.len() implies id_from_marked_line(
            lines,
            #[trigger] whole[i],
        ) by {
            if i < rest.len() {
                assert(whole[i] == rest[i]);
                assert(id_from_marked_line(lines.drop_last(), rest[i]));
                let j = choose|j: int|
                    0 <= j < lines.drop_last().len() && has_substring(
                        #[trigger] lines.drop_last()[j],
                        module_marker(),
                    ) && rest[i] == module_id_of(lines.drop_last()[j]);
                assert(lines[j] == lines.drop_last()[j]);
                assert(has_substring(lines[j], module_marker()) && whole[i] == module_id_of(
                    lines[j],
                ));
            } else {
                assert(last_marked);
                assert(has_substring(lines[lines.len() - 1], module_marker()) && whole[i]
                    == module_id_of(lines[lines.len() - 1]));
            }
        }
        assert forall|j: int|
            0 <= j < lines.len() && has_substring(#[trigger] lines[j], module_marker())
                implies cleanup_ids(lines).contains(module_id_of(lines[j])) by {
            if j < lines.len() - 1 {
                assert(lines.drop_last()[j] == lines[j]);
                let w = choose|w: int|
                    0 <= w < rest.len() && rest[w] == module_id_of(lines.drop_last()[j]);
                assert(whole[w] == module_id_of(lines[j]));
            } else {
                assert(last_marked);
                assert(whole[rest.len() as int] == module_id_of(lines[j]));
            }
        }
    }
}

} // verus!
