//! Presets: named settings of the supply, in a list of any length.

use vstd::arithmetic::power2::pow2;
use vstd::prelude::*;

use crate::double::{finite, negative, one, units};
use crate::limits::{
    checked, curr_in_range, curr_ok, deliverable, law_what_is_within_the_limits_passes, over_power, power_exceeded,
    volt_in_range, volt_ok,
};
use crate::text::{
    chars_of, is_blank, law_trimming_takes_white_space_at_the_ends, trim_start, trimmed, white, white_prefix,
};

verus! {

/// A named setting. The numbers are double precision bit patterns.
#[derive(Debug, PartialEq, Eq)]
pub struct Preset {
    pub id: String,
    pub name: String,
    pub volt: u64,
    pub curr: u64,
    pub ovp: Option<u64>,
    pub ocp: Option<u64>,
    pub note: String,
    pub updated: String,
}

/// A preset as a mathematical value.
pub struct PresetView {
    pub id: Seq<char>,
    pub name: Seq<char>,
    pub volt: u64,
    pub curr: u64,
    pub ovp: Option<u64>,
    pub ocp: Option<u64>,
    pub note: Seq<char>,
    pub updated: Seq<char>,
}

impl View for Preset {
    type V = PresetView;

    open spec fn view(&self) -> PresetView {
        PresetView {
            id: self.id@,
            name: self.name@,
            volt: self.volt,
            curr: self.curr,
            ovp: self.ovp,
            ocp: self.ocp,
            note: self.note@,
            updated: self.updated@,
        }
    }
}

/// The presets of a list.
pub open spec fn views(ps: Seq<Preset>) -> Seq<PresetView> {
    Seq::new(ps.len(), |i: int| ps[i]@)
}

/// The preset has an identifier and a name that are not blank.
pub open spec fn named(p: PresetView) -> bool {
    trimmed(p.id).len() > 0 && trimmed(p.name).len() > 0
}

/// The voltage and the current are each ones that the supply has.
pub open spec fn in_range(p: PresetView) -> bool {
    volt_in_range(p.volt) && curr_in_range(p.curr)
}

/// The first place from `from` on where the identifier stands.
pub open spec fn place_from(ps: Seq<PresetView>, id: Seq<char>, from: int) -> Option<int>
    decreases ps.len() - from,
{
    if from >= ps.len() {
        None
    } else if ps[from].id == id {
        Some(from)
    } else {
        place_from(ps, id, from + 1)
    }
}

/// The first place where the identifier stands.
pub open spec fn place(ps: Seq<PresetView>, id: Seq<char>) -> Option<int> {
    place_from(ps, id, 0)
}

/// The list with a preset put in the place of the first one that has its
/// identifier, or at the end where none has it.
pub open spec fn put(ps: Seq<PresetView>, p: PresetView) -> Seq<PresetView> {
    match place(ps, p.id) {
        Some(i) => ps.update(i, p),
        None => ps.push(p),
    }
}

/// The list without the presets that have the identifier.
pub open spec fn without(ps: Seq<PresetView>, id: Seq<char>) -> Seq<PresetView> {
    ps.filter(|p: PresetView| p.id != id)
}

/// Why a preset is not saved, if it is not.
pub open spec fn save_error(p: PresetView) -> Option<Seq<char>> {
    if !named(p) {
        Some("id/nameが空です"@)
    } else if !in_range(p) {
        Some("V/A範囲外です"@)
    } else if over_power(p.volt, p.curr) {
        Some("電力超過(>300W)です"@)
    } else {
        None
    }
}

/// `place_from` gives the least place, and none only where there is none.
pub proof fn lemma_place_from(ps: Seq<PresetView>, id: Seq<char>, from: int)
    requires
        0 <= from,
    ensures
        match place_from(ps, id, from) {
            Some(i) => from <= i < ps.len() && ps[i].id == id && forall|j: int|
                from <= j < i ==> (#[trigger] ps[j]).id != id,
            None => forall|j: int| from <= j < ps.len() ==> (#[trigger] ps[j]).id != id,
        },
    decreases ps.len() - from,
{
    if from < ps.len() && ps[from].id != id {
        lemma_place_from(ps, id, from + 1);
    }
}

fn find(ps: &Vec<Preset>, id: &String) -> (r: Option<usize>)
    ensures
        match r {
            Some(i) => place(views(ps@), id@) == Some(i as int) && i < ps@.len(),
            None => place(views(ps@), id@) is None,
        },
{
    let mut i: usize = 0;
    while i < ps.len()
        invariant
            i <= ps@.len(),
            place(views(ps@), id@) == place_from(views(ps@), id@, i as int),
        decreases ps@.len() - i,
    {
        proof {
            assert(views(ps@)[i as int].id == ps@[i as int].id@);
        }
        if ps[i].id == *id {
            return Some(i);
        }
        i = i + 1;
    }
    None
}

fn put_preset(ps: &mut Vec<Preset>, p: Preset)
    ensures
        views(final(ps)@) == put(views(old(ps)@), p@),
{
    let ghost before = ps@;
    match find(ps, &p.id) {
        Some(i) => {
            ps.set(i, p);
            proof {
                assert(views(ps@) =~= views(before).update(i as int, p@));
            }
        },
        None => {
            ps.push(p);
            proof {
                assert(views(ps@) =~= views(before).push(p@));
            }
        },
    }
}

fn is_named(p: &Preset) -> (r: bool)
    ensures
        r == named(p@),
{
    !is_blank(&p.id) && !is_blank(&p.name)
}

/// Whether a preset can be saved: it has an identifier and a name, and the
/// supply can deliver it.
pub fn check_preset(p: &Preset) -> (r: Result<(), String>)
    ensures
        checked(r, save_error(p@)),
{
    if !is_named(p) {
        return Err("id/nameが空です".to_string());
    }
    if !volt_ok(p.volt) || !curr_ok(p.curr) {
        return Err("V/A範囲外です".to_string());
    }
    if power_exceeded(p.volt, p.curr) {
        return Err("電力超過(>300W)です".to_string());
    }
    Ok(())
}

/// Saves a preset: in the place of the one with its identifier, or at the end.
/// A preset without identifier or name, or that the supply cannot deliver, is
/// refused, and the list stays as it is.
pub fn preset_save(ps: &mut Vec<Preset>, p: Preset) -> (r: Result<(), String>)
    ensures
        match save_error(p@) {
            Some(m) => (r matches Err(e) && e@ == m) && final(ps)@ == old(ps)@,
            None => r is Ok && views(final(ps)@) == put(views(old(ps)@), p@),
        },
{
    match check_preset(&p) {
        Ok(_) => {
            put_preset(ps, p);
            Ok(())
        },
        Err(e) => Err(e),
    }
}

/// Removes the presets with the identifier.
pub fn preset_delete(ps: Vec<Preset>, id: &String) -> (r: Vec<Preset>)
    ensures
        views(r@) == without(views(ps@), id@),
{
    let ghost all = views(ps@);
    let ghost keep = |p: PresetView| p.id != id@;
    let mut kept: Vec<Preset> = Vec::new();
    let mut queue = reversed(ps);
    proof {
        reveal(Seq::filter);
        assert(views(kept@) =~= all.take(0).filter(keep));
    }
    while queue.len() > 0
        invariant
            keep == (|p: PresetView| p.id != id@),
            queue@.len() <= all.len(),
            views(queue@) == all.skip(all.len() - queue@.len()).reverse(),
            views(kept@) == all.take(all.len() - queue@.len()).filter(keep),
        decreases queue@.len(),
    {
        let ghost q = queue@;
        let ghost k = kept@;
        let ghost i = all.len() - q.len();
        match queue.pop() {
            Some(p) => {
                proof {
                    reveal(Seq::filter);
                    assert(views(q)[q.len() - 1] == p@);
                    assert(all[i] == p@);
                    assert(all.take(i + 1).drop_last() =~= all.take(i));
                    assert(all.take(i + 1).last() == p@);
                    assert(views(queue@) =~= views(q).drop_last());
                    assert(views(queue@) =~= all.skip(i + 1).reverse());
                }
                if p.id != *id {
                    kept.push(p);
                    proof {
                        assert(views(kept@) =~= views(k).push(p@));
                    }
                }
            },
            None => {},
        }
    }
    proof {
        assert(all.take(all.len() as int) =~= all);
    }
    kept
}

/// A preset that an import takes in. Its power is not looked at: it is checked
/// when the preset is applied.
pub open spec fn importable(p: PresetView) -> bool {
    named(p) && in_range(p)
}

/// The list after an import of the presets, one after the other.
pub open spec fn imported(ps: Seq<PresetView>, incoming: Seq<PresetView>) -> Seq<PresetView>
    decreases incoming.len(),
{
    if incoming.len() == 0 {
        ps
    } else {
        let before = imported(ps, incoming.drop_last());
        if importable(incoming.last()) {
            put(before, incoming.last())
        } else {
            before
        }
    }
}

/// Some preset of these can be imported.
pub open spec fn any_importable(incoming: Seq<PresetView>) -> bool {
    exists|i: int| 0 <= i < incoming.len() && importable(#[trigger] incoming[i])
}

/// Imports presets, and passes over those without identifier or name or out
/// of range. The list is to be stored either way; where nothing was imported
/// an error is to be returned after that.
pub fn preset_import(ps: &mut Vec<Preset>, incoming: Vec<Preset>) -> (r: Result<(), String>)
    ensures
        views(final(ps)@) == imported(views(old(ps)@), views(incoming@)),
        r is Ok <==> any_importable(views(incoming@)),
        r matches Err(e) ==> e@ == "取込めるプリセットがありません"@,
{
    let ghost before = views(ps@);
    let ghost all = views(incoming@);
    let mut any: bool = false;
    let mut queue = reversed(incoming);
    proof {
        assert(all.take(0) =~= Seq::empty());
    }
    while queue.len() > 0
        invariant
            queue@.len() <= all.len(),
            views(queue@) == all.skip(all.len() - queue@.len()).reverse(),
            views(ps@) == imported(before, all.take(all.len() - queue@.len())),
            any == any_importable(all.take(all.len() - queue@.len())),
        decreases queue@.len(),
    {
        let ghost q = queue@;
        let ghost i = all.len() - q.len();
        match queue.pop() {
            Some(p) => {
                proof {
                    assert(views(q)[q.len() - 1] == p@);
                    assert(all[i] == p@);
                    assert(all.take(i + 1).drop_last() =~= all.take(i));
                    assert(all.take(i + 1).last() == p@);
                    assert(views(queue@) =~= views(q).drop_last());
                    assert(views(queue@) =~= all.skip(i + 1).reverse());
                    let t = all.take(i + 1);
                    assert(any_importable(t) == (any_importable(all.take(i)) || importable(p@))) by {
                        assert forall|k: int|
                            0 <= k < i implies #[trigger] t[k] == all.take(i)[k] by {};
                        if importable(p@) {
                            assert(importable(t[i]));
                        }
                        if any_importable(all.take(i)) {
                            let k = choose|k: int|
                                0 <= k < i && importable(#[trigger] all.take(i)[k]);
                            assert(importable(t[k]));
                        }
                        if any_importable(t) {
                            let k = choose|k: int| 0 <= k < t.len() && importable(#[trigger] t[k]);
                            if k < i {
                                assert(importable(all.take(i)[k]));
                            }
                        }
                    }
                }
                if is_named(&p) && volt_ok(p.volt) && curr_ok(p.curr) {
                    put_preset(ps, p);
                    any = true;
                }
            },
            None => {},
        }
    }
    proof {
        assert(all.take(all.len() as int) =~= all);
    }
    if any {
        Ok(())
    } else {
        Err("取込めるプリセットがありません".to_string())
    }
}

fn reversed(ps: Vec<Preset>) -> (r: Vec<Preset>)
    ensures
        views(r@) == views(ps@).reverse(),
        r@.len() == ps@.len(),
{
    let ghost all = ps@;
    let mut rest = ps;
    let mut r: Vec<Preset> = Vec::new();
    while rest.len() > 0
        invariant
            rest@.len() <= all.len(),
            rest@ == all.take(rest@.len() as int),
            r@ == all.skip(rest@.len() as int).reverse(),
        decreases rest@.len(),
    {
        let ghost n = rest@.len() - 1;
        match rest.pop() {
            Some(p) => {
                r.push(p);
                proof {
                    assert(rest@ =~= all.take(n));
                    assert(r@ =~= all.skip(n).reverse());
                }
            },
            None => {},
        }
    }
    proof {
        assert(all.skip(0) =~= all);
        assert(views(r@) =~= views(all).reverse());
    }
    r
}

/// Whether a text to import is that of a list, and not of a single preset.
pub fn is_list(json: &str) -> (r: bool)
    ensures
        r == (trim_start(json@).len() > 0 && trim_start(json@)[0] == '['),
{
    let v = chars_of(json);
    let i = white_prefix(&v, 0);
    proof {
        assert(json@.skip(0) =~= json@);
    }
    i < v.len() && v[i] == '['
}

/// Whether nothing is stored: there is no file, or it is blank.
pub fn nothing_stored(raw: &Option<String>) -> (r: bool)
    ensures
        r == (match raw {
            Some(text) => trimmed(text@).len() == 0,
            None => true,
        }),
{
    match raw {
        Some(text) => is_blank(text),
        None => true,
    }
}

/// A preset that was saved can be set: the supply delivers it.
pub proof fn law_saved_preset_is_deliverable(p: PresetView)
    requires
        save_error(p) is None,
    ensures
        deliverable(p.volt, p.curr),
{
}

// What holds of the list.

/// No two presets have the same identifier.
pub open spec fn distinct(ps: Seq<PresetView>) -> bool {
    forall|i: int, j: int|
        0 <= i < j < ps.len() ==> (#[trigger] ps[i]).id != (#[trigger] ps[j]).id
}

/// A preset that was put into the list is found there under its identifier,
/// where the one was that it replaces or else at the end, and all the others
/// stay as they are, where they are.
pub proof fn law_put_preset_is_found(ps: Seq<PresetView>, p: PresetView)
    ensures
        place(put(ps, p), p.id) matches Some(i) && put(ps, p)[i] == p && i == (match place(ps, p.id) {
            Some(k) => k,
            None => ps.len() as int,
        }),
        forall|j: int|
            0 <= j < ps.len() && Some(j) != place(ps, p.id) ==> #[trigger] put(ps, p)[j] == ps[j],
        put(ps, p).len() == (if place(ps, p.id) is Some {
            ps.len()
        } else {
            ps.len() + 1
        }),
{
    lemma_place_from(ps, p.id, 0);
    lemma_place_from(put(ps, p), p.id, 0);
    let i = match place(ps, p.id) {
        Some(k) => k,
        None => ps.len() as int,
    };
    assert(put(ps, p)[i] == p);
}

/// Putting the same preset a second time changes nothing.
pub proof fn law_putting_twice_is_putting_once(ps: Seq<PresetView>, p: PresetView)
    ensures
        put(put(ps, p), p) == put(ps, p),
{
    law_put_preset_is_found(ps, p);
    let q = put(ps, p);
    lemma_place_from(q, p.id, 0);
    let i = place(q, p.id)->0;
    assert(q.update(i, p) =~= q);
}

/// Identifiers that are distinct stay distinct when a preset is put.
pub proof fn law_put_keeps_identifiers_distinct(ps: Seq<PresetView>, p: PresetView)
    requires
        distinct(ps),
    ensures
        distinct(put(ps, p)),
{
    lemma_place_from(ps, p.id, 0);
}

/// Identifiers that are distinct stay distinct in an import.
pub proof fn law_import_keeps_identifiers_distinct(ps: Seq<PresetView>, incoming: Seq<PresetView>)
    requires
        distinct(ps),
    ensures
        distinct(imported(ps, incoming)),
    decreases incoming.len(),
{
    if incoming.len() > 0 {
        law_import_keeps_identifiers_distinct(ps, incoming.drop_last());
        let before = imported(ps, incoming.drop_last());
        if importable(incoming.last()) {
            law_put_keeps_identifiers_distinct(before, incoming.last());
        }
    }
}

/// The identifiers of presets.
pub open spec fn ids(ps: Seq<PresetView>) -> Seq<Seq<char>> {
    Seq::new(ps.len(), |i: int| ps[i].id)
}

/// The identifiers that an import adds to a list, each once, in the order in
/// which they first come up among the presets that can be imported.
pub open spec fn new_ids(ps: Seq<PresetView>, incoming: Seq<PresetView>) -> Seq<Seq<char>>
    decreases incoming.len(),
{
    if incoming.len() == 0 {
        Seq::empty()
    } else {
        let before = new_ids(ps, incoming.drop_last());
        let p = incoming.last();
        if importable(p) && !ids(ps).contains(p.id) && !before.contains(p.id) {
            before.push(p.id)
        } else {
            before
        }
    }
}

/// An identifier has a place in a list exactly if the list has it.
proof fn lemma_place_of_id(ps: Seq<PresetView>, id: Seq<char>)
    ensures
        place(ps, id) is Some <==> ids(ps).contains(id),
{
    lemma_place_from(ps, id, 0);
    if let Some(i) = place(ps, id) {
        assert(ids(ps)[i] == id);
    } else if ids(ps).contains(id) {
        let i = choose|i: int| 0 <= i < ids(ps).len() && ids(ps)[i] == id;
        assert(ps[i].id == id);
    }
}

/// An import leaves the identifiers of the list where they are, and adds the new
/// ones after them in the order in which they first come up.
pub proof fn law_import_adds_new_identifiers_in_order(ps: Seq<PresetView>, incoming: Seq<PresetView>)
    ensures
        ids(imported(ps, incoming)) == ids(ps) + new_ids(ps, incoming),
    decreases incoming.len(),
{
    if incoming.len() == 0 {
        assert(ids(ps) + new_ids(ps, incoming) =~= ids(ps));
    } else {
        let rest = incoming.drop_last();
        let p = incoming.last();
        let before = imported(ps, rest);
        let added = new_ids(ps, rest);
        law_import_adds_new_identifiers_in_order(ps, rest);
        if importable(p) {
            lemma_place_of_id(before, p.id);
            lemma_place_from(before, p.id, 0);
            assert((ids(ps) + added).contains(p.id) <==> ids(ps).contains(p.id) || added.contains(p.id)) by {
                let all = ids(ps) + added;
                let n = ids(ps).len() as int;
                if all.contains(p.id) {
                    let i = choose|i: int| 0 <= i < all.len() && all[i] == p.id;
                    if i < n {
                        assert(ids(ps)[i] == p.id);
                    } else {
                        assert(added[i - n] == p.id);
                    }
                }
                if ids(ps).contains(p.id) {
                    let i = choose|i: int| 0 <= i < n && ids(ps)[i] == p.id;
                    assert(all[i] == p.id);
                }
                if added.contains(p.id) {
                    let i = choose|i: int| 0 <= i < added.len() && added[i] == p.id;
                    assert(all[n + i] == p.id);
                }
            }
            if let Some(i) = place(before, p.id) {
                assert(ids(before.update(i, p)) =~= ids(before));
            } else {
                assert(ids(before.push(p)) =~= ids(before).push(p.id));
                assert(ids(ps) + added.push(p.id) =~= (ids(ps) + added).push(p.id));
            }
        }
    }
}

/// The last preset that can be imported, of those with one identifier, is the
/// one that is found under it afterwards.
pub proof fn law_last_import_of_an_identifier_wins(ps: Seq<PresetView>, incoming: Seq<PresetView>, i: int)
    requires
        0 <= i < incoming.len(),
        importable(incoming[i]),
        forall|k: int|
            i < k < incoming.len() && importable(#[trigger] incoming[k]) ==> incoming[k].id != incoming[i].id,
    ensures
        place(imported(ps, incoming), incoming[i].id) matches Some(k) && imported(ps, incoming)[k] == incoming[i],
    decreases incoming.len(),
{
    let rest = incoming.drop_last();
    let p = incoming.last();
    let before = imported(ps, rest);
    if i == incoming.len() - 1 {
        law_put_preset_is_found(before, p);
    } else {
        assert(rest[i] == incoming[i]);
        assert forall|k: int| i < k < rest.len() && importable(#[trigger] rest[k]) implies rest[k].id
            != rest[i].id by {
            assert(rest[k] == incoming[k]);
        }
        law_last_import_of_an_identifier_wins(ps, rest, i);
        if importable(p) {
            assert(incoming[incoming.len() - 1] == p);
            lemma_put_leaves_others(before, p, incoming[i].id);
        }
    }
}

/// Putting a preset leaves the one that is found under another identifier.
proof fn lemma_put_leaves_others(ps: Seq<PresetView>, p: PresetView, id: Seq<char>)
    requires
        p.id != id,
        place(ps, id) is Some,
    ensures
        place(put(ps, p), id) == place(ps, id),
        put(ps, p)[place(ps, id)->0] == ps[place(ps, id)->0],
{
    let q = put(ps, p);
    lemma_place_from(ps, p.id, 0);
    lemma_place_from(ps, id, 0);
    lemma_place_from(q, id, 0);
    let k = place(ps, id)->0;
    assert(q[k] == ps[k]);
    assert forall|j: int| 0 <= j < k implies (#[trigger] q[j]).id != id by {
        assert(ps[j].id != id);
    }
    let m = place(q, id)->0;
    if m < k {
        assert(q[m].id != id);
    }
}

/// A preset whose identifier does not come up among those that can be imported
/// stays as it is, where it is.
pub proof fn law_import_leaves_the_others(ps: Seq<PresetView>, incoming: Seq<PresetView>, j: int)
    requires
        0 <= j < ps.len(),
        forall|k: int|
            0 <= k < incoming.len() && importable(#[trigger] incoming[k]) ==> incoming[k].id != ps[j].id,
    ensures
        j < imported(ps, incoming).len(),
        imported(ps, incoming)[j] == ps[j],
    decreases incoming.len(),
{
    if incoming.len() > 0 {
        let rest = incoming.drop_last();
        let p = incoming.last();
        assert forall|k: int| 0 <= k < rest.len() && importable(#[trigger] rest[k]) implies rest[k].id
            != ps[j].id by {
            assert(rest[k] == incoming[k]);
        }
        law_import_leaves_the_others(ps, rest, j);
        if importable(p) {
            assert(incoming[incoming.len() - 1] == p);
            lemma_place_from(imported(ps, rest), p.id, 0);
        }
    }
}

/// After a removal no preset has the identifier, and a preset is there exactly
/// if it was there before and has another identifier.
pub proof fn law_removed_preset_is_gone(ps: Seq<PresetView>, id: Seq<char>)
    ensures
        place(without(ps, id), id) is None,
        forall|p: PresetView|
            #[trigger] without(ps, id).contains(p) <==> ps.contains(p) && p.id != id,
{
    let keep = |p: PresetView| p.id != id;
    broadcast use vstd::seq_lib::group_filter_ensures;
    let rest = without(ps, id);
    lemma_place_from(rest, id, 0);
    assert forall|j: int| 0 <= j < rest.len() implies (#[trigger] rest[j]).id != id by {
        assert(keep(rest[j]));
    }
    assert forall|p: PresetView| #[trigger] rest.contains(p) implies ps.contains(p) && p.id != id by {
        let j = choose|j: int| 0 <= j < rest.len() && rest[j] == p;
        assert(keep(rest[j]));
        ps.lemma_filter_contains_rev(keep, p);
    }
    assert forall|p: PresetView| ps.contains(p) && p.id != id implies #[trigger] rest.contains(p) by {
        let j = choose|j: int| 0 <= j < ps.len() && ps[j] == p;
        assert(keep(ps[j]));
        ps.lemma_filter_contains(keep, j);
    }
}

/// A preset that was put at the end of the list and is removed again leaves
/// the list as it was.
pub proof fn law_removing_undoes_adding(ps: Seq<PresetView>, p: PresetView)
    requires
        place(ps, p.id) is None,
    ensures
        without(put(ps, p), p.id) == ps,
{
    let keep = |q: PresetView| q.id != p.id;
    reveal(Seq::filter);
    lemma_place_from(ps, p.id, 0);
    assert(ps.push(p).drop_last() =~= ps);
    lemma_filter_all(ps, keep);
}

proof fn lemma_filter_all(ps: Seq<PresetView>, keep: spec_fn(PresetView) -> bool)
    requires
        forall|i: int| 0 <= i < ps.len() ==> keep(#[trigger] ps[i]),
    ensures
        ps.filter(keep) == ps,
    decreases ps.len(),
{
    reveal(Seq::filter);
    if ps.len() > 0 {
        lemma_filter_all(ps.drop_last(), keep);
        assert(keep(ps[ps.len() - 1]));
        assert(ps =~= ps.drop_last().push(ps.last()));
    }
}

// Which presets are fit.

/// The text has a character that is not white space.
pub open spec fn says_something(s: Seq<char>) -> bool {
    exists|i: int| 0 <= i < s.len() && !white(#[trigger] s[i])
}

/// The pattern is that of a number from 0 to `limit`.
pub open spec fn from_zero_to(bits: u64, limit: nat) -> bool {
    finite(bits) && (negative(bits) ==> units(bits) == 0) && units(bits) <= limit * pow2(1074)
}

proof fn lemma_named(p: PresetView)
    ensures
        named(p) <==> says_something(p.id) && says_something(p.name),
{
    law_trimming_takes_white_space_at_the_ends(p.id);
    law_trimming_takes_white_space_at_the_ends(p.name);
}

/// A preset is saved if it has an identifier and a name, and is at most 60 V, at
/// most 10 A and at most 300 W, whatever its protection limits, its note and its
/// date are.
pub proof fn law_fit_preset_is_saved(p: PresetView)
    requires
        says_something(p.id),
        says_something(p.name),
        from_zero_to(p.volt, 60),
        from_zero_to(p.curr, 10),
        units(p.volt) * units(p.curr) <= 300 * pow2(2148),
    ensures
        save_error(p) is None,
        importable(p),
{
    lemma_named(p);
    law_what_is_within_the_limits_passes(p.volt, p.curr);
}

/// Why a preset is refused: it has no identifier or no name, or it is out of
/// range, or else it is too much power. Nothing but these four of its entries
/// matters, and of its identifier and its name only whether they say anything.
pub proof fn law_refused_presets(p: PresetView)
    ensures
        save_error(p) == Some("id/nameが空です"@) <==> !(says_something(p.id) && says_something(p.name)),
        save_error(p) == Some("V/A範囲外です"@) <==> says_something(p.id) && says_something(p.name) && !(from_zero_to(
            p.volt,
            60,
        ) && from_zero_to(p.curr, 10)),
        save_error(p) is None <==> says_something(p.id) && says_something(p.name) && deliverable(p.volt, p.curr),
        save_error(p) is Some ==> save_error(p) == Some("id/nameが空です"@) || save_error(p) == Some("V/A範囲外です"@)
            || save_error(p) == Some("電力超過(>300W)です"@),
        importable(p) <==> says_something(p.id) && says_something(p.name) && from_zero_to(p.volt, 60) && from_zero_to(
            p.curr,
            10,
        ),
{
    lemma_named(p);
    reveal_strlit("id/nameが空です");
    reveal_strlit("V/A範囲外です");
    reveal_strlit("電力超過(>300W)です");
    assert("id/nameが空です"@[0] == 'i');
    assert("V/A範囲外です"@[0] == 'V');
    assert("電力超過(>300W)です"@[0] == '電');
    assert(one() == pow2(1074));
}

/// Presets that differ in nothing but their protection limits, their notes and
/// their dates are all saved or all refused, for the same reason.
pub proof fn law_other_entries_do_not_matter(p: PresetView, q: PresetView)
    requires
        p.id == q.id,
        p.name == q.name,
        p.volt == q.volt,
        p.curr == q.curr,
    ensures
        save_error(p) == save_error(q),
        importable(p) == importable(q),
{
}

// How imports go.

/// An import of one preset puts it into the list, if it is fit, and an import of
/// more is one after the other.
pub proof fn law_imports_go_one_by_one(ps: Seq<PresetView>, a: Seq<PresetView>, p: PresetView, b: Seq<PresetView>)
    ensures
        imported(ps, Seq::empty()) == ps,
        imported(ps, seq![p]) == (if importable(p) {
            put(ps, p)
        } else {
            ps
        }),
        imported(ps, a + b) == imported(imported(ps, a), b),
        any_importable(a + b) <==> any_importable(a) || any_importable(b),
        any_importable(seq![p]) <==> importable(p),
        !any_importable(Seq::empty()),
{
    assert(seq![p].drop_last() =~= Seq::empty());
    assert(seq![p].last() == p);
    assert(imported(ps, Seq::empty()) == ps);
    assert(imported(ps, seq![p].drop_last()) == ps);
    lemma_import_sum(ps, a, b);
    let s = a + b;
    if any_importable(s) {
        let i = choose|i: int| 0 <= i < s.len() && importable(#[trigger] s[i]);
        if i < a.len() {
            assert(importable(a[i]));
        } else {
            assert(importable(b[i - a.len()]));
        }
    }
    if any_importable(a) {
        let i = choose|i: int| 0 <= i < a.len() && importable(#[trigger] a[i]);
        assert(importable(s[i]));
    }
    if any_importable(b) {
        let i = choose|i: int| 0 <= i < b.len() && importable(#[trigger] b[i]);
        assert(importable(s[a.len() + i]));
    }
    if importable(p) {
        assert(importable(seq![p][0]));
    }
}

proof fn lemma_import_sum(ps: Seq<PresetView>, a: Seq<PresetView>, b: Seq<PresetView>)
    ensures
        imported(ps, a + b) == imported(imported(ps, a), b),
    decreases b.len(),
{
    if b.len() == 0 {
        assert(a + b =~= a);
    } else {
        lemma_import_sum(ps, a, b.drop_last());
        assert((a + b).drop_last() =~= a + b.drop_last());
        assert((a + b).last() == b.last());
    }
}

/// A removal goes through the list preset by preset, and leaves the others in
/// their order.
pub proof fn law_removal_goes_through_the_list(a: Seq<PresetView>, p: PresetView, b: Seq<PresetView>, id: Seq<char>)
    ensures
        without(a + b, id) == without(a, id) + without(b, id),
        without(seq![p], id) == (if p.id == id {
            Seq::empty()
        } else {
            seq![p]
        }),
        without(Seq::empty(), id) == Seq::<PresetView>::empty(),
{
    let keep = |q: PresetView| q.id != id;
    Seq::filter_distributes_over_add(a, b, keep);
    reveal(Seq::filter);
    assert(seq![p].drop_last() =~= Seq::empty());
    assert(seq![p].last() == p);
    assert(seq![p].drop_last().filter(keep) =~= Seq::empty());
    assert(Seq::<PresetView>::empty().push(p) =~= seq![p]);
}

/// A list has one view for each of its presets, with all of its entries.
pub proof fn law_views_of_presets(ps: Seq<Preset>, i: int)
    requires
        0 <= i < ps.len(),
    ensures
        views(ps).len() == ps.len(),
        views(ps)[i].id == ps[i].id@ && views(ps)[i].name == ps[i].name@,
        views(ps)[i].volt == ps[i].volt && views(ps)[i].curr == ps[i].curr,
        views(ps)[i].ovp == ps[i].ovp && views(ps)[i].ocp == ps[i].ocp,
        views(ps)[i].note == ps[i].note@ && views(ps)[i].updated == ps[i].updated@,
{
}

} // verus!
