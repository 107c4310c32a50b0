//! Which image files can be written, and how times are counted and rounded.
use crate::heif_item::HeifItem;
use crate::heif_write::{has_item, item_error, items_error, missing_component, repeats};
use crate::iprp::{places, row_index, ItemProperties, PropertyAssociation};
use crate::mux_boxes::short_duration;
use crate::mux_tables::decode_time;
use crate::mux_types::{MuxSample, TrackWrite};
use crate::search::{first_index, lemma_first_index};
use crate::slices::{capped, scale, start_in};
use vstd::prelude::*;

verus! {

/// A derived item needs components, all of which are items; any other item needs data.
pub open spec fn item_is_whole(items: Seq<HeifItem>, it: HeifItem) -> bool {
    if it.derivation is Some {
        it.component_ids@.len() > 0 && forall|k: int|
            0 <= k < it.component_ids@.len() ==> has_item(items, #[trigger] it.component_ids@[k])
    } else {
        it.data is Some
    }
}

proof fn lemma_item_is_whole(items: Seq<HeifItem>, it: HeifItem)
    ensures
        item_error(items, it) is None <==> item_is_whole(items, it),
{
    let f = |k: int| !has_item(items, it.component_ids@[k]);
    let n = it.component_ids@.len();
    lemma_first_index(n, f);
    let k = first_index(n, f);
    assert(k == missing_component(items, it));
    if k < n {
        assert(f(k));
        assert(!has_item(items, it.component_ids@[k]));
    } else {
        assert forall|k: int| 0 <= k < n implies has_item(
            items,
            #[trigger] it.component_ids@[k],
        ) by {
            assert(!f(k));
        }
    }
}

/// Items can be written if and only if there is a primary item among them, no two have the
/// same number, and each is whole.
pub proof fn law_items_are_taken(items: Seq<HeifItem>, primary: Option<u32>)
    ensures
        items_error(items, primary) is None <==> {
            &&& primary matches Some(p) && has_item(items, p)
            &&& forall|i: int, j: int|
                0 <= j < i < items.len() ==> (#[trigger] items[j]).item_id != (
                #[trigger] items[i]).item_id
            &&& forall|i: int| 0 <= i < items.len() ==> item_is_whole(items, #[trigger] items[i])
        },
{
    let n = items.len();
    let f = |i: int| repeats(items, i);
    let g = |i: int| item_error(items, items[i]) is Some;
    lemma_first_index(n, f);
    lemma_first_index(n, g);
    let a = first_index(n, f);
    let b = first_index(n, g);
    if a < n {
        assert(f(a));
        let j = choose|j: int| 0 <= j < a && (#[trigger] items[j]).item_id == items[a].item_id;
        assert(items[j].item_id == items[a].item_id);
    } else {
        assert forall|i: int, j: int| 0 <= j < i < n implies (#[trigger] items[j]).item_id != (
        #[trigger] items[i]).item_id by {
            assert(!f(i));
            assert(!repeats(items, i));
        }
    }
    if b < n {
        assert(g(b));
        lemma_item_is_whole(items, items[b]);
        assert(!item_is_whole(items, items[b]));
    } else {
        assert forall|i: int| 0 <= i < n implies item_is_whole(items, #[trigger] items[i]) by {
            assert(!g(i));
            lemma_item_is_whole(items, items[i]);
        }
    }
}

/// The first sample is decoded at 0, and each next one when the one before it is over.
pub proof fn law_samples_follow_each_other(s: Seq<MuxSample>, n: nat)
    ensures
        decode_time(s, 0) == 0,
        decode_time(s, n + 1) == decode_time(s, n) + s[n as int].duration,
{
    assert((n + 1 - 1) as nat == n);
}

/// The start of a sample in other units is off by no more than half a unit.
pub proof fn law_start_is_the_nearest(t: TrackWrite, to: int, i: int)
    requires
        t.media_timescale > 0,
        0 <= decode_time(t.samples@, i as nat) <= 0xffff_ffff_ffff_ffff,
    ensures
        ({
            let d = start_in(t, to, i) * t.media_timescale;
            let x = decode_time(t.samples@, i as nat) * to;
            -t.media_timescale <= 2 * (d - x) <= t.media_timescale
        }),
{
    let den = t.media_timescale as int;
    let x = decode_time(t.samples@, i as nat) * to;
    let y = x + den / 2;
    let q = y / den;
    vstd::arithmetic::div_mod::lemma_fundamental_div_mod(y, den);
    vstd::arithmetic::div_mod::lemma_mod_bound(y, den);
    assert(scale(t) == den);
    assert(capped(decode_time(t.samples@, i as nat)) == decode_time(t.samples@, i as nat));
    assert(start_in(t, to, i) == q);
    assert(den * q == q * den) by (nonlinear_arith);
}

/// A duration that 32 bits hold stands as it is; a longer one counts as the longest.
pub proof fn law_long_durations_are_cut(d: u64)
    ensures
        d <= 0xffff_ffff ==> short_duration(d) == d,
        d > 0xffff_ffff ==> short_duration(d) == 0xffff_ffff,
{
}

proof fn lemma_places(a: Seq<PropertyAssociation>, n: nat, k: int)
    requires
        forall|i: int| 0 <= i < a.len() ==> 1 <= (#[trigger] a[i]).index <= n,
        0 <= k < a.len(),
    ensures
        places(a, n).len() == a.len(),
        places(a, n)[k] == a[k].index - 1,
    decreases a.len(),
{
    let before = a.drop_last();
    if before.len() > 0 {
        lemma_places(before, n, 0);
    } else {
        assert(places(before, n).len() == 0);
    }
    if k < before.len() {
        lemma_places(before, n, k);
    }
}

/// The properties of an item are those that the associations of its first row count, from 1,
/// in the order of the associations.
pub proof fn law_associations_lead_to_properties(p: ItemProperties, row: int, k: int)
    requires
        0 <= row < p.associations@.len(),
        forall|i: int|
            0 <= i < row ==> (#[trigger] p.associations@[i]).item_id
                != p.associations@[row].item_id,
        forall|i: int|
            0 <= i < p.associations@[row].associations@.len() ==> 1 <= (
            #[trigger] p.associations@[row].associations@[i]).index <= p.properties@.len(),
        0 <= k < p.associations@[row].associations@.len(),
    ensures
        ({
            let a = p.associations@[row];
            let all = p.resolved(a.item_id);
            &&& all.len() == a.associations@.len()
            &&& all[k] == p.properties@[a.associations@[k].index - 1]
        }),
{
    let id = p.associations@[row].item_id;
    let rows = p.associations@;
    let f = |i: int| rows[i].item_id == id;
    crate::search::lemma_first_index_is(rows.len(), f, row);
    assert(row_index(rows, id) == row);
    lemma_places(rows[row].associations@, p.properties@.len(), k);
}

} // verus!
