//! The properties of all items as one list without repetitions (`ipco`), and
//! which item has which of them (`ipma`).
use crate::atom::{atom, push_atom};
use crate::bytes::{
    cat, empty_left, low16, low32, low32_of, low8, low8_of, put_u16, put_u32, put_u8, u16_be,
    u32_be,
};
use crate::fourcc::{IPCO, IPMA};
use crate::heif_item::{
    heif_property_models, property_body, property_code, property_essential, HeifItem, HeifProperty,
    HeifPropertyModel,
};
use crate::iprp::{AssociationModel, Ispe, ItemPropertyAssociation, PropertyAssociation};
use crate::iprp_read::row_models;
use crate::search::{first_index, lemma_first_index, lemma_first_index_is};
use vstd::prelude::*;

verus! {

/// The extents that a coded item gets if it has none.
pub open spec fn empty_extents() -> HeifPropertyModel {
    HeifPropertyModel::Ispe(Ispe { width: 0, height: 0 })
}

/// Some property is an `ispe`.
pub open spec fn has_extents(v: Seq<HeifProperty>) -> bool {
    exists|i: int| 0 <= i < v.len() && #[trigger] v[i]@ is Ispe
}

/// The properties that an item is written with: its own, and empty extents
/// behind them if it is coded and has none.
pub open spec fn item_properties(it: HeifItem) -> Seq<HeifPropertyModel> {
    if it.derivation is None && !has_extents(it.properties@) {
        heif_property_models(it.properties@).push(empty_extents())
    } else {
        heif_property_models(it.properties@)
    }
}

/// The properties of the first `n` items, one behind the other.
pub open spec fn all_properties(items: Seq<HeifItem>, n: nat) -> Seq<HeifPropertyModel>
    decreases n,
{
    if n == 0 {
        Seq::empty()
    } else {
        all_properties(items, (n - 1) as nat) + item_properties(items[n - 1])
    }
}

/// A list without repetitions: each entry at its first occurrence.
pub open spec fn uniq(s: Seq<HeifPropertyModel>) -> Seq<HeifPropertyModel>
    decreases s.len(),
{
    if s.len() == 0 {
        Seq::empty()
    } else {
        let before = uniq(s.drop_last());
        if before.contains(s.last()) {
            before
        } else {
            before.push(s.last())
        }
    }
}

/// The list of all properties.
pub open spec fn property_list(items: Seq<HeifItem>) -> Seq<HeifPropertyModel> {
    uniq(all_properties(items, items.len()))
}

/// The place of a property in a list; the length of the list if it is not
/// there.
pub open spec fn place(list: Seq<HeifPropertyModel>, p: HeifPropertyModel) -> int {
    first_index(list.len(), holds_at(list, p))
}

/// Where in a list a property stands.
pub open spec fn holds_at(list: Seq<HeifPropertyModel>, p: HeifPropertyModel) -> spec_fn(
    int,
) -> bool {
    |i: int| list[i] == p
}

/// The associations of an item.
pub open spec fn item_row(it: HeifItem, list: Seq<HeifPropertyModel>) -> AssociationModel {
    let props = item_properties(it);
    AssociationModel {
        item_id: it.item_id,
        associations: Seq::new(
            props.len(),
            |k: int|
                PropertyAssociation {
                    index: low16(place(list, props[k]) + 1),
                    essential: property_essential(props[k]),
                },
        ),
    }
}

/// The associations of the first `n` items. An item without properties has no
/// row.
pub open spec fn item_rows(items: Seq<HeifItem>, n: nat, list: Seq<HeifPropertyModel>) -> Seq<
    AssociationModel,
>
    decreases n,
{
    if n == 0 {
        Seq::empty()
    } else {
        let before = item_rows(items, (n - 1) as nat, list);
        if item_properties(items[n - 1]).len() > 0 {
            before.push(item_row(items[n - 1], list))
        } else {
            before
        }
    }
}

/// The boxes of a list of properties.
pub open spec fn property_boxes(list: Seq<HeifPropertyModel>) -> spec_fn(int) -> Seq<u8> {
    |i: int| atom(property_code(list[i]), property_body(list[i]))
}

/// Some index does not fit in seven bits.
pub open spec fn has_wide_index(rows: Seq<AssociationModel>) -> bool {
    exists|j: int, k: int|
        0 <= j < rows.len() && 0 <= k < rows[j].associations.len() && (
        #[trigger] rows[j].associations[k]).index > 0x7f
}

/// Some item number does not fit in sixteen bits.
pub open spec fn has_wide_id(rows: Seq<AssociationModel>) -> bool {
    exists|j: int| 0 <= j < rows.len() && (#[trigger] rows[j]).item_id > 0xffff
}

/// The bytes of an association: the top bit says essential.
pub open spec fn association_bytes(a: PropertyAssociation, wide: bool) -> Seq<u8> {
    if wide {
        u16_be(
            (a.index % 0x8000 + (if a.essential {
                0x8000int
            } else {
                0
            })) as u16,
        )
    } else {
        seq![
            (a.index % 0x80 + (if a.essential {
                0x80int
            } else {
                0
            })) as u8,
        ]
    }
}

/// The associations of a row.
pub open spec fn associations_bytes(a: Seq<PropertyAssociation>, wide: bool) -> spec_fn(int) -> Seq<
    u8,
> {
    |k: int| association_bytes(a[k], wide)
}

/// The bytes of a row.
pub open spec fn row_bytes(row: AssociationModel, wide_id: bool, wide: bool) -> Seq<u8> {
    (if wide_id {
        u32_be(row.item_id)
    } else {
        u16_be(low16(row.item_id as int))
    }) + seq![low8(row.associations.len() as int)] + cat(
        row.associations.len(),
        associations_bytes(row.associations, wide),
    )
}

/// The rows of an `ipma` box.
pub open spec fn rows_bytes(rows: Seq<AssociationModel>, wide_id: bool, wide: bool) -> spec_fn(
    int,
) -> Seq<u8> {
    |j: int| row_bytes(rows[j], wide_id, wide)
}

/// The body of an `ipma` box. Version 1 has wide item numbers, flag 1 wide
/// indices; each is used where it is needed.
pub open spec fn ipma_body(rows: Seq<AssociationModel>) -> Seq<u8> {
    seq![
        if has_wide_id(rows) {
            1u8
        } else {
            0u8
        },
        0u8,
        0u8,
        if has_wide_index(rows) {
            1u8
        } else {
            0u8
        },
    ] + u32_be(low32(rows.len() as int)) + cat(
        rows.len(),
        rows_bytes(rows, has_wide_id(rows), has_wide_index(rows)),
    )
}

/// The body of an `iprp` box.
pub open spec fn iprp_body(list: Seq<HeifPropertyModel>, rows: Seq<AssociationModel>) -> Seq<u8> {
    atom(IPCO, cat(list.len(), property_boxes(list))) + atom(IPMA, ipma_body(rows))
}

fn owns_extents(v: &Vec<HeifProperty>) -> (r: bool)
    ensures
        r == has_extents(v@),
{
    for i in 0..v.len()
        invariant
            forall|j: int| 0 <= j < i ==> !(#[trigger] v@[j]@ is Ispe),
    {
        if let HeifProperty::Ispe(_) = &v[i] {
            assert(v@[i as int]@ is Ispe);
            return true;
        }
    }
    false
}

fn written_properties(it: &HeifItem) -> (r: Vec<HeifProperty>)
    ensures
        heif_property_models(r@) == item_properties(*it),
{
    let mut out: Vec<HeifProperty> = Vec::new();
    for i in 0..it.properties.len()
        invariant
            heif_property_models(out@) =~= heif_property_models(it.properties@).take(i as int),
    {
        let p = it.properties[i].clone();
        let ghost had = out@;
        out.push(p);
        assert(heif_property_models(out@) =~= heif_property_models(had).push(p@));
    }
    assert(heif_property_models(out@) =~= heif_property_models(it.properties@));
    if it.derivation.is_none() && !owns_extents(&it.properties) {
        let ghost had = out@;
        out.push(HeifProperty::Ispe(Ispe { width: 0, height: 0 }));
        assert(heif_property_models(out@) =~= heif_property_models(had).push(empty_extents()));
    }
    out
}

/// The place of a property in a list.
fn position(list: &Vec<HeifProperty>, p: &HeifProperty) -> (r: usize)
    ensures
        r == place(heif_property_models(list@), p@),
        r <= list@.len(),
{
    let ghost models = heif_property_models(list@);
    let ghost f = holds_at(models, p@);
    for i in 0..list.len()
        invariant
            models == heif_property_models(list@),
            f == holds_at(models, p@),
            forall|j: int| 0 <= j < i ==> !#[trigger] f(j),
    {
        if list[i].same(p) {
            proof {
                lemma_first_index_is(models.len(), f, i as int);
            }
            return i;
        }
    }
    proof {
        lemma_first_index_is(models.len(), f, models.len() as int);
    }
    list.len()
}

proof fn lemma_place_contains(list: Seq<HeifPropertyModel>, p: HeifPropertyModel)
    ensures
        place(list, p) < list.len() <==> list.contains(p),
        place(list, p) < list.len() ==> list[place(list, p)] == p,
        0 <= place(list, p) <= list.len(),
{
    let f = holds_at(list, p);
    lemma_first_index(list.len(), f);
    if list.contains(p) {
        let w = choose|w: int| 0 <= w < list.len() && list[w] == p;
        if place(list, p) == list.len() {
            assert(!f(w));
        }
    }
}

/// Collect the properties of all items into one list without repetitions.
pub fn collect_properties(items: &Vec<HeifItem>) -> (r: Vec<HeifProperty>)
    ensures
        heif_property_models(r@) == property_list(items@),
{
    let mut flat: Vec<HeifProperty> = Vec::new();
    assert(heif_property_models(flat@) =~= uniq(all_properties(items@, 0)));
    for i in 0..items.len()
        invariant
            heif_property_models(flat@) == uniq(all_properties(items@, i as nat)),
    {
        let props = written_properties(&items[i]);
        let ghost models = heif_property_models(props@);
        let ghost before = all_properties(items@, i as nat);
        assert(before + models.take(0) =~= before);
        for k in 0..props.len()
            invariant
                models == heif_property_models(props@),
                heif_property_models(flat@) == uniq(before + models.take(k as int)),
        {
            let ghost now = before + models.take(k + 1);
            assert(now.drop_last() =~= before + models.take(k as int));
            assert(now.last() == props@[k as int]@);
            let at: usize = position(&flat, &props[k]);
            proof {
                lemma_place_contains(heif_property_models(flat@), props@[k as int]@);
            }
            if at == flat.len() {
                let p = props[k].clone();
                let ghost had = flat@;
                flat.push(p);
                assert(heif_property_models(flat@) =~= heif_property_models(had).push(p@));
            }
        }
        assert(models.take(models.len() as int) =~= models);
    }
    flat
}

/// Collect the associations of all items against the list of properties.
pub fn collect_rows(items: &Vec<HeifItem>, list: &Vec<HeifProperty>) -> (r: Vec<
    ItemPropertyAssociation,
>)
    ensures
        row_models(r@) == item_rows(items@, items@.len(), heif_property_models(list@)),
{
    let ghost models = heif_property_models(list@);
    let mut rows: Vec<ItemPropertyAssociation> = Vec::new();
    assert(row_models(rows@) =~= item_rows(items@, 0, models));
    for i in 0..items.len()
        invariant
            models == heif_property_models(list@),
            row_models(rows@) == item_rows(items@, i as nat, models),
    {
        let props = written_properties(&items[i]);
        let mut associations: Vec<PropertyAssociation> = Vec::new();
        let ghost want = item_row(items@[i as int], models);
        for k in 0..props.len()
            invariant
                models == heif_property_models(list@),
                heif_property_models(props@) == item_properties(items@[i as int]),
                want == item_row(items@[i as int], models),
                associations@ =~= want.associations.take(k as int),
                want.associations.len() == props@.len(),
        {
            let at: usize = position(list, &props[k]);
            let index: u16 = ((at % 0x1_0000 + 1) % 0x1_0000) as u16;
            assert(item_properties(items@[i as int])[k as int] == props@[k as int]@);
            let a = PropertyAssociation { index, essential: props[k].default_essential() };
            assert(a == want.associations[k as int]);
            associations.push(a);
        }
        if props.len() > 0 {
            let row = ItemPropertyAssociation { item_id: items[i].item_id, associations };
            assert(row@.associations =~= want.associations);
            let ghost had = rows@;
            rows.push(row);
            assert(row_models(rows@) =~= row_models(had).push(row@));
        }
    }
    rows
}

fn any_wide_index(rows: &Vec<ItemPropertyAssociation>) -> (r: bool)
    ensures
        r == has_wide_index(row_models(rows@)),
{
    let ghost models = row_models(rows@);
    for j in 0..rows.len()
        invariant
            models == row_models(rows@),
            forall|a: int, k: int|
                0 <= a < j && 0 <= k < models[a].associations.len() ==> (
                #[trigger] models[a].associations[k]).index <= 0x7f,
    {
        let n: usize = rows[j].associations.len();
        for k in 0..n
            invariant
                j < rows@.len(),
                n == rows@[j as int].associations@.len(),
                models == row_models(rows@),
                forall|b: int|
                    0 <= b < k ==> (#[trigger] models[j as int].associations[b]).index <= 0x7f,
        {
            if rows[j].associations[k].index > 0x7f {
                assert(models[j as int].associations[k as int].index > 0x7f);
                return true;
            }
        }
    }
    false
}

fn any_wide_id(rows: &Vec<ItemPropertyAssociation>) -> (r: bool)
    ensures
        r == has_wide_id(row_models(rows@)),
{
    let ghost models = row_models(rows@);
    for j in 0..rows.len()
        invariant
            models == row_models(rows@),
            forall|a: int| 0 <= a < j ==> (#[trigger] models[a]).item_id <= 0xffff,
    {
        if rows[j].item_id > 0xffff {
            assert(models[j as int].item_id > 0xffff);
            return true;
        }
    }
    false
}

fn put_row(out: &mut Vec<u8>, row: &ItemPropertyAssociation, wide_id: bool, wide: bool)
    ensures
        final(out)@ == old(out)@ + row_bytes(row@, wide_id, wide),
{
    if wide_id {
        put_u32(out, row.item_id);
    } else {
        put_u16(out, (row.item_id % 0x1_0000) as u16);
    }
    put_u8(out, low8_of(row.associations.len()));
    let ghost before = out@;
    let ghost f = associations_bytes(row.associations@, wide);
    assert(out@ =~= before + cat(0, f));
    for k in 0..row.associations.len()
        invariant
            f == associations_bytes(row.associations@, wide),
            out@ == before + cat(k as nat, f),
    {
        let a = row.associations[k];
        if wide {
            let raw: u16 = a.index % 0x8000;
            put_u16(out, if a.essential {
                raw + 0x8000
            } else {
                raw
            });
        } else {
            let raw: u8 = (a.index % 0x80) as u8;
            put_u8(out, if a.essential {
                raw + 0x80
            } else {
                raw
            });
        }
        assert(out@ =~= before + cat((k + 1) as nat, f));
    }
    assert(out@ =~= old(out)@ + row_bytes(row@, wide_id, wide));
}

/// Serialise the body of an `iprp` box.
pub fn build_iprp(list: &Vec<HeifProperty>, rows: &Vec<ItemPropertyAssociation>) -> (r: Vec<u8>)
    ensures
        r@ == iprp_body(heif_property_models(list@), row_models(rows@)),
{
    broadcast use empty_left;

    let ghost models = heif_property_models(list@);
    let ghost f = property_boxes(models);
    let mut ipco: Vec<u8> = Vec::new();
    for i in 0..list.len()
        invariant
            models == heif_property_models(list@),
            f == property_boxes(models),
            ipco@ == cat(i as nat, f),
    {
        let body = list[i].emit_body();
        push_atom(&mut ipco, list[i].fourcc(), body.as_slice());
    }
    let mut iprp: Vec<u8> = Vec::new();
    push_atom(&mut iprp, IPCO, ipco.as_slice());

    let wide = any_wide_index(rows);
    let wide_id = any_wide_id(rows);
    let ghost row_list = row_models(rows@);
    let ghost g = rows_bytes(row_list, wide_id, wide);
    let mut ipma: Vec<u8> = Vec::new();
    ipma.push(if wide_id {
        1
    } else {
        0
    });
    ipma.push(0);
    ipma.push(0);
    ipma.push(if wide {
        1
    } else {
        0
    });
    assert(ipma@ =~= seq![
        if wide_id {
            1u8
        } else {
            0u8
        },
        0u8,
        0u8,
        if wide {
            1u8
        } else {
            0u8
        },
    ]);
    put_u32(&mut ipma, low32_of(rows.len()));
    let ghost before = ipma@;
    assert(ipma@ =~= before + cat(0, g));
    for j in 0..rows.len()
        invariant
            row_list == row_models(rows@),
            g == rows_bytes(row_list, wide_id, wide),
            ipma@ == before + cat(j as nat, g),
    {
        put_row(&mut ipma, &rows[j], wide_id, wide);
        assert(ipma@ =~= before + cat((j + 1) as nat, g));
    }
    push_atom(&mut iprp, IPMA, ipma.as_slice());
    iprp
}

proof fn lemma_uniq(s: Seq<HeifPropertyModel>)
    ensures
        uniq(s).no_duplicates(),
        uniq(s).len() <= s.len(),
        forall|p: HeifPropertyModel| uniq(s).contains(p) <==> s.contains(p),
    decreases s.len(),
{
    if s.len() > 0 {
        let before = s.drop_last();
        lemma_uniq(before);
        assert forall|p: HeifPropertyModel| uniq(s).contains(p) <==> s.contains(p) by {
            assert(s =~= before.push(s.last()));
            if s.contains(p) {
                let w = choose|w: int| 0 <= w < s.len() && s[w] == p;
                if w < before.len() {
                    assert(before[w] == p);
                    assert(before.contains(p));
                    assert(uniq(before).contains(p));
                    let k = choose|k: int| 0 <= k < uniq(before).len() && uniq(before)[k] == p;
                    assert(uniq(s)[k] == p);
                } else if !uniq(before).contains(p) {
                    assert(uniq(s)[uniq(before).len() as int] == p);
                }
            }
            if uniq(s).contains(p) {
                let k = choose|k: int| 0 <= k < uniq(s).len() && uniq(s)[k] == p;
                if k < uniq(before).len() {
                    assert(uniq(before)[k] == p);
                    assert(uniq(before).contains(p));
                    assert(before.contains(p));
                    let w = choose|w: int| 0 <= w < before.len() && before[w] == p;
                    assert(s[w] == p);
                } else {
                    assert(s[s.len() - 1] == p);
                }
            }
        }
    }
}

proof fn lemma_all_contains(items: Seq<HeifItem>, n: nat, i: int, k: int)
    requires
        0 <= i < n <= items.len(),
        0 <= k < item_properties(items[i]).len(),
    ensures
        all_properties(items, n).contains(item_properties(items[i])[k]),
    decreases n,
{
    let p = item_properties(items[i])[k];
    let before = all_properties(items, (n - 1) as nat);
    if i == n - 1 {
        assert(all_properties(items, n)[before.len() + k] == p);
    } else {
        lemma_all_contains(items, (n - 1) as nat, i, k);
        let w = choose|w: int| 0 <= w < before.len() && before[w] == p;
        assert(all_properties(items, n)[w] == p);
    }
}

/// No property stands twice in the list of all properties, and each property
/// of each item stands in it.
pub proof fn law_property_list_is_a_set(items: Seq<HeifItem>)
    ensures
        property_list(items).no_duplicates(),
        forall|i: int, k: int|
            0 <= i < items.len() && 0 <= k < item_properties(items[i]).len() ==> property_list(
                items,
            ).contains(#[trigger] item_properties(items[i])[k]),
{
    let all = all_properties(items, items.len());
    lemma_uniq(all);
    assert forall|i: int, k: int|
        0 <= i < items.len() && 0 <= k < item_properties(items[i]).len() implies property_list(
        items,
    ).contains(#[trigger] item_properties(items[i])[k]) by {
        lemma_all_contains(items, items.len(), i, k);
    }
}

/// The index that an item has for a property leads back to that property,
/// counted from 1, and it says whether the property is essential. The list may
/// have as many properties as fifteen bits can count.
pub proof fn law_indices_lead_to_the_properties(items: Seq<HeifItem>, i: int, k: int)
    requires
        0 <= i < items.len(),
        0 <= k < item_properties(items[i]).len(),
        property_list(items).len() <= 0x7fff,
    ensures
        ({
            let list = property_list(items);
            let a = item_row(items[i], list).associations[k];
            &&& 1 <= a.index <= list.len()
            &&& list[a.index - 1] == item_properties(items[i])[k]
            &&& a.essential == property_essential(item_properties(items[i])[k])
        }),
{
    law_property_list_is_a_set(items);
    lemma_place_contains(property_list(items), item_properties(items[i])[k]);
}

} // verus!
