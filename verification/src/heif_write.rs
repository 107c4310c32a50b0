//! Writing a file of image items: `ftyp`, then `meta` with everything about the
//! items, then `mdat` with the coded images.
use crate::atom::{emit_mdat_header, push_atom};
use crate::bytes::{lemma_low64_sum, plus64, put_bytes};
use crate::error::Error;
use crate::fourcc::{HEIC, HEIM, HEIS, META, MIF1};
use crate::heif_layout::{
    any_wide_data, build_ftyp, build_hdlr_pict, build_idat, build_iinf_v0, build_iloc_v1,
    build_iref, build_mdat, build_meta, build_meta_size, build_pitm_v0, heif_file, meta_body,
};
use crate::heif_properties::{build_iprp, collect_properties, collect_rows};
use crate::search::{first_index, lemma_first_index_is};
use vstd::prelude::*;

pub use crate::heif_item::{HeifDerivation, HeifItem, HeifProperty};

verus! {

/// A typed reference from one item to others.
#[derive(Clone, Debug, PartialEq, Eq)]
pub struct HeifItemReference {
    pub kind: [u8; 4],
    pub from_id: u32,
    pub to_ids: Vec<u32>,
}

/// Collects image items and references between them, and writes the file.
#[derive(Clone, Debug)]
pub struct HeifWriter {
    items: Vec<HeifItem>,
    references: Vec<HeifItemReference>,
    primary_item: Option<u32>,
    major_brand: [u8; 4],
    compatible_brands: Vec<[u8; 4]>,
}

impl HeifWriter {
    /// The items, in the order in which they were added.
    pub closed spec fn items(&self) -> Seq<HeifItem> {
        self.items@
    }

    /// The references, in the order in which they were added.
    pub closed spec fn references(&self) -> Seq<HeifItemReference> {
        self.references@
    }

    /// The number of the primary item.
    pub closed spec fn primary(&self) -> Option<u32> {
        self.primary_item
    }

    /// The major brand.
    pub closed spec fn brand(&self) -> [u8; 4] {
        self.major_brand
    }

    /// The compatible brands.
    pub closed spec fn brands(&self) -> Seq<[u8; 4]> {
        self.compatible_brands@
    }

    /// A writer without items, with the brands of a HEIC file.
    pub fn new() -> (r: Self)
        ensures
            r.items() == Seq::<HeifItem>::empty(),
            r.references() == Seq::<HeifItemReference>::empty(),
            r.primary() is None,
            r.brand() == HEIC,
            r.brands() == seq![HEIC, MIF1, HEIM, HEIS],
    {
        let mut compatible_brands: Vec<[u8; 4]> = Vec::new();
        compatible_brands.push(HEIC);
        compatible_brands.push(MIF1);
        compatible_brands.push(HEIM);
        compatible_brands.push(HEIS);
        assert(compatible_brands@ =~= seq![HEIC, MIF1, HEIM, HEIS]);
        HeifWriter {
            items: Vec::new(),
            references: Vec::new(),
            primary_item: None,
            major_brand: HEIC,
            compatible_brands,
        }
    }

    /// The writer with another major brand.
    pub fn with_major_brand(self, brand: [u8; 4]) -> (r: Self)
        ensures
            r.brand() == brand,
            r.items() == self.items(),
            r.references() == self.references(),
            r.primary() == self.primary(),
            r.brands() == self.brands(),
    {
        let mut w = self;
        w.major_brand = brand;
        w
    }

    /// The writer with other compatible brands.
    pub fn with_compatible_brands(self, brands: Vec<[u8; 4]>) -> (r: Self)
        ensures
            r.brands() == brands@,
            r.items() == self.items(),
            r.references() == self.references(),
            r.primary() == self.primary(),
            r.brand() == self.brand(),
    {
        let mut w = self;
        w.compatible_brands = brands;
        w
    }

    /// Add an item.
    pub fn add_item(&mut self, item: HeifItem) -> (r: &mut Self)
        ensures
            r.items() == old(self).items().push(item),
            r.references() == old(self).references(),
            r.primary() == old(self).primary(),
            r.brand() == old(self).brand(),
            r.brands() == old(self).brands(),
            *final(self) == *final(r),
    {
        self.items.push(item);
        self
    }

    /// Add a reference. References of derived items to their components need
    /// not be added.
    pub fn add_reference(&mut self, reference: HeifItemReference) -> (r: &mut Self)
        ensures
            r.references() == old(self).references().push(reference),
            r.items() == old(self).items(),
            r.primary() == old(self).primary(),
            r.brand() == old(self).brand(),
            r.brands() == old(self).brands(),
            *final(self) == *final(r),
    {
        self.references.push(reference);
        self
    }

    /// Set the primary item.
    pub fn set_primary(&mut self, item_id: u32) -> (r: &mut Self)
        ensures
            r.primary() == Some(item_id),
            r.items() == old(self).items(),
            r.references() == old(self).references(),
            r.brand() == old(self).brand(),
            r.brands() == old(self).brands(),
            *final(self) == *final(r),
    {
        self.primary_item = Some(item_id);
        self
    }
}

impl Default for HeifWriter {
    fn default() -> (r: Self)
        ensures
            r.items() == Seq::<HeifItem>::empty(),
            r.references() == Seq::<HeifItemReference>::empty(),
            r.primary() is None,
            r.brand() == HEIC,
            r.brands() == seq![HEIC, MIF1, HEIM, HEIS],
    {
        HeifWriter::new()
    }
}

/// Some item has the number.
pub open spec fn has_item(items: Seq<HeifItem>, id: u32) -> bool {
    exists|i: int| 0 <= i < items.len() && (#[trigger] items[i]).item_id == id
}

/// Item `i` has the number of an item before it.
pub open spec fn repeats(items: Seq<HeifItem>, i: int) -> bool {
    exists|j: int| 0 <= j < i && (#[trigger] items[j]).item_id == items[i].item_id
}

/// The place of the first component that is no item; the number of components
/// if there is none.
pub open spec fn missing_component(items: Seq<HeifItem>, it: HeifItem) -> int {
    first_index(it.component_ids@.len(), |k: int| !has_item(items, it.component_ids@[k]))
}

/// Why an item cannot be written.
pub open spec fn item_error(items: Seq<HeifItem>, it: HeifItem) -> Option<Error> {
    if it.derivation is Some {
        let k = missing_component(items, it);
        if it.component_ids@.len() == 0 {
            Some(
                Error::Number(
                    "HEIF writer: derived item ",
                    it.item_id as i128,
                    " has no component_ids",
                ),
            )
        } else if k < it.component_ids@.len() {
            Some(
                Error::Numbers(
                    "HEIF writer: derived item ",
                    it.item_id as i128,
                    " component ",
                    it.component_ids@[k] as i128,
                    " not in item list",
                ),
            )
        } else {
            None
        }
    } else if it.data is None {
        Some(
            Error::Number(
                "HEIF writer: coded item ",
                it.item_id as i128,
                " has no data + no derivation",
            ),
        )
    } else {
        None
    }
}

/// Why the items cannot be written: no primary item, two items with one number,
/// a primary item that is not there, or the first faulty item.
pub open spec fn items_error(items: Seq<HeifItem>, primary: Option<u32>) -> Option<Error> {
    let dup = first_index(items.len(), |i: int| repeats(items, i));
    let bad = first_index(items.len(), |i: int| item_error(items, items[i]) is Some);
    match primary {
        None => Some(Error::Rule("HEIF writer: primary item not set")),
        Some(p) => if dup < items.len() {
            Some(
                Error::Number("HEIF writer: duplicate item id ", items[dup].item_id as i128, ""),
            )
        } else if !has_item(items, p) {
            Some(Error::Number("HEIF writer: primary item ", p as i128, " not in item list"))
        } else if bad < items.len() {
            item_error(items, items[bad])
        } else {
            None
        },
    }
}

fn contains_item(items: &Vec<HeifItem>, id: u32) -> (r: bool)
    ensures
        r == has_item(items@, id),
{
    for i in 0..items.len()
        invariant
            forall|j: int| 0 <= j < i ==> (#[trigger] items@[j]).item_id != id,
    {
        if items[i].item_id == id {
            return true;
        }
    }
    false
}

fn repeats_earlier(items: &Vec<HeifItem>, i: usize) -> (r: bool)
    requires
        i < items@.len(),
    ensures
        r == repeats(items@, i as int),
{
    for j in 0..i
        invariant
            i < items@.len(),
            forall|k: int| 0 <= k < j ==> (#[trigger] items@[k]).item_id != items@[i as int].item_id,
    {
        if items[j].item_id == items[i].item_id {
            return true;
        }
    }
    false
}

fn check_item(items: &Vec<HeifItem>, it: &HeifItem) -> (r: Option<Error>)
    ensures
        r == item_error(items@, *it),
{
    if it.derivation.is_some() {
        if it.component_ids.len() == 0 {
            return Some(
                Error::Number(
                    "HEIF writer: derived item ",
                    it.item_id as i128,
                    " has no component_ids",
                ),
            );
        }
        let ghost f = |k: int| !has_item(items@, it.component_ids@[k]);
        for k in 0..it.component_ids.len()
            invariant
                f == (|k: int| !has_item(items@, it.component_ids@[k])),
                it.component_ids@.len() > 0,
                it.derivation is Some,
                forall|j: int| 0 <= j < k ==> !#[trigger] f(j),
        {
            if !contains_item(items, it.component_ids[k]) {
                proof {
                    lemma_first_index_is(it.component_ids@.len(), f, k as int);
                }
                return Some(
                    Error::Numbers(
                        "HEIF writer: derived item ",
                        it.item_id as i128,
                        " component ",
                        it.component_ids[k] as i128,
                        " not in item list",
                    ),
                );
            }
        }
        proof {
            lemma_first_index_is(it.component_ids@.len(), f, it.component_ids@.len() as int);
        }
        None
    } else if it.data.is_none() {
        Some(
            Error::Number(
                "HEIF writer: coded item ",
                it.item_id as i128,
                " has no data + no derivation",
            ),
        )
    } else {
        None
    }
}

impl HeifWriter {
    fn validate(&self) -> (r: Result<(), Error>)
        ensures
            match items_error(self.items(), self.primary()) {
                Some(e) => r == Err::<(), Error>(e),
                None => r is Ok,
            },
    {
        let primary: u32 = match self.primary_item {
            Some(p) => p,
            None => {
                return Err(Error::Rule("HEIF writer: primary item not set"));
            },
        };
        let ghost items = self.items@;
        let ghost dup = |i: int| repeats(items, i);
        let ghost bad = |i: int| item_error(items, items[i]) is Some;
        for i in 0..self.items.len()
            invariant
                items == self.items@,
                self.primary_item == Some(primary),
                dup == (|i: int| repeats(items, i)),
                forall|j: int| 0 <= j < i ==> !#[trigger] dup(j),
        {
            if repeats_earlier(&self.items, i) {
                proof {
                    lemma_first_index_is(items.len(), dup, i as int);
                }
                return Err(
                    Error::Number(
                        "HEIF writer: duplicate item id ",
                        self.items[i].item_id as i128,
                        "",
                    ),
                );
            }
        }
        proof {
            lemma_first_index_is(items.len(), dup, items.len() as int);
        }
        if !contains_item(&self.items, primary) {
            return Err(
                Error::Number("HEIF writer: primary item ", primary as i128, " not in item list"),
            );
        }
        for i in 0..self.items.len()
            invariant
                items == self.items@,
                self.primary_item == Some(primary),
                dup == (|i: int| repeats(items, i)),
                first_index(items.len(), dup) == items.len(),
                has_item(items, primary),
                bad == (|i: int| item_error(items, items[i]) is Some),
                forall|j: int| 0 <= j < i ==> !#[trigger] bad(j),
        {
            if let Some(e) = check_item(&self.items, &self.items[i]) {
                proof {
                    lemma_first_index_is(items.len(), bad, i as int);
                }
                return Err(e);
            }
        }
        proof {
            lemma_first_index_is(items.len(), bad, items.len() as int);
        }
        Ok(())
    }
}

impl HeifWriter {
    /// The file that is written if nothing is wrong with the items.
    pub open spec fn file(&self) -> Seq<u8> {
        heif_file(
            self.brand(),
            self.brands(),
            self.items(),
            self.references(),
            self.primary()->Some_0,
        )
    }

    /// Write the file, in two passes: the first measures the `meta` box, so
    /// that the second can write into it where the data of each item stands.
    #[verifier::rlimit(40)]
    pub fn write_to_vec(&self) -> (r: Result<Vec<u8>, Error>)
        ensures
            match items_error(self.items(), self.primary()) {
                Some(e) => r == Err::<Vec<u8>, Error>(e),
                None => r is Ok && r->Ok_0@ == self.file(),
            },
    {
        self.validate()?;
        let primary: u32 = match self.primary_item {
            Some(p) => p,
            None => 0,
        };
        let list = collect_properties(&self.items);
        let rows = collect_rows(&self.items, &list);
        let idat = build_idat(&self.items);
        let mdat = build_mdat(&self.items);
        let hdlr = build_hdlr_pict();
        let pitm = build_pitm_v0(primary);
        let iinf = build_iinf_v0(&self.items);
        let iref = build_iref(&self.items, &self.references);
        let iprp = build_iprp(&list, &rows);
        let ftyp = build_ftyp(self.major_brand, &self.compatible_brands);
        let wide = any_wide_data(&self.items);
        let unplaced = build_iloc_v1(&self.items, 0, wide);
        let meta_size: u64 = build_meta_size(
            hdlr.as_slice(),
            pitm.as_slice(),
            iinf.as_slice(),
            iref.as_slice(),
            iprp.as_slice(),
            idat.as_slice(),
            unplaced.as_slice(),
        );
        let header_len: u64 = if mdat.len() as u64 > 0xffff_ffff - 8 {
            16
        } else {
            8
        };
        let before_header: u64 = plus64(ftyp.len() as u64, meta_size);
        let start: u64 = plus64(before_header, header_len);
        proof {
            reveal(meta_body);
            let unplaced_len = meta_body(self.items@, self.references@, primary, 0).len();
            lemma_low64_sum(ftyp@.len() as int, (8 + unplaced_len) as int);
            lemma_low64_sum((ftyp@.len() + 8 + unplaced_len) as int, header_len as int);
        }
        let iloc = build_iloc_v1(&self.items, start, wide);
        let meta = build_meta(
            hdlr.as_slice(),
            pitm.as_slice(),
            iinf.as_slice(),
            iref.as_slice(),
            iprp.as_slice(),
            idat.as_slice(),
            iloc.as_slice(),
        );
        let mut out = ftyp;
        push_atom(&mut out, META, meta.as_slice());
        emit_mdat_header(&mut out, mdat.len() as u64);
        put_bytes(&mut out, mdat.as_slice());
        Ok(out)
    }
}

} // verus!
