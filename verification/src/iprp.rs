//! Item properties (`iprp`): the property boxes in `ipco` and which item has
//! which of them, in `ipma`.
use crate::bytes::{code_at, read_code, read_u16, same_code, tail, u16_at};
use crate::error::Error;
use crate::media_meta::{Clap, ColorModel, ColorParameters, ColorParametersKind, Pasp};
use crate::search::{first_index, lemma_first_index_is};
use vstd::prelude::*;
use vstd::slice::slice_to_vec;

pub use crate::fourcc::{
    AUXC, CCLV, CLAP, CLLI, COLR, IMIR, IPCO, IPMA, IPRP, IROT, ISPE, MDCV, NCLC, NCLX, PASP, PIXI,
    PROF, RICC,
};
pub use crate::iprp_read::{
    parse_auxc_payload, parse_cclv_payload, parse_clli_payload, parse_iprp, parse_mdcv_payload,
};

verus! {

/// Image spatial extents (`ispe`).
#[derive(Clone, Copy, Debug, Default, PartialEq, Eq)]
pub struct Ispe {
    pub width: u32,
    pub height: u32,
}

/// Pixel information (`pixi`): the bits of each channel.
#[derive(Clone, Debug, Default, PartialEq, Eq)]
pub struct Pixi {
    pub bits_per_channel: Vec<u8>,
}

/// Pixel information of an item.
#[derive(Clone, Debug, Default, PartialEq, Eq)]
pub struct PixiInfo {
    /// The bits of each channel.
    pub channels: Vec<u8>,
}

impl PixiInfo {
    /// The number of channels.
    pub fn num_channels(&self) -> (r: usize)
        ensures
            r == self.channels@.len(),
    {
        self.channels.len()
    }

    /// The pixel information of a `pixi` property.
    pub fn from_pixi(p: &Pixi) -> (r: PixiInfo)
        ensures
            r.channels@ == p.bits_per_channel@,
    {
        PixiInfo { channels: slice_to_vec(p.bits_per_channel.as_slice()) }
    }
}

/// Rotation (`irot`): anti-clockwise quarter turns.
#[derive(Clone, Copy, Debug, Default, PartialEq, Eq)]
pub struct Irot {
    /// `0..=3`
    pub steps: u8,
}

/// Mirroring (`imir`).
#[derive(Clone, Copy, Debug, Default, PartialEq, Eq)]
pub struct Imir {
    /// 0 or 1.
    pub axis: u8,
}

/// Auxiliary type (`auxC`).
#[derive(Clone, Debug, Default, PartialEq, Eq)]
pub struct AuxC {
    /// The URN of the purpose.
    pub aux_type: String,
    /// What follows the URN.
    pub aux_subtype: Vec<u8>,
}

/// The text names an alpha plane.
pub open spec fn names_alpha(text: Seq<char>) -> bool {
    text == "urn:mpeg:hevc:2015:auxid:1"@ || text
        == "urn:mpeg:mpegB:cicp:systems:auxiliary:alpha"@
}

/// The text names a depth map.
pub open spec fn names_depth(text: Seq<char>) -> bool {
    text == "urn:mpeg:hevc:2015:auxid:2"@ || text
        == "urn:mpeg:mpegB:cicp:systems:auxiliary:depth"@
}

fn text_is(s: &String, t: &str) -> (r: bool)
    ensures
        r == (s@ == t@),
{
    *s == t.to_owned()
}

impl AuxC {
    /// Whether the purpose is an alpha plane.
    pub fn is_alpha(&self) -> (r: bool)
        ensures
            r == names_alpha(self.aux_type@),
    {
        text_is(&self.aux_type, "urn:mpeg:hevc:2015:auxid:1") || text_is(
            &self.aux_type,
            "urn:mpeg:mpegB:cicp:systems:auxiliary:alpha",
        )
    }

    /// Whether the purpose is a depth map.
    pub fn is_depth(&self) -> (r: bool)
        ensures
            r == names_depth(self.aux_type@),
    {
        text_is(&self.aux_type, "urn:mpeg:hevc:2015:auxid:2") || text_is(
            &self.aux_type,
            "urn:mpeg:mpegB:cicp:systems:auxiliary:depth",
        )
    }
}

/// Content light level (`clli`).
#[derive(Clone, Copy, Debug, Default, PartialEq, Eq)]
pub struct Clli {
    pub max_content_light_level: u16,
    pub max_pic_average_light_level: u16,
}

/// Mastering display colour volume (`mdcv`).
#[derive(Clone, Copy, Debug, Default, PartialEq, Eq)]
pub struct Mdcv {
    /// Green, blue and red, each as x and y.
    pub display_primaries: [(u16, u16); 3],
    pub white_point: (u16, u16),
    pub max_display_luminance: u32,
    pub min_display_luminance: u32,
}

/// Content colour volume (`cclv`).
#[derive(Clone, Copy, Debug, Default, PartialEq, Eq)]
pub struct Cclv {
    pub cancel_flag: bool,
    pub persistence_flag: bool,
    /// Green, blue and red, each as x and y.
    pub primaries: Option<[(i32, i32); 3]>,
    pub min_luminance: Option<u32>,
    pub max_luminance: Option<u32>,
    pub avg_luminance: Option<u32>,
}

/// A property box.
#[derive(Clone, Debug, PartialEq, Eq)]
pub enum ItemProperty {
    Colr(ColorParameters),
    Pasp(Pasp),
    Clap(Clap),
    Pixi(Pixi),
    Ispe(Ispe),
    Irot(Irot),
    Imir(Imir),
    AuxC(AuxC),
    Clli(Clli),
    Mdcv(Mdcv),
    Cclv(Cclv),
    /// Any other box, with its body.
    Other { fourcc: [u8; 4], payload: Vec<u8> },
}

/// What a property box holds.
pub enum PropertyModel {
    Colr(ColorModel),
    Pasp(Pasp),
    Clap(Clap),
    Pixi(Seq<u8>),
    Ispe(Ispe),
    Irot(Irot),
    Imir(Imir),
    AuxC(Seq<char>, Seq<u8>),
    Clli(Clli),
    Mdcv(Mdcv),
    Cclv(Cclv),
    Other([u8; 4], Seq<u8>),
}

impl View for ItemProperty {
    type V = PropertyModel;

    open spec fn view(&self) -> PropertyModel {
        match *self {
            ItemProperty::Colr(c) => PropertyModel::Colr(c@),
            ItemProperty::Pasp(p) => PropertyModel::Pasp(p),
            ItemProperty::Clap(c) => PropertyModel::Clap(c),
            ItemProperty::Pixi(p) => PropertyModel::Pixi(p.bits_per_channel@),
            ItemProperty::Ispe(i) => PropertyModel::Ispe(i),
            ItemProperty::Irot(i) => PropertyModel::Irot(i),
            ItemProperty::Imir(i) => PropertyModel::Imir(i),
            ItemProperty::AuxC(a) => PropertyModel::AuxC(a.aux_type@, a.aux_subtype@),
            ItemProperty::Clli(c) => PropertyModel::Clli(c),
            ItemProperty::Mdcv(m) => PropertyModel::Mdcv(m),
            ItemProperty::Cclv(c) => PropertyModel::Cclv(c),
            ItemProperty::Other { fourcc, payload } => PropertyModel::Other(fourcc, payload@),
        }
    }
}

/// The kinds of property that are told apart.
#[derive(Clone, Copy, Debug, PartialEq, Eq, Structural)]
pub enum PropertyKind {
    Colr,
    Pasp,
    Clap,
    Pixi,
    Ispe,
    Irot,
    Imir,
    AuxC,
    Clli,
    Mdcv,
    Cclv,
    Other,
}

/// The kind of a property.
pub open spec fn kind_of(p: ItemProperty) -> PropertyKind {
    match p {
        ItemProperty::Colr(_) => PropertyKind::Colr,
        ItemProperty::Pasp(_) => PropertyKind::Pasp,
        ItemProperty::Clap(_) => PropertyKind::Clap,
        ItemProperty::Pixi(_) => PropertyKind::Pixi,
        ItemProperty::Ispe(_) => PropertyKind::Ispe,
        ItemProperty::Irot(_) => PropertyKind::Irot,
        ItemProperty::Imir(_) => PropertyKind::Imir,
        ItemProperty::AuxC(_) => PropertyKind::AuxC,
        ItemProperty::Clli(_) => PropertyKind::Clli,
        ItemProperty::Mdcv(_) => PropertyKind::Mdcv,
        ItemProperty::Cclv(_) => PropertyKind::Cclv,
        ItemProperty::Other { .. } => PropertyKind::Other,
    }
}

/// The code of a property.
pub open spec fn code_of(p: ItemProperty) -> [u8; 4] {
    match p {
        ItemProperty::Colr(_) => COLR,
        ItemProperty::Pasp(_) => PASP,
        ItemProperty::Clap(_) => CLAP,
        ItemProperty::Pixi(_) => PIXI,
        ItemProperty::Ispe(_) => ISPE,
        ItemProperty::Irot(_) => IROT,
        ItemProperty::Imir(_) => IMIR,
        ItemProperty::AuxC(_) => AUXC,
        ItemProperty::Clli(_) => CLLI,
        ItemProperty::Mdcv(_) => MDCV,
        ItemProperty::Cclv(_) => CCLV,
        ItemProperty::Other { fourcc, .. } => fourcc,
    }
}

impl ItemProperty {
    /// The code of the box.
    pub fn fourcc(&self) -> (r: [u8; 4])
        ensures
            r == code_of(*self),
    {
        match self {
            ItemProperty::Colr(_) => COLR,
            ItemProperty::Pasp(_) => PASP,
            ItemProperty::Clap(_) => CLAP,
            ItemProperty::Pixi(_) => PIXI,
            ItemProperty::Ispe(_) => ISPE,
            ItemProperty::Irot(_) => IROT,
            ItemProperty::Imir(_) => IMIR,
            ItemProperty::AuxC(_) => AUXC,
            ItemProperty::Clli(_) => CLLI,
            ItemProperty::Mdcv(_) => MDCV,
            ItemProperty::Cclv(_) => CCLV,
            ItemProperty::Other { fourcc, .. } => *fourcc,
        }
    }

    /// The kind of the property.
    pub fn kind(&self) -> (r: PropertyKind)
        ensures
            r == kind_of(*self),
    {
        match self {
            ItemProperty::Colr(_) => PropertyKind::Colr,
            ItemProperty::Pasp(_) => PropertyKind::Pasp,
            ItemProperty::Clap(_) => PropertyKind::Clap,
            ItemProperty::Pixi(_) => PropertyKind::Pixi,
            ItemProperty::Ispe(_) => PropertyKind::Ispe,
            ItemProperty::Irot(_) => PropertyKind::Irot,
            ItemProperty::Imir(_) => PropertyKind::Imir,
            ItemProperty::AuxC(_) => PropertyKind::AuxC,
            ItemProperty::Clli(_) => PropertyKind::Clli,
            ItemProperty::Mdcv(_) => PropertyKind::Mdcv,
            ItemProperty::Cclv(_) => PropertyKind::Cclv,
            ItemProperty::Other { .. } => PropertyKind::Other,
        }
    }
}

/// That an item has a property.
#[derive(Clone, Copy, Debug, Default, PartialEq, Eq)]
pub struct PropertyAssociation {
    /// The number of the property, counted from 1. On the wire 0 stands for none; a
    /// reader leaves such an association out.
    pub index: u16,
    /// Whether a reader must understand the property.
    pub essential: bool,
}

/// The properties of an item.
#[derive(Clone, Debug, Default, PartialEq, Eq)]
pub struct ItemPropertyAssociation {
    pub item_id: u32,
    pub associations: Vec<PropertyAssociation>,
}

/// What an [`ItemPropertyAssociation`] holds.
pub struct AssociationModel {
    pub item_id: u32,
    pub associations: Seq<PropertyAssociation>,
}

impl View for ItemPropertyAssociation {
    type V = AssociationModel;

    open spec fn view(&self) -> AssociationModel {
        AssociationModel { item_id: self.item_id, associations: self.associations@ }
    }
}

/// All property boxes and who has them.
#[derive(Clone, Debug, Default, PartialEq, Eq)]
pub struct ItemProperties {
    pub properties: Vec<ItemProperty>,
    pub associations: Vec<ItemPropertyAssociation>,
}

/// The place of the first row of an item; the number of rows if it has none.
pub open spec fn row_index(rows: Seq<ItemPropertyAssociation>, item_id: u32) -> int {
    first_index(rows.len(), |i: int| rows[i].item_id == item_id)
}

/// The associations of an item: those of its first row, or none.
pub open spec fn associations_of(
    rows: Seq<ItemPropertyAssociation>,
    item_id: u32,
) -> Seq<PropertyAssociation> {
    let k = row_index(rows, item_id);
    if k < rows.len() {
        rows[k].associations@
    } else {
        Seq::empty()
    }
}

/// The places, among `n` properties, that associations lead to. The index 0
/// and an index behind the last property lead nowhere.
pub open spec fn places(a: Seq<PropertyAssociation>, n: nat) -> Seq<int>
    decreases a.len(),
{
    if a.len() == 0 {
        Seq::empty()
    } else {
        let before = places(a.drop_last(), n);
        if 1 <= a.last().index <= n {
            before.push(a.last().index - 1)
        } else {
            before
        }
    }
}

impl ItemProperties {
    /// The places of the properties of an item.
    pub open spec fn places_for(&self, item_id: u32) -> Seq<int> {
        places(associations_of(self.associations@, item_id), self.properties@.len())
    }

    /// The properties of an item, in order.
    pub open spec fn resolved(&self, item_id: u32) -> Seq<ItemProperty> {
        Seq::new(
            self.places_for(item_id).len(),
            |k: int| self.properties@[self.places_for(item_id)[k]],
        )
    }

    /// The first property of an item that is of a kind.
    pub open spec fn first_of_kind(&self, item_id: u32, kind: PropertyKind) -> Option<
        ItemProperty,
    > {
        let all = self.resolved(item_id);
        let k = first_index(all.len(), |i: int| kind_of(all[i]) == kind);
        if k < all.len() {
            Some(all[k])
        } else {
            None
        }
    }

    /// The first row of an item.
    pub fn associations_for(&self, item_id: u32) -> (r: Option<&ItemPropertyAssociation>)
        ensures
            r == (if row_index(self.associations@, item_id) < self.associations@.len() {
                Some(&self.associations@[row_index(self.associations@, item_id)])
            } else {
                None
            }),
    {
        let ghost f = |i: int| self.associations@[i].item_id == item_id;
        for i in 0..self.associations.len()
            invariant
                f == (|i: int| self.associations@[i].item_id == item_id),
                forall|j: int| 0 <= j < i ==> !#[trigger] f(j),
        {
            if self.associations[i].item_id == item_id {
                proof {
                    lemma_first_index_is(self.associations@.len(), f, i as int);
                }
                return Some(&self.associations[i]);
            }
        }
        proof {
            lemma_first_index_is(self.associations@.len(), f, self.associations@.len() as int);
        }
        None
    }

    /// The properties of an item, in the order of its associations.
    pub fn resolve(&self, item_id: u32) -> (r: Vec<&ItemProperty>)
        ensures
            r@.len() == self.resolved(item_id).len(),
            forall|k: int| 0 <= k < r@.len() ==> *#[trigger] r@[k] == self.resolved(item_id)[k],
    {
        let mut out: Vec<&ItemProperty> = Vec::new();
        let row = match self.associations_for(item_id) {
            Some(row) => row,
            None => {
                return out;
            },
        };
        let ghost n = self.properties@.len();
        let ghost all = row.associations@;
        for i in 0..row.associations.len()
            invariant
                n == self.properties@.len(),
                all == row.associations@,
                out@.len() == places(all.take(i as int), n).len(),
                forall|k: int|
                    0 <= k < out@.len() ==> *#[trigger] out@[k] == self.properties@[places(
                        all.take(i as int),
                        n,
                    )[k]],
        {
            let a = row.associations[i];
            assert(all.take(i + 1).drop_last() =~= all.take(i as int));
            if a.index != 0 && (a.index as usize) - 1 < self.properties.len() {
                out.push(&self.properties[(a.index as usize) - 1]);
            }
        }
        assert(all.take(all.len() as int) =~= all);
        out
    }

    fn first_with(&self, item_id: u32, kind: PropertyKind) -> (r: Option<&ItemProperty>)
        ensures
            match self.first_of_kind(item_id, kind) {
                Some(p) => r is Some && *r->Some_0 == p && kind_of(p) == kind,
                None => r is None,
            },
    {
        let all = self.resolve(item_id);
        let ghost model = self.resolved(item_id);
        let ghost f = |i: int| kind_of(model[i]) == kind;
        for i in 0..all.len()
            invariant
                model == self.resolved(item_id),
                all@.len() == model.len(),
                forall|k: int| 0 <= k < all@.len() ==> *#[trigger] all@[k] == model[k],
                f == (|i: int| kind_of(model[i]) == kind),
                forall|j: int| 0 <= j < i ==> !#[trigger] f(j),
        {
            if all[i].kind() == kind {
                proof {
                    lemma_first_index_is(model.len(), f, i as int);
                }
                return Some(all[i]);
            }
        }
        proof {
            lemma_first_index_is(model.len(), f, model.len() as int);
        }
        None
    }

    /// The first `ispe` of an item.
    pub fn ispe_for(&self, item_id: u32) -> (r: Option<Ispe>)
        ensures
            r == (match self.first_of_kind(item_id, PropertyKind::Ispe) {
                Some(ItemProperty::Ispe(i)) => Some(i),
                _ => None,
            }),
    {
        match self.first_with(item_id, PropertyKind::Ispe) {
            Some(ItemProperty::Ispe(i)) => Some(*i),
            _ => None,
        }
    }

    /// The first `colr` of an item.
    pub fn colr_for(&self, item_id: u32) -> (r: Option<&ColorParameters>)
        ensures
            match self.first_of_kind(item_id, PropertyKind::Colr) {
                Some(ItemProperty::Colr(c)) => r == Some(&c),
                _ => r is None,
            },
    {
        match self.first_with(item_id, PropertyKind::Colr) {
            Some(ItemProperty::Colr(c)) => Some(c),
            _ => None,
        }
    }

    /// The colour information of an item, if its first `colr` is of a form
    /// that image items may have.
    pub fn color_profile(&self, item_id: u32) -> (r: Option<ColrInfo>)
        ensures
            match self.first_of_kind(item_id, PropertyKind::Colr) {
                Some(ItemProperty::Colr(c)) => match colr_info_of(c@) {
                    Some(m) => r is Some && r->Some_0@ == m,
                    None => r is None,
                },
                _ => r is None,
            },
    {
        match self.colr_for(item_id) {
            Some(c) => ColrInfo::from_color_parameters(c),
            None => None,
        }
    }

    /// The first `pixi` of an item.
    pub fn pixi_for(&self, item_id: u32) -> (r: Option<&Pixi>)
        ensures
            match self.first_of_kind(item_id, PropertyKind::Pixi) {
                Some(ItemProperty::Pixi(p)) => r == Some(&p),
                _ => r is None,
            },
    {
        match self.first_with(item_id, PropertyKind::Pixi) {
            Some(ItemProperty::Pixi(p)) => Some(p),
            _ => None,
        }
    }

    /// The pixel information of an item.
    pub fn pixi(&self, item_id: u32) -> (r: Option<PixiInfo>)
        ensures
            match self.first_of_kind(item_id, PropertyKind::Pixi) {
                Some(ItemProperty::Pixi(p)) => r is Some && r->Some_0.channels@
                    == p.bits_per_channel@,
                _ => r is None,
            },
    {
        match self.pixi_for(item_id) {
            Some(p) => Some(PixiInfo::from_pixi(p)),
            None => None,
        }
    }

    /// The first `auxC` of an item.
    pub fn auxc_for(&self, item_id: u32) -> (r: Option<&AuxC>)
        ensures
            match self.first_of_kind(item_id, PropertyKind::AuxC) {
                Some(ItemProperty::AuxC(a)) => r == Some(&a),
                _ => r is None,
            },
    {
        match self.first_with(item_id, PropertyKind::AuxC) {
            Some(ItemProperty::AuxC(a)) => Some(a),
            _ => None,
        }
    }

    /// A copy of the first `auxC` of an item.
    pub fn auxc(&self, item_id: u32) -> (r: Option<AuxC>)
        ensures
            match self.first_of_kind(item_id, PropertyKind::AuxC) {
                Some(ItemProperty::AuxC(a)) => r is Some && r->Some_0.aux_type@ == a.aux_type@
                    && r->Some_0.aux_subtype@ == a.aux_subtype@,
                _ => r is None,
            },
    {
        match self.auxc_for(item_id) {
            Some(a) => Some(
                AuxC {
                    aux_type: a.aux_type.clone(),
                    aux_subtype: slice_to_vec(a.aux_subtype.as_slice()),
                },
            ),
            None => None,
        }
    }

    /// The first `clli` of an item.
    pub fn clli(&self, item_id: u32) -> (r: Option<Clli>)
        ensures
            r == (match self.first_of_kind(item_id, PropertyKind::Clli) {
                Some(ItemProperty::Clli(c)) => Some(c),
                _ => None,
            }),
    {
        match self.first_with(item_id, PropertyKind::Clli) {
            Some(ItemProperty::Clli(c)) => Some(*c),
            _ => None,
        }
    }

    /// The first `mdcv` of an item.
    pub fn mdcv(&self, item_id: u32) -> (r: Option<Mdcv>)
        ensures
            r == (match self.first_of_kind(item_id, PropertyKind::Mdcv) {
                Some(ItemProperty::Mdcv(m)) => Some(m),
                _ => None,
            }),
    {
        match self.first_with(item_id, PropertyKind::Mdcv) {
            Some(ItemProperty::Mdcv(m)) => Some(*m),
            _ => None,
        }
    }

    /// The first `cclv` of an item.
    pub fn cclv(&self, item_id: u32) -> (r: Option<Cclv>)
        ensures
            r == (match self.first_of_kind(item_id, PropertyKind::Cclv) {
                Some(ItemProperty::Cclv(c)) => Some(c),
                _ => None,
            }),
    {
        match self.first_with(item_id, PropertyKind::Cclv) {
            Some(ItemProperty::Cclv(c)) => Some(*c),
            _ => None,
        }
    }

    /// The first rotation and the first mirroring of an item.
    pub fn orientation_for(&self, item_id: u32) -> (r: (Option<Irot>, Option<Imir>))
        ensures
            r.0 == (match self.first_of_kind(item_id, PropertyKind::Irot) {
                Some(ItemProperty::Irot(i)) => Some(i),
                _ => None,
            }),
            r.1 == (match self.first_of_kind(item_id, PropertyKind::Imir) {
                Some(ItemProperty::Imir(i)) => Some(i),
                _ => None,
            }),
    {
        let rot = match self.first_with(item_id, PropertyKind::Irot) {
            Some(ItemProperty::Irot(i)) => Some(*i),
            _ => None,
        };
        let mir = match self.first_with(item_id, PropertyKind::Imir) {
            Some(ItemProperty::Imir(i)) => Some(*i),
            _ => None,
        };
        (rot, mir)
    }
}

/// The association is essential and leads to a box that is neither told apart
/// nor among the recognised codes.
pub open spec fn blocks(
    a: PropertyAssociation,
    properties: Seq<ItemProperty>,
    recognised: Seq<[u8; 4]>,
) -> bool {
    a.essential && 1 <= a.index <= properties.len() && kind_of(properties[a.index - 1])
        == PropertyKind::Other && !recognised.contains(code_of(properties[a.index - 1]))
}

fn is_recognised(recognised: &[[u8; 4]], code: &[u8; 4]) -> (r: bool)
    ensures
        r == recognised@.contains(*code),
{
    for i in 0..recognised.len()
        invariant
            forall|j: int| 0 <= j < i ==> recognised@[j] != *code,
    {
        if same_code(&recognised[i], code) {
            assert(recognised@[i as int] == *code);
            return true;
        }
    }
    false
}

impl ItemProperties {
    /// The properties of an item, unless one of them is essential and unknown:
    /// then the code of the first such property.
    pub fn resolve_strict(&self, item_id: u32, recognised: &[[u8; 4]]) -> (r: Result<
        Vec<&ItemProperty>,
        [u8; 4],
    >)
        ensures
            ({
                let a = associations_of(self.associations@, item_id);
                let k = first_index(
                    a.len(),
                    |i: int| blocks(a[i], self.properties@, recognised@),
                );
                if k < a.len() {
                    r == Err::<Vec<&ItemProperty>, [u8; 4]>(
                        code_of(self.properties@[a[k].index - 1]),
                    )
                } else {
                    &&& r is Ok
                    &&& r->Ok_0@.len() == self.resolved(item_id).len()
                    &&& forall|k: int|
                        0 <= k < r->Ok_0@.len() ==> *#[trigger] r->Ok_0@[k] == self.resolved(
                            item_id,
                        )[k]
                }
            }),
    {
        let ghost a = associations_of(self.associations@, item_id);
        let ghost f = |i: int| blocks(a[i], self.properties@, recognised@);
        match self.associations_for(item_id) {
            Some(row) => {
                assert(a == row.associations@);
                for i in 0..row.associations.len()
                    invariant
                        a == row.associations@,
                        f == (|i: int| blocks(a[i], self.properties@, recognised@)),
                        forall|j: int| 0 <= j < i ==> !#[trigger] f(j),
                        a == associations_of(self.associations@, item_id),
                {
                    let one = row.associations[i];
                    if one.essential && one.index != 0 && (one.index as usize) - 1
                        < self.properties.len() {
                        if let ItemProperty::Other { fourcc, .. } = &self.properties[(
                        one.index as usize) - 1] {
                            if !is_recognised(recognised, fourcc) {
                                proof {
                                    lemma_first_index_is(a.len(), f, i as int);
                                }
                                return Err(*fourcc);
                            }
                        }
                    }
                }
            },
            None => {},
        }
        proof {
            lemma_first_index_is(a.len(), f, a.len() as int);
        }
        Ok(self.resolve(item_id))
    }
}

/// Colour information of an image item.
#[derive(Clone, Debug, PartialEq, Eq)]
pub enum ColrInfo {
    Nclx { primaries: u16, transfer: u16, matrix: u16, full_range: bool },
    /// A restricted ICC profile (`rICC`).
    RestrictedIcc(Vec<u8>),
    /// An unrestricted ICC profile (`prof`).
    UnrestrictedIcc(Vec<u8>),
}

/// What a [`ColrInfo`] holds.
pub enum ColrInfoModel {
    Nclx { primaries: u16, transfer: u16, matrix: u16, full_range: bool },
    RestrictedIcc(Seq<u8>),
    UnrestrictedIcc(Seq<u8>),
}

impl View for ColrInfo {
    type V = ColrInfoModel;

    open spec fn view(&self) -> ColrInfoModel {
        match *self {
            ColrInfo::Nclx { primaries, transfer, matrix, full_range } => ColrInfoModel::Nclx {
                primaries,
                transfer,
                matrix,
                full_range,
            },
            ColrInfo::RestrictedIcc(b) => ColrInfoModel::RestrictedIcc(b@),
            ColrInfo::UnrestrictedIcc(b) => ColrInfoModel::UnrestrictedIcc(b@),
        }
    }
}

/// The image item form of colour parameters, where there is one.
pub open spec fn colr_info_of(m: ColorModel) -> Option<ColrInfoModel> {
    match m {
        ColorModel::Nclx { primaries, transfer, matrix, full_range } => Some(
            ColrInfoModel::Nclx { primaries, transfer, matrix, full_range },
        ),
        ColorModel::Icc { kind, profile } => if kind == RICC {
            Some(ColrInfoModel::RestrictedIcc(profile))
        } else if kind == PROF {
            Some(ColrInfoModel::UnrestrictedIcc(profile))
        } else {
            None
        },
        _ => None,
    }
}

impl ColrInfo {
    /// The code of the form.
    pub fn colour_type(&self) -> (r: [u8; 4])
        ensures
            r == (match self@ {
                ColrInfoModel::Nclx { .. } => NCLX,
                ColrInfoModel::RestrictedIcc(_) => RICC,
                ColrInfoModel::UnrestrictedIcc(_) => PROF,
            }),
    {
        match self {
            ColrInfo::Nclx { .. } => NCLX,
            ColrInfo::RestrictedIcc(_) => RICC,
            ColrInfo::UnrestrictedIcc(_) => PROF,
        }
    }

    /// Whether this is an ICC profile.
    pub fn is_icc(&self) -> (r: bool)
        ensures
            r == !(self@ is Nclx),
    {
        match self {
            ColrInfo::Nclx { .. } => false,
            _ => true,
        }
    }

    /// The ICC profile, if this is one.
    pub fn icc_bytes(&self) -> (r: Option<&[u8]>)
        ensures
            match self@ {
                ColrInfoModel::Nclx { .. } => r is None,
                ColrInfoModel::RestrictedIcc(b) => r is Some && r->Some_0@ == b,
                ColrInfoModel::UnrestrictedIcc(b) => r is Some && r->Some_0@ == b,
            },
    {
        match self {
            ColrInfo::RestrictedIcc(b) => Some(b.as_slice()),
            ColrInfo::UnrestrictedIcc(b) => Some(b.as_slice()),
            ColrInfo::Nclx { .. } => None,
        }
    }

    /// The image item form of colour parameters; `None` for the forms that
    /// image items may not have.
    pub fn from_color_parameters(cp: &ColorParameters) -> (r: Option<ColrInfo>)
        ensures
            match colr_info_of(cp@) {
                Some(m) => r is Some && r->Some_0@ == m,
                None => r is None,
            },
    {
        match &cp.kind {
            ColorParametersKind::Nclx { primaries, transfer, matrix, full_range } => Some(
                ColrInfo::Nclx {
                    primaries: *primaries,
                    transfer: *transfer,
                    matrix: *matrix,
                    full_range: *full_range,
                },
            ),
            ColorParametersKind::Icc { kind, profile } => {
                if same_code(kind, &RICC) {
                    Some(ColrInfo::RestrictedIcc(slice_to_vec(profile.as_slice())))
                } else if same_code(kind, &PROF) {
                    Some(ColrInfo::UnrestrictedIcc(slice_to_vec(profile.as_slice())))
                } else {
                    None
                }
            },
            _ => None,
        }
    }
}

/// What the `colr` body of an image item holds.
pub open spec fn colr_payload_of(s: Seq<u8>) -> Result<ColrInfoModel, Error> {
    let tag = code_at(s, 0);
    if s.len() < 4 {
        Err(Error::Rule("HEIF: colr payload < 4 bytes (no tag)"))
    } else if tag == NCLX {
        if s.len() < 11 {
            Err(Error::Rule("HEIF: colr nclx body < 7 bytes (need 3×u16 indices + 1 flag byte)"))
        } else {
            Ok(
                ColrInfoModel::Nclx {
                    primaries: u16_at(s, 4),
                    transfer: u16_at(s, 6),
                    matrix: u16_at(s, 8),
                    full_range: s[10] >= 0x80,
                },
            )
        }
    } else if tag == RICC {
        Ok(ColrInfoModel::RestrictedIcc(tail(s, 4)))
    } else if tag == PROF {
        Ok(ColrInfoModel::UnrestrictedIcc(tail(s, 4)))
    } else if tag == NCLC {
        Err(
            Error::Rule(
                "HEIF: colr 'nclc' tag is the QTFF Apple shape, not legal in HEIF (use ISO 'nclx')",
            ),
        )
    } else {
        Err(Error::Code("HEIF: colr unknown colour_type tag ", tag, "<non-utf8>", ""))
    }
}

/// Parse the `colr` body of an image item: `nclx`, `rICC` or `prof`.
pub fn parse_colr_payload(payload: &[u8]) -> (r: Result<ColrInfo, Error>)
    ensures
        match colr_payload_of(payload@) {
            Ok(m) => r is Ok && r->Ok_0@ == m,
            Err(e) => r == Err::<ColrInfo, Error>(e),
        },
{
    if payload.len() < 4 {
        return Err(Error::Rule("HEIF: colr payload < 4 bytes (no tag)"));
    }
    let tag = read_code(payload, 0);
    if same_code(&tag, &NCLX) {
        if payload.len() < 11 {
            return Err(
                Error::Rule("HEIF: colr nclx body < 7 bytes (need 3×u16 indices + 1 flag byte)"),
            );
        }
        return Ok(
            ColrInfo::Nclx {
                primaries: read_u16(payload, 4),
                transfer: read_u16(payload, 6),
                matrix: read_u16(payload, 8),
                full_range: payload[10] >= 0x80,
            },
        );
    }
    if same_code(&tag, &RICC) {
        return Ok(ColrInfo::RestrictedIcc(slice_to_vec(&payload[4..payload.len()])));
    }
    if same_code(&tag, &PROF) {
        return Ok(ColrInfo::UnrestrictedIcc(slice_to_vec(&payload[4..payload.len()])));
    }
    if same_code(&tag, &NCLC) {
        return Err(
            Error::Rule(
                "HEIF: colr 'nclc' tag is the QTFF Apple shape, not legal in HEIF (use ISO 'nclx')",
            ),
        );
    }
    Err(Error::Code("HEIF: colr unknown colour_type tag ", tag, "<non-utf8>", ""))
}

} // verus!
