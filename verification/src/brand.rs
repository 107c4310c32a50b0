//! File type (`ftyp`) and the brands in it.
use crate::bytes::{code_at, read_code, read_u32, same_code, u32_at};
use crate::error::Error;
use crate::fourcc::{
    AVIF, AVIO, AVIS, HEIC, HEIM, HEIS, HEIX, HEVC, HEVX, ISO2, ISO3, ISO4, ISO5, ISO6, ISO7, ISO8,
    ISO9, ISOM, MA1A, MA1B, MIF1, MIF2, MP41, MP42, MSF1, QT,
};
use vstd::prelude::*;

verus! {

/// A file type: the major brand and what the file is compatible with.
#[derive(Clone, Debug, Default)]
pub struct Ftyp {
    pub major_brand: [u8; 4],
    pub minor_version: u32,
    pub compatible_brands: Vec<[u8; 4]>,
}

/// The brands that are told apart.
#[derive(Clone, Copy, Debug, PartialEq, Eq, Hash)]
pub enum BrandClass {
    /// `heic`: HEVC image.
    Heic,
    /// `heix`: HEVC image, extended profile.
    Heix,
    /// `heim`: HEVC multiview.
    Heim,
    /// `heis`: HEVC scalable.
    Heis,
    /// `hevc`: HEVC image sequence.
    Hevc,
    /// `hevx`: HEVC image sequence, extended profile.
    Hevx,
    /// `avif`: AV1 image.
    Avif,
    /// `avis`: AV1 image sequence.
    Avis,
    /// `avio`: AV1 intra-only sequence.
    Avio,
    /// `mif1`: image file.
    Mif1,
    /// `mif2`: image file, second version.
    Mif2,
    /// `msf1`: image sequence.
    Msf1,
    /// `MA1A`: MIAF advanced profile.
    Ma1a,
    /// `MA1B`: MIAF baseline profile.
    Ma1b,
    /// `mp41`: MPEG-4, first version.
    Mp41,
    /// `mp42`: MPEG-4, second version.
    Mp42,
    /// `isom`: ISO base media file.
    Isom,
    /// `iso2`: ISO base media file, version 2.
    Iso2,
    /// `iso3`: ISO base media file, version 3.
    Iso3,
    /// `iso4`: ISO base media file, version 4.
    Iso4,
    /// `iso5`: ISO base media file, version 5.
    Iso5,
    /// `iso6`: ISO base media file, version 6.
    Iso6,
    /// `iso7`: ISO base media file, version 7.
    Iso7,
    /// `iso8`: ISO base media file, version 8.
    Iso8,
    /// `iso9`: ISO base media file, version 9.
    Iso9,
    /// `qt  `: QuickTime.
    Qt,
    /// Any other brand.
    Other([u8; 4]),
}

/// The class of a brand.
pub open spec fn class_of(brand: [u8; 4]) -> BrandClass {
    if brand == HEIC {
        BrandClass::Heic
    } else if brand == HEIX {
        BrandClass::Heix
    } else if brand == HEIM {
        BrandClass::Heim
    } else if brand == HEIS {
        BrandClass::Heis
    } else if brand == HEVC {
        BrandClass::Hevc
    } else if brand == HEVX {
        BrandClass::Hevx
    } else if brand == AVIF {
        BrandClass::Avif
    } else if brand == AVIS {
        BrandClass::Avis
    } else if brand == AVIO {
        BrandClass::Avio
    } else if brand == MIF1 {
        BrandClass::Mif1
    } else if brand == MIF2 {
        BrandClass::Mif2
    } else if brand == MSF1 {
        BrandClass::Msf1
    } else if brand == MA1A {
        BrandClass::Ma1a
    } else if brand == MA1B {
        BrandClass::Ma1b
    } else if brand == MP41 {
        BrandClass::Mp41
    } else if brand == MP42 {
        BrandClass::Mp42
    } else if brand == ISOM {
        BrandClass::Isom
    } else if brand == ISO2 {
        BrandClass::Iso2
    } else if brand == ISO3 {
        BrandClass::Iso3
    } else if brand == ISO4 {
        BrandClass::Iso4
    } else if brand == ISO5 {
        BrandClass::Iso5
    } else if brand == ISO6 {
        BrandClass::Iso6
    } else if brand == ISO7 {
        BrandClass::Iso7
    } else if brand == ISO8 {
        BrandClass::Iso8
    } else if brand == ISO9 {
        BrandClass::Iso9
    } else if brand == QT {
        BrandClass::Qt
    } else {
        BrandClass::Other(brand)
    }
}

/// The code of a brand.
pub open spec fn brand_code(class: BrandClass) -> [u8; 4] {
    match class {
        BrandClass::Heic => HEIC,
        BrandClass::Heix => HEIX,
        BrandClass::Heim => HEIM,
        BrandClass::Heis => HEIS,
        BrandClass::Hevc => HEVC,
        BrandClass::Hevx => HEVX,
        BrandClass::Avif => AVIF,
        BrandClass::Avis => AVIS,
        BrandClass::Avio => AVIO,
        BrandClass::Mif1 => MIF1,
        BrandClass::Mif2 => MIF2,
        BrandClass::Msf1 => MSF1,
        BrandClass::Ma1a => MA1A,
        BrandClass::Ma1b => MA1B,
        BrandClass::Mp41 => MP41,
        BrandClass::Mp42 => MP42,
        BrandClass::Isom => ISOM,
        BrandClass::Iso2 => ISO2,
        BrandClass::Iso3 => ISO3,
        BrandClass::Iso4 => ISO4,
        BrandClass::Iso5 => ISO5,
        BrandClass::Iso6 => ISO6,
        BrandClass::Iso7 => ISO7,
        BrandClass::Iso8 => ISO8,
        BrandClass::Iso9 => ISO9,
        BrandClass::Qt => QT,
        BrandClass::Other(b) => b,
    }
}

/// A HEIC brand.
pub open spec fn heic_family(class: BrandClass) -> bool {
    class is Heic || class is Heix || class is Heim || class is Heis
}

/// An AVIF brand.
pub open spec fn avif_family(class: BrandClass) -> bool {
    class is Avif || class is Avis || class is Avio
}

/// A MIAF brand: one of its own, or a HEIC or AVIF brand.
pub open spec fn miaf_family(class: BrandClass) -> bool {
    class is Mif1 || class is Mif2 || class is Ma1a || class is Ma1b || heic_family(class)
        || avif_family(class)
}

impl BrandClass {
    /// The class of a brand.
    pub fn classify(brand: &[u8; 4]) -> (r: Self)
        ensures
            r == class_of(*brand),
    {
        if same_code(brand, &HEIC) {
            BrandClass::Heic
        } else if same_code(brand, &HEIX) {
            BrandClass::Heix
        } else if same_code(brand, &HEIM) {
            BrandClass::Heim
        } else if same_code(brand, &HEIS) {
            BrandClass::Heis
        } else if same_code(brand, &HEVC) {
            BrandClass::Hevc
        } else if same_code(brand, &HEVX) {
            BrandClass::Hevx
        } else if same_code(brand, &AVIF) {
            BrandClass::Avif
        } else if same_code(brand, &AVIS) {
            BrandClass::Avis
        } else if same_code(brand, &AVIO) {
            BrandClass::Avio
        } else if same_code(brand, &MIF1) {
            BrandClass::Mif1
        } else if same_code(brand, &MIF2) {
            BrandClass::Mif2
        } else if same_code(brand, &MSF1) {
            BrandClass::Msf1
        } else if same_code(brand, &MA1A) {
            BrandClass::Ma1a
        } else if same_code(brand, &MA1B) {
            BrandClass::Ma1b
        } else if same_code(brand, &MP41) {
            BrandClass::Mp41
        } else if same_code(brand, &MP42) {
            BrandClass::Mp42
        } else if same_code(brand, &ISOM) {
            BrandClass::Isom
        } else if same_code(brand, &ISO2) {
            BrandClass::Iso2
        } else if same_code(brand, &ISO3) {
            BrandClass::Iso3
        } else if same_code(brand, &ISO4) {
            BrandClass::Iso4
        } else if same_code(brand, &ISO5) {
            BrandClass::Iso5
        } else if same_code(brand, &ISO6) {
            BrandClass::Iso6
        } else if same_code(brand, &ISO7) {
            BrandClass::Iso7
        } else if same_code(brand, &ISO8) {
            BrandClass::Iso8
        } else if same_code(brand, &ISO9) {
            BrandClass::Iso9
        } else if same_code(brand, &QT) {
            BrandClass::Qt
        } else {
            BrandClass::Other(*brand)
        }
    }

    /// The code of the brand.
    pub fn fourcc(&self) -> (r: [u8; 4])
        ensures
            r == brand_code(*self),
    {
        match self {
            BrandClass::Heic => HEIC,
            BrandClass::Heix => HEIX,
            BrandClass::Heim => HEIM,
            BrandClass::Heis => HEIS,
            BrandClass::Hevc => HEVC,
            BrandClass::Hevx => HEVX,
            BrandClass::Avif => AVIF,
            BrandClass::Avis => AVIS,
            BrandClass::Avio => AVIO,
            BrandClass::Mif1 => MIF1,
            BrandClass::Mif2 => MIF2,
            BrandClass::Msf1 => MSF1,
            BrandClass::Ma1a => MA1A,
            BrandClass::Ma1b => MA1B,
            BrandClass::Mp41 => MP41,
            BrandClass::Mp42 => MP42,
            BrandClass::Isom => ISOM,
            BrandClass::Iso2 => ISO2,
            BrandClass::Iso3 => ISO3,
            BrandClass::Iso4 => ISO4,
            BrandClass::Iso5 => ISO5,
            BrandClass::Iso6 => ISO6,
            BrandClass::Iso7 => ISO7,
            BrandClass::Iso8 => ISO8,
            BrandClass::Iso9 => ISO9,
            BrandClass::Qt => QT,
            BrandClass::Other(b) => *b,
        }
    }

    /// Whether this is a HEIC brand.
    pub fn is_heic_family(&self) -> (r: bool)
        ensures
            r == heic_family(*self),
    {
        match self {
            BrandClass::Heic => true,
            BrandClass::Heix => true,
            BrandClass::Heim => true,
            BrandClass::Heis => true,
            _ => false,
        }
    }

    /// Whether this is an AVIF brand.
    pub fn is_avif_family(&self) -> (r: bool)
        ensures
            r == avif_family(*self),
    {
        match self {
            BrandClass::Avif => true,
            BrandClass::Avis => true,
            BrandClass::Avio => true,
            _ => false,
        }
    }

    /// Whether this is a MIAF brand.
    pub fn is_miaf_family(&self) -> (r: bool)
        ensures
            r == miaf_family(*self),
    {
        match self {
            BrandClass::Mif1 => true,
            BrandClass::Mif2 => true,
            BrandClass::Ma1a => true,
            BrandClass::Ma1b => true,
            _ => self.is_heic_family() || self.is_avif_family(),
        }
    }
}

impl Ftyp {
    /// All brands: the major one, then the compatible ones.
    pub open spec fn brands(&self) -> Seq<[u8; 4]> {
        seq![self.major_brand] + self.compatible_brands@
    }

    /// The classes of all brands.
    pub open spec fn classes(&self) -> Seq<BrandClass> {
        Seq::new(self.brands().len(), |i: int| class_of(self.brands()[i]))
    }

    /// Whether the QuickTime brand is among the brands.
    pub fn is_quicktime(&self) -> (r: bool)
        ensures
            r == self.brands().contains(QT),
    {
        if same_code(&self.major_brand, &QT) {
            assert(self.brands()[0] == QT);
            return true;
        }
        for i in 0..self.compatible_brands.len()
            invariant
                self.major_brand != QT,
                forall|j: int| 0 <= j < i ==> self.compatible_brands@[j] != QT,
        {
            if same_code(&self.compatible_brands[i], &QT) {
                assert(self.brands()[i + 1] == QT);
                return true;
            }
        }
        assert(!self.brands().contains(QT)) by {
            if self.brands().contains(QT) {
                let w = choose|w: int| 0 <= w < self.brands().len() && self.brands()[w] == QT;
                assert(w > 0 && self.compatible_brands@[w - 1] == QT);
            }
        }
        false
    }

    /// The classes of all brands, the major one first.
    pub fn brand_class(&self) -> (r: Vec<BrandClass>)
        ensures
            r@ == self.classes(),
    {
        let mut out: Vec<BrandClass> = Vec::new();
        out.push(BrandClass::classify(&self.major_brand));
        for i in 0..self.compatible_brands.len()
            invariant
                out@ =~= self.classes().take(i + 1),
        {
            out.push(BrandClass::classify(&self.compatible_brands[i]));
        }
        assert(out@ =~= self.classes());
        out
    }

    /// Whether a HEIC brand is among the brands.
    pub fn is_heic(&self) -> (r: bool)
        ensures
            r == exists|i: int|
                0 <= i < self.classes().len() && heic_family(#[trigger] self.classes()[i]),
    {
        let all = self.brand_class();
        for i in 0..all.len()
            invariant
                all@ == self.classes(),
                forall|j: int| 0 <= j < i ==> !heic_family(#[trigger] self.classes()[j]),
        {
            if all[i].is_heic_family() {
                assert(heic_family(self.classes()[i as int]));
                return true;
            }
        }
        false
    }

    /// Whether an AVIF brand is among the brands.
    pub fn is_avif(&self) -> (r: bool)
        ensures
            r == exists|i: int|
                0 <= i < self.classes().len() && avif_family(#[trigger] self.classes()[i]),
    {
        let all = self.brand_class();
        for i in 0..all.len()
            invariant
                all@ == self.classes(),
                forall|j: int| 0 <= j < i ==> !avif_family(#[trigger] self.classes()[j]),
        {
            if all[i].is_avif_family() {
                assert(avif_family(self.classes()[i as int]));
                return true;
            }
        }
        false
    }

    /// Whether a MIAF brand is among the brands.
    pub fn is_miaf(&self) -> (r: bool)
        ensures
            r == exists|i: int|
                0 <= i < self.classes().len() && miaf_family(#[trigger] self.classes()[i]),
    {
        let all = self.brand_class();
        for i in 0..all.len()
            invariant
                all@ == self.classes(),
                forall|j: int| 0 <= j < i ==> !miaf_family(#[trigger] self.classes()[j]),
        {
            if all[i].is_miaf_family() {
                assert(miaf_family(self.classes()[i as int]));
                return true;
            }
        }
        false
    }
}

/// The major brand and the minor version of an `ftyp` body.
pub open spec fn ftyp_head(s: Seq<u8>) -> ([u8; 4], u32) {
    (code_at(s, 0), u32_at(s, 4))
}

/// The compatible brands of an `ftyp` body.
pub open spec fn ftyp_brands(s: Seq<u8>) -> Seq<[u8; 4]> {
    Seq::new(((s.len() - 8) / 4) as nat, |i: int| code_at(s, 8 + 4 * i))
}

/// Parse the body of an `ftyp` atom: the major brand, the minor version, and
/// compatible brands to the end.
pub fn parse_ftyp(payload: &[u8]) -> (r: Result<Ftyp, Error>)
    ensures
        payload@.len() < 8 ==> r == Err::<Ftyp, Error>(Error::Rule("MOV: ftyp payload < 8 bytes")),
        payload@.len() >= 8 && payload@.len() % 4 != 0 ==> r == Err::<Ftyp, Error>(
            Error::Rule("MOV: ftyp compatible-brands not 4-aligned"),
        ),
        payload@.len() >= 8 && payload@.len() % 4 == 0 ==> {
            &&& r is Ok
            &&& r->Ok_0.major_brand == ftyp_head(payload@).0
            &&& r->Ok_0.minor_version == ftyp_head(payload@).1
            &&& r->Ok_0.compatible_brands@ == ftyp_brands(payload@)
        },
{
    if payload.len() < 8 {
        return Err(Error::Rule("MOV: ftyp payload < 8 bytes"));
    }
    if (payload.len() - 8) % 4 != 0 {
        return Err(Error::Rule("MOV: ftyp compatible-brands not 4-aligned"));
    }
    let n: usize = (payload.len() - 8) / 4;
    let mut brands: Vec<[u8; 4]> = Vec::new();
    for i in 0..n
        invariant
            8 + 4 * n <= payload@.len(),
            brands@ =~= Seq::new(i as nat, |k: int| code_at(payload@, 8 + 4 * k)),
    {
        assert(payload.len() == payload@.len());
        brands.push(read_code(payload, 8 + 4 * i));
    }
    Ok(
        Ftyp {
            major_brand: read_code(payload, 0),
            minor_version: read_u32(payload, 4),
            compatible_brands: brands,
        },
    )
}

/// The class of a brand says which brand it is.
pub proof fn law_class_keeps_the_brand(brand: [u8; 4])
    ensures
        brand_code(class_of(brand)) == brand,
{
}

/// A brand that is told apart is in its own class.
pub proof fn law_known_brands_are_told_apart(class: BrandClass)
    requires
        !(class is Other),
    ensures
        class_of(brand_code(class)) == class,
{
}

} // verus!
