//! What classes, rotations and kinds stand for.
use crate::brand::{avif_family, brand_code, class_of, heic_family, miaf_family, BrandClass};
use crate::chan::{layout_mask, ones};
use crate::code_laws::spells;
use crate::header::{rotation_of, TrackRotation};
use crate::iprp::{kind_of, ItemProperties, PropertyKind};
use crate::pdin::{interpolated, PdinEntry};
use crate::search::{first_index, lemma_first_index};
use vstd::prelude::*;

verus! {

/// Each class is that of the brand it is named after.
pub proof fn law_classes_are_named_after_their_brands()
    ensures
        spells(brand_code(BrandClass::Heic), "heic"),
        spells(brand_code(BrandClass::Heix), "heix"),
        spells(brand_code(BrandClass::Heim), "heim"),
        spells(brand_code(BrandClass::Heis), "heis"),
        spells(brand_code(BrandClass::Hevc), "hevc"),
        spells(brand_code(BrandClass::Hevx), "hevx"),
        spells(brand_code(BrandClass::Avif), "avif"),
        spells(brand_code(BrandClass::Avis), "avis"),
        spells(brand_code(BrandClass::Avio), "avio"),
        spells(brand_code(BrandClass::Mif1), "mif1"),
        spells(brand_code(BrandClass::Mif2), "mif2"),
        spells(brand_code(BrandClass::Msf1), "msf1"),
        spells(brand_code(BrandClass::Ma1a), "MA1A"),
        spells(brand_code(BrandClass::Ma1b), "MA1B"),
        spells(brand_code(BrandClass::Mp41), "mp41"),
        spells(brand_code(BrandClass::Mp42), "mp42"),
        spells(brand_code(BrandClass::Isom), "isom"),
        spells(brand_code(BrandClass::Iso2), "iso2"),
        spells(brand_code(BrandClass::Iso3), "iso3"),
        spells(brand_code(BrandClass::Iso4), "iso4"),
        spells(brand_code(BrandClass::Iso5), "iso5"),
        spells(brand_code(BrandClass::Iso6), "iso6"),
        spells(brand_code(BrandClass::Iso7), "iso7"),
        spells(brand_code(BrandClass::Iso8), "iso8"),
        spells(brand_code(BrandClass::Iso9), "iso9"),
        spells(brand_code(BrandClass::Qt), "qt  "),
{
    reveal_strlit("heic");
    reveal_strlit("heix");
    reveal_strlit("heim");
    reveal_strlit("heis");
    reveal_strlit("hevc");
    reveal_strlit("hevx");
    reveal_strlit("avif");
    reveal_strlit("avis");
    reveal_strlit("avio");
    reveal_strlit("mif1");
    reveal_strlit("mif2");
    reveal_strlit("msf1");
    reveal_strlit("MA1A");
    reveal_strlit("MA1B");
    reveal_strlit("mp41");
    reveal_strlit("mp42");
    reveal_strlit("isom");
    reveal_strlit("iso2");
    reveal_strlit("iso3");
    reveal_strlit("iso4");
    reveal_strlit("iso5");
    reveal_strlit("iso6");
    reveal_strlit("iso7");
    reveal_strlit("iso8");
    reveal_strlit("iso9");
    reveal_strlit("qt  ");
}

/// The HEIC brands are `heic`, `heix`, `heim` and `heis`.
#[verifier::rlimit(40)]
pub proof fn law_heic_family(brand: [u8; 4])
    ensures
        heic_family(class_of(brand)) <==> spells(brand, "heic") || spells(brand, "heix") || spells(
            brand,
            "heim",
        ) || spells(brand, "heis"),
{
    reveal_strlit("heic");
    reveal_strlit("heix");
    reveal_strlit("heim");
    reveal_strlit("heis");
    crate::brand::law_class_keeps_the_brand(brand);
    crate::brand::law_known_brands_are_told_apart(BrandClass::Heic);
    crate::brand::law_known_brands_are_told_apart(BrandClass::Heix);
    crate::brand::law_known_brands_are_told_apart(BrandClass::Heim);
    crate::brand::law_known_brands_are_told_apart(BrandClass::Heis);
    if spells(brand, "heic") {
        assert(brand =~= brand_code(BrandClass::Heic));
    }
    if spells(brand, "heix") {
        assert(brand =~= brand_code(BrandClass::Heix));
    }
    if spells(brand, "heim") {
        assert(brand =~= brand_code(BrandClass::Heim));
    }
    if spells(brand, "heis") {
        assert(brand =~= brand_code(BrandClass::Heis));
    }
}

/// The AVIF brands are `avif`, `avis` and `avio`.
pub proof fn law_avif_family(brand: [u8; 4])
    ensures
        avif_family(class_of(brand)) <==> spells(brand, "avif") || spells(brand, "avis") || spells(
            brand,
            "avio",
        ),
{
    reveal_strlit("avif");
    reveal_strlit("avis");
    reveal_strlit("avio");
    crate::brand::law_class_keeps_the_brand(brand);
    crate::brand::law_known_brands_are_told_apart(BrandClass::Avif);
    crate::brand::law_known_brands_are_told_apart(BrandClass::Avis);
    crate::brand::law_known_brands_are_told_apart(BrandClass::Avio);
    if spells(brand, "avif") {
        assert(brand =~= brand_code(BrandClass::Avif));
    }
    if spells(brand, "avis") {
        assert(brand =~= brand_code(BrandClass::Avis));
    }
    if spells(brand, "avio") {
        assert(brand =~= brand_code(BrandClass::Avio));
    }
}

/// The MIAF brands are `mif1`, `mif2`, `MA1A`, `MA1B`, and those of HEIC and AVIF.
#[verifier::rlimit(40)]
pub proof fn law_miaf_family(brand: [u8; 4])
    ensures
        miaf_family(class_of(brand)) <==> spells(brand, "mif1") || spells(brand, "mif2") || spells(
            brand,
            "MA1A",
        ) || spells(brand, "MA1B") || heic_family(class_of(brand)) || avif_family(class_of(brand)),
{
    reveal_strlit("mif1");
    reveal_strlit("mif2");
    reveal_strlit("MA1A");
    reveal_strlit("MA1B");
    crate::brand::law_class_keeps_the_brand(brand);
    crate::brand::law_known_brands_are_told_apart(BrandClass::Mif1);
    crate::brand::law_known_brands_are_told_apart(BrandClass::Mif2);
    crate::brand::law_known_brands_are_told_apart(BrandClass::Ma1a);
    crate::brand::law_known_brands_are_told_apart(BrandClass::Ma1b);
    if spells(brand, "mif1") {
        assert(brand =~= brand_code(BrandClass::Mif1));
    }
    if spells(brand, "mif2") {
        assert(brand =~= brand_code(BrandClass::Mif2));
    }
    if spells(brand, "MA1A") {
        assert(brand =~= brand_code(BrandClass::Ma1a));
    }
    if spells(brand, "MA1B") {
        assert(brand =~= brand_code(BrandClass::Ma1b));
    }
}

/// Where the matrix of a turn by so many quarters, clockwise, takes the unit that points to
/// the right, as x and y, where y points down.
pub open spec fn right_goes_to(quarters: int) -> (int, int) {
    if quarters == 0 {
        (1, 0)
    } else if quarters == 1 {
        (0, 1)
    } else if quarters == 2 {
        (-1, 0)
    } else {
        (0, -1)
    }
}

/// How many quarters a rotation is.
pub open spec fn quarters(r: TrackRotation) -> int {
    match r {
        TrackRotation::Identity => 0,
        TrackRotation::Rotate90 => 1,
        TrackRotation::Rotate180 => 2,
        TrackRotation::Rotate270 => 3,
        TrackRotation::Other => -1,
    }
}

/// A matrix is a turn by quarters if and only if it takes the unit that points to the right
/// there, and the unit that points down one quarter further.
pub proof fn law_rotation_turns_by_quarters(a: int, b: int, c: int, d: int, q: int)
    requires
        0 <= q < 4,
    ensures
        quarters(rotation_of(a, b, c, d)) == q <==> {
            let right = right_goes_to(q);
            let down = right_goes_to((q + 1) % 4);
            &&& (a, b) == (right.0 * 0x1_0000, right.1 * 0x1_0000)
            &&& (c, d) == (down.0 * 0x1_0000, down.1 * 0x1_0000)
        },
{
}

#[verifier::rlimit(40)]
proof fn lemma_ones()
    ensures
        ones(4) == 1,
        ones(3) == 2,
        ones(51) == 4,
        ones(55) == 5,
        ones(311) == 6,
        ones(1847) == 8,
        ones(7) == 3,
        ones(263) == 4,
        ones(1543) == 5,
        ones(1551) == 6,
        ones(1807) == 7,
        ones(1743) == 8,
        ones(1599) == 8,
{
    assert(ones(4) == 1) by {
        reveal_with_fuel(ones, 12);
    }
    assert(ones(3) == 2) by {
        reveal_with_fuel(ones, 12);
    }
    assert(ones(51) == 4) by {
        reveal_with_fuel(ones, 12);
    }
    assert(ones(55) == 5) by {
        reveal_with_fuel(ones, 12);
    }
    assert(ones(311) == 6) by {
        reveal_with_fuel(ones, 12);
    }
    assert(ones(1847) == 8) by {
        reveal_with_fuel(ones, 12);
    }
    assert(ones(7) == 3) by {
        reveal_with_fuel(ones, 12);
    }
    assert(ones(263) == 4) by {
        reveal_with_fuel(ones, 12);
    }
    assert(ones(1543) == 5) by {
        reveal_with_fuel(ones, 12);
    }
    assert(ones(1551) == 6) by {
        reveal_with_fuel(ones, 12);
    }
    assert(ones(1807) == 7) by {
        reveal_with_fuel(ones, 12);
    }
    assert(ones(1743) == 8) by {
        reveal_with_fuel(ones, 12);
    }
    assert(ones(1599) == 8) by {
        reveal_with_fuel(ones, 12);
    }
}

/// The mask of a predefined layout has as many bits as the tag says channels.
#[verifier::rlimit(40)]
pub proof fn law_layout_has_its_channels(tag: u32)
    ensures
        layout_mask(tag) matches Some(m) ==> ones(m as nat) == tag % 0x1_0000,
{
    lemma_ones();
}

/// The first property of a kind is of that kind, it is one of the item, and none before it
/// is of that kind.
pub proof fn law_first_of_kind_is_the_first(p: ItemProperties, item_id: u32, kind: PropertyKind)
    ensures
        match p.first_of_kind(item_id, kind) {
            Some(x) => exists|k: int|
                #![trigger p.resolved(item_id)[k]]
                0 <= k < p.resolved(item_id).len() && x == p.resolved(item_id)[k] && kind_of(x)
                    == kind && forall|i: int|
                    0 <= i < k ==> kind_of(#[trigger] p.resolved(item_id)[i]) != kind,
            None => forall|i: int|
                0 <= i < p.resolved(item_id).len() ==> kind_of(#[trigger] p.resolved(item_id)[i])
                    != kind,
        },
{
    let all = p.resolved(item_id);
    let f = |i: int| kind_of(all[i]) == kind;
    lemma_first_index(all.len(), f);
    let k = first_index(all.len(), f);
    assert forall|i: int| 0 <= i < k implies kind_of(#[trigger] p.resolved(item_id)[i]) != kind by {
        assert(!f(i));
    }
    if k < all.len() {
        assert(f(k));
        assert(p.resolved(item_id)[k] == all[k]);
    }
}

/// Between two rows of the table the delay lies on the straight line between them, up to
/// less than one unit, on the side of the row with the lower rate.
pub proof fn law_delay_is_on_the_line(lo: PdinEntry, hi: PdinEntry, rate: u32)
    requires
        lo.rate <= rate < hi.rate,
    ensures
        ({
            let span = hi.rate - lo.rate;
            let exact = lo.initial_delay * span + (hi.initial_delay - lo.initial_delay) * (rate
                - lo.rate);
            let d = interpolated(lo, hi, rate) * span;
            &&& hi.initial_delay >= lo.initial_delay ==> d <= exact < d + span
            &&& hi.initial_delay < lo.initial_delay ==> d - span < exact <= d
        }),
{
    let span = hi.rate - lo.rate;
    let pos = rate - lo.rate;
    let l = lo.initial_delay as int;
    if hi.initial_delay >= lo.initial_delay {
        let x = (hi.initial_delay - lo.initial_delay) * pos;
        vstd::arithmetic::div_mod::lemma_fundamental_div_mod(x, span);
        vstd::arithmetic::div_mod::lemma_mod_bound(x, span);
        let q = x / span;
        assert((l + q) * span == l * span + span * q) by (nonlinear_arith);
    } else {
        let x = (lo.initial_delay - hi.initial_delay) * pos;
        vstd::arithmetic::div_mod::lemma_fundamental_div_mod(x, span);
        vstd::arithmetic::div_mod::lemma_mod_bound(x, span);
        let q = x / span;
        assert((l - q) * span == l * span - span * q) by (nonlinear_arith);
        let y = (hi.initial_delay - lo.initial_delay) * pos;
        assert(y == -x) by (nonlinear_arith)
            requires
                x == (lo.initial_delay - hi.initial_delay) * pos,
                y == (hi.initial_delay - lo.initial_delay) * pos,
        ;
    }
}

} // verus!
