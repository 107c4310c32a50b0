//! The four-byte codes spell their names.
use crate::fourcc::{
    AMVE, AUXC, AV1C, AVCC, AVIF, AVIO, AVIS, BTRT, CCLV, CHAP, CHNL, CLAP, CLEF, CLIP, CLLI, CMOV,
    CMVD, CO64, COLR, CSGP, CSLG, CTTS, DASH, DATA, DCOM, DIMG, DINF, DREF, EDTS, ELNG, ELST, ENOF,
    FIEL, FTYP, GAMA, GMHD, GMIN, GRID, HDLR, HEIC, HEIM, HEIS, HEIX, HEVC, HEVX, HINT, HMHD, HVCC,
    IDAT, IDEN, IINF, ILOC, ILST, IMIR, INFE, IOVL, IPCO, IPMA, IPRP, IREF, IROT, ISO2, ISO3, ISO4,
    ISO5, ISO6, ISO7, ISO8, ISO9, ISOM, ISPE, KEYS, KIND, KMAT, LOAD, LSEL, MA1A, MA1B, MATT, MDAT,
    MDCV, MDHD, MDIA, MDTA, META, METT, METX, MFHD, MHLR, MIF1, MIF2, MINF, MOOF, MOOV, MP41, MP42,
    MSDH, MSF1, MSKC, MVEX, MVHD, NCLC, NCLX, NMHD, PADB, PASP, PICT, PITM, PIXI, PROF, QT, RICC,
    SAIO, SAIZ, SBGP, SBTL, SBTT, SDTP, SGPD, SMHD, SOUN, SRAT, STBL, STCO, STDP, STHD, STPP, STSC,
    STSD, STSH, STSS, STSZ, STTS, STXT, STZ2, SUBS, SUBT, TAPT, TCMI, TEXT, TFHD, TKHD, TMAP, TMCD,
    TRAF, TRAK, TREF, TREX, TRGR, TRUN, TSEL, TXTC, UDTA, URI, URIM, URI_INIT, URL, URN, VIDE, VMHD,
    ZLIB,
};
use vstd::prelude::*;

verus! {

/// The bytes of a code are the letters of a name.
pub open spec fn spells(code: [u8; 4], name: &str) -> bool {
    &&& name@.len() == 4
    &&& code@[0] == name@[0] as u32
    &&& code@[1] == name@[1] as u32
    &&& code@[2] == name@[2] as u32
    &&& code@[3] == name@[3] as u32
}

/// The codes from `ftyp` to `ilst` spell their names.
pub proof fn law_codes_from_ftyp_spell_their_names()
    ensures
        spells(FTYP, "ftyp"),
        spells(MOOV, "moov"),
        spells(MDAT, "mdat"),
        spells(META, "meta"),
        spells(HDLR, "hdlr"),
        spells(PITM, "pitm"),
        spells(IINF, "iinf"),
        spells(INFE, "infe"),
        spells(IREF, "iref"),
        spells(IPRP, "iprp"),
        spells(IPCO, "ipco"),
        spells(IPMA, "ipma"),
        spells(IDAT, "idat"),
        spells(ILOC, "iloc"),
        spells(PICT, "pict"),
        spells(MVHD, "mvhd"),
        spells(TRAK, "trak"),
        spells(UDTA, "udta"),
        spells(KEYS, "keys"),
        spells(ILST, "ilst"),
{
    reveal_strlit("ftyp");
    reveal_strlit("moov");
    reveal_strlit("mdat");
    reveal_strlit("meta");
    reveal_strlit("hdlr");
    reveal_strlit("pitm");
    reveal_strlit("iinf");
    reveal_strlit("infe");
    reveal_strlit("iref");
    reveal_strlit("iprp");
    reveal_strlit("ipco");
    reveal_strlit("ipma");
    reveal_strlit("idat");
    reveal_strlit("iloc");
    reveal_strlit("pict");
    reveal_strlit("mvhd");
    reveal_strlit("trak");
    reveal_strlit("udta");
    reveal_strlit("keys");
    reveal_strlit("ilst");
}

/// The codes from `data` to `smhd` spell their names.
pub proof fn law_codes_from_data_spell_their_names()
    ensures
        spells(DATA, "data"),
        spells(TKHD, "tkhd"),
        spells(TAPT, "tapt"),
        spells(CLEF, "clef"),
        spells(PROF, "prof"),
        spells(ENOF, "enof"),
        spells(LOAD, "load"),
        spells(CLIP, "clip"),
        spells(MATT, "matt"),
        spells(KMAT, "kmat"),
        spells(EDTS, "edts"),
        spells(ELST, "elst"),
        spells(TREF, "tref"),
        spells(TRGR, "trgr"),
        spells(MDIA, "mdia"),
        spells(MDHD, "mdhd"),
        spells(ELNG, "elng"),
        spells(MINF, "minf"),
        spells(VMHD, "vmhd"),
        spells(SMHD, "smhd"),
{
    reveal_strlit("data");
    reveal_strlit("tkhd");
    reveal_strlit("tapt");
    reveal_strlit("clef");
    reveal_strlit("prof");
    reveal_strlit("enof");
    reveal_strlit("load");
    reveal_strlit("clip");
    reveal_strlit("matt");
    reveal_strlit("kmat");
    reveal_strlit("edts");
    reveal_strlit("elst");
    reveal_strlit("tref");
    reveal_strlit("trgr");
    reveal_strlit("mdia");
    reveal_strlit("mdhd");
    reveal_strlit("elng");
    reveal_strlit("minf");
    reveal_strlit("vmhd");
    reveal_strlit("smhd");
}

/// The codes from `gmhd` to `stco` spell their names.
pub proof fn law_codes_from_gmhd_spell_their_names()
    ensures
        spells(GMHD, "gmhd"),
        spells(GMIN, "gmin"),
        spells(TMCD, "tmcd"),
        spells(TCMI, "tcmi"),
        spells(TEXT, "text"),
        spells(NMHD, "nmhd"),
        spells(STHD, "sthd"),
        spells(HMHD, "hmhd"),
        spells(DINF, "dinf"),
        spells(DREF, "dref"),
        spells(STBL, "stbl"),
        spells(STSD, "stsd"),
        spells(STTS, "stts"),
        spells(CTTS, "ctts"),
        spells(CSLG, "cslg"),
        spells(STSS, "stss"),
        spells(STSC, "stsc"),
        spells(STSZ, "stsz"),
        spells(STZ2, "stz2"),
        spells(STCO, "stco"),
{
    reveal_strlit("gmhd");
    reveal_strlit("gmin");
    reveal_strlit("tmcd");
    reveal_strlit("tcmi");
    reveal_strlit("text");
    reveal_strlit("nmhd");
    reveal_strlit("sthd");
    reveal_strlit("hmhd");
    reveal_strlit("dinf");
    reveal_strlit("dref");
    reveal_strlit("stbl");
    reveal_strlit("stsd");
    reveal_strlit("stts");
    reveal_strlit("ctts");
    reveal_strlit("cslg");
    reveal_strlit("stss");
    reveal_strlit("stsc");
    reveal_strlit("stsz");
    reveal_strlit("stz2");
    reveal_strlit("stco");
}

/// The codes from `co64` to `btrt` spell their names.
pub proof fn law_codes_from_co64_spell_their_names()
    ensures
        spells(CO64, "co64"),
        spells(SDTP, "sdtp"),
        spells(STDP, "stdp"),
        spells(PADB, "padb"),
        spells(STSH, "stsh"),
        spells(SUBS, "subs"),
        spells(SAIZ, "saiz"),
        spells(SAIO, "saio"),
        spells(SGPD, "sgpd"),
        spells(CSGP, "csgp"),
        spells(SBGP, "sbgp"),
        spells(SRAT, "srat"),
        spells(CHNL, "chnl"),
        spells(STXT, "stxt"),
        spells(METX, "metx"),
        spells(METT, "mett"),
        spells(URIM, "urim"),
        spells(STPP, "stpp"),
        spells(SBTT, "sbtt"),
        spells(BTRT, "btrt"),
{
    reveal_strlit("co64");
    reveal_strlit("sdtp");
    reveal_strlit("stdp");
    reveal_strlit("padb");
    reveal_strlit("stsh");
    reveal_strlit("subs");
    reveal_strlit("saiz");
    reveal_strlit("saio");
    reveal_strlit("sgpd");
    reveal_strlit("csgp");
    reveal_strlit("sbgp");
    reveal_strlit("srat");
    reveal_strlit("chnl");
    reveal_strlit("stxt");
    reveal_strlit("metx");
    reveal_strlit("mett");
    reveal_strlit("urim");
    reveal_strlit("stpp");
    reveal_strlit("sbtt");
    reveal_strlit("btrt");
}

/// The codes from `txtC` to `mhlr` spell their names.
pub proof fn law_codes_from_txtc_spell_their_names()
    ensures
        spells(TXTC, "txtC"),
        spells(KIND, "kind"),
        spells(TSEL, "tsel"),
        spells(CMOV, "cmov"),
        spells(DCOM, "dcom"),
        spells(CMVD, "cmvd"),
        spells(ZLIB, "zlib"),
        spells(MOOF, "moof"),
        spells(MFHD, "mfhd"),
        spells(TRAF, "traf"),
        spells(TFHD, "tfhd"),
        spells(TRUN, "trun"),
        spells(MVEX, "mvex"),
        spells(TREX, "trex"),
        spells(MDTA, "mdta"),
        spells(VIDE, "vide"),
        spells(SOUN, "soun"),
        spells(SUBT, "subt"),
        spells(HINT, "hint"),
        spells(MHLR, "mhlr"),
{
    reveal_strlit("txtC");
    reveal_strlit("kind");
    reveal_strlit("tsel");
    reveal_strlit("cmov");
    reveal_strlit("dcom");
    reveal_strlit("cmvd");
    reveal_strlit("zlib");
    reveal_strlit("moof");
    reveal_strlit("mfhd");
    reveal_strlit("traf");
    reveal_strlit("tfhd");
    reveal_strlit("trun");
    reveal_strlit("mvex");
    reveal_strlit("trex");
    reveal_strlit("mdta");
    reveal_strlit("vide");
    reveal_strlit("soun");
    reveal_strlit("subt");
    reveal_strlit("hint");
    reveal_strlit("mhlr");
}

/// The codes from `chap` to `grid` spell their names.
pub proof fn law_codes_from_chap_spell_their_names()
    ensures
        spells(CHAP, "chap"),
        spells(COLR, "colr"),
        spells(PASP, "pasp"),
        spells(CLAP, "clap"),
        spells(FIEL, "fiel"),
        spells(GAMA, "gama"),
        spells(NCLC, "nclc"),
        spells(NCLX, "nclx"),
        spells(RICC, "rICC"),
        spells(ISPE, "ispe"),
        spells(PIXI, "pixi"),
        spells(IROT, "irot"),
        spells(IMIR, "imir"),
        spells(AUXC, "auxC"),
        spells(CLLI, "clli"),
        spells(MDCV, "mdcv"),
        spells(CCLV, "cclv"),
        spells(AMVE, "amve"),
        spells(LSEL, "lsel"),
        spells(GRID, "grid"),
{
    reveal_strlit("chap");
    reveal_strlit("colr");
    reveal_strlit("pasp");
    reveal_strlit("clap");
    reveal_strlit("fiel");
    reveal_strlit("gama");
    reveal_strlit("nclc");
    reveal_strlit("nclx");
    reveal_strlit("rICC");
    reveal_strlit("ispe");
    reveal_strlit("pixi");
    reveal_strlit("irot");
    reveal_strlit("imir");
    reveal_strlit("auxC");
    reveal_strlit("clli");
    reveal_strlit("mdcv");
    reveal_strlit("cclv");
    reveal_strlit("amve");
    reveal_strlit("lsel");
    reveal_strlit("grid");
}

/// The codes from `iovl` to `av1C` spell their names.
pub proof fn law_codes_from_iovl_spell_their_names()
    ensures
        spells(IOVL, "iovl"),
        spells(IDEN, "iden"),
        spells(ISOM, "isom"),
        spells(ISO5, "iso5"),
        spells(MP42, "mp42"),
        spells(DASH, "dash"),
        spells(MSDH, "msdh"),
        spells(MIF1, "mif1"),
        spells(HEIC, "heic"),
        spells(URL, "url "),
        spells(URN, "urn "),
        spells(QT, "qt  "),
        spells(URI, "uri "),
        spells(URI_INIT, "uriI"),
        spells(DIMG, "dimg"),
        spells(TMAP, "tmap"),
        spells(HEIM, "heim"),
        spells(HEIS, "heis"),
        spells(HVCC, "hvcC"),
        spells(AV1C, "av1C"),
{
    reveal_strlit("iovl");
    reveal_strlit("iden");
    reveal_strlit("isom");
    reveal_strlit("iso5");
    reveal_strlit("mp42");
    reveal_strlit("dash");
    reveal_strlit("msdh");
    reveal_strlit("mif1");
    reveal_strlit("heic");
    reveal_strlit("url ");
    reveal_strlit("urn ");
    reveal_strlit("qt  ");
    reveal_strlit("uri ");
    reveal_strlit("uriI");
    reveal_strlit("dimg");
    reveal_strlit("tmap");
    reveal_strlit("heim");
    reveal_strlit("heis");
    reveal_strlit("hvcC");
    reveal_strlit("av1C");
}

/// The codes from `avcC` to `iso9` spell their names.
pub proof fn law_codes_from_avcc_spell_their_names()
    ensures
        spells(AVCC, "avcC"),
        spells(MSKC, "mskC"),
        spells(HEIX, "heix"),
        spells(HEVC, "hevc"),
        spells(HEVX, "hevx"),
        spells(AVIF, "avif"),
        spells(AVIS, "avis"),
        spells(AVIO, "avio"),
        spells(MIF2, "mif2"),
        spells(MSF1, "msf1"),
        spells(MA1A, "MA1A"),
        spells(MA1B, "MA1B"),
        spells(MP41, "mp41"),
        spells(ISO2, "iso2"),
        spells(ISO3, "iso3"),
        spells(ISO4, "iso4"),
        spells(ISO6, "iso6"),
        spells(ISO7, "iso7"),
        spells(ISO8, "iso8"),
        spells(ISO9, "iso9"),
{
    reveal_strlit("avcC");
    reveal_strlit("mskC");
    reveal_strlit("heix");
    reveal_strlit("hevc");
    reveal_strlit("hevx");
    reveal_strlit("avif");
    reveal_strlit("avis");
    reveal_strlit("avio");
    reveal_strlit("mif2");
    reveal_strlit("msf1");
    reveal_strlit("MA1A");
    reveal_strlit("MA1B");
    reveal_strlit("mp41");
    reveal_strlit("iso2");
    reveal_strlit("iso3");
    reveal_strlit("iso4");
    reveal_strlit("iso6");
    reveal_strlit("iso7");
    reveal_strlit("iso8");
    reveal_strlit("iso9");
}

/// The codes from `sbtl` to `sbtl` spell their names.
pub proof fn law_codes_from_sbtl_spell_their_names()
    ensures
        spells(SBTL, "sbtl"),
{
    reveal_strlit("sbtl");
}

} // verus!
