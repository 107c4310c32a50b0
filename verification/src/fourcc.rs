//! Four-byte codes that name atoms, brands, handlers and item types.
use vstd::prelude::*;

verus! {

/// `ftyp`
pub const FTYP: [u8; 4] = [0x66, 0x74, 0x79, 0x70];

/// `moov`
pub const MOOV: [u8; 4] = [0x6d, 0x6f, 0x6f, 0x76];

/// `mdat`
pub const MDAT: [u8; 4] = [0x6d, 0x64, 0x61, 0x74];

/// `meta`
pub const META: [u8; 4] = [0x6d, 0x65, 0x74, 0x61];

/// `hdlr`
pub const HDLR: [u8; 4] = [0x68, 0x64, 0x6c, 0x72];

/// `pitm`
pub const PITM: [u8; 4] = [0x70, 0x69, 0x74, 0x6d];

/// `iinf`
pub const IINF: [u8; 4] = [0x69, 0x69, 0x6e, 0x66];

/// `infe`
pub const INFE: [u8; 4] = [0x69, 0x6e, 0x66, 0x65];

/// `iref`
pub const IREF: [u8; 4] = [0x69, 0x72, 0x65, 0x66];

/// `iprp`
pub const IPRP: [u8; 4] = [0x69, 0x70, 0x72, 0x70];

/// `ipco`
pub const IPCO: [u8; 4] = [0x69, 0x70, 0x63, 0x6f];

/// `ipma`
pub const IPMA: [u8; 4] = [0x69, 0x70, 0x6d, 0x61];

/// `idat`
pub const IDAT: [u8; 4] = [0x69, 0x64, 0x61, 0x74];

/// `iloc`
pub const ILOC: [u8; 4] = [0x69, 0x6c, 0x6f, 0x63];

/// `pict`
pub const PICT: [u8; 4] = [0x70, 0x69, 0x63, 0x74];

/// `mvhd`
pub const MVHD: [u8; 4] = [0x6d, 0x76, 0x68, 0x64];

/// `trak`
pub const TRAK: [u8; 4] = [0x74, 0x72, 0x61, 0x6b];

/// `udta`
pub const UDTA: [u8; 4] = [0x75, 0x64, 0x74, 0x61];

/// `keys`
pub const KEYS: [u8; 4] = [0x6b, 0x65, 0x79, 0x73];

/// `ilst`
pub const ILST: [u8; 4] = [0x69, 0x6c, 0x73, 0x74];

/// `data`
pub const DATA: [u8; 4] = [0x64, 0x61, 0x74, 0x61];

/// `tkhd`
pub const TKHD: [u8; 4] = [0x74, 0x6b, 0x68, 0x64];

/// `tapt`
pub const TAPT: [u8; 4] = [0x74, 0x61, 0x70, 0x74];

/// `clef`
pub const CLEF: [u8; 4] = [0x63, 0x6c, 0x65, 0x66];

/// `prof`
pub const PROF: [u8; 4] = [0x70, 0x72, 0x6f, 0x66];

/// `enof`
pub const ENOF: [u8; 4] = [0x65, 0x6e, 0x6f, 0x66];

/// `load`
pub const LOAD: [u8; 4] = [0x6c, 0x6f, 0x61, 0x64];

/// `clip`
pub const CLIP: [u8; 4] = [0x63, 0x6c, 0x69, 0x70];

/// `matt`
pub const MATT: [u8; 4] = [0x6d, 0x61, 0x74, 0x74];

/// `kmat`
pub const KMAT: [u8; 4] = [0x6b, 0x6d, 0x61, 0x74];

/// `edts`
pub const EDTS: [u8; 4] = [0x65, 0x64, 0x74, 0x73];

/// `elst`
pub const ELST: [u8; 4] = [0x65, 0x6c, 0x73, 0x74];

/// `tref`
pub const TREF: [u8; 4] = [0x74, 0x72, 0x65, 0x66];

/// `trgr`
pub const TRGR: [u8; 4] = [0x74, 0x72, 0x67, 0x72];

/// `mdia`
pub const MDIA: [u8; 4] = [0x6d, 0x64, 0x69, 0x61];

/// `mdhd`
pub const MDHD: [u8; 4] = [0x6d, 0x64, 0x68, 0x64];

/// `elng`
pub const ELNG: [u8; 4] = [0x65, 0x6c, 0x6e, 0x67];

/// `minf`
pub const MINF: [u8; 4] = [0x6d, 0x69, 0x6e, 0x66];

/// `vmhd`
pub const VMHD: [u8; 4] = [0x76, 0x6d, 0x68, 0x64];

/// `smhd`
pub const SMHD: [u8; 4] = [0x73, 0x6d, 0x68, 0x64];

/// `gmhd`
pub const GMHD: [u8; 4] = [0x67, 0x6d, 0x68, 0x64];

/// `gmin`
pub const GMIN: [u8; 4] = [0x67, 0x6d, 0x69, 0x6e];

/// `tmcd`
pub const TMCD: [u8; 4] = [0x74, 0x6d, 0x63, 0x64];

/// `tcmi`
pub const TCMI: [u8; 4] = [0x74, 0x63, 0x6d, 0x69];

/// `text`
pub const TEXT: [u8; 4] = [0x74, 0x65, 0x78, 0x74];

/// `nmhd`
pub const NMHD: [u8; 4] = [0x6e, 0x6d, 0x68, 0x64];

/// `sthd`
pub const STHD: [u8; 4] = [0x73, 0x74, 0x68, 0x64];

/// `hmhd`
pub const HMHD: [u8; 4] = [0x68, 0x6d, 0x68, 0x64];

/// `dinf`
pub const DINF: [u8; 4] = [0x64, 0x69, 0x6e, 0x66];

/// `dref`
pub const DREF: [u8; 4] = [0x64, 0x72, 0x65, 0x66];

/// `stbl`
pub const STBL: [u8; 4] = [0x73, 0x74, 0x62, 0x6c];

/// `stsd`
pub const STSD: [u8; 4] = [0x73, 0x74, 0x73, 0x64];

/// `stts`
pub const STTS: [u8; 4] = [0x73, 0x74, 0x74, 0x73];

/// `ctts`
pub const CTTS: [u8; 4] = [0x63, 0x74, 0x74, 0x73];

/// `cslg`
pub const CSLG: [u8; 4] = [0x63, 0x73, 0x6c, 0x67];

/// `stss`
pub const STSS: [u8; 4] = [0x73, 0x74, 0x73, 0x73];

/// `stsc`
pub const STSC: [u8; 4] = [0x73, 0x74, 0x73, 0x63];

/// `stsz`
pub const STSZ: [u8; 4] = [0x73, 0x74, 0x73, 0x7a];

/// `stz2`
pub const STZ2: [u8; 4] = [0x73, 0x74, 0x7a, 0x32];

/// `stco`
pub const STCO: [u8; 4] = [0x73, 0x74, 0x63, 0x6f];

/// `co64`
pub const CO64: [u8; 4] = [0x63, 0x6f, 0x36, 0x34];

/// `sdtp`
pub const SDTP: [u8; 4] = [0x73, 0x64, 0x74, 0x70];

/// `stdp`
pub const STDP: [u8; 4] = [0x73, 0x74, 0x64, 0x70];

/// `padb`
pub const PADB: [u8; 4] = [0x70, 0x61, 0x64, 0x62];

/// `stsh`
pub const STSH: [u8; 4] = [0x73, 0x74, 0x73, 0x68];

/// `subs`
pub const SUBS: [u8; 4] = [0x73, 0x75, 0x62, 0x73];

/// `saiz`
pub const SAIZ: [u8; 4] = [0x73, 0x61, 0x69, 0x7a];

/// `saio`
pub const SAIO: [u8; 4] = [0x73, 0x61, 0x69, 0x6f];

/// `sgpd`
pub const SGPD: [u8; 4] = [0x73, 0x67, 0x70, 0x64];

/// `csgp`
pub const CSGP: [u8; 4] = [0x63, 0x73, 0x67, 0x70];

/// `sbgp`
pub const SBGP: [u8; 4] = [0x73, 0x62, 0x67, 0x70];

/// `srat`
pub const SRAT: [u8; 4] = [0x73, 0x72, 0x61, 0x74];

/// `chnl`
pub const CHNL: [u8; 4] = [0x63, 0x68, 0x6e, 0x6c];

/// `stxt`
pub const STXT: [u8; 4] = [0x73, 0x74, 0x78, 0x74];

/// `metx`
pub const METX: [u8; 4] = [0x6d, 0x65, 0x74, 0x78];

/// `mett`
pub const METT: [u8; 4] = [0x6d, 0x65, 0x74, 0x74];

/// `urim`
pub const URIM: [u8; 4] = [0x75, 0x72, 0x69, 0x6d];

/// `stpp`
pub const STPP: [u8; 4] = [0x73, 0x74, 0x70, 0x70];

/// `sbtt`
pub const SBTT: [u8; 4] = [0x73, 0x62, 0x74, 0x74];

/// `btrt`
pub const BTRT: [u8; 4] = [0x62, 0x74, 0x72, 0x74];

/// `txtC`
pub const TXTC: [u8; 4] = [0x74, 0x78, 0x74, 0x43];

/// `kind`
pub const KIND: [u8; 4] = [0x6b, 0x69, 0x6e, 0x64];

/// `tsel`
pub const TSEL: [u8; 4] = [0x74, 0x73, 0x65, 0x6c];

/// `cmov`
pub const CMOV: [u8; 4] = [0x63, 0x6d, 0x6f, 0x76];

/// `dcom`
pub const DCOM: [u8; 4] = [0x64, 0x63, 0x6f, 0x6d];

/// `cmvd`
pub const CMVD: [u8; 4] = [0x63, 0x6d, 0x76, 0x64];

/// `zlib`
pub const ZLIB: [u8; 4] = [0x7a, 0x6c, 0x69, 0x62];

/// `moof`
pub const MOOF: [u8; 4] = [0x6d, 0x6f, 0x6f, 0x66];

/// `mfhd`
pub const MFHD: [u8; 4] = [0x6d, 0x66, 0x68, 0x64];

/// `traf`
pub const TRAF: [u8; 4] = [0x74, 0x72, 0x61, 0x66];

/// `tfhd`
pub const TFHD: [u8; 4] = [0x74, 0x66, 0x68, 0x64];

/// `trun`
pub const TRUN: [u8; 4] = [0x74, 0x72, 0x75, 0x6e];

/// `mvex`
pub const MVEX: [u8; 4] = [0x6d, 0x76, 0x65, 0x78];

/// `trex`
pub const TREX: [u8; 4] = [0x74, 0x72, 0x65, 0x78];

/// `mdta`
pub const MDTA: [u8; 4] = [0x6d, 0x64, 0x74, 0x61];

/// `vide`
pub const VIDE: [u8; 4] = [0x76, 0x69, 0x64, 0x65];

/// `soun`
pub const SOUN: [u8; 4] = [0x73, 0x6f, 0x75, 0x6e];

/// `subt`
pub const SUBT: [u8; 4] = [0x73, 0x75, 0x62, 0x74];

/// `hint`
pub const HINT: [u8; 4] = [0x68, 0x69, 0x6e, 0x74];

/// `mhlr`
pub const MHLR: [u8; 4] = [0x6d, 0x68, 0x6c, 0x72];

/// `chap`
pub const CHAP: [u8; 4] = [0x63, 0x68, 0x61, 0x70];

/// `colr`
pub const COLR: [u8; 4] = [0x63, 0x6f, 0x6c, 0x72];

/// `pasp`
pub const PASP: [u8; 4] = [0x70, 0x61, 0x73, 0x70];

/// `clap`
pub const CLAP: [u8; 4] = [0x63, 0x6c, 0x61, 0x70];

/// `fiel`
pub const FIEL: [u8; 4] = [0x66, 0x69, 0x65, 0x6c];

/// `gama`
pub const GAMA: [u8; 4] = [0x67, 0x61, 0x6d, 0x61];

/// `nclc`
pub const NCLC: [u8; 4] = [0x6e, 0x63, 0x6c, 0x63];

/// `nclx`
pub const NCLX: [u8; 4] = [0x6e, 0x63, 0x6c, 0x78];

/// `rICC`
pub const RICC: [u8; 4] = [0x72, 0x49, 0x43, 0x43];

/// `ispe`
pub const ISPE: [u8; 4] = [0x69, 0x73, 0x70, 0x65];

/// `pixi`
pub const PIXI: [u8; 4] = [0x70, 0x69, 0x78, 0x69];

/// `irot`
pub const IROT: [u8; 4] = [0x69, 0x72, 0x6f, 0x74];

/// `imir`
pub const IMIR: [u8; 4] = [0x69, 0x6d, 0x69, 0x72];

/// `auxC`
pub const AUXC: [u8; 4] = [0x61, 0x75, 0x78, 0x43];

/// `clli`
pub const CLLI: [u8; 4] = [0x63, 0x6c, 0x6c, 0x69];

/// `mdcv`
pub const MDCV: [u8; 4] = [0x6d, 0x64, 0x63, 0x76];

/// `cclv`
pub const CCLV: [u8; 4] = [0x63, 0x63, 0x6c, 0x76];

/// `amve`
pub const AMVE: [u8; 4] = [0x61, 0x6d, 0x76, 0x65];

/// `lsel`
pub const LSEL: [u8; 4] = [0x6c, 0x73, 0x65, 0x6c];

/// `grid`
pub const GRID: [u8; 4] = [0x67, 0x72, 0x69, 0x64];

/// `iovl`
pub const IOVL: [u8; 4] = [0x69, 0x6f, 0x76, 0x6c];

/// `iden`
pub const IDEN: [u8; 4] = [0x69, 0x64, 0x65, 0x6e];

/// `isom`
pub const ISOM: [u8; 4] = [0x69, 0x73, 0x6f, 0x6d];

/// `iso5`
pub const ISO5: [u8; 4] = [0x69, 0x73, 0x6f, 0x35];

/// `mp42`
pub const MP42: [u8; 4] = [0x6d, 0x70, 0x34, 0x32];

/// `dash`
pub const DASH: [u8; 4] = [0x64, 0x61, 0x73, 0x68];

/// `msdh`
pub const MSDH: [u8; 4] = [0x6d, 0x73, 0x64, 0x68];

/// `mif1`
pub const MIF1: [u8; 4] = [0x6d, 0x69, 0x66, 0x31];

/// `heic`
pub const HEIC: [u8; 4] = [0x68, 0x65, 0x69, 0x63];

/// `url `
pub const URL: [u8; 4] = [0x75, 0x72, 0x6c, 0x20];

/// `urn `
pub const URN: [u8; 4] = [0x75, 0x72, 0x6e, 0x20];

/// `qt  `
pub const QT: [u8; 4] = [0x71, 0x74, 0x20, 0x20];

/// `uri `
pub const URI: [u8; 4] = [0x75, 0x72, 0x69, 0x20];

/// `uriI`
pub const URI_INIT: [u8; 4] = [0x75, 0x72, 0x69, 0x49];

/// `dimg`
pub const DIMG: [u8; 4] = [0x64, 0x69, 0x6d, 0x67];

/// `tmap`
pub const TMAP: [u8; 4] = [0x74, 0x6d, 0x61, 0x70];

/// `heim`
pub const HEIM: [u8; 4] = [0x68, 0x65, 0x69, 0x6d];

/// `heis`
pub const HEIS: [u8; 4] = [0x68, 0x65, 0x69, 0x73];

/// `hvcC`
pub const HVCC: [u8; 4] = [0x68, 0x76, 0x63, 0x43];

/// `av1C`
pub const AV1C: [u8; 4] = [0x61, 0x76, 0x31, 0x43];

/// `avcC`
pub const AVCC: [u8; 4] = [0x61, 0x76, 0x63, 0x43];

/// `mskC`
pub const MSKC: [u8; 4] = [0x6d, 0x73, 0x6b, 0x43];

/// `heix`
pub const HEIX: [u8; 4] = [0x68, 0x65, 0x69, 0x78];

/// `hevc`
pub const HEVC: [u8; 4] = [0x68, 0x65, 0x76, 0x63];

/// `hevx`
pub const HEVX: [u8; 4] = [0x68, 0x65, 0x76, 0x78];

/// `avif`
pub const AVIF: [u8; 4] = [0x61, 0x76, 0x69, 0x66];

/// `avis`
pub const AVIS: [u8; 4] = [0x61, 0x76, 0x69, 0x73];

/// `avio`
pub const AVIO: [u8; 4] = [0x61, 0x76, 0x69, 0x6f];

/// `mif2`
pub const MIF2: [u8; 4] = [0x6d, 0x69, 0x66, 0x32];

/// `msf1`
pub const MSF1: [u8; 4] = [0x6d, 0x73, 0x66, 0x31];

/// `MA1A`
pub const MA1A: [u8; 4] = [0x4d, 0x41, 0x31, 0x41];

/// `MA1B`
pub const MA1B: [u8; 4] = [0x4d, 0x41, 0x31, 0x42];

/// `mp41`
pub const MP41: [u8; 4] = [0x6d, 0x70, 0x34, 0x31];

/// `iso2`
pub const ISO2: [u8; 4] = [0x69, 0x73, 0x6f, 0x32];

/// `iso3`
pub const ISO3: [u8; 4] = [0x69, 0x73, 0x6f, 0x33];

/// `iso4`
pub const ISO4: [u8; 4] = [0x69, 0x73, 0x6f, 0x34];

/// `iso6`
pub const ISO6: [u8; 4] = [0x69, 0x73, 0x6f, 0x36];

/// `iso7`
pub const ISO7: [u8; 4] = [0x69, 0x73, 0x6f, 0x37];

/// `iso8`
pub const ISO8: [u8; 4] = [0x69, 0x73, 0x6f, 0x38];

/// `iso9`
pub const ISO9: [u8; 4] = [0x69, 0x73, 0x6f, 0x39];

/// `sbtl`
pub const SBTL: [u8; 4] = [0x73, 0x62, 0x74, 0x6c];

} // verus!
