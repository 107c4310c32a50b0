//! QuickTime and ISO base media files: reading their atoms, writing movies and image
//! items.
pub mod atom;
pub mod bitstream;
pub mod box_layout_laws;
pub mod brand;
pub mod bytes;
pub mod chan;
pub mod check_laws;
pub mod choice_laws;
pub mod class_laws;
pub mod cmov;
pub mod code_laws;
pub mod derivation_laws;
pub mod entry_laws;
pub mod entry_layout_laws;
pub mod error;
pub mod fourcc;
pub mod fragment_laws;
pub mod fragments;
pub mod group_laws;
pub mod header;
pub mod header_laws;
pub mod heif_file_laws;
pub mod heif_item;
pub mod heif_laws;
pub mod heif_layout;
pub mod heif_properties;
pub mod heif_write;
pub mod iprp;
pub mod iprp_read;
pub mod item_layout_laws;
pub mod key_value;
pub mod kind;
pub mod kind_laws;
pub mod layout_laws;
pub mod leva;
pub mod leva_laws;
pub mod matte;
pub mod media_meta;
pub mod meta_laws;
pub mod metadata_sample;
pub mod movie_header_laws;
pub mod movie_laws;
pub mod movie_walk;
pub mod mux_boxes;
pub mod mux_groups;
pub mod mux_layout;
pub mod mux_meta;
pub mod mux_tables;
pub mod mux_trak;
pub mod mux_types;
pub mod mux_valid;
pub mod muxer;
pub mod number_laws;
pub mod parts;
pub mod pdin;
pub mod pnot;
pub mod read_back;
pub mod rows;
pub mod runs;
pub mod sample_entry;
pub mod search;
pub mod slices;
pub mod table_laws;
pub mod text;
pub mod track_box_laws;
pub mod track_note_laws;
pub mod walk;

pub use header::{BrandClass, Ftyp, Hdlr, Mdhd, Mvhd, Tkhd, TrackRotation};
pub use heif_item::{Amve, LayerSelector, TransformChain, TransformOp};
pub use heif_write::{HeifDerivation, HeifItem, HeifItemReference, HeifProperty, HeifWriter};
pub use iprp::{
    parse_auxc_payload, parse_cclv_payload, parse_clli_payload, parse_colr_payload, parse_iprp,
    parse_mdcv_payload, AuxC, Cclv, Clli, ColrInfo, Imir, Irot, Ispe, ItemProperties, ItemProperty,
    ItemPropertyAssociation, Mdcv, Pixi, PixiInfo, PropertyAssociation,
};
pub use kind::{find_kinds_in_udta, parse_kind, KindEntry};
pub use leva::{parse_leva, AssignmentType, Leva, LevaLevel};
pub use matte::{parse_kmat, parse_matt, CompressedMatte, Matte, MIN_IMAGE_DESCRIPTION_SIZE};
pub use media_meta::{
    channel_mask_for_layout_tag, Chan, ChanDescription, Clap, ColorParameters, ColorParametersKind,
    Cslg, MetaKeyValue, Pasp, Tapt,
};
pub use muxer::{FragmentationMode, MovMuxer, MuxSample, MuxTrackKind};
pub use pdin::{parse_pdin, Pdin, PdinEntry};
pub use pnot::{parse_pnot, Pnot, MAC_TO_UNIX_EPOCH_SECONDS, PNOT_BODY_LEN};
