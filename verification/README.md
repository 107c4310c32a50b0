# oxideav_mov

A library for QuickTime and ISO base media files, written and proved in Verus.

- Readers: file types and headers (`header`, `brand`), sample entries of metadata
  and subtitles (`metadata_sample`), media metadata (`media_meta`, `chan`,
  `key_value`), item properties (`iprp`, `iprp_read`), and the atoms `kind`, `leva`,
  `matt`, `pdin` and `pnot`.
- The muxer (`muxer`) holds tracks and what is attached to them, and writes a plain
  file (`mux_layout`, `mux_trak`, `mux_boxes`, `mux_tables`, `mux_groups`, `mux_meta`)
  or a fragmented one (`slices`, `fragments`). The movie resource of a plain file may
  be compressed (`cmov`).
- The writer of image items (`heif_write`, `heif_layout`, `heif_properties`,
  `heif_item`).

The contract of each function says which bytes it reads or writes. The public proof
functions whose names start with `law_` say what holds of several functions
together: what is written is read back, every sample stands where the tables say,
and the fragments hold every sample once.

`app/` writes to and reads from streams.
