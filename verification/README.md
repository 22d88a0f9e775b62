# onesaves

Retro console saves, verified: memory card filesystems (Dreamcast VMU, GameCube, Nintendo 64
Controller Pak, Neo Geo), the clock footers emulators append to cartridge saves, ROM headers and
digests, DAT catalogs, the registries a save container names systems, cores and producers
from, and the rules of a terminal card explorer (what is selected, what a key asks, what an
answer leads to). Every function in `src/` carries a contract that Verus proves; the calls into outside
crates (hashes, PNG, ZIP, Shift-JIS, DAT parsing, terminal cell widths) sit behind small trusted
wrappers whose contracts say what the outside code does.

Layout:

- `src/` — the library, one module per format or concern. Card readers and their writers
  (`vmu`, `gc`, `n64`, `neogeo`, each with a `writer` submodule) prove that what a writer lays
  out reads back as what it was given.
- `tests/` — tests run against the compiled library, with the real outside crates linked.
- `app/` — the `1saves` command line: file access, argument handling and printing.

The save container format itself — the bundle a save, its parts and its header are written into,
and the CBOR it is encoded in — is not part of this crate. What goes into a bundle is: the save
memory with its clock split off (`raw::wrap_payload`), the clock and its reading (`rtc`), a card's
saves, labels and icons (`card`, `label`, `icon`), and the game a ROM and a catalog identify
(`rom`, `dat`). So `app/` reads and rewrites cards, identifies ROMs and lists profiles, and has no
`convert` or `extract`.
