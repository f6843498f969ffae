# nextboot_boot

The verified core of the NextBoot UEFI boot manager. Every function here is
checked by Verus against its `requires`/`ensures` contract; the firmware
calls themselves (block reads, protocol installation, console I/O) are left
to the program that links the library, which hands the results in as plain
values and carries out the actions the library decides on.

Layout of `src/`:

- `bytes`, `text`: little-endian fields and character helpers.
- `lzx`: the LZX decompressor used for WIM resources.
- `vdi`, `source_disk`: VDI headers and block maps; UEFI hard-drive device
  path nodes and the source volume they describe.
- `scanner`: image kinds, scan paths, MBR/GPT partition discovery (as a state
  machine fed one block at a time), raw-volume acceptance and directory entry
  classification.
- `ventoy`, `ventoy_config`: Ventoy-compatible OS parameter records and the
  `ventoy.json` plugin reader.
- `media_grow`: growing the release image's data partition (GPT, exFAT) to
  fill the medium.
- `boot`: boot candidates, load options, device-path parsing for load-file
  requests, virtual-disk mapping (files, dynamic VHD, VDI, VHDX), wimboot
  runtime files, and the records passed to booted systems.
- `ui`, `main_flow`, `firmware`: menu and plugin-choice decisions, the
  menu/boot/result session, and firmware vendor checks.

Public `lemma_*` proof functions state the properties that hold across
calls, such as reading back what was written, that a mapped range covers
exactly the bytes asked for, or that the partition scan always advances.
