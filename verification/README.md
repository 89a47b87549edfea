# decomp_toolkit

Two tools for decompilation projects of GameCube and Wii games, as a verified library:

- making a DOL executable from a linked PowerPC ELF file, and patching its `.ctors` sections to
  match an original DOL;
- generating linker scripts, with the files of code sections in address order where the link order
  is another.

Layout:

- `src/dol.rs`, `src/ctors.rs`: the DOL format, and post-link patching of `.ctors`
- `src/elf.rs`, `src/elf2dol.rs`: what an ELF file says, and making a DOL from it
- `src/obj.rs`, `src/order.rs`, `src/path.rs`, `src/lcf.rs`: the object, unit order, unit paths, and
  linker scripts
- `src/text.rs`: text building blocks
- `src/elf2dol_laws.rs`, `src/lcf_laws.rs`: what holds of every DOL and of every script; the laws of
  a single module stand in that module
- `app/`: the command line interface, file access and logging
