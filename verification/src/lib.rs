//! Making DOL executables from ELF files, and linker scripts for the objects they come from.
pub mod ctors;
pub mod dol;
pub mod elf;
pub mod elf2dol;
pub mod elf2dol_laws;
pub mod lcf;
pub mod lcf_laws;
pub mod obj;
pub mod order;
pub mod path;
pub mod text;
