//! Read-only access to FAT12 disk images held in memory: the boot sector,
//! the packed 12-bit allocation table, the root directory, and the cluster
//! chains that hold each file's bytes.

pub mod boot_sector;
pub mod bytes;
pub mod chain;
pub mod directory;
pub mod error;
pub mod extract;
pub mod fat;

pub use boot_sector::{read_boot_sector, BootSector, BOOT_SECTOR_SIZE};
pub use chain::read_entry_content;
pub use directory::{read_root_directory, Directory, DirectoryEntry};
pub use error::ReadError;
pub use extract::extract_file;
pub use fat::{read_fat, Fat, END_OF_CHAIN};
