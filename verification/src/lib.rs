//! Catalogs and fetches files from FTP servers: the hosts that URLs name, the commands to send
//! them, and what their replies say about files.
pub mod error;
pub mod facts;
pub mod fetch;
pub mod group;
pub mod iri;
pub mod list_line;
pub mod listing;
pub mod metadata;
pub mod mlsx;
pub mod order;
pub mod output;
pub mod target;
pub mod target_map;
pub mod text;
pub mod time;

pub use error::{Error, FtpFailure};
pub use fetch::{File, HostUrl};
pub use group::group_targets;
pub use listing::{list, AfterMlst, DirectoryListing, Listing, PlainListing};
pub use metadata::{FileMetadata, FileType};
pub use target::{TargetHost, UrlError};
pub use target_map::TargetMap;
