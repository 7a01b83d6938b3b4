pub mod cli;
pub mod dates;
pub mod error;
pub mod glob;
pub mod paths;
pub mod progress;
pub mod sftp_downloader;
pub mod ssh_client;
pub mod text;

pub use cli::Args;
pub use error::AppError;
pub use progress::TransferStats;
pub use sftp_downloader::{DownloadOptions, DownloadTask};
pub use ssh_client::{AuthMethod, SshConfig};
