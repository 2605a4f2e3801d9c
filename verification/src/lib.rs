pub mod datetime;
pub mod dirent;
pub mod fatx_scan;
pub mod ftp_plan;
pub mod god;
pub mod fuse_ops;
pub mod inode;
pub mod partition;
pub mod paths;
pub mod text;
pub mod xiso;
