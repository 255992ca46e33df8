//! The decisions of a downloader for Canvas courses: which addresses to ask
//! for, what to make of each answer, which files to fetch and where each of
//! them goes.

pub mod canvas;
pub mod containment;
pub mod courses;
pub mod download;
pub mod forking;
pub mod links;
pub mod list;
pub mod messages;
pub mod naming;
pub mod outside;
pub mod paging;
pub mod path;
pub mod plan;
pub mod process;
pub mod request;
pub mod runner;
pub mod screening;
pub mod text;
pub mod times;
pub mod work;
