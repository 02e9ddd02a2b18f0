pub mod annotations;
pub mod autolink;
pub mod builder;
pub mod cmake;
pub mod comment;
pub mod config;
pub mod encode;
pub mod files;
pub mod html;
pub mod linker;
pub mod markdown;
pub mod nav;
pub mod strings;
pub mod symbol;
pub mod tutorial;
pub mod url_path;
