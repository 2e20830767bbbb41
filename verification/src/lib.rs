pub mod access;
pub mod assets;
pub mod clipboard;
pub mod decision_laws;
pub mod directory_auth;
pub mod directory_laws;
pub mod directory_search;
pub mod exchange;
pub mod handle;
pub mod handle_laws;
pub mod items;
pub mod listing;
pub mod listing_laws;
pub mod outside;
pub mod pages;
pub mod password_cookie;
pub mod path_laws;
pub mod paths;
pub mod reply_laws;
pub mod request;
pub mod request_laws;
pub mod response;
pub mod send_file;
pub mod sending_laws;
pub mod server;
pub mod sorting;
pub mod string_map;
pub mod text;
pub mod text_laws;
pub mod transfer;
pub mod transfer_laws;
pub mod view_laws;
pub mod webdav;
