//! Verified core of the otopoiesis audio programming environment: the
//! expression language (storage, scoping, type inference, evaluation and the
//! built-in region functions) together with the plain data of the application.

pub mod store;
pub mod lang;
pub mod action;
pub mod data;
pub mod cli;
pub mod audio;
pub mod filemanager;
