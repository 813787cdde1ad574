//! PatchFerret: console show files in, a console-neutral model out.

pub mod formats;
pub mod lex;
pub mod model;
pub mod report;
pub mod text;
pub mod web;
