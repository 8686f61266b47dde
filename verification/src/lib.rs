//! A verified toolbox core: structural JSON analysis and diffing, JSON text
//! transforms, and the small pure decision rules of the surrounding desktop
//! tools. Parsing and rendering of JSON text are delegated to a JSON
//! library behind a narrow trusted boundary; everything else is proved.

pub mod analyze;
pub mod diff;
pub mod escape;
pub mod files;
pub mod format;
pub mod game;
pub mod jsontext;
pub mod pages;
pub mod paths;
pub mod pdf;
pub mod query;
pub mod strutil;
pub mod value;
