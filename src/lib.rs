//! Conversion of HTTP header values from and to their text form: header-name
//! normalisation, tokens and quoted-strings, comma-separated lists and
//! parameter lists.

pub mod list;
pub mod name;
pub mod params;
mod text;
pub mod token;
