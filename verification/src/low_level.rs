//! The byte oriented API: an iterator over the sections of a file as they
//! appear, each of them a view into the input.
pub use crate::parser::parse_entry;
pub use crate::parser::AttrBytes;
pub use crate::parser::EntryIter;
pub use crate::parser::ParamBytes;
pub use crate::parser::SectionBytes;
