//! Catalogs of semantic field tags for MARC21 and UNIMARC.
pub mod added_entry;
pub mod control;
pub mod edition;
pub mod linking;
pub mod main_entry;
pub mod note;
pub mod physical;
pub mod series;
pub mod subject;
pub mod title;

pub use added_entry::AddedEntry;
pub use control::Control;
pub use edition::Edition;
pub use linking::Linking;
pub use main_entry::MainEntry;
pub use note::Note;
pub use physical::Physical;
pub use series::Series;
pub use subject::Subject;
pub use title::Title;
