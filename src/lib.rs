pub mod editor;
pub mod highlighting;
pub mod row;
pub mod filetype;
pub mod document;
