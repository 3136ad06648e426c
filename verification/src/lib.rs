//! Verified core of an office-document-to-PDF converter: the document
//! intermediate representation, word-processing run, paragraph, style,
//! numbering and section properties and the flow pages built from them,
//! header/footer parsing and formatting, heading and list numbering,
//! drawing-shape scanning, and Typst markup generation for text runs.

pub mod heading;
pub mod hf;
pub mod docx_props;
pub mod flow_page;
pub mod hf_docx;
pub mod ir;
pub mod lists;
pub mod sections;
pub mod shape;
pub mod nowrap;
pub mod numbering;
pub mod page;
pub mod paragraph;
pub mod style_map;
pub mod styles;
pub mod tabs;
pub mod text;
pub mod typst_text;
pub mod xml;
