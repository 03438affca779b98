//! A terminal viewer for HTTP archive (HAR) files: text layout, rich text,
//! syntax colouring, tables and the widgets built from them.

pub mod color;
pub mod text;
pub mod rect;
pub mod event;
pub mod style;
pub mod char_width;
pub mod ansi;
pub mod parse_error;
pub mod rich_text;
pub mod rich_parse;
pub mod rich_layout;
pub mod wrap;
pub mod plain_text;
pub mod mime_types;
pub mod styles;
pub mod colorize;
pub mod colorize_sgml;
pub mod widget;
pub mod table;
pub mod property_list;
pub mod message;
pub mod input;
pub mod rich_text_view;
pub mod draw;
pub mod widget_draw;
pub mod fields;
pub mod schema;
pub mod rich_wrap;
pub mod request_view;
pub mod tabs;
pub mod describe;
pub mod plain_wrap;
pub mod text_editor;
pub mod viewer;
