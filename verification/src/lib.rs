//! kandown: a verified parser, serializer and in-memory board model for a
//! small markdown dialect describing kanban boards.

mod document;
pub mod grammar;
mod parser;
pub mod kanban;
mod kanban_ops;
pub mod kanban_mut;
pub mod kanban_query;
pub mod render;
pub mod text;
pub mod laws;
pub mod roundtrip;

pub use document::ColSortModel;
pub use document::ColumnSort;
pub use document::CardModel;
pub use document::DocModel;
pub use document::KanbanSortType;
pub use document::ParsedCard;
pub use document::ParsedDocument;
pub use document::ParsedProperty;
pub use document::ParsedPropertyType;
pub use document::ParsedPropertyValue;
pub use document::ParsedView;
pub use document::ParsedViewType;
pub use document::PropModel;
pub use document::PropTypeModel;
pub use document::PropValModel;
pub use document::ViewModel;

pub use parser::MarkdownError;
pub use parser::heading;
pub use parser::list_item;
pub use parser::parse_card;
pub use parser::parse_cards_section;
pub use parser::parse_document;
pub use parser::parse_property;
pub use parser::parse_view;

pub use kanban::Kanban;
pub use kanban::KanbanCard;
pub use kanban::KanbanError;
pub use kanban::KanbanProperty;
pub use kanban::KanbanPropertyType;
pub use kanban::KanbanView;
pub use kanban::KanbanViewType;
pub use kanban::BCardModel;
pub use kanban::BLayoutModel;
pub use kanban::BPropModel;
pub use kanban::BViewModel;
pub use kanban::BoardModel;
pub use kanban::KanbanErrModel;
pub use kanban::board_wf;
pub use kanban::build_board;
pub use kanban::build_err;

pub use grammar::ParseErrModel;
pub use grammar::parse_doc_spec;
pub use render::render_doc;
