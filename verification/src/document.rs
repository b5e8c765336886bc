use vstd::prelude::*;

verus! {

// ---------------------------------------------------------------------------
// Flat document entities: the result of parsing, before any cross-linking.
//
// Each executable type has a mathematical model (`...Model`) built from
// `Seq<char>`, `int` and the like; contracts throughout the crate speak of
// these models through the `View` impls below.
// ---------------------------------------------------------------------------

/// Layout of a view.
#[derive(Debug, Clone, Copy, PartialEq, Eq, Structural)]
pub enum ParsedViewType {
    Board,
    Table,
    Calendar,
    Timeline,
}

/// Sort discipline of a view.  `Unsorted` leaves cards in insertion order.
#[derive(Debug, Clone, Copy, PartialEq, Eq, Structural)]
pub enum KanbanSortType {
    Alpha,
    ReverseAlpha,
    Manual,
    Unsorted,
}

/// Type of a property; `Select` carries its ordered option strings.
#[derive(Debug, Clone, PartialEq)]
pub enum ParsedPropertyType {
    Text,
    Select { options: Vec<String> },
    Number,
    Date,
    Checkbox,
}

/// A declared property: a name and a type.
#[derive(Debug, Clone, PartialEq)]
pub struct ParsedProperty {
    pub name: String,
    pub property_type: ParsedPropertyType,
}

/// One `name: value` pair on a card, referencing a property by name.
#[derive(Debug, Clone, PartialEq)]
pub struct ParsedPropertyValue {
    pub property_name: String,
    pub value: String,
}

/// A card: position-assigned id, title, free-text description, value pairs.
#[derive(Debug, Clone, PartialEq)]
pub struct ParsedCard {
    pub id: usize,
    pub title: String,
    pub description: String,
    pub properties: Vec<ParsedPropertyValue>,
}

/// A manual sort order for one group value: the card ids in order.
#[derive(Debug, Clone, PartialEq)]
pub struct ColumnSort {
    pub column: String,
    pub order: Vec<usize>,
}

/// A view definition, all references still by name.
#[derive(Debug, Clone, PartialEq)]
pub struct ParsedView {
    pub name: String,
    pub layout: ParsedViewType,
    pub group: Option<String>,
    pub filter: Option<String>,
    pub sort_by: Option<String>,
    pub sort_type: KanbanSortType,
    pub column_sorts: Vec<ColumnSort>,
    pub display: Option<String>,
}

/// The flat parse result: properties, cards and views in document order.
#[derive(Debug, Clone, PartialEq)]
pub struct ParsedDocument {
    pub properties: Vec<ParsedProperty>,
    pub cards: Vec<ParsedCard>,
    pub views: Vec<ParsedView>,
}

// ---------------------------------------------------------------------------
// Mathematical models
// ---------------------------------------------------------------------------

#[verifier::ext_equal]
pub enum PropTypeModel {
    Text,
    Select { options: Seq<Seq<char>> },
    Number,
    Date,
    Checkbox,
}

#[verifier::ext_equal]
pub struct PropModel {
    pub name: Seq<char>,
    pub typ: PropTypeModel,
}

#[verifier::ext_equal]
pub struct PropValModel {
    pub property_name: Seq<char>,
    pub value: Seq<char>,
}

#[verifier::ext_equal]
pub struct CardModel {
    pub id: int,
    pub title: Seq<char>,
    pub description: Seq<char>,
    pub properties: Seq<PropValModel>,
}

#[verifier::ext_equal]
pub struct ColSortModel {
    pub column: Seq<char>,
    pub order: Seq<int>,
}

#[verifier::ext_equal]
pub struct ViewModel {
    pub name: Seq<char>,
    pub layout: ParsedViewType,
    pub group: Option<Seq<char>>,
    pub filter: Option<Seq<char>>,
    pub sort_by: Option<Seq<char>>,
    pub sort_type: KanbanSortType,
    pub column_sorts: Seq<ColSortModel>,
    pub display: Option<Seq<char>>,
}

#[verifier::ext_equal]
pub struct DocModel {
    pub properties: Seq<PropModel>,
    pub cards: Seq<CardModel>,
    pub views: Seq<ViewModel>,
}

/// The model of an optional string.
pub open spec fn opt_str_view(o: Option<String>) -> Option<Seq<char>> {
    match o {
        Option::Some(s) => Option::Some(s@),
        Option::None => Option::None,
    }
}

impl View for ParsedPropertyType {
    type V = PropTypeModel;

    open spec fn view(&self) -> PropTypeModel {
        match self {
            ParsedPropertyType::Text => PropTypeModel::Text,
            ParsedPropertyType::Select { options } => PropTypeModel::Select {
                options: options@.map_values(|s: String| s@),
            },
            ParsedPropertyType::Number => PropTypeModel::Number,
            ParsedPropertyType::Date => PropTypeModel::Date,
            ParsedPropertyType::Checkbox => PropTypeModel::Checkbox,
        }
    }
}

impl View for ParsedProperty {
    type V = PropModel;

    open spec fn view(&self) -> PropModel {
        PropModel { name: self.name@, typ: self.property_type@ }
    }
}

impl View for ParsedPropertyValue {
    type V = PropValModel;

    open spec fn view(&self) -> PropValModel {
        PropValModel { property_name: self.property_name@, value: self.value@ }
    }
}

impl View for ParsedCard {
    type V = CardModel;

    open spec fn view(&self) -> CardModel {
        CardModel {
            id: self.id as int,
            title: self.title@,
            description: self.description@,
            properties: self.properties@.map_values(|p: ParsedPropertyValue| p@),
        }
    }
}

impl View for ColumnSort {
    type V = ColSortModel;

    open spec fn view(&self) -> ColSortModel {
        ColSortModel {
            column: self.column@,
            order: self.order@.map_values(|n: usize| n as int),
        }
    }
}

impl View for ParsedView {
    type V = ViewModel;

    open spec fn view(&self) -> ViewModel {
        ViewModel {
            name: self.name@,
            layout: self.layout,
            group: opt_str_view(self.group),
            filter: opt_str_view(self.filter),
            sort_by: opt_str_view(self.sort_by),
            sort_type: self.sort_type,
            column_sorts: self.column_sorts@.map_values(|c: ColumnSort| c@),
            display: opt_str_view(self.display),
        }
    }
}

impl View for ParsedDocument {
    type V = DocModel;

    open spec fn view(&self) -> DocModel {
        DocModel {
            properties: self.properties@.map_values(|p: ParsedProperty| p@),
            cards: self.cards@.map_values(|c: ParsedCard| c@),
            views: self.views@.map_values(|v: ParsedView| v@),
        }
    }
}

impl Default for KanbanSortType {
    fn default() -> (r: KanbanSortType)
        ensures
            r == KanbanSortType::Unsorted,
    {
        KanbanSortType::Unsorted
    }
}

} // verus!
