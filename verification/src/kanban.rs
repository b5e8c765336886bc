use vstd::prelude::*;

use crate::document::CardModel;
use crate::document::ColSortModel;
use crate::document::ColumnSort;
use crate::document::DocModel;
use crate::document::KanbanSortType;
use crate::document::ParsedViewType;
use crate::document::PropTypeModel;
use crate::document::PropValModel;
use crate::document::ViewModel;
use crate::document::ParsedCard;
use crate::document::ParsedDocument;
use crate::document::ParsedProperty;
use crate::document::ParsedPropertyType;
use crate::document::ParsedPropertyValue;
use crate::document::ParsedView;
use crate::text::dec_digits;
use crate::text::str_eq;
use vstd::pervasive::VecAdditionalExecFns;
use crate::text::find_char;
use crate::text::trim_spec;

verus! {

// ---------------------------------------------------------------------------
// The linked board: properties, cards and views held in three arenas, all
// cross-references expressed as indices (for properties and views) or as
// card ids (for cards, whose ids are stable across additions).
// ---------------------------------------------------------------------------

/// Type of a board property.
#[derive(Debug, Clone, PartialEq)]
pub enum KanbanPropertyType {
    Text,
    Number,
    Date,
    Checkbox,
    Select { options: Vec<String> },
}

/// A property with its reverse lookup: ids of the cards that carry a value
/// for it, one entry per value pair.
#[derive(Debug, Clone, PartialEq)]
pub struct KanbanProperty {
    pub name: String,
    pub property_type: KanbanPropertyType,
    pub cards: Vec<usize>,
}

/// A card: value pairs reference properties by arena index; `views` lists
/// the indices of every view the card belongs to.
#[derive(Debug, Clone, PartialEq)]
pub struct KanbanCard {
    pub id: usize,
    pub title: String,
    pub description: String,
    pub properties: Vec<(usize, String)>,
    pub views: Vec<usize>,
}

/// A view's layout with its required property reference, if named.
#[derive(Debug, Clone, PartialEq)]
pub enum KanbanViewType {
    Board { group_by: Option<usize> },
    Table { sort_by: Option<usize> },
    Calendar { date_property: Option<usize> },
    Timeline { date_property: Option<usize> },
}

/// A view: membership is the list of card ids currently in the view.
#[derive(Debug, Clone, PartialEq)]
pub struct KanbanView {
    pub name: String,
    pub view_layout: KanbanViewType,
    pub filter: Option<String>,
    pub sort_type: KanbanSortType,
    pub sort_by: Option<usize>,
    pub column_sorts: Vec<ColumnSort>,
    pub display: Vec<usize>,
    pub cards: Vec<usize>,
}

/// The board itself.
#[derive(Debug, Clone, PartialEq)]
pub struct Kanban {
    pub properties: Vec<KanbanProperty>,
    pub cards: Vec<KanbanCard>,
    pub views: Vec<KanbanView>,
}

// ---------------------------------------------------------------------------
// Models
// ---------------------------------------------------------------------------

#[verifier::ext_equal]
pub struct BPropModel {
    pub name: Seq<char>,
    pub typ: PropTypeModel,
    pub cards: Seq<int>,
}

#[verifier::ext_equal]
pub struct BCardModel {
    pub id: int,
    pub title: Seq<char>,
    pub description: Seq<char>,
    pub properties: Seq<(int, Seq<char>)>,
    pub views: Seq<int>,
}

#[verifier::ext_equal]
pub enum BLayoutModel {
    Board { group_by: Option<int> },
    Table { sort_by: Option<int> },
    Calendar { date_property: Option<int> },
    Timeline { date_property: Option<int> },
}

#[verifier::ext_equal]
pub struct BViewModel {
    pub name: Seq<char>,
    pub view_layout: BLayoutModel,
    pub filter: Option<Seq<char>>,
    pub sort_type: KanbanSortType,
    pub sort_by: Option<int>,
    pub column_sorts: Seq<ColSortModel>,
    pub display: Seq<int>,
    pub cards: Seq<int>,
}

#[verifier::ext_equal]
pub struct BoardModel {
    pub properties: Seq<BPropModel>,
    pub cards: Seq<BCardModel>,
    pub views: Seq<BViewModel>,
}

pub open spec fn opt_idx_view(o: Option<usize>) -> Option<int> {
    match o {
        Option::Some(i) => Option::Some(i as int),
        Option::None => Option::None,
    }
}

impl View for KanbanPropertyType {
    type V = PropTypeModel;

    open spec fn view(&self) -> PropTypeModel {
        match self {
            KanbanPropertyType::Text => PropTypeModel::Text,
            KanbanPropertyType::Number => PropTypeModel::Number,
            KanbanPropertyType::Date => PropTypeModel::Date,
            KanbanPropertyType::Checkbox => PropTypeModel::Checkbox,
            KanbanPropertyType::Select { options } => PropTypeModel::Select {
                options: options@.map_values(|s: String| s@),
            },
        }
    }
}

impl View for KanbanProperty {
    type V = BPropModel;

    open spec fn view(&self) -> BPropModel {
        BPropModel {
            name: self.name@,
            typ: self.property_type@,
            cards: self.cards@.map_values(|i: usize| i as int),
        }
    }
}

impl View for KanbanCard {
    type V = BCardModel;

    open spec fn view(&self) -> BCardModel {
        BCardModel {
            id: self.id as int,
            title: self.title@,
            description: self.description@,
            properties: self.properties@.map_values(|p: (usize, String)| (p.0 as int, p.1@)),
            views: self.views@.map_values(|i: usize| i as int),
        }
    }
}

impl View for KanbanViewType {
    type V = BLayoutModel;

    open spec fn view(&self) -> BLayoutModel {
        match self {
            KanbanViewType::Board { group_by } => BLayoutModel::Board {
                group_by: opt_idx_view(*group_by),
            },
            KanbanViewType::Table { sort_by } => BLayoutModel::Table {
                sort_by: opt_idx_view(*sort_by),
            },
            KanbanViewType::Calendar { date_property } => BLayoutModel::Calendar {
                date_property: opt_idx_view(*date_property),
            },
            KanbanViewType::Timeline { date_property } => BLayoutModel::Timeline {
                date_property: opt_idx_view(*date_property),
            },
        }
    }
}

impl View for KanbanView {
    type V = BViewModel;

    open spec fn view(&self) -> BViewModel {
        BViewModel {
            name: self.name@,
            view_layout: self.view_layout@,
            filter: crate::document::opt_str_view(self.filter),
            sort_type: self.sort_type,
            sort_by: opt_idx_view(self.sort_by),
            column_sorts: self.column_sorts@.map_values(|c: ColumnSort| c@),
            display: self.display@.map_values(|i: usize| i as int),
            cards: self.cards@.map_values(|i: usize| i as int),
        }
    }
}

impl View for Kanban {
    type V = BoardModel;

    open spec fn view(&self) -> BoardModel {
        BoardModel {
            properties: self.properties@.map_values(|p: KanbanProperty| p@),
            cards: self.cards@.map_values(|c: KanbanCard| c@),
            views: self.views@.map_values(|v: KanbanView| v@),
        }
    }
}

// ---------------------------------------------------------------------------
// Errors
// ---------------------------------------------------------------------------

#[verifier::ext_equal]
pub enum KanbanErrModel {
    UnknownCardProperty { name: Seq<char> },
    UnknownGroupBy { view: Seq<char>, name: Seq<char> },
    UnknownDateProperty { view: Seq<char>, name: Seq<char> },
    UnknownProperty { name: Seq<char> },
    InvalidValue { property: Seq<char>, value: Seq<char> },
    InvalidCheckboxValue { property: Seq<char>, value: Seq<char> },
    CardNotFound { title: Seq<char> },
    CardIdNotFound { id: int },
    ViewNotFound { name: Seq<char> },
    NoGroupBy,
    NotBoardView,
    InvalidGroupValue { value: Seq<char> },
}

/// A failed board operation, with the same shape of report text the
/// operations describe in their contracts.
#[derive(Debug, Clone, PartialEq)]
pub enum KanbanError {
    UnknownCardProperty { name: String },
    UnknownGroupBy { view: String, name: String },
    UnknownDateProperty { view: String, name: String },
    UnknownProperty { name: String },
    InvalidValue { property: String, value: String },
    InvalidCheckboxValue { property: String, value: String },
    CardNotFound { title: String },
    CardIdNotFound { id: usize },
    ViewNotFound { name: String },
    NoGroupBy,
    NotBoardView,
    InvalidGroupValue { value: String },
}

impl View for KanbanError {
    type V = KanbanErrModel;

    open spec fn view(&self) -> KanbanErrModel {
        match self {
            KanbanError::UnknownCardProperty { name } => KanbanErrModel::UnknownCardProperty {
                name: name@,
            },
            KanbanError::UnknownGroupBy { view, name } => KanbanErrModel::UnknownGroupBy {
                view: view@,
                name: name@,
            },
            KanbanError::UnknownDateProperty { view, name } => KanbanErrModel::UnknownDateProperty {
                view: view@,
                name: name@,
            },
            KanbanError::UnknownProperty { name } => KanbanErrModel::UnknownProperty {
                name: name@,
            },
            KanbanError::InvalidValue { property, value } => KanbanErrModel::InvalidValue {
                property: property@,
                value: value@,
            },
            KanbanError::InvalidCheckboxValue { property, value } =>
                KanbanErrModel::InvalidCheckboxValue { property: property@, value: value@ },
            KanbanError::CardNotFound { title } => KanbanErrModel::CardNotFound { title: title@ },
            KanbanError::CardIdNotFound { id } => KanbanErrModel::CardIdNotFound { id: *id as int },
            KanbanError::ViewNotFound { name } => KanbanErrModel::ViewNotFound { name: name@ },
            KanbanError::NoGroupBy => KanbanErrModel::NoGroupBy,
            KanbanError::NotBoardView => KanbanErrModel::NotBoardView,
            KanbanError::InvalidGroupValue { value } => KanbanErrModel::InvalidGroupValue {
                value: value@,
            },
        }
    }
}

/// The report text of each failure.
pub open spec fn kanban_err_msg(e: KanbanErrModel) -> Seq<char> {
    match e {
        KanbanErrModel::UnknownCardProperty { name } => "Card references unknown property: "@
            + name,
        KanbanErrModel::UnknownGroupBy { view, name } => "View '"@ + view
            + "' references unknown group by: "@ + name,
        KanbanErrModel::UnknownDateProperty { view, name } => "View '"@ + view
            + "' references unknown date property: "@ + name,
        KanbanErrModel::UnknownProperty { name } => "Unknown property: "@ + name,
        KanbanErrModel::InvalidValue { property, value } => "Invalid value for "@ + property
            + ": "@ + value,
        KanbanErrModel::InvalidCheckboxValue { property, value } => "Invalid value for checkbox "@
            + property + ": "@ + value,
        KanbanErrModel::CardNotFound { title } => "Card not found: "@ + title,
        KanbanErrModel::CardIdNotFound { id } => "Card not found with ID: "@ + dec_digits(id),
        KanbanErrModel::ViewNotFound { name } => "View not found: "@ + name,
        KanbanErrModel::NoGroupBy => "Board view doesn't have a group_by property"@,
        KanbanErrModel::NotBoardView => "View is not a Board view"@,
        KanbanErrModel::InvalidGroupValue { value } => "Invalid group value: "@ + value,
    }
}

impl KanbanError {
    /// The report text of this failure.
    pub fn message(&self) -> (r: String)
        ensures
            r@ == kanban_err_msg(self@),
    {
        match self {
            KanbanError::UnknownCardProperty { name } => {
                let mut s = "Card references unknown property: ".to_owned();
                s.append(name.as_str());
                s
            },
            KanbanError::UnknownGroupBy { view, name } => {
                let mut s = "View '".to_owned();
                s.append(view.as_str());
                s.append("' references unknown group by: ");
                s.append(name.as_str());
                s
            },
            KanbanError::UnknownDateProperty { view, name } => {
                let mut s = "View '".to_owned();
                s.append(view.as_str());
                s.append("' references unknown date property: ");
                s.append(name.as_str());
                s
            },
            KanbanError::UnknownProperty { name } => {
                let mut s = "Unknown property: ".to_owned();
                s.append(name.as_str());
                s
            },
            KanbanError::InvalidValue { property, value } => {
                let mut s = "Invalid value for ".to_owned();
                s.append(property.as_str());
                s.append(": ");
                s.append(value.as_str());
                s
            },
            KanbanError::InvalidCheckboxValue { property, value } => {
                let mut s = "Invalid value for checkbox ".to_owned();
                s.append(property.as_str());
                s.append(": ");
                s.append(value.as_str());
                s
            },
            KanbanError::CardNotFound { title } => {
                let mut s = "Card not found: ".to_owned();
                s.append(title.as_str());
                s
            },
            KanbanError::CardIdNotFound { id } => {
                let mut s = "Card not found with ID: ".to_owned();
                let n = crate::text::usize_to_string(*id);
                s.append(n.as_str());
                s
            },
            KanbanError::ViewNotFound { name } => {
                let mut s = "View not found: ".to_owned();
                s.append(name.as_str());
                s
            },
            KanbanError::NoGroupBy => "Board view doesn't have a group_by property".to_owned(),
            KanbanError::NotBoardView => "View is not a Board view".to_owned(),
            KanbanError::InvalidGroupValue { value } => {
                let mut s = "Invalid group value: ".to_owned();
                s.append(value.as_str());
                s
            },
        }
    }
}

// ---------------------------------------------------------------------------
// Name lookups.  The by-name indexes resolve to the *last* entry with the
// name, and the by-id index to the last card with the id: later entries
// shadow earlier ones.
// ---------------------------------------------------------------------------

/// Index of the last name before position `p` equal to `name`.
pub open spec fn find_name_before(names: Seq<Seq<char>>, name: Seq<char>, p: int) -> Option<int>
    recommends
        p <= names.len(),
    decreases p,
{
    if p <= 0 || p > names.len() {
        Option::None
    } else if names[p - 1] == name {
        Option::Some(p - 1)
    } else {
        find_name_before(names, name, p - 1)
    }
}

/// Index of the last property named `name`.
pub open spec fn find_name(names: Seq<Seq<char>>, name: Seq<char>) -> Option<int> {
    find_name_before(names, name, names.len() as int)
}

pub proof fn lemma_find_name_before(names: Seq<Seq<char>>, name: Seq<char>, p: int)
    requires
        0 <= p <= names.len(),
    ensures
        match find_name_before(names, name, p) {
            Option::Some(i) => 0 <= i < p && names[i] == name,
            Option::None => forall|k: int| 0 <= k < p ==> names[k] != name,
        },
    decreases p,
{
    if p > 0 && names[p - 1] != name {
        lemma_find_name_before(names, name, p - 1);
    }
}

/// Index of the last card before position `p` whose id is `id`.
pub open spec fn find_id_before(cards: Seq<BCardModel>, id: int, p: int) -> Option<int>
    recommends
        p <= cards.len(),
    decreases p,
{
    if p <= 0 || p > cards.len() {
        Option::None
    } else if cards[p - 1].id == id {
        Option::Some(p - 1)
    } else {
        find_id_before(cards, id, p - 1)
    }
}

pub open spec fn find_card_by_id_spec(cards: Seq<BCardModel>, id: int) -> Option<int> {
    find_id_before(cards, id, cards.len() as int)
}

/// Index of the last card before position `p` whose title is `title`.
pub open spec fn find_title_before(cards: Seq<BCardModel>, title: Seq<char>, p: int) -> Option<int>
    recommends
        p <= cards.len(),
    decreases p,
{
    if p <= 0 || p > cards.len() {
        Option::None
    } else if cards[p - 1].title == title {
        Option::Some(p - 1)
    } else {
        find_title_before(cards, title, p - 1)
    }
}

pub open spec fn find_card_by_title_spec(cards: Seq<BCardModel>, title: Seq<char>) -> Option<int> {
    find_title_before(cards, title, cards.len() as int)
}

pub proof fn lemma_find_title_before(cards: Seq<BCardModel>, title: Seq<char>, p: int)
    requires
        0 <= p <= cards.len(),
    ensures
        match find_title_before(cards, title, p) {
            Option::Some(i) => 0 <= i < p && cards[i].title == title,
            Option::None => forall|k: int| 0 <= k < p ==> (#[trigger] cards[k]).title != title,
        },
    decreases p,
{
    if p > 0 && cards[p - 1].title != title {
        lemma_find_title_before(cards, title, p - 1);
    }
}

pub proof fn lemma_find_title(cards: Seq<BCardModel>, title: Seq<char>)
    ensures
        match find_card_by_title_spec(cards, title) {
            Option::Some(i) => 0 <= i < cards.len() && cards[i].title == title,
            Option::None => forall|k: int|
                0 <= k < cards.len() ==> (#[trigger] cards[k]).title != title,
        },
{
    lemma_find_title_before(cards, title, cards.len() as int);
}

/// Index of the last view before position `p` named `name`.
pub open spec fn find_view_before(views: Seq<BViewModel>, name: Seq<char>, p: int) -> Option<int>
    recommends
        p <= views.len(),
    decreases p,
{
    if p <= 0 || p > views.len() {
        Option::None
    } else if views[p - 1].name == name {
        Option::Some(p - 1)
    } else {
        find_view_before(views, name, p - 1)
    }
}

pub open spec fn find_view_spec(views: Seq<BViewModel>, name: Seq<char>) -> Option<int> {
    find_view_before(views, name, views.len() as int)
}

pub proof fn lemma_find_view_before(views: Seq<BViewModel>, name: Seq<char>, p: int)
    requires
        0 <= p <= views.len(),
    ensures
        match find_view_before(views, name, p) {
            Option::Some(i) => 0 <= i < p && views[i].name == name,
            Option::None => forall|k: int| 0 <= k < p ==> (#[trigger] views[k]).name != name,
        },
    decreases p,
{
    if p > 0 && views[p - 1].name != name {
        lemma_find_view_before(views, name, p - 1);
    }
}

// ---------------------------------------------------------------------------
// Well-formedness
// ---------------------------------------------------------------------------

pub open spec fn cards_ids(cs: Seq<BCardModel>) -> Seq<int> {
    cs.map_values(|c: BCardModel| c.id)
}

pub open spec fn card_ok(c: BCardModel, np: int, nv: int) -> bool {
    &&& forall|j: int|
        0 <= j < c.properties.len() ==> 0 <= (#[trigger] c.properties[j]).0 < np
    &&& c.views == Seq::new(nv as nat, |k: int| k)
    &&& 0 <= c.id <= usize::MAX
}

pub open spec fn layout_ok(l: BLayoutModel, np: int) -> bool {
    match l {
        BLayoutModel::Board { group_by } => match group_by {
            Option::Some(i) => 0 <= i < np,
            Option::None => true,
        },
        BLayoutModel::Table { sort_by } => match sort_by {
            Option::Some(i) => 0 <= i < np,
            Option::None => true,
        },
        BLayoutModel::Calendar { date_property } => match date_property {
            Option::Some(i) => 0 <= i < np,
            Option::None => true,
        },
        BLayoutModel::Timeline { date_property } => match date_property {
            Option::Some(i) => 0 <= i < np,
            Option::None => true,
        },
    }
}

pub open spec fn view_ok(v: BViewModel, np: int, ids: Seq<int>) -> bool {
    &&& layout_ok(v.view_layout, np)
    &&& match v.sort_by {
        Option::Some(i) => 0 <= i < np,
        Option::None => true,
    }
    &&& forall|j: int| 0 <= j < v.display.len() ==> 0 <= #[trigger] v.display[j] < np
    &&& v.cards == ids
}

/// The board invariant: every cross-reference resolves inside the arenas,
/// every card belongs to every view, and every view's membership list is
/// exactly the cards in board order.
pub open spec fn board_wf(b: BoardModel) -> bool {
    &&& forall|i: int|
        0 <= i < b.cards.len() ==> card_ok(
            #[trigger] b.cards[i],
            b.properties.len() as int,
            b.views.len() as int,
        )
    &&& forall|k: int|
        0 <= k < b.views.len() ==> view_ok(
            #[trigger] b.views[k],
            b.properties.len() as int,
            cards_ids(b.cards),
        )
}

// ---------------------------------------------------------------------------
// What building a board from a document yields
// ---------------------------------------------------------------------------

pub open spec fn doc_prop_names(d: DocModel) -> Seq<Seq<char>> {
    d.properties.map_values(|p: crate::document::PropModel| p.name)
}

/// First value pair of the card whose property name does not resolve.
pub open spec fn pairs_unresolved(names: Seq<Seq<char>>, pairs: Seq<PropValModel>) -> Option<
    Seq<char>,
>
    decreases pairs.len(),
{
    if pairs.len() == 0 {
        Option::None
    } else if find_name(names, pairs.first().property_name) is None {
        Option::Some(pairs.first().property_name)
    } else {
        pairs_unresolved(names, pairs.drop_first())
    }
}

/// First card (in document order) with an unresolvable property name.
pub open spec fn cards_unresolved(names: Seq<Seq<char>>, cards: Seq<CardModel>) -> Option<
    Seq<char>,
>
    decreases cards.len(),
{
    if cards.len() == 0 {
        Option::None
    } else {
        match pairs_unresolved(names, cards.first().properties) {
            Option::Some(n) => Option::Some(n),
            Option::None => cards_unresolved(names, cards.drop_first()),
        }
    }
}

/// The hard linking failure of one view, if any: Board views need their
/// group, Calendar and Timeline views their date property; Table views have
/// no required reference.
pub open spec fn view_err(names: Seq<Seq<char>>, v: ViewModel) -> Option<KanbanErrModel> {
    match v.layout {
        ParsedViewType::Board => match v.group {
            Option::Some(g) => if find_name(names, g) is None {
                Option::Some(KanbanErrModel::UnknownGroupBy { view: v.name, name: g })
            } else {
                Option::None
            },
            Option::None => Option::None,
        },
        ParsedViewType::Table => Option::None,
        ParsedViewType::Calendar => match v.group {
            Option::Some(g) => if find_name(names, g) is None {
                Option::Some(KanbanErrModel::UnknownDateProperty { view: v.name, name: g })
            } else {
                Option::None
            },
            Option::None => Option::None,
        },
        ParsedViewType::Timeline => match v.group {
            Option::Some(g) => if find_name(names, g) is None {
                Option::Some(KanbanErrModel::UnknownDateProperty { view: v.name, name: g })
            } else {
                Option::None
            },
            Option::None => Option::None,
        },
    }
}

pub open spec fn views_err(names: Seq<Seq<char>>, views: Seq<ViewModel>) -> Option<KanbanErrModel>
    decreases views.len(),
{
    if views.len() == 0 {
        Option::None
    } else {
        match view_err(names, views.first()) {
            Option::Some(e) => Option::Some(e),
            Option::None => views_err(names, views.drop_first()),
        }
    }
}

/// The linking failure of a whole document, if any: card failures first,
/// in document order, then view failures.
pub open spec fn build_err(d: DocModel) -> Option<KanbanErrModel> {
    match cards_unresolved(doc_prop_names(d), d.cards) {
        Option::Some(n) => Option::Some(KanbanErrModel::UnknownCardProperty { name: n }),
        Option::None => views_err(doc_prop_names(d), d.views),
    }
}

pub open spec fn resolve_or_zero(names: Seq<Seq<char>>, name: Seq<char>) -> int {
    match find_name(names, name) {
        Option::Some(i) => i,
        Option::None => 0,
    }
}

pub open spec fn build_pairs(names: Seq<Seq<char>>, pairs: Seq<PropValModel>) -> Seq<
    (int, Seq<char>),
> {
    pairs.map_values(|pv: PropValModel| (resolve_or_zero(names, pv.property_name), pv.value))
}

pub open spec fn build_card(names: Seq<Seq<char>>, nviews: int, c: CardModel) -> BCardModel {
    BCardModel {
        id: c.id,
        title: c.title,
        description: c.description,
        properties: build_pairs(names, c.properties),
        views: Seq::new(nviews as nat, |k: int| k),
    }
}

pub open spec fn build_cards(d: DocModel) -> Seq<BCardModel> {
    d.cards.map_values(|c: CardModel| build_card(doc_prop_names(d), d.views.len() as int, c))
}

/// The ids contributed to property `p`'s reverse lookup by one card's pairs.
pub open spec fn backref_pairs(pairs: Seq<(int, Seq<char>)>, p: int, id: int) -> Seq<int>
    decreases pairs.len(),
{
    if pairs.len() == 0 {
        Seq::empty()
    } else {
        (if pairs.first().0 == p {
            seq![id]
        } else {
            Seq::empty()
        }) + backref_pairs(pairs.drop_first(), p, id)
    }
}

/// Property `p`'s reverse lookup: cards in board order, one entry per pair.
pub open spec fn backrefs(cards: Seq<BCardModel>, p: int) -> Seq<int>
    decreases cards.len(),
{
    if cards.len() == 0 {
        Seq::empty()
    } else {
        backref_pairs(cards.first().properties, p, cards.first().id) + backrefs(
            cards.drop_first(),
            p,
        )
    }
}

pub open spec fn build_props(d: DocModel) -> Seq<BPropModel> {
    Seq::new(
        d.properties.len(),
        |i: int| BPropModel {
            name: d.properties[i].name,
            typ: d.properties[i].typ,
            cards: backrefs(build_cards(d), i),
        },
    )
}

pub open spec fn resolve_opt(names: Seq<Seq<char>>, o: Option<Seq<char>>) -> Option<int> {
    match o {
        Option::Some(n) => find_name(names, n),
        Option::None => Option::None,
    }
}

pub open spec fn model_layout(names: Seq<Seq<char>>, v: ViewModel) -> BLayoutModel {
    match v.layout {
        ParsedViewType::Board => BLayoutModel::Board { group_by: resolve_opt(names, v.group) },
        ParsedViewType::Table => BLayoutModel::Table { sort_by: resolve_opt(names, v.sort_by) },
        ParsedViewType::Calendar => BLayoutModel::Calendar {
            date_property: resolve_opt(names, v.group),
        },
        ParsedViewType::Timeline => BLayoutModel::Timeline {
            date_property: resolve_opt(names, v.group),
        },
    }
}

/// The comma-separated pieces of a display list.
pub open spec fn split_commas(t: Seq<char>) -> Seq<Seq<char>>
    decreases t.len(),
{
    if t.len() == 0 {
        Seq::empty()
    } else {
        let i = find_char(t, ',', 0);
        if 0 <= i < t.len() {
            seq![t.take(i)] + split_commas(t.skip(i + 1))
        } else {
            seq![t]
        }
    }
}

/// Display entries trimmed, empties dropped, unresolved names skipped.
pub open spec fn display_idx_list(names: Seq<Seq<char>>, items: Seq<Seq<char>>) -> Seq<int>
    decreases items.len(),
{
    if items.len() == 0 {
        Seq::empty()
    } else {
        let tn = trim_spec(items.first());
        let rest = display_idx_list(names, items.drop_first());
        if tn.len() == 0 {
            rest
        } else {
            match find_name(names, tn) {
                Option::Some(i) => seq![i] + rest,
                Option::None => rest,
            }
        }
    }
}

pub open spec fn display_resolved(names: Seq<Seq<char>>, o: Option<Seq<char>>) -> Seq<int> {
    match o {
        Option::Some(s) => display_idx_list(names, split_commas(s)),
        Option::None => Seq::empty(),
    }
}

/// First column with the given name, from position `p` on.
pub open spec fn find_col_from(cols: Seq<ColSortModel>, name: Seq<char>, p: int) -> Option<int>
    recommends
        0 <= p <= cols.len(),
    decreases cols.len() - p,
{
    if p < 0 || p >= cols.len() {
        Option::None
    } else if cols[p].column == name {
        Option::Some(p)
    } else {
        find_col_from(cols, name, p + 1)
    }
}

/// Keyed insertion of one column sort: a column of the same name is
/// overwritten in place, a new one appended.
pub open spec fn insert_col(acc: Seq<ColSortModel>, c: ColSortModel) -> Seq<ColSortModel> {
    match find_col_from(acc, c.column, 0) {
        Option::Some(j) => acc.update(j, c),
        Option::None => acc.push(c),
    }
}

pub open spec fn dedup_cols_acc(cols: Seq<ColSortModel>, acc: Seq<ColSortModel>) -> Seq<
    ColSortModel,
>
    decreases cols.len(),
{
    if cols.len() == 0 {
        acc
    } else {
        dedup_cols_acc(cols.drop_first(), insert_col(acc, cols.first()))
    }
}

/// The column sorts a view is built with: keyed by column name, later
/// entries for the same column replacing earlier ones in place.
pub open spec fn dedup_cols(cols: Seq<ColSortModel>) -> Seq<ColSortModel> {
    dedup_cols_acc(cols, Seq::empty())
}

pub open spec fn build_view(d: DocModel, v: ViewModel) -> BViewModel {
    BViewModel {
        name: v.name,
        view_layout: model_layout(doc_prop_names(d), v),
        filter: v.filter,
        sort_type: v.sort_type,
        sort_by: resolve_opt(doc_prop_names(d), v.sort_by),
        column_sorts: dedup_cols(v.column_sorts),
        display: display_resolved(doc_prop_names(d), v.display),
        cards: cards_ids(build_cards(d)),
    }
}

pub open spec fn build_views(d: DocModel) -> Seq<BViewModel> {
    d.views.map_values(|v: ViewModel| build_view(d, v))
}

/// The board a document links into, when no linking failure occurs.
pub open spec fn build_board(d: DocModel) -> BoardModel {
    BoardModel { properties: build_props(d), cards: build_cards(d), views: build_views(d) }
}

// ---------------------------------------------------------------------------
// Building is well-formed
// ---------------------------------------------------------------------------

pub proof fn lemma_pairs_resolved(names: Seq<Seq<char>>, pairs: Seq<PropValModel>)
    requires
        pairs_unresolved(names, pairs) is None,
    ensures
        forall|j: int|
            0 <= j < pairs.len() ==> find_name(names, (#[trigger] pairs[j]).property_name) is Some,
    decreases pairs.len(),
{
    if pairs.len() > 0 {
        lemma_pairs_resolved(names, pairs.drop_first());
        assert forall|j: int|
            0 <= j < pairs.len() implies find_name(
            names,
            (#[trigger] pairs[j]).property_name,
        ) is Some by {
            if j > 0 {
                assert(pairs.drop_first()[j - 1] == pairs[j]);
            }
        }
    }
}

pub proof fn lemma_cards_resolved(names: Seq<Seq<char>>, cards: Seq<CardModel>)
    requires
        cards_unresolved(names, cards) is None,
    ensures
        forall|i: int|
            0 <= i < cards.len() ==> pairs_unresolved(
                names,
                (#[trigger] cards[i]).properties,
            ) is None,
    decreases cards.len(),
{
    if cards.len() > 0 {
        lemma_cards_resolved(names, cards.drop_first());
        assert forall|i: int|
            0 <= i < cards.len() implies pairs_unresolved(
            names,
            (#[trigger] cards[i]).properties,
        ) is None by {
            if i > 0 {
                assert(cards.drop_first()[i - 1] == cards[i]);
            }
        }
    }
}

pub proof fn lemma_display_in_range(names: Seq<Seq<char>>, items: Seq<Seq<char>>)
    ensures
        forall|j: int|
            0 <= j < display_idx_list(names, items).len() ==> 0 <= #[trigger] display_idx_list(
                names,
                items,
            )[j] < names.len(),
    decreases items.len(),
{
    if items.len() > 0 {
        lemma_display_in_range(names, items.drop_first());
        let tn = trim_spec(items.first());
        let rest = display_idx_list(names, items.drop_first());
        let whole = display_idx_list(names, items);
        if tn.len() > 0 && find_name(names, tn) is Some {
            lemma_find_name_before(names, tn, names.len() as int);
            let i = find_name(names, tn)->0;
            assert(whole == seq![i] + rest);
            assert forall|j: int| 0 <= j < whole.len() implies 0 <= #[trigger] whole[j]
                < names.len() by {
                if j > 0 {
                    assert(whole[j] == rest[j - 1]);
                }
            }
        } else {
            assert(whole == rest);
        }
    }
}

/// A document with no linking failure builds into a well-formed board.
pub proof fn lemma_build_wf(d: DocModel)
    requires
        build_err(d) is None,
        forall|i: int| 0 <= i < d.cards.len() ==> 0 <= (#[trigger] d.cards[i]).id <= usize::MAX,
    ensures
        board_wf(build_board(d)),
{
    let names = doc_prop_names(d);
    let b = build_board(d);
    lemma_cards_resolved(names, d.cards);
    assert forall|i: int|
        0 <= i < b.cards.len() implies card_ok(
        #[trigger] b.cards[i],
        b.properties.len() as int,
        b.views.len() as int,
    ) by {
        let c = d.cards[i];
        lemma_pairs_resolved(names, c.properties);
        assert forall|j: int|
            0 <= j < b.cards[i].properties.len() implies 0 <= (#[trigger] (b.cards[
            i]).properties[j]).0 < b.properties.len() by {
            assert(b.cards[i].properties[j] == (
                resolve_or_zero(names, c.properties[j].property_name),
                c.properties[j].value,
            ));
            lemma_find_name_before(names, c.properties[j].property_name, names.len() as int);
        }
    }
    assert forall|k: int|
        0 <= k < b.views.len() implies view_ok(
        #[trigger] b.views[k],
        b.properties.len() as int,
        cards_ids(b.cards),
    ) by {
        let v = d.views[k];
        assert(b.views[k] == build_view(d, v));
        match v.group {
            Option::Some(g) => {
                lemma_find_name_before(names, g, names.len() as int);
            },
            Option::None => {},
        }
        match v.sort_by {
            Option::Some(s) => {
                lemma_find_name_before(names, s, names.len() as int);
            },
            Option::None => {},
        }
        match v.display {
            Option::Some(s) => {
                lemma_display_in_range(names, split_commas(s));
            },
            Option::None => {},
        }
    }
}

// ---------------------------------------------------------------------------
// Executable lookups
// ---------------------------------------------------------------------------

/// Find the last name in the list equal to `name`.
fn find_name_x(names: &Vec<String>, name: &str) -> (r: Option<usize>)
    ensures
        match r {
            Option::Some(i) => find_name(names.deep_view(), name@) == Option::Some(i as int),
            Option::None => find_name(names.deep_view(), name@) is None,
        },
{
    let ghost ns = names.deep_view();
    let mut i: usize = names.len();
    while i > 0
        invariant
            0 <= i <= names.len(),
            ns == names.deep_view(),
            find_name(ns, name@) == find_name_before(ns, name@, i as int),
        decreases i,
    {
        proof {
            assert(names@[i - 1]@ == ns[i - 1]);
        }
        if str_eq(names[i - 1].as_str(), name) {
            return Option::Some(i - 1);
        }
        i -= 1;
    }
    Option::None
}

/// Collect every card id, in board order.
fn all_ids(cards: &Vec<KanbanCard>) -> (r: Vec<usize>)
    ensures
        r@.map_values(|i: usize| i as int) == cards_ids(cards@.map_values(|c: KanbanCard| c@)),
{
    let mut out: Vec<usize> = Vec::new();
    let mut i: usize = 0;
    while i < cards.len()
        invariant
            0 <= i <= cards.len(),
            out@.map_values(|k: usize| k as int) =~= cards_ids(
                cards@.map_values(|c: KanbanCard| c@),
            ).take(i as int),
        decreases cards.len() - i,
    {
        let ghost m0 = out@.map_values(|k: usize| k as int);
        let cid = cards[i].id;
        out.push(cid);
        proof {
            let ids = cards_ids(cards@.map_values(|c: KanbanCard| c@));
            assert(out@.map_values(|k: usize| k as int) =~= m0.push(cid as int));
            assert(ids[i as int] == cards@[i as int]@.id);
            assert(m0.push(cid as int) =~= ids.take(i as int + 1));
        }
        i += 1;
    }
    proof {
        assert(out@.map_values(|k: usize| k as int) =~= cards_ids(
            cards@.map_values(|c: KanbanCard| c@),
        ));
    }
    out
}

/// Split a display list on commas.
fn split_on_commas(s: &str) -> (r: Vec<String>)
    ensures
        r.deep_view() == split_commas(s@),
{
    let n = s.unicode_len();
    let mut out: Vec<String> = Vec::new();
    let mut pos: usize = 0;
    proof {
        assert(s@.skip(0) =~= s@);
        assert(out.deep_view() =~= Seq::<Seq<char>>::empty());
    }
    while pos < n
        invariant
            0 <= pos <= n,
            n == s@.len(),
            out.deep_view() + split_commas(s@.skip(pos as int)) =~= split_commas(s@),
        decreases n - pos,
    {
        let mut j: usize = pos;
        while j < n && s.get_char(j) != ','
            invariant
                pos <= j <= n,
                n == s@.len(),
                forall|k: int| pos <= k < j ==> s@[k] != ',',
            decreases n - j,
        {
            j += 1;
        }
        let piece = s.substring_char(pos, j).to_owned();
        proof {
            let t = s@.skip(pos as int);
            assert forall|k: int| 0 <= k < j - pos implies t[k] != ',' by {
                assert(t[k] == s@[pos + k]);
            }
            if j < n {
                assert(t[j - pos] == s@[j as int]);
            }
            crate::text::lemma_find_char_unique(t, ',', 0, j - pos as int);
            assert(piece@ =~= t.take(j - pos as int));
            if j < n {
                assert(t.skip(j - pos as int + 1) =~= s@.skip(j as int + 1));
                assert(split_commas(t) =~= seq![t.take(j - pos as int)] + split_commas(
                    s@.skip(j as int + 1),
                ));
            } else {
                assert(t.take(j - pos as int) =~= t);
                assert(split_commas(t) =~= seq![t]);
                assert(s@.skip(n as int) =~= Seq::<char>::empty());
            }
            assert(out.deep_view().push(piece@) =~= out.deep_view() + seq![piece@]);
        }
        out.push(piece);
        pos = if j < n { j + 1 } else { n };
        proof {
            assert(out.deep_view() + split_commas(s@.skip(pos as int)) =~= split_commas(s@));
        }
    }
    proof {
        assert(s@.skip(n as int) =~= Seq::<char>::empty());
        assert(out.deep_view() =~= split_commas(s@));
    }
    out
}

/// Resolve the entries of a display list, dropping what does not resolve.
fn resolve_display(names: &Vec<String>, s: &str) -> (r: Vec<usize>)
    ensures
        r@.map_values(|i: usize| i as int) == display_idx_list(
            names.deep_view(),
            split_commas(s@),
        ),
{
    let ghost ns = names.deep_view();
    let items = split_on_commas(s);
    let ghost its = items.deep_view();
    let mut out: Vec<usize> = Vec::new();
    let mut i: usize = 0;
    proof {
        assert(its.skip(0) =~= its);
        assert(out@.map_values(|k: usize| k as int) =~= Seq::<int>::empty());
    }
    while i < items.len()
        invariant
            0 <= i <= items.len(),
            ns == names.deep_view(),
            its == items.deep_view(),
            display_idx_list(ns, its) =~= out@.map_values(|k: usize| k as int) + display_idx_list(
                ns,
                its.skip(i as int),
            ),
        decreases items.len() - i,
    {
        let t = crate::text::trim_str(items[i].as_str());
        proof {
            assert(items@[i as int]@ == its[i as int]);
            assert(its.skip(i as int).first() == its[i as int]);
            assert(its.skip(i as int).drop_first() =~= its.skip(i as int + 1));
        }
        if t.unicode_len() > 0 {
            match find_name_x(names, t) {
                Option::Some(pi) => {
                    out.push(pi);
                    proof {
                        assert(display_idx_list(ns, its) =~= out@.map_values(|k: usize| k as int)
                            + display_idx_list(ns, its.skip(i as int + 1)));
                    }
                },
                Option::None => {
                    proof {
                        assert(display_idx_list(ns, its) =~= out@.map_values(|k: usize| k as int)
                            + display_idx_list(ns, its.skip(i as int + 1)));
                    }
                },
            }
        } else {
            proof {
                assert(display_idx_list(ns, its) =~= out@.map_values(|k: usize| k as int)
                    + display_idx_list(ns, its.skip(i as int + 1)));
            }
        }
        i += 1;
    }
    proof {
        assert(its.skip(its.len() as int) =~= Seq::<Seq<char>>::empty());
        assert(out@.map_values(|k: usize| k as int) =~= display_idx_list(ns, its));
    }
    out
}

pub proof fn lemma_find_col_from(cols: Seq<ColSortModel>, name: Seq<char>, p: int)
    requires
        0 <= p <= cols.len(),
    ensures
        match find_col_from(cols, name, p) {
            Option::Some(j) => p <= j < cols.len() && cols[j].column == name,
            Option::None => forall|k: int| p <= k < cols.len() ==> (#[trigger] cols[k]).column
                != name,
        },
    decreases cols.len() - p,
{
    if p < cols.len() && cols[p].column != name {
        lemma_find_col_from(cols, name, p + 1);
    }
}

/// Find the first column with the given name.
pub(crate) fn find_col_x(cols: &Vec<ColumnSort>, name: &str) -> (r: Option<usize>)
    ensures
        match r {
            Option::Some(j) => find_col_from(cols@.map_values(|c: ColumnSort| c@), name@, 0)
                == Option::Some(j as int),
            Option::None => find_col_from(cols@.map_values(|c: ColumnSort| c@), name@, 0) is None,
        },
{
    let ghost cs = cols@.map_values(|c: ColumnSort| c@);
    let mut j: usize = 0;
    while j < cols.len()
        invariant
            0 <= j <= cols.len(),
            cs == cols@.map_values(|c: ColumnSort| c@),
            find_col_from(cs, name@, 0) == find_col_from(cs, name@, j as int),
        decreases cols.len() - j,
    {
        proof {
            assert(cols@[j as int]@ == cs[j as int]);
        }
        if str_eq(cols[j].column.as_str(), name) {
            return Option::Some(j);
        }
        j += 1;
    }
    Option::None
}

/// Keyed insertion of column sorts: later entries for a column replace
/// earlier ones in place.
fn dedup_cols_x(cols: Vec<ColumnSort>) -> (r: Vec<ColumnSort>)
    ensures
        r@.map_values(|c: ColumnSort| c@) == dedup_cols(cols@.map_values(|c: ColumnSort| c@)),
{
    let ghost orig = cols@.map_values(|c: ColumnSort| c@);
    let mut acc: Vec<ColumnSort> = Vec::new();
    let mut rest = cols;
    proof {
        assert(acc@.map_values(|c: ColumnSort| c@) =~= Seq::<ColSortModel>::empty());
    }
    while rest.len() > 0
        invariant
            dedup_cols(orig) == dedup_cols_acc(
                rest@.map_values(|c: ColumnSort| c@),
                acc@.map_values(|c: ColumnSort| c@),
            ),
        decreases rest@.len(),
    {
        let ghost rest0 = rest@;
        let ghost acc0 = acc@.map_values(|c: ColumnSort| c@);
        let ghost rm = rest0.map_values(|cc: ColumnSort| cc@);
        let c = rest.remove(0);
        proof {
            assert(c@ == rm[0]);
            assert forall|k: int| 0 <= k < rest@.len() implies (#[trigger] rest@[k])@ == rm[k
                + 1] by {
                assert(rest@[k] == rest0[k + 1]);
            }
            assert(rest@.map_values(|cc: ColumnSort| cc@) =~= rm.drop_first());
        }
        match find_col_x(&acc, c.column.as_str()) {
            Option::Some(j) => {
                proof {
                    lemma_find_col_from(acc0, c@.column, 0);
                }
                acc.set(j, c);
                proof {
                    assert(acc@.map_values(|cc: ColumnSort| cc@) =~= acc0.update(j as int, rm[0]));
                    assert(insert_col(acc0, rm[0]) == acc0.update(j as int, rm[0]));
                }
            },
            Option::None => {
                acc.push(c);
                proof {
                    assert(acc@.map_values(|cc: ColumnSort| cc@) =~= acc0.push(rm[0]));
                    assert(insert_col(acc0, rm[0]) == acc0.push(rm[0]));
                }
            },
        }
        proof {
            assert(rm.first() == rm[0]);
        }
    }
    proof {
        assert(rest@.map_values(|c: ColumnSort| c@) =~= Seq::<ColSortModel>::empty());
    }
    acc
}

// ---------------------------------------------------------------------------
// Building the board
// ---------------------------------------------------------------------------

impl Kanban {
    /// Link a flat document into a board: materialize properties, resolve
    /// every card's value pairs, fill each property's reverse lookup, then
    /// resolve every view's references and give it all cards as members.
    ///
    /// Fails on the first card value pair naming an undeclared property,
    /// then on the first view whose required reference (group for Board,
    /// date property for Calendar and Timeline) does not resolve.  An
    /// unresolved optional `sort_by` or display entry is dropped silently.
    pub fn from_document(doc: ParsedDocument) -> (r: Result<Kanban, KanbanError>)
        ensures
            build_err(doc@) is None <==> r is Ok,
            match r {
                Result::Ok(b) => b@ == build_board(doc@) && board_wf(b@),
                Result::Err(e) => build_err(doc@) == Option::Some(e@),
            },
    {
        let ghost d = doc@;
        let ghost names = doc_prop_names(d);
        let ParsedDocument { properties, cards, views } = doc;

        // property names for resolution
        let mut pnames: Vec<String> = Vec::new();
        let mut i: usize = 0;
        proof {
            assert(properties@.map_values(|p: ParsedProperty| p@) == d.properties);
            assert(pnames.deep_view() =~= names.take(0));
        }
        while i < properties.len()
            invariant
                0 <= i <= properties.len(),
                properties@.map_values(|p: ParsedProperty| p@) == d.properties,
                names == doc_prop_names(d),
                pnames.deep_view() =~= names.take(i as int),
            decreases properties.len() - i,
        {
            let ghost m0 = pnames.deep_view();
            pnames.push(properties[i].name.clone());
            proof {
                assert(properties@[i as int]@.name == names[i as int]);
                assert(pnames.deep_view() =~= m0.push(properties@[i as int].name@));
                assert(m0.push(properties@[i as int].name@) =~= names.take(i as int + 1));
            }
            i += 1;
        }
        proof {
            assert(pnames.deep_view() =~= names);
        }

        let nviews = views.len();

        // cards, with resolved value pairs
        let mut bcards: Vec<KanbanCard> = Vec::new();
        let mut rest_cards = cards;
        proof {
            assert(bcards@.map_values(|c: KanbanCard| c@) =~= build_cards(d).take(0));
            assert(rest_cards@.map_values(|c: ParsedCard| c@) =~= d.cards.skip(0));
            assert(d.cards.skip(0) =~= d.cards);
        }
        while rest_cards.len() > 0
            invariant
                d == doc@,
                names == doc_prop_names(d),
                pnames.deep_view() == names,
                nviews as int == d.views.len(),
                bcards@.len() + rest_cards@.len() == d.cards.len(),
                bcards@.map_values(|c: KanbanCard| c@) =~= build_cards(d).take(
                    bcards@.len() as int,
                ),
                rest_cards@.map_values(|c: ParsedCard| c@) =~= d.cards.skip(bcards@.len() as int),
                cards_unresolved(names, d.cards) == cards_unresolved(
                    names,
                    d.cards.skip(bcards@.len() as int),
                ),
            decreases rest_cards@.len(),
        {
            let ghost k = bcards@.len() as int;
            let ghost rest0 = rest_cards@;
            let ghost rm = rest0.map_values(|cc: ParsedCard| cc@);
            let c = rest_cards.remove(0);
            proof {
                assert(c@ == rm[0]);
                assert(rm[0] == d.cards[k]);
                assert forall|kk: int| 0 <= kk < rest_cards@.len() implies (
                #[trigger] rest_cards@[kk])@ == d.cards[k + 1 + kk] by {
                    assert(rest_cards@[kk] == rest0[kk + 1]);
                    assert(rm[kk + 1] == d.cards[k + 1 + kk]);
                }
                assert(rest_cards@.map_values(|cc: ParsedCard| cc@) =~= d.cards.skip(k + 1));
                assert(d.cards.skip(k).first() == d.cards[k]);
                assert(d.cards.skip(k).drop_first() =~= d.cards.skip(k + 1));
            }
            let ParsedCard { id, title, description, properties: mut pvs } = c;
            let ghost cprops = d.cards[k].properties;
            let mut pairs: Vec<(usize, String)> = Vec::new();
            proof {
                assert(pairs@.map_values(|p: (usize, String)| (p.0 as int, p.1@)) =~= build_pairs(
                    names,
                    cprops,
                ).take(0));
                assert(pvs@.map_values(|pv: ParsedPropertyValue| pv@) =~= cprops.skip(0));
                assert(cprops.skip(0) =~= cprops);
            }
            while pvs.len() > 0
                invariant
                    d == doc@,
                    names == doc_prop_names(d),
                    pnames.deep_view() == names,
                    0 <= k < d.cards.len(),
                    cprops == d.cards[k].properties,
                    pairs@.len() + pvs@.len() == cprops.len(),
                    pairs@.map_values(|p: (usize, String)| (p.0 as int, p.1@)) =~= build_pairs(
                        names,
                        cprops,
                    ).take(pairs@.len() as int),
                    pvs@.map_values(|pv: ParsedPropertyValue| pv@) =~= cprops.skip(
                        pairs@.len() as int,
                    ),
                    pairs_unresolved(names, cprops) == pairs_unresolved(
                        names,
                        cprops.skip(pairs@.len() as int),
                    ),
                    cards_unresolved(names, d.cards) == cards_unresolved(names, d.cards.skip(k)),
                decreases pvs@.len(),
            {
                let ghost j = pairs@.len() as int;
                let ghost pvs0 = pvs@;
                let ghost pm = pvs0.map_values(|q: ParsedPropertyValue| q@);
                let pv = pvs.remove(0);
                proof {
                    assert(pv@ == pm[0]);
                    assert(pm[0] == cprops[j]);
                    assert forall|kk: int| 0 <= kk < pvs@.len() implies (#[trigger] pvs@[kk])@
                        == cprops[j + 1 + kk] by {
                        assert(pvs@[kk] == pvs0[kk + 1]);
                        assert(pm[kk + 1] == cprops[j + 1 + kk]);
                    }
                    assert(pvs@.map_values(|q: ParsedPropertyValue| q@) =~= cprops.skip(j + 1));
                    assert(cprops.skip(j).first() == cprops[j]);
                    assert(cprops.skip(j).drop_first() =~= cprops.skip(j + 1));
                }
                match find_name_x(&pnames, pv.property_name.as_str()) {
                    Option::Some(pi) => {
                        pairs.push((pi, pv.value));
                        proof {
                            assert(build_pairs(names, cprops)[j] == (
                                resolve_or_zero(names, cprops[j].property_name),
                                cprops[j].value,
                            ));
                            assert(pairs@.map_values(|p: (usize, String)| (p.0 as int, p.1@))
                                =~= build_pairs(names, cprops).take(j + 1));
                        }
                    },
                    Option::None => {
                        proof {
                            assert(pairs_unresolved(names, cprops.skip(j)) == Option::Some(
                                cprops[j].property_name,
                            ));
                            assert(d.cards.skip(k).first().properties == cprops);
                            assert(cards_unresolved(names, d.cards.skip(k)) == Option::Some(
                                cprops[j].property_name,
                            ));
                            assert(pv.property_name@ == cprops[j].property_name);
                            assert(build_err(d) == Option::Some(
                                KanbanErrModel::UnknownCardProperty {
                                    name: cprops[j].property_name,
                                },
                            ));
                        }
                        return Result::Err(
                            KanbanError::UnknownCardProperty { name: pv.property_name },
                        );
                    },
                }
            }
            proof {
                assert(cprops.skip(cprops.len() as int) =~= Seq::<PropValModel>::empty());
                assert(pairs@.map_values(|p: (usize, String)| (p.0 as int, p.1@)) =~= build_pairs(
                    names,
                    cprops,
                ));
                assert(pairs_unresolved(names, cprops) is None);
                assert(d.cards.skip(k).first().properties == cprops);
                assert(cards_unresolved(names, d.cards.skip(k)) == cards_unresolved(
                    names,
                    d.cards.skip(k + 1),
                ));
            }
            let mut vlist: Vec<usize> = Vec::new();
            let mut j2: usize = 0;
            proof {
                assert(vlist@.map_values(|u: usize| u as int) =~= Seq::new(0, |kk: int| kk));
            }
            while j2 < nviews
                invariant
                    0 <= j2 <= nviews,
                    vlist@.map_values(|u: usize| u as int) =~= Seq::new(j2 as nat, |kk: int| kk),
                decreases nviews - j2,
            {
                let ghost m0 = vlist@.map_values(|u: usize| u as int);
                vlist.push(j2);
                proof {
                    assert(vlist@.map_values(|u: usize| u as int) =~= m0.push(j2 as int));
                    assert(m0.push(j2 as int) =~= Seq::new((j2 + 1) as nat, |kk: int| kk));
                }
                j2 += 1;
            }
            bcards.push(KanbanCard { id, title, description, properties: pairs, views: vlist });
            proof {
                assert(bcards@.last()@ =~~= build_card(names, d.views.len() as int, d.cards[k]));
                assert(build_cards(d)[k] == build_card(names, d.views.len() as int, d.cards[k]));
                assert(bcards@.map_values(|c: KanbanCard| c@) =~= build_cards(d).take(k + 1));
            }
        }
        proof {
            assert(d.cards.skip(d.cards.len() as int) =~= Seq::<CardModel>::empty());
            assert(bcards@.map_values(|c: KanbanCard| c@) =~= build_cards(d));
            assert(cards_unresolved(names, d.cards) is None);
        }

        // properties, with reverse lookups
        let ghost bcm = build_cards(d);
        let mut bprops: Vec<KanbanProperty> = Vec::new();
        let mut rest_props = properties;
        proof {
            assert(bprops@.map_values(|p: KanbanProperty| p@) =~= build_props(d).take(0));
            assert(rest_props@.map_values(|p: ParsedProperty| p@) =~= d.properties.skip(0));
            assert(d.properties.skip(0) =~= d.properties);
        }
        while rest_props.len() > 0
            invariant
                bcm == build_cards(d),
                bcards@.map_values(|c: KanbanCard| c@) == bcm,
                bprops@.len() + rest_props@.len() == d.properties.len(),
                bprops@.map_values(|p: KanbanProperty| p@) =~= build_props(d).take(
                    bprops@.len() as int,
                ),
                rest_props@.map_values(|p: ParsedProperty| p@) =~= d.properties.skip(
                    bprops@.len() as int,
                ),
            decreases rest_props@.len(),
        {
            let ghost p_i = bprops@.len() as int;
            let ghost rest0 = rest_props@;
            let ghost rm = rest0.map_values(|q: ParsedProperty| q@);
            let pr = rest_props.remove(0);
            proof {
                assert(pr@ == rm[0]);
                assert(rm[0] == d.properties[p_i]);
                assert forall|kk: int| 0 <= kk < rest_props@.len() implies (
                #[trigger] rest_props@[kk])@ == d.properties[p_i + 1 + kk] by {
                    assert(rest_props@[kk] == rest0[kk + 1]);
                    assert(rm[kk + 1] == d.properties[p_i + 1 + kk]);
                }
                assert(rest_props@.map_values(|q: ParsedProperty| q@) =~= d.properties.skip(
                    p_i + 1,
                ));
            }
            let pidx = bprops.len();
            let pt = match pr.property_type {
                ParsedPropertyType::Text => KanbanPropertyType::Text,
                ParsedPropertyType::Number => KanbanPropertyType::Number,
                ParsedPropertyType::Date => KanbanPropertyType::Date,
                ParsedPropertyType::Checkbox => KanbanPropertyType::Checkbox,
                ParsedPropertyType::Select { options } => KanbanPropertyType::Select { options },
            };
            let mut refs: Vec<usize> = Vec::new();
            let mut ci: usize = 0;
            proof {
                assert(refs@.map_values(|u: usize| u as int) =~= Seq::<int>::empty());
                assert(bcm.skip(0) =~= bcm);
            }
            while ci < bcards.len()
                invariant
                    0 <= ci <= bcards.len(),
                    bcm == build_cards(d),
                    bcards@.map_values(|c: KanbanCard| c@) == bcm,
                    p_i == pidx as int,
                    refs@.map_values(|u: usize| u as int) + backrefs(bcm.skip(ci as int), p_i)
                        =~= backrefs(bcm, p_i),
                decreases bcards.len() - ci,
            {
                let ghost cm = bcm[ci as int];
                proof {
                    assert(bcards@[ci as int]@ == cm);
                    assert(bcm.skip(ci as int).first() == cm);
                    assert(bcm.skip(ci as int).drop_first() =~= bcm.skip(ci as int + 1));
                }
                let nprops_card = bcards[ci].properties.len();
                let mut pj: usize = 0;
                proof {
                    assert(cm.properties.skip(0) =~= cm.properties);
                }
                while pj < nprops_card
                    invariant
                        0 <= pj <= nprops_card,
                        ci < bcards.len(),
                        bcm == build_cards(d),
                        bcards@.map_values(|c: KanbanCard| c@) == bcm,
                        cm == bcm[ci as int],
                        nprops_card == cm.properties.len(),
                        p_i == pidx as int,
                        refs@.map_values(|u: usize| u as int) + backref_pairs(
                            cm.properties.skip(pj as int),
                            p_i,
                            cm.id,
                        ) + backrefs(bcm.skip(ci as int + 1), p_i) =~= backrefs(bcm, p_i),
                    decreases nprops_card - pj,
                {
                    proof {
                        assert(bcards@[ci as int]@ == cm);
                        assert(cm.properties[pj as int] == (
                            bcards@[ci as int].properties@[pj as int].0 as int,
                            bcards@[ci as int].properties@[pj as int].1@,
                        ));
                        assert(cm.properties.skip(pj as int).first() == cm.properties[pj as int]);
                        assert(cm.properties.skip(pj as int).drop_first() =~= cm.properties.skip(
                            pj as int + 1,
                        ));
                    }
                    if bcards[ci].properties[pj].0 == pidx {
                        let cid = bcards[ci].id;
                        refs.push(cid);
                        proof {
                            assert(cid as int == cm.id);
                            assert(refs@.map_values(|u: usize| u as int) + backref_pairs(
                                cm.properties.skip(pj as int + 1),
                                p_i,
                                cm.id,
                            ) + backrefs(bcm.skip(ci as int + 1), p_i) =~= backrefs(bcm, p_i));
                        }
                    } else {
                        proof {
                            assert(refs@.map_values(|u: usize| u as int) + backref_pairs(
                                cm.properties.skip(pj as int + 1),
                                p_i,
                                cm.id,
                            ) + backrefs(bcm.skip(ci as int + 1), p_i) =~= backrefs(bcm, p_i));
                        }
                    }
                    pj += 1;
                }
                proof {
                    assert(cm.properties.skip(cm.properties.len() as int) =~= Seq::<
                        (int, Seq<char>),
                    >::empty());
                }
                ci += 1;
            }
            proof {
                assert(bcm.skip(bcm.len() as int) =~= Seq::<BCardModel>::empty());
                assert(refs@.map_values(|u: usize| u as int) =~= backrefs(bcm, p_i));
            }
            bprops.push(KanbanProperty { name: pr.name, property_type: pt, cards: refs });
            proof {
                assert(bprops@.last()@ =~~= build_props(d)[p_i]);
                assert(bprops@.map_values(|p: KanbanProperty| p@) =~= build_props(d).take(
                    p_i + 1,
                ));
            }
        }
        proof {
            assert(bprops@.map_values(|p: KanbanProperty| p@) =~= build_props(d));
        }

        // views
        let mut bviews: Vec<KanbanView> = Vec::new();
        let mut rest_views = views;
        proof {
            assert(bviews@.map_values(|v: KanbanView| v@) =~= build_views(d).take(0));
            assert(rest_views@.map_values(|v: ParsedView| v@) =~= d.views.skip(0));
            assert(d.views.skip(0) =~= d.views);
        }
        while rest_views.len() > 0
            invariant
                d == doc@,
                names == doc_prop_names(d),
                pnames.deep_view() == names,
                bcm == build_cards(d),
                bcards@.map_values(|c: KanbanCard| c@) == bcm,
                cards_unresolved(names, d.cards) is None,
                bviews@.len() + rest_views@.len() == d.views.len(),
                bviews@.map_values(|v: KanbanView| v@) =~= build_views(d).take(
                    bviews@.len() as int,
                ),
                rest_views@.map_values(|v: ParsedView| v@) =~= d.views.skip(bviews@.len() as int),
                views_err(names, d.views) == views_err(names, d.views.skip(bviews@.len() as int)),
            decreases rest_views@.len(),
        {
            let ghost v_i = bviews@.len() as int;
            let ghost rest0 = rest_views@;
            let ghost rm = rest0.map_values(|q: ParsedView| q@);
            let v = rest_views.remove(0);
            proof {
                assert(v@ == rm[0]);
                assert(rm[0] == d.views[v_i]);
                assert forall|kk: int| 0 <= kk < rest_views@.len() implies (
                #[trigger] rest_views@[kk])@ == d.views[v_i + 1 + kk] by {
                    assert(rest_views@[kk] == rest0[kk + 1]);
                    assert(rm[kk + 1] == d.views[v_i + 1 + kk]);
                }
                assert(rest_views@.map_values(|q: ParsedView| q@) =~= d.views.skip(v_i + 1));
                assert(d.views.skip(v_i).first() == d.views[v_i]);
                assert(d.views.skip(v_i).drop_first() =~= d.views.skip(v_i + 1));
            }
            let ghost vm = d.views[v_i];
            let ParsedView {
                name,
                layout,
                group,
                filter,
                sort_by,
                sort_type,
                column_sorts,
                display,
            } = v;
            let sort_by_idx: Option<usize> = match &sort_by {
                Option::Some(s) => find_name_x(&pnames, s.as_str()),
                Option::None => Option::None,
            };
            let vlayout: KanbanViewType = match layout {
                ParsedViewType::Board => {
                    match group {
                        Option::Some(g) => match find_name_x(&pnames, g.as_str()) {
                            Option::Some(gi) => KanbanViewType::Board {
                                group_by: Option::Some(gi),
                            },
                            Option::None => {
                                proof {
                                    assert(view_err(names, vm) == Option::Some(
                                        KanbanErrModel::UnknownGroupBy {
                                            view: vm.name,
                                            name: g@,
                                        },
                                    ));
                                    assert(views_err(names, d.views.skip(v_i)) == view_err(
                                        names,
                                        vm,
                                    ));
                                    assert(g@ == vm.group->0);
                                    assert(name@ == vm.name);
                                    assert(build_err(d) == views_err(names, d.views));
                                }
                                return Result::Err(
                                    KanbanError::UnknownGroupBy { view: name, name: g },
                                );
                            },
                        },
                        Option::None => KanbanViewType::Board { group_by: Option::None },
                    }
                },
                ParsedViewType::Table => KanbanViewType::Table { sort_by: sort_by_idx },
                ParsedViewType::Calendar => {
                    match group {
                        Option::Some(g) => match find_name_x(&pnames, g.as_str()) {
                            Option::Some(gi) => KanbanViewType::Calendar {
                                date_property: Option::Some(gi),
                            },
                            Option::None => {
                                proof {
                                    assert(view_err(names, vm) == Option::Some(
                                        KanbanErrModel::UnknownDateProperty {
                                            view: vm.name,
                                            name: g@,
                                        },
                                    ));
                                    assert(views_err(names, d.views.skip(v_i)) == view_err(
                                        names,
                                        vm,
                                    ));
                                    assert(g@ == vm.group->0);
                                    assert(name@ == vm.name);
                                    assert(build_err(d) == views_err(names, d.views));
                                }
                                return Result::Err(
                                    KanbanError::UnknownDateProperty { view: name, name: g },
                                );
                            },
                        },
                        Option::None => KanbanViewType::Calendar { date_property: Option::None },
                    }
                },
                ParsedViewType::Timeline => {
                    match group {
                        Option::Some(g) => match find_name_x(&pnames, g.as_str()) {
                            Option::Some(gi) => KanbanViewType::Timeline {
                                date_property: Option::Some(gi),
                            },
                            Option::None => {
                                proof {
                                    assert(view_err(names, vm) == Option::Some(
                                        KanbanErrModel::UnknownDateProperty {
                                            view: vm.name,
                                            name: g@,
                                        },
                                    ));
                                    assert(views_err(names, d.views.skip(v_i)) == view_err(
                                        names,
                                        vm,
                                    ));
                                    assert(g@ == vm.group->0);
                                    assert(name@ == vm.name);
                                    assert(build_err(d) == views_err(names, d.views));
                                }
                                return Result::Err(
                                    KanbanError::UnknownDateProperty { view: name, name: g },
                                );
                            },
                        },
                        Option::None => KanbanViewType::Timeline { date_property: Option::None },
                    }
                },
            };
            let disp: Vec<usize> = match &display {
                Option::Some(s) => resolve_display(&pnames, s.as_str()),
                Option::None => Vec::new(),
            };
            let cols = dedup_cols_x(column_sorts);
            let vcards = all_ids(&bcards);
            proof {
                assert(disp@.map_values(|u: usize| u as int) =~= display_resolved(
                    names,
                    vm.display,
                ));
            }
            bviews.push(
                KanbanView {
                    name,
                    view_layout: vlayout,
                    filter,
                    sort_type,
                    sort_by: sort_by_idx,
                    column_sorts: cols,
                    display: disp,
                    cards: vcards,
                },
            );
            proof {
                assert(bviews@.last()@ =~~= build_view(d, vm));
                assert(build_views(d)[v_i] == build_view(d, vm));
                assert(bviews@.map_values(|v: KanbanView| v@) =~= build_views(d).take(v_i + 1));
                assert(view_err(names, vm) is None);
            }
        }
        proof {
            assert(d.views.skip(d.views.len() as int) =~= Seq::<ViewModel>::empty());
            assert(bviews@.map_values(|v: KanbanView| v@) =~= build_views(d));
            assert(views_err(names, d.views) is None);
        }

        let b = Kanban { properties: bprops, cards: bcards, views: bviews };
        proof {
            assert(b@ =~~= build_board(d));
            assert forall|ii: int| 0 <= ii < d.cards.len() implies 0 <= (
            #[trigger] d.cards[ii]).id <= usize::MAX by {
                assert(d.cards[ii] == doc.cards@[ii]@);
            }
            lemma_build_wf(d);
        }
        Result::Ok(b)
    }
}

} // verus!
