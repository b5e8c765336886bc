use vstd::prelude::*;

use crate::document::CardModel;
use crate::document::ColSortModel;
use crate::document::DocModel;
use crate::document::KanbanSortType;
use crate::document::ParsedViewType;
use crate::document::PropModel;
use crate::document::PropTypeModel;
use crate::document::PropValModel;
use crate::document::ViewModel;
use crate::text::find_char;
use crate::text::indent_len;
use crate::text::line_blank;
use crate::text::list_item_spec;
use crate::text::is_heading;
use crate::text::parse_usize_spec;
use crate::text::split_lines_spec;
use crate::text::trim_spec;

verus! {

// ---------------------------------------------------------------------------
// The grammar, stated as a line-by-line transition function.
//
// A document is parsed by folding `parse_line` over its lines from an initial
// state.  The executable parser is proved to compute exactly this fold, so
// every statement about parsing reduces to this one specification.
// ---------------------------------------------------------------------------

/// A parse failure, carrying the message the parser reports.
#[verifier::ext_equal]
pub enum ParseErrModel {
    /// A property declared with a type other than the five known ones.
    InvalidPropertyType { message: Seq<char> },
    /// A line that does not fit the grammar where one was required.
    InvalidFormat { message: Seq<char> },
}

pub open spec fn msg_invalid_property_format(tok: Seq<char>) -> Seq<char> {
    "Invalid property format: "@ + tok
}

pub open spec fn msg_unknown_property_type(tok: Seq<char>) -> Seq<char> {
    "Unknown property type: "@ + tok
}

pub open spec fn msg_expected_number(tok: Seq<char>) -> Seq<char> {
    "Expected number, got: "@ + tok
}

pub open spec fn msg_card_items() -> Seq<char> {
    "Could not parse card items"@
}

/// Which of the three ordered sections the parser is inside.  `Finished`
/// means an unrecognized top-level line was seen: the rest is ignored.
#[derive(Clone, Copy, PartialEq, Eq, Structural)]
pub enum Section {
    Top,
    Properties,
    Views,
    Cards,
    Finished,
}

/// Where an open card block stands: still reading `name: value` lines,
/// collecting description lines, or past the description (lines ignored).
#[derive(Clone, Copy, PartialEq, Eq, Structural)]
pub enum CardPhase {
    Fields,
    Description,
    Tail,
}

#[verifier::ext_equal]
pub struct ParseState {
    pub props: Seq<PropModel>,
    pub cards: Seq<CardModel>,
    pub views: Seq<ViewModel>,
    pub section: Section,
    /// Indent of an open `Select` property whose options may follow.
    pub select_ind: Option<int>,
    /// Whether the last view's indented attribute block is still open.
    pub in_view_block: bool,
    /// Indent of an open manual-sort column of the last view.
    pub cur_col: Option<int>,
    /// Whether the last card's indented block is still open.
    pub card_open: bool,
    pub card_phase: CardPhase,
    pub failed: Option<ParseErrModel>,
}

pub open spec fn init_state() -> ParseState {
    ParseState {
        props: Seq::empty(),
        cards: Seq::empty(),
        views: Seq::empty(),
        section: Section::Top,
        select_ind: Option::None,
        in_view_block: false,
        cur_col: Option::None,
        card_open: false,
        card_phase: CardPhase::Fields,
        failed: Option::None,
    }
}

// ---------------------------------------------------------------------------
// Small helpers over a line
// ---------------------------------------------------------------------------

pub open spec fn has_colon(l: Seq<char>) -> bool {
    find_char(l, ':', 0) < l.len()
}

/// Exactly one colon anywhere in the sequence.
pub open spec fn exactly_one_colon(l: Seq<char>) -> bool {
    has_colon(l) && find_char(l, ':', find_char(l, ':', 0) + 1) == l.len()
}

/// The parts before and after the first colon.
pub open spec fn colon_before(l: Seq<char>) -> Seq<char> {
    l.subrange(0, find_char(l, ':', 0))
}

pub open spec fn colon_after(l: Seq<char>) -> Seq<char> {
    l.subrange(find_char(l, ':', 0) + 1, l.len() as int)
}

/// A line's content with its indentation removed.
pub open spec fn line_content(l: Seq<char>) -> Seq<char> {
    l.subrange(indent_len(l), l.len() as int)
}

pub open spec fn layout_of(v: Seq<char>) -> ParsedViewType {
    if v == "Table"@ {
        ParsedViewType::Table
    } else if v == "Calendar"@ {
        ParsedViewType::Calendar
    } else if v == "Timeline"@ {
        ParsedViewType::Timeline
    } else {
        ParsedViewType::Board
    }
}

pub open spec fn sort_type_of(v: Seq<char>) -> KanbanSortType {
    if v == "Alpha"@ {
        KanbanSortType::Alpha
    } else if v == "ReverseAlpha"@ {
        KanbanSortType::ReverseAlpha
    } else if v == "Manual"@ {
        KanbanSortType::Manual
    } else {
        KanbanSortType::Unsorted
    }
}

// ---------------------------------------------------------------------------
// Updates to the most recently opened entity
// ---------------------------------------------------------------------------

/// Append an option to the last property (which is open and Select-typed).
pub open spec fn push_option(props: Seq<PropModel>, o: Seq<char>) -> Seq<PropModel>
    recommends
        props.len() > 0,
        props.last().typ is Select,
{
    if props.len() > 0 {
        let p = props.last();
        match p.typ {
            PropTypeModel::Select { options } => props.update(
                props.len() - 1,
                PropModel { name: p.name, typ: PropTypeModel::Select { options: options.push(o) } },
            ),
            _ => props,
        }
    } else {
        props
    }
}

pub open spec fn upd_last_view(views: Seq<ViewModel>, v: ViewModel) -> Seq<ViewModel>
    recommends
        views.len() > 0,
{
    views.update(views.len() - 1, v)
}

/// Open a new manual-sort column on the last view.
pub open spec fn push_column(views: Seq<ViewModel>, name: Seq<char>) -> Seq<ViewModel>
    recommends
        views.len() > 0,
{
    if views.len() > 0 {
        let v = views.last();
        upd_last_view(
            views,
            ViewModel {
                column_sorts: v.column_sorts.push(
                    ColSortModel { column: name, order: Seq::empty() },
                ),
                ..v
            },
        )
    } else {
        views
    }
}

/// Append a card id to the open column of the last view.
pub open spec fn push_column_id(views: Seq<ViewModel>, id: int) -> Seq<ViewModel>
    recommends
        views.len() > 0,
        views.last().column_sorts.len() > 0,
{
    if views.len() > 0 && views.last().column_sorts.len() > 0 {
        let v = views.last();
        let c = v.column_sorts.last();
        upd_last_view(
            views,
            ViewModel {
                column_sorts: v.column_sorts.update(
                    v.column_sorts.len() - 1,
                    ColSortModel { column: c.column, order: c.order.push(id) },
                ),
                ..v
            },
        )
    } else {
        views
    }
}

pub open spec fn upd_last_card(cards: Seq<CardModel>, c: CardModel) -> Seq<CardModel>
    recommends
        cards.len() > 0,
{
    cards.update(cards.len() - 1, c)
}

// ---------------------------------------------------------------------------
// Per-section transitions
// ---------------------------------------------------------------------------

pub open spec fn top_line(st: ParseState, l: Seq<char>) -> ParseState {
    if line_blank(l) {
        st
    } else if is_heading(l, "Properties"@) {
        ParseState { section: Section::Properties, ..st }
    } else if is_heading(l, "Views"@) {
        ParseState { section: Section::Views, ..st }
    } else if is_heading(l, "Cards"@) {
        ParseState { section: Section::Cards, ..st }
    } else {
        ParseState { section: Section::Finished, ..st }
    }
}

/// A `Name: Type` property definition line with content `raw` at indent `d`.
pub open spec fn prop_def_line(st: ParseState, d: int, raw: Seq<char>) -> ParseState {
    if exactly_one_colon(raw) {
        let name = trim_spec(colon_before(raw));
        let tok = trim_spec(colon_after(raw));
        if tok == "Text"@ {
            ParseState {
                props: st.props.push(PropModel { name, typ: PropTypeModel::Text }),
                select_ind: Option::None,
                ..st
            }
        } else if tok == "Number"@ {
            ParseState {
                props: st.props.push(PropModel { name, typ: PropTypeModel::Number }),
                select_ind: Option::None,
                ..st
            }
        } else if tok == "Date"@ {
            ParseState {
                props: st.props.push(PropModel { name, typ: PropTypeModel::Date }),
                select_ind: Option::None,
                ..st
            }
        } else if tok == "Checkbox"@ {
            ParseState {
                props: st.props.push(PropModel { name, typ: PropTypeModel::Checkbox }),
                select_ind: Option::None,
                ..st
            }
        } else if tok == "Select"@ {
            ParseState {
                props: st.props.push(
                    PropModel { name, typ: PropTypeModel::Select { options: Seq::empty() } },
                ),
                select_ind: Option::Some(d),
                ..st
            }
        } else {
            ParseState {
                failed: Option::Some(
                    ParseErrModel::InvalidPropertyType { message: msg_unknown_property_type(tok) },
                ),
                ..st
            }
        }
    } else {
        ParseState {
            failed: Option::Some(
                ParseErrModel::InvalidFormat { message: msg_invalid_property_format(raw) },
            ),
            ..st
        }
    }
}

pub open spec fn props_line(st: ParseState, l: Seq<char>) -> ParseState {
    if line_blank(l) {
        ParseState { select_ind: Option::None, ..st }
    } else {
        match list_item_spec(l) {
            Option::Some((d, raw)) => {
                if st.select_ind is Some && d > st.select_ind->0 {
                    ParseState { props: push_option(st.props, trim_spec(raw)), ..st }
                } else {
                    prop_def_line(st, d, raw)
                }
            },
            Option::None => {
                if is_heading(l, "Views"@) {
                    ParseState {
                        section: Section::Views,
                        select_ind: Option::None,
                        in_view_block: false,
                        ..st
                    }
                } else if is_heading(l, "Cards"@) {
                    ParseState {
                        section: Section::Cards,
                        select_ind: Option::None,
                        card_open: false,
                        ..st
                    }
                } else {
                    ParseState { section: Section::Finished, ..st }
                }
            },
        }
    }
}

/// Open a new view named `name` with default settings.
pub open spec fn start_view(st: ParseState, name: Seq<char>) -> ParseState {
    ParseState {
        views: st.views.push(
            ViewModel {
                name,
                layout: ParsedViewType::Board,
                group: Option::None,
                filter: Option::None,
                sort_by: Option::None,
                sort_type: KanbanSortType::Unsorted,
                column_sorts: Seq::empty(),
                display: Option::None,
            },
        ),
        in_view_block: true,
        cur_col: Option::None,
        ..st
    }
}

/// A `Key: Value` attribute line inside a view block; unknown keys and
/// lines without exactly one colon are ignored.
pub open spec fn view_attr_line(st: ParseState, l: Seq<char>) -> ParseState {
    if exactly_one_colon(l) && st.views.len() > 0 {
        let key = trim_spec(colon_before(l));
        let val = trim_spec(colon_after(l));
        let v = st.views.last();
        if key == "Layout"@ {
            ParseState { views: upd_last_view(st.views, ViewModel { layout: layout_of(val), ..v }), ..st }
        } else if key == "Group"@ {
            ParseState {
                views: upd_last_view(st.views, ViewModel { group: Option::Some(val), ..v }),
                ..st
            }
        } else if key == "Filter"@ {
            ParseState {
                views: upd_last_view(st.views, ViewModel { filter: Option::Some(val), ..v }),
                ..st
            }
        } else if key == "Sort"@ {
            ParseState {
                views: upd_last_view(st.views, ViewModel { sort_by: Option::Some(val), ..v }),
                ..st
            }
        } else if key == "Sort Type"@ {
            ParseState {
                views: upd_last_view(st.views, ViewModel { sort_type: sort_type_of(val), ..v }),
                ..st
            }
        } else if key == "Display"@ {
            ParseState {
                views: upd_last_view(st.views, ViewModel { display: Option::Some(val), ..v }),
                ..st
            }
        } else {
            st
        }
    } else {
        st
    }
}

/// An indented, non-blank line inside a view's attribute block.
pub open spec fn view_block_line(st: ParseState, l: Seq<char>) -> ParseState {
    match list_item_spec(l) {
        Option::Some((d, raw)) => {
            if st.cur_col is Some && d > st.cur_col->0 {
                match parse_usize_spec(trim_spec(raw)) {
                    Option::Some(v) => ParseState { views: push_column_id(st.views, v), ..st },
                    Option::None => ParseState {
                        failed: Option::Some(
                            ParseErrModel::InvalidFormat {
                                message: msg_expected_number(trim_spec(raw)),
                            },
                        ),
                        ..st
                    },
                }
            } else if d >= 3 {
                ParseState {
                    views: push_column(st.views, trim_spec(raw)),
                    cur_col: Option::Some(d),
                    ..st
                }
            } else {
                view_attr_line(st, l)
            }
        },
        Option::None => view_attr_line(st, l),
    }
}

pub open spec fn views_line(st: ParseState, l: Seq<char>) -> ParseState {
    if line_blank(l) {
        ParseState { in_view_block: false, cur_col: Option::None, ..st }
    } else if indent_len(l) == 0 {
        match list_item_spec(l) {
            Option::Some((d, raw)) => start_view(st, trim_spec(raw)),
            Option::None => {
                if is_heading(l, "Cards"@) {
                    ParseState {
                        section: Section::Cards,
                        in_view_block: false,
                        cur_col: Option::None,
                        card_open: false,
                        ..st
                    }
                } else {
                    ParseState { section: Section::Finished, ..st }
                }
            },
        }
    } else {
        if st.in_view_block {
            view_block_line(st, l)
        } else {
            match list_item_spec(l) {
                Option::Some((d, raw)) => start_view(st, trim_spec(raw)),
                Option::None => ParseState { section: Section::Finished, ..st },
            }
        }
    }
}

/// An indented, non-blank line in an open card block: a colon makes it a
/// `name: value` pair while the fields phase lasts; the first line without
/// a colon opens the description; a later colon line ends it.
pub open spec fn card_body_line(st: ParseState, l: Seq<char>) -> ParseState {
    if st.cards.len() == 0 {
        st
    } else {
        let c = st.cards.last();
        match st.card_phase {
            CardPhase::Fields => {
                if has_colon(l) {
                    let pv = PropValModel {
                        property_name: trim_spec(colon_before(l)),
                        value: trim_spec(colon_after(l)),
                    };
                    ParseState {
                        cards: upd_last_card(
                            st.cards,
                            CardModel { properties: c.properties.push(pv), ..c },
                        ),
                        ..st
                    }
                } else {
                    ParseState {
                        cards: upd_last_card(
                            st.cards,
                            CardModel { description: line_content(l), ..c },
                        ),
                        card_phase: CardPhase::Description,
                        ..st
                    }
                }
            },
            CardPhase::Description => {
                if has_colon(l) {
                    ParseState { card_phase: CardPhase::Tail, ..st }
                } else {
                    ParseState {
                        cards: upd_last_card(
                            st.cards,
                            CardModel {
                                description: c.description + seq!['\n'] + line_content(l),
                                ..c
                            },
                        ),
                        ..st
                    }
                }
            },
            CardPhase::Tail => st,
        }
    }
}

pub open spec fn cards_line(st: ParseState, l: Seq<char>) -> ParseState {
    if line_blank(l) {
        ParseState { card_open: false, ..st }
    } else if st.card_open && indent_len(l) >= 1 {
        card_body_line(st, l)
    } else {
        match list_item_spec(l) {
            Option::Some((d, raw)) => ParseState {
                cards: st.cards.push(
                    CardModel {
                        id: 0,
                        title: trim_spec(raw),
                        description: Seq::empty(),
                        properties: Seq::empty(),
                    },
                ),
                card_open: true,
                card_phase: CardPhase::Fields,
                ..st
            },
            Option::None => {
                if l[indent_len(l)] == '-' {
                    ParseState {
                        failed: Option::Some(
                            ParseErrModel::InvalidFormat { message: msg_card_items() },
                        ),
                        ..st
                    }
                } else {
                    ParseState { section: Section::Finished, ..st }
                }
            },
        }
    }
}

// ---------------------------------------------------------------------------
// The fold
// ---------------------------------------------------------------------------

/// Process one line.  A failed or finished parse ignores further lines.
pub open spec fn parse_line(st: ParseState, l: Seq<char>) -> ParseState {
    if st.failed is Some || st.section == Section::Finished {
        st
    } else {
        match st.section {
            Section::Top => top_line(st, l),
            Section::Properties => props_line(st, l),
            Section::Views => views_line(st, l),
            Section::Cards => cards_line(st, l),
            Section::Finished => st,
        }
    }
}

/// Fold `parse_line` over the lines from `i` on.
pub open spec fn parse_lines_from(ls: Seq<Seq<char>>, i: int, st: ParseState) -> ParseState
    recommends
        0 <= i <= ls.len(),
    decreases ls.len() - i,
{
    if i < 0 || i >= ls.len() {
        st
    } else {
        parse_lines_from(ls, i + 1, parse_line(st, ls[i]))
    }
}

/// Give the parsed cards their position-based ids.
pub open spec fn assign_ids(cards: Seq<CardModel>) -> Seq<CardModel> {
    Seq::new(
        cards.len(),
        |i: int| CardModel {
            id: i,
            title: cards[i].title,
            description: cards[i].description,
            properties: cards[i].properties,
        },
    )
}

/// What parsing a sequence of lines yields.
pub open spec fn parse_doc_lines(ls: Seq<Seq<char>>) -> Result<DocModel, ParseErrModel> {
    let st = parse_lines_from(ls, 0, init_state());
    match st.failed {
        Option::Some(e) => Result::Err(e),
        Option::None => Result::Ok(
            DocModel { properties: st.props, cards: assign_ids(st.cards), views: st.views },
        ),
    }
}

/// What parsing a text yields: the fold over its lines.
pub open spec fn parse_doc_spec(t: Seq<char>) -> Result<DocModel, ParseErrModel> {
    parse_doc_lines(split_lines_spec(t))
}

} // verus!
