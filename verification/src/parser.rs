use vstd::prelude::*;

use crate::document::ParsedCard;
use crate::document::ParsedDocument;
use crate::document::ParsedProperty;
use crate::document::ParsedPropertyType;
use crate::document::ParsedPropertyValue;
use crate::document::ParsedView;
use crate::document::ParsedViewType;
use crate::document::ColumnSort;
use crate::document::KanbanSortType;
use crate::grammar::CardPhase;
use crate::grammar::ParseErrModel;
use crate::grammar::ParseState;
use crate::grammar::Section;
use crate::grammar::assign_ids;
use crate::grammar::card_body_line;
use crate::grammar::cards_line;
use crate::grammar::colon_after;
use crate::grammar::colon_before;
use crate::grammar::exactly_one_colon;
use crate::grammar::has_colon;
use crate::grammar::init_state;
use crate::grammar::layout_of;
use crate::grammar::line_content;
use crate::grammar::parse_doc_spec;
use crate::grammar::parse_line;
use crate::grammar::parse_lines_from;
use crate::grammar::prop_def_line;
use crate::grammar::props_line;
use crate::grammar::push_column;
use crate::grammar::push_column_id;
use crate::grammar::push_option;
use crate::grammar::sort_type_of;
use crate::grammar::start_view;
use crate::grammar::top_line;
use crate::grammar::view_attr_line;
use crate::grammar::view_block_line;
use crate::grammar::views_line;
use crate::text::find_char_x;
use crate::text::is_heading;
use crate::text::is_heading_x;
use crate::text::lemma_find_char;
use crate::text::lemma_ws_end;
use crate::text::line_blank_x;
use crate::text::list_item_spec;
use crate::text::list_item_x;
use crate::text::parse_usize_x;
use crate::text::split_lines;
use crate::text::split_lines_spec;
use crate::text::trim_str;
use crate::text::str_eq;
use crate::text::ws_end_x;

verus! {

// ---------------------------------------------------------------------------
// Parse errors
// ---------------------------------------------------------------------------

/// A parse failure with its report text.
#[derive(Debug, Clone, PartialEq)]
pub enum MarkdownError {
    InvalidPropertyType(String),
    InvalidFormat(String),
}

impl View for MarkdownError {
    type V = ParseErrModel;

    open spec fn view(&self) -> ParseErrModel {
        match self {
            MarkdownError::InvalidPropertyType(m) => ParseErrModel::InvalidPropertyType {
                message: m@,
            },
            MarkdownError::InvalidFormat(m) => ParseErrModel::InvalidFormat { message: m@ },
        }
    }
}

pub open spec fn err_message_model(e: ParseErrModel) -> Seq<char> {
    match e {
        ParseErrModel::InvalidPropertyType { message } => message,
        ParseErrModel::InvalidFormat { message } => message,
    }
}

impl MarkdownError {
    /// The report text of this failure.
    pub fn message(&self) -> (r: &str)
        ensures
            r@ == err_message_model(self@),
    {
        match self {
            MarkdownError::InvalidPropertyType(m) => m.as_str(),
            MarkdownError::InvalidFormat(m) => m.as_str(),
        }
    }
}

/// Concatenate a fixed prefix and a token into one message.
fn fmt_msg(prefix: &str, tok: &str) -> (r: String)
    ensures
        r@ == prefix@ + tok@,
{
    let mut s = prefix.to_owned();
    s.append(tok);
    s
}

// ---------------------------------------------------------------------------
// Line helpers
// ---------------------------------------------------------------------------

fn has_colon_x(l: &str) -> (r: bool)
    ensures
        r == has_colon(l@),
{
    find_char_x(l, ':', 0) < l.unicode_len()
}

fn exactly_one_colon_x(l: &str) -> (r: bool)
    ensures
        r == exactly_one_colon(l@),
{
    let n = l.unicode_len();
    let i = find_char_x(l, ':', 0);
    proof {
        lemma_find_char(l@, ':', 0);
    }
    if i < n {
        find_char_x(l, ':', i + 1) == n
    } else {
        false
    }
}

/// The part of the line before its first colon.
fn colon_before_x<'a>(l: &'a str) -> (r: &'a str)
    requires
        has_colon(l@),
    ensures
        r@ == colon_before(l@),
{
    let ci = find_char_x(l, ':', 0);
    proof {
        lemma_find_char(l@, ':', 0);
    }
    let r = l.substring_char(0, ci);
    proof {
        assert(r@ =~= colon_before(l@));
    }
    r
}

/// The part of the line after its first colon.
fn colon_after_x<'a>(l: &'a str) -> (r: &'a str)
    requires
        has_colon(l@),
    ensures
        r@ == colon_after(l@),
{
    let n = l.unicode_len();
    let ci = find_char_x(l, ':', 0);
    proof {
        lemma_find_char(l@, ':', 0);
    }
    let r = l.substring_char(ci + 1, n);
    proof {
        assert(r@ =~= colon_after(l@));
    }
    r
}

/// The line with its indentation removed.
fn line_content_x<'a>(l: &'a str) -> (r: &'a str)
    ensures
        r@ == line_content(l@),
{
    let n = l.unicode_len();
    let ind = ws_end_x(l, 0);
    proof {
        lemma_ws_end(l@, 0);
    }
    let r = l.substring_char(ind, n);
    proof {
        assert(r@ =~= line_content(l@));
    }
    r
}

fn layout_of_x(v: &str) -> (r: ParsedViewType)
    ensures
        r == layout_of(v@),
{
    if str_eq(v, "Table") {
        ParsedViewType::Table
    } else if str_eq(v, "Calendar") {
        ParsedViewType::Calendar
    } else if str_eq(v, "Timeline") {
        ParsedViewType::Timeline
    } else {
        ParsedViewType::Board
    }
}

fn sort_type_of_x(v: &str) -> (r: KanbanSortType)
    ensures
        r == sort_type_of(v@),
{
    if str_eq(v, "Alpha") {
        KanbanSortType::Alpha
    } else if str_eq(v, "ReverseAlpha") {
        KanbanSortType::ReverseAlpha
    } else if str_eq(v, "Manual") {
        KanbanSortType::Manual
    } else {
        KanbanSortType::Unsorted
    }
}

// ---------------------------------------------------------------------------
// Parser state
// ---------------------------------------------------------------------------

struct ParserState {
    props: Vec<ParsedProperty>,
    cards: Vec<ParsedCard>,
    views: Vec<ParsedView>,
    section: Section,
    select_ind: Option<usize>,
    in_view_block: bool,
    cur_col: Option<usize>,
    card_open: bool,
    card_phase: CardPhase,
    failed: Option<MarkdownError>,
}

impl View for ParserState {
    type V = ParseState;

    closed spec fn view(&self) -> ParseState {
        ParseState {
            props: self.props@.map_values(|p: ParsedProperty| p@),
            cards: self.cards@.map_values(|c: ParsedCard| c@),
            views: self.views@.map_values(|v: ParsedView| v@),
            section: self.section,
            select_ind: match self.select_ind {
                Option::Some(d) => Option::Some(d as int),
                Option::None => Option::None,
            },
            in_view_block: self.in_view_block,
            cur_col: match self.cur_col {
                Option::Some(d) => Option::Some(d as int),
                Option::None => Option::None,
            },
            card_open: self.card_open,
            card_phase: self.card_phase,
            failed: match self.failed {
                Option::Some(e) => Option::Some(e@),
                Option::None => Option::None,
            },
        }
    }
}

fn new_state(section: Section) -> (st: ParserState)
    ensures
        st@ == (ParseState { section, ..init_state() }),
{
    let st = ParserState {
        props: Vec::new(),
        cards: Vec::new(),
        views: Vec::new(),
        section,
        select_ind: Option::None,
        in_view_block: false,
        cur_col: Option::None,
        card_open: false,
        card_phase: CardPhase::Fields,
        failed: Option::None,
    };
    proof {
        assert(st@ =~~= (ParseState { section, ..init_state() }));
    }
    st
}

// ---------------------------------------------------------------------------
// Per-section transitions
// ---------------------------------------------------------------------------

fn top_line_x(st: ParserState, l: &str) -> (r: ParserState)
    ensures
        r@ == top_line(st@, l@),
{
    let mut st = st;
    if line_blank_x(l) {
    } else if is_heading_x(l, "Properties") {
        st.section = Section::Properties;
    } else if is_heading_x(l, "Views") {
        st.section = Section::Views;
    } else if is_heading_x(l, "Cards") {
        st.section = Section::Cards;
    } else {
        st.section = Section::Finished;
    }
    st
}

/// Attach an option line to the open Select property.
fn push_option_x(st: ParserState, o: &str) -> (r: ParserState)
    ensures
        r@ == (ParseState { props: push_option(st@.props, o@), ..st@ }),
{
    let ghost pre = st@;
    let mut st = st;
    if st.props.len() > 0 {
        let mut p = st.props.pop().unwrap();
        match p.property_type {
            ParsedPropertyType::Select { options: opts0 } => {
                let mut opts = opts0;
                opts.push(o.to_owned());
                p.property_type = ParsedPropertyType::Select { options: opts };
                st.props.push(p);
            },
            pt => {
                p.property_type = pt;
                st.props.push(p);
            },
        }
    }
    proof {
        assert(st@.props =~~= push_option(pre.props, o@));
        assert(st@ =~~= (ParseState { props: push_option(pre.props, o@), ..pre }));
    }
    st
}

/// A `Name: Type` property definition line.
fn prop_def_line_x(st: ParserState, d: usize, raw: &str) -> (r: ParserState)
    ensures
        r@ == prop_def_line(st@, d as int, raw@),
{
    let ghost pre = st@;
    let mut st = st;
    if exactly_one_colon_x(raw) {
        let name = trim_str(colon_before_x(raw)).to_owned();
        let tok = trim_str(colon_after_x(raw));
        if str_eq(tok, "Text") {
            st.props.push(ParsedProperty { name, property_type: ParsedPropertyType::Text });
            st.select_ind = Option::None;
        } else if str_eq(tok, "Number") {
            st.props.push(ParsedProperty { name, property_type: ParsedPropertyType::Number });
            st.select_ind = Option::None;
        } else if str_eq(tok, "Date") {
            st.props.push(ParsedProperty { name, property_type: ParsedPropertyType::Date });
            st.select_ind = Option::None;
        } else if str_eq(tok, "Checkbox") {
            st.props.push(ParsedProperty { name, property_type: ParsedPropertyType::Checkbox });
            st.select_ind = Option::None;
        } else if str_eq(tok, "Select") {
            st.props.push(
                ParsedProperty {
                    name,
                    property_type: ParsedPropertyType::Select { options: Vec::new() },
                },
            );
            st.select_ind = Option::Some(d);
        } else {
            st.failed = Option::Some(
                MarkdownError::InvalidPropertyType(fmt_msg("Unknown property type: ", tok)),
            );
        }
    } else {
        st.failed = Option::Some(
            MarkdownError::InvalidFormat(fmt_msg("Invalid property format: ", raw)),
        );
    }
    proof {
        assert(st@ =~~= prop_def_line(pre, d as int, raw@));
    }
    st
}

fn props_line_x(st: ParserState, l: &str) -> (r: ParserState)
    ensures
        r@ == props_line(st@, l@),
{
    let ghost pre = st@;
    if line_blank_x(l) {
        let mut st = st;
        st.select_ind = Option::None;
        return st;
    }
    match list_item_x(l) {
        Option::Some((d, raw)) => {
            let is_opt = match st.select_ind {
                Option::Some(si) => d > si,
                Option::None => false,
            };
            if is_opt {
                let r = push_option_x(st, trim_str(raw));
                proof {
                    assert(r@ =~~= props_line(pre, l@));
                }
                r
            } else {
                prop_def_line_x(st, d, raw)
            }
        },
        Option::None => {
            let mut st = st;
            if is_heading_x(l, "Views") {
                st.section = Section::Views;
                st.select_ind = Option::None;
                st.in_view_block = false;
            } else if is_heading_x(l, "Cards") {
                st.section = Section::Cards;
                st.select_ind = Option::None;
                st.card_open = false;
            } else {
                st.section = Section::Finished;
            }
            st
        },
    }
}

/// Open a new view with default settings.
fn start_view_x(st: ParserState, name: &str) -> (r: ParserState)
    ensures
        r@ == start_view(st@, name@),
{
    let ghost pre = st@;
    let mut st = st;
    st.views.push(
        ParsedView {
            name: name.to_owned(),
            layout: ParsedViewType::Board,
            group: Option::None,
            filter: Option::None,
            sort_by: Option::None,
            sort_type: KanbanSortType::Unsorted,
            column_sorts: Vec::new(),
            display: Option::None,
        },
    );
    st.in_view_block = true;
    st.cur_col = Option::None;
    proof {
        assert(st@ =~~= start_view(pre, name@));
    }
    st
}

/// A `Key: Value` attribute line of the open view.
fn view_attr_line_x(st: ParserState, l: &str) -> (r: ParserState)
    ensures
        r@ == view_attr_line(st@, l@),
{
    let ghost pre = st@;
    let mut st = st;
    if exactly_one_colon_x(l) && st.views.len() > 0 {
        let key = trim_str(colon_before_x(l));
        let val = trim_str(colon_after_x(l));
        let mut v = st.views.pop().unwrap();
        if str_eq(key, "Layout") {
            v.layout = layout_of_x(val);
        } else if str_eq(key, "Group") {
            v.group = Option::Some(val.to_owned());
        } else if str_eq(key, "Filter") {
            v.filter = Option::Some(val.to_owned());
        } else if str_eq(key, "Sort") {
            v.sort_by = Option::Some(val.to_owned());
        } else if str_eq(key, "Sort Type") {
            v.sort_type = sort_type_of_x(val);
        } else if str_eq(key, "Display") {
            v.display = Option::Some(val.to_owned());
        }
        st.views.push(v);
    }
    proof {
        assert(st@ =~~= view_attr_line(pre, l@));
    }
    st
}

/// Open a new manual-sort column on the open view.
fn push_column_x(st: ParserState, name: &str) -> (r: ParserState)
    ensures
        r@ == (ParseState { views: push_column(st@.views, name@), ..st@ }),
{
    let ghost pre = st@;
    let mut st = st;
    if st.views.len() > 0 {
        let mut v = st.views.pop().unwrap();
        v.column_sorts.push(ColumnSort { column: name.to_owned(), order: Vec::new() });
        st.views.push(v);
    }
    proof {
        assert(st@.views =~~= push_column(pre.views, name@));
        assert(st@ =~~= (ParseState { views: push_column(pre.views, name@), ..pre }));
    }
    st
}

/// Append a card id to the open column of the open view.
fn push_column_id_x(st: ParserState, id: usize) -> (r: ParserState)
    ensures
        r@ == (ParseState { views: push_column_id(st@.views, id as int), ..st@ }),
{
    let ghost pre = st@;
    let mut st = st;
    if st.views.len() > 0 {
        let mut v = st.views.pop().unwrap();
        if v.column_sorts.len() > 0 {
            let mut c = v.column_sorts.pop().unwrap();
            c.order.push(id);
            v.column_sorts.push(c);
        }
        st.views.push(v);
    }
    proof {
        assert(st@.views =~~= push_column_id(pre.views, id as int));
        assert(st@ =~~= (ParseState { views: push_column_id(pre.views, id as int), ..pre }));
    }
    st
}

/// An indented, non-blank line inside a view's attribute block.
fn view_block_line_x(st: ParserState, l: &str) -> (r: ParserState)
    ensures
        r@ == view_block_line(st@, l@),
{
    let ghost pre = st@;
    match list_item_x(l) {
        Option::Some((d, raw)) => {
            let id_entry = match st.cur_col {
                Option::Some(ci) => d > ci,
                Option::None => false,
            };
            if id_entry {
                let tok = trim_str(raw);
                match parse_usize_x(tok) {
                    Option::Some(v) => {
                        let r = push_column_id_x(st, v);
                        proof {
                            assert(r@ =~~= view_block_line(pre, l@));
                        }
                        r
                    },
                    Option::None => {
                        let mut st = st;
                        st.failed = Option::Some(
                            MarkdownError::InvalidFormat(fmt_msg("Expected number, got: ", tok)),
                        );
                        st
                    },
                }
            } else if d >= 3 {
                let mut st = push_column_x(st, trim_str(raw));
                st.cur_col = Option::Some(d);
                proof {
                    assert(st@ =~~= view_block_line(pre, l@));
                }
                st
            } else {
                view_attr_line_x(st, l)
            }
        },
        Option::None => view_attr_line_x(st, l),
    }
}

fn views_line_x(st: ParserState, l: &str) -> (r: ParserState)
    ensures
        r@ == views_line(st@, l@),
{
    let ghost pre = st@;
    if line_blank_x(l) {
        let mut st = st;
        st.in_view_block = false;
        st.cur_col = Option::None;
        return st;
    }
    let ind = ws_end_x(l, 0);
    if ind == 0 {
        match list_item_x(l) {
            Option::Some((d, raw)) => start_view_x(st, trim_str(raw)),
            Option::None => {
                let mut st = st;
                if is_heading_x(l, "Cards") {
                    st.section = Section::Cards;
                    st.in_view_block = false;
                    st.cur_col = Option::None;
                    st.card_open = false;
                } else {
                    st.section = Section::Finished;
                }
                st
            },
        }
    } else if st.in_view_block {
        view_block_line_x(st, l)
    } else {
        match list_item_x(l) {
            Option::Some((d, raw)) => start_view_x(st, trim_str(raw)),
            Option::None => {
                let mut st = st;
                st.section = Section::Finished;
                st
            },
        }
    }
}

/// An indented, non-blank line of the open card.
fn card_body_line_x(st: ParserState, l: &str) -> (r: ParserState)
    ensures
        r@ == card_body_line(st@, l@),
{
    let ghost pre = st@;
    let mut st = st;
    if st.cards.len() == 0 {
        return st;
    }
    match st.card_phase {
        CardPhase::Fields => {
            if has_colon_x(l) {
                let property_name = trim_str(colon_before_x(l)).to_owned();
                let value = trim_str(colon_after_x(l)).to_owned();
                let mut c = st.cards.pop().unwrap();
                c.properties.push(ParsedPropertyValue { property_name, value });
                st.cards.push(c);
            } else {
                let mut c = st.cards.pop().unwrap();
                c.description = line_content_x(l).to_owned();
                st.cards.push(c);
                st.card_phase = CardPhase::Description;
            }
        },
        CardPhase::Description => {
            if has_colon_x(l) {
                st.card_phase = CardPhase::Tail;
            } else {
                let mut c = st.cards.pop().unwrap();
                c.description.append("\n");
                c.description.append(line_content_x(l));
                st.cards.push(c);
                proof {
                    reveal_strlit("\n");
                    assert("\n"@ =~= seq!['\n']);
                }
            }
        },
        CardPhase::Tail => {},
    }
    proof {
        assert(st@ =~~= card_body_line(pre, l@));
    }
    st
}

fn cards_line_x(st: ParserState, l: &str) -> (r: ParserState)
    ensures
        r@ == cards_line(st@, l@),
{
    let ghost pre = st@;
    if line_blank_x(l) {
        let mut st = st;
        st.card_open = false;
        return st;
    }
    let ind = ws_end_x(l, 0);
    proof {
        lemma_ws_end(l@, 0);
    }
    if st.card_open && ind >= 1 {
        card_body_line_x(st, l)
    } else {
        match list_item_x(l) {
            Option::Some((d, raw)) => {
                let mut st = st;
                st.cards.push(
                    ParsedCard {
                        id: 0,
                        title: trim_str(raw).to_owned(),
                        description: String::new(),
                        properties: Vec::new(),
                    },
                );
                st.card_open = true;
                st.card_phase = CardPhase::Fields;
                proof {
                    assert(st@ =~~= cards_line(pre, l@));
                }
                st
            },
            Option::None => {
                let mut st = st;
                if l.get_char(ind) == '-' {
                    st.failed = Option::Some(
                        MarkdownError::InvalidFormat("Could not parse card items".to_owned()),
                    );
                } else {
                    st.section = Section::Finished;
                }
                st
            },
        }
    }
}

// ---------------------------------------------------------------------------
// The driver
// ---------------------------------------------------------------------------

fn parse_line_x(st: ParserState, l: &str) -> (r: ParserState)
    ensures
        r@ == parse_line(st@, l@),
{
    if st.failed.is_some() || st.section == Section::Finished {
        return st;
    }
    match st.section {
        Section::Top => top_line_x(st, l),
        Section::Properties => props_line_x(st, l),
        Section::Views => views_line_x(st, l),
        Section::Cards => cards_line_x(st, l),
        Section::Finished => st,
    }
}

/// Fold the line transition over all lines of the input.
fn parse_text(s: &str, section: Section) -> (st: ParserState)
    ensures
        st@ == parse_lines_from(
            split_lines_spec(s@),
            0,
            ParseState { section, ..init_state() },
        ),
{
    let lines = split_lines(s);
    let ghost ls = lines.deep_view();
    let mut st = new_state(section);
    let mut i: usize = 0;
    while i < lines.len()
        invariant
            0 <= i <= lines.len(),
            ls == lines.deep_view(),
            ls == split_lines_spec(s@),
            parse_lines_from(ls, i as int, st@) == parse_lines_from(
                ls,
                0,
                ParseState { section, ..init_state() },
            ),
        decreases lines.len() - i,
    {
        let l = &lines[i];
        proof {
            assert(l@ == ls[i as int]);
        }
        st = parse_line_x(st, l.as_str());
        i += 1;
    }
    st
}

/// Give the cards their position-based ids, in order.
fn assign_ids_x(cards: Vec<ParsedCard>) -> (r: Vec<ParsedCard>)
    ensures
        r@.map_values(|c: ParsedCard| c@) == assign_ids(cards@.map_values(|c: ParsedCard| c@)),
{
    let ghost orig = cards@.map_values(|c: ParsedCard| c@);
    let mut out: Vec<ParsedCard> = Vec::new();
    let mut rest = cards;
    while rest.len() > 0
        invariant
            out@.len() + rest@.len() == orig.len(),
            out@.map_values(|c: ParsedCard| c@) =~= assign_ids(orig).take(out@.len() as int),
            rest@.map_values(|c: ParsedCard| c@) =~= orig.skip(out@.len() as int),
        decreases rest@.len(),
    {
        let ghost k = out@.len() as int;
        let ghost rest0 = rest@;
        let mut c = rest.remove(0);
        proof {
            assert(c@ == rest0.map_values(|cc: ParsedCard| cc@)[0]);
            assert(orig.skip(k)[0] == orig[k]);
            assert forall|j: int| 0 <= j < rest@.len() implies (#[trigger] rest@[j])@ == orig.skip(
                k + 1,
            )[j] by {
                assert(rest@[j] == rest0[j + 1]);
                assert(rest0.map_values(|cc: ParsedCard| cc@)[j + 1] == rest0[j + 1]@);
                assert(orig.skip(k)[j + 1] == orig[k + 1 + j]);
                assert(orig.skip(k + 1)[j] == orig[k + 1 + j]);
            }
            assert(rest@.map_values(|cc: ParsedCard| cc@) =~= orig.skip(k + 1));
        }
        c.id = out.len();
        out.push(c);
        proof {
            assert(out@.map_values(|c: ParsedCard| c@) =~= assign_ids(orig).take(k + 1));
        }
    }
    proof {
        assert(out@.map_values(|c: ParsedCard| c@) =~= assign_ids(orig));
    }
    out
}

// ---------------------------------------------------------------------------
// Public entry points
// ---------------------------------------------------------------------------

/// Whether the line is a heading introducing the named section.
pub fn heading(content: &str, l: &str) -> (r: bool)
    ensures
        r == is_heading(l@, content@),
{
    is_heading_x(l, content)
}

/// The raw content of a list-item line, if the line is one.
pub fn list_item(l: &str) -> (r: Option<String>)
    ensures
        match r {
            Option::Some(s) => list_item_spec(l@) is Some && s@ == (list_item_spec(l@)->0).1,
            Option::None => list_item_spec(l@) is None,
        },
{
    match list_item_x(l) {
        Option::Some((d, raw)) => Option::Some(raw.to_owned()),
        Option::None => Option::None,
    }
}

/// Parse a whole document: optional `Properties`, `Views` and `Cards`
/// sections in that order.  Card ids are assigned by position, starting at 0.
pub fn parse_document(s: &str) -> (r: Result<ParsedDocument, MarkdownError>)
    ensures
        match r {
            Result::Ok(d) => parse_doc_spec(s@) == Result::<_, ParseErrModel>::Ok(d@),
            Result::Err(e) => parse_doc_spec(s@) == Result::<crate::document::DocModel, _>::Err(
                e@,
            ),
        },
{
    let st = parse_text(s, Section::Top);
    match st.failed {
        Option::Some(e) => Result::Err(e),
        Option::None => {
            let cards = assign_ids_x(st.cards);
            let d = ParsedDocument { properties: st.props, cards, views: st.views };
            proof {
                assert(d@ =~~= parse_doc_spec(s@)->Ok_0);
            }
            Result::Ok(d)
        },
    }
}

/// Parse one property definition, with any Select options.
pub fn parse_property(s: &str) -> (r: Result<ParsedProperty, MarkdownError>)
    ensures
        ({
            let st = parse_lines_from(
                split_lines_spec(s@),
                0,
                ParseState { section: Section::Properties, ..init_state() },
            );
            match r {
                Result::Ok(p) => st.failed is None && st.props.len() > 0 && p@ == st.props[0],
                Result::Err(e) => match st.failed {
                    Option::Some(f) => e@ == f,
                    Option::None => st.props.len() == 0 && e@ == (ParseErrModel::InvalidFormat {
                        message: "Expected a list item"@,
                    }),
                },
            }
        }),
{
    let mut st = parse_text(s, Section::Properties);
    match st.failed {
        Option::Some(e) => Result::Err(e),
        Option::None => {
            if st.props.len() > 0 {
                let p = st.props.remove(0);
                Result::Ok(p)
            } else {
                Result::Err(MarkdownError::InvalidFormat("Expected a list item".to_owned()))
            }
        },
    }
}

/// Parse one view definition with its attribute block.
pub fn parse_view(s: &str) -> (r: Result<ParsedView, MarkdownError>)
    ensures
        ({
            let st = parse_lines_from(
                split_lines_spec(s@),
                0,
                ParseState { section: Section::Views, ..init_state() },
            );
            match r {
                Result::Ok(v) => st.failed is None && st.views.len() > 0 && v@ == st.views[0],
                Result::Err(e) => match st.failed {
                    Option::Some(f) => e@ == f,
                    Option::None => st.views.len() == 0 && e@ == (ParseErrModel::InvalidFormat {
                        message: "Expected a list item"@,
                    }),
                },
            }
        }),
{
    let mut st = parse_text(s, Section::Views);
    match st.failed {
        Option::Some(e) => Result::Err(e),
        Option::None => {
            if st.views.len() > 0 {
                let v = st.views.remove(0);
                Result::Ok(v)
            } else {
                Result::Err(MarkdownError::InvalidFormat("Expected a list item".to_owned()))
            }
        },
    }
}

/// Parse one card: title line, `name: value` lines, then description lines.
/// The card's id is left 0; document parsing assigns ids afterwards.
pub fn parse_card(s: &str) -> (r: Result<ParsedCard, MarkdownError>)
    ensures
        ({
            let st = parse_lines_from(
                split_lines_spec(s@),
                0,
                ParseState { section: Section::Cards, ..init_state() },
            );
            match r {
                Result::Ok(c) => st.failed is None && st.cards.len() > 0 && c@ == st.cards[0],
                Result::Err(e) => match st.failed {
                    Option::Some(f) => e@ == f,
                    Option::None => st.cards.len() == 0 && e@ == (ParseErrModel::InvalidFormat {
                        message: "Expected a list item"@,
                    }),
                },
            }
        }),
{
    let mut st = parse_text(s, Section::Cards);
    match st.failed {
        Option::Some(e) => Result::Err(e),
        Option::None => {
            if st.cards.len() > 0 {
                let c = st.cards.remove(0);
                Result::Ok(c)
            } else {
                Result::Err(MarkdownError::InvalidFormat("Expected a list item".to_owned()))
            }
        },
    }
}

/// Parse a `# Cards` section: all cards, ids assigned by position.
pub fn parse_cards_section(s: &str) -> (r: Result<Vec<ParsedCard>, MarkdownError>)
    ensures
        ({
            let st = parse_lines_from(
                split_lines_spec(s@),
                0,
                ParseState { section: Section::Top, ..init_state() },
            );
            match r {
                Result::Ok(cs) => st.failed is None && cs@.map_values(|c: ParsedCard| c@)
                    == assign_ids(st.cards),
                Result::Err(e) => st.failed == Option::Some(e@),
            }
        }),
{
    let st = parse_text(s, Section::Top);
    match st.failed {
        Option::Some(e) => Result::Err(e),
        Option::None => Result::Ok(assign_ids_x(st.cards)),
    }
}

impl ParsedDocument {
    /// Parse a whole document from text.
    pub fn try_parse(s: &str) -> (r: Result<ParsedDocument, MarkdownError>)
        ensures
            match r {
                Result::Ok(d) => parse_doc_spec(s@) == Result::<_, ParseErrModel>::Ok(d@),
                Result::Err(e) => parse_doc_spec(s@) == Result::<
                    crate::document::DocModel,
                    _,
                >::Err(e@),
            },
    {
        parse_document(s)
    }
}

} // verus!
