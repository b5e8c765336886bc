use vstd::prelude::*;

use crate::document::CardModel;
use crate::document::ColSortModel;
use crate::document::ColumnSort;
use crate::document::DocModel;
use crate::document::KanbanSortType;
use crate::document::ParsedCard;
use crate::document::ParsedDocument;
use crate::document::ParsedProperty;
use crate::document::ParsedPropertyType;
use crate::document::ParsedPropertyValue;
use crate::document::ParsedView;
use crate::document::ParsedViewType;
use crate::document::PropModel;
use crate::document::PropTypeModel;
use crate::document::PropValModel;
use crate::document::ViewModel;
use crate::text::dec_digits;
use crate::text::split_lines;
use crate::text::split_lines_spec;
use crate::text::usize_to_string;

verus! {

// ---------------------------------------------------------------------------
// What serialization produces, as a sequence of lines.
// ---------------------------------------------------------------------------

pub open spec fn prop_type_token(t: PropTypeModel) -> Seq<char> {
    match t {
        PropTypeModel::Text => "Text"@,
        PropTypeModel::Select { options } => "Select"@,
        PropTypeModel::Number => "Number"@,
        PropTypeModel::Date => "Date"@,
        PropTypeModel::Checkbox => "Checkbox"@,
    }
}

pub open spec fn layout_token(t: ParsedViewType) -> Seq<char> {
    match t {
        ParsedViewType::Board => "Board"@,
        ParsedViewType::Table => "Table"@,
        ParsedViewType::Calendar => "Calendar"@,
        ParsedViewType::Timeline => "Timeline"@,
    }
}

pub open spec fn sort_type_token(t: KanbanSortType) -> Seq<char> {
    match t {
        KanbanSortType::Alpha => "Alpha"@,
        KanbanSortType::ReverseAlpha => "ReverseAlpha"@,
        KanbanSortType::Manual => "Manual"@,
        KanbanSortType::Unsorted => "None"@,
    }
}

/// The lines a property serializes to: its definition, one further-indented
/// line per Select option, and a separating blank line.
pub open spec fn prop_lines(p: PropModel) -> Seq<Seq<char>> {
    let opts = match p.typ {
        PropTypeModel::Select { options } => options.map_values(|o: Seq<char>| "\t- "@ + o),
        _ => Seq::empty(),
    };
    seq!["- "@ + p.name + ": "@ + prop_type_token(p.typ)] + opts + seq![Seq::<char>::empty()]
}

/// The lines of one manual-sort column block.
pub open spec fn col_lines(c: ColSortModel) -> Seq<Seq<char>> {
    seq!["    - "@ + c.column] + c.order.map_values(|id: int| "      - "@ + dec_digits(id))
}

pub open spec fn cols_lines(cs: Seq<ColSortModel>) -> Seq<Seq<char>>
    decreases cs.len(),
{
    if cs.len() == 0 {
        Seq::empty()
    } else {
        col_lines(cs.first()) + cols_lines(cs.drop_first())
    }
}

/// The lines a view serializes to.
pub open spec fn view_lines(v: ViewModel) -> Seq<Seq<char>> {
    seq!["- "@ + v.name, "  Layout: "@ + layout_token(v.layout)] + (match v.group {
        Option::Some(g) => seq!["  Group: "@ + g],
        Option::None => Seq::empty(),
    }) + (match v.sort_by {
        Option::Some(s) => seq!["  Sort: "@ + s],
        Option::None => Seq::empty(),
    }) + (if v.sort_type != KanbanSortType::Unsorted {
        seq!["  Sort Type: "@ + sort_type_token(v.sort_type)]
    } else {
        Seq::empty()
    }) + (if v.sort_type == KanbanSortType::Manual {
        cols_lines(v.column_sorts)
    } else {
        Seq::empty()
    }) + (match v.filter {
        Option::Some(f) => seq!["  Filter: "@ + f],
        Option::None => Seq::empty(),
    }) + (match v.display {
        Option::Some(d) => seq!["  Display: "@ + d],
        Option::None => Seq::empty(),
    }) + seq![Seq::<char>::empty()]
}

/// A non-empty description is emitted as its lines, each indented.
pub open spec fn desc_lines(d: Seq<char>) -> Seq<Seq<char>> {
    split_lines_spec(d).map_values(|dl: Seq<char>| "  "@ + dl)
}

/// The lines a card serializes to.
pub open spec fn card_lines(c: CardModel) -> Seq<Seq<char>> {
    seq!["- "@ + c.title] + c.properties.map_values(
        |pv: PropValModel| "  "@ + pv.property_name + ": "@ + pv.value,
    ) + (if c.description.len() > 0 {
        desc_lines(c.description)
    } else {
        Seq::empty()
    }) + seq![Seq::<char>::empty()]
}

pub open spec fn props_lines_all(ps: Seq<PropModel>) -> Seq<Seq<char>>
    decreases ps.len(),
{
    if ps.len() == 0 {
        Seq::empty()
    } else {
        prop_lines(ps.first()) + props_lines_all(ps.drop_first())
    }
}

pub open spec fn views_lines_all(vs: Seq<ViewModel>) -> Seq<Seq<char>>
    decreases vs.len(),
{
    if vs.len() == 0 {
        Seq::empty()
    } else {
        view_lines(vs.first()) + views_lines_all(vs.drop_first())
    }
}

pub open spec fn cards_lines_all(cs: Seq<CardModel>) -> Seq<Seq<char>>
    decreases cs.len(),
{
    if cs.len() == 0 {
        Seq::empty()
    } else {
        card_lines(cs.first()) + cards_lines_all(cs.drop_first())
    }
}

/// All lines of a serialized document: only non-empty sections appear,
/// always in the order Properties, Views, Cards.
pub open spec fn doc_lines(d: DocModel) -> Seq<Seq<char>> {
    (if d.properties.len() > 0 {
        seq!["# Properties"@] + props_lines_all(d.properties)
    } else {
        Seq::empty()
    }) + (if d.views.len() > 0 {
        seq!["# Views"@] + views_lines_all(d.views)
    } else {
        Seq::empty()
    }) + (if d.cards.len() > 0 {
        seq!["# Cards"@] + cards_lines_all(d.cards)
    } else {
        Seq::empty()
    })
}

/// Lines joined into text: every line followed by one newline.
pub open spec fn join_lines(ls: Seq<Seq<char>>) -> Seq<char>
    decreases ls.len(),
{
    if ls.len() == 0 {
        Seq::empty()
    } else {
        ls.first() + seq!['\n'] + join_lines(ls.drop_first())
    }
}

/// What serializing a document yields.
pub open spec fn render_doc(d: DocModel) -> Seq<char> {
    join_lines(doc_lines(d))
}

// ---------------------------------------------------------------------------
// Structural lemmas
// ---------------------------------------------------------------------------

pub proof fn lemma_join_append(a: Seq<Seq<char>>, b: Seq<Seq<char>>)
    ensures
        join_lines(a + b) == join_lines(a) + join_lines(b),
    decreases a.len(),
{
    if a.len() == 0 {
        assert(a + b =~= b);
        assert(join_lines(a) + join_lines(b) =~= join_lines(b));
    } else {
        assert((a + b).drop_first() =~= a.drop_first() + b);
        lemma_join_append(a.drop_first(), b);
        assert((a + b).first() == a.first());
        assert(join_lines(a + b) =~= join_lines(a) + join_lines(b));
    }
}

pub proof fn lemma_join_snoc(ls: Seq<Seq<char>>, l: Seq<char>)
    ensures
        join_lines(ls.push(l)) == join_lines(ls) + l + seq!['\n'],
{
    assert(ls.push(l) =~= ls + seq![l]);
    lemma_join_append(ls, seq![l]);
    assert(join_lines(seq![l]) =~= l + seq!['\n']) by {
        reveal_with_fuel(join_lines, 2);
        assert(seq![l].drop_first() =~= Seq::<Seq<char>>::empty());
    }
    assert(join_lines(ls) + (l + seq!['\n']) =~= join_lines(ls) + l + seq!['\n']);
}

pub proof fn lemma_props_lines_snoc(ps: Seq<PropModel>, p: PropModel)
    ensures
        props_lines_all(ps.push(p)) == props_lines_all(ps) + prop_lines(p),
    decreases ps.len(),
{
    if ps.len() == 0 {
        reveal_with_fuel(props_lines_all, 2);
        assert(ps.push(p).drop_first() =~= Seq::<PropModel>::empty());
        assert(props_lines_all(ps.push(p)) =~= props_lines_all(ps) + prop_lines(p));
    } else {
        assert(ps.push(p).drop_first() =~= ps.drop_first().push(p));
        lemma_props_lines_snoc(ps.drop_first(), p);
        assert(props_lines_all(ps.push(p)) =~= props_lines_all(ps) + prop_lines(p));
    }
}

pub proof fn lemma_views_lines_snoc(vs: Seq<ViewModel>, v: ViewModel)
    ensures
        views_lines_all(vs.push(v)) == views_lines_all(vs) + view_lines(v),
    decreases vs.len(),
{
    if vs.len() == 0 {
        reveal_with_fuel(views_lines_all, 2);
        assert(vs.push(v).drop_first() =~= Seq::<ViewModel>::empty());
        assert(views_lines_all(vs.push(v)) =~= views_lines_all(vs) + view_lines(v));
    } else {
        assert(vs.push(v).drop_first() =~= vs.drop_first().push(v));
        lemma_views_lines_snoc(vs.drop_first(), v);
        assert(views_lines_all(vs.push(v)) =~= views_lines_all(vs) + view_lines(v));
    }
}

pub proof fn lemma_cards_lines_snoc(cs: Seq<CardModel>, c: CardModel)
    ensures
        cards_lines_all(cs.push(c)) == cards_lines_all(cs) + card_lines(c),
    decreases cs.len(),
{
    if cs.len() == 0 {
        reveal_with_fuel(cards_lines_all, 2);
        assert(cs.push(c).drop_first() =~= Seq::<CardModel>::empty());
        assert(cards_lines_all(cs.push(c)) =~= cards_lines_all(cs) + card_lines(c));
    } else {
        assert(cs.push(c).drop_first() =~= cs.drop_first().push(c));
        lemma_cards_lines_snoc(cs.drop_first(), c);
        assert(cards_lines_all(cs.push(c)) =~= cards_lines_all(cs) + card_lines(c));
    }
}

pub proof fn lemma_cols_lines_snoc(cs: Seq<ColSortModel>, c: ColSortModel)
    ensures
        cols_lines(cs.push(c)) == cols_lines(cs) + col_lines(c),
    decreases cs.len(),
{
    if cs.len() == 0 {
        reveal_with_fuel(cols_lines, 2);
        assert(cs.push(c).drop_first() =~= Seq::<ColSortModel>::empty());
        assert(cols_lines(cs.push(c)) =~= cols_lines(cs) + col_lines(c));
    } else {
        assert(cs.push(c).drop_first() =~= cs.drop_first().push(c));
        lemma_cols_lines_snoc(cs.drop_first(), c);
        assert(cols_lines(cs.push(c)) =~= cols_lines(cs) + col_lines(c));
    }
}

// ---------------------------------------------------------------------------
// Executable serialization
// ---------------------------------------------------------------------------

/// Append one line to the output, tracked through `deep_view`.
fn push_line(out: &mut Vec<String>, l: String)
    ensures
        final(out).deep_view() == old(out).deep_view().push(l@),
{
    let ghost pre = out.deep_view();
    out.push(l);
    proof {
        assert(out.deep_view() =~= pre.push(l@));
    }
}

/// Concatenate two pieces into one line.
fn line2(a: &str, b: &str) -> (r: String)
    ensures
        r@ == a@ + b@,
{
    let mut s = a.to_owned();
    s.append(b);
    s
}

/// Concatenate four pieces into one line.
fn line4(a: &str, b: &str, c: &str, d: &str) -> (r: String)
    ensures
        r@ == a@ + b@ + c@ + d@,
{
    let mut s = a.to_owned();
    s.append(b);
    s.append(c);
    s.append(d);
    s
}

fn prop_type_token_x(t: &ParsedPropertyType) -> (r: &'static str)
    ensures
        r@ == prop_type_token(t@),
{
    match t {
        ParsedPropertyType::Text => "Text",
        ParsedPropertyType::Select { options } => "Select",
        ParsedPropertyType::Number => "Number",
        ParsedPropertyType::Date => "Date",
        ParsedPropertyType::Checkbox => "Checkbox",
    }
}

fn layout_token_x(t: &ParsedViewType) -> (r: &'static str)
    ensures
        r@ == layout_token(*t),
{
    match t {
        ParsedViewType::Board => "Board",
        ParsedViewType::Table => "Table",
        ParsedViewType::Calendar => "Calendar",
        ParsedViewType::Timeline => "Timeline",
    }
}

fn sort_type_token_x(t: &KanbanSortType) -> (r: &'static str)
    ensures
        r@ == sort_type_token(*t),
{
    match t {
        KanbanSortType::Alpha => "Alpha",
        KanbanSortType::ReverseAlpha => "ReverseAlpha",
        KanbanSortType::Manual => "Manual",
        KanbanSortType::Unsorted => "None",
    }
}

/// Append a property's lines.
fn push_prop_lines(out: &mut Vec<String>, p: &ParsedProperty)
    ensures
        final(out).deep_view() == old(out).deep_view() + prop_lines(p@),
{
    let ghost base = out.deep_view();
    let tok = prop_type_token_x(&p.property_type);
    push_line(out, line4("- ", p.name.as_str(), ": ", tok));
    match &p.property_type {
        ParsedPropertyType::Select { options } => {
            let mut i: usize = 0;
            while i < options.len()
                invariant
                    0 <= i <= options.len(),
                    p.property_type@ matches PropTypeModel::Select { options: opts } ==> (
                    options@.map_values(|s: String| s@) == opts && out.deep_view() == base + seq![
                        "- "@ + p.name@ + ": "@ + prop_type_token(p.property_type@),
                    ] + opts.take(i as int).map_values(|o: Seq<char>| "\t- "@ + o)),
                    p.property_type@ is Select,
                decreases options.len() - i,
            {
                push_line(out, line2("\t- ", options[i].as_str()));
                proof {
                    let opts = options@.map_values(|s: String| s@);
                    assert(opts.take(i as int).map_values(|o: Seq<char>| "\t- "@ + o).push(
                        "\t- "@ + opts[i as int],
                    ) =~= opts.take(i as int + 1).map_values(|o: Seq<char>| "\t- "@ + o));
                }
                i += 1;
            }
            proof {
                let opts = options@.map_values(|s: String| s@);
                assert(opts.take(options@.len() as int) =~= opts);
            }
        },
        _ => {},
    }
    push_line(out, String::new());
    proof {
        assert(out.deep_view() =~~= base + prop_lines(p@));
    }
}

/// Append a view's lines.
#[verifier::rlimit(100)]
fn push_view_lines(out: &mut Vec<String>, v: &ParsedView)
    ensures
        final(out).deep_view() == old(out).deep_view() + view_lines(v@),
{
    let ghost base = out.deep_view();
    push_line(out, line2("- ", v.name.as_str()));
    push_line(out, line2("  Layout: ", layout_token_x(&v.layout)));
    match &v.group {
        Option::Some(g) => push_line(out, line2("  Group: ", g.as_str())),
        Option::None => {},
    }
    match &v.sort_by {
        Option::Some(s) => push_line(out, line2("  Sort: ", s.as_str())),
        Option::None => {},
    }
    match v.sort_type {
        KanbanSortType::Unsorted => {},
        _ => push_line(out, line2("  Sort Type: ", sort_type_token_x(&v.sort_type))),
    }
    let ghost mid = out.deep_view();
    match v.sort_type {
        KanbanSortType::Manual => {
            let mut i: usize = 0;
            while i < v.column_sorts.len()
                invariant
                    0 <= i <= v.column_sorts.len(),
                    out.deep_view() == mid + cols_lines(
                        v.column_sorts@.map_values(|c: ColumnSort| c@).take(i as int),
                    ),
                decreases v.column_sorts.len() - i,
            {
                let ghost cs = v.column_sorts@.map_values(|c: ColumnSort| c@);
                let col = &v.column_sorts[i];
                push_line(out, line2("    - ", col.column.as_str()));
                let mut j: usize = 0;
                while j < col.order.len()
                    invariant
                        0 <= j <= col.order.len(),
                        cs == v.column_sorts@.map_values(|c: ColumnSort| c@),
                        col == v.column_sorts@[i as int],
                        i < v.column_sorts@.len(),
                        out.deep_view() == mid + cols_lines(cs.take(i as int)) + seq![
                            "    - "@ + col.column@,
                        ] + col.order@.map_values(|n: usize| n as int).take(j as int).map_values(
                            |id: int| "      - "@ + dec_digits(id),
                        ),
                    decreases col.order.len() - j,
                {
                    let num = usize_to_string(col.order[j]);
                    push_line(out, line2("      - ", num.as_str()));
                    proof {
                        let ord = col.order@.map_values(|n: usize| n as int);
                        assert(ord.take(j as int).map_values(
                            |id: int| "      - "@ + dec_digits(id),
                        ).push("      - "@ + dec_digits(ord[j as int])) =~= ord.take(
                            j as int + 1,
                        ).map_values(|id: int| "      - "@ + dec_digits(id)));
                    }
                    j += 1;
                }
                proof {
                    let ord = col.order@.map_values(|n: usize| n as int);
                    assert(ord.take(col.order@.len() as int) =~= ord);
                    assert(cs[i as int] == col@);
                    lemma_cols_lines_snoc(cs.take(i as int), col@);
                    assert(cs.take(i as int).push(col@) =~= cs.take(i as int + 1));
                    assert(out.deep_view() =~= mid + cols_lines(cs.take(i as int + 1)));
                }
                i += 1;
            }
            proof {
                let cs = v.column_sorts@.map_values(|c: ColumnSort| c@);
                assert(cs.take(v.column_sorts@.len() as int) =~= cs);
            }
        },
        _ => {},
    }
    match &v.filter {
        Option::Some(f) => push_line(out, line2("  Filter: ", f.as_str())),
        Option::None => {},
    }
    match &v.display {
        Option::Some(d) => push_line(out, line2("  Display: ", d.as_str())),
        Option::None => {},
    }
    push_line(out, String::new());
    proof {
        assert(out.deep_view() =~~= base + view_lines(v@));
    }
}

/// Append a card's lines.
fn push_card_lines(out: &mut Vec<String>, c: &ParsedCard)
    ensures
        final(out).deep_view() == old(out).deep_view() + card_lines(c@),
{
    let ghost base = out.deep_view();
    push_line(out, line2("- ", c.title.as_str()));
    let mut i: usize = 0;
    while i < c.properties.len()
        invariant
            0 <= i <= c.properties.len(),
            out.deep_view() == base + seq!["- "@ + c.title@] + c.properties@.map_values(
                |pv: ParsedPropertyValue| pv@,
            ).take(i as int).map_values(
                |pv: PropValModel| "  "@ + pv.property_name + ": "@ + pv.value,
            ),
        decreases c.properties.len() - i,
    {
        let pv = &c.properties[i];
        push_line(out, line4("  ", pv.property_name.as_str(), ": ", pv.value.as_str()));
        proof {
            let pvs = c.properties@.map_values(|pv: ParsedPropertyValue| pv@);
            assert(pvs.take(i as int).map_values(
                |pv: PropValModel| "  "@ + pv.property_name + ": "@ + pv.value,
            ).push("  "@ + pvs[i as int].property_name + ": "@ + pvs[i as int].value) =~= pvs.take(
                i as int + 1,
            ).map_values(|pv: PropValModel| "  "@ + pv.property_name + ": "@ + pv.value));
        }
        i += 1;
    }
    proof {
        let pvs = c.properties@.map_values(|pv: ParsedPropertyValue| pv@);
        assert(pvs.take(c.properties@.len() as int) =~= pvs);
    }
    if c.description.as_str().unicode_len() > 0 {
        let ghost mid = out.deep_view();
        let dls = split_lines(c.description.as_str());
        let mut j: usize = 0;
        while j < dls.len()
            invariant
                0 <= j <= dls.len(),
                dls.deep_view() == split_lines_spec(c.description@),
                out.deep_view() == mid + split_lines_spec(c.description@).take(
                    j as int,
                ).map_values(|dl: Seq<char>| "  "@ + dl),
            decreases dls.len() - j,
        {
            push_line(out, line2("  ", dls[j].as_str()));
            proof {
                let sls = split_lines_spec(c.description@);
                assert(dls[j as int]@ == sls[j as int]);
                assert(sls.take(j as int).map_values(|dl: Seq<char>| "  "@ + dl).push(
                    "  "@ + sls[j as int],
                ) =~= sls.take(j as int + 1).map_values(|dl: Seq<char>| "  "@ + dl));
            }
            j += 1;
        }
        proof {
            let sls = split_lines_spec(c.description@);
            assert(sls.take(sls.len() as int) =~= sls);
        }
    }
    push_line(out, String::new());
    proof {
        assert(out.deep_view() =~~= base + card_lines(c@));
    }
}

/// Join lines into the final text, one newline after every line.
fn join_lines_x(ls: &Vec<String>) -> (r: String)
    ensures
        r@ == join_lines(ls.deep_view()),
{
    let mut s = String::new();
    let mut i: usize = 0;
    while i < ls.len()
        invariant
            0 <= i <= ls.len(),
            s@ == join_lines(ls.deep_view().take(i as int)),
        decreases ls.len() - i,
    {
        s.append(ls[i].as_str());
        s.append("\n");
        proof {
            reveal_strlit("\n");
            assert("\n"@ =~= seq!['\n']);
            lemma_join_snoc(ls.deep_view().take(i as int), ls.deep_view()[i as int]);
            assert(ls.deep_view().take(i as int).push(ls.deep_view()[i as int]) =~= ls.deep_view()
                .take(i as int + 1));
        }
        i += 1;
    }
    proof {
        assert(ls.deep_view().take(ls.deep_view().len() as int) =~= ls.deep_view());
    }
    s
}

impl ParsedDocument {
    /// Serialize the document back into its text form: the non-empty
    /// sections in order, each entity followed by a blank line.
    pub fn to_markdown(&self) -> (r: String)
        ensures
            r@ == render_doc(self@),
    {
        let mut lines: Vec<String> = Vec::new();
        let ghost props = self.properties@.map_values(|p: ParsedProperty| p@);
        let ghost views = self.views@.map_values(|v: ParsedView| v@);
        let ghost cards = self.cards@.map_values(|c: ParsedCard| c@);
        if self.properties.len() > 0 {
            push_line(&mut lines, "# Properties".to_owned());
            let mut i: usize = 0;
            while i < self.properties.len()
                invariant
                    0 <= i <= self.properties.len(),
                    props == self.properties@.map_values(|p: ParsedProperty| p@),
                    lines.deep_view() == seq!["# Properties"@] + props_lines_all(
                        props.take(i as int),
                    ),
                decreases self.properties.len() - i,
            {
                push_prop_lines(&mut lines, &self.properties[i]);
                proof {
                    lemma_props_lines_snoc(props.take(i as int), props[i as int]);
                    assert(props.take(i as int).push(props[i as int]) =~= props.take(i as int + 1));
                }
                i += 1;
            }
            proof {
                assert(props.take(props.len() as int) =~= props);
            }
        }
        let ghost after_props = lines.deep_view();
        if self.views.len() > 0 {
            push_line(&mut lines, "# Views".to_owned());
            let mut i: usize = 0;
            while i < self.views.len()
                invariant
                    0 <= i <= self.views.len(),
                    views == self.views@.map_values(|v: ParsedView| v@),
                    lines.deep_view() == after_props + seq!["# Views"@] + views_lines_all(
                        views.take(i as int),
                    ),
                decreases self.views.len() - i,
            {
                push_view_lines(&mut lines, &self.views[i]);
                proof {
                    lemma_views_lines_snoc(views.take(i as int), views[i as int]);
                    assert(views.take(i as int).push(views[i as int]) =~= views.take(i as int + 1));
                }
                i += 1;
            }
            proof {
                assert(views.take(views.len() as int) =~= views);
            }
        }
        let ghost after_views = lines.deep_view();
        if self.cards.len() > 0 {
            push_line(&mut lines, "# Cards".to_owned());
            let mut i: usize = 0;
            while i < self.cards.len()
                invariant
                    0 <= i <= self.cards.len(),
                    cards == self.cards@.map_values(|c: ParsedCard| c@),
                    lines.deep_view() == after_views + seq!["# Cards"@] + cards_lines_all(
                        cards.take(i as int),
                    ),
                decreases self.cards.len() - i,
            {
                push_card_lines(&mut lines, &self.cards[i]);
                proof {
                    lemma_cards_lines_snoc(cards.take(i as int), cards[i as int]);
                    assert(cards.take(i as int).push(cards[i as int]) =~= cards.take(i as int + 1));
                }
                i += 1;
            }
            proof {
                assert(cards.take(cards.len() as int) =~= cards);
            }
        }
        proof {
            assert(lines.deep_view() =~= doc_lines(self@));
        }
        join_lines_x(&lines)
    }
}

} // verus!
