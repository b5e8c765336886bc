use vstd::prelude::*;

use crate::document::CardModel;
use crate::document::ColumnSort;
use crate::document::DocModel;
use crate::document::ParsedCard;
use crate::document::ParsedDocument;
use crate::document::ParsedProperty;
use crate::document::ParsedPropertyType;
use crate::document::ParsedPropertyValue;
use crate::document::ParsedView;
use crate::document::ParsedViewType;
use crate::document::PropModel;
use crate::document::PropValModel;
use crate::document::ViewModel;
use crate::kanban::BCardModel;
use crate::kanban::BLayoutModel;
use crate::kanban::BPropModel;
use crate::kanban::BViewModel;
use crate::kanban::BoardModel;
use crate::kanban::Kanban;
use crate::kanban::KanbanCard;
use crate::kanban::KanbanProperty;
use crate::kanban::KanbanPropertyType;
use crate::kanban::KanbanView;
use crate::kanban::KanbanViewType;
use crate::kanban::board_wf;
use crate::kanban::find_card_by_id_spec;
use crate::kanban::find_card_by_title_spec;
use crate::kanban::find_id_before;
use crate::kanban::find_name_before;
use crate::kanban::find_title_before;
use crate::kanban::find_view_before;
use crate::kanban::find_view_spec;
use crate::text::str_eq;

verus! {

// ---------------------------------------------------------------------------
// Lookups, replacing the by-name and by-id indexes: always consistent with
// the canonical lists because they read them directly.  Later entries
// shadow earlier ones, as writes to a keyed index would.
// ---------------------------------------------------------------------------

impl Kanban {
    /// The last property with this name, if any.
    pub fn property_by_name(&self, name: &str) -> (r: Option<&KanbanProperty>)
        ensures
            match r {
                Option::Some(p) => {
                    &&& crate::kanban::find_name(
                        self@.properties.map_values(|q: BPropModel| q.name),
                        name@,
                    ) is Some
                    &&& p@ == self@.properties[crate::kanban::find_name(
                        self@.properties.map_values(|q: BPropModel| q.name),
                        name@,
                    )->0]
                },
                Option::None => crate::kanban::find_name(
                    self@.properties.map_values(|q: BPropModel| q.name),
                    name@,
                ) is None,
            },
    {
        let ghost ns = self@.properties.map_values(|q: BPropModel| q.name);
        let mut i: usize = self.properties.len();
        while i > 0
            invariant
                0 <= i <= self.properties.len(),
                ns == self@.properties.map_values(|q: BPropModel| q.name),
                crate::kanban::find_name(ns, name@) == find_name_before(ns, name@, i as int),
            decreases i,
        {
            proof {
                assert(self.properties@[i - 1]@.name == ns[i - 1]);
            }
            if str_eq(self.properties[i - 1].name.as_str(), name) {
                return Option::Some(&self.properties[i - 1]);
            }
            i -= 1;
        }
        Option::None
    }

    /// The last card with this title, if any: on duplicate titles the
    /// later card shadows the earlier, a documented sharp edge.
    pub fn card_by_title(&self, title: &str) -> (r: Option<&KanbanCard>)
        ensures
            match r {
                Option::Some(c) => {
                    &&& find_card_by_title_spec(self@.cards, title@) is Some
                    &&& c@ == self@.cards[find_card_by_title_spec(self@.cards, title@)->0]
                },
                Option::None => find_card_by_title_spec(self@.cards, title@) is None,
            },
    {
        let ghost cs = self@.cards;
        let mut i: usize = self.cards.len();
        while i > 0
            invariant
                0 <= i <= self.cards.len(),
                cs == self@.cards,
                find_card_by_title_spec(cs, title@) == find_title_before(cs, title@, i as int),
            decreases i,
        {
            proof {
                assert(self.cards@[i - 1]@ == cs[i - 1]);
            }
            if str_eq(self.cards[i - 1].title.as_str(), title) {
                return Option::Some(&self.cards[i - 1]);
            }
            i -= 1;
        }
        Option::None
    }

    /// The last card with this id, if any.
    pub fn card_by_id(&self, id: usize) -> (r: Option<&KanbanCard>)
        ensures
            match r {
                Option::Some(c) => {
                    &&& find_card_by_id_spec(self@.cards, id as int) is Some
                    &&& c@ == self@.cards[find_card_by_id_spec(self@.cards, id as int)->0]
                },
                Option::None => find_card_by_id_spec(self@.cards, id as int) is None,
            },
    {
        let ghost cs = self@.cards;
        let mut i: usize = self.cards.len();
        while i > 0
            invariant
                0 <= i <= self.cards.len(),
                cs == self@.cards,
                find_card_by_id_spec(cs, id as int) == find_id_before(cs, id as int, i as int),
            decreases i,
        {
            proof {
                assert(self.cards@[i - 1]@ == cs[i - 1]);
            }
            if self.cards[i - 1].id == id {
                return Option::Some(&self.cards[i - 1]);
            }
            i -= 1;
        }
        Option::None
    }

    /// The last view with this name, if any.
    pub fn view_by_name(&self, name: &str) -> (r: Option<&KanbanView>)
        ensures
            match r {
                Option::Some(v) => {
                    &&& find_view_spec(self@.views, name@) is Some
                    &&& v@ == self@.views[find_view_spec(self@.views, name@)->0]
                },
                Option::None => find_view_spec(self@.views, name@) is None,
            },
    {
        let ghost vs = self@.views;
        let mut i: usize = self.views.len();
        while i > 0
            invariant
                0 <= i <= self.views.len(),
                vs == self@.views,
                find_view_spec(vs, name@) == find_view_before(vs, name@, i as int),
            decreases i,
        {
            proof {
                assert(self.views@[i - 1]@ == vs[i - 1]);
            }
            if str_eq(self.views[i - 1].name.as_str(), name) {
                return Option::Some(&self.views[i - 1]);
            }
            i -= 1;
        }
        Option::None
    }

    /// All views, in board order.
    pub fn get_views(&self) -> (r: &Vec<KanbanView>)
        ensures
            r@.map_values(|v: KanbanView| v@) == self@.views,
    {
        &self.views
    }

    /// All properties, in board order.
    pub fn get_properties(&self) -> (r: &Vec<KanbanProperty>)
        ensures
            r@.map_values(|p: KanbanProperty| p@) == self@.properties,
    {
        &self.properties
    }
}

// ---------------------------------------------------------------------------
// Projecting the board back into a flat document
// ---------------------------------------------------------------------------

/// Names of display properties joined with a comma and a space.
pub open spec fn join_names(names: Seq<Seq<char>>) -> Seq<char>
    decreases names.len(),
{
    if names.len() == 0 {
        Seq::empty()
    } else if names.len() == 1 {
        names.first()
    } else {
        names.first() + ", "@ + join_names(names.drop_first())
    }
}

pub open spec fn project_prop(p: BPropModel) -> PropModel {
    PropModel { name: p.name, typ: p.typ }
}

pub open spec fn project_card(b: BoardModel, c: BCardModel) -> CardModel {
    CardModel {
        id: c.id,
        title: c.title,
        description: c.description,
        properties: c.properties.map_values(
            |pr: (int, Seq<char>)| PropValModel {
                property_name: b.properties[pr.0].name,
                value: pr.1,
            },
        ),
    }
}

/// A view's layout tag, group name and layout-borne sort name.
pub open spec fn project_layout(b: BoardModel, l: BLayoutModel) -> (
    ParsedViewType,
    Option<Seq<char>>,
    Option<Seq<char>>,
) {
    match l {
        BLayoutModel::Board { group_by } => (
            ParsedViewType::Board,
            match group_by {
                Option::Some(p) => Option::Some(b.properties[p].name),
                Option::None => Option::None,
            },
            Option::None,
        ),
        BLayoutModel::Table { sort_by } => (
            ParsedViewType::Table,
            Option::None,
            match sort_by {
                Option::Some(p) => Option::Some(b.properties[p].name),
                Option::None => Option::None,
            },
        ),
        BLayoutModel::Calendar { date_property } => (
            ParsedViewType::Calendar,
            match date_property {
                Option::Some(p) => Option::Some(b.properties[p].name),
                Option::None => Option::None,
            },
            Option::None,
        ),
        BLayoutModel::Timeline { date_property } => (
            ParsedViewType::Timeline,
            match date_property {
                Option::Some(p) => Option::Some(b.properties[p].name),
                Option::None => Option::None,
            },
            Option::None,
        ),
    }
}

pub open spec fn project_view(b: BoardModel, v: BViewModel) -> ViewModel {
    let (layout, group, lsort) = project_layout(b, v.view_layout);
    ViewModel {
        name: v.name,
        layout,
        group,
        filter: v.filter,
        sort_by: match lsort {
            Option::Some(s) => Option::Some(s),
            Option::None => match v.sort_by {
                Option::Some(p) => Option::Some(b.properties[p].name),
                Option::None => Option::None,
            },
        },
        sort_type: v.sort_type,
        column_sorts: v.column_sorts,
        display: Option::Some(
            join_names(v.display.map_values(|p: int| b.properties[p].name)),
        ),
    }
}

/// The flat document a board projects to: canonical stored order, view
/// references turned back into names, sort configuration verbatim.
pub open spec fn project_doc(b: BoardModel) -> DocModel {
    DocModel {
        properties: b.properties.map_values(|p: BPropModel| project_prop(p)),
        cards: b.cards.map_values(|c: BCardModel| project_card(b, c)),
        views: b.views.map_values(|v: BViewModel| project_view(b, v)),
    }
}

pub proof fn lemma_join_names_snoc(ns: Seq<Seq<char>>, n: Seq<char>)
    ensures
        join_names(ns.push(n)) == if ns.len() == 0 {
            n
        } else {
            join_names(ns) + ", "@ + n
        },
    decreases ns.len(),
{
    if ns.len() == 0 {
        assert(ns.push(n) =~= seq![n]);
        assert(join_names(seq![n]) == n);
    } else if ns.len() == 1 {
        assert(ns.push(n).drop_first() =~= seq![n]);
        assert(ns.push(n).first() == ns.first());
        assert(join_names(seq![n]) == n);
        assert(join_names(ns) == ns.first());
    } else {
        assert(ns.push(n).drop_first() =~= ns.drop_first().push(n));
        lemma_join_names_snoc(ns.drop_first(), n);
        assert(join_names(ns.push(n)) =~= join_names(ns) + ", "@ + n);
    }
}

fn copy_string_vec(v: &Vec<String>) -> (r: Vec<String>)
    ensures
        r@.map_values(|s: String| s@) == v@.map_values(|s: String| s@),
{
    let mut out: Vec<String> = Vec::new();
    let mut i: usize = 0;
    while i < v.len()
        invariant
            0 <= i <= v.len(),
            out@.map_values(|s: String| s@) =~= v@.map_values(|s: String| s@).take(i as int),
        decreases v.len() - i,
    {
        let ghost m0 = out@.map_values(|s: String| s@);
        out.push(v[i].clone());
        proof {
            assert(out@.map_values(|s: String| s@) =~= m0.push(v@[i as int]@));
            assert(m0.push(v@[i as int]@) =~= v@.map_values(|s: String| s@).take(i as int + 1));
        }
        i += 1;
    }
    proof {
        assert(out@.map_values(|s: String| s@) =~= v@.map_values(|s: String| s@));
    }
    out
}

fn copy_usize_vec(v: &Vec<usize>) -> (r: Vec<usize>)
    ensures
        r@ == v@,
{
    let mut out: Vec<usize> = Vec::new();
    let mut i: usize = 0;
    while i < v.len()
        invariant
            0 <= i <= v.len(),
            out@ =~= v@.take(i as int),
        decreases v.len() - i,
    {
        out.push(v[i]);
        proof {
            assert(out@ =~= v@.take(i as int + 1));
        }
        i += 1;
    }
    proof {
        assert(out@ =~= v@);
    }
    out
}

/// Copy a property type, field by field.
fn copy_prop_type(t: &KanbanPropertyType) -> (r: KanbanPropertyType)
    ensures
        r@ == t@,
{
    match t {
        KanbanPropertyType::Text => KanbanPropertyType::Text,
        KanbanPropertyType::Number => KanbanPropertyType::Number,
        KanbanPropertyType::Date => KanbanPropertyType::Date,
        KanbanPropertyType::Checkbox => KanbanPropertyType::Checkbox,
        KanbanPropertyType::Select { options } => {
            let r = KanbanPropertyType::Select { options: copy_string_vec(options) };
            proof {
                assert(r@ =~~= t@);
            }
            r
        },
    }
}

/// Turn a board property type back into a document property type.
fn unlink_prop_type(t: &KanbanPropertyType) -> (r: ParsedPropertyType)
    ensures
        r@ == t@,
{
    match t {
        KanbanPropertyType::Text => ParsedPropertyType::Text,
        KanbanPropertyType::Number => ParsedPropertyType::Number,
        KanbanPropertyType::Date => ParsedPropertyType::Date,
        KanbanPropertyType::Checkbox => ParsedPropertyType::Checkbox,
        KanbanPropertyType::Select { options } => {
            let r = ParsedPropertyType::Select { options: copy_string_vec(options) };
            proof {
                assert(r@ =~~= t@);
            }
            r
        },
    }
}

/// Copy a column sort.
fn copy_col(c: &ColumnSort) -> (r: ColumnSort)
    ensures
        r@ == c@,
{
    let r = ColumnSort { column: c.column.clone(), order: copy_usize_vec(&c.order) };
    proof {
        assert(r@ =~~= c@);
    }
    r
}

fn copy_opt_string(o: &Option<String>) -> (r: Option<String>)
    ensures
        crate::document::opt_str_view(r) == crate::document::opt_str_view(*o),
{
    match o {
        Option::Some(s) => Option::Some(s.clone()),
        Option::None => Option::None,
    }
}

impl Kanban {
    /// Project the board back into a flat document for re-serialization.
    pub fn to_parsed_document(&self) -> (r: ParsedDocument)
        requires
            board_wf(self@),
        ensures
            r@ == project_doc(self@),
    {
        let ghost b = self@;
        // properties
        let mut props: Vec<ParsedProperty> = Vec::new();
        let mut i: usize = 0;
        while i < self.properties.len()
            invariant
                b == self@,
                board_wf(b),
                0 <= i <= self.properties.len(),
                props@.map_values(|p: ParsedProperty| p@) =~= project_doc(b).properties.take(
                    i as int,
                ),
            decreases self.properties.len() - i,
        {
            let ghost m0 = props@.map_values(|p: ParsedProperty| p@);
            let p = &self.properties[i];
            let np = ParsedProperty {
                name: p.name.clone(),
                property_type: unlink_prop_type(&p.property_type),
            };
            props.push(np);
            proof {
                assert(props@.map_values(|p: ParsedProperty| p@) =~= m0.push(
                    PropModel { name: b.properties[i as int].name, typ: b.properties[i as int].typ },
                ));
                assert(m0.push(project_doc(b).properties[i as int]) =~= project_doc(
                    b,
                ).properties.take(i as int + 1));
            }
            i += 1;
        }
        proof {
            assert(props@.map_values(|p: ParsedProperty| p@) =~= project_doc(b).properties);
        }

        // cards
        let mut cards: Vec<ParsedCard> = Vec::new();
        let mut ci: usize = 0;
        while ci < self.cards.len()
            invariant
                b == self@,
                board_wf(b),
                0 <= ci <= self.cards.len(),
                cards@.map_values(|c: ParsedCard| c@) =~= project_doc(b).cards.take(ci as int),
            decreases self.cards.len() - ci,
        {
            let ghost m0 = cards@.map_values(|c: ParsedCard| c@);
            let c = &self.cards[ci];
            let ghost cm = b.cards[ci as int];
            proof {
                assert(c@ == cm);
                assert(crate::kanban::card_ok(cm, b.properties.len() as int, b.views.len() as int));
            }
            let mut pvs: Vec<ParsedPropertyValue> = Vec::new();
            let mut j: usize = 0;
            while j < c.properties.len()
                invariant
                    b == self@,
                    board_wf(b),
                    ci < self.cards.len(),
                    c == &self.cards@[ci as int],
                    cm == b.cards[ci as int],
                    crate::kanban::card_ok(cm, b.properties.len() as int, b.views.len() as int),
                    0 <= j <= c.properties.len(),
                    pvs@.map_values(|pv: ParsedPropertyValue| pv@) =~= project_card(
                        b,
                        cm,
                    ).properties.take(j as int),
            decreases c.properties.len() - j,
            {
                let ghost m1 = pvs@.map_values(|pv: ParsedPropertyValue| pv@);
                let pi = c.properties[j].0;
                proof {
                    assert(cm.properties[j as int] == (
                        c.properties@[j as int].0 as int,
                        c.properties@[j as int].1@,
                    ));
                    assert(0 <= cm.properties[j as int].0 < b.properties.len());
                    assert(self.properties@[pi as int]@ == b.properties[pi as int]);
                }
                let pv = ParsedPropertyValue {
                    property_name: self.properties[pi].name.clone(),
                    value: c.properties[j].1.clone(),
                };
                pvs.push(pv);
                proof {
                    assert(pvs@.map_values(|pv: ParsedPropertyValue| pv@) =~= m1.push(
                        project_card(b, cm).properties[j as int],
                    ));
                    assert(m1.push(project_card(b, cm).properties[j as int]) =~= project_card(
                        b,
                        cm,
                    ).properties.take(j as int + 1));
                }
                j += 1;
            }
            proof {
                assert(pvs@.map_values(|pv: ParsedPropertyValue| pv@) =~= project_card(
                    b,
                    cm,
                ).properties);
            }
            let nc = ParsedCard {
                id: c.id,
                title: c.title.clone(),
                description: c.description.clone(),
                properties: pvs,
            };
            cards.push(nc);
            proof {
                assert(cards@.map_values(|c: ParsedCard| c@) =~= m0.push(project_card(b, cm)));
                assert(m0.push(project_doc(b).cards[ci as int]) =~= project_doc(b).cards.take(
                    ci as int + 1,
                ));
            }
            ci += 1;
        }
        proof {
            assert(cards@.map_values(|c: ParsedCard| c@) =~= project_doc(b).cards);
        }

        // views
        let mut views: Vec<ParsedView> = Vec::new();
        let mut vi: usize = 0;
        while vi < self.views.len()
            invariant
                b == self@,
                board_wf(b),
                0 <= vi <= self.views.len(),
                views@.map_values(|v: ParsedView| v@) =~= project_doc(b).views.take(vi as int),
            decreases self.views.len() - vi,
        {
            let ghost m0 = views@.map_values(|v: ParsedView| v@);
            let v = &self.views[vi];
            let ghost vm = b.views[vi as int];
            proof {
                assert(v@ == vm);
                assert(crate::kanban::view_ok(
                    vm,
                    b.properties.len() as int,
                    crate::kanban::cards_ids(b.cards),
                ));
            }
            let (layout, group, lsort): (ParsedViewType, Option<String>, Option<String>) =
                match &v.view_layout {
                KanbanViewType::Board { group_by } => (
                    ParsedViewType::Board,
                    match group_by {
                        Option::Some(p) => Option::Some(self.properties[*p].name.clone()),
                        Option::None => Option::None,
                    },
                    Option::None,
                ),
                KanbanViewType::Table { sort_by } => (
                    ParsedViewType::Table,
                    Option::None,
                    match sort_by {
                        Option::Some(p) => Option::Some(self.properties[*p].name.clone()),
                        Option::None => Option::None,
                    },
                ),
                KanbanViewType::Calendar { date_property } => (
                    ParsedViewType::Calendar,
                    match date_property {
                        Option::Some(p) => Option::Some(self.properties[*p].name.clone()),
                        Option::None => Option::None,
                    },
                    Option::None,
                ),
                KanbanViewType::Timeline { date_property } => (
                    ParsedViewType::Timeline,
                    match date_property {
                        Option::Some(p) => Option::Some(self.properties[*p].name.clone()),
                        Option::None => Option::None,
                    },
                    Option::None,
                ),
            };
            let sort_by: Option<String> = match lsort {
                Option::Some(s) => Option::Some(s),
                Option::None => match &v.sort_by {
                    Option::Some(p) => Option::Some(self.properties[*p].name.clone()),
                    Option::None => Option::None,
                },
            };
            // column sorts, verbatim
            let mut cols: Vec<ColumnSort> = Vec::new();
            let mut cj: usize = 0;
            while cj < v.column_sorts.len()
                invariant
                    b == self@,
                    vi < self.views.len(),
                    v == &self.views@[vi as int],
                    vm == b.views[vi as int],
                    0 <= cj <= v.column_sorts.len(),
                    cols@.map_values(|c: ColumnSort| c@) =~= vm.column_sorts.take(cj as int),
                decreases v.column_sorts.len() - cj,
            {
                let ghost m1 = cols@.map_values(|c: ColumnSort| c@);
                cols.push(copy_col(&v.column_sorts[cj]));
                proof {
                    assert(v.column_sorts@[cj as int]@ == vm.column_sorts[cj as int]);
                    assert(cols@.map_values(|c: ColumnSort| c@) =~= m1.push(
                        vm.column_sorts[cj as int],
                    ));
                    assert(m1.push(vm.column_sorts[cj as int]) =~= vm.column_sorts.take(
                        cj as int + 1,
                    ));
                }
                cj += 1;
            }
            proof {
                assert(cols@.map_values(|c: ColumnSort| c@) =~= vm.column_sorts);
            }
            // display names joined
            let mut disp = String::new();
            let mut dj: usize = 0;
            while dj < v.display.len()
                invariant
                    b == self@,
                    board_wf(b),
                    vi < self.views.len(),
                    v == &self.views@[vi as int],
                    vm == b.views[vi as int],
                    crate::kanban::view_ok(
                        vm,
                        b.properties.len() as int,
                        crate::kanban::cards_ids(b.cards),
                    ),
                    0 <= dj <= v.display.len(),
                    disp@ =~= join_names(
                        vm.display.map_values(|p: int| b.properties[p].name).take(dj as int),
                    ),
                decreases v.display.len() - dj,
            {
                proof {
                    assert(vm.display[dj as int] == v.display@[dj as int] as int);
                    assert(0 <= vm.display[dj as int] < b.properties.len());
                    assert(self.properties@[v.display@[dj as int] as int]@ == b.properties[
                        vm.display[dj as int]]);
                }
                if dj > 0 {
                    disp.append(", ");
                }
                disp.append(self.properties[v.display[dj]].name.as_str());
                proof {
                    let nm = vm.display.map_values(|p: int| b.properties[p].name);
                    lemma_join_names_snoc(nm.take(dj as int), nm[dj as int]);
                    assert(nm.take(dj as int).push(nm[dj as int]) =~= nm.take(dj as int + 1));
                    assert(disp@ =~= join_names(nm.take(dj as int + 1)));
                }
                dj += 1;
            }
            proof {
                let nm = vm.display.map_values(|p: int| b.properties[p].name);
                assert(nm.take(nm.len() as int) =~= nm);
                assert(disp@ =~= join_names(nm));
            }
            let nv = ParsedView {
                name: v.name.clone(),
                layout,
                group,
                filter: copy_opt_string(&v.filter),
                sort_by,
                sort_type: v.sort_type,
                column_sorts: cols,
                display: Option::Some(disp),
            };
            views.push(nv);
            proof {
                assert(views@.last()@ =~~= project_view(b, vm));
                assert(views@.map_values(|v: ParsedView| v@) =~= m0.push(views@.last()@));
                assert(m0.push(project_doc(b).views[vi as int]) =~= project_doc(b).views.take(
                    vi as int + 1,
                ));
            }
            vi += 1;
        }
        proof {
            assert(views@.map_values(|v: ParsedView| v@) =~= project_doc(b).views);
        }

        let r = ParsedDocument { properties: props, cards, views };
        proof {
            assert(r@ =~~= project_doc(b));
        }
        r
    }
}

} // verus!
