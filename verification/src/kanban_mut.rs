use vstd::prelude::*;

use crate::document::PropTypeModel;
use crate::kanban::BCardModel;
use crate::kanban::BLayoutModel;
use crate::kanban::BPropModel;
use crate::kanban::BViewModel;
use crate::kanban::BoardModel;
use crate::kanban::Kanban;
use crate::kanban::KanbanCard;
use crate::kanban::KanbanError;
use crate::kanban::KanbanErrModel;
use crate::kanban::KanbanProperty;
use crate::kanban::KanbanPropertyType;
use crate::kanban::KanbanView;
use crate::kanban::KanbanViewType;
use crate::kanban::backref_pairs;
use crate::kanban::board_wf;
use crate::kanban::card_ok;
use crate::kanban::cards_ids;
use crate::kanban::find_card_by_id_spec;
use crate::kanban::find_card_by_title_spec;
use crate::kanban::find_name;
use crate::kanban::find_name_before;
use crate::kanban::find_title_before;
use crate::kanban::find_view_before;
use crate::kanban::find_view_spec;
use crate::kanban::lemma_find_name_before;
use crate::kanban::lemma_find_view_before;
use crate::kanban::resolve_or_zero;
use crate::kanban::view_ok;
use crate::kanban_query::copy_card;
use crate::text::str_eq;
use vstd::pervasive::VecAdditionalExecFns;

verus! {

// ---------------------------------------------------------------------------
// Adding a card
// ---------------------------------------------------------------------------

pub open spec fn board_prop_names(b: BoardModel) -> Seq<Seq<char>> {
    b.properties.map_values(|p: BPropModel| p.name)
}

/// The first invalid supplied value pair, if any: an undeclared property
/// name, a Select value outside the declared options, or a Checkbox value
/// other than the literal strings "true" and "false".
pub open spec fn validate_pvs(b: BoardModel, pvs: Seq<(Seq<char>, Seq<char>)>) -> Option<
    KanbanErrModel,
>
    decreases pvs.len(),
{
    if pvs.len() == 0 {
        Option::None
    } else {
        let n = pvs.first().0;
        let v = pvs.first().1;
        match find_name(board_prop_names(b), n) {
            Option::None => Option::Some(KanbanErrModel::UnknownProperty { name: n }),
            Option::Some(i) => match b.properties[i].typ {
                PropTypeModel::Select { options } => if !options.contains(v) {
                    Option::Some(KanbanErrModel::InvalidValue { property: n, value: v })
                } else {
                    validate_pvs(b, pvs.drop_first())
                },
                PropTypeModel::Checkbox => if v != "true"@ && v != "false"@ {
                    Option::Some(KanbanErrModel::InvalidCheckboxValue { property: n, value: v })
                } else {
                    validate_pvs(b, pvs.drop_first())
                },
                _ => validate_pvs(b, pvs.drop_first()),
            },
        }
    }
}

pub open spec fn max_id(cs: Seq<BCardModel>) -> int
    decreases cs.len(),
{
    if cs.len() == 0 {
        0
    } else {
        let m = max_id(cs.drop_first());
        if cs.first().id >= m {
            cs.first().id
        } else {
            m
        }
    }
}

/// The card a successful `add_card` creates.
pub open spec fn new_card_spec(
    b: BoardModel,
    title: Seq<char>,
    description: Seq<char>,
    pvs: Seq<(Seq<char>, Seq<char>)>,
) -> BCardModel {
    BCardModel {
        id: max_id(b.cards) + 1,
        title,
        description,
        properties: pvs.map_values(
            |pv: (Seq<char>, Seq<char>)| (resolve_or_zero(board_prop_names(b), pv.0), pv.1),
        ),
        views: Seq::new(b.views.len(), |k: int| k),
    }
}

/// The board after a successful `add_card`: the new card appended with id
/// `max + 1`, registered in the reverse lookup of each property it values
/// and in the membership of every view.
pub open spec fn add_card_spec(
    b: BoardModel,
    title: Seq<char>,
    description: Seq<char>,
    pvs: Seq<(Seq<char>, Seq<char>)>,
) -> BoardModel {
    let nc = new_card_spec(b, title, description, pvs);
    BoardModel {
        properties: Seq::new(
            b.properties.len(),
            |p: int| BPropModel {
                name: b.properties[p].name,
                typ: b.properties[p].typ,
                cards: b.properties[p].cards + backref_pairs(nc.properties, p, nc.id),
            },
        ),
        cards: b.cards.push(nc),
        views: b.views.map_values(|v: BViewModel| BViewModel { cards: v.cards.push(nc.id), ..v }),
    }
}

pub open spec fn pvs_model(pvs: Seq<(String, String)>) -> Seq<(Seq<char>, Seq<char>)> {
    pvs.map_values(|p: (String, String)| (p.0@, p.1@))
}

pub proof fn lemma_validate_resolved(b: BoardModel, pvs: Seq<(Seq<char>, Seq<char>)>)
    requires
        validate_pvs(b, pvs) is None,
    ensures
        forall|j: int|
            0 <= j < pvs.len() ==> find_name(board_prop_names(b), (#[trigger] pvs[j]).0) is Some,
    decreases pvs.len(),
{
    if pvs.len() > 0 {
        lemma_validate_resolved(b, pvs.drop_first());
        assert forall|j: int|
            0 <= j < pvs.len() implies find_name(
            board_prop_names(b),
            (#[trigger] pvs[j]).0,
        ) is Some by {
            if j > 0 {
                assert(pvs.drop_first()[j - 1] == pvs[j]);
            }
        }
    }
}

pub proof fn lemma_backref_pairs_snoc(ps: Seq<(int, Seq<char>)>, x: (int, Seq<char>), p: int, id: int)
    ensures
        backref_pairs(ps.push(x), p, id) == backref_pairs(ps, p, id) + (if x.0 == p {
            seq![id]
        } else {
            Seq::<int>::empty()
        }),
    decreases ps.len(),
{
    if ps.len() == 0 {
        reveal_with_fuel(backref_pairs, 2);
        assert(ps.push(x).drop_first() =~= Seq::<(int, Seq<char>)>::empty());
        assert(backref_pairs(ps.push(x), p, id) =~= backref_pairs(ps, p, id) + (if x.0 == p {
            seq![id]
        } else {
            Seq::<int>::empty()
        }));
    } else {
        assert(ps.push(x).drop_first() =~= ps.drop_first().push(x));
        lemma_backref_pairs_snoc(ps.drop_first(), x, p, id);
        assert(ps.push(x).first() == ps.first());
        assert(backref_pairs(ps.push(x), p, id) =~= backref_pairs(ps, p, id) + (if x.0 == p {
            seq![id]
        } else {
            Seq::<int>::empty()
        }));
    }
}

/// A valid addition keeps the board well-formed.
pub proof fn lemma_add_wf(
    b: BoardModel,
    title: Seq<char>,
    description: Seq<char>,
    pvs: Seq<(Seq<char>, Seq<char>)>,
)
    requires
        board_wf(b),
        validate_pvs(b, pvs) is None,
        max_id(b.cards) < usize::MAX,
        max_id(b.cards) >= 0,
    ensures
        board_wf(add_card_spec(b, title, description, pvs)),
{
    let nb = add_card_spec(b, title, description, pvs);
    let nc = new_card_spec(b, title, description, pvs);
    lemma_validate_resolved(b, pvs);
    assert forall|i: int|
        0 <= i < nb.cards.len() implies card_ok(
        #[trigger] nb.cards[i],
        nb.properties.len() as int,
        nb.views.len() as int,
    ) by {
        if i < b.cards.len() {
            assert(nb.cards[i] == b.cards[i]);
            assert(card_ok(b.cards[i], b.properties.len() as int, b.views.len() as int));
        } else {
            assert(nb.cards[i] == nc);
            assert forall|j: int|
                0 <= j < nc.properties.len() implies 0 <= (#[trigger] nc.properties[j]).0
                < nb.properties.len() by {
                assert(nc.properties[j] == (
                    resolve_or_zero(board_prop_names(b), pvs[j].0),
                    pvs[j].1,
                ));
                lemma_find_name_before(
                    board_prop_names(b),
                    pvs[j].0,
                    board_prop_names(b).len() as int,
                );
            }
        }
    }
    assert forall|k: int|
        0 <= k < nb.views.len() implies view_ok(
        #[trigger] nb.views[k],
        nb.properties.len() as int,
        cards_ids(nb.cards),
    ) by {
        assert(view_ok(b.views[k], b.properties.len() as int, cards_ids(b.cards)));
        assert(nb.views[k] == (BViewModel { cards: b.views[k].cards.push(nc.id), ..b.views[k] }));
        assert(nb.views[k].cards =~= cards_ids(nb.cards));
    }
}

/// Whether a list of option strings contains the given value.
fn contains_string(options: &Vec<String>, v: &str) -> (r: bool)
    ensures
        r == options@.map_values(|s: String| s@).contains(v@),
{
    let ghost om = options@.map_values(|s: String| s@);
    let mut i: usize = 0;
    while i < options.len()
        invariant
            0 <= i <= options.len(),
            om == options@.map_values(|s: String| s@),
            forall|k: int| 0 <= k < i ==> om[k] != v@,
        decreases options.len() - i,
    {
        proof {
            assert(options@[i as int]@ == om[i as int]);
        }
        if str_eq(options[i].as_str(), v) {
            proof {
                assert(om[i as int] == v@);
            }
            return true;
        }
        i += 1;
    }
    proof {
        assert(!om.contains(v@));
    }
    false
}

/// Find the last property with this name, as an index.
fn find_prop_idx(props: &Vec<KanbanProperty>, name: &str) -> (r: Option<usize>)
    ensures
        match r {
            Option::Some(i) => find_name(
                props@.map_values(|p: KanbanProperty| p@).map_values(|p: BPropModel| p.name),
                name@,
            ) == Option::Some(i as int),
            Option::None => find_name(
                props@.map_values(|p: KanbanProperty| p@).map_values(|p: BPropModel| p.name),
                name@,
            ) is None,
        },
{
    let ghost ns = props@.map_values(|p: KanbanProperty| p@).map_values(|p: BPropModel| p.name);
    let mut i: usize = props.len();
    while i > 0
        invariant
            0 <= i <= props.len(),
            ns == props@.map_values(|p: KanbanProperty| p@).map_values(|p: BPropModel| p.name),
            find_name(ns, name@) == find_name_before(ns, name@, i as int),
        decreases i,
    {
        proof {
            assert(ns[i - 1] == props@.map_values(|p: KanbanProperty| p@)[i - 1].name);
            assert(props@[i - 1]@.name == props@[i - 1].name@);
        }
        if str_eq(props[i - 1].name.as_str(), name) {
            return Option::Some(i - 1);
        }
        i -= 1;
    }
    Option::None
}

impl Kanban {
    /// Add a new card: validate every supplied value pair against the
    /// declared properties, give the card id `max + 1`, and register it
    /// everywhere.  On any invalid pair the board is left unchanged.
    pub fn add_card(
        &mut self,
        title: String,
        description: String,
        property_values: Vec<(String, String)>,
    ) -> (r: Result<KanbanCard, KanbanError>)
        requires
            board_wf(old(self)@),
            0 <= max_id(old(self)@.cards) < usize::MAX,
        ensures
            validate_pvs(old(self)@, pvs_model(property_values@)) is None <==> r is Ok,
            match r {
                Result::Ok(c) => {
                    &&& final(self)@ == add_card_spec(
                        old(self)@,
                        title@,
                        description@,
                        pvs_model(property_values@),
                    )
                    &&& c@ == new_card_spec(
                        old(self)@,
                        title@,
                        description@,
                        pvs_model(property_values@),
                    )
                    &&& board_wf(final(self)@)
                },
                Result::Err(e) => *final(self) == *old(self) && validate_pvs(
                    old(self)@,
                    pvs_model(property_values@),
                ) == Option::Some(e@),
            },
    {
        let ghost b = self@;
        let ghost pm = pvs_model(property_values@);
        let ghost names = board_prop_names(b);

        // validate and resolve the pairs
        let mut pairs: Vec<(usize, String)> = Vec::new();
        let mut rest = property_values;
        proof {
            assert(pvs_model(rest@) =~= pm.skip(0));
            assert(pairs@.map_values(|p: (usize, String)| (p.0 as int, p.1@))
                =~= new_card_spec(b, title@, description@, pm).properties.take(0));
        }
        while rest.len() > 0
            invariant
                b == self@,
                b == old(self)@,
                pm == pvs_model(property_values@),
                names == board_prop_names(b),
                pairs@.len() + rest@.len() == pm.len(),
                pvs_model(rest@) =~= pm.skip(pairs@.len() as int),
                pairs@.map_values(|p: (usize, String)| (p.0 as int, p.1@)) =~= new_card_spec(
                    b,
                    title@,
                    description@,
                    pm,
                ).properties.take(pairs@.len() as int),
                validate_pvs(b, pm) == validate_pvs(b, pm.skip(pairs@.len() as int)),
            decreases rest@.len(),
        {
            let ghost j = pairs@.len() as int;
            let ghost rest0 = rest@;
            let ghost rm = pvs_model(rest0);
            let (n, v) = rest.remove(0);
            proof {
                assert((n@, v@) == rm[0]);
                assert(rm[0] == pm[j]);
                assert forall|kk: int| 0 <= kk < rest@.len() implies (
                #[trigger] pvs_model(rest@)[kk]) == pm[j + 1 + kk] by {
                    assert(rest@[kk] == rest0[kk + 1]);
                    assert(pvs_model(rest@)[kk] == (rest0[kk + 1].0@, rest0[kk + 1].1@));
                    assert(rm[kk + 1] == pm[j + 1 + kk]);
                }
                assert(pvs_model(rest@) =~= pm.skip(j + 1));
                assert(pm.skip(j).first() == pm[j]);
                assert(pm.skip(j).drop_first() =~= pm.skip(j + 1));
            }
            let pi = match find_prop_idx(&self.properties, n.as_str()) {
                Option::Some(pi) => pi,
                Option::None => {
                    proof {
                        assert(validate_pvs(b, pm.skip(j)) == Option::Some(
                            KanbanErrModel::UnknownProperty { name: pm[j].0 },
                        ));
                    }
                    return Result::Err(KanbanError::UnknownProperty { name: n });
                },
            };
            proof {
                assert(self.properties@.map_values(|p: KanbanProperty| p@).map_values(
                    |p: BPropModel| p.name,
                ) =~= names);
                assert(find_name(names, pm[j].0) == Option::Some(pi as int));
                lemma_find_name_before(names, pm[j].0, names.len() as int);
                assert(self.properties@[pi as int]@ == b.properties[pi as int]);
            }
            match &self.properties[pi].property_type {
                KanbanPropertyType::Select { options } => {
                    proof {
                        assert(b.properties[pi as int].typ == PropTypeModel::Select {
                            options: options@.map_values(|s: String| s@),
                        });
                    }
                    if !contains_string(options, v.as_str()) {
                        proof {
                            assert(validate_pvs(b, pm.skip(j)) == Option::Some(
                                KanbanErrModel::InvalidValue { property: pm[j].0, value: pm[j].1 },
                            ));
                        }
                        return Result::Err(KanbanError::InvalidValue { property: n, value: v });
                    }
                },
                KanbanPropertyType::Checkbox => {
                    if !(str_eq(v.as_str(), "true") || str_eq(v.as_str(), "false")) {
                        proof {
                            assert(validate_pvs(b, pm.skip(j)) == Option::Some(
                                KanbanErrModel::InvalidCheckboxValue {
                                    property: pm[j].0,
                                    value: pm[j].1,
                                },
                            ));
                        }
                        return Result::Err(
                            KanbanError::InvalidCheckboxValue { property: n, value: v },
                        );
                    }
                },
                _ => {},
            }
            pairs.push((pi, v));
            proof {
                assert(new_card_spec(b, title@, description@, pm).properties[j] == (
                    resolve_or_zero(names, pm[j].0),
                    pm[j].1,
                ));
                assert(pairs@.map_values(|p: (usize, String)| (p.0 as int, p.1@))
                    =~= new_card_spec(b, title@, description@, pm).properties.take(j + 1));
            }
        }
        proof {
            assert(pm.skip(pm.len() as int) =~= Seq::<(Seq<char>, Seq<char>)>::empty());
            assert(validate_pvs(b, pm) is None);
            assert(pairs@.map_values(|p: (usize, String)| (p.0 as int, p.1@)) =~= new_card_spec(
                b,
                title@,
                description@,
                pm,
            ).properties);
        }

        // the next id
        let mut m: usize = 0;
        let mut ci: usize = 0;
        proof {
            assert(b.cards.skip(0) =~= b.cards);
        }
        while ci < self.cards.len()
            invariant
                b == self@,
                0 <= ci <= self.cards.len(),
                m as int <= max_id(b.cards),
                max_id(b.cards) == (if m as int >= max_id(b.cards.skip(ci as int)) {
                    m as int
                } else {
                    max_id(b.cards.skip(ci as int))
                }),
            decreases self.cards.len() - ci,
        {
            proof {
                assert(self.cards@[ci as int]@ == b.cards[ci as int]);
                assert(b.cards.skip(ci as int).first() == b.cards[ci as int]);
                assert(b.cards.skip(ci as int).drop_first() =~= b.cards.skip(ci as int + 1));
            }
            if self.cards[ci].id > m {
                m = self.cards[ci].id;
            }
            ci += 1;
        }
        proof {
            assert(b.cards.skip(b.cards.len() as int) =~= Seq::<BCardModel>::empty());
            assert(m as int == max_id(b.cards));
        }
        let new_id = m + 1;

        // membership list for the new card
        let nviews = self.views.len();
        let mut vlist: Vec<usize> = Vec::new();
        let mut j2: usize = 0;
        proof {
            assert(vlist@.map_values(|u: usize| u as int) =~= Seq::new(0, |kk: int| kk));
        }
        while j2 < nviews
            invariant
                0 <= j2 <= nviews,
                vlist@.map_values(|u: usize| u as int) =~= Seq::new(j2 as nat, |kk: int| kk),
            decreases nviews - j2,
        {
            let ghost m0 = vlist@.map_values(|u: usize| u as int);
            vlist.push(j2);
            proof {
                assert(vlist@.map_values(|u: usize| u as int) =~= m0.push(j2 as int));
                assert(m0.push(j2 as int) =~= Seq::new((j2 + 1) as nat, |kk: int| kk));
            }
            j2 += 1;
        }

        let nc = KanbanCard { id: new_id, title, description, properties: pairs, views: vlist };
        let ghost ncm = new_card_spec(b, title@, description@, pm);
        proof {
            assert(nc@ =~~= ncm);
        }

        // register in the reverse lookup of each valued property
        let ghost pairs_m = ncm.properties;
        let mut pj: usize = 0;
        proof {
            lemma_validate_resolved(b, pm);
            assert forall|j: int|
                0 <= j < nc.properties@.len() implies (#[trigger] nc.properties@[j]).0
                < b.properties.len() by {
                assert(ncm.properties[j] == (resolve_or_zero(names, pm[j].0), pm[j].1));
                lemma_find_name_before(names, pm[j].0, names.len() as int);
                assert(nc.properties@[j].0 as int == ncm.properties[j].0);
            }
            assert forall|p: int|
                0 <= p < b.properties.len() implies (#[trigger] self@.properties[p]).cards
                =~= b.properties[p].cards + backref_pairs(pairs_m.take(0), p, ncm.id) by {
                assert(backref_pairs(pairs_m.take(0), p, ncm.id) =~= Seq::<int>::empty());
            }
        }
        while pj < nc.properties.len()
            invariant
                0 <= pj <= nc.properties.len(),
                nc@ == ncm,
                ncm.id == new_id as int,
                pairs_m == ncm.properties,
                self@.cards == b.cards,
                self@.views == b.views,
                self@.properties.len() == b.properties.len(),
                forall|j: int|
                    0 <= j < nc.properties@.len() ==> (#[trigger] nc.properties@[j]).0
                        < b.properties.len(),
                forall|p: int|
                    0 <= p < b.properties.len() ==> (#[trigger] self@.properties[p]).name
                        == b.properties[p].name && self@.properties[p].typ == b.properties[p].typ
                        && self@.properties[p].cards == b.properties[p].cards + backref_pairs(
                        pairs_m.take(pj as int),
                        p,
                        ncm.id,
                    ),
            decreases nc.properties.len() - pj,
        {
            let pi = nc.properties[pj].0;
            proof {
                assert(pairs_m[pj as int] == (
                    nc.properties@[pj as int].0 as int,
                    nc.properties@[pj as int].1@,
                ));
                assert(pi < b.properties.len());
            }
            let ghost props0 = self@.properties;
            let mut pr = self.properties.remove(pi);
            pr.cards.push(new_id);
            self.properties.insert(pi, pr);
            proof {
                assert forall|p: int|
                    0 <= p < b.properties.len() implies (#[trigger] self@.properties[p]).name
                    == b.properties[p].name && self@.properties[p].typ == b.properties[p].typ
                    && self@.properties[p].cards =~= b.properties[p].cards + backref_pairs(
                    pairs_m.take(pj as int + 1),
                    p,
                    ncm.id,
                ) by {
                    lemma_backref_pairs_snoc(pairs_m.take(pj as int), pairs_m[pj as int], p, ncm.id);
                    assert(pairs_m.take(pj as int).push(pairs_m[pj as int]) =~= pairs_m.take(
                        pj as int + 1,
                    ));
                    if p == pi as int {
                        assert(self@.properties[p] =~~= (BPropModel {
                            name: props0[p].name,
                            typ: props0[p].typ,
                            cards: props0[p].cards.push(ncm.id),
                        }));
                    } else {
                        assert(self@.properties[p] == props0[p]);
                    }
                }
            }
            pj += 1;
        }
        proof {
            assert(pairs_m.take(pairs_m.len() as int) =~= pairs_m);
        }

        // membership of every view
        let mut vk: usize = 0;
        while vk < self.views.len()
            invariant
                0 <= vk <= self.views.len(),
                ncm.id == new_id as int,
                self@.cards == b.cards,
                self@.views.len() == b.views.len(),
                self@.properties == add_card_spec(b, title@, description@, pm).properties,
                forall|k: int|
                    0 <= k < vk ==> #[trigger] self@.views[k] == (BViewModel {
                        cards: b.views[k].cards.push(ncm.id),
                        ..b.views[k]
                    }),
                forall|k: int| vk <= k < b.views.len() ==> #[trigger] self@.views[k] == b.views[k],
            decreases self.views.len() - vk,
        {
            let ghost views0 = self@.views;
            let mut v = self.views.remove(vk);
            v.cards.push(new_id);
            self.views.insert(vk, v);
            proof {
                assert forall|k: int| 0 <= k < b.views.len() implies #[trigger] self@.views[k] == (
                if k == vk as int {
                    BViewModel { cards: b.views[k].cards.push(ncm.id), ..b.views[k] }
                } else {
                    views0[k]
                }) by {
                    if k == vk as int {
                        assert(self@.views[k] =~~= (BViewModel {
                            cards: views0[k].cards.push(ncm.id),
                            ..views0[k]
                        }));
                    } else {
                        assert(self@.views[k] == views0[k]);
                    }
                }
            }
            vk += 1;
        }

        // the card itself
        let ret = copy_card(&nc);
        self.cards.push(nc);
        proof {
            let nb = add_card_spec(b, title@, description@, pm);
            assert(self@.cards =~= b.cards.push(ncm));
            assert(self@.views =~~= nb.views);
            assert(self@ =~~= nb);
            lemma_add_wf(b, title@, description@, pm);
        }
        Result::Ok(ret)
    }
}

// ---------------------------------------------------------------------------
// Moving a card between groups
// ---------------------------------------------------------------------------

/// First pair referencing property `p`, from position `q` on.
pub open spec fn find_pair_from(pairs: Seq<(int, Seq<char>)>, p: int, q: int) -> Option<int>
    recommends
        0 <= q <= pairs.len(),
    decreases pairs.len() - q,
{
    if q < 0 || q >= pairs.len() {
        Option::None
    } else if pairs[q].0 == p {
        Option::Some(q)
    } else {
        find_pair_from(pairs, p, q + 1)
    }
}

pub proof fn lemma_find_pair_from(pairs: Seq<(int, Seq<char>)>, p: int, q: int)
    requires
        0 <= q <= pairs.len(),
    ensures
        match find_pair_from(pairs, p, q) {
            Option::Some(j) => q <= j < pairs.len() && pairs[j].0 == p && forall|k: int|
                q <= k < j ==> (#[trigger] pairs[k]).0 != p,
            Option::None => forall|k: int| q <= k < pairs.len() ==> (#[trigger] pairs[k]).0 != p,
        },
    decreases pairs.len() - q,
{
    if q < pairs.len() && pairs[q].0 != p {
        lemma_find_pair_from(pairs, p, q + 1);
    }
}

/// Whether the new group value is rejected: only Select-typed group
/// properties constrain it, to their declared options.
pub open spec fn is_invalid_group(b: BoardModel, p: int, gv: Seq<char>) -> bool {
    match b.properties[p].typ {
        PropTypeModel::Select { options } => !options.contains(gv),
        _ => false,
    }
}

/// What moving a card does, including each failure and when it comes.
/// On success the card's value for the group-by property is overwritten in
/// place, or appended (registering the card in the property's reverse
/// lookup) when the card had no value for it.
pub open spec fn move_card_spec(
    b: BoardModel,
    title: Seq<char>,
    vname: Seq<char>,
    gv: Seq<char>,
) -> Result<BoardModel, KanbanErrModel> {
    match find_card_by_title_spec(b.cards, title) {
        Option::None => Result::Err(KanbanErrModel::CardNotFound { title }),
        Option::Some(ci) => match find_view_spec(b.views, vname) {
            Option::None => Result::Err(KanbanErrModel::ViewNotFound { name: vname }),
            Option::Some(vi) => match b.views[vi].view_layout {
                BLayoutModel::Board { group_by } => match group_by {
                    Option::Some(p) => if is_invalid_group(b, p, gv) {
                        Result::Err(KanbanErrModel::InvalidGroupValue { value: gv })
                    } else {
                        let c = b.cards[ci];
                        match find_pair_from(c.properties, p, 0) {
                            Option::Some(j) => Result::Ok(
                                BoardModel {
                                    cards: b.cards.update(
                                        ci,
                                        BCardModel { properties: c.properties.update(j, (p, gv)), ..c },
                                    ),
                                    ..b
                                },
                            ),
                            Option::None => Result::Ok(
                                BoardModel {
                                    cards: b.cards.update(
                                        ci,
                                        BCardModel { properties: c.properties.push((p, gv)), ..c },
                                    ),
                                    properties: b.properties.update(
                                        p,
                                        BPropModel {
                                            cards: b.properties[p].cards.push(c.id),
                                            ..b.properties[p]
                                        },
                                    ),
                                    ..b
                                },
                            ),
                        }
                    },
                    Option::None => Result::Err(KanbanErrModel::NoGroupBy),
                },
                _ => Result::Err(KanbanErrModel::NotBoardView),
            },
        },
    }
}

/// What moving a card by id does: the id resolves to the card's title and
/// the move then goes by title, so both entry points share one path.
pub open spec fn move_by_id_spec(b: BoardModel, id: int, vname: Seq<char>, gv: Seq<char>) -> Result<
    BoardModel,
    KanbanErrModel,
> {
    match find_card_by_id_spec(b.cards, id) {
        Option::None => Result::Err(KanbanErrModel::CardIdNotFound { id }),
        Option::Some(ci) => move_card_spec(b, b.cards[ci].title, vname, gv),
    }
}

/// A successful move keeps the board well-formed.
pub proof fn lemma_move_wf(b: BoardModel, title: Seq<char>, vname: Seq<char>, gv: Seq<char>)
    requires
        board_wf(b),
        move_card_spec(b, title, vname, gv) is Ok,
    ensures
        board_wf(move_card_spec(b, title, vname, gv)->Ok_0),
{
    let nb = move_card_spec(b, title, vname, gv)->Ok_0;
    let ci = find_card_by_title_spec(b.cards, title)->0;
    let vi = find_view_spec(b.views, vname)->0;
    crate::kanban::lemma_find_title(b.cards, title);
    lemma_find_view_before(b.views, vname, b.views.len() as int);
    let p = match b.views[vi].view_layout {
        BLayoutModel::Board { group_by } => group_by->0,
        _ => 0,
    };
    assert(view_ok(b.views[vi], b.properties.len() as int, cards_ids(b.cards)));
    assert(0 <= p < b.properties.len());
    let c = b.cards[ci];
    assert(card_ok(c, b.properties.len() as int, b.views.len() as int));
    assert forall|i: int|
        0 <= i < nb.cards.len() implies card_ok(
        #[trigger] nb.cards[i],
        nb.properties.len() as int,
        nb.views.len() as int,
    ) by {
        assert(card_ok(b.cards[i], b.properties.len() as int, b.views.len() as int));
        if i == ci {
            match find_pair_from(c.properties, p, 0) {
                Option::Some(j) => {
                    lemma_find_pair_from(c.properties, p, 0);
                    assert(nb.cards[i].properties == c.properties.update(j, (p, gv)));
                },
                Option::None => {
                    assert(nb.cards[i].properties == c.properties.push((p, gv)));
                },
            }
        } else {
            assert(nb.cards[i] == b.cards[i]);
        }
    }
    assert forall|k: int|
        0 <= k < nb.views.len() implies view_ok(
        #[trigger] nb.views[k],
        nb.properties.len() as int,
        cards_ids(nb.cards),
    ) by {
        assert(view_ok(b.views[k], b.properties.len() as int, cards_ids(b.cards)));
        assert(nb.views[k] == b.views[k]);
        assert(cards_ids(nb.cards) =~= cards_ids(b.cards));
    }
}

/// Find the last card with this title, as an index.
fn find_card_idx(cards: &Vec<KanbanCard>, title: &str) -> (r: Option<usize>)
    ensures
        match r {
            Option::Some(i) => find_card_by_title_spec(
                cards@.map_values(|c: KanbanCard| c@),
                title@,
            ) == Option::Some(i as int),
            Option::None => find_card_by_title_spec(
                cards@.map_values(|c: KanbanCard| c@),
                title@,
            ) is None,
        },
{
    let ghost cs = cards@.map_values(|c: KanbanCard| c@);
    let mut i: usize = cards.len();
    while i > 0
        invariant
            0 <= i <= cards.len(),
            cs == cards@.map_values(|c: KanbanCard| c@),
            find_card_by_title_spec(cs, title@) == find_title_before(cs, title@, i as int),
        decreases i,
    {
        proof {
            assert(cards@[i - 1]@ == cs[i - 1]);
        }
        if str_eq(cards[i - 1].title.as_str(), title) {
            return Option::Some(i - 1);
        }
        i -= 1;
    }
    Option::None
}

/// Find the last view with this name, as an index.
fn find_view_idx(views: &Vec<KanbanView>, name: &str) -> (r: Option<usize>)
    ensures
        match r {
            Option::Some(i) => find_view_spec(views@.map_values(|v: KanbanView| v@), name@)
                == Option::Some(i as int),
            Option::None => find_view_spec(views@.map_values(|v: KanbanView| v@), name@) is None,
        },
{
    let ghost vs = views@.map_values(|v: KanbanView| v@);
    let mut i: usize = views.len();
    while i > 0
        invariant
            0 <= i <= views.len(),
            vs == views@.map_values(|v: KanbanView| v@),
            find_view_spec(vs, name@) == find_view_before(vs, name@, i as int),
        decreases i,
    {
        proof {
            assert(views@[i - 1]@ == vs[i - 1]);
        }
        if str_eq(views[i - 1].name.as_str(), name) {
            return Option::Some(i - 1);
        }
        i -= 1;
    }
    Option::None
}

impl Kanban {
    /// Move a card, found by title, to a new group value of a Board view:
    /// the card's value for the view's group-by property is overwritten,
    /// or appended when the card had none.  On Select-typed group
    /// properties the new value must be a declared option.  On any failure
    /// the board is left unchanged.
    pub fn move_card(&mut self, card_title: &str, view_name: &str, new_group_value: &str) -> (r:
        Result<(), KanbanError>)
        requires
            board_wf(old(self)@),
        ensures
            move_card_spec(old(self)@, card_title@, view_name@, new_group_value@) is Ok <==> r
                is Ok,
            match r {
                Result::Ok(_) => {
                    &&& final(self)@ == move_card_spec(
                        old(self)@,
                        card_title@,
                        view_name@,
                        new_group_value@,
                    )->Ok_0
                    &&& board_wf(final(self)@)
                },
                Result::Err(e) => *final(self) == *old(self) && move_card_spec(
                    old(self)@,
                    card_title@,
                    view_name@,
                    new_group_value@,
                ) == Result::<BoardModel, KanbanErrModel>::Err(e@),
            },
    {
        let ghost b = self@;
        let ci = match find_card_idx(&self.cards, card_title) {
            Option::Some(ci) => ci,
            Option::None => {
                return Result::Err(KanbanError::CardNotFound { title: card_title.to_owned() });
            },
        };
        let vi = match find_view_idx(&self.views, view_name) {
            Option::Some(vi) => vi,
            Option::None => {
                return Result::Err(KanbanError::ViewNotFound { name: view_name.to_owned() });
            },
        };
        proof {
            crate::kanban::lemma_find_title(b.cards, card_title@);
            lemma_find_view_before(b.views, view_name@, b.views.len() as int);
            assert(0 <= ci < b.cards.len());
            assert(0 <= vi < b.views.len());
            assert(self.views@[vi as int]@ == b.views[vi as int]);
            assert(view_ok(b.views[vi as int], b.properties.len() as int, cards_ids(b.cards)));
        }
        let p: usize = match &self.views[vi].view_layout {
            KanbanViewType::Board { group_by } => match group_by {
                Option::Some(p) => *p,
                Option::None => {
                    return Result::Err(KanbanError::NoGroupBy);
                },
            },
            _ => {
                return Result::Err(KanbanError::NotBoardView);
            },
        };
        proof {
            assert(b.views[vi as int].view_layout == BLayoutModel::Board {
                group_by: Option::Some(p as int),
            });
            assert(0 <= p < b.properties.len());
            assert(self.properties@[p as int]@ == b.properties[p as int]);
        }
        match &self.properties[p].property_type {
            KanbanPropertyType::Select { options } => {
                proof {
                    assert(b.properties[p as int].typ == PropTypeModel::Select {
                        options: options@.map_values(|s: String| s@),
                    });
                }
                if !contains_string(options, new_group_value) {
                    return Result::Err(
                        KanbanError::InvalidGroupValue { value: new_group_value.to_owned() },
                    );
                }
            },
            _ => {},
        }
        proof {
            assert(!is_invalid_group(b, p as int, new_group_value@));
        }

        // update the card's value pair, or append one
        let ghost cm = b.cards[ci as int];
        let mut c = self.cards.remove(ci);
        proof {
            assert(c@ == cm);
        }
        let mut j: usize = 0;
        let mut found: Option<usize> = Option::None;
        proof {
            assert(find_pair_from(cm.properties, p as int, 0) == find_pair_from(
                cm.properties,
                p as int,
                0,
            ));
        }
        while j < c.properties.len() && found.is_none()
            invariant
                0 <= j <= c.properties@.len(),
                c@ == cm,
                match found {
                    Option::Some(fj) => find_pair_from(cm.properties, p as int, 0) == Option::Some(
                        fj as int,
                    ),
                    Option::None => find_pair_from(cm.properties, p as int, 0) == find_pair_from(
                        cm.properties,
                        p as int,
                        j as int,
                    ),
                },
            decreases c.properties@.len() - j + (if found is None { 1int } else { 0int }),
        {
            proof {
                assert(cm.properties[j as int] == (
                    c.properties@[j as int].0 as int,
                    c.properties@[j as int].1@,
                ));
            }
            if c.properties[j].0 == p {
                found = Option::Some(j);
            } else {
                j += 1;
            }
        }
        match found {
            Option::Some(fj) => {
                proof {
                    lemma_find_pair_from(cm.properties, p as int, 0);
                }
                c.properties.set(fj, (p, new_group_value.to_owned()));
                let ghost cards0 = self@.cards;
                self.cards.insert(ci, c);
                proof {
                    let nb = move_card_spec(b, card_title@, view_name@, new_group_value@)->Ok_0;
                    assert(self@.cards[ci as int] =~~= nb.cards[ci as int]);
                    assert(self@.cards =~~= nb.cards);
                    assert(self@ =~~= nb);
                    lemma_move_wf(b, card_title@, view_name@, new_group_value@);
                }
            },
            Option::None => {
                proof {
                    assert(cm.properties.skip(cm.properties.len() as int) =~= Seq::<
                        (int, Seq<char>),
                    >::empty());
                    assert(find_pair_from(cm.properties, p as int, 0) is None);
                }
                let cid = c.id;
                c.properties.push((p, new_group_value.to_owned()));
                self.cards.insert(ci, c);
                let mut pr = self.properties.remove(p);
                pr.cards.push(cid);
                self.properties.insert(p, pr);
                proof {
                    let nb = move_card_spec(b, card_title@, view_name@, new_group_value@)->Ok_0;
                    assert(self@.cards[ci as int] =~~= nb.cards[ci as int]);
                    assert(self@.cards =~~= nb.cards);
                    assert(self@.properties[p as int] =~~= nb.properties[p as int]);
                    assert(self@.properties =~~= nb.properties);
                    assert(self@ =~~= nb);
                    lemma_move_wf(b, card_title@, view_name@, new_group_value@);
                }
            },
        }
        Result::Ok(())
    }

    /// Move a card found by its numeric id: the id resolves to the card's
    /// title and the move then goes by title, sharing one code path and
    /// one failure surface with `move_card`.
    pub fn move_card_by_id(&mut self, card_id: usize, view_name: &str, new_group_value: &str) -> (r:
        Result<(), KanbanError>)
        requires
            board_wf(old(self)@),
        ensures
            move_by_id_spec(old(self)@, card_id as int, view_name@, new_group_value@) is Ok <==> r
                is Ok,
            match r {
                Result::Ok(_) => {
                    &&& final(self)@ == move_by_id_spec(
                        old(self)@,
                        card_id as int,
                        view_name@,
                        new_group_value@,
                    )->Ok_0
                    &&& board_wf(final(self)@)
                },
                Result::Err(e) => *final(self) == *old(self) && move_by_id_spec(
                    old(self)@,
                    card_id as int,
                    view_name@,
                    new_group_value@,
                ) == Result::<BoardModel, KanbanErrModel>::Err(e@),
            },
    {
        let title: String = match self.card_by_id(card_id) {
            Option::Some(c) => c.title.clone(),
            Option::None => {
                return Result::Err(KanbanError::CardIdNotFound { id: card_id });
            },
        };
        self.move_card(title.as_str(), view_name, new_group_value)
    }
}

} // verus!
