use vstd::prelude::*;

use crate::document::KanbanSortType;
use crate::kanban::BCardModel;
use crate::kanban::BLayoutModel;
use crate::kanban::BoardModel;
use crate::kanban::Kanban;
use crate::kanban::KanbanCard;
use crate::kanban::KanbanError;
use crate::kanban::KanbanErrModel;
use crate::kanban::KanbanPropertyType;
use crate::kanban::KanbanViewType;
use crate::kanban::board_wf;
use crate::kanban::find_col_from;
use crate::kanban::find_view_spec;
use crate::kanban::lemma_find_col_from;
use crate::kanban::view_ok;
use crate::text::str_eq;

verus! {

// ---------------------------------------------------------------------------
// Lexicographic order on titles, by Unicode scalar value.
// ---------------------------------------------------------------------------

pub open spec fn lex_le(a: Seq<char>, b: Seq<char>) -> bool
    decreases a.len(),
{
    if a.len() == 0 {
        true
    } else if b.len() == 0 {
        false
    } else if a.first() != b.first() {
        (a.first() as u32) < (b.first() as u32)
    } else {
        lex_le(a.drop_first(), b.drop_first())
    }
}

/// Compare two strings lexicographically by character.
pub fn title_le(a: &str, b: &str) -> (r: bool)
    ensures
        r == lex_le(a@, b@),
{
    let na = a.unicode_len();
    let nb = b.unicode_len();
    let mut i: usize = 0;
    proof {
        assert(a@.skip(0) =~= a@);
        assert(b@.skip(0) =~= b@);
    }
    loop
        invariant
            0 <= i,
            i <= na,
            i <= nb,
            na == a@.len(),
            nb == b@.len(),
            lex_le(a@, b@) == lex_le(a@.skip(i as int), b@.skip(i as int)),
        decreases na - i,
    {
        if i >= na {
            proof {
                assert(a@.skip(i as int).len() == 0);
            }
            return true;
        }
        if i >= nb {
            proof {
                assert(b@.skip(i as int).len() == 0);
            }
            return false;
        }
        let ca = a.get_char(i);
        let cb = b.get_char(i);
        proof {
            assert(a@.skip(i as int).first() == a@[i as int]);
            assert(b@.skip(i as int).first() == b@[i as int]);
            assert(a@.skip(i as int).drop_first() =~= a@.skip(i as int + 1));
            assert(b@.skip(i as int).drop_first() =~= b@.skip(i as int + 1));
        }
        if ca != cb {
            return (ca as u32) < (cb as u32);
        }
        i += 1;
    }
}

// ---------------------------------------------------------------------------
// Stable insertion sort, with the order given as a "may stay before" test:
// `leq(x, y)` means `x` need not move behind `y`.
// ---------------------------------------------------------------------------

/// Insert `x` after the last element it need not precede.
pub open spec fn insert_sorted(
    s: Seq<BCardModel>,
    x: BCardModel,
    leq: spec_fn(BCardModel, BCardModel) -> bool,
) -> Seq<BCardModel>
    decreases s.len(),
{
    if s.len() == 0 {
        seq![x]
    } else if leq(s.last(), x) {
        s.push(x)
    } else {
        insert_sorted(s.drop_last(), x, leq).push(s.last())
    }
}

/// The stable sort of `s` under `leq`: elements inserted left to right.
pub open spec fn sort_by_leq(
    s: Seq<BCardModel>,
    leq: spec_fn(BCardModel, BCardModel) -> bool,
) -> Seq<BCardModel>
    decreases s.len(),
{
    if s.len() == 0 {
        Seq::empty()
    } else {
        insert_sorted(sort_by_leq(s.drop_last(), leq), s.last(), leq)
    }
}

pub open spec fn alpha_leq() -> spec_fn(BCardModel, BCardModel) -> bool {
    |x: BCardModel, y: BCardModel| lex_le(x.title, y.title)
}

pub open spec fn ralpha_leq() -> spec_fn(BCardModel, BCardModel) -> bool {
    |x: BCardModel, y: BCardModel| lex_le(y.title, x.title)
}

/// Position of a card id in a manual order list: the last occurrence wins;
/// ids not listed sort to the very end.
pub open spec fn pos_before(order: Seq<int>, id: int, p: int) -> Option<int>
    recommends
        p <= order.len(),
    decreases p,
{
    if p <= 0 || p > order.len() {
        Option::None
    } else if order[p - 1] == id {
        Option::Some(p - 1)
    } else {
        pos_before(order, id, p - 1)
    }
}

pub open spec fn pos_or_max(order: Seq<int>, id: int) -> int {
    match pos_before(order, id, order.len() as int) {
        Option::Some(k) => k,
        Option::None => usize::MAX as int,
    }
}

pub open spec fn manual_leq(order: Seq<int>) -> spec_fn(BCardModel, BCardModel) -> bool {
    |x: BCardModel, y: BCardModel| pos_or_max(order, x.id) <= pos_or_max(order, y.id)
}

/// Where `insert_sorted` puts the new element, characterized by position.
pub proof fn lemma_insert_sorted_at(
    s: Seq<BCardModel>,
    x: BCardModel,
    leq: spec_fn(BCardModel, BCardModel) -> bool,
    p: int,
)
    requires
        0 <= p <= s.len(),
        forall|k: int| p <= k < s.len() ==> !leq(#[trigger] s[k], x),
        p > 0 ==> leq(s[p - 1], x),
    ensures
        insert_sorted(s, x, leq) == s.take(p) + seq![x] + s.skip(p),
    decreases s.len(),
{
    if s.len() == 0 {
        assert(insert_sorted(s, x, leq) =~= s.take(p) + seq![x] + s.skip(p));
    } else if leq(s.last(), x) {
        assert(p == s.len());
        assert(s.take(p) =~= s);
        assert(s.skip(p) =~= Seq::<BCardModel>::empty());
        assert(insert_sorted(s, x, leq) =~= s.take(p) + seq![x] + s.skip(p));
    } else {
        assert(p < s.len());
        let dl = s.drop_last();
        assert(forall|k: int| p <= k < dl.len() ==> !leq(#[trigger] dl[k], x));
        if p > 0 {
            assert(dl[p - 1] == s[p - 1]);
        }
        lemma_insert_sorted_at(dl, x, leq, p);
        assert(insert_sorted(s, x, leq) =~= s.take(p) + seq![x] + s.skip(p));
    }
}

// ---------------------------------------------------------------------------
// Grouping
// ---------------------------------------------------------------------------

/// A card's value for property `p`: the first matching pair, else empty.
pub open spec fn pair_value(pairs: Seq<(int, Seq<char>)>, p: int) -> Seq<char>
    decreases pairs.len(),
{
    if pairs.len() == 0 {
        Seq::empty()
    } else if pairs.first().0 == p {
        pairs.first().1
    } else {
        pair_value(pairs.drop_first(), p)
    }
}

/// First group with the given name, from position `q` on.
pub open spec fn find_group_from(
    gs: Seq<(Seq<char>, Seq<BCardModel>)>,
    name: Seq<char>,
    q: int,
) -> Option<int>
    recommends
        0 <= q <= gs.len(),
    decreases gs.len() - q,
{
    if q < 0 || q >= gs.len() {
        Option::None
    } else if gs[q].0 == name {
        Option::Some(q)
    } else {
        find_group_from(gs, name, q + 1)
    }
}

pub proof fn lemma_find_group_from(gs: Seq<(Seq<char>, Seq<BCardModel>)>, name: Seq<char>, q: int)
    requires
        0 <= q <= gs.len(),
    ensures
        match find_group_from(gs, name, q) {
            Option::Some(j) => q <= j < gs.len() && gs[j].0 == name,
            Option::None => forall|k: int| q <= k < gs.len() ==> (#[trigger] gs[k]).0 != name,
        },
    decreases gs.len() - q,
{
    if q < gs.len() && gs[q].0 != name {
        lemma_find_group_from(gs, name, q + 1);
    }
}

/// Seed an empty group for an option, unless one of that name exists.
pub open spec fn add_seed(gs: Seq<(Seq<char>, Seq<BCardModel>)>, o: Seq<char>) -> Seq<
    (Seq<char>, Seq<BCardModel>),
> {
    if find_group_from(gs, o, 0) is Some {
        gs
    } else {
        gs.push((o, Seq::empty()))
    }
}

pub open spec fn seed_groups(opts: Seq<Seq<char>>, gs: Seq<(Seq<char>, Seq<BCardModel>)>) -> Seq<
    (Seq<char>, Seq<BCardModel>),
>
    decreases opts.len(),
{
    if opts.len() == 0 {
        gs
    } else {
        seed_groups(opts.drop_first(), add_seed(gs, opts.first()))
    }
}

/// Put a card into its group, opening the group if it is new.
pub open spec fn bucket_card(
    gs: Seq<(Seq<char>, Seq<BCardModel>)>,
    c: BCardModel,
    p: int,
) -> Seq<(Seq<char>, Seq<BCardModel>)> {
    let gv = pair_value(c.properties, p);
    match find_group_from(gs, gv, 0) {
        Option::Some(j) => gs.update(j, (gs[j].0, gs[j].1.push(c))),
        Option::None => gs.push((gv, seq![c])),
    }
}

pub open spec fn bucket_cards(
    gs: Seq<(Seq<char>, Seq<BCardModel>)>,
    cs: Seq<BCardModel>,
    p: int,
) -> Seq<(Seq<char>, Seq<BCardModel>)>
    decreases cs.len(),
{
    if cs.len() == 0 {
        gs
    } else {
        bucket_cards(bucket_card(gs, cs.first(), p), cs.drop_first(), p)
    }
}

/// Sort one group's cards as the view asks.
pub open spec fn sort_group(v: crate::kanban::BViewModel, name: Seq<char>, cs: Seq<BCardModel>)
    -> Seq<BCardModel> {
    match v.sort_type {
        KanbanSortType::Alpha => sort_by_leq(cs, alpha_leq()),
        KanbanSortType::ReverseAlpha => sort_by_leq(cs, ralpha_leq()),
        KanbanSortType::Manual => match find_col_from(v.column_sorts, name, 0) {
            Option::Some(j) => sort_by_leq(cs, manual_leq(v.column_sorts[j].order)),
            Option::None => cs,
        },
        KanbanSortType::Unsorted => cs,
    }
}

pub open spec fn sort_groups(
    v: crate::kanban::BViewModel,
    gs: Seq<(Seq<char>, Seq<BCardModel>)>,
) -> Seq<(Seq<char>, Seq<BCardModel>)> {
    gs.map_values(|g: (Seq<char>, Seq<BCardModel>)| (g.0, sort_group(v, g.0, g.1)))
}

pub open spec fn options_of(b: BoardModel, p: int) -> Seq<Seq<char>> {
    match b.properties[p].typ {
        crate::document::PropTypeModel::Select { options } => options,
        _ => Seq::empty(),
    }
}

/// The grouped, sorted cards of one view: groups seeded from the Select
/// options of the group-by property, every card bucketed by its value for
/// that property (the empty string when it has none), each group sorted
/// by the view's sort discipline.
pub open spec fn group_query(b: BoardModel, vi: int, p: int) -> Seq<(Seq<char>, Seq<BCardModel>)> {
    sort_groups(
        b.views[vi],
        bucket_cards(seed_groups(options_of(b, p), Seq::empty()), b.cards, p),
    )
}

pub open spec fn query_view_idx(b: BoardModel, name: Seq<char>) -> int {
    find_view_spec(b.views, name)->0
}

pub open spec fn query_group_prop(b: BoardModel, name: Seq<char>) -> int {
    match b.views[query_view_idx(b, name)].view_layout {
        BLayoutModel::Board { group_by } => match group_by {
            Option::Some(p) => p,
            Option::None => 0,
        },
        _ => 0,
    }
}

/// What the grouping query returns, including each failure and when it
/// comes: an unknown view name, a non-Board view, a Board view without a
/// group-by property.
pub open spec fn cards_by_group_spec(b: BoardModel, name: Seq<char>) -> Result<
    Seq<(Seq<char>, Seq<BCardModel>)>,
    KanbanErrModel,
> {
    match find_view_spec(b.views, name) {
        Option::None => Result::Err(KanbanErrModel::ViewNotFound { name }),
        Option::Some(vi) => match b.views[vi].view_layout {
            BLayoutModel::Board { group_by } => match group_by {
                Option::Some(p) => Result::Ok(group_query(b, vi, p)),
                Option::None => Result::Err(KanbanErrModel::NoGroupBy),
            },
            _ => Result::Err(KanbanErrModel::NotBoardView),
        },
    }
}

/// Model of a grouped result.
pub open spec fn groups_model(gs: Seq<(String, Vec<KanbanCard>)>) -> Seq<
    (Seq<char>, Seq<BCardModel>),
> {
    gs.map_values(
        |g: (String, Vec<KanbanCard>)| (g.0@, g.1@.map_values(|c: KanbanCard| c@)),
    )
}

// ---------------------------------------------------------------------------
// Executable pieces
// ---------------------------------------------------------------------------

fn copy_pairs(v: &Vec<(usize, String)>) -> (r: Vec<(usize, String)>)
    ensures
        r@.map_values(|p: (usize, String)| (p.0 as int, p.1@)) == v@.map_values(
            |p: (usize, String)| (p.0 as int, p.1@),
        ),
{
    let mut out: Vec<(usize, String)> = Vec::new();
    let mut i: usize = 0;
    while i < v.len()
        invariant
            0 <= i <= v.len(),
            out@.map_values(|p: (usize, String)| (p.0 as int, p.1@)) =~= v@.map_values(
                |p: (usize, String)| (p.0 as int, p.1@),
            ).take(i as int),
        decreases v.len() - i,
    {
        let ghost m0 = out@.map_values(|p: (usize, String)| (p.0 as int, p.1@));
        out.push((v[i].0, v[i].1.clone()));
        proof {
            let vm = v@.map_values(|p: (usize, String)| (p.0 as int, p.1@));
            assert(out@.map_values(|p: (usize, String)| (p.0 as int, p.1@)) =~= m0.push(
                vm[i as int],
            ));
            assert(m0.push(vm[i as int]) =~= vm.take(i as int + 1));
        }
        i += 1;
    }
    proof {
        let vm = v@.map_values(|p: (usize, String)| (p.0 as int, p.1@));
        assert(out@.map_values(|p: (usize, String)| (p.0 as int, p.1@)) =~= vm);
    }
    out
}

fn copy_usize_list(v: &Vec<usize>) -> (r: Vec<usize>)
    ensures
        r@ == v@,
{
    let mut out: Vec<usize> = Vec::new();
    let mut i: usize = 0;
    while i < v.len()
        invariant
            0 <= i <= v.len(),
            out@ =~= v@.take(i as int),
        decreases v.len() - i,
    {
        out.push(v[i]);
        proof {
            assert(out@ =~= v@.take(i as int + 1));
        }
        i += 1;
    }
    proof {
        assert(out@ =~= v@);
    }
    out
}

/// Copy a card, field by field.
pub fn copy_card(c: &KanbanCard) -> (r: KanbanCard)
    ensures
        r@ == c@,
{
    let r = KanbanCard {
        id: c.id,
        title: c.title.clone(),
        description: c.description.clone(),
        properties: copy_pairs(&c.properties),
        views: copy_usize_list(&c.views),
    };
    proof {
        assert(r@ =~~= c@);
    }
    r
}

/// Stable insertion sort by ascending title.
fn sort_alpha(cards: Vec<KanbanCard>) -> (r: Vec<KanbanCard>)
    ensures
        r@.map_values(|c: KanbanCard| c@) == sort_by_leq(
            cards@.map_values(|c: KanbanCard| c@),
            alpha_leq(),
        ),
{
    let ghost orig = cards@.map_values(|c: KanbanCard| c@);
    let ghost leq = alpha_leq();
    let mut out: Vec<KanbanCard> = Vec::new();
    let mut rest = cards;
    proof {
        assert(out@.map_values(|c: KanbanCard| c@) =~= sort_by_leq(orig.take(0), leq));
        assert(rest@.map_values(|c: KanbanCard| c@) =~= orig.skip(0));
    }
    while rest.len() > 0
        invariant
            leq == alpha_leq(),
            out@.len() + rest@.len() == orig.len(),
            out@.map_values(|c: KanbanCard| c@) =~= sort_by_leq(orig.take(out@.len() as int), leq),
            rest@.map_values(|c: KanbanCard| c@) =~= orig.skip(out@.len() as int),
        decreases rest@.len(),
    {
        let ghost k = out@.len() as int;
        let ghost rest0 = rest@;
        let ghost rm = rest0.map_values(|cc: KanbanCard| cc@);
        let c = rest.remove(0);
        proof {
            assert(c@ == rm[0]);
            assert(rm[0] == orig[k]);
            assert forall|kk: int| 0 <= kk < rest@.len() implies (#[trigger] rest@[kk])@ == orig[k
                + 1 + kk] by {
                assert(rest@[kk] == rest0[kk + 1]);
                assert(rm[kk + 1] == orig[k + 1 + kk]);
            }
            assert(rest@.map_values(|cc: KanbanCard| cc@) =~= orig.skip(k + 1));
        }
        let ghost m0 = out@.map_values(|cc: KanbanCard| cc@);
        let mut pos: usize = out.len();
        while pos > 0 && !title_le(out[pos - 1].title.as_str(), c.title.as_str())
            invariant
                0 <= pos <= out@.len(),
                leq == alpha_leq(),
                m0 == out@.map_values(|cc: KanbanCard| cc@),
                forall|k2: int| pos <= k2 < m0.len() ==> !leq(#[trigger] m0[k2], c@),
            decreases pos,
        {
            proof {
                assert(out@[pos - 1]@ == m0[pos - 1]);
            }
            pos -= 1;
        }
        proof {
            if pos > 0 {
                assert(out@[pos - 1]@ == m0[pos - 1]);
                assert(leq(m0[pos as int - 1], c@));
            }
            lemma_insert_sorted_at(m0, c@, leq, pos as int);
        }
        out.insert(pos, c);
        proof {
            assert(out@ =~= out@.subrange(0, pos as int) + seq![out@[pos as int]] + out@.subrange(
                pos as int + 1,
                out@.len() as int,
            ));
            assert forall|k2: int| 0 <= k2 < out@.len() implies (#[trigger] out@[k2])@ == (m0.take(
                pos as int,
            ) + seq![c@] + m0.skip(pos as int))[k2] by {
                if k2 < pos {
                } else if k2 == pos {
                } else {
                }
            }
            assert(out@.map_values(|cc: KanbanCard| cc@) =~= m0.take(pos as int) + seq![c@]
                + m0.skip(pos as int));
            assert(orig.take(k + 1).drop_last() =~= orig.take(k));
            assert(orig.take(k + 1).last() == orig[k]);
            assert(out@.map_values(|cc: KanbanCard| cc@) =~= sort_by_leq(orig.take(k + 1), leq));
        }
    }
    proof {
        assert(orig.take(orig.len() as int) =~= orig);
    }
    out
}

/// Stable insertion sort by descending title.
fn sort_ralpha(cards: Vec<KanbanCard>) -> (r: Vec<KanbanCard>)
    ensures
        r@.map_values(|c: KanbanCard| c@) == sort_by_leq(
            cards@.map_values(|c: KanbanCard| c@),
            ralpha_leq(),
        ),
{
    let ghost orig = cards@.map_values(|c: KanbanCard| c@);
    let ghost leq = ralpha_leq();
    let mut out: Vec<KanbanCard> = Vec::new();
    let mut rest = cards;
    proof {
        assert(out@.map_values(|c: KanbanCard| c@) =~= sort_by_leq(orig.take(0), leq));
        assert(rest@.map_values(|c: KanbanCard| c@) =~= orig.skip(0));
    }
    while rest.len() > 0
        invariant
            leq == ralpha_leq(),
            out@.len() + rest@.len() == orig.len(),
            out@.map_values(|c: KanbanCard| c@) =~= sort_by_leq(orig.take(out@.len() as int), leq),
            rest@.map_values(|c: KanbanCard| c@) =~= orig.skip(out@.len() as int),
        decreases rest@.len(),
    {
        let ghost k = out@.len() as int;
        let ghost rest0 = rest@;
        let ghost rm = rest0.map_values(|cc: KanbanCard| cc@);
        let c = rest.remove(0);
        proof {
            assert(c@ == rm[0]);
            assert(rm[0] == orig[k]);
            assert forall|kk: int| 0 <= kk < rest@.len() implies (#[trigger] rest@[kk])@ == orig[k
                + 1 + kk] by {
                assert(rest@[kk] == rest0[kk + 1]);
                assert(rm[kk + 1] == orig[k + 1 + kk]);
            }
            assert(rest@.map_values(|cc: KanbanCard| cc@) =~= orig.skip(k + 1));
        }
        let ghost m0 = out@.map_values(|cc: KanbanCard| cc@);
        let mut pos: usize = out.len();
        while pos > 0 && !title_le(c.title.as_str(), out[pos - 1].title.as_str())
            invariant
                0 <= pos <= out@.len(),
                leq == ralpha_leq(),
                m0 == out@.map_values(|cc: KanbanCard| cc@),
                forall|k2: int| pos <= k2 < m0.len() ==> !leq(#[trigger] m0[k2], c@),
            decreases pos,
        {
            proof {
                assert(out@[pos - 1]@ == m0[pos - 1]);
            }
            pos -= 1;
        }
        proof {
            if pos > 0 {
                assert(out@[pos - 1]@ == m0[pos - 1]);
                assert(leq(m0[pos as int - 1], c@));
            }
            lemma_insert_sorted_at(m0, c@, leq, pos as int);
        }
        out.insert(pos, c);
        proof {
            assert forall|k2: int| 0 <= k2 < out@.len() implies (#[trigger] out@[k2])@ == (m0.take(
                pos as int,
            ) + seq![c@] + m0.skip(pos as int))[k2] by {
                if k2 < pos {
                } else if k2 == pos {
                } else {
                }
            }
            assert(out@.map_values(|cc: KanbanCard| cc@) =~= m0.take(pos as int) + seq![c@]
                + m0.skip(pos as int));
            assert(orig.take(k + 1).drop_last() =~= orig.take(k));
            assert(orig.take(k + 1).last() == orig[k]);
            assert(out@.map_values(|cc: KanbanCard| cc@) =~= sort_by_leq(orig.take(k + 1), leq));
        }
    }
    proof {
        assert(orig.take(orig.len() as int) =~= orig);
    }
    out
}

/// Position of an id in a manual order list.
fn pos_of(order: &Vec<usize>, id: usize) -> (r: usize)
    ensures
        r as int == pos_or_max(order@.map_values(|n: usize| n as int), id as int),
{
    let ghost om = order@.map_values(|n: usize| n as int);
    let mut i: usize = order.len();
    while i > 0
        invariant
            0 <= i <= order.len(),
            om == order@.map_values(|n: usize| n as int),
            pos_before(om, id as int, om.len() as int) == pos_before(om, id as int, i as int),
        decreases i,
    {
        proof {
            assert(om[i - 1] == order@[i - 1] as int);
        }
        if order[i - 1] == id {
            return i - 1;
        }
        i -= 1;
    }
    usize::MAX
}

/// Stable insertion sort by manual position.
fn sort_manual(cards: Vec<KanbanCard>, order: &Vec<usize>) -> (r: Vec<KanbanCard>)
    ensures
        r@.map_values(|c: KanbanCard| c@) == sort_by_leq(
            cards@.map_values(|c: KanbanCard| c@),
            manual_leq(order@.map_values(|n: usize| n as int)),
        ),
{
    let ghost om = order@.map_values(|n: usize| n as int);
    let ghost orig = cards@.map_values(|c: KanbanCard| c@);
    let ghost leq = manual_leq(om);
    let mut out: Vec<KanbanCard> = Vec::new();
    let mut rest = cards;
    proof {
        assert(out@.map_values(|c: KanbanCard| c@) =~= sort_by_leq(orig.take(0), leq));
        assert(rest@.map_values(|c: KanbanCard| c@) =~= orig.skip(0));
    }
    while rest.len() > 0
        invariant
            om == order@.map_values(|n: usize| n as int),
            leq == manual_leq(om),
            out@.len() + rest@.len() == orig.len(),
            out@.map_values(|c: KanbanCard| c@) =~= sort_by_leq(orig.take(out@.len() as int), leq),
            rest@.map_values(|c: KanbanCard| c@) =~= orig.skip(out@.len() as int),
        decreases rest@.len(),
    {
        let ghost k = out@.len() as int;
        let ghost rest0 = rest@;
        let ghost rm = rest0.map_values(|cc: KanbanCard| cc@);
        let c = rest.remove(0);
        proof {
            assert(c@ == rm[0]);
            assert(rm[0] == orig[k]);
            assert forall|kk: int| 0 <= kk < rest@.len() implies (#[trigger] rest@[kk])@ == orig[k
                + 1 + kk] by {
                assert(rest@[kk] == rest0[kk + 1]);
                assert(rm[kk + 1] == orig[k + 1 + kk]);
            }
            assert(rest@.map_values(|cc: KanbanCard| cc@) =~= orig.skip(k + 1));
        }
        let cpos = pos_of(order, c.id);
        let ghost m0 = out@.map_values(|cc: KanbanCard| cc@);
        let mut pos: usize = out.len();
        while pos > 0 && pos_of(order, out[pos - 1].id) > cpos
            invariant
                0 <= pos <= out@.len(),
                om == order@.map_values(|n: usize| n as int),
                leq == manual_leq(om),
                cpos as int == pos_or_max(om, c@.id),
                m0 == out@.map_values(|cc: KanbanCard| cc@),
                forall|k2: int| pos <= k2 < m0.len() ==> !leq(#[trigger] m0[k2], c@),
            decreases pos,
        {
            proof {
                assert(out@[pos - 1]@ == m0[pos - 1]);
            }
            pos -= 1;
        }
        proof {
            if pos > 0 {
                assert(out@[pos - 1]@ == m0[pos - 1]);
                assert(leq(m0[pos as int - 1], c@));
            }
            lemma_insert_sorted_at(m0, c@, leq, pos as int);
        }
        out.insert(pos, c);
        proof {
            assert forall|k2: int| 0 <= k2 < out@.len() implies (#[trigger] out@[k2])@ == (m0.take(
                pos as int,
            ) + seq![c@] + m0.skip(pos as int))[k2] by {
                if k2 < pos {
                } else if k2 == pos {
                } else {
                }
            }
            assert(out@.map_values(|cc: KanbanCard| cc@) =~= m0.take(pos as int) + seq![c@]
                + m0.skip(pos as int));
            assert(orig.take(k + 1).drop_last() =~= orig.take(k));
            assert(orig.take(k + 1).last() == orig[k]);
            assert(out@.map_values(|cc: KanbanCard| cc@) =~= sort_by_leq(orig.take(k + 1), leq));
        }
    }
    proof {
        assert(orig.take(orig.len() as int) =~= orig);
    }
    out
}

/// First group with the given name.
fn find_group_x(gs: &Vec<(String, Vec<KanbanCard>)>, name: &str) -> (r: Option<usize>)
    ensures
        match r {
            Option::Some(j) => find_group_from(groups_model(gs@), name@, 0) == Option::Some(
                j as int,
            ),
            Option::None => find_group_from(groups_model(gs@), name@, 0) is None,
        },
{
    let ghost gm = groups_model(gs@);
    let mut j: usize = 0;
    while j < gs.len()
        invariant
            0 <= j <= gs.len(),
            gm == groups_model(gs@),
            find_group_from(gm, name@, 0) == find_group_from(gm, name@, j as int),
        decreases gs.len() - j,
    {
        proof {
            assert(gm[j as int].0 == gs@[j as int].0@);
        }
        if str_eq(gs[j].0.as_str(), name) {
            return Option::Some(j);
        }
        j += 1;
    }
    Option::None
}

impl Kanban {
    /// Group and sort the member cards of a Board-layout view: one group
    /// per declared Select option (even when empty), plus a group for each
    /// other value that occurs; cards bucketed by their value for the
    /// group-by property; each group ordered by the view's sort discipline.
    pub fn get_cards_by_group(&self, view_name: &str) -> (r: Result<
        Vec<(String, Vec<KanbanCard>)>,
        KanbanError,
    >)
        requires
            board_wf(self@),
        ensures
            match r {
                Result::Ok(gs) => cards_by_group_spec(self@, view_name@) == Result::<
                    _,
                    KanbanErrModel,
                >::Ok(groups_model(gs@)),
                Result::Err(e) => cards_by_group_spec(self@, view_name@) == Result::<
                    Seq<(Seq<char>, Seq<BCardModel>)>,
                    _,
                >::Err(e@),
            },
    {
        let ghost b = self@;
        let vref = match self.view_by_name(view_name) {
            Option::None => {
                return Result::Err(KanbanError::ViewNotFound { name: view_name.to_owned() });
            },
            Option::Some(v) => v,
        };
        let ghost vi = find_view_spec(b.views, view_name@)->0;
        proof {
            crate::kanban::lemma_find_view_before(b.views, view_name@, b.views.len() as int);
            assert(0 <= vi < b.views.len());
            assert(vref@ == b.views[vi]);
            assert(view_ok(b.views[vi], b.properties.len() as int, crate::kanban::cards_ids(
                b.cards,
            )));
        }
        let p: usize = match &vref.view_layout {
            KanbanViewType::Board { group_by } => match group_by {
                Option::Some(p) => *p,
                Option::None => {
                    return Result::Err(KanbanError::NoGroupBy);
                },
            },
            _ => {
                return Result::Err(KanbanError::NotBoardView);
            },
        };
        proof {
            assert(b.views[vi].view_layout == BLayoutModel::Board {
                group_by: Option::Some(p as int),
            });
            assert(0 <= p < b.properties.len());
        }

        // seed groups from Select options
        let mut gs: Vec<(String, Vec<KanbanCard>)> = Vec::new();
        match &self.properties[p].property_type {
            KanbanPropertyType::Select { options } => {
                let ghost opts = options_of(b, p as int);
                let mut oi: usize = 0;
                proof {
                    assert(self.properties@[p as int]@ == b.properties[p as int]);
                    assert(options@.map_values(|s: String| s@) == opts);
                    assert(opts.skip(0) =~= opts);
                    assert(groups_model(gs@) =~= Seq::<(Seq<char>, Seq<BCardModel>)>::empty());
                }
                while oi < options.len()
                    invariant
                        0 <= oi <= options.len(),
                        options@.map_values(|s: String| s@) == opts,
                        seed_groups(opts, Seq::empty()) == seed_groups(
                            opts.skip(oi as int),
                            groups_model(gs@),
                        ),
                    decreases options.len() - oi,
                {
                    let ghost gm0 = groups_model(gs@);
                    proof {
                        assert(options@[oi as int]@ == opts[oi as int]);
                        assert(opts.skip(oi as int).first() == opts[oi as int]);
                        assert(opts.skip(oi as int).drop_first() =~= opts.skip(oi as int + 1));
                    }
                    match find_group_x(&gs, options[oi].as_str()) {
                        Option::Some(_) => {
                            proof {
                                assert(add_seed(gm0, opts[oi as int]) == gm0);
                            }
                        },
                        Option::None => {
                            gs.push((options[oi].clone(), Vec::new()));
                            proof {
                                assert(groups_model(gs@) =~~= gm0.push(
                                    (opts[oi as int], Seq::<BCardModel>::empty()),
                                ));
                                assert(add_seed(gm0, opts[oi as int]) == gm0.push(
                                    (opts[oi as int], Seq::<BCardModel>::empty()),
                                ));
                            }
                        },
                    }
                    oi += 1;
                }
                proof {
                    assert(opts.skip(opts.len() as int) =~= Seq::<Seq<char>>::empty());
                }
            },
            _ => {
                proof {
                    assert(self.properties@[p as int]@ == b.properties[p as int]);
                    assert(options_of(b, p as int) =~= Seq::<Seq<char>>::empty());
                    assert(groups_model(gs@) =~= Seq::<(Seq<char>, Seq<BCardModel>)>::empty());
                }
            },
        }
        let ghost seeded = seed_groups(options_of(b, p as int), Seq::empty());
        proof {
            assert(groups_model(gs@) == seeded);
        }

        // bucket every card by its value for the group-by property
        let mut ci: usize = 0;
        proof {
            assert(b.cards.skip(0) =~= b.cards);
        }
        while ci < self.cards.len()
            invariant
                b == self@,
                board_wf(b),
                0 <= ci <= self.cards.len(),
                bucket_cards(seeded, b.cards, p as int) == bucket_cards(
                    groups_model(gs@),
                    b.cards.skip(ci as int),
                    p as int,
                ),
            decreases self.cards.len() - ci,
        {
            let c = &self.cards[ci];
            let ghost cm = b.cards[ci as int];
            proof {
                assert(c@ == cm);
                assert(b.cards.skip(ci as int).first() == cm);
                assert(b.cards.skip(ci as int).drop_first() =~= b.cards.skip(ci as int + 1));
            }
            // the card's value for property p: first matching pair
            let mut gv: Option<&String> = Option::None;
            let mut pj: usize = 0;
            proof {
                assert(cm.properties.skip(0) =~= cm.properties);
            }
            while pj < c.properties.len() && gv.is_none()
                invariant
                    0 <= pj <= c.properties.len(),
                    c == &self.cards@[ci as int],
                    ci < self.cards@.len(),
                    cm == b.cards[ci as int],
                    b == self@,
                    match gv {
                        Option::Some(s) => pair_value(cm.properties, p as int) == s@,
                        Option::None => pair_value(cm.properties, p as int) == pair_value(
                            cm.properties.skip(pj as int),
                            p as int,
                        ),
                    },
                decreases c.properties.len() - pj,
            {
                proof {
                    assert(cm.properties[pj as int] == (
                        c.properties@[pj as int].0 as int,
                        c.properties@[pj as int].1@,
                    ));
                    assert(cm.properties.skip(pj as int).first() == cm.properties[pj as int]);
                    assert(cm.properties.skip(pj as int).drop_first() =~= cm.properties.skip(
                        pj as int + 1,
                    ));
                }
                if c.properties[pj].0 == p {
                    gv = Option::Some(&c.properties[pj].1);
                }
                pj += 1;
            }
            proof {
                if gv is None {
                    assert(cm.properties.skip(cm.properties.len() as int) =~= Seq::<
                        (int, Seq<char>),
                    >::empty());
                }
            }
            let gvs: String = match gv {
                Option::Some(s) => s.clone(),
                Option::None => String::new(),
            };
            proof {
                assert(gvs@ == pair_value(cm.properties, p as int));
            }
            let ghost gm0 = groups_model(gs@);
            match find_group_x(&gs, gvs.as_str()) {
                Option::Some(j) => {
                    proof {
                        lemma_find_group_from(gm0, gvs@, 0);
                    }
                    let mut g = gs.remove(j);
                    g.1.push(copy_card(c));
                    let ghost gname = g.0@;
                    gs.insert(j, g);
                    proof {
                        assert(groups_model(gs@) =~~= gm0.update(
                            j as int,
                            (gm0[j as int].0, gm0[j as int].1.push(cm)),
                        ));
                        assert(bucket_card(gm0, cm, p as int) == gm0.update(
                            j as int,
                            (gm0[j as int].0, gm0[j as int].1.push(cm)),
                        ));
                    }
                },
                Option::None => {
                    let mut ng: Vec<KanbanCard> = Vec::new();
                    ng.push(copy_card(c));
                    gs.push((gvs, ng));
                    proof {
                        assert(groups_model(gs@) =~~= gm0.push(
                            (pair_value(cm.properties, p as int), seq![cm]),
                        ));
                        assert(bucket_card(gm0, cm, p as int) == gm0.push(
                            (pair_value(cm.properties, p as int), seq![cm]),
                        ));
                    }
                },
            }
            ci += 1;
        }
        proof {
            assert(b.cards.skip(b.cards.len() as int) =~= Seq::<BCardModel>::empty());
        }
        let ghost bucketed = bucket_cards(seeded, b.cards, p as int);
        proof {
            assert(groups_model(gs@) == bucketed);
        }

        // sort each group as the view asks
        let mut result: Vec<(String, Vec<KanbanCard>)> = Vec::new();
        let mut rest = gs;
        proof {
            assert(groups_model(result@) =~= sort_groups(b.views[vi], bucketed).take(0));
            assert(groups_model(rest@) =~= bucketed.skip(0));
        }
        while rest.len() > 0
            invariant
                b == self@,
                vref@ == b.views[vi],
                0 <= vi < b.views.len(),
                result@.len() + rest@.len() == bucketed.len(),
                groups_model(result@) =~= sort_groups(b.views[vi], bucketed).take(
                    result@.len() as int,
                ),
                groups_model(rest@) =~= bucketed.skip(result@.len() as int),
            decreases rest@.len(),
        {
            let ghost k = result@.len() as int;
            let ghost rest0 = rest@;
            let ghost rm = groups_model(rest0);
            let g = rest.remove(0);
            proof {
                assert(groups_model(rest0)[0] == (g.0@, g.1@.map_values(|c: KanbanCard| c@)));
                assert(rm[0] == bucketed[k]);
                assert forall|kk: int| 0 <= kk < rest@.len() implies (
                groups_model(rest@)[kk]) == bucketed[k + 1 + kk] by {
                    assert(rest@[kk] == rest0[kk + 1]);
                    assert(groups_model(rest@)[kk] == groups_model(rest0)[kk + 1]);
                    assert(rm[kk + 1] == bucketed[k + 1 + kk]);
                }
                assert(groups_model(rest@) =~= bucketed.skip(k + 1));
            }
            let (gname, gcards) = g;
            let ghost gnm = gname@;
            let ghost gcm = gcards@.map_values(|c: KanbanCard| c@);
            let sorted: Vec<KanbanCard> = match vref.sort_type {
                KanbanSortType::Alpha => sort_alpha(gcards),
                KanbanSortType::ReverseAlpha => sort_ralpha(gcards),
                KanbanSortType::Manual => {
                    match crate::kanban::find_col_x(&vref.column_sorts, gname.as_str()) {
                        Option::Some(j) => {
                            proof {
                                lemma_find_col_from(b.views[vi].column_sorts, gnm, 0);
                                assert(vref.column_sorts@[j as int]@ == b.views[
                                vi].column_sorts[j as int]);
                            }
                            sort_manual(gcards, &vref.column_sorts[j].order)
                        },
                        Option::None => gcards,
                    }
                },
                KanbanSortType::Unsorted => gcards,
            };
            proof {
                assert(sorted@.map_values(|c: KanbanCard| c@) == sort_group(
                    b.views[vi],
                    gnm,
                    gcm,
                ));
            }
            let ghost r0 = groups_model(result@);
            result.push((gname, sorted));
            proof {
                assert(groups_model(result@) =~= r0.push(
                    (gnm, sort_group(b.views[vi], gnm, gcm)),
                ));
                assert(sort_groups(b.views[vi], bucketed)[k] == (
                    bucketed[k].0,
                    sort_group(b.views[vi], bucketed[k].0, bucketed[k].1),
                ));
                assert(groups_model(result@) =~= sort_groups(b.views[vi], bucketed).take(k + 1));
            }
        }
        proof {
            assert(groups_model(result@) =~= sort_groups(b.views[vi], bucketed));
        }
        Result::Ok(result)
    }
}

} // verus!
