use vstd::prelude::*;

use crate::kanban::BCardModel;
use crate::kanban::BLayoutModel;
use crate::kanban::BoardModel;
use crate::kanban::board_wf;
use crate::kanban::find_card_by_title_spec;
use crate::kanban::find_view_spec;
use crate::kanban::lemma_find_title;
use crate::kanban::lemma_find_view_before;
use crate::kanban_mut::find_pair_from;
use crate::kanban_mut::lemma_find_pair_from;
use crate::kanban_mut::move_card_spec;
use crate::kanban_query::add_seed;
use crate::kanban_query::bucket_card;
use crate::kanban_query::bucket_cards;
use crate::kanban_query::cards_by_group_spec;
use crate::kanban_query::find_group_from;
use crate::kanban_query::lemma_find_group_from;
use crate::kanban_query::options_of;
use crate::kanban_query::pair_value;
use crate::kanban_query::query_group_prop;
use crate::kanban_query::query_view_idx;
use crate::kanban_query::seed_groups;
use crate::kanban_query::sort_groups;

verus! {

// ---------------------------------------------------------------------------
// Grouping completeness
// ---------------------------------------------------------------------------

pub open spec fn has_group(gs: Seq<(Seq<char>, Seq<BCardModel>)>, name: Seq<char>) -> bool {
    exists|j: int| 0 <= j < gs.len() && (#[trigger] gs[j]).0 == name
}

proof fn lemma_add_seed_has(gs: Seq<(Seq<char>, Seq<BCardModel>)>, o: Seq<char>, n: Seq<char>)
    requires
        has_group(gs, n) || n == o,
    ensures
        has_group(add_seed(gs, o), n),
{
    if has_group(gs, n) {
        let j = choose|j: int| 0 <= j < gs.len() && (#[trigger] gs[j]).0 == n;
        assert(add_seed(gs, o)[j].0 == n);
    } else {
        match find_group_from(gs, o, 0) {
            Option::Some(j) => {
                lemma_find_group_from(gs, o, 0);
                assert(add_seed(gs, o)[j].0 == n);
            },
            Option::None => {
                assert(add_seed(gs, o)[gs.len() as int].0 == n);
            },
        }
    }
}

proof fn lemma_seed_has(
    opts: Seq<Seq<char>>,
    gs: Seq<(Seq<char>, Seq<BCardModel>)>,
    o: Seq<char>,
)
    requires
        opts.contains(o) || has_group(gs, o),
    ensures
        has_group(seed_groups(opts, gs), o),
    decreases opts.len(),
{
    if opts.len() == 0 {
    } else {
        let g2 = add_seed(gs, opts.first());
        if opts.contains(o) {
            if o == opts.first() {
                lemma_add_seed_has(gs, opts.first(), o);
                lemma_seed_has(opts.drop_first(), g2, o);
            } else {
                let k = choose|k: int| 0 <= k < opts.len() && opts[k] == o;
                assert(opts.drop_first()[k - 1] == o);
                assert(opts.drop_first().contains(o));
                lemma_seed_has(opts.drop_first(), g2, o);
            }
        } else {
            lemma_add_seed_has(gs, opts.first(), o);
            lemma_seed_has(opts.drop_first(), g2, o);
        }
    }
}

proof fn lemma_bucket_card_has(
    gs: Seq<(Seq<char>, Seq<BCardModel>)>,
    c: BCardModel,
    p: int,
    n: Seq<char>,
)
    requires
        has_group(gs, n),
    ensures
        has_group(bucket_card(gs, c, p), n),
{
    let j = choose|j: int| 0 <= j < gs.len() && (#[trigger] gs[j]).0 == n;
    let gv = pair_value(c.properties, p);
    match find_group_from(gs, gv, 0) {
        Option::Some(k) => {
            lemma_find_group_from(gs, gv, 0);
            assert(bucket_card(gs, c, p)[j].0 == n);
        },
        Option::None => {
            assert(bucket_card(gs, c, p)[j].0 == n);
        },
    }
}

proof fn lemma_bucket_cards_has(
    gs: Seq<(Seq<char>, Seq<BCardModel>)>,
    cs: Seq<BCardModel>,
    p: int,
    n: Seq<char>,
)
    requires
        has_group(gs, n),
    ensures
        has_group(bucket_cards(gs, cs, p), n),
    decreases cs.len(),
{
    if cs.len() > 0 {
        lemma_bucket_card_has(gs, cs.first(), p, n);
        lemma_bucket_cards_has(bucket_card(gs, cs.first(), p), cs.drop_first(), p, n);
    }
}

/// Grouping completeness: when the group-by property of a Board view is
/// Select-typed, the grouped result holds an entry for every declared
/// option, even an option no card carries.
pub proof fn lemma_grouping_completeness(b: BoardModel, name: Seq<char>, o: Seq<char>)
    requires
        cards_by_group_spec(b, name) is Ok,
        options_of(b, query_group_prop(b, name)).contains(o),
    ensures
        has_group(cards_by_group_spec(b, name)->Ok_0, o),
{
    let vi = query_view_idx(b, name);
    let p = query_group_prop(b, name);
    let seeded = seed_groups(options_of(b, p), Seq::empty());
    let bucketed = bucket_cards(seeded, b.cards, p);
    lemma_seed_has(options_of(b, p), Seq::empty(), o);
    lemma_bucket_cards_has(seeded, b.cards, p, o);
    let j = choose|j: int| 0 <= j < bucketed.len() && (#[trigger] bucketed[j]).0 == o;
    assert(sort_groups(b.views[vi], bucketed)[j].0 == o);
    assert(cards_by_group_spec(b, name)->Ok_0 == sort_groups(b.views[vi], bucketed));
}

// ---------------------------------------------------------------------------
// Moving a card changes its group value
// ---------------------------------------------------------------------------

/// When the first `q` pairs do not reference `p`, the value for `p` is
/// decided at or after `q`.
proof fn lemma_pair_value_prefix(pairs: Seq<(int, Seq<char>)>, p: int, q: int)
    requires
        0 <= q <= pairs.len(),
        forall|k: int| 0 <= k < q ==> (#[trigger] pairs[k]).0 != p,
    ensures
        pair_value(pairs, p) == (if q < pairs.len() && pairs[q].0 == p {
            pairs[q].1
        } else if q < pairs.len() {
            pair_value(pairs.skip(q + 1), p)
        } else {
            Seq::<char>::empty()
        }),
    decreases q,
{
    if q == 0 {
        if pairs.len() > 0 {
            assert(pairs.first() == pairs[0]);
            assert(pairs.drop_first() =~= pairs.skip(1));
        }
    } else {
        assert(pairs.first() == pairs[0]);
        assert(pairs[0].0 != p);
        assert(pairs.drop_first() =~= pairs.skip(1));
        let rest = pairs.skip(1);
        assert forall|k: int| 0 <= k < q - 1 implies (#[trigger] rest[k]).0 != p by {
            assert(rest[k] == pairs[k + 1]);
        }
        lemma_pair_value_prefix(rest, p, q - 1);
        if q < pairs.len() {
            assert(rest[q - 1] == pairs[q]);
            assert(rest.skip(q) =~= pairs.skip(q + 1));
        }
    }
}

/// After a successful move, the card's value for the view's group-by
/// property is exactly the requested group value, so grouping places the
/// card in that group and in no other.
pub proof fn lemma_move_sets_group_value(
    b: BoardModel,
    title: Seq<char>,
    vname: Seq<char>,
    gv: Seq<char>,
)
    requires
        board_wf(b),
        move_card_spec(b, title, vname, gv) is Ok,
    ensures
        ({
            let nb = move_card_spec(b, title, vname, gv)->Ok_0;
            let ci = find_card_by_title_spec(b.cards, title)->0;
            let vi = find_view_spec(b.views, vname)->0;
            match b.views[vi].view_layout {
                BLayoutModel::Board { group_by } => match group_by {
                    Option::Some(p) => pair_value(nb.cards[ci].properties, p) == gv,
                    Option::None => false,
                },
                _ => false,
            }
        }),
{
    let nb = move_card_spec(b, title, vname, gv)->Ok_0;
    let ci = find_card_by_title_spec(b.cards, title)->0;
    let vi = find_view_spec(b.views, vname)->0;
    lemma_find_title(b.cards, title);
    lemma_find_view_before(b.views, vname, b.views.len() as int);
    let p = match b.views[vi].view_layout {
        BLayoutModel::Board { group_by } => group_by->0,
        _ => 0,
    };
    let c = b.cards[ci];
    let np = nb.cards[ci].properties;
    match find_pair_from(c.properties, p, 0) {
        Option::Some(j) => {
            lemma_find_pair_from(c.properties, p, 0);
            assert(np == c.properties.update(j, (p, gv)));
            assert forall|k: int| 0 <= k < j implies (#[trigger] np[k]).0 != p by {
                assert(np[k] == c.properties[k]);
            }
            assert(np[j].0 == p);
            lemma_pair_value_prefix(np, p, j);
        },
        Option::None => {
            lemma_find_pair_from(c.properties, p, 0);
            assert(np == c.properties.push((p, gv)));
            let j = c.properties.len() as int;
            assert forall|k: int| 0 <= k < j implies (#[trigger] np[k]).0 != p by {
                assert(np[k] == c.properties[k]);
            }
            assert(np[j].0 == p);
            lemma_pair_value_prefix(np, p, j);
        },
    }
}


// ---------------------------------------------------------------------------
// Alphabetical sorting orders groups by title
// ---------------------------------------------------------------------------

use crate::kanban_query::alpha_leq;
use crate::kanban_query::insert_sorted;
use crate::kanban_query::lex_le;
use crate::kanban_query::ralpha_leq;
use crate::kanban_query::sort_by_leq;
use crate::kanban_query::sort_group;
use crate::document::KanbanSortType;

/// Adjacent elements in order, under the given "may stay before" test.
pub open spec fn sorted_by(s: Seq<BCardModel>, leq: spec_fn(BCardModel, BCardModel) -> bool)
    -> bool {
    forall|i: int| 0 <= i < s.len() - 1 ==> leq(#[trigger] s[i], s[i + 1])
}

proof fn lemma_lex_total(a: Seq<char>, b: Seq<char>)
    ensures
        lex_le(a, b) || lex_le(b, a),
    decreases a.len(),
{
    if a.len() == 0 {
        assert(lex_le(a, b));
    } else if b.len() == 0 {
        assert(lex_le(b, a));
    } else if a.first() != b.first() {
        assert((a.first() as u32) < (b.first() as u32) || (b.first() as u32) < (
        a.first() as u32)) by {
            vstd::utf8::char_u32_cast(a.first(), a.first() as u32);
            vstd::utf8::char_u32_cast(b.first(), b.first() as u32);
        }
    } else {
        lemma_lex_total(a.drop_first(), b.drop_first());
    }
}

proof fn lemma_insert_sorted_last(
    s: Seq<BCardModel>,
    x: BCardModel,
    leq: spec_fn(BCardModel, BCardModel) -> bool,
)
    ensures
        insert_sorted(s, x, leq).len() == s.len() + 1,
        insert_sorted(s, x, leq).last() == x || (s.len() > 0 && insert_sorted(s, x, leq).last()
            == s.last()),
    decreases s.len(),
{
    if s.len() > 0 && !leq(s.last(), x) {
        lemma_insert_sorted_last(s.drop_last(), x, leq);
    }
}

proof fn lemma_insert_sorted_sorted(
    s: Seq<BCardModel>,
    x: BCardModel,
    leq: spec_fn(BCardModel, BCardModel) -> bool,
)
    requires
        sorted_by(s, leq),
        forall|a: BCardModel, b: BCardModel| #[trigger] leq(a, b) || leq(b, a),
    ensures
        sorted_by(insert_sorted(s, x, leq), leq),
    decreases s.len(),
{
    if s.len() == 0 {
    } else if leq(s.last(), x) {
        let r = s.push(x);
        assert forall|i: int| 0 <= i < r.len() - 1 implies leq(#[trigger] r[i], r[i + 1]) by {
            if i < s.len() - 1 {
                assert(r[i] == s[i] && r[i + 1] == s[i + 1]);
            } else {
                assert(r[i] == s.last() && r[i + 1] == x);
            }
        }
    } else {
        let dl = s.drop_last();
        assert(sorted_by(dl, leq)) by {
            assert forall|i: int| 0 <= i < dl.len() - 1 implies leq(#[trigger] dl[i], dl[i
                + 1]) by {
                assert(dl[i] == s[i] && dl[i + 1] == s[i + 1]);
            }
        }
        lemma_insert_sorted_sorted(dl, x, leq);
        lemma_insert_sorted_last(dl, x, leq);
        let q = insert_sorted(dl, x, leq);
        let r = q.push(s.last());
        assert(leq(x, s.last()));
        assert(dl.len() > 0 ==> leq(dl.last(), s.last())) by {
            if dl.len() > 0 {
                assert(leq(s[s.len() - 2], s[s.len() - 1]));
            }
        }
        assert forall|i: int| 0 <= i < r.len() - 1 implies leq(#[trigger] r[i], r[i + 1]) by {
            if i < q.len() - 1 {
                assert(r[i] == q[i] && r[i + 1] == q[i + 1]);
            } else {
                assert(r[i] == q.last() && r[i + 1] == s.last());
            }
        }
    }
}

proof fn lemma_sort_by_leq_sorted(s: Seq<BCardModel>, leq: spec_fn(BCardModel, BCardModel) -> bool)
    requires
        forall|a: BCardModel, b: BCardModel| #[trigger] leq(a, b) || leq(b, a),
    ensures
        sorted_by(sort_by_leq(s, leq), leq),
    decreases s.len(),
{
    if s.len() > 0 {
        lemma_sort_by_leq_sorted(s.drop_last(), leq);
        lemma_insert_sorted_sorted(sort_by_leq(s.drop_last(), leq), s.last(), leq);
    }
}

/// Under Alpha sort every group's cards carry ascending titles; under
/// ReverseAlpha, descending.
pub proof fn lemma_alpha_sorts_titles(
    v: crate::kanban::BViewModel,
    name: Seq<char>,
    cs: Seq<BCardModel>,
)
    ensures
        v.sort_type == KanbanSortType::Alpha ==> sorted_by(sort_group(v, name, cs), alpha_leq()),
        v.sort_type == KanbanSortType::ReverseAlpha ==> sorted_by(
            sort_group(v, name, cs),
            ralpha_leq(),
        ),
{
    assert forall|a: BCardModel, b: BCardModel| #[trigger] alpha_leq()(a, b) || alpha_leq()(
        b,
        a,
    ) by {
        lemma_lex_total(a.title, b.title);
    }
    assert forall|a: BCardModel, b: BCardModel| #[trigger] ralpha_leq()(a, b) || ralpha_leq()(
        b,
        a,
    ) by {
        lemma_lex_total(a.title, b.title);
    }
    if v.sort_type == KanbanSortType::Alpha {
        lemma_sort_by_leq_sorted(cs, alpha_leq());
    }
    if v.sort_type == KanbanSortType::ReverseAlpha {
        lemma_sort_by_leq_sorted(cs, ralpha_leq());
    }
}

} // verus!
