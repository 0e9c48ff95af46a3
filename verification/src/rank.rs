//! Ranking engine: scores each champion by how much of the owned
//! component inventory its assigned items consume, and orders the
//! roster by descending score.
//!
//! A champion's build consumes the multiset of component identifiers
//! obtained by expanding every assigned item into its composition list.
//! For each identifier the inventory also holds, the champion earns the
//! lesser of the owned count and the consumed count; the score is the
//! sum over all inventory entries.  Champions of equal score keep their
//! roster order (a stable, documented tie-break; the persisted data
//! never depends on it).

use vstd::prelude::*;
use vstd::multiset::Multiset;
use vstd::seq_lib::group_to_multiset_ensures;

use crate::domain::Item;
use crate::ingest::composition_ids;
use crate::inventory::ComponentInventory;
use crate::inventory::ComponentStateModel;
use crate::store::ChampionState;
use crate::store::ChampionStateModel;

verus! {

/// The lesser of two counts.
pub open spec fn min_nat(a: nat, b: nat) -> nat {
    if a < b {
        a
    } else {
        b
    }
}

/// How many entries of `ids` equal `id`.
pub open spec fn count_id(ids: Seq<Seq<char>>, id: Seq<char>) -> nat
    decreases ids.len(),
{
    if ids.len() == 0 {
        0
    } else {
        count_id(ids.drop_last(), id) + if ids.last() == id {
            1nat
        } else {
            0nat
        }
    }
}

/// The component identifiers a champion's build consumes: every assigned
/// item expanded into its composition list, multiplicities kept.
pub open spec fn consumed_ids(cs: ChampionStateModel) -> Seq<Seq<char>> {
    composition_ids(cs.items)
}

/// A champion's match score against an inventory: for every inventory
/// entry, the lesser of the owned count and the consumed count of its
/// component, summed over all entries.
pub open spec fn spec_score(cs: ChampionStateModel, inv: Seq<ComponentStateModel>) -> nat
    decreases inv.len(),
{
    if inv.len() == 0 {
        0
    } else {
        spec_score(cs, inv.drop_last()) + min_nat(
            inv.last().count,
            count_id(consumed_ids(cs), inv.last().component.api_name),
        )
    }
}

/// A champion with no assigned items scores zero against any inventory.
pub proof fn lemma_score_no_items(cs: ChampionStateModel, inv: Seq<ComponentStateModel>)
    requires
        cs.items.len() == 0,
    ensures
        spec_score(cs, inv) == 0,
    decreases inv.len(),
{
    if inv.len() > 0 {
        lemma_score_no_items(cs, inv.drop_last());
        assert(consumed_ids(cs) =~= Seq::empty());
    }
}

/// An inventory whose counts all stand at zero scores every champion
/// zero.
pub proof fn lemma_zero_inventory_scores_zero(
    cs: ChampionStateModel,
    inv: Seq<ComponentStateModel>,
)
    requires
        forall|i: int| 0 <= i < inv.len() ==> (#[trigger] inv[i]).count == 0,
    ensures
        spec_score(cs, inv) == 0,
    decreases inv.len(),
{
    if inv.len() > 0 {
        let d = inv.drop_last();
        assert(forall|i: int| 0 <= i < d.len() ==> (#[trigger] d[i]) == inv[i]);
        lemma_zero_inventory_scores_zero(cs, d);
    }
}

// ---------------------------------------------------------------------------
// The ranking order
// ---------------------------------------------------------------------------

/// Inserts `x` behind every record whose score is at least `x`'s, and in
/// front of the strictly lower-scored tail.
pub open spec fn insert_ranked(
    s: Seq<ChampionStateModel>,
    x: ChampionStateModel,
    inv: Seq<ComponentStateModel>,
) -> Seq<ChampionStateModel>
    decreases s.len(),
{
    if s.len() == 0 {
        seq![x]
    } else if spec_score(s.last(), inv) >= spec_score(x, inv) {
        s.push(x)
    } else {
        insert_ranked(s.drop_last(), x, inv).push(s.last())
    }
}

/// The roster ordered by descending score; records of equal score keep
/// their original relative order.
pub open spec fn spec_rank(
    s: Seq<ChampionStateModel>,
    inv: Seq<ComponentStateModel>,
) -> Seq<ChampionStateModel>
    decreases s.len(),
{
    if s.len() == 0 {
        Seq::empty()
    } else {
        insert_ranked(spec_rank(s.drop_last(), inv), s.last(), inv)
    }
}

/// Scores descend along the ranking.
pub open spec fn sorted_desc(s: Seq<ChampionStateModel>, inv: Seq<ComponentStateModel>) -> bool {
    forall|i: int, j: int|
        0 <= i < j < s.len() ==> spec_score(#[trigger] s[i], inv) >= spec_score(
            #[trigger] s[j],
            inv,
        )
}

proof fn lemma_insert_ranked_lower(
    s: Seq<ChampionStateModel>,
    x: ChampionStateModel,
    inv: Seq<ComponentStateModel>,
    bound: nat,
)
    requires
        forall|i: int| 0 <= i < s.len() ==> spec_score(#[trigger] s[i], inv) >= bound,
        spec_score(x, inv) >= bound,
    ensures
        forall|i: int|
            0 <= i < insert_ranked(s, x, inv).len() ==> spec_score(
                #[trigger] insert_ranked(s, x, inv)[i],
                inv,
            ) >= bound,
    decreases s.len(),
{
    let r = insert_ranked(s, x, inv);
    if s.len() == 0 {
        assert(r[0] == x);
    } else if spec_score(s.last(), inv) >= spec_score(x, inv) {
        assert forall|i: int| 0 <= i < r.len() implies spec_score(#[trigger] r[i], inv)
            >= bound by {
            if i < s.len() {
                assert(r[i] == s[i]);
            } else {
                assert(r[i] == x);
            }
        }
    } else {
        assert(forall|i: int|
            0 <= i < s.len() - 1 ==> (#[trigger] s.drop_last()[i]) == s[i]);
        lemma_insert_ranked_lower(s.drop_last(), x, inv, bound);
        let t = insert_ranked(s.drop_last(), x, inv);
        assert forall|i: int| 0 <= i < r.len() implies spec_score(#[trigger] r[i], inv)
            >= bound by {
            if i < t.len() {
                assert(r[i] == t[i]);
            } else {
                assert(r[i] == s.last());
            }
        }
    }
}

proof fn lemma_insert_ranked_sorted(
    s: Seq<ChampionStateModel>,
    x: ChampionStateModel,
    inv: Seq<ComponentStateModel>,
)
    requires
        sorted_desc(s, inv),
    ensures
        sorted_desc(insert_ranked(s, x, inv), inv),
    decreases s.len(),
{
    let r = insert_ranked(s, x, inv);
    if s.len() == 0 {
    } else if spec_score(s.last(), inv) >= spec_score(x, inv) {
        assert forall|i: int, j: int|
            0 <= i < j < r.len() implies spec_score(#[trigger] r[i], inv) >= spec_score(
            #[trigger] r[j],
            inv,
        ) by {
            if j < s.len() {
                assert(r[i] == s[i] && r[j] == s[j]);
            } else {
                assert(r[j] == x);
                assert(r[i] == s[i]);
                if i < s.len() - 1 {
                    assert(spec_score(s[i], inv) >= spec_score(s.last(), inv));
                }
            }
        }
    } else {
        let d = s.drop_last();
        assert(forall|i: int| 0 <= i < d.len() ==> (#[trigger] d[i]) == s[i]);
        lemma_insert_ranked_sorted(d, x, inv);
        let t = insert_ranked(d, x, inv);
        // every record of the inserted prefix scores at least the old last's
        assert forall|i: int| 0 <= i < d.len() implies spec_score(#[trigger] d[i], inv)
            >= spec_score(s.last(), inv) by {
            if i < s.len() - 1 {
                assert(spec_score(s[i], inv) >= spec_score(s.last(), inv));
            }
        }
        lemma_insert_ranked_lower(d, x, inv, spec_score(s.last(), inv));
        assert forall|i: int, j: int|
            0 <= i < j < r.len() implies spec_score(#[trigger] r[i], inv) >= spec_score(
            #[trigger] r[j],
            inv,
        ) by {
            if j < t.len() {
                assert(r[i] == t[i] && r[j] == t[j]);
            } else {
                assert(r[j] == s.last());
                assert(r[i] == t[i]);
            }
        }
    }
}

/// The ranking is ordered by descending score, for any roster and any
/// inventory.
pub proof fn lemma_rank_sorted(s: Seq<ChampionStateModel>, inv: Seq<ComponentStateModel>)
    ensures
        sorted_desc(spec_rank(s, inv), inv),
    decreases s.len(),
{
    if s.len() > 0 {
        lemma_rank_sorted(s.drop_last(), inv);
        lemma_insert_ranked_sorted(spec_rank(s.drop_last(), inv), s.last(), inv);
    }
}

proof fn lemma_insert_ranked_multiset(
    s: Seq<ChampionStateModel>,
    x: ChampionStateModel,
    inv: Seq<ComponentStateModel>,
)
    ensures
        insert_ranked(s, x, inv).to_multiset() == s.to_multiset().insert(x),
    decreases s.len(),
{
    broadcast use group_to_multiset_ensures;

    if s.len() == 0 {
        assert(seq![x] =~= Seq::<ChampionStateModel>::empty().push(x));
        assert(Seq::<ChampionStateModel>::empty().push(x).to_multiset() =~= Multiset::empty().insert(
            x,
        ));
        assert(s.to_multiset() =~= Multiset::empty());
    } else if spec_score(s.last(), inv) >= spec_score(x, inv) {
    } else {
        let d = s.drop_last();
        lemma_insert_ranked_multiset(d, x, inv);
        assert(s =~= d.push(s.last()));
        assert(insert_ranked(s, x, inv).to_multiset() =~= insert_ranked(
            d,
            x,
            inv,
        ).to_multiset().insert(s.last()));
        assert(d.to_multiset().insert(x).insert(s.last()) =~= d.to_multiset().insert(
            s.last(),
        ).insert(x));
    }
}

/// When every record scores the same, the ranking is the roster itself:
/// champions of equal score keep their roster order.  In particular an
/// all-zero inventory leaves the roster order unchanged.
pub proof fn lemma_uniform_scores_keep_order(
    s: Seq<ChampionStateModel>,
    inv: Seq<ComponentStateModel>,
    c: nat,
)
    requires
        forall|i: int| 0 <= i < s.len() ==> spec_score(#[trigger] s[i], inv) == c,
    ensures
        spec_rank(s, inv) == s,
    decreases s.len(),
{
    if s.len() > 0 {
        let d = s.drop_last();
        assert(forall|i: int| 0 <= i < d.len() ==> (#[trigger] d[i]) == s[i]);
        lemma_uniform_scores_keep_order(d, inv, c);
        if d.len() == 0 {
            assert(spec_rank(s, inv) =~= s);
        } else {
            assert(spec_score(d.last(), inv) >= spec_score(s.last(), inv));
            assert(spec_rank(s, inv) =~= d.push(s.last()));
            assert(d.push(s.last()) =~= s);
        }
    }
}

/// The records of `s` scoring exactly `c` against `inv`, in their order
/// within `s`.
pub open spec fn same_score(
    s: Seq<ChampionStateModel>,
    inv: Seq<ComponentStateModel>,
    c: nat,
) -> Seq<ChampionStateModel>
    decreases s.len(),
{
    if s.len() == 0 {
        Seq::empty()
    } else {
        let prefix = same_score(s.drop_last(), inv, c);
        if spec_score(s.last(), inv) == c {
            prefix.push(s.last())
        } else {
            prefix
        }
    }
}

proof fn lemma_insert_ranked_same_score(
    s: Seq<ChampionStateModel>,
    x: ChampionStateModel,
    inv: Seq<ComponentStateModel>,
    c: nat,
)
    ensures
        same_score(insert_ranked(s, x, inv), inv, c) == if spec_score(x, inv) == c {
            same_score(s, inv, c).push(x)
        } else {
            same_score(s, inv, c)
        },
    decreases s.len(),
{
    if s.len() == 0 {
        assert(seq![x].drop_last() =~= Seq::<ChampionStateModel>::empty());
        assert(same_score(seq![x].drop_last(), inv, c) == same_score(
            Seq::<ChampionStateModel>::empty(),
            inv,
            c,
        ));
    } else if spec_score(s.last(), inv) >= spec_score(x, inv) {
        assert(s.push(x).drop_last() =~= s);
        assert(same_score(s.push(x).drop_last(), inv, c) == same_score(s, inv, c));
    } else {
        let d = s.drop_last();
        lemma_insert_ranked_same_score(d, x, inv, c);
        let t = insert_ranked(d, x, inv);
        assert(t.push(s.last()).drop_last() =~= t);
        assert(same_score(t.push(s.last()).drop_last(), inv, c) == same_score(t, inv, c));
    }
}

/// Stability of the tie-break, in full: for every score, the ranking
/// lists the roster's records of that score in exactly their roster
/// order.
pub proof fn lemma_rank_stable(
    s: Seq<ChampionStateModel>,
    inv: Seq<ComponentStateModel>,
    c: nat,
)
    ensures
        same_score(spec_rank(s, inv), inv, c) == same_score(s, inv, c),
    decreases s.len(),
{
    if s.len() > 0 {
        let d = s.drop_last();
        lemma_rank_stable(d, inv, c);
        lemma_insert_ranked_same_score(spec_rank(d, inv), s.last(), inv, c);
    }
}

/// The ranking is a permutation of the roster: the same records, with
/// the same multiplicities, merely reordered.
pub proof fn lemma_rank_permutes(s: Seq<ChampionStateModel>, inv: Seq<ComponentStateModel>)
    ensures
        spec_rank(s, inv).to_multiset() == s.to_multiset(),
    decreases s.len(),
{
    broadcast use group_to_multiset_ensures;

    if s.len() > 0 {
        let d = s.drop_last();
        lemma_rank_permutes(d, inv);
        lemma_insert_ranked_multiset(spec_rank(d, inv), s.last(), inv);
        assert(s =~= d.push(s.last()));
        assert(s.to_multiset() =~= d.to_multiset().insert(s.last()));
    }
}

// ---------------------------------------------------------------------------
// Executable scoring and ranking
// ---------------------------------------------------------------------------

/// Expands every item into its composition list, multiplicities kept.
#[verifier::loop_isolation(false)]
fn flatten_compositions(items: &Vec<Item>) -> (r: Vec<String>)
    ensures
        r.deep_view() == composition_ids(items.deep_view()),
{
    let ghost im = items.deep_view();
    let mut flat: Vec<String> = Vec::new();
    let n = items.len();
    let mut i: usize = 0;
    while i < n
        invariant
            0 <= i <= n,
            flat.deep_view() == composition_ids(im.subrange(0, i as int)),
        decreases n - i,
    {
        let comp = &items[i].composition;
        let ghost compm = comp.deep_view();
        proof {
            assert(flat.deep_view() =~= composition_ids(im.subrange(0, i as int)) + compm.subrange(
                0,
                0,
            ));
        }
        let n_comp = comp.len();
        let mut k: usize = 0;
        while k < n_comp
            invariant
                0 <= k <= n_comp,
                flat.deep_view() == composition_ids(im.subrange(0, i as int)) + compm.subrange(
                    0,
                    k as int,
                ),
            decreases n_comp - k,
        {
            let entry = comp[k].clone();
            let ghost prevf = flat.deep_view();
            proof {
                assert(entry@ == compm[k as int]);
            }
            flat.push(entry);
            proof {
                assert(flat.deep_view() =~= prevf.push(compm[k as int]));
                assert(prevf.push(compm[k as int]) =~= composition_ids(im.subrange(0, i as int))
                    + compm.subrange(0, k + 1));
            }
            k = k + 1;
        }
        proof {
            assert(compm.subrange(0, n_comp as int) =~= compm);
            assert(im.subrange(0, i + 1).drop_last() =~= im.subrange(0, i as int));
            assert(im.subrange(0, i + 1).last() == im[i as int]);
            assert(flat.deep_view() =~= composition_ids(im.subrange(0, i + 1)));
        }
        i = i + 1;
    }
    proof {
        assert(im.subrange(0, n as int) =~= im);
    }
    flat
}

/// How many entries of `ids` equal `id`.
#[verifier::loop_isolation(false)]
fn count_occurrences(ids: &Vec<String>, id: &String) -> (c: usize)
    ensures
        c as nat == count_id(ids.deep_view(), id@),
{
    let ghost im = ids.deep_view();
    let n = ids.len();
    let mut c: usize = 0;
    let mut i: usize = 0;
    while i < n
        invariant
            0 <= i <= n,
            c <= i,
            c as nat == count_id(im.subrange(0, i as int), id@),
        decreases n - i,
    {
        proof {
            assert(im.subrange(0, i + 1).drop_last() =~= im.subrange(0, i as int));
            assert(im.subrange(0, i + 1).last() == im[i as int]);
        }
        if ids[i] == *id {
            c = c + 1;
        }
        i = i + 1;
    }
    proof {
        assert(im.subrange(0, n as int) =~= im);
    }
    c
}

/// A champion's match score against the inventory.  A champion with no
/// assigned items scores zero.
#[verifier::loop_isolation(false)]
pub fn score(cs: &ChampionState, inv: &ComponentInventory) -> (r: u128)
    ensures
        r as nat == spec_score(cs@, inv@),
        cs@.items.len() == 0 ==> r == 0,
{
    let flat = flatten_compositions(&cs.items);
    let n = inv.entries.len();
    let mut acc: u128 = 0;
    let mut i: usize = 0;
    while i < n
        invariant
            0 <= i <= n,
            acc as nat == spec_score(cs@, inv@.subrange(0, i as int)),
            acc <= (i as u128) * 0xFFFF_FFFF_FFFF_FFFFu128,
        decreases n - i,
    {
        proof {
            assert(inv@.subrange(0, i + 1).drop_last() =~= inv@.subrange(0, i as int));
            assert(inv@.subrange(0, i + 1).last() == inv@[i as int]);
        }
        let owned = inv.entries[i].count;
        let used = count_occurrences(&flat, &inv.entries[i].component.api_name);
        let term: usize = if owned < used {
            owned
        } else {
            used
        };
        proof {
            assert(term as nat == min_nat(
                inv@[i as int].count,
                count_id(consumed_ids(cs@), inv@[i as int].component.api_name),
            ));
            assert(term as u128 <= 0xFFFF_FFFF_FFFF_FFFFu128);
            assert(acc + term as u128 <= ((i + 1) as u128) * 0xFFFF_FFFF_FFFF_FFFFu128);
        }
        acc = acc + (term as u128);
        i = i + 1;
    }
    proof {
        assert(inv@.subrange(0, n as int) =~= inv@);
        if cs@.items.len() == 0 {
            lemma_score_no_items(cs@, inv@);
        }
    }
    acc
}

proof fn lemma_insert_ranked_pos(
    s: Seq<ChampionStateModel>,
    x: ChampionStateModel,
    inv: Seq<ComponentStateModel>,
    p: int,
)
    requires
        0 <= p <= s.len(),
        forall|l: int| p <= l < s.len() ==> spec_score(#[trigger] s[l], inv) < spec_score(x, inv),
        p == 0 || spec_score(s[p - 1], inv) >= spec_score(x, inv),
    ensures
        insert_ranked(s, x, inv) == s.subrange(0, p).push(x) + s.subrange(p, s.len() as int),
    decreases s.len(),
{
    if s.len() == 0 {
        assert(insert_ranked(s, x, inv) =~= s.subrange(0, p).push(x) + s.subrange(
            p,
            s.len() as int,
        ));
    } else if p == s.len() {
        assert(spec_score(s.last(), inv) >= spec_score(x, inv));
        assert(insert_ranked(s, x, inv) =~= s.subrange(0, p).push(x) + s.subrange(
            p,
            s.len() as int,
        ));
    } else {
        assert(spec_score(s[s.len() - 1], inv) < spec_score(x, inv));
        let d = s.drop_last();
        assert(forall|l: int| 0 <= l < d.len() ==> (#[trigger] d[l]) == s[l]);
        lemma_insert_ranked_pos(d, x, inv, p);
        assert(insert_ranked(s, x, inv) =~= s.subrange(0, p).push(x) + s.subrange(
            p,
            s.len() as int,
        ));
    }
}

/// Orders the roster by descending match score; champions of equal
/// score keep their roster order.
#[verifier::loop_isolation(false)]
pub fn rank(champs: &Vec<ChampionState>, inv: &ComponentInventory) -> (r: Vec<ChampionState>)
    ensures
        r.deep_view() == spec_rank(champs.deep_view(), inv@),
        sorted_desc(r.deep_view(), inv@),
        r.deep_view().to_multiset() == champs.deep_view().to_multiset(),
{
    let ghost cm = champs.deep_view();
    let mut out: Vec<ChampionState> = Vec::new();
    let mut out_scores: Vec<u128> = Vec::new();
    let n = champs.len();
    let mut i: usize = 0;
    while i < n
        invariant
            0 <= i <= n,
            out.deep_view() == spec_rank(cm.subrange(0, i as int), inv@),
            out_scores@.len() == out@.len(),
            forall|j: int|
                0 <= j < out@.len() ==> (#[trigger] out_scores@[j]) as nat == spec_score(
                    out.deep_view()[j],
                    inv@,
                ),
        decreases n - i,
    {
        let cs = champs[i].clone();
        let sc = score(&cs, inv);
        let mut p: usize = out.len();
        while p > 0 && out_scores[p - 1] < sc
            invariant
                0 <= p <= out@.len(),
                forall|l: int|
                    p <= l < out@.len() ==> (#[trigger] out_scores@[l]) < sc,
            decreases p,
        {
            p = p - 1;
        }
        let ghost prev = out.deep_view();
        let ghost prev_scores = out_scores@;
        proof {
            assert forall|l: int| p <= l < prev.len() implies spec_score(#[trigger] prev[l], inv@)
                < spec_score(cs@, inv@) by {
                assert(prev_scores[l] < sc);
            }
            if p > 0 {
                assert(spec_score(prev[p - 1], inv@) >= spec_score(cs@, inv@));
            }
            lemma_insert_ranked_pos(prev, cs@, inv@, p as int);
        }
        out.insert(p, cs);
        out_scores.insert(p, sc);
        proof {
            assert(out.deep_view() =~= prev.subrange(0, p as int).push(cs@) + prev.subrange(
                p as int,
                prev.len() as int,
            ));
            assert(cm.subrange(0, i + 1).drop_last() =~= cm.subrange(0, i as int));
            assert(cm.subrange(0, i + 1).last() == cm[i as int]);
            assert(out.deep_view() == spec_rank(cm.subrange(0, i + 1), inv@));
            assert forall|j: int| 0 <= j < out@.len() implies (#[trigger] out_scores@[j]) as nat
                == spec_score(out.deep_view()[j], inv@) by {
                if j < p {
                    assert(out_scores@[j] == prev_scores[j]);
                    assert(out.deep_view()[j] == prev[j]);
                } else if j == p {
                    assert(out_scores@[j] == sc);
                    assert(out.deep_view()[j] == cs@);
                } else {
                    assert(out_scores@[j] == prev_scores[j - 1]);
                    assert(out.deep_view()[j] == prev[j - 1]);
                }
            }
        }
        i = i + 1;
    }
    proof {
        assert(cm.subrange(0, n as int) =~= cm);
        lemma_rank_sorted(cm, inv@);
        lemma_rank_permutes(cm, inv@);
    }
    out
}

} // verus!
