//! The storyline builder: draws roots, places them at random positions and
//! expands their chained children.

use vstd::prelude::*;
use crate::item::{
    children_of, child_of, is_standing_rule, root_candidates, root_eligible, standing_rule,
    SplitItem,
};
use crate::random::{choose_from, entropy_available, random_between, sample_indices, shuffle_indices};
use crate::template::{has_dollar, indices_below, names_of, render, render_text};

verus! {

/// Why no storyline could be built.
#[derive(Clone, Copy, Debug, PartialEq, Eq)]
pub enum StoryError {
    /// No item of the catalog may open a chain for this many players.
    ContentConfiguration,
    /// The host entropy source is unavailable.
    EntropySource,
}

/// One rendered prompt of a storyline, with what it was made from.
#[derive(Debug)]
pub struct StoryEntry {
    /// Category code of the originating item.
    pub ty: usize,
    /// Rendered text.
    pub text: String,
    /// Position of the originating item in the catalog.
    pub item: usize,
    /// Whether the entry is a chained child rather than a drawn root.
    pub chained: bool,
    /// Positions in the player pool of the players given to the `%s` tokens, in order.
    pub players: Vec<usize>,
    /// Number given to the `$` tokens; zero where the template holds none.
    pub penalty: usize,
}

/// `e` is a faithful rendering of a catalog item for the player pool `pool`.
pub open spec fn entry_ok(e: StoryEntry, items: Seq<SplitItem>, pool: Seq<String>) -> bool {
    let it = items[e.item as int];
    &&& e.item < items.len()
    &&& e.ty == it.ty
    &&& indices_below(e.players@, pool.len())
    &&& e.players@.no_duplicates()
    &&& e.text@ == render_text(it.text@, names_of(pool, e.players@), e.penalty as nat)
    &&& (it.text@.contains('$') ==> 1 <= e.penalty <= pool.len())
    &&& (!it.text@.contains('$') ==> e.penalty == 0)
    &&& if e.chained {
        it.parent_key is Some
    } else {
        root_eligible(it, pool.len()) && e.players@.len() == it.nb_players
    }
}

pub open spec fn all_entries_ok(s: Seq<StoryEntry>, items: Seq<SplitItem>, pool: Seq<String>) -> bool {
    forall|i: int| 0 <= i < s.len() ==> entry_ok(#[trigger] s[i], items, pool)
}

/// Some item of the catalog may open a chain for `n` players.
pub open spec fn has_root(items: Seq<SplitItem>, n: nat) -> bool {
    exists|i: int| 0 <= i < items.len() && root_eligible(#[trigger] items[i], n)
}

proof fn lemma_permutation_keeps_indices(a: Seq<usize>, b: Seq<usize>, n: nat)
    requires
        a.to_multiset() == b.to_multiset(),
        indices_below(a, n),
        a.no_duplicates(),
    ensures
        indices_below(b, n),
        b.no_duplicates(),
{
    broadcast use vstd::seq_lib::group_to_multiset_ensures;

    a.lemma_multiset_has_no_duplicates();
    assert forall|k: int| 0 <= k < b.len() implies #[trigger] b[k] < n by {
        assert(b.contains(b[k]));
        assert(b.to_multiset().count(b[k]) > 0);
        assert(a.to_multiset().count(b[k]) > 0);
        assert(a.contains(b[k]));
        let j = choose|j: int| 0 <= j < a.len() && a[j] == b[k];
        assert(a[j] < n);
    }
    assert forall|x: usize| b.to_multiset().contains(x) implies b.to_multiset().count(x) == 1 by {
        assert(a.to_multiset().contains(x));
    }
    b.lemma_multiset_has_no_duplicates_conv();
}

/// Draws `k` distinct players of a pool of `n` and puts them in a fresh
/// random order, the order in which they fill the `%s` tokens.
pub fn pick_players(n: usize, k: usize) -> (r: Vec<usize>)
    requires
        k <= n,
    ensures
        r@.len() == k,
        indices_below(r@, n as nat),
        r@.no_duplicates(),
{
    let mut order = sample_indices(n, k);
    let ghost drawn = order@;
    shuffle_indices(&mut order);
    proof {
        lemma_permutation_keeps_indices(drawn, order@, n as nat);
    }
    order
}

/// Renders catalog item `idx` for the players of `pool` at positions
/// `order`, drawing a penalty number in `1..=pool.len()` when its template
/// holds a `$`.
pub fn make_entry(items: &[SplitItem], idx: usize, pool: &[String], order: Vec<usize>, chained: bool)
    -> (r: StoryEntry)
    requires
        idx < items@.len(),
        pool@.len() >= 1,
        indices_below(order@, pool@.len()),
    ensures
        r.item == idx,
        r.chained == chained,
        r.players@ == order@,
        r.ty == items@[idx as int].ty,
        r.text@ == render_text(items@[idx as int].text@, names_of(pool@, order@), r.penalty as nat),
        items@[idx as int].text@.contains('$') ==> 1 <= r.penalty <= pool@.len(),
        !items@[idx as int].text@.contains('$') ==> r.penalty == 0,
{
    let it = &items[idx];
    let penalty = if has_dollar(it.text.as_str()) {
        random_between(1, pool.len())
    } else {
        0
    };
    let text = render(it.text.as_str(), pool, &order, penalty);
    StoryEntry { ty: it.ty, text, item: idx, chained, players: order, penalty }
}

/// Where one round placed its entries.
#[derive(Clone, Copy, Debug, PartialEq, Eq)]
pub struct Placement {
    /// Position at which the drawn root was inserted.
    pub root_at: usize,
    /// Position at which its chained child was inserted, after the root, if any.
    pub child_at: Option<usize>,
}

/// The inclusive upper bound of the positions a standing rule's child may
/// take: `max_rule_duration` past the root, and no further than the end of
/// a storyline of length `len`.
pub open spec fn window_end(root_at: nat, len: nat, max_rule_duration: nat) -> nat {
    if root_at + max_rule_duration <= len {
        root_at + max_rule_duration
    } else {
        len
    }
}

/// `after` is `before` with one round placed: a drawn root inserted at
/// `root_at`, then, where `child_at` is given, one chained child of it
/// inserted there. A root whose key has children always gets one. A standing
/// rule's child lands strictly after the root and at most
/// `max_rule_duration` positions later, within the storyline as it stands
/// after the root's insertion; any other child lands right after the root.
/// The child is rendered for the root's players, in the same order.
pub open spec fn placed_ok(
    before: Seq<StoryEntry>,
    after: Seq<StoryEntry>,
    root_at: int,
    child_at: Option<usize>,
    items: Seq<SplitItem>,
    pool: Seq<String>,
    max_rule_duration: nat,
) -> bool {
    let root_entry = after[root_at];
    let root = items[root_entry.item as int];
    let c = child_at->0 as int;
    &&& 0 <= root_at <= before.len()
    &&& !root_entry.chained
    &&& entry_ok(root_entry, items, pool)
    &&& child_at is None ==> {
        &&& after == before.insert(root_at, root_entry)
        &&& (root.key is Some ==> forall|i: int|
            0 <= i < items.len() ==> !child_of(#[trigger] items[i], root.key->0@))
    }
    &&& child_at is Some ==> {
        &&& after == before.insert(root_at, root_entry).insert(c, after[c])
        &&& root_at < c
        &&& if standing_rule(root.ty) {
            c <= window_end(root_at as nat, before.len() + 1, max_rule_duration)
        } else {
            c == root_at + 1
        }
        &&& after[c].chained
        &&& entry_ok(after[c], items, pool)
        &&& root.key is Some
        &&& child_of(items[after[c].item as int], root.key->0@)
        &&& after[c].players@ == root_entry.players@
    }
}

/// `after` is `before` with one round placed, wherever it was placed.
pub open spec fn round_ok(
    before: Seq<StoryEntry>,
    after: Seq<StoryEntry>,
    items: Seq<SplitItem>,
    pool: Seq<String>,
    max_rule_duration: nat,
) -> bool {
    exists|root_at: int, child_at: Option<usize>|
        #[trigger] placed_ok(before, after, root_at, child_at, items, pool, max_rule_duration)
}

/// `h` is the history of a build: it starts empty, each state follows from
/// the one before by one round, and a round is played only while the
/// storyline is shorter than `party_duration`.
pub open spec fn built_by_rounds(
    h: Seq<Seq<StoryEntry>>,
    items: Seq<SplitItem>,
    pool: Seq<String>,
    max_rule_duration: nat,
    party_duration: nat,
) -> bool {
    &&& h.len() >= 1
    &&& h[0].len() == 0
    &&& forall|k: int|
        0 <= k < h.len() - 1 ==> (#[trigger] h[k]).len() < party_duration && round_ok(
            h[k],
            h[k + 1],
            items,
            pool,
            max_rule_duration,
        )
}

/// What a successful build returns: between `party_duration` and one
/// more entries, each a faithful rendering, no chained child standing as a
/// root, and the whole made by rounds that stop once `party_duration` is
/// reached.
pub open spec fn storyline_ok(
    s: Seq<StoryEntry>,
    items: Seq<SplitItem>,
    pool: Seq<String>,
    party_duration: nat,
    max_rule_duration: nat,
) -> bool {
    &&& party_duration <= s.len() <= party_duration + 1
    &&& all_entries_ok(s, items, pool)
    &&& forall|i: int|
        0 <= i < s.len() && (#[trigger] s[i]).item < items.len()
            && items[s[i].item as int].parent_key is Some ==> s[i].chained
    &&& exists|h: Seq<Seq<StoryEntry>>|
        #[trigger] built_by_rounds(h, items, pool, max_rule_duration, party_duration) && h.last()
            == s
}

/// One round of the builder: draws a root among `candidates` and its
/// players, inserts it at a random position, then chains at most one child
/// of it. A standing rule's child lands strictly after the root and at most
/// `max_rule_duration` positions later, within the storyline as it stands
/// after the root's insertion; any other child lands right after the root.
pub fn add_round(
    storyline: &mut Vec<StoryEntry>,
    items: &[SplitItem],
    pool: &[String],
    candidates: &Vec<usize>,
    max_rule_duration: usize,
) -> (p: Placement)
    requires
        candidates@.len() > 0,
        forall|k: int|
            0 <= k < candidates@.len() ==> (#[trigger] candidates@[k]) < items@.len()
                && root_eligible(items@[candidates@[k] as int], pool@.len()),
        pool@.len() >= 1,
        max_rule_duration >= 1,
        old(storyline)@.len() + 2 <= usize::MAX,
    ensures
        candidates@.contains(final(storyline)@[p.root_at as int].item),
        placed_ok(
            old(storyline)@,
            final(storyline)@,
            p.root_at as int,
            p.child_at,
            items@,
            pool@,
            max_rule_duration as nat,
        ),
{
    let idx = choose_from(candidates).unwrap();
    let root = &items[idx];
    let order = pick_players(pool.len(), root.nb_players);
    let child_order = order.clone();
    assert(child_order@ == order@);
    let entry = make_entry(items, idx, pool, order, false);
    let root_at = random_between(0, storyline.len());
    storyline.insert(root_at, entry);
    match &root.key {
        Some(key) => {
            let kids = children_of(items, key);
            match choose_from(&kids) {
                Some(cidx) => {
                    let len = storyline.len();
                    let child_at = if is_standing_rule(root.ty) {
                        let hi = if max_rule_duration >= len - root_at {
                            len
                        } else {
                            root_at + max_rule_duration
                        };
                        random_between(root_at + 1, hi)
                    } else {
                        root_at + 1
                    };
                    let child = make_entry(items, cidx, pool, child_order, true);
                    storyline.insert(child_at, child);
                    Placement { root_at, child_at: Some(child_at) }
                },
                None => {
                    proof {
                        assert forall|i: int| 0 <= i < items@.len() implies !child_of(
                            #[trigger] items@[i],
                            key@,
                        ) by {
                            if child_of(items@[i], key@) {
                                assert(kids@.contains(i as usize));
                            }
                        }
                    }
                    Placement { root_at, child_at: None }
                },
            }
        },
        None => Placement { root_at, child_at: None },
    }
}

proof fn lemma_insert_keeps_ok(
    s: Seq<StoryEntry>,
    at: int,
    e: StoryEntry,
    items: Seq<SplitItem>,
    pool: Seq<String>,
)
    requires
        all_entries_ok(s, items, pool),
        entry_ok(e, items, pool),
        0 <= at <= s.len(),
    ensures
        all_entries_ok(s.insert(at, e), items, pool),
{
    s.insert_ensures(at, e);
    assert forall|k: int| 0 <= k < s.insert(at, e).len() implies entry_ok(
        #[trigger] s.insert(at, e)[k],
        items,
        pool,
    ) by {
        if k > at {
            assert(s.insert(at, e)[k] == s[k - 1]);
        }
    }
}

/// Builds a storyline of at least `party_duration` prompts from the catalog
/// `items` for the player pool `players`. Each round draws a root among the
/// items that may open a chain, inserts it at a random position, and chains
/// at most one child of it, so the result is at most one entry longer than
/// asked. Fails with `ContentConfiguration` exactly when no item may open a
/// chain for this many players, and with `EntropySource` when the host
/// entropy source is unavailable.
pub fn build_storyline(
    items: &[SplitItem],
    party_duration: usize,
    max_rule_duration: usize,
    players: &[String],
) -> (r: Result<Vec<StoryEntry>, StoryError>)
    requires
        players@.len() >= 1,
        max_rule_duration >= 1,
        party_duration < usize::MAX,
    ensures
        (r is Err && r->Err_0 == StoryError::ContentConfiguration) <==> !has_root(
            items@,
            players@.len(),
        ),
        r is Ok ==> storyline_ok(
            r->Ok_0@,
            items@,
            players@,
            party_duration as nat,
            max_rule_duration as nat,
        ),
{
    let candidates = root_candidates(items, players.len());
    if candidates.len() == 0 {
        proof {
            assert forall|i: int| 0 <= i < items@.len() implies !root_eligible(
                #[trigger] items@[i],
                players@.len(),
            ) by {
                if root_eligible(items@[i], players@.len()) {
                    assert(candidates@.contains(i as usize));
                }
            }
        }
        return Err(StoryError::ContentConfiguration);
    }
    proof {
        let i = candidates@[0] as int;
        assert(root_eligible(items@[i], players@.len()));
    }
    if !entropy_available() {
        return Err(StoryError::EntropySource);
    }
    let mut storyline: Vec<StoryEntry> = Vec::new();
    let ghost mut history: Seq<Seq<StoryEntry>> = seq![storyline@];
    while storyline.len() < party_duration
        invariant
            candidates@.len() > 0,
            forall|k: int|
                0 <= k < candidates@.len() ==> (#[trigger] candidates@[k]) < items@.len()
                    && root_eligible(items@[candidates@[k] as int], players@.len()),
            players@.len() >= 1,
            max_rule_duration >= 1,
            party_duration < usize::MAX,
            storyline@.len() <= party_duration + 1,
            all_entries_ok(storyline@, items@, players@),
            built_by_rounds(
                history,
                items@,
                players@,
                max_rule_duration as nat,
                party_duration as nat,
            ),
            history.last() == storyline@,
        decreases party_duration + 1 - storyline@.len(),
    {
        let ghost before = storyline@;
        let p = add_round(&mut storyline, items, players, &candidates, max_rule_duration);
        proof {
            let root_entry = storyline@[p.root_at as int];
            lemma_insert_keeps_ok(before, p.root_at as int, root_entry, items@, players@);
            if p.child_at is Some {
                let c = p.child_at->0 as int;
                lemma_insert_keeps_ok(
                    before.insert(p.root_at as int, root_entry),
                    c,
                    storyline@[c],
                    items@,
                    players@,
                );
            }
            assert(placed_ok(
                before,
                storyline@,
                p.root_at as int,
                p.child_at,
                items@,
                players@,
                max_rule_duration as nat,
            ));
            let grown = history.push(storyline@);
            assert forall|k: int| 0 <= k < grown.len() - 1 implies (#[trigger] grown[k]).len()
                < party_duration && round_ok(
                grown[k],
                grown[k + 1],
                items@,
                players@,
                max_rule_duration as nat,
            ) by {
                if k < history.len() - 1 {
                    assert(grown[k] == history[k]);
                    assert(grown[k + 1] == history[k + 1]);
                } else {
                    assert(grown[k] == before);
                    assert(grown[k + 1] == storyline@);
                }
            }
            history = grown;
        }
    }
    proof {
        assert forall|i: int|
            0 <= i < storyline@.len() && (#[trigger] storyline@[i]).item < items@.len()
                && items@[storyline@[i].item as int].parent_key is Some implies storyline@[i].chained by {
            assert(entry_ok(storyline@[i], items@, players@));
        }
        assert(built_by_rounds(history, items@, players@, max_rule_duration as nat, party_duration as nat));
    }
    Ok(storyline)
}

} // verus!
