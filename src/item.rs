//! The catalog's data model: prompt templates, their categories and the
//! rules that decide which of them may open a chain.

use vstd::prelude::*;

verus! {

/// Category code of story prompts, which are never drawn as roots.
pub const STORY_TYPE: usize = 15;

/// Category code of personal standing rules.
pub const PERSONAL_RULE_TYPE: usize = 2;

/// Category code of collective standing rules.
pub const COLLECTIVE_RULE_TYPE: usize = 3;

/// One prompt template of the catalog.
#[derive(Debug)]
pub struct SplitItem {
    /// Informational flag with no effect on the storyline.
    pub cycle_state: bool,
    /// Category code.
    pub ty: usize,
    /// Template text with `%s` player tokens and `$` penalty tokens.
    pub text: String,
    /// Present on items that may have chained children.
    pub key: Option<String>,
    /// Present on chained children only: the `key` of their parent.
    pub parent_key: Option<String>,
    /// Number of distinct players the template needs.
    pub nb_players: usize,
}

/// A themed subset of the catalog.
#[derive(Clone, Copy, Debug, PartialEq, Eq)]
pub enum Pack {
    Default,
    Hot,
    Silly,
    War,
    Bar,
}

impl Pack {
    /// Name of the pack's catalog, prefixed by its language.
    pub fn catalog_name(self) -> (r: &'static str)
        ensures
            self == Pack::Default ==> r@ == "fr-default"@,
            self == Pack::Hot ==> r@ == "fr-hot"@,
            self == Pack::Silly ==> r@ == "fr-silly"@,
            self == Pack::War ==> r@ == "fr-war"@,
            self == Pack::Bar ==> r@ == "fr-bar"@,
    {
        match self {
            Pack::Default => "fr-default",
            Pack::Hot => "fr-hot",
            Pack::Silly => "fr-silly",
            Pack::War => "fr-war",
            Pack::Bar => "fr-bar",
        }
    }
}

/// Whether `it` may be drawn as a root for a pool of `n` players.
pub open spec fn root_eligible(it: SplitItem, n: nat) -> bool {
    it.ty != STORY_TYPE && it.nb_players <= n && it.parent_key is None
}

/// Whether `it` is a chained child of the item with key `key`.
pub open spec fn child_of(it: SplitItem, key: Seq<char>) -> bool {
    it.parent_key is Some && it.parent_key->0@ == key
}

/// Whether the category `ty` is a standing rule, whose chained child comes
/// back within a bounded window rather than right after it.
pub open spec fn standing_rule(ty: usize) -> bool {
    ty == PERSONAL_RULE_TYPE || ty == COLLECTIVE_RULE_TYPE
}

/// Whether the category `ty` is a standing rule.
pub fn is_standing_rule(ty: usize) -> (r: bool)
    ensures
        r == standing_rule(ty),
{
    ty == PERSONAL_RULE_TYPE || ty == COLLECTIVE_RULE_TYPE
}

impl SplitItem {
    /// Whether this item may be drawn as a root for a pool of `n` players.
    pub fn is_root_eligible(&self, n: usize) -> (r: bool)
        ensures
            r == root_eligible(*self, n as nat),
    {
        self.ty != STORY_TYPE && self.nb_players <= n && self.parent_key.is_none()
    }

    /// Whether this item is a chained child of the item with key `key`.
    pub fn is_child_of(&self, key: &String) -> (r: bool)
        ensures
            r == child_of(*self, key@),
    {
        match &self.parent_key {
            Some(p) => *p == *key,
            None => false,
        }
    }
}

/// The positions of the root-eligible items of `items`, for `n` players.
pub fn root_candidates(items: &[SplitItem], n: usize) -> (r: Vec<usize>)
    ensures
        r@.no_duplicates(),
        forall|k: int|
            0 <= k < r@.len() ==> (#[trigger] r@[k]) < items@.len() && root_eligible(
                items@[r@[k] as int],
                n as nat,
            ),
        forall|i: int|
            0 <= i < items@.len() && root_eligible(#[trigger] items@[i], n as nat) ==> r@.contains(
                i as usize,
            ),
{
    let mut r: Vec<usize> = Vec::new();
    let mut i: usize = 0;
    while i < items.len()
        invariant
            i <= items@.len(),
            r@.no_duplicates(),
            forall|k: int| 0 <= k < r@.len() ==> (#[trigger] r@[k]) < i,
            forall|k: int|
                0 <= k < r@.len() ==> (#[trigger] r@[k]) < items@.len() && root_eligible(
                    items@[r@[k] as int],
                    n as nat,
                ),
            forall|j: int|
                0 <= j < i && root_eligible(#[trigger] items@[j], n as nat) ==> r@.contains(
                    j as usize,
                ),
        decreases items@.len() - i,
    {
        let ghost before = r@;
        if items[i].is_root_eligible(n) {
            r.push(i);
            assert(r@[r@.len() - 1] == i);
            assert forall|a: int, b: int| 0 <= a < b < r@.len() implies r@[a] != r@[b] by {
                if b == r@.len() - 1 {
                    assert(before[a] < i);
                }
            }
        }
        assert forall|j: int| 0 <= j <= i && root_eligible(items@[j], n as nat) implies r@.contains(j as usize) by {
            if j < i {
                let k = choose|k: int| 0 <= k < before.len() && before[k] == j as usize;
                assert(r@[k] == j as usize);
            }
        }
        i = i + 1;
    }
    r
}

/// The positions of the chained children of the item with key `key`.
pub fn children_of(items: &[SplitItem], key: &String) -> (r: Vec<usize>)
    ensures
        r@.no_duplicates(),
        forall|k: int|
            0 <= k < r@.len() ==> (#[trigger] r@[k]) < items@.len() && child_of(
                items@[r@[k] as int],
                key@,
            ),
        forall|i: int|
            0 <= i < items@.len() && child_of(#[trigger] items@[i], key@) ==> r@.contains(
                i as usize,
            ),
{
    let mut r: Vec<usize> = Vec::new();
    let mut i: usize = 0;
    while i < items.len()
        invariant
            i <= items@.len(),
            r@.no_duplicates(),
            forall|k: int| 0 <= k < r@.len() ==> (#[trigger] r@[k]) < i,
            forall|k: int|
                0 <= k < r@.len() ==> (#[trigger] r@[k]) < items@.len() && child_of(
                    items@[r@[k] as int],
                    key@,
                ),
            forall|j: int|
                0 <= j < i && child_of(#[trigger] items@[j], key@) ==> r@.contains(j as usize),
        decreases items@.len() - i,
    {
        let ghost before = r@;
        if items[i].is_child_of(key) {
            r.push(i);
            assert(r@[r@.len() - 1] == i);
            assert forall|a: int, b: int| 0 <= a < b < r@.len() implies r@[a] != r@[b] by {
                if b == r@.len() - 1 {
                    assert(before[a] < i);
                }
            }
        }
        assert forall|j: int| 0 <= j <= i && child_of(items@[j], key@) implies r@.contains(j as usize) by {
            if j < i {
                let k = choose|k: int| 0 <= k < before.len() && before[k] == j as usize;
                assert(r@[k] == j as usize);
            }
        }
        i = i + 1;
    }
    r
}

} // verus!
