//! Rendering of prompt templates: `%s` tokens take player names, `$` tokens
//! take a penalty number.

use vstd::prelude::*;

verus! {

/// Whether `t` starts with the two-character player token `%s`.
pub open spec fn starts_with_token(t: Seq<char>) -> bool {
    t.len() >= 2 && t[0] == '%' && t[1] == 's'
}

/// `t` with its `%s` tokens, taken left to right, replaced by the names in
/// order; once the names run out the remaining tokens stay as they are.
pub open spec fn fill_players(t: Seq<char>, names: Seq<Seq<char>>) -> Seq<char>
    decreases t.len(),
{
    if t.len() == 0 {
        t
    } else if starts_with_token(t) && names.len() > 0 {
        names[0] + fill_players(t.subrange(2, t.len() as int), names.drop_first())
    } else {
        seq![t[0]] + fill_players(t.subrange(1, t.len() as int), names)
    }
}

/// `s` with every `$` replaced by `d`.
pub open spec fn replace_dollars(s: Seq<char>, d: Seq<char>) -> Seq<char>
    decreases s.len(),
{
    if s.len() == 0 {
        s
    } else {
        (if s[0] == '$' {
            d
        } else {
            seq![s[0]]
        }) + replace_dollars(s.subrange(1, s.len() as int), d)
    }
}

pub open spec fn digit_char(d: nat) -> char {
    if d == 0 {
        '0'
    } else if d == 1 {
        '1'
    } else if d == 2 {
        '2'
    } else if d == 3 {
        '3'
    } else if d == 4 {
        '4'
    } else if d == 5 {
        '5'
    } else if d == 6 {
        '6'
    } else if d == 7 {
        '7'
    } else if d == 8 {
        '8'
    } else {
        '9'
    }
}

/// The decimal digits of `n`, most significant first, without leading zeros.
pub open spec fn decimal(n: nat) -> Seq<char>
    decreases n,
{
    if n < 10 {
        seq![digit_char(n)]
    } else {
        decimal(n / 10) + seq![digit_char(n % 10)]
    }
}

/// The rendered text of template `t` for the ordered player names `names`
/// and the penalty number `penalty`.
pub open spec fn render_text(t: Seq<char>, names: Seq<Seq<char>>, penalty: nat) -> Seq<char> {
    if t.contains('$') {
        replace_dollars(fill_players(t, names), decimal(penalty))
    } else {
        fill_players(t, names)
    }
}

/// The display names of the players at positions `order` of the pool.
pub open spec fn names_of(pool: Seq<String>, order: Seq<usize>) -> Seq<Seq<char>> {
    Seq::new(order.len(), |k: int| pool[order[k] as int]@)
}

/// Every position in `order` names a player of a pool of size `n`.
pub open spec fn indices_below(order: Seq<usize>, n: nat) -> bool {
    forall|k: int| 0 <= k < order.len() ==> (#[trigger] order[k]) < n
}

fn digit_str(d: usize) -> (r: &'static str)
    requires
        d < 10,
    ensures
        r@ == seq![digit_char(d as nat)],
{
    proof {
        reveal_strlit("0");
        reveal_strlit("1");
        reveal_strlit("2");
        reveal_strlit("3");
        reveal_strlit("4");
        reveal_strlit("5");
        reveal_strlit("6");
        reveal_strlit("7");
        reveal_strlit("8");
        reveal_strlit("9");
    }
    if d == 0 {
        "0"
    } else if d == 1 {
        "1"
    } else if d == 2 {
        "2"
    } else if d == 3 {
        "3"
    } else if d == 4 {
        "4"
    } else if d == 5 {
        "5"
    } else if d == 6 {
        "6"
    } else if d == 7 {
        "7"
    } else if d == 8 {
        "8"
    } else {
        "9"
    }
}

/// Appends the decimal digits of `n` to `out`.
pub fn push_decimal(out: &mut String, n: usize)
    ensures
        final(out)@ == old(out)@ + decimal(n as nat),
    decreases n,
{
    if n >= 10 {
        push_decimal(out, n / 10);
    }
    out.append(digit_str(n % 10));
    proof {
        assert(final(out)@ =~= old(out)@ + decimal(n as nat));
    }
}

/// Whether `s` holds a `$` token.
pub fn has_dollar(s: &str) -> (r: bool)
    ensures
        r == s@.contains('$'),
{
    let n = s.unicode_len();
    let mut i: usize = 0;
    while i < n
        invariant
            n == s@.len(),
            i <= n,
            forall|k: int| 0 <= k < i ==> s@[k] != '$',
        decreases n - i,
    {
        if s.get_char(i) == '$' {
            return true;
        }
        i = i + 1;
    }
    false
}

/// Replaces the `%s` tokens of `t`, left to right, by the players of `pool`
/// at positions `order`, one player per token.
pub fn fill_template(t: &str, pool: &[String], order: &Vec<usize>) -> (r: String)
    requires
        indices_below(order@, pool@.len()),
    ensures
        r@ == fill_players(t@, names_of(pool@, order@)),
{
    let ghost names = names_of(pool@, order@);
    let n = t.unicode_len();
    let mut out = String::new();
    let mut i: usize = 0;
    let mut j: usize = 0;
    proof {
        assert(t@.subrange(0, n as int) =~= t@);
        assert(names.subrange(0, names.len() as int) =~= names);
        assert(out@ + fill_players(t@, names) =~= fill_players(t@, names));
    }
    while i < n
        invariant
            n == t@.len(),
            i <= n,
            j <= order@.len(),
            indices_below(order@, pool@.len()),
            names == names_of(pool@, order@),
            out@ + fill_players(t@.subrange(i as int, n as int), names.subrange(j as int, names.len() as int))
                == fill_players(t@, names),
        decreases n - i,
    {
        let ghost rest = t@.subrange(i as int, n as int);
        let ghost left = names.subrange(j as int, names.len() as int);
        let c = t.get_char(i);
        if c == '%' && i + 1 < n && t.get_char(i + 1) == 's' && j < order.len() {
            let name = pool[order[j]].as_str();
            proof {
                assert(starts_with_token(rest));
                assert(rest.subrange(2, rest.len() as int) =~= t@.subrange(i + 2, n as int));
                assert(left.drop_first() =~= names.subrange(j + 1, names.len() as int));
                assert(left[0] == name@);
            }
            out.append(name);
            i = i + 2;
            j = j + 1;
        } else {
            let piece = t.substring_char(i, i + 1);
            proof {
                assert(piece@ =~= seq![rest[0]]);
                assert(rest.subrange(1, rest.len() as int) =~= t@.subrange(i + 1, n as int));
                if starts_with_token(rest) {
                    assert(left.len() == 0);
                }
            }
            out.append(piece);
            i = i + 1;
        }
        proof {
            assert(out@ + fill_players(t@.subrange(i as int, n as int), names.subrange(j as int, names.len() as int))
                =~= fill_players(t@, names));
        }
    }
    proof {
        assert(t@.subrange(n as int, n as int).len() == 0);
        assert(out@ =~= out@ + fill_players(t@.subrange(n as int, n as int), names.subrange(j as int, names.len() as int)));
    }
    out
}

/// Replaces every `$` of `s` by the decimal digits of `penalty`.
pub fn fill_penalty(s: &str, penalty: usize) -> (r: String)
    ensures
        r@ == replace_dollars(s@, decimal(penalty as nat)),
{
    let ghost d = decimal(penalty as nat);
    let n = s.unicode_len();
    let mut out = String::new();
    let mut i: usize = 0;
    proof {
        assert(s@.subrange(0, n as int) =~= s@);
        assert(out@ + replace_dollars(s@, d) =~= replace_dollars(s@, d));
    }
    while i < n
        invariant
            n == s@.len(),
            i <= n,
            d == decimal(penalty as nat),
            out@ + replace_dollars(s@.subrange(i as int, n as int), d) == replace_dollars(s@, d),
        decreases n - i,
    {
        let ghost rest = s@.subrange(i as int, n as int);
        proof {
            assert(rest.subrange(1, rest.len() as int) =~= s@.subrange(i + 1, n as int));
        }
        if s.get_char(i) == '$' {
            push_decimal(&mut out, penalty);
        } else {
            let piece = s.substring_char(i, i + 1);
            proof {
                assert(piece@ =~= seq![rest[0]]);
            }
            out.append(piece);
        }
        i = i + 1;
        proof {
            assert(out@ + replace_dollars(s@.subrange(i as int, n as int), d) =~= replace_dollars(s@, d));
        }
    }
    proof {
        assert(out@ =~= out@ + replace_dollars(s@.subrange(n as int, n as int), d));
    }
    out
}

/// Renders template `t` for the players of `pool` at positions `order`
/// (one per `%s`, left to right) and the penalty number `penalty` (for every
/// `$`, when the template holds one).
pub fn render(t: &str, pool: &[String], order: &Vec<usize>, penalty: usize) -> (r: String)
    requires
        indices_below(order@, pool@.len()),
    ensures
        r@ == render_text(t@, names_of(pool@, order@), penalty as nat),
{
    let filled = fill_template(t, pool, order);
    if has_dollar(t) {
        fill_penalty(filled.as_str(), penalty)
    } else {
        filled
    }
}

proof fn lemma_decimal_has_no_dollar(n: nat)
    ensures
        !decimal(n).contains('$'),
    decreases n,
{
    if n >= 10 {
        lemma_decimal_has_no_dollar(n / 10);
        assert(!seq![digit_char(n % 10)].contains('$')) by {
            assert(seq![digit_char(n % 10)][0] != '$');
        }
        let whole = decimal(n);
        assert forall|k: int| 0 <= k < whole.len() implies whole[k] != '$' by {
            if k < decimal(n / 10).len() {
                assert(whole[k] == decimal(n / 10)[k]);
            } else {
                assert(whole[k] == seq![digit_char(n % 10)][k - decimal(n / 10).len()]);
            }
        }
    } else {
        assert(decimal(n)[0] != '$');
    }
}

proof fn lemma_replace_dollars_leaves_none(s: Seq<char>, d: Seq<char>)
    requires
        !d.contains('$'),
    ensures
        !replace_dollars(s, d).contains('$'),
    decreases s.len(),
{
    if s.len() > 0 {
        let tail = s.subrange(1, s.len() as int);
        lemma_replace_dollars_leaves_none(tail, d);
        let head = if s[0] == '$' {
            d
        } else {
            seq![s[0]]
        };
        let whole = replace_dollars(s, d);
        assert(whole == head + replace_dollars(tail, d));
        assert forall|k: int| 0 <= k < whole.len() implies whole[k] != '$' by {
            if k < head.len() {
                assert(whole[k] == head[k]);
                if s[0] != '$' {
                    assert(head[k] == s[0]);
                }
            } else {
                assert(whole[k] == replace_dollars(tail, d)[k - head.len()]);
            }
        }
    }
}

/// Once a template holds a `$`, its rendered text holds none: every `$`
/// is replaced by the penalty number, whatever the players and the number.
pub proof fn lemma_penalty_replaces_every_dollar(t: Seq<char>, names: Seq<Seq<char>>, penalty: nat)
    requires
        t.contains('$'),
    ensures
        !render_text(t, names, penalty).contains('$'),
{
    lemma_decimal_has_no_dollar(penalty);
    lemma_replace_dollars_leaves_none(fill_players(t, names), decimal(penalty));
}

/// No two players of `pool` share a display name.
pub open spec fn distinct_names(pool: Seq<String>) -> bool {
    forall|i: int, j: int|
        0 <= i < pool.len() && 0 <= j < pool.len() && i != j ==> pool[i]@ != pool[j]@
}

/// The players handed to the `%s` tokens of one render are mutually
/// distinct: distinct positions in a pool of distinct names give distinct
/// names.
pub proof fn lemma_rendered_players_distinct(pool: Seq<String>, order: Seq<usize>)
    requires
        distinct_names(pool),
        indices_below(order, pool.len()),
        order.no_duplicates(),
    ensures
        names_of(pool, order).no_duplicates(),
{
    let names = names_of(pool, order);
    assert forall|a: int, b: int| 0 <= a < names.len() && 0 <= b < names.len() && a != b implies names[a]
        != names[b] by {
        assert(order[a] < pool.len() && order[b] < pool.len());
        assert(order[a] != order[b]);
    }
}

} // verus!
