//! Autocomplete: the choices offered while a user types a name.

use vstd::prelude::*;
use crate::text::{
    contains, contains_chars, lemma_contains_trans, lemma_prefix, lowercase, prefix, to_lowercase,
};

verus! {

/// The most choices offered at once.
pub const MAX_CHOICES: usize = 25;

/// A choice offered to the user: the name shown and the value sent back when it is picked.
pub struct Choice {
    pub name: String,
    pub value: String,
}

impl View for Choice {
    type V = (Seq<char>, Seq<char>);

    open spec fn view(&self) -> (Seq<char>, Seq<char>) {
        (self.name@, self.value@)
    }
}

/// The views of a sequence of choices.
pub open spec fn choice_views(choices: Seq<Choice>) -> Seq<(Seq<char>, Seq<char>)> {
    choices.map_values(|c: Choice| c@)
}

/// `name` matches what the user typed: ignoring case, `partial` occurs in it.
pub open spec fn name_matches(name: Seq<char>, partial: Seq<char>) -> bool {
    contains_chars(lowercase(name), lowercase(partial))
}

/// The candidates whose name matches `partial`, in order.
pub open spec fn matching(candidates: Seq<(Seq<char>, Seq<char>)>, partial: Seq<char>) -> Seq<
    (Seq<char>, Seq<char>),
>
    decreases candidates.len(),
{
    if candidates.len() == 0 {
        Seq::empty()
    } else {
        let prev = matching(candidates.drop_last(), partial);
        if name_matches(candidates.last().0, partial) {
            prev.push(candidates.last())
        } else {
            prev
        }
    }
}

/// The choices offered for `partial`: the first `MAX_CHOICES` matching candidates, in order.
pub open spec fn offered(candidates: Seq<(Seq<char>, Seq<char>)>, partial: Seq<char>) -> Seq<
    (Seq<char>, Seq<char>),
> {
    prefix(matching(candidates, partial), MAX_CHOICES as nat)
}

/// Whether `name` matches `partial`, ignoring case.
pub fn matches_partial(name: &str, partial: &str) -> (r: bool)
    ensures
        r == name_matches(name@, partial@),
{
    let lower_name = to_lowercase(name);
    let lower_partial = to_lowercase(partial);
    contains(lower_name.as_str(), lower_partial.as_str())
}

/// The choices offered among `candidates` for what the user typed: those whose name
/// contains `partial`, ignoring case, at most `MAX_CHOICES` of them, in order.
pub fn filter_choices(candidates: &Vec<Choice>, partial: &str) -> (out: Vec<Choice>)
    ensures
        choice_views(out@) == offered(choice_views(candidates@), partial@),
{
    let ghost all = choice_views(candidates@);
    let mut out: Vec<Choice> = Vec::new();
    let n = candidates.len();
    for i in 0..n
        invariant
            n == candidates.len(),
            all == choice_views(candidates@),
            choice_views(out@) == prefix(matching(all.take(i as int), partial@), MAX_CHOICES as nat),
    {
        let ghost before = matching(all.take(i as int), partial@);
        proof {
            assert(all.take(i + 1).drop_last() =~= all.take(i as int));
            assert(all.take(i + 1).last() == candidates@[i as int]@);
        }
        if out.len() < MAX_CHOICES {
            if matches_partial(candidates[i].name.as_str(), partial) {
                let c = Choice { name: candidates[i].name.clone(), value: candidates[i].value.clone() };
                assert(c@ == candidates@[i as int]@);
                assert(choice_views(out@).len() == out.len());
                assert(choice_views(out@) == before);
                let ghost old_out = out@;
                out.push(c);
                assert(out@ == old_out.push(c));
                assert(choice_views(out@) =~= before.push(candidates@[i as int]@));
            }
        } else {
            proof {
                let after = matching(all.take(i + 1), partial@);
                assert(before.len() >= MAX_CHOICES);
                assert(after.take(MAX_CHOICES as int) =~= before.take(MAX_CHOICES as int));
            }
        }
    }
    proof {
        assert(all.take(n as int) =~= all);
    }
    out
}

/// Every match is a candidate whose name matches, and the matches keep the candidates' order.
proof fn lemma_matching(candidates: Seq<(Seq<char>, Seq<char>)>, partial: Seq<char>)
    ensures
        matching(candidates, partial).len() <= candidates.len(),
        forall|k: int|
            #![trigger matching(candidates, partial)[k]]
            0 <= k < matching(candidates, partial).len() ==> name_matches(
                matching(candidates, partial)[k].0,
                partial,
            ) && candidates.contains(matching(candidates, partial)[k]),
    decreases candidates.len(),
{
    if candidates.len() > 0 {
        let prev = candidates.drop_last();
        lemma_matching(prev, partial);
        assert forall|k: int| 0 <= k < matching(prev, partial).len() implies candidates.contains(
            #[trigger] matching(prev, partial)[k],
        ) by {
            let x = matching(prev, partial)[k];
            assert(prev.contains(x));
            let j = choose|j: int| 0 <= j < prev.len() && prev[j] == x;
            assert(candidates[j] == prev[j]);
        }
        assert(candidates[candidates.len() - 1] == candidates.last());
    }
}

/// At most `MAX_CHOICES` choices are offered; each is one of the candidates and its name
/// contains what the user typed, ignoring case; and where fewer than `MAX_CHOICES`
/// candidates match, every matching candidate is offered.
pub proof fn lemma_offered(candidates: Seq<(Seq<char>, Seq<char>)>, partial: Seq<char>)
    ensures
        offered(candidates, partial).len() <= MAX_CHOICES,
        forall|k: int|
            #![trigger offered(candidates, partial)[k]]
            0 <= k < offered(candidates, partial).len() ==> name_matches(
                offered(candidates, partial)[k].0,
                partial,
            ) && candidates.contains(offered(candidates, partial)[k]),
        matching(candidates, partial).len() < MAX_CHOICES ==> offered(candidates, partial)
            == matching(candidates, partial),
{
    lemma_matching(candidates, partial);
    let m = matching(candidates, partial);
    assert forall|k: int| 0 <= k < offered(candidates, partial).len() implies name_matches(
        #[trigger] offered(candidates, partial)[k].0,
        partial,
    ) && candidates.contains(offered(candidates, partial)[k]) by {
        assert(offered(candidates, partial)[k] == m[k]);
        assert(0 <= k < m.len());
    }
}

/// Where the longer query contains the shorter one (ignoring case), the candidates matching
/// the longer query are those matching the shorter one that also match the longer one.
proof fn lemma_matching_narrows(
    candidates: Seq<(Seq<char>, Seq<char>)>,
    shorter: Seq<char>,
    longer: Seq<char>,
)
    requires
        contains_chars(lowercase(longer), lowercase(shorter)),
    ensures
        matching(matching(candidates, shorter), longer) == matching(candidates, longer),
    decreases candidates.len(),
{
    if candidates.len() > 0 {
        let rest = candidates.drop_last();
        let x = candidates.last();
        lemma_matching_narrows(rest, shorter, longer);
        let prev = matching(rest, shorter);
        if name_matches(x.0, shorter) {
            assert(prev.push(x).drop_last() =~= prev);
            assert(prev.push(x).last() == x);
        } else if name_matches(x.0, longer) {
            lemma_contains_trans(lowercase(x.0), lowercase(longer), lowercase(shorter));
        }
    }
}

/// A longer query never offers more: where the longer query contains the shorter one
/// (ignoring case) and the shorter one offered fewer than `MAX_CHOICES` choices, the
/// choices offered for the longer query are exactly those offered for the shorter one
/// that also match the longer one, in the same order.
pub proof fn lemma_longer_query_narrows(
    candidates: Seq<(Seq<char>, Seq<char>)>,
    shorter: Seq<char>,
    longer: Seq<char>,
)
    requires
        contains_chars(lowercase(longer), lowercase(shorter)),
        offered(candidates, shorter).len() < MAX_CHOICES,
    ensures
        offered(candidates, longer) == offered(offered(candidates, shorter), longer),
{
    lemma_matching_narrows(candidates, shorter, longer);
    assert(offered(candidates, shorter) == matching(candidates, shorter));
}

/// Keeps an element whose name, as `f` shows it, matches `partial`.
pub open spec fn named_match<A>(f: spec_fn(A) -> (Seq<char>, Seq<char>), partial: Seq<char>) -> spec_fn(
    A,
) -> bool {
    |x: A| name_matches(f(x).0, partial)
}

/// Matching the choices made from `items` is filtering the items by name, then making
/// their choices.
pub proof fn lemma_matching_mapped<A>(
    items: Seq<A>,
    f: spec_fn(A) -> (Seq<char>, Seq<char>),
    partial: Seq<char>,
)
    ensures
        matching(items.map_values(f), partial) == items.filter(named_match(f, partial)).map_values(f),
    decreases items.len(),
{
    reveal(Seq::filter);
    if items.len() > 0 {
        let init = items.drop_last();
        lemma_matching_mapped(init, f, partial);
        assert(items.map_values(f).drop_last() =~= init.map_values(f));
        assert(items.map_values(f).last() == f(items.last()));
        let kept = init.filter(named_match(f, partial));
        assert(kept.push(items.last()).map_values(f) =~= kept.map_values(f).push(f(items.last())));
    }
}

/// The choices offered, told over the items they are made from: as many as the items
/// whose name matches, up to `MAX_CHOICES`; the `k`-th is the choice of the `k`-th such
/// item; so where fewer than `MAX_CHOICES` match, every matching item's choice is offered.
pub proof fn lemma_offered_mapped<A>(
    items: Seq<A>,
    f: spec_fn(A) -> (Seq<char>, Seq<char>),
    partial: Seq<char>,
)
    ensures
        offered(items.map_values(f), partial).len() == if items.filter(named_match(f, partial)).len()
            < MAX_CHOICES {
            items.filter(named_match(f, partial)).len()
        } else {
            MAX_CHOICES as nat
        },
        forall|k: int|
            0 <= k < offered(items.map_values(f), partial).len() ==> #[trigger] offered(
                items.map_values(f),
                partial,
            )[k] == f(items.filter(named_match(f, partial))[k]),
        items.filter(named_match(f, partial)).len() < MAX_CHOICES ==> forall|k: int|
            0 <= k < items.len() && name_matches(f(items[k]).0, partial) ==> offered(
                items.map_values(f),
                partial,
            ).contains(#[trigger] f(items[k])),
{
    lemma_matching_mapped(items, f, partial);
    let kept = items.filter(named_match(f, partial));
    lemma_prefix(kept.map_values(f), MAX_CHOICES as nat);
    if kept.len() < MAX_CHOICES {
        assert forall|k: int|
            0 <= k < items.len() && name_matches(f(items[k]).0, partial) implies offered(
            items.map_values(f),
            partial,
        ).contains(#[trigger] f(items[k])) by {
            assert(named_match(f, partial)(items[k]));
            items.lemma_filter_contains(named_match(f, partial), k);
            let j = choose|j: int| 0 <= j < kept.len() && kept[j] == items[k];
            assert(kept.map_values(f)[j] == f(items[k]));
        }
    }
}

} // verus!
