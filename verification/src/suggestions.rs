use vstd::prelude::*;
use vstd::string::*;
use vstd::utf8::is_ascii_chars;

use crate::stat_config::StatConfig;
use crate::text::{
    case_folded, chars_of, contains_chars, contains_infix, fold_case, lemma_lex_order, lex_less,
    lex_lt, views,
};

verus! {

/// A query shorter than this many bytes gets no suggestions.
pub const MIN_QUERY_BYTES: usize = 2;

/// Discord shows at most this many autocomplete choices.
pub const MAX_SUGGESTIONS: usize = 25;

/// Whether a query is long enough to be searched for: at least
/// `MIN_QUERY_BYTES` bytes of UTF-8.
pub fn accepts_query(partial: &str) -> (accepted: bool)
    ensures
        accepted == (partial.len() >= MIN_QUERY_BYTES),
{
    partial.len() >= MIN_QUERY_BYTES
}

/// Every entry of `s` sorts strictly before every later one, so no entry repeats.
pub open spec fn strictly_ascending(s: Seq<Seq<char>>) -> bool {
    forall|i: int, j: int| 0 <= i < j < s.len() ==> lex_lt(#[trigger] s[i], #[trigger] s[j])
}

/// `picked` is `pool` in string order, cut to its first `MAX_SUGGESTIONS`
/// members: ascending without repeats, drawn from `pool`, and any member of
/// `pool` left out sorts after every entry of a full list.
pub open spec fn is_ranked_selection(picked: Seq<Seq<char>>, pool: Set<Seq<char>>) -> bool {
    &&& picked.len() <= MAX_SUGGESTIONS
    &&& strictly_ascending(picked)
    &&& forall|i: int| 0 <= i < picked.len() ==> pool.contains(#[trigger] picked[i])
    &&& forall|s: Seq<char>|
        #![trigger pool.contains(s)]
        pool.contains(s) && !picked.contains(s) ==> {
            &&& picked.len() == MAX_SUGGESTIONS
            &&& forall|i: int| 0 <= i < picked.len() ==> lex_lt(#[trigger] picked[i], s)
        }
}

/// The candidates whose lowercase form (at the same position of `lowered`)
/// contains `needle`.
pub open spec fn matching_pool(
    candidates: Seq<Seq<char>>,
    lowered: Seq<Seq<char>>,
    needle: Seq<char>,
) -> Set<Seq<char>> {
    Set::new(
        |s: Seq<char>|
            exists|i: int|
                0 <= i < candidates.len() && #[trigger] candidates[i] == s && contains_infix(
                    lowered[i],
                    needle,
                ),
    )
}

/// Inserts `x` into an ascending, repeat-free list at its place, unless an
/// equal entry is there already.
fn insert_sorted_unique(list: &mut Vec<String>, x: String)
    requires
        strictly_ascending(views(old(list)@)),
    ensures
        strictly_ascending(views(final(list)@)),
        forall|s: Seq<char>|
            #![trigger views(final(list)@).contains(s)]
            views(final(list)@).contains(s) <==> (views(old(list)@).contains(s) || s == x@),
{
    let ghost old_views = views(list@);
    let mut p: usize = 0;
    while p < list.len() && lex_less(list[p].as_str(), x.as_str())
        invariant
            p <= list@.len(),
            views(list@) == old_views,
            strictly_ascending(old_views),
            forall|j: int| 0 <= j < p ==> lex_lt(#[trigger] old_views[j], x@),
        decreases list.len() - p,
    {
        p = p + 1;
    }
    if p < list.len() && list[p] == x {
        proof {
            assert(old_views[p as int] == x@);
            assert forall|s: Seq<char>| #![trigger views(list@).contains(s)]
                views(list@).contains(s) <==> (old_views.contains(s) || s == x@) by {
                if s == x@ {
                    assert(old_views[p as int] == s);
                }
            }
        }
        return;
    }
    proof {
        if p < list@.len() {
            lemma_lex_order(old_views[p as int], x@, x@);
            assert(old_views[p as int] != x@);
            assert(lex_lt(x@, old_views[p as int]));
        }
    }
    list.insert(p, x);
    proof {
        let nv = views(list@);
        assert(nv =~= old_views.insert(p as int, x@));
        assert forall|i: int, j: int| 0 <= i < j < nv.len() implies lex_lt(
            #[trigger] nv[i],
            #[trigger] nv[j],
        ) by {
            if j < p {
            } else if j == p {
            } else if i < p {
                // nv[i] < x < old[p] <= old[j - 1]
                lemma_lex_order(nv[i], x@, old_views[p as int]);
                if j - 1 > p {
                    lemma_lex_order(nv[i], old_views[p as int], old_views[j - 1]);
                }
            } else if i == p {
                if j - 1 > p {
                    lemma_lex_order(x@, old_views[p as int], old_views[j - 1]);
                }
            } else {
            }
        }
        assert forall|s: Seq<char>| #![trigger nv.contains(s)]
            nv.contains(s) <==> (old_views.contains(s) || s == x@) by {
            if nv.contains(s) {
                let k = choose|k: int| 0 <= k < nv.len() && nv[k] == s;
                if k < p {
                    assert(old_views[k] == s);
                } else if k > p {
                    assert(old_views[k - 1] == s);
                }
            }
            if old_views.contains(s) {
                let k = choose|k: int| 0 <= k < old_views.len() && old_views[k] == s;
                if k < p {
                    assert(nv[k] == s);
                } else {
                    assert(nv[k + 1] == s);
                }
            }
            if s == x@ {
                assert(nv[p as int] == s);
            }
        }
    }
}

/// The character sequences held by each vector.
pub open spec fn char_views(v: Seq<Vec<char>>) -> Seq<Seq<char>> {
    v.map_values(|c: Vec<char>| c@)
}

/// The suggestions for a query: the candidates whose lowercase form (at the
/// same position of `lowered`) contains `needle`, sorted, without repeats,
/// at most `MAX_SUGGESTIONS` of them.
pub fn select_suggestions(candidates: &Vec<String>, lowered: &Vec<String>, needle: &str) -> (picked:
    Vec<String>)
    requires
        lowered@.len() == candidates@.len(),
    ensures
        is_ranked_selection(
            views(picked@),
            matching_pool(views(candidates@), views(lowered@), needle@),
        ),
{
    let mut lowered_chars: Vec<Vec<char>> = Vec::new();
    let mut i: usize = 0;
    while i < lowered.len()
        invariant
            i <= lowered@.len(),
            char_views(lowered_chars@) == views(lowered@).subrange(0, i as int),
        decreases lowered.len() - i,
    {
        let ghost prev = lowered_chars@;
        lowered_chars.push(chars_of(lowered[i].as_str()));
        assert(char_views(lowered_chars@) =~= char_views(prev).push(lowered@[i as int]@));
        i = i + 1;
        assert(char_views(lowered_chars@) =~= views(lowered@).subrange(0, i as int));
    }
    assert(views(lowered@).subrange(0, i as int) =~= views(lowered@));
    let needle_chars = chars_of(needle);
    select_by_folded(candidates, &lowered_chars, &needle_chars)
}

fn select_by_folded(candidates: &Vec<String>, lowered: &Vec<Vec<char>>, needle: &Vec<char>) -> (picked:
    Vec<String>)
    requires
        lowered@.len() == candidates@.len(),
    ensures
        is_ranked_selection(
            views(picked@),
            matching_pool(views(candidates@), char_views(lowered@), needle@),
        ),
{
    let ghost cands = views(candidates@);
    let ghost lows = char_views(lowered@);
    let needle_chars = needle;
    let mut sorted: Vec<String> = Vec::new();
    let mut i: usize = 0;
    while i < candidates.len()
        invariant
            i <= candidates@.len(),
            lowered@.len() == candidates@.len(),
            cands == views(candidates@),
            lows == char_views(lowered@),
            needle_chars@ == needle@,
            strictly_ascending(views(sorted@)),
            forall|s: Seq<char>|
                #![trigger views(sorted@).contains(s)]
                views(sorted@).contains(s) <==> matching_pool(
                    cands.subrange(0, i as int),
                    lows.subrange(0, i as int),
                    needle@,
                ).contains(s),
        decreases candidates.len() - i,
    {
        let lower_chars = &lowered[i];
        let hit = contains_chars(lower_chars, needle_chars);
        if hit {
            let c = candidates[i].clone();
            insert_sorted_unique(&mut sorted, c);
        }
        proof {
            let p0 = matching_pool(
                cands.subrange(0, i as int),
                lows.subrange(0, i as int),
                needle@,
            );
            let p1 = matching_pool(
                cands.subrange(0, i + 1),
                lows.subrange(0, i + 1),
                needle@,
            );
            assert forall|s: Seq<char>| #![trigger views(sorted@).contains(s)]
                views(sorted@).contains(s) <==> p1.contains(s) by {
                if p0.contains(s) {
                    let k = choose|k: int|
                        0 <= k < i && #[trigger] cands.subrange(0, i as int)[k] == s
                            && contains_infix(lows.subrange(0, i as int)[k], needle@);
                    assert(cands.subrange(0, i + 1)[k] == s);
                    assert(lows.subrange(0, i + 1)[k] == lows.subrange(0, i as int)[k]);
                }
                if p1.contains(s) {
                    let k = choose|k: int|
                        0 <= k < i + 1 && #[trigger] cands.subrange(0, i + 1)[k] == s
                            && contains_infix(lows.subrange(0, i + 1)[k], needle@);
                    if k < i {
                        assert(cands.subrange(0, i as int)[k] == s);
                        assert(lows.subrange(0, i as int)[k] == lows.subrange(0, i + 1)[k]);
                        assert(p0.contains(s));
                    } else {
                        assert(s == cands[i as int]);
                        assert(lows[i as int] == lowered@[i as int]@);
                    }
                }
                if hit && s == cands[i as int] {
                    assert(cands.subrange(0, i + 1)[i as int] == s);
                    assert(lows.subrange(0, i + 1)[i as int] == lower_chars@);
                    assert(p1.contains(s));
                }
            }
        }
        i = i + 1;
    }
    proof {
        assert(cands.subrange(0, i as int) =~= cands);
        assert(lows.subrange(0, i as int) =~= lows);
    }
    let ghost full = views(sorted@);
    sorted.truncate(MAX_SUGGESTIONS);
    proof {
        let pool = matching_pool(cands, lows, needle@);
        let res = views(sorted@);
        if full.len() > MAX_SUGGESTIONS {
            assert(res =~= full.subrange(0, MAX_SUGGESTIONS as int));
        } else {
            assert(res =~= full);
        }
        assert forall|k: int| 0 <= k < res.len() implies pool.contains(#[trigger] res[k]) by {
            assert(full[k] == res[k]);
            assert(full.contains(res[k]));
        }
        assert forall|s: Seq<char>| #![trigger pool.contains(s)]
            pool.contains(s) && !res.contains(s) implies {
                &&& res.len() == MAX_SUGGESTIONS
                &&& forall|k: int| 0 <= k < res.len() ==> lex_lt(#[trigger] res[k], s)
            } by {
            assert(full.contains(s));
            let m = choose|m: int| 0 <= m < full.len() && full[m] == s;
            if m < res.len() {
                assert(res[m] == s);
            }
            assert forall|k: int| 0 <= k < res.len() implies lex_lt(#[trigger] res[k], s) by {
                assert(res[k] == full[k]);
            }
        }
    }
    sorted
}


/// The Discord activity stats, which are kept in their own table: valid
/// names for a new XP stat besides the Bedwars keys seen so far.
pub open spec fn discord_stat_names_spec() -> Seq<Seq<char>> {
    seq!["messages_sent"@, "reactions_added"@, "commands_used"@]
}

/// The Discord activity stat names, in order.
pub fn discord_stat_names() -> (names: Vec<String>)
    ensures
        views(names@) == discord_stat_names_spec(),
{
    let mut names: Vec<String> = Vec::new();
    names.push(String::from_str("messages_sent"));
    names.push(String::from_str("reactions_added"));
    names.push(String::from_str("commands_used"));
    assert(views(names@) =~= discord_stat_names_spec());
    names
}

/// The stat names whose lowercase form contains the lowercase form of `query`.
pub open spec fn names_matching(names: Set<Seq<char>>, query: Seq<char>) -> Set<Seq<char>> {
    Set::new(
        |s: Seq<char>| names.contains(s) && contains_infix(case_folded(s), case_folded(query)),
    )
}

/// Lowercase forms of each string, position by position, and the candidates copied.
fn lowered_copies(names: &Vec<String>) -> (res: (Vec<String>, Vec<Vec<char>>))
    ensures
        views(res.0@) == views(names@),
        res.0@.len() == names@.len(),
        res.1@.len() == names@.len(),
        forall|i: int| 0 <= i < names@.len() ==> #[trigger] res.1@[i]@ == case_folded(names@[i]@),
{
    let mut copies: Vec<String> = Vec::new();
    let mut lowered: Vec<Vec<char>> = Vec::new();
    let mut i: usize = 0;
    while i < names.len()
        invariant
            i <= names@.len(),
            views(copies@) == views(names@).subrange(0, i as int),
            lowered@.len() == i,
            forall|k: int| 0 <= k < i ==> #[trigger] lowered@[k]@ == case_folded(names@[k]@),
        decreases names.len() - i,
    {
        let c = names[i].clone();
        let ghost prev = copies@;
        copies.push(c);
        lowered.push(fold_case(names[i].as_str()));
        assert(views(copies@) =~= views(prev).push(names@[i as int]@));
        i = i + 1;
        assert(views(copies@) =~= views(names@).subrange(0, i as int));
    }
    assert(views(names@).subrange(0, i as int) =~= views(names@));
    (copies, lowered)
}

proof fn lemma_pool_is_names_matching(
    candidates: Seq<String>,
    lowered: Seq<Vec<char>>,
    query: Seq<char>,
    needle: Seq<char>,
)
    requires
        lowered.len() == candidates.len(),
        needle == case_folded(query),
        forall|i: int| 0 <= i < candidates.len() ==> #[trigger] lowered[i]@ == case_folded(candidates[i]@),
    ensures
        matching_pool(views(candidates), char_views(lowered), needle) == names_matching(
            views(candidates).to_set(),
            query,
        ),
{
    let a = matching_pool(views(candidates), char_views(lowered), needle);
    let b = names_matching(views(candidates).to_set(), query);
    assert forall|s: Seq<char>| a.contains(s) <==> b.contains(s) by {
        if a.contains(s) {
            let k = choose|k: int|
                0 <= k < views(candidates).len() && #[trigger] views(candidates)[k] == s
                    && contains_infix(char_views(lowered)[k], needle);
            assert(views(candidates).contains(s));
            assert(lowered[k]@ == case_folded(candidates[k]@));
        }
        if b.contains(s) {
            assert(views(candidates).contains(s));
            let k = choose|k: int| 0 <= k < views(candidates).len() && views(candidates)[k] == s;
            assert(lowered[k]@ == case_folded(candidates[k]@));
            assert(char_views(lowered)[k] == lowered[k]@);
        }
    }
    assert(a =~= b);
}

/// Suggestions for any known stat name: the Bedwars keys seen so far and the
/// Discord activity stats, those containing the query case-insensitively,
/// sorted, without repeats, at most `MAX_SUGGESTIONS` of them; none for a
/// query shorter than `MIN_QUERY_BYTES` bytes.
pub fn autocomplete_any_stat(known_bedwars_keys: &Vec<String>, partial: &str) -> (suggestions: Vec<
    String,
>)
    ensures
        partial.len() < MIN_QUERY_BYTES ==> suggestions@.len() == 0,
        partial.len() >= MIN_QUERY_BYTES ==> is_ranked_selection(
            views(suggestions@),
            names_matching(
                views(known_bedwars_keys@).to_set().union(discord_stat_names_spec().to_set()),
                partial@,
            ),
        ),
{
    if !accepts_query(partial) {
        return Vec::new();
    }
    let mut names: Vec<String> = Vec::new();
    let mut i: usize = 0;
    while i < known_bedwars_keys.len()
        invariant
            i <= known_bedwars_keys@.len(),
            views(names@) == views(known_bedwars_keys@).subrange(0, i as int),
        decreases known_bedwars_keys.len() - i,
    {
        let ghost prev = names@;
        names.push(known_bedwars_keys[i].clone());
        assert(views(names@) =~= views(prev).push(known_bedwars_keys@[i as int]@));
        i = i + 1;
        assert(views(names@) =~= views(known_bedwars_keys@).subrange(0, i as int));
    }
    let ghost known_views = views(known_bedwars_keys@);
    assert(known_views.subrange(0, i as int) =~= known_views);
    let mut discord = discord_stat_names();
    names.append(&mut discord);
    assert(views(names@) =~= known_views + discord_stat_names_spec());
    let (candidates, lowered) = lowered_copies(&names);
    let needle = fold_case(partial);
    let picked = select_by_folded(&candidates, &lowered, &needle);
    proof {
        assert forall|k: int| 0 <= k < candidates@.len() implies #[trigger] lowered@[k]@
            == case_folded(candidates@[k]@) by {
            assert(views(candidates@)[k] == views(names@)[k]);
        }
        lemma_pool_is_names_matching(candidates@, lowered@, partial@, needle@);
        let all = known_views + discord_stat_names_spec();
        assert(views(candidates@) == all);
        assert forall|s: Seq<char>| all.contains(s) <==> (known_views.contains(s)
            || discord_stat_names_spec().contains(s)) by {
            if all.contains(s) {
                let k = choose|k: int| 0 <= k < all.len() && all[k] == s;
                if k < known_views.len() {
                    assert(known_views[k] == s);
                } else {
                    assert(discord_stat_names_spec()[k - known_views.len()] == s);
                }
            }
            if known_views.contains(s) {
                let k = choose|k: int| 0 <= k < known_views.len() && known_views[k] == s;
                assert(all[k] == s);
            }
            if discord_stat_names_spec().contains(s) {
                let k = choose|k: int|
                    0 <= k < discord_stat_names_spec().len() && discord_stat_names_spec()[k] == s;
                assert(all[k + known_views.len()] == s);
            }
        }
        assert(all.to_set() =~= known_views.to_set().union(discord_stat_names_spec().to_set()));
    }
    picked
}

/// Suggestions among the stats a guild has configured: those whose name
/// contains the query case-insensitively, sorted, at most `MAX_SUGGESTIONS`
/// of them; none for a query shorter than `MIN_QUERY_BYTES` bytes.
pub fn autocomplete_configured_stat(config: &StatConfig, partial: &str) -> (suggestions: Vec<String>)
    ensures
        partial.len() < MIN_QUERY_BYTES ==> suggestions@.len() == 0,
        partial.len() >= MIN_QUERY_BYTES ==> is_ranked_selection(
            views(suggestions@),
            names_matching(config@.dom(), partial@),
        ),
{
    if !accepts_query(partial) {
        return Vec::new();
    }
    let names = config.stat_names();
    let (candidates, lowered) = lowered_copies(&names);
    let needle = fold_case(partial);
    let picked = select_by_folded(&candidates, &lowered, &needle);
    proof {
        assert forall|k: int| 0 <= k < candidates@.len() implies #[trigger] lowered@[k]@
            == case_folded(candidates@[k]@) by {
            assert(views(candidates@)[k] == views(names@)[k]);
        }
        lemma_pool_is_names_matching(candidates@, lowered@, partial@, needle@);
    }
    picked
}

/// The contract of the suggestion lists pins the list down: for a given
/// pool there is exactly one list that satisfies it.
pub proof fn lemma_ranked_selection_unique(a: Seq<Seq<char>>, b: Seq<Seq<char>>, pool: Set<Seq<char>>)
    requires
        is_ranked_selection(a, pool),
        is_ranked_selection(b, pool),
    ensures
        a == b,
{
    lemma_ranked_prefix_agrees(a, b, pool);
    lemma_ranked_prefix_agrees(b, a, pool);
    lemma_ranked_longer_impossible(a, b, pool);
    lemma_ranked_longer_impossible(b, a, pool);
    assert(a =~= b);
}

proof fn lemma_ranked_prefix_agrees(a: Seq<Seq<char>>, b: Seq<Seq<char>>, pool: Set<Seq<char>>)
    requires
        is_ranked_selection(a, pool),
        is_ranked_selection(b, pool),
    ensures
        forall|i: int| 0 <= i < a.len() && i < b.len() ==> a[i] == b[i],
{
    assert forall|i: int| 0 <= i < a.len() && i < b.len() implies a[i] == b[i] by {
        lemma_agree_at(a, b, pool, i);
    }
}

/// Two lists meeting the contract agree at every position both have.
proof fn lemma_agree_at(a: Seq<Seq<char>>, b: Seq<Seq<char>>, pool: Set<Seq<char>>, i: int)
    requires
        is_ranked_selection(a, pool),
        is_ranked_selection(b, pool),
        0 <= i < a.len(),
        i < b.len(),
    ensures
        a[i] == b[i],
    decreases i,
{
    assert forall|j: int| 0 <= j < i implies a[j] == b[j] by {
        lemma_agree_at(a, b, pool, j);
    }
    lemma_not_before(a, b, pool, i);
    lemma_not_before(b, a, pool, i);
    crate::text::lemma_lex_order(a[i], b[i], a[i]);
}

/// With the lists equal before `i`, `a[i]` does not sort before `b[i]`:
/// it would then be missing from `b`, which the contract rules out.
proof fn lemma_not_before(a: Seq<Seq<char>>, b: Seq<Seq<char>>, pool: Set<Seq<char>>, i: int)
    requires
        is_ranked_selection(a, pool),
        is_ranked_selection(b, pool),
        0 <= i < a.len(),
        i < b.len(),
        forall|j: int| 0 <= j < i ==> a[j] == b[j],
    ensures
        !lex_lt(a[i], b[i]),
{
    let x = a[i];
    if lex_lt(x, b[i]) {
        assert(pool.contains(x));
        if b.contains(x) {
            let j = choose|j: int| 0 <= j < b.len() && b[j] == x;
            if j < i {
                assert(a[j] == x);
                assert(lex_lt(a[j], a[i]));
                crate::text::lemma_lex_order(x, x, x);
            } else if j > i {
                assert(lex_lt(b[i], b[j]));
                crate::text::lemma_lex_order(x, b[i], x);
            } else {
                crate::text::lemma_lex_order(x, x, x);
            }
        } else {
            assert(lex_lt(b[i], x));
            crate::text::lemma_lex_order(x, b[i], x);
        }
    }
}

proof fn lemma_ranked_longer_impossible(a: Seq<Seq<char>>, b: Seq<Seq<char>>, pool: Set<Seq<char>>)
    requires
        is_ranked_selection(a, pool),
        is_ranked_selection(b, pool),
        forall|i: int| 0 <= i < a.len() && i < b.len() ==> a[i] == b[i],
    ensures
        a.len() >= b.len(),
{
    if a.len() < b.len() {
        let n = a.len() as int;
        let x = b[n];
        assert(pool.contains(x));
        if a.contains(x) {
            let j = choose|j: int| 0 <= j < a.len() && a[j] == x;
            assert(b[j] == x);
            assert(lex_lt(b[j], b[n]));
            crate::text::lemma_lex_order(x, x, x);
        }
    }
}

/// The stats offered for a query are drawn from the names given, and an
/// ASCII name that contains an ASCII query as typed is always among them,
/// whatever the case of either.
pub proof fn lemma_names_matching_meaning(names: Set<Seq<char>>, query: Seq<char>, name: Seq<char>)
    ensures
        names_matching(names, query).contains(name) ==> names.contains(name),
        names.contains(name) && is_ascii_chars(name) && is_ascii_chars(query) && contains_infix(
            name,
            query,
        ) ==> names_matching(names, query).contains(name),
{
    if names.contains(name) && is_ascii_chars(name) && is_ascii_chars(query) && contains_infix(
        name,
        query,
    ) {
        let k = choose|k: int|
            0 <= k && k + query.len() <= name.len() && #[trigger] name.subrange(k, k + query.len())
                == query;
        crate::text::lemma_fold_keeps_occurrence(name, query, k);
    }
}

} // verus!
