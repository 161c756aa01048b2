use vstd::prelude::*;
use vstd::utf8::{encode_scalar, encode_utf8};
use crate::commands::{items_view, ItemType, LaunchItem, LaunchItemView};
use crate::text::{
    chars_of, contains_run, has_prefix, has_substring, lower_of, lowercase, occurs_at_index,
    same_chars,
};

verus! {

pub const EXACT_MATCH_BONUS: i32 = 2000;
pub const NAME_STARTS_WITH_BONUS: i32 = 1500;
pub const COMMAND_STARTS_WITH_BONUS: i32 = 1400;
pub const NAME_CONTAINS_BONUS: i32 = 1000;
pub const COMMAND_CONTAINS_BONUS: i32 = 900;
pub const DESCRIPTION_CONTAINS_BONUS: i32 = 600;
pub const APPLICATION_TYPE_BONUS: i32 = 50;
/// The score a subsequence match starts from.
pub const FUZZY_BASE_SCORE: i32 = 200;

/// Longest query, in characters, whose subsequence scores all fit in `i32`:
/// the largest `m` with `250 + 5 * m * (m + 1) <= i32::MAX`.
pub const MAX_QUERY_CHARS: usize = 20723;
/// Longest name or command, in characters, whose subsequence scores all
/// fit in `i32`.
pub const MAX_FIELD_CHARS: usize = 2147483646;
/// Longest query, in UTF-8 bytes, whose length fits in `i32`.
pub const MAX_QUERY_BYTES: usize = 2147483647;

/// The bonus that an item's kind adds in every tier.
pub open spec fn type_bonus(t: ItemType) -> int {
    match t {
        ItemType::Application => APPLICATION_TYPE_BONUS as int,
        ItemType::Command => 0,
    }
}

/// The length of `q` in UTF-8 bytes.
pub open spec fn byte_len(q: Seq<char>) -> int {
    encode_utf8(q).len() as int
}

/// A string takes at most four UTF-8 bytes per character.
pub proof fn lemma_byte_len_bound(q: Seq<char>)
    ensures
        0 <= byte_len(q) <= 4 * q.len(),
    decreases q.len(),
{
    if q.len() > 0 {
        lemma_byte_len_bound(q.drop_first());
    }
}

proof fn lemma_byte_len_push(s: Seq<char>, c: char)
    ensures
        byte_len(s.push(c)) == byte_len(s) + encode_scalar(c as u32).len(),
    decreases s.len(),
{
    let t = s.push(c);
    if s.len() > 0 {
        lemma_byte_len_push(s.drop_first(), c);
        assert(t.drop_first() =~= s.drop_first().push(c));
        assert(t[0] == s[0]);
        assert(encode_utf8(t) == encode_scalar(t[0] as u32) + encode_utf8(t.drop_first()));
        assert(encode_utf8(s) == encode_scalar(s[0] as u32) + encode_utf8(s.drop_first()));
    } else {
        assert(t.drop_first() =~= Seq::<char>::empty());
        assert(t[0] == c);
        assert(encode_utf8(t) == encode_scalar(c as u32) + encode_utf8(t.drop_first()));
        assert(encode_utf8(Seq::<char>::empty()).len() == 0);
        assert(s =~= Seq::<char>::empty());
    }
}

proof fn lemma_byte_len_prefix(s: Seq<char>, i: int)
    requires
        0 <= i <= s.len(),
    ensures
        byte_len(s.take(i)) <= byte_len(s),
    decreases s.len() - i,
{
    if i < s.len() {
        lemma_byte_len_prefix(s, i + 1);
        lemma_byte_len_push(s.take(i), s[i]);
        assert(s.take(i + 1) =~= s.take(i).push(s[i]));
    } else {
        assert(s.take(i) =~= s);
    }
}

fn utf8_width(c: char) -> (r: u64)
    ensures
        r == encode_scalar(c as u32).len(),
{
    let u = c as u32;
    if u <= 0x7f {
        1
    } else if u <= 0x7ff {
        2
    } else if u <= 0xffff && !(0xd800 <= u && u <= 0xdfff) {
        3
    } else {
        4
    }
}

/// Whether the UTF-8 length of `q` fits in `i32`.
pub fn query_fits(q: &str) -> (r: bool)
    ensures
        r == (byte_len(q@) <= MAX_QUERY_BYTES),
{
    let cs = chars_of(q);
    let mut total: u64 = 0;
    let mut i: usize = 0;
    assert(cs@.take(0) =~= Seq::<char>::empty());
    while i < cs.len()
        invariant
            i <= cs@.len(),
            cs@ == q@,
            total == byte_len(cs@.take(i as int)),
            total <= MAX_QUERY_BYTES,
        decreases cs@.len() - i,
    {
        proof {
            lemma_byte_len_push(cs@.take(i as int), cs@[i as int]);
            assert(cs@.take(i + 1) =~= cs@.take(i as int).push(cs@[i as int]));
        }
        total = total + utf8_width(cs[i]);
        if total > MAX_QUERY_BYTES as u64 {
            proof {
                lemma_byte_len_prefix(cs@, i + 1);
            }
            return false;
        }
        i += 1;
    }
    assert(cs@.take(cs@.len() as int) =~= cs@);
    true
}

pub open spec fn opt_int(r: Option<i32>) -> Option<int> {
    match r {
        Some(v) => Some(v as int),
        None => None,
    }
}

/// The left-to-right scan of `t` for the characters of `q` in order, at
/// target position `i`, looking for `q[j]`, with the last match at `last`,
/// a run of `run` consecutive matches and the score so far.
pub open spec fn subseq_scan(
    q: Seq<char>,
    t: Seq<char>,
    i: int,
    j: int,
    last: int,
    run: int,
    score: int,
) -> Option<int>
    decreases t.len() - i,
{
    if i < 0 || i >= t.len() || j < 0 || j >= q.len() {
        None
    } else if t[i] == q[j] {
        let gap = i - last;
        let run2 = if gap == 1 { run + 1 } else { 0 };
        let score2 = if gap == 1 { score + 10 * run2 } else { score - gap };
        if j + 1 == q.len() {
            Some(score2)
        } else {
            subseq_scan(q, t, i + 1, j + 1, i, run2, score2)
        }
    } else {
        subseq_scan(q, t, i + 1, j, last, run, score)
    }
}

/// The subsequence score of `q` in `t`: `None` when `q` is empty or its
/// characters do not all appear in `t` in order.
pub open spec fn fuzzy_spec(q: Seq<char>, t: Seq<char>) -> Option<int> {
    subseq_scan(q, t, 0, 0, 0, 0, FUZZY_BASE_SCORE as int)
}

/// `e` places `q[j..]` in `t[i..]`: at increasing positions, each holding
/// the query character it stands for.
pub open spec fn embeds(q: Seq<char>, t: Seq<char>, e: Seq<int>, j: int, i: int) -> bool {
    &&& e.len() == q.len() - j
    &&& forall|k: int| 0 <= k < e.len() ==> i <= #[trigger] e[k] < t.len() && t[e[k]] == q[j + k]
    &&& forall|a: int, b: int| 0 <= a < b < e.len() ==> #[trigger] e[a] < #[trigger] e[b]
}

/// The characters of `q` appear in `t` in order, not necessarily together.
pub open spec fn is_subsequence(q: Seq<char>, t: Seq<char>) -> bool {
    exists|e: Seq<int>| #[trigger] embeds(q, t, e, 0, 0)
}

proof fn lemma_scan_sound(
    q: Seq<char>,
    t: Seq<char>,
    i: int,
    j: int,
    last: int,
    run: int,
    score: int,
) -> (e: Seq<int>)
    requires
        subseq_scan(q, t, i, j, last, run, score) is Some,
    ensures
        embeds(q, t, e, j, i),
    decreases t.len() - i,
{
    if t[i] == q[j] {
        let gap = i - last;
        let run2 = if gap == 1 { run + 1 } else { 0 };
        let score2 = if gap == 1 { score + 10 * run2 } else { score - gap };
        if j + 1 == q.len() {
            seq![i]
        } else {
            let rest = lemma_scan_sound(q, t, i + 1, j + 1, i, run2, score2);
            let e = seq![i] + rest;
            assert forall|k: int| 0 <= k < e.len() implies i <= #[trigger] e[k] < t.len() && t[e[k]]
                == q[j + k] by {
                if k > 0 {
                    assert(e[k] == rest[k - 1]);
                }
            }
            assert forall|a: int, b: int| 0 <= a < b < e.len() implies #[trigger] e[a] < #[trigger] e[b] by {
                assert(e[b] == rest[b - 1]);
                if a > 0 {
                    assert(e[a] == rest[a - 1]);
                }
            }
            e
        }
    } else {
        lemma_scan_sound(q, t, i + 1, j, last, run, score)
    }
}

proof fn lemma_scan_complete(
    q: Seq<char>,
    t: Seq<char>,
    e: Seq<int>,
    i: int,
    j: int,
    last: int,
    run: int,
    score: int,
)
    requires
        0 <= i,
        0 <= j < q.len(),
        embeds(q, t, e, j, i),
    ensures
        subseq_scan(q, t, i, j, last, run, score) is Some,
    decreases t.len() - i,
{
    assert(i <= e[0] < t.len());
    if t[i] == q[j] {
        let gap = i - last;
        let run2 = if gap == 1 { run + 1 } else { 0 };
        let score2 = if gap == 1 { score + 10 * run2 } else { score - gap };
        if j + 1 < q.len() {
            let rest = e.drop_first();
            assert forall|k: int| 0 <= k < rest.len() implies i + 1 <= #[trigger] rest[k] < t.len()
                && t[rest[k]] == q[j + 1 + k] by {
                assert(rest[k] == e[k + 1]);
                assert(e[0] < e[k + 1]);
            }
            assert forall|a: int, b: int| 0 <= a < b < rest.len() implies #[trigger] rest[a]
                < #[trigger] rest[b] by {
                assert(rest[a] == e[a + 1] && rest[b] == e[b + 1]);
            }
            lemma_scan_complete(q, t, rest, i + 1, j + 1, i, run2, score2);
        }
    } else {
        assert(e[0] != i);
        assert forall|k: int| 0 <= k < e.len() implies i + 1 <= #[trigger] e[k] < t.len() && t[e[k]]
            == q[j + k] by {
            if k > 0 {
                assert(e[0] < e[k]);
            }
        }
        lemma_scan_complete(q, t, e, i + 1, j, last, run, score);
    }
}

/// A query matches a target in the subsequence tier exactly when it is not
/// empty and its characters appear in the target in order.
pub proof fn lemma_fuzzy_matches_subsequences(q: Seq<char>, t: Seq<char>)
    ensures
        fuzzy_spec(q, t) is Some <==> (q.len() > 0 && is_subsequence(q, t)),
{
    if fuzzy_spec(q, t) is Some {
        let e = lemma_scan_sound(q, t, 0, 0, 0, 0, FUZZY_BASE_SCORE as int);
        assert(embeds(q, t, e, 0, 0));
    }
    if q.len() > 0 && is_subsequence(q, t) {
        let e = choose|e: Seq<int>| #[trigger] embeds(q, t, e, 0, 0);
        lemma_scan_complete(q, t, e, 0, 0, 0, 0, FUZZY_BASE_SCORE as int);
    }
}

/// The subsequence score of `q` in `t` where every such score fits in
/// `i32`; `None` for a query or target past those limits.
pub open spec fn bounded_fuzzy(q: Seq<char>, t: Seq<char>) -> Option<int> {
    if q.len() <= MAX_QUERY_CHARS && t.len() <= MAX_FIELD_CHARS {
        fuzzy_spec(q, t)
    } else {
        None
    }
}

/// The better of two optional subsequence scores, plus `bonus`.
pub open spec fn best_of(a: Option<int>, b: Option<int>, bonus: int) -> Option<int> {
    match (a, b) {
        (Some(x), Some(y)) => Some(if x >= y { x } else { y } + bonus),
        (Some(x), None) => Some(x + bonus),
        (None, Some(y)) => Some(y + bonus),
        (None, None) => None,
    }
}

/// The tier cascade on lowercased text: the first tier that applies gives
/// the score; an item that no tier matches gets `None`.
pub open spec fn tier_score(
    q: Seq<char>,
    name: Seq<char>,
    command: Seq<char>,
    description: Option<Seq<char>>,
    kind: ItemType,
) -> Option<int> {
    let b = type_bonus(kind);
    let l = byte_len(q);
    if name == q || command == q {
        Some(EXACT_MATCH_BONUS + b)
    } else if has_prefix(name, q) {
        Some(NAME_STARTS_WITH_BONUS - l + b)
    } else if has_prefix(command, q) {
        Some(COMMAND_STARTS_WITH_BONUS - l + b)
    } else if has_substring(name, q) {
        Some(NAME_CONTAINS_BONUS - l + b)
    } else if has_substring(command, q) {
        Some(COMMAND_CONTAINS_BONUS - l + b)
    } else if description is Some && has_substring(description->0, q) {
        Some(DESCRIPTION_CONTAINS_BONUS - l + b)
    } else {
        best_of(bounded_fuzzy(q, name), bounded_fuzzy(q, command), b)
    }
}

pub open spec fn lower_opt(o: Option<Seq<char>>) -> Option<Seq<char>> {
    match o {
        Some(s) => Some(lower_of(s)),
        None => None,
    }
}

/// The score of `item` for `query`: 0 for an empty query; otherwise the
/// cascade on the lowercased query and fields, or `None` (not listed) when
/// the item does not match, or when the lowercased query is so long that
/// its length does not fit in `i32`.
pub open spec fn item_score(query: Seq<char>, item: LaunchItemView) -> Option<int> {
    if query.len() == 0 {
        Some(0)
    } else {
        let q = lower_of(query);
        let n = lower_of(item.display_name);
        let c = lower_of(item.command);
        if byte_len(q) <= MAX_QUERY_BYTES {
            tier_score(q, n, c, lower_opt(item.description), item.item_type)
        } else {
            None
        }
    }
}

fn subseq_score(q: &Vec<char>, t: &Vec<char>) -> (r: Option<i32>)
    requires
        q.len() <= MAX_QUERY_CHARS,
        t.len() <= MAX_FIELD_CHARS,
    ensures
        opt_int(r) == fuzzy_spec(q@, t@),
        r is Some ==> FUZZY_BASE_SCORE - MAX_FIELD_CHARS <= r->0 <= FUZZY_BASE_SCORE + 5
            * MAX_QUERY_CHARS * (MAX_QUERY_CHARS + 1),
{
    if q.len() == 0 {
        return None;
    }
    let mut j: usize = 0;
    let mut score: i32 = FUZZY_BASE_SCORE;
    let mut last: usize = 0;
    let mut run: i32 = 0;
    let mut i: usize = 0;
    while i < t.len()
        invariant
            0 <= j < q.len(),
            last <= i <= t.len(),
            0 <= run <= j,
            q.len() <= MAX_QUERY_CHARS,
            t.len() <= MAX_FIELD_CHARS,
            FUZZY_BASE_SCORE - last <= score <= FUZZY_BASE_SCORE + 5 * j * (j + 1),
            subseq_scan(q@, t@, i as int, j as int, last as int, run as int, score as int)
                == fuzzy_spec(q@, t@),
        decreases t.len() - i,
    {
        if t[i] == q[j] {
            let gap = i - last;
            assert(5 * j * (j + 1) + 10 * (j + 1) == 5 * (j + 1) * (j + 2)) by (nonlinear_arith);
            assert(5 * (j + 1) * (j + 2) <= 5 * MAX_QUERY_CHARS * (MAX_QUERY_CHARS + 1))
                by (nonlinear_arith)
                requires
                    j + 1 <= q.len(),
                    q.len() <= MAX_QUERY_CHARS,
            ;
            if gap == 1 {
                run += 1;
                score += run * 10;
            } else {
                run = 0;
                score -= gap as i32;
            }
            last = i;
            if j + 1 == q.len() {
                return Some(score);
            }
            j += 1;
        }
        i += 1;
    }
    None
}

/// The subsequence score of `query` in `target`, both already lowercased:
/// `None` when `query` is empty or its characters do not all appear in
/// `target` in order.
pub fn fuzzy_match_score(query: &str, target: &str) -> (r: Option<i32>)
    requires
        query@.len() <= MAX_QUERY_CHARS,
        target@.len() <= MAX_FIELD_CHARS,
    ensures
        opt_int(r) == fuzzy_spec(query@, target@),
{
    let q = chars_of(query);
    let t = chars_of(target);
    subseq_score(&q, &t)
}

fn find_in_opt(d: &Option<String>, q: &Vec<char>) -> (r: bool)
    ensures
        r == (crate::commands::opt_view(*d) is Some && has_substring(
            crate::commands::opt_view(*d)->0,
            q@,
        )),
{
    match d {
        Some(s) => {
            let dc = chars_of(s.as_str());
            contains_run(&dc, q)
        },
        None => false,
    }
}

/// The tier cascade on text that is already lowercased.
pub fn score_folded(
    query: &str,
    name: &str,
    command: &str,
    description: &Option<String>,
    kind: ItemType,
) -> (r: Option<i32>)
    requires
        byte_len(query@) <= MAX_QUERY_BYTES,
    ensures
        opt_int(r) == tier_score(
            query@,
            name@,
            command@,
            crate::commands::opt_view(*description),
            kind,
        ),
{
    proof {
        lemma_byte_len_bound(query@);
    }
    let q = chars_of(query);
    let n = chars_of(name);
    let c = chars_of(command);
    let l = query.len() as i32;
    let b: i32 = match kind {
        ItemType::Application => APPLICATION_TYPE_BONUS,
        ItemType::Command => 0,
    };
    if same_chars(&n, &q) || same_chars(&c, &q) {
        Some(EXACT_MATCH_BONUS + b)
    } else if occurs_at_index(&n, &q, 0) {
        Some(NAME_STARTS_WITH_BONUS - l + b)
    } else if occurs_at_index(&c, &q, 0) {
        Some(COMMAND_STARTS_WITH_BONUS - l + b)
    } else if contains_run(&n, &q) {
        Some(NAME_CONTAINS_BONUS - l + b)
    } else if contains_run(&c, &q) {
        Some(COMMAND_CONTAINS_BONUS - l + b)
    } else if find_in_opt(description, &q) {
        Some(DESCRIPTION_CONTAINS_BONUS - l + b)
    } else {
        let a = if q.len() <= MAX_QUERY_CHARS && n.len() <= MAX_FIELD_CHARS {
            subseq_score(&q, &n)
        } else {
            None
        };
        let d = if q.len() <= MAX_QUERY_CHARS && c.len() <= MAX_FIELD_CHARS {
            subseq_score(&q, &c)
        } else {
            None
        };
        match (a, d) {
            (Some(x), Some(y)) => Some(if x >= y { x } else { y } + b),
            (Some(x), None) => Some(x + b),
            (None, Some(y)) => Some(y + b),
            (None, None) => None,
        }
    }
}

fn lowercase_opt(o: &Option<String>) -> (r: Option<String>)
    ensures
        crate::commands::opt_view(r) == lower_opt(crate::commands::opt_view(*o)),
{
    match o {
        Some(s) => Some(lowercase(s.as_str())),
        None => None,
    }
}

/// The score of `item` for `query`, or `None` when it is not listed.
pub fn fuzzy_score(query: &str, item: &LaunchItem) -> (r: Option<i32>)
    ensures
        opt_int(r) == item_score(query@, item@),
{
    if query.is_empty() {
        return Some(0);
    }
    let q = lowercase(query);
    let n = lowercase(item.display_name.as_str());
    let c = lowercase(item.command.as_str());
    let d = lowercase_opt(&item.description);
    if !query_fits(q.as_str()) {
        return None;
    }
    score_folded(q.as_str(), n.as_str(), c.as_str(), &d, item.item_type)
}

/// The matched entries `(index, score)` of `scores`, in input order.
pub open spec fn scored_entries(scores: Seq<Option<int>>) -> Seq<(int, int)>
    decreases scores.len(),
{
    if scores.len() == 0 {
        seq![]
    } else {
        let prev = scored_entries(scores.drop_last());
        match scores.last() {
            Some(v) => prev.push((scores.len() - 1, v)),
            None => prev,
        }
    }
}

/// Where an entry of score `v` goes in `s`: after the last entry whose
/// score is at least `v`.
pub open spec fn insert_pos(s: Seq<(int, int)>, v: int) -> int
    decreases s.len(),
{
    if s.len() == 0 {
        0
    } else if s.last().1 < v {
        insert_pos(s.drop_last(), v)
    } else {
        s.len() as int
    }
}

/// `s` sorted by descending score; entries of equal score keep their order.
pub open spec fn sort_by_score(s: Seq<(int, int)>) -> Seq<(int, int)>
    decreases s.len(),
{
    if s.len() == 0 {
        s
    } else {
        let r = sort_by_score(s.drop_last());
        r.insert(insert_pos(r, s.last().1), s.last())
    }
}

/// The first `max` entries, by descending score, of the matched entries of
/// `scores`.
pub open spec fn rank_order(scores: Seq<Option<int>>, max: int) -> Seq<(int, int)> {
    let r = sort_by_score(scored_entries(scores));
    if max < r.len() {
        r.take(max)
    } else {
        r
    }
}

/// The scores of `items` for `query`, in input order.
pub open spec fn item_scores(query: Seq<char>, items: Seq<LaunchItemView>) -> Seq<Option<int>> {
    items.map_values(|i: LaunchItemView| item_score(query, i))
}

/// The ranking of `items` for `query`: `(index, score)` pairs.
pub open spec fn rank_spec(query: Seq<char>, items: Seq<LaunchItemView>, max: int) -> Seq<
    (int, int),
> {
    rank_order(item_scores(query, items), max)
}

pub open spec fn opt_ints(s: Seq<Option<i32>>) -> Seq<Option<int>> {
    s.map_values(|o: Option<i32>| opt_int(o))
}

pub open spec fn entries_view(v: Seq<(usize, i32)>) -> Seq<(int, int)> {
    v.map_values(|e: (usize, i32)| (e.0 as int, e.1 as int))
}

/// `r` lists the entries of `order`: each item of `items` with its score.
pub open spec fn lists(r: Seq<(LaunchItem, i32)>, items: Seq<LaunchItem>, order: Seq<(int, int)>) -> bool {
    &&& r.len() == order.len()
    &&& forall|k: int|
        0 <= k < r.len() ==> 0 <= #[trigger] order[k].0 < items.len() && r[k].0@ == items[order[k].0]@
            && r[k].1 as int == order[k].1
}

proof fn lemma_insert_pos_range(s: Seq<(int, int)>, v: int)
    ensures
        0 <= insert_pos(s, v) <= s.len(),
    decreases s.len(),
{
    if s.len() > 0 {
        lemma_insert_pos_range(s.drop_last(), v);
    }
}

/// Matched items with their scores, sorted by descending score with ties in
/// input order, cut to the first `max_results`.
pub fn order_by_score(items: &[LaunchItem], scores: &Vec<Option<i32>>, max_results: usize) -> (r: Vec<
    (LaunchItem, i32),
>)
    requires
        scores.len() == items@.len(),
    ensures
        lists(r@, items@, rank_order(opt_ints(scores@), max_results as int)),
{
    let ghost sv = opt_ints(scores@);
    let mut sorted: Vec<(usize, i32)> = Vec::new();
    let mut k: usize = 0;
    while k < scores.len()
        invariant
            k <= scores.len(),
            sv == opt_ints(scores@),
            entries_view(sorted@) == sort_by_score(scored_entries(sv.take(k as int))),
            forall|m: int| 0 <= m < sorted@.len() ==> #[trigger] sorted@[m].0 < k,
        decreases scores.len() - k,
    {
        let ghost before = sv.take(k as int);
        assert(sv.take(k + 1).drop_last() =~= before);
        match scores[k] {
            Some(v) => {
                let ghost ev = entries_view(sorted@);
                assert(ev.take(ev.len() as int) =~= ev);
                let mut p: usize = sorted.len();
                while p > 0 && sorted[p - 1].1 < v
                    invariant
                        p <= sorted.len(),
                        ev == entries_view(sorted@),
                        insert_pos(ev, v as int) == insert_pos(ev.take(p as int), v as int),
                    decreases p,
                {
                    assert(ev.take(p as int).drop_last() =~= ev.take(p - 1));
                    p -= 1;
                }
                assert(insert_pos(ev, v as int) == p as int);
                proof {
                    lemma_insert_pos_range(ev, v as int);
                }
                sorted.insert(p, (k, v));
                assert(entries_view(sorted@) =~= ev.insert(p as int, (k as int, v as int)));
                assert(sv.take(k + 1).last() == Some(v as int));
                assert(scored_entries(sv.take(k + 1)) == scored_entries(before).push(
                    (k as int, v as int),
                ));
                assert(scored_entries(sv.take(k + 1)).drop_last() =~= scored_entries(before));
            },
            None => {
                assert(sv.take(k + 1).last() == None::<int>);
            },
        }
        k += 1;
    }
    assert(sv.take(scores.len() as int) =~= sv);
    let ghost order = rank_order(sv, max_results as int);
    let mut r: Vec<(LaunchItem, i32)> = Vec::new();
    let mut i: usize = 0;
    while i < sorted.len() && i < max_results
        invariant
            i <= sorted.len(),
            entries_view(sorted@) == sort_by_score(scored_entries(sv)),
            order == rank_order(sv, max_results as int),
            forall|m: int| 0 <= m < sorted@.len() ==> #[trigger] sorted@[m].0 < items@.len(),
            i <= max_results,
            r@.len() == i,
            forall|m: int|
                0 <= m < i ==> r@[m].0@ == items@[order[m].0]@ && r@[m].1 as int == order[m].1,
        decreases sorted.len() - i,
    {
        let e = sorted[i];
        assert(entries_view(sorted@)[i as int] == (e.0 as int, e.1 as int));
        assert(order[i as int] == entries_view(sorted@)[i as int]);
        r.push((items[e.0].duplicate(), e.1));
        i += 1;
    }
    proof {
        assert forall|m: int| 0 <= m < r@.len() implies 0 <= #[trigger] order[m].0 < items@.len() by {
            assert(entries_view(sorted@)[m] == (sorted@[m].0 as int, sorted@[m].1 as int));
            assert(order[m] == entries_view(sorted@)[m]);
        }
    }
    r
}

/// The items of `items` that match `query`, with their scores, best first;
/// equal scores keep input order; at most `max_results` of them.
pub fn fuzzy_search(query: &str, items: &[LaunchItem], max_results: usize) -> (r: Vec<
    (LaunchItem, i32),
>)
    ensures
        lists(r@, items@, rank_spec(query@, items_view(items@), max_results as int)),
{
    let mut scores: Vec<Option<i32>> = Vec::new();
    let mut k: usize = 0;
    while k < items.len()
        invariant
            k <= items@.len(),
            scores@.len() == k,
            forall|m: int| 0 <= m < k ==> opt_int(#[trigger] scores@[m]) == item_score(query@, items@[m]@),
        decreases items@.len() - k,
    {
        scores.push(fuzzy_score(query, &items[k]));
        k += 1;
    }
    assert(opt_ints(scores@) =~= item_scores(query@, items_view(items@)));
    order_by_score(items, &scores, max_results)
}

/// Scores never increase along `r`, and entries of equal score come in
/// increasing index order.
pub open spec fn ranked(r: Seq<(int, int)>) -> bool {
    forall|a: int, b: int|
        0 <= a < b < r.len() ==> #[trigger] r[a].1 > #[trigger] r[b].1 || (r[a].1 == r[b].1 && r[a].0
            < r[b].0)
}

proof fn lemma_insert_pos(s: Seq<(int, int)>, v: int)
    ensures
        0 <= insert_pos(s, v) <= s.len(),
        forall|k: int| insert_pos(s, v) <= k < s.len() ==> #[trigger] s[k].1 < v,
        insert_pos(s, v) > 0 ==> s[insert_pos(s, v) - 1].1 >= v,
    decreases s.len(),
{
    if s.len() > 0 && s.last().1 < v {
        let prev = s.drop_last();
        lemma_insert_pos(prev, v);
        assert forall|k: int| insert_pos(s, v) <= k < s.len() implies #[trigger] s[k].1 < v by {
            if k < s.len() - 1 {
                assert(prev[k] == s[k]);
            }
        }
    }
}

proof fn lemma_entries_increasing(scores: Seq<Option<int>>)
    ensures
        forall|a: int, b: int|
            0 <= a < b < scored_entries(scores).len() ==> #[trigger] scored_entries(scores)[a].0
                < #[trigger] scored_entries(scores)[b].0,
        forall|k: int|
            0 <= k < scored_entries(scores).len() ==> 0 <= #[trigger] scored_entries(scores)[k].0
                < scores.len(),
    decreases scores.len(),
{
    if scores.len() > 0 {
        let prev = scored_entries(scores.drop_last());
        lemma_entries_increasing(scores.drop_last());
        let e = scored_entries(scores);
        if scores.last() is Some {
            assert(e == prev.push((scores.len() - 1, scores.last()->0)));
            assert forall|a: int, b: int| 0 <= a < b < e.len() implies #[trigger] e[a].0
                < #[trigger] e[b].0 by {
                assert(e[a] == prev[a]);
                if b < prev.len() {
                    assert(e[b] == prev[b]);
                }
            }
            assert forall|k: int| 0 <= k < e.len() implies 0 <= #[trigger] e[k].0 < scores.len() by {
                if k < prev.len() {
                    assert(e[k] == prev[k]);
                }
            }
        }
    }
}

proof fn lemma_sort_ranked(s: Seq<(int, int)>, n: int)
    requires
        forall|a: int, b: int| 0 <= a < b < s.len() ==> #[trigger] s[a].0 < #[trigger] s[b].0,
        forall|k: int| 0 <= k < s.len() ==> #[trigger] s[k].0 < n,
    ensures
        ranked(sort_by_score(s)),
        sort_by_score(s).len() == s.len(),
        forall|k: int| 0 <= k < s.len() ==> #[trigger] sort_by_score(s)[k].0 < n,
    decreases s.len(),
{
    if s.len() > 0 {
        let prev = s.drop_last();
        let e = s.last();
        assert forall|k: int| 0 <= k < prev.len() implies #[trigger] prev[k].0 < e.0 by {
            assert(s[k].0 < s[s.len() - 1].0);
        }
        lemma_sort_ranked(prev, e.0);
        let r = sort_by_score(prev);
        let p = insert_pos(r, e.1);
        lemma_insert_pos(r, e.1);
        r.insert_ensures(p, e);
        let t = sort_by_score(s);
        assert forall|a: int, b: int| 0 <= a < b < t.len() implies #[trigger] t[a].1 > #[trigger] t[b].1
            || (t[a].1 == t[b].1 && t[a].0 < t[b].0) by {
            if b < p {
                assert(t[a] == r[a] && t[b] == r[b]);
            } else if a > p {
                assert(t[a] == r[a - 1] && t[b] == r[b - 1]);
            } else if a < p && b == p {
                assert(t[a] == r[a]);
                if a < p - 1 {
                    assert(r[a].1 > r[p - 1].1 || r[a].1 == r[p - 1].1);
                }
            } else if a < p {
                assert(t[a] == r[a] && t[b] == r[b - 1]);
            } else {
                assert(t[b] == r[b - 1]);
            }
        }
        assert forall|k: int| 0 <= k < s.len() implies #[trigger] t[k].0 < n by {
            if k < p {
                assert(t[k] == r[k]);
            } else if k > p {
                assert(t[k] == r[k - 1]);
            }
        }
    }
}

/// A ranking depends on the query and the items alone: equal inputs give
/// equal rankings. Along a ranking scores never increase, and items of
/// equal score keep their input order.
pub proof fn lemma_rank_stable_descending(
    query: Seq<char>,
    items: Seq<LaunchItemView>,
    max: int,
    query2: Seq<char>,
    items2: Seq<LaunchItemView>,
)
    requires
        0 <= max,
        query2 == query,
        items2 == items,
    ensures
        rank_spec(query2, items2, max) == rank_spec(query, items, max),
        ranked(rank_spec(query, items, max)),
{
    let scores = item_scores(query, items);
    let es = scored_entries(scores);
    lemma_entries_increasing(scores);
    lemma_sort_ranked(es, scores.len() as int);
    let r = sort_by_score(es);
    if max < r.len() {
        let t = r.take(max);
        assert forall|a: int, b: int| 0 <= a < b < t.len() implies #[trigger] t[a].1 > #[trigger] t[b].1
            || (t[a].1 == t[b].1 && t[a].0 < t[b].0) by {
            assert(t[a] == r[a] && t[b] == r[b]);
        }
    }
}

/// Ranking a single item gives it the score of the first tier of the
/// cascade that matches it, or leaves it out when none does.
pub proof fn lemma_single_item_rank(query: Seq<char>, item: LaunchItemView, max: int)
    requires
        max >= 1,
    ensures
        rank_spec(query, seq![item], max) == match item_score(query, item) {
            Some(s) => seq![(0int, s)],
            None => Seq::<(int, int)>::empty(),
        },
{
    let scores = item_scores(query, seq![item]);
    assert(scores.len() == 1);
    assert(scores[0] == item_score(query, item));
    assert(scores.drop_last() =~= Seq::<Option<int>>::empty());
    assert(scored_entries(scores.drop_last()) =~= Seq::<(int, int)>::empty());
    let es = scored_entries(scores);
    if item_score(query, item) is Some {
        assert(es =~= seq![(0int, item_score(query, item)->0)]);
        assert(es.drop_last() =~= Seq::<(int, int)>::empty());
        assert(sort_by_score(es.drop_last()) =~= Seq::<(int, int)>::empty());
        assert(insert_pos(Seq::<(int, int)>::empty(), item_score(query, item)->0) == 0);
        assert(sort_by_score(es) =~= es);
    } else {
        assert(es =~= Seq::<(int, int)>::empty());
    }
}

proof fn lemma_entries_all_matched(scores: Seq<Option<int>>)
    requires
        forall|k: int| 0 <= k < scores.len() ==> #[trigger] scores[k] is Some,
    ensures
        scored_entries(scores) =~= Seq::new(scores.len(), |i: int| (i, scores[i]->0)),
    decreases scores.len(),
{
    if scores.len() > 0 {
        let prev = scores.drop_last();
        assert forall|k: int| 0 <= k < prev.len() implies #[trigger] prev[k] is Some by {
            assert(prev[k] == scores[k]);
        }
        lemma_entries_all_matched(prev);
        assert(scores[scores.len() - 1] is Some);
    }
}

proof fn lemma_sort_descending_unchanged(s: Seq<(int, int)>)
    requires
        forall|a: int, b: int| 0 <= a < b < s.len() ==> #[trigger] s[a].1 >= #[trigger] s[b].1,
    ensures
        sort_by_score(s) == s,
    decreases s.len(),
{
    if s.len() > 0 {
        let prev = s.drop_last();
        assert forall|a: int, b: int| 0 <= a < b < prev.len() implies #[trigger] prev[a].1
            >= #[trigger] prev[b].1 by {
            assert(prev[a] == s[a] && prev[b] == s[b]);
        }
        lemma_sort_descending_unchanged(prev);
        if prev.len() > 0 {
            assert(prev.last().1 >= s.last().1) by {
                assert(prev.last() == s[s.len() - 2]);
            }
        }
        assert(prev.insert(prev.len() as int, s.last()) =~= s);
    }
}

proof fn lemma_entries_carry_scores(scores: Seq<Option<int>>)
    ensures
        forall|k: int|
            0 <= k < scored_entries(scores).len() ==> 0 <= #[trigger] scored_entries(scores)[k].0
                < scores.len() && scores[scored_entries(scores)[k].0] == Some(
                scored_entries(scores)[k].1,
            ),
    decreases scores.len(),
{
    if scores.len() > 0 {
        let prev = scores.drop_last();
        lemma_entries_carry_scores(prev);
        let pe = scored_entries(prev);
        let e = scored_entries(scores);
        assert forall|k: int| 0 <= k < e.len() implies 0 <= #[trigger] e[k].0 < scores.len()
            && scores[e[k].0] == Some(e[k].1) by {
            if k < pe.len() {
                assert(e[k] == pe[k]);
                assert(prev[pe[k].0] == scores[pe[k].0]);
            }
        }
    }
}

proof fn lemma_sort_keeps_entries(s: Seq<(int, int)>)
    ensures
        sort_by_score(s).len() == s.len(),
        forall|k: int|
            0 <= k < s.len() ==> exists|m: int| 0 <= m < s.len() && #[trigger] sort_by_score(s)[k] == s[m],
    decreases s.len(),
{
    if s.len() > 0 {
        let prev = s.drop_last();
        lemma_sort_keeps_entries(prev);
        let r = sort_by_score(prev);
        let p = insert_pos(r, s.last().1);
        lemma_insert_pos_range(r, s.last().1);
        r.insert_ensures(p, s.last());
        assert forall|k: int| 0 <= k < s.len() implies exists|m: int|
            0 <= m < s.len() && #[trigger] sort_by_score(s)[k] == s[m] by {
            if k < p {
                let m = choose|m: int| 0 <= m < prev.len() && r[k] == prev[m];
                assert(sort_by_score(s)[k] == s[m]);
            } else if k == p {
                assert(sort_by_score(s)[k] == s[s.len() - 1]);
            } else {
                let m = choose|m: int| 0 <= m < prev.len() && r[k - 1] == prev[m];
                assert(sort_by_score(s)[k] == s[m]);
            }
        }
    }
}

/// Ranking the items of a ranking again, with the same query and limit,
/// lists the same items with the same scores in the same order.
pub proof fn lemma_rerank_reproduces(query: Seq<char>, items: Seq<LaunchItemView>, max: int)
    requires
        0 <= max,
    ensures
        ({
            let r = rank_spec(query, items, max);
            &&& forall|i: int| 0 <= i < r.len() ==> 0 <= #[trigger] r[i].0 < items.len()
            &&& rank_spec(query, Seq::new(r.len(), |i: int| items[r[i].0]), max) == Seq::new(
                r.len(),
                |i: int| (i, r[i].1),
            )
        }),
{
    let scores = item_scores(query, items);
    let es = scored_entries(scores);
    let so = sort_by_score(es);
    let r = rank_spec(query, items, max);
    lemma_rank_stable_descending(query, items, max, query, items);
    lemma_entries_carry_scores(scores);
    lemma_sort_keeps_entries(es);
    assert forall|i: int| 0 <= i < r.len() implies 0 <= #[trigger] r[i].0 < items.len() && scores[r[i].0]
        == Some(r[i].1) by {
        assert(r[i] == so[i]);
        let m = choose|m: int| 0 <= m < es.len() && #[trigger] so[i] == es[m];
        assert(scores[es[m].0] == Some(es[m].1));
    }
    let again = Seq::new(r.len(), |i: int| items[r[i].0]);
    let scores2 = item_scores(query, again);
    assert forall|k: int| 0 <= k < scores2.len() implies #[trigger] scores2[k] is Some && scores2[k]
        == Some(r[k].1) by {
        assert(scores2[k] == item_score(query, items[r[k].0]));
        assert(scores[r[k].0] == item_score(query, items[r[k].0]));
    }
    lemma_entries_all_matched(scores2);
    let es2 = scored_entries(scores2);
    assert(es2 =~= Seq::new(r.len(), |i: int| (i, r[i].1)));
    assert forall|a: int, b: int| 0 <= a < b < es2.len() implies #[trigger] es2[a].1
        >= #[trigger] es2[b].1 by {
        assert(r[a].1 > r[b].1 || r[a].1 == r[b].1);
    }
    lemma_sort_descending_unchanged(es2);
}

/// How many entries of `s` score at least `v`.
pub open spec fn count_at_least(s: Seq<(int, int)>, v: int) -> nat
    decreases s.len(),
{
    if s.len() == 0 {
        0
    } else {
        count_at_least(s.drop_last(), v) + if s.last().1 >= v {
            1nat
        } else {
            0nat
        }
    }
}

/// How many of `scores` are matches: all of them when `v` is `None`, else
/// those scoring at least `v->0`.
pub open spec fn count_scores(scores: Seq<Option<int>>, v: Option<int>) -> nat
    decreases scores.len(),
{
    if scores.len() == 0 {
        0
    } else {
        count_scores(scores.drop_last(), v) + if scores.last() is Some && (v is None
            || scores.last()->0 >= v->0) {
            1nat
        } else {
            0nat
        }
    }
}

proof fn lemma_count_entries(scores: Seq<Option<int>>, v: int)
    ensures
        count_at_least(scored_entries(scores), v) == count_scores(scores, Some(v)),
        scored_entries(scores).len() == count_scores(scores, None),
    decreases scores.len(),
{
    if scores.len() > 0 {
        lemma_count_entries(scores.drop_last(), v);
        let pe = scored_entries(scores.drop_last());
        if scores.last() is Some {
            assert(scored_entries(scores).drop_last() =~= pe);
        }
    }
}

proof fn lemma_count_insert(s: Seq<(int, int)>, p: int, e: (int, int), v: int)
    requires
        0 <= p <= s.len(),
    ensures
        count_at_least(s.insert(p, e), v) == count_at_least(s, v) + if e.1 >= v {
            1nat
        } else {
            0nat
        },
    decreases s.len(),
{
    let t = s.insert(p, e);
    if p == s.len() {
        assert(t.drop_last() =~= s);
    } else {
        lemma_count_insert(s.drop_last(), p, e, v);
        assert(t.drop_last() =~= s.drop_last().insert(p, e));
        assert(t.last() == s.last());
    }
}

proof fn lemma_count_sort(s: Seq<(int, int)>, v: int)
    ensures
        count_at_least(sort_by_score(s), v) == count_at_least(s, v),
    decreases s.len(),
{
    if s.len() > 0 {
        let prev = s.drop_last();
        lemma_count_sort(prev, v);
        let r = sort_by_score(prev);
        lemma_insert_pos_range(r, s.last().1);
        lemma_count_insert(r, insert_pos(r, s.last().1), s.last(), v);
    }
}

proof fn lemma_count_scores_remove(scores: Seq<Option<int>>, j: int, v: Option<int>)
    requires
        0 <= j < scores.len(),
    ensures
        count_scores(scores, v) == count_scores(scores.remove(j), v) + if scores[j] is Some && (
        v is None || scores[j]->0 >= v->0) {
            1nat
        } else {
            0nat
        },
    decreases scores.len(),
{
    let t = scores.remove(j);
    if j == scores.len() - 1 {
        assert(t =~= scores.drop_last());
    } else {
        lemma_count_scores_remove(scores.drop_last(), j, v);
        assert(t.drop_last() =~= scores.drop_last().remove(j));
        assert(t.last() == scores.last());
    }
}

/// `p` maps each position of a sequence of length `n` to a distinct
/// position of another of length `n`.
pub open spec fn is_reindexing(p: Seq<int>, n: int) -> bool {
    &&& p.len() == n
    &&& forall|i: int| 0 <= i < n ==> 0 <= #[trigger] p[i] < n
    &&& forall|a: int, b: int| 0 <= a < b < n ==> #[trigger] p[a] != #[trigger] p[b]
}

proof fn lemma_count_scores_reindexed(
    s1: Seq<Option<int>>,
    s2: Seq<Option<int>>,
    p: Seq<int>,
    v: Option<int>,
)
    requires
        s2.len() == s1.len(),
        is_reindexing(p, s1.len() as int),
        forall|i: int| 0 <= i < s2.len() ==> #[trigger] s2[i] == s1[p[i]],
    ensures
        count_scores(s2, v) == count_scores(s1, v),
    decreases s1.len(),
{
    let n = s1.len() as int;
    if n > 0 {
        let j = p[n - 1];
        let s1r = s1.remove(j);
        let s2r = s2.drop_last();
        let q = Seq::new((n - 1) as nat, |i: int| if p[i] < j { p[i] } else { p[i] - 1 });
        assert forall|i: int| 0 <= i < n - 1 implies 0 <= #[trigger] q[i] < n - 1 by {
            assert(p[i] != p[n - 1]);
        }
        assert forall|a: int, b: int| 0 <= a < b < n - 1 implies #[trigger] q[a] != #[trigger] q[b] by {
            assert(p[a] != p[b]);
            assert(p[a] != j && p[b] != j) by {
                assert(p[a] != p[n - 1]);
                assert(p[b] != p[n - 1]);
            }
        }
        assert forall|i: int| 0 <= i < s2r.len() implies #[trigger] s2r[i] == s1r[q[i]] by {
            assert(p[i] != p[n - 1]);
            assert(s2r[i] == s2[i]);
        }
        lemma_count_scores_reindexed(s1r, s2r, q, v);
        lemma_count_scores_remove(s1, j, v);
        assert(s2.last() == s1[j]);
    }
}

proof fn lemma_count_len(s: Seq<(int, int)>, v: int)
    ensures
        count_at_least(s, v) <= s.len(),
    decreases s.len(),
{
    if s.len() > 0 {
        lemma_count_len(s.drop_last(), v);
    }
}

proof fn lemma_count_prefix_high(s: Seq<(int, int)>, k: int, v: int)
    requires
        0 <= k <= s.len(),
        forall|j: int| 0 <= j < k ==> #[trigger] s[j].1 >= v,
    ensures
        count_at_least(s, v) >= k,
    decreases s.len(),
{
    if s.len() > 0 {
        let prev = s.drop_last();
        if k == s.len() {
            assert forall|j: int| 0 <= j < k - 1 implies #[trigger] prev[j].1 >= v by {
                assert(prev[j] == s[j]);
            }
            lemma_count_prefix_high(prev, k - 1, v);
        } else {
            assert forall|j: int| 0 <= j < k implies #[trigger] prev[j].1 >= v by {
                assert(prev[j] == s[j]);
            }
            lemma_count_prefix_high(prev, k, v);
        }
    }
}

proof fn lemma_count_suffix_low(s: Seq<(int, int)>, k: int, v: int)
    requires
        0 <= k,
        forall|j: int| k <= j < s.len() ==> #[trigger] s[j].1 < v,
    ensures
        count_at_least(s, v) <= k,
    decreases s.len(),
{
    if s.len() > 0 {
        let prev = s.drop_last();
        if s.len() <= k {
            lemma_count_len(s, v);
        } else {
            assert forall|j: int| k <= j < prev.len() implies #[trigger] prev[j].1 < v by {
                assert(prev[j] == s[j]);
            }
            lemma_count_suffix_low(prev, k, v);
        }
    }
}

proof fn lemma_count_scores_bound(scores: Seq<Option<int>>)
    ensures
        count_scores(scores, None) <= scores.len(),
    decreases scores.len(),
{
    if scores.len() > 0 {
        lemma_count_scores_bound(scores.drop_last());
    }
}

/// Ranking a reordering of the items lists the same scores in the same
/// order, as many as before; ties then follow the new order of the items.
pub proof fn lemma_rank_permutation(
    query: Seq<char>,
    items1: Seq<LaunchItemView>,
    items2: Seq<LaunchItemView>,
    p: Seq<int>,
    max: int,
)
    requires
        items2.len() == items1.len(),
        is_reindexing(p, items1.len() as int),
        forall|i: int| 0 <= i < items2.len() ==> #[trigger] items2[i] == items1[p[i]],
        max >= items1.len(),
    ensures
        ({
            let r1 = rank_spec(query, items1, max);
            let r2 = rank_spec(query, items2, max);
            &&& r1.len() == r2.len()
            &&& forall|i: int| 0 <= i < r1.len() ==> #[trigger] r1[i].1 == r2[i].1
            &&& ranked(r2)
        }),
{
    let s1 = item_scores(query, items1);
    let s2 = item_scores(query, items2);
    assert forall|i: int| 0 <= i < s2.len() implies #[trigger] s2[i] == s1[p[i]] by {
        assert(s2[i] == item_score(query, items2[i]));
    }
    let e1 = scored_entries(s1);
    let e2 = scored_entries(s2);
    let r1 = rank_spec(query, items1, max);
    let r2 = rank_spec(query, items2, max);
    lemma_count_entries(s1, 0);
    lemma_count_entries(s2, 0);
    lemma_count_scores_reindexed(s1, s2, p, None);
    lemma_count_scores_bound(s1);
    lemma_count_scores_bound(s2);
    lemma_sort_keeps_entries(e1);
    lemma_sort_keeps_entries(e2);
    assert(r1 == sort_by_score(e1));
    assert(r2 == sort_by_score(e2));
    lemma_rank_stable_descending(query, items1, max, query, items1);
    lemma_rank_stable_descending(query, items2, max, query, items2);
    assert forall|i: int| 0 <= i < r1.len() implies #[trigger] r1[i].1 == r2[i].1 by {
        let v1 = r1[i].1;
        let v2 = r2[i].1;
        lemma_count_entries(s1, v1);
        lemma_count_entries(s2, v1);
        lemma_count_entries(s1, v2);
        lemma_count_entries(s2, v2);
        lemma_count_scores_reindexed(s1, s2, p, Some(v1));
        lemma_count_scores_reindexed(s1, s2, p, Some(v2));
        lemma_count_sort(e1, v1);
        lemma_count_sort(e2, v1);
        lemma_count_sort(e1, v2);
        lemma_count_sort(e2, v2);
        if v1 < v2 {
            assert forall|j: int| 0 <= j < i + 1 implies #[trigger] r2[j].1 >= v2 by {
                if j < i {
                    assert(r2[j].1 > r2[i].1 || r2[j].1 == r2[i].1);
                }
            }
            lemma_count_prefix_high(r2, i + 1, v2);
            assert forall|j: int| i <= j < r1.len() implies #[trigger] r1[j].1 < v2 by {
                if j > i {
                    assert(r1[i].1 > r1[j].1 || r1[i].1 == r1[j].1);
                }
            }
            lemma_count_suffix_low(r1, i, v2);
        } else if v2 < v1 {
            assert forall|j: int| 0 <= j < i + 1 implies #[trigger] r1[j].1 >= v1 by {
                if j < i {
                    assert(r1[j].1 > r1[i].1 || r1[j].1 == r1[i].1);
                }
            }
            lemma_count_prefix_high(r1, i + 1, v1);
            assert forall|j: int| i <= j < r2.len() implies #[trigger] r2[j].1 < v1 by {
                if j > i {
                    assert(r2[i].1 > r2[j].1 || r2[i].1 == r2[j].1);
                }
            }
            lemma_count_suffix_low(r2, i, v1);
        }
    }
}

/// For an empty query every item is listed, in input order, with score 0,
/// up to `max` of them.
pub proof fn lemma_empty_query_lists_all(query: Seq<char>, items: Seq<LaunchItemView>, max: int)
    requires
        query.len() == 0,
        0 <= max,
    ensures
        rank_spec(query, items, max) =~= Seq::new(
            if max < items.len() { max as nat } else { items.len() },
            |i: int| (i, 0int),
        ),
{
    let scores = item_scores(query, items);
    lemma_entries_all_matched(scores);
    lemma_sort_descending_unchanged(scored_entries(scores));
}

/// An application scores exactly 50 more than a command that is otherwise
/// the same, in every tier, for a non-empty query.
pub proof fn lemma_application_bonus(query: Seq<char>, app: LaunchItemView, cmd: LaunchItemView)
    requires
        query.len() > 0,
        app.item_type == ItemType::Application,
        cmd.item_type == ItemType::Command,
        app.display_name == cmd.display_name,
        app.command == cmd.command,
        app.description == cmd.description,
    ensures
        match item_score(query, cmd) {
            Some(x) => item_score(query, app) == Some(x + 50),
            None => item_score(query, app) is None,
        },
{
}

/// Tiers do not add up: the score of a query against an item is the value
/// of the first tier that applies, and each tier is worth more than the next.
pub proof fn lemma_cascade_first_tier_wins(
    q: Seq<char>,
    name: Seq<char>,
    command: Seq<char>,
    description: Option<Seq<char>>,
    kind: ItemType,
)
    ensures
        ({
            let b = type_bonus(kind);
            let l = byte_len(q);
            let r = tier_score(q, name, command, description, kind);
            &&& (name == q || command == q) ==> r == Some(EXACT_MATCH_BONUS + b)
            &&& (name != q && command != q && has_prefix(name, q)) ==> r == Some(
                NAME_STARTS_WITH_BONUS - l + b,
            )
            &&& (name != q && command != q && !has_prefix(name, q) && has_prefix(command, q)) ==> r
                == Some(COMMAND_STARTS_WITH_BONUS - l + b)
            &&& (name != q && command != q && !has_prefix(name, q) && !has_prefix(command, q)
                && has_substring(name, q)) ==> r == Some(NAME_CONTAINS_BONUS - l + b)
            &&& has_prefix(name, q) ==> has_substring(name, q)
            &&& has_prefix(command, q) ==> has_substring(command, q)
            &&& EXACT_MATCH_BONUS + b > NAME_STARTS_WITH_BONUS - l + b
            &&& NAME_STARTS_WITH_BONUS - l + b > COMMAND_STARTS_WITH_BONUS - l + b
            &&& COMMAND_STARTS_WITH_BONUS - l + b > NAME_CONTAINS_BONUS - l + b
            &&& NAME_CONTAINS_BONUS - l + b > COMMAND_CONTAINS_BONUS - l + b
            &&& COMMAND_CONTAINS_BONUS - l + b > DESCRIPTION_CONTAINS_BONUS - l + b
        }),
{
    lemma_byte_len_bound(q);
}

} // verus!
