use vstd::prelude::*;
use crate::order::{compare_chars, lemma_lex_irreflexive, lemma_lex_total, lemma_lex_transitive, lex_lt};
use crate::text::{chars_of, string_from_chars};

verus! {

/// Whether an entry runs a bare executable or a desktop application.
#[derive(Debug, Clone, Copy, PartialEq, Eq, Structural)]
pub enum ItemType {
    Command,
    Application,
}

/// One launchable entry.
#[derive(Debug, Clone)]
pub struct LaunchItem {
    pub name: String,
    pub display_name: String,
    pub command: String,
    pub description: Option<String>,
    pub icon: Option<String>,
    pub item_type: ItemType,
}

/// The mathematical value of a [`LaunchItem`].
pub ghost struct LaunchItemView {
    pub name: Seq<char>,
    pub display_name: Seq<char>,
    pub command: Seq<char>,
    pub description: Option<Seq<char>>,
    pub icon: Option<Seq<char>>,
    pub item_type: ItemType,
}

pub open spec fn opt_view(o: Option<String>) -> Option<Seq<char>> {
    match o {
        Some(s) => Some(s@),
        None => None,
    }
}

impl View for LaunchItem {
    type V = LaunchItemView;

    open spec fn view(&self) -> LaunchItemView {
        LaunchItemView {
            name: self.name@,
            display_name: self.display_name@,
            command: self.command@,
            description: opt_view(self.description),
            icon: opt_view(self.icon),
            item_type: self.item_type,
        }
    }
}

/// The views of a sequence of items.
pub open spec fn items_view(s: Seq<LaunchItem>) -> Seq<LaunchItemView> {
    s.map_values(|i: LaunchItem| i@)
}

fn copy_opt(o: &Option<String>) -> (r: Option<String>)
    ensures
        opt_view(r) == opt_view(*o),
{
    match o {
        Some(s) => Some(s.clone()),
        None => None,
    }
}

impl LaunchItem {
    /// A copy of this item with the same value.
    pub fn duplicate(&self) -> (r: LaunchItem)
        ensures
            r@ == self@,
    {
        LaunchItem {
            name: self.name.clone(),
            display_name: self.display_name.clone(),
            command: self.command.clone(),
            description: copy_opt(&self.description),
            icon: copy_opt(&self.icon),
            item_type: self.item_type,
        }
    }
}

/// A point on the monotonic clock; opaque here.
#[verifier::external_type_specification]
#[verifier::external_body]
pub struct ExInstant(std::time::Instant);

/// Relies on `Instant::now`: the current point on the monotonic clock.
#[verifier::external_body]
fn instant_now() -> (r: std::time::Instant) {
    std::time::Instant::now()
}

/// Relies on `Instant::elapsed`: the milliseconds since `origin` on the
/// monotonic clock. Nothing is promised of the value.
#[verifier::external_body]
fn millis_since(origin: &std::time::Instant) -> (r: u64) {
    origin.elapsed().as_millis() as u64
}

/// The last committed item snapshot, with the time of its commit and the
/// age after which it is stale. Times are milliseconds since `origin` on
/// the monotonic clock.
pub struct ItemCache {
    pub items: Vec<LaunchItem>,
    /// When the cache was made.
    pub origin: std::time::Instant,
    /// When the snapshot was committed; `None` before the first commit,
    /// which makes a new cache stale from the start.
    pub last_updated: Option<u64>,
    /// The staleness threshold in seconds.
    pub timeout_secs: u64,
}

impl ItemCache {
    /// Whether the snapshot is stale at time `now` (milliseconds): never
    /// committed, or committed more than the threshold before `now`.
    pub open spec fn expired_at(&self, now: int) -> bool {
        match self.last_updated {
            None => true,
            Some(t) => now - t > self.timeout_secs * 1000,
        }
    }

    /// An empty cache with the given threshold, stale until its first update.
    pub fn new(timeout_secs: u64) -> (r: Self)
        ensures
            r.items@.len() == 0,
            r.last_updated is None,
            r.timeout_secs == timeout_secs,
            forall|now: int| #[trigger] r.expired_at(now),
    {
        ItemCache { items: Vec::new(), origin: instant_now(), last_updated: None, timeout_secs }
    }

    /// Whether the snapshot is stale at time `now` (milliseconds).
    pub fn is_expired_at(&self, now: u64) -> (r: bool)
        ensures
            r == self.expired_at(now as int),
    {
        match self.last_updated {
            None => true,
            Some(t) => {
                if now <= t {
                    false
                } else {
                    ((now - t) as u128) > (self.timeout_secs as u128) * 1000
                }
            },
        }
    }

    /// Whether the snapshot is stale now, by the monotonic clock.
    pub fn is_expired(&self) -> (r: bool)
        ensures
            self.last_updated is None ==> r,
            exists|now: u64| r == self.expired_at(now as int),
    {
        let now = millis_since(&self.origin);
        self.is_expired_at(now)
    }

    /// Replaces the snapshot wholesale and records `now` as its commit time.
    pub fn update_at(&mut self, items: Vec<LaunchItem>, now: u64)
        ensures
            final(self).items@ == items@,
            final(self).last_updated == Some(now),
            final(self).timeout_secs == old(self).timeout_secs,
    {
        self.items = items;
        self.last_updated = Some(now);
    }

    /// Replaces the snapshot wholesale, committed at the current time.
    pub fn update(&mut self, items: Vec<LaunchItem>)
        ensures
            final(self).items@ == items@,
            final(self).last_updated is Some,
            final(self).timeout_secs == old(self).timeout_secs,
            !final(self).expired_at(final(self).last_updated->0 as int),
    {
        let now = millis_since(&self.origin);
        self.update_at(items, now);
    }

    /// The committed snapshot.
    pub fn get(&self) -> (r: &[LaunchItem])
        ensures
            r@ == self.items@,
    {
        self.items.as_slice()
    }
}

/// A cache that was never updated is stale at every time; one updated at
/// `t` is fresh from `t` until the threshold has passed, and stale after.
pub proof fn lemma_cache_staleness(c: ItemCache, t: u64, now: int)
    ensures
        c.last_updated is None ==> c.expired_at(now),
        c.last_updated == Some(t) ==> !c.expired_at(t as int),
        c.last_updated == Some(t) && t <= now <= t + c.timeout_secs * 1000 ==> !c.expired_at(now),
        c.last_updated == Some(t) && now > t + c.timeout_secs * 1000 ==> c.expired_at(now),
{
}

/// A file name that starts with a dot.
pub open spec fn is_dotfile(n: Seq<char>) -> bool {
    n.len() > 0 && n[0] == '.'
}

/// The command item for an executable called `n`.
pub open spec fn command_view(n: Seq<char>) -> LaunchItemView {
    LaunchItemView {
        name: n,
        display_name: n,
        command: n,
        description: None,
        icon: None,
        item_type: ItemType::Command,
    }
}

/// `n` is one of the first `j` of `names` and no dotfile.
pub open spec fn listed_name(names: Seq<String>, j: int, n: Seq<char>) -> bool {
    exists|i: int| 0 <= i < j && #[trigger] names[i]@ == n && !is_dotfile(n)
}

/// Some item of `r` is called `n`.
pub open spec fn has_item_named(r: Seq<LaunchItem>, n: Seq<char>) -> bool {
    exists|k: int| 0 <= k < r.len() && #[trigger] r[k].name@ == n
}

spec fn has_chars(s: Seq<Vec<char>>, n: Seq<char>) -> bool {
    exists|k: int| 0 <= k < s.len() && #[trigger] s[k]@ == n
}

/// The command items for the executables called `names`: one for each
/// name that is no dotfile, whatever its number of occurrences, sorted by name.
pub fn command_items(names: &Vec<String>) -> (r: Vec<LaunchItem>)
    ensures
        forall|a: int, b: int|
            0 <= a < b < r@.len() ==> lex_lt(#[trigger] r@[a].name@, #[trigger] r@[b].name@),
        forall|k: int| 0 <= k < r@.len() ==> (#[trigger] r@[k])@ == command_view(r@[k].name@),
        forall|n: Seq<char>| #[trigger]
            has_item_named(r@, n) <==> listed_name(names@, names@.len() as int, n),
{
    let mut sorted: Vec<Vec<char>> = Vec::new();
    let mut j: usize = 0;
    while j < names.len()
        invariant
            j <= names@.len(),
            forall|a: int, b: int|
                0 <= a < b < sorted@.len() ==> lex_lt(#[trigger] sorted@[a]@, #[trigger] sorted@[b]@),
            forall|n: Seq<char>| #[trigger] has_chars(sorted@, n) <==> listed_name(names@, j as int, n),
        decreases names@.len() - j,
    {
        let n = chars_of(names[j].as_str());
        let ghost old_sorted = sorted@;
        assert forall|m: Seq<char>| m != n@ implies (#[trigger] listed_name(names@, j + 1, m) <==> listed_name(
            names@,
            j as int,
            m,
        )) by {
            if listed_name(names@, j + 1, m) {
                let i = choose|i: int| 0 <= i < j + 1 && #[trigger] names@[i]@ == m && !is_dotfile(m);
                assert(i < j);
            }
        }
        if n.len() > 0 && n[0] == '.' {
            assert forall|m: Seq<char>| #[trigger] listed_name(names@, j + 1, m) implies listed_name(
                names@,
                j as int,
                m,
            ) by {
                let i = choose|i: int| 0 <= i < j + 1 && #[trigger] names@[i]@ == m && !is_dotfile(m);
                assert(i < j);
            }
        } else {
            assert(listed_name(names@, j + 1, n@)) by {
                assert(names@[j as int]@ == n@);
            }
            let mut p: usize = 0;
            while p < sorted.len() && compare_chars(&sorted[p], &n) == -1
                invariant
                    p <= sorted@.len(),
                    sorted@ == old_sorted,
                    forall|q: int| 0 <= q < p ==> lex_lt(#[trigger] sorted@[q]@, n@),
                decreases sorted@.len() - p,
            {
                p += 1;
            }
            if p < sorted.len() && compare_chars(&sorted[p], &n) == 0 {
                assert forall|m: Seq<char>| #[trigger] listed_name(names@, j + 1, m) implies has_chars(sorted@, m) by {
                    if m == n@ {
                        assert(sorted@[p as int]@ == m);
                    }
                }
            } else {
                proof {
                    if p < sorted@.len() {
                        lemma_lex_total(sorted@[p as int]@, n@);
                    }
                    assert forall|k: int| 0 <= k < sorted@.len() implies #[trigger] sorted@[k]@ != n@ by {
                        if k < p {
                            lemma_lex_irreflexive(n@);
                        } else if k > p {
                            lemma_lex_transitive(n@, sorted@[p as int]@, sorted@[k]@);
                            lemma_lex_irreflexive(n@);
                        } else {
                            lemma_lex_irreflexive(n@);
                        }
                    }
                }
                sorted.insert(p, n);
                proof {
                    old_sorted.insert_ensures(p as int, n);
                    assert forall|a: int, b: int| 0 <= a < b < sorted@.len() implies lex_lt(
                        #[trigger] sorted@[a]@,
                        #[trigger] sorted@[b]@,
                    ) by {
                        if b < p {
                            assert(sorted@[a] == old_sorted[a] && sorted@[b] == old_sorted[b]);
                        } else if a > p {
                            assert(sorted@[a] == old_sorted[a - 1] && sorted@[b] == old_sorted[b - 1]);
                        } else if b == p {
                            assert(sorted@[a] == old_sorted[a]);
                        } else if a < p {
                            assert(sorted@[a] == old_sorted[a] && sorted@[b] == old_sorted[b - 1]);
                        } else {
                            assert(sorted@[b] == old_sorted[b - 1]);
                            if b - 1 > p {
                                lemma_lex_transitive(n@, old_sorted[p as int]@, old_sorted[b - 1]@);
                            }
                        }
                    }
                    assert forall|m: Seq<char>| #[trigger]
                        has_chars(sorted@, m) <==> listed_name(names@, j + 1, m) by {
                        if has_chars(sorted@, m) {
                            let k = choose|k: int| 0 <= k < sorted@.len() && #[trigger] sorted@[k]@ == m;
                            if k != p {
                                if k < p {
                                    assert(old_sorted[k]@ == m);
                                } else {
                                    assert(old_sorted[k - 1]@ == m);
                                }
                                assert(has_chars(old_sorted, m));
                                assert(listed_name(names@, j as int, m));
                                let i = choose|i: int|
                                    0 <= i < j && #[trigger] names@[i]@ == m && !is_dotfile(m);
                                assert(0 <= i < j + 1 && names@[i]@ == m);
                            }
                        }
                        if listed_name(names@, j + 1, m) {
                            if m == n@ {
                                assert(sorted@[p as int]@ == m);
                            } else {
                                assert(has_chars(old_sorted, m));
                                let k = choose|k: int| 0 <= k < old_sorted.len() && #[trigger] old_sorted[k]@ == m;
                                if k < p {
                                    assert(sorted@[k]@ == m);
                                } else {
                                    assert(sorted@[k + 1]@ == m);
                                }
                            }
                        }
                    }
                }
            }
        }
        j += 1;
    }
    let mut r: Vec<LaunchItem> = Vec::new();
    let mut k: usize = 0;
    while k < sorted.len()
        invariant
            k <= sorted@.len(),
            r@.len() == k,
            forall|i: int| 0 <= i < k ==> (#[trigger] r@[i])@ == command_view(sorted@[i]@),
        decreases sorted@.len() - k,
    {
        let name = string_from_chars(&sorted[k]);
        r.push(
            LaunchItem {
                name: name.clone(),
                display_name: name.clone(),
                command: name,
                description: None,
                icon: None,
                item_type: ItemType::Command,
            },
        );
        k += 1;
    }
    proof {
        assert forall|n: Seq<char>| #[trigger] has_item_named(r@, n) <==> has_chars(sorted@, n) by {
            if has_item_named(r@, n) {
                let i = choose|i: int| 0 <= i < r@.len() && #[trigger] r@[i].name@ == n;
                assert(r@[i]@ == command_view(sorted@[i]@));
            }
            if has_chars(sorted@, n) {
                let i = choose|i: int| 0 <= i < sorted@.len() && #[trigger] sorted@[i]@ == n;
                assert(r@[i]@ == command_view(sorted@[i]@));
            }
        }
        assert forall|a: int, b: int| 0 <= a < b < r@.len() implies lex_lt(
            #[trigger] r@[a].name@,
            #[trigger] r@[b].name@,
        ) by {
            assert(r@[a]@ == command_view(sorted@[a]@));
            assert(r@[b]@ == command_view(sorted@[b]@));
        }
    }
    r
}

} // verus!
