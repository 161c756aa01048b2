use vstd::prelude::*;

verus! {

/// What `str::to_lowercase` makes of a string of characters.
pub uninterp spec fn lower_of(s: Seq<char>) -> Seq<char>;

/// Relies on `str::to_lowercase`: the lowercase form of `s`, which depends
/// on the characters of `s` alone.
#[verifier::external_body]
pub(crate) fn lowercase(s: &str) -> (r: String)
    ensures
        r@ == lower_of(s@),
{
    s.to_lowercase()
}

/// Relies on `String::push`: appends `c` to `s`.
#[verifier::external_body]
pub(crate) fn string_push(s: &mut String, c: char)
    ensures
        final(s)@ == old(s)@.push(c),
{
    s.push(c)
}

/// The string of the characters of `v`.
pub fn string_from_chars(v: &Vec<char>) -> (r: String)
    ensures
        r@ == v@,
{
    let mut r = String::new();
    let mut i: usize = 0;
    while i < v.len()
        invariant
            i <= v@.len(),
            r@ == v@.take(i as int),
        decreases v@.len() - i,
    {
        string_push(&mut r, v[i]);
        assert(v@.take(i + 1) =~= v@.take(i as int).push(v@[i as int]));
        i += 1;
    }
    assert(v@.take(v@.len() as int) =~= v@);
    r
}

/// `q` stands in `t` starting at position `k`.
pub open spec fn occurs_at(t: Seq<char>, q: Seq<char>, k: int) -> bool {
    0 <= k && k + q.len() <= t.len() && t.subrange(k, k + q.len()) == q
}

/// `q` is a prefix of `t`.
pub open spec fn has_prefix(t: Seq<char>, q: Seq<char>) -> bool {
    occurs_at(t, q, 0)
}

/// `q` stands somewhere in `t` as a contiguous run.
pub open spec fn has_substring(t: Seq<char>, q: Seq<char>) -> bool {
    exists|k: int| #[trigger] occurs_at(t, q, k)
}

/// The characters of `s`, in order.
pub fn chars_of(s: &str) -> (r: Vec<char>)
    ensures
        r@ == s@,
{
    let mut r: Vec<char> = Vec::new();
    for c in it: s.chars()
        invariant
            r@ == it.seq().take(it.index() as int),
            it.seq() == s@,
    {
        r.push(c);
    }
    r
}

/// Whether `q` stands in `t` at position `k`.
pub fn occurs_at_index(t: &Vec<char>, q: &Vec<char>, k: usize) -> (r: bool)
    ensures
        r == occurs_at(t@, q@, k as int),
{
    if q.len() > t.len() || k > t.len() - q.len() {
        return false;
    }
    let mut i: usize = 0;
    while i < q.len()
        invariant
            i <= q.len(),
            k + q.len() <= t.len(),
            forall|j: int| 0 <= j < i ==> t@[k + j] == q@[j],
        decreases q.len() - i,
    {
        if t[k + i] != q[i] {
            assert(t@.subrange(k as int, k + q.len())[i as int] != q@[i as int]);
            return false;
        }
        i += 1;
    }
    assert(t@.subrange(k as int, k + q.len()) =~= q@);
    true
}

/// Whether `q` stands somewhere in `t`.
pub fn contains_run(t: &Vec<char>, q: &Vec<char>) -> (r: bool)
    ensures
        r == has_substring(t@, q@),
{
    if q.len() > t.len() {
        assert(forall|k: int| !occurs_at(t@, q@, k));
        return false;
    }
    let last = t.len() - q.len();
    let mut k: usize = 0;
    loop
        invariant
            q.len() <= t.len(),
            last == t.len() - q.len(),
            k <= last,
            forall|j: int| 0 <= j < k ==> !occurs_at(t@, q@, j),
        decreases last - k,
    {
        if occurs_at_index(t, q, k) {
            return true;
        }
        if k == last {
            assert(forall|j: int| !occurs_at(t@, q@, j));
            return false;
        }
        k += 1;
    }
}

/// Whether `t` and `q` hold the same characters.
pub fn same_chars(t: &Vec<char>, q: &Vec<char>) -> (r: bool)
    ensures
        r == (t@ == q@),
{
    if t.len() != q.len() {
        return false;
    }
    let r = occurs_at_index(t, q, 0);
    assert(t@.subrange(0, t@.len() as int) =~= t@);
    r
}

} // verus!
