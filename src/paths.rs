use vstd::prelude::*;

verus! {

/// The path separator.
pub open spec fn is_sep(c: char) -> bool {
    c == '/'
}

/// `p` is `base` or lies beneath it, comparing whole components.
pub open spec fn within(p: Seq<char>, base: Seq<char>) -> bool {
    &&& base.len() <= p.len()
    &&& p.subrange(0, base.len() as int) == base
    &&& (p.len() == base.len() || (base.len() > 0 && is_sep(base.last())) || is_sep(
        p[base.len() as int],
    ))
}

/// `p` lies strictly beneath `base`.
pub open spec fn strictly_within(p: Seq<char>, base: Seq<char>) -> bool {
    within(p, base) && p != base
}

/// Cutting `p` after its first `i` characters gives one of its ancestors
/// (the path itself included, and the root `/` of an absolute path).
pub open spec fn ancestor_cut(p: Seq<char>, i: int) -> bool {
    &&& 0 < i <= p.len()
    &&& (i == p.len() || is_sep(p[i]) || (i == 1 && is_sep(p[0])))
}

/// The characters of `s`, in order.
pub fn chars_of(s: &str) -> (r: Vec<char>)
    ensures
        r@ == s@,
{
    let mut r: Vec<char> = Vec::new();
    for c in it: s.chars()
        invariant
            r@ == it.seq().take(it.index() as int),
    {
        r.push(c);
    }
    assert(r@ =~= s@);
    r
}

/// Whether `p` is `base` or lies beneath it, compared by whole components.
pub fn chars_within(p: &Vec<char>, base: &Vec<char>) -> (r: bool)
    ensures
        r == within(p@, base@),
{
    let n = base.len();
    if n > p.len() {
        return false;
    }
    let mut i: usize = 0;
    while i < n
        invariant
            n == base@.len(),
            n <= p@.len(),
            i <= n,
            p@.subrange(0, i as int) == base@.subrange(0, i as int),
        decreases n - i,
    {
        if p[i] != base[i] {
            assert(p@.subrange(0, n as int)[i as int] != base@[i as int]);
            return false;
        }
        i = i + 1;
        assert(p@.subrange(0, i as int) =~= base@.subrange(0, i as int));
    }
    assert(base@.subrange(0, n as int) =~= base@);
    n == p.len() || (n > 0 && base[n - 1] == '/') || p[n] == '/'
}

/// Whether the path `p` is `base` or lies beneath it.
pub fn path_within(p: &str, base: &str) -> (r: bool)
    ensures
        r == within(p@, base@),
{
    let pc = chars_of(p);
    let bc = chars_of(base);
    chars_within(&pc, &bc)
}

/// Whether cutting the characters `p` after the first `i` gives an ancestor.
pub fn is_ancestor_cut(p: &Vec<char>, i: usize) -> (r: bool)
    ensures
        r == ancestor_cut(p@, i as int),
{
    0 < i && i <= p.len() && (i == p.len() || p[i] == '/' || (i == 1 && p[0] == '/'))
}

} // verus!
