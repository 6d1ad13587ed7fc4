use vstd::prelude::*;

verus! {

/// Appends `data[from..to]` to `out`.
pub fn extend_from_range(out: &mut Vec<u8>, data: &[u8], from: usize, to: usize)
    requires
        from <= to <= data@.len(),
    ensures
        final(out)@ == old(out)@ + data@.subrange(from as int, to as int),
{
    let ghost start = out@;
    let mut i = from;
    while i < to
        invariant
            from <= i <= to <= data@.len(),
            out@ == start + data@.subrange(from as int, i as int),
        decreases to - i,
    {
        out.push(data[i]);
        i = i + 1;
        assert(out@ =~= start + data@.subrange(from as int, i as int));
    }
}

/// Copies `data[from..to]` into a new vector.
pub fn copy_range(data: &[u8], from: usize, to: usize) -> (out: Vec<u8>)
    requires
        from <= to <= data@.len(),
    ensures
        out@ == data@.subrange(from as int, to as int),
{
    let mut out: Vec<u8> = Vec::new();
    extend_from_range(&mut out, data, from, to);
    assert(out@ =~= data@.subrange(from as int, to as int));
    out
}

/// Index of the first occurrence of `b` in `s`, if any.
pub open spec fn first_index_of(s: Seq<u8>, b: u8) -> Option<int>
    decreases s.len(),
{
    if s.len() == 0 {
        None
    } else if s[0] == b {
        Some(0)
    } else {
        match first_index_of(s.skip(1), b) {
            Some(i) => Some(i + 1),
            None => None,
        }
    }
}

/// `first_index_of` finds exactly the first position holding `b`.
pub proof fn lemma_first_index_of(s: Seq<u8>, b: u8, k: int)
    requires
        0 <= k <= s.len(),
        forall|j: int| 0 <= j < k ==> s[j] != b,
    ensures
        k < s.len() && s[k] == b ==> first_index_of(s, b) == Some(k),
        k == s.len() ==> first_index_of(s, b) is None,
    decreases k,
{
    if k > 0 {
        lemma_first_index_of(s.skip(1), b, k - 1);
    } else if s.len() > 0 {
    }
}

/// `n` copies of the byte `b`.
pub open spec fn repeated(b: u8, n: nat) -> Seq<u8> {
    Seq::new(n, |i: int| b)
}

/// A run of `j` delimiters before `rest`: at each of them the first delimiter is right there,
/// and taking it off leaves the shorter run before `rest`.
pub proof fn lemma_delimiter_run(d: u8, j: nat, rest: Seq<u8>)
    ensures
        forall|i: int| 0 <= i < j ==> #[trigger] first_index_of((repeated(d, j) + rest).skip(i), d) == Some(0int)
            && (repeated(d, j) + rest).skip(i + 1) == repeated(d, (j - i - 1) as nat) + rest,
        (repeated(d, j) + rest).skip(j as int) == rest,
{
    let c = repeated(d, j) + rest;
    assert forall|i: int| 0 <= i < j implies #[trigger] first_index_of(c.skip(i), d) == Some(0int)
        && c.skip(i + 1) == repeated(d, (j - i - 1) as nat) + rest by {
        assert(c.skip(i)[0] == d);
        assert(c.skip(i + 1) =~= repeated(d, (j - i - 1) as nat) + rest);
    }
    assert(c.skip(j as int) =~= rest);
}

/// Position of the first `b` in `s`.
pub fn find_byte(s: &[u8], b: u8) -> (r: Option<usize>)
    ensures
        match r {
            Some(i) => first_index_of(s@, b) == Some(i as int) && i < s@.len() && s@[i as int] == b
                && forall|j: int| 0 <= j < i ==> s@[j] != b,
            None => first_index_of(s@, b) is None,
        },
{
    let mut i: usize = 0;
    while i < s.len()
        invariant
            i <= s@.len(),
            forall|j: int| 0 <= j < i ==> s@[j] != b,
        decreases s.len() - i,
    {
        if s[i] == b {
            proof { lemma_first_index_of(s@, b, i as int); }
            return Some(i);
        }
        i = i + 1;
    }
    proof { lemma_first_index_of(s@, b, i as int); }
    None
}

} // verus!

verus! {

/// Whether two byte slices hold the same bytes.
pub fn bytes_equal(a: &[u8], b: &[u8]) -> (r: bool)
    ensures
        r == (a@ == b@),
{
    if a.len() != b.len() {
        return false;
    }
    let mut i: usize = 0;
    while i < a.len()
        invariant
            i <= a@.len(),
            a@.len() == b@.len(),
            forall|j: int| 0 <= j < i ==> a@[j] == b@[j],
        decreases a.len() - i,
    {
        if a[i] != b[i] {
            return false;
        }
        i = i + 1;
    }
    assert(a@ =~= b@);
    true
}

/// Whether `s` ends with `suffix`.
pub open spec fn ends_with(s: Seq<u8>, suffix: Seq<u8>) -> bool {
    suffix.len() <= s.len() && s.skip(s.len() - suffix.len()) == suffix
}

/// Whether `s` ends with `suffix`.
pub fn bytes_end_with(s: &[u8], suffix: &[u8]) -> (r: bool)
    ensures
        r == ends_with(s@, suffix@),
{
    if suffix.len() > s.len() {
        return false;
    }
    let n = s.len();
    let off = n - suffix.len();
    let mut i: usize = 0;
    while i < suffix.len()
        invariant
            i <= suffix@.len(),
            n == s@.len(),
            off + suffix@.len() == n,
            forall|j: int| 0 <= j < i ==> s@[off + j] == suffix@[j],
        decreases suffix.len() - i,
    {
        if s[off + i] != suffix[i] {
            assert(s@.skip(off as int)[i as int] != suffix@[i as int]);
            return false;
        }
        i = i + 1;
    }
    assert(s@.skip(off as int) =~= suffix@);
    true
}

} // verus!
