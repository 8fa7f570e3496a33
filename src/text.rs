use vstd::prelude::*;

verus! {

broadcast use vstd::string::group_string_axioms;

/// Number of consecutive `c` characters in `s` starting at position `i`.
pub open spec fn run_from(s: Seq<char>, c: char, i: int) -> nat
    decreases s.len() - i,
{
    if 0 <= i < s.len() && s[i] == c {
        1 + run_from(s, c, i + 1)
    } else {
        0
    }
}

/// Length of the run of `c` that opens `s`.
pub open spec fn leading_run(s: Seq<char>, c: char) -> nat {
    run_from(s, c, 0)
}

/// Position of the first `c` in `s` at or after `i`, or `s.len()` when there is none.
pub open spec fn first_from(s: Seq<char>, c: char, i: int) -> int
    decreases s.len() - i,
{
    if i >= s.len() {
        s.len() as int
    } else if s[i] == c {
        i
    } else {
        first_from(s, c, i + 1)
    }
}

/// Position of the last `c` among the first `n` characters of `s`, or -1 when there is none.
pub open spec fn last_before(s: Seq<char>, c: char, n: int) -> int
    decreases n,
{
    if n <= 0 {
        -1
    } else if s[n - 1] == c {
        n - 1
    } else {
        last_before(s, c, n - 1)
    }
}

/// Position of the last `c` in `s`, or -1 when there is none.
pub open spec fn last_index_of(s: Seq<char>, c: char) -> int {
    last_before(s, c, s.len() as int)
}

/// The position after `i`, or `i` itself where `i` has reached the end of `s`.
pub open spec fn step(s: Seq<char>, i: int) -> int {
    if i < s.len() {
        i + 1
    } else {
        i
    }
}

/// `i`, moved past one `c` when `s` holds a `c` there.
pub open spec fn skip_char(s: Seq<char>, c: char, i: int) -> int {
    if 0 <= i < s.len() && s[i] == c {
        i + 1
    } else {
        i
    }
}

/// `i`, moved past one space when `s` holds a space there.
pub open spec fn skip_space(s: Seq<char>, i: int) -> int {
    skip_char(s, ' ', i)
}

/// What follows an optional leading marker `c` and one optional space after it.
pub open spec fn after_marker(s: Seq<char>, c: char) -> Seq<char> {
    s.subrange(skip_space(s, skip_char(s, c, 0)), s.len() as int)
}

/// `needle` stands somewhere in `hay` as a contiguous piece.
pub open spec fn occurs_in(needle: Seq<char>, hay: Seq<char>) -> bool {
    exists|i: int|
        0 <= i && i + needle.len() <= hay.len() && #[trigger] hay.subrange(i, i + needle.len())
            == needle
}

/// `first_from` stays between its starting point and the end of the sequence.
pub proof fn lemma_first_from_bounds(s: Seq<char>, c: char, i: int)
    requires
        0 <= i <= s.len(),
    ensures
        i <= first_from(s, c, i) <= s.len(),
    decreases s.len() - i,
{
    if i < s.len() && s[i] != c {
        lemma_first_from_bounds(s, c, i + 1);
    }
}

/// Relies on `String::push`: the character is appended at the end of the string.
#[verifier::external_body]
fn push_char(s: &mut String, c: char)
    ensures
        final(s)@ == old(s)@.push(c),
{
    s.push(c);
}

/// The characters of `s`, in order, as a vector.
pub fn chars_of(s: &str) -> (v: Vec<char>)
    ensures
        v@ == s@,
{
    let mut v: Vec<char> = Vec::new();
    for c in it: s.chars()
        invariant
            it.seq() == s@,
            v@ == it.seq().take(it.index() as int),
    {
        v.push(c);
    }
    assert(v@ =~= s@);
    v
}

/// A string holding the characters of `v` from `from` up to, not including, `to`.
pub fn string_of(v: &Vec<char>, from: usize, to: usize) -> (r: String)
    requires
        from <= to <= v.len(),
    ensures
        r@ == v@.subrange(from as int, to as int),
{
    let mut r = String::new();
    let mut i = from;
    while i < to
        invariant
            from <= i <= to <= v.len(),
            r@ == v@.subrange(from as int, i as int),
        decreases to - i,
    {
        push_char(&mut r, v[i]);
        assert(v@.subrange(from as int, i + 1) =~= v@.subrange(from as int, i as int).push(v@[i as int]));
        i = i + 1;
    }
    r
}

/// Position `i`, moved past one `c` when `v` holds a `c` there.
pub fn skip_past(v: &Vec<char>, c: char, i: usize) -> (r: usize)
    requires
        i <= v.len(),
    ensures
        r == skip_char(v@, c, i as int),
        i <= r <= v.len(),
{
    if i < v.len() && v[i] == c {
        i + 1
    } else {
        i
    }
}

/// The position after `i`, or `i` itself where `i` has reached the end of `v`.
pub fn step_past(v: &Vec<char>, i: usize) -> (r: usize)
    requires
        i <= v.len(),
    ensures
        r == step(v@, i as int),
        i <= r <= v.len(),
{
    if i < v.len() {
        i + 1
    } else {
        i
    }
}

/// Position just past the run of `c` that starts at `i`, stopping after at most `cap` characters.
pub fn run_end(v: &Vec<char>, c: char, i: usize, cap: usize) -> (r: usize)
    requires
        i <= v.len(),
    ensures
        r == i + if run_from(v@, c, i as int) < cap { run_from(v@, c, i as int) } else { cap as nat },
        r <= v.len(),
{
    let mut j = i;
    while j < v.len() && j - i < cap && v[j] == c
        invariant
            i <= j <= v.len(),
            j - i <= cap,
            run_from(v@, c, i as int) == (j - i) + run_from(v@, c, j as int),
        decreases v.len() - j,
    {
        j = j + 1;
    }
    j
}

/// Position of the first `c` in `v` at or after `i`, or `v.len()` when there is none.
pub fn find_from(v: &Vec<char>, c: char, i: usize) -> (r: usize)
    ensures
        r == first_from(v@, c, i as int),
{
    let mut j = i;
    while j < v.len() && v[j] != c
        invariant
            i <= j,
            first_from(v@, c, i as int) == first_from(v@, c, j as int),
        decreases v.len() - j,
    {
        j = j + 1;
    }
    if j > v.len() {
        v.len()
    } else {
        j
    }
}

/// Position of the last `c` in `v`, if any.
pub fn find_last(v: &Vec<char>, c: char) -> (r: Option<usize>)
    ensures
        match r {
            Some(p) => p < v.len() && p as int == last_index_of(v@, c),
            None => last_index_of(v@, c) == -1,
        },
{
    let mut last: Option<usize> = None;
    let mut i: usize = 0;
    while i < v.len()
        invariant
            i <= v.len(),
            match last {
                Some(p) => p < i && p as int == last_before(v@, c, i as int),
                None => last_before(v@, c, i as int) == -1,
            },
        decreases v.len() - i,
    {
        if v[i] == c {
            last = Some(i);
        }
        i = i + 1;
    }
    last
}

/// Whether `needle` stands somewhere in `hay` as a contiguous piece.
pub fn occurs(needle: &Vec<char>, hay: &Vec<char>) -> (r: bool)
    ensures
        r == occurs_in(needle@, hay@),
{
    if needle.len() > hay.len() {
        return false;
    }
    let n = needle.len();
    let mut i: usize = 0;
    while i <= hay.len() - n
        invariant
            n == needle.len() <= hay.len(),
            i <= hay.len() - n + 1,
            forall|k: int| 0 <= k < i ==> #[trigger] hay@.subrange(k, k + n) != needle@,
        decreases hay.len() - i,
    {
        let mut j: usize = 0;
        while j < n && hay[i + j] == needle[j]
            invariant
                i + n <= hay.len(),
                j <= n == needle.len(),
                forall|m: int| 0 <= m < j ==> hay@[i + m] == needle@[m],
            decreases n - j,
        {
            j = j + 1;
        }
        if j == n {
            assert(hay@.subrange(i as int, i + n) =~= needle@);
            return true;
        }
        assert(hay@.subrange(i as int, i + n)[j as int] != needle@[j as int]);
        i = i + 1;
    }
    assert forall|k: int| 0 <= k && k + needle@.len() <= hay@.len() implies #[trigger] hay@.subrange(k, k + needle@.len()) != needle@ by {
        assert(k < i);
    }
    false
}

} // verus!
