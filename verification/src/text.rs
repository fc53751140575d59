//! Strings as sequences of characters: searching, splitting and trimming.

use vstd::prelude::*;

verus! {

/// `String::push` appends the one character that it is given.
pub assume_specification[ String::push ](s: &mut String, c: char)
    ensures
        final(s)@ == old(s)@.push(c),
;

/// The characters of a string, in order.
pub fn chars_of(s: &str) -> (v: Vec<char>)
    ensures
        v@ == s@,
{
    let mut v: Vec<char> = Vec::new();
    for c in it: s.chars()
        invariant
            it.seq() == s@,
            v@ == s@.take(it.index() as int),
    {
        v.push(c);
        proof {
            assert(s@.take(it.index() + 1) =~= s@.take(it.index() as int).push(c));
        }
    }
    proof {
        assert(s@.take(s@.len() as int) =~= s@);
    }
    v
}

/// The string that is made of the given characters.
pub fn string_of(v: &[char]) -> (s: String)
    ensures
        s@ == v@,
{
    let mut s: String = String::new();
    let mut i: usize = 0;
    while i < v.len()
        invariant
            i <= v@.len(),
            s@ == v@.take(i as int),
        decreases v@.len() - i,
    {
        s.push(v[i]);
        proof {
            assert(v@.take(i + 1) =~= v@.take(i as int).push(v@[i as int]));
        }
        i = i + 1;
    }
    proof {
        assert(v@.take(v@.len() as int) =~= v@);
    }
    s
}

/// Whether two strings hold the same characters.
pub fn same(a: &str, b: &str) -> (r: bool)
    ensures
        r == (a@ == b@),
{
    let x = chars_of(a);
    let y = chars_of(b);
    if x.len() != y.len() {
        return false;
    }
    let mut i: usize = 0;
    while i < x.len()
        invariant
            x@ == a@,
            y@ == b@,
            x@.len() == y@.len(),
            i <= x@.len(),
            forall|k: int| 0 <= k < i ==> x@[k] == y@[k],
        decreases x@.len() - i,
    {
        if x[i] != y[i] {
            return false;
        }
        i = i + 1;
    }
    proof {
        assert(x@ =~= y@);
    }
    true
}

/// The texts of the given strings.
pub open spec fn names(v: Seq<String>) -> Seq<Seq<char>> {
    Seq::new(v.len(), |i: int| v[i]@)
}

// Searching.

/// The pattern `p` stands in `s` at index `i`.
pub open spec fn occurs_at(s: Seq<char>, p: Seq<char>, i: int) -> bool {
    0 <= i && i + p.len() <= s.len() && s.subrange(i, i + p.len()) == p
}

/// The pattern `p` stands somewhere in `s`.
pub open spec fn has(s: Seq<char>, p: Seq<char>) -> bool {
    exists|i: int| occurs_at(s, p, i)
}

/// The first index from `from` on at which `p` stands in `s`.
pub open spec fn first_from(s: Seq<char>, p: Seq<char>, from: int) -> Option<int>
    decreases s.len() - from + 1,
{
    if from + p.len() > s.len() {
        None
    } else if occurs_at(s, p, from) {
        Some(from)
    } else {
        first_from(s, p, from + 1)
    }
}

/// The first index at which `p` stands in `s`.
pub open spec fn first(s: Seq<char>, p: Seq<char>) -> Option<int> {
    first_from(s, p, 0)
}

/// `first_from` gives the least index at which the pattern stands, and none
/// only where the pattern stands nowhere from there on.
pub proof fn lemma_first_from(s: Seq<char>, p: Seq<char>, from: int)
    requires
        0 <= from,
    ensures
        match first_from(s, p, from) {
            Some(i) => from <= i && occurs_at(s, p, i) && forall|j: int|
                from <= j < i ==> !occurs_at(s, p, j),
            None => forall|j: int| from <= j ==> !occurs_at(s, p, j),
        },
    decreases s.len() - from + 1,
{
    if from + p.len() <= s.len() && !occurs_at(s, p, from) {
        lemma_first_from(s, p, from + 1);
    }
}

/// A pattern stands in a string exactly where its first index is found.
pub proof fn lemma_has_first(s: Seq<char>, p: Seq<char>)
    ensures
        has(s, p) == (first(s, p) is Some),
{
    lemma_first_from(s, p, 0);
}

/// Whether `p` stands in `s` at index `i`.
pub fn stands_at(s: &[char], p: &[char], i: usize) -> (r: bool)
    requires
        i <= s@.len(),
    ensures
        r == occurs_at(s@, p@, i as int),
{
    let n: usize = s.len();
    if p.len() > n - i {
        return false;
    }
    let mut k: usize = 0;
    while k < p.len()
        invariant
            n == s@.len(),
            i + p@.len() <= n,
            k <= p@.len(),
            forall|j: int| 0 <= j < k ==> s@[i + j] == p@[j],
        decreases p@.len() - k,
    {
        if s[i + k] != p[k] {
            proof {
                assert(s@.subrange(i as int, i + p@.len())[k as int] == s@[i + k]);
            }
            return false;
        }
        k = k + 1;
    }
    proof {
        assert(s@.subrange(i as int, i + p@.len()) =~= p@);
    }
    true
}

/// The first index from `from` on at which `p` stands in `s`.
pub fn find_from(s: &[char], p: &[char], from: usize) -> (r: Option<usize>)
    requires
        from <= s@.len(),
    ensures
        match r {
            Some(i) => first_from(s@, p@, from as int) == Some(i as int) && i + p@.len() <= s@.len(),
            None => first_from(s@, p@, from as int) is None,
        },
{
    let mut i: usize = from;
    loop
        invariant
            from <= i <= s@.len(),
            first_from(s@, p@, from as int) == first_from(s@, p@, i as int),
        decreases s@.len() - i,
    {
        if p.len() > s.len() - i {
            return None;
        }
        if stands_at(s, p, i) {
            return Some(i);
        }
        if i == s.len() {
            proof {
                assert(first_from(s@, p@, i + 1) is None);
            }
            return None;
        }
        i = i + 1;
    }
}

/// Whether the pattern stands anywhere in the string.
pub fn contains(s: &str, p: &str) -> (r: bool)
    ensures
        r == has(s@, p@),
{
    let v = chars_of(s);
    let q = chars_of(p);
    proof {
        lemma_has_first(s@, p@);
    }
    find_from(&v, &q, 0).is_some()
}

/// Whether the string begins with the pattern.
pub fn starts_with(s: &str, p: &str) -> (r: bool)
    ensures
        r == p@.is_prefix_of(s@),
{
    let v = chars_of(s);
    let q = chars_of(p);
    let r = stands_at(&v, &q, 0);
    proof {
        if p@.len() <= s@.len() {
            assert(s@.subrange(0, p@.len() as int) =~= s@.take(p@.len() as int));
        }
    }
    r
}

/// Whether the string ends with the pattern.
pub fn ends_with(s: &str, p: &str) -> (r: bool)
    ensures
        r == p@.is_suffix_of(s@),
{
    let v = chars_of(s);
    let q = chars_of(p);
    if q.len() > v.len() {
        return false;
    }
    stands_at(&v, &q, v.len() - q.len())
}

// Splitting.

/// The pieces of `s` between the occurrences of `p`, from the left, none of
/// which overlap.
pub open spec fn split_on(s: Seq<char>, p: Seq<char>) -> Seq<Seq<char>>
    decreases s.len(),
{
    match first(s, p) {
        Some(i) => if 0 <= i && 0 < p.len() && i + p.len() <= s.len() {
            seq![s.take(i)] + split_on(s.skip(i + p.len()), p)
        } else {
            seq![s]
        },
        None => seq![s],
    }
}

/// The characters of each of the given vectors.
pub open spec fn rows(v: Seq<Vec<char>>) -> Seq<Seq<char>> {
    Seq::new(v.len(), |i: int| v[i]@)
}

/// A copy of the characters from `from` up to `to`.
pub fn copy(s: &[char], from: usize, to: usize) -> (v: Vec<char>)
    requires
        from <= to <= s@.len(),
    ensures
        v@ == s@.subrange(from as int, to as int),
{
    let mut v: Vec<char> = Vec::new();
    let mut i: usize = from;
    while i < to
        invariant
            from <= i <= to <= s@.len(),
            v@ == s@.subrange(from as int, i as int),
        decreases to - i,
    {
        v.push(s[i]);
        proof {
            assert(s@.subrange(from as int, i + 1) =~= s@.subrange(from as int, i as int).push(
                s@[i as int],
            ));
        }
        i = i + 1;
    }
    v
}

/// Searching the rest of a string from its start is searching the string from
/// where the rest begins.
pub proof fn lemma_first_skip(s: Seq<char>, p: Seq<char>, pos: int, from: int)
    requires
        0 <= pos <= from,
        pos <= s.len(),
    ensures
        first_from(s, p, from) == (match first_from(s.skip(pos), p, from - pos) {
            Some(i) => Some(i + pos),
            None => None,
        }),
    decreases s.len() - from + 1,
{
    if from + p.len() <= s.len() {
        assert(s.skip(pos).subrange(from - pos, from - pos + p.len()) =~= s.subrange(
            from,
            from + p.len(),
        ));
        assert(occurs_at(s, p, from) == occurs_at(s.skip(pos), p, from - pos));
        if !occurs_at(s, p, from) {
            lemma_first_skip(s, p, pos, from + 1);
        }
    }
}

/// The pieces of a string between the occurrences of a pattern.
pub fn split(s: &[char], p: &[char]) -> (r: Vec<Vec<char>>)
    requires
        p@.len() > 0,
    ensures
        rows(r@) == split_on(s@, p@),
        r@.len() >= 1,
{
    let mut r: Vec<Vec<char>> = Vec::new();
    let mut pos: usize = 0;
    let n: usize = s.len();
    proof {
        assert(s@.skip(0) =~= s@);
        assert(rows(r@) =~= Seq::empty());
        assert(rows(r@) + split_on(s@, p@) =~= split_on(s@, p@));
    }
    loop
        invariant
            p@.len() > 0,
            n == s@.len(),
            pos <= n,
            rows(r@) + split_on(s@.skip(pos as int), p@) == split_on(s@, p@),
        decreases s@.len() - pos,
    {
        let ghost before = r@;
        proof {
            lemma_first_skip(s@, p@, pos as int, pos as int);
        }
        match find_from(s, p, pos) {
            Some(i) => {
                proof {
                    lemma_first_from(s@, p@, pos as int);
                }
                r.push(copy(s, pos, i));
                proof {
                    let rest = s@.skip(pos as int);
                    let at = i - pos;
                    assert(rest.take(at) =~= s@.subrange(pos as int, i as int));
                    assert(rest.skip(at + p@.len()) =~= s@.skip(i + p@.len()));
                    assert(rows(r@) =~= rows(before).push(rest.take(at)));
                    assert(rows(r@) + split_on(s@.skip(i + p@.len()), p@) =~= rows(before) + (seq![
                        rest.take(at),
                    ] + split_on(s@.skip(i + p@.len()), p@)));
                }
                pos = i + p.len();
            },
            None => {
                r.push(copy(s, pos, s.len()));
                proof {
                    assert(s@.subrange(pos as int, s@.len() as int) =~= s@.skip(pos as int));
                    assert(rows(r@) =~= rows(before) + seq![s@.skip(pos as int)]);
                }
                return r;
            },
        }
    }
}

// White space.

/// The characters with Unicode's White_Space property.
pub open spec fn white(c: char) -> bool {
    let n = c as u32;
    ||| 0x09 <= n <= 0x0d
    ||| n == 0x20
    ||| n == 0x85
    ||| n == 0xa0
    ||| n == 0x1680
    ||| 0x2000 <= n <= 0x200a
    ||| n == 0x2028
    ||| n == 0x2029
    ||| n == 0x202f
    ||| n == 0x205f
    ||| n == 0x3000
}

/// Whether the character is white space.
pub fn is_white(c: char) -> (r: bool)
    ensures
        r == white(c),
{
    let n: u32 = c as u32;
    (0x09 <= n && n <= 0x0d) || n == 0x20 || n == 0x85 || n == 0xa0 || n == 0x1680 || (0x2000 <= n
        && n <= 0x200a) || n == 0x2028 || n == 0x2029 || n == 0x202f || n == 0x205f || n == 0x3000
}

/// `s` without the white space that it begins with.
pub open spec fn trim_start(s: Seq<char>) -> Seq<char>
    decreases s.len(),
{
    if s.len() > 0 && white(s[0]) {
        trim_start(s.skip(1))
    } else {
        s
    }
}

/// `s` without the white space that it ends with.
pub open spec fn trim_end(s: Seq<char>) -> Seq<char>
    decreases s.len(),
{
    if s.len() > 0 && white(s[s.len() - 1]) {
        trim_end(s.take(s.len() - 1))
    } else {
        s
    }
}

/// `s` without the white space at both its ends.
pub open spec fn trimmed(s: Seq<char>) -> Seq<char> {
    trim_end(trim_start(s))
}

/// The index of the first character that is not white space.
pub fn white_prefix(s: &[char], from: usize) -> (n: usize)
    requires
        from <= s@.len(),
    ensures
        from <= n <= s@.len(),
        s@.skip(n as int) == trim_start(s@.skip(from as int)),
        n < s@.len() ==> !white(s@[n as int]),
{
    let mut n: usize = from;
    while n < s.len() && is_white(s[n])
        invariant
            from <= n <= s@.len(),
            trim_start(s@.skip(n as int)) == trim_start(s@.skip(from as int)),
        decreases s@.len() - n,
    {
        proof {
            assert(s@.skip(n as int).skip(1) =~= s@.skip(n + 1));
        }
        n = n + 1;
    }
    n
}

/// The characters without the white space at both ends.
pub fn trim_chars(s: &[char]) -> (r: Vec<char>)
    ensures
        r@ == trimmed(s@),
{
    let a = white_prefix(s, 0);
    let mut b: usize = s.len();
    proof {
        assert(s@.skip(0) =~= s@);
        assert(s@.subrange(a as int, b as int) =~= s@.skip(a as int));
    }
    while b > a && is_white(s[b - 1])
        invariant
            a <= b <= s@.len(),
            trim_end(s@.subrange(a as int, b as int)) == trimmed(s@),
        decreases b,
    {
        proof {
            let t = s@.subrange(a as int, b as int);
            assert(t.take(t.len() - 1) =~= s@.subrange(a as int, b - 1));
        }
        b = b - 1;
    }
    copy(s, a, b)
}

/// The string without the white space at both ends.
pub fn trim(s: &str) -> (r: String)
    ensures
        r@ == trimmed(s@),
{
    let v = chars_of(s);
    string_of(&trim_chars(&v))
}

/// Whether the string is empty or white space throughout.
pub fn is_blank(s: &str) -> (r: bool)
    ensures
        r == (trimmed(s@).len() == 0),
{
    let v = chars_of(s);
    trim_chars(&v).len() == 0
}

/// The number of characters before the first white space.
pub open spec fn word_len(s: Seq<char>) -> nat
    decreases s.len(),
{
    if s.len() > 0 && !white(s[0]) {
        1 + word_len(s.skip(1))
    } else {
        0
    }
}

/// The runs of characters between white space.
pub open spec fn words(s: Seq<char>) -> Seq<Seq<char>>
    decreases s.len(),
{
    let t = trim_start(s);
    let n = word_len(t);
    if 0 < n <= t.len() && t.len() <= s.len() {
        seq![t.take(n as int)] + words(t.skip(n as int))
    } else {
        Seq::empty()
    }
}

proof fn lemma_trim_start_len(s: Seq<char>)
    ensures
        trim_start(s).len() <= s.len(),
    decreases s.len(),
{
    if s.len() > 0 && white(s[0]) {
        lemma_trim_start_len(s.skip(1));
    }
}

/// The runs of characters between white space.
pub fn split_words(s: &[char]) -> (r: Vec<Vec<char>>)
    ensures
        rows(r@) == words(s@),
{
    let mut r: Vec<Vec<char>> = Vec::new();
    let mut pos: usize = 0;
    proof {
        assert(s@.skip(0) =~= s@);
        assert(rows(r@) + words(s@) =~= words(s@));
    }
    loop
        invariant
            pos <= s@.len(),
            rows(r@) + words(s@.skip(pos as int)) == words(s@),
        decreases s@.len() - pos,
    {
        let ghost before = r@;
        let a = white_prefix(s, pos);
        let ghost rest = s@.skip(a as int);
        proof {
            lemma_trim_start_len(s@.skip(pos as int));
        }
        if a == s.len() {
            proof {
                assert(rows(r@) + words(s@.skip(pos as int)) =~= rows(r@));
            }
            return r;
        }
        let mut b: usize = a;
        while b < s.len() && !is_white(s[b])
            invariant
                a <= b <= s@.len(),
                rest == s@.skip(a as int),
                word_len(rest) == (b - a) + word_len(s@.skip(b as int)),
            decreases s@.len() - b,
        {
            proof {
                assert(s@.skip(b as int).skip(1) =~= s@.skip(b + 1));
            }
            b = b + 1;
        }
        proof {
            assert(word_len(rest) == b - a);
            assert(b > a) by {
                assert(!white(rest[0]));
            }
            assert(rest.take(b - a) =~= s@.subrange(a as int, b as int));
            assert(rest.skip(b - a) =~= s@.skip(b as int));
        }
        r.push(copy(s, a, b));
        proof {
            assert(rows(r@) =~= rows(before).push(rest.take(b - a)));
            assert(rows(r@) + words(s@.skip(b as int)) =~= rows(before) + (seq![rest.take(b - a)]
                + words(s@.skip(b as int))));
        }
        pos = b;
    }
}

// What holds of searching, splitting and trimming.

/// A pattern stands in a text exactly if the text is the pattern with something
/// before it and something after it.
pub proof fn law_pattern_stands_between_two_texts(s: Seq<char>, p: Seq<char>)
    ensures
        has(s, p) <==> exists|a: Seq<char>, b: Seq<char>| s == #[trigger] (a + p + b),
{
    if has(s, p) {
        let i = choose|i: int| occurs_at(s, p, i);
        let a = s.take(i);
        let b = s.skip(i + p.len());
        assert(s.subrange(i, i + p.len()) == p);
        assert(s =~= a + p + b) by {
            assert forall|k: int| 0 <= k < s.len() implies s[k] == (a + p + b)[k] by {
                if i <= k < i + p.len() {
                    assert(s.subrange(i, i + p.len())[k - i] == s[k]);
                }
            }
        }
    }
    if exists|a: Seq<char>, b: Seq<char>| s == #[trigger] (a + p + b) {
        let (a, b) = choose|a: Seq<char>, b: Seq<char>| s == #[trigger] (a + p + b);
        let n = a.len() as int;
        assert(s.subrange(n, n + p.len()) =~= p);
        assert(occurs_at(s, p, n));
    }
}

/// The first place of a pattern is one at which the text reads as the pattern,
/// and there is none before it. There is no first place only where there is no
/// place at all.
pub proof fn law_first_place_is_the_least(s: Seq<char>, p: Seq<char>)
    ensures
        match first(s, p) {
            Some(i) => {
                &&& 0 <= i <= s.len() - p.len()
                &&& s.subrange(i, i + p.len()) == p
                &&& forall|j: int| 0 <= j < i ==> #[trigger] s.subrange(j, j + p.len()) != p
            },
            None => forall|j: int|
                0 <= j <= s.len() - p.len() ==> #[trigger] s.subrange(j, j + p.len()) != p,
        },
{
    lemma_first_from(s, p, 0);
    match first(s, p) {
        Some(i) => {
            assert forall|j: int| 0 <= j < i implies #[trigger] s.subrange(j, j + p.len()) != p by {
                assert(!occurs_at(s, p, j));
            }
        },
        None => {
            assert forall|j: int| 0 <= j <= s.len() - p.len() implies #[trigger] s.subrange(j, j + p.len())
                != p by {
                assert(!occurs_at(s, p, j));
            }
        },
    }
}

/// The pieces with the pattern between each two of them.
pub open spec fn join(pieces: Seq<Seq<char>>, p: Seq<char>) -> Seq<char>
    decreases pieces.len(),
{
    if pieces.len() == 0 {
        Seq::empty()
    } else if pieces.len() == 1 {
        pieces[0]
    } else {
        pieces[0] + p + join(pieces.skip(1), p)
    }
}

/// The pieces into which a text is split, joined again, give the whole text, and
/// none of them has the pattern in it.
pub proof fn law_pieces_join_to_the_text(s: Seq<char>, p: Seq<char>)
    requires
        p.len() > 0,
    ensures
        split_on(s, p).len() > 0,
        join(split_on(s, p), p) == s,
        forall|i: int| 0 <= i < split_on(s, p).len() ==> !(has(#[trigger] split_on(s, p)[i], p)),
    decreases s.len(),
{
    lemma_first_from(s, p, 0);
    match first(s, p) {
        Some(i) => {
            let rest = s.skip(i + p.len());
            let more = split_on(rest, p);
            let all = split_on(s, p);
            law_pieces_join_to_the_text(rest, p);
            assert(all == seq![s.take(i)] + more);
            assert(all.skip(1) =~= more);
            assert(s.subrange(i, i + p.len()) == p);
            assert(s =~= s.take(i) + p + rest) by {
                assert forall|k: int| 0 <= k < s.len() implies s[k] == (s.take(i) + p + rest)[k] by {
                    if i <= k < i + p.len() {
                        assert(s.subrange(i, i + p.len())[k - i] == s[k]);
                    }
                }
            }
            assert forall|k: int| 0 <= k < all.len() implies !(has(#[trigger] all[k], p)) by {
                if k == 0 {
                    if has(s.take(i), p) {
                        let j = choose|j: int| occurs_at(s.take(i), p, j);
                        assert(s.subrange(j, j + p.len()) =~= s.take(i).subrange(j, j + p.len()));
                        assert(occurs_at(s, p, j));
                    }
                } else {
                    assert(all[k] == more[k - 1]);
                }
            }
        },
        None => {
            assert(split_on(s, p) == seq![s]);
            assert(!(has(s, p))) by {
                if has(s, p) {
                    let j = choose|j: int| occurs_at(s, p, j);
                    assert(occurs_at(s, p, j));
                }
            }
        },
    }
}

proof fn lemma_split_at_first(x: Seq<char>, p: Seq<char>, rest: Seq<char>)
    requires
        p.len() > 0,
        !x.contains(p[0]),
    ensures
        split_on(x + p + rest, p) == seq![x] + split_on(rest, p),
{
    let s = x + p + rest;
    let n = x.len() as int;
    assert(first(s, p) == Some(n)) by {
        lemma_first_from(s, p, 0);
        assert(s.subrange(n, n + p.len()) =~= p);
        assert(occurs_at(s, p, n));
        let i = first(s, p)->0;
        assert(first(s, p) is Some && 0 <= i <= n);
        if i < n {
            assert(s.subrange(i, i + p.len())[0] == p[0]);
            assert(x[i] == p[0]);
        }
    }
    assert(s.take(n) =~= x);
    assert(s.skip(n + p.len()) =~= rest);
}

proof fn lemma_split_none(x: Seq<char>, p: Seq<char>)
    requires
        p.len() > 0,
        !x.contains(p[0]),
    ensures
        split_on(x, p) == seq![x],
{
    lemma_first_from(x, p, 0);
    assert forall|j: int| 0 <= j implies !occurs_at(x, p, j) by {
        if occurs_at(x, p, j) {
            assert(x.subrange(j, j + p.len())[0] == p[0]);
            assert(x[j] == p[0]);
        }
    }
}

/// Pieces that were joined with a pattern are what the whole is split into, as
/// many as there are, where none of them holds the first character of the
/// pattern.
pub proof fn law_splitting_undoes_joining(pieces: Seq<Seq<char>>, p: Seq<char>)
    requires
        p.len() > 0,
        pieces.len() > 0,
        forall|i: int| 0 <= i < pieces.len() ==> !(#[trigger] pieces[i]).contains(p[0]),
    ensures
        split_on(join(pieces, p), p) == pieces,
    decreases pieces.len(),
{
    let x = pieces[0];
    if pieces.len() == 1 {
        lemma_split_none(x, p);
        assert(pieces =~= seq![x]);
    } else {
        let more = pieces.skip(1);
        assert forall|i: int| 0 <= i < more.len() implies !(#[trigger] more[i]).contains(p[0]) by {
            assert(more[i] == pieces[i + 1]);
        }
        law_splitting_undoes_joining(more, p);
        lemma_split_at_first(x, p, join(more, p));
        assert(pieces =~= seq![x] + more);
    }
}

proof fn lemma_trim_start(s: Seq<char>) -> (i: int)
    ensures
        0 <= i <= s.len(),
        trim_start(s) == s.skip(i),
        forall|k: int| 0 <= k < i ==> white(#[trigger] s[k]),
        i < s.len() ==> !white(s[i]),
    decreases s.len(),
{
    if s.len() > 0 && white(s[0]) {
        let j = lemma_trim_start(s.skip(1));
        assert(s.skip(1).skip(j) =~= s.skip(j + 1));
        assert forall|k: int| 0 <= k < j + 1 implies white(#[trigger] s[k]) by {
            if k > 0 {
                assert(s.skip(1)[k - 1] == s[k]);
            }
        }
        j + 1
    } else {
        assert(s.skip(0) =~= s);
        0
    }
}

proof fn lemma_trim_end(s: Seq<char>) -> (j: int)
    ensures
        0 <= j <= s.len(),
        trim_end(s) == s.take(j),
        forall|k: int| j <= k < s.len() ==> white(#[trigger] s[k]),
        j > 0 ==> !white(s[j - 1]),
    decreases s.len(),
{
    if s.len() > 0 && white(s[s.len() - 1]) {
        let t = s.take(s.len() - 1);
        let j = lemma_trim_end(t);
        assert(t.take(j) =~= s.take(j));
        assert forall|k: int| j <= k < s.len() implies white(#[trigger] s[k]) by {
            if k < s.len() - 1 {
                assert(t[k] == s[k]);
            }
        }
        j
    } else {
        assert(s.take(s.len() as int) =~= s);
        s.len() as int
    }
}

/// Trimming takes away white space at the ends and nothing else: the text is
/// what is left of it with white space before and after, and what is left
/// neither begins nor ends with white space.
pub proof fn law_trimming_takes_white_space_at_the_ends(s: Seq<char>)
    ensures
        exists|i: int, j: int|
            0 <= i <= j <= s.len() && trimmed(s) == #[trigger] s.subrange(i, j) && (forall|k: int|
                0 <= k < i || j <= k < s.len() ==> white(#[trigger] s[k])),
        trimmed(s).len() > 0 ==> !white(trimmed(s)[0]) && !white(trimmed(s)[trimmed(s).len() - 1]),
        trimmed(s).len() == 0 <==> forall|k: int| 0 <= k < s.len() ==> white(#[trigger] s[k]),
{
    let i = lemma_trim_start(s);
    let t = s.skip(i);
    let n = lemma_trim_end(t);
    let j = i + n;
    assert(t.take(n) =~= s.subrange(i, j));
    assert forall|k: int| 0 <= k < i || j <= k < s.len() implies white(#[trigger] s[k]) by {
        if k >= j {
            assert(t[k - i] == s[k]);
        }
    }
    assert(trimmed(s) == s.subrange(i, j));
    if n > 0 {
        assert(t[0] == s[i]);
        assert(t[n - 1] == s[j - 1]);
        assert(!white(s[i]));
    }
}

proof fn lemma_words_by_trim_start(a: Seq<char>, b: Seq<char>)
    requires
        trim_start(a) == trim_start(b),
    ensures
        words(a) == words(b),
{
    lemma_trim_start_len(a);
    lemma_trim_start_len(b);
}

proof fn lemma_word_len(a: Seq<char>, tail: Seq<char>)
    requires
        tail.len() > 0,
        white(tail[0]),
    ensures
        word_len(a) <= a.len(),
        word_len(a + tail) == word_len(a),
    decreases a.len(),
{
    let s = a + tail;
    if a.len() > 0 {
        assert(s.skip(1) =~= a.skip(1) + tail);
        lemma_word_len(a.skip(1), tail);
    } else {
        assert(s =~= tail);
    }
}

/// The words of two texts with white space between them are the words of the
/// one and then those of the other.
pub proof fn law_words_are_parted_by_white_space(a: Seq<char>, c: char, b: Seq<char>)
    requires
        white(c),
    ensures
        words(a + seq![c] + b) == words(a) + words(b),
    decreases a.len(),
{
    let s = a + seq![c] + b;
    let tail = seq![c] + b;
    assert(s =~= a + tail);
    if a.len() == 0 {
        assert(s.skip(1) =~= b);
        lemma_words_by_trim_start(s, b);
        assert(words(a) =~= Seq::empty());
        assert(words(a) + words(b) =~= words(b));
    } else if white(a[0]) {
        let x = a.skip(1);
        law_words_are_parted_by_white_space(x, c, b);
        assert(s.skip(1) =~= x + seq![c] + b);
        lemma_words_by_trim_start(s, x + seq![c] + b);
        lemma_words_by_trim_start(a, x);
    } else {
        let n = word_len(a);
        lemma_word_len(a, tail);
        assert(n > 0);
        let x = a.skip(n as int);
        law_words_are_parted_by_white_space(x, c, b);
        assert(s.skip(n as int) =~= x + seq![c] + b);
        assert(s.take(n as int) =~= a.take(n as int));
        assert(words(s) == seq![s.take(n as int)] + words(s.skip(n as int)));
        assert(words(a) == seq![a.take(n as int)] + words(x));
        assert(words(s) =~= words(a) + words(b));
    }
}

/// A run of characters without white space is one word, and no characters are
/// none.
pub proof fn law_run_without_white_space_is_a_word(w: Seq<char>)
    requires
        forall|i: int| 0 <= i < w.len() ==> !white(#[trigger] w[i]),
    ensures
        words(w) == (if w.len() > 0 {
            seq![w]
        } else {
            Seq::empty()
        }),
{
    lemma_whole_word(w);
    if w.len() > 0 {
        assert(!white(w[0]));
        assert(w.take(w.len() as int) =~= w);
        assert(w.skip(w.len() as int) =~= Seq::empty());
        assert(words(w.skip(w.len() as int)) =~= Seq::empty());
        assert(words(w) =~= seq![w]);
    }
}

proof fn lemma_whole_word(w: Seq<char>)
    requires
        forall|i: int| 0 <= i < w.len() ==> !white(#[trigger] w[i]),
    ensures
        word_len(w) == w.len(),
    decreases w.len(),
{
    if w.len() > 0 {
        let x = w.skip(1);
        assert(!white(w[0]));
        assert forall|i: int| 0 <= i < x.len() implies !white(#[trigger] x[i]) by {
            assert(x[i] == w[i + 1]);
        }
        lemma_whole_word(x);
    }
}

/// The white space of ASCII, and the characters of ASCII that are none.
pub proof fn law_white_space_of_ascii(c: char)
    requires
        c <= '\u{7f}',
    ensures
        white(c) <==> c == ' ' || c == '\t' || c == '\n' || c == '\u{b}' || c == '\u{c}' || c == '\r',
{
}

/// The characters of white space are these twenty-five and no others.
pub proof fn law_white_space(c: char)
    ensures
        white(c) <==> "\t\n\u{b}\u{c}\r \u{85}\u{a0}\u{1680}\u{2000}\u{2001}\u{2002}\u{2003}\u{2004}\u{2005}\u{2006}\u{2007}\u{2008}\u{2009}\u{200a}\u{2028}\u{2029}\u{202f}\u{205f}\u{3000}"@.contains(
            c,
        ),
{
    reveal_strlit(
        "\t\n\u{b}\u{c}\r \u{85}\u{a0}\u{1680}\u{2000}\u{2001}\u{2002}\u{2003}\u{2004}\u{2005}\u{2006}\u{2007}\u{2008}\u{2009}\u{200a}\u{2028}\u{2029}\u{202f}\u{205f}\u{3000}",
    );
    let all = "\t\n\u{b}\u{c}\r \u{85}\u{a0}\u{1680}\u{2000}\u{2001}\u{2002}\u{2003}\u{2004}\u{2005}\u{2006}\u{2007}\u{2008}\u{2009}\u{200a}\u{2028}\u{2029}\u{202f}\u{205f}\u{3000}"@;
    if white(c) {
        let n = c as u32;
        let k: int = if n <= 0x0d {
            n - 9
        } else if n == 0x20 {
            5
        } else if n == 0x85 {
            6
        } else if n == 0xa0 {
            7
        } else if n == 0x1680 {
            8
        } else if n <= 0x200a {
            9 + (n - 0x2000)
        } else if n == 0x2028 {
            20
        } else if n == 0x2029 {
            21
        } else if n == 0x202f {
            22
        } else if n == 0x205f {
            23
        } else {
            24
        };
        assert(all[k] == c);
    }
}

/// The texts of strings stand in the order of the strings, one for one.
pub proof fn law_texts_of_strings(v: Seq<String>, rows_of: Seq<Vec<char>>, i: int)
    ensures
        names(v).len() == v.len(),
        0 <= i < v.len() ==> names(v)[i] == v[i]@,
        rows(rows_of).len() == rows_of.len(),
        0 <= i < rows_of.len() ==> rows(rows_of)[i] == rows_of[i]@,
{
}

} // verus!
