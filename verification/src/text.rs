//! Character-sequence helpers: whitespace, trimming, searching and
//! splitting, each with a spec-level model and a verified executable
//! counterpart.

use vstd::prelude::*;

verus! {

/// The characters of Unicode's `White_Space` set, the set that trimming
/// strips from both ends of a piece of text.
pub open spec fn is_space(c: char) -> bool {
    let u = c as u32;
    u == 0x20 || (0x09 <= u && u <= 0x0D) || u == 0x85 || u == 0xA0 || u == 0x1680 || (0x2000
        <= u && u <= 0x200A) || u == 0x2028 || u == 0x2029 || u == 0x202F || u == 0x205F || u
        == 0x3000
}

/// Executable test for membership in the `White_Space` set.
pub fn is_space_char(c: char) -> (r: bool)
    ensures
        r == is_space(c),
{
    let u = c as u32;
    u == 0x20 || (0x09 <= u && u <= 0x0D) || u == 0x85 || u == 0xA0 || u == 0x1680 || (0x2000
        <= u && u <= 0x200A) || u == 0x2028 || u == 0x2029 || u == 0x202F || u == 0x205F || u
        == 0x3000
}

/// The sequence with its leading whitespace removed.
pub open spec fn trim_front(s: Seq<char>) -> Seq<char>
    decreases s.len(),
{
    if s.len() > 0 && is_space(s.first()) {
        trim_front(s.drop_first())
    } else {
        s
    }
}

/// The sequence with its trailing whitespace removed.
pub open spec fn trim_back(s: Seq<char>) -> Seq<char>
    decreases s.len(),
{
    if s.len() > 0 && is_space(s.last()) {
        trim_back(s.drop_last())
    } else {
        s
    }
}

/// The sequence with whitespace removed from both ends.
pub open spec fn trim(s: Seq<char>) -> Seq<char> {
    trim_back(trim_front(s))
}

/// A sequence that carries no whitespace at either end; trimming leaves
/// such a sequence unchanged.
pub open spec fn is_trimmed(s: Seq<char>) -> bool {
    s.len() == 0 || (!is_space(s.first()) && !is_space(s.last()))
}

/// If the first `i` characters are whitespace and position `i` (when it
/// exists) is not, then trimming the front keeps exactly the tail from `i`.
proof fn lemma_trim_front_at(s: Seq<char>, i: int)
    requires
        0 <= i <= s.len(),
        forall|k: int| 0 <= k < i ==> is_space(s[k]),
        i == s.len() || !is_space(s[i]),
    ensures
        trim_front(s) == s.subrange(i, s.len() as int),
    decreases i,
{
    if i == 0 {
        assert(s.subrange(0, s.len() as int) =~= s);
    } else {
        let t = s.drop_first();
        lemma_trim_front_at(t, i - 1);
        assert(t.subrange(i - 1, t.len() as int) =~= s.subrange(i, s.len() as int));
    }
}

/// If every character from position `j` on is whitespace and position
/// `j - 1` (when it exists) is not, then trimming the back keeps exactly
/// the first `j` characters.
proof fn lemma_trim_back_at(s: Seq<char>, j: int)
    requires
        0 <= j <= s.len(),
        forall|k: int| j <= k < s.len() ==> is_space(s[k]),
        j == 0 || !is_space(s[j - 1]),
    ensures
        trim_back(s) == s.subrange(0, j),
    decreases s.len() - j,
{
    if j == s.len() {
        assert(s.subrange(0, j) =~= s);
    } else {
        let t = s.drop_last();
        lemma_trim_back_at(t, j);
        assert(t.subrange(0, j) =~= s.subrange(0, j));
    }
}

/// Trimming the front leaves no whitespace at the head.
proof fn lemma_trim_front_head(s: Seq<char>)
    ensures
        trim_front(s).len() > 0 ==> !is_space(trim_front(s).first()),
    decreases s.len(),
{
    if s.len() > 0 && is_space(s.first()) {
        lemma_trim_front_head(s.drop_first());
    }
}

/// Trimming the back leaves no whitespace at the end; it shortens the
/// sequence without touching its head.
proof fn lemma_trim_back_props(s: Seq<char>)
    ensures
        trim_back(s).len() > 0 ==> !is_space(trim_back(s).last()),
        trim_back(s).len() > 0 ==> s.len() > 0 && trim_back(s).first() == s.first(),
    decreases s.len(),
{
    if s.len() > 0 && is_space(s.last()) {
        lemma_trim_back_props(s.drop_last());
    }
}

/// What trimming yields carries no whitespace at either end.
pub proof fn lemma_trim_is_trimmed(s: Seq<char>)
    ensures
        is_trimmed(trim(s)),
{
    lemma_trim_front_head(s);
    lemma_trim_back_props(trim_front(s));
}

/// The position of the first occurrence of `c` in `s`, if any.
pub open spec fn find_first(s: Seq<char>, c: char) -> Option<int>
    decreases s.len(),
{
    if s.len() == 0 {
        None
    } else if s.first() == c {
        Some(0int)
    } else {
        match find_first(s.drop_first(), c) {
            Some(i) => Some(i + 1),
            None => None,
        }
    }
}

/// What `find_first` returns: the smallest position holding `c`, or
/// nothing when `c` does not occur at all.
pub proof fn lemma_find_first_props(s: Seq<char>, c: char)
    ensures
        match find_first(s, c) {
            Some(i) => 0 <= i < s.len() && s[i] == c && forall|k: int| 0 <= k < i ==> s[k] != c,
            None => forall|k: int| 0 <= k < s.len() ==> s[k] != c,
        },
    decreases s.len(),
{
    if s.len() > 0 && s.first() != c {
        let t = s.drop_first();
        lemma_find_first_props(t, c);
        match find_first(t, c) {
            Some(i0) => {
                assert(s[i0 + 1] == t[i0]);
                assert forall|k: int| 0 <= k < i0 + 1 implies s[k] != c by {
                    if k > 0 {
                        assert(s[k] == t[k - 1]);
                    }
                }
            },
            None => {
                assert forall|k: int| 0 <= k < s.len() implies s[k] != c by {
                    if k > 0 {
                        assert(s[k] == t[k - 1]);
                    }
                }
            },
        }
    }
}

/// A position holding `c`, before which `c` never occurs, is what
/// `find_first` returns.
pub proof fn lemma_find_first_some(s: Seq<char>, c: char, i: int)
    requires
        0 <= i < s.len(),
        s[i] == c,
        forall|k: int| 0 <= k < i ==> s[k] != c,
    ensures
        find_first(s, c) == Some(i),
    decreases i,
{
    if i > 0 {
        lemma_find_first_some(s.drop_first(), c, i - 1);
    }
}

/// When `c` occurs nowhere in `s`, `find_first` reports nothing.
pub proof fn lemma_find_first_none(s: Seq<char>, c: char)
    requires
        forall|k: int| 0 <= k < s.len() ==> s[k] != c,
    ensures
        find_first(s, c) is None,
    decreases s.len(),
{
    if s.len() > 0 {
        lemma_find_first_none(s.drop_first(), c);
    }
}

/// Finds the first occurrence of a character in a string.
pub fn find_char(s: &str, c: char) -> (r: Option<usize>)
    ensures
        match r {
            Some(i) => i < s@.len() && find_first(s@, c) == Some(i as int),
            None => find_first(s@, c) is None,
        },
{
    let n: usize = s.unicode_len();
    let mut i: usize = 0;
    while i < n
        invariant
            0 <= i <= n,
            n == s@.len(),
            forall|k: int| 0 <= k < i ==> s@[k] != c,
        decreases n - i,
    {
        if s.get_char(i) == c {
            proof {
                lemma_find_first_some(s@, c, i as int);
            }
            return Some(i);
        }
        i = i + 1;
    }
    proof {
        lemma_find_first_none(s@, c);
    }
    None
}

/// The segments of `s` between occurrences of the separator `c`, in
/// order, kept verbatim; a sequence with no separator is one segment.
pub open spec fn split_raw(s: Seq<char>, c: char) -> Seq<Seq<char>>
    decreases s.len(),
{
    if s.len() == 0 {
        seq![Seq::<char>::empty()]
    } else if s.first() == c {
        seq![Seq::<char>::empty()] + split_raw(s.drop_first(), c)
    } else {
        let rest = split_raw(s.drop_first(), c);
        seq![seq![s.first()] + rest.first()] + rest.drop_first()
    }
}

/// The segments of `s` between occurrences of `c`, each trimmed.
pub open spec fn split_trimmed(s: Seq<char>, c: char) -> Seq<Seq<char>> {
    split_raw(s, c).map_values(|t: Seq<char>| trim(t))
}

/// Splitting always produces at least one segment.
pub proof fn lemma_split_raw_len(s: Seq<char>, c: char)
    ensures
        split_raw(s, c).len() >= 1,
    decreases s.len(),
{
    if s.len() > 0 {
        lemma_split_raw_len(s.drop_first(), c);
    }
}

/// Splitting takes everything before the first separator as the first
/// segment and splits the remainder after it; with no separator the
/// whole sequence is the single segment.
pub proof fn lemma_split_raw_step(s: Seq<char>, c: char)
    ensures
        match find_first(s, c) {
            Some(i) => split_raw(s, c) == seq![s.subrange(0, i)] + split_raw(
                s.subrange(i + 1, s.len() as int),
                c,
            ),
            None => split_raw(s, c) == seq![s],
        },
    decreases s.len(),
{
    lemma_find_first_props(s, c);
    if s.len() == 0 {
        assert(s =~= Seq::<char>::empty());
    } else if s.first() == c {
        assert(s.subrange(0, 0) =~= Seq::<char>::empty());
        assert(s.subrange(1, s.len() as int) =~= s.drop_first());
        assert(split_raw(s, c) == seq![s.subrange(0, 0)] + split_raw(
            s.subrange(1, s.len() as int),
            c,
        ));
    } else {
        let t = s.drop_first();
        lemma_split_raw_step(t, c);
        lemma_split_raw_len(t, c);
        lemma_find_first_props(t, c);
        let rest = split_raw(t, c);
        match find_first(t, c) {
            Some(i0) => {
                assert(rest.first() == t.subrange(0, i0));
                assert(seq![s.first()] + t.subrange(0, i0) =~= s.subrange(0, i0 + 1));
                assert(rest.drop_first() =~= split_raw(t.subrange(i0 + 1, t.len() as int), c));
                assert(t.subrange(i0 + 1, t.len() as int) =~= s.subrange(i0 + 2, s.len() as int));
                assert(find_first(s, c) == Some(i0 + 1));
                assert(split_raw(s, c) =~= seq![s.subrange(0, i0 + 1)] + split_raw(
                    s.subrange(i0 + 2, s.len() as int),
                    c,
                ));
            },
            None => {
                assert(rest == seq![t]);
                assert(seq![s.first()] + t =~= s);
                assert(rest.drop_first() =~= Seq::<Seq<char>>::empty());
                assert(split_raw(s, c) =~= seq![s]);
            },
        }
    }
}

/// Splits a string on a separator character and trims each segment.
pub fn split_and_trim(s: &str, c: char) -> (r: Vec<String>)
    ensures
        r.deep_view() == split_trimmed(s@, c),
{
    let mut out: Vec<String> = Vec::new();
    let mut rest: &str = s;
    loop
        invariant
            split_trimmed(s@, c) =~= out.deep_view() + split_trimmed(rest@, c),
        decreases rest@.len(),
    {
        let n: usize = rest.unicode_len();
        let ghost prev = out.deep_view();
        match find_char(rest, c) {
            Some(i) => {
                let piece = trim_str(rest.substring_char(0, i));
                proof {
                    lemma_split_raw_step(rest@, c);
                }
                out.push(piece);
                let tail = rest.substring_char(i + 1, n);
                proof {
                    assert(out.deep_view() =~= prev.push(trim(rest@.subrange(0, i as int))));
                    assert(split_trimmed(rest@, c) =~= seq![trim(rest@.subrange(0, i as int))]
                        + split_trimmed(tail@, c));
                    assert(split_trimmed(s@, c) =~= out.deep_view() + split_trimmed(tail@, c));
                }
                rest = tail;
            },
            None => {
                let piece = trim_str(rest);
                proof {
                    lemma_split_raw_step(rest@, c);
                }
                out.push(piece);
                proof {
                    assert(split_trimmed(rest@, c) =~= seq![trim(rest@)]);
                    assert(out.deep_view() =~= prev.push(trim(rest@)));
                    assert(out.deep_view() =~= split_trimmed(s@, c));
                }
                return out;
            },
        }
    }
}

/// Trims whitespace from both ends of a string.
pub fn trim_str(s: &str) -> (r: String)
    ensures
        r@ == trim(s@),
{
    let n: usize = s.unicode_len();
    let mut i: usize = 0;
    while i < n && is_space_char(s.get_char(i))
        invariant
            0 <= i <= n,
            n == s@.len(),
            forall|k: int| 0 <= k < i ==> is_space(s@[k]),
        decreases n - i,
    {
        i = i + 1;
    }
    if i == n {
        proof {
            lemma_trim_front_at(s@, i as int);
            assert(s@.subrange(n as int, n as int) =~= Seq::<char>::empty());
        }
        return String::new();
    }
    let mut j: usize = n;
    while j > i && is_space_char(s.get_char(j - 1))
        invariant
            i <= j <= n,
            n == s@.len(),
            i < n,
            !is_space(s@[i as int]),
            forall|k: int| j <= k < n ==> is_space(s@[k]),
        decreases j,
    {
        j = j - 1;
    }
    let sub = s.substring_char(i, j);
    proof {
        lemma_trim_front_at(s@, i as int);
        let t = s@.subrange(i as int, n as int);
        lemma_trim_back_at(t, j - i as int);
        assert(t.subrange(0, j - i as int) =~= s@.subrange(i as int, j as int));
    }
    String::from_str(sub)
}

} // verus!
