//! Small verified helpers over `String` and `&str`.

use vstd::prelude::*;

verus! {

/// Relies on `String::push`: appends exactly the given character to the
/// end of the string.
#[verifier::external_body]
pub(crate) fn push_char(s: &mut String, c: char)
    ensures
        final(s)@ == old(s)@.push(c),
{
    s.push(c);
}

/// Character-for-character equality of two string slices.
pub fn str_eq(a: &str, b: &str) -> (r: bool)
    ensures
        r == (a@ == b@),
{
    let a_len = a.unicode_len();
    let b_len = b.unicode_len();
    if a_len != b_len {
        assert(a@ != b@) by {
            assert(a@.len() != b@.len());
        }
        return false;
    }
    let mut i: usize = 0;
    while i < a_len
        invariant
            a_len == a@.len(),
            b_len == b@.len(),
            a_len == b_len,
            0 <= i <= a_len,
            forall|j: int| 0 <= j < i ==> a@[j] == b@[j],
        decreases a_len - i,
    {
        if a.get_char(i) != b.get_char(i) {
            return false;
        }
        i = i + 1;
    }
    proof {
        assert(a@ =~= b@);
    }
    true
}

/// Whether a sequence of strings contains the given string.
pub open spec fn seq_contains_string(v: Seq<Seq<char>>, x: Seq<char>) -> bool {
    exists|i: int| 0 <= i < v.len() && v[i] == x
}

pub fn vec_contains_string(v: &Vec<String>, x: &str) -> (r: bool)
    ensures
        r == seq_contains_string(v.deep_view(), x@),
{
    let mut i: usize = 0;
    while i < v.len()
        invariant
            0 <= i <= v@.len(),
            forall|j: int| 0 <= j < i ==> v.deep_view()[j] != x@,
        decreases v@.len() - i,
    {
        assert(v.deep_view()[i as int] == v@[i as int]@);
        if str_eq(v[i].as_str(), x) {
            return true;
        }
        i = i + 1;
    }
    false
}

/// Element-for-element equality of two string vectors.
pub fn vec_string_eq(a: &Vec<String>, b: &Vec<String>) -> (r: bool)
    ensures
        r == (a.deep_view() == b.deep_view()),
{
    if a.len() != b.len() {
        assert(a.deep_view().len() != b.deep_view().len());
        return false;
    }
    let mut i: usize = 0;
    while i < a.len()
        invariant
            a@.len() == b@.len(),
            0 <= i <= a@.len(),
            forall|j: int| 0 <= j < i ==> a.deep_view()[j] == b.deep_view()[j],
        decreases a@.len() - i,
    {
        assert(a.deep_view()[i as int] == a@[i as int]@);
        assert(b.deep_view()[i as int] == b@[i as int]@);
        if !str_eq(a[i].as_str(), b[i].as_str()) {
            return false;
        }
        i = i + 1;
    }
    proof {
        assert(a.deep_view() =~= b.deep_view());
    }
    true
}

/// Equality of two optional strings.
pub fn opt_string_eq(a: &Option<String>, b: &Option<String>) -> (r: bool)
    ensures
        r == (a.deep_view() == b.deep_view()),
{
    match (a, b) {
        (None, None) => true,
        (Some(x), Some(y)) => str_eq(x.as_str(), y.as_str()),
        _ => false,
    }
}

/// Equality of two optional integers.
pub fn opt_u32_eq(a: &Option<u32>, b: &Option<u32>) -> (r: bool)
    ensures
        r == (*a == *b),
{
    match (a, b) {
        (None, None) => true,
        (Some(x), Some(y)) => *x == *y,
        _ => false,
    }
}

/// The position just after the last occurrence of `c` in `s`, or `None`
/// when `c` does not occur.
pub open spec fn last_index_of(s: Seq<char>, c: char) -> Option<int>
    decreases s.len(),
{
    if s.len() == 0 {
        None
    } else if s.last() == c {
        Some(s.len() - 1)
    } else {
        last_index_of(s.drop_last(), c)
    }
}

proof fn lemma_last_index_of_props(s: Seq<char>, c: char)
    ensures
        match last_index_of(s, c) {
            Some(i) => 0 <= i < s.len() && s[i] == c && forall|j: int| i < j < s.len() ==> s[j] != c,
            None => forall|j: int| 0 <= j < s.len() ==> s[j] != c,
        },
    decreases s.len(),
{
    if s.len() > 0 && s.last() != c {
        lemma_last_index_of_props(s.drop_last(), c);
        assert forall|j: int| 0 <= j < s.len() - 1 implies s.drop_last()[j] == s[j] by {}
    }
}

/// Mirror of splitting a string at the last occurrence of a separator:
/// the part before it and the part after it.
pub open spec fn rsplit_at(s: Seq<char>, c: char) -> Option<(Seq<char>, Seq<char>)> {
    match last_index_of(s, c) {
        None => None,
        Some(i) => Some((s.subrange(0, i), s.subrange(i + 1, s.len() as int))),
    }
}

/// Splits a string at the last occurrence of `c`, returning the parts
/// before and after the separator, as the standard `rsplit_once` does.
pub fn rsplit_once_at(s: &str, c: char) -> (r: Option<(String, String)>)
    ensures
        match (r, rsplit_at(s@, c)) {
            (None, None) => true,
            (Some(got), Some(parts)) => got.0@ == parts.0 && got.1@ == parts.1,
            _ => false,
        },
{
    proof {
        lemma_last_index_of_props(s@, c);
    }
    let len = s.unicode_len();
    if len == 0 {
        return None;
    }
    let mut i: usize = len;
    while i > 0
        invariant
            len == s@.len(),
            0 <= i <= len,
            forall|j: int| i <= j < len ==> s@[j] != c,
        decreases i,
    {
        if s.get_char(i - 1) == c {
            proof {
                lemma_last_index_of_props(s@, c);
                match last_index_of(s@, c) {
                    Some(k) => {
                        assert(k == i - 1);
                    },
                    None => {
                        assert(s@[i - 1] != c);
                        assert(false);
                    },
                }
            }
            let before = s.substring_char(0, i - 1);
            let after = s.substring_char(i, len);
            return Some((String::from_str(before), String::from_str(after)));
        }
        i = i - 1;
    }
    proof {
        match last_index_of(s@, c) {
            Some(k) => {
                assert(s@[k] != c);
                assert(false);
            },
            None => {},
        }
    }
    None
}

/// Whether `p` is a prefix of `s`.
pub open spec fn has_prefix(s: Seq<char>, p: Seq<char>) -> bool {
    p.len() <= s.len() && s.subrange(0, p.len() as int) == p
}

pub fn starts_with_str(s: &str, p: &str) -> (r: bool)
    ensures
        r == has_prefix(s@, p@),
{
    let s_len = s.unicode_len();
    let p_len = p.unicode_len();
    if p_len > s_len {
        return false;
    }
    let head = s.substring_char(0, p_len);
    let r = str_eq(head, p);
    proof {
        assert(head@ == s@.subrange(0, p@.len() as int));
    }
    r
}

/// Strips a prefix, as the standard `strip_prefix` does.
pub fn strip_prefix_str(s: &str, p: &str) -> (r: Option<String>)
    ensures
        has_prefix(s@, p@) ==> r is Some && r->0@ == s@.subrange(p@.len() as int, s@.len() as int),
        !has_prefix(s@, p@) ==> r is None,
{
    if starts_with_str(s, p) {
        let tail = s.substring_char(p.unicode_len(), s.unicode_len());
        Some(String::from_str(tail))
    } else {
        None
    }
}


/// The position of the first occurrence of `c` in `s`, or `None` when
/// `c` does not occur.
pub open spec fn first_index_of(s: Seq<char>, c: char) -> Option<int>
    decreases s.len(),
{
    if s.len() == 0 {
        None
    } else if s[0] == c {
        Some(0)
    } else {
        match first_index_of(s.drop_first(), c) {
            None => None,
            Some(i) => Some(i + 1),
        }
    }
}

pub proof fn lemma_first_index_of(s: Seq<char>, c: char)
    ensures
        match first_index_of(s, c) {
            Some(i) => 0 <= i < s.len() && s[i] == c && forall|j: int| 0 <= j < i ==> s[j] != c,
            None => forall|j: int| 0 <= j < s.len() ==> s[j] != c,
        },
    decreases s.len(),
{
    if s.len() > 0 && s[0] != c {
        lemma_first_index_of(s.drop_first(), c);
        match first_index_of(s.drop_first(), c) {
            Some(i) => {
                assert(s.drop_first()[i] == s[i + 1]);
                assert forall|j: int| 0 <= j < i + 1 implies s[j] != c by {
                    if j > 0 {
                        assert(s.drop_first()[j - 1] == s[j]);
                    }
                }
            },
            None => {
                assert forall|j: int| 0 <= j < s.len() implies s[j] != c by {
                    if j > 0 {
                        assert(s.drop_first()[j - 1] == s[j]);
                    }
                }
            },
        }
    }
}

/// Finds the first occurrence of `c` in `s`.
pub fn find_char(s: &str, c: char) -> (r: Option<usize>)
    ensures
        match r {
            Some(i) => first_index_of(s@, c) == Some(i as int),
            None => first_index_of(s@, c) is None,
        },
{
    proof {
        lemma_first_index_of(s@, c);
    }
    let len = s.unicode_len();
    let mut i: usize = 0;
    while i < len
        invariant
            len == s@.len(),
            0 <= i <= len,
            forall|j: int| 0 <= j < i ==> s@[j] != c,
        decreases len - i,
    {
        if s.get_char(i) == c {
            proof {
                lemma_first_index_of(s@, c);
                match first_index_of(s@, c) {
                    Some(k) => {
                        assert(k == i);
                    },
                    None => {
                        assert(false);
                    },
                }
            }
            return Some(i);
        }
        i = i + 1;
    }
    proof {
        lemma_first_index_of(s@, c);
        match first_index_of(s@, c) {
            Some(k) => {
                assert(s@[k] != c);
                assert(false);
            },
            None => {},
        }
    }
    None
}

/// Mirror of splitting a string at the first occurrence of a
/// separator.
pub open spec fn split_at_first(s: Seq<char>, c: char) -> Option<(Seq<char>, Seq<char>)> {
    match first_index_of(s, c) {
        None => None,
        Some(i) => Some((s.subrange(0, i), s.subrange(i + 1, s.len() as int))),
    }
}

/// Splits a string at the first occurrence of `c`, as the standard
/// `split_once` does.
pub fn split_once_at(s: &str, c: char) -> (r: Option<(String, String)>)
    ensures
        match (r, split_at_first(s@, c)) {
            (None, None) => true,
            (Some(got), Some(parts)) => got.0@ == parts.0 && got.1@ == parts.1,
            _ => false,
        },
{
    match find_char(s, c) {
        None => None,
        Some(i) => {
            proof {
                lemma_first_index_of(s@, c);
            }
            let len = s.unicode_len();
            let before = s.substring_char(0, i);
            let after = s.substring_char(i + 1, len);
            Some((String::from_str(before), String::from_str(after)))
        },
    }
}


/// An ASCII whitespace character.
pub open spec fn is_space(c: char) -> bool {
    c == ' ' || c == '\t' || c == '\n' || c == '\r'
}

/// The string without its leading characters satisfying `p`.
pub open spec fn trim_start_by(s: Seq<char>, p: spec_fn(char) -> bool) -> Seq<char>
    decreases s.len(),
{
    if s.len() > 0 && p(s[0]) {
        trim_start_by(s.drop_first(), p)
    } else {
        s
    }
}

/// The string without its trailing characters satisfying `p`.
pub open spec fn trim_end_by(s: Seq<char>, p: spec_fn(char) -> bool) -> Seq<char>
    decreases s.len(),
{
    if s.len() > 0 && p(s.last()) {
        trim_end_by(s.drop_last(), p)
    } else {
        s
    }
}

/// The string without leading and trailing characters satisfying `p`.
pub open spec fn trim_by(s: Seq<char>, p: spec_fn(char) -> bool) -> Seq<char> {
    trim_end_by(trim_start_by(s, p), p)
}

proof fn lemma_trim_start_by(s: Seq<char>, p: spec_fn(char) -> bool, k: int)
    requires
        0 <= k <= s.len(),
        forall|j: int| 0 <= j < k ==> p(#[trigger] s[j]),
        k < s.len() ==> !p(s[k]),
    ensures
        trim_start_by(s, p) == s.skip(k),
    decreases k,
{
    if k == 0 {
        assert(s.skip(0) =~= s);
    } else {
        assert(p(s[0]));
        assert forall|j: int| 0 <= j < k - 1 implies p(#[trigger] s.drop_first()[j]) by {
            assert(s.drop_first()[j] == s[j + 1]);
        }
        if k - 1 < s.drop_first().len() {
            assert(s.drop_first()[k - 1] == s[k]);
        }
        lemma_trim_start_by(s.drop_first(), p, k - 1);
        assert(s.drop_first().skip(k - 1) =~= s.skip(k));
    }
}

proof fn lemma_trim_end_by(s: Seq<char>, p: spec_fn(char) -> bool, k: int)
    requires
        0 <= k <= s.len(),
        forall|j: int| k <= j < s.len() ==> p(#[trigger] s[j]),
        k > 0 ==> !p(s[k - 1]),
    ensures
        trim_end_by(s, p) == s.take(k),
    decreases s.len() - k,
{
    if k == s.len() {
        assert(s.take(k) =~= s);
        if s.len() > 0 && p(s.last()) {
            assert(false);
        }
    } else {
        assert(p(s.last()));
        assert forall|j: int| k <= j < s.len() - 1 implies p(#[trigger] s.drop_last()[j]) by {
            assert(s.drop_last()[j] == s[j]);
        }
        if k > 0 {
            assert(s.drop_last()[k - 1] == s[k - 1]);
        }
        lemma_trim_end_by(s.drop_last(), p, k);
        assert(s.drop_last().take(k) =~= s.take(k));
    }
}

fn is_space_exec(c: char) -> (r: bool)
    ensures
        r == is_space(c),
{
    c == ' ' || c == '\t' || c == '\n' || c == '\r'
}

/// Removes leading and trailing ASCII whitespace, as the standard
/// `trim` does on such input.
pub fn trim_spaces(s: &str) -> (r: String)
    ensures
        r@ == trim_by(s@, |c: char| is_space(c)),
{
    trim_generic(s, ' ', true)
}

/// Removes leading and trailing occurrences of `c`, as the standard
/// `trim_matches` does.
pub fn trim_char(s: &str, c: char) -> (r: String)
    ensures
        r@ == trim_by(s@, |d: char| d == c),
{
    trim_generic(s, c, false)
}

fn trim_generic(s: &str, c: char, spaces: bool) -> (r: String)
    ensures
        spaces ==> r@ == trim_by(s@, |d: char| is_space(d)),
        !spaces ==> r@ == trim_by(s@, |d: char| d == c),
{
    let ghost p: spec_fn(char) -> bool = if spaces {
        |d: char| is_space(d)
    } else {
        |d: char| d == c
    };
    let len = s.unicode_len();
    let mut start: usize = 0;
    let mut start_done = false;
    while start < len && !start_done
        invariant
            forall|d: char| #[trigger] p(d) == (if spaces { is_space(d) } else { d == c }),
            len == s@.len(),
            0 <= start <= len,
            forall|j: int| 0 <= j < start ==> p(#[trigger] s@[j]),
            start_done ==> start < len && !p(s@[start as int]),
        decreases len - start, 1int - (if start_done { 1int } else { 0int }),
    {
        let ch = s.get_char(start);
        let hit = if spaces {
            is_space_exec(ch)
        } else {
            ch == c
        };
        if hit {
            start = start + 1;
        } else {
            start_done = true;
        }
    }
    proof {
        lemma_trim_start_by(s@, p, start as int);
    }
    let mut end: usize = len;
    let mut end_done = false;
    while end > start && !end_done
        invariant
            forall|d: char| #[trigger] p(d) == (if spaces { is_space(d) } else { d == c }),
            len == s@.len(),
            0 <= start <= end <= len,
            forall|j: int| 0 <= j < start ==> p(#[trigger] s@[j]),
            forall|j: int| end <= j < len ==> p(#[trigger] s@[j]),
            end_done ==> end > start && !p(s@[end - 1]),
        decreases end, 1int - (if end_done { 1int } else { 0int }),
    {
        let ch = s.get_char(end - 1);
        let hit = if spaces {
            is_space_exec(ch)
        } else {
            ch == c
        };
        if hit {
            end = end - 1;
        } else {
            end_done = true;
        }
    }
    let r = s.substring_char(start, end);
    proof {
        let mid = s@.skip(start as int);
        assert forall|j: int| end - start <= j < mid.len() implies p(#[trigger] mid[j]) by {
            assert(mid[j] == s@[j + start]);
        }
        if end > start {
            assert(mid[end - start - 1] == s@[end - 1]);
        }
        lemma_trim_end_by(mid, p, end - start);
        assert(mid.take(end - start) =~= s@.subrange(start as int, end as int));
    }
    String::from_str(r)
}

/// Lowers every ASCII capital in the string.
pub fn lowercase_ascii(s: &str) -> (r: String)
    ensures
        r@ == s@.map_values(|c: char| crate::codes::lower_char(c)),
{
    let len = s.unicode_len();
    let mut r = String::new();
    let mut i: usize = 0;
    while i < len
        invariant
            len == s@.len(),
            0 <= i <= len,
            r@ == s@.take(i as int).map_values(|c: char| crate::codes::lower_char(c)),
        decreases len - i,
    {
        let lowered = crate::codes::to_lower_char(s.get_char(i));
        push_char(&mut r, lowered);
        proof {
            assert(r@ =~= s@.take(i + 1).map_values(|c: char| crate::codes::lower_char(c)));
        }
        i = i + 1;
    }
    proof {
        assert(s@.take(len as int) =~= s@);
    }
    r
}

/// Replaces every occurrence of one character by another.
pub fn replace_char(s: &str, from: char, to: char) -> (r: String)
    ensures
        r@ == s@.map_values(|c: char| if c == from { to } else { c }),
{
    let len = s.unicode_len();
    let mut r = String::new();
    let mut i: usize = 0;
    while i < len
        invariant
            len == s@.len(),
            0 <= i <= len,
            r@ == s@.take(i as int).map_values(|c: char| if c == from { to } else { c }),
        decreases len - i,
    {
        let ch = s.get_char(i);
        push_char(&mut r, if ch == from { to } else { ch });
        proof {
            assert(r@ =~= s@.take(i + 1).map_values(
                |c: char| if c == from { to } else { c },
            ));
        }
        i = i + 1;
    }
    proof {
        assert(s@.take(len as int) =~= s@);
    }
    r
}

/// The segments a separator cuts a string into; a string without the
/// separator is one segment, and every separator starts a new one.
pub open spec fn split_seq(s: Seq<char>, c: char) -> Seq<Seq<char>>
    decreases s.len(),
{
    match first_index_of(s, c) {
        None => Seq::empty().push(s),
        Some(i) => if 0 <= i < s.len() {
            Seq::empty().push(s.subrange(0, i)) + split_seq(s.subrange(i + 1, s.len() as int), c)
        } else {
            Seq::empty()
        },
    }
}

/// Splits a string on every occurrence of `c`, as the standard `split`
/// does.
pub fn split_all(s: &str, c: char) -> (r: Vec<String>)
    ensures
        r.deep_view() == split_seq(s@, c),
    decreases s@.len(),
{
    proof {
        lemma_first_index_of(s@, c);
    }
    match split_once_at(s, c) {
        None => {
            let mut r: Vec<String> = Vec::new();
            r.push(String::from_str(s));
            proof {
                assert(r.deep_view() =~= split_seq(s@, c));
            }
            r
        },
        Some((head, tail)) => {
            let mut r: Vec<String> = Vec::new();
            r.push(head);
            let ghost head_part = r@;
            let mut rest = split_all(tail.as_str(), c);
            r.append(&mut rest);
            proof {
                assert forall|m: int| 0 <= m < r.deep_view().len() implies r.deep_view()[m]
                    == split_seq(s@, c)[m] by {
                    assert(r.deep_view()[m] == r@[m].deep_view());
                    if m == 0 {
                    } else {
                        assert(r@[m] == r@.skip(1)[m - 1]);
                        assert(r@.skip(1)[m - 1].deep_view() == split_seq(tail@, c)[m - 1]);
                    }
                }
                assert(r.deep_view() =~= split_seq(s@, c));
            }
            r
        },
    }
}

} // verus!
