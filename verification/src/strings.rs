//! Character-level utilities for the matching engine: trimming, splitting,
//! joining, substring search, ASCII case folding and lexicographic ordering.
//! Everything is specified over `Seq<char>` views.

use vstd::prelude::*;
use vstd::string::StrSliceExecFns;
use vstd::string::StringExecFns;

verus! {

/// The characters treated as whitespace when values are trimmed.
pub open spec fn is_space(c: char) -> bool {
    c == ' ' || c == '\t' || c == '\n' || c == '\r'
}

pub fn char_is_space(c: char) -> (r: bool)
    ensures
        r == is_space(c),
{
    c == ' ' || c == '\t' || c == '\n' || c == '\r'
}

/// ASCII lower-casing of a single character; other characters are unchanged.
pub open spec fn lower_char(c: char) -> char {
    if 65 <= c as u32 && c as u32 <= 90 {
        (((c as u32) + 32) as u8) as char
    } else {
        c
    }
}

pub fn char_to_lower(c: char) -> (r: char)
    ensures
        r == lower_char(c),
{
    if 65 <= c as u32 && c as u32 <= 90 {
        (((c as u32) + 32) as u8) as char
    } else {
        c
    }
}

/// ASCII lower-casing of a character sequence.
pub open spec fn lower_seq(s: Seq<char>) -> Seq<char> {
    Seq::new(s.len(), |i: int| lower_char(s[i]))
}

pub fn lower_chars(v: &Vec<char>) -> (r: Vec<char>)
    ensures
        r@ == lower_seq(v@),
{
    let mut r: Vec<char> = Vec::new();
    let mut i: usize = 0;
    while i < v.len()
        invariant
            i <= v@.len(),
            r@ == lower_seq(v@).subrange(0, i as int),
        decreases v@.len() - i,
    {
        r.push(char_to_lower(v[i]));
        i += 1;
        proof {
            assert(r@ =~= lower_seq(v@).subrange(0, i as int));
        }
    }
    proof {
        assert(lower_seq(v@).subrange(0, v@.len() as int) =~= lower_seq(v@));
    }
    r
}

/// The characters of a string slice, in order.
pub fn str_to_chars(s: &str) -> (r: Vec<char>)
    ensures
        r@ == s@,
{
    let n = s.unicode_len();
    let mut r: Vec<char> = Vec::new();
    let mut i: usize = 0;
    while i < n
        invariant
            n == s@.len(),
            i <= n,
            r@ == s@.subrange(0, i as int),
        decreases n - i,
    {
        r.push(s.get_char(i));
        i += 1;
        proof {
            assert(r@ =~= s@.subrange(0, i as int));
        }
    }
    proof {
        assert(s@.subrange(0, n as int) =~= s@);
    }
    r
}

/// Relies on `String`'s `FromIterator` impl from std: collecting characters
/// yields the string made of exactly those characters, in order.
#[verifier::external_body]
pub fn chars_to_string(v: &Vec<char>) -> (r: String)
    ensures
        r@ == v@,
{
    v.iter().collect()
}

/// Copy of the character range `[from, to)`.
pub fn subvec(v: &Vec<char>, from: usize, to: usize) -> (r: Vec<char>)
    requires
        from <= to <= v@.len(),
    ensures
        r@ == v@.subrange(from as int, to as int),
{
    let mut r: Vec<char> = Vec::new();
    let mut i: usize = from;
    while i < to
        invariant
            from <= i <= to <= v@.len(),
            r@ == v@.subrange(from as int, i as int),
        decreases to - i,
    {
        r.push(v[i]);
        i += 1;
        proof {
            assert(r@ =~= v@.subrange(from as int, i as int));
        }
    }
    r
}

pub fn eq_chars(a: &Vec<char>, b: &Vec<char>) -> (r: bool)
    ensures
        r == (a@ == b@),
{
    if a.len() != b.len() {
        proof {
            assert(a@ != b@);
        }
        return false;
    }
    let mut i: usize = 0;
    while i < a.len()
        invariant
            a@.len() == b@.len(),
            i <= a@.len(),
            forall|j: int| 0 <= j < i ==> a@[j] == b@[j],
        decreases a@.len() - i,
    {
        if a[i] != b[i] {
            return false;
        }
        i += 1;
    }
    proof {
        assert(a@ =~= b@);
    }
    true
}

/// Equality of two string slices, decided character by character.
pub fn str_eq(a: &str, b: &str) -> (r: bool)
    ensures
        r == (a@ == b@),
{
    let va = str_to_chars(a);
    let vb = str_to_chars(b);
    eq_chars(&va, &vb)
}

/// A string with leading and trailing whitespace removed.
pub open spec fn trimmed(s: Seq<char>) -> Seq<char>
    decreases s.len(),
{
    if s.len() > 0 && is_space(s[0]) {
        trimmed(s.subrange(1, s.len() as int))
    } else if s.len() > 0 && is_space(s[s.len() - 1]) {
        trimmed(s.subrange(0, s.len() - 1))
    } else {
        s
    }
}

pub fn trim_chars(v: &Vec<char>) -> (r: Vec<char>)
    ensures
        r@ == trimmed(v@),
    decreases v@.len(),
{
    if v.len() > 0 && char_is_space(v[0]) {
        let mut w = v.clone();
        proof {
            assert(w@ =~= v@);
        }
        w.remove(0);
        proof {
            assert(w@ =~= v@.subrange(1, v@.len() as int));
        }
        trim_chars(&w)
    } else if v.len() > 0 && char_is_space(v[v.len() - 1]) {
        let mut w = v.clone();
        proof {
            assert(w@ =~= v@);
        }
        w.pop();
        proof {
            assert(w@ =~= v@.subrange(0, v@.len() - 1));
        }
        trim_chars(&w)
    } else {
        let r = v.clone();
        proof {
            assert(r@ =~= v@);
        }
        r
    }
}

/// Index of the first occurrence of `sep`, or -1 when it does not occur.
pub open spec fn find_sep(s: Seq<char>, sep: char) -> int
    decreases s.len(),
{
    if s.len() == 0 {
        -1
    } else if s[0] == sep {
        0
    } else {
        let r = find_sep(s.subrange(1, s.len() as int), sep);
        if r < 0 {
            -1
        } else {
            r + 1
        }
    }
}

pub proof fn lemma_find_sep(s: Seq<char>, sep: char)
    ensures
        find_sep(s, sep) >= 0 ==> {
            &&& find_sep(s, sep) < s.len()
            &&& s[find_sep(s, sep)] == sep
            &&& forall|j: int| 0 <= j < find_sep(s, sep) ==> s[j] != sep
        },
        find_sep(s, sep) < 0 ==> find_sep(s, sep) == -1 && (forall|j: int|
            0 <= j < s.len() ==> s[j] != sep),
    decreases s.len(),
{
    if s.len() == 0 {
    } else if s[0] == sep {
    } else {
        let t = s.subrange(1, s.len() as int);
        lemma_find_sep(t, sep);
        assert(forall|j: int| 1 <= j < s.len() ==> s[j] == t[j - 1]);
    }
}

/// Splitting on a separator character, as `str::split` does: the separator is
/// dropped, empty pieces are kept, and the empty string yields one empty piece.
pub open spec fn split_on(s: Seq<char>, sep: char) -> Seq<Seq<char>>
    decreases s.len(),
{
    let i = find_sep(s, sep);
    if 0 <= i && i < s.len() {
        seq![s.subrange(0, i)] + split_on(s.subrange(i + 1, s.len() as int), sep)
    } else {
        seq![s]
    }
}

pub proof fn lemma_chars_deep_view(v: Vec<char>)
    ensures
        v.deep_view() == v@,
{
    assert(v.deep_view() =~= v@);
}

pub fn find_sep_vec(v: &Vec<char>, sep: char) -> (r: Option<usize>)
    ensures
        match r {
            Some(i) => find_sep(v@, sep) == i as int,
            None => find_sep(v@, sep) == -1,
        },
{
    proof {
        lemma_find_sep(v@, sep);
    }
    let mut i: usize = 0;
    while i < v.len()
        invariant
            i <= v@.len(),
            forall|j: int| 0 <= j < i ==> v@[j] != sep,
            find_sep(v@, sep) >= 0 ==> {
                &&& find_sep(v@, sep) < v@.len()
                &&& v@[find_sep(v@, sep)] == sep
                &&& forall|j: int| 0 <= j < find_sep(v@, sep) ==> v@[j] != sep
            },
            find_sep(v@, sep) < 0 ==> find_sep(v@, sep) == -1 && (forall|j: int|
                0 <= j < v@.len() ==> v@[j] != sep),
        decreases v@.len() - i,
    {
        if v[i] == sep {
            proof {
                if find_sep(v@, sep) < i as int {
                    assert(v@[find_sep(v@, sep)] == sep);
                }
                if find_sep(v@, sep) > i as int {
                    assert(v@[i as int] != sep);
                }
            }
            return Some(i);
        }
        i += 1;
    }
    None
}

pub fn split_chars(v: &Vec<char>, sep: char) -> (r: Vec<Vec<char>>)
    ensures
        r.deep_view() == split_on(v@, sep),
    decreases v@.len(),
{
    match find_sep_vec(v, sep) {
        None => {
            let mut r: Vec<Vec<char>> = Vec::new();
            let w = v.clone();
            proof {
                assert(w@ =~= v@);
                lemma_chars_deep_view(w);
            }
            r.push(w);
            proof {
                assert(r.deep_view() =~= split_on(v@, sep));
            }
            r
        },
        Some(i) => {
            proof {
                lemma_find_sep(v@, sep);
                assert(i < v.len());
            }
            let head = subvec(v, 0, i);
            let tail = subvec(v, i + 1, v.len());
            let mut r: Vec<Vec<char>> = Vec::new();
            proof {
                lemma_chars_deep_view(head);
            }
            r.push(head);
            let mut rest = split_chars(&tail, sep);
            r.append(&mut rest);
            proof {
                assert(split_on(v@, sep) == seq![v@.subrange(0, i as int)] + split_on(
                    v@.subrange(i + 1, v@.len() as int),
                    sep,
                ));
                assert(r.deep_view() =~= split_on(v@, sep));
            }
            r
        },
    }
}

/// Each piece of `split_on`, trimmed.
pub open spec fn split_trimmed(s: Seq<char>, sep: char) -> Seq<Seq<char>> {
    split_on(s, sep).map_values(|p: Seq<char>| trimmed(p))
}

pub fn split_trim_chars(v: &Vec<char>, sep: char) -> (r: Vec<Vec<char>>)
    ensures
        r.deep_view() == split_trimmed(v@, sep),
{
    let pieces = split_chars(v, sep);
    let mut r: Vec<Vec<char>> = Vec::new();
    let mut i: usize = 0;
    while i < pieces.len()
        invariant
            i <= pieces@.len(),
            pieces.deep_view() == split_on(v@, sep),
            r@.len() == i,
            forall|j: int| 0 <= j < i ==> r.deep_view()[j] == split_trimmed(v@, sep)[j],
        decreases pieces@.len() - i,
    {
        let t = trim_chars(&pieces[i]);
        proof {
            lemma_chars_deep_view(pieces@[i as int]);
            assert(pieces@[i as int]@ == pieces.deep_view()[i as int]);
            lemma_chars_deep_view(t);
        }
        let ghost r0 = r;
        r.push(t);
        i += 1;
        proof {
            assert forall|j: int| 0 <= j < i implies r.deep_view()[j] == split_trimmed(v@, sep)[j] by {
                if j == i - 1 {
                    assert(r@[j] == t);
                    assert(r.deep_view()[j] == t.deep_view());
                } else {
                    assert(r@[j] == r0@[j]);
                    assert(r.deep_view()[j] == r0@[j].deep_view());
                    assert(r0.deep_view()[j] == r0@[j].deep_view());
                }
            }
        }
    }
    proof {
        assert(split_trimmed(v@, sep).len() == split_on(v@, sep).len());
        assert(r.deep_view() =~= split_trimmed(v@, sep));
    }
    r
}

/// Whether `sub` occurs in `s` starting at index `i`.
pub open spec fn is_substr_at(s: Seq<char>, sub: Seq<char>, i: int) -> bool {
    0 <= i && i + sub.len() <= s.len() && s.subrange(i, i + sub.len() as int) == sub
}

/// Whether `sub` occurs anywhere in `s`.
pub open spec fn contains_seq(s: Seq<char>, sub: Seq<char>) -> bool {
    exists|i: int| is_substr_at(s, sub, i)
}

fn starts_at(v: &Vec<char>, sub: &Vec<char>, i: usize) -> (r: bool)
    requires
        i + sub@.len() <= v@.len(),
    ensures
        r == is_substr_at(v@, sub@, i as int),
{
    let n = v.len();
    let mut j: usize = 0;
    while j < sub.len()
        invariant
            i + sub@.len() <= v@.len(),
            n == v@.len(),
            j <= sub@.len(),
            forall|k: int| 0 <= k < j ==> v@[i + k] == sub@[k],
        decreases sub@.len() - j,
    {
        proof {
            assert(i + j < n);
        }
        if v[i + j] != sub[j] {
            proof {
                assert(v@.subrange(i as int, i + sub@.len() as int)[j as int] != sub@[j as int]);
            }
            return false;
        }
        j += 1;
    }
    proof {
        assert(v@.subrange(i as int, i + sub@.len() as int) =~= sub@);
    }
    true
}

pub fn contains_chars(v: &Vec<char>, sub: &Vec<char>) -> (r: bool)
    ensures
        r == contains_seq(v@, sub@),
{
    if sub.len() > v.len() {
        proof {
            assert(forall|i: int| !is_substr_at(v@, sub@, i));
        }
        return false;
    }
    let last = v.len() - sub.len();
    let mut i: usize = 0;
    loop
        invariant
            sub@.len() <= v@.len(),
            last == v@.len() - sub@.len(),
            i <= last,
            forall|k: int| 0 <= k < i ==> !is_substr_at(v@, sub@, k),
        decreases last - i,
    {
        if starts_at(v, sub, i) {
            return true;
        }
        if i == last {
            proof {
                assert(forall|k: int| is_substr_at(v@, sub@, k) ==> 0 <= k <= last);
            }
            return false;
        }
        i += 1;
    }
}

/// Lexicographic order on character sequences, by Unicode scalar value.
pub open spec fn lex_le(a: Seq<char>, b: Seq<char>) -> bool
    decreases a.len(),
{
    if a.len() == 0 {
        true
    } else if b.len() == 0 {
        false
    } else if (a[0] as u32) < (b[0] as u32) {
        true
    } else if a[0] != b[0] {
        false
    } else {
        lex_le(a.subrange(1, a.len() as int), b.subrange(1, b.len() as int))
    }
}

pub fn chars_le(a: &Vec<char>, b: &Vec<char>) -> (r: bool)
    ensures
        r == lex_le(a@, b@),
    decreases a@.len(),
{
    if a.len() == 0 {
        true
    } else if b.len() == 0 {
        false
    } else if (a[0] as u32) < (b[0] as u32) {
        true
    } else if a[0] != b[0] {
        false
    } else {
        let ta = subvec(a, 1, a.len());
        let tb = subvec(b, 1, b.len());
        chars_le(&ta, &tb)
    }
}

/// The pieces joined with `sep` between them; the empty piece list yields the
/// empty string.
pub open spec fn join_with(parts: Seq<Seq<char>>, sep: Seq<char>) -> Seq<char>
    decreases parts.len(),
{
    if parts.len() == 0 {
        Seq::empty()
    } else if parts.len() == 1 {
        parts[0]
    } else {
        parts[0] + sep + join_with(parts.subrange(1, parts.len() as int), sep)
    }
}

pub fn join_strings(parts: &Vec<String>, sep: &str) -> (r: String)
    ensures
        r@ == join_with(parts.deep_view(), sep@),
    decreases parts@.len(),
{
    if parts.len() == 0 {
        String::new()
    } else {
        let mut r = parts[0].clone();
        let mut i: usize = 1;
        while i < parts.len()
            invariant
                1 <= i <= parts@.len(),
                r@ == join_with(parts.deep_view().subrange(0, i as int), sep@),
            decreases parts@.len() - i,
        {
            r.append(sep);
            r.append(parts[i].as_str());
            i += 1;
            proof {
                lemma_join_step(parts.deep_view(), sep@, i as int);
            }
        }
        proof {
            assert(parts.deep_view().subrange(0, parts.deep_view().len() as int)
                =~= parts.deep_view());
        }
        r
    }
}

proof fn lemma_join_step(parts: Seq<Seq<char>>, sep: Seq<char>, i: int)
    requires
        2 <= i <= parts.len(),
    ensures
        join_with(parts.subrange(0, i), sep) == join_with(parts.subrange(0, i - 1), sep) + sep
            + parts[i - 1],
    decreases i,
{
    if i == 2 {
        let p2 = parts.subrange(0, 2);
        let single = p2.subrange(1, 2);
        assert(single =~= seq![parts[1]]);
        assert(single.len() == 1);
        assert(join_with(single, sep) == single[0]);
        assert(single[0] == parts[1]);
        assert(p2.len() == 2);
        assert(join_with(p2, sep) == p2[0] + sep + join_with(p2.subrange(1, 2), sep));
        assert(p2[0] == parts[0]);
        assert(join_with(parts.subrange(0, 1), sep) == parts.subrange(0, 1)[0]);
        assert(parts.subrange(0, 1)[0] == parts[0]);
    } else {
        let tail = parts.subrange(1, parts.len() as int);
        lemma_join_step(tail, sep, i - 1);
        assert(parts.subrange(0, i).subrange(1, i) =~= tail.subrange(0, i - 1));
        assert(parts.subrange(0, i - 1).subrange(1, i - 1) =~= tail.subrange(0, i - 2));
        assert(parts.subrange(0, i)[0] == parts[0]);
        assert(parts.subrange(0, i - 1)[0] == parts[0]);
        assert(tail[i - 2] == parts[i - 1]);
        assert(join_with(parts.subrange(0, i), sep) == parts[0] + sep + join_with(
            tail.subrange(0, i - 1),
            sep,
        ));
        assert(join_with(tail.subrange(0, i - 1), sep) == join_with(tail.subrange(0, i - 2), sep)
            + sep + tail[i - 2]);
        assert(join_with(parts.subrange(0, i - 1), sep) == parts[0] + sep + join_with(
            tail.subrange(0, i - 2),
            sep,
        )) by {
            assert(parts.subrange(0, i - 1).len() >= 2);
        }
        assert((parts[0] + sep + (join_with(tail.subrange(0, i - 2), sep) + sep + tail[i - 2]))
            =~= (parts[0] + sep + join_with(tail.subrange(0, i - 2), sep)) + sep + parts[i - 1]);
    }
}

/// Two string slices concatenated.
pub fn cat2(a: &str, b: &str) -> (r: String)
    ensures
        r@ == a@ + b@,
{
    let mut s = String::from_str(a);
    s.append(b);
    s
}

pub fn cat3(a: &str, b: &str, c: &str) -> (r: String)
    ensures
        r@ == a@ + b@ + c@,
{
    let mut s = String::from_str(a);
    s.append(b);
    s.append(c);
    s
}

pub fn cat4(a: &str, b: &str, c: &str, d: &str) -> (r: String)
    ensures
        r@ == a@ + b@ + c@ + d@,
{
    let mut s = String::from_str(a);
    s.append(b);
    s.append(c);
    s.append(d);
    s
}

pub fn cat5(a: &str, b: &str, c: &str, d: &str, e: &str) -> (r: String)
    ensures
        r@ == a@ + b@ + c@ + d@ + e@,
{
    let mut s = String::from_str(a);
    s.append(b);
    s.append(c);
    s.append(d);
    s.append(e);
    s
}

pub fn cat6(a: &str, b: &str, c: &str, d: &str, e: &str, f: &str) -> (r: String)
    ensures
        r@ == a@ + b@ + c@ + d@ + e@ + f@,
{
    let mut s = String::from_str(a);
    s.append(b);
    s.append(c);
    s.append(d);
    s.append(e);
    s.append(f);
    s
}

} // verus!
