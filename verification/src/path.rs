//! Path expressions: dollar-rooted addresses into a structured value, such as
//! `$.item1.level[1].id`, `$.animals.*.alligator['@phoneNumber']` or `$[*]`.
//! Rule categories key their rules by these expressions.

use vstd::prelude::*;

use crate::numbers::digits_value;
use crate::numbers::is_digit;
use crate::numbers::scan_digits;
use crate::numbers::spec_parse_u64;
use crate::strings::cat3;
use crate::strings::cat5;
use crate::strings::chars_to_string;
use crate::strings::find_sep;
use crate::strings::lemma_find_sep;
use crate::strings::str_to_chars;
use crate::strings::subvec;

verus! {

/// Ghost mirror of [`PathToken`].
pub enum PathTokenV {
    Root,
    Field(Seq<char>),
    Index(usize),
    Star,
    StarIndex,
}

/// One segment of a path expression.
#[derive(Debug, Clone)]
pub enum PathToken {
    /// The root token `$`.
    Root,
    /// A named field.
    Field(String),
    /// An integer index.
    Index(usize),
    /// The `*` wildcard, matching any field or index.
    Star,
    /// The `[*]` wildcard, matching any index.
    StarIndex,
}

impl View for PathToken {
    type V = PathTokenV;

    open spec fn view(&self) -> PathTokenV {
        match self {
            PathToken::Root => PathTokenV::Root,
            PathToken::Field(s) => PathTokenV::Field(s@),
            PathToken::Index(i) => PathTokenV::Index(*i),
            PathToken::Star => PathTokenV::Star,
            PathToken::StarIndex => PathTokenV::StarIndex,
        }
    }
}

impl DeepView for PathToken {
    type V = PathTokenV;

    open spec fn deep_view(&self) -> PathTokenV {
        self.view()
    }
}

/// A character that may continue an identifier in a path expression: ASCII
/// letters and digits, `_`, `-`, `:`, `#` and `@`.
pub open spec fn is_ident_char(c: char) -> bool {
    is_alnum(c) || c == '_' || c == '-' || c == ':' || c == '#' || c == '@'
}

/// An ASCII letter or digit.
pub open spec fn is_alnum(c: char) -> bool {
    (65 <= c as u32 && c as u32 <= 90) || (97 <= c as u32 && c as u32 <= 122) || is_digit(c)
}

fn char_is_alnum(c: char) -> (r: bool)
    ensures
        r == is_alnum(c),
{
    (65 <= c as u32 && c as u32 <= 90) || (97 <= c as u32 && c as u32 <= 122)
        || crate::numbers::char_is_digit(c)
}

fn char_is_ident(c: char) -> (r: bool)
    ensures
        r == is_ident_char(c),
{
    char_is_alnum(c) || c == '_' || c == '-' || c == ':' || c == '#' || c == '@'
}

/// First index at or after `from` holding a non-identifier character, or the
/// length.
pub open spec fn ident_end(s: Seq<char>, from: int) -> int
    decreases s.len() - from,
{
    if from < 0 || from >= s.len() || !is_ident_char(s[from]) {
        from
    } else {
        ident_end(s, from + 1)
    }
}

proof fn lemma_ident_end(s: Seq<char>, from: int)
    requires
        0 <= from <= s.len(),
    ensures
        from <= ident_end(s, from) <= s.len(),
    decreases s.len() - from,
{
    if from < s.len() && is_ident_char(s[from]) {
        lemma_ident_end(s, from + 1);
    }
}

fn ident_end_vec(v: &Vec<char>, from: usize) -> (r: usize)
    requires
        from <= v@.len(),
    ensures
        r as int == ident_end(v@, from as int),
        from <= r <= v@.len(),
    decreases v@.len() - from,
{
    proof {
        lemma_ident_end(v@, from as int);
    }
    if from < v.len() && char_is_ident(v[from]) {
        ident_end_vec(v, from + 1)
    } else {
        from
    }
}

/// Clamps `x` into `[lo, hi]`; the scanners stay in range, so on their
/// results this changes nothing, but it makes the definitions below total.
pub open spec fn clamp(x: int, lo: int, hi: int) -> int {
    if x < lo {
        lo
    } else if x > hi {
        hi
    } else {
        x
    }
}

pub open spec fn cons_opt(t: PathTokenV, rest: Option<Seq<PathTokenV>>) -> Option<
    Seq<PathTokenV>,
> {
    match rest {
        Some(r) => Some(seq![t] + r),
        None => None,
    }
}

/// The continuation of a path expression from index `i`: a sequence of
/// `.field`, `.*`, `['name']`, `[n]` and `[*]` parts up to the end.
pub open spec fn spec_path_exp(s: Seq<char>, i: int) -> Option<Seq<PathTokenV>>
    decreases s.len() - i, 2int,
{
    if i >= s.len() {
        Some(Seq::empty())
    } else if i < 0 {
        None
    } else if s[i] == '.' {
        spec_path_ident(s, i + 1)
    } else if s[i] == '[' {
        spec_bracket(s, i + 1)
    } else {
        None
    }
}

/// After a `.`: either the `*` wildcard or an identifier.
pub open spec fn spec_path_ident(s: Seq<char>, i: int) -> Option<Seq<PathTokenV>>
    decreases s.len() - i, 1int,
{
    if i < 0 || i >= s.len() {
        None
    } else if s[i] == '*' {
        cons_opt(PathTokenV::Star, spec_path_exp(s, i + 1))
    } else if is_ident_char(s[i]) {
        let j = clamp(ident_end(s, i + 1), i + 1, s.len() as int);
        if j < s.len() && !(s[j] == '.' || s[j] == '\'' || s[j] == '[') {
            None
        } else {
            cons_opt(PathTokenV::Field(s.subrange(i, j)), spec_path_exp(s, j))
        }
    } else {
        None
    }
}

/// After a `[`: a quoted field, an integer index or the `*` wildcard,
/// followed by `]`.
pub open spec fn spec_bracket(s: Seq<char>, i: int) -> Option<Seq<PathTokenV>>
    decreases s.len() - i, 1int,
{
    if i < 0 || i >= s.len() {
        None
    } else if s[i] == '\'' {
        let rel = find_sep(s.subrange(i + 1, s.len() as int), '\'');
        if rel < 0 {
            None
        } else {
            let q = clamp(i + 1 + rel, i + 1, s.len() as int - 1);
            if rel == 0 {
                None
            } else if q + 1 < s.len() && s[q + 1] == ']' {
                cons_opt(PathTokenV::Field(s.subrange(i + 1, q)), spec_path_exp(s, q + 2))
            } else {
                None
            }
        }
    } else if is_digit(s[i]) {
        let j = clamp(scan_digits(s, i + 1), i + 1, s.len() as int);
        if j < s.len() && s[j] == ']' && digits_value(s.subrange(i, j)) <= usize::MAX {
            cons_opt(
                PathTokenV::Index(digits_value(s.subrange(i, j)) as usize),
                spec_path_exp(s, j + 1),
            )
        } else {
            None
        }
    } else if s[i] == '*' {
        if i + 1 < s.len() && s[i + 1] == ']' {
            cons_opt(PathTokenV::StarIndex, spec_path_exp(s, i + 2))
        } else {
            None
        }
    } else {
        None
    }
}

/// The token sequence a path expression denotes, or `None` when the
/// expression is malformed. The empty expression denotes no tokens; an
/// expression may start with `$` or directly with an identifier, which
/// carries an implicit root.
pub open spec fn spec_parse_path(s: Seq<char>) -> Option<Seq<PathTokenV>> {
    if s.len() == 0 {
        Some(Seq::empty())
    } else if s[0] == '$' {
        cons_opt(PathTokenV::Root, spec_path_exp(s, 1))
    } else if is_alnum(s[0]) {
        let j = clamp(ident_end(s, 1), 1, s.len() as int);
        if j < s.len() && !(s[j] == '.' || s[j] == '\'' || s[j] == '[') {
            None
        } else {
            match spec_path_exp(s, j) {
                Some(rest) => Some(
                    seq![PathTokenV::Root, PathTokenV::Field(s.subrange(0, j))] + rest,
                ),
                None => None,
            }
        }
    } else {
        None
    }
}

fn cons_token(t: PathToken, rest: Vec<PathToken>) -> (r: Vec<PathToken>)
    ensures
        r.deep_view() == seq![t@] + rest.deep_view(),
{
    let ghost tv = t@;
    let ghost rest0 = rest;
    let mut r: Vec<PathToken> = Vec::new();
    r.push(t);
    let mut tail = rest;
    r.append(&mut tail);
    proof {
        assert forall|k: int| 0 <= k < r@.len() implies r.deep_view()[k] == (seq![tv]
            + rest0.deep_view())[k] by {
            if k == 0 {
                assert(r@[0]@ == tv);
            } else {
                assert(r@[k] == rest0@[k - 1]);
            }
        }
        assert(r.deep_view() =~= seq![tv] + rest0.deep_view());
    }
    r
}

fn rec_path_exp(v: &Vec<char>, i: usize) -> (r: Result<Vec<PathToken>, String>)
    requires
        i <= v@.len(),
    ensures
        match r {
            Ok(t) => spec_path_exp(v@, i as int) == Some(t.deep_view()),
            Err(_) => spec_path_exp(v@, i as int) is None,
        },
    decreases v@.len() - i, 2int,
{
    if i >= v.len() {
        let t: Vec<PathToken> = Vec::new();
        proof {
            assert(t.deep_view() =~= Seq::<PathTokenV>::empty());
        }
        Ok(t)
    } else if v[i] == '.' {
        rec_path_ident(v, i + 1)
    } else if v[i] == '[' {
        rec_bracket(v, i + 1)
    } else {
        Err(cat3("Expected a \".\" or \"[\" in path expression at index ",
            crate::numbers::usize_to_string(i).as_str(), ""))
    }
}

fn rec_path_ident(v: &Vec<char>, i: usize) -> (r: Result<Vec<PathToken>, String>)
    requires
        i <= v@.len(),
    ensures
        match r {
            Ok(t) => spec_path_ident(v@, i as int) == Some(t.deep_view()),
            Err(_) => spec_path_ident(v@, i as int) is None,
        },
    decreases v@.len() - i, 1int,
{
    if i >= v.len() {
        Err(String::from_str("Expected a path after \".\" in path expression"))
    } else if v[i] == '*' {
        match rec_path_exp(v, i + 1) {
            Ok(rest) => Ok(cons_token(PathToken::Star, rest)),
            Err(e) => Err(e),
        }
    } else if char_is_ident(v[i]) {
        let j = ident_end_vec(v, i + 1);
        proof {
            assert(j as int == clamp(ident_end(v@, i + 1), i + 1, v@.len() as int));
        }
        if j < v.len() && !(v[j] == '.' || v[j] == '\'' || v[j] == '[') {
            Err(String::from_str("A character that is not allowed in an identifier was found in the path expression"))
        } else {
            let name = subvec(v, i, j);
            match rec_path_exp(v, j) {
                Ok(rest) => Ok(cons_token(PathToken::Field(chars_to_string(&name)), rest)),
                Err(e) => Err(e),
            }
        }
    } else {
        Err(String::from_str("Expected either a \"*\" or a path identifier in the path expression"))
    }
}

fn rec_bracket(v: &Vec<char>, i: usize) -> (r: Result<Vec<PathToken>, String>)
    requires
        i <= v@.len(),
    ensures
        match r {
            Ok(t) => spec_bracket(v@, i as int) == Some(t.deep_view()),
            Err(_) => spec_bracket(v@, i as int) is None,
        },
    decreases v@.len() - i, 1int,
{
    if i >= v.len() {
        Err(String::from_str("Expected a \"'\" (single quote), a digit or a \"*\" after the \"[\" in the path expression"))
    } else if v[i] == '\'' {
        let suffix = subvec(v, i + 1, v.len());
        proof {
            lemma_find_sep(suffix@, '\'');
        }
        match crate::strings::find_sep_vec(&suffix, '\'') {
            None => Err(String::from_str("Unterminated string in the path expression")),
            Some(rel) => {
                if rel == 0 {
                    Err(String::from_str("Empty strings are not allowed in the path expression"))
                } else {
                    let q = i + 1 + rel;
                    proof {
                        assert(rel < suffix@.len());
                        assert(q as int == clamp(i + 1 + rel, i + 1, v@.len() as int - 1));
                    }
                    if q + 1 < v.len() && v[q + 1] == ']' {
                        let name = subvec(v, i + 1, q);
                        match rec_path_exp(v, q + 2) {
                            Ok(rest) => {
                                let out = cons_token(
                                    PathToken::Field(chars_to_string(&name)),
                                    rest,
                                );
                                proof {
                                    assert(spec_bracket(v@, i as int) == cons_opt(
                                        PathTokenV::Field(v@.subrange(i + 1, q as int)),
                                        spec_path_exp(v@, q + 2),
                                    ));
                                    assert(out.deep_view() == seq![
                                        PathTokenV::Field(v@.subrange(i + 1, q as int)),
                                    ] + rest.deep_view());
                                    assert(spec_bracket(v@, i as int) == Some(out.deep_view()));
                                }
                                Ok(out)
                            },
                            Err(e) => Err(e),
                        }
                    } else {
                        Err(String::from_str("Unterminated brackets in the path expression"))
                    }
                }
            },
        }
    } else if crate::numbers::char_is_digit(v[i]) {
        let j = crate::numbers::scan_digits_vec(v, i + 1);
        proof {
            assert(j as int == clamp(scan_digits(v@, i + 1), i + 1, v@.len() as int));
        }
        if j < v.len() && v[j] == ']' {
            let digits = subvec(v, i, j);
            proof {
                assert(crate::numbers::all_digits(digits@)) by {
                    assert(forall|k: int| i + 1 <= k < j ==> is_digit(#[trigger] v@[k])) by {
                        crate::numbers::lemma_scan_digits_range(v@, i + 1);
                    }
                    assert(forall|k: int| 0 <= k < digits@.len() ==> is_digit(
                        #[trigger] digits@[k],
                    ));
                }
            }
            match crate::numbers::parse_u64_chars(&digits) {
                Some(x) => {
                    if x <= usize::MAX as u64 {
                        match rec_path_exp(v, j + 1) {
                            Ok(rest) => {
                                let out = cons_token(PathToken::Index(x as usize), rest);
                                proof {
                                    crate::numbers::lemma_digits_value_nonneg(digits@);
                                    assert(digits@ == v@.subrange(i as int, j as int));
                                    assert(digits_value(v@.subrange(i as int, j as int)) == x as int);
                                    assert(spec_bracket(v@, i as int) == cons_opt(
                                        PathTokenV::Index(
                                            digits_value(v@.subrange(i as int, j as int)) as usize,
                                        ),
                                        spec_path_exp(v@, j + 1),
                                    ));
                                    assert(spec_bracket(v@, i as int) == Some(out.deep_view()));
                                }
                                Ok(out)
                            },
                            Err(e) => Err(e),
                        }
                    } else {
                        proof {
                            crate::numbers::lemma_digits_value_nonneg(digits@);
                            assert(spec_bracket(v@, i as int) is None);
                        }
                        Err(String::from_str("The index in the path expression is too large"))
                    }
                },
                None => {
                    proof {
                        assert(spec_bracket(v@, i as int) is None);
                    }
                    Err(String::from_str("The index in the path expression is too large"))
                },
            }
        } else {
            proof {
                assert(spec_bracket(v@, i as int) is None);
            }
            Err(String::from_str("Indexes can only consist of numbers or a \"*\" in the path expression"))
        }
    } else if v[i] == '*' {
        if i + 1 < v.len() && v[i + 1] == ']' {
            match rec_path_exp(v, i + 2) {
                Ok(rest) => Ok(cons_token(PathToken::StarIndex, rest)),
                Err(e) => Err(e),
            }
        } else {
            Err(String::from_str("Unterminated brackets in the path expression"))
        }
    } else {
        Err(String::from_str("Indexes can only consist of numbers or a \"*\" in the path expression"))
    }
}

/// Parses a path expression into its tokens; rejects malformed expressions.
/// Returns `Ok` exactly on the expressions that [`spec_parse_path`] accepts,
/// with exactly the tokens it denotes.
pub fn parse_path_exp(path: &str) -> (r: Result<Vec<PathToken>, String>)
    ensures
        match r {
            Ok(t) => spec_parse_path(path@) == Some(t.deep_view()),
            Err(_) => spec_parse_path(path@) is None,
        },
{
    let v = str_to_chars(path);
    if v.len() == 0 {
        let t: Vec<PathToken> = Vec::new();
        proof {
            assert(t.deep_view() =~= Seq::<PathTokenV>::empty());
        }
        Ok(t)
    } else if v[0] == '$' {
        match rec_path_exp(&v, 1) {
            Ok(rest) => Ok(cons_token(PathToken::Root, rest)),
            Err(e) => Err(e),
        }
    } else if char_is_alnum(v[0]) {
        let j = ident_end_vec(&v, 1);
        proof {
            assert(j as int == clamp(ident_end(v@, 1), 1, v@.len() as int));
        }
        if j < v.len() && !(v[j] == '.' || v[j] == '\'' || v[j] == '[') {
            Err(String::from_str("A character that is not allowed in an identifier was found in the path expression"))
        } else {
            let name = subvec(&v, 0, j);
            match rec_path_exp(&v, j) {
                Ok(rest) => {
                    let r = cons_token(
                        PathToken::Field(chars_to_string(&name)),
                        rest,
                    );
                    let rr = cons_token(PathToken::Root, r);
                    proof {
                        assert(rr.deep_view() =~= seq![
                            PathTokenV::Root,
                            PathTokenV::Field(v@.subrange(0, j as int)),
                        ] + rest.deep_view());
                    }
                    Ok(rr)
                },
                Err(e) => Err(e),
            }
        }
    } else {
        Err(cat5("Path expression \"", path, "\" does not start with a root marker \"", "$", "\""))
    }
}

} // verus!
