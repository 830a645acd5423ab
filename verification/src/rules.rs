//! The rule model: matching rules, rule lists with `AND`/`OR` logic, rule
//! categories keyed by path expressions, and the weighted rule-selection
//! algorithm together with the matching context.

use vstd::prelude::*;

use crate::numbers::spec_parse_u64;
use crate::path::parse_path_exp;
use crate::path::spec_parse_path;
use crate::path::PathToken;
use crate::path::PathTokenV;
use crate::strings::str_eq;
use crate::strings::str_to_chars;
use crate::DiffConfig;

verus! {

/// How the rules of one list combine: all must pass, or any may pass.
#[derive(Debug, Clone, Copy, PartialEq, Eq, Structural)]
pub enum RuleLogic {
    /// Every rule in the list must pass.
    And,
    /// At least one rule in the list must pass.
    Or,
}

/// A class of HTTP status codes.
#[derive(Debug)]
pub enum HttpStatus {
    /// Informational responses (100 to 199).
    Information,
    /// Successful responses (200 to 299).
    Success,
    /// Redirects (300 to 399).
    Redirect,
    /// Client errors (400 to 499).
    ClientError,
    /// Server errors (500 to 599).
    ServerError,
    /// An explicit set of status codes.
    StatusCodes(Vec<u16>),
    /// Any non-error response (below 400).
    NonError,
    /// Any error response (400 and above).
    Error,
}

/// One matching rule.
#[derive(Debug)]
pub enum MatchingRule {
    /// Strict value equality.
    Equality,
    /// The actual value must match the regular expression.
    Regex(String),
    /// The actual value must have the same kind as the expected one.
    Type,
    /// Type matching; lists must have at least this many items.
    MinType(usize),
    /// Type matching; lists must have at most this many items.
    MaxType(usize),
    /// Type matching; list lengths must lie within both bounds.
    MinMaxType(usize, usize),
    /// The actual value must match the date-time format.
    Timestamp(String),
    /// The actual value must match the time format.
    Time(String),
    /// The actual value must match the date format.
    Date(String),
    /// The stringified actual value must contain the substring.
    Include(String),
    /// The actual value must be a number.
    Number,
    /// The actual value must be an integer.
    Integer,
    /// The actual value must be a decimal number.
    Decimal,
    /// The actual value must be the null sentinel.
    Null,
    /// The actual data must have the given content type.
    ContentType(String),
    /// Each variant (an index into the expected list and a rule category)
    /// must match at least one element of the actual list.
    ArrayContains(Vec<(usize, Matchers)>),
    /// On maps, ignore the keys and match every actual value against the
    /// expected entries; elsewhere an alias of equality.
    Values,
    /// The actual value must be a boolean, or the text `true` or `false`.
    Boolean,
    /// The actual status code must lie in the class.
    StatusCode(HttpStatus),
}

/// The rules selected for one path, with their combining logic, and whether
/// they were selected for an ancestor of the looked-up path.
#[derive(Debug)]
pub struct RuleList {
    /// The rules to apply.
    pub rules: Vec<MatchingRule>,
    /// How the rules combine.
    pub rule_logic: RuleLogic,
    /// Whether the rule path was a strict prefix of the looked-up path.
    pub cascaded: bool,
}

/// One entry of a rule category: a path expression, its parsed tokens, and
/// the rules at that path.
#[derive(Debug)]
pub struct MatcherEntry {
    /// The path expression as written.
    pub path: String,
    /// The tokens the path expression denotes.
    pub tokens: Vec<PathToken>,
    /// The rules at this path.
    pub rules: RuleList,
}

/// A rule category: an ordered list of rule paths, each with its rules.
#[derive(Debug)]
pub struct Matchers {
    /// The entries, in insertion order; paths are unique.
    pub entries: Vec<MatcherEntry>,
}

/// The weight a path token contributes against one segment of a looked-up
/// path: 2 for a literal match, 1 for a wildcard match, 0 for no match.
pub open spec fn token_weight(fragment: Seq<char>, t: PathTokenV) -> int {
    match t {
        PathTokenV::Root => if fragment == "$"@ {
            2
        } else {
            0
        },
        PathTokenV::Field(name) => if fragment == name {
            2
        } else {
            0
        },
        PathTokenV::Index(i) => match spec_parse_u64(fragment) {
            Some(x) => if x <= usize::MAX as u64 && x as usize == i {
                2
            } else {
                0
            },
            None => 0,
        },
        PathTokenV::Star => 1,
        PathTokenV::StarIndex => if fragment == "[*]"@ {
            1
        } else {
            match spec_parse_u64(fragment) {
                Some(x) => if x <= usize::MAX as u64 {
                    1
                } else {
                    0
                },
                None => 0,
            }
        },
    }
}

/// Whether a rule path matches a looked-up path: it has no more segments, and
/// every token matches the corresponding segment (a shorter rule path is a
/// prefix match).
pub open spec fn tokens_matched(tokens: Seq<PathTokenV>, path: Seq<Seq<char>>) -> bool {
    tokens.len() <= path.len() && forall|k: int|
        0 <= k < tokens.len() ==> token_weight(path[k], #[trigger] tokens[k]) > 0
}

/// The number of literal (weight 2) segment matches among the first `k`
/// tokens.
pub open spec fn lit_upto(tokens: Seq<PathTokenV>, path: Seq<Seq<char>>, k: int) -> int
    decreases k,
{
    if k <= 0 || k > tokens.len() || k > path.len() {
        0
    } else {
        lit_upto(tokens, path, k - 1) + if token_weight(path[k - 1], tokens[k - 1]) == 2 {
            1int
        } else {
            0int
        }
    }
}

/// The selection weight of a rule path against a looked-up path: whether it
/// matched, how many of its segments matched literally, and its length.
pub open spec fn entry_weight(e: MatcherEntry, path: Seq<Seq<char>>) -> (bool, int, int) {
    let tv = e.tokens.deep_view();
    let m = tokens_matched(tv, path);
    (m, if m {
        lit_upto(tv, path, tv.len() as int)
    } else {
        0
    }, tv.len() as int)
}

/// Strictly-better ordering of selection weights: a matched path beats an
/// unmatched one; among matched paths, more literal segments win, and at
/// equal literal count the longer path wins.
pub open spec fn w_better(a: (bool, int, int), b: (bool, int, int)) -> bool {
    a.0 && (!b.0 || a.1 > b.1 || (a.1 == b.1 && a.2 > b.2))
}

/// The entry the selection algorithm picks: the first entry, in insertion
/// order, whose weight no later entry strictly beats; `None` when no entry
/// matches the path.
pub open spec fn best_of(entries: Seq<MatcherEntry>, path: Seq<Seq<char>>) -> Option<int>
    decreases entries.len(),
{
    if entries.len() == 0 {
        None
    } else {
        let prev = best_of(entries.subrange(0, entries.len() - 1), path);
        let lw = entry_weight(entries.last(), path);
        match prev {
            None => if lw.0 {
                Some(entries.len() - 1)
            } else {
                None
            },
            Some(p) => if w_better(lw, entry_weight(entries[p], path)) {
                Some(entries.len() - 1)
            } else {
                Some(p)
            },
        }
    }
}

/// Whether any rule path matches the looked-up path, exactly or as a prefix.
pub open spec fn spec_matcher_is_defined(entries: Seq<MatcherEntry>, path: Seq<Seq<char>>) -> bool {
    exists|k: int|
        0 <= k < entries.len() && entry_weight(#[trigger] entries[k], path).0
}

fn token_weight_vec(fragment: &String, t: &PathToken) -> (w: u8)
    ensures
        w as int == token_weight(fragment@, t@),
{
    match t {
        PathToken::Root => if str_eq(fragment.as_str(), "$") {
            2
        } else {
            0
        },
        PathToken::Field(name) => if str_eq(fragment.as_str(), name.as_str()) {
            2
        } else {
            0
        },
        PathToken::Index(i) => {
            let chars = str_to_chars(fragment.as_str());
            match crate::numbers::parse_u64_chars(&chars) {
                Some(x) => if x <= usize::MAX as u64 && (x as usize) == *i {
                    2
                } else {
                    0
                },
                None => 0,
            }
        },
        PathToken::Star => 1,
        PathToken::StarIndex => {
            if str_eq(fragment.as_str(), "[*]") {
                1
            } else {
                let chars = str_to_chars(fragment.as_str());
                match crate::numbers::parse_u64_chars(&chars) {
                    Some(x) => if x <= usize::MAX as u64 {
                        1
                    } else {
                        0
                    },
                    None => 0,
                }
            }
        },
    }
}

fn calc_weight(tokens: &Vec<PathToken>, path: &Vec<String>) -> (r: (bool, usize))
    ensures
        r.0 == tokens_matched(tokens.deep_view(), path.deep_view()),
        r.0 ==> r.1 as int == lit_upto(
            tokens.deep_view(),
            path.deep_view(),
            tokens.deep_view().len() as int,
        ),
{
    let ghost tv = tokens.deep_view();
    let ghost pv = path.deep_view();
    if tokens.len() > path.len() {
        proof {
            assert(!tokens_matched(tv, pv));
        }
        return (false, 0);
    }
    let mut lits: usize = 0;
    let mut k: usize = 0;
    while k < tokens.len()
        invariant
            tv == tokens.deep_view(),
            pv == path.deep_view(),
            tv.len() == tokens@.len(),
            pv.len() == path@.len(),
            tokens@.len() <= path@.len(),
            k <= tokens@.len(),
            lits <= k,
            forall|j: int| 0 <= j < k ==> token_weight(pv[j], #[trigger] tv[j]) > 0,
            lits as int == lit_upto(tv, pv, k as int),
        decreases tokens@.len() - k,
    {
        let w = token_weight_vec(&path[k], &tokens[k]);
        proof {
            assert(pv[k as int] == path@[k as int]@);
            assert(tv[k as int] == tokens@[k as int]@);
        }
        if w == 0 {
            proof {
                assert(!tokens_matched(tv, pv));
            }
            return (false, 0);
        }
        if w == 2 {
            lits += 1;
        }
        k += 1;
    }
    proof {
        assert(tokens_matched(tv, pv));
    }
    (true, lits)
}

impl Matchers {
    /// An empty rule category.
    pub fn new() -> (r: Matchers)
        ensures
            r.entries@.len() == 0,
    {
        Matchers { entries: Vec::new() }
    }

    /// The first entry whose path reads the same as `p`, or -1.
    pub open spec fn find_path_idx(entries: Seq<MatcherEntry>, p: Seq<char>) -> int
        decreases entries.len(),
    {
        if entries.len() == 0 {
            -1
        } else if entries[0].path@ == p {
            0
        } else {
            let r = Self::find_path_idx(entries.subrange(1, entries.len() as int), p);
            if r < 0 {
                -1
            } else {
                r + 1
            }
        }
    }

    proof fn lemma_find_path_idx(entries: Seq<MatcherEntry>, p: Seq<char>)
        ensures
            Self::find_path_idx(entries, p) >= 0 ==> {
                &&& Self::find_path_idx(entries, p) < entries.len()
                &&& entries[Self::find_path_idx(entries, p)].path@ == p
            },
            Self::find_path_idx(entries, p) < 0 ==> Self::find_path_idx(entries, p) == -1,
        decreases entries.len(),
    {
        if entries.len() > 0 && entries[0].path@ != p {
            Self::lemma_find_path_idx(entries.subrange(1, entries.len() as int), p);
        }
    }

    /// Adds one rule at a path. When the path is already present the rule
    /// joins that entry's list, whose logic is kept; otherwise a new entry is
    /// appended with the given logic. A malformed path is rejected and the
    /// category is unchanged.
    pub fn add_rule(&mut self, path: &str, rule: MatchingRule, logic: RuleLogic) -> (r: Result<
        (),
        String,
    >)
        ensures
            r is Err <==> spec_parse_path(path@) is None,
            r is Err ==> *final(self) == *old(self),
            r is Ok ==> {
                let idx = Self::find_path_idx(old(self).entries@, path@);
                if idx >= 0 {
                    &&& final(self).entries@.len() == old(self).entries@.len()
                    &&& forall|j: int|
                        0 <= j < old(self).entries@.len() && j != idx ==> final(self).entries@[j]
                            == old(self).entries@[j]
                    &&& final(self).entries@[idx].path == old(self).entries@[idx].path
                    &&& final(self).entries@[idx].tokens == old(self).entries@[idx].tokens
                    &&& final(self).entries@[idx].rules.rules@ == old(
                        self,
                    ).entries@[idx].rules.rules@.push(rule)
                    &&& final(self).entries@[idx].rules.rule_logic == old(
                        self,
                    ).entries@[idx].rules.rule_logic
                    &&& final(self).entries@[idx].rules.cascaded == old(
                        self,
                    ).entries@[idx].rules.cascaded
                } else {
                    &&& final(self).entries@.len() == old(self).entries@.len() + 1
                    &&& forall|j: int|
                        0 <= j < old(self).entries@.len() ==> final(self).entries@[j] == old(
                            self,
                        ).entries@[j]
                    &&& final(self).entries@.last().path@ == path@
                    &&& final(self).entries@.last().tokens.deep_view() == spec_parse_path(
                        path@,
                    )->Some_0
                    &&& final(self).entries@.last().rules.rules@ == seq![rule]
                    &&& final(self).entries@.last().rules.rule_logic == logic
                    &&& final(self).entries@.last().rules.cascaded == false
                }
            },
    {
        proof {
            Self::lemma_find_path_idx(self.entries@, path@);
        }
        match parse_path_exp(path) {
            Err(e) => Err(e),
            Ok(tokens) => {
                let ghost idx = Self::find_path_idx(self.entries@, path@);
                let mut k: usize = 0;
                let n = self.entries.len();
                while k < n
                    invariant
                        self.entries@ == old(self).entries@,
                        spec_parse_path(path@) == Some(tokens.deep_view()),
                        n == self.entries@.len(),
                        k <= n,
                        idx == Self::find_path_idx(self.entries@, path@),
                        idx >= 0 ==> idx < n && self.entries@[idx].path@ == path@,
                        idx < 0 ==> idx == -1,
                        forall|j: int| 0 <= j < k ==> self.entries@[j].path@ != path@,
                    decreases n - k,
                {
                    if str_eq(self.entries[k].path.as_str(), path) {
                        proof {
                            Self::lemma_find_path_idx_first(self.entries@, path@, k as int);
                        }
                        let ghost orig = self.entries@;
                        let mut e = self.entries.remove(k);
                        e.rules.rules.push(rule);
                        let ghost e2 = e;
                        self.entries.insert(k, e);
                        proof {
                            orig.remove_ensures(k as int);
                            orig.remove(k as int).insert_ensures(k as int, e2);
                            assert(self.entries@.len() == orig.len());
                            assert forall|j: int|
                                0 <= j < orig.len() && j != k implies self.entries@[j]
                                == orig[j] by {
                                if j < k {
                                    assert(self.entries@[j] == orig.remove(k as int)[j]);
                                } else {
                                    assert(self.entries@[j] == orig.remove(k as int)[j - 1]);
                                }
                            }
                            assert(self.entries@[k as int] == e2);
                            assert(e2.path == orig[k as int].path);
                            assert(e2.tokens == orig[k as int].tokens);
                            assert(e2.rules.rules@ == orig[k as int].rules.rules@.push(rule));
                        }
                        return Ok(());
                    }
                    k += 1;
                }
                proof {
                    if idx >= 0 {
                        assert(self.entries@[idx].path@ != path@);
                    }
                }
                let entry = MatcherEntry {
                    path: String::from_str(path),
                    tokens,
                    rules: RuleList { rules: vec![rule], rule_logic: logic, cascaded: false },
                };
                proof {
                    assert(entry.rules.rules@ =~= seq![rule]);
                }
                self.entries.push(entry);
                Ok(())
            },
        }
    }

    /// `find_path_idx` returns the first matching index.
    proof fn lemma_find_path_idx_first(entries: Seq<MatcherEntry>, p: Seq<char>, k: int)
        requires
            0 <= k < entries.len(),
            entries[k].path@ == p,
            forall|j: int| 0 <= j < k ==> entries[j].path@ != p,
        ensures
            Self::find_path_idx(entries, p) == k,
        decreases entries.len(),
    {
        if k > 0 {
            let t = entries.subrange(1, entries.len() as int);
            assert(forall|j: int| 0 <= j < k - 1 ==> t[j] == entries[j + 1]);
            Self::lemma_find_path_idx_first(t, p, k - 1);
        }
    }

    /// Whether any rule path matches the looked-up path, exactly or as a
    /// prefix. A category may hold an empty rule list for a path: that path
    /// is still defined.
    pub fn matcher_is_defined(&self, path: &Vec<String>) -> (r: bool)
        ensures
            r == spec_matcher_is_defined(self.entries@, path.deep_view()),
    {
        let mut k: usize = 0;
        let n = self.entries.len();
        while k < n
            invariant
                n == self.entries@.len(),
                k <= n,
                forall|j: int|
                    0 <= j < k ==> !entry_weight(#[trigger] self.entries@[j], path.deep_view()).0,
            decreases n - k,
        {
            let (matched, _) = calc_weight(&self.entries[k].tokens, path);
            if matched {
                return true;
            }
            k += 1;
        }
        false
    }

    /// Selects the rule list whose path scores highest against the looked-up
    /// path, under the lexicographic ordering of [`w_better`]; earlier
    /// entries win ties. The flag reports whether the selected path was a
    /// strict prefix of the looked-up path (a cascaded selection).
    pub fn select_best_matcher(&self, path: &Vec<String>) -> (r: Option<(&RuleList, bool)>)
        ensures
            match best_of(self.entries@, path.deep_view()) {
                Some(p) => {
                    &&& r is Some
                    &&& *r->Some_0.0 == self.entries@[p].rules
                    &&& r->Some_0.1 == (self.entries@[p].tokens.deep_view().len()
                        != path.deep_view().len())
                },
                None => r is None,
            },
    {
        let ghost pv = path.deep_view();
        let mut best: Option<usize> = None;
        let mut best_lits: usize = 0;
        let mut best_len: usize = 0;
        let mut k: usize = 0;
        let n = self.entries.len();
        while k < n
            invariant
                n == self.entries@.len(),
                pv == path.deep_view(),
                k <= n,
                match best {
                    Some(b) => {
                        &&& best_of(self.entries@.subrange(0, k as int), pv) == Some(b as int)
                        &&& b < k
                        &&& entry_weight(self.entries@[b as int], pv) == (
                            true,
                            best_lits as int,
                            best_len as int,
                        )
                    },
                    None => best_of(self.entries@.subrange(0, k as int), pv) is None,
                },
            decreases n - k,
        {
            let (matched, lits) = calc_weight(&self.entries[k].tokens, path);
            let len = self.entries[k].tokens.len();
            proof {
                assert(self.entries@.subrange(0, k + 1).last() == self.entries@[k as int]);
                assert(self.entries@.subrange(0, k + 1).subrange(0, k as int) =~= self
                    .entries@.subrange(0, k as int));
                assert(self.entries@[k as int].tokens.deep_view().len() == self
                    .entries@[k as int].tokens@.len());
            }
            if matched {
                match best {
                    None => {
                        best = Some(k);
                        best_lits = lits;
                        best_len = len;
                    },
                    Some(_) => {
                        if lits > best_lits || (lits == best_lits && len > best_len) {
                            best = Some(k);
                            best_lits = lits;
                            best_len = len;
                        }
                    },
                }
            }
            k += 1;
        }
        proof {
            assert(self.entries@.subrange(0, n as int) =~= self.entries@);
        }
        match best {
            Some(b) => {
                let rl = &self.entries[b].rules;
                let cascaded = self.entries[b].tokens.len() != path.len();
                proof {
                    assert(self.entries@[b as int].tokens.deep_view().len() == self
                        .entries@[b as int].tokens@.len());
                    assert(path.deep_view().len() == path@.len());
                }
                Some((rl, cascaded))
            },
            None => None,
        }
    }
}

/// Per-message evaluation state: one rule category and the configuration for
/// unexpected keys. Immutable for the duration of a match.
#[derive(Debug)]
pub struct MatchingContext {
    /// The rule category for the part being matched.
    pub matchers: Matchers,
    /// Whether unexpected keys are tolerated.
    pub config: DiffConfig,
}

impl MatchingContext {
    /// A context with the given configuration and rules.
    pub fn new(config: DiffConfig, matchers: Matchers) -> (r: MatchingContext)
        ensures
            r.config == config,
            r.matchers == matchers,
    {
        MatchingContext { matchers, config }
    }

    /// A context with the given configuration and no rules.
    pub fn with_config(config: DiffConfig) -> (r: MatchingContext)
        ensures
            r.config == config,
            r.matchers.entries@.len() == 0,
    {
        MatchingContext { matchers: Matchers::new(), config }
    }

    /// Whether a matcher is defined at the path (see
    /// [`Matchers::matcher_is_defined`]).
    pub fn matcher_is_defined(&self, path: &Vec<String>) -> (r: bool)
        ensures
            r == spec_matcher_is_defined(self.matchers.entries@, path.deep_view()),
    {
        self.matchers.matcher_is_defined(path)
    }

    /// Selects the best rule list for the path (see
    /// [`Matchers::select_best_matcher`]).
    pub fn select_best_matcher(&self, path: &Vec<String>) -> (r: Option<(&RuleList, bool)>)
        ensures
            match best_of(self.matchers.entries@, path.deep_view()) {
                Some(p) => {
                    &&& r is Some
                    &&& *r->Some_0.0 == self.matchers.entries@[p].rules
                    &&& r->Some_0.1 == (self.matchers.entries@[p].tokens.deep_view().len()
                        != path.deep_view().len())
                },
                None => r is None,
            },
    {
        self.matchers.select_best_matcher(path)
    }
}

/// The selection law: the entry that `best_of` picks is a matching entry
/// that no other entry strictly beats under the lexicographic ordering
/// (matched, literal-segment count, length); and when it picks none, no
/// entry matches the path at all.
pub proof fn lemma_best_of_is_max(entries: Seq<MatcherEntry>, path: Seq<Seq<char>>)
    ensures
        match best_of(entries, path) {
            Some(p) => {
                &&& 0 <= p < entries.len()
                &&& entry_weight(entries[p], path).0
                &&& forall|k: int|
                    0 <= k < entries.len() ==> !w_better(
                        entry_weight(#[trigger] entries[k], path),
                        entry_weight(entries[p], path),
                    )
            },
            None => forall|k: int|
                0 <= k < entries.len() ==> !entry_weight(#[trigger] entries[k], path).0,
        },
    decreases entries.len(),
{
    if entries.len() > 0 {
        let front = entries.subrange(0, entries.len() - 1);
        lemma_best_of_is_max(front, path);
        assert(forall|k: int| 0 <= k < front.len() ==> front[k] == entries[k]);
        assert(entries.last() == entries[entries.len() - 1]);
    }
}

/// At equal length, a fully literal path always beats a path that matched
/// through at least one wildcard: wildcard paths never outrank a same-length
/// literal path.
pub proof fn lemma_literal_beats_wildcard(a: MatcherEntry, b: MatcherEntry, path: Seq<Seq<char>>)
    requires
        entry_weight(a, path).0,
        entry_weight(b, path).0,
        entry_weight(a, path).2 == entry_weight(b, path).2,
        entry_weight(a, path).1 == entry_weight(a, path).2,
        entry_weight(b, path).1 < entry_weight(b, path).2,
    ensures
        w_better(entry_weight(a, path), entry_weight(b, path)),
{
}

} // verus!
