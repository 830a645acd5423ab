//! Core matching engine for consumer-driven contract testing: compares an
//! observed HTTP request or response against an expected one, applying
//! path-addressed matching rules, and reports every point of divergence.

use vstd::prelude::*;

pub mod json;
pub mod laws;
pub mod matchers;
pub mod numbers;
pub mod path;
pub mod rules;
pub mod strings;
pub mod trusted;
pub mod value;

verus! {

/// Configuration for structural comparison of maps: whether keys present in
/// the actual value but absent from the expected value are tolerated.
#[derive(Debug, Clone, Copy, PartialEq, Eq, Structural)]
pub enum DiffConfig {
    /// Unexpected keys are allowed and ignored during matching.
    AllowUnexpectedKeys,
    /// Unexpected keys cause a mismatch.
    NoUnexpectedKeys,
}

/// Ghost mirror of [`Mismatch`], over character sequences; contracts and laws
/// are stated over this form.
pub enum MismatchV {
    MethodMismatch { expected: Seq<char>, actual: Seq<char> },
    PathMismatch { expected: Seq<char>, actual: Seq<char>, mismatch: Seq<char> },
    StatusMismatch { expected: u16, actual: u16 },
    QueryMismatch { parameter: Seq<char>, expected: Seq<char>, actual: Seq<char>, mismatch: Seq<char> },
    HeaderMismatch { key: Seq<char>, expected: Seq<char>, actual: Seq<char>, mismatch: Seq<char> },
    BodyTypeMismatch { expected: Seq<char>, actual: Seq<char> },
    BodyMismatch {
        path: Seq<char>,
        expected: Option<Seq<char>>,
        actual: Option<Seq<char>>,
        mismatch: Seq<char>,
    },
    MetadataMismatch { key: Seq<char>, expected: Seq<char>, actual: Seq<char>, mismatch: Seq<char> },
}

/// One point of divergence between the expected and the actual message.
#[derive(Debug, Clone)]
pub enum Mismatch {
    /// Request method mismatch.
    MethodMismatch {
        /// Expected request method.
        expected: String,
        /// Actual request method.
        actual: String,
    },
    /// Request path mismatch.
    PathMismatch {
        /// Expected request path.
        expected: String,
        /// Actual request path.
        actual: String,
        /// Description of the mismatch.
        mismatch: String,
    },
    /// Response status mismatch.
    StatusMismatch {
        /// Expected response status.
        expected: u16,
        /// Actual response status.
        actual: u16,
    },
    /// Request query mismatch.
    QueryMismatch {
        /// Query parameter name.
        parameter: String,
        /// Expected value.
        expected: String,
        /// Actual value.
        actual: String,
        /// Description of the mismatch.
        mismatch: String,
    },
    /// Header mismatch.
    HeaderMismatch {
        /// Header key.
        key: String,
        /// Expected value.
        expected: String,
        /// Actual value.
        actual: String,
        /// Description of the mismatch.
        mismatch: String,
    },
    /// Mismatch in the content type of the body.
    BodyTypeMismatch {
        /// Expected content type of the body.
        expected: String,
        /// Actual content type of the body.
        actual: String,
    },
    /// Body element mismatch.
    BodyMismatch {
        /// Path expression to where the mismatch occurred.
        path: String,
        /// Expected value.
        expected: Option<String>,
        /// Actual value.
        actual: Option<String>,
        /// Description of the mismatch.
        mismatch: String,
    },
    /// Message metadata mismatch.
    MetadataMismatch {
        /// Metadata key.
        key: String,
        /// Expected value.
        expected: String,
        /// Actual value.
        actual: String,
        /// Description of the mismatch.
        mismatch: String,
    },
}

pub open spec fn opt_view(o: Option<String>) -> Option<Seq<char>> {
    match o {
        Some(s) => Some(s@),
        None => None,
    }
}

impl View for Mismatch {
    type V = MismatchV;

    open spec fn view(&self) -> MismatchV {
        match self {
            Mismatch::MethodMismatch { expected, actual } => MismatchV::MethodMismatch {
                expected: expected@,
                actual: actual@,
            },
            Mismatch::PathMismatch { expected, actual, mismatch } => MismatchV::PathMismatch {
                expected: expected@,
                actual: actual@,
                mismatch: mismatch@,
            },
            Mismatch::StatusMismatch { expected, actual } => MismatchV::StatusMismatch {
                expected: *expected,
                actual: *actual,
            },
            Mismatch::QueryMismatch { parameter, expected, actual, mismatch } => MismatchV::QueryMismatch {
                parameter: parameter@,
                expected: expected@,
                actual: actual@,
                mismatch: mismatch@,
            },
            Mismatch::HeaderMismatch { key, expected, actual, mismatch } => MismatchV::HeaderMismatch {
                key: key@,
                expected: expected@,
                actual: actual@,
                mismatch: mismatch@,
            },
            Mismatch::BodyTypeMismatch { expected, actual } => MismatchV::BodyTypeMismatch {
                expected: expected@,
                actual: actual@,
            },
            Mismatch::BodyMismatch { path, expected, actual, mismatch } => MismatchV::BodyMismatch {
                path: path@,
                expected: opt_view(*expected),
                actual: opt_view(*actual),
                mismatch: mismatch@,
            },
            Mismatch::MetadataMismatch { key, expected, actual, mismatch } => MismatchV::MetadataMismatch {
                key: key@,
                expected: expected@,
                actual: actual@,
                mismatch: mismatch@,
            },
        }
    }
}

impl DeepView for Mismatch {
    type V = MismatchV;

    open spec fn deep_view(&self) -> MismatchV {
        self.view()
    }
}

/// Structural identity of two mismatch records: the variant and every field
/// except the human-readable description must agree.
pub open spec fn mm_same(a: MismatchV, b: MismatchV) -> bool {
    match (a, b) {
        (
            MismatchV::MethodMismatch { expected: e1, actual: a1 },
            MismatchV::MethodMismatch { expected: e2, actual: a2 },
        ) => e1 == e2 && a1 == a2,
        (
            MismatchV::PathMismatch { expected: e1, actual: a1, .. },
            MismatchV::PathMismatch { expected: e2, actual: a2, .. },
        ) => e1 == e2 && a1 == a2,
        (
            MismatchV::StatusMismatch { expected: e1, actual: a1 },
            MismatchV::StatusMismatch { expected: e2, actual: a2 },
        ) => e1 == e2 && a1 == a2,
        (
            MismatchV::QueryMismatch { parameter: p1, expected: e1, actual: a1, .. },
            MismatchV::QueryMismatch { parameter: p2, expected: e2, actual: a2, .. },
        ) => p1 == p2 && e1 == e2 && a1 == a2,
        (
            MismatchV::HeaderMismatch { key: k1, expected: e1, actual: a1, .. },
            MismatchV::HeaderMismatch { key: k2, expected: e2, actual: a2, .. },
        ) => k1 == k2 && e1 == e2 && a1 == a2,
        (
            MismatchV::BodyTypeMismatch { expected: e1, actual: a1 },
            MismatchV::BodyTypeMismatch { expected: e2, actual: a2 },
        ) => e1 == e2 && a1 == a2,
        (
            MismatchV::BodyMismatch { path: p1, expected: e1, actual: a1, .. },
            MismatchV::BodyMismatch { path: p2, expected: e2, actual: a2, .. },
        ) => p1 == p2 && e1 == e2 && a1 == a2,
        (
            MismatchV::MetadataMismatch { key: k1, expected: e1, actual: a1, .. },
            MismatchV::MetadataMismatch { key: k2, expected: e2, actual: a2, .. },
        ) => k1 == k2 && e1 == e2 && a1 == a2,
        _ => false,
    }
}

fn opt_string_eq(a: &Option<String>, b: &Option<String>) -> (r: bool)
    ensures
        r == (opt_view(*a) == opt_view(*b)),
{
    match (a, b) {
        (Some(x), Some(y)) => x.eq(y),
        (None, None) => true,
        _ => {
            proof {
                assert(opt_view(*a) != opt_view(*b));
            }
            false
        },
    }
}

impl PartialEq for Mismatch {
    /// Equality compares only the structural fields and ignores the
    /// human-readable description, so test assertions are stable.
    fn eq(&self, other: &Mismatch) -> (r: bool) {
        match (self, other) {
            (
                Mismatch::MethodMismatch { expected: e1, actual: a1 },
                Mismatch::MethodMismatch { expected: e2, actual: a2 },
            ) => e1.eq(e2) && a1.eq(a2),
            (
                Mismatch::PathMismatch { expected: e1, actual: a1, mismatch: _ },
                Mismatch::PathMismatch { expected: e2, actual: a2, mismatch: _ },
            ) => e1.eq(e2) && a1.eq(a2),
            (
                Mismatch::StatusMismatch { expected: e1, actual: a1 },
                Mismatch::StatusMismatch { expected: e2, actual: a2 },
            ) => *e1 == *e2 && *a1 == *a2,
            (
                Mismatch::QueryMismatch { parameter: p1, expected: e1, actual: a1, mismatch: _ },
                Mismatch::QueryMismatch { parameter: p2, expected: e2, actual: a2, mismatch: _ },
            ) => p1.eq(p2) && e1.eq(e2) && a1.eq(a2),
            (
                Mismatch::HeaderMismatch { key: k1, expected: e1, actual: a1, mismatch: _ },
                Mismatch::HeaderMismatch { key: k2, expected: e2, actual: a2, mismatch: _ },
            ) => k1.eq(k2) && e1.eq(e2) && a1.eq(a2),
            (
                Mismatch::BodyTypeMismatch { expected: e1, actual: a1 },
                Mismatch::BodyTypeMismatch { expected: e2, actual: a2 },
            ) => e1.eq(e2) && a1.eq(a2),
            (
                Mismatch::BodyMismatch { path: p1, expected: e1, actual: a1, mismatch: _ },
                Mismatch::BodyMismatch { path: p2, expected: e2, actual: a2, mismatch: _ },
            ) => p1.eq(p2) && opt_string_eq(e1, e2) && opt_string_eq(a1, a2),
            (
                Mismatch::MetadataMismatch { key: k1, expected: e1, actual: a1, mismatch: _ },
                Mismatch::MetadataMismatch { key: k2, expected: e2, actual: a2, mismatch: _ },
            ) => k1.eq(k2) && e1.eq(e2) && a1.eq(a2),
            (_, _) => false,
        }
    }
}

impl vstd::std_specs::cmp::PartialEqSpecImpl for Mismatch {
    open spec fn obeys_eq_spec() -> bool {
        true
    }

    open spec fn eq_spec(&self, other: &Mismatch) -> bool {
        mm_same(self@, other@)
    }
}

impl Mismatch {
    /// The type of the mismatch, as its stable discriminator string.
    pub fn mismatch_type(&self) -> (r: String)
        ensures
            r@ == self.spec_mismatch_type(),
    {
        match self {
            Mismatch::MethodMismatch { .. } => String::from_str("MethodMismatch"),
            Mismatch::PathMismatch { .. } => String::from_str("PathMismatch"),
            Mismatch::StatusMismatch { .. } => String::from_str("StatusMismatch"),
            Mismatch::QueryMismatch { .. } => String::from_str("QueryMismatch"),
            Mismatch::HeaderMismatch { .. } => String::from_str("HeaderMismatch"),
            Mismatch::BodyTypeMismatch { .. } => String::from_str("BodyTypeMismatch"),
            Mismatch::BodyMismatch { .. } => String::from_str("BodyMismatch"),
            Mismatch::MetadataMismatch { .. } => String::from_str("MetadataMismatch"),
        }
    }

    /// The discriminator string of each variant.
    pub open spec fn spec_mismatch_type(&self) -> Seq<char> {
        match self {
            Mismatch::MethodMismatch { .. } => "MethodMismatch"@,
            Mismatch::PathMismatch { .. } => "PathMismatch"@,
            Mismatch::StatusMismatch { .. } => "StatusMismatch"@,
            Mismatch::QueryMismatch { .. } => "QueryMismatch"@,
            Mismatch::HeaderMismatch { .. } => "HeaderMismatch"@,
            Mismatch::BodyTypeMismatch { .. } => "BodyTypeMismatch"@,
            Mismatch::BodyMismatch { .. } => "BodyMismatch"@,
            Mismatch::MetadataMismatch { .. } => "MetadataMismatch"@,
        }
    }

    /// A one-line account of the mismatch: for body mismatches the path and
    /// the description joined by an arrow, otherwise the description itself
    /// (or, where no description field exists, the discriminator).
    pub fn description(&self) -> (r: String)
        ensures
            r@ == self.spec_description(),
    {
        match self {
            Mismatch::BodyMismatch { path, mismatch, .. } => crate::strings::cat3(
                path.as_str(),
                " -> ",
                mismatch.as_str(),
            ),
            Mismatch::PathMismatch { mismatch, .. } => mismatch.clone(),
            Mismatch::QueryMismatch { mismatch, .. } => mismatch.clone(),
            Mismatch::HeaderMismatch { mismatch, .. } => mismatch.clone(),
            Mismatch::MetadataMismatch { mismatch, .. } => mismatch.clone(),
            _ => self.mismatch_type(),
        }
    }

    pub open spec fn spec_description(&self) -> Seq<char> {
        match self {
            Mismatch::BodyMismatch { path, mismatch, .. } => path@ + " -> "@ + mismatch@,
            Mismatch::PathMismatch { mismatch, .. } => mismatch@,
            Mismatch::QueryMismatch { mismatch, .. } => mismatch@,
            Mismatch::HeaderMismatch { mismatch, .. } => mismatch@,
            Mismatch::MetadataMismatch { mismatch, .. } => mismatch@,
            _ => self.spec_mismatch_type(),
        }
    }
}

/// One `"key":"text"` entry of a mismatch's JSON form.
pub open spec fn entry_is_str(e: (String, value::Value), k: Seq<char>, v: Seq<char>) -> bool {
    e.0@ == k && (e.1 matches value::Value::Str(s) && s@ == v)
}

/// One `"key":<text or null>` entry of a mismatch's JSON form.
pub open spec fn entry_is_opt(
    e: (String, value::Value),
    k: Seq<char>,
    v: Option<Seq<char>>,
) -> bool {
    e.0@ == k && match v {
        Some(t) => (e.1 matches value::Value::Str(s) && s@ == t),
        None => e.1 is Null,
    }
}

/// One `"key":<number>` entry of a mismatch's JSON form.
pub open spec fn entry_is_int(e: (String, value::Value), k: Seq<char>, n: int) -> bool {
    e.0@ == k && (e.1 matches value::Value::Integer(i) && i as int == n)
}

/// The JSON form of a mismatch: a map with the discriminator under `type`
/// and the variant's fields, keys in sorted order.
pub open spec fn mm_json_form(m: MismatchV, r: value::Value) -> bool {
    match m {
        MismatchV::MethodMismatch { expected, actual } => r matches value::Value::Object(es)
            && es@.len() == 3 && entry_is_str(es@[0], "actual"@, actual) && entry_is_str(
            es@[1],
            "expected"@,
            expected,
        ) && entry_is_str(es@[2], "type"@, "MethodMismatch"@),
        MismatchV::PathMismatch { expected, actual, mismatch } => r matches value::Value::Object(
            es,
        ) && es@.len() == 4 && entry_is_str(es@[0], "actual"@, actual) && entry_is_str(
            es@[1],
            "expected"@,
            expected,
        ) && entry_is_str(es@[2], "mismatch"@, mismatch) && entry_is_str(
            es@[3],
            "type"@,
            "PathMismatch"@,
        ),
        MismatchV::StatusMismatch { expected, actual } => r matches value::Value::Object(es)
            && es@.len() == 3 && entry_is_int(es@[0], "actual"@, actual as int) && entry_is_int(
            es@[1],
            "expected"@,
            expected as int,
        ) && entry_is_str(es@[2], "type"@, "StatusMismatch"@),
        MismatchV::QueryMismatch { parameter, expected, actual, mismatch } => r matches value::Value::Object(
            es,
        ) && es@.len() == 5 && entry_is_str(es@[0], "actual"@, actual) && entry_is_str(
            es@[1],
            "expected"@,
            expected,
        ) && entry_is_str(es@[2], "mismatch"@, mismatch) && entry_is_str(
            es@[3],
            "parameter"@,
            parameter,
        ) && entry_is_str(es@[4], "type"@, "QueryMismatch"@),
        MismatchV::HeaderMismatch { key, expected, actual, mismatch } => r matches value::Value::Object(
            es,
        ) && es@.len() == 5 && entry_is_str(es@[0], "actual"@, actual) && entry_is_str(
            es@[1],
            "expected"@,
            expected,
        ) && entry_is_str(es@[2], "key"@, key) && entry_is_str(es@[3], "mismatch"@, mismatch)
            && entry_is_str(es@[4], "type"@, "HeaderMismatch"@),
        MismatchV::BodyTypeMismatch { expected, actual } => r matches value::Value::Object(es)
            && es@.len() == 3 && entry_is_str(es@[0], "actual"@, actual) && entry_is_str(
            es@[1],
            "expected"@,
            expected,
        ) && entry_is_str(es@[2], "type"@, "BodyTypeMismatch"@),
        MismatchV::BodyMismatch { path, expected, actual, mismatch } => r matches value::Value::Object(
            es,
        ) && es@.len() == 5 && entry_is_opt(es@[0], "actual"@, actual) && entry_is_opt(
            es@[1],
            "expected"@,
            expected,
        ) && entry_is_str(es@[2], "mismatch"@, mismatch) && entry_is_str(es@[3], "path"@, path)
            && entry_is_str(es@[4], "type"@, "BodyMismatch"@),
        MismatchV::MetadataMismatch { key, expected, actual, mismatch } => r matches value::Value::Object(
            es,
        ) && es@.len() == 5 && entry_is_str(es@[0], "actual"@, actual) && entry_is_str(
            es@[1],
            "expected"@,
            expected,
        ) && entry_is_str(es@[2], "key"@, key) && entry_is_str(es@[3], "mismatch"@, mismatch)
            && entry_is_str(es@[4], "type"@, "MetadataMismatch"@),
    }
}

impl Mismatch {
    /// The mismatch as a document value, ready to serialise: the
    /// discriminator under `type` and the variant's fields, keys in sorted
    /// order (see [`mm_json_form`]).
    pub fn to_json(&self) -> (r: value::Value)
        ensures
            mm_json_form(self@, r),
    {
        let mut es: Vec<(String, value::Value)> = Vec::new();
        match self {
            Mismatch::MethodMismatch { expected, actual } => {
                es.push(("actual".to_owned(), value::Value::Str(actual.clone())));
                es.push(("expected".to_owned(), value::Value::Str(expected.clone())));
                es.push(("type".to_owned(), value::Value::Str(String::from_str("MethodMismatch"))));
            },
            Mismatch::PathMismatch { expected, actual, mismatch } => {
                es.push(("actual".to_owned(), value::Value::Str(actual.clone())));
                es.push(("expected".to_owned(), value::Value::Str(expected.clone())));
                es.push(("mismatch".to_owned(), value::Value::Str(mismatch.clone())));
                es.push(("type".to_owned(), value::Value::Str(String::from_str("PathMismatch"))));
            },
            Mismatch::StatusMismatch { expected, actual } => {
                es.push(("actual".to_owned(), value::Value::Integer(*actual as i128)));
                es.push(("expected".to_owned(), value::Value::Integer(*expected as i128)));
                es.push(("type".to_owned(), value::Value::Str(String::from_str("StatusMismatch"))));
            },
            Mismatch::QueryMismatch { parameter, expected, actual, mismatch } => {
                es.push(("actual".to_owned(), value::Value::Str(actual.clone())));
                es.push(("expected".to_owned(), value::Value::Str(expected.clone())));
                es.push(("mismatch".to_owned(), value::Value::Str(mismatch.clone())));
                es.push(("parameter".to_owned(), value::Value::Str(parameter.clone())));
                es.push(("type".to_owned(), value::Value::Str(String::from_str("QueryMismatch"))));
            },
            Mismatch::HeaderMismatch { key, expected, actual, mismatch } => {
                es.push(("actual".to_owned(), value::Value::Str(actual.clone())));
                es.push(("expected".to_owned(), value::Value::Str(expected.clone())));
                es.push(("key".to_owned(), value::Value::Str(key.clone())));
                es.push(("mismatch".to_owned(), value::Value::Str(mismatch.clone())));
                es.push(("type".to_owned(), value::Value::Str(String::from_str("HeaderMismatch"))));
            },
            Mismatch::BodyTypeMismatch { expected, actual } => {
                es.push(("actual".to_owned(), value::Value::Str(actual.clone())));
                es.push(("expected".to_owned(), value::Value::Str(expected.clone())));
                es.push((
                    "type".to_owned(),
                    value::Value::Str(String::from_str("BodyTypeMismatch")),
                ));
            },
            Mismatch::BodyMismatch { path, expected, actual, mismatch } => {
                let av = match actual {
                    Some(a) => value::Value::Str(a.clone()),
                    None => value::Value::Null,
                };
                let ev = match expected {
                    Some(e) => value::Value::Str(e.clone()),
                    None => value::Value::Null,
                };
                es.push(("actual".to_owned(), av));
                es.push(("expected".to_owned(), ev));
                es.push(("mismatch".to_owned(), value::Value::Str(mismatch.clone())));
                es.push(("path".to_owned(), value::Value::Str(path.clone())));
                es.push(("type".to_owned(), value::Value::Str(String::from_str("BodyMismatch"))));
            },
            Mismatch::MetadataMismatch { key, expected, actual, mismatch } => {
                es.push(("actual".to_owned(), value::Value::Str(actual.clone())));
                es.push(("expected".to_owned(), value::Value::Str(expected.clone())));
                es.push(("key".to_owned(), value::Value::Str(key.clone())));
                es.push(("mismatch".to_owned(), value::Value::Str(mismatch.clone())));
                es.push((
                    "type".to_owned(),
                    value::Value::Str(String::from_str("MetadataMismatch")),
                ));
            },
        }
        value::Value::Object(es)
    }
}

/// Appends one mismatch to the accumulator.
pub fn push_mismatch(mismatches: &mut Vec<Mismatch>, m: Mismatch)
    ensures
        final(mismatches).deep_view() == old(mismatches).deep_view().push(m@),
{
    let ghost v0 = *mismatches;
    let ghost mv = m@;
    mismatches.push(m);
    proof {
        assert forall|j: int| 0 <= j < mismatches@.len() implies mismatches.deep_view()[j]
            == v0.deep_view().push(mv)[j] by {
            if j < v0@.len() {
                assert(mismatches@[j] == v0@[j]);
            } else {
                assert(mismatches@[j]@ == mv);
            }
        }
        assert(mismatches.deep_view() =~= v0.deep_view().push(mv));
    }
}


/// A message body: absent, the explicit null body, or present with its text.
#[derive(Debug, Clone)]
pub enum OptionalBody {
    /// No body at all.
    Missing,
    /// An explicit null body.
    Null,
    /// A body with the given text.
    Present(String),
}

/// The text a body carries: its content when present, empty otherwise.
pub open spec fn body_value(b: OptionalBody) -> Seq<char> {
    match b {
        OptionalBody::Present(s) => s@,
        _ => Seq::empty(),
    }
}

impl OptionalBody {
    /// Whether a body is present.
    pub fn is_present(&self) -> (r: bool)
        ensures
            r == (self is Present),
    {
        matches!(self, OptionalBody::Present(_))
    }

    /// The body's text; empty when missing or null.
    pub fn value(&self) -> (r: String)
        ensures
            r@ == body_value(*self),
    {
        match self {
            OptionalBody::Present(s) => s.clone(),
            _ => String::new(),
        }
    }
}

/// An HTTP message under match: a request's method, path and query, a
/// response's status, and the headers, body and matching rules of either.
#[derive(Debug)]
pub struct HttpPart {
    /// The request method.
    pub method: String,
    /// The request path.
    pub path: String,
    /// The response status.
    pub status: u16,
    /// The query parameters: each name with its ordered values.
    pub query: Option<Vec<(String, Vec<String>)>>,
    /// The headers, with case-insensitive names.
    pub headers: Option<Vec<(String, String)>>,
    /// The body.
    pub body: OptionalBody,
    /// The matching rules the contract declares for this message.
    pub matching_rules: Option<rules::Matchers>,
}

/// The index of the first header whose lower-cased name reads `k` (already
/// lower-cased), or -1.
pub open spec fn hdr_find(hs: Seq<(String, String)>, k: Seq<char>) -> int
    decreases hs.len(),
{
    if hs.len() == 0 {
        -1
    } else if strings::lower_seq(hs[0].0@) == k {
        0
    } else {
        let r = hdr_find(hs.subrange(1, hs.len() as int), k);
        if r < 0 {
            -1
        } else {
            r + 1
        }
    }
}

proof fn lemma_hdr_find_first(hs: Seq<(String, String)>, k: Seq<char>, idx: int)
    requires
        0 <= idx < hs.len(),
        strings::lower_seq(hs[idx].0@) == k,
        forall|j: int| 0 <= j < idx ==> strings::lower_seq(hs[j].0@) != k,
    ensures
        hdr_find(hs, k) == idx,
    decreases hs.len(),
{
    if idx > 0 {
        let t = hs.subrange(1, hs.len() as int);
        assert(forall|j: int| 0 <= j < idx - 1 ==> t[j] == hs[j + 1]);
        lemma_hdr_find_first(t, k, idx - 1);
    }
}

proof fn lemma_hdr_find_none(hs: Seq<(String, String)>, k: Seq<char>)
    requires
        forall|j: int| 0 <= j < hs.len() ==> strings::lower_seq(hs[j].0@) != k,
    ensures
        hdr_find(hs, k) == -1,
    decreases hs.len(),
{
    if hs.len() > 0 {
        let t = hs.subrange(1, hs.len() as int);
        assert(forall|j: int| 0 <= j < t.len() ==> t[j] == hs[j + 1]);
        lemma_hdr_find_none(t, k);
    }
}

fn hdr_find_exec(hs: &Vec<(String, String)>, k: &str) -> (r: Option<usize>)
    requires
        strings::lower_seq(k@) == k@,
    ensures
        match r {
            Some(i) => i < hs@.len() && hdr_find(hs@, k@) == i as int,
            None => hdr_find(hs@, k@) == -1,
        },
{
    let kv = strings::str_to_chars(k);
    let mut i: usize = 0;
    while i < hs.len()
        invariant
            kv@ == k@,
            i <= hs@.len(),
            forall|j: int| 0 <= j < i ==> strings::lower_seq(hs@[j].0@) != k@,
        decreases hs@.len() - i,
    {
        let hv = strings::str_to_chars(hs[i].0.as_str());
        let hl = strings::lower_chars(&hv);
        if strings::eq_chars(&hl, &kv) {
            proof {
                lemma_hdr_find_first(hs@, k@, i as int);
            }
            return Some(i);
        }
        i += 1;
    }
    proof {
        lemma_hdr_find_none(hs@, k@);
    }
    None
}

/// The base content type of a message: the `Content-Type` header's value up
/// to the first `;`, trimmed, or `text/plain` when the header is absent.
pub open spec fn spec_mimetype(p: HttpPart) -> Seq<char> {
    match p.headers {
        Some(hs) => {
            let idx = hdr_find(hs@, "content-type"@);
            if 0 <= idx < hs@.len() {
                strings::trimmed(strings::split_on(hs@[idx].1@, ';')[0])
            } else {
                "text/plain"@
            }
        },
        None => "text/plain"@,
    }
}

impl HttpPart {
    /// The message's base content type (see [`spec_mimetype`]).
    pub fn mimetype(&self) -> (r: String)
        ensures
            r@ == spec_mimetype(*self),
    {
        match &self.headers {
            Some(hs) => {
                proof {
                    reveal_strlit("content-type");
                    assert(strings::lower_seq("content-type"@) =~= "content-type"@);
                }
                match hdr_find_exec(hs, "content-type") {
                    Some(i) => {
                        let v = strings::str_to_chars(hs[i].1.as_str());
                        let pieces = strings::split_chars(&v, ';');
                        proof {
                            assert(strings::split_on(hs@[i as int].1@, ';').len() > 0);
                            assert(pieces@[0]@ == pieces.deep_view()[0]);
                        }
                        let t = strings::trim_chars(&pieces[0]);
                        strings::chars_to_string(&t)
                    },
                    None => String::from_str("text/plain"),
                }
            },
            None => String::from_str("text/plain"),
        }
    }

    /// The message's body.
    pub fn body(&self) -> (r: &OptionalBody)
        ensures
            *r == self.body,
    {
        &self.body
    }
}

impl Default for HttpPart {
    /// A `GET` to `/` with status 200 and nothing else.
    fn default() -> (r: HttpPart)
        ensures
            r.method@ == "GET"@,
            r.path@ == "/"@,
            r.status == 200,
            r.query is None,
            r.headers is None,
            r.body is Missing,
            r.matching_rules is None,
    {
        HttpPart {
            method: String::from_str("GET"),
            path: String::from_str("/"),
            status: 200,
            query: None,
            headers: None,
            body: OptionalBody::Missing,
            matching_rules: None,
        }
    }
}

/// The rule entries a message carries: none when it declares no rules.
pub open spec fn rules_of(m: Option<rules::Matchers>) -> Seq<rules::MatcherEntry> {
    match m {
        Some(ms) => ms.entries@,
        None => Seq::empty(),
    }
}

/// The mismatches of a plain-text body comparison: empty on equal texts.
pub open spec fn spec_match_text(e: Seq<char>, a: Seq<char>) -> Seq<MismatchV> {
    if e == a {
        Seq::empty()
    } else {
        seq![
            MismatchV::BodyMismatch {
                path: "/"@,
                expected: Some(e),
                actual: Some(a),
                mismatch: "Expected text '"@ + e + "' but received '"@ + a + "'"@,
            },
        ]
    }
}

/// Matches the actual text body to the expected one: equal texts pass,
/// anything else is one body mismatch at `/`.
pub fn match_text(expected: &String, actual: &String, mismatches: &mut Vec<Mismatch>)
    ensures
        final(mismatches).deep_view() == old(mismatches).deep_view() + spec_match_text(
            expected@,
            actual@,
        ),
{
    if !strings::str_eq(expected.as_str(), actual.as_str()) {
        let msg = strings::cat5(
            "Expected text '",
            expected.as_str(),
            "' but received '",
            actual.as_str(),
            "'",
        );
        push_mismatch(
            mismatches,
            Mismatch::BodyMismatch {
                path: String::from_str("/"),
                expected: Some(expected.clone()),
                actual: Some(actual.clone()),
                mismatch: msg,
            },
        );
        proof {
            assert(final(mismatches).deep_view() =~= old(mismatches).deep_view()
                + spec_match_text(expected@, actual@));
        }
    } else {
        proof {
            assert(final(mismatches).deep_view() =~= old(mismatches).deep_view()
                + spec_match_text(expected@, actual@));
        }
    }
}

/// The mismatches of a method comparison: methods compare ASCII
/// case-insensitively.
pub open spec fn spec_match_method(e: Seq<char>, a: Seq<char>) -> Seq<MismatchV> {
    if strings::lower_seq(e) == strings::lower_seq(a) {
        Seq::empty()
    } else {
        seq![MismatchV::MethodMismatch { expected: e, actual: a }]
    }
}

/// Matches the actual request method to the expected one, ignoring ASCII
/// case.
pub fn match_method(expected: String, actual: String, mismatches: &mut Vec<Mismatch>)
    ensures
        final(mismatches).deep_view() == old(mismatches).deep_view() + spec_match_method(
            expected@,
            actual@,
        ),
{
    let ev = strings::str_to_chars(expected.as_str());
    let av = strings::str_to_chars(actual.as_str());
    let el = strings::lower_chars(&ev);
    let al = strings::lower_chars(&av);
    if !strings::eq_chars(&el, &al) {
        push_mismatch(mismatches, Mismatch::MethodMismatch { expected, actual });
        proof {
            assert(final(mismatches).deep_view() =~= old(mismatches).deep_view()
                + spec_match_method(expected@, actual@));
        }
    } else {
        proof {
            assert(final(mismatches).deep_view() =~= old(mismatches).deep_view()
                + spec_match_method(expected@, actual@));
        }
    }
}

/// The error texts of comparing one value pair at a path: the selected rules
/// when a matcher stands at the path, plain equality otherwise.
pub open spec fn value_errs_at(
    pathv: Seq<Seq<char>>,
    e: Seq<char>,
    a: Seq<char>,
    m: Option<rules::Matchers>,
) -> Seq<Seq<char>> {
    let entries = rules_of(m);
    if rules::best_of(entries, pathv) is Some {
        match matchers::spec_match_values(entries, pathv, e, a) {
            Ok(_) => Seq::empty(),
            Err(msgs) => msgs,
        }
    } else {
        match matchers::spec_string_match(e, a, rules::MatchingRule::Equality, false) {
            Ok(_) => Seq::empty(),
            Err(msg) => seq![msg],
        }
    }
}

fn value_errs_at_exec(path: &Vec<String>, e: &str, a: &str, m: &Option<rules::Matchers>) -> (r:
    Vec<String>)
    ensures
        r.deep_view() == value_errs_at(path.deep_view(), e@, a@, *m),
{
    let empty = rules::Matchers::new();
    let ms: &rules::Matchers = match m {
        Some(x) => x,
        None => &empty,
    };
    proof {
        if m is None {
            assert(ms.entries@ =~= rules_of(*m));
        }
    }
    let defined = ms.select_best_matcher(path).is_some();
    if defined {
        match matchers::match_values_with(path, ms, e, a) {
            Ok(_) => {
                let r: Vec<String> = Vec::new();
                proof {
                    assert(r.deep_view() =~= Seq::<Seq<char>>::empty());
                }
                r
            },
            Err(v) => v,
        }
    } else {
        match matchers::string_matches_with(e, a, &rules::MatchingRule::Equality, false) {
            Ok(_) => {
                let r: Vec<String> = Vec::new();
                proof {
                    assert(r.deep_view() =~= Seq::<Seq<char>>::empty());
                }
                r
            },
            Err(msg) => {
                let ghost mv = msg@;
                let mut r: Vec<String> = Vec::new();
                r.push(msg);
                proof {
                    assert(r.deep_view() =~= seq![mv]);
                }
                r
            },
        }
    }
}


/// A string as diagnostics quote it: in double quotes, escaped.
pub open spec fn dbg_str(s: Seq<char>) -> Seq<char> {
    seq!['"'] + value::escaped(s) + seq!['"']
}

fn dbg_str_exec(s: &str) -> (r: String)
    ensures
        r@ == dbg_str(s@),
{
    let esc = value::escape_chars(s);
    let body = strings::chars_to_string(&esc);
    let r = strings::cat3("\"", body.as_str(), "\"");
    proof {
        reveal_strlit("\"");
        assert(r@ =~= dbg_str(s@));
    }
    r
}

/// A list of strings as diagnostics quote it: each in double quotes, comma
/// separated, in brackets.
pub open spec fn quoted_list(s: Seq<Seq<char>>) -> Seq<char> {
    seq!['['] + quoted_items(s, 0) + seq![']']
}

pub open spec fn quoted_items(s: Seq<Seq<char>>, i: int) -> Seq<char>
    decreases s.len() - i,
{
    if i < 0 || i >= s.len() {
        Seq::empty()
    } else {
        let one = dbg_str(s[i]);
        if i == s.len() - 1 {
            one
        } else {
            one + ", "@ + quoted_items(s, i + 1)
        }
    }
}

fn quoted_items_exec(s: &Vec<String>, i: usize) -> (r: String)
    requires
        i <= s@.len(),
    ensures
        r@ == quoted_items(s.deep_view(), i as int),
    decreases s@.len() - i,
{
    if i >= s.len() {
        String::new()
    } else {
        proof {
            assert(s.deep_view()[i as int] == s@[i as int]@);
        }
        let one = dbg_str_exec(s[i].as_str());
        if i == s.len() - 1 {
            one
        } else {
            let rest = quoted_items_exec(s, i + 1);
            strings::cat3(one.as_str(), ", ", rest.as_str())
        }
    }
}

fn quoted_list_exec(s: &Vec<String>) -> (r: String)
    ensures
        r@ == quoted_list(s.deep_view()),
{
    let body = quoted_items_exec(s, 0);
    let r = strings::cat3("[", body.as_str(), "]");
    proof {
        reveal_strlit("[");
        reveal_strlit("]");
        assert(r@ =~= quoted_list(s.deep_view()));
    }
    r
}

/// One path mismatch for each error text.
pub open spec fn path_mms(e: Seq<char>, a: Seq<char>, errs: Seq<Seq<char>>) -> Seq<MismatchV> {
    Seq::new(
        errs.len(),
        |i: int| MismatchV::PathMismatch { expected: e, actual: a, mismatch: errs[i] },
    )
}

/// One query mismatch for each error text.
pub open spec fn query_mms(k: Seq<char>, e: Seq<char>, a: Seq<char>, errs: Seq<Seq<char>>) -> Seq<
    MismatchV,
> {
    Seq::new(
        errs.len(),
        |i: int|
            MismatchV::QueryMismatch {
                parameter: k,
                expected: e,
                actual: a,
                mismatch: errs[i],
            },
    )
}

/// One header mismatch for each error text.
pub open spec fn header_mms(k: Seq<char>, e: Seq<char>, a: Seq<char>, errs: Seq<Seq<char>>) -> Seq<
    MismatchV,
> {
    Seq::new(
        errs.len(),
        |i: int|
            MismatchV::HeaderMismatch {
                key: k,
                expected: e,
                actual: a,
                mismatch: errs[i],
            },
    )
}

fn push_path_mms(mismatches: &mut Vec<Mismatch>, e: &String, a: &String, errs: &Vec<String>)
    ensures
        final(mismatches).deep_view() == old(mismatches).deep_view() + path_mms(
            e@,
            a@,
            errs.deep_view(),
        ),
{
    let ghost base = old(mismatches).deep_view();
    let mut i: usize = 0;
    while i < errs.len()
        invariant
            i <= errs@.len(),
            mismatches.deep_view() =~= base + path_mms(e@, a@, errs.deep_view()).subrange(
                0,
                i as int,
            ),
        decreases errs@.len() - i,
    {
        proof {
            assert(errs@[i as int]@ == errs.deep_view()[i as int]);
        }
        push_mismatch(
            mismatches,
            Mismatch::PathMismatch {
                expected: e.clone(),
                actual: a.clone(),
                mismatch: errs[i].clone(),
            },
        );
        i += 1;
        proof {
            assert(mismatches.deep_view() =~= base + path_mms(e@, a@, errs.deep_view()).subrange(
                0,
                i as int,
            ));
        }
    }
    proof {
        assert(path_mms(e@, a@, errs.deep_view()).subrange(
            0,
            errs.deep_view().len() as int,
        ) =~= path_mms(e@, a@, errs.deep_view()));
    }
}

fn push_query_mms(
    mismatches: &mut Vec<Mismatch>,
    k: &String,
    e: &String,
    a: &String,
    errs: &Vec<String>,
)
    ensures
        final(mismatches).deep_view() == old(mismatches).deep_view() + query_mms(
            k@,
            e@,
            a@,
            errs.deep_view(),
        ),
{
    let ghost base = old(mismatches).deep_view();
    let mut i: usize = 0;
    while i < errs.len()
        invariant
            i <= errs@.len(),
            mismatches.deep_view() =~= base + query_mms(k@, e@, a@, errs.deep_view()).subrange(
                0,
                i as int,
            ),
        decreases errs@.len() - i,
    {
        proof {
            assert(errs@[i as int]@ == errs.deep_view()[i as int]);
        }
        push_mismatch(
            mismatches,
            Mismatch::QueryMismatch {
                parameter: k.clone(),
                expected: e.clone(),
                actual: a.clone(),
                mismatch: errs[i].clone(),
            },
        );
        i += 1;
        proof {
            assert(mismatches.deep_view() =~= base + query_mms(
                k@,
                e@,
                a@,
                errs.deep_view(),
            ).subrange(0, i as int));
        }
    }
    proof {
        assert(query_mms(k@, e@, a@, errs.deep_view()).subrange(
            0,
            errs.deep_view().len() as int,
        ) =~= query_mms(k@, e@, a@, errs.deep_view()));
    }
}

fn push_header_mms(
    mismatches: &mut Vec<Mismatch>,
    k: &String,
    e: &String,
    a: &String,
    errs: &Vec<String>,
)
    ensures
        final(mismatches).deep_view() == old(mismatches).deep_view() + header_mms(
            k@,
            e@,
            a@,
            errs.deep_view(),
        ),
{
    let ghost base = old(mismatches).deep_view();
    let mut i: usize = 0;
    while i < errs.len()
        invariant
            i <= errs@.len(),
            mismatches.deep_view() =~= base + header_mms(k@, e@, a@, errs.deep_view()).subrange(
                0,
                i as int,
            ),
        decreases errs@.len() - i,
    {
        proof {
            assert(errs@[i as int]@ == errs.deep_view()[i as int]);
        }
        push_mismatch(
            mismatches,
            Mismatch::HeaderMismatch {
                key: k.clone(),
                expected: e.clone(),
                actual: a.clone(),
                mismatch: errs[i].clone(),
            },
        );
        i += 1;
        proof {
            assert(mismatches.deep_view() =~= base + header_mms(
                k@,
                e@,
                a@,
                errs.deep_view(),
            ).subrange(0, i as int));
        }
    }
    proof {
        assert(header_mms(k@, e@, a@, errs.deep_view()).subrange(
            0,
            errs.deep_view().len() as int,
        ) =~= header_mms(k@, e@, a@, errs.deep_view()));
    }
}

/// The mismatches of a path comparison: the rules at `$.path` when defined,
/// plain equality otherwise; one path mismatch per failing message.
pub open spec fn spec_match_path(e: Seq<char>, a: Seq<char>, m: Option<rules::Matchers>) -> Seq<
    MismatchV,
> {
    path_mms(e, a, value_errs_at(seq!["$"@, "path"@], e, a, m))
}

/// Matches the actual request path to the expected one, under the rules at
/// `$.path` when any are defined and by equality otherwise.
pub fn match_path(
    expected: String,
    actual: String,
    mismatches: &mut Vec<Mismatch>,
    matchers: &Option<rules::Matchers>,
)
    ensures
        final(mismatches).deep_view() == old(mismatches).deep_view() + spec_match_path(
            expected@,
            actual@,
            *matchers,
        ),
{
    let mut path: Vec<String> = Vec::new();
    path.push(String::from_str("$"));
    path.push(String::from_str("path"));
    proof {
        assert(path.deep_view() =~= seq!["$"@, "path"@]);
    }
    let errs = value_errs_at_exec(&path, expected.as_str(), actual.as_str(), matchers);
    push_path_mms(mismatches, &expected, &actual, &errs);
}


/// The lookup path for one query parameter.
pub open spec fn query_path(k: Seq<char>) -> Seq<Seq<char>> {
    seq!["$"@, "query"@, k]
}

fn query_path_exec(k: &String) -> (r: Vec<String>)
    ensures
        r.deep_view() == query_path(k@),
{
    let mut path: Vec<String> = Vec::new();
    path.push(String::from_str("$"));
    path.push(String::from_str("query"));
    path.push(k.clone());
    proof {
        assert(path.deep_view() =~= query_path(k@));
    }
    path
}

/// The mismatches of one query value pair: the rules at `$.query.<key>` when
/// defined, plain equality otherwise.
pub open spec fn spec_cqpv(
    k: Seq<char>,
    e: Seq<char>,
    a: Seq<char>,
    m: Option<rules::Matchers>,
) -> Seq<MismatchV> {
    query_mms(k, e, a, value_errs_at(query_path(k), e, a, m))
}

/// Compares one query parameter value pair (see [`spec_cqpv`]).
pub fn compare_query_parameter_value(
    key: &String,
    expected: &String,
    actual: &String,
    mismatches: &mut Vec<Mismatch>,
    matchers: &Option<rules::Matchers>,
)
    ensures
        final(mismatches).deep_view() == old(mismatches).deep_view() + spec_cqpv(
            key@,
            expected@,
            actual@,
            *matchers,
        ),
{
    let path = query_path_exec(key);
    let errs = value_errs_at_exec(&path, expected.as_str(), actual.as_str(), matchers);
    push_query_mms(mismatches, key, expected, actual, &errs);
}

/// The mismatches of the index-aligned walk over one parameter's value
/// lists from index `i` on: paired values compare under the rules, and an
/// expected value beyond the actual length is reported missing.
pub open spec fn spec_cqpvs(
    k: Seq<char>,
    evs: Seq<Seq<char>>,
    avs: Seq<Seq<char>>,
    i: int,
    m: Option<rules::Matchers>,
) -> Seq<MismatchV>
    decreases evs.len() - i,
{
    if i < 0 || i >= evs.len() {
        Seq::empty()
    } else {
        let this = if i < avs.len() {
            spec_cqpv(k, evs[i], avs[i], m)
        } else {
            seq![
                MismatchV::QueryMismatch {
                    parameter: k,
                    expected: quoted_list(evs),
                    actual: quoted_list(avs),
                    mismatch: "Expected query parameter '"@ + k + "' value '"@ + evs[i]
                        + "' but was missing"@,
                },
            ]
        };
        this + spec_cqpvs(k, evs, avs, i + 1, m)
    }
}

/// Compares one parameter's expected values to the actual ones, index by
/// index (see [`spec_cqpvs`]).
pub fn compare_query_parameter_values(
    key: &String,
    expected: &Vec<String>,
    actual: &Vec<String>,
    mismatches: &mut Vec<Mismatch>,
    matchers: &Option<rules::Matchers>,
)
    ensures
        final(mismatches).deep_view() == old(mismatches).deep_view() + spec_cqpvs(
            key@,
            expected.deep_view(),
            actual.deep_view(),
            0,
            *matchers,
        ),
{
    cqpvs_rec(key, expected, actual, 0, mismatches, matchers);
}

fn cqpvs_rec(
    key: &String,
    expected: &Vec<String>,
    actual: &Vec<String>,
    i: usize,
    mismatches: &mut Vec<Mismatch>,
    matchers: &Option<rules::Matchers>,
)
    requires
        i <= expected@.len(),
    ensures
        final(mismatches).deep_view() == old(mismatches).deep_view() + spec_cqpvs(
            key@,
            expected.deep_view(),
            actual.deep_view(),
            i as int,
            *matchers,
        ),
    decreases expected@.len() - i,
{
    if i >= expected.len() {
        proof {
            assert(final(mismatches).deep_view() =~= old(mismatches).deep_view() + spec_cqpvs(
                key@,
                expected.deep_view(),
                actual.deep_view(),
                i as int,
                *matchers,
            ));
        }
    } else {
        proof {
            assert(expected@[i as int]@ == expected.deep_view()[i as int]);
        }
        if i < actual.len() {
            proof {
                assert(actual@[i as int]@ == actual.deep_view()[i as int]);
            }
            compare_query_parameter_value(key, &expected[i], &actual[i], mismatches, matchers);
        } else {
            let eq = quoted_list_exec(expected);
            let aq = quoted_list_exec(actual);
            let msg = strings::cat5(
                "Expected query parameter '",
                key.as_str(),
                "' value '",
                expected[i].as_str(),
                "' but was missing",
            );
            push_mismatch(
                mismatches,
                Mismatch::QueryMismatch {
                    parameter: key.clone(),
                    expected: eq,
                    actual: aq,
                    mismatch: msg,
                },
            );
        }
        cqpvs_rec(key, expected, actual, i + 1, mismatches, matchers);
        proof {
            assert(final(mismatches).deep_view() =~= old(mismatches).deep_view() + spec_cqpvs(
                key@,
                expected.deep_view(),
                actual.deep_view(),
                i as int,
                *matchers,
            ));
        }
    }
}

/// The mismatches of one query parameter's value lists: an unexpected value
/// list for a parameter expected empty, a count report when the lengths
/// differ, and the index-aligned comparison.
pub open spec fn spec_match_query_values(
    k: Seq<char>,
    evs: Seq<Seq<char>>,
    avs: Seq<Seq<char>>,
    m: Option<rules::Matchers>,
) -> Seq<MismatchV> {
    if evs.len() == 0 && avs.len() > 0 {
        seq![
            MismatchV::QueryMismatch {
                parameter: k,
                expected: quoted_list(evs),
                actual: quoted_list(avs),
                mismatch: "Expected an empty parameter list for '"@ + k + "' but received "@
                    + quoted_list(avs),
            },
        ]
    } else {
        let count = if evs.len() != avs.len() {
            seq![
                MismatchV::QueryMismatch {
                    parameter: k,
                    expected: quoted_list(evs),
                    actual: quoted_list(avs),
                    mismatch: "Expected query parameter '"@ + k + "' with "@
                        + numbers::dec_digits(evs.len() as nat) + " value(s) but received "@
                        + numbers::dec_digits(avs.len() as nat) + " value(s)"@,
                },
            ]
        } else {
            Seq::empty()
        };
        count + spec_cqpvs(k, evs, avs, 0, m)
    }
}

/// Matches one query parameter's expected value list to the actual one (see
/// [`spec_match_query_values`]).
pub fn match_query_values(
    key: &String,
    expected: &Vec<String>,
    actual: &Vec<String>,
    mismatches: &mut Vec<Mismatch>,
    matchers: &Option<rules::Matchers>,
)
    ensures
        final(mismatches).deep_view() == old(mismatches).deep_view() + spec_match_query_values(
            key@,
            expected.deep_view(),
            actual.deep_view(),
            *matchers,
        ),
{
    if expected.len() == 0 && actual.len() > 0 {
        let eq = quoted_list_exec(expected);
        let aq = quoted_list_exec(actual);
        let msg = strings::cat5(
            "Expected an empty parameter list for '",
            key.as_str(),
            "' but received ",
            aq.as_str(),
            "",
        );
        proof {
            reveal_strlit("");
        }
        push_mismatch(
            mismatches,
            Mismatch::QueryMismatch {
                parameter: key.clone(),
                expected: eq,
                actual: aq,
                mismatch: msg,
            },
        );
        proof {
            assert(final(mismatches).deep_view() =~= old(mismatches).deep_view()
                + spec_match_query_values(
                key@,
                expected.deep_view(),
                actual.deep_view(),
                *matchers,
            ));
        }
    } else {
        if expected.len() != actual.len() {
            let eq = quoted_list_exec(expected);
            let aq = quoted_list_exec(actual);
            let en = numbers::usize_to_string(expected.len());
            let an = numbers::usize_to_string(actual.len());
            let msg = strings::cat6(
                "Expected query parameter '",
                key.as_str(),
                "' with ",
                en.as_str(),
                " value(s) but received ",
                an.as_str(),
            );
            let msg = strings::cat2(msg.as_str(), " value(s)");
            push_mismatch(
                mismatches,
                Mismatch::QueryMismatch {
                    parameter: key.clone(),
                    expected: eq,
                    actual: aq,
                    mismatch: msg,
                },
            );
        }
        compare_query_parameter_values(key, expected, actual, mismatches, matchers);
        proof {
            assert(final(mismatches).deep_view() =~= old(mismatches).deep_view()
                + spec_match_query_values(
                key@,
                expected.deep_view(),
                actual.deep_view(),
                *matchers,
            ));
        }
    }
}

/// The index of the first query entry whose name reads `k`, or -1.
pub open spec fn qfind(qs: Seq<(String, Vec<String>)>, k: Seq<char>) -> int
    decreases qs.len(),
{
    if qs.len() == 0 {
        -1
    } else if qs[0].0@ == k {
        0
    } else {
        let r = qfind(qs.subrange(1, qs.len() as int), k);
        if r < 0 {
            -1
        } else {
            r + 1
        }
    }
}

proof fn lemma_qfind_first(qs: Seq<(String, Vec<String>)>, k: Seq<char>, idx: int)
    requires
        0 <= idx < qs.len(),
        qs[idx].0@ == k,
        forall|j: int| 0 <= j < idx ==> qs[j].0@ != k,
    ensures
        qfind(qs, k) == idx,
    decreases qs.len(),
{
    if idx > 0 {
        let t = qs.subrange(1, qs.len() as int);
        assert(forall|j: int| 0 <= j < idx - 1 ==> t[j] == qs[j + 1]);
        lemma_qfind_first(t, k, idx - 1);
    }
}

proof fn lemma_qfind_none(qs: Seq<(String, Vec<String>)>, k: Seq<char>)
    requires
        forall|j: int| 0 <= j < qs.len() ==> qs[j].0@ != k,
    ensures
        qfind(qs, k) == -1,
    decreases qs.len(),
{
    if qs.len() > 0 {
        let t = qs.subrange(1, qs.len() as int);
        assert(forall|j: int| 0 <= j < t.len() ==> t[j] == qs[j + 1]);
        lemma_qfind_none(t, k);
    }
}

fn qfind_exec(qs: &Vec<(String, Vec<String>)>, k: &str) -> (r: Option<usize>)
    ensures
        match r {
            Some(i) => i < qs@.len() && qfind(qs@, k@) == i as int,
            None => qfind(qs@, k@) == -1,
        },
{
    let mut i: usize = 0;
    while i < qs.len()
        invariant
            i <= qs@.len(),
            forall|j: int| 0 <= j < i ==> qs@[j].0@ != k@,
        decreases qs@.len() - i,
    {
        if strings::str_eq(qs[i].0.as_str(), k) {
            proof {
                lemma_qfind_first(qs@, k@, i as int);
            }
            return Some(i);
        }
        i += 1;
    }
    proof {
        lemma_qfind_none(qs@, k@);
    }
    None
}

/// The walk over the expected query parameters from index `i` on: a shared
/// name compares the value lists, a missing one is reported.
pub open spec fn spec_qm_expected(
    eq: Seq<(String, Vec<String>)>,
    i: int,
    aq: Seq<(String, Vec<String>)>,
    m: Option<rules::Matchers>,
) -> Seq<MismatchV>
    decreases eq.len() - i,
{
    if i < 0 || i >= eq.len() {
        Seq::empty()
    } else {
        let k = eq[i].0@;
        let idx = qfind(aq, k);
        let this = if 0 <= idx < aq.len() {
            spec_match_query_values(k, eq[i].1.deep_view(), aq[idx].1.deep_view(), m)
        } else {
            seq![
                MismatchV::QueryMismatch {
                    parameter: k,
                    expected: quoted_list(eq[i].1.deep_view()),
                    actual: Seq::empty(),
                    mismatch: "Expected query parameter '"@ + k + "' but was missing"@,
                },
            ]
        };
        this + spec_qm_expected(eq, i + 1, aq, m)
    }
}

/// The walk over the actual query parameters from index `j` on: a name the
/// expected map lacks is reported as unexpected.
pub open spec fn spec_qm_actual(
    aq: Seq<(String, Vec<String>)>,
    j: int,
    eq: Seq<(String, Vec<String>)>,
) -> Seq<MismatchV>
    decreases aq.len() - j,
{
    if j < 0 || j >= aq.len() {
        Seq::empty()
    } else {
        let k = aq[j].0@;
        let this = if qfind(eq, k) >= 0 {
            Seq::empty()
        } else {
            seq![
                MismatchV::QueryMismatch {
                    parameter: k,
                    expected: Seq::empty(),
                    actual: quoted_list(aq[j].1.deep_view()),
                    mismatch: "Unexpected query parameter '"@ + k + "' received"@,
                },
            ]
        };
        this + spec_qm_actual(aq, j + 1, eq)
    }
}

fn qm_expected_rec(
    eq: &Vec<(String, Vec<String>)>,
    i: usize,
    aq: &Vec<(String, Vec<String>)>,
    mismatches: &mut Vec<Mismatch>,
    matchers: &Option<rules::Matchers>,
)
    requires
        i <= eq@.len(),
    ensures
        final(mismatches).deep_view() == old(mismatches).deep_view() + spec_qm_expected(
            eq@,
            i as int,
            aq@,
            *matchers,
        ),
    decreases eq@.len() - i,
{
    if i >= eq.len() {
        proof {
            assert(final(mismatches).deep_view() =~= old(mismatches).deep_view()
                + spec_qm_expected(eq@, i as int, aq@, *matchers));
        }
    } else {
        match qfind_exec(aq, eq[i].0.as_str()) {
            Some(idx) => {
                match_query_values(&eq[i].0, &eq[i].1, &aq[idx].1, mismatches, matchers);
            },
            None => {
                let vq = quoted_list_exec(&eq[i].1);
                let msg = strings::cat3(
                    "Expected query parameter '",
                    eq[i].0.as_str(),
                    "' but was missing",
                );
                push_mismatch(
                    mismatches,
                    Mismatch::QueryMismatch {
                        parameter: eq[i].0.clone(),
                        expected: vq,
                        actual: String::new(),
                        mismatch: msg,
                    },
                );
            },
        }
        qm_expected_rec(eq, i + 1, aq, mismatches, matchers);
        proof {
            assert(final(mismatches).deep_view() =~= old(mismatches).deep_view()
                + spec_qm_expected(eq@, i as int, aq@, *matchers));
        }
    }
}

fn qm_actual_rec(
    aq: &Vec<(String, Vec<String>)>,
    j: usize,
    eq: &Vec<(String, Vec<String>)>,
    mismatches: &mut Vec<Mismatch>,
)
    requires
        j <= aq@.len(),
    ensures
        final(mismatches).deep_view() == old(mismatches).deep_view() + spec_qm_actual(
            aq@,
            j as int,
            eq@,
        ),
    decreases aq@.len() - j,
{
    if j >= aq.len() {
        proof {
            assert(final(mismatches).deep_view() =~= old(mismatches).deep_view() + spec_qm_actual(
                aq@,
                j as int,
                eq@,
            ));
        }
    } else {
        match qfind_exec(eq, aq[j].0.as_str()) {
            Some(_) => {},
            None => {
                let vq = quoted_list_exec(&aq[j].1);
                let msg = strings::cat3(
                    "Unexpected query parameter '",
                    aq[j].0.as_str(),
                    "' received",
                );
                push_mismatch(
                    mismatches,
                    Mismatch::QueryMismatch {
                        parameter: aq[j].0.clone(),
                        expected: String::new(),
                        actual: vq,
                        mismatch: msg,
                    },
                );
            },
        }
        qm_actual_rec(aq, j + 1, eq, mismatches);
        proof {
            assert(final(mismatches).deep_view() =~= old(mismatches).deep_view() + spec_qm_actual(
                aq@,
                j as int,
                eq@,
            ));
        }
    }
}

/// The mismatches of two query maps: the expected walk, then the unexpected
/// walk.
pub open spec fn spec_match_query_maps(
    eq: Seq<(String, Vec<String>)>,
    aq: Seq<(String, Vec<String>)>,
    m: Option<rules::Matchers>,
) -> Seq<MismatchV> {
    spec_qm_expected(eq, 0, aq, m) + spec_qm_actual(aq, 0, eq)
}

/// Matches the expected query map to the actual one: every expected
/// parameter must be present with matching values, and every actual
/// parameter must be expected.
pub fn match_query_maps(
    expected: Vec<(String, Vec<String>)>,
    actual: Vec<(String, Vec<String>)>,
    mismatches: &mut Vec<Mismatch>,
    matchers: &Option<rules::Matchers>,
)
    ensures
        final(mismatches).deep_view() == old(mismatches).deep_view() + spec_match_query_maps(
            expected@,
            actual@,
            *matchers,
        ),
{
    qm_expected_rec(&expected, 0, &actual, mismatches, matchers);
    qm_actual_rec(&actual, 0, &expected, mismatches);
}

/// The mismatches of the query comparison, over optional query maps: a
/// missing side stands for the empty map.
pub open spec fn spec_match_query(
    eq: Option<Vec<(String, Vec<String>)>>,
    aq: Option<Vec<(String, Vec<String>)>>,
    m: Option<rules::Matchers>,
) -> Seq<MismatchV> {
    match (aq, eq) {
        (Some(aqm), Some(eqm)) => spec_match_query_maps(eqm@, aqm@, m),
        (Some(aqm), None) => spec_qm_actual(aqm@, 0, Seq::empty()),
        (None, Some(eqm)) => spec_qm_expected(eqm@, 0, Seq::empty(), m),
        (None, None) => Seq::empty(),
    }
}

/// Matches the actual query parameters to the expected ones (see
/// [`spec_match_query`]).
pub fn match_query(
    expected: Option<Vec<(String, Vec<String>)>>,
    actual: Option<Vec<(String, Vec<String>)>>,
    mismatches: &mut Vec<Mismatch>,
    matchers: &Option<rules::Matchers>,
)
    ensures
        final(mismatches).deep_view() == old(mismatches).deep_view() + spec_match_query(
            expected,
            actual,
            *matchers,
        ),
{
    match (actual, expected) {
        (Some(aqm), Some(eqm)) => {
            match_query_maps(eqm, aqm, mismatches, matchers);
        },
        (Some(aqm), None) => {
            let empty: Vec<(String, Vec<String>)> = Vec::new();
            qm_actual_rec(&aqm, 0, &empty, mismatches);
            proof {
                assert(empty@ =~= Seq::<(String, Vec<String>)>::empty());
            }
        },
        (None, Some(eqm)) => {
            let empty: Vec<(String, Vec<String>)> = Vec::new();
            qm_expected_rec(&eqm, 0, &empty, mismatches, matchers);
            proof {
                assert(empty@ =~= Seq::<(String, Vec<String>)>::empty());
            }
        },
        (None, None) => {
            proof {
                assert(final(mismatches).deep_view() =~= old(mismatches).deep_view()
                    + spec_match_query(expected, actual, *matchers));
            }
        },
    }
}


/// Splits a value on a separator and trims each piece.
pub fn strip_whitespace(val: &str, split_by: char) -> (r: Vec<String>)
    ensures
        r.deep_view() == strings::split_trimmed(val@, split_by),
{
    let v = strings::str_to_chars(val);
    let pieces = strings::split_trim_chars(&v, split_by);
    pieces_to_strings(&pieces, 0)
}

fn pieces_to_strings(pieces: &Vec<Vec<char>>, from: usize) -> (r: Vec<String>)
    requires
        from <= pieces@.len(),
    ensures
        r.deep_view() == pieces.deep_view().subrange(from as int, pieces.deep_view().len() as int),
    decreases pieces@.len() - from,
{
    if from >= pieces.len() {
        let r: Vec<String> = Vec::new();
        proof {
            assert(r.deep_view() =~= pieces.deep_view().subrange(
                from as int,
                pieces.deep_view().len() as int,
            ));
        }
        r
    } else {
        let head = strings::chars_to_string(&pieces[from]);
        proof {
            strings::lemma_chars_deep_view(pieces@[from as int]);
            assert(head@ == pieces.deep_view()[from as int]);
        }
        let rest = pieces_to_strings(pieces, from + 1);
        let ghost hv = head@;
        let mut r: Vec<String> = Vec::new();
        r.push(head);
        let mut tail = rest;
        let ghost restv = tail.deep_view();
        r.append(&mut tail);
        proof {
            assert forall|k: int| 0 <= k < r@.len() implies r.deep_view()[k] == (seq![hv]
                + restv)[k] by {
                if k > 0 {
                    assert(r@[k] == tail@[k - 1] || true);
                }
            }
            assert(r.deep_view() =~= seq![hv] + restv);
            assert(r.deep_view() =~= pieces.deep_view().subrange(
                from as int,
                pieces.deep_view().len() as int,
            ));
        }
        r
    }
}

/// A header value normalised for comparison: split on commas, each piece
/// trimmed, and rejoined with plain commas.
pub open spec fn hdr_norm(s: Seq<char>) -> Seq<char> {
    strings::join_with(strings::split_trimmed(s, ','), ","@)
}

fn hdr_norm_exec(s: &str) -> (r: String)
    ensures
        r@ == hdr_norm(s@),
{
    let pieces = strip_whitespace(s, ',');
    strings::join_strings(&pieces, ",")
}

/// Pairs of charset parameters: each piece split on `=` and trimmed; pieces
/// without a value are dropped.
pub open spec fn spec_charset_params(ps: Seq<Seq<char>>, i: int) -> Seq<(Seq<char>, Seq<char>)>
    decreases ps.len() - i,
{
    if i < 0 || i >= ps.len() {
        Seq::empty()
    } else {
        let parts = strings::split_trimmed(ps[i], '=');
        let this = if parts.len() >= 2 {
            seq![(parts[0], parts[1])]
        } else {
            Seq::empty()
        };
        this + spec_charset_params(ps, i + 1)
    }
}

/// Parses `name=value` parameters, trimming both sides; a piece without a
/// `=` is dropped.
pub fn parse_charset_parameters(parameters: &Vec<String>) -> (r: Vec<(String, String)>)
    ensures
        r.deep_view() == spec_charset_params(parameters.deep_view(), 0),
{
    charset_params_rec(parameters, 0)
}

fn charset_params_rec(parameters: &Vec<String>, i: usize) -> (r: Vec<(String, String)>)
    requires
        i <= parameters@.len(),
    ensures
        r.deep_view() == spec_charset_params(parameters.deep_view(), i as int),
    decreases parameters@.len() - i,
{
    if i >= parameters.len() {
        let r: Vec<(String, String)> = Vec::new();
        proof {
            assert(r.deep_view() =~= Seq::<(Seq<char>, Seq<char>)>::empty());
        }
        r
    } else {
        proof {
            assert(parameters@[i as int]@ == parameters.deep_view()[i as int]);
        }
        let v = strings::str_to_chars(parameters[i].as_str());
        let parts = strings::split_trim_chars(&v, '=');
        let rest = charset_params_rec(parameters, i + 1);
        if parts.len() >= 2 {
            proof {
                strings::lemma_chars_deep_view(parts@[0]);
                strings::lemma_chars_deep_view(parts@[1]);
                assert(parts@[0]@ == parts.deep_view()[0]);
                assert(parts@[1]@ == parts.deep_view()[1]);
            }
            let name = strings::chars_to_string(&parts[0]);
            let value = strings::chars_to_string(&parts[1]);
            let ghost nv = name@;
            let ghost vv = value@;
            let mut r: Vec<(String, String)> = Vec::new();
            r.push((name, value));
            let mut tail = rest;
            let ghost restv = tail.deep_view();
            r.append(&mut tail);
            proof {
                assert forall|k: int| 0 <= k < r@.len() implies r.deep_view()[k] == (seq![(nv, vv)]
                    + restv)[k] by {
                    if k > 0 {
                        assert(r@[k] == tail@[k - 1] || true);
                    }
                }
                assert(r.deep_view() =~= seq![(nv, vv)] + restv);
                assert(r.deep_view() =~= spec_charset_params(parameters.deep_view(), i as int));
            }
            r
        } else {
            proof {
                assert(rest.deep_view() =~= spec_charset_params(parameters.deep_view(), i as int));
            }
            rest
        }
    }
}

/// The index of the last parameter whose name reads `k`, or -1: a repeated
/// parameter name is collapsed to its last occurrence.
pub open spec fn cp_rfind(ps: Seq<(Seq<char>, Seq<char>)>, k: Seq<char>) -> int
    decreases ps.len(),
{
    if ps.len() == 0 {
        -1
    } else if ps[ps.len() - 1].0 == k {
        ps.len() - 1
    } else {
        cp_rfind(ps.subrange(0, ps.len() - 1), k)
    }
}

proof fn lemma_cp_rfind_last(ps: Seq<(Seq<char>, Seq<char>)>, k: Seq<char>, idx: int)
    requires
        0 <= idx < ps.len(),
        ps[idx].0 == k,
        forall|j: int| idx < j < ps.len() ==> ps[j].0 != k,
    ensures
        cp_rfind(ps, k) == idx,
    decreases ps.len(),
{
    if idx < ps.len() - 1 {
        let t = ps.subrange(0, ps.len() - 1);
        assert(forall|j: int| 0 <= j < t.len() ==> t[j] == ps[j]);
        lemma_cp_rfind_last(t, k, idx);
    }
}

proof fn lemma_cp_rfind_none(ps: Seq<(Seq<char>, Seq<char>)>, k: Seq<char>)
    requires
        forall|j: int| 0 <= j < ps.len() ==> ps[j].0 != k,
    ensures
        cp_rfind(ps, k) == -1,
    decreases ps.len(),
{
    if ps.len() > 0 {
        let t = ps.subrange(0, ps.len() - 1);
        assert(forall|j: int| 0 <= j < t.len() ==> t[j] == ps[j]);
        lemma_cp_rfind_none(t, k);
    }
}

fn cp_rfind_exec(ps: &Vec<(String, String)>, k: &str) -> (r: Option<usize>)
    ensures
        match r {
            Some(i) => i < ps@.len() && cp_rfind(ps.deep_view(), k@) == i as int,
            None => cp_rfind(ps.deep_view(), k@) == -1,
        },
{
    let mut i: usize = ps.len();
    while i > 0
        invariant
            i <= ps@.len(),
            forall|j: int| i <= j < ps@.len() ==> ps.deep_view()[j].0 != k@,
        decreases i,
    {
        i -= 1;
        proof {
            assert(ps.deep_view()[i as int].0 == ps@[i as int].0@);
        }
        if strings::str_eq(ps[i].0.as_str(), k) {
            proof {
                lemma_cp_rfind_last(ps.deep_view(), k@, i as int);
            }
            return Some(i);
        }
    }
    proof {
        lemma_cp_rfind_none(ps.deep_view(), k@);
    }
    None
}

/// The content-type header mismatch: one fixed record quoting both values.
pub open spec fn ct_mm(e: Seq<char>, a: Seq<char>) -> MismatchV {
    MismatchV::HeaderMismatch {
        key: "Content-Type"@,
        expected: e,
        actual: a,
        mismatch: "Expected header 'Content-Type' to have value '"@ + e + "' but was '"@ + a
            + "'"@,
    }
}

fn ct_mm_exec(e: &String, a: &String) -> (r: Mismatch)
    ensures
        r@ == ct_mm(e@, a@),
{
    Mismatch::HeaderMismatch {
        key: String::from_str("Content-Type"),
        expected: e.clone(),
        actual: a.clone(),
        mismatch: strings::cat5(
            "Expected header 'Content-Type' to have value '",
            e.as_str(),
            "' but was '",
            a.as_str(),
            "'",
        ),
    }
}

/// The walk over the expected content-type parameters from index `i` on: a
/// repeated name counts once, its last occurrence winning on both sides,
/// and only names both sides share are compared; a shared name whose values
/// differ reports the content-type mismatch.
pub open spec fn spec_ct_params(
    eps: Seq<(Seq<char>, Seq<char>)>,
    i: int,
    aps: Seq<(Seq<char>, Seq<char>)>,
    e: Seq<char>,
    a: Seq<char>,
) -> Seq<MismatchV>
    decreases eps.len() - i,
{
    if i < 0 || i >= eps.len() {
        Seq::empty()
    } else {
        let k = eps[i].0;
        let this = if cp_rfind(eps, k) == i {
            let j = cp_rfind(aps, k);
            if 0 <= j < aps.len() {
                if aps[j].1 == eps[i].1 {
                    Seq::empty()
                } else {
                    seq![ct_mm(e, a)]
                }
            } else {
                Seq::empty()
            }
        } else {
            Seq::empty()
        };
        this + spec_ct_params(eps, i + 1, aps, e, a)
    }
}

/// The mismatches of a content-type header comparison: the media types must
/// read the same, and every parameter name both sides share must carry the
/// same value (a repeated name collapses to its last occurrence; a
/// parameter the actual value lacks is not checked); each failure reports
/// the same fixed record.
pub open spec fn spec_match_content_type(e: Seq<char>, a: Seq<char>) -> Seq<MismatchV> {
    let ev = strings::split_trimmed(e, ';');
    let av = strings::split_trimmed(a, ';');
    if ev[0] == av[0] {
        spec_ct_params(
            spec_charset_params(ev.subrange(1, ev.len() as int), 0),
            0,
            spec_charset_params(av.subrange(1, av.len() as int), 0),
            e,
            a,
        )
    } else {
        seq![ct_mm(e, a)]
    }
}

fn ct_params_rec(
    eps: &Vec<(String, String)>,
    i: usize,
    aps: &Vec<(String, String)>,
    e: &String,
    a: &String,
    mismatches: &mut Vec<Mismatch>,
)
    requires
        i <= eps@.len(),
    ensures
        final(mismatches).deep_view() == old(mismatches).deep_view() + spec_ct_params(
            eps.deep_view(),
            i as int,
            aps.deep_view(),
            e@,
            a@,
        ),
    decreases eps@.len() - i,
{
    if i >= eps.len() {
        proof {
            assert(final(mismatches).deep_view() =~= old(mismatches).deep_view() + spec_ct_params(
                eps.deep_view(),
                i as int,
                aps.deep_view(),
                e@,
                a@,
            ));
        }
    } else {
        proof {
            assert(eps.deep_view()[i as int].0 == eps@[i as int].0@);
            assert(eps.deep_view()[i as int].1 == eps@[i as int].1@);
        }
        let is_last = match cp_rfind_exec(eps, eps[i].0.as_str()) {
            Some(le) => le == i,
            None => false,
        };
        if is_last {
            match cp_rfind_exec(aps, eps[i].0.as_str()) {
                Some(idx) => {
                    proof {
                        assert(aps.deep_view()[idx as int].1 == aps@[idx as int].1@);
                    }
                    if !strings::str_eq(aps[idx].1.as_str(), eps[i].1.as_str()) {
                        push_mismatch(mismatches, ct_mm_exec(e, a));
                    }
                },
                None => {},
            }
        }
        ct_params_rec(eps, i + 1, aps, e, a, mismatches);
        proof {
            assert(final(mismatches).deep_view() =~= old(mismatches).deep_view() + spec_ct_params(
                eps.deep_view(),
                i as int,
                aps.deep_view(),
                e@,
                a@,
            ));
        }
    }
}

/// Matches two content-type header values: the media types must read the
/// same, and every parameter name both sides share must carry the same
/// value, the last occurrence of a repeated name winning (see
/// [`spec_match_content_type`]).
pub fn match_content_type(expected: &String, actual: &String, mismatches: &mut Vec<Mismatch>)
    ensures
        final(mismatches).deep_view() == old(mismatches).deep_view() + spec_match_content_type(
            expected@,
            actual@,
        ),
{
    let ev = strip_whitespace(expected.as_str(), ';');
    let av = strip_whitespace(actual.as_str(), ';');
    proof {
        assert(strings::split_on(expected@, ';').len() > 0);
        assert(strings::split_on(actual@, ';').len() > 0);
        assert(ev.deep_view().len() == strings::split_on(expected@, ';').len());
        assert(av.deep_view().len() == strings::split_on(actual@, ';').len());
        assert(ev@.len() > 0);
        assert(av@.len() > 0);
        assert(ev@[0]@ == ev.deep_view()[0]);
        assert(av@[0]@ == av.deep_view()[0]);
    }
    if strings::str_eq(ev[0].as_str(), av[0].as_str()) {
        let etail = tail_strings(&ev);
        let atail = tail_strings(&av);
        let eps = parse_charset_parameters(&etail);
        let aps = parse_charset_parameters(&atail);
        ct_params_rec(&eps, 0, &aps, expected, actual, mismatches);
    } else {
        push_mismatch(mismatches, ct_mm_exec(expected, actual));
        proof {
            assert(final(mismatches).deep_view() =~= old(mismatches).deep_view()
                + spec_match_content_type(expected@, actual@));
        }
    }
}

fn tail_strings(s: &Vec<String>) -> (r: Vec<String>)
    requires
        s@.len() > 0,
    ensures
        r.deep_view() == s.deep_view().subrange(1, s.deep_view().len() as int),
{
    let mut r: Vec<String> = Vec::new();
    let mut i: usize = 1;
    while i < s.len()
        invariant
            1 <= i <= s@.len(),
            r@.len() == i - 1,
            forall|j: int| 0 <= j < i - 1 ==> r.deep_view()[j] == s.deep_view()[j + 1],
        decreases s@.len() - i,
    {
        let ghost r0 = r;
        let x = s[i].clone();
        proof {
            assert(x@ == s.deep_view()[i as int]);
        }
        r.push(x);
        i += 1;
        proof {
            assert forall|j: int| 0 <= j < i - 1 implies r.deep_view()[j] == s.deep_view()[j
                + 1] by {
                if j < i - 2 {
                    assert(r@[j] == r0@[j]);
                    assert(r0.deep_view()[j] == r0@[j]@);
                }
            }
        }
    }
    proof {
        assert(r.deep_view() =~= s.deep_view().subrange(1, s.deep_view().len() as int));
    }
    r
}

/// The first header whose name matches `key` ignoring ASCII case, handed
/// back under the looked-up key with the stored value.
pub open spec fn spec_find_entry(hs: Seq<(String, String)>, key: Seq<char>) -> Option<
    (Seq<char>, Seq<char>),
> {
    let idx = hdr_find(hs, strings::lower_seq(key));
    if 0 <= idx < hs.len() {
        Some((key, hs[idx].1@))
    } else {
        None
    }
}

proof fn lemma_lower_idem(s: Seq<char>)
    ensures
        strings::lower_seq(strings::lower_seq(s)) == strings::lower_seq(s),
{
    assert forall|i: int| 0 <= i < s.len() implies strings::lower_char(
        strings::lower_seq(s)[i],
    ) == strings::lower_seq(s)[i] by {
        assert(strings::lower_seq(s)[i] == strings::lower_char(s[i]));
    }
    assert(strings::lower_seq(strings::lower_seq(s)) =~= strings::lower_seq(s));
}

/// Finds a header by name, ignoring ASCII case (see [`spec_find_entry`]).
pub fn find_entry(map: &Vec<(String, String)>, key: &String) -> (r: Option<(String, String)>)
    ensures
        match r {
            Some(p) => spec_find_entry(map@, key@) == Some((p.0@, p.1@)),
            None => spec_find_entry(map@, key@) is None,
        },
{
    let kv = strings::str_to_chars(key.as_str());
    let kl = strings::lower_chars(&kv);
    let ks = strings::chars_to_string(&kl);
    proof {
        lemma_lower_idem(key@);
    }
    match hdr_find_exec(map, ks.as_str()) {
        Some(i) => Some((key.clone(), map[i].1.clone())),
        None => None,
    }
}

/// The lookup path for one header.
pub open spec fn headers_path(k: Seq<char>) -> Seq<Seq<char>> {
    seq!["$"@, "headers"@, k]
}

/// Whether any rule path matches the looked-up path under the optional rule
/// category.
fn defined_at(path: &Vec<String>, m: &Option<rules::Matchers>) -> (r: bool)
    ensures
        r == (rules::best_of(rules_of(*m), path.deep_view()) is Some),
{
    let empty = rules::Matchers::new();
    let ms: &rules::Matchers = match m {
        Some(x) => x,
        None => &empty,
    };
    proof {
        if m is None {
            assert(ms.entries@ =~= rules_of(*m));
        }
    }
    ms.select_best_matcher(path).is_some()
}

/// The mismatches of one header comparison: both values are normalised (see
/// [`hdr_norm`]); the rules at `$.headers.<key>` apply when defined, the
/// `Content-Type` header compares by media type and parameters, and any
/// other header by equality.
pub open spec fn spec_match_header_value(
    k: Seq<char>,
    e: Seq<char>,
    a: Seq<char>,
    m: Option<rules::Matchers>,
) -> Seq<MismatchV> {
    let en = hdr_norm(e);
    let an = hdr_norm(a);
    if rules::best_of(rules_of(m), headers_path(k)) is Some {
        header_mms(k, en, an, value_errs_at(headers_path(k), en, an, m))
    } else if strings::lower_seq(k) == "content-type"@ {
        spec_match_content_type(en, an)
    } else {
        header_mms(k, en, an, value_errs_at(headers_path(k), en, an, m))
    }
}

/// Matches one header's expected value to the actual one (see
/// [`spec_match_header_value`]).
pub fn match_header_value(
    key: &String,
    expected: &String,
    actual: &String,
    mismatches: &mut Vec<Mismatch>,
    matchers: &Option<rules::Matchers>,
)
    ensures
        final(mismatches).deep_view() == old(mismatches).deep_view() + spec_match_header_value(
            key@,
            expected@,
            actual@,
            *matchers,
        ),
{
    let en = hdr_norm_exec(expected.as_str());
    let an = hdr_norm_exec(actual.as_str());
    let mut path: Vec<String> = Vec::new();
    path.push(String::from_str("$"));
    path.push(String::from_str("headers"));
    path.push(key.clone());
    proof {
        assert(path.deep_view() =~= headers_path(key@));
    }
    let kv = strings::str_to_chars(key.as_str());
    let kl = strings::lower_chars(&kv);
    let ct = strings::str_to_chars("content-type");
    if defined_at(&path, matchers) {
        let errs = value_errs_at_exec(&path, en.as_str(), an.as_str(), matchers);
        push_header_mms(mismatches, key, &en, &an, &errs);
    } else if strings::eq_chars(&kl, &ct) {
        match_content_type(&en, &an, mismatches);
    } else {
        let errs = value_errs_at_exec(&path, en.as_str(), an.as_str(), matchers);
        push_header_mms(mismatches, key, &en, &an, &errs);
    }
}

/// The walk over the expected headers from index `i` on: a header found in
/// the actual map (ignoring name case) compares by value, a missing one is
/// reported.
pub open spec fn spec_match_header_maps(
    ehs: Seq<(String, String)>,
    i: int,
    ahs: Seq<(String, String)>,
    m: Option<rules::Matchers>,
) -> Seq<MismatchV>
    decreases ehs.len() - i,
{
    if i < 0 || i >= ehs.len() {
        Seq::empty()
    } else {
        let k = ehs[i].0@;
        let this = match spec_find_entry(ahs, k) {
            Some(p) => spec_match_header_value(k, ehs[i].1@, p.1, m),
            None => seq![
                MismatchV::HeaderMismatch {
                    key: k,
                    expected: dbg_str(ehs[i].1@),
                    actual: Seq::empty(),
                    mismatch: "Expected header '"@ + k + "' but was missing"@,
                },
            ],
        };
        this + spec_match_header_maps(ehs, i + 1, ahs, m)
    }
}

fn mhm_rec(
    ehs: &Vec<(String, String)>,
    i: usize,
    ahs: &Vec<(String, String)>,
    mismatches: &mut Vec<Mismatch>,
    matchers: &Option<rules::Matchers>,
)
    requires
        i <= ehs@.len(),
    ensures
        final(mismatches).deep_view() == old(mismatches).deep_view() + spec_match_header_maps(
            ehs@,
            i as int,
            ahs@,
            *matchers,
        ),
    decreases ehs@.len() - i,
{
    if i >= ehs.len() {
        proof {
            assert(final(mismatches).deep_view() =~= old(mismatches).deep_view()
                + spec_match_header_maps(ehs@, i as int, ahs@, *matchers));
        }
    } else {
        match find_entry(ahs, &ehs[i].0) {
            Some((_, av)) => {
                match_header_value(&ehs[i].0, &ehs[i].1, &av, mismatches, matchers);
            },
            None => {
                let dv = dbg_str_exec(ehs[i].1.as_str());
                let msg = strings::cat3(
                    "Expected header '",
                    ehs[i].0.as_str(),
                    "' but was missing",
                );
                push_mismatch(
                    mismatches,
                    Mismatch::HeaderMismatch {
                        key: ehs[i].0.clone(),
                        expected: dv,
                        actual: String::new(),
                        mismatch: msg,
                    },
                );
            },
        }
        mhm_rec(ehs, i + 1, ahs, mismatches, matchers);
        proof {
            assert(final(mismatches).deep_view() =~= old(mismatches).deep_view()
                + spec_match_header_maps(ehs@, i as int, ahs@, *matchers));
        }
    }
}

/// Matches the expected headers to the actual ones: names compare ignoring
/// ASCII case, missing expected headers fail, extra actual headers are
/// allowed.
pub fn match_header_maps(
    expected: Vec<(String, String)>,
    actual: Vec<(String, String)>,
    mismatches: &mut Vec<Mismatch>,
    matchers: &Option<rules::Matchers>,
)
    ensures
        final(mismatches).deep_view() == old(mismatches).deep_view() + spec_match_header_maps(
            expected@,
            0,
            actual@,
            *matchers,
        ),
{
    mhm_rec(&expected, 0, &actual, mismatches, matchers);
}

/// The mismatches of the header comparison, over optional header maps: a
/// missing actual map stands for the empty map; nothing is expected of the
/// actual headers when the expected side has none.
pub open spec fn spec_match_headers(
    ehs: Option<Vec<(String, String)>>,
    ahs: Option<Vec<(String, String)>>,
    m: Option<rules::Matchers>,
) -> Seq<MismatchV> {
    match (ahs, ehs) {
        (Some(am), Some(em)) => spec_match_header_maps(em@, 0, am@, m),
        (Some(_), None) => Seq::empty(),
        (None, Some(em)) => spec_match_header_maps(em@, 0, Seq::empty(), m),
        (None, None) => Seq::empty(),
    }
}

/// Matches the actual headers to the expected ones (see
/// [`spec_match_headers`]).
pub fn match_headers(
    expected: Option<Vec<(String, String)>>,
    actual: Option<Vec<(String, String)>>,
    mismatches: &mut Vec<Mismatch>,
    matchers: &Option<rules::Matchers>,
)
    ensures
        final(mismatches).deep_view() == old(mismatches).deep_view() + spec_match_headers(
            expected,
            actual,
            *matchers,
        ),
{
    match (actual, expected) {
        (Some(am), Some(em)) => {
            match_header_maps(em, am, mismatches, matchers);
        },
        (Some(_), None) => {
            proof {
                assert(final(mismatches).deep_view() =~= old(mismatches).deep_view()
                    + spec_match_headers(expected, actual, *matchers));
            }
        },
        (None, Some(em)) => {
            let empty: Vec<(String, String)> = Vec::new();
            mhm_rec(&em, 0, &empty, mismatches, matchers);
            proof {
                assert(empty@ =~= Seq::<(String, String)>::empty());
            }
        },
        (None, None) => {
            proof {
                assert(final(mismatches).deep_view() =~= old(mismatches).deep_view()
                    + spec_match_headers(expected, actual, *matchers));
            }
        },
    }
}


/// Whether a content type selects a body matcher named by `token`: it holds
/// `application/` somewhere, with the token somewhere at or after the end of
/// that occurrence.
pub open spec fn media_selects(mt: Seq<char>, token: Seq<char>) -> bool {
    exists|i: int, j: int|
        strings::is_substr_at(mt, "application/"@, i) && strings::is_substr_at(mt, token, j) && j
            >= i + "application/"@.len()
}

/// Whether a content type selects the JSON body matcher.
pub open spec fn is_json_media(mt: Seq<char>) -> bool {
    media_selects(mt, "json"@)
}

/// Whether a content type selects the XML body matcher.
pub open spec fn is_xml_media(mt: Seq<char>) -> bool {
    media_selects(mt, "xml"@)
}

fn media_selects_exec(mt: &str, token: &str) -> (r: bool)
    ensures
        r == media_selects(mt@, token@),
{
    let v = strings::str_to_chars(mt);
    let app = strings::str_to_chars("application/");
    let token_sub = strings::str_to_chars(token);
    match find_first_sub(&v, &app) {
        None => {
            proof {
                assert forall|i: int, j: int|
                    !(strings::is_substr_at(mt@, "application/"@, i) && strings::is_substr_at(
                        mt@,
                        token@,
                        j,
                    ) && j >= i + "application/"@.len()) by {
                    assert(!strings::is_substr_at(v@, app@, i));
                }
            }
            false
        },
        Some(i) => {
            let n = v.len();
            proof {
                assert(i + app@.len() <= v@.len());
            }
            let from = i + app.len();
            let tail = strings::subvec(&v, from, n);
            if strings::contains_chars(&tail, &token_sub) {
                proof {
                    let j0 = choose|j: int| strings::is_substr_at(tail@, token_sub@, j);
                    assert(strings::is_substr_at(v@, token_sub@, from + j0)) by {
                        assert(tail@.subrange(j0, j0 + token_sub@.len() as int) == token_sub@);
                        assert(v@.subrange(from + j0, from + j0 + token_sub@.len() as int)
                            =~= tail@.subrange(j0, j0 + token_sub@.len() as int));
                    }
                    assert(strings::is_substr_at(mt@, "application/"@, i as int)
                        && strings::is_substr_at(mt@, token@, from + j0) && from + j0 >= i
                        + "application/"@.len());
                }
                true
            } else {
                proof {
                    assert forall|x: int, j: int|
                        !(strings::is_substr_at(mt@, "application/"@, x) && strings::is_substr_at(
                            mt@,
                            token@,
                            j,
                        ) && j >= x + "application/"@.len()) by {
                        if strings::is_substr_at(mt@, "application/"@, x) && strings::is_substr_at(
                            mt@,
                            token@,
                            j,
                        ) && j >= x + "application/"@.len() {
                            assert(x >= i);
                            assert(j >= from);
                            assert(j + token_sub@.len() <= v@.len());
                            assert(strings::is_substr_at(tail@, token_sub@, j - from)) by {
                                assert(tail@.subrange(
                                    j - from,
                                    j - from + token_sub@.len() as int,
                                ) =~= v@.subrange(j, j + token_sub@.len() as int));
                            }
                        }
                    }
                }
                false
            }
        },
    }
}

/// The index of the first occurrence of `sub` in `v`, when there is one.
fn find_first_sub(v: &Vec<char>, sub: &Vec<char>) -> (r: Option<usize>)
    ensures
        match r {
            Some(i) => {
                &&& i + sub@.len() <= v@.len()
                &&& strings::is_substr_at(v@, sub@, i as int)
                &&& forall|k: int| 0 <= k < i ==> !strings::is_substr_at(v@, sub@, k)
            },
            None => forall|k: int| !strings::is_substr_at(v@, sub@, k),
        },
{
    if sub.len() > v.len() {
        proof {
            assert(forall|k: int| !strings::is_substr_at(v@, sub@, k));
        }
        return None;
    }
    let last = v.len() - sub.len();
    let mut i: usize = 0;
    loop
        invariant
            sub@.len() <= v@.len(),
            last == v@.len() - sub@.len(),
            i <= last,
            forall|k: int| 0 <= k < i ==> !strings::is_substr_at(v@, sub@, k),
        decreases last - i,
    {
        if starts_at_pub(v, sub, i) {
            return Some(i);
        }
        if i == last {
            proof {
                assert(forall|k: int| strings::is_substr_at(v@, sub@, k) ==> 0 <= k <= last);
            }
            return None;
        }
        i += 1;
    }
}

fn starts_at_pub(v: &Vec<char>, sub: &Vec<char>, i: usize) -> (r: bool)
    requires
        i + sub@.len() <= v@.len(),
    ensures
        r == strings::is_substr_at(v@, sub@, i as int),
{
    let n = v.len();
    let mut j: usize = 0;
    while j < sub.len()
        invariant
            i + sub@.len() <= v@.len(),
            n == v@.len(),
            j <= sub@.len(),
            forall|k: int| 0 <= k < j ==> v@[i + k] == sub@[k],
        decreases sub@.len() - j,
    {
        proof {
            assert(i + j < n);
        }
        if v[i + j] != sub[j] {
            proof {
                assert(v@.subrange(i as int, i + sub@.len() as int)[j as int] != sub@[j as int]);
            }
            return false;
        }
        j += 1;
    }
    proof {
        assert(v@.subrange(i as int, i + sub@.len() as int) =~= sub@);
    }
    true
}

/// The parse-failure mismatch at the document root.
pub open spec fn parse_mm(e: Seq<char>, a: Seq<char>, msg: Seq<char>) -> MismatchV {
    MismatchV::BodyMismatch { path: "$"@, expected: Some(e), actual: Some(a), mismatch: msg }
}

/// The mismatches of a JSON body comparison: a side that does not parse is
/// reported at the root and the walk is skipped; otherwise the structural
/// walk from the root.
pub open spec fn spec_match_json_str(
    e: Seq<char>,
    a: Seq<char>,
    entries: Seq<rules::MatcherEntry>,
    config: DiffConfig,
) -> Seq<MismatchV> {
    match (trusted::json_parse_result(e), trusted::json_parse_result(a)) {
        (Err(me), Err(ma)) => seq![
            parse_mm(e, a, "Failed to parse the expected body: '"@ + me + "'"@),
            parse_mm(e, a, "Failed to parse the actual body: '"@ + ma + "'"@),
        ],
        (Err(me), Ok(_)) => seq![parse_mm(e, a, "Failed to parse the expected body: '"@ + me + "'"@)],
        (Ok(_), Err(ma)) => seq![parse_mm(e, a, "Failed to parse the actual body: '"@ + ma + "'"@)],
        (Ok(ev), Ok(av)) => json::spec_compare(seq!["$"@], ev, av, entries, config),
    }
}

fn parse_mm_exec(e: &str, a: &str, msg: String) -> (r: Mismatch)
    ensures
        r@ == parse_mm(e@, a@, msg@),
{
    Mismatch::BodyMismatch {
        path: String::from_str("$"),
        expected: Some(String::from_str(e)),
        actual: Some(String::from_str(a)),
        mismatch: msg,
    }
}

/// Matches two JSON body texts under the rules and configuration (see
/// [`spec_match_json_str`]).
pub fn match_json_str(
    e: &str,
    a: &str,
    matchers: &rules::Matchers,
    config: DiffConfig,
) -> (r: Vec<Mismatch>)
    ensures
        r.deep_view() == spec_match_json_str(e@, a@, matchers.entries@, config),
{
    let pe = trusted::parse_json(e);
    let pa = trusted::parse_json(a);
    match (pe, pa) {
        (Err(me), Err(ma)) => {
            let m1 = parse_mm_exec(
                e,
                a,
                strings::cat3("Failed to parse the expected body: '", me.as_str(), "'"),
            );
            let m2 = parse_mm_exec(
                e,
                a,
                strings::cat3("Failed to parse the actual body: '", ma.as_str(), "'"),
            );
            let ghost v1 = m1@;
            let ghost v2 = m2@;
            let mut r: Vec<Mismatch> = Vec::new();
            r.push(m1);
            r.push(m2);
            proof {
                assert(r.deep_view() =~= seq![v1, v2]);
            }
            r
        },
        (Err(me), Ok(_)) => {
            let m1 = parse_mm_exec(
                e,
                a,
                strings::cat3("Failed to parse the expected body: '", me.as_str(), "'"),
            );
            let ghost v1 = m1@;
            let mut r: Vec<Mismatch> = Vec::new();
            r.push(m1);
            proof {
                assert(r.deep_view() =~= seq![v1]);
            }
            r
        },
        (Ok(_), Err(ma)) => {
            let m1 = parse_mm_exec(
                e,
                a,
                strings::cat3("Failed to parse the actual body: '", ma.as_str(), "'"),
            );
            let ghost v1 = m1@;
            let mut r: Vec<Mismatch> = Vec::new();
            r.push(m1);
            proof {
                assert(r.deep_view() =~= seq![v1]);
            }
            r
        },
        (Ok(ev), Ok(av)) => {
            let rp = json::root_path();
            compare_at_root(&rp, &ev, &av, matchers, config)
        },
    }
}

fn compare_at_root(
    rp: &Vec<String>,
    ev: &value::Value,
    av: &value::Value,
    matchers: &rules::Matchers,
    config: DiffConfig,
) -> (r: Vec<Mismatch>)
    requires
        rp.deep_view() == seq!["$"@],
    ensures
        r.deep_view() == json::spec_compare(seq!["$"@], *ev, *av, matchers.entries@, config),
{
    json::compare(rp, ev, av, matchers, config)
}

/// The mismatches of an XML body comparison: a side that does not parse is
/// reported at the root and the walk is skipped; otherwise the structural
/// walk from the root, over the converted element tree. An element is a map
/// holding its name under `#name`, its attributes under `@`-prefixed names,
/// its character data under `#text` and its child elements as a list under
/// `#children`; repeated children thereby take list semantics, and under a
/// type rule the first child stands as the template. Rule paths and
/// mismatch paths follow this converted shape, not the element names: the
/// root's text is `$['#text']`, its attribute `a` is `$['@a']`, and its
/// second child's text is `$['#children'][1]['#text']`. Addressing elements
/// by name (such as `$.order.item`) would need the children regrouped under
/// their names, which no contract here states.
pub open spec fn spec_match_xml_str(
    e: Seq<char>,
    a: Seq<char>,
    entries: Seq<rules::MatcherEntry>,
    config: DiffConfig,
) -> Seq<MismatchV> {
    match (trusted::xml_parse_result(e), trusted::xml_parse_result(a)) {
        (Err(me), Err(ma)) => seq![
            parse_mm(e, a, "Failed to parse the expected body: '"@ + me + "'"@),
            parse_mm(e, a, "Failed to parse the actual body: '"@ + ma + "'"@),
        ],
        (Err(me), Ok(_)) => seq![parse_mm(e, a, "Failed to parse the expected body: '"@ + me + "'"@)],
        (Ok(_), Err(ma)) => seq![parse_mm(e, a, "Failed to parse the actual body: '"@ + ma + "'"@)],
        (Ok(ev), Ok(av)) => json::spec_compare(seq!["$"@], ev, av, entries, config),
    }
}

/// Matches two XML body texts under the rules and configuration (see
/// [`spec_match_xml_str`]).
pub fn match_xml_str(
    e: &str,
    a: &str,
    matchers: &rules::Matchers,
    config: DiffConfig,
) -> (r: Vec<Mismatch>)
    ensures
        r.deep_view() == spec_match_xml_str(e@, a@, matchers.entries@, config),
{
    let pe = trusted::parse_xml(e);
    let pa = trusted::parse_xml(a);
    match (pe, pa) {
        (Err(me), Err(ma)) => {
            let m1 = parse_mm_exec(
                e,
                a,
                strings::cat3("Failed to parse the expected body: '", me.as_str(), "'"),
            );
            let m2 = parse_mm_exec(
                e,
                a,
                strings::cat3("Failed to parse the actual body: '", ma.as_str(), "'"),
            );
            let ghost v1 = m1@;
            let ghost v2 = m2@;
            let mut r: Vec<Mismatch> = Vec::new();
            r.push(m1);
            r.push(m2);
            proof {
                assert(r.deep_view() =~= seq![v1, v2]);
            }
            r
        },
        (Err(me), Ok(_)) => {
            let m1 = parse_mm_exec(
                e,
                a,
                strings::cat3("Failed to parse the expected body: '", me.as_str(), "'"),
            );
            let ghost v1 = m1@;
            let mut r: Vec<Mismatch> = Vec::new();
            r.push(m1);
            proof {
                assert(r.deep_view() =~= seq![v1]);
            }
            r
        },
        (Ok(_), Err(ma)) => {
            let m1 = parse_mm_exec(
                e,
                a,
                strings::cat3("Failed to parse the actual body: '", ma.as_str(), "'"),
            );
            let ghost v1 = m1@;
            let mut r: Vec<Mismatch> = Vec::new();
            r.push(m1);
            proof {
                assert(r.deep_view() =~= seq![v1]);
            }
            r
        },
        (Ok(ev), Ok(av)) => {
            let rp = json::root_path();
            compare_at_root(&rp, &ev, &av, matchers, config)
        },
    }
}

/// The mismatches of a body comparison under a content type, by first match:
/// JSON media types take the JSON walk, XML media types the XML walk, and
/// anything else plain text equality.
pub open spec fn spec_compare_bodies(
    mt: Seq<char>,
    e: Seq<char>,
    a: Seq<char>,
    m: Option<rules::Matchers>,
    config: DiffConfig,
) -> Seq<MismatchV> {
    if is_json_media(mt) {
        spec_match_json_str(e, a, rules_of(m), config)
    } else if is_xml_media(mt) {
        spec_match_xml_str(e, a, rules_of(m), config)
    } else {
        spec_match_text(e, a)
    }
}

/// Dispatches a body comparison on the content type (see
/// [`spec_compare_bodies`]).
pub fn compare_bodies(
    mimetype: String,
    expected: &String,
    actual: &String,
    config: DiffConfig,
    mismatches: &mut Vec<Mismatch>,
    matchers: &Option<rules::Matchers>,
)
    ensures
        final(mismatches).deep_view() == old(mismatches).deep_view() + spec_compare_bodies(
            mimetype@,
            expected@,
            actual@,
            *matchers,
            config,
        ),
{
    if media_selects_exec(mimetype.as_str(), "json") {
        let empty = rules::Matchers::new();
        let ms: &rules::Matchers = match matchers {
            Some(x) => x,
            None => &empty,
        };
        proof {
            if matchers is None {
                assert(ms.entries@ =~= rules_of(*matchers));
            }
        }
        let r = match_json_str(expected.as_str(), actual.as_str(), ms, config);
        let ghost base = old(mismatches).deep_view();
        let mut tail = r;
        append_to(mismatches, tail);
        proof {
            assert(final(mismatches).deep_view() =~= base + spec_compare_bodies(
                mimetype@,
                expected@,
                actual@,
                *matchers,
                config,
            ));
        }
    } else if media_selects_exec(mimetype.as_str(), "xml") {
        let empty = rules::Matchers::new();
        let ms: &rules::Matchers = match matchers {
            Some(x) => x,
            None => &empty,
        };
        proof {
            if matchers is None {
                assert(ms.entries@ =~= rules_of(*matchers));
            }
        }
        let r = match_xml_str(expected.as_str(), actual.as_str(), ms, config);
        let ghost base = old(mismatches).deep_view();
        let mut tail = r;
        append_to(mismatches, tail);
        proof {
            assert(final(mismatches).deep_view() =~= base + spec_compare_bodies(
                mimetype@,
                expected@,
                actual@,
                *matchers,
                config,
            ));
        }
    } else {
        match_text(expected, actual, mismatches);
    }
}

/// Appends the second list of mismatches to the first.
fn append_to(dst: &mut Vec<Mismatch>, src: Vec<Mismatch>)
    ensures
        final(dst).deep_view() == old(dst).deep_view() + src.deep_view(),
{
    let ghost d0 = *dst;
    let ghost s0 = src;
    let mut tail = src;
    dst.append(&mut tail);
    proof {
        assert forall|j: int| 0 <= j < dst@.len() implies dst.deep_view()[j] == (d0.deep_view()
            + s0.deep_view())[j] by {
            if j < d0@.len() {
                assert(dst@[j] == d0@[j]);
            } else {
                assert(dst@[j] == s0@[j - d0@.len()]);
            }
        }
        assert(dst.deep_view() =~= d0.deep_view() + s0.deep_view());
    }
}

/// The mismatches of the body comparison of two messages: with equal content
/// types the presence table applies (a missing expected body passes, a null
/// expected body rejects a present actual one, a present expected body needs
/// an actual one, and two present bodies compare under the content type);
/// with different content types a present expected body is a body type
/// mismatch.
pub open spec fn spec_match_body(
    e: HttpPart,
    a: HttpPart,
    config: DiffConfig,
    m: Option<rules::Matchers>,
) -> Seq<MismatchV> {
    if spec_mimetype(e) == spec_mimetype(a) {
        match (e.body, a.body) {
            (OptionalBody::Missing, _) => Seq::empty(),
            (OptionalBody::Null, OptionalBody::Present(b)) => seq![
                MismatchV::BodyMismatch {
                    path: "/"@,
                    expected: None,
                    actual: Some(b@),
                    mismatch: "Expected empty body but received '"@ + b@ + "'"@,
                },
            ],
            (OptionalBody::Null, _) => Seq::empty(),
            (OptionalBody::Present(eb), OptionalBody::Missing) => seq![
                MismatchV::BodyMismatch {
                    path: "/"@,
                    expected: Some(eb@),
                    actual: None,
                    mismatch: "Expected body '"@ + eb@ + "' but was missing"@,
                },
            ],
            (OptionalBody::Present(_), OptionalBody::Null) => Seq::empty(),
            (OptionalBody::Present(eb), OptionalBody::Present(ab)) => spec_compare_bodies(
                spec_mimetype(e),
                eb@,
                ab@,
                m,
                config,
            ),
        }
    } else if e.body is Present {
        seq![
            MismatchV::BodyTypeMismatch { expected: spec_mimetype(e), actual: spec_mimetype(a) },
        ]
    } else {
        Seq::empty()
    }
}

/// Matches the actual body to the expected one, taking the content type of
/// each into account (see [`spec_match_body`]).
pub fn match_body(
    expected: &HttpPart,
    actual: &HttpPart,
    config: DiffConfig,
    mismatches: &mut Vec<Mismatch>,
    matchers: &Option<rules::Matchers>,
)
    ensures
        final(mismatches).deep_view() == old(mismatches).deep_view() + spec_match_body(
            *expected,
            *actual,
            config,
            *matchers,
        ),
{
    let emt = expected.mimetype();
    let amt = actual.mimetype();
    if strings::str_eq(emt.as_str(), amt.as_str()) {
        match (&expected.body, &actual.body) {
            (OptionalBody::Missing, _) => {
                proof {
                    assert(final(mismatches).deep_view() =~= old(mismatches).deep_view()
                        + spec_match_body(*expected, *actual, config, *matchers));
                }
            },
            (OptionalBody::Null, OptionalBody::Present(b)) => {
                let msg = strings::cat3("Expected empty body but received '", b.as_str(), "'");
                push_mismatch(
                    mismatches,
                    Mismatch::BodyMismatch {
                        path: String::from_str("/"),
                        expected: None,
                        actual: Some(b.clone()),
                        mismatch: msg,
                    },
                );
                proof {
                    assert(final(mismatches).deep_view() =~= old(mismatches).deep_view()
                        + spec_match_body(*expected, *actual, config, *matchers));
                }
            },
            (OptionalBody::Null, _) => {
                proof {
                    assert(final(mismatches).deep_view() =~= old(mismatches).deep_view()
                        + spec_match_body(*expected, *actual, config, *matchers));
                }
            },
            (OptionalBody::Present(eb), OptionalBody::Missing) => {
                let msg = strings::cat3("Expected body '", eb.as_str(), "' but was missing");
                push_mismatch(
                    mismatches,
                    Mismatch::BodyMismatch {
                        path: String::from_str("/"),
                        expected: Some(eb.clone()),
                        actual: None,
                        mismatch: msg,
                    },
                );
                proof {
                    assert(final(mismatches).deep_view() =~= old(mismatches).deep_view()
                        + spec_match_body(*expected, *actual, config, *matchers));
                }
            },
            (OptionalBody::Present(_), OptionalBody::Null) => {
                proof {
                    assert(final(mismatches).deep_view() =~= old(mismatches).deep_view()
                        + spec_match_body(*expected, *actual, config, *matchers));
                }
            },
            (OptionalBody::Present(eb), OptionalBody::Present(ab)) => {
                compare_bodies(emt, eb, ab, config, mismatches, matchers);
            },
        }
    } else if expected.body.is_present() {
        push_mismatch(mismatches, Mismatch::BodyTypeMismatch { expected: emt, actual: amt });
        proof {
            assert(final(mismatches).deep_view() =~= old(mismatches).deep_view() + spec_match_body(
                *expected,
                *actual,
                config,
                *matchers,
            ));
        }
    } else {
        proof {
            assert(final(mismatches).deep_view() =~= old(mismatches).deep_view() + spec_match_body(
                *expected,
                *actual,
                config,
                *matchers,
            ));
        }
    }
}

/// Matches two JSON bodies under a matching context (see
/// [`spec_match_json_str`]); `Ok` stands for the empty mismatch list.
pub fn match_json(
    expected: &HttpPart,
    actual: &HttpPart,
    context: &rules::MatchingContext,
) -> (r: Result<(), Vec<Mismatch>>)
    ensures
        ({
            let s = spec_match_json_str(
                body_value(expected.body),
                body_value(actual.body),
                context.matchers.entries@,
                context.config,
            );
            match r {
                Ok(_) => s.len() == 0,
                Err(v) => v.deep_view() == s && s.len() > 0,
            }
        }),
{
    let eb = expected.body.value();
    let ab = actual.body.value();
    let mm = match_json_str(eb.as_str(), ab.as_str(), &context.matchers, context.config);
    if mm.len() == 0 {
        proof {
            assert(mm.deep_view().len() == 0);
        }
        Ok(())
    } else {
        proof {
            assert(mm.deep_view().len() > 0);
        }
        Err(mm)
    }
}

/// The mismatches of a status comparison: plain equality.
pub open spec fn spec_match_status(e: u16, a: u16) -> Seq<MismatchV> {
    if e == a {
        Seq::empty()
    } else {
        seq![MismatchV::StatusMismatch { expected: e, actual: a }]
    }
}

/// Matches the actual response status to the expected one.
pub fn match_status(expected: u16, actual: u16, mismatches: &mut Vec<Mismatch>)
    ensures
        final(mismatches).deep_view() == old(mismatches).deep_view() + spec_match_status(
            expected,
            actual,
        ),
{
    if expected != actual {
        push_mismatch(mismatches, Mismatch::StatusMismatch { expected, actual });
        proof {
            assert(final(mismatches).deep_view() =~= old(mismatches).deep_view()
                + spec_match_status(expected, actual));
        }
    } else {
        proof {
            assert(final(mismatches).deep_view() =~= old(mismatches).deep_view()
                + spec_match_status(expected, actual));
        }
    }
}

/// Every mismatch of a request comparison: method, path, body (with
/// unexpected keys rejected), query and headers, in that order, with no
/// short-circuiting; the expected message's rules govern throughout.
pub open spec fn spec_match_request(e: HttpPart, a: HttpPart) -> Seq<MismatchV> {
    spec_match_method(e.method@, a.method@) + spec_match_path(e.path@, a.path@, e.matching_rules)
        + spec_match_body(e, a, DiffConfig::NoUnexpectedKeys, e.matching_rules) + spec_match_query(
        e.query,
        a.query,
        e.matching_rules,
    ) + spec_match_headers(e.headers, a.headers, e.matching_rules)
}

/// Matches the expected and actual requests (see [`spec_match_request`]).
pub fn match_request(expected: HttpPart, actual: HttpPart) -> (r: Vec<Mismatch>)
    ensures
        r.deep_view() == spec_match_request(expected, actual),
{
    let mut mismatches: Vec<Mismatch> = Vec::new();
    proof {
        assert(mismatches.deep_view() =~= Seq::<MismatchV>::empty());
    }
    match_method(expected.method.clone(), actual.method.clone(), &mut mismatches);
    match_path(
        expected.path.clone(),
        actual.path.clone(),
        &mut mismatches,
        &expected.matching_rules,
    );
    match_body(
        &expected,
        &actual,
        DiffConfig::NoUnexpectedKeys,
        &mut mismatches,
        &expected.matching_rules,
    );
    match_query(expected.query, actual.query, &mut mismatches, &expected.matching_rules);
    match_headers(expected.headers, actual.headers, &mut mismatches, &expected.matching_rules);
    mismatches
}

/// Every mismatch of a response comparison: body (with unexpected keys
/// allowed), status and headers, in that order, with no short-circuiting;
/// the expected message's rules govern throughout.
pub open spec fn spec_match_response(e: HttpPart, a: HttpPart) -> Seq<MismatchV> {
    spec_match_body(e, a, DiffConfig::AllowUnexpectedKeys, e.matching_rules) + spec_match_status(
        e.status,
        a.status,
    ) + spec_match_headers(e.headers, a.headers, e.matching_rules)
}

/// Matches the expected and actual responses (see [`spec_match_response`]).
pub fn match_response(expected: HttpPart, actual: HttpPart) -> (r: Vec<Mismatch>)
    ensures
        r.deep_view() == spec_match_response(expected, actual),
{
    let mut mismatches: Vec<Mismatch> = Vec::new();
    proof {
        assert(mismatches.deep_view() =~= Seq::<MismatchV>::empty());
    }
    match_body(
        &expected,
        &actual,
        DiffConfig::AllowUnexpectedKeys,
        &mut mismatches,
        &expected.matching_rules,
    );
    match_status(expected.status, actual.status, &mut mismatches);
    match_headers(expected.headers, actual.headers, &mut mismatches, &expected.matching_rules);
    mismatches
}

/// The scheme a mock server listens on.
#[derive(Debug, Clone, Copy, PartialEq, Eq, Structural)]
pub enum MockServerScheme {
    /// Plain HTTP.
    HTTP,
    /// HTTP over TLS.
    HTTPS,
}

impl Default for MockServerScheme {
    /// Plain HTTP.
    fn default() -> (r: MockServerScheme)
        ensures
            r == MockServerScheme::HTTP,
    {
        MockServerScheme::HTTP
    }
}

impl MockServerScheme {
    /// The scheme as it stands in a URL.
    pub fn to_string(&self) -> (r: String)
        ensures
            *self == MockServerScheme::HTTP ==> r@ == "http"@,
            *self == MockServerScheme::HTTPS ==> r@ == "https"@,
    {
        match self {
            MockServerScheme::HTTP => String::from_str("http"),
            MockServerScheme::HTTPS => String::from_str("https"),
        }
    }
}

/// Counters a mock server keeps while it runs.
#[derive(Debug, Clone, Copy, PartialEq, Eq, Structural)]
pub struct MockServerMetrics {
    /// Total requests received.
    pub requests: usize,
}

impl Default for MockServerMetrics {
    /// No requests yet.
    fn default() -> (r: MockServerMetrics)
        ensures
            r.requests == 0,
    {
        MockServerMetrics { requests: 0 }
    }
}


/// Pairwise-distinct query parameter names.
pub open spec fn unique_query_names(q: Seq<(String, Vec<String>)>) -> bool {
    forall|i: int, j: int| 0 <= i < j < q.len() ==> q[i].0@ != q[j].0@
}

/// Pairwise-distinct header names, ignoring ASCII case.
pub open spec fn unique_header_names(hs: Seq<(String, String)>) -> bool {
    forall|i: int, j: int|
        0 <= i < j < hs.len() ==> strings::lower_seq(hs[i].0@) != strings::lower_seq(hs[j].0@)
}

/// A message that can be expected to match itself: it declares no matching
/// rules, its body parses when its content type selects the JSON or the XML
/// matcher and every map in the parsed document has distinct keys, its
/// query parameter names are distinct, and its header names are distinct
/// ignoring case.
pub open spec fn reflexive_part(p: HttpPart) -> bool {
    &&& p.matching_rules is None
    &&& (match p.body {
        OptionalBody::Present(b) => {
            &&& is_json_media(spec_mimetype(p)) ==> (trusted::json_parse_result(b@) is Ok
                && json::wf_unique_keys(trusted::json_parse_result(b@)->Ok_0))
            &&& (!is_json_media(spec_mimetype(p)) && is_xml_media(spec_mimetype(p))) ==> (
            trusted::xml_parse_result(b@) is Ok && json::wf_unique_keys(
                trusted::xml_parse_result(b@)->Ok_0,
            ))
        },
        _ => true,
    })
    &&& (match p.query {
        Some(q) => unique_query_names(q@),
        None => true,
    })
    &&& (match p.headers {
        Some(hs) => unique_header_names(hs@),
        None => true,
    })
}

proof fn lemma_value_errs_at_refl(pathv: Seq<Seq<char>>, e: Seq<char>)
    ensures
        value_errs_at(pathv, e, e, None) == Seq::<Seq<char>>::empty(),
{
    assert(rules_of(None) == Seq::<rules::MatcherEntry>::empty());
    assert(rules::best_of(rules_of(None), pathv) is None);
    assert(matchers::spec_string_match(e, e, rules::MatchingRule::Equality, false) is Ok);
}

proof fn lemma_cqpvs_refl(k: Seq<char>, vs: Seq<Seq<char>>, i: int)
    ensures
        spec_cqpvs(k, vs, vs, i, None) == Seq::<MismatchV>::empty(),
    decreases vs.len() - i,
{
    if 0 <= i < vs.len() {
        lemma_value_errs_at_refl(query_path(k), vs[i]);
        assert(spec_cqpv(k, vs[i], vs[i], None) =~= Seq::<MismatchV>::empty());
        lemma_cqpvs_refl(k, vs, i + 1);
        assert(Seq::<MismatchV>::empty() + Seq::<MismatchV>::empty() =~= Seq::<
            MismatchV,
        >::empty());
    }
}

proof fn lemma_qm_expected_refl(q: Seq<(String, Vec<String>)>, i: int)
    requires
        unique_query_names(q),
        i >= 0,
    ensures
        spec_qm_expected(q, i, q, None) == Seq::<MismatchV>::empty(),
    decreases q.len() - i,
{
    if i < q.len() {
        let k = q[i].0@;
        assert(forall|j: int| 0 <= j < i ==> q[j].0@ != k);
        lemma_qfind_first(q, k, i);
        lemma_cqpvs_refl(k, q[i].1.deep_view(), 0);
        assert(spec_match_query_values(k, q[i].1.deep_view(), q[i].1.deep_view(), None) =~= Seq::<
            MismatchV,
        >::empty());
        lemma_qm_expected_refl(q, i + 1);
        assert(Seq::<MismatchV>::empty() + Seq::<MismatchV>::empty() =~= Seq::<
            MismatchV,
        >::empty());
    }
}

proof fn lemma_qm_actual_refl(q: Seq<(String, Vec<String>)>, j: int)
    requires
        unique_query_names(q),
        j >= 0,
    ensures
        spec_qm_actual(q, j, q) == Seq::<MismatchV>::empty(),
    decreases q.len() - j,
{
    if j < q.len() {
        let k = q[j].0@;
        assert(forall|x: int| 0 <= x < j ==> q[x].0@ != k);
        lemma_qfind_first(q, k, j);
        lemma_qm_actual_refl(q, j + 1);
        assert(Seq::<MismatchV>::empty() + Seq::<MismatchV>::empty() =~= Seq::<
            MismatchV,
        >::empty());
    }
}

proof fn lemma_ct_params_refl(eps: Seq<(Seq<char>, Seq<char>)>, i: int, e: Seq<char>)
    requires
        i >= 0,
    ensures
        spec_ct_params(eps, i, eps, e, e) == Seq::<MismatchV>::empty(),
    decreases eps.len() - i,
{
    if i < eps.len() {
        let k = eps[i].0;
        if cp_rfind(eps, k) == i {
            assert(eps[cp_rfind(eps, k)].1 == eps[i].1);
        }
        lemma_ct_params_refl(eps, i + 1, e);
        assert(Seq::<MismatchV>::empty() + Seq::<MismatchV>::empty() =~= Seq::<
            MismatchV,
        >::empty());
    }
}

proof fn lemma_match_content_type_refl(en: Seq<char>)
    ensures
        spec_match_content_type(en, en) == Seq::<MismatchV>::empty(),
{
    let ev = strings::split_trimmed(en, ';');
    let eps = spec_charset_params(ev.subrange(1, ev.len() as int), 0);
    lemma_ct_params_refl(eps, 0, en);
}

proof fn lemma_match_header_value_refl(k: Seq<char>, v: Seq<char>)
    ensures
        spec_match_header_value(k, v, v, None) == Seq::<MismatchV>::empty(),
{
    let en = hdr_norm(v);
    assert(rules_of(None) == Seq::<rules::MatcherEntry>::empty());
    assert(rules::best_of(rules_of(None), headers_path(k)) is None);
    if strings::lower_seq(k) == "content-type"@ {
        lemma_match_content_type_refl(en);
    } else {
        lemma_value_errs_at_refl(headers_path(k), en);
        assert(header_mms(k, en, en, Seq::<Seq<char>>::empty()) =~= Seq::<MismatchV>::empty());
    }
}

proof fn lemma_mhm_refl(hs: Seq<(String, String)>, i: int)
    requires
        unique_header_names(hs),
        i >= 0,
    ensures
        spec_match_header_maps(hs, i, hs, None) == Seq::<MismatchV>::empty(),
    decreases hs.len() - i,
{
    if i < hs.len() {
        let k = hs[i].0@;
        assert(forall|j: int|
            0 <= j < i ==> strings::lower_seq(hs[j].0@) != strings::lower_seq(k));
        lemma_hdr_find_first(hs, strings::lower_seq(k), i);
        lemma_match_header_value_refl(k, hs[i].1@);
        lemma_mhm_refl(hs, i + 1);
        assert(Seq::<MismatchV>::empty() + Seq::<MismatchV>::empty() =~= Seq::<
            MismatchV,
        >::empty());
    }
}

proof fn lemma_match_body_refl(p: HttpPart, config: DiffConfig)
    requires
        reflexive_part(p),
    ensures
        spec_match_body(p, p, config, p.matching_rules) == Seq::<MismatchV>::empty(),
{
    match p.body {
        OptionalBody::Present(b) => {
            let mt = spec_mimetype(p);
            if is_json_media(mt) {
                assert(rules_of(None) == Seq::<rules::MatcherEntry>::empty());
                let ev = trusted::json_parse_result(b@)->Ok_0;
                json::lemma_compare_refl(seq!["$"@], ev, rules_of(None), config);
            } else if is_xml_media(mt) {
                assert(rules_of(None) == Seq::<rules::MatcherEntry>::empty());
                let ev = trusted::xml_parse_result(b@)->Ok_0;
                json::lemma_compare_refl(seq!["$"@], ev, rules_of(None), config);
            }
        },
        _ => {},
    }
}

/// Reflexivity: a message that declares no matching rules matches itself
/// with no mismatches, as a request and as a response, provided its JSON
/// body (when its content type selects the JSON matcher) parses with
/// distinct keys in every map, and its query parameter names and header
/// names are distinct. A message with a body that does not parse fails
/// against itself: the parse failure is reported for both sides.
pub proof fn lemma_match_request_reflexive(p: HttpPart)
    requires
        reflexive_part(p),
    ensures
        spec_match_request(p, p) == Seq::<MismatchV>::empty(),
{
    assert(spec_match_method(p.method@, p.method@) =~= Seq::<MismatchV>::empty());
    lemma_value_errs_at_refl(seq!["$"@, "path"@], p.path@);
    assert(spec_match_path(p.path@, p.path@, p.matching_rules) =~= Seq::<MismatchV>::empty());
    lemma_match_body_refl(p, DiffConfig::NoUnexpectedKeys);
    match p.query {
        Some(q) => {
            lemma_qm_expected_refl(q@, 0);
            lemma_qm_actual_refl(q@, 0);
            assert(spec_match_query(p.query, p.query, p.matching_rules) =~= Seq::<
                MismatchV,
            >::empty());
        },
        None => {
            assert(spec_match_query(p.query, p.query, p.matching_rules) =~= Seq::<
                MismatchV,
            >::empty());
        },
    }
    match p.headers {
        Some(hs) => {
            lemma_mhm_refl(hs@, 0);
        },
        None => {},
    }
    assert(spec_match_request(p, p) =~= Seq::<MismatchV>::empty());
}

/// Reflexivity for responses (see [`lemma_match_request_reflexive`]).
pub proof fn lemma_match_response_reflexive(p: HttpPart)
    requires
        reflexive_part(p),
    ensures
        spec_match_response(p, p) == Seq::<MismatchV>::empty(),
{
    lemma_match_body_refl(p, DiffConfig::AllowUnexpectedKeys);
    match p.headers {
        Some(hs) => {
            lemma_mhm_refl(hs@, 0);
        },
        None => {},
    }
    assert(spec_match_response(p, p) =~= Seq::<MismatchV>::empty());
}


/// Case-insensitivity of header names: one expected header matches an
/// actual header whose name differs only in ASCII case and whose value is
/// the same, with no mismatches, for any value.
pub proof fn lemma_match_headers_case_insensitive(
    ek: String,
    ak: String,
    v: String,
    ehs: Vec<(String, String)>,
    ahs: Vec<(String, String)>,
)
    requires
        strings::lower_seq(ek@) == strings::lower_seq(ak@),
        ehs@ == seq![(ek, v)],
        ahs@ == seq![(ak, v)],
    ensures
        spec_match_headers(Some(ehs), Some(ahs), None) == Seq::<MismatchV>::empty(),
{
    assert(strings::lower_seq(ahs@[0].0@) == strings::lower_seq(ek@));
    lemma_hdr_find_first(ahs@, strings::lower_seq(ek@), 0);
    assert(spec_find_entry(ahs@, ek@) == Some((ek@, v@)));
    lemma_match_header_value_refl(ek@, v@);
    assert(ehs@[0].0@ == ek@ && ehs@[0].1@ == v@);
    assert(spec_match_header_maps(ehs@, 1, ahs@, None) == Seq::<MismatchV>::empty());
    assert(spec_match_header_maps(ehs@, 0, ahs@, None) == spec_match_header_value(
        ek@,
        v@,
        v@,
        None,
    ) + spec_match_header_maps(ehs@, 1, ahs@, None));
    assert(spec_match_header_maps(ehs@, 0, ahs@, None) =~= Seq::<MismatchV>::empty());
}


/// Tightening the configuration from `AllowUnexpectedKeys` to
/// `NoUnexpectedKeys` for a body comparison may add mismatches but never
/// removes any, up to order and description, when the message declares no
/// matching rules. (With rules present, an empty expected map under a
/// failing multi-rule list reports fewer records under the strict
/// configuration, which replaces the whole walk by one key-set report.)
pub proof fn lemma_match_body_config_monotone(e: HttpPart, a: HttpPart)
    requires
        e.matching_rules is None,
    ensures
        json::mm_subset(
            spec_match_body(e, a, DiffConfig::AllowUnexpectedKeys, e.matching_rules),
            spec_match_body(e, a, DiffConfig::NoUnexpectedKeys, e.matching_rules),
        ),
{
    let allow = spec_match_body(e, a, DiffConfig::AllowUnexpectedKeys, e.matching_rules);
    let no = spec_match_body(e, a, DiffConfig::NoUnexpectedKeys, e.matching_rules);
    if spec_mimetype(e) == spec_mimetype(a) {
        match (e.body, a.body) {
            (OptionalBody::Present(eb), OptionalBody::Present(ab)) => {
                let mt = spec_mimetype(e);
                if is_json_media(mt) {
                    assert(rules_of(e.matching_rules) == Seq::<rules::MatcherEntry>::empty());
                    match (trusted::json_parse_result(eb@), trusted::json_parse_result(ab@)) {
                        (Ok(ev), Ok(av)) => {
                            json::lemma_compare_config_monotone(
                                seq!["$"@],
                                ev,
                                av,
                                rules_of(e.matching_rules),
                            );
                        },
                        _ => {
                            json::lemma_mm_subset_refl(no);
                        },
                    }
                } else if is_xml_media(mt) {
                    assert(rules_of(e.matching_rules) == Seq::<rules::MatcherEntry>::empty());
                    match (trusted::xml_parse_result(eb@), trusted::xml_parse_result(ab@)) {
                        (Ok(ev), Ok(av)) => {
                            json::lemma_compare_config_monotone(
                                seq!["$"@],
                                ev,
                                av,
                                rules_of(e.matching_rules),
                            );
                        },
                        _ => {
                            json::lemma_mm_subset_refl(no);
                        },
                    }
                } else {
                    json::lemma_mm_subset_refl(no);
                }
            },
            _ => {
                json::lemma_mm_subset_refl(no);
            },
        }
    } else {
        json::lemma_mm_subset_refl(no);
    }
}

} // verus!
