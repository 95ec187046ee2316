//! The inverse of the JSON encoder: a strict decoder for the wire form the
//! encoder emits, so that an encoded value can be read back. The decoders
//! accept exactly the encoder's canonical text; their contracts state that
//! decoding inverts encoding, value for value.

use vstd::prelude::*;
use crate::json::{esc_char, escape};
use crate::model::{FeatureType, Operator};
use crate::text::str_chars;
use vstd::string::StrSliceExecFns;

verus! {

/// The character an escape pair `\x` stands for, if `x` is one of the five
/// escapes the encoder emits.
pub open spec fn unesc_char(c: char) -> Option<char> {
    if c == '"' {
        Option::Some('"')
    } else if c == '\\' {
        Option::Some('\\')
    } else if c == 'n' {
        Option::Some('\n')
    } else if c == 'r' {
        Option::Some('\r')
    } else if c == 't' {
        Option::Some('\t')
    } else {
        Option::None
    }
}

/// Scans a JSON string body up to its closing quote: the decoded content
/// and what follows the quote, or nothing if the text is not a terminated
/// string body.
pub open spec fn scan_string_body(t: Seq<char>) -> Option<(Seq<char>, Seq<char>)>
    decreases t.len(),
{
    if t.len() == 0 {
        Option::None
    } else if t[0] == '"' {
        Option::Some((Seq::empty(), t.drop_first()))
    } else if t[0] == '\\' {
        if t.len() < 2 {
            Option::None
        } else {
            match unesc_char(t[1]) {
                Option::Some(c) => match scan_string_body(t.subrange(2, t.len() as int)) {
                    Option::Some(p) => Option::Some((seq![c] + p.0, p.1)),
                    Option::None => Option::None,
                },
                Option::None => Option::None,
            }
        }
    } else {
        match scan_string_body(t.drop_first()) {
            Option::Some(p) => Option::Some((seq![t[0]] + p.0, p.1)),
            Option::None => Option::None,
        }
    }
}

/// Scanning an escaped string body recovers the original content and the
/// text after the closing quote: unescaping inverts escaping.
pub proof fn lemma_scan_escape(s: Seq<char>, rest: Seq<char>)
    ensures
        scan_string_body(escape(s) + seq!['"'] + rest) == Option::Some((s, rest)),
    decreases s.len(),
{
    let t = escape(s) + seq!['"'] + rest;
    if s.len() == 0 {
        assert(escape(s) == Seq::<char>::empty());
        assert(t =~= seq!['"'] + rest);
        assert(t[0] == '"');
        assert(t.drop_first() =~= rest);
    } else {
        let c = s[0];
        let e = esc_char(c);
        assert(escape(s) == e + escape(s.drop_first()));
        lemma_scan_escape(s.drop_first(), rest);
        if c == '"' || c == '\\' || c == '\n' || c == '\r' || c == '\t' {
            assert(e.len() == 2 && e[0] == '\\' && unesc_char(e[1]) == Option::Some(c));
            assert(t.len() >= 2);
            assert(t[0] == '\\');
            assert(t[1] == e[1]);
            assert(t.subrange(2, t.len() as int) =~= escape(s.drop_first()) + seq!['"'] + rest);
            assert(seq![c] + s.drop_first() =~= s);
        } else {
            assert(e =~= seq![c]);
            assert(t[0] == c);
            assert(t[0] != '"' && t[0] != '\\');
            assert(t.drop_first() =~= escape(s.drop_first()) + seq!['"'] + rest);
            assert(seq![c] + s.drop_first() =~= s);
        }
    }
}

/// The operator a wire spelling names, if this crate knows it.
pub open spec fn known_operator_of(label: Seq<char>) -> Option<Operator> {
    if label == "NOT_IN"@ {
        Option::Some(Operator::NotIn)
    } else if label == "IN"@ {
        Option::Some(Operator::In)
    } else if label == "STR_ENDS_WITH"@ {
        Option::Some(Operator::StrEndsWith)
    } else if label == "STR_STARTS_WITH"@ {
        Option::Some(Operator::StrStartsWith)
    } else if label == "STR_CONTAINS"@ {
        Option::Some(Operator::StrContains)
    } else if label == "NUM_EQ"@ {
        Option::Some(Operator::NumEq)
    } else if label == "NUM_GT"@ {
        Option::Some(Operator::NumGt)
    } else if label == "NUM_GTE"@ {
        Option::Some(Operator::NumGte)
    } else if label == "NUM_LT"@ {
        Option::Some(Operator::NumLt)
    } else if label == "NUM_LTE"@ {
        Option::Some(Operator::NumLte)
    } else if label == "DATE_AFTER"@ {
        Option::Some(Operator::DateAfter)
    } else if label == "DATE_BEFORE"@ {
        Option::Some(Operator::DateBefore)
    } else if label == "SEMVER_EQ"@ {
        Option::Some(Operator::SemverEq)
    } else if label == "SEMVER_LT"@ {
        Option::Some(Operator::SemverLt)
    } else if label == "SEMVER_GT"@ {
        Option::Some(Operator::SemverGt)
    } else {
        Option::None
    }
}

/// The feature type a wire spelling names, if any.
pub open spec fn known_feature_type_of(label: Seq<char>) -> Option<FeatureType> {
    if label == "release"@ {
        Option::Some(FeatureType::Release)
    } else if label == "operational"@ {
        Option::Some(FeatureType::Operational)
    } else if label == "experiment"@ {
        Option::Some(FeatureType::Experiment)
    } else if label == "permission"@ {
        Option::Some(FeatureType::Permission)
    } else {
        Option::None
    }
}

/// Looking a known operator's wire spelling back up yields that operator;
/// an `Unknown` payload that is not itself a known spelling stays unknown.
/// (An `Unknown` payload that spells a known operator, such as `NOT_IN`,
/// decodes to that operator instead, so it is left out here.)
pub proof fn lemma_operator_label_round_trip(op: Operator)
    requires
        op matches Operator::Unknown(s) ==> known_operator_of(s@) is None,
    ensures
        known_operator_of(crate::model::operator_label(op)) == (match op {
            Operator::Unknown(_) => Option::<Operator>::None,
            _ => Option::<Operator>::Some(op),
        }),
{
    reveal_strlit("NOT_IN");
    reveal_strlit("IN");
    reveal_strlit("STR_ENDS_WITH");
    reveal_strlit("STR_STARTS_WITH");
    reveal_strlit("STR_CONTAINS");
    reveal_strlit("NUM_EQ");
    reveal_strlit("NUM_GT");
    reveal_strlit("NUM_GTE");
    reveal_strlit("NUM_LT");
    reveal_strlit("NUM_LTE");
    reveal_strlit("DATE_AFTER");
    reveal_strlit("DATE_BEFORE");
    reveal_strlit("SEMVER_EQ");
    reveal_strlit("SEMVER_LT");
    reveal_strlit("SEMVER_GT");
    assert("NOT_IN"@.len() == 6);
    assert("IN"@.len() == 2);
    assert("STR_ENDS_WITH"@.len() == 13);
    assert("STR_STARTS_WITH"@.len() == 15);
    assert("STR_CONTAINS"@.len() == 12);
    assert("NUM_EQ"@.len() == 6);
    assert("NUM_GT"@.len() == 6);
    assert("NUM_GTE"@.len() == 7);
    assert("NUM_LT"@.len() == 6);
    assert("NUM_LTE"@.len() == 7);
    assert("DATE_AFTER"@.len() == 10);
    assert("DATE_BEFORE"@.len() == 11);
    assert("SEMVER_EQ"@.len() == 9);
    assert("SEMVER_LT"@.len() == 9);
    assert("SEMVER_GT"@.len() == 9);
    assert("NOT_IN"@[1] == 'O');
    assert("NUM_EQ"@[1] == 'U');
    assert("NUM_GT"@[1] == 'U');
    assert("NUM_LT"@[1] == 'U');
    assert("NUM_EQ"@[4] == 'E');
    assert("NUM_GT"@[4] == 'G');
    assert("NUM_LT"@[4] == 'L');
    assert("NUM_GTE"@[4] == 'G');
    assert("NUM_LTE"@[4] == 'L');
    assert("SEMVER_EQ"@[7] == 'E');
    assert("SEMVER_LT"@[7] == 'L');
    assert("SEMVER_GT"@[7] == 'G');
}

/// Looking a feature type's wire spelling back up yields that feature type.
pub proof fn lemma_feature_type_label_round_trip(t: FeatureType)
    ensures
        known_feature_type_of(crate::model::feature_type_label(t)) == Option::Some(t),
{
    reveal_strlit("release");
    reveal_strlit("operational");
    reveal_strlit("experiment");
    reveal_strlit("permission");
    assert("release"@.len() == 7);
    assert("operational"@.len() == 11);
    assert("experiment"@.len() == 10);
    assert("permission"@.len() == 10);
    assert("experiment"@[0] == 'e');
    assert("permission"@[0] == 'p');
}

/// Whether two texts hold the same characters.
pub fn str_eq(a: &str, b: &str) -> (r: bool)
    ensures
        r == (a@ == b@),
{
    let na = a.unicode_len();
    let nb = b.unicode_len();
    if na != nb {
        return false;
    }
    let mut i: usize = 0;
    while i < na
        invariant
            i <= na,
            na == a@.len(),
            na == b@.len(),
            forall|k: int| 0 <= k < i as int ==> a@[k] == b@[k],
        decreases na - i,
    {
        if a.get_char(i) != b.get_char(i) {
            return false;
        }
        i = i + 1;
    }
    proof {
        assert(a@ =~= b@);
    }
    true
}

/// The operator named by a wire spelling: the known operator if the
/// spelling is known, else `Unknown` carrying the spelling unchanged.
pub fn operator_from_wire(s: &str) -> (r: Operator)
    ensures
        known_operator_of(s@) matches Some(op) ==> r == op,
        known_operator_of(s@) is None ==> r is Unknown && r@.label == s@ && r@.unknown,
{
    if str_eq(s, "NOT_IN") {
        Operator::NotIn
    } else if str_eq(s, "IN") {
        Operator::In
    } else if str_eq(s, "STR_ENDS_WITH") {
        Operator::StrEndsWith
    } else if str_eq(s, "STR_STARTS_WITH") {
        Operator::StrStartsWith
    } else if str_eq(s, "STR_CONTAINS") {
        Operator::StrContains
    } else if str_eq(s, "NUM_EQ") {
        Operator::NumEq
    } else if str_eq(s, "NUM_GT") {
        Operator::NumGt
    } else if str_eq(s, "NUM_GTE") {
        Operator::NumGte
    } else if str_eq(s, "NUM_LT") {
        Operator::NumLt
    } else if str_eq(s, "NUM_LTE") {
        Operator::NumLte
    } else if str_eq(s, "DATE_AFTER") {
        Operator::DateAfter
    } else if str_eq(s, "DATE_BEFORE") {
        Operator::DateBefore
    } else if str_eq(s, "SEMVER_EQ") {
        Operator::SemverEq
    } else if str_eq(s, "SEMVER_LT") {
        Operator::SemverLt
    } else if str_eq(s, "SEMVER_GT") {
        Operator::SemverGt
    } else {
        Operator::Unknown(s.to_owned())
    }
}

/// The feature type named by a wire spelling, if any.
pub fn feature_type_from_wire(s: &str) -> (r: Option<FeatureType>)
    ensures
        r == known_feature_type_of(s@),
{
    if str_eq(s, "release") {
        Some(FeatureType::Release)
    } else if str_eq(s, "operational") {
        Some(FeatureType::Operational)
    } else if str_eq(s, "experiment") {
        Some(FeatureType::Experiment)
    } else if str_eq(s, "permission") {
        Some(FeatureType::Permission)
    } else {
        None
    }
}


/// Whether `t` starts with `p`.
pub open spec fn begins_with(t: Seq<char>, p: Seq<char>) -> bool {
    p.len() <= t.len() && t.take(p.len() as int) == p
}

/// `t` without its first `n` characters.
pub open spec fn skip(t: Seq<char>, n: int) -> Seq<char> {
    t.subrange(n, t.len() as int)
}

/// Scans one JSON string (opening quote, escaped body, closing quote).
pub open spec fn scan_json_string(t: Seq<char>) -> Option<(Seq<char>, Seq<char>)> {
    if t.len() > 0 && t[0] == '"' {
        scan_string_body(t.drop_first())
    } else {
        Option::None
    }
}

/// Scanning an encoded JSON string recovers its content.
pub proof fn lemma_scan_json_string(x: Seq<char>, rest: Seq<char>)
    ensures
        scan_json_string(crate::json::json_string(x) + rest) == Option::Some((x, rest)),
{
    let t = crate::json::json_string(x) + rest;
    assert(t[0] == '"');
    assert(t.drop_first() =~= escape(x) + seq!['"'] + rest);
    lemma_scan_escape(x, rest);
}

/// Scans a JSON boolean.
pub open spec fn scan_bool(t: Seq<char>) -> Option<(bool, Seq<char>)> {
    if begins_with(t, "true"@) {
        Option::Some((true, skip(t, "true"@.len() as int)))
    } else if begins_with(t, "false"@) {
        Option::Some((false, skip(t, "false"@.len() as int)))
    } else {
        Option::None
    }
}

/// Scanning an encoded JSON boolean recovers it.
pub proof fn lemma_scan_bool(b: bool, rest: Seq<char>)
    ensures
        scan_bool(crate::json::json_bool(b) + rest) == Option::Some((b, rest)),
{
    reveal_strlit("true");
    reveal_strlit("false");
    let t = crate::json::json_bool(b) + rest;
    if b {
        assert(t.take("true"@.len() as int) =~= "true"@);
        assert(skip(t, "true"@.len() as int) =~= rest);
    } else {
        assert("false"@[0] == 'f');
        assert("true"@[0] == 't');
        assert(!begins_with(t, "true"@));
        assert(t.take("false"@.len() as int) =~= "false"@);
        assert(skip(t, "false"@.len() as int) =~= rest);
    }
}

/// Scans an optional description: `null` or a JSON string.
pub open spec fn scan_description(t: Seq<char>) -> Option<(Option<Seq<char>>, Seq<char>)> {
    if begins_with(t, "null"@) {
        Option::Some((Option::None, skip(t, "null"@.len() as int)))
    } else {
        match scan_json_string(t) {
            Option::Some(p) => Option::Some((Option::Some(p.0), p.1)),
            Option::None => Option::None,
        }
    }
}

/// The feature a canonical wire text encodes, if it is one.
pub open spec fn parse_feature_text(t: Seq<char>) -> Option<crate::model::FeatureView> {
    if !begins_with(t, "{\"name\":"@) {
        Option::None
    } else {
        match scan_json_string(skip(t, "{\"name\":"@.len() as int)) {
            Option::None => Option::None,
            Option::Some((name, t2)) => if !begins_with(t2, ",\"description\":"@) {
                Option::None
            } else {
                match scan_description(skip(t2, ",\"description\":"@.len() as int)) {
                    Option::None => Option::None,
                    Option::Some((description, t4)) => if !begins_with(t4, ",\"featureType\":"@) {
                        Option::None
                    } else {
                        match scan_json_string(skip(t4, ",\"featureType\":"@.len() as int)) {
                            Option::None => Option::None,
                            Option::Some((label, t6)) => match known_feature_type_of(label) {
                                Option::None => Option::None,
                                Option::Some(feature_type) => if !begins_with(
                                    t6,
                                    ",\"impressionData\":"@,
                                ) {
                                    Option::None
                                } else {
                                    match scan_bool(
                                        skip(t6, ",\"impressionData\":"@.len() as int),
                                    ) {
                                        Option::None => Option::None,
                                        Option::Some((impression_data, t8)) => if t8 == "}"@ {
                                            Option::Some(
                                                crate::model::FeatureView {
                                                    name,
                                                    description,
                                                    feature_type,
                                                    impression_data,
                                                },
                                            )
                                        } else {
                                            Option::None
                                        },
                                    }
                                },
                            },
                        }
                    },
                }
            },
        }
    }
}

/// Decoding inverts encoding for features: the canonical text of a feature
/// parses back to exactly that feature.
#[verifier::rlimit(100)]
pub proof fn lemma_feature_round_trip(f: crate::model::FeatureView)
    ensures
        parse_feature_text(crate::json::json_feature(f)) == Option::Some(f),
{
    let t = crate::json::json_feature(f);
    let desc = (match f.description {
        Option::Some(d) => crate::json::json_string(d),
        Option::None => "null"@,
    });
    let rest2 = ",\"featureType\":"@ + crate::json::json_string(
        crate::model::feature_type_label(f.feature_type),
    ) + ",\"impressionData\":"@ + crate::json::json_bool(f.impression_data) + "}"@;
    let rest1 = ",\"description\":"@ + desc + rest2;
    assert(t.take("{\"name\":"@.len() as int) =~= "{\"name\":"@);
    assert(skip(t, "{\"name\":"@.len() as int) =~= crate::json::json_string(f.name) + rest1);
    lemma_scan_json_string(f.name, rest1);
    let t2 = rest1;
    assert(t2.take(",\"description\":"@.len() as int) =~= ",\"description\":"@);
    let t3 = skip(t2, ",\"description\":"@.len() as int);
    assert(t3 =~= desc + rest2);
    match f.description {
        Option::Some(d) => {
            lemma_scan_json_string(d, rest2);
            assert(t3[0] == '"');
            reveal_strlit("null");
            assert("null"@[0] == 'n');
            assert(!begins_with(t3, "null"@));
            assert(scan_description(t3) == Option::Some((f.description, rest2)));
        },
        Option::None => {
            reveal_strlit("null");
            assert(t3.take("null"@.len() as int) =~= "null"@);
            assert(skip(t3, "null"@.len() as int) =~= rest2);
            assert(scan_description(t3) == Option::Some((f.description, rest2)));
        },
    }
    let t4 = rest2;
    assert(t4.take(",\"featureType\":"@.len() as int) =~= ",\"featureType\":"@);
    let rest3 = ",\"impressionData\":"@ + crate::json::json_bool(f.impression_data) + "}"@;
    assert(skip(t4, ",\"featureType\":"@.len() as int) =~= crate::json::json_string(
        crate::model::feature_type_label(f.feature_type),
    ) + rest3);
    lemma_scan_json_string(crate::model::feature_type_label(f.feature_type), rest3);
    lemma_feature_type_label_round_trip(f.feature_type);
    let t6 = rest3;
    assert(t6.take(",\"impressionData\":"@.len() as int) =~= ",\"impressionData\":"@);
    assert(skip(t6, ",\"impressionData\":"@.len() as int) =~= crate::json::json_bool(
        f.impression_data,
    ) + "}"@);
    lemma_scan_bool(f.impression_data, "}"@);
    assert(parse_feature_text(t) == Option::Some(f));
}


/// Advances past `lit` if the text at `i` starts with it.
fn expect_lit(v: &Vec<char>, i: usize, lit: &str) -> (r: Option<usize>)
    requires
        i <= v@.len(),
    ensures
        r matches Some(j) ==> j == i + lit@.len() && j <= v@.len() && begins_with(
            skip(v@, i as int),
            lit@,
        ),
        r is None ==> !begins_with(skip(v@, i as int), lit@),
{
    let m = lit.unicode_len();
    let n = v.len();
    if n - i < m {
        return None;
    }
    let mut k: usize = 0;
    while k < m
        invariant
            k <= m,
            m == lit@.len(),
            n == v@.len(),
            i + m <= n,
            forall|x: int| 0 <= x < k as int ==> v@[i + x] == lit@[x],
        decreases m - k,
    {
        if v[i + k] != lit.get_char(k) {
            proof {
                assert(skip(v@, i as int)[k as int] != lit@[k as int]);
            }
            return None;
        }
        k = k + 1;
    }
    proof {
        assert(skip(v@, i as int).take(lit@.len() as int) =~= lit@);
    }
    Some(i + m)
}

/// Scans an escaped string body from `i`, appending the decoded content.
fn scan_string_into(v: &Vec<char>, i: usize, out: &mut Vec<char>) -> (r: Option<usize>)
    requires
        i <= v@.len(),
    ensures
        match scan_string_body(skip(v@, i as int)) {
            Option::Some(p) => r matches Some(j) && final(out)@ == old(out)@ + p.0 && i <= j
                <= v@.len() && skip(v@, j as int) == p.1,
            Option::None => r is None,
        },
    decreases v@.len() - i,
{
    let ghost t = skip(v@, i as int);
    if i >= v.len() {
        return None;
    }
    let c = v[i];
    proof {
        assert(t[0] == c);
        assert(t.drop_first() =~= skip(v@, i + 1 as int));
    }
    if c == '"' {
        Some(i + 1)
    } else if c == '\\' {
        if i + 1 >= v.len() {
            return None;
        }
        let d = v[i + 1];
        proof {
            assert(t[1] == d);
        }
        let u: char = if d == '"' {
            '"'
        } else if d == '\\' {
            '\\'
        } else if d == 'n' {
            '\n'
        } else if d == 'r' {
            '\r'
        } else if d == 't' {
            '\t'
        } else {
            return None;
        };
        proof {
            assert(unesc_char(d) == Option::Some(u));
            assert(t.subrange(2, t.len() as int) =~= skip(v@, i + 2 as int));
        }
        out.push(u);
        match scan_string_into(v, i + 2, out) {
            Some(j) => {
                proof {
                    let p = scan_string_body(skip(v@, i + 2 as int)).unwrap();
                    assert(out@ =~= old(out)@ + (seq![u] + p.0));
                }
                Some(j)
            },
            None => None,
        }
    } else {
        out.push(c);
        match scan_string_into(v, i + 1, out) {
            Some(j) => {
                proof {
                    let p = scan_string_body(skip(v@, i + 1 as int)).unwrap();
                    assert(out@ =~= old(out)@ + (seq![c] + p.0));
                }
                Some(j)
            },
            None => None,
        }
    }
}

/// Scans one JSON string from `i`: its decoded content and the position
/// after the closing quote.
fn scan_json_string_exec(v: &Vec<char>, i: usize) -> (r: Option<(String, usize)>)
    requires
        i <= v@.len(),
    ensures
        match scan_json_string(skip(v@, i as int)) {
            Option::Some(p) => r matches Some(q) && q.0@ == p.0 && i <= q.1 <= v@.len() && skip(
                v@,
                q.1 as int,
            ) == p.1,
            Option::None => r is None,
        },
{
    if i >= v.len() {
        return None;
    }
    if v[i] != '"' {
        return None;
    }
    proof {
        assert(skip(v@, i as int)[0] == '"');
        assert(skip(v@, i as int).drop_first() =~= skip(v@, i + 1 as int));
    }
    let mut out: Vec<char> = Vec::new();
    match scan_string_into(v, i + 1, &mut out) {
        Some(j) => Some((crate::text::chars_to_string(&out), j)),
        None => None,
    }
}

/// Scans a JSON boolean from `i`.
fn scan_bool_exec(v: &Vec<char>, i: usize) -> (r: Option<(bool, usize)>)
    requires
        i <= v@.len(),
    ensures
        match scan_bool(skip(v@, i as int)) {
            Option::Some(p) => r matches Some(q) && q.0 == p.0 && i <= q.1 <= v@.len() && skip(
                v@,
                q.1 as int,
            ) == p.1,
            Option::None => r is None,
        },
{
    match expect_lit(v, i, "true") {
        Some(j) => {
            proof {
                assert(skip(v@, j as int) =~= skip(skip(v@, i as int), "true"@.len() as int));
            }
            Some((true, j))
        },
        None => match expect_lit(v, i, "false") {
            Some(j) => {
                proof {
                    assert(skip(v@, j as int) =~= skip(skip(v@, i as int), "false"@.len() as int));
                }
                Some((false, j))
            },
            None => None,
        },
    }
}

/// Decodes the canonical wire text of a feature: exactly the inverse of
/// `encode_feature` on its output, and refusing any other text.
pub fn decode_feature(s: &str) -> (r: Option<crate::model::Feature>)
    ensures
        match parse_feature_text(s@) {
            Option::Some(fv) => r matches Some(g) && g@ == fv,
            Option::None => r is None,
        },
{
    let v = str_chars(s);
    proof {
        assert(skip(v@, 0) =~= s@);
    }
    let i1 = match expect_lit(&v, 0, "{\"name\":") {
        Some(j) => j,
        None => {
            return None;
        },
    };
    let (name, i2) = match scan_json_string_exec(&v, i1) {
        Some(q) => q,
        None => {
            return None;
        },
    };
    let i3 = match expect_lit(&v, i2, ",\"description\":") {
        Some(j) => j,
        None => {
            return None;
        },
    };
    proof {
        assert(skip(v@, i3 as int) =~= skip(skip(v@, i2 as int), ",\"description\":"@.len() as int));
    }
    let (description, i4) = match expect_lit(&v, i3, "null") {
        Some(j) => {
            proof {
                assert(skip(v@, j as int) =~= skip(skip(v@, i3 as int), "null"@.len() as int));
            }
            (None, j)
        },
        None => match scan_json_string_exec(&v, i3) {
            Some(q) => (Some(q.0), q.1),
            None => {
                return None;
            },
        },
    };
    let i5 = match expect_lit(&v, i4, ",\"featureType\":") {
        Some(j) => j,
        None => {
            return None;
        },
    };
    proof {
        assert(skip(v@, i5 as int) =~= skip(skip(v@, i4 as int), ",\"featureType\":"@.len() as int));
    }
    let (label, i6) = match scan_json_string_exec(&v, i5) {
        Some(q) => q,
        None => {
            return None;
        },
    };
    let feature_type = match feature_type_from_wire(label.as_str()) {
        Some(t) => t,
        None => {
            return None;
        },
    };
    let i7 = match expect_lit(&v, i6, ",\"impressionData\":") {
        Some(j) => j,
        None => {
            return None;
        },
    };
    proof {
        assert(skip(v@, i7 as int) =~= skip(
            skip(v@, i6 as int),
            ",\"impressionData\":"@.len() as int,
        ));
    }
    let (impression_data, i8) = match scan_bool_exec(&v, i7) {
        Some(q) => q,
        None => {
            return None;
        },
    };
    let i9 = match expect_lit(&v, i8, "}") {
        Some(j) => j,
        None => {
            proof {
                reveal_strlit("}");
                assert(("}"@).take("}"@.len() as int) =~= "}"@);
                assert(skip(v@, i8 as int) != "}"@);
            }
            return None;
        },
    };
    if i9 != v.len() {
        proof {
            assert(skip(v@, i8 as int).len() > "}"@.len());
            assert(skip(v@, i8 as int) != "}"@);
        }
        return None;
    }
    proof {
        assert(skip(v@, i8 as int) =~= "}"@);
    }
    Some(
        crate::model::Feature {
            name,
            description,
            feature_type,
            impression_data,
        },
    )
}


/// A scanned string body ends strictly before the end of its input.
pub proof fn lemma_scan_body_shrinks(t: Seq<char>)
    ensures
        scan_string_body(t) matches Some(p) ==> p.1.len() < t.len(),
    decreases t.len(),
{
    if t.len() == 0 {
    } else if t[0] == '"' {
    } else if t[0] == '\\' {
        if t.len() >= 2 {
            lemma_scan_body_shrinks(t.subrange(2, t.len() as int));
        }
    } else {
        lemma_scan_body_shrinks(t.drop_first());
    }
}

/// A scanned JSON string ends strictly before the end of its input.
pub proof fn lemma_scan_json_string_shrinks(t: Seq<char>)
    ensures
        scan_json_string(t) matches Some(p) ==> p.1.len() < t.len(),
{
    if t.len() > 0 && t[0] == '"' {
        lemma_scan_body_shrinks(t.drop_first());
    }
}

/// Scans one or more comma-separated JSON strings up to the closing
/// bracket.
pub open spec fn scan_string_items(t: Seq<char>) -> Option<(Seq<Seq<char>>, Seq<char>)>
    decreases t.len(),
    via scan_string_items_dec
{
    match scan_json_string(t) {
        Option::None => Option::None,
        Option::Some((x, r)) => if r.len() > 0 && r[0] == ',' {
            match scan_string_items(r.drop_first()) {
                Option::None => Option::None,
                Option::Some((xs, r2)) => Option::Some((seq![x] + xs, r2)),
            }
        } else if r.len() > 0 && r[0] == ']' {
            Option::Some((seq![x], r.drop_first()))
        } else {
            Option::None
        },
    }
}

#[via_fn]
proof fn scan_string_items_dec(t: Seq<char>) {
    lemma_scan_json_string_shrinks(t);
}

/// Scans a JSON array of strings.
pub open spec fn scan_string_list(t: Seq<char>) -> Option<(Seq<Seq<char>>, Seq<char>)> {
    if t.len() >= 2 && t[0] == '[' && t[1] == ']' {
        Option::Some((Seq::empty(), t.subrange(2, t.len() as int)))
    } else if t.len() >= 1 && t[0] == '[' {
        scan_string_items(t.drop_first())
    } else {
        Option::None
    }
}

/// Scanning encoded string items recovers them.
proof fn lemma_scan_string_items(xs: Seq<Seq<char>>, rest: Seq<char>)
    requires
        xs.len() >= 1,
    ensures
        scan_string_items(
            crate::json::join_comma(Seq::new(xs.len(), |i: int| crate::json::json_string(xs[i])))
                + seq![']'] + rest,
        ) == Option::Some((xs, rest)),
    decreases xs.len(),
{
    let items = Seq::new(xs.len(), |i: int| crate::json::json_string(xs[i]));
    let t = crate::json::join_comma(items) + seq![']'] + rest;
    if xs.len() == 1 {
        assert(crate::json::join_comma(items) == items[0]);
        assert(t =~= crate::json::json_string(xs[0]) + (seq![']'] + rest));
        lemma_scan_json_string(xs[0], seq![']'] + rest);
        let r = seq![']'] + rest;
        assert(r[0] == ']');
        assert(r.drop_first() =~= rest);
        assert(seq![xs[0]] =~= xs);
    } else {
        let tail = Seq::new((xs.len() - 1) as nat, |i: int| crate::json::json_string(xs[i + 1]));
        assert(items.drop_first() =~= tail);
        assert(crate::json::join_comma(items) == items[0] + seq![','] + crate::json::join_comma(
            tail,
        ));
        let r = seq![','] + crate::json::join_comma(tail) + seq![']'] + rest;
        assert(t =~= crate::json::json_string(xs[0]) + r);
        lemma_scan_json_string(xs[0], r);
        assert(r[0] == ',');
        let xs2 = xs.drop_first();
        assert(Seq::new(xs2.len(), |i: int| crate::json::json_string(xs2[i])) =~= tail);
        lemma_scan_string_items(xs2, rest);
        assert(r.drop_first() =~= crate::json::join_comma(tail) + seq![']'] + rest);
        assert(seq![xs[0]] + xs2 =~= xs);
    }
}

/// Scanning an encoded JSON array of strings recovers the strings.
pub proof fn lemma_scan_string_list(xs: Seq<Seq<char>>, rest: Seq<char>)
    ensures
        scan_string_list(
            crate::json::json_list(Seq::new(xs.len(), |i: int| crate::json::json_string(xs[i])))
                + rest,
        ) == Option::Some((xs, rest)),
{
    let items = Seq::new(xs.len(), |i: int| crate::json::json_string(xs[i]));
    let t = crate::json::json_list(items) + rest;
    assert(t[0] == '[');
    if xs.len() == 0 {
        assert(crate::json::join_comma(items) == Seq::<char>::empty());
        assert(t =~= seq!['[', ']'] + rest);
        assert(t[1] == ']');
        assert(t.subrange(2, t.len() as int) =~= rest);
    } else {
        assert(t.drop_first() =~= crate::json::join_comma(items) + seq![']'] + rest);
        lemma_scan_string_items(xs, rest);
        assert(items[0].len() >= 2 && items[0][0] == '"');
        assert(t[1] == '"');
    }
}


/// The views of a vector of strings.
pub open spec fn string_views(xs: Seq<String>) -> Seq<Seq<char>> {
    Seq::new(xs.len(), |i: int| xs[i]@)
}

/// Scans comma-separated JSON strings up to the closing bracket, from `i`.
fn scan_string_items_exec(v: &Vec<char>, i: usize) -> (r: Option<(Vec<String>, usize)>)
    requires
        i <= v@.len(),
    ensures
        match scan_string_items(skip(v@, i as int)) {
            Option::Some(p) => r matches Some(q) && string_views(q.0@) == p.0 && i <= q.1
                <= v@.len() && skip(v@, q.1 as int) == p.1,
            Option::None => r is None,
        },
    decreases v@.len() - i,
{
    let (x, j) = match scan_json_string_exec(v, i) {
        Some(q) => q,
        None => {
            return None;
        },
    };
    proof {
        lemma_scan_json_string_shrinks(skip(v@, i as int));
    }
    if j < v.len() && v[j] == ',' {
        proof {
            assert(skip(v@, j as int)[0] == ',');
            assert(skip(v@, j as int).drop_first() =~= skip(v@, j + 1 as int));
        }
        match scan_string_items_exec(v, j + 1) {
            Some((mut xs, j2)) => {
                let ghost tailviews = string_views(xs@);
                xs.insert(0, x);
                proof {
                    let p = scan_string_items(skip(v@, j + 1 as int)).unwrap();
                    assert(string_views(xs@) =~= seq![x@] + tailviews);
                }
                Some((xs, j2))
            },
            None => None,
        }
    } else if j < v.len() && v[j] == ']' {
        proof {
            assert(skip(v@, j as int)[0] == ']');
            assert(skip(v@, j as int)[0] != ',');
            assert(skip(v@, j as int).drop_first() =~= skip(v@, j + 1 as int));
        }
        let mut xs: Vec<String> = Vec::new();
        xs.push(x);
        proof {
            assert(string_views(xs@) =~= seq![x@]);
        }
        Some((xs, j + 1))
    } else {
        proof {
            if j < v@.len() {
                assert(skip(v@, j as int)[0] != ',' && skip(v@, j as int)[0] != ']');
            } else {
                assert(skip(v@, j as int).len() == 0);
            }
        }
        None
    }
}

/// Scans a JSON array of strings from `i`.
fn scan_string_list_exec(v: &Vec<char>, i: usize) -> (r: Option<(Vec<String>, usize)>)
    requires
        i <= v@.len(),
    ensures
        match scan_string_list(skip(v@, i as int)) {
            Option::Some(p) => r matches Some(q) && string_views(q.0@) == p.0 && i <= q.1
                <= v@.len() && skip(v@, q.1 as int) == p.1,
            Option::None => r is None,
        },
{
    if i >= v.len() || v[i] != '[' {
        proof {
            if i < v@.len() {
                assert(skip(v@, i as int)[0] != '[');
            } else {
                assert(skip(v@, i as int).len() == 0);
            }
        }
        return None;
    }
    proof {
        assert(skip(v@, i as int)[0] == '[');
    }
    if i + 1 < v.len() && v[i + 1] == ']' {
        proof {
            assert(skip(v@, i as int)[1] == ']');
            assert(skip(v@, i as int).subrange(2, skip(v@, i as int).len() as int) =~= skip(
                v@,
                i + 2 as int,
            ));
            assert(string_views(Seq::<String>::empty()) =~= Seq::<Seq<char>>::empty());
        }
        return Some((Vec::new(), i + 2));
    }
    proof {
        if i + 1 < v@.len() {
            assert(!(skip(v@, i as int).len() >= 2 && skip(v@, i as int)[1] == ']'));
        } else {
            assert(skip(v@, i as int).len() < 2);
        }
        assert(skip(v@, i as int).drop_first() =~= skip(v@, i + 1 as int));
    }
    scan_string_items_exec(v, i + 1)
}

/// A known spelling maps back to an operator that carries that spelling.
pub proof fn lemma_known_operator_label(label: Seq<char>)
    ensures
        known_operator_of(label) matches Some(op) ==> crate::model::operator_label(op) == label
            && !(op is Unknown),
{
}

/// Scans one encoded constraint: the constraint and the text after its
/// closing brace.
pub open spec fn scan_constraint(t: Seq<char>) -> Option<
    (crate::model::ConstraintView, Seq<char>),
> {
    if !begins_with(t, "{\"contextName\":"@) {
        Option::None
    } else {
        match scan_json_string(skip(t, "{\"contextName\":"@.len() as int)) {
            Option::None => Option::None,
            Option::Some((context_name, t2)) => if !begins_with(t2, ",\"operator\":"@) {
                Option::None
            } else {
                match scan_json_string(skip(t2, ",\"operator\":"@.len() as int)) {
                    Option::None => Option::None,
                    Option::Some((label, t3)) => if !begins_with(t3, ",\"caseInsensitive\":"@) {
                        Option::None
                    } else {
                        match scan_bool(skip(t3, ",\"caseInsensitive\":"@.len() as int)) {
                            Option::None => Option::None,
                            Option::Some((case_insensitive, t4)) => if !begins_with(
                                t4,
                                ",\"inverted\":"@,
                            ) {
                                Option::None
                            } else {
                                match scan_bool(skip(t4, ",\"inverted\":"@.len() as int)) {
                                    Option::None => Option::None,
                                    Option::Some((inverted, t5)) => if !begins_with(
                                        t5,
                                        ",\"values\":"@,
                                    ) {
                                        Option::None
                                    } else {
                                        match scan_string_list(
                                            skip(t5, ",\"values\":"@.len() as int),
                                        ) {
                                            Option::None => Option::None,
                                            Option::Some((values, t6)) => if !begins_with(
                                                t6,
                                                ",\"value\":"@,
                                            ) {
                                                Option::None
                                            } else {
                                                match scan_json_string(
                                                    skip(t6, ",\"value\":"@.len() as int),
                                                ) {
                                                    Option::None => Option::None,
                                                    Option::Some((value, t7)) => if begins_with(
                                                        t7,
                                                        "}"@,
                                                    ) {
                                                        Option::Some(
                                                            (
                                                                crate::model::ConstraintView {
                                                                    context_name,
                                                                    operator: crate::model::OperatorView {
                                                                        label,
                                                                        unknown: known_operator_of(label) is None,
                                                                    },
                                                                    case_insensitive,
                                                                    inverted,
                                                                    values,
                                                                    value,
                                                                },
                                                                skip(t7, "}"@.len() as int),
                                                            ),
                                                        )
                                                    } else {
                                                        Option::None
                                                    },
                                                }
                                            },
                                        }
                                    },
                                }
                            },
                        }
                    },
                }
            },
        }
    }
}

/// The constraint a canonical wire text encodes, if it is exactly one.
pub open spec fn parse_constraint_text(t: Seq<char>) -> Option<crate::model::ConstraintView> {
    match scan_constraint(t) {
        Option::Some(p) => if p.1.len() == 0 {
            Option::Some(p.0)
        } else {
            Option::None
        },
        Option::None => Option::None,
    }
}

/// The text of an encoded constraint after the context name.
pub open spec fn constraint_rest1(c: crate::model::ConstraintView) -> Seq<char> {
    ",\"operator\":"@ + crate::json::json_string(c.operator.label) + constraint_rest2(c)
}

/// The text after the operator.
pub open spec fn constraint_rest2(c: crate::model::ConstraintView) -> Seq<char> {
    ",\"caseInsensitive\":"@ + crate::json::json_bool(c.case_insensitive) + constraint_rest3(c)
}

/// The text after the case-insensitive flag.
pub open spec fn constraint_rest3(c: crate::model::ConstraintView) -> Seq<char> {
    ",\"inverted\":"@ + crate::json::json_bool(c.inverted) + constraint_rest4(c)
}

/// The text after the inverted flag.
pub open spec fn constraint_rest4(c: crate::model::ConstraintView) -> Seq<char> {
    ",\"values\":"@ + crate::json::json_list(
        Seq::new(c.values.len(), |i: int| crate::json::json_string(c.values[i])),
    ) + constraint_rest5(c)
}

/// The text after the value list.
pub open spec fn constraint_rest5(c: crate::model::ConstraintView) -> Seq<char> {
    ",\"value\":"@ + crate::json::json_string(c.value) + "}"@
}

#[verifier::rlimit(100)]
#[verifier::spinoff_prover]
proof fn lemma_constraint_peel0(c: crate::model::ConstraintView, rest: Seq<char>)
    ensures
        begins_with(crate::json::json_constraint(c) + rest, "{\"contextName\":"@),
        skip(crate::json::json_constraint(c) + rest, "{\"contextName\":"@.len() as int) == crate::json::json_string(c.context_name) + (constraint_rest1(c) + rest),
{
    assert((crate::json::json_constraint(c) + rest).take("{\"contextName\":"@.len() as int) =~= "{\"contextName\":"@);
    assert(skip(crate::json::json_constraint(c) + rest, "{\"contextName\":"@.len() as int) =~= crate::json::json_string(c.context_name) + (constraint_rest1(c) + rest));
}

#[verifier::rlimit(100)]
#[verifier::spinoff_prover]
proof fn lemma_constraint_peel1(c: crate::model::ConstraintView, rest: Seq<char>)
    ensures
        begins_with(constraint_rest1(c) + rest, ",\"operator\":"@),
        skip(constraint_rest1(c) + rest, ",\"operator\":"@.len() as int) == crate::json::json_string(c.operator.label) + (constraint_rest2(c) + rest),
{
    assert((constraint_rest1(c) + rest).take(",\"operator\":"@.len() as int) =~= ",\"operator\":"@);
    assert(skip(constraint_rest1(c) + rest, ",\"operator\":"@.len() as int) =~= crate::json::json_string(c.operator.label) + (constraint_rest2(c) + rest));
}

#[verifier::rlimit(100)]
#[verifier::spinoff_prover]
proof fn lemma_constraint_peel2(c: crate::model::ConstraintView, rest: Seq<char>)
    ensures
        begins_with(constraint_rest2(c) + rest, ",\"caseInsensitive\":"@),
        skip(constraint_rest2(c) + rest, ",\"caseInsensitive\":"@.len() as int) == crate::json::json_bool(c.case_insensitive) + (constraint_rest3(c) + rest),
{
    assert((constraint_rest2(c) + rest).take(",\"caseInsensitive\":"@.len() as int) =~= ",\"caseInsensitive\":"@);
    assert(skip(constraint_rest2(c) + rest, ",\"caseInsensitive\":"@.len() as int) =~= crate::json::json_bool(c.case_insensitive) + (constraint_rest3(c) + rest));
}

#[verifier::rlimit(100)]
#[verifier::spinoff_prover]
proof fn lemma_constraint_peel3(c: crate::model::ConstraintView, rest: Seq<char>)
    ensures
        begins_with(constraint_rest3(c) + rest, ",\"inverted\":"@),
        skip(constraint_rest3(c) + rest, ",\"inverted\":"@.len() as int) == crate::json::json_bool(c.inverted) + (constraint_rest4(c) + rest),
{
    assert((constraint_rest3(c) + rest).take(",\"inverted\":"@.len() as int) =~= ",\"inverted\":"@);
    assert(skip(constraint_rest3(c) + rest, ",\"inverted\":"@.len() as int) =~= crate::json::json_bool(c.inverted) + (constraint_rest4(c) + rest));
}

#[verifier::rlimit(100)]
#[verifier::spinoff_prover]
proof fn lemma_constraint_peel4(c: crate::model::ConstraintView, rest: Seq<char>)
    ensures
        begins_with(constraint_rest4(c) + rest, ",\"values\":"@),
        skip(constraint_rest4(c) + rest, ",\"values\":"@.len() as int) == crate::json::json_list(Seq::new(c.values.len(), |i: int| crate::json::json_string(c.values[i]))) + (constraint_rest5(c) + rest),
{
    assert((constraint_rest4(c) + rest).take(",\"values\":"@.len() as int) =~= ",\"values\":"@);
    assert(skip(constraint_rest4(c) + rest, ",\"values\":"@.len() as int) =~= crate::json::json_list(Seq::new(c.values.len(), |i: int| crate::json::json_string(c.values[i]))) + (constraint_rest5(c) + rest));
}

#[verifier::rlimit(100)]
#[verifier::spinoff_prover]
proof fn lemma_constraint_peel5(c: crate::model::ConstraintView, rest: Seq<char>)
    ensures
        begins_with(constraint_rest5(c) + rest, ",\"value\":"@),
        skip(constraint_rest5(c) + rest, ",\"value\":"@.len() as int) == crate::json::json_string(c.value) + ("}"@ + rest),
{
    assert((constraint_rest5(c) + rest).take(",\"value\":"@.len() as int) =~= ",\"value\":"@);
    assert(skip(constraint_rest5(c) + rest, ",\"value\":"@.len() as int) =~= crate::json::json_string(c.value) + ("}"@ + rest));
}

/// Decoding inverts encoding for constraints whose operator view is
/// faithful: an operator is marked unknown exactly when its spelling is not
/// a known one. (An `Unknown` operator whose payload spells a known
/// operator, such as `NOT_IN`, decodes to that operator instead.)
#[verifier::rlimit(100)]
#[verifier::spinoff_prover]
pub proof fn lemma_scan_constraint(c: crate::model::ConstraintView, rest: Seq<char>)
    requires
        c.operator.unknown == (known_operator_of(c.operator.label) is None),
    ensures
        scan_constraint(crate::json::json_constraint(c) + rest) == Option::Some((c, rest)),
{
    let t = crate::json::json_constraint(c) + rest;
    lemma_constraint_peel0(c, rest);
    lemma_scan_json_string(c.context_name, constraint_rest1(c) + rest);
    lemma_constraint_peel1(c, rest);
    lemma_scan_json_string(c.operator.label, constraint_rest2(c) + rest);
    lemma_constraint_peel2(c, rest);
    lemma_scan_bool(c.case_insensitive, constraint_rest3(c) + rest);
    lemma_constraint_peel3(c, rest);
    lemma_scan_bool(c.inverted, constraint_rest4(c) + rest);
    lemma_constraint_peel4(c, rest);
    lemma_scan_string_list(c.values, constraint_rest5(c) + rest);
    lemma_constraint_peel5(c, rest);
    lemma_scan_json_string(c.value, "}"@ + rest);
    assert(("}"@ + rest).take("}"@.len() as int) =~= "}"@);
    assert(skip("}"@ + rest, "}"@.len() as int) =~= rest);
    assert(scan_constraint(t) == Option::Some((c, rest)));
}

/// Decoding inverts encoding for constraints whose operator view is
/// faithful: an operator is marked unknown exactly when its spelling is not
/// a known one. (An `Unknown` operator whose payload spells a known
/// operator, such as `NOT_IN`, decodes to that operator instead.)
pub proof fn lemma_constraint_round_trip(c: crate::model::ConstraintView)
    requires
        c.operator.unknown == (known_operator_of(c.operator.label) is None),
    ensures
        parse_constraint_text(crate::json::json_constraint(c)) == Option::Some(c),
{
    lemma_scan_constraint(c, Seq::empty());
    assert(crate::json::json_constraint(c) + Seq::<char>::empty()
        =~= crate::json::json_constraint(c));
}

/// Scans one encoded constraint from `i`.
#[verifier::rlimit(100)]
fn scan_constraint_exec(v: &Vec<char>, i: usize) -> (r: Option<(crate::model::Constraint, usize)>)
    requires
        i <= v@.len(),
    ensures
        match scan_constraint(skip(v@, i as int)) {
            Option::Some(p) => r matches Some(q) && q.0@ == p.0 && i <= q.1 <= v@.len() && skip(
                v@,
                q.1 as int,
            ) == p.1,
            Option::None => r is None,
        },
{
    let i1 = match expect_lit(v, i, "{\"contextName\":") {
        Some(j) => j,
        None => {
            return None;
        },
    };
    proof {
        assert(skip(v@, i1 as int) =~= skip(skip(v@, i as int), "{\"contextName\":"@.len() as int));
    }
    let (context_name, i2) = match scan_json_string_exec(v, i1) {
        Some(q) => q,
        None => {
            return None;
        },
    };
    let i3 = match expect_lit(v, i2, ",\"operator\":") {
        Some(j) => j,
        None => {
            return None;
        },
    };
    proof {
        assert(skip(v@, i3 as int) =~= skip(skip(v@, i2 as int), ",\"operator\":"@.len() as int));
    }
    let (label, i4) = match scan_json_string_exec(v, i3) {
        Some(q) => q,
        None => {
            return None;
        },
    };
    let operator = operator_from_wire(label.as_str());
    proof {
        lemma_known_operator_label(label@);
    }
    let i5 = match expect_lit(v, i4, ",\"caseInsensitive\":") {
        Some(j) => j,
        None => {
            return None;
        },
    };
    proof {
        assert(skip(v@, i5 as int) =~= skip(
            skip(v@, i4 as int),
            ",\"caseInsensitive\":"@.len() as int,
        ));
    }
    let (case_insensitive, i6) = match scan_bool_exec(v, i5) {
        Some(q) => q,
        None => {
            return None;
        },
    };
    let i7 = match expect_lit(v, i6, ",\"inverted\":") {
        Some(j) => j,
        None => {
            return None;
        },
    };
    proof {
        assert(skip(v@, i7 as int) =~= skip(skip(v@, i6 as int), ",\"inverted\":"@.len() as int));
    }
    let (inverted, i8) = match scan_bool_exec(v, i7) {
        Some(q) => q,
        None => {
            return None;
        },
    };
    let i9 = match expect_lit(v, i8, ",\"values\":") {
        Some(j) => j,
        None => {
            return None;
        },
    };
    proof {
        assert(skip(v@, i9 as int) =~= skip(skip(v@, i8 as int), ",\"values\":"@.len() as int));
    }
    let (values, i10) = match scan_string_list_exec(v, i9) {
        Some(q) => q,
        None => {
            return None;
        },
    };
    let i11 = match expect_lit(v, i10, ",\"value\":") {
        Some(j) => j,
        None => {
            return None;
        },
    };
    proof {
        assert(skip(v@, i11 as int) =~= skip(skip(v@, i10 as int), ",\"value\":"@.len() as int));
    }
    let (value, i12) = match scan_json_string_exec(v, i11) {
        Some(q) => q,
        None => {
            return None;
        },
    };
    let i13 = match expect_lit(v, i12, "}") {
        Some(j) => j,
        None => {
            return None;
        },
    };
    proof {
        assert(skip(v@, i13 as int) =~= skip(skip(v@, i12 as int), "}"@.len() as int));
    }
    let g = crate::model::Constraint {
        context_name,
        operator,
        case_insensitive,
        inverted,
        values,
        value,
    };
    proof {
        let p = scan_constraint(skip(v@, i as int)).unwrap();
        assert(g@.values =~= p.0.values);
        assert(g@ == p.0);
    }
    Some((g, i13))
}

/// Decodes the canonical wire text of a constraint: exactly the inverse of
/// `encode_constraint` on its output, and refusing any other text.
pub fn decode_constraint(s: &str) -> (r: Option<crate::model::Constraint>)
    ensures
        match parse_constraint_text(s@) {
            Option::Some(cv) => r matches Some(g) && g@ == cv,
            Option::None => r is None,
        },
{
    let v = str_chars(s);
    proof {
        assert(skip(v@, 0) =~= s@);
    }
    match scan_constraint_exec(&v, 0) {
        Some((g, j)) => {
            if j == v.len() {
                Some(g)
            } else {
                None
            }
        },
        None => None,
    }
}


/// Whether `c` is a decimal digit.
pub open spec fn is_digit(c: char) -> bool {
    c == '0' || c == '1' || c == '2' || c == '3' || c == '4' || c == '5' || c == '6' || c == '7'
        || c == '8' || c == '9'
}

/// The value of a decimal digit character.
pub open spec fn digit_val(c: char) -> nat {
    if c == '0' {
        0
    } else if c == '1' {
        1
    } else if c == '2' {
        2
    } else if c == '3' {
        3
    } else if c == '4' {
        4
    } else if c == '5' {
        5
    } else if c == '6' {
        6
    } else if c == '7' {
        7
    } else if c == '8' {
        8
    } else {
        9
    }
}

/// Consumes leading digits, folding them into `acc`.
pub open spec fn scan_digits(t: Seq<char>, acc: nat) -> (nat, Seq<char>)
    decreases t.len(),
{
    if t.len() == 0 || !is_digit(t[0]) {
        (acc, t)
    } else {
        scan_digits(t.drop_first(), acc * 10 + digit_val(t[0]))
    }
}

/// Scans a decimal number; the text must start with a digit.
pub open spec fn scan_number(t: Seq<char>) -> Option<(nat, Seq<char>)> {
    if t.len() > 0 && is_digit(t[0]) {
        Option::Some(scan_digits(t, 0))
    } else {
        Option::None
    }
}

/// Ten to the `k`.
pub open spec fn pow10(k: nat) -> nat
    decreases k,
{
    if k == 0 {
        1
    } else {
        10 * pow10((k - 1) as nat)
    }
}

/// The accumulator never decreases while digits are consumed.
proof fn lemma_scan_digits_ge(t: Seq<char>, acc: nat)
    ensures
        scan_digits(t, acc).0 >= acc,
    decreases t.len(),
{
    if t.len() == 0 || !is_digit(t[0]) {
    } else {
        lemma_scan_digits_ge(t.drop_first(), acc * 10 + digit_val(t[0]));
    }
}

/// The decimal rendering of a number starts with a digit.
proof fn lemma_dec_nat_first_digit(n: nat)
    ensures
        crate::text::dec_nat(n).len() >= 1,
        is_digit(crate::text::dec_nat(n)[0]),
    decreases n,
{
    if n < 10 {
    } else {
        lemma_dec_nat_first_digit(n / 10);
    }
}

/// Consuming a rendered number folds exactly its value into the
/// accumulator, scaled by the number of digits consumed.
proof fn lemma_scan_digits_dec(n: nat, acc: nat, rest: Seq<char>)
    ensures
        scan_digits(crate::text::dec_nat(n) + rest, acc) == scan_digits(
            rest,
            acc * pow10(crate::text::dec_nat(n).len()) + n,
        ),
    decreases n,
{
    let d = crate::text::dec_nat(n);
    let t = d + rest;
    if n < 10 {
        assert(d =~= seq![crate::text::digit_char(n as int)]);
        assert(is_digit(t[0]) && digit_val(t[0]) == n);
        assert(t.drop_first() =~= rest);
        assert(pow10(0) == 1);
        assert(pow10(1) == 10);
        assert(scan_digits(t, acc) == scan_digits(rest, acc * 10 + n));
    } else {
        let hi = crate::text::dec_nat(n / 10);
        let dc = crate::text::digit_char((n % 10) as int);
        assert(d == hi + seq![dc]);
        assert(t =~= hi + (seq![dc] + rest));
        lemma_scan_digits_dec(n / 10, acc, seq![dc] + rest);
        let acc2 = acc * pow10(hi.len()) + n / 10;
        assert(is_digit((seq![dc] + rest)[0]) && digit_val((seq![dc] + rest)[0]) == n % 10);
        assert((seq![dc] + rest).drop_first() =~= rest);
        assert(scan_digits(seq![dc] + rest, acc2) == scan_digits(rest, acc2 * 10 + n % 10));
        assert(d.len() == hi.len() + 1);
        assert(pow10(d.len()) == 10 * pow10(hi.len()));
        assert(acc2 * 10 + n % 10 == acc * pow10(d.len()) + n) by (nonlinear_arith)
            requires
                acc2 == acc * pow10(hi.len()) + n / 10,
                pow10(d.len()) == 10 * pow10(hi.len()),
                n == (n / 10) * 10 + n % 10,
        ;
    }
}

/// Scanning a rendered number followed by a non-digit recovers its value.
pub proof fn lemma_scan_number(n: nat, rest: Seq<char>)
    requires
        rest.len() == 0 || !is_digit(rest[0]),
    ensures
        scan_number(crate::text::dec_nat(n) + rest) == Option::Some((n, rest)),
{
    let d = crate::text::dec_nat(n);
    let t = d + rest;
    lemma_dec_nat_first_digit(n);
    assert(t[0] == d[0]);
    lemma_scan_digits_dec(n, 0, rest);
    assert(0 * pow10(d.len()) + n == n) by (nonlinear_arith);
    assert(scan_digits(rest, n) == (n, rest));
}

/// The value of a digit character, if `c` is one.
fn digit_of(c: char) -> (r: Option<u32>)
    ensures
        r matches Some(d) ==> is_digit(c) && d as nat == digit_val(c) && d < 10,
        r is None ==> !is_digit(c),
{
    match c {
        '0' => Some(0),
        '1' => Some(1),
        '2' => Some(2),
        '3' => Some(3),
        '4' => Some(4),
        '5' => Some(5),
        '6' => Some(6),
        '7' => Some(7),
        '8' => Some(8),
        '9' => Some(9),
        _ => None,
    }
}

/// Scans a decimal number from `i`, refusing values above `u32::MAX`.
fn scan_number_exec(v: &Vec<char>, i: usize) -> (r: Option<(u32, usize)>)
    requires
        i <= v@.len(),
    ensures
        match scan_number(skip(v@, i as int)) {
            Option::Some(p) => if p.0 <= u32::MAX {
                r matches Some(q) && q.0 as nat == p.0 && i <= q.1 <= v@.len() && skip(
                    v@,
                    q.1 as int,
                ) == p.1
            } else {
                r is None
            },
            Option::None => r is None,
        },
{
    let n = v.len();
    if i >= n {
        return None;
    }
    let first = match digit_of(v[i]) {
        Some(d) => d,
        None => {
            proof {
                assert(skip(v@, i as int)[0] == v@[i as int]);
            }
            return None;
        },
    };
    proof {
        assert(skip(v@, i as int)[0] == v@[i as int]);
    }
    let ghost whole = scan_digits(skip(v@, i as int), 0);
    let mut acc: u32 = 0;
    let mut j: usize = i;
    let mut stop = false;
    while j < n && !stop
        invariant
            i <= j <= n,
            n == v@.len(),
            whole == scan_digits(skip(v@, i as int), 0),
            if stop {
                whole == (acc as nat, skip(v@, j as int))
            } else {
                whole == scan_digits(skip(v@, j as int), acc as nat)
            },
        decreases n - j + (if stop { 0int } else { 1int }),
    {
        match digit_of(v[j]) {
            Some(d) => {
                proof {
                    assert(skip(v@, j as int)[0] == v@[j as int]);
                    assert(skip(v@, j as int).drop_first() =~= skip(v@, j + 1 as int));
                }
                if acc > (u32::MAX - d) / 10 {
                    proof {
                        assert((acc as nat) * 10 + (d as nat) > u32::MAX);
                        lemma_scan_digits_ge(
                            skip(v@, j + 1 as int),
                            (acc as nat) * 10 + (d as nat),
                        );
                        assert(whole.0 > u32::MAX);
                    }
                    return None;
                }
                proof {
                    assert((acc as nat) * 10 + (d as nat) <= u32::MAX);
                }
                acc = acc * 10 + d;
                j = j + 1;
            },
            None => {
                proof {
                    assert(skip(v@, j as int)[0] == v@[j as int]);
                    assert(scan_digits(skip(v@, j as int), acc as nat) == (
                        acc as nat,
                        skip(v@, j as int),
                    ));
                }
                stop = true;
            },
        }
    }
    proof {
        if !stop {
            assert(skip(v@, j as int).len() == 0);
            assert(scan_digits(skip(v@, j as int), acc as nat) == (acc as nat, skip(v@, j as int)));
        }
        assert(whole == (acc as nat, skip(v@, j as int)));
    }
    Some((acc, j))
}


/// Digit consumption never lengthens the text.
proof fn lemma_scan_digits_len(t: Seq<char>, acc: nat)
    ensures
        scan_digits(t, acc).1.len() <= t.len(),
    decreases t.len(),
{
    if t.len() == 0 || !is_digit(t[0]) {
    } else {
        lemma_scan_digits_len(t.drop_first(), acc * 10 + digit_val(t[0]));
    }
}

/// A scanned number ends strictly before the end of its input.
proof fn lemma_scan_number_shrinks(t: Seq<char>)
    ensures
        scan_number(t) matches Some(p) ==> p.1.len() < t.len(),
{
    if t.len() > 0 && is_digit(t[0]) {
        lemma_scan_digits_len(t.drop_first(), digit_val(t[0]));
    }
}

/// Scans one or more comma-separated numbers up to the closing bracket.
pub open spec fn scan_u32_items(t: Seq<char>) -> Option<(Seq<nat>, Seq<char>)>
    decreases t.len(),
    via scan_u32_items_dec
{
    match scan_number(t) {
        Option::None => Option::None,
        Option::Some((x, r)) => if r.len() > 0 && r[0] == ',' {
            match scan_u32_items(r.drop_first()) {
                Option::None => Option::None,
                Option::Some((xs, r2)) => Option::Some((seq![x] + xs, r2)),
            }
        } else if r.len() > 0 && r[0] == ']' {
            Option::Some((seq![x], r.drop_first()))
        } else {
            Option::None
        },
    }
}

#[via_fn]
proof fn scan_u32_items_dec(t: Seq<char>) {
    lemma_scan_number_shrinks(t);
}

/// Scans a JSON array of numbers.
pub open spec fn scan_u32_list(t: Seq<char>) -> Option<(Seq<nat>, Seq<char>)> {
    if t.len() >= 2 && t[0] == '[' && t[1] == ']' {
        Option::Some((Seq::empty(), t.subrange(2, t.len() as int)))
    } else if t.len() >= 1 && t[0] == '[' {
        scan_u32_items(t.drop_first())
    } else {
        Option::None
    }
}

/// Scanning encoded numbers recovers them.
proof fn lemma_scan_u32_items(xs: Seq<u32>, rest: Seq<char>)
    requires
        xs.len() >= 1,
    ensures
        scan_u32_items(
            crate::json::join_comma(
                Seq::new(xs.len(), |i: int| crate::text::dec_nat(xs[i] as nat)),
            ) + seq![']'] + rest,
        ) == Option::Some((Seq::new(xs.len(), |i: int| xs[i] as nat), rest)),
    decreases xs.len(),
{
    let items = Seq::new(xs.len(), |i: int| crate::text::dec_nat(xs[i] as nat));
    let t = crate::json::join_comma(items) + seq![']'] + rest;
    if xs.len() == 1 {
        assert(crate::json::join_comma(items) == items[0]);
        assert(t =~= crate::text::dec_nat(xs[0] as nat) + (seq![']'] + rest));
        assert(!is_digit((seq![']'] + rest)[0]));
        lemma_scan_number(xs[0] as nat, seq![']'] + rest);
        let r = seq![']'] + rest;
        assert(r[0] == ']' && r[0] != ',');
        assert(r.drop_first() =~= rest);
        assert(seq![xs[0] as nat] =~= Seq::new(xs.len(), |i: int| xs[i] as nat));
    } else {
        let tail = Seq::new((xs.len() - 1) as nat, |i: int| crate::text::dec_nat(xs[i + 1] as nat));
        assert(items.drop_first() =~= tail);
        assert(crate::json::join_comma(items) == items[0] + seq![','] + crate::json::join_comma(
            tail,
        ));
        let r = seq![','] + crate::json::join_comma(tail) + seq![']'] + rest;
        assert(t =~= crate::text::dec_nat(xs[0] as nat) + r);
        assert(!is_digit(r[0]));
        lemma_scan_number(xs[0] as nat, r);
        assert(r[0] == ',');
        let xs2 = xs.drop_first();
        assert(Seq::new(xs2.len(), |i: int| crate::text::dec_nat(xs2[i] as nat)) =~= tail);
        lemma_scan_u32_items(xs2, rest);
        assert(r.drop_first() =~= crate::json::join_comma(tail) + seq![']'] + rest);
        assert(seq![xs[0] as nat] + Seq::new(xs2.len(), |i: int| xs2[i] as nat) =~= Seq::new(
            xs.len(),
            |i: int| xs[i] as nat,
        ));
    }
}

/// Scanning an encoded JSON array of numbers recovers the numbers.
pub proof fn lemma_scan_u32_list(xs: Seq<u32>, rest: Seq<char>)
    ensures
        scan_u32_list(
            crate::json::json_list(
                Seq::new(xs.len(), |i: int| crate::text::dec_nat(xs[i] as nat)),
            ) + rest,
        ) == Option::Some((Seq::new(xs.len(), |i: int| xs[i] as nat), rest)),
{
    let items = Seq::new(xs.len(), |i: int| crate::text::dec_nat(xs[i] as nat));
    let t = crate::json::json_list(items) + rest;
    assert(t[0] == '[');
    if xs.len() == 0 {
        assert(crate::json::join_comma(items) == Seq::<char>::empty());
        assert(t =~= seq!['[', ']'] + rest);
        assert(t[1] == ']');
        assert(t.subrange(2, t.len() as int) =~= rest);
        assert(Seq::new(xs.len(), |i: int| xs[i] as nat) =~= Seq::<nat>::empty());
    } else {
        assert(t.drop_first() =~= crate::json::join_comma(items) + seq![']'] + rest);
        lemma_scan_u32_items(xs, rest);
        lemma_dec_nat_first_digit(xs[0] as nat);
        assert(items[0][0] == crate::text::dec_nat(xs[0] as nat)[0]);
        assert(t[1] == items[0][0]);
        assert(t[1] != ']');
    }
}

/// Scans comma-separated numbers up to the closing bracket, from `i`.
fn scan_u32_items_exec(v: &Vec<char>, i: usize) -> (r: Option<(Vec<u32>, usize)>)
    requires
        i <= v@.len(),
    ensures
        match scan_u32_items(skip(v@, i as int)) {
            Option::Some(p) => if forall|k: int| 0 <= k < p.0.len() ==> p.0[k] <= u32::MAX {
                r matches Some(q) && Seq::new(q.0@.len(), |k: int| q.0@[k] as nat) == p.0 && i
                    <= q.1 <= v@.len() && skip(v@, q.1 as int) == p.1
            } else {
                r is None
            },
            Option::None => r is None,
        },
    decreases v@.len() - i,
{
    let (x, j) = match scan_number_exec(v, i) {
        Some(q) => q,
        None => {
            proof {
                if scan_number(skip(v@, i as int)) is Some && scan_u32_items(
                    skip(v@, i as int),
                ) is Some {
                    let pn = scan_number(skip(v@, i as int)).unwrap();
                    let p = scan_u32_items(skip(v@, i as int)).unwrap();
                    assert(p.0[0] == pn.0);
                    assert(!(forall|k: int| 0 <= k < p.0.len() ==> p.0[k] <= u32::MAX));
                }
            }
            return None;
        },
    };
    proof {
        lemma_scan_number_shrinks(skip(v@, i as int));
    }
    if j < v.len() && v[j] == ',' {
        proof {
            assert(skip(v@, j as int)[0] == ',');
            assert(skip(v@, j as int).drop_first() =~= skip(v@, j + 1 as int));
        }
        match scan_u32_items_exec(v, j + 1) {
            Some((mut xs, j2)) => {
                let ghost tailvals = Seq::new(xs@.len(), |k: int| xs@[k] as nat);
                xs.insert(0, x);
                proof {
                    let p = scan_u32_items(skip(v@, j + 1 as int)).unwrap();
                    assert(Seq::new(xs@.len(), |k: int| xs@[k] as nat) =~= seq![x as nat]
                        + tailvals);
                }
                Some((xs, j2))
            },
            None => {
                proof {
                    let t1 = skip(v@, j + 1 as int);
                    if scan_u32_items(t1) is Some {
                        let pt = scan_u32_items(t1).unwrap();
                        if !(forall|k: int| 0 <= k < pt.0.len() ==> pt.0[k] <= u32::MAX) {
                            let k0 = choose|k: int|
                                0 <= k < pt.0.len() && !(pt.0[k] <= u32::MAX);
                            let p = scan_u32_items(skip(v@, i as int)).unwrap();
                            assert(p.0 == seq![x as nat] + pt.0);
                            assert(p.0[k0 + 1] == pt.0[k0]);
                            assert(!(forall|k: int| 0 <= k < p.0.len() ==> p.0[k] <= u32::MAX));
                        }
                    }
                }
                None
            },
        }
    } else if j < v.len() && v[j] == ']' {
        proof {
            assert(skip(v@, j as int)[0] == ']');
            assert(skip(v@, j as int)[0] != ',');
            assert(skip(v@, j as int).drop_first() =~= skip(v@, j + 1 as int));
        }
        let mut xs: Vec<u32> = Vec::new();
        xs.push(x);
        proof {
            assert(Seq::new(xs@.len(), |k: int| xs@[k] as nat) =~= seq![x as nat]);
        }
        Some((xs, j + 1))
    } else {
        proof {
            if j < v@.len() {
                assert(skip(v@, j as int)[0] != ',' && skip(v@, j as int)[0] != ']');
            } else {
                assert(skip(v@, j as int).len() == 0);
            }
        }
        None
    }
}

/// Scans a JSON array of numbers from `i`.
fn scan_u32_list_exec(v: &Vec<char>, i: usize) -> (r: Option<(Vec<u32>, usize)>)
    requires
        i <= v@.len(),
    ensures
        match scan_u32_list(skip(v@, i as int)) {
            Option::Some(p) => if forall|k: int| 0 <= k < p.0.len() ==> p.0[k] <= u32::MAX {
                r matches Some(q) && Seq::new(q.0@.len(), |k: int| q.0@[k] as nat) == p.0 && i
                    <= q.1 <= v@.len() && skip(v@, q.1 as int) == p.1
            } else {
                r is None
            },
            Option::None => r is None,
        },
{
    if i >= v.len() || v[i] != '[' {
        proof {
            if i < v@.len() {
                assert(skip(v@, i as int)[0] != '[');
            } else {
                assert(skip(v@, i as int).len() == 0);
            }
        }
        return None;
    }
    proof {
        assert(skip(v@, i as int)[0] == '[');
    }
    if i + 1 < v.len() && v[i + 1] == ']' {
        proof {
            assert(skip(v@, i as int)[1] == ']');
            assert(skip(v@, i as int).subrange(2, skip(v@, i as int).len() as int) =~= skip(
                v@,
                i + 2 as int,
            ));
            assert(Seq::new(0, |k: int| 0nat) =~= Seq::<nat>::empty());
        }
        return Some((Vec::new(), i + 2));
    }
    proof {
        if i + 1 < v@.len() {
            assert(!(skip(v@, i as int).len() >= 2 && skip(v@, i as int)[1] == ']'));
        } else {
            assert(skip(v@, i as int).len() < 2);
        }
        assert(skip(v@, i as int).drop_first() =~= skip(v@, i + 1 as int));
    }
    scan_u32_items_exec(v, i + 1)
}


/// Scans one `"key":"value"` pair.
pub open spec fn scan_pair(t: Seq<char>) -> Option<((Seq<char>, Seq<char>), Seq<char>)> {
    match scan_json_string(t) {
        Option::None => Option::None,
        Option::Some((k, r)) => if r.len() > 0 && r[0] == ':' {
            match scan_json_string(r.drop_first()) {
                Option::None => Option::None,
                Option::Some((w, r2)) => Option::Some(((k, w), r2)),
            }
        } else {
            Option::None
        },
    }
}

/// A scanned pair ends strictly before the end of its input.
proof fn lemma_scan_pair_shrinks(t: Seq<char>)
    ensures
        scan_pair(t) matches Some(p) ==> p.1.len() < t.len(),
{
    lemma_scan_json_string_shrinks(t);
    if scan_json_string(t) is Some {
        let q = scan_json_string(t).unwrap();
        if q.1.len() > 0 && q.1[0] == ':' {
            lemma_scan_json_string_shrinks(q.1.drop_first());
        }
    }
}

/// Scanning an encoded pair recovers it.
proof fn lemma_scan_pair(k: Seq<char>, w: Seq<char>, rest: Seq<char>)
    ensures
        scan_pair(
            crate::json::json_string(k) + seq![':'] + crate::json::json_string(w) + rest,
        ) == Option::Some(((k, w), rest)),
{
    let t = crate::json::json_string(k) + seq![':'] + crate::json::json_string(w) + rest;
    let r = seq![':'] + crate::json::json_string(w) + rest;
    assert(t =~= crate::json::json_string(k) + r);
    lemma_scan_json_string(k, r);
    assert(r[0] == ':');
    assert(r.drop_first() =~= crate::json::json_string(w) + rest);
    lemma_scan_json_string(w, rest);
}

/// Scans one or more comma-separated pairs up to the closing brace.
pub open spec fn scan_pair_items(t: Seq<char>) -> Option<
    (Seq<(Seq<char>, Seq<char>)>, Seq<char>),
>
    decreases t.len(),
    via scan_pair_items_dec
{
    match scan_pair(t) {
        Option::None => Option::None,
        Option::Some((x, r)) => if r.len() > 0 && r[0] == ',' {
            match scan_pair_items(r.drop_first()) {
                Option::None => Option::None,
                Option::Some((xs, r2)) => Option::Some((seq![x] + xs, r2)),
            }
        } else if r.len() > 0 && r[0] == '}' {
            Option::Some((seq![x], r.drop_first()))
        } else {
            Option::None
        },
    }
}

#[via_fn]
proof fn scan_pair_items_dec(t: Seq<char>) {
    lemma_scan_pair_shrinks(t);
}

/// Scans a JSON object of string keys and values.
pub open spec fn scan_params(t: Seq<char>) -> Option<(Seq<(Seq<char>, Seq<char>)>, Seq<char>)> {
    if t.len() >= 2 && t[0] == '{' && t[1] == '}' {
        Option::Some((Seq::empty(), t.subrange(2, t.len() as int)))
    } else if t.len() >= 1 && t[0] == '{' {
        scan_pair_items(t.drop_first())
    } else {
        Option::None
    }
}

/// Scanning encoded pairs recovers them.
proof fn lemma_scan_pair_items(ps: Seq<(Seq<char>, Seq<char>)>, rest: Seq<char>)
    requires
        ps.len() >= 1,
    ensures
        scan_pair_items(
            crate::json::join_comma(
                Seq::new(
                    ps.len(),
                    |i: int| crate::json::json_string(ps[i].0) + seq![':']
                        + crate::json::json_string(ps[i].1),
                ),
            ) + seq!['}'] + rest,
        ) == Option::Some((ps, rest)),
    decreases ps.len(),
{
    let items = Seq::new(
        ps.len(),
        |i: int| crate::json::json_string(ps[i].0) + seq![':'] + crate::json::json_string(
            ps[i].1,
        ),
    );
    let t = crate::json::join_comma(items) + seq!['}'] + rest;
    if ps.len() == 1 {
        assert(crate::json::join_comma(items) == items[0]);
        assert(t =~= crate::json::json_string(ps[0].0) + seq![':'] + crate::json::json_string(
            ps[0].1,
        ) + (seq!['}'] + rest));
        lemma_scan_pair(ps[0].0, ps[0].1, seq!['}'] + rest);
        let r = seq!['}'] + rest;
        assert(r[0] == '}' && r[0] != ',');
        assert(r.drop_first() =~= rest);
        assert(seq![(ps[0].0, ps[0].1)] =~= ps);
    } else {
        let tail = Seq::new(
            (ps.len() - 1) as nat,
            |i: int| crate::json::json_string(ps[i + 1].0) + seq![':']
                + crate::json::json_string(ps[i + 1].1),
        );
        assert(items.drop_first() =~= tail);
        assert(crate::json::join_comma(items) == items[0] + seq![','] + crate::json::join_comma(
            tail,
        ));
        let r = seq![','] + crate::json::join_comma(tail) + seq!['}'] + rest;
        assert(t =~= crate::json::json_string(ps[0].0) + seq![':'] + crate::json::json_string(
            ps[0].1,
        ) + r);
        lemma_scan_pair(ps[0].0, ps[0].1, r);
        assert(r[0] == ',');
        let ps2 = ps.drop_first();
        assert(Seq::new(
            ps2.len(),
            |i: int| crate::json::json_string(ps2[i].0) + seq![':'] + crate::json::json_string(
                ps2[i].1,
            ),
        ) =~= tail);
        lemma_scan_pair_items(ps2, rest);
        assert(r.drop_first() =~= crate::json::join_comma(tail) + seq!['}'] + rest);
        assert(seq![(ps[0].0, ps[0].1)] + ps2 =~= ps);
    }
}

/// Scanning an encoded JSON object recovers its pairs.
pub proof fn lemma_scan_params(ps: Seq<(Seq<char>, Seq<char>)>, rest: Seq<char>)
    ensures
        scan_params(crate::json::json_object(ps) + rest) == Option::Some((ps, rest)),
{
    let items = Seq::new(
        ps.len(),
        |i: int| crate::json::json_string(ps[i].0) + seq![':'] + crate::json::json_string(
            ps[i].1,
        ),
    );
    let t = crate::json::json_object(ps) + rest;
    assert(t[0] == '{');
    if ps.len() == 0 {
        assert(crate::json::join_comma(items) == Seq::<char>::empty());
        assert(t =~= seq!['{', '}'] + rest);
        assert(t[1] == '}');
        assert(t.subrange(2, t.len() as int) =~= rest);
    } else {
        assert(t.drop_first() =~= crate::json::join_comma(items) + seq!['}'] + rest);
        lemma_scan_pair_items(ps, rest);
        assert(items[0][0] == '"');
        assert(t[1] == '"');
        assert(t[1] != '}');
    }
}

/// The views of a vector of key-value pairs.
pub open spec fn pair_views(xs: Seq<(String, String)>) -> Seq<(Seq<char>, Seq<char>)> {
    Seq::new(xs.len(), |i: int| (xs[i].0@, xs[i].1@))
}

/// Scans one pair from `i`.
fn scan_pair_exec(v: &Vec<char>, i: usize) -> (r: Option<((String, String), usize)>)
    requires
        i <= v@.len(),
    ensures
        match scan_pair(skip(v@, i as int)) {
            Option::Some(p) => r matches Some(q) && q.0.0@ == p.0.0 && q.0.1@ == p.0.1 && i <= q.1
                <= v@.len() && skip(v@, q.1 as int) == p.1,
            Option::None => r is None,
        },
{
    let (k, j) = match scan_json_string_exec(v, i) {
        Some(q) => q,
        None => {
            return None;
        },
    };
    if j < v.len() && v[j] == ':' {
        proof {
            assert(skip(v@, j as int)[0] == ':');
            assert(skip(v@, j as int).drop_first() =~= skip(v@, j + 1 as int));
        }
        match scan_json_string_exec(v, j + 1) {
            Some((w, j2)) => Some(((k, w), j2)),
            None => None,
        }
    } else {
        proof {
            if j < v@.len() {
                assert(skip(v@, j as int)[0] != ':');
            } else {
                assert(skip(v@, j as int).len() == 0);
            }
        }
        None
    }
}

/// Scans comma-separated pairs up to the closing brace, from `i`.
fn scan_pair_items_exec(v: &Vec<char>, i: usize) -> (r: Option<(Vec<(String, String)>, usize)>)
    requires
        i <= v@.len(),
    ensures
        match scan_pair_items(skip(v@, i as int)) {
            Option::Some(p) => r matches Some(q) && pair_views(q.0@) == p.0 && i <= q.1 <= v@.len()
                && skip(v@, q.1 as int) == p.1,
            Option::None => r is None,
        },
    decreases v@.len() - i,
{
    let (x, j) = match scan_pair_exec(v, i) {
        Some(q) => q,
        None => {
            return None;
        },
    };
    proof {
        lemma_scan_pair_shrinks(skip(v@, i as int));
    }
    if j < v.len() && v[j] == ',' {
        proof {
            assert(skip(v@, j as int)[0] == ',');
            assert(skip(v@, j as int).drop_first() =~= skip(v@, j + 1 as int));
        }
        match scan_pair_items_exec(v, j + 1) {
            Some((mut xs, j2)) => {
                let ghost tailviews = pair_views(xs@);
                xs.insert(0, x);
                proof {
                    let p = scan_pair_items(skip(v@, j + 1 as int)).unwrap();
                    assert(pair_views(xs@) =~= seq![(x.0@, x.1@)] + tailviews);
                }
                Some((xs, j2))
            },
            None => None,
        }
    } else if j < v.len() && v[j] == '}' {
        proof {
            assert(skip(v@, j as int)[0] == '}');
            assert(skip(v@, j as int)[0] != ',');
            assert(skip(v@, j as int).drop_first() =~= skip(v@, j + 1 as int));
        }
        let mut xs: Vec<(String, String)> = Vec::new();
        xs.push(x);
        proof {
            assert(pair_views(xs@) =~= seq![(xs@[0].0@, xs@[0].1@)]);
        }
        Some((xs, j + 1))
    } else {
        proof {
            if j < v@.len() {
                assert(skip(v@, j as int)[0] != ',' && skip(v@, j as int)[0] != '}');
            } else {
                assert(skip(v@, j as int).len() == 0);
            }
        }
        None
    }
}

/// Scans a JSON object of string pairs from `i`.
fn scan_params_exec(v: &Vec<char>, i: usize) -> (r: Option<(Vec<(String, String)>, usize)>)
    requires
        i <= v@.len(),
    ensures
        match scan_params(skip(v@, i as int)) {
            Option::Some(p) => r matches Some(q) && pair_views(q.0@) == p.0 && i <= q.1 <= v@.len()
                && skip(v@, q.1 as int) == p.1,
            Option::None => r is None,
        },
{
    if i >= v.len() || v[i] != '{' {
        proof {
            if i < v@.len() {
                assert(skip(v@, i as int)[0] != '{');
            } else {
                assert(skip(v@, i as int).len() == 0);
            }
        }
        return None;
    }
    proof {
        assert(skip(v@, i as int)[0] == '{');
    }
    if i + 1 < v.len() && v[i + 1] == '}' {
        proof {
            assert(skip(v@, i as int)[1] == '}');
            assert(skip(v@, i as int).subrange(2, skip(v@, i as int).len() as int) =~= skip(
                v@,
                i + 2 as int,
            ));
            assert(pair_views(Seq::<(String, String)>::empty()) =~= Seq::<
                (Seq<char>, Seq<char>),
            >::empty());
        }
        return Some((Vec::new(), i + 2));
    }
    proof {
        if i + 1 < v@.len() {
            assert(!(skip(v@, i as int).len() >= 2 && skip(v@, i as int)[1] == '}'));
        } else {
            assert(skip(v@, i as int).len() < 2);
        }
        assert(skip(v@, i as int).drop_first() =~= skip(v@, i + 1 as int));
    }
    scan_pair_items_exec(v, i + 1)
}


/// A scanned constraint ends strictly before the end of its input.
proof fn lemma_scan_constraint_shrinks(t: Seq<char>)
    ensures
        scan_constraint(t) matches Some(p) ==> p.1.len() < t.len(),
{
    if begins_with(t, "{\"contextName\":"@) {
        let t1 = skip(t, "{\"contextName\":"@.len() as int);
        lemma_scan_json_string_shrinks(t1);
        if scan_json_string(t1) is Some {
            let t2 = scan_json_string(t1).unwrap().1;
            if begins_with(t2, ",\"operator\":"@) {
                let u2 = skip(t2, ",\"operator\":"@.len() as int);
                lemma_scan_json_string_shrinks(u2);
                if scan_json_string(u2) is Some {
                    let t3 = scan_json_string(u2).unwrap().1;
                    if begins_with(t3, ",\"caseInsensitive\":"@) {
                        let u3 = skip(t3, ",\"caseInsensitive\":"@.len() as int);
                        if scan_bool(u3) is Some {
                            let t4 = scan_bool(u3).unwrap().1;
                            if begins_with(t4, ",\"inverted\":"@) {
                                let u4 = skip(t4, ",\"inverted\":"@.len() as int);
                                if scan_bool(u4) is Some {
                                    let t5 = scan_bool(u4).unwrap().1;
                                    if begins_with(t5, ",\"values\":"@) {
                                        let u5 = skip(t5, ",\"values\":"@.len() as int);
                                        lemma_scan_string_list_shrinks(u5);
                                        if scan_string_list(u5) is Some {
                                            let t6 = scan_string_list(u5).unwrap().1;
                                            if begins_with(t6, ",\"value\":"@) {
                                                let u6 = skip(t6, ",\"value\":"@.len() as int);
                                                lemma_scan_json_string_shrinks(u6);
                                            }
                                        }
                                    }
                                }
                            }
                        }
                    }
                }
            }
        }
    }
}

/// A scanned string list never lengthens the text.
proof fn lemma_scan_string_items_shrinks(t: Seq<char>)
    ensures
        scan_string_items(t) matches Some(p) ==> p.1.len() < t.len(),
    decreases t.len(),
{
    lemma_scan_json_string_shrinks(t);
    if scan_json_string(t) is Some {
        let q = scan_json_string(t).unwrap();
        if q.1.len() > 0 && q.1[0] == ',' {
            lemma_scan_string_items_shrinks(q.1.drop_first());
        }
    }
}

/// A scanned string list ends strictly before the end of its input.
proof fn lemma_scan_string_list_shrinks(t: Seq<char>)
    ensures
        scan_string_list(t) matches Some(p) ==> p.1.len() < t.len(),
{
    if t.len() >= 2 && t[0] == '[' && t[1] == ']' {
    } else if t.len() >= 1 && t[0] == '[' {
        lemma_scan_string_items_shrinks(t.drop_first());
    }
}

/// Scans one or more comma-separated constraints up to the closing bracket.
pub open spec fn scan_constraint_items(t: Seq<char>) -> Option<
    (Seq<crate::model::ConstraintView>, Seq<char>),
>
    decreases t.len(),
    via scan_constraint_items_dec
{
    match scan_constraint(t) {
        Option::None => Option::None,
        Option::Some((x, r)) => if r.len() > 0 && r[0] == ',' {
            match scan_constraint_items(r.drop_first()) {
                Option::None => Option::None,
                Option::Some((xs, r2)) => Option::Some((seq![x] + xs, r2)),
            }
        } else if r.len() > 0 && r[0] == ']' {
            Option::Some((seq![x], r.drop_first()))
        } else {
            Option::None
        },
    }
}

#[via_fn]
proof fn scan_constraint_items_dec(t: Seq<char>) {
    lemma_scan_constraint_shrinks(t);
}

/// Scans a JSON array of constraints.
pub open spec fn scan_constraint_list(t: Seq<char>) -> Option<
    (Seq<crate::model::ConstraintView>, Seq<char>),
> {
    if t.len() >= 2 && t[0] == '[' && t[1] == ']' {
        Option::Some((Seq::empty(), t.subrange(2, t.len() as int)))
    } else if t.len() >= 1 && t[0] == '[' {
        scan_constraint_items(t.drop_first())
    } else {
        Option::None
    }
}

/// An operator view is faithful when it is marked unknown exactly if its
/// spelling is not a known one.
pub open spec fn operator_view_faithful(ov: crate::model::OperatorView) -> bool {
    ov.unknown == (known_operator_of(ov.label) is None)
}

/// Scanning encoded constraints recovers them.
proof fn lemma_regroup2(x: Seq<char>, a: Seq<char>, b: Seq<char>)
    ensures
        x + a + b == x + (a + b),
{
    assert(x + a + b =~= x + (a + b));
}

proof fn lemma_regroup4(x: Seq<char>, a: Seq<char>, b: Seq<char>, c: Seq<char>, d: Seq<char>)
    ensures
        x + a + b + c + d == x + (a + b + c + d),
{
    assert(x + a + b + c + d =~= x + (a + b + c + d));
}

proof fn lemma_drop_comma(b: Seq<char>, c: Seq<char>, d: Seq<char>)
    ensures
        (seq![','] + b + c + d).drop_first() == b + c + d,
{
    assert((seq![','] + b + c + d).drop_first() =~= b + c + d);
}

/// Scanning encoded constraints recovers them.
#[verifier::rlimit(100)]
#[verifier::spinoff_prover]
proof fn lemma_scan_constraint_items(cs: Seq<crate::model::ConstraintView>, rest: Seq<char>)
    requires
        cs.len() >= 1,
        forall|i: int| 0 <= i < cs.len() ==> operator_view_faithful(#[trigger] cs[i].operator),
    ensures
        scan_constraint_items(
            crate::json::join_comma(
                Seq::new(cs.len(), |i: int| crate::json::json_constraint(cs[i])),
            ) + seq![']'] + rest,
        ) == Option::Some((cs, rest)),
    decreases cs.len(),
{
    let items = Seq::new(cs.len(), |i: int| crate::json::json_constraint(cs[i]));
    let t = crate::json::join_comma(items) + seq![']'] + rest;
    if cs.len() == 1 {
        assert(crate::json::join_comma(items) == items[0]);
        lemma_regroup2(crate::json::json_constraint(cs[0]), seq![']'], rest);
        lemma_scan_constraint(cs[0], seq![']'] + rest);
        let r = seq![']'] + rest;
        assert(r[0] == ']' && r[0] != ',');
        assert(r.drop_first() =~= rest);
        assert(seq![cs[0]] =~= cs);
    } else {
        let tail = Seq::new(
            (cs.len() - 1) as nat,
            |i: int| crate::json::json_constraint(cs[i + 1]),
        );
        assert(items.drop_first() =~= tail);
        assert(crate::json::join_comma(items) == items[0] + seq![','] + crate::json::join_comma(
            tail,
        ));
        let r = seq![','] + crate::json::join_comma(tail) + seq![']'] + rest;
        lemma_regroup4(
            crate::json::json_constraint(cs[0]),
            seq![','],
            crate::json::join_comma(tail),
            seq![']'],
            rest,
        );
        assert(t == crate::json::json_constraint(cs[0]) + r);
        lemma_scan_constraint(cs[0], r);
        assert(r[0] == ',');
        let cs2 = cs.drop_first();
        assert(Seq::new(cs2.len(), |i: int| crate::json::json_constraint(cs2[i])) =~= tail);
        lemma_scan_constraint_items(cs2, rest);
        lemma_drop_comma(crate::json::join_comma(tail), seq![']'], rest);
        assert(r.drop_first() == crate::json::join_comma(tail) + seq![']'] + rest);
        assert(seq![cs[0]] + cs2 =~= cs);
    }
}

/// Scanning an encoded JSON array of constraints recovers the constraints.
pub proof fn lemma_scan_constraint_list(cs: Seq<crate::model::ConstraintView>, rest: Seq<char>)
    requires
        forall|i: int| 0 <= i < cs.len() ==> operator_view_faithful(#[trigger] cs[i].operator),
    ensures
        scan_constraint_list(
            crate::json::json_list(
                Seq::new(cs.len(), |i: int| crate::json::json_constraint(cs[i])),
            ) + rest,
        ) == Option::Some((cs, rest)),
{
    let items = Seq::new(cs.len(), |i: int| crate::json::json_constraint(cs[i]));
    let t = crate::json::json_list(items) + rest;
    assert(t[0] == '[');
    if cs.len() == 0 {
        assert(crate::json::join_comma(items) == Seq::<char>::empty());
        assert(t =~= seq!['[', ']'] + rest);
        assert(t[1] == ']');
        assert(t.subrange(2, t.len() as int) =~= rest);
        assert(Seq::new(0, |i: int| cs[i]) =~= Seq::<crate::model::ConstraintView>::empty());
    } else {
        assert(t.drop_first() =~= crate::json::join_comma(items) + seq![']'] + rest);
        lemma_scan_constraint_items(cs, rest);
        reveal_strlit("{\"contextName\":");
        assert(items[0][0] == '{');
        assert(t[1] == '{');
        assert(t[1] != ']');
    }
}

/// The views of a vector of constraints.
pub open spec fn constraint_views(cs: Seq<crate::model::Constraint>) -> Seq<
    crate::model::ConstraintView,
> {
    Seq::new(cs.len(), |i: int| cs[i]@)
}

/// Scans comma-separated constraints up to the closing bracket, from `i`.
fn scan_constraint_items_exec(v: &Vec<char>, i: usize) -> (r: Option<
    (Vec<crate::model::Constraint>, usize),
>)
    requires
        i <= v@.len(),
    ensures
        match scan_constraint_items(skip(v@, i as int)) {
            Option::Some(p) => r matches Some(q) && constraint_views(q.0@) == p.0 && i <= q.1
                <= v@.len() && skip(v@, q.1 as int) == p.1,
            Option::None => r is None,
        },
    decreases v@.len() - i,
{
    let (x, j) = match scan_constraint_exec(v, i) {
        Some(q) => q,
        None => {
            return None;
        },
    };
    proof {
        lemma_scan_constraint_shrinks(skip(v@, i as int));
    }
    if j < v.len() && v[j] == ',' {
        proof {
            assert(skip(v@, j as int)[0] == ',');
            assert(skip(v@, j as int).drop_first() =~= skip(v@, j + 1 as int));
        }
        match scan_constraint_items_exec(v, j + 1) {
            Some((mut xs, j2)) => {
                let ghost tailviews = constraint_views(xs@);
                xs.insert(0, x);
                proof {
                    let p = scan_constraint_items(skip(v@, j + 1 as int)).unwrap();
                    assert(constraint_views(xs@) =~= seq![xs@[0]@] + tailviews);
                }
                Some((xs, j2))
            },
            None => None,
        }
    } else if j < v.len() && v[j] == ']' {
        proof {
            assert(skip(v@, j as int)[0] == ']');
            assert(skip(v@, j as int)[0] != ',');
            assert(skip(v@, j as int).drop_first() =~= skip(v@, j + 1 as int));
        }
        let mut xs: Vec<crate::model::Constraint> = Vec::new();
        xs.push(x);
        proof {
            assert(constraint_views(xs@) =~= seq![xs@[0]@]);
        }
        Some((xs, j + 1))
    } else {
        proof {
            if j < v@.len() {
                assert(skip(v@, j as int)[0] != ',' && skip(v@, j as int)[0] != ']');
            } else {
                assert(skip(v@, j as int).len() == 0);
            }
        }
        None
    }
}

/// Scans a JSON array of constraints from `i`.
fn scan_constraint_list_exec(v: &Vec<char>, i: usize) -> (r: Option<
    (Vec<crate::model::Constraint>, usize),
>)
    requires
        i <= v@.len(),
    ensures
        match scan_constraint_list(skip(v@, i as int)) {
            Option::Some(p) => r matches Some(q) && constraint_views(q.0@) == p.0 && i <= q.1
                <= v@.len() && skip(v@, q.1 as int) == p.1,
            Option::None => r is None,
        },
{
    if i >= v.len() || v[i] != '[' {
        proof {
            if i < v@.len() {
                assert(skip(v@, i as int)[0] != '[');
            } else {
                assert(skip(v@, i as int).len() == 0);
            }
        }
        return None;
    }
    proof {
        assert(skip(v@, i as int)[0] == '[');
    }
    if i + 1 < v.len() && v[i + 1] == ']' {
        proof {
            assert(skip(v@, i as int)[1] == ']');
            assert(skip(v@, i as int).subrange(2, skip(v@, i as int).len() as int) =~= skip(
                v@,
                i + 2 as int,
            ));
            assert(constraint_views(Seq::<crate::model::Constraint>::empty()) =~= Seq::<
                crate::model::ConstraintView,
            >::empty());
        }
        return Some((Vec::new(), i + 2));
    }
    proof {
        if i + 1 < v@.len() {
            assert(!(skip(v@, i as int).len() >= 2 && skip(v@, i as int)[1] == ']'));
        } else {
            assert(skip(v@, i as int).len() < 2);
        }
        assert(skip(v@, i as int).drop_first() =~= skip(v@, i + 1 as int));
    }
    scan_constraint_items_exec(v, i + 1)
}


/// The text of an encoded strategy after the name.
pub open spec fn strategy_rest1(s: crate::model::StrategyView) -> Seq<char> {
    ",\"title\":"@ + crate::json::json_string(s.title) + strategy_rest2(s)
}

/// The text after the title.
pub open spec fn strategy_rest2(s: crate::model::StrategyView) -> Seq<char> {
    ",\"disabled\":"@ + crate::json::json_bool(s.disabled) + strategy_rest3(s)
}

/// The text after the disabled flag.
pub open spec fn strategy_rest3(s: crate::model::StrategyView) -> Seq<char> {
    ",\"sortOrder\":"@ + crate::text::dec_nat(s.sort_order as nat) + strategy_rest4(s)
}

/// The text after the sort order.
pub open spec fn strategy_rest4(s: crate::model::StrategyView) -> Seq<char> {
    ",\"constraints\":"@ + crate::json::json_list(
        Seq::new(s.constraints.len(), |i: int| crate::json::json_constraint(s.constraints[i])),
    ) + strategy_rest5(s)
}

/// The text after the constraints.
pub open spec fn strategy_rest5(s: crate::model::StrategyView) -> Seq<char> {
    ",\"parameters\":"@ + crate::json::json_object(s.parameters) + strategy_rest6(s)
}

/// The text after the parameters.
pub open spec fn strategy_rest6(s: crate::model::StrategyView) -> Seq<char> {
    ",\"segments\":"@ + crate::json::json_list(
        Seq::new(s.segments.len(), |i: int| crate::text::dec_nat(s.segments[i] as nat)),
    ) + "}"@
}

/// The strategy a canonical wire text encodes, if it is one.
pub open spec fn parse_strategy_text(t: Seq<char>) -> Option<crate::model::StrategyView> {
    if !begins_with(t, "{\"name\":"@) {
        Option::None
    } else {
        match scan_json_string(skip(t, "{\"name\":"@.len() as int)) {
            Option::None => Option::None,
            Option::Some((name, t1)) => if !begins_with(t1, ",\"title\":"@) {
                Option::None
            } else {
                match scan_json_string(skip(t1, ",\"title\":"@.len() as int)) {
                    Option::None => Option::None,
                    Option::Some((title, t2)) => if !begins_with(t2, ",\"disabled\":"@) {
                        Option::None
                    } else {
                        match scan_bool(skip(t2, ",\"disabled\":"@.len() as int)) {
                            Option::None => Option::None,
                            Option::Some((disabled, t3)) => if !begins_with(
                                t3,
                                ",\"sortOrder\":"@,
                            ) {
                                Option::None
                            } else {
                                match scan_number(skip(t3, ",\"sortOrder\":"@.len() as int)) {
                                    Option::None => Option::None,
                                    Option::Some((n, t4)) => if n > u32::MAX {
                                        Option::None
                                    } else if !begins_with(t4, ",\"constraints\":"@) {
                                        Option::None
                                    } else {
                                        match scan_constraint_list(
                                            skip(t4, ",\"constraints\":"@.len() as int),
                                        ) {
                                            Option::None => Option::None,
                                            Option::Some((constraints, t5)) => if !begins_with(
                                                t5,
                                                ",\"parameters\":"@,
                                            ) {
                                                Option::None
                                            } else {
                                                match scan_params(
                                                    skip(t5, ",\"parameters\":"@.len() as int),
                                                ) {
                                                    Option::None => Option::None,
                                                    Option::Some((parameters, t6)) => if !begins_with(
                                                        t6,
                                                        ",\"segments\":"@,
                                                    ) {
                                                        Option::None
                                                    } else {
                                                        match scan_u32_list(
                                                            skip(
                                                                t6,
                                                                ",\"segments\":"@.len() as int,
                                                            ),
                                                        ) {
                                                            Option::None => Option::None,
                                                            Option::Some((ns, t7)) => if !(
                                                            forall|k: int|
                                                                0 <= k < ns.len() ==> ns[k]
                                                                    <= u32::MAX) {
                                                                Option::None
                                                            } else if t7 == "}"@ {
                                                                Option::Some(
                                                                    crate::model::StrategyView {
                                                                        name,
                                                                        title,
                                                                        disabled,
                                                                        sort_order: n as u32,
                                                                        constraints,
                                                                        parameters,
                                                                        segments: Seq::new(
                                                                            ns.len(),
                                                                            |k: int| ns[k] as u32,
                                                                        ),
                                                                    },
                                                                )
                                                            } else {
                                                                Option::None
                                                            },
                                                        }
                                                    },
                                                }
                                            },
                                        }
                                    },
                                }
                            },
                        }
                    },
                }
            },
        }
    }
}

#[verifier::rlimit(100)]
#[verifier::spinoff_prover]
proof fn lemma_strategy_peel0(s: crate::model::StrategyView)
    ensures
        begins_with(crate::json::json_strategy(s), "{\"name\":"@),
        skip(crate::json::json_strategy(s), "{\"name\":"@.len() as int)
            == crate::json::json_string(s.name) + strategy_rest1(s),
{
    let t = crate::json::json_strategy(s);
    assert(t.take("{\"name\":"@.len() as int) =~= "{\"name\":"@);
    assert(skip(t, "{\"name\":"@.len() as int) =~= crate::json::json_string(s.name)
        + strategy_rest1(s));
}

#[verifier::rlimit(100)]
#[verifier::spinoff_prover]
proof fn lemma_strategy_peel1(s: crate::model::StrategyView)
    ensures
        begins_with(strategy_rest1(s), ",\"title\":"@),
        skip(strategy_rest1(s), ",\"title\":"@.len() as int) == crate::json::json_string(
            s.title,
        ) + strategy_rest2(s),
{
    assert(strategy_rest1(s).take(",\"title\":"@.len() as int) =~= ",\"title\":"@);
    assert(skip(strategy_rest1(s), ",\"title\":"@.len() as int) =~= crate::json::json_string(
        s.title,
    ) + strategy_rest2(s));
}

#[verifier::rlimit(100)]
#[verifier::spinoff_prover]
proof fn lemma_strategy_peel2(s: crate::model::StrategyView)
    ensures
        begins_with(strategy_rest2(s), ",\"disabled\":"@),
        skip(strategy_rest2(s), ",\"disabled\":"@.len() as int) == crate::json::json_bool(
            s.disabled,
        ) + strategy_rest3(s),
{
    assert(strategy_rest2(s).take(",\"disabled\":"@.len() as int) =~= ",\"disabled\":"@);
    assert(skip(strategy_rest2(s), ",\"disabled\":"@.len() as int) =~= crate::json::json_bool(
        s.disabled,
    ) + strategy_rest3(s));
}

#[verifier::rlimit(100)]
#[verifier::spinoff_prover]
proof fn lemma_strategy_peel3(s: crate::model::StrategyView)
    ensures
        begins_with(strategy_rest3(s), ",\"sortOrder\":"@),
        skip(strategy_rest3(s), ",\"sortOrder\":"@.len() as int) == crate::text::dec_nat(
            s.sort_order as nat,
        ) + strategy_rest4(s),
{
    assert(strategy_rest3(s).take(",\"sortOrder\":"@.len() as int) =~= ",\"sortOrder\":"@);
    assert(skip(strategy_rest3(s), ",\"sortOrder\":"@.len() as int) =~= crate::text::dec_nat(
        s.sort_order as nat,
    ) + strategy_rest4(s));
}

#[verifier::rlimit(100)]
#[verifier::spinoff_prover]
proof fn lemma_strategy_peel4(s: crate::model::StrategyView)
    ensures
        begins_with(strategy_rest4(s), ",\"constraints\":"@),
        skip(strategy_rest4(s), ",\"constraints\":"@.len() as int) == crate::json::json_list(
            Seq::new(
                s.constraints.len(),
                |i: int| crate::json::json_constraint(s.constraints[i]),
            ),
        ) + strategy_rest5(s),
{
    assert(strategy_rest4(s).take(",\"constraints\":"@.len() as int) =~= ",\"constraints\":"@);
    assert(skip(strategy_rest4(s), ",\"constraints\":"@.len() as int)
        =~= crate::json::json_list(
        Seq::new(s.constraints.len(), |i: int| crate::json::json_constraint(s.constraints[i])),
    ) + strategy_rest5(s));
}

#[verifier::rlimit(100)]
#[verifier::spinoff_prover]
proof fn lemma_strategy_peel5(s: crate::model::StrategyView)
    ensures
        begins_with(strategy_rest5(s), ",\"parameters\":"@),
        skip(strategy_rest5(s), ",\"parameters\":"@.len() as int) == crate::json::json_object(
            s.parameters,
        ) + strategy_rest6(s),
{
    assert(strategy_rest5(s).take(",\"parameters\":"@.len() as int) =~= ",\"parameters\":"@);
    assert(skip(strategy_rest5(s), ",\"parameters\":"@.len() as int)
        =~= crate::json::json_object(s.parameters) + strategy_rest6(s));
}

#[verifier::rlimit(100)]
#[verifier::spinoff_prover]
proof fn lemma_strategy_peel6(s: crate::model::StrategyView)
    ensures
        begins_with(strategy_rest6(s), ",\"segments\":"@),
        skip(strategy_rest6(s), ",\"segments\":"@.len() as int) == crate::json::json_list(
            Seq::new(s.segments.len(), |i: int| crate::text::dec_nat(s.segments[i] as nat)),
        ) + "}"@,
{
    assert(strategy_rest6(s).take(",\"segments\":"@.len() as int) =~= ",\"segments\":"@);
    assert(skip(strategy_rest6(s), ",\"segments\":"@.len() as int) =~= crate::json::json_list(
        Seq::new(s.segments.len(), |i: int| crate::text::dec_nat(s.segments[i] as nat)),
    ) + "}"@);
}

/// Decoding inverts encoding for strategies whose constraints carry
/// faithful operator views.
#[verifier::rlimit(100)]
#[verifier::spinoff_prover]
pub proof fn lemma_strategy_round_trip(s: crate::model::StrategyView)
    requires
        forall|i: int|
            0 <= i < s.constraints.len() ==> operator_view_faithful(
                #[trigger] s.constraints[i].operator,
            ),
    ensures
        parse_strategy_text(crate::json::json_strategy(s)) == Option::Some(s),
{
    let t = crate::json::json_strategy(s);
    lemma_strategy_peel0(s);
    lemma_scan_json_string(s.name, strategy_rest1(s));
    lemma_strategy_peel1(s);
    lemma_scan_json_string(s.title, strategy_rest2(s));
    lemma_strategy_peel2(s);
    lemma_scan_bool(s.disabled, strategy_rest3(s));
    lemma_strategy_peel3(s);
    reveal_strlit(",\"constraints\":");
    assert(strategy_rest4(s)[0] == ',');
    assert(!is_digit(strategy_rest4(s)[0]));
    lemma_scan_number(s.sort_order as nat, strategy_rest4(s));
    lemma_strategy_peel4(s);
    lemma_scan_constraint_list(s.constraints, strategy_rest5(s));
    lemma_strategy_peel5(s);
    lemma_scan_params(s.parameters, strategy_rest6(s));
    lemma_strategy_peel6(s);
    lemma_scan_u32_list(s.segments, "}"@);
    assert(Seq::new(
        Seq::new(s.segments.len(), |i: int| s.segments[i] as nat).len(),
        |k: int| Seq::new(s.segments.len(), |i: int| s.segments[i] as nat)[k] as u32,
    ) =~= s.segments);
    assert(parse_strategy_text(t) == Option::Some(s));
}

/// Decodes the canonical wire text of a strategy: exactly the inverse of
/// `encode_strategy` on its output, and refusing any other text.
#[verifier::rlimit(100)]
pub fn decode_strategy(txt: &str) -> (r: Option<crate::model::Strategy>)
    ensures
        match parse_strategy_text(txt@) {
            Option::Some(sv) => r matches Some(g) && g@ == sv,
            Option::None => r is None,
        },
{
    let v = str_chars(txt);
    proof {
        assert(skip(v@, 0) =~= txt@);
    }
    let i1 = match expect_lit(&v, 0, "{\"name\":") {
        Some(j) => j,
        None => {
            return None;
        },
    };
    let (name, i2) = match scan_json_string_exec(&v, i1) {
        Some(q) => q,
        None => {
            return None;
        },
    };
    let i3 = match expect_lit(&v, i2, ",\"title\":") {
        Some(j) => j,
        None => {
            return None;
        },
    };
    proof {
        assert(skip(v@, i3 as int) =~= skip(skip(v@, i2 as int), ",\"title\":"@.len() as int));
    }
    let (title, i4) = match scan_json_string_exec(&v, i3) {
        Some(q) => q,
        None => {
            return None;
        },
    };
    let i5 = match expect_lit(&v, i4, ",\"disabled\":") {
        Some(j) => j,
        None => {
            return None;
        },
    };
    proof {
        assert(skip(v@, i5 as int) =~= skip(skip(v@, i4 as int), ",\"disabled\":"@.len() as int));
    }
    let (disabled, i6) = match scan_bool_exec(&v, i5) {
        Some(q) => q,
        None => {
            return None;
        },
    };
    let i7 = match expect_lit(&v, i6, ",\"sortOrder\":") {
        Some(j) => j,
        None => {
            return None;
        },
    };
    proof {
        assert(skip(v@, i7 as int) =~= skip(
            skip(v@, i6 as int),
            ",\"sortOrder\":"@.len() as int,
        ));
    }
    let (sort_order, i8) = match scan_number_exec(&v, i7) {
        Some(q) => q,
        None => {
            return None;
        },
    };
    let i9 = match expect_lit(&v, i8, ",\"constraints\":") {
        Some(j) => j,
        None => {
            return None;
        },
    };
    proof {
        assert(skip(v@, i9 as int) =~= skip(
            skip(v@, i8 as int),
            ",\"constraints\":"@.len() as int,
        ));
    }
    let (constraints, i10) = match scan_constraint_list_exec(&v, i9) {
        Some(q) => q,
        None => {
            return None;
        },
    };
    let i11 = match expect_lit(&v, i10, ",\"parameters\":") {
        Some(j) => j,
        None => {
            return None;
        },
    };
    proof {
        assert(skip(v@, i11 as int) =~= skip(
            skip(v@, i10 as int),
            ",\"parameters\":"@.len() as int,
        ));
    }
    let (parameters, i12) = match scan_params_exec(&v, i11) {
        Some(q) => q,
        None => {
            return None;
        },
    };
    let i13 = match expect_lit(&v, i12, ",\"segments\":") {
        Some(j) => j,
        None => {
            return None;
        },
    };
    proof {
        assert(skip(v@, i13 as int) =~= skip(
            skip(v@, i12 as int),
            ",\"segments\":"@.len() as int,
        ));
    }
    let (segments, i14) = match scan_u32_list_exec(&v, i13) {
        Some(q) => q,
        None => {
            return None;
        },
    };
    let i15 = match expect_lit(&v, i14, "}") {
        Some(j) => j,
        None => {
            proof {
                reveal_strlit("}");
                assert(("}"@).take("}"@.len() as int) =~= "}"@);
                assert(skip(v@, i14 as int) != "}"@);
            }
            return None;
        },
    };
    if i15 != v.len() {
        proof {
            assert(skip(v@, i14 as int).len() > "}"@.len());
            assert(skip(v@, i14 as int) != "}"@);
        }
        return None;
    }
    proof {
        assert(skip(v@, i14 as int) =~= "}"@);
    }
    let g = crate::model::Strategy {
        name,
        title,
        disabled,
        sort_order,
        constraints,
        parameters,
        segments,
    };
    proof {
        let sv = parse_strategy_text(txt@).unwrap();
        assert(g@.constraints =~= sv.constraints);
        assert(g@.parameters =~= sv.parameters);
        assert(g@.segments =~= sv.segments);
        assert(g@ == sv);
    }
    Some(g)
}

} // verus!





