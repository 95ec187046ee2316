//! Endpoint construction for the administrative API: a validated base URL
//! and the three endpoint builders, each appending independently
//! percent-escaped path segments. The escape set is the path-segment set the
//! WHATWG URL standard prescribes for special schemes: controls, space,
//! `"<>`#?{}`, backquote, slash, percent, backslash, delete and every
//! non-ASCII byte.

use vstd::prelude::*;
use vstd::string::StringSliceAdditionalSpecFns;
use vstd::string::StrSliceExecFns;
use crate::config::ConfigError;
use crate::text::{chars_to_string, digit_char, hex_digit, push_str_chars, str_chars};

verus! {

/// Whether a byte stands for itself in a percent-escaped path segment.
pub open spec fn keep_byte(b: u8) -> bool {
    0x20 < b < 0x7f && b != 0x22 && b != 0x3c && b != 0x3e && b != 0x60 && b != 0x23 && b != 0x3f
        && b != 0x7b && b != 0x7d && b != 0x2f && b != 0x25 && b != 0x5c
}

/// How one byte is written in a percent-escaped path segment.
pub open spec fn esc_byte(b: u8) -> Seq<char> {
    if keep_byte(b) {
        seq![b as char]
    } else {
        seq!['%', digit_char(b as int / 16), digit_char(b as int % 16)]
    }
}

/// A whole path segment, escaped byte for byte.
pub open spec fn esc_segment(bs: Seq<u8>) -> Seq<char>
    decreases bs.len(),
{
    if bs.len() == 0 {
        Seq::empty()
    } else {
        esc_byte(bs[0]) + esc_segment(bs.drop_first())
    }
}

/// Segment escaping distributes over concatenation.
pub proof fn lemma_esc_segment_append(a: Seq<u8>, b: Seq<u8>)
    ensures
        esc_segment(a + b) == esc_segment(a) + esc_segment(b),
    decreases a.len(),
{
    if a.len() == 0 {
        assert(a + b =~= b);
        assert(esc_segment(a) + esc_segment(b) =~= esc_segment(b));
    } else {
        assert((a + b).drop_first() =~= a.drop_first() + b);
        lemma_esc_segment_append(a.drop_first(), b);
        assert(esc_segment(a + b) =~= esc_segment(a) + esc_segment(b));
    }
}

/// Appends the escaped form of the UTF-8 bytes of `s`.
fn push_escaped_segment(out: &mut Vec<char>, s: &str)
    ensures
        final(out)@ == old(out)@ + esc_segment(s.spec_bytes()),
{
    let bs = s.as_bytes_vec();
    let n = bs.len();
    let mut i: usize = 0;
    while i < n
        invariant
            i <= n,
            n == bs@.len(),
            bs@ == s.spec_bytes(),
            out@ == old(out)@ + esc_segment(bs@.take(i as int)),
        decreases n - i,
    {
        let b = bs[i];
        if 0x20 < b && b < 0x7f && b != 0x22 && b != 0x3c && b != 0x3e && b != 0x60 && b != 0x23
            && b != 0x3f && b != 0x7b && b != 0x7d && b != 0x2f && b != 0x25 && b != 0x5c {
            out.push(b as char);
        } else {
            out.push('%');
            out.push(hex_digit(b / 16));
            out.push(hex_digit(b % 16));
        }
        proof {
            assert(bs@.take((i + 1) as int) =~= bs@.take(i as int) + seq![bs@[i as int]]);
            lemma_esc_segment_append(bs@.take(i as int), seq![bs@[i as int]]);
            assert(esc_segment(seq![bs@[i as int]]) =~= esc_byte(bs@[i as int])) by {
                reveal_with_fuel(esc_segment, 2);
            }
            assert(out@ =~= old(out)@ + esc_segment(bs@.take((i + 1) as int)));
        }
        i = i + 1;
    }
    proof {
        assert(bs@.take(n as int) =~= bs@);
    }
}

/// What the parse-and-normalize step of the `url` crate returns for a URL
/// text; the result depends on the text alone.
pub uninterp spec fn normalized_url(s: Seq<char>) -> Seq<char>;

/// Whether the `url` crate accepts a text as an absolute URL; parse
/// success depends on the text alone.
pub uninterp spec fn url_parse_ok(s: Seq<char>) -> bool;

#[verifier::external_type_specification]
#[verifier::external_body]
pub struct ExParseError(url::ParseError);

/// Relies on `url::Url::parse` and the `Display` form of `url::Url`:
/// parsing validates the text as an absolute URL and re-serializes it in
/// normalized form, a function of the text alone.
#[verifier::external_body]
fn parse_url_string(s: &str) -> (r: Result<String, url::ParseError>)
    ensures
        r is Ok <==> url_parse_ok(s@),
        r matches Ok(t) ==> t@ == normalized_url(s@),
{
    match url::Url::parse(s) {
        Ok(u) => Ok(u.to_string()),
        Err(e) => Err(e),
    }
}

/// The normalized base with one trailing slash removed, so that endpoint
/// paths can be appended with explicit separators.
pub open spec fn trim_slash(s: Seq<char>) -> Seq<char> {
    if s.len() > 0 && s[s.len() - 1] == '/' {
        s.drop_last()
    } else {
        s
    }
}

/// A base service URL that parsed successfully, held in normalized text
/// form without a trailing slash.
pub struct BaseUrl {
    url: String,
}

impl View for BaseUrl {
    type V = Seq<char>;

    closed spec fn view(&self) -> Seq<char> {
        self.url@
    }
}

impl BaseUrl {
    /// Validates a base URL before any network activity. Succeeds exactly
    /// when the text parses as a URL; otherwise the configuration error.
    pub fn new(s: &str) -> (r: Result<BaseUrl, ConfigError>)
        ensures
            r is Ok <==> url_parse_ok(s@),
            r matches Ok(b) ==> b@ == trim_slash(normalized_url(s@)),
            r matches Err(e) ==> e == ConfigError::InvalidBaseUrl,
    {
        match parse_url_string(s) {
            Ok(t) => {
                let mut v = str_chars(t.as_str());
                if v.len() > 0 && v[v.len() - 1] == '/' {
                    v.pop();
                    proof {
                        assert(v@ =~= trim_slash(t@));
                    }
                }
                Ok(BaseUrl { url: chars_to_string(&v) })
            },
            Err(_) => Err(ConfigError::InvalidBaseUrl),
        }
    }

    /// The URL text.
    pub fn as_str(&self) -> (r: &str)
        ensures
            r@ == self@,
    {
        self.url.as_str()
    }
}

/// The feature-creation endpoint under a base URL and project.
pub open spec fn features_url_spec(base: Seq<char>, project: Seq<u8>) -> Seq<char> {
    base + "/api/admin/projects/"@ + esc_segment(project) + "/features"@
}

/// The strategy-creation endpoint for one feature and environment, under
/// the features URL.
pub open spec fn strategies_url_spec(fu: Seq<char>, feature: Seq<u8>, env: Seq<u8>) -> Seq<char> {
    fu + "/"@ + esc_segment(feature) + "/environments/"@ + esc_segment(env) + "/strategies"@
}

/// The environment-enable endpoint for one feature and environment, under
/// the features URL.
pub open spec fn environment_enable_url_spec(
    fu: Seq<char>,
    feature: Seq<u8>,
    env: Seq<u8>,
) -> Seq<char> {
    fu + "/"@ + esc_segment(feature) + "/environments/"@ + esc_segment(env) + "/on"@
}

/// Builds the feature-creation URL; the base URL is not changed.
pub fn features_url(base_url: &BaseUrl, project_name: &str) -> (r: String)
    ensures
        r@ == features_url_spec(base_url@, project_name.spec_bytes()),
{
    let mut out: Vec<char> = Vec::new();
    push_str_chars(&mut out, base_url.as_str());
    push_str_chars(&mut out, "/api/admin/projects/");
    push_escaped_segment(&mut out, project_name);
    push_str_chars(&mut out, "/features");
    proof {
        assert(out@ =~= features_url_spec(base_url@, project_name.spec_bytes()));
    }
    chars_to_string(&out)
}

/// Builds the strategy-creation URL from the features URL; neither input is
/// changed.
pub fn strategies_url(features_url: &str, feature_name: &str, env: &str) -> (r: String)
    ensures
        r@ == strategies_url_spec(features_url@, feature_name.spec_bytes(), env.spec_bytes()),
{
    let mut out: Vec<char> = Vec::new();
    push_str_chars(&mut out, features_url);
    push_str_chars(&mut out, "/");
    push_escaped_segment(&mut out, feature_name);
    push_str_chars(&mut out, "/environments/");
    push_escaped_segment(&mut out, env);
    push_str_chars(&mut out, "/strategies");
    proof {
        assert(out@ =~= strategies_url_spec(
            features_url@,
            feature_name.spec_bytes(),
            env.spec_bytes(),
        ));
    }
    chars_to_string(&out)
}

/// Builds the environment-enable URL from the features URL; neither input
/// is changed.
pub fn environment_enable_url(features_url: &str, feature_name: &str, env: &str) -> (r: String)
    ensures
        r@ == environment_enable_url_spec(
            features_url@,
            feature_name.spec_bytes(),
            env.spec_bytes(),
        ),
{
    let mut out: Vec<char> = Vec::new();
    push_str_chars(&mut out, features_url);
    push_str_chars(&mut out, "/");
    push_escaped_segment(&mut out, feature_name);
    push_str_chars(&mut out, "/environments/");
    push_escaped_segment(&mut out, env);
    push_str_chars(&mut out, "/on");
    proof {
        assert(out@ =~= environment_enable_url_spec(
            features_url@,
            feature_name.spec_bytes(),
            env.spec_bytes(),
        ));
    }
    chars_to_string(&out)
}

} // verus!
