//! The raw-value provider for the version variable: extracting a
//! dependency's version string from a manifest, stripping range markers,
//! parsing it as a semantic version, and formatting the result per the
//! configured version-format pattern.

use vstd::prelude::*;

use crate::resolve::GVal;
use crate::resolve::ValueOutcome;

verus! {

/// The canonical text a string holds as a semantic version, if it is
/// one: `major.minor.patch` with its pre-release and build identifiers.
/// The result depends on the characters alone.
pub uninterp spec fn semver_text(s: Seq<char>) -> Option<Seq<char>>;

/// Relies on semver::Version::parse and the parsed version's display
/// form: whether a string is a valid semantic version, and its canonical
/// text, are a function of the string alone.
#[verifier::external_body]
fn parse_semver(s: &str) -> (r: Option<String>)
    ensures
        (match r {
            Some(t) => semver_text(s@) == Some(t@),
            None => semver_text(s@) is None,
        }),
{
    match semver::Version::parse(s) {
        Ok(v) => Some(v.to_string()),
        Err(_) => None,
    }
}

/// Relies on String::from_iter: the string holding exactly these
/// characters.
#[verifier::external_body]
fn chars_to_string(v: &Vec<char>) -> (r: String)
    ensures
        r@ == v@,
{
    v.iter().collect()
}

/// The characters of `s`, one by one.
pub fn str_to_chars(s: &str) -> (r: Vec<char>)
    ensures
        r@ == s@,
{
    let n = s.unicode_len();
    let mut v: Vec<char> = Vec::new();
    let mut i: usize = 0;
    while i < n
        invariant
            i <= n,
            n == s@.len(),
            v@ == s@.subrange(0, i as int),
        decreases n - i,
    {
        v.push(s.get_char(i));
        proof {
            assert(v@ =~= s@.subrange(0, i + 1));
        }
        i += 1;
    }
    proof {
        assert(s@.subrange(0, n as int) =~= s@);
    }
    v
}

/// The `${raw}` marker a version-format pattern may hold.
pub open spec fn raw_marker() -> Seq<char> {
    seq!['$', '{', 'r', 'a', 'w', '}']
}

/// The pattern with every `${raw}` replaced by `raw`.
pub open spec fn subst_raw(p: Seq<char>, raw: Seq<char>) -> Seq<char>
    decreases p.len(),
{
    if p.len() >= 6 && p.subrange(0, 6) == raw_marker() {
        raw + subst_raw(p.skip(6), raw)
    } else if p.len() == 0 {
        Seq::empty()
    } else {
        seq![p[0]] + subst_raw(p.skip(1), raw)
    }
}

/// Appends every character of `extra` to `v`.
fn push_chars(v: &mut Vec<char>, extra: &Vec<char>)
    ensures
        final(v)@ == old(v)@ + extra@,
{
    let ghost orig = old(v)@;
    let mut i: usize = 0;
    while i < extra.len()
        invariant
            i <= extra@.len(),
            v@ == orig + extra@.subrange(0, i as int),
        decreases extra@.len() - i,
    {
        v.push(extra[i]);
        proof {
            assert(v@ =~= orig + extra@.subrange(0, i + 1));
        }
        i += 1;
    }
    proof {
        assert(extra@.subrange(0, extra@.len() as int) =~= extra@);
    }
}

/// Substitutes `raw` for each `${raw}` in the pattern, as [`subst_raw`]
/// describes.
fn subst_chars(p: &Vec<char>, raw: &Vec<char>) -> (r: Vec<char>)
    ensures
        r@ == subst_raw(p@, raw@),
{
    let mut out: Vec<char> = Vec::new();
    let mut i: usize = 0;
    proof {
        assert(p@.skip(0) =~= p@);
        assert(out@ + subst_raw(p@.skip(0), raw@) =~= subst_raw(p@, raw@));
    }
    while i < p.len()
        invariant
            i <= p@.len(),
            subst_raw(p@, raw@) == out@ + subst_raw(p@.skip(i as int), raw@),
        decreases p@.len() - i,
    {
        let is_marker = p.len() - i >= 6 && p[i] == '$' && p[i + 1] == '{' && p[i + 2] == 'r' && p[i
            + 3] == 'a' && p[i + 4] == 'w' && p[i + 5] == '}';
        let ghost rest = p@.skip(i as int);
        if is_marker {
            proof {
                assert(rest.subrange(0, 6) =~= raw_marker());
                assert(rest.skip(6) =~= p@.skip(i + 6));
                assert(out@ + (raw@ + subst_raw(p@.skip(i + 6), raw@)) =~= (out@ + raw@)
                    + subst_raw(p@.skip(i + 6), raw@));
            }
            push_chars(&mut out, raw);
            i += 6;
        } else {
            proof {
                if rest.len() >= 6 && rest.subrange(0, 6) == raw_marker() {
                    assert(rest.subrange(0, 6)[0] == p@[i as int]);
                    assert(rest.subrange(0, 6)[1] == p@[i + 1]);
                    assert(rest.subrange(0, 6)[2] == p@[i + 2]);
                    assert(rest.subrange(0, 6)[3] == p@[i + 3]);
                    assert(rest.subrange(0, 6)[4] == p@[i + 4]);
                    assert(rest.subrange(0, 6)[5] == p@[i + 5]);
                    assert(false);
                }
                assert(rest.skip(1) =~= p@.skip(i + 1));
                assert(seq![rest[0]] =~= seq![p@[i as int]]);
                assert(out@ + (seq![p@[i as int]] + subst_raw(p@.skip(i + 1), raw@)) =~= (out@
                    + seq![p@[i as int]]) + subst_raw(p@.skip(i + 1), raw@));
            }
            let ghost prev = out@;
            out.push(p[i]);
            proof {
                assert(out@ =~= prev + seq![p@[i as int]]);
            }
            i += 1;
        }
    }
    proof {
        assert(p@.skip(p@.len() as int).len() == 0);
    }
    out
}

/// Formats a version per the pattern: every `${raw}` in the pattern
/// becomes the version's raw text.
pub fn format_version(pattern: &str, raw: &str) -> (r: String)
    ensures
        r@ == subst_raw(pattern@, raw@),
{
    let p = str_to_chars(pattern);
    let r = str_to_chars(raw);
    let out = subst_chars(&p, &r);
    chars_to_string(&out)
}

/// The version text with a leading `^` or `~` range marker stripped.
pub open spec fn stripped_marker(s: Seq<char>) -> Seq<char> {
    if s.len() > 0 && (s[0] == '^' || s[0] == '~') {
        s.skip(1)
    } else {
        s
    }
}

/// Strips a leading `^` or `~` range marker, if there is one.
pub fn strip_marker(s: &str) -> (r: String)
    ensures
        r@ == stripped_marker(s@),
{
    let n = s.unicode_len();
    if n > 0 {
        let c = s.get_char(0);
        if c == '^' || c == '~' {
            let r = s.substring_char(1, n).to_owned();
            proof {
                assert(s@.subrange(1, n as int) =~= s@.skip(1));
            }
            return r;
        }
    }
    s.to_owned()
}

/// The view of an optional owned string.
pub open spec fn opt_text_view(o: Option<String>) -> Option<Seq<char>> {
    match o {
        Some(s) => Some(s@),
        None => None,
    }
}

/// What the version variable resolves to, given the dependency's raw
/// version text: absent when there is none; a hard failure when the text
/// (after stripping a range marker) is not a semantic version; otherwise
/// the version formatted per the pattern.
pub open spec fn spec_version_value(dep: Option<Seq<char>>, pattern: Seq<char>) -> GVal {
    match dep {
        None => GVal::Absent,
        Some(s) => match semver_text(stripped_marker(s)) {
            None => GVal::Failure("unparsable semantic version"@),
            Some(t) => GVal::Present(subst_raw(pattern, t)),
        },
    }
}

/// Resolves the version variable from the dependency's raw version text,
/// as [`spec_version_value`] describes.
pub fn version_value(dep: Option<String>, pattern: &str) -> (r: ValueOutcome)
    ensures
        r.gview() == spec_version_value(opt_text_view(dep), pattern@),
{
    match dep {
        None => ValueOutcome::Absent,
        Some(s) => {
            let stripped = strip_marker(s.as_str());
            match parse_semver(stripped.as_str()) {
                None => ValueOutcome::Failure("unparsable semantic version".to_owned()),
                Some(text) => ValueOutcome::Present(format_version(pattern, text.as_str())),
            }
        },
    }
}

/// Carries serde_json's document type through signatures; the library
/// never looks inside a value of it.
#[verifier::external_type_specification]
#[verifier::external_body]
pub struct ExJsonValue(serde_json::Value);

/// Relies on serde_json::from_str: parses a JSON document, or nothing
/// when the text is not valid JSON. The manifest's shape is outside the
/// verified model, so nothing is stated of the result.
#[verifier::external_body]
fn json_parse(s: &str) -> Option<serde_json::Value> {
    serde_json::from_str(s).ok()
}

/// Relies on serde_json::Value::get: the member of a JSON object under
/// this key, or nothing when the value is no object or lacks the key.
#[verifier::external_body]
fn json_get<'a>(v: &'a serde_json::Value, key: &str) -> Option<&'a serde_json::Value> {
    v.get(key)
}

/// Relies on serde_json::Value::as_str: the text of a JSON string value,
/// or nothing when the value is no string.
#[verifier::external_body]
fn json_as_string(v: &serde_json::Value) -> Option<String> {
    match v.as_str() {
        Some(s) => Some(s.to_string()),
        None => None,
    }
}

/// The string under `manifest[section][package]`, if the manifest parses
/// as JSON and holds one. The manifest's shape is a collaborator concern
/// outside the verified model, so no more is stated.
pub fn dependency_version(manifest: &str, section: &str, package: &str) -> Option<String> {
    match json_parse(manifest) {
        None => None,
        Some(doc) => match json_get(&doc, section) {
            None => None,
            Some(sec) => match json_get(sec, package) {
                None => None,
                Some(v) => json_as_string(v),
            },
        },
    }
}

/// The version string recorded for `@angular/core` in a package manifest:
/// the `dependencies` entry first, the `devDependencies` entry as the
/// fallback.
pub fn angular_core_version(manifest: &str) -> Option<String> {
    match dependency_version(manifest, "dependencies", "@angular/core") {
        Some(v) => Some(v),
        None => dependency_version(manifest, "devDependencies", "@angular/core"),
    }
}

} // verus!
