//! Rendering of parsed default values into type-appropriate literals, and
//! escaping of documentation text for generated comments.

use vstd::prelude::*;
use vstd::string::*;
use crate::casing::{pascal_of, lower_of, to_pascal_case, to_lowercase};
use crate::text::{replace_spec, replace_char_with, str_eq};

verus! {

/// `s` wrapped in double quotes.
pub open spec fn quoted(s: Seq<char>) -> Seq<char> {
    "\""@ + s + "\""@
}

/// `s` without its leading single quotes.
pub open spec fn strip_quote_start(s: Seq<char>) -> Seq<char>
    decreases s.len(),
{
    if s.len() > 0 && s[0] == '\'' {
        strip_quote_start(s.drop_first())
    } else {
        s
    }
}

/// `s` without its trailing single quotes.
pub open spec fn strip_quote_end(s: Seq<char>) -> Seq<char>
    decreases s.len(),
{
    if s.len() > 0 && s.last() == '\'' {
        strip_quote_end(s.drop_last())
    } else {
        s
    }
}

/// `s` without surrounding single quotes, however many there are on
/// either end.
pub open spec fn strip_quotes_spec(s: Seq<char>) -> Seq<char> {
    strip_quote_end(strip_quote_start(s))
}

/// Copy of `s` with surrounding single quotes removed, matching
/// `strip_quotes_spec`.
pub fn strip_quotes(s: &str) -> (r: String)
    ensures
        r@ == strip_quotes_spec(s@),
{
    let n = s.unicode_len();
    proof {
        assert(s@.subrange(0, n as int) =~= s@);
    }
    let mut a: usize = 0;
    while a < n && s.get_char(a) == '\''
        invariant
            0 <= a <= n,
            n == s@.len(),
            strip_quote_start(s@) == strip_quote_start(s@.subrange(a as int, n as int)),
        decreases n - a,
    {
        proof {
            let sub = s@.subrange(a as int, n as int);
            assert(sub.drop_first() =~= s@.subrange(a as int + 1, n as int));
        }
        a = a + 1;
    }
    proof {
        if a == n {
            assert(s@.subrange(a as int, n as int) =~= Seq::<char>::empty());
        }
        assert(strip_quote_start(s@) == s@.subrange(a as int, n as int));
    }
    let mut b: usize = n;
    while b > a && s.get_char(b - 1) == '\''
        invariant
            a <= b <= n,
            n == s@.len(),
            strip_quote_start(s@) == s@.subrange(a as int, n as int),
            strip_quote_end(s@.subrange(a as int, n as int)) == strip_quote_end(
                s@.subrange(a as int, b as int),
            ),
        decreases b,
    {
        proof {
            let sub = s@.subrange(a as int, b as int);
            assert(sub.last() == s@[b - 1]);
            assert(sub.drop_last() =~= s@.subrange(a as int, b as int - 1));
        }
        b = b - 1;
    }
    proof {
        if b == a {
            assert(s@.subrange(a as int, b as int) =~= Seq::<char>::empty());
        } else {
            assert(s@.subrange(a as int, b as int).last() == s@[b - 1]);
        }
        assert(strip_quotes_spec(s@) == s@.subrange(a as int, b as int));
    }
    let piece = s.substring_char(a, b);
    String::from_str(piece)
}

/// True for the small fixed table of known pipeline placeholder values
/// that must always render as verbatim quoted string literals, whatever
/// type was inferred.
pub open spec fn is_special_default(value: Seq<char>) -> bool {
    ||| value == "$(BuildConfiguration)"@
    ||| value == "$(Build.ArtifactStagingDirectory)/*.nupkg"@
    ||| value == "**/*.csproj"@
    ||| value == "$(Build.ArtifactStagingDirectory)"@
}

/// What `format_default_value` returns: the special-cased table values
/// render as verbatim quoted literals; strings render quoted with inner
/// quotes escaped; booleans render lowercased; enum members render as
/// `Type.Member` in capitalized form; anything else is passed through.
pub open spec fn format_default_model(value: Seq<char>, base_type: Seq<char>, is_enum: bool)
    -> Seq<char> {
    if is_special_default(value) {
        quoted(value)
    } else if base_type == "string"@ {
        quoted(replace_spec(value, '"', "\\\""@))
    } else if base_type == "bool"@ {
        lower_of(value)
    } else if is_enum {
        base_type + "."@ + pascal_of(strip_quotes_spec(value))
    } else {
        value
    }
}

/// A value of the special-cased literal table always formats to its
/// verbatim quoted form, whatever base type was inferred for it and
/// whether or not it was taken for an enum.
pub proof fn lemma_special_default_always_quoted(
    value: Seq<char>,
    base_type: Seq<char>,
    is_enum: bool,
)
    requires
        is_special_default(value),
    ensures
        format_default_model(value, base_type, is_enum) == quoted(value),
{
}

/// Renders a raw default value as a literal appropriate to the resolved
/// base type, matching `format_default_model`.
pub fn format_default_value(value: &str, base_type: &str, is_enum: bool) -> (r: String)
    ensures
        r@ == format_default_model(value@, base_type@, is_enum),
{
    if str_eq(value, "$(BuildConfiguration)") || str_eq(
        value,
        "$(Build.ArtifactStagingDirectory)/*.nupkg",
    ) || str_eq(value, "**/*.csproj") || str_eq(value, "$(Build.ArtifactStagingDirectory)") {
        let mut out = String::from_str("\"");
        out.append(value);
        out.append("\"");
        return out;
    }
    if str_eq(base_type, "string") {
        let escaped = replace_char_with(value, '"', "\\\"");
        let mut out = String::from_str("\"");
        out.append(escaped.as_str());
        out.append("\"");
        return out;
    }
    if str_eq(base_type, "bool") {
        return to_lowercase(value);
    }
    if is_enum {
        let member = to_pascal_case(strip_quotes(value).as_str());
        let mut out = String::from_str(base_type);
        out.append(".");
        out.append(member.as_str());
        return out;
    }
    String::from_str(value)
}

/// What `documentation_escaped` returns: ampersands, then angle brackets,
/// replaced by their XML entities.
pub open spec fn escape_model(doc: Seq<char>) -> Seq<char> {
    replace_spec(
        replace_spec(replace_spec(doc, '&', "&amp;"@), '<', "&lt;"@),
        '>',
        "&gt;"@,
    )
}

/// Escapes the XML-significant characters of a documentation string for
/// use inside a generated comment, matching `escape_model`.
pub fn documentation_escaped(doc: &str) -> (r: String)
    ensures
        r@ == escape_model(doc@),
{
    let amp = replace_char_with(doc, '&', "&amp;");
    let lt = replace_char_with(amp.as_str(), '<', "&lt;");
    replace_char_with(lt.as_str(), '>', "&gt;")
}

} // verus!
