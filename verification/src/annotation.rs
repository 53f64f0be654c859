//! The documentation annotation parser: the three-segment mini-grammar of
//! an input's documentation string, and the typed parameter descriptor
//! derived from it.

use vstd::prelude::*;
use vstd::string::*;
use crate::casing::{pascal_of, to_pascal_case};
use crate::formatting::{format_default_model, format_default_value};
use crate::numeric::{is_i32_string, is_int_literal};
use crate::text::{
    find_from, find_char, lemma_find_from_properties, skip_spaces, skip_spaces_exec,
    trim_spec, trim_start_spec, trim_str, starts_with_spec, starts_with_str, split_spec,
    split_on, seq_views, replace_spec, replace_char_with, str_eq, contains_char,
};

verus! {

/// The raw fields of one parsed documentation string: the first two
/// grammar segments and the disambiguated final segment.
pub struct DocParts {
    /// First segment, trimmed: a type keyword or an options enumeration.
    pub type_options: Seq<char>,
    /// Second segment, trimmed: the declared required status.
    pub required_status: Seq<char>,
    /// Free description text of the final segment, trimmed.
    pub description: Seq<char>,
    /// Declared default value of the final segment, cleaned, if any.
    pub default_value: Option<Seq<char>>,
}

/// A declared default value with its optional closing period removed.
pub open spec fn drop_final_dot(s: Seq<char>) -> Seq<char> {
    if s.len() > 0 && s.last() == '.' {
        s.drop_last()
    } else {
        s
    }
}

/// Cleaning of a captured value: one closing period stripped, then
/// surrounding whitespace trimmed.
pub open spec fn clean_value_spec(s: Seq<char>) -> Seq<char> {
    trim_spec(drop_final_dot(s))
}

/// Executable value cleaning matching `clean_value_spec`.
pub fn clean_value(s: &str) -> (r: String)
    ensures
        r@ == clean_value_spec(s@),
{
    let n = s.unicode_len();
    if n > 0 && s.get_char(n - 1) == '.' {
        proof {
            assert(s@.subrange(0, n as int - 1) =~= s@.drop_last());
        }
        let head = s.substring_char(0, n - 1);
        trim_str(head)
    } else {
        trim_str(s)
    }
}

/// If the final segment holds a period followed by the default marker at
/// position `k`, the index just past the marker; otherwise nothing.
pub open spec fn dot_default_at(s: Seq<char>, k: int) -> Option<int> {
    if 0 <= k < s.len() && s[k] == '.' {
        let w = skip_spaces(s, k + 1);
        let dp = "Default:"@;
        if starts_with_spec(s.subrange(w, s.len() as int), dp) && s.len() > w + dp.len() {
            Some(w + dp.len() as int)
        } else {
            None
        }
    } else {
        None
    }
}

/// First position at or after `i` where a period introduces a trailing
/// default declaration, together with the index just past the marker.
pub open spec fn find_dot_default(s: Seq<char>, i: int) -> Option<(int, int)>
    decreases s.len() - i,
{
    if i < 0 || i >= s.len() {
        None
    } else {
        match dot_default_at(s, i) {
            Some(m) => Some((i, m)),
            None => find_dot_default(s, i + 1),
        }
    }
}

/// Skipping positions where no default separator matches leaves the
/// search result unchanged.
pub proof fn lemma_find_dot_default_skip(s: Seq<char>, i: int, j: int)
    requires
        0 <= i <= j <= s.len(),
        forall|k: int| i <= k < j ==> dot_default_at(s, k) is None,
    ensures
        find_dot_default(s, i) == find_dot_default(s, j),
    decreases j - i,
{
    if i < j {
        lemma_find_dot_default_skip(s, i + 1, j);
    }
}

/// The disambiguated final grammar segment: description text and default
/// value. The three shapes are: the whole segment is a default
/// declaration; free text followed by a default declaration; free text
/// alone.
pub open spec fn final_segment_spec(rest: Seq<char>) -> (Seq<char>, Option<Seq<char>>) {
    let t = trim_start_spec(rest);
    let dp = "Default:"@;
    if starts_with_spec(t, dp) && t.len() > dp.len() {
        (Seq::<char>::empty(), Some(clean_value_spec(t.subrange(dp.len() as int, t.len() as int))))
    } else {
        match find_dot_default(rest, 0) {
            Some(km) => (
                trim_spec(rest.subrange(0, km.0)),
                Some(clean_value_spec(rest.subrange(km.1, rest.len() as int))),
            ),
            None => (clean_value_spec(rest), None),
        }
    }
}

/// True when the documentation string has the three-segment shape: a
/// nonempty first segment closed by a period, then a nonempty second
/// segment closed by a period.
pub open spec fn has_three_segments(doc: Seq<char>) -> bool {
    match find_from(doc, '.', 0) {
        None => false,
        Some(i) => i >= 1 && match find_from(doc, '.', i + 1) {
            None => false,
            Some(j) => j >= i + 2,
        },
    }
}

/// The parsed raw fields of a documentation string, when it has the
/// three-segment shape.
pub open spec fn doc_parts_spec(doc: Seq<char>) -> Option<DocParts> {
    match find_from(doc, '.', 0) {
        None => None,
        Some(i) => if i < 1 {
            None
        } else {
            match find_from(doc, '.', i + 1) {
                None => None,
                Some(j) => if j < i + 2 {
                    None
                } else {
                    let rest = doc.subrange(j + 1, doc.len() as int);
                    let fs = final_segment_spec(rest);
                    Some(
                        DocParts {
                            type_options: trim_spec(doc.subrange(0, i)),
                            required_status: trim_spec(doc.subrange(i + 1, j)),
                            description: fs.0,
                            default_value: fs.1,
                        },
                    )
                },
            }
        },
    }
}

/// The parser is total on well-formed input: every documentation string
/// of the three-segment shape yields raw fields, and only those do.
pub proof fn lemma_three_segments_parse(doc: Seq<char>)
    ensures
        doc_parts_spec(doc) is Some <==> has_three_segments(doc),
{
}

/// True when the first segment declares an enumeration of quoted option
/// literals.
pub open spec fn is_enum_decl(t: Seq<char>) -> bool {
    t.contains('|') && t.len() > 0 && t[0] == '\''
}

/// The option literals of an enumeration declaration: the pieces between
/// pipes, trimmed and with quote characters removed.
pub open spec fn enum_options_model(t: Seq<char>) -> Seq<Seq<char>> {
    split_spec(t, '|').map_values(|p: Seq<char>| replace_spec(trim_spec(p), '\'', Seq::<char>::empty()))
}

/// The resolved base type of a parameter: an enumeration named after the
/// parameter, a boolean, a string, a string upgraded to an integer when
/// its declared default is an integer literal, or the string fallback.
pub open spec fn base_type_model(name: Seq<char>, parts: DocParts) -> Seq<char> {
    if is_enum_decl(parts.type_options) {
        pascal_of(name)
    } else if parts.type_options == "boolean"@ {
        "bool"@
    } else if parts.type_options == "string"@ {
        match parts.default_value {
            Some(d) => if is_i32_string(d) {
                "int"@
            } else {
                "string"@
            },
            None => "string"@,
        }
    } else {
        "string"@
    }
}

/// A parameter is nullable when it is optional-like (any status other
/// than exactly `Required`), conditionally required, or string-typed,
/// and no default value was declared.
pub open spec fn is_nullable_model(parts: DocParts, base: Seq<char>) -> bool {
    (parts.required_status != "Required"@ || starts_with_spec(
        parts.required_status,
        "Required when"@,
    ) || base == "string"@) && parts.default_value is None
}

/// The final description: when the final segment was a bare default
/// declaration, a placeholder naming the parameter is synthesized.
pub open spec fn description_model(name: Seq<char>, parts: DocParts) -> Seq<char> {
    if parts.description.len() == 0 && parts.default_value is Some {
        "Details for "@ + name
    } else {
        parts.description
    }
}

/// The fully derived model of one parameter.
pub struct ParamModel {
    /// The raw declared identifier.
    pub yaml_name: Seq<char>,
    /// Capitalized-identifier form of the declared name.
    pub csharp_name: Seq<char>,
    /// Final description text.
    pub description: Seq<char>,
    /// Base type with a nullability marker when nullable.
    pub csharp_type: Seq<char>,
    /// Option literals, present exactly for enumeration parameters.
    pub enum_options: Option<Seq<Seq<char>>>,
    /// Whether the generated property is nullable.
    pub is_nullable: bool,
    /// Formatted default literal, present only for non-nullable
    /// parameters with a declared default.
    pub getter_default_arg: Option<Seq<char>>,
    /// Base type without the nullability marker.
    pub base_csharp_type: Seq<char>,
}

/// The parameter derived from a declared name and parsed raw fields.
pub open spec fn derived_param(name: Seq<char>, parts: DocParts) -> ParamModel {
    let base = base_type_model(name, parts);
    let is_enum = is_enum_decl(parts.type_options);
    let nullable = is_nullable_model(parts, base);
    ParamModel {
        yaml_name: name,
        csharp_name: pascal_of(name),
        description: description_model(name, parts),
        csharp_type: if nullable {
            base + "?"@
        } else {
            base
        },
        enum_options: if is_enum {
            Some(enum_options_model(parts.type_options))
        } else {
            None
        },
        is_nullable: nullable,
        getter_default_arg: if !nullable && parts.default_value is Some {
            Some(format_default_model(parts.default_value->0, base, is_enum))
        } else {
            None
        },
        base_csharp_type: base,
    }
}

/// The full documentation parse: raw fields, then the derived parameter.
pub open spec fn param_model(name: Seq<char>, doc: Seq<char>) -> Option<ParamModel> {
    match doc_parts_spec(doc) {
        None => None,
        Some(parts) => Some(derived_param(name, parts)),
    }
}

/// The parsed and inferred model of one task input, ready for code
/// generation.
#[derive(Debug, Clone, PartialEq)]
pub struct ProcessedParameter {
    /// The raw declared identifier.
    pub yaml_name: String,
    /// Capitalized-identifier form of the declared name.
    pub csharp_name: String,
    /// Final description text.
    pub description: String,
    /// Base type with a nullability marker when nullable.
    pub csharp_type: String,
    /// Option literals, present exactly for enumeration parameters.
    pub enum_options: Option<Vec<String>>,
    /// Whether the generated property is nullable.
    pub is_nullable: bool,
    /// Formatted default literal, present only for non-nullable
    /// parameters with a declared default.
    pub getter_default_arg: Option<String>,
    /// Base type without the nullability marker.
    pub base_csharp_type: String,
}

impl View for ProcessedParameter {
    type V = ParamModel;

    open spec fn view(&self) -> ParamModel {
        ParamModel {
            yaml_name: self.yaml_name@,
            csharp_name: self.csharp_name@,
            description: self.description@,
            csharp_type: self.csharp_type@,
            enum_options: match self.enum_options {
                Some(v) => Some(seq_views(v@)),
                None => None,
            },
            is_nullable: self.is_nullable,
            getter_default_arg: match self.getter_default_arg {
                Some(ref s) => Some(s@),
                None => None,
            },
            base_csharp_type: self.base_csharp_type@,
        }
    }
}

/// The view of an optional parameter.
pub open spec fn param_view(r: Option<ProcessedParameter>) -> Option<ParamModel> {
    match r {
        Some(p) => Some(p@),
        None => None,
    }
}

/// Executable parse of the raw grammar fields, matching `doc_parts_spec`.
/// Returns the trimmed first two segments, the description, and the
/// cleaned default value.
fn parse_doc_fields(documentation: &str) -> (r: Option<(String, String, String, Option<String>)>)
    ensures
        match r {
            Some(f) => doc_parts_spec(documentation@) == Some(
                DocParts {
                    type_options: f.0@,
                    required_status: f.1@,
                    description: f.2@,
                    default_value: match f.3 {
                        Some(ref d) => Some(d@),
                        None => None,
                    },
                },
            ),
            None => doc_parts_spec(documentation@) is None,
        },
{
    let n = documentation.unicode_len();
    let first = find_char(documentation, '.', 0);
    let i = match first {
        None => {
            return None;
        },
        Some(i) => i,
    };
    if i < 1 {
        return None;
    }
    proof {
        lemma_find_from_properties(documentation@, '.', 0);
    }
    let second = find_char(documentation, '.', i + 1);
    let j = match second {
        None => {
            return None;
        },
        Some(j) => j,
    };
    if j < i + 2 {
        return None;
    }
    proof {
        lemma_find_from_properties(documentation@, '.', i as int + 1);
    }
    let seg1 = trim_str(documentation.substring_char(0, i));
    let seg2 = trim_str(documentation.substring_char(i + 1, j));
    let rest = documentation.substring_char(j + 1, n);
    let (desc, dflt) = parse_final_segment(rest);
    proof {
        assert(rest@ == documentation@.subrange(j as int + 1, n as int));
    }
    Some((seg1, seg2, desc, dflt))
}

/// Executable parse of the final grammar segment, matching
/// `final_segment_spec`.
fn parse_final_segment(rest: &str) -> (r: (String, Option<String>))
    ensures
        ({
            let fs = final_segment_spec(rest@);
            r.0@ == fs.0 && (match r.1 {
                Some(ref d) => Some(d@),
                None => None,
            }) == fs.1
        }),
{
    let n = rest.unicode_len();
    let w = skip_spaces_exec(rest, 0);
    let t = rest.substring_char(w, n);
    proof {
        lemma_trim_start_is_suffix(rest@);
        assert(t@ == trim_start_spec(rest@));
    }
    let dlen = "Default:".unicode_len();
    let tn = t.unicode_len();
    if starts_with_str(t, "Default:") && tn > dlen {
        let value = clean_value(t.substring_char(dlen, tn));
        return (String::new(), Some(value));
    }
    let found = find_first_dot_default(rest);
    match found {
        Some((k, m)) => {
            let desc = trim_str(rest.substring_char(0, k));
            let value = clean_value(rest.substring_char(m, n));
            (desc, Some(value))
        },
        None => {
            let desc = clean_value(rest);
            (desc, None)
        },
    }
}

/// Leading whitespace removal yields the suffix starting at the first
/// non-whitespace position.
proof fn lemma_trim_start_is_suffix(s: Seq<char>)
    ensures
        trim_start_spec(s) == s.subrange(skip_spaces(s, 0), s.len() as int),
    decreases s.len(),
{
    crate::text::lemma_skip_spaces_properties(s, 0);
    if s.len() > 0 && crate::text::is_space_char(s[0]) {
        lemma_trim_start_is_suffix(s.drop_first());
        let d = s.drop_first();
        assert(skip_spaces(s, 0) == skip_spaces(s, 1));
        lemma_skip_spaces_shift(s);
        assert(d.subrange(skip_spaces(d, 0), d.len() as int) =~= s.subrange(
            skip_spaces(s, 1),
            s.len() as int,
        ));
    } else {
        assert(s.subrange(skip_spaces(s, 0), s.len() as int) =~= s);
    }
}

/// Skipping whitespace in a dropped-head sequence mirrors skipping it
/// one position later in the original.
proof fn lemma_skip_spaces_shift(s: Seq<char>)
    requires
        s.len() > 0,
    ensures
        skip_spaces(s.drop_first(), 0) == skip_spaces(s, 1) - 1,
{
    lemma_skip_spaces_shift_from(s, 0);
}

proof fn lemma_skip_spaces_shift_from(s: Seq<char>, i: int)
    requires
        s.len() > 0,
        0 <= i <= s.len() - 1,
    ensures
        skip_spaces(s.drop_first(), i) == skip_spaces(s, i + 1) - 1,
    decreases s.len() - i,
{
    let d = s.drop_first();
    if i < d.len() {
        assert(d[i] == s[i + 1]);
        if crate::text::is_space_char(d[i]) {
            lemma_skip_spaces_shift_from(s, i + 1);
        }
    }
}

/// Executable search for the first trailing default declaration,
/// matching `find_dot_default`.
fn find_first_dot_default(rest: &str) -> (r: Option<(usize, usize)>)
    ensures
        match r {
            Some(km) => find_dot_default(rest@, 0) == Some((km.0 as int, km.1 as int)) && km.0
                < km.1 < rest@.len(),
            None => find_dot_default(rest@, 0) is None,
        },
{
    let n = rest.unicode_len();
    let dlen = "Default:".unicode_len();
    let mut k: usize = 0;
    loop
        invariant
            0 <= k <= n,
            n == rest@.len(),
            dlen == "Default:"@.len(),
            find_dot_default(rest@, 0) == find_dot_default(rest@, k as int),
        decreases n - k,
    {
        let found = find_char(rest, '.', k);
        match found {
            None => {
                proof {
                    lemma_find_from_properties(rest@, '.', k as int);
                    assert(forall|p: int| k <= p < n ==> rest@[p] != '.');
                    assert(forall|p: int| k <= p < n ==> dot_default_at(rest@, p) is None);
                    lemma_find_dot_default_skip(rest@, k as int, n as int);
                }
                return None;
            },
            Some(kk) => {
                proof {
                    lemma_find_from_properties(rest@, '.', k as int);
                    assert(forall|p: int| k <= p < kk ==> rest@[p] != '.');
                    assert(forall|p: int| k <= p < kk ==> dot_default_at(rest@, p) is None);
                    lemma_find_dot_default_skip(rest@, k as int, kk as int);
                }
                let w = skip_spaces_exec(rest, kk + 1);
                let tail = rest.substring_char(w, n);
                if starts_with_str(tail, "Default:") && n - w > dlen {
                    proof {
                        assert(dot_default_at(rest@, kk as int) == Some(w + dlen as int));
                    }
                    return Some((kk, w + dlen));
                }
                proof {
                    assert(dot_default_at(rest@, kk as int) is None);
                    assert(find_dot_default(rest@, kk as int) == find_dot_default(
                        rest@,
                        kk as int + 1,
                    ));
                }
                k = kk + 1;
            },
        }
    }
}

/// Parses one input's documentation string against the three-segment
/// grammar and derives its typed parameter descriptor. Yields nothing
/// exactly when the string does not have the three-segment shape.
pub fn parse_input_documentation(yaml_name: &str, documentation: &str) -> (r: Option<
    ProcessedParameter,
>)
    ensures
        param_view(r) == param_model(yaml_name@, documentation@),
        r is Some <==> has_three_segments(documentation@),
{
    let fields = parse_doc_fields(documentation);
    let (type_options, required_status, description, default_value) = match fields {
        None => {
            return None;
        },
        Some(f) => f,
    };
    let ghost parts = doc_parts_spec(documentation@)->0;

    let csharp_name = to_pascal_case(yaml_name);

    // Enumeration detection and option extraction.
    let is_enum = contains_char(type_options.as_str(), '|') && type_options.as_str().unicode_len()
        > 0 && type_options.as_str().get_char(0) == '\'';
    proof {
        assert(is_enum == is_enum_decl(parts.type_options));
    }
    let enum_options: Option<Vec<String>> = if is_enum {
        let pieces = split_on(type_options.as_str(), '|');
        let mut opts: Vec<String> = Vec::new();
        let mut pi: usize = 0;
        while pi < pieces.len()
            invariant
                0 <= pi <= pieces@.len(),
                seq_views(pieces@) == split_spec(parts.type_options, '|'),
                opts@.len() == pi,
                forall|q: int|
                    0 <= q < pi ==> (#[trigger] opts@[q])@ == replace_spec(
                        trim_spec(split_spec(parts.type_options, '|')[q]),
                        '\'',
                        Seq::<char>::empty(),
                    ),
            decreases pieces@.len() - pi,
        {
            let piece = &pieces[pi];
            let cleaned = replace_char_with(trim_str(piece.as_str()).as_str(), '\'', "");
            proof {
                assert(piece@ == pieces@[pi as int]@);
                assert(0 <= (pi as int) && (pi as int) < pieces@.len());
                assert(seq_views(pieces@).len() == pieces@.len());
                assert(seq_views(pieces@)[pi as int] == pieces@[pi as int]@);
                reveal_strlit("");
                assert(""@ =~= Seq::<char>::empty());
            }
            opts.push(cleaned);
            pi = pi + 1;
        }
        proof {
            assert(seq_views(opts@) =~= enum_options_model(parts.type_options));
        }
        Some(opts)
    } else {
        None
    };

    // Base type resolution, including the integer upgrade of declared
    // strings whose default is an integer literal.
    let base_csharp_type: String = if is_enum {
        csharp_name.clone()
    } else if str_eq(type_options.as_str(), "boolean") {
        String::from_str("bool")
    } else if str_eq(type_options.as_str(), "string") {
        match default_value {
            Some(ref d) => {
                if is_int_literal(d.as_str()) {
                    String::from_str("int")
                } else {
                    String::from_str("string")
                }
            },
            None => String::from_str("string"),
        }
    } else {
        String::from_str("string")
    };
    proof {
        assert(base_csharp_type@ == base_type_model(yaml_name@, parts));
    }

    let is_required = str_eq(required_status.as_str(), "Required");
    let is_conditional = starts_with_str(required_status.as_str(), "Required when");
    let is_nullable = (!is_required || is_conditional || str_eq(
        base_csharp_type.as_str(),
        "string",
    )) && default_value.is_none();
    proof {
        assert(is_nullable == is_nullable_model(parts, base_csharp_type@));
    }

    let csharp_type: String = if is_nullable {
        let mut t = base_csharp_type.clone();
        t.append("?");
        t
    } else {
        base_csharp_type.clone()
    };

    let final_description: String = if description.as_str().unicode_len() == 0
        && default_value.is_some() {
        let mut d = String::from_str("Details for ");
        d.append(yaml_name);
        d
    } else {
        description
    };
    proof {
        assert(final_description@ == description_model(yaml_name@, parts));
    }

    let getter_default_arg: Option<String> = if !is_nullable {
        match default_value {
            Some(ref d) => Some(
                format_default_value(d.as_str(), base_csharp_type.as_str(), is_enum),
            ),
            None => None,
        }
    } else {
        None
    };

    let result = ProcessedParameter {
        yaml_name: String::from_str(yaml_name),
        csharp_name,
        description: final_description,
        csharp_type,
        enum_options,
        is_nullable,
        getter_default_arg,
        base_csharp_type,
    };
    proof {
        assert(result@ == derived_param(yaml_name@, parts));
    }
    Some(result)
}

/// Parsing is deterministic: two runs of the documentation parser on
/// identical input derive identical descriptors.
pub proof fn lemma_parse_deterministic(
    name: Seq<char>,
    doc: Seq<char>,
    r1: Option<ParamModel>,
    r2: Option<ParamModel>,
)
    requires
        r1 == param_model(name, doc),
        r2 == param_model(name, doc),
    ensures
        r1 == r2,
{
}

/// The structural invariants of every derived parameter: option literals
/// are present exactly for enumeration declarations, a default literal is
/// present only for non-nullable parameters with a declared default, the
/// declared name is kept, and the display name is the capitalized form
/// of it.
pub proof fn lemma_param_invariants(name: Seq<char>, doc: Seq<char>)
    requires
        param_model(name, doc) is Some,
    ensures
        ({
            let p = param_model(name, doc)->0;
            let parts = doc_parts_spec(doc)->0;
            &&& (p.enum_options is Some <==> is_enum_decl(parts.type_options))
            &&& (p.getter_default_arg is Some ==> !p.is_nullable)
            &&& (p.getter_default_arg is Some ==> parts.default_value is Some)
            &&& p.yaml_name == name
            &&& p.csharp_name == pascal_of(name)
        }),
{
}

/// The integer upgrade: a declared string whose default value is an
/// integer literal resolves to the integer base type, and one whose
/// default is not stays a string.
pub proof fn lemma_int_sniffing(name: Seq<char>, parts: DocParts)
    requires
        parts.type_options == "string"@,
    ensures
        parts.default_value matches Some(d) && is_i32_string(d) ==> base_type_model(name, parts)
            == "int"@,
        (match parts.default_value {
            Some(d) => !is_i32_string(d),
            None => true,
        }) ==> base_type_model(name, parts) == "string"@,
{
    reveal_strlit("string");
    reveal_strlit("boolean");
    assert(!is_enum_decl(parts.type_options)) by {
        assert(parts.type_options[0] == 's');
    }
    assert(parts.type_options != "boolean"@) by {
        assert(parts.type_options.len() == 6);
        assert("boolean"@.len() == 7);
    }
}

/// The nullability asymmetry: a parameter that is exactly `Required` and
/// resolves to a non-string base type is never nullable, even without a
/// default value; a `Required` parameter of string base type with no
/// default value is nullable.
pub proof fn lemma_nullability_asymmetry(name: Seq<char>, parts: DocParts)
    requires
        parts.required_status == "Required"@,
    ensures
        base_type_model(name, parts) != "string"@ ==> !is_nullable_model(
            parts,
            base_type_model(name, parts),
        ),
        base_type_model(name, parts) == "string"@ && parts.default_value is None
            ==> is_nullable_model(parts, base_type_model(name, parts)),
{
    reveal_strlit("Required");
    reveal_strlit("Required when");
    assert(!starts_with_spec(parts.required_status, "Required when"@)) by {
        assert("Required when"@.len() == 13);
        assert(parts.required_status.len() == 8);
    }
}

/// The optional-like rule: a parameter whose status is anything other
/// than exactly `Required`, with no declared default, is nullable
/// whatever its base type.
pub proof fn lemma_optional_like_is_nullable(parts: DocParts, base: Seq<char>)
    requires
        parts.required_status != "Required"@,
        parts.default_value is None,
    ensures
        is_nullable_model(parts, base),
{
}

} // verus!
