//! The snippet structural parser: walks the fixed-position header lines of
//! a usage snippet and every input declaration line, degrading to
//! documented placeholder values instead of failing.

use vstd::prelude::*;
use vstd::string::*;
use crate::annotation::{
    ParamModel, ProcessedParameter, param_model, parse_input_documentation,
};
use crate::numeric::all_digits;
use crate::text::{
    find_from, find_char, lemma_find_from_properties, skip_spaces, skip_spaces_exec,
    word_run_end, word_run_end_exec, trim_spec, trim_str, starts_with_spec, starts_with_str,
    seq_views, is_digit_char, char_is_digit,
};

verus! {

/// A line with its trailing carriage return removed, as the line splitter
/// does for a carriage return followed by a line feed.
pub open spec fn strip_cr(l: Seq<char>) -> Seq<char> {
    if l.len() > 0 && l.last() == '\r' {
        l.drop_last()
    } else {
        l
    }
}

/// The lines of a text: split at line feeds, each line's trailing
/// carriage return removed, and no final empty line after a closing
/// line feed.
pub open spec fn lines_spec(s: Seq<char>) -> Seq<Seq<char>>
    decreases s.len(),
    via lines_spec_decreases
{
    if s.len() == 0 {
        Seq::<Seq<char>>::empty()
    } else {
        match find_from(s, '\n', 0) {
            None => seq![s],
            Some(i) => seq![strip_cr(s.subrange(0, i))] + lines_spec(
                s.subrange(i + 1, s.len() as int),
            ),
        }
    }
}

#[via_fn]
proof fn lines_spec_decreases(s: Seq<char>) {
    lemma_find_from_properties(s, '\n', 0);
}

/// Splits a text into lines, matching `lines_spec`.
pub fn split_lines(s: &str) -> (r: Vec<String>)
    ensures
        seq_views(r@) == lines_spec(s@),
{
    let n = s.unicode_len();
    let mut out: Vec<String> = Vec::new();
    let mut start: usize = 0;
    proof {
        assert(s@.subrange(0, n as int) =~= s@);
        assert(seq_views(out@) + lines_spec(s@) =~= lines_spec(s@));
    }
    loop
        invariant_except_break
            0 <= start <= n,
            n == s@.len(),
            lines_spec(s@) =~= seq_views(out@) + lines_spec(s@.subrange(start as int, n as int)),
        ensures
            seq_views(out@) =~= lines_spec(s@),
        decreases n - start,
    {
        let ghost old_out = out@;
        let ghost tail = s@.subrange(start as int, n as int);
        let found = find_char(s, '\n', start);
        match found {
            None => {
                proof {
                    crate::text::lemma_find_from_shift(s@, '\n', start as int, 0);
                }
                if start < n {
                    let piece = s.substring_char(start, n);
                    out.push(String::from_str(piece));
                    proof {
                        assert(lines_spec(tail) == seq![tail]);
                        assert(seq_views(out@) =~= seq_views(old_out).push(tail));
                        assert(seq_views(old_out) + seq![tail] =~= seq_views(old_out).push(tail));
                        assert(seq_views(out@) =~= lines_spec(s@));
                    }
                } else {
                    proof {
                        assert(tail =~= Seq::<char>::empty());
                        assert(lines_spec(tail) =~= Seq::<Seq<char>>::empty());
                        assert(seq_views(out@) + lines_spec(tail) =~= seq_views(out@));
                    }
                }
                break;
            },
            Some(j) => {
                proof {
                    lemma_find_from_properties(s@, '\n', start as int);
                    crate::text::lemma_find_from_shift(s@, '\n', start as int, 0);
                    assert(find_from(tail, '\n', 0) == Some(j - start as int));
                }
                let piece = if j > start && s.get_char(j - 1) == '\r' {
                    s.substring_char(start, j - 1)
                } else {
                    s.substring_char(start, j)
                };
                out.push(String::from_str(piece));
                proof {
                    let head = tail.subrange(0, j - start as int);
                    let rest = tail.subrange(j - start as int + 1, tail.len() as int);
                    assert(tail.len() > 0);
                    assert(lines_spec(tail) == seq![strip_cr(head)] + lines_spec(rest));
                    assert(head =~= s@.subrange(start as int, j as int));
                    assert(rest =~= s@.subrange(j as int + 1, n as int));
                    if j > start && s@[j - 1] == '\r' {
                        assert(head.last() == s@[j - 1]);
                        assert(head.drop_last() =~= s@.subrange(start as int, j as int - 1));
                        assert(piece@ == strip_cr(head));
                    } else {
                        if head.len() > 0 {
                            assert(head.last() == s@[j - 1]);
                        }
                        assert(piece@ == strip_cr(head));
                    }
                    assert(seq_views(out@) =~= seq_views(old_out).push(strip_cr(head)));
                    assert(seq_views(out@) + lines_spec(rest) =~= seq_views(old_out) + (
                    seq![strip_cr(head)] + lines_spec(rest)));
                }
                start = j + 1;
            },
        }
    }
    out
}

/// End of the run of plain space characters starting at `i`: the exact
/// indentation a declaration line must have.
pub open spec fn indent_end(s: Seq<char>, i: int) -> int
    decreases s.len() - i,
{
    if i < 0 || i >= s.len() || s[i] != ' ' {
        i
    } else {
        indent_end(s, i + 1)
    }
}

/// Executable indentation scan matching `indent_end`.
pub fn indent_end_exec(s: &str, from: usize) -> (r: usize)
    requires
        from <= s@.len(),
    ensures
        r == indent_end(s@, from as int),
        from <= r <= s@.len(),
{
    let n = s.unicode_len();
    let mut i: usize = from;
    while i < n && s.get_char(i) == ' '
        invariant
            from <= i <= n,
            n == s@.len(),
            indent_end(s@, from as int) == indent_end(s@, i as int),
        decreases n - i,
    {
        i = i + 1;
    }
    i
}

/// The task identity parsed from a trimmed line of the shape
/// `- task: <Identifier>@<IntegerVersion>`: the identifier and the
/// version digits, or nothing on any other shape.
pub open spec fn task_line_spec(t: Seq<char>) -> Option<(Seq<char>, Seq<char>)> {
    let pre = "- task:"@;
    if !starts_with_spec(t, pre) {
        None
    } else {
        let a = skip_spaces(t, pre.len() as int);
        let e = word_run_end(t, a);
        if e <= a {
            None
        } else if e >= t.len() || t[e] != '@' {
            None
        } else {
            let v = t.subrange(e + 1, t.len() as int);
            if v.len() > 0 && all_digits(v) {
                Some((t.subrange(a, e), v))
            } else {
                None
            }
        }
    }
}

/// Executable task identity matcher for a trimmed line, matching
/// `task_line_spec`.
pub fn match_task_line(t: &str) -> (r: Option<(String, String)>)
    ensures
        match r {
            Some(nv) => task_line_spec(t@) == Some((nv.0@, nv.1@)),
            None => task_line_spec(t@) is None,
        },
{
    if !starts_with_str(t, "- task:") {
        return None;
    }
    let plen = "- task:".unicode_len();
    let n = t.unicode_len();
    let a = skip_spaces_exec(t, plen);
    let e = word_run_end_exec(t, a);
    if e <= a {
        return None;
    }
    if e >= n {
        return None;
    }
    if t.get_char(e) != '@' {
        return None;
    }
    let ghost v = t@.subrange(e as int + 1, n as int);
    if e + 1 >= n {
        return None;
    }
    let mut k: usize = e + 1;
    while k < n
        invariant
            e + 1 <= k <= n,
            n == t@.len(),
            v == t@.subrange(e as int + 1, n as int),
            starts_with_spec(t@, "- task:"@),
            a == skip_spaces(t@, "- task:"@.len() as int),
            e == word_run_end(t@, a as int),
            a < e,
            e + 1 < n,
            t@[e as int] == '@',
            forall|m: int| e + 1 <= m < k ==> is_digit_char(#[trigger] t@[m]),
        decreases n - k,
    {
        if !char_is_digit(t.get_char(k)) {
            proof {
                assert(v[k - (e as int + 1)] == t@[k as int]);
                assert(!all_digits(v));
            }
            return None;
        }
        k = k + 1;
    }
    proof {
        assert(all_digits(v)) by {
            assert(forall|m: int|
                0 <= m < v.len() ==> v[m] == #[trigger] t@[m + e as int + 1]);
        }
    }
    let name = String::from_str(t.substring_char(a, e));
    let version = String::from_str(t.substring_char(e + 1, n));
    Some((name, version))
}

/// The declared name and trimmed documentation of an input declaration
/// line: at least three spaces of indentation, an optional comment
/// marker, an identifier, a colon, then a documentation comment opened
/// by a hash; or nothing on any other shape.
pub open spec fn input_line_spec(line: Seq<char>) -> Option<(Seq<char>, Seq<char>)> {
    let p = indent_end(line, 0);
    if p < 3 || p >= line.len() {
        None
    } else {
        let q = if line[p] == '#' {
            skip_spaces(line, p + 1)
        } else {
            p
        };
        let e = word_run_end(line, q);
        if e <= q {
            None
        } else if e >= line.len() || line[e] != ':' {
            None
        } else {
            match find_from(line, '#', e + 1) {
                None => None,
                Some(h) => Some(
                    (line.subrange(q, e), trim_spec(line.subrange(h + 1, line.len() as int))),
                ),
            }
        }
    }
}

/// Executable input declaration matcher, matching `input_line_spec`.
pub fn match_input_line(line: &str) -> (r: Option<(String, String)>)
    ensures
        match r {
            Some(nd) => input_line_spec(line@) == Some((nd.0@, nd.1@)),
            None => input_line_spec(line@) is None,
        },
{
    let n = line.unicode_len();
    let p = indent_end_exec(line, 0);
    if p < 3 || p >= n {
        return None;
    }
    let q = if line.get_char(p) == '#' {
        skip_spaces_exec(line, p + 1)
    } else {
        p
    };
    let e = word_run_end_exec(line, q);
    if e <= q {
        return None;
    }
    if e >= n {
        return None;
    }
    if line.get_char(e) != ':' {
        return None;
    }
    let found = find_char(line, '#', e + 1);
    match found {
        None => None,
        Some(h) => {
            proof {
                lemma_find_from_properties(line@, '#', e as int + 1);
            }
            let name = String::from_str(line.substring_char(q, e));
            let doc = trim_str(line.substring_char(h + 1, n));
            Some((name, doc))
        },
    }
}

/// The parameter derived from one snippet line, when the line declares an
/// input whose documentation parses.
pub open spec fn line_param(l: Seq<char>) -> Option<ParamModel> {
    match input_line_spec(l) {
        Some(nd) => param_model(nd.0, nd.1),
        None => None,
    }
}

/// True when a line declares an input whose documentation fails to parse:
/// the line is skipped with a warning.
pub open spec fn line_warn(l: Seq<char>) -> bool {
    input_line_spec(l) is Some && line_param(l) is None
}

/// A degraded-parse or skipped-line condition, reported beside the parse
/// result instead of failing it.
#[derive(Debug, Clone, PartialEq, Eq)]
pub enum ParseWarning {
    /// The snippet is too short to hold the summary line.
    MissingSummaryLine,
    /// The second line is not a summary comment.
    SummaryLineNotComment,
    /// The snippet is too short to hold the task identity line.
    MissingIdentityLine,
    /// The third line does not match the task identity shape.
    IdentityLineMismatch,
    /// The input declaration at this line index holds documentation that
    /// does not parse; the parameter was omitted.
    DocumentationParseFailure { line: usize },
}

/// The summary line is present and is a comment.
pub open spec fn summary_ok(ls: Seq<Seq<char>>) -> bool {
    ls.len() >= 2 && {
        let t = trim_spec(ls[1]);
        t.len() > 0 && t[0] == '#'
    }
}

/// The parsed summary: the trimmed text of the summary comment, or the
/// placeholder when the line is missing or not a comment.
pub open spec fn summary_model(ls: Seq<Seq<char>>) -> Seq<char> {
    if summary_ok(ls) {
        trim_spec(trim_spec(ls[1]).drop_first())
    } else {
        "N/A"@
    }
}

/// The parsed task identity, or the placeholder identity when the line
/// is missing or does not match.
pub open spec fn identity_model(ls: Seq<Seq<char>>) -> (Seq<char>, Seq<char>) {
    if ls.len() >= 3 {
        match task_line_spec(trim_spec(ls[2])) {
            Some(nv) => nv,
            None => ("UnknownTask"@, "0"@),
        }
    } else {
        ("UnknownTask"@, "0"@)
    }
}

/// The parameters declared on lines 3 up to `i`, in source order.
pub open spec fn params_upto(ls: Seq<Seq<char>>, i: int) -> Seq<ParamModel>
    decreases i,
{
    if i <= 3 {
        Seq::<ParamModel>::empty()
    } else {
        params_upto(ls, i - 1) + (match line_param(ls[i - 1]) {
            Some(p) => seq![p],
            None => Seq::<ParamModel>::empty(),
        })
    }
}

/// The skipped-line warnings for lines 3 up to `i`, in source order.
pub open spec fn warns_upto(ls: Seq<Seq<char>>, i: int) -> Seq<ParseWarning>
    decreases i,
{
    if i <= 3 {
        Seq::<ParseWarning>::empty()
    } else {
        warns_upto(ls, i - 1) + (if line_warn(ls[i - 1]) {
            seq![ParseWarning::DocumentationParseFailure { line: (i - 1) as usize }]
        } else {
            Seq::<ParseWarning>::empty()
        })
    }
}

/// The header warnings: a missing or malformed summary line, then a
/// missing or mismatched identity line.
pub open spec fn header_warnings(ls: Seq<Seq<char>>) -> Seq<ParseWarning> {
    if ls.len() < 2 {
        seq![ParseWarning::MissingSummaryLine]
    } else {
        (if !summary_ok(ls) {
            seq![ParseWarning::SummaryLineNotComment]
        } else {
            Seq::<ParseWarning>::empty()
        }) + (if ls.len() < 3 {
            seq![ParseWarning::MissingIdentityLine]
        } else if task_line_spec(trim_spec(ls[2])) is None {
            seq![ParseWarning::IdentityLineMismatch]
        } else {
            Seq::<ParseWarning>::empty()
        })
    }
}

/// The full parse of a snippet text: summary, identity, and the
/// parameters of every declaration line in source order.
pub struct TaskInfoModel {
    /// Parsed or placeholder summary.
    pub task_summary: Seq<char>,
    /// Parsed or placeholder task name.
    pub task_name: Seq<char>,
    /// Parsed or placeholder task version.
    pub task_version: Seq<char>,
    /// Parameters in declaration order.
    pub parameters: Seq<ParamModel>,
}

/// What `parse_yaml_lines` returns for a snippet text.
pub open spec fn task_info_model(text: Seq<char>) -> TaskInfoModel {
    let ls = lines_spec(text);
    TaskInfoModel {
        task_summary: summary_model(ls),
        task_name: identity_model(ls).0,
        task_version: identity_model(ls).1,
        parameters: params_upto(ls, ls.len() as int),
    }
}

/// The warnings `parse_yaml_lines` reports for a snippet text.
pub open spec fn warnings_model(text: Seq<char>) -> Seq<ParseWarning> {
    let ls = lines_spec(text);
    header_warnings(ls) + warns_upto(ls, ls.len() as int)
}

/// The views of a sequence of parameters.
pub open spec fn param_views(v: Seq<ProcessedParameter>) -> Seq<ParamModel> {
    Seq::new(v.len(), |i: int| v[i]@)
}

/// The parse result of one snippet: summary, task identity and the
/// parameters in declaration order.
#[derive(Debug, Clone, PartialEq)]
pub struct ParsedTaskInfo {
    /// Parsed or placeholder summary.
    pub task_summary: String,
    /// Parsed or placeholder task name.
    pub task_name: String,
    /// Parsed or placeholder task version.
    pub task_version: String,
    /// Parameters in declaration order.
    pub parameters: Vec<ProcessedParameter>,
}

impl View for ParsedTaskInfo {
    type V = TaskInfoModel;

    open spec fn view(&self) -> TaskInfoModel {
        TaskInfoModel {
            task_summary: self.task_summary@,
            task_name: self.task_name@,
            task_version: self.task_version@,
            parameters: param_views(self.parameters@),
        }
    }
}

/// Parses a snippet text line by line: the first line is discarded, the
/// second yields the summary, the third the task identity, and every
/// remaining line that declares an input yields a parameter. Header
/// mismatches degrade to placeholder values and bad documentation skips
/// its line; both are reported as warnings, and parsing never fails.
pub fn parse_yaml_lines(yaml_text: &str) -> (r: (ParsedTaskInfo, Vec<ParseWarning>))
    ensures
        r.0@ == task_info_model(yaml_text@),
        r.1@ == warnings_model(yaml_text@),
{
    let lines = split_lines(yaml_text);
    let ghost ls = lines_spec(yaml_text@);
    let mut warnings: Vec<ParseWarning> = Vec::new();
    let mut task_summary = String::from_str("N/A");
    let mut task_name = String::from_str("UnknownTask");
    let mut task_version = String::from_str("0");

    if lines.len() < 2 {
        warnings.push(ParseWarning::MissingSummaryLine);
        let info = ParsedTaskInfo {
            task_summary,
            task_name,
            task_version,
            parameters: Vec::new(),
        };
        proof {
            assert(param_views(Seq::<ProcessedParameter>::empty()) =~= Seq::<
                ParamModel,
            >::empty());
            assert(info@ =~= task_info_model(yaml_text@)) by {
                assert(seq_views(lines@).len() == lines@.len());
            }
            assert(warnings@ =~= warnings_model(yaml_text@)) by {
                assert(seq_views(lines@).len() == lines@.len());
            }
        }
        return (info, warnings);
    }
    proof {
        assert(ls.len() == lines@.len());
        assert(ls[1] == seq_views(lines@)[1]);
    }

    let line1 = trim_str(lines[1].as_str());
    let t1n = line1.as_str().unicode_len();
    if t1n > 0 && line1.as_str().get_char(0) == '#' {
        proof {
            assert(line1@.subrange(1, t1n as int) =~= line1@.drop_first());
        }
        task_summary = trim_str(line1.as_str().substring_char(1, t1n));
        proof {
            assert(summary_ok(ls));
            assert(task_summary@ == summary_model(ls));
        }
    } else {
        warnings.push(ParseWarning::SummaryLineNotComment);
        proof {
            assert(!summary_ok(ls));
        }
    }

    if lines.len() < 3 {
        warnings.push(ParseWarning::MissingIdentityLine);
        let info = ParsedTaskInfo {
            task_summary,
            task_name,
            task_version,
            parameters: Vec::new(),
        };
        proof {
            assert(param_views(Seq::<ProcessedParameter>::empty()) =~= Seq::<
                ParamModel,
            >::empty());
            assert(info@ =~= task_info_model(yaml_text@));
            assert(warnings@ =~= warnings_model(yaml_text@));
        }
        return (info, warnings);
    }
    proof {
        assert(ls[2] == seq_views(lines@)[2]);
    }

    let line2 = trim_str(lines[2].as_str());
    let identity = match_task_line(line2.as_str());
    match identity {
        Some((nm, ver)) => {
            task_name = nm;
            task_version = ver;
        },
        None => {
            warnings.push(ParseWarning::IdentityLineMismatch);
        },
    }
    proof {
        assert(task_name@ == identity_model(ls).0);
        assert(task_version@ == identity_model(ls).1);
        assert(warnings@ =~= header_warnings(ls));
    }

    let ghost header = warnings@;
    let mut parameters: Vec<ProcessedParameter> = Vec::new();
    let mut i: usize = 3;
    proof {
        assert(param_views(parameters@) =~= params_upto(ls, 3));
        assert(warnings@ =~= header + warns_upto(ls, 3));
    }
    while i < lines.len()
        invariant
            3 <= i <= lines@.len(),
            seq_views(lines@) == ls,
            param_views(parameters@) =~= params_upto(ls, i as int),
            warnings@ =~= header + warns_upto(ls, i as int),
        decreases lines@.len() - i,
    {
        let ghost old_params = parameters@;
        let ghost old_warnings = warnings@;
        proof {
            assert(ls[i as int] == seq_views(lines@)[i as int]);
        }
        let matched = match_input_line(lines[i].as_str());
        match matched {
            Some((nm, doc)) => {
                let parsed = parse_input_documentation(nm.as_str(), doc.as_str());
                match parsed {
                    Some(p) => {
                        proof {
                            assert(line_param(ls[i as int]) == Some(p@));
                        }
                        parameters.push(p);
                        proof {
                            assert(param_views(parameters@) =~= param_views(old_params).push(
                                params_upto(ls, i as int + 1).last(),
                            ));
                            assert(param_views(parameters@) =~= params_upto(ls, i as int + 1));
                            assert(warnings@ =~= header + warns_upto(ls, i as int + 1));
                        }
                    },
                    None => {
                        proof {
                            assert(line_param(ls[i as int]) is None);
                            assert(line_warn(ls[i as int]));
                        }
                        warnings.push(ParseWarning::DocumentationParseFailure { line: i });
                        proof {
                            assert(param_views(parameters@) =~= params_upto(ls, i as int + 1));
                            assert(warnings@ =~= header + warns_upto(ls, i as int + 1));
                        }
                    },
                }
            },
            None => {
                proof {
                    assert(line_param(ls[i as int]) is None);
                    assert(!line_warn(ls[i as int]));
                    assert(param_views(parameters@) =~= params_upto(ls, i as int + 1));
                    assert(warnings@ =~= header + warns_upto(ls, i as int + 1));
                }
            },
        }
        i = i + 1;
    }

    let info = ParsedTaskInfo { task_summary, task_name, task_version, parameters };
    proof {
        assert(info@ =~= task_info_model(yaml_text@));
        assert(warnings@ =~= warnings_model(yaml_text@));
    }
    (info, warnings)
}

/// A matched input declaration line always carries a nonempty declared
/// name.
pub proof fn lemma_input_line_name_nonempty(l: Seq<char>)
    ensures
        input_line_spec(l) matches Some(nd) ==> nd.0.len() > 0,
{
}

proof fn lemma_params_upto_names_nonempty(ls: Seq<Seq<char>>, i: int)
    ensures
        forall|k: int|
            0 <= k < params_upto(ls, i).len() ==> (#[trigger] params_upto(ls, i)[k]).yaml_name.len()
                > 0,
    decreases i,
{
    if i > 3 {
        lemma_params_upto_names_nonempty(ls, i - 1);
        if line_param(ls[i - 1]) is Some {
            lemma_input_line_name_nonempty(ls[i - 1]);
            let nd = input_line_spec(ls[i - 1])->0;
            crate::annotation::lemma_param_invariants(nd.0, nd.1);
        }
    }
}

/// Every parameter parsed from a snippet carries a nonempty declared
/// name.
pub proof fn lemma_declared_names_nonempty(text: Seq<char>)
    ensures
        forall|k: int|
            0 <= k < task_info_model(text).parameters.len() ==> (#[trigger] task_info_model(
                text,
            ).parameters[k]).yaml_name.len() > 0,
{
    let ls = lines_spec(text);
    lemma_params_upto_names_nonempty(ls, ls.len() as int);
}

/// Structural degradation: a snippet of exactly two lines yields the
/// placeholder task identity and no parameters, and parsing does not
/// fail.
pub proof fn lemma_two_line_snippet(text: Seq<char>)
    requires
        lines_spec(text).len() == 2,
    ensures
        task_info_model(text).task_name == "UnknownTask"@,
        task_info_model(text).task_version == "0"@,
        task_info_model(text).parameters == Seq::<ParamModel>::empty(),
{
    let ls = lines_spec(text);
    assert(params_upto(ls, 2) == Seq::<ParamModel>::empty());
}

} // verus!
