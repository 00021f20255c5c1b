//! Recursive-descent parser for the restricted BLIF grammar:
//!
//! ```text
//! document   := model+
//! model      := ".model" SP name NL
//!               ".inputs" SP name+ NL
//!               ".outputs" SP name+ NL
//!               gate*
//!               ".end" NL
//! gate       := ".names" SP name+ NL?
//!               cover-row*
//! cover-row  := (ternary+ SP)? ("0"|"1") NL
//! name       := (alnum | "_" | "." | "$" | "/" | ":")+
//! ternary    := "0" | "1" | "-"
//! ```
//!
//! Each grammar production has a spec-level parsing function over a
//! `Seq<char>` and a position, and an executable parser proved to agree with
//! it exactly: it succeeds if and only if the spec function does, with the
//! same value and the same next position.

use super::logic_gate::GateConstructionError;
use super::logic_gate::GateView;
use super::logic_gate::LogicGate;
use super::logic_gate::InputValue;
use super::model::gate_width_mismatch;
use super::model::model_covers_wf;
use super::model::Model;
use super::model::ModelView;
use super::Blif;
use vstd::prelude::*;

verus! {

// ------------------------------------------------------------------
// Character classes
// ------------------------------------------------------------------

/// Horizontal whitespace: space or tab, not newline.
pub open spec fn spec_is_space(c: char) -> bool {
    c == ' ' || c == '\t'
}

fn is_space_char(c: char) -> (r: bool)
    ensures
        r == spec_is_space(c),
{
    c == ' ' || c == '\t'
}

/// Characters a name may consist of: ASCII alphanumerics and `_ . $ / :`.
pub open spec fn spec_is_name_char(c: char) -> bool {
    ('a' <= c && c <= 'z') || ('A' <= c && c <= 'Z') || ('0' <= c && c <= '9') || c == '_'
        || c == '.' || c == '$' || c == '/' || c == ':'
}

fn is_valid_name_char(c: char) -> (r: bool)
    ensures
        r == spec_is_name_char(c),
{
    ('a' <= c && c <= 'z') || ('A' <= c && c <= 'Z') || ('0' <= c && c <= '9') || c == '_'
        || c == '.' || c == '$' || c == '/' || c == ':'
}

/// The characters a cover pattern may consist of.
pub open spec fn spec_is_ternary_char(c: char) -> bool {
    c == '0' || c == '1' || c == '-'
}

fn is_ternary_char(c: char) -> (r: bool)
    ensures
        r == spec_is_ternary_char(c),
{
    c == '0' || c == '1' || c == '-'
}

/// The ternary value a cover character denotes; meaningful on `0`, `1`, `-`.
pub open spec fn spec_ternary_value(c: char) -> InputValue {
    if c == '1' {
        InputValue::Uncomplemented
    } else if c == '0' {
        InputValue::Complemented
    } else {
        InputValue::NotUsed
    }
}

fn ternary_value(c: char) -> (r: InputValue)
    ensures
        r == spec_ternary_value(c),
{
    if c == '1' {
        InputValue::Uncomplemented
    } else if c == '0' {
        InputValue::Complemented
    } else {
        InputValue::NotUsed
    }
}

// ------------------------------------------------------------------
// Errors
// ------------------------------------------------------------------

/// The grammar production whose rule went unmet.
#[derive(Debug, PartialEq, Eq, Structural, Clone, Copy)]
pub enum GrammarRule {
    Name,
    Names,
    CoverRow,
    LogicGate,
    ModelName,
    DeclList,
    ModelInputs,
    ModelOutputs,
    Model,
    Document,
}

/// A syntax error: the document does not match the grammar at `pos`.
#[derive(Debug, PartialEq, Eq, Structural, Clone, Copy)]
pub struct ParseError {
    /// Character offset of the construct that failed to parse.
    pub pos: usize,
    /// The grammar rule that went unmet there.
    pub rule: GrammarRule,
}

impl ParseError {
    /// A human-readable description of the unmet grammar rule.
    pub fn describe(&self) -> &'static str {
        match self.rule {
            GrammarRule::Name => "expected a name",
            GrammarRule::Names => "expected a .names line with at least one name",
            GrammarRule::CoverRow => "expected a cover row: optional ternary pattern, then 0 or 1",
            GrammarRule::LogicGate => "expected a gate declaration",
            GrammarRule::ModelName => "expected a .model line",
            GrammarRule::DeclList => "expected one or more names ended by a newline",
            GrammarRule::ModelInputs => "expected an .inputs line",
            GrammarRule::ModelOutputs => "expected an .outputs line",
            GrammarRule::Model => "expected a .model ... .end block",
            GrammarRule::Document => "expected at least one .model ... .end block",
        }
    }
}

/// Why a document was rejected: it breaks the grammar, or a syntactically
/// valid gate's cover-row width disagrees with its declared input count.
#[derive(Debug, PartialEq, Eq, Structural, Clone, Copy)]
pub enum BlifError {
    Parse(ParseError),
    GateConstruction(GateConstructionError),
}

// ------------------------------------------------------------------
// Scanners: maximal runs of one character class
// ------------------------------------------------------------------

/// The end of the run of horizontal whitespace starting at `pos`.
pub open spec fn spec_skip_spaces(t: Seq<char>, pos: int) -> int
    decreases t.len() - pos,
{
    if pos < t.len() && spec_is_space(t[pos]) {
        spec_skip_spaces(t, pos + 1)
    } else {
        pos
    }
}

pub proof fn lemma_skip_spaces_bounds(t: Seq<char>, pos: int)
    requires
        0 <= pos <= t.len(),
    ensures
        pos <= spec_skip_spaces(t, pos) <= t.len(),
        pos < t.len() && spec_is_space(t[pos]) ==> pos < spec_skip_spaces(t, pos),
    decreases t.len() - pos,
{
    if pos < t.len() && spec_is_space(t[pos]) {
        lemma_skip_spaces_bounds(t, pos + 1);
    }
}

/// The end of the run of name characters starting at `pos`.
pub open spec fn spec_name_end(t: Seq<char>, pos: int) -> int
    decreases t.len() - pos,
{
    if pos < t.len() && spec_is_name_char(t[pos]) {
        spec_name_end(t, pos + 1)
    } else {
        pos
    }
}

pub proof fn lemma_name_end_bounds(t: Seq<char>, pos: int)
    requires
        0 <= pos <= t.len(),
    ensures
        pos <= spec_name_end(t, pos) <= t.len(),
        pos < t.len() && spec_is_name_char(t[pos]) ==> pos < spec_name_end(t, pos),
    decreases t.len() - pos,
{
    if pos < t.len() && spec_is_name_char(t[pos]) {
        lemma_name_end_bounds(t, pos + 1);
    }
}

/// The end of the run of ternary characters starting at `pos`.
pub open spec fn spec_ternary_end(t: Seq<char>, pos: int) -> int
    decreases t.len() - pos,
{
    if pos < t.len() && spec_is_ternary_char(t[pos]) {
        spec_ternary_end(t, pos + 1)
    } else {
        pos
    }
}

pub proof fn lemma_ternary_end_bounds(t: Seq<char>, pos: int)
    requires
        0 <= pos <= t.len(),
    ensures
        pos <= spec_ternary_end(t, pos) <= t.len(),
    decreases t.len() - pos,
{
    if pos < t.len() && spec_is_ternary_char(t[pos]) {
        lemma_ternary_end_bounds(t, pos + 1);
    }
}

// ------------------------------------------------------------------
// Tokens: tags, mandatory whitespace, names
// ------------------------------------------------------------------

/// Whether `tag` occurs in `t` at `pos`.
pub open spec fn spec_match_tag(t: Seq<char>, pos: int, tag: Seq<char>) -> bool {
    &&& 0 <= pos
    &&& pos + tag.len() <= t.len()
    &&& t.subrange(pos, pos + tag.len()) == tag
}

/// Whether at least one horizontal whitespace character stands at `pos`, and
/// if so, the position after the whole whitespace run.
pub open spec fn spec_space1(t: Seq<char>, pos: int) -> Option<int> {
    if 0 <= pos < t.len() && spec_is_space(t[pos]) {
        Some(spec_skip_spaces(t, pos))
    } else {
        None
    }
}

pub proof fn lemma_space1_bounds(t: Seq<char>, pos: int)
    requires
        0 <= pos <= t.len(),
    ensures
        spec_space1(t, pos) matches Some(p) ==> pos < p <= t.len(),
{
    lemma_skip_spaces_bounds(t, pos);
}

/// A name token: a maximal, nonempty run of name characters, then trailing
/// horizontal whitespace consumed.
pub open spec fn spec_parse_name(t: Seq<char>, pos: int) -> Option<(Seq<char>, int)> {
    if 0 <= pos < t.len() && spec_is_name_char(t[pos]) {
        let end = spec_name_end(t, pos);
        Some((t.subrange(pos, end), spec_skip_spaces(t, end)))
    } else {
        None
    }
}

pub proof fn lemma_parse_name_bounds(t: Seq<char>, pos: int)
    requires
        0 <= pos <= t.len(),
    ensures
        spec_parse_name(t, pos) matches Some(v) ==> pos < v.1 <= t.len(),
{
    if 0 <= pos < t.len() && spec_is_name_char(t[pos]) {
        lemma_name_end_bounds(t, pos);
        lemma_skip_spaces_bounds(t, spec_name_end(t, pos));
    }
}

/// A greedy run of name tokens: the names parsed and the position after them.
pub open spec fn spec_parse_name_list(t: Seq<char>, pos: int) -> (Seq<Seq<char>>, int)
    decreases t.len() - pos,
    when 0 <= pos <= t.len()
    via spec_parse_name_list_decreases
{
    match spec_parse_name(t, pos) {
        Some((name, p2)) => {
            let (rest, p3) = spec_parse_name_list(t, p2);
            (seq![name] + rest, p3)
        }
        None => (Seq::empty(), pos),
    }
}

#[via_fn]
proof fn spec_parse_name_list_decreases(t: Seq<char>, pos: int) {
    lemma_parse_name_bounds(t, pos);
}

pub proof fn lemma_name_list_bounds(t: Seq<char>, pos: int)
    requires
        0 <= pos <= t.len(),
    ensures
        pos <= spec_parse_name_list(t, pos).1 <= t.len(),
    decreases t.len() - pos,
{
    lemma_parse_name_bounds(t, pos);
    match spec_parse_name(t, pos) {
        Some((name, p2)) => {
            lemma_name_list_bounds(t, p2);
        }
        None => {}
    }
}

// ------------------------------------------------------------------
// Executable token parsers
// ------------------------------------------------------------------

/// Whether `tag` occurs in `s` at character offset `pos`.
fn tag_at(s: &str, pos: usize, tag: &str) -> (r: bool)
    requires
        pos as int <= s@.len(),
    ensures
        r == spec_match_tag(s@, pos as int, tag@),
{
    let n = s.unicode_len();
    let tn = tag.unicode_len();
    if n - pos < tn {
        return false;
    }
    let mut i: usize = 0;
    while i < tn
        invariant
            i <= tn,
            n == s@.len(),
            tn == tag@.len(),
            pos + tn <= n,
            forall|j: int| 0 <= j < i ==> s@[pos + j] == tag@[j],
        decreases tn - i,
    {
        if s.get_char(pos + i) != tag.get_char(i) {
            proof {
                assert(s@.subrange(pos as int, pos as int + tag@.len())[i as int] == s@[pos
                    + i]);
            }
            return false;
        }
        i += 1;
    }
    proof {
        assert(s@.subrange(pos as int, pos as int + tag@.len()) =~= tag@);
    }
    true
}

/// Requires at least one horizontal whitespace character at `pos` and
/// consumes the whole run.
fn parse_space1(s: &str, pos: usize) -> (r: Option<usize>)
    requires
        pos as int <= s@.len(),
    ensures
        (r is Some) == (spec_space1(s@, pos as int) is Some),
        r matches Some(p) ==> spec_space1(s@, pos as int) == Some(p as int) && pos < p
            <= s@.len(),
{
    let n = s.unicode_len();
    if pos == n || !is_space_char(s.get_char(pos)) {
        return None;
    }
    let mut p = pos;
    while p < n && is_space_char(s.get_char(p))
        invariant
            pos <= p <= n,
            n == s@.len(),
            spec_skip_spaces(s@, pos as int) == spec_skip_spaces(s@, p as int),
        decreases n - p,
    {
        p += 1;
    }
    Some(p)
}

/// Parses one name token: a maximal, nonempty run of name characters,
/// followed by consumption of trailing horizontal whitespace.
pub fn parse_name(s: &str, pos: usize) -> (r: Result<(String, usize), ParseError>)
    requires
        pos as int <= s@.len(),
    ensures
        match spec_parse_name(s@, pos as int) {
            Some(v) => r matches Ok(o) && o.0@ == v.0 && o.1 as int == v.1 && o.1 <= s@.len(),
            None => r == Err::<(String, usize), ParseError>(
                ParseError { pos, rule: GrammarRule::Name },
            ),
        },
{
    let n = s.unicode_len();
    if pos == n || !is_valid_name_char(s.get_char(pos)) {
        return Err(ParseError { pos, rule: GrammarRule::Name });
    }
    let mut end = pos + 1;
    while end < n && is_valid_name_char(s.get_char(end))
        invariant
            pos < end <= n,
            n == s@.len(),
            spec_name_end(s@, pos as int) == spec_name_end(s@, end as int),
        decreases n - end,
    {
        end += 1;
    }
    let name = s.substring_char(pos, end).to_owned();
    let mut p = end;
    while p < n && is_space_char(s.get_char(p))
        invariant
            end <= p <= n,
            n == s@.len(),
            spec_skip_spaces(s@, end as int) == spec_skip_spaces(s@, p as int),
        decreases n - p,
    {
        p += 1;
    }
    Ok((name, p))
}

/// Parses a greedy run of name tokens.
fn parse_name_list(s: &str, pos: usize) -> (r: (Vec<String>, usize))
    requires
        pos as int <= s@.len(),
    ensures
        r.0@.map_values(|x: String| x@) == spec_parse_name_list(s@, pos as int).0,
        r.1 as int == spec_parse_name_list(s@, pos as int).1,
        pos <= r.1 <= s@.len(),
{
    let ghost t = s@;
    let mut names: Vec<String> = Vec::new();
    let mut p = pos;
    proof {
        assert(names@.map_values(|x: String| x@) =~= Seq::<Seq<char>>::empty());
    }
    loop
        invariant
            pos <= p,
            p as int <= t.len(),
            t == s@,
            spec_parse_name_list(t, pos as int).0 == names@.map_values(|x: String| x@)
                + spec_parse_name_list(t, p as int).0,
            spec_parse_name_list(t, pos as int).1 == spec_parse_name_list(t, p as int).1,
        ensures
            p as int == spec_parse_name_list(t, pos as int).1,
            names@.map_values(|x: String| x@) == spec_parse_name_list(t, pos as int).0,
            pos <= p <= t.len(),
        decreases t.len() - p,
    {
        let ghost names_before = names@;
        match parse_name(s, p) {
            Ok((name, np)) => {
                proof {
                    lemma_parse_name_bounds(t, p as int);
                    assert(names@.push(name).map_values(|x: String| x@) =~= names@.map_values(
                        |x: String| x@,
                    ).push(name@));
                    assert(spec_parse_name_list(t, p as int).0 == seq![name@]
                        + spec_parse_name_list(t, np as int).0);
                    assert(names_before.map_values(|x: String| x@) + (seq![name@]
                        + spec_parse_name_list(t, np as int).0) =~= names_before.map_values(
                        |x: String| x@,
                    ).push(name@) + spec_parse_name_list(t, np as int).0);
                }
                names.push(name);
                p = np;
            }
            Err(_) => {
                proof {
                    assert(spec_parse_name_list(t, p as int).0 =~= Seq::<Seq<char>>::empty());
                    assert(names@.map_values(|x: String| x@) + Seq::<Seq<char>>::empty()
                        =~= names@.map_values(|x: String| x@));
                }
                break;
            }
        }
    }
    (names, p)
}


// ------------------------------------------------------------------
// The .names line
// ------------------------------------------------------------------

/// The keyword opening a gate declaration.
pub open spec fn names_tag() -> Seq<char> {
    ".names"@
}

/// A `.names` line: the keyword, mandatory whitespace, then one or more
/// names. The last name is that gate's output; the preceding ones are its
/// inputs, in order.
pub open spec fn spec_parse_names(t: Seq<char>, pos: int) -> Option<
    ((Seq<Seq<char>>, Seq<char>), int),
> {
    if spec_match_tag(t, pos, names_tag()) {
        match spec_space1(t, pos + names_tag().len()) {
            Some(p2) => {
                let (names, p3) = spec_parse_name_list(t, p2);
                if names.len() >= 1 {
                    Some(((names.drop_last(), names.last()), p3))
                } else {
                    None
                }
            }
            None => None,
        }
    } else {
        None
    }
}

pub proof fn lemma_parse_names_bounds(t: Seq<char>, pos: int)
    requires
        0 <= pos <= t.len(),
    ensures
        spec_parse_names(t, pos) matches Some(v) ==> pos < v.1 <= t.len(),
{
    if spec_match_tag(t, pos, names_tag()) {
        let q = pos + names_tag().len();
        lemma_space1_bounds(t, q);
        match spec_space1(t, q) {
            Some(p2) => {
                lemma_name_list_bounds(t, p2);
            }
            None => {}
        }
    }
}

/// Parses a `.names` line into a gate's input names and output name.
pub fn parse_names(s: &str, pos: usize) -> (r: Result<((Vec<String>, String), usize), ParseError>)
    requires
        pos as int <= s@.len(),
    ensures
        match spec_parse_names(s@, pos as int) {
            Some(v) => r matches Ok(o) && o.0.0@.map_values(|x: String| x@) == v.0.0 && o.0.1@
                == v.0.1 && o.1 as int == v.1 && o.1 <= s@.len(),
            None => r == Err::<((Vec<String>, String), usize), ParseError>(
                ParseError { pos, rule: GrammarRule::Names },
            ),
        },
{
    let err = ParseError { pos, rule: GrammarRule::Names };
    if !tag_at(s, pos, ".names") {
        return Err(err);
    }
    proof {
        reveal_strlit(".names");
    }
    let n = s.unicode_len();
    proof {
        assert(pos + 6 <= n);
    }
    let p1 = pos + 6;
    let p2 = match parse_space1(s, p1) {
        Some(p2) => p2,
        None => {
            return Err(err);
        }
    };
    let (mut names, p3) = parse_name_list(s, p2);
    let ghost all_names = names@.map_values(|x: String| x@);
    if names.len() == 0 {
        return Err(err);
    }
    let output = match names.pop() {
        Some(o) => o,
        None => {
            proof {
                assert(false);
            }
            return Err(err);
        }
    };
    proof {
        assert(names@.map_values(|x: String| x@) =~= all_names.drop_last());
    }
    Ok(((names, output), p3))
}

// ------------------------------------------------------------------
// Cover rows
// ------------------------------------------------------------------

/// One cover row: an optional ternary pattern ended by mandatory whitespace,
/// then a single `0` or `1` giving the output polarity. When the pattern (or
/// its separating whitespace) is missing, the row is just the polarity digit.
pub open spec fn spec_parse_cover_row(t: Seq<char>, pos: int) -> Option<
    ((Seq<InputValue>, InputValue), int),
> {
    let e = spec_ternary_end(t, pos);
    let pat_p2: (Seq<InputValue>, int) = match spec_space1(t, e) {
        Some(p) => (t.subrange(pos, e).map_values(|c: char| spec_ternary_value(c)), p),
        None => (Seq::empty(), pos),
    };
    if 0 <= pat_p2.1 < t.len() && (t[pat_p2.1] == '0' || t[pat_p2.1] == '1') {
        Some(((pat_p2.0, spec_ternary_value(t[pat_p2.1])), pat_p2.1 + 1))
    } else {
        None
    }
}

pub proof fn lemma_cover_row_bounds(t: Seq<char>, pos: int)
    requires
        0 <= pos <= t.len(),
    ensures
        spec_parse_cover_row(t, pos) matches Some(v) ==> pos < v.1 <= t.len(),
{
    lemma_ternary_end_bounds(t, pos);
    lemma_space1_bounds(t, spec_ternary_end(t, pos));
}

/// Parses one cover row into its ternary pattern and output polarity.
pub fn parse_single_output_cover(s: &str, pos: usize) -> (r: Result<
    ((Vec<InputValue>, InputValue), usize),
    ParseError,
>)
    requires
        pos as int <= s@.len(),
    ensures
        match spec_parse_cover_row(s@, pos as int) {
            Some(v) => r matches Ok(o) && o.0.0@ == v.0.0 && o.0.1 == v.0.1 && o.1 as int == v.1
                && o.1 <= s@.len(),
            None => r == Err::<((Vec<InputValue>, InputValue), usize), ParseError>(
                ParseError { pos, rule: GrammarRule::CoverRow },
            ),
        },
{
    let ghost t = s@;
    let n = s.unicode_len();
    let mut e = pos;
    while e < n && is_ternary_char(s.get_char(e))
        invariant
            pos <= e <= n,
            n == t.len(),
            t == s@,
            spec_ternary_end(t, pos as int) == spec_ternary_end(t, e as int),
            forall|j: int| pos <= j < e ==> spec_is_ternary_char(t[j]),
        decreases n - e,
    {
        e += 1;
    }
    let (pattern, p2): (Vec<InputValue>, usize) = match parse_space1(s, e) {
        Some(p) => {
            let mut pat: Vec<InputValue> = Vec::new();
            let mut i = pos;
            proof {
                assert(pat@ =~= t.subrange(pos as int, pos as int).map_values(
                    |c: char| spec_ternary_value(c),
                ));
            }
            while i < e
                invariant
                    pos <= i <= e <= n,
                    n == t.len(),
                    t == s@,
                    pat@ == t.subrange(pos as int, i as int).map_values(
                        |c: char| spec_ternary_value(c),
                    ),
                decreases e - i,
            {
                pat.push(ternary_value(s.get_char(i)));
                proof {
                    assert(t.subrange(pos as int, i as int + 1) =~= t.subrange(
                        pos as int,
                        i as int,
                    ).push(t[i as int]));
                    assert(pat@ =~= t.subrange(pos as int, i as int + 1).map_values(
                        |c: char| spec_ternary_value(c),
                    ));
                }
                i += 1;
            }
            (pat, p)
        }
        None => (Vec::new(), pos),
    };
    if p2 < n {
        let c = s.get_char(p2);
        if c == '0' || c == '1' {
            return Ok(((pattern, ternary_value(c)), p2 + 1));
        }
    }
    Err(ParseError { pos, rule: GrammarRule::CoverRow })
}

// ------------------------------------------------------------------
// Gates
// ------------------------------------------------------------------

/// A greedy run of cover rows, each ended by a newline; a row not ended by a
/// newline is not taken.
pub open spec fn spec_parse_cover_rows(t: Seq<char>, pos: int) -> (
    Seq<(Seq<InputValue>, InputValue)>,
    int,
)
    decreases t.len() - pos,
    when 0 <= pos <= t.len()
    via spec_parse_cover_rows_decreases
{
    match spec_parse_cover_row(t, pos) {
        Some((row, p2)) => {
            if p2 < t.len() && t[p2] == '\n' {
                let (rest, p3) = spec_parse_cover_rows(t, p2 + 1);
                (seq![row] + rest, p3)
            } else {
                (Seq::empty(), pos)
            }
        }
        None => (Seq::empty(), pos),
    }
}

#[via_fn]
proof fn spec_parse_cover_rows_decreases(t: Seq<char>, pos: int) {
    lemma_cover_row_bounds(t, pos);
}

pub proof fn lemma_cover_rows_bounds(t: Seq<char>, pos: int)
    requires
        0 <= pos <= t.len(),
    ensures
        pos <= spec_parse_cover_rows(t, pos).1 <= t.len(),
    decreases t.len() - pos,
{
    lemma_cover_row_bounds(t, pos);
    match spec_parse_cover_row(t, pos) {
        Some((row, p2)) => {
            if p2 < t.len() && t[p2] == '\n' {
                lemma_cover_rows_bounds(t, p2 + 1);
            }
        }
        None => {}
    }
}

/// A gate declaration: a `.names` line, an optional newline, then a greedy
/// run of newline-ended cover rows.
pub open spec fn spec_parse_logic_gate(t: Seq<char>, pos: int) -> Option<(GateView, int)> {
    match spec_parse_names(t, pos) {
        Some(((inputs, output), p2)) => {
            let p3: int = if p2 < t.len() && t[p2] == '\n' {
                p2 + 1
            } else {
                p2
            };
            let (cover, p4) = spec_parse_cover_rows(t, p3);
            Some((GateView { inputs, output, cover }, p4))
        }
        None => None,
    }
}

pub proof fn lemma_parse_logic_gate_bounds(t: Seq<char>, pos: int)
    requires
        0 <= pos <= t.len(),
    ensures
        spec_parse_logic_gate(t, pos) matches Some(v) ==> pos < v.1 <= t.len(),
{
    lemma_parse_names_bounds(t, pos);
    match spec_parse_names(t, pos) {
        Some(((inputs, output), p2)) => {
            let p3: int = if p2 < t.len() && t[p2] == '\n' {
                p2 + 1
            } else {
                p2
            };
            lemma_cover_rows_bounds(t, p3);
        }
        None => {}
    }
}

/// Parses one gate declaration.
pub fn parse_logic_gate(s: &str, pos: usize) -> (r: Result<(LogicGate, usize), ParseError>)
    requires
        pos as int <= s@.len(),
    ensures
        match spec_parse_logic_gate(s@, pos as int) {
            Some(v) => r matches Ok(o) && o.0@ == v.0 && o.1 as int == v.1 && o.1 <= s@.len(),
            None => r == Err::<(LogicGate, usize), ParseError>(
                ParseError { pos, rule: GrammarRule::LogicGate },
            ),
        },
{
    let ghost t = s@;
    let n = s.unicode_len();
    let ((inputs, output), p2) = match parse_names(s, pos) {
        Ok(o) => o,
        Err(_) => {
            return Err(ParseError { pos, rule: GrammarRule::LogicGate });
        }
    };
    let p3 = if p2 < n && s.get_char(p2) == '\n' {
        p2 + 1
    } else {
        p2
    };
    let mut rows: Vec<(Vec<InputValue>, InputValue)> = Vec::new();
    let mut p = p3;
    proof {
        assert(rows@.map_values(|x: (Vec<InputValue>, InputValue)| (x.0@, x.1)) =~= Seq::<
            (Seq<InputValue>, InputValue),
        >::empty());
    }
    loop
        invariant
            p3 <= p,
            p as int <= t.len(),
            t == s@,
            n == t.len(),
            spec_parse_cover_rows(t, p3 as int).0 == rows@.map_values(
                |x: (Vec<InputValue>, InputValue)| (x.0@, x.1),
            ) + spec_parse_cover_rows(t, p as int).0,
            spec_parse_cover_rows(t, p3 as int).1 == spec_parse_cover_rows(t, p as int).1,
        ensures
            p as int == spec_parse_cover_rows(t, p3 as int).1,
            rows@.map_values(|x: (Vec<InputValue>, InputValue)| (x.0@, x.1))
                == spec_parse_cover_rows(t, p3 as int).0,
            p3 <= p <= t.len(),
        decreases t.len() - p,
    {
        let ghost rows_before = rows@;
        let row_np = match parse_single_output_cover(s, p) {
            Ok(o) => o,
            Err(_) => {
                proof {
                    assert(spec_parse_cover_rows(t, p as int).0 =~= Seq::<
                        (Seq<InputValue>, InputValue),
                    >::empty());
                    assert(rows@.map_values(|x: (Vec<InputValue>, InputValue)| (x.0@, x.1))
                        + Seq::<(Seq<InputValue>, InputValue)>::empty() =~= rows@.map_values(
                        |x: (Vec<InputValue>, InputValue)| (x.0@, x.1),
                    ));
                }
                break;
            }
        };
        let (row, np) = row_np;
        if np < n && s.get_char(np) == '\n' {
            proof {
                lemma_cover_row_bounds(t, p as int);
                let ghost row_view = (row.0@, row.1);
                assert(spec_parse_cover_rows(t, p as int).0 == seq![row_view]
                    + spec_parse_cover_rows(t, np as int + 1).0);
                assert(rows_before.map_values(|x: (Vec<InputValue>, InputValue)| (x.0@, x.1))
                    + (seq![row_view] + spec_parse_cover_rows(t, np as int + 1).0)
                    =~= rows_before.push(row).map_values(
                    |x: (Vec<InputValue>, InputValue)| (x.0@, x.1),
                ) + spec_parse_cover_rows(t, np as int + 1).0);
            }
            rows.push(row);
            p = np + 1;
        } else {
            proof {
                assert(spec_parse_cover_rows(t, p as int).0 =~= Seq::<
                    (Seq<InputValue>, InputValue),
                >::empty());
                assert(rows@.map_values(|x: (Vec<InputValue>, InputValue)| (x.0@, x.1)) + Seq::<
                    (Seq<InputValue>, InputValue),
                >::empty() =~= rows@.map_values(|x: (Vec<InputValue>, InputValue)| (x.0@, x.1)));
            }
            break;
        }
    }
    let gate = LogicGate { inputs, output, single_output_cover: rows };
    proof {
        let v = spec_parse_logic_gate(t, pos as int).unwrap();
        assert(gate@ =~~= v.0);
    }
    Ok((gate, p))
}


// ------------------------------------------------------------------
// Model blocks
// ------------------------------------------------------------------

/// The keyword opening a model block.
pub open spec fn model_tag() -> Seq<char> {
    ".model"@
}

/// The keyword opening the declared-inputs line.
pub open spec fn inputs_tag() -> Seq<char> {
    ".inputs"@
}

/// The keyword opening the declared-outputs line.
pub open spec fn outputs_tag() -> Seq<char> {
    ".outputs"@
}

/// The keyword closing a model block.
pub open spec fn end_tag() -> Seq<char> {
    ".end"@
}

/// A `.model` line: the keyword, mandatory whitespace, the model's name,
/// then a newline.
pub open spec fn spec_parse_model_name(t: Seq<char>, pos: int) -> Option<(Seq<char>, int)> {
    if spec_match_tag(t, pos, model_tag()) {
        match spec_space1(t, pos + model_tag().len()) {
            Some(p1) => match spec_parse_name(t, p1) {
                Some((name, p2)) => if p2 < t.len() && t[p2] == '\n' {
                    Some((name, p2 + 1))
                } else {
                    None
                },
                None => None,
            },
            None => None,
        }
    } else {
        None
    }
}

pub proof fn lemma_parse_model_name_bounds(t: Seq<char>, pos: int)
    requires
        0 <= pos <= t.len(),
    ensures
        spec_parse_model_name(t, pos) matches Some(v) ==> pos < v.1 <= t.len(),
{
    if spec_match_tag(t, pos, model_tag()) {
        let q = pos + model_tag().len();
        lemma_space1_bounds(t, q);
        match spec_space1(t, q) {
            Some(p1) => {
                lemma_parse_name_bounds(t, p1);
            }
            None => {}
        }
    }
}

/// A declaration list: one or more names ended by a newline.
pub open spec fn spec_parse_decl_list(t: Seq<char>, pos: int) -> Option<(Seq<Seq<char>>, int)> {
    let (names, p2) = spec_parse_name_list(t, pos);
    if names.len() >= 1 && p2 < t.len() && t[p2] == '\n' {
        Some((names, p2 + 1))
    } else {
        None
    }
}

pub proof fn lemma_parse_decl_list_bounds(t: Seq<char>, pos: int)
    requires
        0 <= pos <= t.len(),
    ensures
        spec_parse_decl_list(t, pos) matches Some(v) ==> pos < v.1 <= t.len(),
{
    lemma_name_list_bounds(t, pos);
}

/// An `.inputs` line: the keyword, mandatory whitespace, a declaration list.
pub open spec fn spec_parse_model_inputs(t: Seq<char>, pos: int) -> Option<(Seq<Seq<char>>, int)> {
    if spec_match_tag(t, pos, inputs_tag()) {
        match spec_space1(t, pos + inputs_tag().len()) {
            Some(p1) => spec_parse_decl_list(t, p1),
            None => None,
        }
    } else {
        None
    }
}

pub proof fn lemma_parse_model_inputs_bounds(t: Seq<char>, pos: int)
    requires
        0 <= pos <= t.len(),
    ensures
        spec_parse_model_inputs(t, pos) matches Some(v) ==> pos < v.1 <= t.len(),
{
    if spec_match_tag(t, pos, inputs_tag()) {
        let q = pos + inputs_tag().len();
        lemma_space1_bounds(t, q);
        match spec_space1(t, q) {
            Some(p1) => {
                lemma_parse_decl_list_bounds(t, p1);
            }
            None => {}
        }
    }
}

/// An `.outputs` line: the keyword, mandatory whitespace, a declaration list.
pub open spec fn spec_parse_model_outputs(t: Seq<char>, pos: int) -> Option<
    (Seq<Seq<char>>, int),
> {
    if spec_match_tag(t, pos, outputs_tag()) {
        match spec_space1(t, pos + outputs_tag().len()) {
            Some(p1) => spec_parse_decl_list(t, p1),
            None => None,
        }
    } else {
        None
    }
}

pub proof fn lemma_parse_model_outputs_bounds(t: Seq<char>, pos: int)
    requires
        0 <= pos <= t.len(),
    ensures
        spec_parse_model_outputs(t, pos) matches Some(v) ==> pos < v.1 <= t.len(),
{
    if spec_match_tag(t, pos, outputs_tag()) {
        let q = pos + outputs_tag().len();
        lemma_space1_bounds(t, q);
        match spec_space1(t, q) {
            Some(p1) => {
                lemma_parse_decl_list_bounds(t, p1);
            }
            None => {}
        }
    }
}

/// A greedy run of gate declarations.
pub open spec fn spec_parse_gates(t: Seq<char>, pos: int) -> (Seq<GateView>, int)
    decreases t.len() - pos,
    when 0 <= pos <= t.len()
    via spec_parse_gates_decreases
{
    match spec_parse_logic_gate(t, pos) {
        Some((g, p2)) => {
            let (rest, p3) = spec_parse_gates(t, p2);
            (seq![g] + rest, p3)
        }
        None => (Seq::empty(), pos),
    }
}

#[via_fn]
proof fn spec_parse_gates_decreases(t: Seq<char>, pos: int) {
    lemma_parse_logic_gate_bounds(t, pos);
}

pub proof fn lemma_parse_gates_bounds(t: Seq<char>, pos: int)
    requires
        0 <= pos <= t.len(),
    ensures
        pos <= spec_parse_gates(t, pos).1 <= t.len(),
    decreases t.len() - pos,
{
    lemma_parse_logic_gate_bounds(t, pos);
    match spec_parse_logic_gate(t, pos) {
        Some((g, p2)) => {
            lemma_parse_gates_bounds(t, p2);
        }
        None => {}
    }
}

/// A model block, as a fixed sequence: header line, inputs line, outputs
/// line, zero or more gates, terminator line — no reordering is attempted.
pub open spec fn spec_parse_model(t: Seq<char>, pos: int) -> Option<(ModelView, int)> {
    match spec_parse_model_name(t, pos) {
        Some((name, p1)) => match spec_parse_model_inputs(t, p1) {
            Some((inputs, p2)) => match spec_parse_model_outputs(t, p2) {
                Some((outputs, p3)) => {
                    let (gates, p4) = spec_parse_gates(t, p3);
                    let p5 = p4 + end_tag().len();
                    if spec_match_tag(t, p4, end_tag()) && p5 < t.len() && t[p5] == '\n' {
                        Some((ModelView { name, inputs, outputs, gates }, p5 + 1))
                    } else {
                        None
                    }
                }
                None => None,
            },
            None => None,
        },
        None => None,
    }
}

pub proof fn lemma_parse_model_bounds(t: Seq<char>, pos: int)
    requires
        0 <= pos <= t.len(),
    ensures
        spec_parse_model(t, pos) matches Some(v) ==> pos < v.1 <= t.len(),
{
    lemma_parse_model_name_bounds(t, pos);
    match spec_parse_model_name(t, pos) {
        Some((name, p1)) => {
            lemma_parse_model_inputs_bounds(t, p1);
            match spec_parse_model_inputs(t, p1) {
                Some((inputs, p2)) => {
                    lemma_parse_model_outputs_bounds(t, p2);
                    match spec_parse_model_outputs(t, p2) {
                        Some((outputs, p3)) => {
                            lemma_parse_gates_bounds(t, p3);
                        }
                        None => {}
                    }
                }
                None => {}
            }
        }
        None => {}
    }
}

/// A greedy run of model blocks.
pub open spec fn spec_parse_models(t: Seq<char>, pos: int) -> (Seq<ModelView>, int)
    decreases t.len() - pos,
    when 0 <= pos <= t.len()
    via spec_parse_models_decreases
{
    match spec_parse_model(t, pos) {
        Some((m, p2)) => {
            let (rest, p3) = spec_parse_models(t, p2);
            (seq![m] + rest, p3)
        }
        None => (Seq::empty(), pos),
    }
}

#[via_fn]
proof fn spec_parse_models_decreases(t: Seq<char>, pos: int) {
    lemma_parse_model_bounds(t, pos);
}

/// The whole document: one or more model blocks, parsed greedily from the
/// start; text after the last parsable block is ignored. A document with no
/// parsable block at all is rejected.
pub open spec fn spec_parse_blif(t: Seq<char>) -> Option<Seq<ModelView>> {
    let (models, p) = spec_parse_models(t, 0);
    if models.len() >= 1 {
        Some(models)
    } else {
        None
    }
}

/// Shape invariant of a whole parse result: every model's gates respect the
/// cover-width invariant.
pub open spec fn models_covers_wf(models: Seq<ModelView>) -> bool {
    forall|i: int| 0 <= i < models.len() ==> model_covers_wf(#[trigger] models[i])
}

// ------------------------------------------------------------------
// Executable model parsers
// ------------------------------------------------------------------

/// Parses a `.model` header line into the model's name.
fn parse_model_name(s: &str, pos: usize) -> (r: Result<(String, usize), ParseError>)
    requires
        pos as int <= s@.len(),
    ensures
        match spec_parse_model_name(s@, pos as int) {
            Some(v) => r matches Ok(o) && o.0@ == v.0 && o.1 as int == v.1 && o.1 <= s@.len(),
            None => r is Err,
        },
{
    let err = ParseError { pos, rule: GrammarRule::ModelName };
    if !tag_at(s, pos, ".model") {
        return Err(err);
    }
    proof {
        reveal_strlit(".model");
    }
    let n = s.unicode_len();
    let p1 = match parse_space1(s, pos + 6) {
        Some(p) => p,
        None => {
            return Err(err);
        }
    };
    let (name, p2) = match parse_name(s, p1) {
        Ok(o) => o,
        Err(_) => {
            return Err(err);
        }
    };
    if p2 < n && s.get_char(p2) == '\n' {
        Ok((name, p2 + 1))
    } else {
        Err(err)
    }
}

/// Parses a declaration list: one or more names ended by a newline.
fn parse_decl_list(s: &str, pos: usize) -> (r: Result<(Vec<String>, usize), ParseError>)
    requires
        pos as int <= s@.len(),
    ensures
        match spec_parse_decl_list(s@, pos as int) {
            Some(v) => r matches Ok(o) && o.0@.map_values(|x: String| x@) == v.0 && o.1 as int
                == v.1 && o.1 <= s@.len(),
            None => r is Err,
        },
{
    let n = s.unicode_len();
    let (names, p2) = parse_name_list(s, pos);
    if names.len() == 0 {
        return Err(ParseError { pos, rule: GrammarRule::DeclList });
    }
    if p2 < n && s.get_char(p2) == '\n' {
        Ok((names, p2 + 1))
    } else {
        Err(ParseError { pos, rule: GrammarRule::DeclList })
    }
}

/// Parses an `.inputs` line.
fn parse_model_inputs(s: &str, pos: usize) -> (r: Result<(Vec<String>, usize), ParseError>)
    requires
        pos as int <= s@.len(),
    ensures
        match spec_parse_model_inputs(s@, pos as int) {
            Some(v) => r matches Ok(o) && o.0@.map_values(|x: String| x@) == v.0 && o.1 as int
                == v.1 && o.1 <= s@.len(),
            None => r is Err,
        },
{
    let err = ParseError { pos, rule: GrammarRule::ModelInputs };
    if !tag_at(s, pos, ".inputs") {
        return Err(err);
    }
    proof {
        reveal_strlit(".inputs");
    }
    let n = s.unicode_len();
    let p1 = match parse_space1(s, pos + 7) {
        Some(p) => p,
        None => {
            return Err(err);
        }
    };
    parse_decl_list(s, p1)
}

/// Parses an `.outputs` line.
fn parse_model_outputs(s: &str, pos: usize) -> (r: Result<(Vec<String>, usize), ParseError>)
    requires
        pos as int <= s@.len(),
    ensures
        match spec_parse_model_outputs(s@, pos as int) {
            Some(v) => r matches Ok(o) && o.0@.map_values(|x: String| x@) == v.0 && o.1 as int
                == v.1 && o.1 <= s@.len(),
            None => r is Err,
        },
{
    let err = ParseError { pos, rule: GrammarRule::ModelOutputs };
    if !tag_at(s, pos, ".outputs") {
        return Err(err);
    }
    proof {
        reveal_strlit(".outputs");
    }
    let n = s.unicode_len();
    let p1 = match parse_space1(s, pos + 8) {
        Some(p) => p,
        None => {
            return Err(err);
        }
    };
    parse_decl_list(s, p1)
}

/// Parses one model block.
pub fn parse_model(s: &str, pos: usize) -> (r: Result<(Model, usize), ParseError>)
    requires
        pos as int <= s@.len(),
    ensures
        match spec_parse_model(s@, pos as int) {
            Some(v) => r matches Ok(o) && o.0@ == v.0 && o.1 as int == v.1 && o.1 <= s@.len(),
            None => r == Err::<(Model, usize), ParseError>(
                ParseError { pos, rule: GrammarRule::Model },
            ),
        },
{
    let ghost t = s@;
    let err = ParseError { pos, rule: GrammarRule::Model };
    let (name, p1) = match parse_model_name(s, pos) {
        Ok(o) => o,
        Err(_) => {
            return Err(err);
        }
    };
    let (inputs, p2) = match parse_model_inputs(s, p1) {
        Ok(o) => o,
        Err(_) => {
            return Err(err);
        }
    };
    let (outputs, p3) = match parse_model_outputs(s, p2) {
        Ok(o) => o,
        Err(_) => {
            return Err(err);
        }
    };
    let mut gates: Vec<LogicGate> = Vec::new();
    let mut p = p3;
    proof {
        assert(gates@.map_values(|g: LogicGate| g@) =~= Seq::<GateView>::empty());
    }
    loop
        invariant
            p3 <= p,
            p as int <= t.len(),
            t == s@,
            spec_parse_gates(t, p3 as int).0 == gates@.map_values(|g: LogicGate| g@)
                + spec_parse_gates(t, p as int).0,
            spec_parse_gates(t, p3 as int).1 == spec_parse_gates(t, p as int).1,
        ensures
            p as int == spec_parse_gates(t, p3 as int).1,
            gates@.map_values(|g: LogicGate| g@) == spec_parse_gates(t, p3 as int).0,
            p3 <= p <= t.len(),
        decreases t.len() - p,
    {
        let ghost gates_before = gates@;
        match parse_logic_gate(s, p) {
            Ok((g, np)) => {
                proof {
                    lemma_parse_logic_gate_bounds(t, p as int);
                    let gv = spec_parse_logic_gate(t, p as int).unwrap().0;
                    assert(spec_parse_gates(t, p as int).0 == seq![gv] + spec_parse_gates(
                        t,
                        np as int,
                    ).0);
                    assert(gates_before.map_values(|x: LogicGate| x@) + (seq![gv]
                        + spec_parse_gates(t, np as int).0) =~= gates_before.push(g).map_values(
                        |x: LogicGate| x@,
                    ) + spec_parse_gates(t, np as int).0);
                }
                gates.push(g);
                p = np;
            }
            Err(_) => {
                proof {
                    assert(spec_parse_gates(t, p as int).0 =~= Seq::<GateView>::empty());
                    assert(gates@.map_values(|g: LogicGate| g@) + Seq::<GateView>::empty()
                        =~= gates@.map_values(|g: LogicGate| g@));
                }
                break;
            }
        }
    }
    if !tag_at(s, p, ".end") {
        return Err(err);
    }
    proof {
        reveal_strlit(".end");
    }
    let n = s.unicode_len();
    let p5 = p + 4;
    if p5 == n || s.get_char(p5) != '\n' {
        return Err(err);
    }
    let model = Model::new(name, inputs, outputs, gates);
    proof {
        let v = spec_parse_model(t, pos as int).unwrap();
        assert(model@ =~~= v.0);
    }
    Ok((model, p5 + 1))
}

/// Parses a whole document into a netlist. Returns the netlist exactly when
/// the text opens with at least one grammatical model block and every parsed
/// gate satisfies the cover-width invariant; a grammar violation yields a
/// `ParseError`, a width violation a `GateConstructionError`.
pub fn parse(input: &str) -> (r: Result<Blif, BlifError>)
    ensures
        match spec_parse_blif(input@) {
            Some(models) => {
                &&& models_covers_wf(models) ==> (r matches Ok(b) && b@.models == models)
                &&& !models_covers_wf(models) ==> (r matches Err(e) && e matches
                    BlifError::GateConstruction(ge) && (ge matches
                    GateConstructionError::CoverWidth { expected, found } && found != expected
                        && exists|i: int|
                        0 <= i < models.len() && gate_width_mismatch(
                            #[trigger] models[i],
                            expected as nat,
                            found as nat,
                        )))
            },
            None => r == Err::<Blif, BlifError>(
                BlifError::Parse(ParseError { pos: 0, rule: GrammarRule::Document }),
            ),
        },
{
    let ghost t = input@;
    let n = input.unicode_len();
    let mut models: Vec<Model> = Vec::new();
    let mut p: usize = 0;
    proof {
        assert(models@.map_values(|m: Model| m@) =~= Seq::<ModelView>::empty());
    }
    loop
        invariant
            p as int <= t.len(),
            t == input@,
            spec_parse_models(t, 0).0 == models@.map_values(|m: Model| m@) + spec_parse_models(
                t,
                p as int,
            ).0,
            spec_parse_models(t, 0).1 == spec_parse_models(t, p as int).1,
        ensures
            models@.map_values(|m: Model| m@) == spec_parse_models(t, 0).0,
        decreases t.len() - p,
    {
        let ghost models_before = models@;
        match parse_model(input, p) {
            Ok((m, np)) => {
                proof {
                    lemma_parse_model_bounds(t, p as int);
                    let mv = spec_parse_model(t, p as int).unwrap().0;
                    assert(spec_parse_models(t, p as int).0 == seq![mv] + spec_parse_models(
                        t,
                        np as int,
                    ).0);
                    assert(models_before.map_values(|x: Model| x@) + (seq![mv]
                        + spec_parse_models(t, np as int).0) =~= models_before.push(m).map_values(
                        |x: Model| x@,
                    ) + spec_parse_models(t, np as int).0);
                }
                models.push(m);
                p = np;
            }
            Err(_) => {
                proof {
                    assert(spec_parse_models(t, p as int).0 =~= Seq::<ModelView>::empty());
                    assert(models@.map_values(|m: Model| m@) + Seq::<ModelView>::empty()
                        =~= models@.map_values(|m: Model| m@));
                }
                break;
            }
        }
    }
    if models.len() == 0 {
        return Err(BlifError::Parse(ParseError { pos: 0, rule: GrammarRule::Document }));
    }
    let ghost parsed = spec_parse_blif(t).unwrap();
    proof {
        assert(parsed == models@.map_values(|m: Model| m@));
    }
    let nm = models.len();
    let mut i: usize = 0;
    while i < nm
        invariant
            i <= nm,
            nm == models@.len(),
            parsed == models@.map_values(|m: Model| m@),
            t == input@,
            spec_parse_blif(t) == Some(parsed),
            forall|a: int| 0 <= a < i ==> model_covers_wf(#[trigger] parsed[a]),
        decreases nm - i,
    {
        match models[i].check_gate_widths() {
            Ok(()) => {}
            Err(e) => {
                proof {
                    assert(parsed[i as int] == models@[i as int]@);
                    assert(!models_covers_wf(parsed));
                }
                return Err(BlifError::GateConstruction(e));
            }
        }
        proof {
            assert(parsed[i as int] == models@[i as int]@);
        }
        i += 1;
    }
    proof {
        assert(models_covers_wf(parsed));
    }
    Ok(Blif::new(models))
}

} // verus!
