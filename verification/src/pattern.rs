//! Rule strings and glob patterns.
//!
//! A raw rule string with a leading `!` is a delete rule over the remainder;
//! any other string is a keep rule over the whole string. Patterns are glob
//! expressions matched against a path's `/`-joined segments; the matching
//! itself is done by the `glob` crate behind trusted wrappers.

use vstd::prelude::*;
use vstd::string::StrSliceExecFns;

verus! {

/// One parsed rule: a glob pattern tagged with whether matching paths are to
/// be kept or deleted.
#[derive(Debug, Clone)]
pub enum FileRule {
    Keep(String),
    Delete(String),
}

/// The model of a parsed rule: its tag and its pattern text.
pub ghost struct RuleV {
    pub keep: bool,
    pub pattern: Seq<char>,
}

impl FileRule {
    /// Whether this is a keep rule.
    pub open spec fn is_keep(&self) -> bool {
        match self {
            FileRule::Keep(_) => true,
            FileRule::Delete(_) => false,
        }
    }

    /// The pattern text of this rule.
    pub open spec fn pattern_view(&self) -> Seq<char> {
        match self {
            FileRule::Keep(p) => p@,
            FileRule::Delete(p) => p@,
        }
    }
}

impl View for FileRule {
    type V = RuleV;

    open spec fn view(&self) -> RuleV {
        RuleV { keep: self.is_keep(), pattern: self.pattern_view() }
    }
}

impl DeepView for FileRule {
    type V = RuleV;

    open spec fn deep_view(&self) -> RuleV {
        self.view()
    }
}

/// A raw rule string denotes a delete rule exactly when it starts with `!`.
pub open spec fn spec_is_delete(s: Seq<char>) -> bool {
    s.len() > 0 && s[0] == '!'
}

/// The pattern text denoted by a raw rule string: everything after a leading
/// `!`, or the whole string.
pub open spec fn spec_rule_pattern(s: Seq<char>) -> Seq<char> {
    if spec_is_delete(s) {
        s.skip(1)
    } else {
        s
    }
}

/// The rules denoted by a list of raw rule strings, converted independently.
pub open spec fn rules_of_texts(texts: Seq<Seq<char>>) -> Seq<RuleV> {
    texts.map(|i: int, t: Seq<char>| RuleV { keep: !spec_is_delete(t), pattern: spec_rule_pattern(t) })
}

/// Whether `glob::Pattern::new` accepts this pattern text.
pub uninterp spec fn glob_pattern_valid(pattern: Seq<char>) -> bool;

/// Whether the compiled pattern matches the `/`-joined segments of a path.
pub uninterp spec fn glob_seg_matches(pattern: Seq<char>, path: Seq<Seq<char>>) -> bool;

/// Relies on `glob::Pattern::new`: whether compiling succeeds depends on the
/// pattern text alone.
#[verifier::external_body]
fn glob_pattern_ok(pattern: &String) -> (r: bool)
    ensures
        r == glob_pattern_valid(pattern@),
{
    glob::Pattern::new(pattern).is_ok()
}

/// Relies on `glob::Pattern::new` and `glob::Pattern::matches`: whether the
/// pattern matches the `/`-joined segments depends on the pattern text and
/// the segments alone; a pattern that does not compile matches nothing.
#[verifier::external_body]
fn glob_match_segments(pattern: &String, segs: &Vec<String>) -> (r: bool)
    ensures
        r == glob_seg_matches(pattern@, segs.deep_view()),
{
    let joined = segs.join("/");
    match glob::Pattern::new(pattern) {
        Ok(p) => p.matches(&joined),
        Err(_) => false,
    }
}

/// A malformed glob pattern in a rule list: a fatal configuration error,
/// raised at parse time, before anything is classified or deleted.
#[derive(Debug, Clone)]
pub struct BadPatternError {
    /// Index of the offending rule string in the raw list.
    pub index: usize,
    /// The pattern text that failed to compile.
    pub pattern: String,
}

/// Whether every raw rule string of the list carries a valid glob pattern.
pub open spec fn all_rule_texts_valid(texts: Seq<Seq<char>>) -> bool {
    forall|i: int| 0 <= i < texts.len() ==> glob_pattern_valid(spec_rule_pattern(#[trigger] texts[i]))
}

/// Converts each raw rule string independently: a leading `!` makes a delete
/// rule of the remainder, anything else a keep rule of the whole string. A
/// pattern that does not compile is a fatal configuration error naming the
/// first offending rule.
pub fn parse_file_rules(raw: &Vec<String>) -> (r: Result<Vec<FileRule>, BadPatternError>)
    ensures
        r is Ok <==> all_rule_texts_valid(raw.deep_view()),
        r matches Ok(rules) ==> rules.deep_view() == rules_of_texts(raw.deep_view()),
        r matches Err(e) ==> {
            &&& e.index < raw@.len()
            &&& !glob_pattern_valid(spec_rule_pattern(raw.deep_view()[e.index as int]))
            &&& forall|i: int|
                0 <= i < e.index ==> glob_pattern_valid(
                    spec_rule_pattern(#[trigger] raw.deep_view()[i]),
                )
            &&& e.pattern@ == spec_rule_pattern(raw.deep_view()[e.index as int])
        },
{
    let mut rules: Vec<FileRule> = Vec::new();
    let mut i: usize = 0;
    while i < raw.len()
        invariant
            i <= raw@.len(),
            rules@.len() == i,
            forall|k: int|
                0 <= k < i ==> #[trigger] rules@[k]@ == rules_of_texts(raw.deep_view())[k],
            forall|k: int|
                0 <= k < i ==> glob_pattern_valid(spec_rule_pattern(#[trigger] raw.deep_view()[k])),
        decreases raw@.len() - i,
    {
        let s = &raw[i];
        let n = s.as_str().unicode_len();
        let is_delete = n > 0 && s.as_str().get_char(0) == '!';
        let pattern: String = if is_delete {
            s.as_str().substring_char(1, n).to_owned()
        } else {
            s.clone()
        };
        assert(pattern@ == spec_rule_pattern(raw.deep_view()[i as int]));
        if !glob_pattern_ok(&pattern) {
            return Err(BadPatternError { index: i, pattern });
        }
        if is_delete {
            rules.push(FileRule::Delete(pattern));
        } else {
            rules.push(FileRule::Keep(pattern));
        }
        i += 1;
    }
    proof {
        assert(rules.deep_view() =~= rules_of_texts(raw.deep_view()));
    }
    Ok(rules)
}

/// Decides whether one rule's pattern matches a path's segments.
pub fn rule_matches(rule: &FileRule, segs: &Vec<String>) -> (r: bool)
    ensures
        r == glob_seg_matches(rule.pattern_view(), segs.deep_view()),
{
    match rule {
        FileRule::Keep(p) => glob_match_segments(p, segs),
        FileRule::Delete(p) => glob_match_segments(p, segs),
    }
}

} // verus!
