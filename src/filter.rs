//! Include/exclude rules that select the files to hash: one regular
//! expression per rule, the first matching rule deciding.

use vstd::prelude::*;

use crate::error::{Error, Errors};
use crate::merge::{split_text_lines, texts};
use crate::pattern::{regex_compiles, regex_matches, Pattern};
use crate::store::lines_of;
use crate::target::{nfc, nfc_of};
use crate::text::{chars_of, decimal, join, join_path, push_decimal, push_str, string_of, trim, trimmed};

verus! {

/// The name of the rule file in the configuration folder.
pub const FILTER_CONF_NAME: &'static str = "filter.conf";

/// How a rule judges a path.
#[derive(Clone, Copy, Debug, PartialEq, Eq, Structural)]
pub enum FilterMatch {
    INCLUDE,
    EXCLUDE,
    MISMATCHED,
}

/// One rule: a pattern, and whether a path it matches is included.
pub struct Filter {
    pattern: Pattern,
    inclusive: bool,
}

/// A rule as the contracts see it: its pattern and whether it includes.
pub type RuleView = (Seq<char>, bool);

impl Filter {
    pub closed spec fn rule(&self) -> RuleView {
        (self.pattern.source(), self.inclusive)
    }

    /// How this rule judges `filepath`.
    pub fn matches(&self, filepath: &str) -> (r: FilterMatch)
        ensures
            r == if regex_matches(self.rule().0, filepath@) {
                if self.rule().1 {
                    FilterMatch::INCLUDE
                } else {
                    FilterMatch::EXCLUDE
                }
            } else {
                FilterMatch::MISMATCHED
            },
    {
        if self.pattern.is_match(filepath) {
            if self.inclusive {
                FilterMatch::INCLUDE
            } else {
                FilterMatch::EXCLUDE
            }
        } else {
            FilterMatch::MISMATCHED
        }
    }
}

/// Whether the rules `rs`, tried in order, include `path`: the first rule
/// that matches decides; where none does, the path is left out.
pub open spec fn rules_include(rs: Seq<RuleView>, path: Seq<char>) -> bool
    decreases rs.len(),
{
    if rs.len() == 0 {
        false
    } else if regex_matches(rs[0].0, path) {
        rs[0].1
    } else {
        rules_include(rs.drop_first(), path)
    }
}

/// The rules, in the order of the rule file.
pub struct Filters {
    filters: Vec<Filter>,
}

impl Filters {
    pub closed spec fn rules(&self) -> Seq<RuleView> {
        self.filters@.map_values(|f: Filter| f.rule())
    }

    /// Whether the file at `filepath` is to be hashed: the rules judge the
    /// NFC form of the path.
    pub fn is_target(&self, filepath: &str) -> (r: bool)
        ensures
            r == rules_include(self.rules(), nfc_of(filepath@)),
    {
        let norm_path = nfc(filepath);
        let ghost rs = self.rules();
        let mut i: usize = 0;
        assert(rs.skip(0) == rs);
        while i < self.filters.len()
            invariant
                i <= self.filters.len(),
                rs == self.rules(),
                rs.len() == self.filters.len(),
                norm_path@ == nfc_of(filepath@),
                rules_include(rs, norm_path@) == rules_include(rs.skip(i as int), norm_path@),
            decreases self.filters.len() - i,
        {
            assert(rs[i as int] == self.filters@[i as int].rule());
            assert(rs.skip(i as int)[0] == rs[i as int]);
            assert(rs.skip(i as int).len() > 0);
            assert(rs.skip(i as int).drop_first() == rs.skip(i + 1));
            match self.filters[i].matches(norm_path.as_str()) {
                FilterMatch::MISMATCHED => {},
                FilterMatch::INCLUDE => {
                    assert(regex_matches(rs[i as int].0, norm_path@) && rs[i as int].1);
                    assert(rules_include(rs.skip(i as int), norm_path@));
                    return true;
                },
                FilterMatch::EXCLUDE => {
                    assert(regex_matches(rs[i as int].0, norm_path@) && !rs[i as int].1);
                    assert(!rules_include(rs.skip(i as int), norm_path@));
                    return false;
                },
            }
            i = i + 1;
        }
        assert(rs.skip(i as int).len() == 0);
        false
    }
}

/// The path of the rule file in `config_folder`.
pub fn filter_conf_filepath(config_folder: &str) -> (r: String)
    ensures
        r@ == join_path(config_folder@, FILTER_CONF_NAME@),
{
    join(config_folder, FILTER_CONF_NAME)
}

/// The text of the rule file, which must be well-formed UTF-8.
pub fn parse_utf8(bytes: Vec<u8>) -> (r: Result<String, Errors>)
    ensures
        r is Ok <==> vstd::utf8::valid_utf8(bytes@),
        r matches Ok(s) ==> s@ == vstd::utf8::decode_utf8(bytes@),
{
    match crate::store::decode_hash_file_contents(bytes) {
        Ok(s) => Ok(s),
        Err(_) => Err(Error::new("the filter configuration is not UTF-8 text").as_errors()),
    }
}

/// The rule file's text in NFC.
pub fn to_nfc(filter_conf: String) -> (r: String)
    ensures
        r@ == nfc_of(filter_conf@),
{
    nfc(filter_conf.as_str())
}

/// What one line of the rule file holds.
pub enum LineKind {
    /// A comment (`#` first) or a blank line.
    Nothing,
    /// A rule whose pattern compiles.
    Rule(RuleView),
    /// A line that is neither, with the reason.
    Invalid(Seq<char>),
}

/// The reading of one line of the rule file: a `#` comment, a blank line, or
/// `+` (include) or `-` (exclude) followed by a pattern, all after trimming.
pub open spec fn line_kind(line: Seq<char>) -> LineKind {
    let t = trimmed(line);
    if line.len() > 0 && line[0] == '#' {
        LineKind::Nothing
    } else if t.len() == 0 {
        LineKind::Nothing
    } else if t[0] != '+' && t[0] != '-' {
        LineKind::Invalid("the line starts with neither '+' nor '-'"@)
    } else if t.len() == 1 {
        LineKind::Invalid("the line has no pattern"@)
    } else if !regex_compiles(t.skip(1)) {
        LineKind::Invalid("the pattern is not a valid regular expression"@)
    } else {
        LineKind::Rule((t.skip(1), t[0] == '+'))
    }
}

/// Reads one line of the rule file.
pub fn parse_filter_conf_line(line: &str) -> (r: Result<Option<Filter>, &'static str>)
    ensures
        line_kind(line@) is Nothing ==> r == Ok::<Option<Filter>, &'static str>(None),
        line_kind(line@) matches LineKind::Rule(rv) ==> (r matches Ok(Some(f)) && f.rule() == rv),
        line_kind(line@) matches LineKind::Invalid(why) ==> (r matches Err(m) && m@ == why),
{
    let n = line.unicode_len();
    if n > 0 && line.get_char(0) == '#' {
        return Ok(None);
    }
    let t = trim(line);
    let cs = chars_of(t);
    if cs.len() == 0 {
        return Ok(None);
    }
    let first = cs[0];
    if first != '+' && first != '-' {
        return Err("the line starts with neither '+' nor '-'");
    }
    if cs.len() == 1 {
        return Err("the line has no pattern");
    }
    let mut rest: Vec<char> = Vec::new();
    let mut i: usize = 1;
    while i < cs.len()
        invariant
            1 <= i <= cs.len(),
            rest@ == cs@.subrange(1, i as int),
        decreases cs.len() - i,
    {
        rest.push(cs[i]);
        assert(cs@.subrange(1, i + 1) == cs@.subrange(1, i as int).push(cs@[i as int]));
        i = i + 1;
    }
    assert(rest@ == trimmed(line@).skip(1));
    let source = string_of(&rest);
    match Pattern::new(source.as_str()) {
        Some(pattern) => Ok(Some(Filter { pattern, inclusive: first == '+' })),
        None => Err("the pattern is not a valid regular expression"),
    }
}

/// The message that reports a malformed line `number` of the rule file.
pub open spec fn conf_error_message(number: nat, why: Seq<char>) -> Seq<char> {
    "malformed filter configuration: line "@ + decimal(number) + ": "@ + why
}

/// The rules of the lines `ls`, in order.
pub open spec fn rules_of(ls: Seq<Seq<char>>) -> Seq<RuleView>
    decreases ls.len(),
{
    if ls.len() == 0 {
        Seq::empty()
    } else {
        match line_kind(ls.last()) {
            LineKind::Rule(rv) => rules_of(ls.drop_last()).push(rv),
            _ => rules_of(ls.drop_last()),
        }
    }
}

/// The errors of the lines `ls`, in order, with 1-based line numbers.
pub open spec fn conf_errors(ls: Seq<Seq<char>>) -> Seq<Seq<char>>
    decreases ls.len(),
{
    if ls.len() == 0 {
        Seq::empty()
    } else {
        match line_kind(ls.last()) {
            LineKind::Invalid(why) => conf_errors(ls.drop_last()).push(
                conf_error_message(ls.len(), why),
            ),
            _ => conf_errors(ls.drop_last()),
        }
    }
}

/// Reads the rules of a rule file; every malformed line is reported.
pub fn parse_filter_conf(filter_conf: &str) -> (r: Result<Filters, Errors>)
    ensures
        r is Ok <==> conf_errors(lines_of(filter_conf@)).len() == 0,
        r matches Ok(fs) ==> fs.rules() == rules_of(lines_of(filter_conf@)),
        r matches Err(es) ==> es.len() == conf_errors(lines_of(filter_conf@)).len() && forall|i: int|
            0 <= i < es.len() ==> (#[trigger] es[i]).spec_message() == conf_errors(
                lines_of(filter_conf@),
            )[i],
{
    let lines = split_text_lines(filter_conf);
    let ghost ls = texts(lines@);
    let mut filters: Vec<Filter> = Vec::new();
    let mut errors: Errors = Vec::new();
    let mut i: usize = 0;
    assert(ls.take(0) =~= Seq::<Seq<char>>::empty());
    while i < lines.len()
        invariant
            i <= lines.len(),
            ls == texts(lines@),
            filters@.map_values(|f: Filter| f.rule()) == rules_of(ls.take(i as int)),
            errors.len() == conf_errors(ls.take(i as int)).len(),
            forall|k: int|
                0 <= k < errors.len() ==> (#[trigger] errors@[k]).spec_message() == conf_errors(
                    ls.take(i as int),
                )[k],
        decreases lines.len() - i,
    {
        assert(ls.take(i + 1).drop_last() == ls.take(i as int));
        assert(ls.take(i + 1).last() == lines@[i as int]@);
        assert(ls.take(i + 1).len() == i + 1);
        let ghost old_filters = filters@;
        let ghost old_errors = errors@;
        match parse_filter_conf_line(lines[i].as_str()) {
            Ok(Some(filter)) => {
                filters.push(filter);
                assert(filters@.map_values(|f: Filter| f.rule()) =~= old_filters.map_values(
                    |f: Filter| f.rule(),
                ).push(filters@[filters.len() - 1].rule()));
            },
            Ok(None) => {},
            Err(why) => {
                let mut message = String::new();
                push_str(&mut message, "malformed filter configuration: line ");
                push_decimal(&mut message, i as u128 + 1);
                push_str(&mut message, ": ");
                push_str(&mut message, why);
                errors.push(Error::new(message.as_str()));
                assert(message@ =~= conf_error_message((i + 1) as nat, why@));
            },
        }
        i = i + 1;
    }
    assert(ls.take(i as int) == ls);
    if errors.len() == 0 {
        Ok(Filters { filters })
    } else {
        Err(errors)
    }
}

/// The rules of a rule file given as bytes: UTF-8 text, taken in NFC.
pub fn load_filters(filter_conf_bytes: Vec<u8>) -> (r: Result<Filters, Errors>)
    ensures
        !vstd::utf8::valid_utf8(filter_conf_bytes@) ==> r is Err,
        vstd::utf8::valid_utf8(filter_conf_bytes@) ==> {
            let ls = lines_of(nfc_of(vstd::utf8::decode_utf8(filter_conf_bytes@)));
            &&& r is Ok <==> conf_errors(ls).len() == 0
            &&& r matches Ok(fs) ==> fs.rules() == rules_of(ls)
        },
{
    let filter_conf = parse_utf8(filter_conf_bytes)?;
    let filter_conf = to_nfc(filter_conf);
    parse_filter_conf(filter_conf.as_str())
}

} // verus!
