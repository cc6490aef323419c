//! The format of a tile-list line: a pattern in which the letters `z`, `x`
//! and `y` stand for the three numbers of a tile, and the rest is the text
//! of a regular expression around them.

use crate::text::{chars_of, replace, replace_all, string_of, text_of};
use vstd::prelude::*;

verus! {

#[verifier::external_type_specification]
#[verifier::external_body]
pub struct ExRegex(regex::Regex);

/// Whether `regex::Regex::new` accepts the pattern.
pub uninterp spec fn regex_accepts(pattern: Seq<char>) -> bool;

/// The pattern that a regular expression was compiled from: what
/// `regex::Regex::as_str` returns.
pub uninterp spec fn regex_source(re: &regex::Regex) -> Seq<char>;

/// What the regular expression `pattern` captures in `line`: nothing where
/// `regex::Regex::captures` finds no match; else, for the leftmost match,
/// the texts of the groups named `z`, `x` and `y`, each missing where the
/// pattern has no such group or the group took no part in the match.
pub uninterp spec fn regex_captures(pattern: Seq<char>, line: Seq<char>) -> Option<
    (Option<Seq<char>>, Option<Seq<char>>, Option<Seq<char>>),
>;

/// Why a tile-list format was refused.
#[derive(Debug, PartialEq, Eq)]
pub enum TileFormatError {
    /// The pattern is no regular expression.
    Syntax(String),
    /// The compiled pattern would exceed the size limit.
    TooBig(usize),
    /// The pattern was refused for another reason.
    Other,
}

/// The texts that a line gave for `z`, `x` and `y`.
#[derive(Debug, PartialEq, Eq)]
pub struct LineCaptures {
    pub z: Option<String>,
    pub x: Option<String>,
    pub y: Option<String>,
}

impl View for LineCaptures {
    type V = (Option<Seq<char>>, Option<Seq<char>>, Option<Seq<char>>);

    open spec fn view(&self) -> (Option<Seq<char>>, Option<Seq<char>>, Option<Seq<char>>) {
        (text_of(self.z), text_of(self.x), text_of(self.y))
    }
}

/// `regex::Regex::new`: whether it accepts a pattern depends on the pattern
/// alone, and where it does, the regular expression it returns was compiled
/// from that pattern.
#[verifier::external_body]
fn regex_new(pattern: &str) -> (r: Result<regex::Regex, TileFormatError>)
    ensures
        r is Ok <==> regex_accepts(pattern@),
        r matches Ok(re) ==> regex_source(&re) == pattern@,
{
    match regex::Regex::new(pattern) {
        Ok(re) => Ok(re),
        Err(regex::Error::Syntax(message)) => Err(TileFormatError::Syntax(message)),
        Err(regex::Error::CompiledTooBig(limit)) => Err(TileFormatError::TooBig(limit)),
        Err(_) => Err(TileFormatError::Other),
    }
}

/// `regex::Regex::captures`, and `regex::Captures::name` for the groups
/// `z`, `x` and `y`: the captures of the regular expression's pattern in
/// the line.
#[verifier::external_body]
fn regex_zxy(re: &regex::Regex, line: &str) -> (r: Option<LineCaptures>)
    ensures
        match r {
            Some(c) => regex_captures(regex_source(re), line@) == Some(c@),
            None => regex_captures(regex_source(re), line@) is None,
        },
{
    let caps = re.captures(line)?;
    Some(
        LineCaptures {
            z: caps.name("z").map(|m| m.as_str().to_string()),
            x: caps.name("x").map(|m| m.as_str().to_string()),
            y: caps.name("y").map(|m| m.as_str().to_string()),
        },
    )
}

/// The group that stands for one of the three letters: one or more digits,
/// captured under the letter's name.
pub open spec fn digits_group(name: char) -> Seq<char> {
    seq!['(', '?', '<', name, '>', '\\', 'd', '+', ')']
}

/// The regular expression of a format: the format with each `z`, then each
/// `x`, then each `y` replaced by its group, between `^` and `$`, so that
/// it matches whole lines only.
pub open spec fn line_pattern(format: Seq<char>) -> Seq<char> {
    let with_z = replace_all(format, seq!['z'], digits_group('z'));
    let with_x = replace_all(with_z, seq!['x'], digits_group('x'));
    let with_y = replace_all(with_x, seq!['y'], digits_group('y'));
    seq!['^'] + with_y + seq!['$']
}

/// A compiled tile-list format.
pub struct TileFormat {
    re: regex::Regex,
}

impl View for TileFormat {
    type V = Seq<char>;

    /// The pattern of the regular expression.
    closed spec fn view(&self) -> Seq<char> {
        regex_source(&self.re)
    }
}

impl TileFormat {
    /// What the format captures in a line.
    pub fn captures(&self, line: &str) -> (r: Option<LineCaptures>)
        ensures
            match r {
                Some(c) => regex_captures(self@, line@) == Some(c@),
                None => regex_captures(self@, line@) is None,
            },
    {
        regex_zxy(&self.re, line)
    }
}

/// The characters of the group for one letter.
fn digits_group_chars(name: char) -> (g: Vec<char>)
    ensures
        g@ == digits_group(name),
{
    let g: Vec<char> = vec!['(', '?', '<', name, '>', '\\', 'd', '+', ')'];
    assert(g@ =~= digits_group(name));
    g
}

/// The text of the regular expression of a format.
pub fn line_pattern_of(format: &str) -> (pattern: String)
    ensures
        pattern@ == line_pattern(format@),
{
    let text: Vec<char> = chars_of(format);
    let z: Vec<char> = vec!['z'];
    let x: Vec<char> = vec!['x'];
    let y: Vec<char> = vec!['y'];
    assert(z@ =~= seq!['z'] && x@ =~= seq!['x'] && y@ =~= seq!['y']);
    let with_z: Vec<char> = replace(&text, &z, &digits_group_chars('z'));
    let with_x: Vec<char> = replace(&with_z, &x, &digits_group_chars('x'));
    let with_y: Vec<char> = replace(&with_x, &y, &digits_group_chars('y'));
    let mut out: Vec<char> = Vec::new();
    out.push('^');
    let mut i: usize = 0;
    while i < with_y.len()
        invariant
            i <= with_y.len(),
            out@ == seq!['^'] + with_y@.take(i as int),
        decreases with_y.len() - i,
    {
        out.push(with_y[i]);
        assert(with_y@.take(i + 1) =~= with_y@.take(i as int).push(with_y@[i as int]));
        assert(out@ =~= seq!['^'] + with_y@.take(i + 1));
        i = i + 1;
    }
    out.push('$');
    assert(with_y@.take(i as int) =~= with_y@);
    assert(out@ =~= line_pattern(format@));
    string_of(&out)
}

/// Compiles a tile-list format: the format is accepted exactly when the
/// regular-expression engine accepts its pattern, and an accepted format
/// matches by that pattern.
pub fn compile_tile_format(format: &str) -> (r: Result<TileFormat, TileFormatError>)
    ensures
        r is Ok <==> regex_accepts(line_pattern(format@)),
        r matches Ok(f) ==> f@ == line_pattern(format@),
{
    let pattern: String = line_pattern_of(format);
    match regex_new(pattern.as_str()) {
        Ok(re) => Ok(TileFormat { re }),
        Err(e) => Err(e),
    }
}

} // verus!
