//! The style configuration: parser options, formatting options and
//! file-selection globs. A configuration is immutable for the duration
//! of a formatting pass; values outside their documented bounds are
//! rejected at validation time, before any formatting attempt.

use vstd::prelude::*;
use crate::error::RfmtError;
use crate::text::{dec_digits, u64_to_string};

verus! {

/// Indentation unit style.
#[derive(Debug, Clone, Copy, PartialEq, Eq, Structural)]
pub enum IndentStyle {
    Spaces,
    Tabs,
}

/// Preferred quote character for string literals.
#[derive(Debug, Clone, Copy, PartialEq, Eq, Structural)]
pub enum QuoteStyle {
    Double,
    Single,
    Consistent,
}

/// Preferred syntax for map/hash literal entries.
#[derive(Debug, Clone, Copy, PartialEq, Eq, Structural)]
pub enum HashSyntax {
    Ruby19,
    HashRockets,
    Consistent,
}

/// Trailing-comma policy for multi-element literals.
#[derive(Debug, Clone, Copy, PartialEq, Eq, Structural)]
pub enum TrailingComma {
    Always,
    Never,
    Multiline,
}

/// Style preferences nested under the formatting options.
#[derive(Debug, Clone, Copy, PartialEq, Eq, Structural)]
pub struct StyleConfig {
    pub quotes: QuoteStyle,
    pub hash_syntax: HashSyntax,
    pub trailing_comma: TrailingComma,
}

/// Formatting options proper.
#[derive(Debug, Clone, Copy, PartialEq, Eq, Structural)]
pub struct FormattingConfig {
    pub line_length: usize,
    pub indent_style: IndentStyle,
    pub indent_width: usize,
    pub quote_style: QuoteStyle,
    pub style: StyleConfig,
}

/// Parser options, passed through to the external parser.
#[derive(Debug)]
pub struct ParserConfig {
    pub version: String,
    pub error_tolerance: bool,
    pub encoding: String,
}

/// The complete configuration document.
#[derive(Debug)]
pub struct Config {
    pub version: String,
    pub parser: ParserConfig,
    pub formatting: FormattingConfig,
    pub include_globs: Vec<String>,
    pub exclude_globs: Vec<String>,
}

/// The documented default line width.
pub fn default_line_length() -> (r: usize)
    ensures
        r == 100,
{
    100
}

/// The documented default indentation width.
pub fn default_indent_width() -> (r: usize)
    ensures
        r == 2,
{
    2
}

impl Default for IndentStyle {
    fn default() -> (r: Self)
        ensures
            r == IndentStyle::Spaces,
    {
        IndentStyle::Spaces
    }
}

impl Default for QuoteStyle {
    fn default() -> (r: Self)
        ensures
            r == QuoteStyle::Double,
    {
        QuoteStyle::Double
    }
}

impl Default for HashSyntax {
    fn default() -> (r: Self)
        ensures
            r == HashSyntax::Ruby19,
    {
        HashSyntax::Ruby19
    }
}

impl Default for TrailingComma {
    fn default() -> (r: Self)
        ensures
            r == TrailingComma::Multiline,
    {
        TrailingComma::Multiline
    }
}

impl Default for StyleConfig {
    fn default() -> (r: Self)
        ensures
            r == (StyleConfig {
                quotes: QuoteStyle::Double,
                hash_syntax: HashSyntax::Ruby19,
                trailing_comma: TrailingComma::Multiline,
            }),
    {
        StyleConfig {
            quotes: QuoteStyle::Double,
            hash_syntax: HashSyntax::Ruby19,
            trailing_comma: TrailingComma::Multiline,
        }
    }
}

impl Default for FormattingConfig {
    fn default() -> (r: Self)
        ensures
            r == (FormattingConfig {
                line_length: 100usize,
                indent_style: IndentStyle::Spaces,
                indent_width: 2usize,
                quote_style: QuoteStyle::Double,
                style: StyleConfig {
                    quotes: QuoteStyle::Double,
                    hash_syntax: HashSyntax::Ruby19,
                    trailing_comma: TrailingComma::Multiline,
                },
            }),
    {
        FormattingConfig {
            line_length: 100,
            indent_style: IndentStyle::Spaces,
            indent_width: 2,
            quote_style: QuoteStyle::Double,
            style: StyleConfig::default(),
        }
    }
}

impl Default for ParserConfig {
    fn default() -> (r: Self)
        ensures
            r.version@ == "latest"@,
            r.error_tolerance == true,
            r.encoding@ == "UTF-8"@,
    {
        ParserConfig {
            version: "latest".to_owned(),
            error_tolerance: true,
            encoding: "UTF-8".to_owned(),
        }
    }
}

impl Default for Config {
    fn default() -> (r: Self)
        ensures
            r.version@ == "1.0"@,
            r.parser.version@ == "latest"@,
            r.parser.error_tolerance == true,
            r.parser.encoding@ == "UTF-8"@,
            r.formatting == (FormattingConfig {
                line_length: 100usize,
                indent_style: IndentStyle::Spaces,
                indent_width: 2usize,
                quote_style: QuoteStyle::Double,
                style: StyleConfig {
                    quotes: QuoteStyle::Double,
                    hash_syntax: HashSyntax::Ruby19,
                    trailing_comma: TrailingComma::Multiline,
                },
            }),
            r.include_globs@.len() == 2,
            r.include_globs@[0]@ == "**/*.rb"@,
            r.include_globs@[1]@ == "**/*.rake"@,
            r.exclude_globs@.len() == 3,
            r.exclude_globs@[0]@ == "vendor/**/*"@,
            r.exclude_globs@[1]@ == "tmp/**/*"@,
            r.exclude_globs@[2]@ == "node_modules/**/*"@,
    {
        let mut include_globs: Vec<String> = Vec::new();
        include_globs.push("**/*.rb".to_owned());
        include_globs.push("**/*.rake".to_owned());
        let mut exclude_globs: Vec<String> = Vec::new();
        exclude_globs.push("vendor/**/*".to_owned());
        exclude_globs.push("tmp/**/*".to_owned());
        exclude_globs.push("node_modules/**/*".to_owned());
        Config {
            version: "1.0".to_owned(),
            parser: ParserConfig::default(),
            formatting: FormattingConfig::default(),
            include_globs,
            exclude_globs,
        }
    }
}

/// Clones a list of glob strings, keeping order and contents.
fn clone_strings(v: &Vec<String>) -> (r: Vec<String>)
    ensures
        r@.map_values(|s: String| s@) == v@.map_values(|s: String| s@),
        r@.len() == v@.len(),
{
    let mut r: Vec<String> = Vec::new();
    let mut i: usize = 0;
    while i < v.len()
        invariant
            i <= v@.len(),
            r@.len() == i,
            forall|k: int| 0 <= k < i ==> (#[trigger] r@[k])@ == v@[k]@,
        decreases v@.len() - i,
    {
        r.push(v[i].clone());
        i = i + 1;
    }
    proof {
        assert(r@.map_values(|s: String| s@) =~= v@.map_values(|s: String| s@));
    }
    r
}

impl Clone for ParserConfig {
    /// A copy with the same option values.
    fn clone(&self) -> (r: Self)
        ensures
            r.version@ == self.version@,
            r.error_tolerance == self.error_tolerance,
            r.encoding@ == self.encoding@,
    {
        ParserConfig {
            version: self.version.clone(),
            error_tolerance: self.error_tolerance,
            encoding: self.encoding.clone(),
        }
    }
}

impl Clone for Config {
    /// A copy with the same option values, glob lists included.
    fn clone(&self) -> (r: Self)
        ensures
            r.version@ == self.version@,
            r.parser.version@ == self.parser.version@,
            r.parser.error_tolerance == self.parser.error_tolerance,
            r.parser.encoding@ == self.parser.encoding@,
            r.formatting == self.formatting,
            r.include_globs@.map_values(|s: String| s@) == self.include_globs@.map_values(
                |s: String| s@,
            ),
            r.exclude_globs@.map_values(|s: String| s@) == self.exclude_globs@.map_values(
                |s: String| s@,
            ),
            r.include_globs@.len() == self.include_globs@.len(),
            r.exclude_globs@.len() == self.exclude_globs@.len(),
    {
        Config {
            version: self.version.clone(),
            parser: self.parser.clone(),
            formatting: self.formatting,
            include_globs: clone_strings(&self.include_globs),
            exclude_globs: clone_strings(&self.exclude_globs),
        }
    }
}

/// The line width bound: it must lie in `[40, 500]`.
pub open spec fn line_length_ok(n: int) -> bool {
    40 <= n <= 500
}

/// The indentation width bound: it must lie in `[1, 8]`.
pub open spec fn indent_width_ok(n: int) -> bool {
    1 <= n <= 8
}

/// A configuration whose bounded fields all lie within their bounds.
pub open spec fn config_valid(c: Config) -> bool {
    line_length_ok(c.formatting.line_length as int) && indent_width_ok(
        c.formatting.indent_width as int,
    )
}

/// The report for a line width outside its bounds.
pub open spec fn line_length_message(n: nat) -> Seq<char> {
    "line_length must be between 40 and 500, got "@ + dec_digits(n)
}

/// The report for an indentation width outside its bounds.
pub open spec fn indent_width_message(n: nat) -> Seq<char> {
    "indent_width must be between 1 and 8, got "@ + dec_digits(n)
}

/// The single report covering every violated bound in `c`, joined in
/// field order.
pub open spec fn config_error_message(c: Config) -> Seq<char> {
    if !line_length_ok(c.formatting.line_length as int) && !indent_width_ok(
        c.formatting.indent_width as int,
    ) {
        line_length_message(c.formatting.line_length as nat) + "; "@ + indent_width_message(
            c.formatting.indent_width as nat,
        )
    } else if !line_length_ok(c.formatting.line_length as int) {
        line_length_message(c.formatting.line_length as nat)
    } else {
        indent_width_message(c.formatting.indent_width as nat)
    }
}

impl Config {
    /// Checks every bounded field, reporting all violations in one
    /// `ConfigError` before any formatting attempt.
    pub fn validate(&self) -> (r: Result<(), RfmtError>)
        ensures
            r is Ok <==> config_valid(*self),
            r matches Err(e) ==> e matches RfmtError::ConfigError { message }
                && message@ == config_error_message(*self),
    {
        let ll = self.formatting.line_length;
        let iw = self.formatting.indent_width;
        let ll_ok = 40 <= ll && ll <= 500;
        let iw_ok = 1 <= iw && iw <= 8;
        if ll_ok && iw_ok {
            return Ok(());
        }
        if !ll_ok && !iw_ok {
            let mut message = line_length_report(ll);
            message.append("; ");
            message.append(indent_width_report(iw).as_str());
            Err(RfmtError::ConfigError { message })
        } else if !ll_ok {
            Err(RfmtError::ConfigError { message: line_length_report(ll) })
        } else {
            Err(RfmtError::ConfigError { message: indent_width_report(iw) })
        }
    }

    /// One unit of indentation under this configuration: a tab, or
    /// `indent_width` spaces.
    pub fn indent_string(&self) -> (r: String)
        ensures
            r@ == indent_unit(self.formatting.indent_style, self.formatting.indent_width as nat),
    {
        match self.formatting.indent_style {
            IndentStyle::Tabs => {
                let t = "\t".to_owned();
                proof {
                    reveal_strlit("\t");
                    assert(t@ =~= seq!['\t']);
                }
                t
            },
            IndentStyle::Spaces => {
                let mut s = String::new();
                let mut i: usize = 0;
                proof { assert(s@ =~= spaces(0)); }
                while i < self.formatting.indent_width
                    invariant
                        i <= self.formatting.indent_width,
                        s@ == spaces(i as nat),
                    decreases self.formatting.indent_width - i,
                {
                    s.append(" ");
                    i = i + 1;
                    proof {
                        reveal_strlit(" ");
                        assert(" "@ =~= seq![' ']);
                        assert(s@ =~= spaces(i as nat));
                    }
                }
                s
            },
        }
    }

    /// Whether `path` is selected: some include_globs glob matches it and no
    /// exclude_globs glob does.
    pub fn should_include(&self, path: &str) -> (r: bool)
        ensures
            r == path_selected(self.include_globs@.map_values(|s: String| s@),
                self.exclude_globs@.map_values(|s: String| s@), path@),
    {
        let mut included = false;
        let ghost inc = self.include_globs@.map_values(|s: String| s@);
        let mut i: usize = 0;
        while i < self.include_globs.len()
            invariant
                i <= self.include_globs@.len(),
                inc == self.include_globs@.map_values(|s: String| s@),
                included == exists|k: int| 0 <= k < i && glob_match(inc[k], path@),
            decreases self.include_globs@.len() - i,
        {
            if glob_matches(self.include_globs[i].as_str(), path) {
                included = true;
                proof {
                    assert(inc[i as int] == self.include_globs@[i as int]@);
                    assert(glob_match(inc[i as int], path@));
                }
            }
            i = i + 1;
        }
        if !included {
            proof {
                assert(forall|k: int| 0 <= k < inc.len() ==> !glob_match(inc[k], path@));
            }
            return false;
        }
        let ghost exc = self.exclude_globs@.map_values(|s: String| s@);
        let mut j: usize = 0;
        while j < self.exclude_globs.len()
            invariant
                j <= self.exclude_globs@.len(),
                exc == self.exclude_globs@.map_values(|s: String| s@),
                included == exists|k: int| 0 <= k < inc.len() && glob_match(inc[k], path@),
                included,
                forall|k: int| 0 <= k < j ==> !glob_match(exc[k], path@),
            decreases self.exclude_globs@.len() - j,
        {
            if glob_matches(self.exclude_globs[j].as_str(), path) {
                proof { assert(glob_match(exc[j as int], path@)); }
                return false;
            }
            j = j + 1;
        }
        true
    }
}

/// Renders the line-width violation report.
fn line_length_report(n: usize) -> (r: String)
    ensures
        r@ == line_length_message(n as nat),
{
    let mut m = "line_length must be between 40 and 500, got ".to_owned();
    m.append(u64_to_string(n as u64).as_str());
    m
}

/// Renders the indentation-width violation report.
fn indent_width_report(n: usize) -> (r: String)
    ensures
        r@ == indent_width_message(n as nat),
{
    let mut m = "indent_width must be between 1 and 8, got ".to_owned();
    m.append(u64_to_string(n as u64).as_str());
    m
}

/// `n` spaces.
pub open spec fn spaces(n: nat) -> Seq<char>
    decreases n,
{
    if n == 0 {
        Seq::empty()
    } else {
        spaces((n - 1) as nat) + seq![' ']
    }
}

/// One unit of indentation as a character sequence.
pub open spec fn indent_unit(style: IndentStyle, width: nat) -> Seq<char> {
    match style {
        IndentStyle::Tabs => seq!['\t'],
        IndentStyle::Spaces => spaces(width),
    }
}

/// Glob matching over path characters. `?` matches one character other
/// than `/`; `*` matches any run of characters other than `/`; a `**`
/// component may span directory separators.
pub open spec fn glob_match(p: Seq<char>, s: Seq<char>) -> bool
    decreases p.len() + s.len(),
{
    if p.len() == 0 {
        s.len() == 0
    } else if p.len() >= 3 && p[0] == '*' && p[1] == '*' && p[2] == '/' {
        glob_match(p.skip(3), s) || (s.len() > 0 && glob_match(p, s.skip(1)))
    } else if p.len() >= 2 && p[0] == '*' && p[1] == '*' {
        glob_match(p.skip(2), s) || (s.len() > 0 && glob_match(p, s.skip(1)))
    } else if p[0] == '*' {
        glob_match(p.skip(1), s) || (s.len() > 0 && s[0] != '/' && glob_match(p, s.skip(1)))
    } else if p[0] == '?' {
        s.len() > 0 && s[0] != '/' && glob_match(p.skip(1), s.skip(1))
    } else {
        s.len() > 0 && s[0] == p[0] && glob_match(p.skip(1), s.skip(1))
    }
}

/// A path is selected when an include_globs glob matches and no exclude_globs glob
/// does.
pub open spec fn path_selected(inc: Seq<Seq<char>>, exc: Seq<Seq<char>>, path: Seq<char>) -> bool {
    (exists|k: int| 0 <= k < inc.len() && glob_match(inc[k], path)) && (forall|k: int|
        0 <= k < exc.len() ==> !glob_match(exc[k], path))
}

/// Matches one glob pattern against one path.
pub fn glob_matches(pattern: &str, path: &str) -> (r: bool)
    ensures
        r == glob_match(pattern@, path@),
{
    let r = glob_from(pattern, 0, path, 0);
    proof {
        assert(pattern@.skip(0) =~= pattern@);
        assert(path@.skip(0) =~= path@);
    }
    r
}

/// Matches `p[i..]` against `s[j..]`.
fn glob_from(p: &str, i: usize, s: &str, j: usize) -> (r: bool)
    requires
        i <= p@.len(),
        j <= s@.len(),
    ensures
        r == glob_match(p@.skip(i as int), s@.skip(j as int)),
    decreases p@.len() - i + s@.len() - j,
{
    let ghost ps = p@.skip(i as int);
    let ghost ss = s@.skip(j as int);
    let plen = p.unicode_len();
    let slen = s.unicode_len();
    if i == plen {
        proof { assert(ps.len() == 0); }
        return j == slen;
    }
    let c0 = p.get_char(i);
    proof {
        assert(ps[0] == p@[i as int]);
        assert(ps.len() == p@.len() - i);
        assert(ss.len() == s@.len() - j);
    }
    if c0 == '*' && plen - i >= 3 && p.get_char(i + 1) == '*' && p.get_char(i + 2) == '/' {
        proof {
            assert(ps[1] == p@[i + 1]);
            assert(ps[2] == p@[i + 2]);
            assert(p@.skip(i + 3) =~= ps.skip(3));
        }
        if glob_from(p, i + 3, s, j) {
            return true;
        }
        if j < slen {
            proof { assert(s@.skip(j + 1) =~= ss.skip(1)); }
            return glob_from(p, i, s, j + 1);
        }
        return false;
    }
    if c0 == '*' && plen - i >= 2 && p.get_char(i + 1) == '*' {
        proof {
            assert(ps[1] == p@[i + 1]);
            assert(p@.skip(i + 2) =~= ps.skip(2));
        }
        if glob_from(p, i + 2, s, j) {
            return true;
        }
        if j < slen {
            proof { assert(s@.skip(j + 1) =~= ss.skip(1)); }
            return glob_from(p, i, s, j + 1);
        }
        return false;
    }
    if c0 == '*' {
        proof { assert(p@.skip(i + 1) =~= ps.skip(1)); }
        if glob_from(p, i + 1, s, j) {
            return true;
        }
        if j < slen {
            let sc = s.get_char(j);
            proof {
                assert(ss[0] == s@[j as int]);
                assert(s@.skip(j + 1) =~= ss.skip(1));
            }
            if sc != '/' {
                return glob_from(p, i, s, j + 1);
            }
        }
        return false;
    }
    if j == slen {
        proof { assert(ss.len() == 0); }
        return false;
    }
    let sc = s.get_char(j);
    proof {
        assert(ss[0] == s@[j as int]);
        assert(p@.skip(i + 1) =~= ps.skip(1));
        assert(s@.skip(j + 1) =~= ss.skip(1));
    }
    if c0 == '?' {
        if sc == '/' {
            return false;
        }
        return glob_from(p, i + 1, s, j + 1);
    }
    if sc == c0 {
        return glob_from(p, i + 1, s, j + 1);
    }
    false
}

} // verus!
