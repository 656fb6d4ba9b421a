//! Typography filters for running text: quotation marks, dashes,
//! contractions, abbreviations and number formatting per language, and the
//! CSS for OpenType features.
use vstd::prelude::*;
use crate::text::{chars_of, push_all, replace_all, replace_chars, split, split_chars, pieces_view};

pub mod english;
pub mod french;
pub mod german;

verus! {

/// The pieces `ps[0..n]` joined by separators that alternate between `open`
/// (first, third, ...) and `close` (second, fourth, ...).
pub open spec fn join_alternating(ps: Seq<Seq<char>>, open: Seq<char>, close: Seq<char>, n: int) -> Seq<char>
    decreases n,
{
    if n <= 0 {
        Seq::empty()
    } else if n == 1 {
        ps[0]
    } else {
        join_alternating(ps, open, close, n - 1) + (if (n - 2) % 2 == 0 {
            open
        } else {
            close
        }) + ps[n - 1]
    }
}

/// `s` with its occurrences of `q` turned alternately into `open` and
/// `close`, when there are at least two of them; else `s` unchanged.
pub open spec fn paired(s: Seq<char>, q: char, open: Seq<char>, close: Seq<char>) -> Seq<char> {
    let ps = split(s, q);
    if ps.len() >= 3 {
        join_alternating(ps, open, close, ps.len() as int)
    } else {
        s
    }
}

/// Turns the occurrences of `q` in `text` alternately into `open` and
/// `close`, when there are at least two.
pub fn pair_quotes(text: &Vec<char>, q: char, open: &str, close: &str) -> (r: Vec<char>)
    ensures
        r@ == paired(text@, q, open@, close@),
{
    let parts = split_chars(text, q);
    let ghost pv = pieces_view(parts@);
    if parts.len() < 3 {
        return text.clone();
    }
    let o = chars_of(open);
    let c = chars_of(close);
    let mut r: Vec<char> = Vec::new();
    let mut i: usize = 0;
    while i < parts.len()
        invariant
            i <= parts.len(),
            pv == pieces_view(parts@),
            o@ == open@,
            c@ == close@,
            r@ == join_alternating(pv, open@, close@, i as int),
        decreases parts.len() - i,
    {
        let ghost before = r@;
        if i > 0 {
            if (i - 1) % 2 == 0 {
                push_all(&mut r, &o);
            } else {
                push_all(&mut r, &c);
            }
        }
        push_all(&mut r, &parts[i]);
        assert(pv[i as int] == parts@[i as int]@);
        if i == 0 {
            assert(r@ =~= join_alternating(pv, open@, close@, 1));
        }
        i += 1;
    }
    r
}

/// `s` after replacing, in turn, the pattern of each of the first `n` pairs
/// of `table` by its replacement.
pub open spec fn apply_table(s: Seq<char>, table: Seq<(Seq<char>, Seq<char>)>, n: int) -> Seq<char>
    decreases n,
{
    if n <= 0 {
        s
    } else {
        replace_all(apply_table(s, table, n - 1), table[n - 1].0, table[n - 1].1)
    }
}

/// The view of a replacement table.
pub open spec fn table_view(t: Seq<(&str, &str)>) -> Seq<(Seq<char>, Seq<char>)> {
    t.map_values(|p: (&str, &str)| (p.0@, p.1@))
}

/// Applies every (pattern, replacement) pair of `table` to `text`, in order.
pub fn replace_each(text: &Vec<char>, table: &Vec<(&str, &str)>) -> (r: Vec<char>)
    ensures
        r@ == apply_table(text@, table_view(table@), table@.len() as int),
{
    let ghost tv = table_view(table@);
    let mut r = text.clone();
    let mut i: usize = 0;
    while i < table.len()
        invariant
            i <= table.len(),
            tv == table_view(table@),
            r@ == apply_table(text@, tv, i as int),
        decreases table.len() - i,
    {
        let (pat, rep) = table[i];
        let p = chars_of(pat);
        let q = chars_of(rep);
        r = replace_chars(&r, &p, &q);
        i += 1;
    }
    r
}

/// Tests whether `a` and `b` hold the same characters.
pub fn same_chars(a: &Vec<char>, b: &Vec<char>) -> (r: bool)
    ensures
        r == (a@ == b@),
{
    if a.len() != b.len() {
        return false;
    }
    let mut i: usize = 0;
    while i < a.len()
        invariant
            i <= a.len() == b.len(),
            forall|k: int| 0 <= k < i ==> a@[k] == b@[k],
        decreases a.len() - i,
    {
        if a[i] != b[i] {
            return false;
        }
        i += 1;
    }
    assert(a@ =~= b@);
    true
}

/// Whether `pattern` compiles as a regular expression.
pub uninterp spec fn regex_compiles(pattern: Seq<char>) -> bool;

/// `text` with every non-overlapping match of `pattern` replaced by `rep`,
/// where `$1`, `$2`, ... stand for the capture groups.
pub uninterp spec fn regex_replaced(pattern: Seq<char>, text: Seq<char>, rep: Seq<char>) -> Seq<char>;

/// Whether `pattern` matches somewhere in `text`.
pub uninterp spec fn regex_finds(pattern: Seq<char>, text: Seq<char>) -> bool;

/// Relies on `regex::Regex::new`: whether a pattern is accepted depends on
/// the pattern alone.
#[verifier::external_body]
pub(crate) fn regex_ok(pattern: &str) -> (r: bool)
    ensures
        r == regex_compiles(pattern@),
{
    regex::Regex::new(pattern).is_ok()
}

/// Relies on `regex::Regex::replace_all` (on the pattern compiled by
/// `regex::Regex::new`, which succeeds under the precondition): the result
/// depends on the pattern, the text and the replacement alone.
#[verifier::external_body]
pub(crate) fn regex_replace(pattern: &str, text: &Vec<char>, rep: &str) -> (r: Vec<char>)
    requires
        regex_compiles(pattern@),
    ensures
        r@ == regex_replaced(pattern@, text@, rep@),
{
    let t: String = text.iter().collect();
    regex::Regex::new(pattern).unwrap().replace_all(&t, rep).chars().collect()
}

/// Relies on `regex::Regex::is_match` (on the pattern compiled by
/// `regex::Regex::new`, which succeeds under the precondition): the answer
/// depends on the pattern and the text alone.
#[verifier::external_body]
pub(crate) fn regex_match(pattern: &str, text: &Vec<char>) -> (r: bool)
    requires
        regex_compiles(pattern@),
    ensures
        r == regex_finds(pattern@, text@),
{
    let t: String = text.iter().collect();
    regex::Regex::new(pattern).unwrap().is_match(&t)
}

/// `text` with the matches of `pattern` replaced, or unchanged when the
/// pattern does not compile.
pub open spec fn regex_rewrite(pattern: Seq<char>, text: Seq<char>, rep: Seq<char>) -> Seq<char> {
    if regex_compiles(pattern) {
        regex_replaced(pattern, text, rep)
    } else {
        text
    }
}

/// Replaces the matches of `pattern` in `text`, leaving the text as it is
/// when the pattern does not compile.
pub fn rewrite(pattern: &str, text: &Vec<char>, rep: &str) -> (r: Vec<char>)
    ensures
        r@ == regex_rewrite(pattern@, text@, rep@),
{
    if regex_ok(pattern) {
        regex_replace(pattern, text, rep)
    } else {
        text.clone()
    }
}


/// The CSS for OpenType features, hyphenation, hanging punctuation, leading,
/// measure and text filters.
pub const TYPOGRAPHY_CSS: &'static str = "  /* ========== Typography Features ========== */\n  reed[text*=\"ligatures:true\"] {\n    font-variant-ligatures: common-ligatures;\n    font-feature-settings: \"liga\" 1, \"clig\" 1;\n  }\n\n  reed[text*=\"small-caps:true\"] {\n    font-variant-caps: small-caps;\n    font-feature-settings: \"smcp\" 1;\n  }\n\n  reed[text*=\"numbers:tabular\"] {\n    font-variant-numeric: tabular-nums;\n    font-feature-settings: \"tnum\" 1;\n  }\n\n  reed[text*=\"numbers:oldstyle\"] {\n    font-variant-numeric: oldstyle-nums;\n    font-feature-settings: \"onum\" 1;\n  }\n\n  reed[text*=\"hyphenate:true\"] {\n    hyphens: auto;\n    -webkit-hyphens: auto;\n    hyphenate-limit-lines: 2;\n    hyphenate-limit-last: always;\n  }\n\n  reed[text*=\"hanging-punctuation:true\"] {\n    hanging-punctuation: first last;\n  }\n\n  reed[text*=\"leading:tight\"] { line-height: 1.25; }\n  reed[text*=\"leading:normal\"] { line-height: 1.5; }\n  reed[text*=\"leading:relaxed\"] { line-height: 1.75; }\n  reed[text*=\"leading:loose\"] { line-height: 2; }\n\n  reed[text*=\"measure:narrow\"] { max-width: 45ch; }\n  reed[text*=\"measure:normal\"] { max-width: 65ch; }\n  reed[text*=\"measure:wide\"] { max-width: 85ch; }\n\n  reed[text*=\"filter:minimal\"] { /* Processed by JS */ }\n  reed[text*=\"filter:smart\"] { /* Processed by JS */ }\n  reed[text*=\"filter:professional\"] { /* Processed by JS */ }\n\n";

/// The typography stylesheet.
pub fn generate_css() -> (r: String)
    ensures
        r@ == TYPOGRAPHY_CSS@,
{
    String::from_str(TYPOGRAPHY_CSS)
}

/// Spacing characters a language puts in particular places.
pub struct SpaceRules {
    pub before_unit: String,
    pub in_number: String,
    pub before_currency: String,
    pub after_abbr: String,
}

/// Quotation marks, extra replacements and spacing of one language.
pub struct LanguageRules {
    pub quotes: (String, String),
    pub single_quotes: (String, String),
    pub replacements: Option<Vec<(String, String)>>,
    pub space_rules: Option<SpaceRules>,
}

/// Typographic features switched on for a build.
pub struct TypographyFeatures {
    pub ligatures: bool,
    pub kerning: bool,
    pub hyphenation: String,
    pub hanging_punctuation: bool,
}

/// The typography settings: default filter, features, and the rules of each
/// language under its code, in the order they were added.
pub struct TypographyConfig {
    pub default_filter: String,
    pub features: TypographyFeatures,
    pub languages: Vec<(String, LanguageRules)>,
}

fn owned(s: &str) -> (r: String)
    ensures
        r@ == s@,
{
    String::from_str(s)
}

fn pair(a: &str, b: &str) -> (r: (String, String))
    ensures
        r.0@ == a@,
        r.1@ == b@,
{
    (owned(a), owned(b))
}

fn spaces(unit: &str, number: &str, currency: &str, abbr: &str) -> (r: SpaceRules)
    ensures
        r.before_unit@ == unit@,
        r.in_number@ == number@,
        r.before_currency@ == currency@,
        r.after_abbr@ == abbr@,
{
    SpaceRules {
        before_unit: owned(unit),
        in_number: owned(number),
        before_currency: owned(currency),
        after_abbr: owned(abbr),
    }
}

impl Default for TypographyConfig {
    /// Smart filtering with ligatures, kerning and automatic hyphenation, and
    /// the rules of German, US English, British English and French.
    fn default() -> (r: TypographyConfig)
        ensures
            r.default_filter@ == "smart"@,
            r.features.ligatures && r.features.kerning && !r.features.hanging_punctuation,
            r.features.hyphenation@ == "auto"@,
            r.languages@.len() == 4,
            r.languages@[0].0@ == "de"@,
            r.languages@[1].0@ == "en-US"@,
            r.languages@[2].0@ == "en-GB"@,
            r.languages@[3].0@ == "fr"@,
            r.languages@[0].1.quotes.0@ == "\u{201E}"@ && r.languages@[0].1.quotes.1@ == "\u{201C}"@,
            r.languages@[1].1.quotes.0@ == "\u{201C}"@ && r.languages@[1].1.quotes.1@ == "\u{201D}"@,
            r.languages@[2].1.quotes.0@ == "\u{2018}"@ && r.languages@[2].1.quotes.1@ == "\u{2019}"@,
            r.languages@[3].1.quotes.0@ == "\u{00AB} "@ && r.languages@[3].1.quotes.1@ == " \u{00BB}"@,
    {
        let mut languages: Vec<(String, LanguageRules)> = Vec::new();
        let mut de_replacements: Vec<(String, String)> = Vec::new();
        de_replacements.push(pair("(\\d+)-(\\d+)", "$1\\u{2013}$2"));
        languages.push((owned("de"), LanguageRules {
            quotes: pair("\u{201E}", "\u{201C}"),
            single_quotes: pair("\u{201A}", "\u{2018}"),
            replacements: Some(de_replacements),
            space_rules: Some(spaces("\u{202F}", "\u{202F}", "\u{00A0}", "\u{00A0}")),
        }));
        languages.push((owned("en-US"), LanguageRules {
            quotes: pair("\u{201C}", "\u{201D}"),
            single_quotes: pair("\u{2018}", "\u{2019}"),
            replacements: None,
            space_rules: None,
        }));
        languages.push((owned("en-GB"), LanguageRules {
            quotes: pair("\u{2018}", "\u{2019}"),
            single_quotes: pair("\u{201C}", "\u{201D}"),
            replacements: None,
            space_rules: None,
        }));
        languages.push((owned("fr"), LanguageRules {
            quotes: pair("\u{00AB} ", " \u{00BB}"),
            single_quotes: pair("\u{201C}", "\u{201D}"),
            replacements: None,
            space_rules: Some(spaces("\u{00A0}", "\u{00A0}", "\u{00A0}", "\u{00A0}")),
        }));
        TypographyConfig {
            default_filter: owned("smart"),
            features: TypographyFeatures {
                ligatures: true,
                kerning: true,
                hyphenation: owned("auto"),
                hanging_punctuation: false,
            },
            languages,
        }
    }
}

} // verus!
