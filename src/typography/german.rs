//! German typography: low-high quotation marks, dashes, non-breaking
//! spaces in abbreviations, before units and currencies, and in numbers.
use vstd::prelude::*;
use crate::text::{chars_of, contains, contains_chars, push_str, replace_all, replace_chars, string_of};
use super::{apply_table, pair_quotes, paired, regex_rewrite, replace_each, rewrite, table_view};

verus! {

/// German typography rules.
pub struct GermanRules;

/// The German replacement table; a pattern holding `(` is a regular
/// expression, the others are plain text.
pub open spec fn de_table() -> Seq<(Seq<char>, Seq<char>)> {
    seq![
        ("(\\d+)\\s*-\\s*(\\d+)"@, "$1\u{2013}$2"@),
        ("z. B."@, "z. B."@),
        ("d. h."@, "d. h."@),
        ("u. a."@, "u. a."@),
        ("o. \u{00E4}."@, "o. \u{00E4}."@),
        ("u. U."@, "u. U."@),
        ("m. E."@, "m. E."@),
        ("i. d. R."@, "i. d. R."@),
        ("z. T."@, "z. T."@),
        ("s. o."@, "s. o."@),
        ("s. u."@, "s. u."@),
        ("Dr. "@, "Dr. "@),
        ("Prof. "@, "Prof. "@),
        ("Dipl.-Ing. "@, "Dipl.-Ing. "@),
        ("..."@, "\u{2026}"@),
        ("--"@, "\u{2014}"@),
        (" - "@, " \u{2013} "@),
    ]
}

/// The abbreviations whose inner spaces become non-breaking.
pub open spec fn abbreviation_table() -> Seq<(Seq<char>, Seq<char>)> {
    seq![
        ("z. B."@, "z.\u{00A0}B."@),
        ("d. h."@, "d.\u{00A0}h."@),
        ("u. a."@, "u.\u{00A0}a."@),
        ("o. \u{00E4}."@, "o.\u{00A0}\u{00E4}."@),
        ("u. U."@, "u.\u{00A0}U."@),
        ("m. E."@, "m.\u{00A0}E."@),
        ("i. d. R."@, "i.\u{00A0}d.\u{00A0}R."@),
        ("z. T."@, "z.\u{00A0}T."@),
        ("s. o."@, "s.\u{00A0}o."@),
        ("s. u."@, "s.\u{00A0}u."@),
        ("Dr. "@, "Dr.\u{00A0}"@),
        ("Prof. "@, "Prof.\u{00A0}"@),
        ("Dipl.-Ing. "@, "Dipl.-Ing.\u{00A0}"@),
    ]
}

/// The units that take a narrow no-break space after their number.
pub open spec fn units() -> Seq<Seq<char>> {
    seq![
        "kg"@,
        "g"@,
        "mg"@,
        "t"@,
        "km"@,
        "m"@,
        "cm"@,
        "mm"@,
        "l"@,
        "ml"@,
        "cl"@,
        "dl"@,
        "h"@,
        "min"@,
        "s"@,
        "ms"@,
        "\u{00B0}C"@,
        "\u{00B0}F"@,
        "K"@,
        "%"@,
        "\u{2030}"@,
        "kW"@,
        "MW"@,
        "W"@,
        "V"@,
        "A"@,
        "\u{03A9}"@,
        "bar"@,
        "Pa"@,
        "hPa"@,
    ]
}

/// `s` after the first `n` pairs of `t`, regular-expression patterns
/// (those holding `(`) matched as such and the others as plain text.
pub open spec fn apply_mixed(s: Seq<char>, t: Seq<(Seq<char>, Seq<char>)>, n: int) -> Seq<char>
    decreases n,
{
    if n <= 0 {
        s
    } else if contains(t[n - 1].0, seq!['(']) {
        regex_rewrite(t[n - 1].0, apply_mixed(s, t, n - 1), t[n - 1].1)
    } else {
        replace_all(apply_mixed(s, t, n - 1), t[n - 1].0, t[n - 1].1)
    }
}

/// The pattern of a number followed by spaces and unit `u`.
pub open spec fn unit_pattern(u: Seq<char>) -> Seq<char> {
    "(\\d+)\\s+"@ + regex_escaped(u)
}

/// `s` with a narrow no-break space between a number and each of the first
/// `n` units.
pub open spec fn with_unit_spaces(s: Seq<char>, n: int) -> Seq<char>
    decreases n,
{
    if n <= 0 {
        s
    } else {
        regex_rewrite(unit_pattern(units()[n - 1]), with_unit_spaces(s, n - 1), "$1\u{202F}"@ + units()[n - 1])
    }
}

/// `s` with narrow spaces in thousands and before units, a non-breaking
/// space before the euro sign and none before `%`.
pub open spec fn de_numbers(s: Seq<char>) -> Seq<char> {
    let a = regex_rewrite("\\b(\\d{1,3})(\\d{3})\\b"@, s, "$1\u{202F}$2"@);
    let b = with_unit_spaces(a, units().len() as int);
    let c = regex_rewrite("(\\d+(?:,\\d{2})?)\\s*(\u{20AC}|EUR)"@, b, "$1\u{00A0}$2"@);
    regex_rewrite("(\\d+)\\s+%"@, c, "$1%"@)
}

/// `s` with paired double quotes as low-high quotes and paired single
/// quotes as low-high single quotes.
pub open spec fn de_quoted(s: Seq<char>) -> Seq<char> {
    let d = paired(s, '"', "\u{201E}"@, "\u{201C}"@);
    paired(d, '\'', "\u{201A}"@, "\u{2018}"@)
}

/// The characters with a meaning in a regular expression.
pub open spec fn is_meta(c: char) -> bool {
    c == '\\' || c == '.' || c == '+' || c == '*' || c == '?' || c == '(' || c == ')' || c == '|'
        || c == '[' || c == ']' || c == '{' || c == '}' || c == '^' || c == '$' || c == '#' || c
        == '&' || c == '-' || c == '~'
}

/// `s` as a pattern that matches it literally: a backslash before each
/// meta character.
pub open spec fn regex_escaped(s: Seq<char>) -> Seq<char>
    decreases s.len(),
{
    if s.len() == 0 {
        Seq::empty()
    } else if is_meta(s.last()) {
        regex_escaped(s.drop_last()) + seq!['\\', s.last()]
    } else {
        regex_escaped(s.drop_last()).push(s.last())
    }
}

/// Relies on `regex::escape` (`regex_syntax::escape_into`): each character
/// in order, preceded by a backslash when it is one of the meta characters
/// of `regex_syntax::is_meta_character`.
#[verifier::external_body]
fn escape(s: &str) -> (r: String)
    ensures
        r@ == regex_escaped(s@),
{
    regex::escape(s)
}

fn quotes_chars(s: &Vec<char>) -> (r: Vec<char>)
    ensures
        r@ == de_quoted(s@),
{
    let d = pair_quotes(s, '"', "\u{201E}", "\u{201C}");
    pair_quotes(&d, '\'', "\u{201A}", "\u{2018}")
}

fn unit_list() -> (r: Vec<&'static str>)
    ensures
        r@.map_values(|u: &str| u@) == units(),
{
    let r = vec![
        "kg",
        "g",
        "mg",
        "t",
        "km",
        "m",
        "cm",
        "mm",
        "l",
        "ml",
        "cl",
        "dl",
        "h",
        "min",
        "s",
        "ms",
        "\u{00B0}C",
        "\u{00B0}F",
        "K",
        "%",
        "\u{2030}",
        "kW",
        "MW",
        "W",
        "V",
        "A",
        "\u{03A9}",
        "bar",
        "Pa",
        "hPa",
    ];
    assert(r@.map_values(|u: &str| u@) =~= units());
    r
}

fn numbers_chars(s: &Vec<char>) -> (r: Vec<char>)
    ensures
        r@ == de_numbers(s@),
{
    let a = rewrite("\\b(\\d{1,3})(\\d{3})\\b", s, "$1\u{202F}$2");
    let us = unit_list();
    let ghost uv = us@.map_values(|u: &str| u@);
    let mut b = a;
    let mut i: usize = 0;
    while i < us.len()
        invariant
            i <= us.len(),
            uv == us@.map_values(|u: &str| u@),
            uv == units(),
            b@ == with_unit_spaces(a@, i as int),
        decreases us.len() - i,
    {
        let unit = us[i];
        let mut pattern: Vec<char> = Vec::new();
        push_str(&mut pattern, "(\\d+)\\s+");
        let escaped = escape(unit);
        push_str(&mut pattern, escaped.as_str());
        let mut rep: Vec<char> = Vec::new();
        push_str(&mut rep, "$1\u{202F}");
        push_str(&mut rep, unit);
        assert(uv[i as int] == unit@);
        let p = string_of(&pattern);
        let q = string_of(&rep);
        b = rewrite(p.as_str(), &b, q.as_str());
        i += 1;
    }
    let c = rewrite("(\\d+(?:,\\d{2})?)\\s*(\u{20AC}|EUR)", &b, "$1\u{00A0}$2");
    rewrite("(\\d+)\\s+%", &c, "$1%")
}

fn mixed_chars(text: &Vec<char>, table: &Vec<(&str, &str)>) -> (r: Vec<char>)
    ensures
        r@ == apply_mixed(text@, table_view(table@), table@.len() as int),
{
    let ghost tv = table_view(table@);
    let open_paren = chars_of("(");
    proof {
        reveal_strlit("(");
    }
    assert(open_paren@ =~= seq!['(']);
    let mut r = text.clone();
    let mut i: usize = 0;
    while i < table.len()
        invariant
            i <= table.len(),
            tv == table_view(table@),
            open_paren@ == seq!['('],
            r@ == apply_mixed(text@, tv, i as int),
        decreases table.len() - i,
    {
        let (pat, rep) = table[i];
        let p = chars_of(pat);
        if contains_chars(&p, &open_paren) {
            r = rewrite(pat, &r, rep);
        } else {
            let q = chars_of(rep);
            r = replace_chars(&r, &p, &q);
        }
        i += 1;
    }
    r
}

impl GermanRules {
    /// The German replacement table.
    pub fn get_replacements() -> (r: Vec<(&'static str, &'static str)>)
        ensures
            table_view(r@) == de_table(),
    {
        let r = vec![
            ("(\\d+)\\s*-\\s*(\\d+)", "$1\u{2013}$2"),
            ("z. B.", "z. B."),
            ("d. h.", "d. h."),
            ("u. a.", "u. a."),
            ("o. \u{00E4}.", "o. \u{00E4}."),
            ("u. U.", "u. U."),
            ("m. E.", "m. E."),
            ("i. d. R.", "i. d. R."),
            ("z. T.", "z. T."),
            ("s. o.", "s. o."),
            ("s. u.", "s. u."),
            ("Dr. ", "Dr. "),
            ("Prof. ", "Prof. "),
            ("Dipl.-Ing. ", "Dipl.-Ing. "),
            ("...", "\u{2026}"),
            ("--", "\u{2014}"),
            (" - ", " \u{2013} "),
        ];
        assert(table_view(r@) =~= de_table());
        r
    }

    /// German number spacing: thousands, units, currencies and percentages.
    pub fn format_numbers(text: &str) -> (r: String)
        ensures
            r@ == de_numbers(text@),
    {
        string_of(&numbers_chars(&chars_of(text)))
    }

    /// Non-breaking spaces inside common abbreviations (`z. B.`, `d. h.`, ...).
    pub fn format_abbreviations(text: &str) -> (r: String)
        ensures
            r@ == apply_table(text@, abbreviation_table(), abbreviation_table().len() as int),
    {
        let table = vec![
            ("z. B.", "z.\u{00A0}B."),
            ("d. h.", "d.\u{00A0}h."),
            ("u. a.", "u.\u{00A0}a."),
            ("o. \u{00E4}.", "o.\u{00A0}\u{00E4}."),
            ("u. U.", "u.\u{00A0}U."),
            ("m. E.", "m.\u{00A0}E."),
            ("i. d. R.", "i.\u{00A0}d.\u{00A0}R."),
            ("z. T.", "z.\u{00A0}T."),
            ("s. o.", "s.\u{00A0}o."),
            ("s. u.", "s.\u{00A0}u."),
            ("Dr. ", "Dr.\u{00A0}"),
            ("Prof. ", "Prof.\u{00A0}"),
            ("Dipl.-Ing. ", "Dipl.-Ing.\u{00A0}"),
        ];
        assert(table_view(table@) =~= abbreviation_table());
        string_of(&replace_each(&chars_of(text), &table))
    }

    /// German quotation marks: low-high double and single quotes.
    pub fn apply_quotes(text: &str) -> (r: String)
        ensures
            r@ == de_quoted(text@),
    {
        string_of(&quotes_chars(&chars_of(text)))
    }

    /// All German rules: the replacement table, abbreviations, numbers, then
    /// quotation marks.
    pub fn apply_all(text: &str) -> (r: String)
        ensures
            r@ == de_quoted(
                de_numbers(
                    apply_table(
                        apply_mixed(text@, de_table(), de_table().len() as int),
                        abbreviation_table(),
                        abbreviation_table().len() as int,
                    ),
                ),
            ),
    {
        let table = Self::get_replacements();
        let a = mixed_chars(&chars_of(text), &table);
        let b = Self::format_abbreviations(&string_of(&a));
        let c = numbers_chars(&chars_of(b.as_str()));
        string_of(&quotes_chars(&c))
    }
}

} // verus!
