//! French typography: guillemets, spaced dashes, non-breaking spaces after
//! titles and before high punctuation, decimal commas.
use vstd::prelude::*;
use crate::text::{chars_of, string_of};
use super::{apply_table, pair_quotes, paired, regex_rewrite, replace_each, rewrite, table_view};

verus! {

/// French typography rules.
pub struct FrenchRules;

/// The French replacement table: ellipsis, spaced dashes, and a
/// non-breaking space after titles.
pub open spec fn fr_table() -> Seq<(Seq<char>, Seq<char>)> {
    seq![
        ("..."@, "\u{2026}"@),
        ("--"@, " \u{2014} "@),
        (" - "@, " \u{2013} "@),
        ("M. "@, "M.\u{00A0}"@),
        ("Mme "@, "Mme\u{00A0}"@),
        ("Mlle "@, "Mlle\u{00A0}"@),
        ("Dr "@, "Dr\u{00A0}"@),
        ("Me "@, "Me\u{00A0}"@),
    ]
}

/// `s` with paired double quotes as spaced guillemets and paired single
/// quotes as curly double quotes.
pub open spec fn fr_quoted(s: Seq<char>) -> Seq<char> {
    let d = paired(s, '"', "\u{00AB} "@, " \u{00BB}"@);
    paired(d, '\'', "\u{201C}"@, "\u{201D}"@)
}

/// `s` with thin spaces in thousands, decimal commas, a narrow space before
/// `; : ! ?` and a non-breaking space before the euro sign.
pub open spec fn fr_numbers(s: Seq<char>) -> Seq<char> {
    let a = regex_rewrite("\\b(\\d{1,3})(\\d{3})\\b"@, s, "$1\u{00A0}$2"@);
    let b = regex_rewrite("(\\d+)\\.(\\d+)"@, a, "$1,$2"@);
    let c = regex_rewrite("(\\w)\\s*([;:!?])"@, b, "$1\u{202F}$2"@);
    regex_rewrite("(\\d+(?:,\\d{2})?)\\s*(\u{20AC}|EUR)"@, c, "$1\u{00A0}$2"@)
}

fn quotes_chars(s: &Vec<char>) -> (r: Vec<char>)
    ensures
        r@ == fr_quoted(s@),
{
    let d = pair_quotes(s, '"', "\u{00AB} ", " \u{00BB}");
    pair_quotes(&d, '\'', "\u{201C}", "\u{201D}")
}

fn numbers_chars(s: &Vec<char>) -> (r: Vec<char>)
    ensures
        r@ == fr_numbers(s@),
{
    let a = rewrite("\\b(\\d{1,3})(\\d{3})\\b", s, "$1\u{00A0}$2");
    let b = rewrite("(\\d+)\\.(\\d+)", &a, "$1,$2");
    let c = rewrite("(\\w)\\s*([;:!?])", &b, "$1\u{202F}$2");
    rewrite("(\\d+(?:,\\d{2})?)\\s*(\u{20AC}|EUR)", &c, "$1\u{00A0}$2")
}

impl FrenchRules {
    /// The French replacement table.
    pub fn get_replacements() -> (r: Vec<(&'static str, &'static str)>)
        ensures
            table_view(r@) == fr_table(),
    {
        let r = vec![
            ("...", "\u{2026}"),
            ("--", " \u{2014} "),
            (" - ", " \u{2013} "),
            ("M. ", "M.\u{00A0}"),
            ("Mme ", "Mme\u{00A0}"),
            ("Mlle ", "Mlle\u{00A0}"),
            ("Dr ", "Dr\u{00A0}"),
            ("Me ", "Me\u{00A0}"),
        ];
        assert(table_view(r@) =~= fr_table());
        r
    }

    /// French quotation marks: guillemets with spaces inside for double
    /// quotes, curly double quotes for single quotes.
    pub fn apply_quotes(text: &str) -> (r: String)
        ensures
            r@ == fr_quoted(text@),
    {
        string_of(&quotes_chars(&chars_of(text)))
    }

    /// French number and punctuation spacing.
    pub fn format_numbers(text: &str) -> (r: String)
        ensures
            r@ == fr_numbers(text@),
    {
        string_of(&numbers_chars(&chars_of(text)))
    }

    /// All French rules: the replacement table, numbers, then quotation marks.
    pub fn apply_all(text: &str) -> (r: String)
        ensures
            r@ == fr_quoted(fr_numbers(apply_table(text@, fr_table(), fr_table().len() as int))),
    {
        let table = Self::get_replacements();
        let a = replace_each(&chars_of(text), &table);
        let b = numbers_chars(&a);
        string_of(&quotes_chars(&b))
    }
}

} // verus!
