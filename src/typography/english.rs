//! English typography: US and British dashes, contractions, quotation
//! marks and thousands separators.
use vstd::prelude::*;
use crate::text::{chars_of, contains, contains_chars, string_of};
use super::{
    apply_table, pair_quotes, paired, regex_compiles, regex_finds, regex_match, regex_ok,
    regex_rewrite, replace_each, rewrite, same_chars, table_view,
};

verus! {

/// English typography rules (US and British variants).
pub struct EnglishRules;

/// The US replacement table: ellipsis, em dash, spaced en dash, then the
/// contractions with a typographic apostrophe.
pub open spec fn us_table() -> Seq<(Seq<char>, Seq<char>)> {
    seq![
        ("..."@, "\u{2026}"@),
        ("--"@, "\u{2014}"@),
        (" - "@, " \u{2013} "@),
        ("won't"@, "won\u{2019}t"@),
        ("can't"@, "can\u{2019}t"@),
        ("shouldn't"@, "shouldn\u{2019}t"@),
        ("wouldn't"@, "wouldn\u{2019}t"@),
        ("couldn't"@, "couldn\u{2019}t"@),
        ("didn't"@, "didn\u{2019}t"@),
        ("doesn't"@, "doesn\u{2019}t"@),
        ("don't"@, "don\u{2019}t"@),
        ("isn't"@, "isn\u{2019}t"@),
        ("aren't"@, "aren\u{2019}t"@),
        ("wasn't"@, "wasn\u{2019}t"@),
        ("weren't"@, "weren\u{2019}t"@),
        ("hasn't"@, "hasn\u{2019}t"@),
        ("haven't"@, "haven\u{2019}t"@),
        ("hadn't"@, "hadn\u{2019}t"@),
        ("it's"@, "it\u{2019}s"@),
        ("that's"@, "that\u{2019}s"@),
        ("what's"@, "what\u{2019}s"@),
        ("there's"@, "there\u{2019}s"@),
        ("here's"@, "here\u{2019}s"@),
        ("who's"@, "who\u{2019}s"@),
        ("she's"@, "she\u{2019}s"@),
        ("he's"@, "he\u{2019}s"@),
        ("let's"@, "let\u{2019}s"@),
        ("I've"@, "I\u{2019}ve"@),
        ("you've"@, "you\u{2019}ve"@),
        ("we've"@, "we\u{2019}ve"@),
        ("they've"@, "they\u{2019}ve"@),
        ("I'll"@, "I\u{2019}ll"@),
        ("you'll"@, "you\u{2019}ll"@),
        ("we'll"@, "we\u{2019}ll"@),
        ("they'll"@, "they\u{2019}ll"@),
        ("I'd"@, "I\u{2019}d"@),
        ("you'd"@, "you\u{2019}d"@),
        ("we'd"@, "we\u{2019}d"@),
        ("they'd"@, "they\u{2019}d"@),
        ("I'm"@, "I\u{2019}m"@),
        ("you're"@, "you\u{2019}re"@),
        ("we're"@, "we\u{2019}re"@),
        ("they're"@, "they\u{2019}re"@),
    ]
}

/// `t` without the pairs whose pattern is `pat`.
pub open spec fn without_pattern(t: Seq<(Seq<char>, Seq<char>)>, pat: Seq<char>) -> Seq<(Seq<char>, Seq<char>)>
    decreases t.len(),
{
    if t.len() == 0 {
        Seq::empty()
    } else if t.last().0 == pat {
        without_pattern(t.drop_last(), pat)
    } else {
        without_pattern(t.drop_last(), pat).push(t.last())
    }
}

/// The British table: the US one with `--` written as a spaced en dash.
pub open spec fn gb_table() -> Seq<(Seq<char>, Seq<char>)> {
    without_pattern(us_table(), "--"@).push(("--"@, " \u{2013} "@))
}

/// `s` with paired double quotes made curly, then paired single quotes when
/// no `'t` or `'s` suggests apostrophes.
pub open spec fn us_quoted(s: Seq<char>) -> Seq<char> {
    let d = paired(s, '"', "\u{201C}"@, "\u{201D}"@);
    if contains(d, "'"@) && !contains(d, "'t"@) && !contains(d, "'s"@) {
        paired(d, '\'', "\u{2018}"@, "\u{2019}"@)
    } else {
        d
    }
}

/// `s` with paired single quotes made curly (unless `'t` or `'s` suggests
/// apostrophes), then paired double quotes.
pub open spec fn gb_quoted(s: Seq<char>) -> Seq<char> {
    let d = if contains(s, "'"@) && !contains(s, "'t"@) && !contains(s, "'s"@) {
        paired(s, '\'', "\u{2018}"@, "\u{2019}"@)
    } else {
        s
    };
    paired(d, '"', "\u{201C}"@, "\u{201D}"@)
}

/// The pattern of a group of one to three digits followed by three.
pub open spec fn thousands_pattern() -> Seq<char> {
    "\\b(\\d{1,3})(\\d{3})\\b"@
}

/// The pattern of a number already grouped into millions.
pub open spec fn grouped_millions_pattern() -> Seq<char> {
    "\\b(\\d{1,3}),(\\d{3}),(\\d{3})\\b"@
}

/// The pattern of a number of seven to nine digits.
pub open spec fn millions_pattern() -> Seq<char> {
    "\\b(\\d{1,3})(\\d{3})(\\d{3})\\b"@
}

/// `s` with thousands separated by commas: first four- to six-digit numbers,
/// then, unless some number is already grouped into millions, seven- to
/// nine-digit ones.
pub open spec fn comma_grouped(s: Seq<char>) -> Seq<char> {
    let a = regex_rewrite(thousands_pattern(), s, "$1,$2"@);
    let grouped = regex_compiles(grouped_millions_pattern()) && regex_finds(grouped_millions_pattern(), a);
    chosen_grouping(a, grouped, regex_rewrite(millions_pattern(), a, "$1,$2,$3"@))
}

fn quote_singles(d: &Vec<char>) -> (r: bool)
    ensures
        r == (contains(d@, "'"@) && !contains(d@, "'t"@) && !contains(d@, "'s"@)),
{
    contains_chars(d, &chars_of("'")) && !contains_chars(d, &chars_of("'t")) && !contains_chars(
        d,
        &chars_of("'s"),
    )
}

fn us_quotes_chars(s: &Vec<char>) -> (r: Vec<char>)
    ensures
        r@ == us_quoted(s@),
{
    let d = pair_quotes(s, '"', "\u{201C}", "\u{201D}");
    if quote_singles(&d) {
        pair_quotes(&d, '\'', "\u{2018}", "\u{2019}")
    } else {
        d
    }
}

fn gb_quotes_chars(s: &Vec<char>) -> (r: Vec<char>)
    ensures
        r@ == gb_quoted(s@),
{
    let d = if quote_singles(s) {
        pair_quotes(s, '\'', "\u{2018}", "\u{2019}")
    } else {
        s.clone()
    };
    pair_quotes(&d, '"', "\u{201C}", "\u{201D}")
}

/// The comma grouping of a text: `after_thousands` once four- to six-digit
/// numbers are grouped, `millions_found` whether a number grouped into
/// millions already occurs in it, `after_millions` that text with seven- to
/// nine-digit numbers grouped as well.
pub open spec fn chosen_grouping(after_thousands: Seq<char>, millions_found: bool, after_millions: Seq<char>) -> Seq<char> {
    if millions_found {
        after_thousands
    } else {
        after_millions
    }
}

fn numbers_chars(s: &Vec<char>) -> (r: Vec<char>)
    ensures
        r@ == comma_grouped(s@),
{
    let a = rewrite("\\b(\\d{1,3})(\\d{3})\\b", s, "$1,$2");
    let grouped = regex_ok("\\b(\\d{1,3}),(\\d{3}),(\\d{3})\\b") && regex_match(
        "\\b(\\d{1,3}),(\\d{3}),(\\d{3})\\b",
        &a,
    );
    let b = rewrite("\\b(\\d{1,3})(\\d{3})(\\d{3})\\b", &a, "$1,$2,$3");
    let r = EnglishRules::choose_grouping(&string_of(&a), grouped, &string_of(&b));
    chars_of(r.as_str())
}

impl EnglishRules {
    /// Keeps the text as grouped into thousands when some number in it is
    /// already grouped into millions, else takes the text with millions
    /// grouped too.
    pub fn choose_grouping(after_thousands: &str, millions_found: bool, after_millions: &str) -> (r: String)
        ensures
            r@ == chosen_grouping(after_thousands@, millions_found, after_millions@),
    {
        if millions_found {
            String::from_str(after_thousands)
        } else {
            String::from_str(after_millions)
        }
    }

    /// The US replacement table.
    pub fn get_us_replacements() -> (r: Vec<(&'static str, &'static str)>)
        ensures
            table_view(r@) == us_table(),
    {
        let r = vec![
            ("...", "\u{2026}"),
            ("--", "\u{2014}"),
            (" - ", " \u{2013} "),
            ("won't", "won\u{2019}t"),
            ("can't", "can\u{2019}t"),
            ("shouldn't", "shouldn\u{2019}t"),
            ("wouldn't", "wouldn\u{2019}t"),
            ("couldn't", "couldn\u{2019}t"),
            ("didn't", "didn\u{2019}t"),
            ("doesn't", "doesn\u{2019}t"),
            ("don't", "don\u{2019}t"),
            ("isn't", "isn\u{2019}t"),
            ("aren't", "aren\u{2019}t"),
            ("wasn't", "wasn\u{2019}t"),
            ("weren't", "weren\u{2019}t"),
            ("hasn't", "hasn\u{2019}t"),
            ("haven't", "haven\u{2019}t"),
            ("hadn't", "hadn\u{2019}t"),
            ("it's", "it\u{2019}s"),
            ("that's", "that\u{2019}s"),
            ("what's", "what\u{2019}s"),
            ("there's", "there\u{2019}s"),
            ("here's", "here\u{2019}s"),
            ("who's", "who\u{2019}s"),
            ("she's", "she\u{2019}s"),
            ("he's", "he\u{2019}s"),
            ("let's", "let\u{2019}s"),
            ("I've", "I\u{2019}ve"),
            ("you've", "you\u{2019}ve"),
            ("we've", "we\u{2019}ve"),
            ("they've", "they\u{2019}ve"),
            ("I'll", "I\u{2019}ll"),
            ("you'll", "you\u{2019}ll"),
            ("we'll", "we\u{2019}ll"),
            ("they'll", "they\u{2019}ll"),
            ("I'd", "I\u{2019}d"),
            ("you'd", "you\u{2019}d"),
            ("we'd", "we\u{2019}d"),
            ("they'd", "they\u{2019}d"),
            ("I'm", "I\u{2019}m"),
            ("you're", "you\u{2019}re"),
            ("we're", "we\u{2019}re"),
            ("they're", "they\u{2019}re"),
        ];
        assert(table_view(r@) =~= us_table());
        r
    }

    /// The British replacement table: the US one with `--` as a spaced en dash.
    pub fn get_gb_replacements() -> (r: Vec<(&'static str, &'static str)>)
        ensures
            table_view(r@) == gb_table(),
    {
        let us = Self::get_us_replacements();
        let ghost uv = table_view(us@);
        let dashes = chars_of("--");
        let mut r: Vec<(&'static str, &'static str)> = Vec::new();
        let mut i: usize = 0;
        while i < us.len()
            invariant
                i <= us.len(),
                uv == table_view(us@),
                uv == us_table(),
                dashes@ == "--"@,
                table_view(r@) == without_pattern(uv.take(i as int), "--"@),
            decreases us.len() - i,
        {
            assert(uv.take(i + 1).drop_last() =~= uv.take(i as int));
            let p = chars_of(us[i].0);
            if !same_chars(&p, &dashes) {
                let ghost before = table_view(r@);
                r.push(us[i]);
                assert(table_view(r@) =~= before.push(uv[i as int]));
            }
            i += 1;
        }
        assert(uv.take(i as int) =~= uv);
        let ghost before = table_view(r@);
        r.push(("--", " \u{2013} "));
        assert(table_view(r@) =~= before.push(("--"@, " \u{2013} "@)));
        r
    }

    /// US quotation marks: double quotes primary, single quotes secondary.
    pub fn apply_us_quotes(text: &str) -> (r: String)
        ensures
            r@ == us_quoted(text@),
    {
        string_of(&us_quotes_chars(&chars_of(text)))
    }

    /// British quotation marks: single quotes primary, double quotes secondary.
    pub fn apply_gb_quotes(text: &str) -> (r: String)
        ensures
            r@ == gb_quoted(text@),
    {
        string_of(&gb_quotes_chars(&chars_of(text)))
    }

    /// Thousands separated by commas (`10000` becomes `10,000`).
    pub fn format_numbers(text: &str) -> (r: String)
        ensures
            r@ == comma_grouped(text@),
    {
        string_of(&numbers_chars(&chars_of(text)))
    }

    /// All US rules: the replacement table, quotation marks, then numbers.
    pub fn apply_us_all(text: &str) -> (r: String)
        ensures
            r@ == comma_grouped(us_quoted(apply_table(text@, us_table(), us_table().len() as int))),
    {
        let table = Self::get_us_replacements();
        let a = replace_each(&chars_of(text), &table);
        let b = us_quotes_chars(&a);
        string_of(&numbers_chars(&b))
    }

    /// All British rules: the replacement table, quotation marks, then numbers.
    pub fn apply_gb_all(text: &str) -> (r: String)
        ensures
            r@ == comma_grouped(gb_quoted(apply_table(text@, gb_table(), gb_table().len() as int))),
    {
        let table = Self::get_gb_replacements();
        let a = replace_each(&chars_of(text), &table);
        let b = gb_quotes_chars(&a);
        string_of(&numbers_chars(&b))
    }
}

} // verus!
