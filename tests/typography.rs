use reedstyle::builder::{add_css_header, basic_minify_js, minify_js};
use reedstyle::typography::english::EnglishRules;
use reedstyle::typography::french::FrenchRules;
use reedstyle::typography::german::GermanRules;
use reedstyle::typography::{generate_css, TypographyConfig};

const LDQUO: &str = "\u{201C}";
const RDQUO: &str = "\u{201D}";
const LSQUO: &str = "\u{2018}";
const RSQUO: &str = "\u{2019}";
const LAQUO: &str = "\u{00AB}";
const RAQUO: &str = "\u{00BB}";
const NBSP: &str = "\u{00A0}";
const NNBSP: &str = "\u{202F}";
const LDQUO_DE: &str = "\u{201E}";
const RDQUO_DE: &str = "\u{201C}";
const LSQUO_DE: &str = "\u{201A}";
const RSQUO_DE: &str = "\u{2018}";

#[test]
fn test_us_quotes() {
    assert_eq!(
        EnglishRules::apply_us_quotes("\"Hello world\""),
        format!("{}Hello world{}", LDQUO, RDQUO)
    );
    assert_eq!(
        EnglishRules::apply_us_quotes("'Hello'"),
        format!("{}Hello{}", LSQUO, RSQUO)
    );
}

#[test]
fn test_gb_quotes() {
    assert_eq!(
        EnglishRules::apply_gb_quotes("'Hello world'"),
        format!("{}Hello world{}", LSQUO, RSQUO)
    );
    assert_eq!(
        EnglishRules::apply_gb_quotes("\"Hello\""),
        format!("{}Hello{}", LDQUO, RDQUO)
    );
}

#[test]
fn english_test_number_formatting() {
    assert_eq!(EnglishRules::format_numbers("10000"), "10,000");
    assert_eq!(EnglishRules::format_numbers("1000000"), "1,000,000");
}

#[test]
fn test_contractions() {
    let text = "I can't believe it's working!";
    let result = EnglishRules::apply_us_all(text);
    assert!(result.contains(&format!("can{}t", RSQUO)));
    assert!(result.contains(&format!("it{}s", RSQUO)));
}

#[test]
fn test_guillemets() {
    assert_eq!(
        FrenchRules::apply_quotes("\"Bonjour\""),
        format!("{} Bonjour {}", LAQUO, RAQUO)
    );
    assert_eq!(
        FrenchRules::apply_quotes("'Salut'"),
        format!("{}Salut{}", LDQUO, RDQUO)
    );
}

#[test]
fn french_test_number_formatting() {
    assert_eq!(FrenchRules::format_numbers("10000"), format!("10{}000", NBSP));
    assert_eq!(FrenchRules::format_numbers("29.99"), "29,99");
    assert_eq!(
        FrenchRules::format_numbers("Prix : 29,99 €"),
        format!("Prix{}: 29,99{}€", NNBSP, NBSP)
    );
}

#[test]
fn test_punctuation_spacing() {
    let text = "Quoi ? C'est vrai !";
    let result = FrenchRules::format_numbers(text);
    assert!(result.contains(&format!("{}?", NNBSP)));
    assert!(result.contains(&format!("{}!", NNBSP)));
}

#[test]
fn test_abbreviations() {
    assert_eq!(GermanRules::apply_all("z. B. diese"), format!("z.{}B. diese", NBSP));
    assert_eq!(GermanRules::apply_all("d. h. das"), format!("d.{}h. das", NBSP));
}

#[test]
fn german_test_number_formatting() {
    assert_eq!(GermanRules::format_numbers("10000"), format!("10{}000", NNBSP));
    assert_eq!(GermanRules::format_numbers("10 kg"), format!("10{}kg", NNBSP));
    assert_eq!(GermanRules::format_numbers("29,99 €"), format!("29,99{}€", NBSP));
}

#[test]
fn test_quotes() {
    assert_eq!(
        GermanRules::apply_quotes("\"Hallo Welt\""),
        format!("{}Hallo Welt{}", LDQUO_DE, RDQUO_DE)
    );
    assert_eq!(
        GermanRules::apply_quotes("'Hallo'"),
        format!("{}Hallo{}", LSQUO_DE, RSQUO_DE)
    );
}

#[test]
fn single_quote_is_left_alone() {
    assert_eq!(EnglishRules::apply_us_quotes("a \"b"), "a \"b");
    assert_eq!(EnglishRules::apply_us_quotes("it's 'x'"), "it's 'x'");
}

#[test]
fn british_table_uses_spaced_en_dash() {
    let gb = EnglishRules::get_gb_replacements();
    let us = EnglishRules::get_us_replacements();
    assert_eq!(gb.len(), us.len());
    assert_eq!(gb.last(), Some(&("--", " \u{2013} ")));
    assert!(!gb[..gb.len() - 1].iter().any(|(p, _)| *p == "--"));
    assert_eq!(EnglishRules::apply_gb_all("a--b"), "a \u{2013} b");
    assert_eq!(EnglishRules::apply_us_all("a--b..."), "a\u{2014}b\u{2026}");
}

#[test]
fn french_and_german_tables() {
    assert_eq!(FrenchRules::get_replacements().len(), 8);
    assert_eq!(FrenchRules::apply_all("M. Dupont"), format!("M.{}Dupont", NBSP));
    assert_eq!(GermanRules::get_replacements().len(), 17);
    assert_eq!(GermanRules::apply_all("5 - 10"), "5\u{2013}10");
    assert_eq!(GermanRules::format_abbreviations("i. d. R."), format!("i.{}d.{}R.", NBSP, NBSP));
}

#[test]
fn typography_css_and_defaults() {
    let css = generate_css();
    assert!(css.starts_with("  /* ========== Typography Features ========== */\n"));
    assert!(css.contains("reed[text*=\"measure:wide\"] { max-width: 85ch; }"));
    let cfg = TypographyConfig::default();
    assert_eq!(cfg.default_filter, "smart");
    assert_eq!(cfg.languages.len(), 4);
    assert_eq!(cfg.languages[3].1.quotes.0, "\u{00AB} ");
}

#[test]
fn js_is_compacted_and_headed() {
    let js = "var a = 1; // one\n\n  if (a) { b(a, 2); }\nvar s = \"x\"; // kept\n";
    assert_eq!(basic_minify_js(js), "var a=1;if (a){b(a,2);}var s=\"x\";// kept");
    assert_eq!(minify_js(js), basic_minify_js(js));
    assert_eq!(
        add_css_header(".a{}", true),
        "/* ReedSTYLE v0.1.0 | Apache-2.0 | https://reedstyle.dev */\n.a{}"
    );
    assert!(add_css_header(".a{}", false).ends_with(" */\n\n.a{}"));
}

#[test]
fn grouped_millions_suppress_regrouping() {
    assert_eq!(EnglishRules::format_numbers("1,000,000 and 1234567"), "1,000,000 and 1234567");
    assert_eq!(EnglishRules::format_numbers("1234567"), "1,234,567");
    assert_eq!(EnglishRules::format_numbers("12 345"), "12 345");
}

#[test]
fn grouping_choice_follows_millions_flag() {
    assert_eq!(EnglishRules::choose_grouping("a", true, "b"), "a");
    assert_eq!(EnglishRules::choose_grouping("a", false, "b"), "b");
}
