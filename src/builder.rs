//! Output headers and the compact form of the generated script.
use vstd::prelude::*;
use crate::text::{
    chars_of, contains, occurs_at, pieces_view, push_all, push_str, replace_all, replace_str, split, split_chars, string_of, trim, trim_chars,
};

verus! {

/// The release written into output headers.
pub const VERSION: &'static str = "0.1.0";

/// The licence written into output headers.
pub const LICENSE: &'static str = "Apache-2.0";

/// The project site written into output headers.
pub const WEBSITE: &'static str = "https://reedstyle.dev";

/// The one-line header of minified output.
pub const SHORT_HEADER: &'static str = "/* ReedSTYLE v0.1.0 | Apache-2.0 | https://reedstyle.dev */\n";

/// The banner of the readable stylesheet.
pub const CSS_BANNER: &'static str = "/**\n * ReedSTYLE v0.1.0\n * Semantic HTML styling system - Write HTML, get beautiful designs\n * \n * @license Apache-2.0\n * @website https://reedstyle.dev\n * \n * Copyright 2024 ByVoss Technologies\n * Licensed under the Apache License, Version 2.0\n */\n\n";

/// The banner of the readable script.
pub const JS_BANNER: &'static str = "/**\n * ReedSTYLE JavaScript Enhancement v0.1.0\n * Optional progressive enhancement for ReedSTYLE\n * \n * @license Apache-2.0\n * @website https://reedstyle.dev\n * \n * Copyright 2024 ByVoss Technologies\n * Licensed under the Apache License, Version 2.0\n */\n\n";

/// Puts the licence header in front of a stylesheet: one line for minified
/// output, a banner otherwise.
pub fn add_css_header(css: &str, minified: bool) -> (r: String)
    ensures
        r@ == (if minified { SHORT_HEADER@ } else { CSS_BANNER@ }) + css@,
{
    let mut out: Vec<char> = Vec::new();
    if minified {
        push_str(&mut out, SHORT_HEADER);
    } else {
        push_str(&mut out, CSS_BANNER);
    }
    push_str(&mut out, css);
    string_of(&out)
}

/// Puts the licence header in front of a script: one line for minified
/// output, a banner otherwise.
pub fn add_js_header(js: &str, minified: bool) -> (r: String)
    ensures
        r@ == (if minified { SHORT_HEADER@ } else { JS_BANNER@ }) + js@,
{
    let mut out: Vec<char> = Vec::new();
    if minified {
        push_str(&mut out, SHORT_HEADER);
    } else {
        push_str(&mut out, JS_BANNER);
    }
    push_str(&mut out, js);
    string_of(&out)
}

/// The first position from `i` on where `pat` occurs in `s`.
pub open spec fn find_from(s: Seq<char>, pat: Seq<char>, i: int) -> Option<int>
    decreases s.len() + 1 - i,
{
    if i < 0 || i > s.len() {
        None
    } else if occurs_at(s, pat, i) {
        Some(i)
    } else {
        find_from(s, pat, i + 1)
    }
}

/// One line of script without its `//` comment (unless a quote comes
/// before it, which may open a string), trimmed.
pub open spec fn strip_line(line: Seq<char>) -> Seq<char> {
    match find_from(line, "//"@, 0) {
        Some(p) => {
            let before = line.subrange(0, p);
            if !before.contains('"') && !before.contains('\'') {
                trim(before)
            } else {
                trim(line)
            }
        },
        None => trim(line),
    }
}

/// The non-empty stripped lines among the first `n`, joined by spaces.
pub open spec fn join_lines(lines: Seq<Seq<char>>, n: int) -> Seq<char>
    decreases n,
{
    if n <= 0 {
        Seq::empty()
    } else {
        let prev = join_lines(lines, n - 1);
        let cur = strip_line(lines[n - 1]);
        if cur.len() == 0 {
            prev
        } else if prev.len() == 0 {
            cur
        } else {
            prev + seq![' '] + cur
        }
    }
}

/// The compact form of a script: comments dropped, lines trimmed and joined,
/// spaces around operators and punctuation removed.
pub open spec fn compact_js(js: Seq<char>) -> Seq<char> {
    let lines = split(js, '\n');
    let joined = join_lines(lines, lines.len() as int);
    let s0 = joined;
    let s1 = replace_all(s0, "  "@, " "@);
    let s2 = replace_all(s1, " = "@, "="@);
    let s3 = replace_all(s2, " + "@, "+"@);
    let s4 = replace_all(s3, " - "@, "-"@);
    let s5 = replace_all(s4, " * "@, "*"@);
    let s6 = replace_all(s5, " / "@, "/"@);
    let s7 = replace_all(s6, " { "@, "{"@);
    let s8 = replace_all(s7, " } "@, "}"@);
    let s9 = replace_all(s8, "; "@, ";"@);
    let s10 = replace_all(s9, ": "@, ":"@);
    let s11 = replace_all(s10, ", "@, ","@);
    s11
}

fn has_char(s: &Vec<char>, c: char) -> (r: bool)
    ensures
        r == s@.contains(c),
{
    let mut i: usize = 0;
    while i < s.len()
        invariant
            i <= s.len(),
            forall|k: int| 0 <= k < i ==> s@[k] != c,
        decreases s.len() - i,
    {
        if s[i] == c {
            return true;
        }
        i += 1;
    }
    false
}

fn strip_before(line: &Vec<char>, p: usize) -> (r: Vec<char>)
    requires
        p <= line.len(),
        find_from(line@, "//"@, 0) == Some(p as int),
    ensures
        r@ == strip_line(line@),
{
    let mut before: Vec<char> = Vec::new();
    let mut k: usize = 0;
    while k < p
        invariant
            k <= p <= line.len(),
            before@ == line@.subrange(0, k as int),
        decreases p - k,
    {
        before.push(line[k]);
        k += 1;
        assert(before@ =~= line@.subrange(0, k as int));
    }
    if !has_char(&before, '"') && !has_char(&before, '\'') {
        trim_chars(&before)
    } else {
        trim_chars(line)
    }
}

fn strip_line_chars(line: &Vec<char>) -> (r: Vec<char>)
    ensures
        r@ == strip_line(line@),
{
    let pat = chars_of("//");
    let mut p: usize = 0;
    loop
        invariant
            p <= line.len(),
            pat@ == "//"@,
            find_from(line@, "//"@, 0) == find_from(line@, "//"@, p as int),
        decreases line.len() - p,
    {
        if crate::text::matches_at(line, &pat, p) {
            return strip_before(line, p);
        }
        if p == line.len() {
            assert(find_from(line@, "//"@, p + 1) is None);
            return trim_chars(line);
        }
        p += 1;
    }
}

/// Compacts a script: comments dropped, lines trimmed and joined, spaces
/// around operators and punctuation removed.
pub fn basic_minify_js(js: &str) -> (r: String)
    ensures
        r@ == compact_js(js@),
{
    let lines = split_chars(&chars_of(js), '\n');
    let ghost lv = pieces_view(lines@);
    let mut s0: Vec<char> = Vec::new();
    let mut i: usize = 0;
    while i < lines.len()
        invariant
            i <= lines.len(),
            lv == pieces_view(lines@),
            lv == split(js@, '\n'),
            s0@ == join_lines(lv, i as int),
        decreases lines.len() - i,
    {
        assert(lv[i as int] == lines@[i as int]@);
        let cur = strip_line_chars(&lines[i]);
        if cur.len() > 0 {
            if s0.len() > 0 {
                s0.push(' ');
            }
            push_all(&mut s0, &cur);
        }
        i += 1;
    }
    proof {
        reveal_strlit("  ");
        reveal_strlit(" = ");
        reveal_strlit(" + ");
        reveal_strlit(" - ");
        reveal_strlit(" * ");
        reveal_strlit(" / ");
        reveal_strlit(" { ");
        reveal_strlit(" } ");
        reveal_strlit("; ");
        reveal_strlit(": ");
        reveal_strlit(", ");
    }
    let s1 = replace_str(&s0, "  ", " ");
    let s2 = replace_str(&s1, " = ", "=");
    let s3 = replace_str(&s2, " + ", "+");
    let s4 = replace_str(&s3, " - ", "-");
    let s5 = replace_str(&s4, " * ", "*");
    let s6 = replace_str(&s5, " / ", "/");
    let s7 = replace_str(&s6, " { ", "{");
    let s8 = replace_str(&s7, " } ", "}");
    let s9 = replace_str(&s8, "; ", ";");
    let s10 = replace_str(&s9, ": ", ":");
    let s11 = replace_str(&s10, ", ", ",");
    string_of(&s11)
}

/// The compact form of the generated script.
pub fn minify_js(js: &str) -> (r: String)
    ensures
        r@ == compact_js(js@),
{
    basic_minify_js(js)
}

} // verus!
