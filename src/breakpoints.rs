//! Responsive breakpoints: mobile-first media queries per namespace.
use vstd::prelude::*;
use crate::text::{chars_of, push_str, string_of};

verus! {

/// The attribute name of a namespace at a breakpoint, e.g. `box-tablet`.
pub fn namespace_attribute(namespace: &str, suffix: &str) -> (r: String)
    ensures
        r@ == namespace@ + suffix@,
{
    let mut out: Vec<char> = Vec::new();
    push_str(&mut out, namespace);
    push_str(&mut out, suffix);
    string_of(&out)
}

/// The view of an optional width.
pub open spec fn width_view(w: Option<&str>) -> Option<Seq<char>> {
    match w {
        Some(x) => Some(x@),
        None => None,
    }
}

/// `css` inside a `min-width` media query, or unchanged without a width.
pub open spec fn wrapped(css: Seq<char>, min_width: Option<Seq<char>>) -> Seq<char> {
    match min_width {
        Some(w) => "@media (min-width: "@ + w + ") {\n"@ + css + "}\n"@,
        None => css,
    }
}

/// Wraps `css` in a `min-width` media query when a width is given.
pub fn wrap_in_media_query(css: &str, min_width: Option<&str>) -> (r: String)
    ensures
        r@ == wrapped(css@, width_view(min_width)),
{
    match min_width {
        Some(width) => {
            let mut out: Vec<char> = Vec::new();
            push_str(&mut out, "@media (min-width: ");
            push_str(&mut out, width);
            push_str(&mut out, ") {\n");
            push_str(&mut out, css);
            push_str(&mut out, "}\n");
            string_of(&out)
        },
        None => String::from_str(css),
    }
}

/// The breakpoints: attribute suffix and minimum width; the base one has
/// no media query.
pub open spec fn breakpoint_table() -> Seq<(Seq<char>, Option<Seq<char>>)> {
    seq![
        (""@, None),
        ("-phone"@, Some("320px"@)),
        ("-tablet"@, Some("560px"@)),
        ("-screen"@, Some("960px"@)),
        ("-wide"@, Some("1260px"@)),
    ]
}

/// The breakpoints: attribute suffix and minimum width.
pub fn breakpoints() -> (r: Vec<(&'static str, Option<&'static str>)>)
    ensures
        r@.len() == 5,
        r@.map_values(|b: (&str, Option<&str>)| (b.0@, width_view(b.1))) == breakpoint_table(),
{
    let r = vec![
        ("", None),
        ("-phone", Some("320px")),
        ("-tablet", Some("560px")),
        ("-screen", Some("960px")),
        ("-wide", Some("1260px")),
    ];
    assert(r@.map_values(|b: (&str, Option<&str>)| (b.0@, width_view(b.1))) =~= breakpoint_table());
    r
}

/// The responsive stylesheet made of `outputs`, the CSS generated for each
/// breakpoint's attribute: the non-empty ones, wrapped in their media
/// queries, in breakpoint order.
pub open spec fn responsive(outputs: Seq<Seq<char>>, n: int) -> Seq<char>
    decreases n,
{
    if n <= 0 {
        Seq::empty()
    } else if outputs[n - 1].len() > 0 {
        responsive(outputs, n - 1) + wrapped(outputs[n - 1], breakpoint_table()[n - 1].1)
    } else {
        responsive(outputs, n - 1)
    }
}

/// Assembles the responsive stylesheet from the CSS generated for each
/// breakpoint, in breakpoint order.
pub fn assemble_responsive(outputs: &Vec<String>) -> (r: String)
    requires
        outputs@.len() == 5,
    ensures
        r@ == responsive(outputs@.map_values(|o: String| o@), 5),
{
    let ghost ov = outputs@.map_values(|o: String| o@);
    let table = breakpoints();
    let ghost tv = table@.map_values(|b: (&str, Option<&str>)| (b.0@, width_view(b.1)));
    let mut out: Vec<char> = Vec::new();
    let mut i: usize = 0;
    while i < 5
        invariant
            i <= 5,
            outputs@.len() == 5,
            table@.len() == 5,
            ov == outputs@.map_values(|o: String| o@),
            tv == table@.map_values(|b: (&str, Option<&str>)| (b.0@, width_view(b.1))),
            tv == breakpoint_table(),
            out@ == responsive(ov, i as int),
        decreases 5 - i,
    {
        assert(ov[i as int] == outputs@[i as int]@);
        assert(tv[i as int].1 == width_view(table@[i as int].1));
        if chars_of(outputs[i].as_str()).len() > 0 {
            let w = wrap_in_media_query(outputs[i].as_str(), table[i].1);
            push_str(&mut out, w.as_str());
        }
        i += 1;
    }
    string_of(&out)
}

/// The responsive stylesheet of a namespace: `generate_fn` is called with the
/// attribute name at each breakpoint, and its non-empty output wrapped in
/// that breakpoint's media query.
pub fn generate_responsive<F: Fn(&str) -> String>(namespace: &str, generate_fn: F) -> (r: String)
    requires
        forall|a: &str| generate_fn.requires((a,)),
    ensures
        exists|args: Seq<&str>, outs: Seq<String>|
            {
                &&& args.len() == 5
                &&& outs.len() == 5
                &&& forall|i: int|
                    0 <= i < 5 ==> (#[trigger] args[i])@ == namespace@ + breakpoint_table()[i].0
                        && generate_fn.ensures((args[i],), outs[i])
                &&& r@ == responsive(outs.map_values(|o: String| o@), 5)
            },
{
    let table = breakpoints();
    let ghost tv = table@.map_values(|b: (&str, Option<&str>)| (b.0@, width_view(b.1)));
    let mut outputs: Vec<String> = Vec::new();
    let ghost mut args: Seq<&str> = Seq::empty();
    let mut i: usize = 0;
    while i < table.len()
        invariant
            i <= table.len(),
            table@.len() == 5,
            tv == table@.map_values(|b: (&str, Option<&str>)| (b.0@, width_view(b.1))),
            tv == breakpoint_table(),
            outputs@.len() == i,
            args.len() == i,
            forall|a: &str| generate_fn.requires((a,)),
            forall|k: int|
                0 <= k < i ==> (#[trigger] args[k])@ == namespace@ + breakpoint_table()[k].0
                    && generate_fn.ensures((args[k],), outputs@[k]),
        decreases table.len() - i,
    {
        let attr = namespace_attribute(namespace, table[i].0);
        assert(tv[i as int].0 == table@[i as int].0@);
        let name = attr.as_str();
        let css = generate_fn(name);
        proof {
            args = args.push(name);
        }
        outputs.push(css);
        i += 1;
    }
    let r = assemble_responsive(&outputs);
    assert(outputs@.len() == 5);
    r
}

} // verus!
