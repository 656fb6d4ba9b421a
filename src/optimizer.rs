//! CSS optimiser: comment stripping, rule parsing, grouping of rules with the
//! same declarations, hoisting of repeated values and compact serialisation.
use vstd::prelude::*;
use crate::text::{
    chars_of, contains, contains_chars, decimal, decimal_chars, matches_at, occurs_at, push_all,
    push_str, replace_all, replace_str, string_of, trim, trim_chars, is_space, trim_start,
};

verus! {

// ---------------------------------------------------------------- comments

/// What remains of `s` from position `i` on once `/* ... */` comments are
/// removed; `in_comment` says whether position `i` lies inside a comment.
pub open spec fn strip_from(s: Seq<char>, i: int, in_comment: bool) -> Seq<char>
    decreases s.len() - i,
{
    if i < 0 || i >= s.len() {
        Seq::empty()
    } else if !in_comment && s[i] == '/' && i + 1 < s.len() && s[i + 1] == '*' {
        strip_from(s, i + 2, true)
    } else if in_comment && s[i] == '*' && i + 1 < s.len() && s[i + 1] == '/' {
        strip_from(s, i + 2, false)
    } else if !in_comment {
        seq![s[i]] + strip_from(s, i + 1, false)
    } else {
        strip_from(s, i + 1, true)
    }
}

/// `s` without its comments; an unterminated comment runs to the end.
pub open spec fn strip_comments(s: Seq<char>) -> Seq<char> {
    strip_from(s, 0, false)
}

/// The characters of `s` without comments.
pub fn strip_comment_chars(s: &Vec<char>) -> (r: Vec<char>)
    ensures
        r@ == strip_comments(s@),
{
    let mut r: Vec<char> = Vec::new();
    let mut in_comment = false;
    let mut i: usize = 0;
    while i < s.len()
        invariant
            i <= s.len(),
            r@ + strip_from(s@, i as int, in_comment) == strip_comments(s@),
        decreases s.len() - i,
    {
        let c = s[i];
        let next_is = |want: char| -> (b: bool)
            ensures
                b == (i + 1 < s@.len() && s@[i + 1] == want),
            { i + 1 < s.len() && s[i + 1] == want };
        if !in_comment && c == '/' && next_is('*') {
            in_comment = true;
            i += 2;
        } else if in_comment && c == '*' && next_is('/') {
            in_comment = false;
            i += 2;
        } else if !in_comment {
            let ghost before = r@;
            r.push(c);
            assert(r@ + strip_from(s@, i + 1, false) =~= before + strip_from(s@, i as int, false));
            i += 1;
        } else {
            i += 1;
        }
    }
    assert(r@ =~= r@ + strip_from(s@, i as int, in_comment));
    r
}

/// Removes `/* ... */` comments from a stylesheet.
pub fn remove_comments(css: &str) -> (r: String)
    ensures
        r@ == strip_comments(css@),
{
    let s = chars_of(css);
    let r = strip_comment_chars(&s);
    string_of(&r)
}

// ---------------------------------------------------------------- parsing

/// One `property: value` pair of a rule.
pub struct CssDeclaration {
    pub property: String,
    pub value: String,
}

impl View for CssDeclaration {
    type V = (Seq<char>, Seq<char>);

    open spec fn view(&self) -> (Seq<char>, Seq<char>) {
        (self.property@, self.value@)
    }
}

/// One brace-delimited block: its selector text and its declarations.
pub struct CssRule {
    pub selector: String,
    pub declarations: Vec<CssDeclaration>,
}

/// The view of a declaration list.
pub open spec fn decls_view(d: Seq<CssDeclaration>) -> Seq<(Seq<char>, Seq<char>)> {
    d.map_values(|x: CssDeclaration| x@)
}

impl View for CssRule {
    type V = (Seq<char>, Seq<(Seq<char>, Seq<char>)>);

    open spec fn view(&self) -> (Seq<char>, Seq<(Seq<char>, Seq<char>)>) {
        (self.selector@, decls_view(self.declarations@))
    }
}

/// The view of a rule list.
pub open spec fn rules_view(r: Seq<CssRule>) -> Seq<(Seq<char>, Seq<(Seq<char>, Seq<char>)>)> {
    r.map_values(|x: CssRule| x@)
}

/// The scanner's state after some prefix of the input.
pub struct ParseState {
    pub rules: Seq<(Seq<char>, Seq<(Seq<char>, Seq<char>)>)>,
    pub selector: Seq<char>,
    pub decls: Seq<(Seq<char>, Seq<char>)>,
    pub prop: Seq<char>,
    pub value: Seq<char>,
    pub in_selector: bool,
    pub in_value: bool,
    pub depth: int,
}

pub open spec fn initial_state() -> ParseState {
    ParseState {
        rules: Seq::empty(),
        selector: Seq::empty(),
        decls: Seq::empty(),
        prop: Seq::empty(),
        value: Seq::empty(),
        in_selector: true,
        in_value: false,
        depth: 0,
    }
}

/// The declarations with the pending one, if its property is not blank.
pub open spec fn flush_decl(st: ParseState) -> Seq<(Seq<char>, Seq<char>)> {
    if trim(st.prop).len() > 0 {
        st.decls.push((trim(st.prop), trim(st.value)))
    } else {
        st.decls
    }
}

/// Newlines, carriage returns and tabs read as spaces.
pub open spec fn fold_space(c: char) -> char {
    if c == '\n' || c == '\r' || c == '\t' {
        ' '
    } else {
        c
    }
}

/// One step of the scanner on character `c`.
pub open spec fn step(st: ParseState, c: char) -> ParseState {
    if c == '{' {
        if st.depth + 1 == 1 {
            ParseState { depth: 1, in_selector: false, selector: trim(st.selector), ..st }
        } else {
            ParseState { depth: st.depth + 1, ..st }
        }
    } else if c == '}' {
        if st.depth - 1 == 0 {
            let decls = flush_decl(st);
            ParseState {
                rules: if st.selector.len() > 0 && decls.len() > 0 {
                    st.rules.push((st.selector, decls))
                } else {
                    st.rules
                },
                ..initial_state()
            }
        } else {
            ParseState { depth: st.depth - 1, ..st }
        }
    } else if c == ':' && st.depth == 1 && !st.in_value {
        ParseState { in_value: true, ..st }
    } else if c == ';' && st.depth == 0 && st.in_selector {
        ParseState { selector: Seq::empty(), ..st }
    } else if c == ';' && st.depth == 1 {
        ParseState { decls: flush_decl(st), prop: Seq::empty(), value: Seq::empty(), in_value: false, ..st }
    } else if st.in_selector {
        ParseState { selector: st.selector.push(fold_space(c)), ..st }
    } else if st.in_value {
        ParseState { value: st.value.push(fold_space(c)), ..st }
    } else if st.depth == 1 {
        ParseState { prop: st.prop.push(fold_space(c)), ..st }
    } else {
        st
    }
}

/// The scanner's state after the first `n` characters of `s`.
pub open spec fn run(s: Seq<char>, n: int) -> ParseState
    decreases n,
{
    if n <= 0 {
        initial_state()
    } else {
        step(run(s, n - 1), s[n - 1])
    }
}

/// The rules of `s`: each block that closes at the top level with a
/// non-empty selector and at least one declaration. A `;` at the top level
/// ends a statement such as `@layer a, b;`, which is no part of the next
/// rule's selector.
pub open spec fn parse_rules(s: Seq<char>) -> Seq<(Seq<char>, Seq<(Seq<char>, Seq<char>)>)> {
    run(s, s.len() as int).rules
}

fn flush(decls: &mut Vec<CssDeclaration>, prop: &Vec<char>, value: &Vec<char>)
    ensures
        decls_view(final(decls)@) == flush_decl(
            ParseState { decls: decls_view(old(decls)@), prop: prop@, value: value@, ..initial_state() },
        ),
{
    let p = trim_chars(prop);
    if p.len() > 0 {
        let v = trim_chars(value);
        let d = CssDeclaration { property: string_of(&p), value: string_of(&v) };
        decls.push(d);
        assert(decls_view(decls@) =~= decls_view(old(decls)@).push((trim(prop@), trim(value@))));
    }
}

fn fold_space_char(c: char) -> (r: char)
    ensures
        r == fold_space(c),
{
    if c == '\n' || c == '\r' || c == '\t' {
        ' '
    } else {
        c
    }
}

/// Splits comment-free stylesheet text into its rules.
pub fn parse_rule_chars(s: &Vec<char>) -> (r: Vec<CssRule>)
    ensures
        rules_view(r@) == parse_rules(s@),
{
    let mut rules: Vec<CssRule> = Vec::new();
    let mut selector: Vec<char> = Vec::new();
    let mut decls: Vec<CssDeclaration> = Vec::new();
    let mut prop: Vec<char> = Vec::new();
    let mut value: Vec<char> = Vec::new();
    let mut in_selector = true;
    let mut in_value = false;
    let mut depth: i128 = 0;
    let mut i: usize = 0;
    while i < s.len()
        invariant
            i <= s.len(),
            -(i as int) <= depth <= i,
            ({
                let st = run(s@, i as int);
                &&& rules_view(rules@) == st.rules
                &&& selector@ == st.selector
                &&& decls_view(decls@) == st.decls
                &&& prop@ == st.prop
                &&& value@ == st.value
                &&& in_selector == st.in_selector
                &&& in_value == st.in_value
                &&& depth == st.depth
            }),
        decreases s.len() - i,
    {
        let c = s[i];
        let ghost st = run(s@, i as int);
        assert(run(s@, i + 1) == step(st, c));
        if c == '{' {
            depth = depth + 1;
            if depth == 1 {
                in_selector = false;
                selector = trim_chars(&selector);
            }
        } else if c == '}' {
            depth = depth - 1;
            if depth == 0 {
                flush(&mut decls, &prop, &value);
                if selector.len() > 0 && decls.len() > 0 {
                    let sel = string_of(&selector);
                    let ghost before = rules@;
                    rules.push(CssRule { selector: sel, declarations: decls });
                    assert(rules_view(rules@) =~= rules_view(before).push((st.selector, flush_decl(st))));
                }
                selector = Vec::new();
                decls = Vec::new();
                prop = Vec::new();
                value = Vec::new();
                in_selector = true;
                in_value = false;
                assert(decls_view(decls@) =~= Seq::<(Seq<char>, Seq<char>)>::empty());
            }
        } else if c == ':' && depth == 1 && !in_value {
            in_value = true;
        } else if c == ';' && depth == 0 && in_selector {
            selector = Vec::new();
        } else if c == ';' && depth == 1 {
            flush(&mut decls, &prop, &value);
            prop = Vec::new();
            value = Vec::new();
            in_value = false;
        } else if in_selector {
            selector.push(fold_space_char(c));
        } else if in_value {
            value.push(fold_space_char(c));
        } else if depth == 1 {
            prop.push(fold_space_char(c));
        }
        i += 1;
    }
    rules
}

// ---------------------------------------------------------------- grouping

/// How often declaration `d` occurs in `ds`.
pub open spec fn count_of(ds: Seq<(Seq<char>, Seq<char>)>, d: (Seq<char>, Seq<char>)) -> nat
    decreases ds.len(),
{
    if ds.len() == 0 {
        0
    } else {
        count_of(ds.drop_last(), d) + if ds.last() == d {
            1nat
        } else {
            0nat
        }
    }
}

/// `a` and `b` hold the same declarations, each as often, in any order.
pub open spec fn same_decls(a: Seq<(Seq<char>, Seq<char>)>, b: Seq<(Seq<char>, Seq<char>)>) -> bool {
    forall|d: (Seq<char>, Seq<char>)| #[trigger] count_of(a, d) == count_of(b, d)
}

/// Rules whose declarations are the same, merged: their selectors in the order
/// the rules came, the declarations as the first of them wrote them.
pub struct RuleGroup {
    pub selectors: Vec<String>,
    pub declarations: Vec<CssDeclaration>,
}

/// The view of a selector list.
pub open spec fn strings_view(v: Seq<String>) -> Seq<Seq<char>> {
    v.map_values(|x: String| x@)
}

impl View for RuleGroup {
    type V = (Seq<Seq<char>>, Seq<(Seq<char>, Seq<char>)>);

    open spec fn view(&self) -> (Seq<Seq<char>>, Seq<(Seq<char>, Seq<char>)>) {
        (strings_view(self.selectors@), decls_view(self.declarations@))
    }
}

/// The view of a group list.
pub open spec fn groups_view(g: Seq<RuleGroup>) -> Seq<(Seq<Seq<char>>, Seq<(Seq<char>, Seq<char>)>)> {
    g.map_values(|x: RuleGroup| x@)
}

/// The first group from index `i` on whose declarations are the same as `d`.
pub open spec fn find_from(
    gs: Seq<(Seq<Seq<char>>, Seq<(Seq<char>, Seq<char>)>)>,
    d: Seq<(Seq<char>, Seq<char>)>,
    i: int,
) -> Option<int>
    decreases gs.len() - i,
{
    if i < 0 || i >= gs.len() {
        None
    } else if same_decls(gs[i].1, d) {
        Some(i)
    } else {
        find_from(gs, d, i + 1)
    }
}

/// Adds one rule to the groups: its selector joins the group with the same
/// declarations, or it opens a new group at the end.
pub open spec fn add_rule(
    gs: Seq<(Seq<Seq<char>>, Seq<(Seq<char>, Seq<char>)>)>,
    r: (Seq<char>, Seq<(Seq<char>, Seq<char>)>),
) -> Seq<(Seq<Seq<char>>, Seq<(Seq<char>, Seq<char>)>)> {
    match find_from(gs, r.1, 0) {
        Some(k) => gs.update(k, (gs[k].0.push(r.0), gs[k].1)),
        None => gs.push((seq![r.0], r.1)),
    }
}

/// The groups of the first `n` rules.
pub open spec fn group_upto(rules: Seq<(Seq<char>, Seq<(Seq<char>, Seq<char>)>)>, n: int) -> Seq<
    (Seq<Seq<char>>, Seq<(Seq<char>, Seq<char>)>),
>
    decreases n,
{
    if n <= 0 {
        Seq::empty()
    } else {
        add_rule(group_upto(rules, n - 1), rules[n - 1])
    }
}

/// The groups of all rules, in order of first appearance.
pub open spec fn group_rules(rules: Seq<(Seq<char>, Seq<(Seq<char>, Seq<char>)>)>) -> Seq<
    (Seq<Seq<char>>, Seq<(Seq<char>, Seq<char>)>),
> {
    group_upto(rules, rules.len() as int)
}

proof fn lemma_count_contains(ds: Seq<(Seq<char>, Seq<char>)>, d: (Seq<char>, Seq<char>))
    requires
        count_of(ds, d) > 0,
    ensures
        exists|i: int| 0 <= i < ds.len() && ds[i] == d,
    decreases ds.len(),
{
    if ds.last() != d {
        lemma_count_contains(ds.drop_last(), d);
        let i = choose|i: int| 0 <= i < ds.drop_last().len() && ds.drop_last()[i] == d;
        assert(ds[i] == d);
    } else {
        assert(ds[ds.len() - 1] == d);
    }
}

fn decl_eq(a: &CssDeclaration, b: &CssDeclaration) -> (r: bool)
    ensures
        r == (a@ == b@),
{
    a.property == b.property && a.value == b.value
}

/// How often `d` occurs in `v`.
fn count_decl(v: &Vec<CssDeclaration>, d: &CssDeclaration) -> (r: usize)
    ensures
        r == count_of(decls_view(v@), d@),
{
    let ghost dv = decls_view(v@);
    let mut c: usize = 0;
    let mut j: usize = 0;
    while j < v.len()
        invariant
            j <= v.len(),
            c <= j,
            dv == decls_view(v@),
            c == count_of(dv.take(j as int), d@),
        decreases v.len() - j,
    {
        assert(dv.take(j + 1).drop_last() =~= dv.take(j as int));
        if decl_eq(&v[j], d) {
            c += 1;
        }
        j += 1;
    }
    assert(dv.take(j as int) =~= dv);
    c
}

/// Tests whether two declaration lists hold the same declarations, each as
/// often, in any order.
pub fn same_declarations(a: &Vec<CssDeclaration>, b: &Vec<CssDeclaration>) -> (r: bool)
    ensures
        r == same_decls(decls_view(a@), decls_view(b@)),
{
    let ghost av = decls_view(a@);
    let ghost bv = decls_view(b@);
    let mut i: usize = 0;
    while i < a.len()
        invariant
            i <= a.len(),
            av == decls_view(a@),
            bv == decls_view(b@),
            forall|k: int| 0 <= k < i ==> count_of(av, #[trigger] av[k]) == count_of(bv, av[k]),
        decreases a.len() - i,
    {
        if count_decl(a, &a[i]) != count_decl(b, &a[i]) {
            return false;
        }
        i += 1;
    }
    let mut j: usize = 0;
    while j < b.len()
        invariant
            j <= b.len(),
            av == decls_view(a@),
            bv == decls_view(b@),
            forall|k: int| 0 <= k < a.len() ==> count_of(av, #[trigger] av[k]) == count_of(bv, av[k]),
            forall|k: int| 0 <= k < j ==> count_of(av, #[trigger] bv[k]) == count_of(bv, bv[k]),
        decreases b.len() - j,
    {
        if count_decl(a, &b[j]) != count_decl(b, &b[j]) {
            return false;
        }
        j += 1;
    }
    assert forall|d: (Seq<char>, Seq<char>)| #[trigger] count_of(av, d) == count_of(bv, d) by {
        if count_of(av, d) > 0 {
            lemma_count_contains(av, d);
        } else if count_of(bv, d) > 0 {
            lemma_count_contains(bv, d);
        }
    }
    true
}

fn clone_decls(v: &Vec<CssDeclaration>) -> (r: Vec<CssDeclaration>)
    ensures
        decls_view(r@) == decls_view(v@),
{
    let mut r: Vec<CssDeclaration> = Vec::new();
    let mut i: usize = 0;
    while i < v.len()
        invariant
            i <= v.len(),
            decls_view(r@) == decls_view(v@).take(i as int),
        decreases v.len() - i,
    {
        let d = CssDeclaration { property: v[i].property.clone(), value: v[i].value.clone() };
        assert(d@ == v@[i as int]@);
        let ghost before = r@;
        r.push(d);
        assert(decls_view(r@) =~= decls_view(before).push(d@));
        assert(decls_view(v@).take(i + 1) =~= decls_view(v@).take(i as int).push(d@));
        i += 1;
    }
    assert(decls_view(v@).take(i as int) =~= decls_view(v@));
    r
}

/// Merges rules whose declarations are the same (in any order) into groups,
/// kept in order of first appearance.
pub fn group_identical_rules(rules: &Vec<CssRule>) -> (r: Vec<RuleGroup>)
    ensures
        groups_view(r@) == group_rules(rules_view(rules@)),
{
    let ghost rv = rules_view(rules@);
    let mut groups: Vec<RuleGroup> = Vec::new();
    let mut i: usize = 0;
    while i < rules.len()
        invariant
            i <= rules.len(),
            rv == rules_view(rules@),
            groups_view(groups@) == group_upto(rv, i as int),
        decreases rules.len() - i,
    {
        let rule = &rules[i];
        let ghost gs = groups_view(groups@);
        let mut k: usize = 0;
        while k < groups.len() && !same_declarations(&groups[k].declarations, &rule.declarations)
            invariant
                k <= groups.len(),
                gs == groups_view(groups@),
                find_from(gs, rule@.1, 0) == find_from(gs, rule@.1, k as int),
            decreases groups.len() - k,
        {
            k += 1;
        }
        let sel = rule.selector.clone();
        if k < groups.len() {
            let mut g = RuleGroup { selectors: Vec::new(), declarations: Vec::new() };
            groups.set_and_swap(k, &mut g);
            let ghost old_sels = g.selectors@;
            assert(g@ == gs[k as int]);
            g.selectors.push(sel);
            assert(strings_view(g.selectors@) =~= strings_view(old_sels).push(rule@.0));
            groups.set_and_swap(k, &mut g);
            assert(groups_view(groups@) =~= gs.update(k as int, (gs[k as int].0.push(rule@.0), gs[k as int].1)));
        } else {
            let mut sels: Vec<String> = Vec::new();
            sels.push(sel);
            let g = RuleGroup { selectors: sels, declarations: clone_decls(&rule.declarations) };
            groups.push(g);
            assert(strings_view(sels@) =~= seq![rule@.0]);
            assert(groups_view(groups@) =~= gs.push((seq![rule@.0], rule@.1)));
        }
        assert(rv[i as int] == rule@);
        i += 1;
    }
    assert(rv.len() == rules.len());
    groups
}

// ---------------------------------------------------------------- hoisting

/// A value worth considering for a shared custom property: longer than ten
/// characters, not already a `var(...)` reference, and not an `oklch` colour.
pub open spec fn hoistable(v: Seq<char>) -> bool {
    v.len() > 10 && !occurs_at(v, "var("@, 0) && !contains(v, "oklch"@)
}

/// The hoistable values of the first `n` declarations of `ds`, in order.
pub open spec fn decl_values(ds: Seq<(Seq<char>, Seq<char>)>, n: int) -> Seq<Seq<char>>
    decreases n,
{
    if n <= 0 {
        Seq::empty()
    } else if hoistable(ds[n - 1].1) {
        decl_values(ds, n - 1).push(ds[n - 1].1)
    } else {
        decl_values(ds, n - 1)
    }
}

/// The hoistable values of the first `n` groups, in order.
pub open spec fn group_values(gs: Seq<(Seq<Seq<char>>, Seq<(Seq<char>, Seq<char>)>)>, n: int) -> Seq<
    Seq<char>,
>
    decreases n,
{
    if n <= 0 {
        Seq::empty()
    } else {
        group_values(gs, n - 1) + decl_values(gs[n - 1].1, gs[n - 1].1.len() as int)
    }
}

/// How often `v` occurs in `vals`.
pub open spec fn occurrences(vals: Seq<Seq<char>>, v: Seq<char>) -> nat
    decreases vals.len(),
{
    if vals.len() == 0 {
        0
    } else {
        occurrences(vals.drop_last(), v) + if vals.last() == v {
            1nat
        } else {
            0nat
        }
    }
}

/// The values of `vals` without repeats, in order of first occurrence.
pub open spec fn distinct(vals: Seq<Seq<char>>) -> Seq<Seq<char>>
    decreases vals.len(),
{
    if vals.len() == 0 {
        Seq::empty()
    } else if distinct(vals.drop_last()).contains(vals.last()) {
        distinct(vals.drop_last())
    } else {
        distinct(vals.drop_last()).push(vals.last())
    }
}

/// Hoisting a value that occurs `count` times under the name `name` is worth
/// it: at least five uses, and the uses save more than the declaration costs.
pub open spec fn worth_hoisting(v: Seq<char>, count: nat, name: Seq<char>) -> bool {
    count >= 5 && v.len() * count > name.len() + v.len() + 10
}

/// The (name, value) pairs chosen among the first `n` candidates; names are
/// the ordinals `0`, `1`, ... in the order the values are chosen.
pub open spec fn pick(cands: Seq<Seq<char>>, vals: Seq<Seq<char>>, n: int) -> Seq<(Seq<char>, Seq<char>)>
    decreases n,
{
    if n <= 0 {
        Seq::empty()
    } else {
        let prev = pick(cands, vals, n - 1);
        let v = cands[n - 1];
        let name = decimal(prev.len());
        if worth_hoisting(v, occurrences(vals, v), name) {
            prev.push((name, v))
        } else {
            prev
        }
    }
}

/// The values of the groups that become shared custom properties, with
/// their generated names, in order of first occurrence.
pub open spec fn hoisted(gs: Seq<(Seq<Seq<char>>, Seq<(Seq<char>, Seq<char>)>)>) -> Seq<(Seq<char>, Seq<char>)> {
    let vals = group_values(gs, gs.len() as int);
    let cands = distinct(vals);
    pick(cands, vals, cands.len() as int)
}

/// A value hoisted into the custom property `--_<name>`.
pub struct HoistedValue {
    pub name: String,
    pub value: String,
}

impl View for HoistedValue {
    type V = (Seq<char>, Seq<char>);

    open spec fn view(&self) -> (Seq<char>, Seq<char>) {
        (self.name@, self.value@)
    }
}

/// The view of a list of hoisted values.
pub open spec fn hoisted_view(v: Seq<HoistedValue>) -> Seq<(Seq<char>, Seq<char>)> {
    v.map_values(|x: HoistedValue| x@)
}

/// Tests whether a value may be hoisted.
fn is_hoistable(v: &String) -> (r: bool)
    ensures
        r == hoistable(v@),
{
    let c = chars_of(v.as_str());
    if c.len() <= 10 {
        return false;
    }
    let var_open = chars_of("var(");
    if matches_at(&c, &var_open, 0) {
        return false;
    }
    let oklch = chars_of("oklch");
    !contains_chars(&c, &oklch)
}

/// The hoistable values of all declarations of all groups, in order.
fn collect_values(groups: &Vec<RuleGroup>) -> (r: Vec<String>)
    ensures
        strings_view(r@) == group_values(groups_view(groups@), groups@.len() as int),
{
    let ghost gv = groups_view(groups@);
    let mut r: Vec<String> = Vec::new();
    let mut i: usize = 0;
    while i < groups.len()
        invariant
            i <= groups.len(),
            gv == groups_view(groups@),
            strings_view(r@) == group_values(gv, i as int),
        decreases groups.len() - i,
    {
        let ds = &groups[i].declarations;
        let ghost dv = decls_view(ds@);
        assert(gv[i as int].1 == dv);
        let mut j: usize = 0;
        while j < ds.len()
            invariant
                j <= ds.len(),
                i < groups.len(),
                gv == groups_view(groups@),
                dv == decls_view(ds@),
                ds == &groups@[i as int].declarations,
                strings_view(r@) == group_values(gv, i as int) + decl_values(dv, j as int),
            decreases ds.len() - j,
        {
            if is_hoistable(&ds[j].value) {
                let ghost before = r@;
                r.push(ds[j].value.clone());
                assert(strings_view(r@) =~= strings_view(before).push(dv[j as int].1));
                assert(group_values(gv, i as int) + decl_values(dv, j + 1) =~= (group_values(
                    gv,
                    i as int,
                ) + decl_values(dv, j as int)).push(dv[j as int].1));
            }
            j += 1;
        }
        i += 1;
    }
    r
}

proof fn lemma_occurrences_take(vals: Seq<Seq<char>>, i: int, x: Seq<char>)
    requires
        0 <= i < vals.len(),
    ensures
        occurrences(vals.take(i + 1), x) == occurrences(vals.take(i), x) + if vals[i] == x {
            1nat
        } else {
            0nat
        },
        distinct(vals.take(i + 1)) == if distinct(vals.take(i)).contains(vals[i]) {
            distinct(vals.take(i))
        } else {
            distinct(vals.take(i)).push(vals[i])
        },
{
    assert(vals.take(i + 1).drop_last() =~= vals.take(i));
}

/// Chooses the values worth turning into shared custom properties and names
/// them `0`, `1`, ... in order of first occurrence.
pub fn extract_common_values(groups: &Vec<RuleGroup>) -> (r: Vec<HoistedValue>)
    ensures
        hoisted_view(r@) == hoisted(groups_view(groups@)),
{
    let vals = collect_values(groups);
    let ghost vv = strings_view(vals@);
    let mut cands: Vec<String> = Vec::new();
    let mut counts: Vec<usize> = Vec::new();
    let mut i: usize = 0;
    while i < vals.len()
        invariant
            i <= vals.len(),
            vv == strings_view(vals@),
            cands.len() == counts.len(),
            strings_view(cands@) == distinct(vv.take(i as int)),
            forall|a: int, b: int| 0 <= a < b < cands.len() ==> cands@[a]@ != cands@[b]@,
            forall|k: int| 0 <= k < counts.len() ==> #[trigger] counts@[k] <= i,
            forall|k: int| 0 <= k < cands.len() ==> counts@[k] == occurrences(
                vv.take(i as int),
                #[trigger] cands@[k]@,
            ),
            forall|x: Seq<char>| (forall|k: int| 0 <= k < cands.len() ==> cands@[k]@ != x) ==> #[trigger] occurrences(vv.take(i as int), x) == 0,
        decreases vals.len() - i,
    {
        let v = &vals[i];
        proof {
            assert(vv[i as int] == v@);
        }
        let mut k: usize = 0;
        while k < cands.len() && !(cands[k] == *v)
            invariant
                k <= cands.len(),
                forall|m: int| 0 <= m < k ==> cands@[m]@ != v@,
            decreases cands.len() - k,
        {
            k += 1;
        }
        let ghost counts0 = counts@;
        let ghost cands0 = cands@;
        let ghost old_cands = strings_view(cands@);
        proof {
            lemma_occurrences_take(vv, i as int, v@);
        }
        if k < cands.len() {
            let c = counts[k];
            counts.set(k, c + 1);
            assert(old_cands.contains(v@)) by {
                assert(old_cands[k as int] == v@);
            }
        } else {
            cands.push(v.clone());
            counts.push(1);
            assert(!old_cands.contains(v@)) by {
                if old_cands.contains(v@) {
                    let m = choose|m: int| 0 <= m < old_cands.len() && old_cands[m] == v@;
                    assert(cands0[m]@ == old_cands[m]);
                }
            }
            assert(strings_view(cands@) =~= old_cands.push(v@));
            assert(occurrences(vv.take(i as int), v@) == 0);
        }
        proof {
            assert forall|m: int| 0 <= m < cands.len() implies counts@[m]
                == occurrences(vv.take(i + 1), #[trigger] cands@[m]@) by {
                lemma_occurrences_take(vv, i as int, cands@[m]@);
                if m < cands0.len() {
                    assert(cands@[m] == cands0[m]);
                    assert(counts0[m] == occurrences(vv.take(i as int), cands0[m]@));
                    if m != k {
                        assert(cands0[m]@ != v@);
                    }
                }
            }
            assert forall|x: Seq<char>|
                (forall|m: int| 0 <= m < cands.len() ==> cands@[m]@ != x) implies #[trigger] occurrences(
                vv.take(i + 1),
                x,
            ) == 0 by {
                lemma_occurrences_take(vv, i as int, x);
                if k < cands0.len() {
                    assert(cands@[k as int]@ == v@);
                } else {
                    assert(cands@[cands0.len() as int]@ == v@);
                }
                assert forall|m: int| 0 <= m < cands0.len() implies cands0[m]@ != x by {
                    assert(cands@[m] == cands0[m]);
                }
                assert(occurrences(vv.take(i as int), x) == 0);
            }
        }
        let ghost i0 = i as int;
        i += 1;
        assert(vv.take(i as int) == vv.take(i0 + 1));
        assert forall|m: int| 0 <= m < counts.len() implies #[trigger] counts@[m] <= i by {
            if m < counts0.len() {
                assert(counts0[m] <= i0);
            }
        }
    }
    assert(vv.take(i as int) =~= vv);
    let ghost cv = strings_view(cands@);
    let mut r: Vec<HoistedValue> = Vec::new();
    let mut k: usize = 0;
    while k < cands.len()
        invariant
            k <= cands.len(),
            cands.len() == counts.len(),
            cv == strings_view(cands@),
            cv == distinct(vv),
            r.len() <= k,
            forall|m: int| 0 <= m < cands.len() ==> counts@[m] == occurrences(vv, #[trigger] cands@[m]@),
            hoisted_view(r@) == pick(cv, vv, k as int),
        decreases cands.len() - k,
    {
        let name = decimal_chars(r.len());
        let v = &cands[k];
        let n = chars_of(v.as_str());
        let count = counts[k];
        assert(cv[k as int] == v@);
        proof {
            let a = n.len() as int;
            let b = count as int;
            assert(0 <= a <= usize::MAX && 0 <= b <= usize::MAX ==> a * b <= usize::MAX * usize::MAX)
                by (nonlinear_arith);
        }
        if count >= 5 && (n.len() as u128) * (count as u128) > (name.len() as u128) + (
        n.len() as u128) + 10 {
            let ghost before = r@;
            r.push(HoistedValue { name: string_of(&name), value: v.clone() });
            assert(hoisted_view(r@) =~= hoisted_view(before).push((decimal(before.len() as nat), v@)));
        }
        k += 1;
    }
    r
}

proof fn lemma_pick_prefix(cands: Seq<Seq<char>>, vals: Seq<Seq<char>>, m: int, n: int)
    requires
        0 <= m <= n,
    ensures
        pick(cands, vals, m).len() <= pick(cands, vals, n).len(),
        pick(cands, vals, n).subrange(0, pick(cands, vals, m).len() as int) == pick(cands, vals, m),
    decreases n - m,
{
    if m < n {
        lemma_pick_prefix(cands, vals, m, n - 1);
        let a = pick(cands, vals, m);
        let b = pick(cands, vals, n - 1);
        let c = pick(cands, vals, n);
        assert(c.subrange(0, a.len() as int) =~= b.subrange(0, a.len() as int));
    } else {
        assert(pick(cands, vals, n).subrange(0, pick(cands, vals, n).len() as int) =~= pick(cands, vals, n));
    }
}

proof fn lemma_pick_chosen(cands: Seq<Seq<char>>, vals: Seq<Seq<char>>, n: int)
    requires
        0 <= n <= cands.len(),
    ensures
        forall|i: int|
            0 <= i < pick(cands, vals, n).len() ==> occurrences(vals, #[trigger] pick(cands, vals, n)[i].1)
                >= 5 && cands.contains(pick(cands, vals, n)[i].1),
    decreases n,
{
    if n > 0 {
        lemma_pick_chosen(cands, vals, n - 1);
        let prev = pick(cands, vals, n - 1);
        let cur = pick(cands, vals, n);
        assert forall|i: int| 0 <= i < cur.len() implies occurrences(vals, #[trigger] cur[i].1) >= 5
            && cands.contains(cur[i].1) by {
            if i < prev.len() {
                assert(cur[i] == prev[i]);
            } else {
                assert(cands[n - 1] == cur[i].1);
            }
        }
    }
}

proof fn lemma_distinct_has(vals: Seq<Seq<char>>, v: Seq<char>)
    ensures
        occurrences(vals, v) > 0 ==> distinct(vals).contains(v),
        distinct(vals).contains(v) ==> vals.contains(v),
    decreases vals.len(),
{
    if vals.len() > 0 {
        lemma_distinct_has(vals.drop_last(), v);
        let d = distinct(vals.drop_last());
        if d.contains(v) {
            let k = choose|k: int| 0 <= k < d.len() && d[k] == v;
            if !d.contains(vals.last()) {
                assert(distinct(vals)[k] == v);
            }
        }
        if vals.drop_last().contains(v) {
            let k = choose|k: int| 0 <= k < vals.drop_last().len() && vals.drop_last()[k] == v;
            assert(vals[k] == v);
        }
        if vals.last() == v {
            assert(vals[vals.len() - 1] == v);
            if !d.contains(v) {
                assert(distinct(vals)[d.len() as int] == v);
            }
        }
    }
}

proof fn lemma_group_values_hoistable(gs: Seq<(Seq<Seq<char>>, Seq<(Seq<char>, Seq<char>)>)>, n: int)
    ensures
        forall|i: int| 0 <= i < group_values(gs, n).len() ==> hoistable(#[trigger] group_values(gs, n)[i]),
    decreases n,
{
    if n > 0 {
        lemma_group_values_hoistable(gs, n - 1);
        let ds = gs[n - 1].1;
        lemma_decl_values_hoistable(ds, ds.len() as int);
        let a = group_values(gs, n - 1);
        let b = decl_values(ds, ds.len() as int);
        assert forall|i: int| 0 <= i < group_values(gs, n).len() implies hoistable(#[trigger] group_values(gs, n)[i]) by {
            if i < a.len() {
                assert(group_values(gs, n)[i] == a[i]);
            } else {
                assert(group_values(gs, n)[i] == b[i - a.len()]);
            }
        }
    }
}

proof fn lemma_decl_values_hoistable(ds: Seq<(Seq<char>, Seq<char>)>, n: int)
    ensures
        forall|i: int| 0 <= i < decl_values(ds, n).len() ==> hoistable(#[trigger] decl_values(ds, n)[i]),
    decreases n,
{
    if n > 0 {
        lemma_decl_values_hoistable(ds, n - 1);
        let a = decl_values(ds, n - 1);
        assert forall|i: int| 0 <= i < decl_values(ds, n).len() implies hoistable(#[trigger] decl_values(ds, n)[i]) by {
            if i < a.len() {
                assert(decl_values(ds, n)[i] == a[i]);
            }
        }
    }
}

/// Only values used at least five times are hoisted, and each of them is a
/// hoistable value (longer than ten characters, not a `var(...)`, not an
/// `oklch` colour) of the declarations: a value used four times never is.
pub proof fn lemma_hoisted_are_repeated(gs: Seq<(Seq<Seq<char>>, Seq<(Seq<char>, Seq<char>)>)>)
    ensures
        forall|i: int|
            0 <= i < hoisted(gs).len() ==> occurrences(
                group_values(gs, gs.len() as int),
                #[trigger] hoisted(gs)[i].1,
            ) >= 5 && hoistable(hoisted(gs)[i].1),
{
    let vals = group_values(gs, gs.len() as int);
    let cands = distinct(vals);
    lemma_pick_chosen(cands, vals, cands.len() as int);
    lemma_group_values_hoistable(gs, gs.len() as int);
    assert forall|i: int| 0 <= i < hoisted(gs).len() implies occurrences(vals, #[trigger] hoisted(gs)[i].1)
        >= 5 && hoistable(hoisted(gs)[i].1) by {
        let v = hoisted(gs)[i].1;
        lemma_distinct_has(vals, v);
        let k = choose|k: int| 0 <= k < vals.len() && vals[k] == v;
    }
}

proof fn lemma_short_name(n: nat)
    requires
        n < 10,
    ensures
        decimal(n).len() == 1,
{
}

/// A hoistable value used at least five times is hoisted whenever every
/// generated name has one character (fewer than ten hoisted values): its
/// uses then save more than its declaration costs (for length 11 and five
/// uses, 55 against 22).
pub proof fn lemma_repeated_is_hoisted(gs: Seq<(Seq<Seq<char>>, Seq<(Seq<char>, Seq<char>)>)>, v: Seq<char>)
    requires
        hoistable(v),
        occurrences(group_values(gs, gs.len() as int), v) >= 5,
        hoisted(gs).len() < 10,
    ensures
        exists|i: int| 0 <= i < hoisted(gs).len() && hoisted(gs)[i].1 == v,
{
    let vals = group_values(gs, gs.len() as int);
    let cands = distinct(vals);
    lemma_distinct_has(vals, v);
    let j = choose|j: int| 0 <= j < cands.len() && cands[j] == v;
    lemma_pick_prefix(cands, vals, j, cands.len() as int);
    lemma_pick_prefix(cands, vals, j + 1, cands.len() as int);
    let prev = pick(cands, vals, j);
    lemma_short_name(prev.len());
    let c = occurrences(vals, v);
    assert(v.len() * c >= v.len() * 5) by (nonlinear_arith)
        requires
            c >= 5,
    ;
    assert(worth_hoisting(v, c, decimal(prev.len())));
    let full = pick(cands, vals, cands.len() as int);
    let next = pick(cands, vals, j + 1);
    assert(next[prev.len() as int].1 == v);
    assert(full[prev.len() as int] == next[prev.len() as int]) by {
        assert(full.subrange(0, next.len() as int)[prev.len() as int] == next[prev.len() as int]);
    }
}

/// No two groups hold the same declarations.
pub open spec fn distinct_keys(gs: Seq<(Seq<Seq<char>>, Seq<(Seq<char>, Seq<char>)>)>) -> bool {
    forall|i: int, j: int| 0 <= i < j < gs.len() ==> !same_decls(#[trigger] gs[i].1, #[trigger] gs[j].1)
}

/// Each group read back as one rule whose selector is the group's selector
/// list as written.
pub open spec fn groups_as_rules(gs: Seq<(Seq<Seq<char>>, Seq<(Seq<char>, Seq<char>)>)>) -> Seq<
    (Seq<char>, Seq<(Seq<char>, Seq<char>)>),
> {
    gs.map_values(|g: (Seq<Seq<char>>, Seq<(Seq<char>, Seq<char>)>)| (emit_selectors(g.0, g.0.len() as int), g.1))
}

proof fn lemma_find_from(gs: Seq<(Seq<Seq<char>>, Seq<(Seq<char>, Seq<char>)>)>, d: Seq<(Seq<char>, Seq<char>)>, k: int)
    requires
        0 <= k,
    ensures
        find_from(gs, d, k) is None ==> forall|i: int| k <= i < gs.len() ==> !same_decls(#[trigger] gs[i].1, d),
        find_from(gs, d, k) is Some ==> k <= find_from(gs, d, k)->0 < gs.len() && same_decls(
            gs[find_from(gs, d, k)->0].1,
            d,
        ),
    decreases gs.len() - k,
{
    if k < gs.len() {
        lemma_find_from(gs, d, k + 1);
    }
}

proof fn lemma_groups_distinct(rules: Seq<(Seq<char>, Seq<(Seq<char>, Seq<char>)>)>, n: int)
    requires
        0 <= n <= rules.len(),
    ensures
        distinct_keys(group_upto(rules, n)),
    decreases n,
{
    if n > 0 {
        lemma_groups_distinct(rules, n - 1);
        let gs = group_upto(rules, n - 1);
        let r = rules[n - 1];
        lemma_find_from(gs, r.1, 0);
        let next = group_upto(rules, n);
        assert forall|i: int, j: int| 0 <= i < j < next.len() implies !same_decls(
            #[trigger] next[i].1,
            #[trigger] next[j].1,
        ) by {
            if j < gs.len() {
                assert(next[i].1 == gs[i].1 && next[j].1 == gs[j].1);
            } else {
                assert(next[i].1 == gs[i].1);
                assert(!same_decls(gs[i].1, r.1));
                if same_decls(next[i].1, next[j].1) {
                    assert forall|d: (Seq<char>, Seq<char>)| #[trigger] count_of(gs[i].1, d) == count_of(r.1, d) by {
                        assert(count_of(next[i].1, d) == count_of(next[j].1, d));
                    }
                }
            }
        }
    }
}

proof fn lemma_group_singletons(rs: Seq<(Seq<char>, Seq<(Seq<char>, Seq<char>)>)>, n: int)
    requires
        0 <= n <= rs.len(),
        forall|i: int, j: int| 0 <= i < j < rs.len() ==> !same_decls(#[trigger] rs[i].1, #[trigger] rs[j].1),
    ensures
        group_upto(rs, n) == rs.take(n).map_values(
            |r: (Seq<char>, Seq<(Seq<char>, Seq<char>)>)| (seq![r.0], r.1),
        ),
    decreases n,
{
    if n > 0 {
        lemma_group_singletons(rs, n - 1);
        let gs = group_upto(rs, n - 1);
        let r = rs[n - 1];
        lemma_find_from(gs, r.1, 0);
        if find_from(gs, r.1, 0) is Some {
            let k = find_from(gs, r.1, 0)->0;
            assert(gs[k].1 == rs[k].1);
            assert(!same_decls(rs[k].1, rs[n - 1].1));
        }
        assert(group_upto(rs, n) =~= rs.take(n).map_values(
            |r: (Seq<char>, Seq<(Seq<char>, Seq<char>)>)| (seq![r.0], r.1),
        ));
    }
}

/// Grouping is stable: when the groups of a rule list are read back as
/// rules, one per group with its selector list as written, grouping them
/// again gives one group per rule, in the same order and with the same
/// declarations. (Whole-pipeline idempotence also needs the written text to
/// parse back into those rules and to be unchanged by zero normalisation.)
pub proof fn lemma_regrouping_is_stable(rules: Seq<(Seq<char>, Seq<(Seq<char>, Seq<char>)>)>)
    ensures
        group_rules(groups_as_rules(group_rules(rules))) == groups_as_rules(group_rules(rules)).map_values(
            |r: (Seq<char>, Seq<(Seq<char>, Seq<char>)>)| (seq![r.0], r.1),
        ),
{
    let gs = group_rules(rules);
    lemma_groups_distinct(rules, rules.len() as int);
    let rs = groups_as_rules(gs);
    assert forall|i: int, j: int| 0 <= i < j < rs.len() implies !same_decls(#[trigger] rs[i].1, #[trigger] rs[j].1) by {
        assert(rs[i].1 == gs[i].1 && rs[j].1 == gs[j].1);
    }
    lemma_group_singletons(rs, rs.len() as int);
    assert(rs.take(rs.len() as int) =~= rs);
}

// ---------------------------------------------------------------- output

/// The first hoisted value from index `i` on that equals `v`.
pub open spec fn find_var(vars: Seq<(Seq<char>, Seq<char>)>, v: Seq<char>, i: int) -> Option<int>
    decreases vars.len() - i,
{
    if i < 0 || i >= vars.len() {
        None
    } else if vars[i].1 == v {
        Some(i)
    } else {
        find_var(vars, v, i + 1)
    }
}

/// A reference to the custom property `--_<name>`.
pub open spec fn var_ref(name: Seq<char>) -> Seq<char> {
    "var(--_"@ + name + seq![')']
}

/// What a declaration writes for value `v`: the reference to its hoisted
/// property where that is shorter, else the value itself.
pub open spec fn emit_value(v: Seq<char>, vars: Seq<(Seq<char>, Seq<char>)>) -> Seq<char> {
    match find_var(vars, v, 0) {
        Some(k) => if var_ref(vars[k].0).len() < v.len() {
            var_ref(vars[k].0)
        } else {
            v
        },
        None => v,
    }
}

/// `property:value` for one declaration.
pub open spec fn emit_decl(d: (Seq<char>, Seq<char>), vars: Seq<(Seq<char>, Seq<char>)>) -> Seq<char> {
    d.0 + seq![':'] + emit_value(d.1, vars)
}

/// The first `n` declarations, separated by `;`.
pub open spec fn emit_decls(ds: Seq<(Seq<char>, Seq<char>)>, vars: Seq<(Seq<char>, Seq<char>)>, n: int) -> Seq<char>
    decreases n,
{
    if n <= 0 {
        Seq::empty()
    } else if n == 1 {
        emit_decl(ds[0], vars)
    } else {
        emit_decls(ds, vars, n - 1) + seq![';'] + emit_decl(ds[n - 1], vars)
    }
}

/// The first `n` selectors, separated by `,`.
pub open spec fn emit_selectors(ss: Seq<Seq<char>>, n: int) -> Seq<char>
    decreases n,
{
    if n <= 0 {
        Seq::empty()
    } else if n == 1 {
        ss[0]
    } else {
        emit_selectors(ss, n - 1) + seq![','] + ss[n - 1]
    }
}

/// `selectors{declarations}`, or nothing for a group without either.
pub open spec fn emit_group(g: (Seq<Seq<char>>, Seq<(Seq<char>, Seq<char>)>), vars: Seq<(Seq<char>, Seq<char>)>) -> Seq<char> {
    if g.0.len() == 0 || g.1.len() == 0 {
        Seq::empty()
    } else {
        emit_selectors(g.0, g.0.len() as int) + seq!['{'] + emit_decls(g.1, vars, g.1.len() as int) + seq!['}']
    }
}

/// The first `n` groups, one after the other.
pub open spec fn emit_groups(
    gs: Seq<(Seq<Seq<char>>, Seq<(Seq<char>, Seq<char>)>)>,
    vars: Seq<(Seq<char>, Seq<char>)>,
    n: int,
) -> Seq<char>
    decreases n,
{
    if n <= 0 {
        Seq::empty()
    } else {
        emit_groups(gs, vars, n - 1) + emit_group(gs[n - 1], vars)
    }
}

/// `--_<name>:<value>;` for the first `n` hoisted values.
pub open spec fn emit_vars(vars: Seq<(Seq<char>, Seq<char>)>, n: int) -> Seq<char>
    decreases n,
{
    if n <= 0 {
        Seq::empty()
    } else {
        emit_vars(vars, n - 1) + "--_"@ + vars[n - 1].0 + seq![':'] + vars[n - 1].1 + seq![';']
    }
}

/// The `:root{...}` block of the hoisted values; nothing when there are none.
pub open spec fn emit_root(vars: Seq<(Seq<char>, Seq<char>)>) -> Seq<char> {
    if vars.len() == 0 {
        Seq::empty()
    } else {
        ":root{"@ + emit_vars(vars, vars.len() as int) + seq!['}']
    }
}

/// The cascade-layer order statement written ahead of layered output.
pub open spec fn layer_line() -> Seq<char> {
    "@layer settings,bridge,theme,free;"@
}

/// The compact text of the groups and hoisted values, before zero units are
/// normalised.
pub open spec fn serialized(
    gs: Seq<(Seq<Seq<char>>, Seq<(Seq<char>, Seq<char>)>)>,
    vars: Seq<(Seq<char>, Seq<char>)>,
    layered: bool,
) -> Seq<char> {
    (if layered { layer_line() } else { Seq::empty() }) + emit_root(vars) + emit_groups(
        gs,
        vars,
        gs.len() as int,
    )
}

/// `s` with zero lengths written as `0` and repeated zero shorthands collapsed.
pub open spec fn normalize_zeros(s: Seq<char>) -> Seq<char> {
    let s1 = replace_all(s, ":0px"@, ":0"@);
    let s2 = replace_all(s1, ":0em"@, ":0"@);
    let s3 = replace_all(s2, ":0rem"@, ":0"@);
    let s4 = replace_all(s3, " 0px"@, " 0"@);
    let s5 = replace_all(s4, " 0em"@, " 0"@);
    let s6 = replace_all(s5, " 0rem"@, " 0"@);
    let s7 = replace_all(s6, ":0 0 0 0"@, ":0"@);
    let s8 = replace_all(s7, ":0 0 0"@, ":0"@);
    replace_all(s8, ":0 0"@, ":0"@)
}

/// The optimised form of a stylesheet.
pub open spec fn minified(css: Seq<char>) -> Seq<char> {
    let s = strip_comments(css);
    let gs = group_rules(parse_rules(s));
    normalize_zeros(serialized(gs, hoisted(gs), contains(s, "@layer"@)))
}

fn emit_value_chars(v: &String, vars: &Vec<HoistedValue>) -> (r: Vec<char>)
    ensures
        r@ == emit_value(v@, hoisted_view(vars@)),
{
    let ghost hv = hoisted_view(vars@);
    let mut k: usize = 0;
    while k < vars.len() && !(vars[k].value == *v)
        invariant
            k <= vars.len(),
            hv == hoisted_view(vars@),
            find_var(hv, v@, 0) == find_var(hv, v@, k as int),
        decreases vars.len() - k,
    {
        k += 1;
    }
    let value = chars_of(v.as_str());
    if k < vars.len() {
        let mut reference: Vec<char> = Vec::new();
        push_str(&mut reference, "var(--_");
        let name = chars_of(vars[k].name.as_str());
        push_all(&mut reference, &name);
        reference.push(')');
        assert(reference@ =~= var_ref(hv[k as int].0));
        if reference.len() < value.len() {
            reference
        } else {
            value
        }
    } else {
        value
    }
}

fn emit_group_chars(out: &mut Vec<char>, g: &RuleGroup, vars: &Vec<HoistedValue>)
    ensures
        final(out)@ == old(out)@ + emit_group(g@, hoisted_view(vars@)),
{
    let ghost gv = g@;
    let ghost hv = hoisted_view(vars@);
    if g.selectors.len() == 0 || g.declarations.len() == 0 {
        assert(out@ =~= old(out)@ + emit_group(gv, hv));
        return;
    }
    let mut i: usize = 0;
    while i < g.selectors.len()
        invariant
            i <= g.selectors.len(),
            gv == g@,
            out@ == old(out)@ + emit_selectors(gv.0, i as int),
        decreases g.selectors.len() - i,
    {
        let ghost before = out@;
        if i > 0 {
            out.push(',');
        }
        let sel = chars_of(g.selectors[i].as_str());
        push_all(out, &sel);
        assert(gv.0[i as int] == sel@);
        if i == 0 {
            assert(out@ =~= old(out)@ + emit_selectors(gv.0, 1));
        } else {
            assert(out@ =~= before + seq![','] + sel@);
        }
        i += 1;
    }
    out.push('{');
    let ghost mid = out@;
    let mut j: usize = 0;
    while j < g.declarations.len()
        invariant
            j <= g.declarations.len(),
            gv == g@,
            hv == hoisted_view(vars@),
            out@ == mid + emit_decls(gv.1, hv, j as int),
        decreases g.declarations.len() - j,
    {
        let ghost before = out@;
        if j > 0 {
            out.push(';');
        }
        let d = &g.declarations[j];
        let p = chars_of(d.property.as_str());
        push_all(out, &p);
        out.push(':');
        let v = emit_value_chars(&d.value, vars);
        push_all(out, &v);
        assert(gv.1[j as int] == d@);
        if j == 0 {
            assert(out@ =~= mid + emit_decls(gv.1, hv, 1));
        } else {
            assert(out@ =~= before + seq![';'] + emit_decl(gv.1[j as int], hv));
        }
        j += 1;
    }
    out.push('}');
    assert(out@ =~= old(out)@ + emit_group(gv, hv));
}

/// Writes the groups and hoisted values as compact CSS text, ahead of it the
/// layer order statement when `layered` holds.
pub fn serialize(groups: &Vec<RuleGroup>, vars: &Vec<HoistedValue>, layered: bool) -> (r: Vec<char>)
    ensures
        r@ == serialized(groups_view(groups@), hoisted_view(vars@), layered),
{
    let ghost gv = groups_view(groups@);
    let ghost hv = hoisted_view(vars@);
    let mut out: Vec<char> = Vec::new();
    if layered {
        push_str(&mut out, "@layer settings,bridge,theme,free;");
    }
    let ghost head = out@;
    if vars.len() > 0 {
        push_str(&mut out, ":root{");
        let ghost mid = out@;
        let mut k: usize = 0;
        while k < vars.len()
            invariant
                k <= vars.len(),
                hv == hoisted_view(vars@),
                out@ == mid + emit_vars(hv, k as int),
            decreases vars.len() - k,
        {
            let ghost before = out@;
            push_str(&mut out, "--_");
            let name = chars_of(vars[k].name.as_str());
            push_all(&mut out, &name);
            out.push(':');
            let value = chars_of(vars[k].value.as_str());
            push_all(&mut out, &value);
            out.push(';');
            assert(hv[k as int] == vars@[k as int]@);
            assert(out@ =~= before + "--_"@ + hv[k as int].0 + seq![':'] + hv[k as int].1 + seq![';']);
            k += 1;
        }
        out.push('}');
        assert(out@ =~= head + emit_root(hv));
    } else {
        assert(out@ =~= head + emit_root(hv));
    }
    let ghost body = out@;
    let mut i: usize = 0;
    while i < groups.len()
        invariant
            i <= groups.len(),
            gv == groups_view(groups@),
            hv == hoisted_view(vars@),
            out@ == body + emit_groups(gv, hv, i as int),
        decreases groups.len() - i,
    {
        emit_group_chars(&mut out, &groups[i], vars);
        assert(gv[i as int] == groups@[i as int]@);
        assert(out@ =~= body + emit_groups(gv, hv, i + 1));
        i += 1;
    }
    out
}

/// Writes zero lengths as `0` and collapses repeated zero shorthands.
pub fn normalize_zero_units(s: &Vec<char>) -> (r: Vec<char>)
    ensures
        r@ == normalize_zeros(s@),
{
    let s1 = replace_str(s, ":0px", ":0");
    let s2 = replace_str(&s1, ":0em", ":0");
    let s3 = replace_str(&s2, ":0rem", ":0");
    let s4 = replace_str(&s3, " 0px", " 0");
    let s5 = replace_str(&s4, " 0em", " 0");
    let s6 = replace_str(&s5, " 0rem", " 0");
    let s7 = replace_str(&s6, ":0 0 0 0", ":0");
    let s8 = replace_str(&s7, ":0 0 0", ":0");
    replace_str(&s8, ":0 0", ":0")
}

/// Parses a stylesheet into its rules, after removing comments.
pub fn parse_css_rules(css: &str) -> (r: Vec<CssRule>)
    ensures
        rules_view(r@) == parse_rules(strip_comments(css@)),
{
    let s = chars_of(css);
    let t = strip_comment_chars(&s);
    parse_rule_chars(&t)
}

/// Minifies a stylesheet: removes comments, merges rules with the same
/// declarations, hoists long repeated values into custom properties and
/// writes the result compactly with zero lengths normalised.
pub fn minify_css(css: &str) -> (r: String)
    ensures
        r@ == minified(css@),
{
    let s = chars_of(css);
    let t = strip_comment_chars(&s);
    let rules = parse_rule_chars(&t);
    let groups = group_identical_rules(&rules);
    let vars = extract_common_values(&groups);
    let layer = chars_of("@layer");
    let layered = contains_chars(&t, &layer);
    let out = serialize(&groups, &vars, layered);
    let normalized = normalize_zero_units(&out);
    string_of(&normalized)
}

/// The stylesheet as it is, for development builds.
pub fn optimize_css(css: &str) -> (r: String)
    ensures
        r@ == css@,
{
    String::from_str(css)
}

// ---------------------------------------------------------------- round trip

/// The scanner's state after reading `s` from state `st`.
pub open spec fn run_from(st: ParseState, s: Seq<char>) -> ParseState
    decreases s.len(),
{
    if s.len() == 0 {
        st
    } else {
        step(run_from(st, s.drop_last()), s.last())
    }
}

proof fn lemma_run_one(st: ParseState, c: char)
    ensures
        run_from(st, seq![c]) == step(st, c),
{
    reveal_with_fuel(run_from, 2);
    assert(seq![c].drop_last() =~= Seq::<char>::empty());
}

proof fn lemma_run_take(s: Seq<char>, n: int)
    requires
        0 <= n <= s.len(),
    ensures
        run(s, n) == run_from(initial_state(), s.take(n)),
    decreases n,
{
    if n > 0 {
        lemma_run_take(s, n - 1);
        assert(s.take(n).drop_last() =~= s.take(n - 1));
    }
}

proof fn lemma_run_append(st: ParseState, a: Seq<char>, b: Seq<char>)
    ensures
        run_from(st, a + b) == run_from(run_from(st, a), b),
    decreases b.len(),
{
    if b.len() == 0 {
        assert(a + b =~= a);
    } else {
        lemma_run_append(st, a, b.drop_last());
        assert((a + b).drop_last() =~= a + b.drop_last());
    }
}

/// `x` has no whitespace at either end.
pub open spec fn trimmed(x: Seq<char>) -> bool {
    x.len() == 0 || (!is_space(x[0]) && !is_space(x.last()))
}

/// `x` holds no brace, semicolon, newline, carriage return or tab.
pub open spec fn inert(x: Seq<char>) -> bool {
    forall|i: int|
        0 <= i < x.len() ==> #[trigger] x[i] != '{' && x[i] != '}' && x[i] != ';' && x[i] != '\n' && x[i]
            != '\r' && x[i] != '\t'
}

/// A declaration that reads back as itself.
pub open spec fn plain_decl(d: (Seq<char>, Seq<char>)) -> bool {
    &&& d.0.len() > 0
    &&& trimmed(d.0)
    &&& inert(d.0)
    &&& !d.0.contains(':')
    &&& trimmed(d.1)
    &&& inert(d.1)
}

/// Groups whose written text reads back as one rule per group.
pub open spec fn plain_groups(gs: Seq<(Seq<Seq<char>>, Seq<(Seq<char>, Seq<char>)>)>) -> bool {
    forall|k: int|
        0 <= k < gs.len() ==> {
            let g = #[trigger] gs[k];
            let sel = emit_selectors(g.0, g.0.len() as int);
            &&& g.0.len() > 0
            &&& g.1.len() > 0
            &&& sel.len() > 0
            &&& trimmed(sel)
            &&& inert(sel)
            &&& forall|j: int| 0 <= j < g.1.len() ==> plain_decl(#[trigger] g.1[j])
        }
}

proof fn lemma_trimmed(x: Seq<char>)
    requires
        trimmed(x),
    ensures
        trim(x) == x,
{
    reveal_with_fuel(crate::text::lead_len, 2);
    reveal_with_fuel(crate::text::trail_len, 2);
    assert(trim_start(x) =~= x);
    assert(trim(x) =~= x);
}

/// Reading selector text at the top level appends it to the selector.
proof fn lemma_read_selector(st: ParseState, t: Seq<char>)
    requires
        st.depth == 0,
        st.in_selector,
        inert(t),
    ensures
        run_from(st, t) == (ParseState { selector: st.selector + t, ..st }),
    decreases t.len(),
{
    if t.len() == 0 {
        assert(st.selector + t =~= st.selector);
    } else {
        let u = t.drop_last();
        assert(inert(u)) by {
            assert forall|i: int| 0 <= i < u.len() implies #[trigger] u[i] != '{' && u[i] != '}' && u[i] != ';'
                && u[i] != '\n' && u[i] != '\r' && u[i] != '\t' by {
                assert(u[i] == t[i]);
            }
        }
        lemma_read_selector(st, u);
        assert(t.last() == t[t.len() - 1]);
        assert((st.selector + u).push(t.last()) =~= st.selector + t);
    }
}

/// Reading a property name inside a block appends it to the property.
proof fn lemma_read_prop(st: ParseState, t: Seq<char>)
    requires
        st.depth == 1,
        !st.in_selector,
        !st.in_value,
        inert(t),
        !t.contains(':'),
    ensures
        run_from(st, t) == (ParseState { prop: st.prop + t, ..st }),
    decreases t.len(),
{
    if t.len() == 0 {
        assert(st.prop + t =~= st.prop);
    } else {
        let u = t.drop_last();
        assert(inert(u) && !u.contains(':')) by {
            assert forall|i: int| 0 <= i < u.len() implies #[trigger] u[i] != '{' && u[i] != '}' && u[i] != ';'
                && u[i] != '\n' && u[i] != '\r' && u[i] != '\t' by {
                assert(u[i] == t[i]);
            }
            if u.contains(':') {
                let i = choose|i: int| 0 <= i < u.len() && u[i] == ':';
                assert(t[i] == ':');
            }
        }
        lemma_read_prop(st, u);
        assert(t.last() == t[t.len() - 1]);
        assert((st.prop + u).push(t.last()) =~= st.prop + t);
    }
}

/// Reading a value inside a block appends it to the value.
proof fn lemma_read_value(st: ParseState, t: Seq<char>)
    requires
        st.depth == 1,
        !st.in_selector,
        st.in_value,
        inert(t),
    ensures
        run_from(st, t) == (ParseState { value: st.value + t, ..st }),
    decreases t.len(),
{
    if t.len() == 0 {
        assert(st.value + t =~= st.value);
    } else {
        let u = t.drop_last();
        assert(inert(u)) by {
            assert forall|i: int| 0 <= i < u.len() implies #[trigger] u[i] != '{' && u[i] != '}' && u[i] != ';'
                && u[i] != '\n' && u[i] != '\r' && u[i] != '\t' by {
                assert(u[i] == t[i]);
            }
        }
        lemma_read_value(st, u);
        assert(t.last() == t[t.len() - 1]);
        assert((st.value + u).push(t.last()) =~= st.value + t);
    }
}

/// The state inside a block of rules `rules` and selector `sel`, with
/// declarations `decls` read and nothing pending.
pub open spec fn in_block(
    rules: Seq<(Seq<char>, Seq<(Seq<char>, Seq<char>)>)>,
    sel: Seq<char>,
    decls: Seq<(Seq<char>, Seq<char>)>,
) -> ParseState {
    ParseState {
        rules,
        selector: sel,
        decls,
        prop: Seq::empty(),
        value: Seq::empty(),
        in_selector: false,
        in_value: false,
        depth: 1,
    }
}

/// Reading one declaration leaves it pending, its value being read.
proof fn lemma_read_decl(
    rules: Seq<(Seq<char>, Seq<(Seq<char>, Seq<char>)>)>,
    sel: Seq<char>,
    decls: Seq<(Seq<char>, Seq<char>)>,
    d: (Seq<char>, Seq<char>),
)
    requires
        plain_decl(d),
    ensures
        run_from(in_block(rules, sel, decls), emit_decl(d, Seq::empty())) == (ParseState {
            prop: d.0,
            value: d.1,
            in_value: true,
            ..in_block(rules, sel, decls)
        }),
{
    let st = in_block(rules, sel, decls);
    assert(emit_value(d.1, Seq::empty()) == d.1);
    lemma_read_prop(st, d.0);
    let s1 = run_from(st, d.0);
    assert(Seq::<char>::empty() + d.0 =~= d.0);
    lemma_run_one(s1, ':');
    let s2 = step(s1, ':');
    lemma_read_value(s2, d.1);
    assert(Seq::<char>::empty() + d.1 =~= d.1);
    lemma_run_append(st, d.0, seq![':']);
    lemma_run_append(st, d.0 + seq![':'], d.1);
}

/// Reading the first `n` declarations of `ds` leaves the last of them
/// pending and the others read.
proof fn lemma_read_decls(
    rules: Seq<(Seq<char>, Seq<(Seq<char>, Seq<char>)>)>,
    sel: Seq<char>,
    ds: Seq<(Seq<char>, Seq<char>)>,
    n: int,
)
    requires
        1 <= n <= ds.len(),
        forall|j: int| 0 <= j < ds.len() ==> plain_decl(#[trigger] ds[j]),
    ensures
        run_from(in_block(rules, sel, Seq::empty()), emit_decls(ds, Seq::empty(), n)) == (ParseState {
            prop: ds[n - 1].0,
            value: ds[n - 1].1,
            in_value: true,
            ..in_block(rules, sel, ds.take(n - 1))
        }),
    decreases n,
{
    let st = in_block(rules, sel, Seq::empty());
    if n == 1 {
        assert(ds.take(0) =~= Seq::<(Seq<char>, Seq<char>)>::empty());
        lemma_read_decl(rules, sel, Seq::empty(), ds[0]);
    } else {
        lemma_read_decls(rules, sel, ds, n - 1);
        let a = emit_decls(ds, Seq::empty(), n - 1);
        let s1 = run_from(st, a);
        let p = ds[n - 2];
        lemma_trimmed(p.0);
        lemma_trimmed(p.1);
        lemma_run_one(s1, ';');
        assert(ds.take(n - 2).push(p) =~= ds.take(n - 1));
        assert(step(s1, ';') == in_block(rules, sel, ds.take(n - 1)));
        lemma_read_decl(rules, sel, ds.take(n - 1), ds[n - 1]);
        lemma_run_append(st, a, seq![';']);
        lemma_run_append(st, a + seq![';'], emit_decl(ds[n - 1], Seq::empty()));
    }
}

/// Reading the text of a plain group at the top level adds it as one rule.
proof fn lemma_read_group(
    rules: Seq<(Seq<char>, Seq<(Seq<char>, Seq<char>)>)>,
    g: (Seq<Seq<char>>, Seq<(Seq<char>, Seq<char>)>),
)
    requires
        plain_groups(seq![g]),
    ensures
        run_from(ParseState { rules, ..initial_state() }, emit_group(g, Seq::empty())) == (ParseState {
            rules: rules.push((emit_selectors(g.0, g.0.len() as int), g.1)),
            ..initial_state()
        }),
{
    assert(seq![g][0] == g);
    let sel = emit_selectors(g.0, g.0.len() as int);
    let ds = g.1;
    let n = ds.len() as int;
    let st = ParseState { rules, ..initial_state() };
    lemma_read_selector(st, sel);
    assert(Seq::<char>::empty() + sel =~= sel);
    let s1 = run_from(st, sel);
    lemma_trimmed(sel);
    lemma_run_one(s1, '{');
    assert(step(s1, '{') == in_block(rules, sel, Seq::empty()));
    lemma_read_decls(rules, sel, ds, n);
    let body = emit_decls(ds, Seq::empty(), n);
    let s2 = run_from(in_block(rules, sel, Seq::empty()), body);
    let last = ds[n - 1];
    lemma_trimmed(last.0);
    lemma_trimmed(last.1);
    assert(ds.take(n - 1).push(last) =~= ds);
    lemma_run_one(s2, '}');
    assert(step(s2, '}') == (ParseState { rules: rules.push((sel, ds)), ..initial_state() }));
    lemma_run_append(st, sel, seq!['{']);
    lemma_run_append(st, sel + seq!['{'], body);
    lemma_run_append(st, sel + seq!['{'] + body, seq!['}']);
    assert(emit_group(g, Seq::empty()) =~= sel + seq!['{'] + body + seq!['}']);
}

/// Reading the text of the first `n` plain groups gives one rule per group.
proof fn lemma_read_groups(gs: Seq<(Seq<Seq<char>>, Seq<(Seq<char>, Seq<char>)>)>, n: int)
    requires
        0 <= n <= gs.len(),
        plain_groups(gs),
    ensures
        run_from(initial_state(), emit_groups(gs, Seq::empty(), n)) == (ParseState {
            rules: groups_as_rules(gs).take(n),
            ..initial_state()
        }),
    decreases n,
{
    if n == 0 {
        assert(groups_as_rules(gs).take(0) =~= Seq::<(Seq<char>, Seq<(Seq<char>, Seq<char>)>)>::empty());
    } else {
        lemma_read_groups(gs, n - 1);
        let g = gs[n - 1];
        assert(plain_groups(seq![g])) by {
            assert forall|k: int| 0 <= k < 1 implies {
                let h = #[trigger] seq![g][k];
                let sel = emit_selectors(h.0, h.0.len() as int);
                &&& h.0.len() > 0
                &&& h.1.len() > 0
                &&& sel.len() > 0
                &&& trimmed(sel)
                &&& inert(sel)
                &&& forall|j: int| 0 <= j < h.1.len() ==> plain_decl(#[trigger] h.1[j])
            } by {
                assert(seq![g][k] == gs[n - 1]);
            }
        }
        let prev = groups_as_rules(gs).take(n - 1);
        lemma_read_group(prev, g);
        lemma_run_append(initial_state(), emit_groups(gs, Seq::empty(), n - 1), emit_group(g, Seq::empty()));
        assert(prev.push((emit_selectors(g.0, g.0.len() as int), g.1)) =~= groups_as_rules(gs).take(n));
    }
}

proof fn lemma_strip_plain(t: Seq<char>, i: int)
    requires
        0 <= i <= t.len(),
        !contains(t, "/*"@),
    ensures
        strip_from(t, i, false) == t.skip(i),
    decreases t.len() - i,
{
    if i < t.len() {
        lemma_strip_plain(t, i + 1);
        if t[i] == '/' && i + 1 < t.len() && t[i + 1] == '*' {
            reveal_strlit("/*");
            assert(t.subrange(i, i + 2) =~= "/*"@);
            assert(occurs_at(t, "/*"@, i));
        }
        assert(seq![t[i]] + t.skip(i + 1) =~= t.skip(i));
    } else {
        assert(t.skip(i) =~= Seq::<char>::empty());
    }
}

proof fn lemma_layer_line_read()
    ensures
        run_from(initial_state(), layer_line()) == initial_state(),
{
    reveal_strlit("@layer settings,bridge,theme,free;");
    let line = layer_line();
    let head = line.drop_last();
    assert(line.last() == ';');
    assert(inert(head));
    lemma_read_selector(initial_state(), head);
    lemma_run_one(run_from(initial_state(), head), ';');
    lemma_run_append(initial_state(), head, seq![';']);
    assert(head + seq![';'] =~= line);
    assert(ParseState { selector: Seq::empty(), ..initial_state() } == initial_state());
}

proof fn lemma_parse_written(gs: Seq<(Seq<Seq<char>>, Seq<(Seq<char>, Seq<char>)>)>, layered: bool)
    requires
        plain_groups(gs),
    ensures
        parse_rules(serialized(gs, Seq::empty(), layered)) == groups_as_rules(gs),
{
    let out = serialized(gs, Seq::empty(), layered);
    let body = emit_groups(gs, Seq::empty(), gs.len() as int);
    lemma_run_take(out, out.len() as int);
    assert(out.take(out.len() as int) =~= out);
    lemma_read_groups(gs, gs.len() as int);
    if layered {
        assert(out =~= layer_line() + body);
        lemma_layer_line_read();
        lemma_run_append(initial_state(), layer_line(), body);
    } else {
        assert(out =~= body);
    }
    assert(groups_as_rules(gs).take(gs.len() as int) =~= groups_as_rules(gs));
}

proof fn lemma_same_values(
    a: Seq<(Seq<Seq<char>>, Seq<(Seq<char>, Seq<char>)>)>,
    b: Seq<(Seq<Seq<char>>, Seq<(Seq<char>, Seq<char>)>)>,
    n: int,
)
    requires
        0 <= n <= a.len() == b.len(),
        forall|i: int| 0 <= i < a.len() ==> (#[trigger] a[i]).1 == b[i].1,
    ensures
        group_values(a, n) == group_values(b, n),
    decreases n,
{
    if n > 0 {
        lemma_same_values(a, b, n - 1);
        assert(a[n - 1].1 == b[n - 1].1);
    }
}

proof fn lemma_same_text(
    gs: Seq<(Seq<Seq<char>>, Seq<(Seq<char>, Seq<char>)>)>,
    n: int,
)
    requires
        0 <= n <= gs.len(),
        plain_groups(gs),
    ensures
        emit_groups(
            groups_as_rules(gs).map_values(|r: (Seq<char>, Seq<(Seq<char>, Seq<char>)>)| (seq![r.0], r.1)),
            Seq::empty(),
            n,
        ) == emit_groups(gs, Seq::empty(), n),
    decreases n,
{
    if n > 0 {
        lemma_same_text(gs, n - 1);
        let singles = groups_as_rules(gs).map_values(
            |r: (Seq<char>, Seq<(Seq<char>, Seq<char>)>)| (seq![r.0], r.1),
        );
        let g = gs[n - 1];
        let sel = emit_selectors(g.0, g.0.len() as int);
        assert(singles[n - 1] == (seq![sel], g.1));
        assert(emit_selectors(seq![sel], 1) == sel);
    }
}

/// Running the optimiser on its own output changes nothing, for inputs
/// that hoist no value, whose first output is already zero-normalised,
/// holds no comment opener, and names `@layer` only where the input did,
/// and whose groups read back as written (selectors, properties and values
/// trimmed, free of braces, semicolons and line breaks, properties free of
/// `:`).
pub proof fn lemma_minify_idempotent(css: Seq<char>)
    requires
        ({
            let s = strip_comments(css);
            let gs = group_rules(parse_rules(s));
            let out = serialized(gs, hoisted(gs), contains(s, "@layer"@));
            &&& hoisted(gs).len() == 0
            &&& plain_groups(gs)
            &&& normalize_zeros(out) == out
            &&& !contains(out, "/*"@)
            &&& (!contains(s, "@layer"@) ==> !contains(out, "@layer"@))
        }),
    ensures
        minified(minified(css)) == minified(css),
{
    let s = strip_comments(css);
    let layered = contains(s, "@layer"@);
    let rules = parse_rules(s);
    let gs = group_rules(rules);
    assert(hoisted(gs) =~= Seq::<(Seq<char>, Seq<char>)>::empty());
    let out = serialized(gs, Seq::empty(), layered);
    assert(minified(css) == out);
    lemma_strip_plain(out, 0);
    assert(out.skip(0) =~= out);
    lemma_parse_written(gs, layered);
    lemma_regrouping_is_stable(rules);
    let singles = groups_as_rules(gs).map_values(
        |r: (Seq<char>, Seq<(Seq<char>, Seq<char>)>)| (seq![r.0], r.1),
    );
    assert(group_rules(parse_rules(strip_comments(out))) == singles);
    lemma_same_values(singles, gs, gs.len() as int);
    assert(hoisted(singles) == hoisted(gs));
    lemma_same_text(gs, gs.len() as int);
    if layered {
        reveal_strlit("@layer settings,bridge,theme,free;");
        reveal_strlit("@layer");
        assert(out.subrange(0, 6) =~= "@layer"@);
        assert(occurs_at(out, "@layer"@, 0));
    }
    assert(contains(out, "@layer"@) == layered);
    assert(serialized(singles, hoisted(singles), layered) =~= out);
}

} // verus!
