//! Root-level templates of github/gitignore: which entries of the contents
//! listing are templates, their order, and how a requested name resolves.

use vstd::prelude::*;

use crate::text::{
    lemma_ascii_case_eq_letterwise, lemma_is_prefix_pointwise, same_letter_up_to_case,
    ascii_case_eq, chars_less, chars_lt, chars_of, eq_ignore_ascii_case, has_suffix, is_prefix,
    join_strings, lemma_chars_lt_irreflexive, lemma_chars_lt_total, lemma_chars_lt_transitive,
    seq_join, starts_with, str_equals, string_views, strip_suffix, to_lowercase,
    unicode_lowercase,
};

verus! {

/// A root-level template: its name (`Node`) and its file name (`Node.gitignore`).
#[derive(Clone, Debug, PartialEq, Eq)]
pub struct Template {
    pub name: String,
    pub file_name: String,
}

/// The characters of a template's two names.
pub struct TemplateView {
    pub name: Seq<char>,
    pub file_name: Seq<char>,
}

impl View for Template {
    type V = TemplateView;

    open spec fn view(&self) -> TemplateView {
        TemplateView { name: self.name@, file_name: self.file_name@ }
    }
}

/// One entry of the contents listing of github/gitignore: its name, its
/// path in the repository, and its type (`file`, `dir`, ...).
#[derive(Clone, Debug, PartialEq, Eq)]
pub struct ContentEntry {
    pub name: String,
    pub path: String,
    pub content_type: String,
}

/// The views of a sequence of templates.
pub open spec fn views(ts: Seq<Template>) -> Seq<TemplateView> {
    ts.map_values(|t: Template| t@)
}

/// A copy of a template.
pub fn clone_template(t: &Template) -> (r: Template)
    ensures
        r == *t,
{
    Template { name: t.name.clone(), file_name: t.file_name.clone() }
}

/// The template that a listing entry stands for: a file at the root of the
/// repository whose name ends in `.gitignore`; the template's name is the
/// file name without that suffix.
pub open spec fn root_template_of(c: ContentEntry) -> Option<TemplateView> {
    if c.content_type@ == "file"@ && c.path@ == c.name@ && has_suffix(c.name@, ".gitignore"@) {
        Some(
            TemplateView {
                name: c.name@.subrange(0, c.name@.len() - ".gitignore"@.len()),
                file_name: c.name@,
            },
        )
    } else {
        None
    }
}

/// The templates of a listing, in the listing's order.
pub open spec fn root_templates(cs: Seq<ContentEntry>) -> Seq<TemplateView>
    decreases cs.len(),
{
    if cs.len() == 0 {
        Seq::empty()
    } else {
        let rest = root_templates(cs.drop_last());
        match root_template_of(cs.last()) {
            Some(t) => rest.push(t),
            None => rest,
        }
    }
}

/// The key by which templates are ordered: the lower-case form of the name.
pub open spec fn template_key(t: TemplateView) -> Seq<char> {
    unicode_lowercase(t.name)
}

/// The keys never decrease along `s`.
pub open spec fn keys_ordered(s: Seq<TemplateView>) -> bool {
    forall|i: int, j: int|
        0 <= i < j < s.len() ==> !chars_lt(template_key(#[trigger] s[j]), template_key(#[trigger] s[i]))
}

/// `p` shows `r` to be `s` sorted stably by key: `r[k]` is `s[p[k]]`, no index
/// of `s` is used twice, the keys are in order, and templates with equal keys
/// keep the order they had in `s`.
pub open spec fn stable_sort_by(r: Seq<TemplateView>, s: Seq<TemplateView>, p: Seq<int>) -> bool {
    &&& r.len() == s.len()
    &&& p.len() == s.len()
    &&& forall|k: int| 0 <= k < p.len() ==> 0 <= #[trigger] p[k] < s.len() && r[k] == s[p[k]]
    &&& forall|k: int, l: int| 0 <= k < l < p.len() ==> #[trigger] p[k] != #[trigger] p[l]
    &&& keys_ordered(r)
    &&& forall|k: int, l: int|
        0 <= k < l < r.len() && template_key(#[trigger] r[k]) == template_key(#[trigger] r[l])
            ==> p[k] < p[l]
}

/// `r` is `s` sorted stably by the lower-case name.
pub open spec fn is_stable_sort(r: Seq<TemplateView>, s: Seq<TemplateView>) -> bool {
    exists|p: Seq<int>| stable_sort_by(r, s, p)
}

/// `order` lists the indices `0..n` of `keys` sorted stably by key: each
/// index once, keys never decreasing along `order`, and indices with equal
/// keys in increasing order.
pub open spec fn stable_order_upto(keys: Seq<Seq<char>>, order: Seq<int>, n: int) -> bool {
    &&& order.len() == n
    &&& forall|k: int| 0 <= k < n ==> 0 <= #[trigger] order[k] < n
    &&& forall|k: int, l: int| #![trigger order[k], order[l]] 0 <= k < l < n ==> order[k] != order[l]
    &&& forall|k: int, l: int|
        #![trigger order[k], order[l]]
        0 <= k < l < n ==> !chars_lt(keys[order[l]], keys[order[k]])
    &&& forall|k: int, l: int|
        #![trigger order[k], order[l]]
        0 <= k < l < n && keys[order[k]] == keys[order[l]] ==> order[k] < order[l]
}

/// `order` lists every index of `keys`, sorted stably by key.
pub open spec fn is_stable_order(keys: Seq<Seq<char>>, order: Seq<int>) -> bool {
    stable_order_upto(keys, order, keys.len() as int)
}

/// The characters of each key.
pub open spec fn key_views(keys: Seq<Vec<char>>) -> Seq<Seq<char>> {
    keys.map_values(|k: Vec<char>| k@)
}

/// The indices as integers.
pub open spec fn index_views(order: Seq<usize>) -> Seq<int> {
    order.map_values(|i: usize| i as int)
}

/// Inserting index `n` after every index whose key is not above its key, and
/// before the rest, extends a stable order of `0..n` to one of `0..n + 1`.
proof fn lemma_order_insert(keys: Seq<Seq<char>>, order: Seq<int>, n: int, j: int)
    requires
        stable_order_upto(keys, order, n),
        0 <= n < keys.len(),
        0 <= j <= n,
        forall|k: int| 0 <= k < j ==> !chars_lt(keys[n], keys[#[trigger] order[k]]),
        j < n ==> chars_lt(keys[n], keys[order[j]]),
    ensures
        stable_order_upto(keys, order.insert(j, n), n + 1),
{
    let o2 = order.insert(j, n);
    let kx = keys[n];
    assert forall|k: int| j <= k < n implies chars_lt(kx, keys[#[trigger] order[k]]) by {
        if k > j {
            assert(!chars_lt(keys[order[k]], keys[order[j]]));
            lemma_chars_lt_total(keys[order[k]], keys[order[j]]);
            if keys[order[k]] != keys[order[j]] {
                lemma_chars_lt_transitive(kx, keys[order[j]], keys[order[k]]);
            }
        }
    }
    assert forall|k: int| 0 <= k < n + 1 implies 0 <= #[trigger] o2[k] < n + 1 by {
        if k < j {
            assert(o2[k] == order[k]);
        } else if k > j {
            assert(o2[k] == order[k - 1]);
        }
    }
    assert forall|k: int, l: int| #![trigger o2[k], o2[l]] 0 <= k < l < n + 1 implies o2[k]
        != o2[l] by {
        if k < j && l < j {
            assert(order[k] != order[l]);
        } else if k < j && l > j {
            assert(order[k] != order[l - 1]);
        } else if k > j && l > j {
            assert(order[k - 1] != order[l - 1]);
        } else if k == j {
            assert(0 <= order[l - 1] < n);
        } else {
            assert(0 <= order[k] < n);
        }
    }
    assert forall|a: int, b: int| #![trigger o2[a], o2[b]] 0 <= a < b < n + 1 implies !chars_lt(
        keys[o2[b]],
        keys[o2[a]],
    ) by {
        if a < j && b < j {
            assert(o2[a] == order[a] && o2[b] == order[b]);
        } else if a < j && b == j {
            assert(o2[a] == order[a]);
        } else if a < j && b > j {
            assert(o2[a] == order[a] && o2[b] == order[b - 1]);
            assert(!chars_lt(keys[order[b - 1]], keys[order[a]]));
        } else if a == j {
            assert(o2[b] == order[b - 1]);
            lemma_chars_lt_total(kx, keys[order[b - 1]]);
        } else {
            assert(o2[a] == order[a - 1] && o2[b] == order[b - 1]);
        }
    }
    assert forall|a: int, b: int|
        #![trigger o2[a], o2[b]]
        0 <= a < b < n + 1 && keys[o2[a]] == keys[o2[b]] implies o2[a] < o2[b] by {
        if a < j && b < j {
            assert(o2[a] == order[a] && o2[b] == order[b]);
        } else if a < j && b == j {
            assert(0 <= order[a] < n);
        } else if a < j && b > j {
            assert(o2[a] == order[a] && o2[b] == order[b - 1]);
        } else if a == j {
            assert(o2[b] == order[b - 1]);
            lemma_chars_lt_irreflexive(kx);
        } else {
            assert(o2[a] == order[a - 1] && o2[b] == order[b - 1]);
        }
    }
}

/// The indices of `keys` in the order of a stable sort by key: what
/// `sort_by_key` does to elements with these keys.
pub fn stable_order(keys: &Vec<Vec<char>>) -> (order: Vec<usize>)
    ensures
        is_stable_order(key_views(keys@), index_views(order@)),
{
    let ghost kv = key_views(keys@);
    let mut order: Vec<usize> = Vec::new();
    let mut i: usize = 0;
    while i < keys.len()
        invariant
            i <= keys.len(),
            kv == key_views(keys@),
            stable_order_upto(kv, index_views(order@), i as int),
            forall|q: int| 0 <= q < order.len() ==> #[trigger] order@[q] < i,
        decreases keys.len() - i,
    {
        let mut j: usize = 0;
        while j < order.len() && !chars_less(&keys[i], &keys[order[j]])
            invariant
                i < keys.len(),
                j <= order.len(),
                kv == key_views(keys@),
                stable_order_upto(kv, index_views(order@), i as int),
                forall|q: int| 0 <= q < order.len() ==> #[trigger] order@[q] < i,
                forall|k: int| 0 <= k < j ==> !chars_lt(kv[i as int], kv[#[trigger] index_views(order@)[k]]),
            decreases order.len() - j,
        {
            assert(index_views(order@)[j as int] == order@[j as int] as int);
            j = j + 1;
        }
        proof {
            if j < order.len() {
                assert(index_views(order@)[j as int] == order@[j as int] as int);
            }
            lemma_order_insert(kv, index_views(order@), i as int, j as int);
        }
        let ghost before = order@;
        order.insert(j, i);
        assert(index_views(order@) =~= index_views(before).insert(j as int, i as int));
        assert forall|q: int| 0 <= q < order.len() implies #[trigger] order@[q] < i + 1 by {
            if q < j {
                assert(order@[q] == before[q]);
            } else if q > j {
                assert(order@[q] == before[q - 1]);
            }
        }
        i = i + 1;
    }
    order
}

/// A stable order uses every index.
proof fn lemma_order_covers(keys: Seq<Seq<char>>, order: Seq<int>, m: int)
    requires
        is_stable_order(keys, order),
        0 <= m < keys.len(),
    ensures
        exists|k: int| 0 <= k < order.len() && order[k] == m,
{
    let n = keys.len() as int;
    let range = vstd::set_lib::set_int_range(0, n);
    vstd::set_lib::lemma_int_range(0, n);
    assert(order.no_duplicates()) by {
        assert forall|i: int, j: int| 0 <= i < order.len() && 0 <= j < order.len() && i != j implies order[i]
            != order[j] by {
            if i < j {
                assert(order[i] != order[j]);
            } else {
                assert(order[j] != order[i]);
            }
        }
    }
    order.unique_seq_to_set();
    assert(order.to_set().subset_of(range)) by {
        assert forall|x: int| order.to_set().contains(x) implies range.contains(x) by {
            let k = choose|k: int| 0 <= k < order.len() && order[k] == x;
            assert(0 <= order[k] < n);
        }
    }
    vstd::seq_lib::seq_to_set_is_finite(order);
    vstd::set_lib::lemma_subset_equality(order.to_set(), range);
    assert(range.contains(m));
    assert(order.to_set().contains(m));
}

/// The stable order of a list of keys is unique, so `stable_order` has
/// exactly one possible result.
pub proof fn lemma_stable_order_unique(keys: Seq<Seq<char>>, o1: Seq<int>, o2: Seq<int>)
    requires
        is_stable_order(keys, o1),
        is_stable_order(keys, o2),
    ensures
        o1 == o2,
{
    lemma_orders_agree(keys, o1, o2, 0);
    assert(o1 =~= o2);
}

proof fn lemma_orders_agree(keys: Seq<Seq<char>>, o1: Seq<int>, o2: Seq<int>, k: int)
    requires
        is_stable_order(keys, o1),
        is_stable_order(keys, o2),
        0 <= k <= keys.len(),
        forall|j: int| 0 <= j < k ==> o1[j] == o2[j],
    ensures
        forall|j: int| 0 <= j < keys.len() ==> o1[j] == o2[j],
    decreases keys.len() - k,
{
    if k < keys.len() {
        lemma_order_covers(keys, o2, o1[k]);
        let l = choose|l: int| 0 <= l < o2.len() && o2[l] == o1[k];
        lemma_order_covers(keys, o1, o2[k]);
        let l2 = choose|l: int| 0 <= l < o1.len() && o1[l] == o2[k];
        if l < k {
            assert(o1[l] == o2[l]);
            assert(o1[l] != o1[k]);
        }
        if l2 < k {
            assert(o1[l2] == o2[l2]);
            assert(o2[l2] != o2[k]);
        }
        if l != k && l2 != k {
            assert(!chars_lt(keys[o2[l]], keys[o2[k]]));
            assert(!chars_lt(keys[o1[l2]], keys[o1[k]]));
            lemma_chars_lt_total(keys[o1[k]], keys[o2[k]]);
            if keys[o1[k]] == keys[o2[k]] {
                assert(o2[k] < o2[l]);
                assert(o1[k] < o1[l2]);
            }
        }
        lemma_orders_agree(keys, o1, o2, k + 1);
    }
}

/// The templates sorted stably by their lower-case names, as
/// `sort_by_key(|t| t.name.to_lowercase())` orders them.
pub fn sort_by_lowercase_name(items: &Vec<Template>) -> (r: Vec<Template>)
    ensures
        is_stable_sort(views(r@), views(items@)),
{
    let ghost s = views(items@);
    let mut keys: Vec<Vec<char>> = Vec::new();
    let mut i: usize = 0;
    while i < items.len()
        invariant
            i <= items.len(),
            keys.len() == i,
            forall|k: int| 0 <= k < i ==> (#[trigger] keys@[k])@ == template_key(items@[k]@),
        decreases items.len() - i,
    {
        let lowered = to_lowercase(items[i].name.as_str());
        keys.push(chars_of(lowered.as_str()));
        i = i + 1;
    }
    let order = stable_order(&keys);
    let ghost kv = key_views(keys@);
    let ghost p = index_views(order@);
    assert forall|k: int| 0 <= k < s.len() implies kv[k] == template_key(#[trigger] s[k]) by {
        assert(keys@[k]@ == template_key(items@[k]@));
    }
    let mut r: Vec<Template> = Vec::new();
    let mut k: usize = 0;
    while k < order.len()
        invariant
            k <= order.len(),
            order.len() == items.len(),
            p == index_views(order@),
            forall|q: int| 0 <= q < order.len() ==> 0 <= #[trigger] p[q] < items.len(),
            r.len() == k,
            forall|q: int| 0 <= q < k ==> #[trigger] r@[q] == items@[p[q]],
        decreases order.len() - k,
    {
        assert(p[k as int] == order@[k as int] as int);
        r.push(clone_template(&items[order[k]]));
        k = k + 1;
    }
    proof {
        let rv = views(r@);
        assert forall|q: int| 0 <= q < p.len() implies 0 <= #[trigger] p[q] < s.len() && rv[q]
            == s[p[q]] by {
            assert(r@[q] == items@[p[q]]);
        }
        assert forall|a: int, b: int| 0 <= a < b < p.len() implies #[trigger] p[a]
            != #[trigger] p[b] by {
        }
        assert forall|a: int, b: int| 0 <= a < b < rv.len() implies !chars_lt(
            template_key(#[trigger] rv[b]),
            template_key(#[trigger] rv[a]),
        ) by {
            assert(rv[a] == s[p[a]] && rv[b] == s[p[b]]);
        }
        assert forall|a: int, b: int|
            0 <= a < b < rv.len() && template_key(#[trigger] rv[a]) == template_key(#[trigger] rv[b])
            implies p[a] < p[b] by {
            assert(rv[a] == s[p[a]] && rv[b] == s[p[b]]);
        }
        assert(stable_sort_by(rv, s, p));
    }
    r
}

/// The templates of a listing, in the listing's order: the entries of type
/// `file` at the repository root whose names end in `.gitignore`.
pub fn root_templates_in(contents: &Vec<ContentEntry>) -> (r: Vec<Template>)
    ensures
        views(r@) == root_templates(contents@),
{
    let mut r: Vec<Template> = Vec::new();
    let mut i: usize = 0;
    while i < contents.len()
        invariant
            i <= contents.len(),
            views(r@) == root_templates(contents@.take(i as int)),
        decreases contents.len() - i,
    {
        let c = &contents[i];
        let ghost prefix = contents@.take(i as int);
        assert(contents@.take(i + 1).drop_last() =~= prefix);
        assert(contents@.take(i + 1).last() == *c);
        if str_equals(c.content_type.as_str(), "file") && str_equals(c.path.as_str(), c.name.as_str()) {
            match strip_suffix(c.name.as_str(), ".gitignore") {
                Some(name) => {
                    let ghost before = r@;
                    r.push(Template { name, file_name: c.name.clone() });
                    assert(views(r@) =~= views(before).push(r@.last()@));
                },
                None => {},
            }
        }
        i = i + 1;
    }
    assert(contents@.take(contents.len() as int) =~= contents@);
    r
}

/// The root-level templates of a contents listing, sorted stably by their
/// lower-case names.
pub fn templates_from_contents(contents: Vec<ContentEntry>) -> (r: Vec<Template>)
    ensures
        is_stable_sort(views(r@), root_templates(contents@)),
{
    let found = root_templates_in(&contents);
    sort_by_lowercase_name(&found)
}

/// Why a requested template name did not resolve.
#[derive(Clone, Debug, PartialEq, Eq)]
pub enum ResolveError {
    /// No template has the name, not even up to ASCII case.
    NotFound { name: String },
    /// No template has exactly the name, and several match it up to ASCII case;
    /// `candidates` lists their names, separated by `, `.
    Ambiguous { name: String, candidates: String },
}

impl ResolveError {
    /// The error's text.
    pub fn message(&self) -> (r: String)
        ensures
            match self {
                ResolveError::NotFound { name } => r@ == "template '"@ + name@ + "' was not found"@,
                ResolveError::Ambiguous { name, candidates } => r@ == "template '"@ + name@
                    + "' is ambiguous: "@ + candidates@,
            },
    {
        let mut r = String::from_str("template '");
        match self {
            ResolveError::NotFound { name } => {
                r.append(name.as_str());
                r.append("' was not found");
            },
            ResolveError::Ambiguous { name, candidates } => {
                r.append(name.as_str());
                r.append("' is ambiguous: ");
                r.append(candidates.as_str());
            },
        }
        r
    }
}

/// The first index of a template named exactly `req`.
pub open spec fn exact_index(ts: Seq<TemplateView>, req: Seq<char>) -> Option<int>
    decreases ts.len(),
{
    if ts.len() == 0 {
        None
    } else {
        match exact_index(ts.drop_last(), req) {
            Some(i) => Some(i),
            None => if ts.last().name == req {
                Some(ts.len() - 1)
            } else {
                None
            },
        }
    }
}

/// The indices, in order, of the templates whose names match `req` up to ASCII case.
pub open spec fn case_matches(ts: Seq<TemplateView>, req: Seq<char>) -> Seq<int>
    decreases ts.len(),
{
    if ts.len() == 0 {
        Seq::empty()
    } else {
        let rest = case_matches(ts.drop_last(), req);
        if ascii_case_eq(ts.last().name, req) {
            rest.push(ts.len() - 1)
        } else {
            rest
        }
    }
}

/// The names of the templates at the given indices.
pub open spec fn names_at(ts: Seq<TemplateView>, idx: Seq<int>) -> Seq<Seq<char>> {
    idx.map_values(|i: int| ts[i].name)
}

proof fn lemma_exact_index_bounds(ts: Seq<TemplateView>, req: Seq<char>)
    ensures
        exact_index(ts, req) matches Some(i) ==> 0 <= i < ts.len() && ts[i].name == req,
    decreases ts.len(),
{
    if ts.len() > 0 {
        lemma_exact_index_bounds(ts.drop_last(), req);
    }
}

/// Each index that `case_matches` gives is in range, increasing, and names
/// a template that matches the request up to ASCII case.
pub proof fn lemma_case_matches_match(ts: Seq<TemplateView>, req: Seq<char>)
    ensures
        forall|k: int|
            0 <= k < case_matches(ts, req).len() ==> {
                let i = #[trigger] case_matches(ts, req)[k];
                0 <= i < ts.len() && ascii_case_eq(ts[i].name, req)
            },
    decreases ts.len(),
{
    if ts.len() > 0 {
        lemma_case_matches_match(ts.drop_last(), req);
        let rest = case_matches(ts.drop_last(), req);
        assert forall|k: int| 0 <= k < rest.len() implies {
            let i = #[trigger] rest[k];
            0 <= i < ts.len() && ascii_case_eq(ts[i].name, req)
        } by {
            assert(ts.drop_last()[rest[k]] == ts[rest[k]]);
        }
    }
}

/// A template that resolves has a name equal to the request up to ASCII
/// case; exactly equal whenever some template's name is exactly equal.
pub proof fn lemma_resolved_name_matches(ts: Seq<TemplateView>, req: Seq<char>)
    ensures
        exact_index(ts, req) matches Some(i) ==> 0 <= i < ts.len() && ts[i].name == req,
        exact_index(ts, req) is None && case_matches(ts, req).len() == 1 ==> ascii_case_eq(
            ts[case_matches(ts, req)[0]].name,
            req,
        ),
        (exists|i: int| 0 <= i < ts.len() && ts[i].name == req) ==> exact_index(ts, req) is Some,
    decreases ts.len(),
{
    lemma_exact_index_bounds(ts, req);
    lemma_case_matches_match(ts, req);
    if ts.len() > 0 {
        lemma_resolved_name_matches(ts.drop_last(), req);
        if exists|i: int| 0 <= i < ts.len() && ts[i].name == req {
            let i = choose|i: int| 0 <= i < ts.len() && ts[i].name == req;
            if i < ts.len() - 1 {
                assert(ts.drop_last()[i] == ts[i]);
            }
        }
    }
}

/// The template that `requested` names. A template whose name equals it comes
/// first (the first such one); otherwise the one template whose name matches it
/// up to ASCII case. None matching is `NotFound`; several are `Ambiguous`.
pub fn resolve_template<'a>(templates: &'a [Template], requested: &str) -> (r: Result<
    &'a Template,
    ResolveError,
>)
    ensures
        ({
            let ts = views(templates@);
            let m = case_matches(ts, requested@);
            match exact_index(ts, requested@) {
                Some(i) => r matches Ok(t) && *t == templates@[i],
                None => if m.len() == 1 {
                    r matches Ok(t) && *t == templates@[m[0]]
                } else if m.len() == 0 {
                    r matches Err(ResolveError::NotFound { name }) && name@ == requested@
                } else {
                    r matches Err(ResolveError::Ambiguous { name, candidates }) && name@
                        == requested@ && candidates@ == seq_join(names_at(ts, m), ", "@)
                },
            }
        }),
{
    let ghost ts = views(templates@);
    let mut i: usize = 0;
    while i < templates.len()
        invariant
            i <= templates.len(),
            ts == views(templates@),
            exact_index(ts.take(i as int), requested@) is None,
        decreases templates.len() - i,
    {
        assert(ts.take(i + 1).drop_last() =~= ts.take(i as int));
        if str_equals(templates[i].name.as_str(), requested) {
            assert(exact_index(ts.take(i + 1), requested@) == Some(i as int));
            proof {
                lemma_exact_index_prefix(ts, i as int + 1, requested@);
            }
            return Ok(&templates[i]);
        }
        i = i + 1;
    }
    assert(ts.take(i as int) =~= ts);
    let mut matches: Vec<usize> = Vec::new();
    let mut k: usize = 0;
    while k < templates.len()
        invariant
            k <= templates.len(),
            ts == views(templates@),
            matches@.map_values(|x: usize| x as int) == case_matches(ts.take(k as int), requested@),
            forall|q: int| 0 <= q < matches.len() ==> #[trigger] matches@[q] < k,
        decreases templates.len() - k,
    {
        assert(ts.take(k + 1).drop_last() =~= ts.take(k as int));
        let ghost before = matches@;
        if eq_ignore_ascii_case(templates[k].name.as_str(), requested) {
            matches.push(k);
            assert(matches@.map_values(|x: usize| x as int) =~= before.map_values(|x: usize| x as int).push(k as int));
        }
        k = k + 1;
    }
    assert(ts.take(k as int) =~= ts);
    let ghost m = case_matches(ts, requested@);
    assert(matches@.len() == m.len());
    if matches.len() == 1 {
        assert(matches@[0] as int == m[0]);
        return Ok(&templates[matches[0]]);
    }
    if matches.len() == 0 {
        return Err(ResolveError::NotFound { name: requested.to_string() });
    }
    let mut names: Vec<String> = Vec::new();
    let mut q: usize = 0;
    while q < matches.len()
        invariant
            q <= matches.len(),
            ts == views(templates@),
            matches@.map_values(|x: usize| x as int) == m,
            forall|z: int| 0 <= z < matches.len() ==> #[trigger] matches@[z] < templates.len(),
            string_views(names@) == names_at(ts, m).take(q as int),
        decreases matches.len() - q,
    {
        let ghost before = names@;
        assert(matches@[q as int] as int == m[q as int]);
        names.push(templates[matches[q]].name.clone());
        assert(string_views(names@) =~= string_views(before).push(names@.last()@));
        assert(names_at(ts, m).take(q + 1) =~= names_at(ts, m).take(q as int).push(ts[m[q as int]].name));
        q = q + 1;
    }
    assert(names_at(ts, m).take(q as int) =~= names_at(ts, m));
    let candidates = join_strings(&names, ", ");
    Err(ResolveError::Ambiguous { name: requested.to_string(), candidates })
}

/// The first exact match within a prefix is the first in the whole sequence.
proof fn lemma_exact_index_prefix(ts: Seq<TemplateView>, n: int, req: Seq<char>)
    requires
        0 <= n <= ts.len(),
        exact_index(ts.take(n), req) is Some,
    ensures
        exact_index(ts, req) == exact_index(ts.take(n), req),
    decreases ts.len() - n,
{
    if n < ts.len() {
        assert(ts.take(n + 1).drop_last() =~= ts.take(n));
        lemma_exact_index_prefix(ts, n + 1, req);
    } else {
        assert(ts.take(n) =~= ts);
    }
}

/// The names of the templates.
pub open spec fn template_names(ts: Seq<TemplateView>) -> Seq<Seq<char>> {
    ts.map_values(|t: TemplateView| t.name)
}

fn names_of(templates: &[Template]) -> (r: Vec<String>)
    ensures
        string_views(r@) == template_names(views(templates@)),
{
    let mut r: Vec<String> = Vec::new();
    let mut i: usize = 0;
    while i < templates.len()
        invariant
            i <= templates.len(),
            string_views(r@) == template_names(views(templates@)).take(i as int),
        decreases templates.len() - i,
    {
        let ghost before = r@;
        r.push(templates[i].name.clone());
        assert(string_views(r@) =~= string_views(before).push(templates@[i as int].name@));
        assert(template_names(views(templates@)).take(i + 1) =~= template_names(views(templates@)).take(i as int).push(templates@[i as int].name@));
        i = i + 1;
    }
    assert(template_names(views(templates@)).take(i as int) =~= template_names(views(templates@)));
    r
}

/// The template names one per line, each line ended by a newline.
pub fn format_template_list(templates: &[Template]) -> (r: String)
    ensures
        r@ == seq_join(template_names(views(templates@)), "\n"@) + "\n"@,
{
    let names = names_of(templates);
    let mut r = join_strings(&names, "\n");
    r.append("\n");
    r
}

/// What `__complete` prints: the candidates when the template list could be
/// had, and nothing at all when it could not.
pub fn completion_output(templates: Option<&[Template]>, prefix: &str) -> (r: String)
    ensures
        match templates {
            Some(ts) => r@ == seq_join(template_names(prefix_matches(views(ts@), prefix@)), "\n"@)
                + "\n"@,
            None => r@ == Seq::<char>::empty(),
        },
{
    match templates {
        Some(ts) => complete_candidates(ts, prefix),
        None => String::new(),
    }
}

/// The templates whose lower-case names start with the lower-case `prefix`, in order.
pub open spec fn prefix_matches(ts: Seq<TemplateView>, prefix: Seq<char>) -> Seq<TemplateView>
    decreases ts.len(),
{
    if ts.len() == 0 {
        Seq::empty()
    } else {
        let rest = prefix_matches(ts.drop_last(), prefix);
        if is_prefix(unicode_lowercase(prefix), unicode_lowercase(ts.last().name)) {
            rest.push(ts.last())
        } else {
            rest
        }
    }
}

/// The indices, in order, of the names that start with `prefix`.
pub open spec fn prefix_indices(names: Seq<Seq<char>>, prefix: Seq<char>) -> Seq<int>
    decreases names.len(),
{
    if names.len() == 0 {
        Seq::empty()
    } else {
        let rest = prefix_indices(names.drop_last(), prefix);
        if is_prefix(prefix, names.last()) {
            rest.push(names.len() - 1)
        } else {
            rest
        }
    }
}

/// The indices, in order, of the already lower-cased names that start with
/// the already lower-cased prefix.
pub fn select_by_prefix(lowered: &Vec<String>, lower_prefix: &str) -> (r: Vec<usize>)
    ensures
        index_views(r@) == prefix_indices(string_views(lowered@), lower_prefix@),
{
    let ghost names = string_views(lowered@);
    let mut r: Vec<usize> = Vec::new();
    let mut i: usize = 0;
    while i < lowered.len()
        invariant
            i <= lowered.len(),
            names == string_views(lowered@),
            index_views(r@) == prefix_indices(names.take(i as int), lower_prefix@),
        decreases lowered.len() - i,
    {
        assert(names.take(i + 1).drop_last() =~= names.take(i as int));
        assert(names.take(i + 1).last() == lowered@[i as int]@);
        let ghost before = r@;
        if starts_with(lowered[i].as_str(), lower_prefix) {
            r.push(i);
            assert(index_views(r@) =~= index_views(before).push(i as int));
        }
        i = i + 1;
    }
    assert(names.take(i as int) =~= names);
    r
}

/// Filtering templates by the lower-cased prefix picks, in order, the
/// templates at the indices that `prefix_indices` gives for their lower-cased
/// names.
proof fn lemma_matches_by_index(ts: Seq<TemplateView>, lowered: Seq<Seq<char>>, prefix: Seq<char>)
    requires
        lowered.len() == ts.len(),
        forall|i: int| 0 <= i < ts.len() ==> #[trigger] lowered[i] == unicode_lowercase(ts[i].name),
    ensures
        forall|k: int|
            0 <= k < prefix_indices(lowered, unicode_lowercase(prefix)).len() ==> 0
                <= #[trigger] prefix_indices(lowered, unicode_lowercase(prefix))[k] < ts.len(),
        template_names(prefix_matches(ts, prefix)) == prefix_indices(
            lowered,
            unicode_lowercase(prefix),
        ).map_values(|i: int| ts[i].name),
    decreases ts.len(),
{
    let lp = unicode_lowercase(prefix);
    if ts.len() > 0 {
        let ti = ts.drop_last();
        let li = lowered.drop_last();
        assert forall|i: int| 0 <= i < ti.len() implies #[trigger] li[i] == unicode_lowercase(ti[i].name) by {
            assert(li[i] == lowered[i]);
        }
        lemma_matches_by_index(ti, li, prefix);
        let rest = prefix_indices(li, lp);
        assert(rest.map_values(|i: int| ti[i].name) =~= rest.map_values(|i: int| ts[i].name)) by {
            assert forall|k: int| #![trigger rest[k]] 0 <= k < rest.len() implies rest.map_values(|i: int| ti[i].name)[k]
                == rest.map_values(|i: int| ts[i].name)[k] by {
                assert(0 <= rest[k] < ti.len());
            }
        }
        assert(lowered.last() == unicode_lowercase(ts.last().name));
        if is_prefix(lp, lowered.last()) {
            assert(prefix_indices(lowered, lp).map_values(|i: int| ts[i].name) =~= rest.map_values(
                |i: int| ts[i].name,
            ).push(ts.last().name));
            assert(template_names(prefix_matches(ts, prefix)) =~= template_names(prefix_matches(ti, prefix)).push(ts.last().name));
        } else {
            assert(template_names(prefix_matches(ts, prefix)) =~= template_names(prefix_matches(ti, prefix)));
        }
    }
}

/// The completion candidates for `prefix`: the names of the templates whose
/// lower-case names start with the lower-case prefix, one per line, each line
/// ended by a newline (a lone newline when there are none). The empty prefix
/// gives every name.
pub fn complete_candidates(templates: &[Template], prefix: &str) -> (r: String)
    ensures
        r@ == seq_join(template_names(prefix_matches(views(templates@), prefix@)), "\n"@) + "\n"@,
        prefix@.len() == 0 ==> r@ == seq_join(template_names(views(templates@)), "\n"@) + "\n"@,
{
    let ghost ts = views(templates@);
    let lower_prefix = to_lowercase(prefix);
    let mut lowered: Vec<String> = Vec::new();
    let mut i: usize = 0;
    while i < templates.len()
        invariant
            i <= templates.len(),
            ts == views(templates@),
            lowered.len() == i,
            forall|k: int| 0 <= k < i ==> (#[trigger] lowered@[k])@ == unicode_lowercase(ts[k].name),
        decreases templates.len() - i,
    {
        lowered.push(to_lowercase(templates[i].name.as_str()));
        i = i + 1;
    }
    let picked = select_by_prefix(&lowered, lower_prefix.as_str());
    let ghost lv = string_views(lowered@);
    proof {
        assert forall|k: int| 0 <= k < ts.len() implies #[trigger] lv[k] == unicode_lowercase(ts[k].name) by {
            assert(lowered@[k]@ == unicode_lowercase(ts[k].name));
        }
        lemma_matches_by_index(ts, lv, prefix@);
    }
    let ghost want = prefix_indices(lv, unicode_lowercase(prefix@));
    let mut names: Vec<String> = Vec::new();
    let mut q: usize = 0;
    while q < picked.len()
        invariant
            q <= picked.len(),
            ts == views(templates@),
            index_views(picked@) == want,
            forall|k: int| 0 <= k < want.len() ==> 0 <= #[trigger] want[k] < ts.len(),
            string_views(names@) == want.map_values(|x: int| ts[x].name).take(q as int),
        decreases picked.len() - q,
    {
        assert(want[q as int] == picked@[q as int] as int);
        let ghost before = names@;
        names.push(templates[picked[q]].name.clone());
        assert(string_views(names@) =~= string_views(before).push(ts[want[q as int]].name));
        assert(want.map_values(|x: int| ts[x].name).take(q + 1) =~= want.map_values(|x: int| ts[x].name).take(q as int).push(ts[want[q as int]].name));
        q = q + 1;
    }
    assert(want.map_values(|x: int| ts[x].name).take(q as int) =~= want.map_values(|x: int| ts[x].name));
    proof {
        if prefix@.len() == 0 {
            assert(unicode_lowercase(prefix@) =~= Seq::<char>::empty());
            lemma_empty_prefix_matches_all(ts, prefix@);
        }
    }
    let mut r = join_strings(&names, "\n");
    r.append("\n");
    r
}

/// `q` a prefix of `p`, and `p` of `s`, make `q` a prefix of `s`.
proof fn lemma_is_prefix_transitive(q: Seq<char>, p: Seq<char>, s: Seq<char>)
    requires
        is_prefix(q, p),
        is_prefix(p, s),
    ensures
        is_prefix(q, s),
{
    assert(s.subrange(0, q.len() as int) =~= p.subrange(0, q.len() as int)) by {
        assert forall|i: int| 0 <= i < q.len() implies s.subrange(0, q.len() as int)[i] == p.subrange(0, q.len() as int)[i] by {
            assert(s.subrange(0, p.len() as int)[i] == p[i]);
        }
    }
}

/// The prefix whose lower-case form is empty matches every template.
pub proof fn lemma_empty_prefix_matches_all(ts: Seq<TemplateView>, prefix: Seq<char>)
    requires
        unicode_lowercase(prefix).len() == 0,
    ensures
        prefix_matches(ts, prefix) == ts,
    decreases ts.len(),
{
    if ts.len() > 0 {
        lemma_empty_prefix_matches_all(ts.drop_last(), prefix);
        assert(unicode_lowercase(ts.last().name).subrange(0, 0) =~= unicode_lowercase(prefix));
        assert(ts.drop_last().push(ts.last()) =~= ts);
    }
}

/// A longer prefix never adds candidates: when the lower-case `q` is a
/// prefix of the lower-case `p`, the candidates for `p` are exactly the
/// candidates for `q` that also match `p`, in the same order, so there are
/// no more of them.
pub proof fn lemma_longer_prefix_narrows(ts: Seq<TemplateView>, p: Seq<char>, q: Seq<char>)
    requires
        is_prefix(unicode_lowercase(q), unicode_lowercase(p)),
    ensures
        prefix_matches(prefix_matches(ts, q), p) == prefix_matches(ts, p),
        prefix_matches(ts, p).len() <= prefix_matches(ts, q).len(),
    decreases ts.len(),
{
    if ts.len() > 0 {
        let init = ts.drop_last();
        let x = ts.last();
        lemma_longer_prefix_narrows(init, p, q);
        let mq = prefix_matches(init, q);
        let lx = unicode_lowercase(x.name);
        if is_prefix(unicode_lowercase(q), lx) {
            assert(prefix_matches(ts, q) == mq.push(x));
            assert(mq.push(x).drop_last() =~= mq);
        } else {
            if is_prefix(unicode_lowercase(p), lx) {
                lemma_is_prefix_transitive(unicode_lowercase(q), unicode_lowercase(p), lx);
            }
        }
    }
}

/// On names already lower-cased, a longer prefix selects no index that a
/// shorter one does not, and the empty prefix selects every index.
pub proof fn lemma_prefix_indices_narrow(names: Seq<Seq<char>>, p: Seq<char>, q: Seq<char>)
    requires
        is_prefix(q, p),
    ensures
        forall|k: int| 0 <= k < prefix_indices(names, p).len() ==> prefix_indices(names, q).contains(
            #[trigger] prefix_indices(names, p)[k],
        ),
        prefix_indices(names, Seq::empty()) == Seq::new(names.len(), |i: int| i),
    decreases names.len(),
{
    if names.len() > 0 {
        let init = names.drop_last();
        lemma_prefix_indices_narrow(init, p, q);
        let rp = prefix_indices(init, p);
        let rq = prefix_indices(init, q);
        let last = names.len() - 1;
        if is_prefix(p, names.last()) {
            lemma_is_prefix_transitive(q, p, names.last());
        }
        assert forall|k: int| 0 <= k < prefix_indices(names, p).len() implies prefix_indices(names, q).contains(
            #[trigger] prefix_indices(names, p)[k],
        ) by {
            if k < rp.len() {
                assert(prefix_indices(names, p)[k] == rp[k]);
                let j = choose|j: int| 0 <= j < rq.len() && rq[j] == rp[k];
                if is_prefix(q, names.last()) {
                    assert(prefix_indices(names, q)[j] == rq[j]);
                } else {
                    assert(prefix_indices(names, q)[j] == rq[j]);
                }
            } else {
                assert(prefix_indices(names, p)[k] == last);
                assert(prefix_indices(names, q)[rq.len() as int] == last);
            }
        }
        assert(names.last().subrange(0, 0) =~= Seq::<char>::empty());
        assert(prefix_indices(names, Seq::empty()) =~= Seq::new(names.len(), |i: int| i));
    }
}

/// Every template of a listing is a `.gitignore` file at the repository root:
/// it comes from an entry of type `file` whose path is its name, and its name
/// is that file name without the `.gitignore` suffix.
pub proof fn lemma_templates_are_root_files(cs: Seq<ContentEntry>)
    ensures
        forall|k: int|
            0 <= k < root_templates(cs).len() ==> exists|i: int|
                0 <= i < cs.len() && root_template_of(cs[i]) == Some(#[trigger] root_templates(cs)[k]),
    decreases cs.len(),
{
    if cs.len() > 0 {
        let init = cs.drop_last();
        lemma_templates_are_root_files(init);
        let rest = root_templates(init);
        assert forall|k: int| 0 <= k < root_templates(cs).len() implies exists|i: int|
            0 <= i < cs.len() && root_template_of(cs[i]) == Some(#[trigger] root_templates(cs)[k]) by {
            if k < rest.len() {
                let i = choose|i: int| 0 <= i < init.len() && root_template_of(init[i]) == Some(rest[k]);
                assert(cs[i] == init[i]);
            } else {
                assert(root_template_of(cs[cs.len() - 1]) == Some(root_templates(cs)[k]));
            }
        }
    }
}

/// What `templates_from_contents` returns holds only root `.gitignore` files
/// of the listing, each as often as the listing has it, with names ordered
/// by their lower-case forms.
pub proof fn lemma_listing_result_is_root_files(r: Seq<TemplateView>, cs: Seq<ContentEntry>)
    requires
        is_stable_sort(r, root_templates(cs)),
    ensures
        forall|k: int|
            0 <= k < r.len() ==> exists|i: int|
                0 <= i < cs.len() && root_template_of(cs[i]) == Some(#[trigger] r[k]),
        keys_ordered(r),
        r.len() == root_templates(cs).len(),
{
    lemma_templates_are_root_files(cs);
    let p = choose|p: Seq<int>| stable_sort_by(r, root_templates(cs), p);
    assert forall|k: int| 0 <= k < r.len() implies exists|i: int|
        0 <= i < cs.len() && root_template_of(cs[i]) == Some(#[trigger] r[k]) by {
        assert(r[k] == root_templates(cs)[p[k]]);
    }
}

/// The keys of a sequence of templates.
pub open spec fn keys_of(s: Seq<TemplateView>) -> Seq<Seq<char>> {
    s.map_values(|t: TemplateView| template_key(t))
}

/// A witness of a stable sort is the stable order of the keys.
proof fn lemma_witness_is_order(r: Seq<TemplateView>, s: Seq<TemplateView>, p: Seq<int>)
    requires
        stable_sort_by(r, s, p),
    ensures
        is_stable_order(keys_of(s), p),
{
    let keys = keys_of(s);
    let n = s.len() as int;
    assert forall|k: int, l: int| #![trigger p[k], p[l]] 0 <= k < l < n implies !chars_lt(
        keys[p[l]],
        keys[p[k]],
    ) by {
        assert(r[k] == s[p[k]] && r[l] == s[p[l]]);
        assert(!chars_lt(template_key(r[l]), template_key(r[k])));
    }
    assert forall|k: int, l: int|
        #![trigger p[k], p[l]]
        0 <= k < l < n && keys[p[k]] == keys[p[l]] implies p[k] < p[l] by {
        assert(r[k] == s[p[k]] && r[l] == s[p[l]]);
    }
}

/// A stable sort is unique: any two stable sorts of the same sequence by
/// lower-case name are the same sequence. So `templates_from_contents` has
/// exactly one possible result.
pub proof fn lemma_stable_sort_unique(r1: Seq<TemplateView>, r2: Seq<TemplateView>, s: Seq<TemplateView>)
    requires
        is_stable_sort(r1, s),
        is_stable_sort(r2, s),
    ensures
        r1 == r2,
{
    let p1 = choose|p: Seq<int>| stable_sort_by(r1, s, p);
    let p2 = choose|p: Seq<int>| stable_sort_by(r2, s, p);
    lemma_witness_is_order(r1, s, p1);
    lemma_witness_is_order(r2, s, p2);
    lemma_stable_order_unique(keys_of(s), p1, p2);
    assert forall|k: int| 0 <= k < r1.len() implies r1[k] == r2[k] by {
        assert(r1[k] == s[p1[k]]);
        assert(r2[k] == s[p2[k]]);
    }
    assert(r1 =~= r2);
}

/// A request that equals a template's name up to the case of ASCII letters
/// is among the case-insensitive matches, so resolving it never reports
/// `NotFound`: it gives an exact match, that template, or `Ambiguous`.
pub proof fn lemma_case_variant_is_matched(ts: Seq<TemplateView>, req: Seq<char>, i: int)
    requires
        0 <= i < ts.len(),
        ts[i].name.len() == req.len(),
        forall|k: int| 0 <= k < req.len() ==> #[trigger] same_letter_up_to_case(ts[i].name[k], req[k]),
    ensures
        case_matches(ts, req).contains(i),
    decreases ts.len(),
{
    lemma_ascii_case_eq_letterwise(ts[i].name, req);
    if i < ts.len() - 1 {
        let init = ts.drop_last();
        assert(init[i] == ts[i]);
        lemma_case_variant_is_matched(init, req, i);
        let rest = case_matches(init, req);
        let j = choose|j: int| 0 <= j < rest.len() && rest[j] == i;
        if ascii_case_eq(ts.last().name, req) {
            assert(case_matches(ts, req)[j] == i);
        } else {
            assert(case_matches(ts, req)[j] == i);
        }
    } else {
        let rest = case_matches(ts.drop_last(), req);
        assert(case_matches(ts, req)[rest.len() as int] == i);
    }
}

/// Every completion candidate's lower-case name agrees, position by
/// position, with the whole lower-case prefix.
pub proof fn lemma_candidates_start_with_prefix(ts: Seq<TemplateView>, prefix: Seq<char>)
    ensures
        forall|k: int|
            0 <= k < prefix_matches(ts, prefix).len() ==> {
                let name = unicode_lowercase(#[trigger] prefix_matches(ts, prefix)[k].name);
                let lp = unicode_lowercase(prefix);
                lp.len() <= name.len() && forall|i: int| 0 <= i < lp.len() ==> name[i] == lp[i]
            },
    decreases ts.len(),
{
    if ts.len() > 0 {
        lemma_candidates_start_with_prefix(ts.drop_last(), prefix);
        let rest = prefix_matches(ts.drop_last(), prefix);
        let lp = unicode_lowercase(prefix);
        let lx = unicode_lowercase(ts.last().name);
        lemma_is_prefix_pointwise(lp, lx, Seq::empty());
        assert forall|k: int| 0 <= k < prefix_matches(ts, prefix).len() implies {
            let name = unicode_lowercase(#[trigger] prefix_matches(ts, prefix)[k].name);
            lp.len() <= name.len() && forall|i: int| 0 <= i < lp.len() ==> name[i] == lp[i]
        } by {
            if k < rest.len() {
                assert(prefix_matches(ts, prefix)[k] == rest[k]);
            }
        }
    }
}

} // verus!
