//! Properties that relate the comparators' results to their inputs.
use vstd::prelude::*;

use crate::matcher::{
    MAX_DEPTH, details, lemma_method_labels, lemma_sort_by_name, links, links_of, method_results, method_text,
    operation_findings, operation_in, request_references, route_findings, route_paths,
    route_method_upper, route_results, schema_findings, schema_names, schema_results, sort_by_name,
    names_distinct, violations_named,
};
use crate::model::{
    Operation, PathItem, SchemaNode, SchemaRef, has_key, keys, lemma_fresh_names,
    lemma_lookup_has_key, lookup, resolve, string_views,
};
use crate::rules::route::route_text;
use crate::rules::schema::{
    keep_in, nullable_changes, nullable_flag, property_removed_view, relaxed_properties,
    removed_properties, schema_added_view, schema_removed_view,
};
use crate::rules::{MatchView, ViolationView, aggregate, has_level, levels};
use crate::ChangeLevel;

verus! {

/// The overall severity of an empty list is Change; of any list it is
/// Breaking exactly when one element is Breaking, else Warning exactly when
/// one element is Warning, else Change.
pub proof fn law_aggregate(ls: Seq<ChangeLevel>)
    ensures
        aggregate(Seq::empty()) == ChangeLevel::Change,
        (aggregate(ls) == ChangeLevel::Breaking) <==> has_level(ls, ChangeLevel::Breaking),
        (aggregate(ls) == ChangeLevel::Warning) <==> (!has_level(ls, ChangeLevel::Breaking)
            && has_level(ls, ChangeLevel::Warning)),
        (aggregate(ls) == ChangeLevel::Change) <==> (!has_level(ls, ChangeLevel::Breaking)
            && !has_level(ls, ChangeLevel::Warning)),
{
}

proof fn lemma_has_key_keys<V>(s: Seq<(String, V)>, k: Seq<char>)
    ensures
        has_key(s, k) <==> keys(s).contains(k),
{
    if has_key(s, k) {
        let i = choose|i: int| 0 <= i < s.len() && s[i].0@ == k;
        assert(keys(s)[i] == k);
    }
    if keys(s).contains(k) {
        let i = choose|i: int| 0 <= i < keys(s).len() && keys(s)[i] == k;
        assert(s[i].0@ == k);
    }
}

proof fn lemma_concat_contains(a: Seq<Seq<char>>, b: Seq<Seq<char>>, x: Seq<char>)
    ensures
        (a + b).contains(x) <==> (a.contains(x) || b.contains(x)),
{
    if a.contains(x) {
        let i = choose|i: int| 0 <= i < a.len() && a[i] == x;
        assert((a + b)[i] == x);
    }
    if b.contains(x) {
        let i = choose|i: int| 0 <= i < b.len() && b[i] == x;
        assert((a + b)[a.len() + i] == x);
    }
    if (a + b).contains(x) {
        let i = choose|i: int| 0 <= i < (a + b).len() && (a + b)[i] == x;
        if i < a.len() {
            assert(a[i] == x);
        } else {
            assert(b[i - a.len()] == x);
        }
    }
}

/// Each schema result holds the findings of its own name, which are not
/// empty; a name with findings has a result; distinct names give distinct
/// results.
pub proof fn lemma_schema_results(
    names: Seq<Seq<char>>,
    bs: Seq<(String, SchemaRef)>,
    cs: Seq<(String, SchemaRef)>,
    bd: Seq<(String, SchemaRef)>,
    cd: Seq<(String, SchemaRef)>,
)
    ensures
        forall|k: int|
            0 <= k < schema_results(names, bs, cs, bd, cd).len() ==> {
                let e = #[trigger] schema_results(names, bs, cs, bd, cd)[k];
                &&& e.violations == schema_findings(
                    e.name,
                    lookup(bs, e.name),
                    lookup(cs, e.name),
                    bd,
                    cd,
                )
                &&& names.contains(e.name)
            },
        forall|n: Seq<char>|
            names.contains(n) && schema_findings(n, lookup(bs, n), lookup(cs, n), bd, cd).len() > 0
                ==> exists|k: int|
                0 <= k < schema_results(names, bs, cs, bd, cd).len() && #[trigger] schema_results(
                    names,
                    bs,
                    cs,
                    bd,
                    cd,
                )[k].name == n,
        (forall|i: int, j: int| 0 <= i < j < names.len() ==> names[i] != names[j]) ==> forall|
            k1: int,
            k2: int,
        |
            0 <= k1 < k2 < schema_results(names, bs, cs, bd, cd).len() ==> schema_results(
                names,
                bs,
                cs,
                bd,
                cd,
            )[k1].name != schema_results(names, bs, cs, bd, cd)[k2].name,
    decreases names.len(),
{
    if names.len() > 0 {
        let init = names.drop_last();
        lemma_schema_results(init, bs, cs, bd, cd);
        let rest = schema_results(init, bs, cs, bd, cd);
        let res = schema_results(names, bs, cs, bd, cd);
        let last = names.last();
        let found = schema_findings(last, lookup(bs, last), lookup(cs, last), bd, cd);
        assert(res == if found.len() > 0 {
            rest.push(MatchView { name: last, violations: found })
        } else {
            rest
        });
        assert forall|k: int| 0 <= k < rest.len() implies res[k] == rest[k] by {
            if found.len() > 0 {
                assert(rest.push(MatchView { name: last, violations: found })[k] == rest[k]);
            }
        }
        assert forall|x: Seq<char>| init.contains(x) implies names.contains(x) by {
            let i = choose|i: int| 0 <= i < init.len() && init[i] == x;
            assert(names[i] == x);
        }
        assert(names[names.len() - 1] == names.last());
        assert forall|n: Seq<char>|
            names.contains(n) && schema_findings(n, lookup(bs, n), lookup(cs, n), bd, cd).len()
                > 0 implies exists|k: int| 0 <= k < res.len() && #[trigger] res[k].name == n by {
            let i = choose|i: int| 0 <= i < names.len() && names[i] == n;
            if i < names.len() - 1 {
                assert(init[i] == n);
                assert(init.contains(n));
                let k = choose|k: int| 0 <= k < rest.len() && #[trigger] rest[k].name == n;
                assert(res[k] == rest[k]);
            } else {
                assert(res[res.len() - 1].name == n);
            }
        }
        if forall|i: int, j: int| 0 <= i < j < names.len() ==> names[i] != names[j] {
            assert forall|i: int, j: int| 0 <= i < j < init.len() implies init[i] != init[j] by {
                assert(init[i] == names[i] && init[j] == names[j]);
            }
            assert forall|k: int| 0 <= k < rest.len() implies #[trigger] rest[k].name
                != names.last() by {
                let i = choose|i: int| 0 <= i < init.len() && init[i] == rest[k].name;
                assert(names[i] == init[i]);
            }
        }
    }
}

/// A schema name that only the current version defines, and whose
/// definition resolves, has exactly one result in the list that
/// `match_schemas` returns, holding one violation:
/// SchemaAdded, with severity Change.
pub proof fn law_schema_added(
    bs: Seq<(String, SchemaRef)>,
    cs: Seq<(String, SchemaRef)>,
    bd: Seq<(String, SchemaRef)>,
    cd: Seq<(String, SchemaRef)>,
    name: Seq<char>,
)
    requires
        !has_key(bs, name),
        lookup(cs, name) is Some,
        resolve(lookup(cs, name).unwrap(), cd) is Some,
    ensures
        ({
            let res = sort_by_name(schema_results(schema_names(bs, cs), bs, cs, bd, cd));
            &&& exists|k: int|
                0 <= k < res.len() && res[k].name == name && res[k].violations == seq![
                    schema_added_view(name),
                ]
            &&& forall|k1: int, k2: int|
                0 <= k1 < res.len() && 0 <= k2 < res.len() && res[k1].name == name && res[k2].name
                    == name ==> k1 == k2
        }),
        schema_added_view(name).change_level == ChangeLevel::Change,
{
    lemma_lookup_has_key(bs, name);
    lemma_lookup_has_key(cs, name);
    let found = schema_findings(name, lookup(bs, name), lookup(cs, name), bd, cd);
    assert(found =~= seq![schema_added_view(name)]);
    lemma_in_schema_results(bs, cs, bd, cd, name);
}

/// A schema name that only the base version defines, and whose definition
/// resolves, has exactly one result in the list that `match_schemas`
/// returns, holding one violation: SchemaRemoved,
/// with severity Breaking.
pub proof fn law_schema_removed(
    bs: Seq<(String, SchemaRef)>,
    cs: Seq<(String, SchemaRef)>,
    bd: Seq<(String, SchemaRef)>,
    cd: Seq<(String, SchemaRef)>,
    name: Seq<char>,
)
    requires
        lookup(bs, name) is Some,
        resolve(lookup(bs, name).unwrap(), bd) is Some,
        !has_key(cs, name),
    ensures
        ({
            let res = sort_by_name(schema_results(schema_names(bs, cs), bs, cs, bd, cd));
            &&& exists|k: int|
                0 <= k < res.len() && res[k].name == name && res[k].violations == seq![
                    schema_removed_view(name),
                ]
            &&& forall|k1: int, k2: int|
                0 <= k1 < res.len() && 0 <= k2 < res.len() && res[k1].name == name && res[k2].name
                    == name ==> k1 == k2
        }),
        schema_removed_view(name).change_level == ChangeLevel::Breaking,
{
    lemma_lookup_has_key(bs, name);
    lemma_lookup_has_key(cs, name);
    let found = schema_findings(name, lookup(bs, name), lookup(cs, name), bd, cd);
    assert(found =~= seq![schema_removed_view(name)]);
    lemma_in_schema_results(bs, cs, bd, cd, name);
}

/// A name defined by either version, with findings, has exactly one result,
/// and that result holds its findings.
proof fn lemma_in_schema_results(
    bs: Seq<(String, SchemaRef)>,
    cs: Seq<(String, SchemaRef)>,
    bd: Seq<(String, SchemaRef)>,
    cd: Seq<(String, SchemaRef)>,
    name: Seq<char>,
)
    requires
        has_key(bs, name) || has_key(cs, name),
        schema_findings(name, lookup(bs, name), lookup(cs, name), bd, cd).len() > 0,
    ensures
        ({
            let res = sort_by_name(schema_results(schema_names(bs, cs), bs, cs, bd, cd));
            &&& exists|k: int|
                0 <= k < res.len() && res[k].name == name && res[k].violations == schema_findings(
                    name,
                    lookup(bs, name),
                    lookup(cs, name),
                    bd,
                    cd,
                )
            &&& forall|k1: int, k2: int|
                0 <= k1 < res.len() && 0 <= k2 < res.len() && res[k1].name == name && res[k2].name
                    == name ==> k1 == k2
        }),
{
    let names = schema_names(bs, cs);
    lemma_has_key_keys(bs, name);
    lemma_has_key_keys(cs, name);
    lemma_concat_contains(keys(bs), keys(cs), name);
    lemma_fresh_names(keys(bs) + keys(cs), Seq::empty());
    assert(names.contains(name));
    lemma_schema_results(names, bs, cs, bd, cd);
    let unsorted = schema_results(names, bs, cs, bd, cd);
    lemma_sort_by_name(unsorted);
    let res = sort_by_name(unsorted);
    let k0 = choose|k: int| 0 <= k < unsorted.len() && #[trigger] unsorted[k].name == name;
    assert(unsorted.contains(unsorted[k0]));
    assert(res.contains(unsorted[k0]));
    let k = choose|k: int| 0 <= k < res.len() && res[k] == unsorted[k0];
    assert(res[k].name == name);
    assert forall|k1: int, k2: int|
        0 <= k1 < res.len() && 0 <= k2 < res.len() && res[k1].name == name && res[k2].name
            == name implies k1 == k2 by {
        if k1 < k2 {
            assert(res[k1].name != res[k2].name);
        } else if k2 < k1 {
            assert(res[k2].name != res[k1].name);
        }
    }
}

proof fn lemma_keep_in(ns: Seq<Seq<char>>, allowed: Seq<Seq<char>>)
    ensures
        forall|x: Seq<char>|
            #[trigger] keep_in(ns, allowed).contains(x) <==> (ns.contains(x) && allowed.contains(x)),
    decreases ns.len(),
{
    if ns.len() > 0 {
        let init = ns.drop_last();
        lemma_keep_in(init, allowed);
        let rest = keep_in(init, allowed);
        assert forall|x: Seq<char>| ns.contains(x) <==> (init.contains(x) || x == ns.last()) by {
            if ns.contains(x) {
                let i = choose|i: int| 0 <= i < ns.len() && ns[i] == x;
                if i < ns.len() - 1 {
                    assert(init[i] == x);
                }
            }
            if init.contains(x) {
                let i = choose|i: int| 0 <= i < init.len() && init[i] == x;
                assert(ns[i] == x);
            }
            if x == ns.last() {
                assert(ns[ns.len() - 1] == x);
            }
        }
        if allowed.contains(ns.last()) {
            let f = rest.push(ns.last());
            assert forall|x: Seq<char>| f.contains(x) <==> (rest.contains(x) || x == ns.last()) by {
                if f.contains(x) {
                    let i = choose|i: int| 0 <= i < f.len() && f[i] == x;
                    if i < rest.len() {
                        assert(rest[i] == x);
                    }
                }
                if rest.contains(x) {
                    let i = choose|i: int| 0 <= i < rest.len() && rest[i] == x;
                    assert(f[i] == x);
                }
                if x == ns.last() {
                    assert(f[rest.len() as int] == x);
                }
            }
        }
    }
}

/// A property dropped from the required list but still defined is reported
/// as made optional, with severity Change; a property no longer defined is
/// reported as removed, with severity Breaking whether or not it was
/// required; no property is reported both ways.
pub proof fn law_relaxed_or_removed(
    schema: Seq<char>,
    path: Seq<char>,
    b: SchemaNode,
    c: SchemaNode,
    n: Seq<char>,
)
    ensures
        relaxed_properties(b, c).contains(n) <==> (string_views(b.required@).contains(n)
            && !string_views(c.required@).contains(n) && keys(c.properties@).contains(n)),
        removed_properties(b, c).contains(n) <==> (keys(b.properties@).contains(n) && !keys(
            c.properties@,
        ).contains(n)),
        !(relaxed_properties(b, c).contains(n) && removed_properties(b, c).contains(n)),
        property_removed_view(schema, path, n, true, false).change_level == ChangeLevel::Change,
        property_removed_view(schema, path, n, true, true).change_level == ChangeLevel::Breaking,
        property_removed_view(schema, path, n, false, true).change_level == ChangeLevel::Breaking,
{
    lemma_fresh_names(string_views(b.required@), string_views(c.required@));
    lemma_fresh_names(keys(b.properties@), keys(c.properties@));
    lemma_keep_in(
        crate::model::fresh_names(string_views(b.required@), string_views(c.required@)),
        keys(c.properties@),
    );
}

/// A nullable flag that goes from true to false is one Breaking finding,
/// from false to true one Warning finding, and an unchanged flag none.
pub proof fn law_nullable_transition(schema: Seq<char>, path: Seq<char>, b: SchemaNode, c: SchemaNode)
    ensures
        nullable_flag(b) && !nullable_flag(c) ==> nullable_changes(schema, path, b, c).len() == 1
            && nullable_changes(schema, path, b, c)[0].change_level == ChangeLevel::Breaking,
        !nullable_flag(b) && nullable_flag(c) ==> nullable_changes(schema, path, b, c).len() == 1
            && nullable_changes(schema, path, b, c)[0].change_level == ChangeLevel::Warning,
        nullable_flag(b) == nullable_flag(c) ==> nullable_changes(schema, path, b, c).len() == 0,
{
}

/// The walk stops at the depth cap: from there on nothing is found, so a
/// schema that refers to itself is compared to a bounded depth.
pub proof fn law_depth_cap(
    schema: Seq<char>,
    path: Seq<char>,
    base: SchemaRef,
    current: SchemaRef,
    depth: int,
    bd: Seq<(String, SchemaRef)>,
    cd: Seq<(String, SchemaRef)>,
)
    requires
        depth >= MAX_DEPTH,
    ensures
        details(schema, path, base, current, depth, bd, cd) == Seq::<ViolationView>::empty(),
{
}

/// The linked violations of a list of references include, for the `i`-th
/// reference, the link of each violation recorded for its schema.
proof fn lemma_links_include(
    request: bool,
    refs: Seq<crate::matcher::ReferenceView>,
    results: Seq<MatchView>,
    i: int,
    j: int,
)
    requires
        0 <= i < refs.len(),
        0 <= j < violations_named(results, refs[i].name).len(),
    ensures
        exists|t: int|
            0 <= t < links(request, refs, results).len() && links(request, refs, results)[t]
                == crate::matcher::link_view(
                request,
                refs[i],
                violations_named(results, refs[i].name)[j],
            ),
    decreases refs.len(),
{
    let init = refs.drop_last();
    let head = links(request, init, results);
    let tail = links_of(request, refs.last(), results);
    assert(links(request, refs, results) == head + tail);
    if i == refs.len() - 1 {
        assert((head + tail)[head.len() + j] == tail[j]);
    } else {
        assert(init[i] == refs[i]);
        lemma_links_include(request, init, results, i, j);
        let t = choose|t: int|
            0 <= t < head.len() && head[t] == crate::matcher::link_view(
                request,
                init[i],
                violations_named(results, init[i].name)[j],
            );
        assert((head + tail)[t] == head[t]);
    }
}

/// A route whose findings are not empty has a result among the results of
/// its path.
proof fn lemma_method_results_entry(
    path: Seq<char>,
    bi: Option<PathItem>,
    ci: Option<PathItem>,
    results: Seq<MatchView>,
    k: int,
    n: int,
)
    requires
        0 <= k < n,
        route_findings(
            path,
            method_text(k),
            operation_in(bi, method_text(k)),
            operation_in(ci, method_text(k)),
            results,
        ).len() > 0,
    ensures
        method_results(path, bi, ci, results, n).contains(
            MatchView {
                name: route_text(method_text(k), path),
                violations: route_findings(
                    path,
                    method_text(k),
                    operation_in(bi, method_text(k)),
                    operation_in(ci, method_text(k)),
                    results,
                ),
            },
        ),
    decreases n,
{
    let e = MatchView {
        name: route_text(method_text(k), path),
        violations: route_findings(
            path,
            method_text(k),
            operation_in(bi, method_text(k)),
            operation_in(ci, method_text(k)),
            results,
        ),
    };
    let rest = method_results(path, bi, ci, results, n - 1);
    let all = method_results(path, bi, ci, results, n);
    if n == k + 1 {
        assert(all == rest.push(e));
        assert(all[rest.len() as int] == e);
    } else {
        lemma_method_results_entry(path, bi, ci, results, k, n - 1);
        let t = choose|t: int| 0 <= t < rest.len() && rest[t] == e;
        let m = method_text(n - 1);
        let found = route_findings(path, m, operation_in(bi, m), operation_in(ci, m), results);
        if found.len() > 0 {
            assert(all == rest.push(MatchView { name: route_text(m, path), violations: found }));
            assert(all[t] == e);
        } else {
            assert(all == rest);
        }
    }
}

/// The results of the methods under one path of `paths` are among the
/// results of all paths.
proof fn lemma_route_results_include(
    paths: Seq<Seq<char>>,
    bp: Seq<(String, PathItem)>,
    cp: Seq<(String, PathItem)>,
    results: Seq<MatchView>,
    path: Seq<char>,
    e: MatchView,
)
    requires
        paths.contains(path),
        method_results(path, lookup(bp, path), lookup(cp, path), results, 7).contains(e),
    ensures
        route_results(paths, bp, cp, results).contains(e),
    decreases paths.len(),
{
    let init = paths.drop_last();
    let head = route_results(init, bp, cp, results);
    let tail = method_results(paths.last(), lookup(bp, paths.last()), lookup(cp, paths.last()), results, 7);
    assert(route_results(paths, bp, cp, results) == head + tail);
    if paths.last() == path {
        let t = choose|t: int| 0 <= t < tail.len() && tail[t] == e;
        assert((head + tail)[head.len() + t] == e);
    } else {
        let i = choose|i: int| 0 <= i < paths.len() && paths[i] == path;
        assert(init[i] == path);
        lemma_route_results_include(init, bp, cp, results, path, e);
        let t = choose|t: int| 0 <= t < head.len() && head[t] == e;
        assert((head + tail)[t] == e);
    }
}

/// The length of the `k`-th method label.
spec fn label_len(k: int) -> int {
    if k == 0 {
        3
    } else if k == 1 {
        4
    } else if k == 2 {
        3
    } else if k == 3 {
        6
    } else if k == 4 {
        5
    } else if k == 5 {
        4
    } else {
        7
    }
}

/// The first letter of the `k`-th method label.
spec fn label_first(k: int) -> char {
    if k == 0 {
        'G'
    } else if k == 1 || k == 2 || k == 4 {
        'P'
    } else if k == 3 {
        'D'
    } else if k == 5 {
        'H'
    } else {
        'O'
    }
}

proof fn lemma_label_facts(k: int)
    requires
        0 <= k < 7,
    ensures
        forall|i: int| 0 <= i < route_method_upper(k).len() ==> route_method_upper(k)[i] != ' ',
        route_method_upper(k).len() == label_len(k),
        route_method_upper(k)[0] == label_first(k),
{
    lemma_method_labels();
    reveal_strlit("GET");
    reveal_strlit("POST");
    reveal_strlit("PUT");
    reveal_strlit("DELETE");
    reveal_strlit("PATCH");
    reveal_strlit("HEAD");
    reveal_strlit("OPTIONS");
    let l = route_method_upper(k);
    assert forall|i: int| 0 <= i < l.len() implies l[i] != ' ' by {
        if k == 0 {
            assert(l == "GET"@);
        } else if k == 1 {
            assert(l == "POST"@);
        } else if k == 2 {
            assert(l == "PUT"@);
        } else if k == 3 {
            assert(l == "DELETE"@);
        } else if k == 4 {
            assert(l == "PATCH"@);
        } else if k == 5 {
            assert(l == "HEAD"@);
        } else {
            assert(l == "OPTIONS"@);
        }
    }
}

/// Two routes of the compared methods have the same label only if they have
/// the same method and path.
pub proof fn lemma_route_text_injective(k1: int, p1: Seq<char>, k2: int, p2: Seq<char>)
    requires
        0 <= k1 < 7,
        0 <= k2 < 7,
        route_text(method_text(k1), p1) == route_text(method_text(k2), p2),
    ensures
        k1 == k2,
        p1 == p2,
{
    lemma_method_labels();
    lemma_label_facts(k1);
    lemma_label_facts(k2);
    let l1 = route_method_upper(k1);
    let l2 = route_method_upper(k2);
    let s = route_text(method_text(k1), p1);
    assert(s == l1 + " "@ + p1);
    assert(s == l2 + " "@ + p2);
    reveal_strlit(" ");
    if l1.len() < l2.len() {
        assert(s[l1.len() as int] == ' ');
        assert(s[l1.len() as int] == l2[l1.len() as int]);
    } else if l2.len() < l1.len() {
        assert(s[l2.len() as int] == ' ');
        assert(s[l2.len() as int] == l1[l2.len() as int]);
    } else {
        assert forall|i: int| 0 <= i < l1.len() implies l1[i] == l2[i] by {
            assert(s[i] == l1[i] && s[i] == l2[i]);
        }
        assert(l1 =~= l2);
        assert(l1[0] == l2[0]);
        assert(label_len(k1) == label_len(k2) && label_first(k1) == label_first(k2));
        assert((l1 + " "@).len() == l1.len() + 1);
        assert((l2 + " "@).len() == l2.len() + 1);
        assert((l1 + " "@ + p1).len() == l1.len() + 1 + p1.len());
        assert((l2 + " "@ + p2).len() == l2.len() + 1 + p2.len());
        assert(p1.len() == p2.len());
        assert forall|i: int| 0 <= i < p1.len() implies p1[i] == p2[i] by {
            assert(s[l1.len() + 1 + i] == p1[i]);
            assert(s[l1.len() + 1 + i] == p2[i]);
        }
        assert(p1 =~= p2);
    }
}

/// Each result under one path is labelled by one of the first `n` methods,
/// and no two share a label.
proof fn lemma_method_results_names(
    path: Seq<char>,
    bi: Option<PathItem>,
    ci: Option<PathItem>,
    results: Seq<MatchView>,
    n: int,
)
    requires
        0 <= n <= 7,
    ensures
        forall|i: int|
            0 <= i < method_results(path, bi, ci, results, n).len() ==> exists|k: int|
                0 <= k < n && #[trigger] method_results(path, bi, ci, results, n)[i].name
                    == route_text(method_text(k), path),
        names_distinct(method_results(path, bi, ci, results, n)),
    decreases n,
{
    if n > 0 {
        lemma_method_results_names(path, bi, ci, results, n - 1);
        let rest = method_results(path, bi, ci, results, n - 1);
        let all = method_results(path, bi, ci, results, n);
        let m = method_text(n - 1);
        let found = route_findings(path, m, operation_in(bi, m), operation_in(ci, m), results);
        if found.len() > 0 {
            let e = MatchView { name: route_text(m, path), violations: found };
            assert(all == rest.push(e));
            assert forall|i: int| 0 <= i < all.len() implies exists|k: int|
                0 <= k < n && #[trigger] all[i].name == route_text(method_text(k), path) by {
                if i < rest.len() {
                    assert(all[i] == rest[i]);
                    let k = choose|k: int| 0 <= k < n - 1 && #[trigger] rest[i].name == route_text(method_text(k), path);
                    assert(all[i].name == route_text(method_text(k), path));
                } else {
                    assert(all[i].name == route_text(method_text(n - 1), path));
                }
            }
            assert forall|a: int, b: int| 0 <= a < b < all.len() implies all[a].name != all[b].name by {
                if b < rest.len() {
                    assert(all[a] == rest[a] && all[b] == rest[b]);
                } else {
                    assert(all[a] == rest[a]);
                    let k = choose|k: int| 0 <= k < n - 1 && #[trigger] rest[a].name == route_text(method_text(k), path);
                    if all[a].name == all[b].name {
                        lemma_route_text_injective(k, path, n - 1, path);
                    }
                }
            }
        } else {
            assert(all == rest);
        }
    }
}

/// Each result over `paths` is labelled by a path of `paths`; where the
/// paths are distinct, no two results share a label.
pub proof fn lemma_route_results_names(
    paths: Seq<Seq<char>>,
    bp: Seq<(String, PathItem)>,
    cp: Seq<(String, PathItem)>,
    results: Seq<MatchView>,
)
    ensures
        forall|i: int|
            0 <= i < route_results(paths, bp, cp, results).len() ==> exists|k: int, p: Seq<char>|
                0 <= k < 7 && paths.contains(p) && #[trigger] route_results(
                    paths,
                    bp,
                    cp,
                    results,
                )[i].name == route_text(method_text(k), p),
        (forall|i: int, j: int| 0 <= i < j < paths.len() ==> paths[i] != paths[j]) ==> names_distinct(
            route_results(paths, bp, cp, results),
        ),
    decreases paths.len(),
{
    if paths.len() > 0 {
        let init = paths.drop_last();
        let p = paths.last();
        lemma_route_results_names(init, bp, cp, results);
        lemma_method_results_names(p, lookup(bp, p), lookup(cp, p), results, 7);
        let head = route_results(init, bp, cp, results);
        let tail = method_results(p, lookup(bp, p), lookup(cp, p), results, 7);
        let all = route_results(paths, bp, cp, results);
        assert(all == head + tail);
        assert(paths[paths.len() - 1] == p);
        assert forall|i: int| 0 <= i < all.len() implies exists|k: int, q: Seq<char>|
            0 <= k < 7 && paths.contains(q) && #[trigger] all[i].name == route_text(method_text(k), q) by {
            if i < head.len() {
                assert(all[i] == head[i]);
                let (k, q) = choose|k: int, q: Seq<char>| 0 <= k < 7 && init.contains(q) && #[trigger] head[i].name == route_text(method_text(k), q);
                let x = choose|x: int| 0 <= x < init.len() && init[x] == q;
                assert(paths[x] == q);
            } else {
                assert(all[i] == tail[i - head.len()]);
                let k = choose|k: int| 0 <= k < 7 && #[trigger] tail[i - head.len()].name == route_text(method_text(k), p);
                assert(all[i].name == route_text(method_text(k), p));
            }
        }
        if forall|i: int, j: int| 0 <= i < j < paths.len() ==> paths[i] != paths[j] {
            assert forall|i: int, j: int| 0 <= i < j < init.len() implies init[i] != init[j] by {
                assert(init[i] == paths[i] && init[j] == paths[j]);
            }
            assert forall|a: int, b: int| 0 <= a < b < all.len() implies all[a].name != all[b].name by {
                if b < head.len() {
                    assert(all[a] == head[a] && all[b] == head[b]);
                } else if a >= head.len() {
                    assert(all[a] == tail[a - head.len()] && all[b] == tail[b - head.len()]);
                } else {
                    assert(all[a] == head[a] && all[b] == tail[b - head.len()]);
                    let (k1, q) = choose|k: int, q: Seq<char>| 0 <= k < 7 && init.contains(q) && #[trigger] head[a].name == route_text(method_text(k), q);
                    let k2 = choose|k: int| 0 <= k < 7 && #[trigger] tail[b - head.len()].name == route_text(method_text(k), p);
                    let x = choose|x: int| 0 <= x < init.len() && init[x] == q;
                    assert(paths[x] == q && x < paths.len() - 1);
                    if all[a].name == all[b].name {
                        lemma_route_text_injective(k1, q, k2, p);
                    }
                }
            }
        }
    }
}

/// When the current operation at a path and method uses a schema in its
/// request body and the schema results hold a Breaking violation for that
/// schema, the list that the route comparator returns holds a result for the
/// route whose overall severity is Breaking, whether or not the operation
/// itself changed; no other result in that list has the route's name.
pub proof fn law_request_schema_breakage(
    bp: Seq<(String, PathItem)>,
    cp: Seq<(String, PathItem)>,
    results: Seq<MatchView>,
    path: Seq<char>,
    k: int,
    c: Operation,
    i: int,
    j: int,
)
    requires
        0 <= k < 7,
        operation_in(lookup(cp, path), method_text(k)) == Some(c),
        0 <= i < request_references(c).len(),
        0 <= j < violations_named(results, request_references(c)[i].name).len(),
        violations_named(results, request_references(c)[i].name)[j].change_level
            == ChangeLevel::Breaking,
    ensures
        exists|e: MatchView|
            sort_by_name(route_results(route_paths(bp, cp), bp, cp, results)).contains(e)
                && e.name == route_text(method_text(k), path) && aggregate(levels(e.violations))
                == ChangeLevel::Breaking,
        names_distinct(sort_by_name(route_results(route_paths(bp, cp), bp, cp, results))),
{
    let bi = lookup(bp, path);
    let ci = lookup(cp, path);
    let m = method_text(k);
    let refs = request_references(c);
    lemma_links_include(true, refs, results, i, j);
    let req = links(true, refs, results);
    let t = choose|t: int|
        0 <= t < req.len() && req[t] == crate::matcher::link_view(
            true,
            refs[i],
            violations_named(results, refs[i].name)[j],
        );
    let own = operation_findings(path, m, operation_in(bi, m), Some(c));
    let resp = links(false, crate::matcher::response_references(c), results);
    let found = route_findings(path, m, operation_in(bi, m), Some(c), results);
    assert(found == own + req + resp);
    assert(found[own.len() + t] == req[t]);
    assert(levels(found)[own.len() + t] == ChangeLevel::Breaking);
    assert(has_level(levels(found), ChangeLevel::Breaking));
    lemma_method_results_entry(path, bi, ci, results, k, 7);
    let e = MatchView { name: route_text(m, path), violations: found };
    assert(method_results(path, bi, ci, results, 7).contains(e));
    lemma_lookup_has_key(cp, path);
    lemma_has_key_keys(cp, path);
    lemma_concat_contains(keys(bp), keys(cp), path);
    lemma_fresh_names(keys(bp) + keys(cp), Seq::empty());
    lemma_route_results_include(route_paths(bp, cp), bp, cp, results, path, e);
    let all = route_results(route_paths(bp, cp), bp, cp, results);
    lemma_sort_by_name(all);
    assert(sort_by_name(all).contains(e));
    lemma_route_results_names(route_paths(bp, cp), bp, cp, results);
}

} // verus!
