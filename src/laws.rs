//! Properties of the filtering pipeline, proved over its specification.
use vstd::prelude::*;
use crate::classify::Messages;
use crate::diagnostic::{DiagnosticView, views};
use crate::engine::{
    displayed, errors_of, warnings_of, limited, dedup_rendered,
    rendered_seen, spanless_with, source_files, dedup_lines, entries, span_entries, line_seen, qualifies,
};
use crate::models::SourceFileView;
use crate::options::Options;
use crate::order::{
    lemma_chars_lt_irreflexive,
    dedup, with_spans, insert_by_key, sort_by_key, select, workspace_flags, filter_and_order,
};
use crate::paths::path_starts_with;

verus! {

/// Whether the target of `d` lies inside `root`.
pub open spec fn in_workspace(d: DiagnosticView, root: Seq<char>) -> bool {
    path_starts_with(d.src_path, root)
}

/// The elements of `s` inside (`inside`) or outside the workspace, in order.
pub open spec fn workspace_part(s: Seq<DiagnosticView>, root: Seq<char>, inside: bool) -> Seq<DiagnosticView>
    decreases s.len(),
{
    if s.len() == 0 {
        s
    } else {
        let r = workspace_part(s.drop_last(), root, inside);
        if in_workspace(s.last(), root) == inside {
            r.push(s.last())
        } else {
            r
        }
    }
}

proof fn lemma_push_contains<A>(s: Seq<A>, a: A)
    ensures
        forall|x: A| #[trigger] s.push(a).contains(x) <==> (s.contains(x) || x == a),
{
    assert forall|x: A| #[trigger] s.push(a).contains(x) <==> (s.contains(x) || x == a) by {
        if s.push(a).contains(x) {
            let i = choose|i: int| 0 <= i < s.len() + 1 && s.push(a)[i] == x;
            if i < s.len() {
                assert(s[i] == x);
            }
        }
        if s.contains(x) {
            let i = choose|i: int| 0 <= i < s.len() && s[i] == x;
            assert(s.push(a)[i] == x);
        }
        if x == a {
            assert(s.push(a)[s.len() as int] == x);
        }
    }
}

proof fn lemma_push_no_duplicates<A>(s: Seq<A>, a: A)
    requires
        s.no_duplicates(),
        !s.contains(a),
    ensures
        s.push(a).no_duplicates(),
{
    let t = s.push(a);
    assert forall|i: int, j: int| 0 <= i < t.len() && 0 <= j < t.len() && i != j implies t[i] != t[j] by {
        if i == s.len() {
            assert(t[j] == s[j]);
        } else if j == s.len() {
            assert(t[i] == s[i]);
        } else {
            assert(t[i] == s[i] && t[j] == s[j]);
        }
    }
}

proof fn lemma_split_last<A>(s: Seq<A>)
    requires
        s.len() > 0,
    ensures
        s == s.drop_last().push(s.last()),
{
    assert(s =~= s.drop_last().push(s.last()));
}

proof fn lemma_dedup(s: Seq<DiagnosticView>)
    ensures
        dedup(s).no_duplicates(),
        forall|x: DiagnosticView| #[trigger] dedup(s).contains(x) <==> s.contains(x),
    decreases s.len(),
{
    if s.len() > 0 {
        let r = dedup(s.drop_last());
        lemma_dedup(s.drop_last());
        lemma_split_last(s);
        lemma_push_contains(s.drop_last(), s.last());
        lemma_push_contains(r, s.last());
        if !r.contains(s.last()) {
            lemma_push_no_duplicates(r, s.last());
        }
    }
}

proof fn lemma_with_spans(s: Seq<DiagnosticView>)
    ensures
        s.no_duplicates() ==> with_spans(s).no_duplicates(),
        forall|x: DiagnosticView| #[trigger] with_spans(s).contains(x) <==> (s.contains(x) && x.spans.len() > 0),
    decreases s.len(),
{
    if s.len() > 0 {
        let r = with_spans(s.drop_last());
        lemma_with_spans(s.drop_last());
        lemma_split_last(s);
        lemma_push_contains(s.drop_last(), s.last());
        lemma_push_contains(r, s.last());
        if s.no_duplicates() {
            assert(s.drop_last().no_duplicates()) by {
                assert forall|i: int, j: int| 0 <= i < s.len() - 1 && 0 <= j < s.len() - 1 && i != j
                    implies s.drop_last()[i] != s.drop_last()[j] by {
                    assert(s[i] == s.drop_last()[i] && s[j] == s.drop_last()[j]);
                }
            }
            assert(!s.drop_last().contains(s.last())) by {
                if s.drop_last().contains(s.last()) {
                    let k = choose|k: int| 0 <= k < s.len() - 1 && s.drop_last()[k] == s.last();
                    assert(s[k] == s[s.len() - 1]);
                }
            }
            if s.last().spans.len() > 0 {
                lemma_push_no_duplicates(r, s.last());
            }
        }
    }
}

proof fn lemma_no_duplicates_drop_last<A>(s: Seq<A>)
    requires
        s.len() > 0,
        s.no_duplicates(),
    ensures
        s.drop_last().no_duplicates(),
        !s.drop_last().contains(s.last()),
{
    assert forall|i: int, j: int| 0 <= i < s.len() - 1 && 0 <= j < s.len() - 1 && i != j
        implies s.drop_last()[i] != s.drop_last()[j] by {
        assert(s[i] == s.drop_last()[i] && s[j] == s.drop_last()[j]);
    }
    if s.drop_last().contains(s.last()) {
        let k = choose|k: int| 0 <= k < s.len() - 1 && s.drop_last()[k] == s.last();
        assert(s[k] == s[s.len() - 1]);
    }
}

proof fn lemma_insert(s: Seq<DiagnosticView>, d: DiagnosticView)
    ensures
        forall|x: DiagnosticView| #[trigger] insert_by_key(s, d).contains(x) <==> (s.contains(x) || x == d),
        s.no_duplicates() && !s.contains(d) ==> insert_by_key(s, d).no_duplicates(),
        insert_by_key(s, d).len() == s.len() + 1,
    decreases s.len(),
{
    lemma_push_contains(s, d);
    if s.len() == 0 {
        assert(insert_by_key(s, d) =~= s.push(d));
        assert(s.push(d).no_duplicates());
    } else if !crate::order::key_lt(crate::order::key_of(d), crate::order::key_of(s.last())) {
        if s.no_duplicates() && !s.contains(d) {
            lemma_push_no_duplicates(s, d);
        }
    } else {
        let dl = s.drop_last();
        let l = s.last();
        lemma_insert(dl, d);
        lemma_split_last(s);
        lemma_push_contains(dl, l);
        lemma_push_contains(insert_by_key(dl, d), l);
        if s.no_duplicates() && !s.contains(d) {
            lemma_no_duplicates_drop_last(s);
            assert(!dl.contains(d));
            lemma_push_no_duplicates(insert_by_key(dl, d), l);
        }
    }
}

proof fn lemma_sort(s: Seq<DiagnosticView>)
    ensures
        forall|x: DiagnosticView| #[trigger] sort_by_key(s).contains(x) <==> s.contains(x),
        s.no_duplicates() ==> sort_by_key(s).no_duplicates(),
        sort_by_key(s).len() == s.len(),
    decreases s.len(),
{
    if s.len() > 0 {
        lemma_sort(s.drop_last());
        lemma_insert(sort_by_key(s.drop_last()), s.last());
        lemma_split_last(s);
        lemma_push_contains(s.drop_last(), s.last());
        if s.no_duplicates() {
            lemma_no_duplicates_drop_last(s);
        }
    }
}

proof fn lemma_select_same_flags(s: Seq<DiagnosticView>, f: Seq<bool>, g: Seq<bool>, keep: bool)
    requires
        f.len() >= s.len(),
        g.len() >= s.len(),
        forall|k: int| 0 <= k < s.len() ==> f[k] == g[k],
    ensures
        select(s, f, keep) == select(s, g, keep),
    decreases s.len(),
{
    if s.len() > 0 {
        lemma_select_same_flags(s.drop_last(), f, g, keep);
    }
}

/// Selecting by workspace flags is filtering by the workspace predicate.
proof fn lemma_select_is_workspace_part(s: Seq<DiagnosticView>, root: Seq<char>, inside: bool)
    ensures
        select(s, workspace_flags(s, root), inside) == workspace_part(s, root, inside),
    decreases s.len(),
{
    if s.len() > 0 {
        lemma_select_is_workspace_part(s.drop_last(), root, inside);
        lemma_select_same_flags(s.drop_last(), workspace_flags(s, root), workspace_flags(s.drop_last(), root), inside);
    }
}

proof fn lemma_workspace_part(s: Seq<DiagnosticView>, root: Seq<char>, inside: bool)
    ensures
        forall|x: DiagnosticView| #[trigger] workspace_part(s, root, inside).contains(x) <==> (s.contains(x) && in_workspace(x, root) == inside),
        s.no_duplicates() ==> workspace_part(s, root, inside).no_duplicates(),
        workspace_part(s, root, inside).len() <= s.len(),
    decreases s.len(),
{
    if s.len() > 0 {
        let r = workspace_part(s.drop_last(), root, inside);
        lemma_workspace_part(s.drop_last(), root, inside);
        lemma_split_last(s);
        lemma_push_contains(s.drop_last(), s.last());
        lemma_push_contains(r, s.last());
        if s.no_duplicates() {
            lemma_no_duplicates_drop_last(s);
            if in_workspace(s.last(), root) == inside {
                lemma_push_no_duplicates(r, s.last());
            }
        }
    }
}

proof fn lemma_concat_contains<A>(a: Seq<A>, b: Seq<A>)
    ensures
        forall|x: A| #[trigger] (a + b).contains(x) <==> (a.contains(x) || b.contains(x)),
{
    assert forall|x: A| #[trigger] (a + b).contains(x) <==> (a.contains(x) || b.contains(x)) by {
        if (a + b).contains(x) {
            let i = choose|i: int| 0 <= i < a.len() + b.len() && (a + b)[i] == x;
            if i < a.len() {
                assert(a[i] == x);
            } else {
                assert(b[i - a.len()] == x);
            }
        }
        if a.contains(x) {
            let i = choose|i: int| 0 <= i < a.len() && a[i] == x;
            assert((a + b)[i] == x);
        }
        if b.contains(x) {
            let i = choose|i: int| 0 <= i < b.len() && b[i] == x;
            assert((a + b)[a.len() + i] == x);
        }
    }
}

proof fn lemma_concat_no_duplicates<A>(a: Seq<A>, b: Seq<A>)
    requires
        a.no_duplicates(),
        b.no_duplicates(),
        forall|x: A| a.contains(x) ==> !b.contains(x),
    ensures
        (a + b).no_duplicates(),
{
    let c = a + b;
    assert forall|i: int, j: int| 0 <= i < c.len() && 0 <= j < c.len() && i != j implies c[i] != c[j] by {
        if i < a.len() && j < a.len() {
            assert(c[i] == a[i] && c[j] == a[j]);
        } else if i >= a.len() && j >= a.len() {
            assert(c[i] == b[i - a.len()] && c[j] == b[j - a.len()]);
        } else if i < a.len() {
            assert(c[i] == a[i] && c[j] == b[j - a.len()]);
            assert(a.contains(a[i]));
            assert(b.contains(b[j - a.len()]));
        } else {
            assert(c[j] == a[j] && c[i] == b[i - a.len()]);
            assert(a.contains(a[j]));
            assert(b.contains(b[i - a.len()]));
        }
    }
}

/// What `filter_and_order` keeps: exactly the spanned diagnostics of its input, once each.
proof fn lemma_filter_and_order(s: Seq<DiagnosticView>, root: Seq<char>)
    ensures
        filter_and_order(s, root).no_duplicates(),
        forall|x: DiagnosticView| #[trigger] filter_and_order(s, root).contains(x) <==> (s.contains(x) && x.spans.len() > 0),
{
    let u = dedup(s);
    let w = with_spans(u);
    let t = sort_by_key(w);
    lemma_dedup(s);
    lemma_with_spans(u);
    lemma_sort(w);
    lemma_select_is_workspace_part(t, root, true);
    lemma_select_is_workspace_part(t, root, false);
    lemma_workspace_part(t, root, true);
    lemma_workspace_part(t, root, false);
    lemma_concat_contains(workspace_part(t, root, true), workspace_part(t, root, false));
    lemma_concat_no_duplicates(workspace_part(t, root, true), workspace_part(t, root, false));
}


proof fn lemma_spanless_with(s: Seq<DiagnosticView>, marked: bool)
    ensures
        forall|x: DiagnosticView| #[trigger] spanless_with(s, marked).contains(x) ==> s.contains(x),
    decreases s.len(),
{
    if s.len() > 0 {
        lemma_spanless_with(s.drop_last(), marked);
        lemma_split_last(s);
        lemma_push_contains(s.drop_last(), s.last());
        lemma_push_contains(spanless_with(s.drop_last(), marked), s.last());
    }
}

proof fn lemma_dedup_rendered(s: Seq<DiagnosticView>)
    ensures
        forall|x: DiagnosticView| #[trigger] dedup_rendered(s).contains(x) ==> s.contains(x),
        dedup_rendered(s).no_duplicates(),
        forall|i: int, j: int| 0 <= i < dedup_rendered(s).len() && 0 <= j < dedup_rendered(s).len() && i != j
            ==> (#[trigger] dedup_rendered(s)[i]).rendered != (#[trigger] dedup_rendered(s)[j]).rendered,
    decreases s.len(),
{
    if s.len() > 0 {
        let r = dedup_rendered(s.drop_last());
        lemma_dedup_rendered(s.drop_last());
        lemma_split_last(s);
        lemma_push_contains(s.drop_last(), s.last());
        lemma_push_contains(r, s.last());
        if !rendered_seen(r, s.last()) {
            let t = r.push(s.last());
            assert forall|i: int, j: int| 0 <= i < t.len() && 0 <= j < t.len() && i != j
                implies (#[trigger] t[i]).rendered != (#[trigger] t[j]).rendered by {
                if i == r.len() {
                    assert(t[j] == r[j]);
                } else if j == r.len() {
                    assert(t[i] == r[i]);
                } else {
                    assert(t[i] == r[i] && t[j] == r[j]);
                }
            }
        }
    }
}

/// Every displayed error is an error of `m`; every displayed warning a non-error of `m`.
proof fn lemma_sources(m: Messages, sd: bool, root: Seq<char>)
    requires
        m.wf(),
    ensures
        errors_of(views(m.internal_compiler_errors@), views(m.errors@), root).no_duplicates(),
        forall|x: DiagnosticView| #[trigger] errors_of(views(m.internal_compiler_errors@), views(m.errors@), root).contains(x)
            ==> x.level.spec_is_error(),
        warnings_of(views(m.non_errors@), sd, root).no_duplicates(),
        forall|x: DiagnosticView| #[trigger] warnings_of(views(m.non_errors@), sd, root).contains(x)
            ==> !x.level.spec_is_error() && (!sd ==> in_workspace(x, root)),
{
    let ices = views(m.internal_compiler_errors@);
    let errs = views(m.errors@);
    let ne = views(m.non_errors@);
    lemma_filter_and_order(ices + errs, root);
    lemma_concat_contains(ices, errs);
    lemma_spanless_with(errs, false);
    lemma_spanless_with(errs, true);
    lemma_dedup_rendered(spanless_with(errs, false));
    lemma_dedup_rendered(spanless_with(errs, true));
    assert forall|x: DiagnosticView| #[trigger] errors_of(ices, errs, root).contains(x) implies x.level.spec_is_error() by {
        if ices.contains(x) {
            let k = choose|k: int| 0 <= k < ices.len() && ices[k] == x;
        }
        if errs.contains(x) {
            let k = choose|k: int| 0 <= k < errs.len() && errs[k] == x;
        }
    }
    let scoped = if sd { ne } else { select(ne, workspace_flags(ne, root), true) };
    lemma_select_is_workspace_part(ne, root, true);
    lemma_workspace_part(ne, root, true);
    lemma_filter_and_order(scoped, root);
    assert forall|x: DiagnosticView| #[trigger] warnings_of(ne, sd, root).contains(x)
        implies !x.level.spec_is_error() && (!sd ==> in_workspace(x, root)) by {
        assert(scoped.contains(x));
        assert(ne.contains(x));
        let k = choose|k: int| 0 <= k < ne.len() && ne[k] == x;
    }
}

proof fn lemma_kept(c: Seq<DiagnosticView>, n: usize, ascending: bool)
    ensures
        forall|x: DiagnosticView| #[trigger] displayed(limited(c, n), ascending).contains(x) ==> c.contains(x),
        c.no_duplicates() ==> displayed(limited(c, n), ascending).no_duplicates(),
{
    let k = limited(c, n);
    let d = displayed(k, ascending);
    assert forall|x: DiagnosticView| #[trigger] d.contains(x) implies c.contains(x) by {
        let i = choose|i: int| 0 <= i < d.len() && d[i] == x;
        if ascending {
            assert(c[i] == x);
        } else {
            assert(c[k.len() - 1 - i] == x);
        }
    }
    if c.no_duplicates() {
        assert forall|i: int, j: int| 0 <= i < d.len() && 0 <= j < d.len() && i != j implies d[i] != d[j] by {
            if ascending {
                assert(d[i] == c[i] && d[j] == c[j]);
            } else {
                assert(d[i] == c[k.len() - 1 - i] && d[j] == c[k.len() - 1 - j]);
            }
        }
    }
}

/// The displayed list never holds two structurally identical diagnostics.
pub proof fn lemma_displayed_has_no_duplicates(m: Messages, options: Options, root: Seq<char>)
    requires
        m.wf(),
    ensures
        crate::engine::displayed_messages(m, options, root).no_duplicates(),
{
    let e = errors_of(views(m.internal_compiler_errors@), views(m.errors@), root);
    let w = warnings_of(views(m.non_errors@), options.show_dependencies_warnings, root);
    lemma_sources(m, options.show_dependencies_warnings, root);
    if options.show_warnings_if_errors_exist {
        lemma_concat_no_duplicates(e, w);
    }
    lemma_kept(crate::engine::composed_messages(m, options, root), options.limit_messages, options.ascending_messages_order);
}

/// With dependency warnings off, every displayed warning comes from a target
/// inside the workspace root.
pub proof fn lemma_dependency_warnings_hidden(m: Messages, options: Options, root: Seq<char>)
    requires
        m.wf(),
        !options.show_dependencies_warnings,
    ensures
        forall|x: DiagnosticView| #[trigger] crate::engine::displayed_messages(m, options, root).contains(x)
            && !x.level.spec_is_error() ==> in_workspace(x, root),
{
    let e = errors_of(views(m.internal_compiler_errors@), views(m.errors@), root);
    let w = warnings_of(views(m.non_errors@), options.show_dependencies_warnings, root);
    lemma_sources(m, options.show_dependencies_warnings, root);
    lemma_concat_contains(e, w);
    lemma_kept(crate::engine::composed_messages(m, options, root), options.limit_messages, options.ascending_messages_order);
}

/// When errors remain after filtering and warnings are not forced, only errors are displayed.
pub proof fn lemma_errors_hide_warnings(m: Messages, options: Options, root: Seq<char>)
    requires
        m.wf(),
        !options.show_warnings_if_errors_exist,
        errors_of(views(m.internal_compiler_errors@), views(m.errors@), root).len() > 0,
    ensures
        forall|x: DiagnosticView| #[trigger] crate::engine::displayed_messages(m, options, root).contains(x)
            ==> x.level.spec_is_error(),
{
    lemma_sources(m, options.show_dependencies_warnings, root);
    lemma_kept(crate::engine::composed_messages(m, options, root), options.limit_messages, options.ascending_messages_order);
}

/// A positive limit keeps at most that many messages, and exactly the first ones.
pub proof fn lemma_limit_keeps_prefix(c: Seq<DiagnosticView>, n: usize)
    requires
        n > 0,
    ensures
        limited(c, n).len() <= n,
        limited(c, n).len() == if c.len() < n { c.len() } else { n as nat },
        limited(c, n) == c.subrange(0, limited(c, n).len() as int),
{
    if c.len() <= n {
        assert(c.subrange(0, c.len() as int) =~= c);
    }
}


/// The number of primary spans.
pub open spec fn primary_count(spans: Seq<crate::diagnostic::SpanView>) -> nat
    decreases spans.len(),
{
    if spans.len() == 0 {
        0
    } else {
        primary_count(spans.drop_last()) + if spans.last().is_primary {
            1nat
        } else {
            0nat
        }
    }
}

/// The number of diagnostics of `s` that give locations to open.
pub open spec fn qualifying_count(s: Seq<DiagnosticView>, on_warnings: bool) -> nat
    decreases s.len(),
{
    if s.len() == 0 {
        0
    } else {
        qualifying_count(s.drop_last(), on_warnings) + if qualifies(s.last(), on_warnings) {
            1nat
        } else {
            0nat
        }
    }
}

proof fn lemma_span_entries_len(spans: Seq<crate::diagnostic::SpanView>, message: Seq<char>, root: Seq<char>)
    ensures
        span_entries(spans, message, root).len() == primary_count(spans),
    decreases spans.len(),
{
    if spans.len() > 0 {
        lemma_span_entries_len(spans.drop_last(), message, root);
    }
}

proof fn lemma_entries_len(s: Seq<DiagnosticView>, on_warnings: bool, root: Seq<char>)
    requires
        forall|i: int| 0 <= i < s.len() && qualifies(s[i], on_warnings) ==> primary_count(#[trigger] s[i].spans) <= 1,
    ensures
        entries(s, on_warnings, root).len() <= qualifying_count(s, on_warnings),
    decreases s.len(),
{
    if s.len() > 0 {
        assert forall|i: int| 0 <= i < s.drop_last().len() && qualifies(s.drop_last()[i], on_warnings)
            implies primary_count(#[trigger] s.drop_last()[i].spans) <= 1 by {
            assert(s.drop_last()[i] == s[i]);
        }
        lemma_entries_len(s.drop_last(), on_warnings, root);
        lemma_span_entries_len(s.last().spans, s.last().message, root);
    }
}

proof fn lemma_dedup_lines(e: Seq<SourceFileView>)
    ensures
        dedup_lines(e).len() <= e.len(),
        forall|i: int, j: int| 0 <= i < dedup_lines(e).len() && 0 <= j < dedup_lines(e).len() && i != j
            ==> !((#[trigger] dedup_lines(e)[i]).relative_path == (#[trigger] dedup_lines(e)[j]).relative_path
                && dedup_lines(e)[i].line == dedup_lines(e)[j].line),
    decreases e.len(),
{
    if e.len() > 0 {
        let r = dedup_lines(e.drop_last());
        lemma_dedup_lines(e.drop_last());
        if !line_seen(r, e.last()) {
            let t = r.push(e.last());
            assert forall|i: int, j: int| 0 <= i < t.len() && 0 <= j < t.len() && i != j
                implies !((#[trigger] t[i]).relative_path == (#[trigger] t[j]).relative_path && t[i].line == t[j].line) by {
                if i == r.len() {
                    assert(t[j] == r[j]);
                } else if j == r.len() {
                    assert(t[i] == r[i]);
                } else {
                    assert(t[i] == r[i] && t[j] == r[j]);
                }
            }
        }
    }
}

/// The locations to open hold each (file, line) pair at most once.
pub proof fn lemma_source_locations_unique(s: Seq<DiagnosticView>, on_warnings: bool, root: Seq<char>)
    ensures
        forall|i: int, j: int| 0 <= i < source_files(s, on_warnings, root).len() && 0 <= j < source_files(s, on_warnings, root).len() && i != j
            ==> !((#[trigger] source_files(s, on_warnings, root)[i]).relative_path
                == (#[trigger] source_files(s, on_warnings, root)[j]).relative_path
                && source_files(s, on_warnings, root)[i].line == source_files(s, on_warnings, root)[j].line),
{
    lemma_dedup_lines(entries(s, on_warnings, root));
}

/// When each qualifying diagnostic has at most one primary span, there are no
/// more locations to open than qualifying diagnostics.
pub proof fn lemma_source_locations_bounded(s: Seq<DiagnosticView>, on_warnings: bool, root: Seq<char>)
    requires
        forall|i: int| 0 <= i < s.len() && qualifies(s[i], on_warnings) ==> primary_count(#[trigger] s[i].spans) <= 1,
    ensures
        source_files(s, on_warnings, root).len() <= qualifying_count(s, on_warnings),
{
    lemma_dedup_lines(entries(s, on_warnings, root));
    lemma_entries_len(s, on_warnings, root);
}


proof fn lemma_chars_lt_transitive(a: Seq<char>, b: Seq<char>, c: Seq<char>)
    requires
        crate::order::chars_lt(a, b),
        crate::order::chars_lt(b, c),
    ensures
        crate::order::chars_lt(a, c),
    decreases a.len(),
{
    if a.len() > 0 && b.len() > 0 && c.len() > 0 && a[0] == b[0] && b[0] == c[0] {
        lemma_chars_lt_transitive(a.drop_first(), b.drop_first(), c.drop_first());
    }
}

proof fn lemma_chars_lt_total(a: Seq<char>, b: Seq<char>)
    requires
        a != b,
    ensures
        crate::order::chars_lt(a, b) || crate::order::chars_lt(b, a),
    decreases a.len(),
{
    if a.len() == 0 && b.len() == 0 {
        assert(a =~= b);
    } else if a.len() > 0 && b.len() > 0 && a[0] != b[0] {
        let (x, y) = (a[0], b[0]);
        assert((x as u32) != (y as u32)) by {
            vstd::utf8::char_u32_cast(x, x as u32);
            vstd::utf8::char_u32_cast(y, y as u32);
        }
    } else if a.len() > 0 && b.len() > 0 && a[0] == b[0] {
        if a.drop_first() == b.drop_first() {
            assert(a =~= seq![a[0]] + a.drop_first());
            assert(b =~= seq![b[0]] + b.drop_first());
        }
        lemma_chars_lt_total(a.drop_first(), b.drop_first());
    }
}

type Key = Seq<(Seq<char>, usize)>;

proof fn lemma_pair_lt(p: (Seq<char>, usize), q: (Seq<char>, usize), r: (Seq<char>, usize))
    ensures
        !crate::order::pair_lt(p, p),
        crate::order::pair_lt(p, q) && crate::order::pair_lt(q, r) ==> crate::order::pair_lt(p, r),
        p != q ==> crate::order::pair_lt(p, q) || crate::order::pair_lt(q, p),
{
    lemma_chars_lt_irreflexive(p.0);
    lemma_chars_lt_irreflexive(q.0);
    if crate::order::chars_lt(p.0, q.0) && crate::order::chars_lt(q.0, r.0) {
        lemma_chars_lt_transitive(p.0, q.0, r.0);
    }
    if crate::order::chars_lt(p.0, q.0) && crate::order::chars_lt(q.0, p.0) {
        lemma_chars_lt_transitive(p.0, q.0, p.0);
    }
    if p.0 != q.0 {
        lemma_chars_lt_total(p.0, q.0);
    }
}

proof fn lemma_key_lt_irreflexive(a: Key)
    ensures
        !crate::order::key_lt(a, a),
    decreases a.len(),
{
    if a.len() > 0 {
        lemma_key_lt_irreflexive(a.drop_first());
    }
}

proof fn lemma_key_lt_transitive(a: Key, b: Key, c: Key)
    requires
        crate::order::key_lt(a, b),
        crate::order::key_lt(b, c),
    ensures
        crate::order::key_lt(a, c),
    decreases a.len(),
{
    if a.len() > 0 && b.len() > 0 && c.len() > 0 {
        lemma_pair_lt(a[0], b[0], c[0]);
        lemma_pair_lt(a[0], c[0], b[0]);
        if a[0] == b[0] && b[0] == c[0] {
            lemma_key_lt_transitive(a.drop_first(), b.drop_first(), c.drop_first());
        }
    }
}

proof fn lemma_key_lt_total(a: Key, b: Key)
    requires
        a != b,
    ensures
        crate::order::key_lt(a, b) || crate::order::key_lt(b, a),
    decreases a.len(),
{
    if a.len() == 0 && b.len() == 0 {
        assert(a =~= b);
    } else if a.len() > 0 && b.len() > 0 {
        lemma_pair_lt(a[0], b[0], b[0]);
        if a[0] == b[0] {
            if a.drop_first() == b.drop_first() {
                assert(a =~= seq![a[0]] + a.drop_first());
                assert(b =~= seq![b[0]] + b.drop_first());
            }
            lemma_key_lt_total(a.drop_first(), b.drop_first());
        }
    }
}

/// "Not greater" is transitive on keys.
proof fn lemma_key_le_transitive(a: Key, b: Key, c: Key)
    requires
        !crate::order::key_lt(b, a),
        !crate::order::key_lt(c, b),
    ensures
        !crate::order::key_lt(c, a),
{
    lemma_key_lt_irreflexive(a);
    if crate::order::key_lt(c, a) {
        if a != b {
            lemma_key_lt_total(a, b);
        }
        if b != c {
            lemma_key_lt_total(b, c);
        }
        if a != b && b != c {
            lemma_key_lt_transitive(a, b, c);
            lemma_key_lt_transitive(a, c, a);
        }
    }
}

/// Whether `s` is ordered by key.
pub open spec fn sorted_by_key(s: Seq<DiagnosticView>) -> bool {
    forall|i: int, j: int| 0 <= i < j < s.len()
        ==> !crate::order::key_lt(crate::order::key_of(#[trigger] s[j]), crate::order::key_of(#[trigger] s[i]))
}

proof fn lemma_sorted_of_sorted_is_identity(s: Seq<DiagnosticView>)
    requires
        sorted_by_key(s),
    ensures
        sort_by_key(s) == s,
    decreases s.len(),
{
    if s.len() > 0 {
        let dl = s.drop_last();
        assert(sorted_by_key(dl)) by {
            assert forall|i: int, j: int| 0 <= i < j < dl.len() implies !crate::order::key_lt(
                crate::order::key_of(#[trigger] dl[j]),
                crate::order::key_of(#[trigger] dl[i]),
            ) by {
                assert(dl[i] == s[i] && dl[j] == s[j]);
            }
        }
        lemma_sorted_of_sorted_is_identity(dl);
        if dl.len() > 0 {
            assert(dl.last() == s[s.len() - 2]);
        }
        lemma_split_last(s);
    }
}

proof fn lemma_insert_sorted(s: Seq<DiagnosticView>, d: DiagnosticView)
    requires
        sorted_by_key(s),
    ensures
        sorted_by_key(insert_by_key(s, d)),
    decreases s.len(),
{
    let kd = crate::order::key_of(d);
    if s.len() == 0 {
    } else if !crate::order::key_lt(kd, crate::order::key_of(s.last())) {
        let t = s.push(d);
        assert forall|i: int, j: int| 0 <= i < j < t.len() implies !crate::order::key_lt(
            crate::order::key_of(#[trigger] t[j]),
            crate::order::key_of(#[trigger] t[i]),
        ) by {
            assert(t[i] == s[i]);
            if j == s.len() {
                if i < s.len() - 1 {
                    lemma_key_le_transitive(crate::order::key_of(s[i]), crate::order::key_of(s.last()), kd);
                }
            } else {
                assert(t[j] == s[j]);
            }
        }
    } else {
        let dl = s.drop_last();
        let l = s.last();
        assert(sorted_by_key(dl)) by {
            assert forall|i: int, j: int| 0 <= i < j < dl.len() implies !crate::order::key_lt(
                crate::order::key_of(#[trigger] dl[j]),
                crate::order::key_of(#[trigger] dl[i]),
            ) by {
                assert(dl[i] == s[i] && dl[j] == s[j]);
            }
        }
        lemma_insert_sorted(dl, d);
        lemma_insert(dl, d);
        let u = insert_by_key(dl, d);
        let t = u.push(l);
        lemma_key_lt_irreflexive(kd);
        assert forall|i: int, j: int| 0 <= i < j < t.len() implies !crate::order::key_lt(
            crate::order::key_of(#[trigger] t[j]),
            crate::order::key_of(#[trigger] t[i]),
        ) by {
            assert(t[i] == u[i]);
            if j == u.len() {
                assert(u.contains(u[i]));
                if u[i] == d {
                    if crate::order::key_lt(crate::order::key_of(l), kd) {
                        lemma_key_lt_transitive(kd, crate::order::key_of(l), kd);
                    }
                } else {
                    assert(dl.contains(u[i]));
                    let k = choose|k: int| 0 <= k < dl.len() && dl[k] == u[i];
                    assert(s[k] == dl[k]);
                    assert(s[s.len() - 1] == l);
                }
            } else {
                assert(t[j] == u[j]);
            }
        }
    }
}

proof fn lemma_sort_sorted(s: Seq<DiagnosticView>)
    ensures
        sorted_by_key(sort_by_key(s)),
    decreases s.len(),
{
    if s.len() > 0 {
        lemma_sort_sorted(s.drop_last());
        lemma_insert_sorted(sort_by_key(s.drop_last()), s.last());
    }
}

proof fn lemma_part_insert(t: Seq<DiagnosticView>, x: DiagnosticView, root: Seq<char>, inside: bool)
    requires
        sorted_by_key(t),
    ensures
        workspace_part(insert_by_key(t, x), root, inside) == if in_workspace(x, root) == inside {
            insert_by_key(workspace_part(t, root, inside), x)
        } else {
            workspace_part(t, root, inside)
        },
    decreases t.len(),
{
    let kx = crate::order::key_of(x);
    let ft = workspace_part(t, root, inside);
    if t.len() == 0 {
        assert(insert_by_key(t, x) =~= t.push(x));
        assert(t.push(x).drop_last() =~= t);
    } else if !crate::order::key_lt(kx, crate::order::key_of(t.last())) {
        assert(t.push(x).drop_last() =~= t);
        if in_workspace(x, root) == inside && ft.len() > 0 {
            lemma_workspace_part(t, root, inside);
            assert(ft.contains(ft.last())) by {
                assert(ft[ft.len() - 1] == ft.last());
            }
            let k = choose|k: int| 0 <= k < t.len() && t[k] == ft.last();
            if k < t.len() - 1 {
                assert(t[t.len() - 1] == t.last());
                lemma_key_le_transitive(crate::order::key_of(t[k]), crate::order::key_of(t.last()), kx);
            }
        }
    } else {
        let dl = t.drop_last();
        let l = t.last();
        assert(sorted_by_key(dl)) by {
            assert forall|i: int, j: int| 0 <= i < j < dl.len() implies !crate::order::key_lt(
                crate::order::key_of(#[trigger] dl[j]),
                crate::order::key_of(#[trigger] dl[i]),
            ) by {
                assert(dl[i] == t[i] && dl[j] == t[j]);
            }
        }
        lemma_part_insert(dl, x, root, inside);
        assert(insert_by_key(dl, x).push(l).drop_last() =~= insert_by_key(dl, x));
        if in_workspace(l, root) == inside {
            assert(ft == workspace_part(dl, root, inside).push(l));
            assert(ft.drop_last() =~= workspace_part(dl, root, inside));
        }
    }
}

proof fn lemma_part_sort(s: Seq<DiagnosticView>, root: Seq<char>, inside: bool)
    ensures
        workspace_part(sort_by_key(s), root, inside) == sort_by_key(workspace_part(s, root, inside)),
    decreases s.len(),
{
    if s.len() > 0 {
        let dl = s.drop_last();
        let l = s.last();
        lemma_part_sort(dl, root, inside);
        lemma_sort_sorted(dl);
        lemma_part_insert(sort_by_key(dl), l, root, inside);
        if in_workspace(l, root) == inside {
            let fs = workspace_part(s, root, inside);
            assert(fs.drop_last() =~= workspace_part(dl, root, inside));
        }
    }
}

proof fn lemma_part_concat(a: Seq<DiagnosticView>, b: Seq<DiagnosticView>, root: Seq<char>, inside: bool)
    ensures
        workspace_part(a + b, root, inside) == workspace_part(a, root, inside) + workspace_part(b, root, inside),
    decreases b.len(),
{
    if b.len() == 0 {
        assert(a + b =~= a);
        assert(workspace_part(a, root, inside) + workspace_part(b, root, inside) =~= workspace_part(a, root, inside));
    } else {
        lemma_part_concat(a, b.drop_last(), root, inside);
        assert((a + b).drop_last() =~= a + b.drop_last());
        assert((a + b).last() == b.last());
        if in_workspace(b.last(), root) == inside {
            assert(workspace_part(a, root, inside) + workspace_part(b, root, inside) =~= (workspace_part(a, root, inside)
                + workspace_part(b.drop_last(), root, inside)).push(b.last()));
        }
    }
}

proof fn lemma_part_twice(s: Seq<DiagnosticView>, root: Seq<char>, inside: bool, again: bool)
    ensures
        workspace_part(workspace_part(s, root, inside), root, again) == if inside == again {
            workspace_part(s, root, inside)
        } else {
            Seq::<DiagnosticView>::empty()
        },
    decreases s.len(),
{
    if s.len() > 0 {
        lemma_part_twice(s.drop_last(), root, inside, again);
        let r = workspace_part(s.drop_last(), root, inside);
        if in_workspace(s.last(), root) == inside {
            assert(r.push(s.last()).drop_last() =~= r);
        }
    }
}

proof fn lemma_dedup_of_distinct(s: Seq<DiagnosticView>)
    requires
        s.no_duplicates(),
    ensures
        dedup(s) == s,
    decreases s.len(),
{
    if s.len() > 0 {
        lemma_no_duplicates_drop_last(s);
        lemma_dedup_of_distinct(s.drop_last());
        lemma_split_last(s);
    }
}

proof fn lemma_with_spans_of_spanned(s: Seq<DiagnosticView>)
    requires
        forall|x: DiagnosticView| s.contains(x) ==> x.spans.len() > 0,
    ensures
        with_spans(s) == s,
    decreases s.len(),
{
    if s.len() > 0 {
        assert(s.contains(s[s.len() - 1]));
        assert forall|x: DiagnosticView| s.drop_last().contains(x) implies x.spans.len() > 0 by {
            let k = choose|k: int| 0 <= k < s.len() - 1 && s.drop_last()[k] == x;
            assert(s[k] == x);
            assert(s.contains(x));
        }
        lemma_with_spans_of_spanned(s.drop_last());
        lemma_split_last(s);
    }
}

/// Filtering and ordering its own output again changes nothing.
pub proof fn lemma_filter_and_order_idempotent(s: Seq<DiagnosticView>, root: Seq<char>)
    ensures
        filter_and_order(filter_and_order(s, root), root) == filter_and_order(s, root),
{
    let t = sort_by_key(with_spans(dedup(s)));
    let o = filter_and_order(s, root);
    lemma_select_is_workspace_part(t, root, true);
    lemma_select_is_workspace_part(t, root, false);
    assert(o == workspace_part(t, root, true) + workspace_part(t, root, false));
    lemma_filter_and_order(s, root);
    lemma_dedup_of_distinct(o);
    lemma_with_spans_of_spanned(o);
    let t2 = sort_by_key(with_spans(dedup(o)));
    assert(t2 == sort_by_key(o));
    lemma_select_is_workspace_part(t2, root, true);
    lemma_select_is_workspace_part(t2, root, false);
    lemma_sort_sorted(with_spans(dedup(s)));
    lemma_sorted_of_sorted_is_identity(t);
    assert forall|inside: bool| workspace_part(t2, root, inside) == workspace_part(t, root, inside) by {
        lemma_part_sort(o, root, inside);
        lemma_part_concat(workspace_part(t, root, true), workspace_part(t, root, false), root, inside);
        lemma_part_twice(t, root, true, inside);
        lemma_part_twice(t, root, false, inside);
        if inside {
            assert(workspace_part(t, root, true) + Seq::<DiagnosticView>::empty() =~= workspace_part(t, root, true));
        } else {
            assert(Seq::<DiagnosticView>::empty() + workspace_part(t, root, false) =~= workspace_part(t, root, false));
        }
        lemma_part_sort(t, root, inside);
    }
    assert(workspace_part(t2, root, true) == workspace_part(t, root, true));
    assert(workspace_part(t2, root, false) == workspace_part(t, root, false));
}

} // verus!
