//! From classified diagnostics to the list to display and the locations to open.
use vstd::prelude::*;
use crate::classify::Messages;
use crate::diagnostic::{Diagnostic, DiagnosticView, Location, LocationView, Span, SpanView, same_option, views};
use crate::models::{SourceFile, SourceFileView, entry_of, source_file_views};
use crate::options::Options;
use crate::order::{filter_and_order, filter_and_order_messages, select, select_messages, workspace_flags, workspace_flags_of};
use crate::paths::{is_relative_path, path_is_relative};

verus! {

/// Text of the build tool's closing summary of a failed build.
pub const ABORTING_MARKER: &'static str = "aborting due to previous error";

/// Whether `p` occurs in `s` as a contiguous part.
pub open spec fn contains_text(s: Seq<char>, p: Seq<char>) -> bool {
    exists|i: int| 0 <= i && i + p.len() <= s.len() && #[trigger] s.subrange(i, i + p.len()) == p
}

/// A diagnostic with no span that still carries rendered text.
pub open spec fn spanless_rendered(d: DiagnosticView) -> bool {
    d.spans.len() == 0 && d.rendered is Some
}

/// The spanless rendered diagnostics of `s` whose rendered text holds the
/// aborting marker exactly when `marked` holds.
pub open spec fn spanless_with(s: Seq<DiagnosticView>, marked: bool) -> Seq<DiagnosticView>
    decreases s.len(),
{
    if s.len() == 0 {
        s
    } else {
        let r = spanless_with(s.drop_last(), marked);
        if spanless_rendered(s.last()) && contains_text(s.last().rendered->Some_0, ABORTING_MARKER@) == marked {
            r.push(s.last())
        } else {
            r
        }
    }
}

/// Whether some element of `r` has the rendered text of `d`.
pub open spec fn rendered_seen(r: Seq<DiagnosticView>, d: DiagnosticView) -> bool {
    exists|k: int| 0 <= k < r.len() && (#[trigger] r[k]).rendered == d.rendered
}

/// `s` with one diagnostic per rendered text, the first kept.
pub open spec fn dedup_rendered(s: Seq<DiagnosticView>) -> Seq<DiagnosticView>
    decreases s.len(),
{
    if s.len() == 0 {
        s
    } else {
        let r = dedup_rendered(s.drop_last());
        if rendered_seen(r, s.last()) {
            r
        } else {
            r.push(s.last())
        }
    }
}

/// The spanless errors to show when no error has a span: those that are not
/// the aborting summary if there are any, else the aborting summaries; one per
/// rendered text.
pub open spec fn cargo_errors(s: Seq<DiagnosticView>) -> Seq<DiagnosticView> {
    let good = dedup_rendered(spanless_with(s, false));
    let bad = dedup_rendered(spanless_with(s, true));
    if good.len() == 0 {
        bad
    } else {
        good
    }
}

/// The warnings to show: scoped to the workspace unless dependency warnings
/// are wanted, then filtered and ordered.
pub open spec fn warnings_of(non_errors: Seq<DiagnosticView>, show_dependencies_warnings: bool, root: Seq<char>) -> Seq<DiagnosticView> {
    let scoped = if show_dependencies_warnings {
        non_errors
    } else {
        select(non_errors, workspace_flags(non_errors, root), true)
    };
    filter_and_order(scoped, root)
}

/// The errors to show: internal compiler errors before errors, filtered and
/// ordered; the spanless fallback when none is left.
pub open spec fn errors_of(ices: Seq<DiagnosticView>, errors: Seq<DiagnosticView>, root: Seq<char>) -> Seq<DiagnosticView> {
    let e = filter_and_order(ices + errors, root);
    if e.len() == 0 {
        cargo_errors(errors)
    } else {
        e
    }
}

/// Errors followed by warnings when warnings are always wanted; otherwise the
/// errors if there are any, else the warnings.
pub open spec fn compose(errors: Seq<DiagnosticView>, warnings: Seq<DiagnosticView>, show_warnings_if_errors_exist: bool) -> Seq<DiagnosticView> {
    if show_warnings_if_errors_exist {
        errors + warnings
    } else if errors.len() > 0 {
        errors
    } else {
        warnings
    }
}

/// The first `limit` elements, or all of them when `limit` is 0.
pub open spec fn limited(s: Seq<DiagnosticView>, limit: usize) -> Seq<DiagnosticView> {
    if limit == 0 || s.len() <= limit {
        s
    } else {
        s.take(limit as int)
    }
}

pub open spec fn reversed<A>(s: Seq<A>) -> Seq<A> {
    Seq::new(s.len(), |i: int| s[s.len() - 1 - i])
}

/// The composed and limited list, in the order of display.
pub open spec fn displayed(s: Seq<DiagnosticView>, ascending: bool) -> Seq<DiagnosticView> {
    if ascending {
        s
    } else {
        reversed(s)
    }
}

/// The errors and warnings of `m` composed as `options` asks.
pub open spec fn composed_messages(m: Messages, options: Options, root: Seq<char>) -> Seq<DiagnosticView> {
    compose(
        errors_of(views(m.internal_compiler_errors@), views(m.errors@), root),
        warnings_of(views(m.non_errors@), options.show_dependencies_warnings, root),
        options.show_warnings_if_errors_exist,
    )
}

/// The composed messages within the limit: what locations are taken from.
pub open spec fn kept_messages(m: Messages, options: Options, root: Seq<char>) -> Seq<DiagnosticView> {
    limited(composed_messages(m, options, root), options.limit_messages)
}

/// The messages to display, in display order.
pub open spec fn displayed_messages(m: Messages, options: Options, root: Seq<char>) -> Seq<DiagnosticView> {
    displayed(kept_messages(m, options, root), options.ascending_messages_order)
}

/// The position of the last `true`, if any.
pub open spec fn last_flagged(flags: Seq<bool>) -> Option<int>
    decreases flags.len(),
{
    if flags.len() == 0 {
        None
    } else if flags.last() {
        Some(flags.len() - 1)
    } else {
        last_flagged(flags.drop_last())
    }
}

pub open spec fn relative_flags(hops: Seq<LocationView>) -> Seq<bool> {
    hops.map_values(|h: LocationView| path_is_relative(h.file_name))
}

/// The outermost expansion site with a relative file name, or the span itself
/// when no site has one.
pub open spec fn leaf_project_expansion(s: SpanView) -> LocationView {
    match last_flagged(relative_flags(s.expansion)) {
        Some(i) => s.expansion[i],
        None => s.location(),
    }
}

/// Whether errors alone, or every diagnostic, gives locations to open.
pub open spec fn qualifies(d: DiagnosticView, on_warnings: bool) -> bool {
    on_warnings || d.level.spec_is_error()
}

/// One entry per primary span, at its resolved location.
pub open spec fn span_entries(spans: Seq<SpanView>, message: Seq<char>, root: Seq<char>) -> Seq<SourceFileView>
    decreases spans.len(),
{
    if spans.len() == 0 {
        Seq::empty()
    } else {
        let r = span_entries(spans.drop_last(), message, root);
        if spans.last().is_primary {
            r.push(entry_of(leaf_project_expansion(spans.last()), message, root))
        } else {
            r
        }
    }
}

/// The entries of all qualifying diagnostics, in order.
pub open spec fn entries(s: Seq<DiagnosticView>, on_warnings: bool, root: Seq<char>) -> Seq<SourceFileView>
    decreases s.len(),
{
    if s.len() == 0 {
        Seq::empty()
    } else {
        entries(s.drop_last(), on_warnings, root) + if qualifies(s.last(), on_warnings) {
            span_entries(s.last().spans, s.last().message, root)
        } else {
            Seq::empty()
        }
    }
}

/// Whether `r` has an entry at the file and line of `e`.
pub open spec fn line_seen(r: Seq<SourceFileView>, e: SourceFileView) -> bool {
    exists|k: int| 0 <= k < r.len() && (#[trigger] r[k]).relative_path == e.relative_path && r[k].line == e.line
}

/// `e` with one entry per (file, line), the first kept.
pub open spec fn dedup_lines(e: Seq<SourceFileView>) -> Seq<SourceFileView>
    decreases e.len(),
{
    if e.len() == 0 {
        e
    } else {
        let r = dedup_lines(e.drop_last());
        if line_seen(r, e.last()) {
            r
        } else {
            r.push(e.last())
        }
    }
}

/// The locations to open for the diagnostics `s`.
pub open spec fn source_files(s: Seq<DiagnosticView>, on_warnings: bool, root: Seq<char>) -> Seq<SourceFileView> {
    dedup_lines(entries(s, on_warnings, root))
}

/// Whether `p` occurs in `s`.
pub fn text_contains(s: &str, p: &str) -> (r: bool)
    ensures
        r == contains_text(s@, p@),
{
    let n = s.unicode_len();
    let m = p.unicode_len();
    if m > n {
        return false;
    }
    let mut i: usize = 0;
    while i <= n - m
        invariant
            m <= n,
            n == s@.len(),
            m == p@.len(),
            forall|k: int| 0 <= k < i ==> #[trigger] s@.subrange(k, k + m) != p@,
        decreases n - m + 1 - i,
    {
        let mut j: usize = 0;
        let mut same = true;
        while j < m
            invariant
                i <= n - m,
                m <= n,
                n == s@.len(),
                m == p@.len(),
                j <= m,
                same == forall|t: int| 0 <= t < j ==> s@[i + t] == p@[t],
            decreases m - j,
        {
            if s.get_char(i + j) != p.get_char(j) {
                same = false;
            }
            j += 1;
        }
        if same {
            assert(s@.subrange(i as int, i + m) =~= p@);
            return true;
        }
        assert(s@.subrange(i as int, i + m) != p@) by {
            let t = choose|t: int| 0 <= t < m && s@[i + t] != p@[t];
            assert(s@.subrange(i as int, i + m)[t] != p@[t]);
        }
        i += 1;
    }
    false
}

proof fn lemma_last_flagged_in_bounds(flags: Seq<bool>)
    ensures
        last_flagged(flags) matches Some(i) ==> 0 <= i < flags.len() && flags[i],
    decreases flags.len(),
{
    if flags.len() > 0 {
        lemma_last_flagged_in_bounds(flags.drop_last());
    }
}

/// The position of the last `true` in `flags`.
pub fn leaf_expansion_index(flags: &Vec<bool>) -> (r: Option<usize>)
    ensures
        match last_flagged(flags@) {
            Some(i) => r matches Some(k) && k as int == i,
            None => r is None,
        },
        r matches Some(k) ==> k < flags.len(),
{
    proof {
        lemma_last_flagged_in_bounds(flags@);
    }
    assert(flags@.subrange(0, flags.len() as int) =~= flags@);
    let mut i: usize = flags.len();
    while i > 0
        invariant
            i <= flags.len(),
            last_flagged(flags@) == last_flagged(flags@.subrange(0, i as int)),
        decreases i,
    {
        let ghost s = flags@.subrange(0, i as int);
        assert(s.drop_last() =~= flags@.subrange(0, i - 1));
        if flags[i - 1] {
            return Some(i - 1);
        }
        i -= 1;
    }
    None
}

/// The location of `span` to open: its outermost expansion site with a relative
/// file name, or the span itself.
pub fn find_leaf_project_expansion(span: &Span) -> (r: Location)
    ensures
        r@ == leaf_project_expansion(span@),
{
    let mut flags: Vec<bool> = Vec::new();
    let mut i: usize = 0;
    while i < span.expansion.len()
        invariant
            i <= span.expansion.len(),
            flags@.len() == i,
            forall|k: int| 0 <= k < i ==> flags@[k] == path_is_relative(#[trigger] span.expansion@[k].file_name@),
        decreases span.expansion.len() - i,
    {
        flags.push(is_relative_path(&span.expansion[i].file_name));
        i += 1;
    }
    assert(flags@ =~= relative_flags(span@.expansion));
    match leaf_expansion_index(&flags) {
        Some(k) => {
            assert(span@.expansion[k as int] == span.expansion@[k as int]@);
            span.expansion[k].duplicate()
        },
        None => span.location(),
    }
}


/// The spanless rendered diagnostics of `messages` whose rendered text holds the
/// aborting marker exactly when `marked` holds.
fn spanless_messages(messages: &Vec<Diagnostic>, marked: bool) -> (r: Vec<Diagnostic>)
    ensures
        views(r@) == spanless_with(views(messages@), marked),
{
    let mut r: Vec<Diagnostic> = Vec::new();
    let mut i: usize = 0;
    while i < messages.len()
        invariant
            i <= messages.len(),
            views(r@) == spanless_with(views(messages@).subrange(0, i as int), marked),
        decreases messages.len() - i,
    {
        let ghost s = views(messages@).subrange(0, i as int + 1);
        assert(s.drop_last() =~= views(messages@).subrange(0, i as int));
        assert(s.last() == messages@[i as int]@);
        let d = &messages[i];
        assert(d@.spans.len() == d.spans.len());
        let keep = match &d.rendered {
            Some(rendered) => d.spans.len() == 0 && text_contains(rendered.as_str(), ABORTING_MARKER) == marked,
            None => false,
        };
        if keep {
            r.push(d.duplicate());
            assert(views(r@) =~= spanless_with(s.drop_last(), marked).push(s.last()));
        }
        i += 1;
    }
    assert(views(messages@).subrange(0, messages.len() as int) =~= views(messages@));
    r
}

/// `messages` with one diagnostic per rendered text, the first kept.
fn dedup_rendered_messages(messages: &Vec<Diagnostic>) -> (r: Vec<Diagnostic>)
    ensures
        views(r@) == dedup_rendered(views(messages@)),
{
    let mut r: Vec<Diagnostic> = Vec::new();
    let mut i: usize = 0;
    while i < messages.len()
        invariant
            i <= messages.len(),
            views(r@) == dedup_rendered(views(messages@).subrange(0, i as int)),
        decreases messages.len() - i,
    {
        let ghost s = views(messages@).subrange(0, i as int + 1);
        assert(s.drop_last() =~= views(messages@).subrange(0, i as int));
        assert(s.last() == messages@[i as int]@);
        let mut found = false;
        let mut j: usize = 0;
        while j < r.len()
            invariant
                i < messages.len(),
                j <= r.len(),
                found == exists|k: int| 0 <= k < j && (#[trigger] r@[k])@.rendered == messages@[i as int]@.rendered,
            decreases r.len() - j,
        {
            if same_option(&r[j].rendered, &messages[i].rendered) {
                found = true;
            }
            j += 1;
        }
        assert(found == rendered_seen(views(r@), messages@[i as int]@)) by {
            if found {
                let k = choose|k: int| 0 <= k < j && (#[trigger] r@[k])@.rendered == messages@[i as int]@.rendered;
                assert(views(r@)[k] == r@[k]@);
            }
            if rendered_seen(views(r@), messages@[i as int]@) {
                let k = choose|k: int| 0 <= k < views(r@).len() && (#[trigger] views(r@)[k]).rendered == messages@[i as int]@.rendered;
                assert(views(r@)[k] == r@[k]@);
            }
        }
        if !found {
            r.push(messages[i].duplicate());
            assert(views(r@) =~= dedup_rendered(s.drop_last()).push(s.last()));
        }
        i += 1;
    }
    assert(views(messages@).subrange(0, messages.len() as int) =~= views(messages@));
    r
}

/// Spanless errors with rendered text: those that are not the aborting summary
/// when there are any, else the aborting summaries; one per rendered text.
pub fn filter_cargo_errors(messages: &Vec<Diagnostic>) -> (r: Vec<Diagnostic>)
    ensures
        views(r@) == cargo_errors(views(messages@)),
{
    let good = dedup_rendered_messages(&spanless_messages(messages, false));
    let bad = dedup_rendered_messages(&spanless_messages(messages, true));
    if good.len() == 0 {
        bad
    } else {
        good
    }
}

/// The diagnostics of `a` followed by those of `b`.
fn concat_messages(a: &Vec<Diagnostic>, b: &Vec<Diagnostic>) -> (r: Vec<Diagnostic>)
    ensures
        views(r@) == views(a@) + views(b@),
{
    let mut r: Vec<Diagnostic> = Vec::new();
    let mut i: usize = 0;
    while i < a.len()
        invariant
            i <= a.len(),
            r@.len() == i,
            forall|k: int| 0 <= k < i ==> (#[trigger] r@[k])@ == a@[k]@,
        decreases a.len() - i,
    {
        r.push(a[i].duplicate());
        i += 1;
    }
    let mut j: usize = 0;
    while j < b.len()
        invariant
            j <= b.len(),
            r@.len() == a.len() + j,
            forall|k: int| 0 <= k < a.len() ==> (#[trigger] r@[k])@ == a@[k]@,
            forall|k: int| 0 <= k < j ==> (#[trigger] r@[a.len() + k])@ == b@[k]@,
        decreases b.len() - j,
    {
        r.push(b[j].duplicate());
        j += 1;
    }
    assert forall|k: int| 0 <= k < r@.len() implies #[trigger] views(r@)[k] == (views(a@) + views(b@))[k] by {
        if k >= a.len() {
            assert(r@[a.len() + (k - a.len())] == r@[k]);
        }
    }
    assert(views(r@) =~= views(a@) + views(b@));
    r
}

/// The errors and the warnings to show, each filtered and ordered.
pub struct FilteredAndOrderedMessages {
    pub errors: Vec<Diagnostic>,
    pub warnings: Vec<Diagnostic>,
}

impl FilteredAndOrderedMessages {
    pub fn filter(messages: &Messages, options: &Options, workspace_root: &String) -> (r: Self)
        ensures
            views(r.errors@) == errors_of(
                views(messages.internal_compiler_errors@),
                views(messages.errors@),
                workspace_root@,
            ),
            views(r.warnings@) == warnings_of(
                views(messages.non_errors@),
                options.show_dependencies_warnings,
                workspace_root@,
            ),
    {
        let warnings = if options.show_dependencies_warnings {
            filter_and_order_messages(&messages.non_errors, workspace_root)
        } else {
            let flags = workspace_flags_of(&messages.non_errors, workspace_root);
            let scoped = select_messages(&messages.non_errors, &flags, true);
            filter_and_order_messages(&scoped, workspace_root)
        };
        let all_errors = concat_messages(&messages.internal_compiler_errors, &messages.errors);
        let errors = filter_and_order_messages(&all_errors, workspace_root);
        let errors = if errors.len() == 0 {
            filter_cargo_errors(&messages.errors)
        } else {
            errors
        };
        FilteredAndOrderedMessages { errors, warnings }
    }
}


fn push_entry(r: &mut Vec<SourceFile>, e: SourceFile)
    ensures
        source_file_views(final(r)@) == if line_seen(source_file_views(old(r)@), e@) {
            source_file_views(old(r)@)
        } else {
            source_file_views(old(r)@).push(e@)
        },
{
    let mut found = false;
    let mut k: usize = 0;
    while k < r.len()
        invariant
            k <= r.len(),
            found == exists|t: int| 0 <= t < k && (#[trigger] r@[t]).relative_path@ == e.relative_path@ && r@[t].line == e.line,
        decreases r.len() - k,
    {
        if r[k].relative_path == e.relative_path && r[k].line == e.line {
            found = true;
        }
        k += 1;
    }
    let ghost v = source_file_views(r@);
    assert(found == line_seen(v, e@)) by {
        if found {
            let t = choose|t: int| 0 <= t < k && (#[trigger] r@[t]).relative_path@ == e.relative_path@ && r@[t].line == e.line;
            assert(v[t] == r@[t]@);
        }
        if line_seen(v, e@) {
            let t = choose|t: int| 0 <= t < v.len() && (#[trigger] v[t]).relative_path == e@.relative_path && v[t].line == e@.line;
            assert(v[t] == r@[t]@);
        }
    }
    if !found {
        r.push(e);
        assert(source_file_views(r@) =~= v.push(e@));
    }
}

/// The locations to open for `messages`: for each qualifying diagnostic, each
/// primary span resolved through its expansion chain, one entry per (file, line).
pub fn extract_source_files_for_external_app(messages: &Vec<Diagnostic>, options: &Options, workspace_root: &String) -> (r: Vec<SourceFile>)
    ensures
        source_file_views(r@) == source_files(
            views(messages@),
            options.open_in_external_application_on_warnings,
            workspace_root@,
        ),
{
    let on_warnings = options.open_in_external_application_on_warnings;
    let mut r: Vec<SourceFile> = Vec::new();
    let mut i: usize = 0;
    while i < messages.len()
        invariant
            i <= messages.len(),
            on_warnings == options.open_in_external_application_on_warnings,
            source_file_views(r@) == dedup_lines(entries(views(messages@).subrange(0, i as int), on_warnings, workspace_root@)),
        decreases messages.len() - i,
    {
        let ghost prefix = views(messages@).subrange(0, i as int);
        let ghost s = views(messages@).subrange(0, i as int + 1);
        assert(s.drop_last() =~= prefix);
        assert(s.last() == messages@[i as int]@);
        let d = &messages[i];
        if on_warnings || d.level.is_error() {
            let ghost sv = d@.spans;
            let ghost msg = d@.message;
            assert(sv.subrange(0, 0) =~= Seq::<SpanView>::empty());
            assert(entries(prefix, on_warnings, workspace_root@) + span_entries(sv.subrange(0, 0), msg, workspace_root@) =~= entries(prefix, on_warnings, workspace_root@));
            let mut j: usize = 0;
            while j < d.spans.len()
                invariant
                    i < messages.len(),
                    d == &messages[i as int],
                    sv == d@.spans,
                    msg == d@.message,
                    j <= d.spans.len(),
                    source_file_views(r@) == dedup_lines(entries(prefix, on_warnings, workspace_root@) + span_entries(sv.subrange(0, j as int), msg, workspace_root@)),
                decreases d.spans.len() - j,
            {
                let ghost sub = sv.subrange(0, j as int + 1);
                assert(sub.drop_last() =~= sv.subrange(0, j as int));
                assert(sub.last() == d.spans@[j as int]@);
                let span = &d.spans[j];
                if span.is_primary {
                    let loc = find_leaf_project_expansion(span);
                    let e = SourceFile::from_diagnostic_data(loc, d, workspace_root);
                    let ghost before = entries(prefix, on_warnings, workspace_root@) + span_entries(sv.subrange(0, j as int), msg, workspace_root@);
                    assert(e@ == entry_of(leaf_project_expansion(sub.last()), msg, workspace_root@));
                    push_entry(&mut r, e);
                    assert(entries(prefix, on_warnings, workspace_root@) + span_entries(sub, msg, workspace_root@) =~= before.push(e@));
                    assert(before.push(e@).drop_last() =~= before);
                } else {
                    assert(span_entries(sub, msg, workspace_root@) == span_entries(sv.subrange(0, j as int), msg, workspace_root@));
                }
                j += 1;
            }
            assert(sv.subrange(0, d.spans.len() as int) =~= sv);
            assert(d@.spans.len() == d.spans.len());
        } else {
            assert(entries(prefix, on_warnings, workspace_root@) + Seq::<SourceFileView>::empty() =~= entries(prefix, on_warnings, workspace_root@));
        }
        i += 1;
    }
    assert(views(messages@).subrange(0, messages.len() as int) =~= views(messages@));
    r
}

/// The messages in display order and the locations to open.
pub struct TransformedMessages {
    pub messages: Vec<Diagnostic>,
    pub source_files_in_consistent_order: Vec<SourceFile>,
}

fn reverse_messages(v: Vec<Diagnostic>) -> (r: Vec<Diagnostic>)
    ensures
        views(r@) == reversed(views(v@)),
{
    let ghost orig = v@;
    let mut v = v;
    let mut r: Vec<Diagnostic> = Vec::new();
    while v.len() > 0
        invariant
            v@.len() + r@.len() == orig.len(),
            v@ == orig.subrange(0, v@.len() as int),
            forall|k: int| 0 <= k < r@.len() ==> #[trigger] r@[k] == orig[orig.len() - 1 - k],
        decreases v.len(),
    {
        let x = v.pop();
        match x {
            Some(d) => r.push(d),
            None => {},
        }
    }
    assert(views(r@) =~= reversed(views(orig)));
    r
}

impl TransformedMessages {
    /// Filters and orders the classified messages, composes errors and warnings,
    /// applies the limit, extracts the locations to open from that list, and
    /// reverses it unless ascending order is asked for.
    pub fn transform(messages: Messages, options: &Options, workspace_root: &String) -> (r: Self)
        ensures
            views(r.messages@) == displayed_messages(messages, *options, workspace_root@),
            source_file_views(r.source_files_in_consistent_order@) == source_files(
                kept_messages(messages, *options, workspace_root@),
                options.open_in_external_application_on_warnings,
                workspace_root@,
            ),
    {
        let filtered = FilteredAndOrderedMessages::filter(&messages, options, workspace_root);
        let mut errors = filtered.errors;
        let mut warnings = filtered.warnings;
        let ghost (ev, wv) = (views(errors@), views(warnings@));
        let mut composed = if options.show_warnings_if_errors_exist {
            errors.append(&mut warnings);
            assert(views(errors@) =~= ev + wv);
            errors
        } else if errors.len() > 0 {
            errors
        } else {
            warnings
        };
        let limit = options.limit_messages;
        if limit != 0 && composed.len() > limit {
            let ghost before = composed@;
            composed.truncate(limit);
            assert(views(composed@) =~= views(before).take(limit as int));
        }
        let source_files_in_consistent_order = extract_source_files_for_external_app(&composed, options, workspace_root);
        let messages = if options.ascending_messages_order {
            composed
        } else {
            reverse_messages(composed)
        };
        TransformedMessages { messages, source_files_in_consistent_order }
    }
}

} // verus!
