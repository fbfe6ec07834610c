//! Deduplication and ordering of diagnostics by the locations they point at.
use vstd::prelude::*;
use crate::diagnostic::{Diagnostic, DiagnosticView, views};
use crate::paths::{path_starts_with, starts_with_path};

verus! {

/// Lexicographic order of texts by code point (the byte order of their UTF-8 form).
pub open spec fn chars_lt(a: Seq<char>, b: Seq<char>) -> bool
    decreases a.len(),
{
    if a.len() == 0 {
        b.len() > 0
    } else if b.len() == 0 {
        false
    } else if a[0] != b[0] {
        (a[0] as u32) < (b[0] as u32)
    } else {
        chars_lt(a.drop_first(), b.drop_first())
    }
}

/// Order of (file name, line) pairs: by file name, then by line.
pub open spec fn pair_lt(a: (Seq<char>, usize), b: (Seq<char>, usize)) -> bool {
    chars_lt(a.0, b.0) || (a.0 == b.0 && a.1 < b.1)
}

/// Lexicographic order of sequences of (file name, line) pairs.
pub open spec fn key_lt(a: Seq<(Seq<char>, usize)>, b: Seq<(Seq<char>, usize)>) -> bool
    decreases a.len(),
{
    if a.len() == 0 {
        b.len() > 0
    } else if b.len() == 0 {
        false
    } else if a[0] != b[0] {
        pair_lt(a[0], b[0])
    } else {
        key_lt(a.drop_first(), b.drop_first())
    }
}

/// The grouping key of a diagnostic: the (file name, line) of its spans, last span first.
pub open spec fn key_of(d: DiagnosticView) -> Seq<(Seq<char>, usize)> {
    Seq::new(
        d.spans.len(),
        |i: int| (d.spans[d.spans.len() - 1 - i].file_name, d.spans[d.spans.len() - 1 - i].line_start),
    )
}

/// `s` without repeated diagnostics, the first occurrence of each kept.
pub open spec fn dedup(s: Seq<DiagnosticView>) -> Seq<DiagnosticView>
    decreases s.len(),
{
    if s.len() == 0 {
        s
    } else {
        let r = dedup(s.drop_last());
        if r.contains(s.last()) {
            r
        } else {
            r.push(s.last())
        }
    }
}

/// The diagnostics of `s` that have at least one span.
pub open spec fn with_spans(s: Seq<DiagnosticView>) -> Seq<DiagnosticView>
    decreases s.len(),
{
    if s.len() == 0 {
        s
    } else {
        let r = with_spans(s.drop_last());
        if s.last().spans.len() > 0 {
            r.push(s.last())
        } else {
            r
        }
    }
}

/// Places `d` into `s` after every element whose key is not greater than its own.
pub open spec fn insert_by_key(s: Seq<DiagnosticView>, d: DiagnosticView) -> Seq<DiagnosticView>
    decreases s.len(),
{
    if s.len() == 0 {
        seq![d]
    } else if !key_lt(key_of(d), key_of(s.last())) {
        s.push(d)
    } else {
        insert_by_key(s.drop_last(), d).push(s.last())
    }
}

/// Stable sort by key: equal keys keep their order of arrival.
pub open spec fn sort_by_key(s: Seq<DiagnosticView>) -> Seq<DiagnosticView>
    decreases s.len(),
{
    if s.len() == 0 {
        s
    } else {
        insert_by_key(sort_by_key(s.drop_last()), s.last())
    }
}

/// The elements of `s` whose flag (by position) equals `keep`, in order.
pub open spec fn select(s: Seq<DiagnosticView>, flags: Seq<bool>, keep: bool) -> Seq<DiagnosticView>
    decreases s.len(),
{
    if s.len() == 0 {
        s
    } else {
        let r = select(s.drop_last(), flags, keep);
        if flags[s.len() - 1] == keep {
            r.push(s.last())
        } else {
            r
        }
    }
}

/// Flagged elements first, then the others, each part in the order of `s`.
pub open spec fn flagged_first(s: Seq<DiagnosticView>, flags: Seq<bool>) -> Seq<DiagnosticView> {
    select(s, flags, true) + select(s, flags, false)
}

/// For each diagnostic, whether its target lies inside the workspace root.
pub open spec fn workspace_flags(s: Seq<DiagnosticView>, root: Seq<char>) -> Seq<bool> {
    s.map_values(|d: DiagnosticView| path_starts_with(d.src_path, root))
}

/// Deduplicate, drop spanless diagnostics, sort stably by key, then put the
/// workspace's own diagnostics before those of dependencies.
pub open spec fn filter_and_order(s: Seq<DiagnosticView>, root: Seq<char>) -> Seq<DiagnosticView> {
    let t = sort_by_key(with_spans(dedup(s)));
    flagged_first(t, workspace_flags(t, root))
}

pub(crate) proof fn lemma_chars_lt_irreflexive(a: Seq<char>)
    ensures
        !chars_lt(a, a),
    decreases a.len(),
{
    if a.len() > 0 {
        lemma_chars_lt_irreflexive(a.drop_first());
    }
}

fn text_lt(a: &String, b: &String) -> (r: bool)
    ensures
        r == chars_lt(a@, b@),
{
    let sa = a.as_str();
    let sb = b.as_str();
    let la = sa.unicode_len();
    let lb = sb.unicode_len();
    assert(a@.subrange(0, la as int) =~= a@);
    assert(b@.subrange(0, lb as int) =~= b@);
    let mut i: usize = 0;
    loop
        invariant
            i <= la,
            i <= lb,
            la == a@.len(),
            lb == b@.len(),
            sa@ == a@,
            sb@ == b@,
            chars_lt(a@, b@) == chars_lt(a@.subrange(i as int, la as int), b@.subrange(i as int, lb as int)),
        decreases la - i,
    {
        let ghost x = a@.subrange(i as int, la as int);
        let ghost y = b@.subrange(i as int, lb as int);
        if i == la {
            return i < lb;
        }
        if i == lb {
            return false;
        }
        let ca = sa.get_char(i);
        let cb = sb.get_char(i);
        assert(x[0] == ca && y[0] == cb);
        if ca != cb {
            return (ca as u32) < (cb as u32);
        }
        assert(x.drop_first() =~= a@.subrange(i + 1, la as int));
        assert(y.drop_first() =~= b@.subrange(i + 1, lb as int));
        i += 1;
    }
}

/// Whether the key of `a` is less than the key of `b`.
fn key_less(a: &Diagnostic, b: &Diagnostic) -> (r: bool)
    ensures
        r == key_lt(key_of(a@), key_of(b@)),
{
    let na = a.spans.len();
    let nb = b.spans.len();
    let ghost ka = key_of(a@);
    let ghost kb = key_of(b@);
    assert(a@.spans.len() == na && b@.spans.len() == nb);
    assert(ka.subrange(0, na as int) =~= ka);
    assert(kb.subrange(0, nb as int) =~= kb);
    let mut i: usize = 0;
    loop
        invariant
            i <= na,
            i <= nb,
            na == a.spans.len(),
            nb == b.spans.len(),
            ka == key_of(a@),
            kb == key_of(b@),
            ka.len() == na,
            kb.len() == nb,
            key_lt(ka, kb) == key_lt(ka.subrange(i as int, na as int), kb.subrange(i as int, nb as int)),
        decreases na - i,
    {
        let ghost x = ka.subrange(i as int, na as int);
        let ghost y = kb.subrange(i as int, nb as int);
        if i == na {
            return i < nb;
        }
        if i == nb {
            return false;
        }
        let sa = &a.spans[na - 1 - i];
        let sb = &b.spans[nb - 1 - i];
        assert(x[0] == (sa@.file_name, sa@.line_start));
        assert(y[0] == (sb@.file_name, sb@.line_start));
        if !(sa.file_name == sb.file_name) {
            return text_lt(&sa.file_name, &sb.file_name);
        }
        if sa.line_start != sb.line_start {
            proof {
                lemma_chars_lt_irreflexive(sa@.file_name);
            }
            return sa.line_start < sb.line_start;
        }
        assert(x.drop_first() =~= ka.subrange(i + 1, na as int));
        assert(y.drop_first() =~= kb.subrange(i + 1, nb as int));
        i += 1;
    }
}

/// The diagnostics of `messages` without repetitions, first occurrences kept.
pub fn dedup_messages(messages: &Vec<Diagnostic>) -> (r: Vec<Diagnostic>)
    ensures
        views(r@) == dedup(views(messages@)),
{
    let mut r: Vec<Diagnostic> = Vec::new();
    let mut i: usize = 0;
    while i < messages.len()
        invariant
            i <= messages.len(),
            views(r@) == dedup(views(messages@).subrange(0, i as int)),
        decreases messages.len() - i,
    {
        let ghost s = views(messages@).subrange(0, i as int + 1);
        assert(s.drop_last() =~= views(messages@).subrange(0, i as int));
        assert(s.last() == messages@[i as int]@);
        let mut found = false;
        let mut j: usize = 0;
        while j < r.len()
            invariant
                i < messages.len(),
                j <= r.len(),
                found == exists|k: int| 0 <= k < j && r@[k]@ == messages@[i as int]@,
            decreases r.len() - j,
        {
            if r[j].same_as(&messages[i]) {
                found = true;
            }
            j += 1;
        }
        assert(found == views(r@).contains(messages@[i as int]@)) by {
            if found {
                let k = choose|k: int| 0 <= k < j && r@[k]@ == messages@[i as int]@;
                assert(views(r@)[k] == messages@[i as int]@);
            }
        }
        if !found {
            r.push(messages[i].duplicate());
            assert(views(r@) =~= dedup(s.drop_last()).push(s.last()));
        }
        i += 1;
    }
    assert(views(messages@).subrange(0, messages.len() as int) =~= views(messages@));
    r
}

/// The diagnostics of `messages` that have at least one span.
pub fn drop_spanless(messages: &Vec<Diagnostic>) -> (r: Vec<Diagnostic>)
    ensures
        views(r@) == with_spans(views(messages@)),
{
    let mut r: Vec<Diagnostic> = Vec::new();
    let mut i: usize = 0;
    while i < messages.len()
        invariant
            i <= messages.len(),
            views(r@) == with_spans(views(messages@).subrange(0, i as int)),
        decreases messages.len() - i,
    {
        let ghost s = views(messages@).subrange(0, i as int + 1);
        assert(s.drop_last() =~= views(messages@).subrange(0, i as int));
        assert(s.last() == messages@[i as int]@);
        assert(messages@[i as int]@.spans.len() == messages@[i as int].spans.len());
        if messages[i].spans.len() > 0 {
            r.push(messages[i].duplicate());
            assert(views(r@) =~= with_spans(s.drop_last()).push(s.last()));
        }
        i += 1;
    }
    assert(views(messages@).subrange(0, messages.len() as int) =~= views(messages@));
    r
}

proof fn lemma_insert_at(s: Seq<DiagnosticView>, d: DiagnosticView, j: int)
    requires
        0 <= j <= s.len(),
        forall|k: int| j <= k < s.len() ==> key_lt(key_of(d), key_of(#[trigger] s[k])),
        j == 0 || !key_lt(key_of(d), key_of(s[j - 1])),
    ensures
        insert_by_key(s, d) == s.subrange(0, j).push(d) + s.subrange(j, s.len() as int),
    decreases s.len(),
{
    if s.len() == j {
        assert(s.subrange(0, j).push(d) + s.subrange(j, s.len() as int) =~= s.push(d));
    } else {
        lemma_insert_at(s.drop_last(), d, j);
        assert(s.subrange(0, j).push(d) + s.subrange(j, s.len() as int) =~= (
        s.drop_last().subrange(0, j).push(d) + s.drop_last().subrange(j, s.len() - 1)).push(s.last()));
    }
}

/// Stable sort of `messages` by key.
pub fn sort_messages(messages: &Vec<Diagnostic>) -> (r: Vec<Diagnostic>)
    ensures
        views(r@) == sort_by_key(views(messages@)),
{
    let mut r: Vec<Diagnostic> = Vec::new();
    let mut i: usize = 0;
    while i < messages.len()
        invariant
            i <= messages.len(),
            views(r@) == sort_by_key(views(messages@).subrange(0, i as int)),
        decreases messages.len() - i,
    {
        let ghost s = views(messages@).subrange(0, i as int + 1);
        assert(s.drop_last() =~= views(messages@).subrange(0, i as int));
        assert(s.last() == messages@[i as int]@);
        let d = &messages[i];
        let mut j: usize = r.len();
        loop
            invariant
                j <= r.len(),
                forall|k: int| j <= k < r.len() ==> key_lt(key_of(d@), key_of(#[trigger] r@[k]@)),
            ensures
                j <= r.len(),
                forall|k: int| j <= k < r.len() ==> key_lt(key_of(d@), key_of(#[trigger] r@[k]@)),
                j == 0 || !key_lt(key_of(d@), key_of(r@[j - 1]@)),
            decreases j,
        {
            if j == 0 {
                break;
            }
            if !key_less(d, &r[j - 1]) {
                break;
            }
            j -= 1;
        }
        let ghost v = views(r@);
        proof {
            assert forall|k: int| j <= k < v.len() implies key_lt(key_of(d@), key_of(#[trigger] v[k])) by {
                assert(v[k] == r@[k]@);
            }
            if j > 0 {
                assert(v[j - 1] == r@[j - 1]@);
            }
            lemma_insert_at(v, d@, j as int);
        }
        r.insert(j, d.duplicate());
        assert(views(r@) =~= v.subrange(0, j as int).push(d@) + v.subrange(j as int, v.len() as int));
        i += 1;
    }
    assert(views(messages@).subrange(0, messages.len() as int) =~= views(messages@));
    r
}


/// The diagnostics of `messages` whose flag (by position) equals `keep`, in order.
pub fn select_messages(messages: &Vec<Diagnostic>, flags: &Vec<bool>, keep: bool) -> (r: Vec<Diagnostic>)
    requires
        flags.len() == messages.len(),
    ensures
        views(r@) == select(views(messages@), flags@, keep),
{
    let mut r: Vec<Diagnostic> = Vec::new();
    let mut i: usize = 0;
    while i < messages.len()
        invariant
            i <= messages.len(),
            flags.len() == messages.len(),
            views(r@) == select(views(messages@).subrange(0, i as int), flags@, keep),
        decreases messages.len() - i,
    {
        let ghost s = views(messages@).subrange(0, i as int + 1);
        assert(s.drop_last() =~= views(messages@).subrange(0, i as int));
        assert(s.last() == messages@[i as int]@);
        if flags[i] == keep {
            r.push(messages[i].duplicate());
            assert(views(r@) =~= select(s.drop_last(), flags@, keep).push(s.last()));
        }
        i += 1;
    }
    assert(views(messages@).subrange(0, messages.len() as int) =~= views(messages@));
    r
}

/// Flagged diagnostics first, then the others, each part in the order of `messages`.
pub fn partition_by_flags(messages: &Vec<Diagnostic>, flags: &Vec<bool>) -> (r: Vec<Diagnostic>)
    requires
        flags.len() == messages.len(),
    ensures
        views(r@) == flagged_first(views(messages@), flags@),
{
    let mut first = select_messages(messages, flags, true);
    let mut rest = select_messages(messages, flags, false);
    let ghost a = first@;
    let ghost b = rest@;
    first.append(&mut rest);
    assert(views(first@) =~= views(a) + views(b));
    first
}

/// For each diagnostic, whether its target lies inside `workspace_root`.
pub fn workspace_flags_of(messages: &Vec<Diagnostic>, workspace_root: &String) -> (r: Vec<bool>)
    ensures
        r@ == workspace_flags(views(messages@), workspace_root@),
{
    let mut r: Vec<bool> = Vec::new();
    let mut i: usize = 0;
    while i < messages.len()
        invariant
            i <= messages.len(),
            r@.len() == i,
            forall|k: int| 0 <= k < i ==> r@[k] == path_starts_with(#[trigger] messages@[k].src_path@, workspace_root@),
        decreases messages.len() - i,
    {
        r.push(starts_with_path(&messages[i].src_path, workspace_root));
        i += 1;
    }
    assert(r@ =~= workspace_flags(views(messages@), workspace_root@));
    r
}

/// Deduplicates `messages`, drops those without spans, sorts them stably by the
/// (file, line) pairs of their spans taken last span first, and puts the
/// workspace's own diagnostics before those of dependencies.
pub fn filter_and_order_messages(messages: &Vec<Diagnostic>, workspace_root: &String) -> (r: Vec<Diagnostic>)
    ensures
        views(r@) == filter_and_order(views(messages@), workspace_root@),
{
    let unique = dedup_messages(messages);
    let spanned = drop_spanless(&unique);
    let sorted = sort_messages(&spanned);
    let flags = workspace_flags_of(&sorted, workspace_root);
    partition_by_flags(&sorted, &flags)
}

} // verus!
